//! The encodings agree with the `ssz` crate, on well-formed and on malformed bytes.

use eip8025::encoded::{decode_items, encode_items};
use eip8025::engine::forkchoice::ForkchoiceState;
use eip8025::engine::persisted_state::{
    proof_engine_db_key, PersistedBlockNumberMapping, PersistedParentChildren,
    PersistedProofEngineState, PersistedRequestBuffer, PersistedTreeState,
};
use eip8025::execution_proof::SignedExecutionProof;
use eip8025::hash::{ExecutionBlockHash, Hash256, SignatureBytes};
use eip8025::execution_proof::{ExecutionProof, PublicInput};
use eip8025::proof_data::proof_data;
use eip8025::ssz::{decode_chunks, decode_container, decode_list, encode_container, Part};
use ssz::{Decode, Encode, SszDecoderBuilder, SszEncoder};

/// Numbers that look random.
struct Numbers(u64);

impl Numbers {
    fn next(&mut self) -> u64 {
        self.0 = self.0.wrapping_mul(6364136223846793005).wrapping_add(1442695040888963407);
        self.0 >> 33
    }

    fn below(&mut self, n: u64) -> u64 {
        self.next() % n
    }

    /// Bytes many of which are small multiples of four.
    fn bytes(&mut self, longest: u64) -> Vec<u8> {
        let len = self.below(longest + 1);
        (0..len)
            .map(|_| match self.below(4) {
                0 => 0,
                1 => 4 * self.below(5) as u8,
                2 => self.below(16) as u8,
                _ => self.below(256) as u8,
            })
            .collect()
    }
}

fn variable(bytes: &[u8]) -> Part {
    Part { fixed: false, bytes: bytes.to_vec() }
}

fn fixed(bytes: &[u8]) -> Part {
    Part { fixed: true, bytes: bytes.to_vec() }
}

#[test]
fn lists_are_encoded_as_by_the_ssz_crate() {
    let mut numbers = Numbers(1);
    for _ in 0..2000 {
        let items: Vec<Vec<u8>> = (0..numbers.below(5)).map(|_| numbers.bytes(9)).collect();
        let parts = items.iter().map(|item| variable(item)).collect();
        let bytes = encode_container(&parts).unwrap();
        assert_eq!(bytes, Encode::as_ssz_bytes(&items));
        assert_eq!(decode_list(&bytes), Some(items));
    }
}

#[test]
fn lists_are_decoded_as_by_the_ssz_crate() {
    let mut numbers = Numbers(2);
    let mut accepted = 0;
    for _ in 0..200000 {
        let mut bytes = numbers.bytes(14);
        // Zero the high bytes of what may be offsets.
        for (i, byte) in bytes.iter_mut().enumerate() {
            if i % 4 != 0 && i < 12 {
                *byte = 0;
            }
        }
        let outside = <Vec<Vec<u8>> as Decode>::from_ssz_bytes(&bytes).ok();
        accepted += outside.is_some() as usize;
        assert_eq!(decode_list(&bytes), outside, "{bytes:?}");
    }
    assert!(accepted > 1000);
}

/// Decodes a number, two lists and a number with the `ssz` crate.
fn outside_container(bytes: &[u8]) -> Option<(u64, Vec<u8>, Vec<u8>, u16)> {
    let mut builder = SszDecoderBuilder::new(bytes);
    builder.register_type::<u64>().ok()?;
    builder.register_type::<Vec<u8>>().ok()?;
    builder.register_type::<Vec<u8>>().ok()?;
    builder.register_type::<u16>().ok()?;
    let mut decoder = builder.build().ok()?;
    Some((
        decoder.decode_next().ok()?,
        decoder.decode_next().ok()?,
        decoder.decode_next().ok()?,
        decoder.decode_next().ok()?,
    ))
}

#[test]
fn containers_are_encoded_as_by_the_ssz_crate() {
    let mut numbers = Numbers(3);
    for _ in 0..2000 {
        let (a, d) = (numbers.next(), numbers.below(65536) as u16);
        let (b, c) = (numbers.bytes(9), numbers.bytes(9));
        let mut outside = Vec::new();
        let mut encoder = SszEncoder::container(&mut outside, 8 + 4 + 4 + 2);
        encoder.append(&a);
        encoder.append(&b);
        encoder.append(&c);
        encoder.append(&d);
        encoder.finalize();
        let parts =
            vec![fixed(&a.to_le_bytes()), variable(&b), variable(&c), fixed(&d.to_le_bytes())];
        assert_eq!(encode_container(&parts), Some(outside));
    }
}

#[test]
fn containers_are_decoded_as_by_the_ssz_crate() {
    let mut numbers = Numbers(4);
    let mut accepted = 0;
    for _ in 0..200000 {
        let mut bytes = numbers.bytes(26);
        for i in [9, 10, 11, 13, 14, 15] {
            if i < bytes.len() {
                bytes[i] = 0;
            }
        }
        if bytes.len() > 12 && numbers.below(2) == 0 {
            bytes[8] = 18;
            bytes[12] = 16 + numbers.below(12) as u8;
        }
        let parts = decode_container(&bytes, &vec![Some(8), None, None, Some(2)]);
        let inside = parts.map(|parts| {
            (
                u64::from_le_bytes(parts[0][..].try_into().unwrap()),
                parts[1].clone(),
                parts[2].clone(),
                u16::from_le_bytes(parts[3][..].try_into().unwrap()),
            )
        });
        accepted += inside.is_some() as usize;
        assert_eq!(inside, outside_container(&bytes), "{bytes:?}");
    }
    assert!(accepted > 1000);
}

#[test]
fn items_of_one_size_are_decoded_as_by_the_ssz_crate() {
    for len in 0..70 {
        let bytes: Vec<u8> = (0..len).collect();
        let inside = decode_chunks(&bytes, 8);
        let outside = <Vec<u64> as Decode>::from_ssz_bytes(&bytes).ok();
        let numbers = inside.map(|items| {
            items
                .iter()
                .map(|item| u64::from_le_bytes(item[..].try_into().unwrap()))
                .collect::<Vec<u64>>()
        });
        assert_eq!(numbers, outside);
    }
}

fn proof_of(bytes: Vec<u8>) -> SignedExecutionProof {
    SignedExecutionProof {
        message: ExecutionProof {
            proof_data: proof_data(bytes).unwrap(),
            proof_type: 3,
            public_input: PublicInput { new_payload_request_root: Hash256::repeat_byte(0x21) },
        },
        validator_index: 7,
        signature: SignatureBytes::empty(),
    }
}

#[test]
fn lists_of_proofs_are_lists_of_their_encodings() {
    let proofs = vec![proof_of(vec![]), proof_of(vec![1, 2, 3])];
    let encodings: Vec<Vec<u8>> = proofs.iter().map(|p| p.as_ssz_bytes()).collect();
    let bytes = encode_items(&proofs).unwrap();
    assert_eq!(bytes, Encode::as_ssz_bytes(&encodings));
    assert_eq!(decode_items::<SignedExecutionProof>(&bytes), Some(proofs));
    assert_eq!(decode_items::<SignedExecutionProof>(&bytes[..bytes.len() - 4]), None);
}

/// The whole stored state, part by part, as the `ssz` crate lays it out.
#[test]
fn stored_states_are_laid_out_as_by_the_ssz_crate() {
    let hash = ExecutionBlockHash::repeat_byte;
    let fcs = ForkchoiceState {
        head_block_hash: hash(3),
        safe_block_hash: hash(2),
        finalized_block_hash: hash(1),
    };
    let stored = PersistedProofEngineState {
        version: 1,
        last_valid_fcs: fcs,
        latest_fcs: Some(fcs),
        tree: PersistedTreeState {
            proofs_by_block_hash: vec![],
            request_root_to_block_hash: vec![],
            parent_to_children: vec![PersistedParentChildren {
                parent: hash(1),
                children: vec![hash(2), hash(3)],
            }],
            block_number_to_block_hash: vec![PersistedBlockNumberMapping {
                block_number: 9,
                block_hashes: vec![hash(2)],
            }],
            current_canonical_head: hash(3),
        },
        buffer: PersistedRequestBuffer { requests: vec![] },
    };

    let hashes = |list: &[u8]| -> Vec<u8> { list.iter().flat_map(|b| [*b; 32]).collect() };
    let mut children = Vec::new();
    let mut encoder = SszEncoder::container(&mut children, 32 + 4);
    encoder.append(&[1u8; 32]);
    encoder.append(&hashes(&[2, 3]));
    encoder.finalize();
    let mut numbers = Vec::new();
    let mut encoder = SszEncoder::container(&mut numbers, 8 + 4);
    encoder.append(&9u64);
    encoder.append(&hashes(&[2]));
    encoder.finalize();
    let mut tree = Vec::new();
    let mut encoder = SszEncoder::container(&mut tree, 4 * 4 + 32);
    encoder.append(&Vec::<u8>::new());
    encoder.append(&Vec::<u8>::new());
    encoder.append(&Encode::as_ssz_bytes(&vec![children]));
    encoder.append(&Encode::as_ssz_bytes(&vec![numbers]));
    encoder.append(&[3u8; 32]);
    encoder.finalize();
    let mut buffer = Vec::new();
    let mut encoder = SszEncoder::container(&mut buffer, 4);
    encoder.append(&Vec::<u8>::new());
    encoder.finalize();
    let mut pending = vec![1];
    pending.extend(hashes(&[3, 2, 1]));
    let mut outside = Vec::new();
    let mut encoder = SszEncoder::container(&mut outside, 8 + 96 + 4 * 3);
    encoder.append(&1u64);
    for byte in [3u8, 2, 1] {
        encoder.append(&[byte; 32]);
    }
    encoder.append(&pending);
    encoder.append(&tree);
    encoder.append(&buffer);
    encoder.finalize();
    assert_eq!(stored.as_store_bytes(), outside);
    assert_eq!(PersistedProofEngineState::from_store_bytes(&outside).unwrap(), stored);
    assert_eq!(proof_engine_db_key(), Hash256::zero());
}
