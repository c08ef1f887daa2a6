//! Proofs, their encodings, and the status that a node announces.

use eip8025::codec::DecodeError;
use eip8025::execution_proof::{
    domain_execution_proof, ExecutionProof, GeneratedProof, ProofAttributes, ProofStatus,
    PublicInput, SignedExecutionProof, MAX_EXECUTION_PROOFS_PER_PAYLOAD,
    MIN_REQUIRED_EXECUTION_PROOFS,
};
use eip8025::hash::{ExecutionBlockHash, Hash256, PublicKeyBytes, SignatureBytes};
use eip8025::proof_data::{
    proof_data, proof_data_clone, proof_data_is_empty, proof_data_len, proof_data_to_vec,
    MAX_PROOF_SIZE,
};
use eip8025::sync::status::ExecutionProofStatus;
use ssz::{Decode, Encode};

fn proof_of(bytes: Vec<u8>, proof_type: u8, root: Hash256) -> ExecutionProof {
    ExecutionProof {
        proof_data: proof_data(bytes).unwrap(),
        proof_type,
        public_input: PublicInput { new_payload_request_root: root },
    }
}

fn valid_execution_proof_status() -> ExecutionProofStatus {
    ExecutionProofStatus { slot: 100, block_root: Hash256::from_low_u64_be(0x1234) }
}

#[test]
fn public_input_round_trip() {
    let input = PublicInput { new_payload_request_root: Hash256::repeat_byte(0xab) };
    let encoded = input.as_ssz_bytes();
    let decoded = PublicInput::from_ssz_bytes(&encoded).unwrap();
    assert_eq!(input, decoded);
}

#[test]
fn execution_proof_round_trip() {
    let proof = proof_of(vec![1u8, 2, 3, 4], 1, Hash256::repeat_byte(0xcd));
    let encoded = proof.as_ssz_bytes();
    let decoded = ExecutionProof::from_ssz_bytes(&encoded).unwrap();
    assert_eq!(proof, decoded);
}

#[test]
fn signed_execution_proof_round_trip() {
    let signed_proof = SignedExecutionProof {
        message: proof_of(vec![5u8, 6, 7, 8], 2, Hash256::repeat_byte(0xef)),
        validator_index: 42,
        signature: SignatureBytes::empty(),
    };
    let encoded = signed_proof.as_ssz_bytes();
    let decoded = SignedExecutionProof::from_ssz_bytes(&encoded).unwrap();
    assert_eq!(signed_proof, decoded);
}

#[test]
fn execution_proof_is_empty() {
    assert!(proof_of(vec![], 1, Hash256::zero()).is_empty());
    assert!(!proof_of(vec![1u8, 2, 3], 1, Hash256::zero()).is_empty());
}

#[test]
fn execution_proof_size() {
    assert_eq!(proof_of(vec![1u8, 2, 3, 4, 5], 1, Hash256::zero()).proof_size(), 5);
    assert_eq!(ExecutionProof::default().proof_size(), 0);
}

#[test]
fn signed_execution_proof_accessors() {
    let request_root = Hash256::repeat_byte(0xab);
    let proof_type = 42u8;
    let validator_index = 123u64;
    let signed_proof = SignedExecutionProof {
        message: proof_of(vec![1u8, 2, 3], proof_type, request_root),
        validator_index,
        signature: SignatureBytes::empty(),
    };
    assert_eq!(signed_proof.request_root(), request_root);
    assert_eq!(signed_proof.proof_type(), proof_type);
    assert_eq!(signed_proof.validator_index(), validator_index);
    assert_eq!(signed_proof.execution_proof().proof_type, proof_type);
    assert_eq!(proof_data_to_vec(signed_proof.proof_data()), vec![1, 2, 3]);
}

#[test]
fn proof_status_is_valid() {
    assert!(ProofStatus::Valid.is_valid());
    assert!(!ProofStatus::Invalid.is_valid());
    assert!(!ProofStatus::Accepted.is_valid());
    assert!(!ProofStatus::NotSupported.is_valid());
}

#[test]
fn proof_status_is_syncing() {
    assert!(ProofStatus::Syncing.is_syncing());
    assert!(!ProofStatus::Accepted.is_syncing());
    assert!(!ProofStatus::Valid.is_syncing());
    assert!(!ProofStatus::Invalid.is_syncing());
    assert!(!ProofStatus::NotSupported.is_syncing());
}

#[test]
fn proof_status_is_accepted_and_named() {
    assert!(ProofStatus::Accepted.is_accepted());
    assert!(!ProofStatus::Valid.is_accepted());
    assert_eq!(ProofStatus::Valid.name(), "VALID");
    assert_eq!(ProofStatus::Invalid.name(), "INVALID");
    assert_eq!(ProofStatus::Accepted.name(), "ACCEPTED");
    assert_eq!(ProofStatus::NotSupported.name(), "NOT_SUPPORTED");
    assert_eq!(ProofStatus::Syncing.name(), "SYNCING");
}

#[test]
fn proof_attributes_default() {
    let attrs = ProofAttributes::default();
    assert!(attrs.proof_types.is_empty());
    let attrs_with_types = ProofAttributes { proof_types: vec![1, 2, 3] };
    assert_eq!(attrs_with_types.proof_types.len(), 3);
}

#[test]
fn generated_proof_holds_its_id() {
    let proof = GeneratedProof {
        proof_gen_id: [1, 2, 3, 4, 5, 6, 7, 8],
        execution_proof: proof_of(vec![0xaa, 0xbb, 0xcc], 1, Hash256::repeat_byte(0xde)),
    };
    assert_eq!(proof.proof_gen_id, [1, 2, 3, 4, 5, 6, 7, 8]);
    assert_eq!(proof.execution_proof.proof_size(), 3);
}

#[test]
fn constants_of_the_protocol() {
    assert_eq!(MAX_EXECUTION_PROOFS_PER_PAYLOAD, 4);
    assert_eq!(MIN_REQUIRED_EXECUTION_PROOFS, 1);
    assert_eq!(MAX_PROOF_SIZE, 300 * 1024);
    assert_eq!(domain_execution_proof(), [0x0D, 0, 0, 0]);
}

#[test]
fn proof_data_is_bounded() {
    let longest = proof_data(vec![7; MAX_PROOF_SIZE]).unwrap();
    assert_eq!(proof_data_len(&longest), MAX_PROOF_SIZE);
    assert!(proof_data(vec![7; MAX_PROOF_SIZE + 1]).is_none());
    let copy = proof_data_clone(&longest);
    assert_eq!(proof_data_to_vec(&copy), vec![7; MAX_PROOF_SIZE]);
    assert!(proof_data_is_empty(&proof_data(vec![]).unwrap()));
    assert!(!proof_data_is_empty(&copy));
}

#[test]
fn encoding_of_a_proof_is_laid_out() {
    let bytes = proof_of(vec![1, 2, 3], 9, Hash256::repeat_byte(0xcd)).as_ssz_bytes();
    let mut expected = 37u32.to_le_bytes().to_vec();
    expected.push(9);
    expected.extend([0xcd; 32]);
    expected.extend([1, 2, 3]);
    assert_eq!(bytes, expected);
}

#[test]
fn encoding_of_a_signed_proof_is_laid_out() {
    let signed = SignedExecutionProof {
        message: proof_of(vec![4], 2, Hash256::repeat_byte(0x11)),
        validator_index: 0x0102,
        signature: SignatureBytes([0x5a; 96]),
    };
    let bytes = signed.as_ssz_bytes();
    assert_eq!(bytes[0..4], 108u32.to_le_bytes());
    assert_eq!(bytes[4..12], [2, 1, 0, 0, 0, 0, 0, 0]);
    assert_eq!(bytes[12..108], [0x5a; 96]);
    assert_eq!(bytes[108..], signed.message.as_ssz_bytes());
}

/// The list in the middle of a proof is what the `ssz` crate makes of it.
#[test]
fn proof_bytes_agree_with_the_ssz_crate() {
    let list = proof_data(vec![3, 1, 4, 1, 5]).unwrap();
    let outside = Encode::as_ssz_bytes(&list);
    let bytes = proof_of(vec![3, 1, 4, 1, 5], 1, Hash256::zero()).as_ssz_bytes();
    assert_eq!(bytes[37..], outside);
    assert_eq!(<u64 as Decode>::from_ssz_bytes(&100u64.to_le_bytes()).unwrap(), 100);
    let status = valid_execution_proof_status().as_ssz_bytes();
    assert_eq!(status[..8], Encode::as_ssz_bytes(&100u64));
}

#[test]
fn malformed_proofs_are_refused() {
    let proof = proof_of(vec![1, 2, 3], 9, Hash256::repeat_byte(0xcd));
    let bytes = proof.as_ssz_bytes();
    assert_eq!(ExecutionProof::from_ssz_bytes(&bytes[..36]), Err(DecodeError));
    let mut offset = bytes.clone();
    offset[0] = 38;
    assert!(ExecutionProof::from_ssz_bytes(&offset).is_err());
    let mut long = bytes.clone();
    long.resize(37 + MAX_PROOF_SIZE + 1, 0);
    assert!(ExecutionProof::from_ssz_bytes(&long).is_err());
    assert!(ExecutionProof::from_ssz_bytes(&long[..37 + MAX_PROOF_SIZE]).is_ok());
    assert!(PublicInput::from_ssz_bytes(&[0; 31]).is_err());
    assert!(PublicInput::from_ssz_bytes(&[0; 33]).is_err());
    assert!(SignedExecutionProof::from_ssz_bytes(&[0; 107]).is_err());
}

#[test]
fn test_execution_proof_status_pre_fulu_slot() {
    let status =
        ExecutionProofStatus { slot: 10, block_root: Hash256::from_low_u64_be(0x5678) };
    let ssz_bytes = status.as_ssz_bytes();
    assert_eq!(ssz_bytes.len(), 40);
    let decoded = ExecutionProofStatus::from_ssz_bytes(&ssz_bytes).unwrap();
    assert_eq!(decoded.slot, 10);
    assert_eq!(decoded.block_root, Hash256::from_low_u64_be(0x5678));
}

#[test]
fn test_execution_proof_status_zero_values() {
    let status = ExecutionProofStatus { slot: 0, block_root: Hash256::zero() };
    let ssz_bytes = status.as_ssz_bytes();
    assert_eq!(ssz_bytes.len(), 40);
    let decoded = ExecutionProofStatus::from_ssz_bytes(&ssz_bytes).unwrap();
    assert_eq!(decoded.slot, 0);
    assert_eq!(decoded.block_root, Hash256::zero());
}

#[test]
fn test_execution_proof_status_max_slot() {
    let status =
        ExecutionProofStatus { slot: u64::MAX, block_root: Hash256::from_low_u64_be(u64::MAX) };
    let ssz_bytes = status.as_ssz_bytes();
    assert_eq!(ssz_bytes.len(), 40);
    let decoded = ExecutionProofStatus::from_ssz_bytes(&ssz_bytes).unwrap();
    assert_eq!(decoded.slot, u64::MAX);
    assert_eq!(decoded.block_root, Hash256::from_low_u64_be(u64::MAX));
}

#[test]
fn test_execution_proof_status_empty_bytes() {
    assert!(ExecutionProofStatus::from_ssz_bytes(&[]).is_err());
}

#[test]
fn test_execution_proof_status_partial_hash() {
    let partial = vec![0u8; 39];
    assert!(ExecutionProofStatus::from_ssz_bytes(&partial).is_err());
    assert!(ExecutionProofStatus::from_ssz_bytes(&vec![0u8; 41]).is_err());
}

#[test]
fn test_execution_proof_status_ssz_bytes_len() {
    let bytes = valid_execution_proof_status().as_ssz_bytes();
    assert_eq!(bytes.len(), 40);
}

#[test]
fn test_execution_proof_status_response_encode_decode() {
    let status = valid_execution_proof_status();
    let ssz_bytes = status.as_ssz_bytes();
    let decoded_status = ExecutionProofStatus::from_ssz_bytes(&ssz_bytes).unwrap();
    assert_eq!(decoded_status.slot, status.slot);
    assert_eq!(decoded_status.block_root, status.block_root);
}

#[test]
fn status_is_the_slot_and_then_the_root() {
    let bytes = valid_execution_proof_status().as_ssz_bytes();
    assert_eq!(bytes[..8], [100, 0, 0, 0, 0, 0, 0, 0]);
    assert_eq!(bytes[8..38], [0; 30]);
    assert_eq!(bytes[38..], [0x12, 0x34]);
}

#[test]
fn hashes_compare_by_their_bytes() {
    let mut other = [0xab; 32];
    other[31] = 0xac;
    assert!(Hash256::repeat_byte(0xab).equals(&Hash256([0xab; 32])));
    assert!(!Hash256::repeat_byte(0xab).equals(&Hash256(other)));
    assert!(Hash256::zero().is_zero());
    assert!(!Hash256::from_low_u64_be(1).is_zero());
    assert!(ExecutionBlockHash::zero().is_zero());
    assert_eq!(ExecutionBlockHash::repeat_byte(3).0, Hash256([3; 32]));
    assert_ne!(PublicKeyBytes([1; 48]), PublicKeyBytes([2; 48]));
    let mut low = [0; 32];
    low[24..].copy_from_slice(&0x0102_0304_0506_0708u64.to_be_bytes());
    assert_eq!(Hash256::from_low_u64_be(0x0102_0304_0506_0708), Hash256(low));
}
