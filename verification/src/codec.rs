//! How proofs and statuses are encoded.

use crate::execution_proof::{
    ExecutionProof, ExecutionProofView, PublicInput, SignedExecutionProof, SignedExecutionProofView,
};
use crate::hash::{Hash256, PublicKeyBytes, SignatureBytes};
use crate::proof_data::{proof_data, proof_data_len, proof_data_to_vec, MAX_PROOF_SIZE};
use crate::ssz::{
    append_bytes, byte_views, container, container_len, decode_container, encode_container, encodes,
    fits, fixed, head_len, lemma_container_injective, lemma_lengths, lemma_next_part, lemma_part_at,
    part_views, parts_of, schema_len, tail_len, variable, Part, PartView,
};
use crate::sync::status::ExecutionProofStatus;
use vstd::bytes::{
    lemma_auto_spec_u64_to_from_le_bytes, spec_u32_to_le_bytes, spec_u64_from_le_bytes,
    spec_u64_to_le_bytes, u64_from_le_bytes, u64_to_le_bytes,
};
use vstd::prelude::*;
use vstd::slice::slice_subrange;

verus! {

/// The bytes do not encode a value.
#[derive(Debug, Clone, Copy, PartialEq, Eq, Structural)]
pub struct DecodeError;

/// A number is read back from its bytes, and bytes from their number.
pub proof fn lemma_u64(x: u64, s: Seq<u8>)
    ensures
        spec_u64_to_le_bytes(x).len() == 8,
        spec_u64_from_le_bytes(spec_u64_to_le_bytes(x)) == x,
        s.len() == 8 ==> spec_u64_to_le_bytes(spec_u64_from_le_bytes(s)) == s,
{
    lemma_auto_spec_u64_to_from_le_bytes();
    assert(spec_u64_to_le_bytes(x).len() == 8);
}

/// An array of the bytes of a slice.
pub fn to_array<const N: usize>(bytes: &[u8]) -> (r: [u8; N])
    requires
        bytes@.len() == N,
    ensures
        r@ == bytes@,
{
    let mut r: [u8; N] = [0u8;N];
    let mut i: usize = 0;
    while i < N
        invariant
            i <= N,
            bytes@.len() == N,
            forall|j: int| 0 <= j < i ==> r@[j] == bytes@[j],
        decreases N - i,
    {
        r[i] = bytes[i];
        i = i + 1;
    }
    assert(r@ =~= bytes@);
    r
}

/// A vector of the bytes of a slice.
pub fn to_vec(bytes: &[u8]) -> (r: Vec<u8>)
    ensures
        r@ == bytes@,
{
    let mut r: Vec<u8> = Vec::new();
    append_bytes(&mut r, bytes);
    assert(r@ =~= bytes@);
    r
}

/// A part that stands in place.
pub fn fixed_part(bytes: Vec<u8>) -> (r: Part)
    ensures
        r@ == fixed(bytes@),
{
    Part { fixed: true, bytes }
}

/// A part that stands behind.
pub fn variable_part(bytes: Vec<u8>) -> (r: Part)
    ensures
        r@ == variable(bytes@),
{
    Part { fixed: false, bytes }
}

impl PublicInput {
    /// The encoding: the root.
    pub fn as_ssz_bytes(&self) -> (r: Vec<u8>)
        ensures
            r@ == self.new_payload_request_root.0@,
    {
        to_vec(self.new_payload_request_root.0.as_slice())
    }

    /// The value that bytes encode.
    pub fn from_ssz_bytes(bytes: &[u8]) -> (r: Result<Self, DecodeError>)
        ensures
            match r {
                Ok(input) => input.new_payload_request_root.0@ == bytes@,
                Err(_) => bytes@.len() != 32,
            },
            forall|root: Hash256|
                bytes@ == (#[trigger] root.0)@ ==> r == Ok::<PublicInput, DecodeError>(
                    PublicInput { new_payload_request_root: root },
                ),
    {
        if bytes.len() != 32 {
            return Err(DecodeError);
        }
        let r = PublicInput { new_payload_request_root: Hash256(to_array(bytes)) };
        proof {
            assert forall|root: Hash256| bytes@ == (#[trigger] root.0)@ implies r
                == (PublicInput { new_payload_request_root: root }) by {
                lemma_hash_bytes(root, r.new_payload_request_root);
            }
        }
        Ok(r)
    }
}

/// The encoding of a status: the slot and the root.
pub open spec fn status_bytes(status: ExecutionProofStatus) -> Seq<u8> {
    spec_u64_to_le_bytes(status.slot) + status.block_root.0@
}

impl ExecutionProofStatus {
    /// The encoding: the slot and the root.
    pub fn as_ssz_bytes(&self) -> (r: Vec<u8>)
        ensures
            r@ == status_bytes(*self),
            r@.len() == 40,
    {
        let mut r = u64_to_le_bytes(self.slot);
        append_bytes(&mut r, self.block_root.0.as_slice());
        r
    }

    /// The value that bytes encode.
    pub fn from_ssz_bytes(bytes: &[u8]) -> (r: Result<Self, DecodeError>)
        ensures
            match r {
                Ok(status) => bytes@ == status_bytes(status),
                Err(_) => bytes@.len() != 40,
            },
            forall|status: ExecutionProofStatus|
                bytes@ == #[trigger] status_bytes(status) ==> r == Ok::<
                    ExecutionProofStatus,
                    DecodeError,
                >(status),
    {
        if bytes.len() != 40 {
            proof {
                assert forall|status: ExecutionProofStatus| bytes@ != #[trigger] status_bytes(
                    status,
                ) by {
                    lemma_u64(status.slot, Seq::empty());
                }
            }
            return Err(DecodeError);
        }
        let slot: u64 = u64_from_le_bytes(slice_subrange(bytes, 0, 8));
        let block_root = Hash256(to_array(slice_subrange(bytes, 8, 40)));
        let r = ExecutionProofStatus { slot, block_root };
        proof {
            lemma_u64(slot, bytes@.subrange(0, 8));
            assert(bytes@ =~= bytes@.subrange(0, 8) + bytes@.subrange(8, 40));
            assert forall|status: ExecutionProofStatus| bytes@ == #[trigger] status_bytes(
                status,
            ) implies r == status by {
                lemma_status_injective(r, status);
            }
        }
        Ok(r)
    }
}

/// Two encodings of statuses are the same only where the statuses are.
pub proof fn lemma_status_injective(a: ExecutionProofStatus, b: ExecutionProofStatus)
    requires
        status_bytes(a) == status_bytes(b),
    ensures
        a == b,
{
    lemma_u64(a.slot, Seq::empty());
    lemma_u64(b.slot, Seq::empty());
    let x = status_bytes(a);
    let y = status_bytes(b);
    assert(x.subrange(0, 8) =~= spec_u64_to_le_bytes(a.slot));
    assert(y.subrange(0, 8) =~= spec_u64_to_le_bytes(b.slot));
    assert(x.subrange(8, 40) =~= a.block_root.0@);
    assert(y.subrange(8, 40) =~= b.block_root.0@);
    assert(a.block_root.0 =~= b.block_root.0) by {
        assert forall|i: int| 0 <= i < 32 implies a.block_root.0[i] == b.block_root.0[i] by {
            assert(a.block_root.0@[i] == b.block_root.0@[i]);
        }
    }
}

/// The parts of a proof.
pub open spec fn proof_parts(p: ExecutionProofView) -> Seq<PartView> {
    seq![
        variable(p.proof_data),
        fixed(seq![p.proof_type]),
        fixed(p.public_input.new_payload_request_root.0@),
    ]
}

/// The lengths of the parts of a proof.
pub open spec fn proof_schema() -> Seq<Option<usize>> {
    seq![None, Some(1), Some(32)]
}

/// The encoding of a proof.
pub open spec fn proof_encoding(p: ExecutionProofView) -> Seq<u8> {
    container(proof_parts(p))
}

/// How long the encoding of a proof is.
pub proof fn lemma_proof_len(p: ExecutionProofView)
    ensures
        fits(proof_parts(p), proof_schema()),
        container_len(proof_parts(p)) == 37 + p.proof_data.len(),
        proof_encoding(p).len() == 37 + p.proof_data.len(),
        schema_len(proof_schema()) == 37,
{
    reveal_with_fuel(head_len, 4);
    reveal_with_fuel(tail_len, 4);
    reveal_with_fuel(schema_len, 4);
    let parts = proof_parts(p);
    assert(parts.drop_last().drop_last().drop_last() =~= Seq::<PartView>::empty());
    assert(parts.drop_last().last() == parts[1]);
    assert(parts.drop_last().drop_last().last() == parts[0]);
    let schema = proof_schema();
    assert(schema.drop_last().drop_last().drop_last() =~= Seq::<Option<usize>>::empty());
    assert(schema.drop_last().last() == schema[1]);
    assert(schema.drop_last().drop_last().last() == schema[0]);
    lemma_lengths(parts, head_len(parts));
}

impl ExecutionProof {
    /// The encoding.
    pub fn as_ssz_bytes(&self) -> (r: Vec<u8>)
        ensures
            r@ == proof_encoding(self@),
            r@.len() <= 37 + MAX_PROOF_SIZE,
    {
        let data = proof_data_to_vec(&self.proof_data);
        let mut kind: Vec<u8> = Vec::new();
        kind.push(self.proof_type);
        let root = to_vec(self.public_input.new_payload_request_root.0.as_slice());
        let mut parts: Vec<Part> = Vec::new();
        parts.push(variable_part(data));
        parts.push(fixed_part(kind));
        parts.push(fixed_part(root));
        proof {
            assert(kind@ =~= seq![self.proof_type]);
            assert(part_views(parts@) =~= proof_parts(self@));
            lemma_proof_len(self@);
        }
        encode_container(&parts).unwrap()
    }

    /// The value that bytes encode.
    pub fn from_ssz_bytes(bytes: &[u8]) -> (r: Result<Self, DecodeError>)
        ensures
            match r {
                Ok(p) => bytes@ == proof_encoding(p@) && p@.proof_data.len() <= MAX_PROOF_SIZE,
                Err(_) => forall|p: ExecutionProofView|
                    p.proof_data.len() <= MAX_PROOF_SIZE ==> bytes@ != #[trigger] proof_encoding(p),
            },
            forall|p: ExecutionProofView|
                p.proof_data.len() <= MAX_PROOF_SIZE && bytes@ == #[trigger] proof_encoding(p) ==> (
                r matches Ok(decoded) && decoded@ == p),
    {
        let mut schema: Vec<Option<usize>> = Vec::new();
        schema.push(None);
        schema.push(Some(1));
        schema.push(Some(32));
        proof {
            assert(schema@ =~= proof_schema());
            assert forall|p: ExecutionProofView|
                p.proof_data.len() <= MAX_PROOF_SIZE && bytes@ == #[trigger] proof_encoding(
                    p,
                ) implies encodes(bytes@, proof_parts(p), schema@) by {
                lemma_proof_len(p);
            }
            lemma_proof_len(
                ExecutionProofView {
                    proof_data: Seq::empty(),
                    proof_type: 0,
                    public_input: PublicInput { new_payload_request_root: Hash256::spec_zero() },
                },
            );
        }
        let items = match decode_container(bytes, &schema) {
            Some(items) => items,
            None => return Err(DecodeError),
        };
        let ghost parts = parts_of(byte_views(items@), schema@);
        proof {
            assert(parts[0].bytes == items@[0]@);
            assert(parts[1].bytes == items@[1]@);
            assert(parts[2].bytes == items@[2]@);
        }
        let proof_type: u8 = items[1][0];
        let root = Hash256(to_array(items[2].as_slice()));
        let public_input = PublicInput { new_payload_request_root: root };
        let ghost view = ExecutionProofView { proof_data: items@[0]@, proof_type, public_input };
        proof {
            assert(items@[1]@ =~= seq![proof_type]);
            assert(parts =~= proof_parts(view));
        }
        match proof_data(to_vec(items[0].as_slice())) {
            Some(data) => {
                let r = ExecutionProof { proof_data: data, proof_type, public_input };
                proof {
                    assert(r@ =~= view);
                    assert forall|p: ExecutionProofView|
                        p.proof_data.len() <= MAX_PROOF_SIZE && bytes@ == #[trigger] proof_encoding(
                            p,
                        ) implies r@ == p by {
                        lemma_proof_injective(r@, p);
                    }
                }
                Ok(r)
            },
            None => {
                proof {
                    assert forall|p: ExecutionProofView|
                        p.proof_data.len() <= MAX_PROOF_SIZE implies bytes@
                        != #[trigger] proof_encoding(p) by {
                        if bytes@ == proof_encoding(p) {
                            lemma_proof_len(p);
                            lemma_proof_len(view);
                        }
                    }
                }
                Err(DecodeError)
            },
        }
    }
}

/// Two encodings of proofs are the same only where the proofs are.
pub proof fn lemma_proof_injective(a: ExecutionProofView, b: ExecutionProofView)
    requires
        a.proof_data.len() <= MAX_PROOF_SIZE,
        b.proof_data.len() <= MAX_PROOF_SIZE,
        proof_encoding(a) == proof_encoding(b),
    ensures
        a == b,
{
    lemma_proof_len(a);
    lemma_proof_len(b);
    let x = proof_parts(a);
    let y = proof_parts(b);
    lemma_container_injective(x, y, proof_schema());
    assert(x[0].bytes == a.proof_data && y[0].bytes == b.proof_data);
    assert(x[1].bytes == seq![a.proof_type] && y[1].bytes == seq![b.proof_type]);
    assert(seq![a.proof_type][0] == seq![b.proof_type][0]);
    assert(x[2].bytes == a.public_input.new_payload_request_root.0@);
    assert(y[2].bytes == b.public_input.new_payload_request_root.0@);
    lemma_hash_bytes(
        a.public_input.new_payload_request_root,
        b.public_input.new_payload_request_root,
    );
}

/// Digests of the same bytes are the same.
pub proof fn lemma_hash_bytes(a: Hash256, b: Hash256)
    requires
        a.0@ == b.0@,
    ensures
        a == b,
{
    assert(a.0 =~= b.0) by {
        assert forall|i: int| 0 <= i < 32 implies a.0[i] == b.0[i] by {
            assert(a.0@[i] == b.0@[i]);
        }
    }
}

/// Public keys of the same bytes are the same.
pub proof fn lemma_public_key_bytes(a: PublicKeyBytes, b: PublicKeyBytes)
    requires
        a.0@ == b.0@,
    ensures
        a == b,
{
    assert(a.0 =~= b.0) by {
        assert forall|i: int| 0 <= i < 48 implies a.0[i] == b.0[i] by {
            assert(a.0@[i] == b.0@[i]);
        }
    }
}

/// Signatures of the same bytes are the same.
pub proof fn lemma_signature_bytes(a: SignatureBytes, b: SignatureBytes)
    requires
        a.0@ == b.0@,
    ensures
        a == b,
{
    assert(a.0 =~= b.0) by {
        assert forall|i: int| 0 <= i < 96 implies a.0[i] == b.0[i] by {
            assert(a.0@[i] == b.0@[i]);
        }
    }
}

/// The parts of a signed proof.
pub open spec fn signed_parts(s: SignedExecutionProofView) -> Seq<PartView> {
    seq![
        variable(proof_encoding(s.message)),
        fixed(spec_u64_to_le_bytes(s.validator_index)),
        fixed(s.signature.0@),
    ]
}

/// The lengths of the parts of a signed proof.
pub open spec fn signed_schema() -> Seq<Option<usize>> {
    seq![None, Some(8), Some(96)]
}

/// The encoding of a signed proof.
pub open spec fn signed_encoding(s: SignedExecutionProofView) -> Seq<u8> {
    container(signed_parts(s))
}

/// How long the encoding of a signed proof is.
pub proof fn lemma_signed_len(s: SignedExecutionProofView)
    ensures
        fits(signed_parts(s), signed_schema()),
        container_len(signed_parts(s)) == 145 + s.message.proof_data.len(),
        signed_encoding(s).len() == 145 + s.message.proof_data.len(),
        schema_len(signed_schema()) == 108,
{
    reveal_with_fuel(head_len, 4);
    reveal_with_fuel(tail_len, 4);
    reveal_with_fuel(schema_len, 4);
    lemma_u64(s.validator_index, Seq::empty());
    lemma_proof_len(s.message);
    let parts = signed_parts(s);
    assert(parts.drop_last().drop_last().drop_last() =~= Seq::<PartView>::empty());
    assert(parts.drop_last().last() == parts[1]);
    assert(parts.drop_last().drop_last().last() == parts[0]);
    let schema = signed_schema();
    assert(schema.drop_last().drop_last().drop_last() =~= Seq::<Option<usize>>::empty());
    assert(schema.drop_last().last() == schema[1]);
    assert(schema.drop_last().drop_last().last() == schema[0]);
    lemma_lengths(parts, head_len(parts));
}

impl SignedExecutionProof {
    /// The encoding.
    pub fn as_ssz_bytes(&self) -> (r: Vec<u8>)
        ensures
            r@ == signed_encoding(self@),
            r@.len() <= 145 + MAX_PROOF_SIZE,
    {
        let size: usize = proof_data_len(&self.message.proof_data);
        let message = self.message.as_ssz_bytes();
        let index = u64_to_le_bytes(self.validator_index);
        let signature = to_vec(self.signature.0.as_slice());
        let mut parts: Vec<Part> = Vec::new();
        parts.push(variable_part(message));
        parts.push(fixed_part(index));
        parts.push(fixed_part(signature));
        proof {
            assert(size <= MAX_PROOF_SIZE);
            assert(part_views(parts@) =~= signed_parts(self@));
            lemma_signed_len(self@);
        }
        encode_container(&parts).unwrap()
    }

    /// The value that bytes encode.
    pub fn from_ssz_bytes(bytes: &[u8]) -> (r: Result<Self, DecodeError>)
        ensures
            match r {
                Ok(s) => bytes@ == signed_encoding(s@) && s@.message.proof_data.len()
                    <= MAX_PROOF_SIZE,
                Err(_) => forall|s: SignedExecutionProofView|
                    s.message.proof_data.len() <= MAX_PROOF_SIZE ==> bytes@
                        != #[trigger] signed_encoding(s),
            },
            forall|s: SignedExecutionProofView|
                s.message.proof_data.len() <= MAX_PROOF_SIZE && bytes@
                    == #[trigger] signed_encoding(s) ==> (r matches Ok(decoded) && decoded@ == s),
    {
        let mut schema: Vec<Option<usize>> = Vec::new();
        schema.push(None);
        schema.push(Some(8));
        schema.push(Some(96));
        proof {
            assert(schema@ =~= signed_schema());
            assert forall|s: SignedExecutionProofView|
                s.message.proof_data.len() <= MAX_PROOF_SIZE && bytes@
                    == #[trigger] signed_encoding(s) implies encodes(
                bytes@,
                signed_parts(s),
                schema@,
            ) by {
                lemma_signed_len(s);
            }
            lemma_signed_schema_len();
        }
        let items = match decode_container(bytes, &schema) {
            Some(items) => items,
            None => return Err(DecodeError),
        };
        let ghost parts = parts_of(byte_views(items@), schema@);
        proof {
            assert(parts[0].bytes == items@[0]@);
            assert(parts[1].bytes == items@[1]@);
            assert(parts[2].bytes == items@[2]@);
        }
        let validator_index: u64 = u64_from_le_bytes(items[1].as_slice());
        let signature = SignatureBytes(to_array(items[2].as_slice()));
        proof {
            lemma_u64(validator_index, items@[1]@);
        }
        match ExecutionProof::from_ssz_bytes(items[0].as_slice()) {
            Ok(message) => {
                let r = SignedExecutionProof { message, validator_index, signature };
                proof {
                    assert(parts =~= signed_parts(r@));
                    assert forall|s: SignedExecutionProofView|
                        s.message.proof_data.len() <= MAX_PROOF_SIZE && bytes@
                            == #[trigger] signed_encoding(s) implies r@ == s by {
                        lemma_signed_injective(r@, s);
                    }
                }
                Ok(r)
            },
            Err(_) => {
                proof {
                    assert forall|s: SignedExecutionProofView|
                        s.message.proof_data.len() <= MAX_PROOF_SIZE implies bytes@
                        != #[trigger] signed_encoding(s) by {
                        if bytes@ == signed_encoding(s) {
                            lemma_signed_len(s);
                            lemma_lengths(parts, head_len(parts));
                            lemma_lengths(signed_parts(s), head_len(signed_parts(s)));
                            lemma_container_injective(parts, signed_parts(s), schema@);
                            assert(parts[0].bytes == proof_encoding(s.message));
                        }
                    }
                }
                Err(DecodeError)
            },
        }
    }
}

/// How many bytes a signed proof takes in front.
pub proof fn lemma_signed_schema_len()
    ensures
        schema_len(signed_schema()) == 108,
{
    reveal_with_fuel(schema_len, 4);
    let schema = signed_schema();
    assert(schema.drop_last().drop_last().drop_last() =~= Seq::<Option<usize>>::empty());
    assert(schema.drop_last().last() == schema[1]);
    assert(schema.drop_last().drop_last().last() == schema[0]);
}

/// Two encodings of signed proofs are the same only where the signed proofs are.
pub proof fn lemma_signed_injective(a: SignedExecutionProofView, b: SignedExecutionProofView)
    requires
        a.message.proof_data.len() <= MAX_PROOF_SIZE,
        b.message.proof_data.len() <= MAX_PROOF_SIZE,
        signed_encoding(a) == signed_encoding(b),
    ensures
        a == b,
{
    lemma_signed_len(a);
    lemma_signed_len(b);
    let x = signed_parts(a);
    let y = signed_parts(b);
    lemma_container_injective(x, y, signed_schema());
    assert(x[0].bytes == proof_encoding(a.message) && y[0].bytes == proof_encoding(b.message));
    lemma_proof_injective(a.message, b.message);
    assert(x[1].bytes == spec_u64_to_le_bytes(a.validator_index));
    assert(y[1].bytes == spec_u64_to_le_bytes(b.validator_index));
    lemma_u64(a.validator_index, Seq::empty());
    lemma_u64(b.validator_index, Seq::empty());
    assert(x[2].bytes == a.signature.0@ && y[2].bytes == b.signature.0@);
    lemma_signature_bytes(a.signature, b.signature);
}

/// Where the encoding of a status has its fields.
pub proof fn law_status_layout(status: ExecutionProofStatus)
    ensures
        status_bytes(status).len() == 40,
        status_bytes(status).subrange(0, 8) == spec_u64_to_le_bytes(status.slot),
        status_bytes(status).subrange(8, 40) == status.block_root.0@,
{
    lemma_u64(status.slot, Seq::empty());
    assert(status_bytes(status).subrange(0, 8) =~= spec_u64_to_le_bytes(status.slot));
    assert(status_bytes(status).subrange(8, 40) =~= status.block_root.0@);
}

/// Where the encoding of a proof has its fields: the offset of the proof bytes, the kind and the root
/// stand in front, and the proof bytes follow.
pub proof fn law_proof_layout(p: ExecutionProofView)
    ensures
        proof_encoding(p).len() == 37 + p.proof_data.len(),
        proof_encoding(p).subrange(0, 4) == spec_u32_to_le_bytes(37),
        proof_encoding(p)[4] == p.proof_type,
        proof_encoding(p).subrange(5, 37) == p.public_input.new_payload_request_root.0@,
        proof_encoding(p).skip(37) == p.proof_data,
{
    reveal_with_fuel(head_len, 4);
    reveal_with_fuel(tail_len, 4);
    lemma_proof_len(p);
    let parts = proof_parts(p);
    let all = proof_encoding(p);
    lemma_lengths(parts, head_len(parts));
    assert(parts.take(0) =~= Seq::<PartView>::empty());
    lemma_next_part(parts, 0, 0);
    lemma_next_part(parts, 1, 0);
    lemma_next_part(parts, 2, 0);
    assert(parts.take(3) =~= parts);
    lemma_part_at(parts, 0);
    lemma_part_at(parts, 1);
    lemma_part_at(parts, 2);
    assert(all.subrange(4, 5)[0] == all[4]);
    assert(all.skip(37) =~= all.subrange(37, 37 + p.proof_data.len() as int));
}

/// Where the encoding of a signed proof has its fields: the offset of the proof, the validator and the
/// signature stand in front, and the proof follows.
pub proof fn law_signed_layout(s: SignedExecutionProofView)
    ensures
        signed_encoding(s).len() == 108 + proof_encoding(s.message).len(),
        signed_encoding(s).subrange(0, 4) == spec_u32_to_le_bytes(108),
        signed_encoding(s).subrange(4, 12) == spec_u64_to_le_bytes(s.validator_index),
        signed_encoding(s).subrange(12, 108) == s.signature.0@,
        signed_encoding(s).skip(108) == proof_encoding(s.message),
{
    reveal_with_fuel(head_len, 4);
    reveal_with_fuel(tail_len, 4);
    lemma_signed_len(s);
    lemma_proof_len(s.message);
    lemma_u64(s.validator_index, Seq::empty());
    let parts = signed_parts(s);
    let all = signed_encoding(s);
    lemma_lengths(parts, head_len(parts));
    assert(parts.take(0) =~= Seq::<PartView>::empty());
    lemma_next_part(parts, 0, 0);
    lemma_next_part(parts, 1, 0);
    lemma_next_part(parts, 2, 0);
    assert(parts.take(3) =~= parts);
    lemma_part_at(parts, 0);
    lemma_part_at(parts, 1);
    lemma_part_at(parts, 2);
    assert(all.skip(108) =~= all.subrange(108, 108 + proof_encoding(s.message).len() as int));
}

} // verus!
