//! The bytes of a proof: a list of bounded length.

use ssz_types::VariableList;
use vstd::prelude::*;

verus! {

/// Largest size of a proof: 300 KiB.
pub const MAX_PROOF_SIZE: usize = 307200;

/// Largest size of a proof, as the list type carries it: the product of 75 and 4096.
pub type MaxProofSize = typenum::Prod<typenum::U75, typenum::U4096>;

/// The bytes of a proof, at most [`MaxProofSize`] of them.
pub type ProofData = VariableList<u8, MaxProofSize>;

/// The bounded list of `ssz_types`, carried as an opaque value.
#[verifier::external_type_specification]
#[verifier::external_body]
#[verifier::reject_recursive_types(T)]
#[verifier::reject_recursive_types(N)]
pub struct ExVariableList<T, N>(ssz_types::VariableList<T, N>);

/// The error of `ssz_types`, carried as an opaque value.
#[verifier::external_type_specification]
#[verifier::external_body]
pub struct ExSszTypesError(ssz_types::Error);

/// A type-level number of `typenum`: the bits above the last one, and the last one.
#[verifier::external_type_specification]
#[verifier::external_body]
#[verifier::reject_recursive_types(U)]
#[verifier::reject_recursive_types(B)]
pub struct ExUInt<U, B>(typenum::UInt<U, B>);

/// The type-level number of `typenum` that has no bits.
#[verifier::external_type_specification]
#[verifier::external_body]
pub struct ExUTerm(typenum::UTerm);

/// The type-level bit 0 of `typenum`.
#[verifier::external_type_specification]
#[verifier::external_body]
pub struct ExB0(typenum::B0);

/// The type-level bit 1 of `typenum`.
#[verifier::external_type_specification]
#[verifier::external_body]
pub struct ExB1(typenum::B1);

/// The bytes that a list holds, in order.
pub uninterp spec fn proof_bytes(list: ProofData) -> Seq<u8>;

/// `VariableList::new`: keeps a vector that has no more bytes than the bound, and refuses a
/// longer one.
#[verifier::external_body]
fn list_new(bytes: Vec<u8>) -> (r: Result<ProofData, ssz_types::Error>)
    ensures
        match r {
            Ok(list) => bytes@.len() <= MAX_PROOF_SIZE && proof_bytes(list) == bytes@,
            Err(_) => bytes@.len() > MAX_PROOF_SIZE,
        },
{
    VariableList::new(bytes)
}

/// `VariableList::len`: the number of bytes held, which never exceeds the bound.
#[verifier::external_body]
fn list_len(list: &ProofData) -> (r: usize)
    ensures
        r == proof_bytes(*list).len(),
        r <= MAX_PROOF_SIZE,
{
    list.len()
}

/// `VariableList::is_empty`: whether no byte is held.
#[verifier::external_body]
fn list_is_empty(list: &ProofData) -> (r: bool)
    ensures
        r == (proof_bytes(*list).len() == 0),
{
    list.is_empty()
}

/// The slice that a `VariableList` dereferences to, copied: the bytes held, in order.
#[verifier::external_body]
fn list_to_vec(list: &ProofData) -> (r: Vec<u8>)
    ensures
        r@ == proof_bytes(*list),
{
    list.to_vec()
}

/// `VariableList::clone`: a list of the same bytes.
#[verifier::external_body]
fn list_clone(list: &ProofData) -> (r: ProofData)
    ensures
        proof_bytes(r) == proof_bytes(*list),
{
    list.clone()
}

/// The list of `bytes`, where they are no more than the bound.
pub fn proof_data(bytes: Vec<u8>) -> (r: Option<ProofData>)
    ensures
        match r {
            Some(list) => bytes@.len() <= MAX_PROOF_SIZE && proof_bytes(list) == bytes@,
            None => bytes@.len() > MAX_PROOF_SIZE,
        },
{
    match list_new(bytes) {
        Ok(list) => Some(list),
        Err(_) => None,
    }
}

/// The number of bytes of a proof.
pub fn proof_data_len(list: &ProofData) -> (r: usize)
    ensures
        r == proof_bytes(*list).len(),
        r <= MAX_PROOF_SIZE,
{
    list_len(list)
}

/// Whether a proof has no bytes.
pub fn proof_data_is_empty(list: &ProofData) -> (r: bool)
    ensures
        r == (proof_bytes(*list).len() == 0),
{
    list_is_empty(list)
}

/// The bytes of a proof.
pub fn proof_data_to_vec(list: &ProofData) -> (r: Vec<u8>)
    ensures
        r@ == proof_bytes(*list),
        r@.len() <= MAX_PROOF_SIZE,
{
    let n: usize = list_len(list);
    assert(n <= MAX_PROOF_SIZE);
    list_to_vec(list)
}

/// A copy of the bytes of a proof.
pub fn proof_data_clone(list: &ProofData) -> (r: ProofData)
    ensures
        proof_bytes(r) == proof_bytes(*list),
{
    list_clone(list)
}

} // verus!
