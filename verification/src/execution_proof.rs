//! Execution proofs, their public inputs, and the statuses that verification gives.

use crate::hash::{Hash256, SignatureBytes};
use crate::proof_data::{
    proof_bytes, proof_data, proof_data_clone, proof_data_is_empty, proof_data_len,
    proof_data_to_vec, ProofData,
};
use vstd::prelude::*;

verus! {

/// Most execution proofs that one payload carries.
pub const MAX_EXECUTION_PROOFS_PER_PAYLOAD: usize = 4;

/// Fewest execution proofs that make a payload verified.
pub const MIN_REQUIRED_EXECUTION_PROOFS: usize = 1;

/// Identifies one run of proof generation.
pub type ProofGenId = [u8; 8];

/// Identifies a kind of proof.
pub type ProofType = u8;

/// The signature domain of execution proofs: `0x0D000000`.
pub fn domain_execution_proof() -> (r: [u8; 4])
    ensures
        r@ == seq![0x0Du8, 0, 0, 0],
{
    let r: [u8; 4] = [0x0D, 0x00, 0x00, 0x00];
    assert(r@ =~= seq![0x0Du8, 0, 0, 0]);
    r
}

/// The public input of a proof: the tree hash root of the payload request that it is about.
#[derive(Debug, Clone, Copy, Hash)]
pub struct PublicInput {
    pub new_payload_request_root: Hash256,
}

impl PartialEq for PublicInput {
    fn eq(&self, other: &Self) -> (r: bool) {
        self.new_payload_request_root == other.new_payload_request_root
    }
}

impl vstd::std_specs::cmp::PartialEqSpecImpl for PublicInput {
    open spec fn obeys_eq_spec() -> bool {
        true
    }

    open spec fn eq_spec(&self, other: &Self) -> bool {
        *self == *other
    }
}

impl Eq for PublicInput {

}

impl Default for PublicInput {
    fn default() -> (r: Self)
        ensures
            r.new_payload_request_root == Hash256::spec_zero(),
    {
        PublicInput { new_payload_request_root: Hash256::zero() }
    }
}

/// A proof, its kind, and the payload request that it is about.
#[derive(Debug, Hash)]
pub struct ExecutionProof {
    pub proof_data: ProofData,
    pub proof_type: ProofType,
    pub public_input: PublicInput,
}

/// What an [`ExecutionProof`] holds.
#[verifier::ext_equal]
pub struct ExecutionProofView {
    pub proof_data: Seq<u8>,
    pub proof_type: ProofType,
    pub public_input: PublicInput,
}

impl View for ExecutionProof {
    type V = ExecutionProofView;

    open spec fn view(&self) -> ExecutionProofView {
        ExecutionProofView {
            proof_data: proof_bytes(self.proof_data),
            proof_type: self.proof_type,
            public_input: self.public_input,
        }
    }
}

/// Whether two vectors hold the same bytes.
pub fn bytes_equal(a: &Vec<u8>, b: &Vec<u8>) -> (r: bool)
    ensures
        r == (a@ == b@),
{
    if a.len() != b.len() {
        return false;
    }
    let mut i: usize = 0;
    while i < a.len()
        invariant
            a@.len() == b@.len(),
            i <= a@.len(),
            forall|j: int| 0 <= j < i ==> a@[j] == b@[j],
        decreases a@.len() - i,
    {
        if a[i] != b[i] {
            return false;
        }
        i = i + 1;
    }
    assert(a@ =~= b@);
    true
}

impl PartialEq for ExecutionProof {
    fn eq(&self, other: &Self) -> (r: bool) {
        self.proof_type == other.proof_type && self.public_input == other.public_input
            && bytes_equal(
            &proof_data_to_vec(&self.proof_data),
            &proof_data_to_vec(&other.proof_data),
        )
    }
}

impl vstd::std_specs::cmp::PartialEqSpecImpl for ExecutionProof {
    open spec fn obeys_eq_spec() -> bool {
        true
    }

    open spec fn eq_spec(&self, other: &Self) -> bool {
        self@ == other@
    }
}

impl Eq for ExecutionProof {

}

impl Clone for ExecutionProof {
    fn clone(&self) -> (r: Self)
        ensures
            r@ == self@,
    {
        ExecutionProof {
            proof_data: proof_data_clone(&self.proof_data),
            proof_type: self.proof_type,
            public_input: self.public_input,
        }
    }
}

impl Default for ExecutionProof {
    fn default() -> (r: Self)
        ensures
            r@.proof_data == Seq::<u8>::empty(),
            r@.proof_type == 0,
            r@.public_input.new_payload_request_root == Hash256::spec_zero(),
    {
        ExecutionProof {
            proof_data: proof_data(Vec::new()).unwrap(),
            proof_type: 0,
            public_input: PublicInput::default(),
        }
    }
}

impl ExecutionProof {
    /// Whether the proof has no bytes.
    pub fn is_empty(&self) -> (r: bool)
        ensures
            r == (self@.proof_data.len() == 0),
    {
        proof_data_is_empty(&self.proof_data)
    }

    /// The number of bytes of the proof.
    pub fn proof_size(&self) -> (r: usize)
        ensures
            r == self@.proof_data.len(),
    {
        proof_data_len(&self.proof_data)
    }
}

/// A proof signed by a validator.
#[derive(Debug, Hash)]
pub struct SignedExecutionProof {
    pub message: ExecutionProof,
    /// The index of the validator that signed the message.
    pub validator_index: u64,
    pub signature: SignatureBytes,
}

/// What a [`SignedExecutionProof`] holds.
#[verifier::ext_equal]
pub struct SignedExecutionProofView {
    pub message: ExecutionProofView,
    pub validator_index: u64,
    pub signature: SignatureBytes,
}

impl SignedExecutionProofView {
    /// The payload request that the proof is about.
    pub open spec fn request_root(self) -> Hash256 {
        self.message.public_input.new_payload_request_root
    }
}

impl View for SignedExecutionProof {
    type V = SignedExecutionProofView;

    open spec fn view(&self) -> SignedExecutionProofView {
        SignedExecutionProofView {
            message: self.message@,
            validator_index: self.validator_index,
            signature: self.signature,
        }
    }
}

impl PartialEq for SignedExecutionProof {
    fn eq(&self, other: &Self) -> (r: bool) {
        self.validator_index == other.validator_index && self.signature == other.signature
            && self.message == other.message
    }
}

impl vstd::std_specs::cmp::PartialEqSpecImpl for SignedExecutionProof {
    open spec fn obeys_eq_spec() -> bool {
        true
    }

    open spec fn eq_spec(&self, other: &Self) -> bool {
        self@ == other@
    }
}

impl Eq for SignedExecutionProof {

}

impl Clone for SignedExecutionProof {
    fn clone(&self) -> (r: Self)
        ensures
            r@ == self@,
    {
        SignedExecutionProof {
            message: self.message.clone(),
            validator_index: self.validator_index,
            signature: self.signature,
        }
    }
}

impl SignedExecutionProof {
    /// The proof that was signed.
    pub fn execution_proof(&self) -> (r: &ExecutionProof)
        ensures
            *r == self.message,
    {
        &self.message
    }

    /// The bytes of the proof.
    pub fn proof_data(&self) -> (r: &ProofData)
        ensures
            *r == self.message.proof_data,
    {
        &self.message.proof_data
    }

    /// The payload request that the proof is about.
    pub fn request_root(&self) -> (r: Hash256)
        ensures
            r == self@.request_root(),
    {
        self.message.public_input.new_payload_request_root
    }

    /// The kind of the proof.
    pub fn proof_type(&self) -> (r: ProofType)
        ensures
            r == self@.message.proof_type,
    {
        self.message.proof_type
    }

    /// The index of the validator that signed the proof.
    pub fn validator_index(&self) -> (r: u64)
        ensures
            r == self@.validator_index,
    {
        self.validator_index
    }
}

/// What a sequence of signed proofs holds.
pub open spec fn views(proofs: Seq<SignedExecutionProof>) -> Seq<SignedExecutionProofView> {
    proofs.map_values(|p: SignedExecutionProof| p@)
}

/// A copy of a vector of signed proofs.
pub fn clone_proofs(proofs: &Vec<SignedExecutionProof>) -> (r: Vec<SignedExecutionProof>)
    ensures
        views(r@) == views(proofs@),
{
    let mut r: Vec<SignedExecutionProof> = Vec::new();
    let mut i: usize = 0;
    while i < proofs.len()
        invariant
            i <= proofs@.len(),
            views(r@) == views(proofs@).take(i as int),
        decreases proofs@.len() - i,
    {
        let ghost before = r@;
        let copy = proofs[i].clone();
        r.push(copy);
        proof {
            assert(views(r@) =~= views(before).push(copy@));
            assert(views(proofs@).take(i + 1) =~= views(proofs@).take(i as int).push(
                views(proofs@)[i as int],
            ));
        }
        i = i + 1;
    }
    assert(views(r@) =~= views(proofs@));
    r
}

/// Which kinds of proofs are to be generated for a payload.
#[derive(Debug, Clone, PartialEq, Eq, Hash)]
pub struct ProofAttributes {
    pub proof_types: Vec<ProofType>,
}

impl Default for ProofAttributes {
    fn default() -> (r: Self)
        ensures
            r.proof_types@ == Seq::<ProofType>::empty(),
    {
        ProofAttributes { proof_types: Vec::new() }
    }
}

/// What the verification of a proof came to.
#[derive(Debug, Clone, Copy, PartialEq, Eq, Hash, Structural)]
pub enum ProofStatus {
    /// The proof is valid.
    Valid,
    /// The proof does not hold.
    Invalid,
    /// The proof is valid but does not change the canonical head.
    Accepted,
    /// The kind of the proof is not supported.
    NotSupported,
    /// The payload request that the proof is about is not known yet.
    Syncing,
}

impl ProofStatus {
    /// Whether the proof is valid.
    pub fn is_valid(&self) -> (r: bool)
        ensures
            r == (*self is Valid),
    {
        matches!(self, ProofStatus::Valid)
    }

    /// Whether the payload request is not known yet.
    pub fn is_syncing(&self) -> (r: bool)
        ensures
            r == (*self is Syncing),
    {
        matches!(self, ProofStatus::Syncing)
    }

    /// Whether the proof was accepted.
    pub fn is_accepted(&self) -> (r: bool)
        ensures
            r == (*self is Accepted),
    {
        matches!(self, ProofStatus::Accepted)
    }

    /// The name that each status goes by in messages.
    pub open spec fn spec_name(self) -> Seq<char> {
        match self {
            ProofStatus::Valid => "VALID"@,
            ProofStatus::Invalid => "INVALID"@,
            ProofStatus::Accepted => "ACCEPTED"@,
            ProofStatus::NotSupported => "NOT_SUPPORTED"@,
            ProofStatus::Syncing => "SYNCING"@,
        }
    }

    /// The name of the status.
    pub fn name(&self) -> (r: String)
        ensures
            r@ == self.spec_name(),
    {
        match self {
            ProofStatus::Valid => "VALID".to_owned(),
            ProofStatus::Invalid => "INVALID".to_owned(),
            ProofStatus::Accepted => "ACCEPTED".to_owned(),
            ProofStatus::NotSupported => "NOT_SUPPORTED".to_owned(),
            ProofStatus::Syncing => "SYNCING".to_owned(),
        }
    }
}

/// A generated proof, with the run that generated it.
#[derive(Debug)]
pub struct GeneratedProof {
    pub proof_gen_id: ProofGenId,
    pub execution_proof: ExecutionProof,
}

/// What each status is called. No two have one name.
pub proof fn law_status_names(a: ProofStatus, b: ProofStatus)
    ensures
        a.spec_name() == b.spec_name() ==> a == b,
        a is Valid <==> a.spec_name() == "VALID"@,
        a is Invalid <==> a.spec_name() == "INVALID"@,
        a is Accepted <==> a.spec_name() == "ACCEPTED"@,
        a is NotSupported <==> a.spec_name() == "NOT_SUPPORTED"@,
        a is Syncing <==> a.spec_name() == "SYNCING"@,
{
    reveal_strlit("VALID");
    reveal_strlit("INVALID");
    reveal_strlit("ACCEPTED");
    reveal_strlit("NOT_SUPPORTED");
    reveal_strlit("SYNCING");
    assert("VALID"@.len() == 5 && "INVALID"@.len() == 7 && "ACCEPTED"@.len() == 8
        && "NOT_SUPPORTED"@.len() == 13 && "SYNCING"@.len() == 7);
    assert("INVALID"@[0] == 'I' && "SYNCING"@[0] == 'S');
}

} // verus!
