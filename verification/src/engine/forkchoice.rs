//! Fork choice states, and the answers given to them.

use crate::execution_proof::ProofType;
use crate::hash::{ExecutionBlockHash, Hash256};
use vstd::prelude::*;

verus! {

/// The blocks that a fork choice names.
#[derive(Debug, Clone, Copy)]
pub struct ForkchoiceState {
    pub head_block_hash: ExecutionBlockHash,
    pub safe_block_hash: ExecutionBlockHash,
    pub finalized_block_hash: ExecutionBlockHash,
}

impl PartialEq for ForkchoiceState {
    fn eq(&self, other: &Self) -> (r: bool) {
        self.head_block_hash == other.head_block_hash && self.safe_block_hash
            == other.safe_block_hash && self.finalized_block_hash == other.finalized_block_hash
    }
}

impl vstd::std_specs::cmp::PartialEqSpecImpl for ForkchoiceState {
    open spec fn obeys_eq_spec() -> bool {
        true
    }

    open spec fn eq_spec(&self, other: &Self) -> bool {
        *self == *other
    }
}

impl Eq for ForkchoiceState {

}

/// The fork choice state that names `hash` three times.
pub open spec fn anchored_at(hash: ExecutionBlockHash) -> ForkchoiceState {
    ForkchoiceState { head_block_hash: hash, safe_block_hash: hash, finalized_block_hash: hash }
}

/// What is known of a payload.
#[derive(Debug, Clone, Copy, PartialEq, Eq, Structural)]
pub enum PayloadStatusV1Status {
    Valid,
    Invalid,
    Syncing,
}

/// The answer about a payload.
#[derive(Debug)]
pub struct PayloadStatusV1 {
    pub status: PayloadStatusV1Status,
    pub latest_valid_hash: Option<ExecutionBlockHash>,
    pub validation_error: Option<String>,
}

/// What a [`PayloadStatusV1`] holds.
#[verifier::ext_equal]
pub struct PayloadStatusView {
    pub status: PayloadStatusV1Status,
    pub latest_valid_hash: Option<ExecutionBlockHash>,
    pub validation_error: Option<Seq<char>>,
}

impl View for PayloadStatusV1 {
    type V = PayloadStatusView;

    open spec fn view(&self) -> PayloadStatusView {
        PayloadStatusView {
            status: self.status,
            latest_valid_hash: self.latest_valid_hash,
            validation_error: match self.validation_error {
                Some(text) => Some(text@),
                None => None,
            },
        }
    }
}

/// The answer to a fork choice state. No payload is ever built in reply.
#[derive(Debug)]
pub struct ForkchoiceUpdatedResponse {
    pub payload_status: PayloadStatusV1,
    pub payload_id: Option<[u8; 8]>,
}

impl ForkchoiceUpdatedResponse {
    /// The answer about the payload, with no payload id beside it.
    pub open spec fn says(self, status: PayloadStatusView) -> bool {
        self.payload_status@ == status && self.payload_id is None
    }
}

/// The answer to a fork choice state that holds: `head` is the canonical head.
pub open spec fn valid_status(head: ExecutionBlockHash) -> PayloadStatusView {
    PayloadStatusView {
        status: PayloadStatusV1Status::Valid,
        latest_valid_hash: Some(head),
        validation_error: None,
    }
}

/// The answer to a fork choice state that cannot be judged yet.
pub open spec fn syncing_status() -> PayloadStatusView {
    PayloadStatusView {
        status: PayloadStatusV1Status::Syncing,
        latest_valid_hash: None,
        validation_error: None,
    }
}

/// The answer to a fork choice state that contradicts the tree: `head` is the canonical head.
pub open spec fn invalid_status(head: ExecutionBlockHash) -> PayloadStatusView {
    PayloadStatusView {
        status: PayloadStatusV1Status::Invalid,
        latest_valid_hash: Some(head),
        validation_error: Some("invalid forkchoice state"@),
    }
}

/// A payload request that lacks proofs.
#[derive(Debug)]
pub struct MissingProofInfo {
    /// The root that proofs are to be asked for by.
    pub root: Hash256,
    /// The kinds of proofs that are there already.
    pub existing_proof_types: Vec<ProofType>,
    /// The slot of the block. The engine does not know it and leaves it at zero.
    pub slot: u64,
}

/// What a [`MissingProofInfo`] holds.
#[verifier::ext_equal]
pub struct MissingProofView {
    pub root: Hash256,
    pub existing_proof_types: Seq<ProofType>,
    pub slot: u64,
}

impl View for MissingProofInfo {
    type V = MissingProofView;

    open spec fn view(&self) -> MissingProofView {
        MissingProofView {
            root: self.root,
            existing_proof_types: self.existing_proof_types@,
            slot: self.slot,
        }
    }
}

impl Clone for MissingProofInfo {
    fn clone(&self) -> (r: Self)
        ensures
            r@ == self@,
    {
        let mut existing_proof_types: Vec<ProofType> = Vec::new();
        let mut i: usize = 0;
        while i < self.existing_proof_types.len()
            invariant
                i <= self.existing_proof_types@.len(),
                existing_proof_types@ == self.existing_proof_types@.take(i as int),
            decreases self.existing_proof_types@.len() - i,
        {
            existing_proof_types.push(self.existing_proof_types[i]);
            assert(existing_proof_types@ =~= self.existing_proof_types@.take(i + 1));
            i = i + 1;
        }
        assert(existing_proof_types@ =~= self.existing_proof_types@);
        MissingProofInfo { root: self.root, existing_proof_types, slot: self.slot }
    }
}

} // verus!
