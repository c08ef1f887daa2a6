//! What a node says about the proofs that it has verified.

use crate::hash::Hash256;
use vstd::prelude::*;

verus! {

/// The latest block whose proofs a node has verified.
#[derive(Debug, Clone, Copy)]
pub struct ExecutionProofStatus {
    pub slot: u64,
    pub block_root: Hash256,
}

impl PartialEq for ExecutionProofStatus {
    fn eq(&self, other: &Self) -> (r: bool) {
        self.slot == other.slot && self.block_root.equals(&other.block_root)
    }
}

impl vstd::std_specs::cmp::PartialEqSpecImpl for ExecutionProofStatus {
    open spec fn obeys_eq_spec() -> bool {
        true
    }

    open spec fn eq_spec(&self, other: &Self) -> bool {
        *self == *other
    }
}

impl Eq for ExecutionProofStatus {

}

impl Default for ExecutionProofStatus {
    fn default() -> (r: Self)
        ensures
            r.slot == 0,
            r.block_root == Hash256::spec_zero(),
    {
        ExecutionProofStatus { slot: 0, block_root: Hash256::zero() }
    }
}

/// What the parts of the node share about the network: here, the latest block whose proofs this
/// node has verified.
#[derive(Debug)]
pub struct NetworkGlobals {
    local_execution_proof_status: ExecutionProofStatus,
}

impl View for NetworkGlobals {
    type V = ExecutionProofStatus;

    closed spec fn view(&self) -> ExecutionProofStatus {
        self.local_execution_proof_status
    }
}

impl NetworkGlobals {
    /// Nothing is verified yet.
    pub fn new() -> (r: Self)
        ensures
            r@.slot == 0,
            r@.block_root == Hash256::spec_zero(),
    {
        NetworkGlobals { local_execution_proof_status: ExecutionProofStatus::default() }
    }

    /// The latest block whose proofs this node has verified.
    pub fn local_execution_proof_status(&self) -> (r: ExecutionProofStatus)
        ensures
            r == self@,
    {
        self.local_execution_proof_status
    }

    /// Sets the latest block whose proofs this node has verified.
    pub fn set_local_execution_proof_status(&mut self, status: ExecutionProofStatus)
        ensures
            final(self)@ == status,
    {
        self.local_execution_proof_status = status;
    }
}

} // verus!
