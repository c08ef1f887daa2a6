//! The endpoints that serve and accept execution proofs: which requests are refused, what is
//! answered, and what becomes of each submitted proof.

use crate::codec::lemma_hash_bytes;
use crate::engine::errors::shown;
use crate::engine::proof_engine::HttpProofEngine;
use crate::execution_proof::{
    views, ProofStatus, SignedExecutionProof, SignedExecutionProofView,
};
use crate::hash::Hash256;
use crate::sync::status::{ExecutionProofStatus, NetworkGlobals};
use crate::text::{hex_chars, law_hex_tells_bytes, prefixed_hex};
use vstd::prelude::*;
use vstd::string::*;

verus! {

/// A refusal of a request.
#[derive(Debug)]
pub enum Rejection {
    /// The request is at fault.
    BadRequest(String),
    /// The server is at fault.
    ServerError(String),
}

impl Rejection {
    /// Whether this says that the request is at fault, with this message.
    pub open spec fn is_bad_request(self, message: Seq<char>) -> bool {
        self matches Rejection::BadRequest(m) && m@ == message
    }

    /// Whether this says that the server is at fault, with this message.
    pub open spec fn is_server_error(self, message: Seq<char>) -> bool {
        self matches Rejection::ServerError(m) && m@ == message
    }
}

/// What is said where no proof engine is configured.
pub open spec fn no_engine_message() -> Seq<char> {
    "Proof engine not configured. Start with --proof-engine-endpoint to enable EIP-8025."@
}

/// The refusal where no proof engine is configured.
fn no_engine() -> (r: Rejection)
    ensures
        r.is_bad_request(no_engine_message()),
{
    Rejection::BadRequest(
        "Proof engine not configured. Start with --proof-engine-endpoint to enable EIP-8025.".to_owned(),
    )
}

/// The answer to a request for the proofs of a block.
#[derive(Debug)]
pub struct ExecutionProofsResponse {
    pub execution_optimistic: bool,
    pub finalized: bool,
    pub data: Vec<SignedExecutionProof>,
}

/// What a block id stands for.
#[derive(Debug, Clone, Copy)]
pub struct BlockLookup {
    pub block_root: Hash256,
    pub execution_optimistic: bool,
    pub finalized: bool,
    /// The root of the payload request of the block, where it is known.
    pub request_root: Option<Hash256>,
}

/// The proofs of a block. `has_execution_layer` says whether there is an execution layer,
/// `engine` is its proof engine, and `block` is what the block id stands for.
pub fn get_execution_proofs(
    has_execution_layer: bool,
    engine: Option<&HttpProofEngine>,
    block: Result<BlockLookup, Rejection>,
) -> (r: Result<ExecutionProofsResponse, Rejection>)
    ensures
        if !has_execution_layer {
            r matches Err(e) && e.is_server_error("Execution layer not available"@)
        } else {
            match (engine, block) {
                (None, _) => r matches Err(e) && e.is_bad_request(no_engine_message()),
                (Some(_), Err(e)) => r == Err::<ExecutionProofsResponse, Rejection>(e),
                (Some(held), Ok(found)) => match found.request_root {
                    None => r matches Err(e) && e.is_server_error("request block is unknown"@),
                    Some(root) => r matches Ok(response) && response.execution_optimistic
                        == found.execution_optimistic && response.finalized == found.finalized
                        && views(response.data@) == match held@.state.proofs_of(root) {
                        Some(proofs) => proofs,
                        None => Seq::empty(),
                    },
                },
            }
        },
{
    if !has_execution_layer {
        return Err(Rejection::ServerError("Execution layer not available".to_owned()));
    }
    let engine = match engine {
        Some(engine) => engine,
        None => return Err(no_engine()),
    };
    let found = match block {
        Ok(found) => found,
        Err(e) => return Err(e),
    };
    let request_root = match found.request_root {
        Some(root) => root,
        None => return Err(Rejection::ServerError("request block is unknown".to_owned())),
    };
    Ok(
        ExecutionProofsResponse {
            execution_optimistic: found.execution_optimistic,
            finalized: found.finalized,
            data: engine.get_proofs_by_root(&request_root),
        },
    )
}

/// A request to submit signed proofs.
#[derive(Debug)]
pub struct SubmitExecutionProofsRequest {
    pub proofs: Vec<SignedExecutionProof>,
}

/// What the verification of a submitted proof came to: the status, with the block that the proof
/// verified where there is one, or what went wrong.
pub type VerificationOutcome = Result<(ProofStatus, Option<ExecutionProofStatus>), String>;

/// What is to be done about a submitted proof that was verified.
#[derive(Debug, Clone, Copy)]
pub struct SubmissionAction {
    /// The latest block whose proofs are verified, where the proof verified one.
    pub verified: Option<ExecutionProofStatus>,
    /// Whether the proof is to be passed on to the network.
    pub gossip: bool,
}

/// The action that an outcome calls for, where it does not refuse the request.
pub open spec fn action_of(outcome: VerificationOutcome) -> Option<SubmissionAction> {
    match outcome {
        Ok((status, block)) => if status is Invalid {
            None
        } else {
            Some(
                SubmissionAction {
                    verified: if status is Valid {
                        block
                    } else {
                        None
                    },
                    gossip: status is Valid || status is Accepted,
                },
            )
        },
        Err(_) => None,
    }
}

/// The message with which an outcome refuses the request.
pub open spec fn refusal_of(root: Hash256, outcome: VerificationOutcome) -> Seq<char> {
    match outcome {
        Ok(_) => "Proof "@ + shown(root) + " is invalid"@,
        Err(e) => "Proof validation failed: "@ + e@,
    }
}

/// Only proofs that were found valid or were accepted are passed on to the network. One that was
/// found invalid, or could not be verified, refuses the request.
pub proof fn law_only_accepted_gossiped(outcome: VerificationOutcome)
    ensures
        match outcome {
            Ok((status, _)) => {
                &&& action_of(outcome) is None <==> status is Invalid
                &&& action_of(outcome) matches Some(action) ==> (action.gossip <==> status is Valid
                    || status is Accepted)
            },
            Err(_) => action_of(outcome) is None,
        },
{
}

/// A submission of signed proofs, part of which may have been dealt with.
#[derive(Debug)]
pub struct Submission {
    proofs: Vec<SignedExecutionProof>,
    next: usize,
}

impl Submission {
    /// The proofs that are still to be verified, in order.
    pub closed spec fn remaining(self) -> Seq<SignedExecutionProofView> {
        if self.next <= self.proofs@.len() {
            views(self.proofs@).skip(self.next as int)
        } else {
            Seq::empty()
        }
    }

    /// Takes a submission. It is refused without a proof engine, and without proofs.
    pub fn begin(has_engine: bool, request: SubmitExecutionProofsRequest) -> (r: Result<
        Submission,
        Rejection,
    >)
        ensures
            if !has_engine {
                r matches Err(e) && e.is_bad_request(no_engine_message())
            } else if request.proofs@.len() == 0 {
                r matches Err(e) && e.is_bad_request("No proofs provided"@)
            } else {
                r matches Ok(submission) && submission.remaining() == views(request.proofs@)
            },
    {
        if !has_engine {
            return Err(no_engine());
        }
        if request.proofs.len() == 0 {
            return Err(Rejection::BadRequest("No proofs provided".to_owned()));
        }
        let r = Submission { proofs: request.proofs, next: 0 };
        assert(r.remaining() =~= views(request.proofs@));
        Ok(r)
    }

    /// The next proof to verify.
    pub fn next_proof(&self) -> (r: Option<&SignedExecutionProof>)
        ensures
            match r {
                Some(signed) => self.remaining().len() > 0 && signed@ == self.remaining()[0],
                None => self.remaining().len() == 0,
            },
    {
        if self.next < self.proofs.len() {
            Some(&self.proofs[self.next])
        } else {
            None
        }
    }

    /// Takes what the verification of the next proof came to. A valid proof of a block makes that
    /// block the latest verified one. Valid and accepted proofs are to be passed on to the
    /// network. A proof that is invalid, or could not be verified, refuses the request.
    pub fn on_verified(&mut self, outcome: VerificationOutcome, globals: &mut NetworkGlobals) -> (r:
        Result<SubmissionAction, Rejection>)
        requires
            old(self).remaining().len() > 0,
        ensures
            final(self).remaining() == old(self).remaining().skip(1),
            match action_of(outcome) {
                Some(action) => {
                    &&& r == Ok::<SubmissionAction, Rejection>(action)
                    &&& final(globals)@ == match action.verified {
                        Some(status) => status,
                        None => old(globals)@,
                    }
                },
                None => {
                    &&& r matches Err(e) && e.is_bad_request(
                        refusal_of(old(self).remaining()[0].request_root(), outcome),
                    )
                    &&& final(globals)@ == old(globals)@
                },
            },
    {
        let ghost before = self.remaining();
        let submitted: usize = self.proofs.len();
        assert(self.next < submitted);
        let request_root = self.proofs[self.next].request_root();
        self.next = self.next + 1;
        assert(self.remaining() =~= before.skip(1));
        let (status, block) = match outcome {
            Ok(verdict) => verdict,
            Err(e) => {
                let mut message = "Proof validation failed: ".to_owned();
                message.append(e.as_str());
                return Err(Rejection::BadRequest(message));
            },
        };
        let mut verified: Option<ExecutionProofStatus> = None;
        if status.is_valid() {
            if let Some(found) = block {
                globals.set_local_execution_proof_status(found);
                verified = Some(found);
            }
        }
        match status {
            ProofStatus::Valid | ProofStatus::Accepted => Ok(
                SubmissionAction { verified, gossip: true },
            ),
            ProofStatus::Invalid => {
                let mut message = "Proof ".to_owned();
                let root = prefixed_hex(request_root.0.as_slice());
                message.append(root.as_str());
                message.append(" is invalid");
                Err(Rejection::BadRequest(message))
            },
            ProofStatus::Syncing | ProofStatus::NotSupported => Ok(
                SubmissionAction { verified, gossip: false },
            ),
        }
    }
}

/// What becomes of a submitted proof, by what its verification came to.
pub proof fn law_submission_actions(block: Option<ExecutionProofStatus>, error: String)
    ensures
        action_of(Ok((ProofStatus::Valid, block))) == Some(
            SubmissionAction { verified: block, gossip: true },
        ),
        action_of(Ok((ProofStatus::Accepted, block))) == Some(
            SubmissionAction { verified: None, gossip: true },
        ),
        action_of(Ok((ProofStatus::Syncing, block))) == Some(
            SubmissionAction { verified: None, gossip: false },
        ),
        action_of(Ok((ProofStatus::NotSupported, block))) == Some(
            SubmissionAction { verified: None, gossip: false },
        ),
        action_of(Ok((ProofStatus::Invalid, block))) is None,
        action_of(Err(error)) is None,
{
}

/// A refusal of an invalid proof tells its request from every other one, and a refusal of a proof that
/// could not be verified ends with what went wrong.
pub proof fn law_refusals_told_apart(
    a: Hash256,
    b: Hash256,
    invalid: (ProofStatus, Option<ExecutionProofStatus>),
    error: String,
)
    ensures
        refusal_of(a, Ok(invalid)) == refusal_of(b, Ok(invalid)) ==> a == b,
        refusal_of(a, Err(error)).len() == "Proof validation failed: "@.len() + error@.len(),
        refusal_of(a, Err(error)).skip("Proof validation failed: "@.len() as int) == error@,
        refusal_of(a, Err(error)).take("Proof validation failed: "@.len() as int)
            == "Proof validation failed: "@,
{
    let x = refusal_of(a, Ok(invalid));
    let y = refusal_of(b, Ok(invalid));
    if x == y {
        let from = "Proof "@.len() as int;
        let m = hex_chars(a.0@).len() as int;
        let hex = "0x"@.len() as int;
        law_hex_tells_bytes(a.0@, b.0@, 0);
        law_hex_tells_bytes(b.0@, a.0@, 0);
        assert(x.subrange(from + hex, from + hex + m) =~= hex_chars(a.0@));
        assert(y.subrange(from + hex, from + hex + m) =~= hex_chars(b.0@));
        lemma_hash_bytes(a, b);
    }
    let text = "Proof validation failed: "@;
    assert((text + error@).skip(text.len() as int) =~= error@);
    assert((text + error@).take(text.len() as int) =~= text);
}

} // verus!
