//! A proof node client that answers from memory.

use crate::codec::to_vec;
use crate::engine::errors::ProofEngineError;
use crate::engine::events::{ProofComplete, ProofEvent};
use crate::execution_proof::{ProofAttributes, ProofStatus, ProofType};
use crate::hash::Hash256;
use crate::ssz::byte_views;
use vstd::prelude::*;
use vstd::string::*;

verus! {

/// A call that the client got.
#[derive(Debug, Clone)]
pub enum MockClientEvent {
    /// Proofs were requested.
    ProofRequested { ssz_body: Vec<u8>, proof_attributes: ProofAttributes, root: Hash256 },
    /// A proof was to be verified.
    ProofVerified { root: Hash256, proof_type: ProofType },
    /// A proof was to be fetched.
    ProofFetched { root: Hash256, proof_type: ProofType },
}

/// A proof node client that answers from memory.
#[derive(Debug)]
pub struct MockProofNodeClient {
    /// The bodies of the requests for proofs, as they came.
    pub requests: Vec<Vec<u8>>,
    /// How long after a request the proofs are said to be complete, in milliseconds.
    pub callback_delay_ms: u64,
}

/// What becomes of a request for proofs.
#[derive(Debug)]
pub struct MockRequest {
    /// The answer.
    pub root: Hash256,
    /// What those who follow the calls are told at once.
    pub call: MockClientEvent,
    /// How long to wait before the events, in milliseconds.
    pub delay_ms: u64,
    /// The events that are broadcast then, in this order.
    pub completions: Vec<ProofEvent>,
}

/// The event that says that a proof is complete.
pub open spec fn completion(root: Hash256, proof_type: ProofType) -> ProofEvent {
    ProofEvent::ProofComplete(ProofComplete { new_payload_request_root: root, proof_type })
}

impl MockProofNodeClient {
    /// A client that got no request yet.
    pub fn new(callback_delay_ms: u64) -> (r: Self)
        ensures
            r.requests@.len() == 0,
            r.callback_delay_ms == callback_delay_ms,
    {
        MockProofNodeClient { requests: Vec::new(), callback_delay_ms }
    }

    /// How many requests for proofs came.
    pub fn request_count(&self) -> (r: usize)
        ensures
            r == self.requests@.len(),
    {
        self.requests.len()
    }

    /// The bodies of the requests for proofs, as they came.
    pub fn received_requests(&self) -> (r: Vec<Vec<u8>>)
        ensures
            byte_views(r@) == byte_views(self.requests@),
    {
        let mut r: Vec<Vec<u8>> = Vec::new();
        let mut i: usize = 0;
        while i < self.requests.len()
            invariant
                i <= self.requests@.len(),
                r@.len() == i,
                forall|j: int| 0 <= j < i ==> (#[trigger] r@[j])@ == self.requests@[j]@,
            decreases self.requests@.len() - i,
        {
            r.push(to_vec(self.requests[i].as_slice()));
            i = i + 1;
        }
        assert(byte_views(r@) =~= byte_views(self.requests@));
        r
    }

    /// Takes a request for proofs. `root` is the root of the payload request that the body
    /// encodes, or why it encodes none. One proof of each wanted kind is said to be complete later,
    /// in the order in which they are wanted.
    pub fn request_proofs(
        &mut self,
        ssz_body: Vec<u8>,
        proof_attributes: ProofAttributes,
        root: Result<Hash256, String>,
    ) -> (r: Result<MockRequest, ProofEngineError>)
        ensures
            final(self).callback_delay_ms == old(self).callback_delay_ms,
            match root {
                Ok(root) => {
                    &&& byte_views(final(self).requests@) == byte_views(old(self).requests@).push(
                        ssz_body@,
                    )
                    &&& r matches Ok(request) && {
                        &&& request.root == root
                        &&& request.call == (MockClientEvent::ProofRequested {
                            ssz_body,
                            proof_attributes,
                            root,
                        })
                        &&& request.delay_ms == old(self).callback_delay_ms
                        &&& request.completions@ == proof_attributes.proof_types@.map_values(
                            |t: ProofType| completion(root, t),
                        )
                    }
                },
                Err(why) => {
                    &&& final(self).requests@ == old(self).requests@
                    &&& r matches Err(ProofEngineError::InvalidPayload(text)) && text@
                        == "SSZ decode failed: "@ + why@
                },
            },
    {
        let root = match root {
            Ok(root) => root,
            Err(why) => {
                let mut text = "SSZ decode failed: ".to_owned();
                text.append(why.as_str());
                return Err(ProofEngineError::InvalidPayload(text));
            },
        };
        self.requests.push(to_vec(ssz_body.as_slice()));
        assert(byte_views(self.requests@) =~= byte_views(old(self).requests@).push(ssz_body@));
        let mut completions: Vec<ProofEvent> = Vec::new();
        let mut i: usize = 0;
        while i < proof_attributes.proof_types.len()
            invariant
                i <= proof_attributes.proof_types@.len(),
                completions@.len() == i,
                forall|j: int|
                    0 <= j < i ==> #[trigger] completions@[j] == completion(
                        root,
                        proof_attributes.proof_types@[j],
                    ),
            decreases proof_attributes.proof_types@.len() - i,
        {
            completions.push(
                ProofEvent::ProofComplete(
                    ProofComplete {
                        new_payload_request_root: root,
                        proof_type: proof_attributes.proof_types[i],
                    },
                ),
            );
            i = i + 1;
        }
        assert(completions@ =~= proof_attributes.proof_types@.map_values(
            |t: ProofType| completion(root, t),
        ));
        Ok(
            MockRequest {
                root,
                call: MockClientEvent::ProofRequested { ssz_body, proof_attributes, root },
                delay_ms: self.callback_delay_ms,
                completions,
            },
        )
    }

    /// Verifies a proof: every proof is valid.
    pub fn verify_proof(&self, root: Hash256, proof_type: ProofType) -> (r: (
        ProofStatus,
        MockClientEvent,
    ))
        ensures
            r.0 is Valid,
            r.1 == (MockClientEvent::ProofVerified { root, proof_type }),
    {
        (ProofStatus::Valid, MockClientEvent::ProofVerified { root, proof_type })
    }

    /// Fetches a proof: every proof has the same four bytes.
    pub fn get_proof(&self, root: Hash256, proof_type: ProofType) -> (r: (
        Vec<u8>,
        MockClientEvent,
    ))
        ensures
            r.0@ == seq![0xDEu8, 0xAD, 0xBE, 0xEF],
            r.1 == (MockClientEvent::ProofFetched { root, proof_type }),
    {
        let mut bytes: Vec<u8> = Vec::new();
        bytes.push(0xDE);
        bytes.push(0xAD);
        bytes.push(0xBE);
        bytes.push(0xEF);
        assert(bytes@ =~= seq![0xDEu8, 0xAD, 0xBE, 0xEF]);
        (bytes, MockClientEvent::ProofFetched { root, proof_type })
    }
}

/// The event about a proof that is complete names its request and its kind.
pub proof fn law_completion_names_proof(root: Hash256, proof_type: ProofType)
    ensures
        completion(root, proof_type) matches ProofEvent::ProofComplete(inner)
            && inner.new_payload_request_root == root && inner.proof_type == proof_type,
{
}

} // verus!
