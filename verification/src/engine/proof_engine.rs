//! The proof engine: the state, the proofs that came before their payload, and what is answered
//! to payloads, proofs and fork choice states.
//!
//! A proof is checked by a proof node, which only the caller can ask. Where its word is needed,
//! a function here says so, and another one takes the reply.

use crate::engine::errors::{ProofEngineError, ProofEngineStateError};
use crate::engine::forkchoice::{
    syncing_status, valid_status, ForkchoiceState, ForkchoiceUpdatedResponse, MissingProofInfo,
    PayloadStatusV1, PayloadStatusV1Status, PayloadStatusView,
};
use crate::engine::persisted_state::PersistedProofEngineState;
use crate::engine::state::State;
use crate::engine::state_model::{missing_views, RequestMetadata, StateView};
use crate::engine::update::outcome_of;
use crate::execution_proof::{
    views, ExecutionProof, ExecutionProofView, ProofAttributes, ProofStatus, ProofType,
    PublicInput, SignedExecutionProof, SignedExecutionProofView, MIN_REQUIRED_EXECUTION_PROOFS,
};
use crate::hash::{ExecutionBlockHash, Hash256, SignatureBytes};
use crate::proof_data::{proof_bytes, proof_data, proof_data_to_vec, ProofData};
use crate::table::KeyedMap;
use vstd::prelude::*;

verus! {

/// Proofs that wait for their payload.
#[derive(Debug)]
pub struct WaitingProofs {
    pub proofs: Vec<SignedExecutionProof>,
}

impl View for WaitingProofs {
    type V = Seq<SignedExecutionProofView>;

    open spec fn view(&self) -> Seq<SignedExecutionProofView> {
        views(self.proofs@)
    }
}

/// The forks that a payload can belong to.
#[derive(Debug, Clone, Copy, PartialEq, Eq, Structural)]
pub enum PayloadFork {
    Bellatrix,
    Capella,
    Deneb,
    Electra,
    Fulu,
    Gloas,
}

impl PayloadFork {
    /// The name of the fork.
    pub open spec fn spec_name(self) -> Seq<char> {
        match self {
            PayloadFork::Bellatrix => "Bellatrix"@,
            PayloadFork::Capella => "Capella"@,
            PayloadFork::Deneb => "Deneb"@,
            PayloadFork::Electra => "Electra"@,
            PayloadFork::Fulu => "Fulu"@,
            PayloadFork::Gloas => "Gloas"@,
        }
    }

    /// The name of the fork.
    pub fn name(&self) -> (r: String)
        ensures
            r@ == self.spec_name(),
    {
        match self {
            PayloadFork::Bellatrix => "Bellatrix".to_owned(),
            PayloadFork::Capella => "Capella".to_owned(),
            PayloadFork::Deneb => "Deneb".to_owned(),
            PayloadFork::Electra => "Electra".to_owned(),
            PayloadFork::Fulu => "Fulu".to_owned(),
            PayloadFork::Gloas => "Gloas".to_owned(),
        }
    }
}

/// What becomes of a request for proofs.
#[derive(Debug)]
pub enum ProofRequestStep {
    /// The request is answered with this root, without a proof node.
    Answered(Hash256),
    /// This is to be sent to the proof node, which answers with the root.
    Send(ProofGenerationRequest),
}

/// A payload of which proofs are requested.
#[derive(Debug)]
pub struct EncodedPayload {
    pub fork: PayloadFork,
    /// The encoded payload request.
    pub ssz_bytes: Vec<u8>,
}

/// What a proof node is sent to have proofs made.
#[derive(Debug)]
pub struct ProofGenerationRequest {
    /// The encoded payload request.
    pub ssz_body: Vec<u8>,
    pub proof_attributes: ProofAttributes,
}

/// What a proof node is asked about a proof.
#[derive(Debug)]
pub struct VerificationRequest {
    /// The payload request that the proof is about.
    pub root: Hash256,
    pub proof_type: ProofType,
    pub proof_data: Vec<u8>,
}

impl VerificationRequest {
    /// Whether the question is about this proof.
    pub open spec fn asks_about(self, signed: SignedExecutionProofView) -> bool {
        &&& self.root == signed.request_root()
        &&& self.proof_type == signed.message.proof_type
        &&& self.proof_data@ == signed.message.proof_data
    }
}

/// What becomes of a proof that is to be verified.
#[derive(Debug)]
pub enum VerificationStep {
    /// The outcome is known.
    Done(Result<ProofStatus, ProofEngineError>),
    /// The proof node is to be asked.
    AskNode(VerificationRequest),
}

/// What becomes of a new payload.
#[derive(Debug)]
pub enum NewPayloadStep {
    /// The answer is known.
    Answered(PayloadStatusV1),
    /// Proofs that have waited for the payload are to be verified, one after the other.
    Verify(PayloadVerification),
}

/// The proof engine.
#[derive(Debug)]
pub struct HttpProofEngine {
    state: State,
    /// The proofs whose payload has not been seen, by their request roots.
    buffered_proofs: KeyedMap<Hash256, WaitingProofs>,
    /// Whether the engine vouches for every payload without proofs.
    mock_mode: bool,
    /// The request root of the latest proof that moved the canonical head.
    latest_promoted: Option<Hash256>,
}

/// What an [`HttpProofEngine`] holds.
#[verifier::ext_equal]
pub struct EngineView {
    pub state: StateView,
    /// The proofs whose payload has not been seen, by their request roots.
    pub waiting: Map<Hash256, Seq<SignedExecutionProofView>>,
    pub mock_mode: bool,
    pub latest_promoted: Option<Hash256>,
}

impl View for HttpProofEngine {
    type V = EngineView;

    closed spec fn view(&self) -> EngineView {
        EngineView {
            state: self.state@,
            waiting: self.buffered_proofs@,
            mock_mode: self.mock_mode,
            latest_promoted: self.latest_promoted,
        }
    }
}

/// The outcome of the engine, as the outcome of its state gives it.
pub open spec fn lifted(outcome: Result<ProofStatus, ProofEngineStateError>) -> Result<
    ProofStatus,
    ProofEngineError,
> {
    match outcome {
        Ok(status) => Ok(status),
        Err(e) => Err(ProofEngineError::StateError(e)),
    }
}

/// The bytes of the dummy proof of a request: a fixed mark, and the first bytes of the root.
pub open spec fn mock_proof_bytes(root: Hash256) -> Seq<u8> {
    seq![0xDEu8, 0xAD, 0xBE, 0xEF] + root.0@.take(16)
}

/// The dummy proof of a request.
pub open spec fn mock_proof(root: Hash256) -> SignedExecutionProofView {
    SignedExecutionProofView {
        message: ExecutionProofView {
            proof_data: mock_proof_bytes(root),
            proof_type: 0,
            public_input: PublicInput { new_payload_request_root: root },
        },
        validator_index: 0,
        signature: SignatureBytes::spec_empty(),
    }
}

/// What the verification of a proof comes to.
pub type ProofOutcome = Result<ProofStatus, ProofEngineError>;

/// The verification of the proofs that waited for a payload, part of which may have been done.
#[derive(Debug)]
pub struct PayloadVerification {
    block_hash: ExecutionBlockHash,
    proofs: Vec<SignedExecutionProof>,
    next: usize,
    found_valid: bool,
}

/// What a [`PayloadVerification`] holds.
#[verifier::ext_equal]
pub struct PayloadVerificationView {
    pub block_hash: ExecutionBlockHash,
    /// The proofs that are still to be verified, in order.
    pub remaining: Seq<SignedExecutionProofView>,
    /// Whether one of the others was found valid.
    pub found_valid: bool,
}

impl View for PayloadVerification {
    type V = PayloadVerificationView;

    closed spec fn view(&self) -> PayloadVerificationView {
        PayloadVerificationView {
            block_hash: self.block_hash,
            remaining: if self.next <= self.proofs@.len() {
                views(self.proofs@).skip(self.next as int)
            } else {
                Seq::empty()
            },
            found_valid: self.found_valid,
        }
    }
}

impl PayloadVerificationView {
    /// What is left once the next proof came to `outcome`. An error ends the verification.
    pub open spec fn after(self, outcome: ProofOutcome) -> PayloadVerificationView {
        match outcome {
            Ok(status) => PayloadVerificationView {
                remaining: self.remaining.skip(1),
                found_valid: self.found_valid || status is Valid,
                ..self
            },
            Err(_) => PayloadVerificationView { remaining: Seq::empty(), ..self },
        }
    }

    /// What is left once the next proofs came to `outcomes`, one after the other.
    pub open spec fn after_all(self, outcomes: Seq<ProofOutcome>) -> PayloadVerificationView
        decreases outcomes.len(),
    {
        if outcomes.len() == 0 {
            self
        } else {
            self.after(outcomes[0]).after_all(outcomes.skip(1))
        }
    }

    /// The answer about the payload.
    pub open spec fn answer(self) -> PayloadStatusView {
        if self.found_valid {
            valid_status(self.block_hash)
        } else {
            syncing_status()
        }
    }
}

impl PayloadVerification {
    /// The verification of `proofs`, none of which has been verified.
    fn new(block_hash: ExecutionBlockHash, proofs: Vec<SignedExecutionProof>) -> (r: Self)
        ensures
            r@ == (PayloadVerificationView {
                block_hash,
                remaining: views(proofs@),
                found_valid: false,
            }),
    {
        let r = PayloadVerification { block_hash, proofs, next: 0, found_valid: false };
        assert(r@.remaining =~= views(proofs@));
        r
    }

    /// The next proof to verify.
    pub fn next_proof(&self) -> (r: Option<&SignedExecutionProof>)
        ensures
            match r {
                Some(signed) => self@.remaining.len() > 0 && signed@ == self@.remaining[0],
                None => self@.remaining.len() == 0,
            },
    {
        if self.next < self.proofs.len() {
            Some(&self.proofs[self.next])
        } else {
            None
        }
    }

    /// Takes what the verification of the next proof came to. An error is the answer about the
    /// payload, and the proofs that are left are dropped.
    pub fn on_outcome(&mut self, outcome: ProofOutcome) -> (r: Result<(), ProofEngineError>)
        requires
            old(self)@.remaining.len() > 0,
        ensures
            final(self)@ == old(self)@.after(outcome),
            match outcome {
                Ok(_) => r is Ok,
                Err(e) => r == Err::<(), ProofEngineError>(e),
            },
    {
        let ghost before = self@;
        let count: usize = self.proofs.len();
        assert(self.next < count);
        match outcome {
            Ok(status) => {
                self.next = self.next + 1;
                if status.is_valid() {
                    self.found_valid = true;
                }
                assert(self@ =~= before.after(outcome));
                Ok(())
            },
            Err(e) => {
                self.next = count;
                assert(self@ =~= before.after(outcome));
                Err(e)
            },
        }
    }

    /// The answer about the payload: valid as soon as one of the proofs was.
    pub fn answer(&self) -> (r: PayloadStatusV1)
        ensures
            r@ == self@.answer(),
    {
        if self.found_valid {
            PayloadStatusV1 {
                status: PayloadStatusV1Status::Valid,
                latest_valid_hash: Some(self.block_hash),
                validation_error: None,
            }
        } else {
            PayloadStatusV1 {
                status: PayloadStatusV1Status::Syncing,
                latest_valid_hash: None,
                validation_error: None,
            }
        }
    }
}

impl EngineView {
    /// The proofs that wait for a request.
    pub open spec fn waiting_for(self, root: Hash256) -> Seq<SignedExecutionProofView> {
        if self.waiting.contains_key(root) {
            self.waiting[root]
        } else {
            Seq::empty()
        }
    }

    /// The engine with a proof put by until its payload is seen.
    pub open spec fn put_by(self, added: SignedExecutionProofView) -> EngineView {
        let root = added.request_root();
        EngineView {
            waiting: self.waiting.insert(root, self.waiting_for(root).push(added)),
            ..self
        }
    }

    /// Whether the insertion of a verified proof leads to the engine `after` and to `outcome`. A
    /// proof that moves the canonical head is the latest one to have done so.
    pub open spec fn adds(
        self,
        added: SignedExecutionProofView,
        after: EngineView,
        outcome: Result<ProofStatus, ProofEngineStateError>,
    ) -> bool {
        &&& self.state.inserts(added, after.state, outcome)
        &&& after == EngineView {
            state: after.state,
            latest_promoted: if outcome == Ok::<ProofStatus, ProofEngineStateError>(
                ProofStatus::Valid,
            ) {
                Some(added.request_root())
            } else {
                self.latest_promoted
            },
            ..self
        }
    }

    /// Whether the verification of a proof by an engine that asks no proof node leads to the
    /// engine `after`.
    pub open spec fn mock_verifies(
        self,
        added: SignedExecutionProofView,
        after: EngineView,
    ) -> bool {
        if self.state.knows(added.request_root()) {
            exists|outcome: Result<ProofStatus, ProofEngineStateError>| #[trigger]
                self.adds(added, after, outcome)
        } else {
            after == self.put_by(added)
        }
    }

    /// Whether the verification of proofs one by one, without a proof node, leads to the engine
    /// `after`.
    pub open spec fn mock_verifies_each(
        self,
        added: Seq<SignedExecutionProofView>,
        after: EngineView,
    ) -> bool
        decreases added.len(),
    {
        if added.len() == 0 {
            after == self
        } else {
            exists|mid: EngineView| #[trigger]
                self.mock_verifies(added[0], mid) && mid.mock_verifies_each(added.skip(1), after)
        }
    }

    /// The engine that has seen a payload request. The proofs that waited for it wait no longer.
    pub open spec fn with_payload(self, request: RequestMetadata) -> EngineView {
        EngineView {
            state: self.state.buffered(request),
            waiting: self.waiting.remove(request.request_root),
            ..self
        }
    }

    /// Whether a payload leads an engine that asks no proof node to the engine `after`: the
    /// proofs that waited are verified, and then the dummy proof is added.
    pub open spec fn mock_takes(self, request: RequestMetadata, after: EngineView) -> bool {
        let root = request.request_root;
        exists|mid: EngineView, outcome: Result<ProofStatus, ProofEngineStateError>|
            self.with_payload(request).mock_verifies_each(self.waiting_for(root), mid)
                && #[trigger] mid.adds(mock_proof(root), after, outcome)
    }
}

impl HttpProofEngine {
    /// An engine that has seen nothing.
    pub fn with_proof_node() -> (r: Self)
        ensures
            r@ == (EngineView {
                state: StateView::initial(MIN_REQUIRED_EXECUTION_PROOFS as nat),
                waiting: Map::empty(),
                mock_mode: false,
                latest_promoted: None,
            }),
    {
        HttpProofEngine {
            state: State::new(),
            buffered_proofs: KeyedMap::new(),
            mock_mode: false,
            latest_promoted: None,
        }
    }

    /// An engine that has seen nothing, and vouches for every payload without proofs.
    pub fn with_mock_proof_node() -> (r: Self)
        ensures
            r@ == (EngineView {
                state: StateView::initial(MIN_REQUIRED_EXECUTION_PROOFS as nat),
                waiting: Map::empty(),
                mock_mode: true,
                latest_promoted: None,
            }),
    {
        let mut engine = HttpProofEngine::with_proof_node();
        engine.mock_mode = true;
        engine
    }

    /// Whether the engine vouches for every payload without proofs.
    pub fn is_mock(&self) -> (r: bool)
        ensures
            r == self@.mock_mode,
    {
        self.mock_mode
    }

    /// The request root of the latest proof that moved the canonical head.
    pub fn latest_promoted_request_root(&self) -> (r: Option<Hash256>)
        ensures
            r == self@.latest_promoted,
    {
        self.latest_promoted
    }

    /// The proofs of a request.
    pub fn get_proofs_by_root(&self, root: &Hash256) -> (r: Vec<SignedExecutionProof>)
        ensures
            views(r@) == match self@.state.proofs_of(*root) {
                Some(held) => held,
                None => Seq::empty(),
            },
    {
        let mut r: Vec<SignedExecutionProof> = Vec::new();
        match self.state.get_proofs(root) {
            Some(held) => {
                let mut i: usize = 0;
                while i < held.len()
                    invariant
                        i <= held@.len(),
                        views(r@) == views(held@).take(i as int),
                    decreases held@.len() - i,
                {
                    let ghost before = r@;
                    let copy = held[i].clone();
                    r.push(copy);
                    proof {
                        assert(views(r@) =~= views(before).push(copy@));
                        assert(views(held@).take(i + 1) =~= views(held@).take(i as int).push(
                            views(held@)[i as int],
                        ));
                    }
                    i = i + 1;
                }
                assert(views(r@) =~= views(held@));
            },
            None => {
                assert(views(r@) =~= Seq::<SignedExecutionProofView>::empty());
            },
        }
        r
    }

    /// The requests that lack proofs on the way to the pending fork choice state.
    pub fn missing_proofs(&self) -> (r: Vec<MissingProofInfo>)
        ensures
            self@.state.is_missing(missing_views(r@)),
            r@.len() > 0 ==> self@.state.latest_fcs is Some,
            self@.state.latest_fcs is Some ==> self@.state.buffer.dom().finite(),
    {
        self.state.missing_proofs()
    }

    /// Adds a verified proof to the state.
    fn insert(&mut self, signed: &SignedExecutionProof) -> (r: Result<ProofStatus, ProofEngineError>)
        ensures
            exists|outcome: Result<ProofStatus, ProofEngineStateError>| #[trigger]
                old(self)@.adds(signed@, final(self)@, outcome) && r == lifted(outcome),
    {
        let ghost before = self@;
        let outcome = self.state.insert_proof(signed.clone());
        match outcome {
            Ok(status) => {
                if status.is_valid() {
                    self.latest_promoted = Some(signed.request_root());
                }
                assert(before.adds(signed@, self@, outcome));
                Ok(status)
            },
            Err(e) => {
                assert(before.adds(signed@, self@, outcome));
                Err(ProofEngineError::StateError(e))
            },
        }
    }

    /// Puts a proof by until its payload is seen.
    fn put_by(&mut self, signed: &SignedExecutionProof)
        ensures
            final(self)@ == old(self)@.put_by(signed@),
    {
        let root = signed.request_root();
        let mut waiting = match self.buffered_proofs.remove(&root) {
            Some(waiting) => waiting,
            None => WaitingProofs { proofs: Vec::new() },
        };
        let ghost held = waiting@;
        let copy = signed.clone();
        waiting.proofs.push(copy);
        proof {
            assert(waiting@ =~= held.push(copy@));
            assert(held =~= old(self)@.waiting_for(root));
        }
        self.buffered_proofs.insert(root, waiting);
        assert(self@.waiting =~= old(self)@.put_by(signed@).waiting);
    }

    /// Takes a proof that is to be verified. One whose payload has not been seen is put by, and
    /// the answer is that the engine is syncing. Without a proof node the proof is added at once.
    /// Else the proof node is to be asked, and nothing has changed yet.
    pub fn verify_execution_proof(&mut self, signed: &SignedExecutionProof) -> (r: VerificationStep)
        ensures
            if !old(self)@.state.knows(signed@.request_root()) {
                final(self)@ == old(self)@.put_by(signed@) && r == VerificationStep::Done(
                    Ok(ProofStatus::Syncing),
                )
            } else if old(self)@.mock_mode {
                exists|outcome: Result<ProofStatus, ProofEngineStateError>| #[trigger]
                    old(self)@.adds(signed@, final(self)@, outcome) && r == VerificationStep::Done(
                        lifted(outcome),
                    )
            } else {
                final(self)@ == old(self)@ && (r matches VerificationStep::AskNode(request)
                    && request.asks_about(signed@))
            },
    {
        if !self.state.contains_request_root(&signed.request_root()) {
            self.put_by(signed);
            return VerificationStep::Done(Ok(ProofStatus::Syncing));
        }
        if self.mock_mode {
            let outcome = self.insert(signed);
            return VerificationStep::Done(outcome);
        }
        VerificationStep::AskNode(
            VerificationRequest {
                root: signed.request_root(),
                proof_type: signed.proof_type(),
                proof_data: proof_data_to_vec(signed.proof_data()),
            },
        )
    }

    /// Takes the proof node's word about a proof. A valid proof is added to the state.
    pub fn on_proof_verified(
        &mut self,
        signed: &SignedExecutionProof,
        reply: Result<ProofStatus, ProofEngineError>,
    ) -> (r: Result<ProofStatus, ProofEngineError>)
        ensures
            if reply == Ok::<ProofStatus, ProofEngineError>(ProofStatus::Valid) {
                exists|outcome: Result<ProofStatus, ProofEngineStateError>| #[trigger]
                    old(self)@.adds(signed@, final(self)@, outcome) && r == lifted(outcome)
            } else {
                final(self)@ == old(self)@ && r == reply
            },
    {
        match reply {
            Ok(status) => {
                if status.is_valid() {
                    return self.insert(signed);
                }
                Ok(status)
            },
            Err(e) => Err(e),
        }
    }

    /// Verifies proofs one by one, without a proof node.
    fn mock_verify_each(&mut self, proofs: &Vec<SignedExecutionProof>)
        requires
            old(self)@.mock_mode,
        ensures
            old(self)@.mock_verifies_each(views(proofs@), final(self)@),
            final(self)@.mock_mode,
    {
        let ghost before = self@;
        let ghost all = views(proofs@);
        let mut i: usize = 0;
        assert(all.skip(0) =~= all);
        while i < proofs.len()
            invariant
                i <= proofs@.len(),
                all == views(proofs@),
                self@.mock_mode,
                forall|after: EngineView| #[trigger]
                    self@.mock_verifies_each(all.skip(i as int), after)
                        ==> before.mock_verifies_each(all, after),
            decreases proofs@.len() - i,
        {
            let ghost here = self@;
            let _ = self.verify_execution_proof(&proofs[i]);
            proof {
                let rest = all.skip(i as int);
                assert(rest[0] == proofs@[i as int]@);
                assert(rest.skip(1) =~= all.skip(i + 1));
                assert(here.mock_verifies(rest[0], self@));
                assert forall|after: EngineView| #[trigger]
                    self@.mock_verifies_each(
                        all.skip(i + 1),
                        after,
                    ) implies before.mock_verifies_each(all, after) by {
                    assert(here.mock_verifies_each(rest, after));
                }
            }
            i = i + 1;
        }
        assert(self@.mock_verifies_each(all.skip(i as int), self@));
    }

    /// Takes a new payload. Without a proof node, the proofs that waited for it and a dummy proof
    /// are added, and the payload is valid. Else the proofs that waited for it are to be
    /// verified.
    pub fn new_payload(&mut self, request: RequestMetadata) -> (r: NewPayloadStep)
        ensures
            if old(self)@.mock_mode {
                &&& old(self)@.mock_takes(request, final(self)@)
                &&& r matches NewPayloadStep::Answered(answer) && answer@ == valid_status(
                    request.block_hash,
                )
            } else {
                &&& final(self)@ == old(self)@.with_payload(request)
                &&& r matches NewPayloadStep::Verify(verification) && verification@ == (
                PayloadVerificationView {
                    block_hash: request.block_hash,
                    remaining: old(self)@.waiting_for(request.request_root),
                    found_valid: false,
                })
            },
    {
        let ghost before = self@;
        let root = request.request_root;
        let waiting = match self.buffered_proofs.remove(&root) {
            Some(waiting) => waiting.proofs,
            None => Vec::new(),
        };
        proof {
            assert(views(waiting@) =~= before.waiting_for(root));
        }
        self.state.buffer_request(request);
        assert(self@ =~= before.with_payload(request));
        if self.mock_mode {
            self.mock_verify_each(&waiting);
            let ghost mid = self@;
            let dummy = HttpProofEngine::generate_mock_proof(root);
            let _ = self.insert(&dummy);
            proof {
                let outcome = choose|outcome: Result<ProofStatus, ProofEngineStateError>| #[trigger]
                    mid.adds(dummy@, self@, outcome);
                assert(mid.adds(mock_proof(root), self@, outcome));
            }
            return NewPayloadStep::Answered(
                PayloadStatusV1 {
                    status: PayloadStatusV1Status::Valid,
                    latest_valid_hash: Some(request.block_hash),
                    validation_error: None,
                },
            );
        }
        NewPayloadStep::Verify(PayloadVerification::new(request.block_hash, waiting))
    }

    /// Takes a fork choice state. Without a proof node the state follows it, but the answer is
    /// always that it holds.
    pub fn forkchoice_updated(&mut self, forkchoice_state: ForkchoiceState) -> (r: Result<
        ForkchoiceUpdatedResponse,
        ProofEngineError,
    >)
        ensures
            final(self)@ == (EngineView { state: final(self)@.state, ..old(self)@ }),
            exists|outcome: Result<PayloadStatusView, ProofEngineStateError>|
                {
                    &&& #[trigger] old(self)@.state.updates(
                        forkchoice_state,
                        final(self)@.state,
                        outcome,
                    )
                    &&& if old(self)@.mock_mode {
                        r matches Ok(response) && response.says(
                            valid_status(forkchoice_state.head_block_hash),
                        )
                    } else {
                        match outcome {
                            Ok(status) => r matches Ok(response) && response.says(status),
                            Err(e) => r == Err::<ForkchoiceUpdatedResponse, ProofEngineError>(
                                ProofEngineError::StateError(e),
                            ),
                        }
                    }
                },
    {
        let ghost before = self@;
        let outcome = self.state.forkchoice_updated(forkchoice_state);
        proof {
            assert(before.state.updates(forkchoice_state, self@.state, outcome_of(outcome)));
        }
        if self.mock_mode {
            return Ok(
                ForkchoiceUpdatedResponse {
                    payload_status: PayloadStatusV1 {
                        status: PayloadStatusV1Status::Valid,
                        latest_valid_hash: Some(forkchoice_state.head_block_hash),
                        validation_error: None,
                    },
                    payload_id: None,
                },
            );
        }
        match outcome {
            Ok(response) => Ok(response),
            Err(e) => Err(ProofEngineError::StateError(e)),
        }
    }

    /// What becomes of a request for proofs of a payload. Without a proof node it is answered with
    /// the zero root. Only Fulu payloads are sent to the proof node.
    pub fn request_proofs(
        &self,
        payload: EncodedPayload,
        proof_attributes: ProofAttributes,
    ) -> (r: Result<ProofRequestStep, ProofEngineError>)
        ensures
            if self@.mock_mode {
                r == Ok::<ProofRequestStep, ProofEngineError>(
                    ProofRequestStep::Answered(Hash256::spec_zero()),
                )
            } else if payload.fork is Fulu {
                r == Ok::<ProofRequestStep, ProofEngineError>(
                    ProofRequestStep::Send(
                        ProofGenerationRequest { ssz_body: payload.ssz_bytes, proof_attributes },
                    ),
                )
            } else {
                r matches Err(ProofEngineError::ForkNotSupported(name)) && name@
                    == payload.fork.spec_name()
            },
    {
        if self.mock_mode {
            return Ok(ProofRequestStep::Answered(Hash256::zero()));
        }
        match payload.fork {
            PayloadFork::Fulu => Ok(
                ProofRequestStep::Send(
                    ProofGenerationRequest { ssz_body: payload.ssz_bytes, proof_attributes },
                ),
            ),
            _ => Err(ProofEngineError::ForkNotSupported(payload.fork.name())),
        }
    }

    /// The dummy proof of a request.
    pub fn generate_mock_proof(request_root: Hash256) -> (r: SignedExecutionProof)
        ensures
            r@ == mock_proof(request_root),
    {
        SignedExecutionProof {
            message: ExecutionProof {
                proof_data: mock_proof_data(&request_root),
                proof_type: 0,
                public_input: PublicInput { new_payload_request_root: request_root },
            },
            validator_index: 0,
            signature: SignatureBytes::empty(),
        }
    }

    /// The stored form of the state.
    pub fn to_persisted(&self) -> (r: PersistedProofEngineState)
        ensures
            r.stores(self@.state),
    {
        PersistedProofEngineState::from_state(&self.state)
    }

    /// Puts a stored state in the place of the state.
    pub fn restore_from_persisted(&mut self, persisted: PersistedProofEngineState)
        ensures
            final(self)@ == (EngineView { state: persisted.state(), ..old(self)@ }),
    {
        self.state = persisted.to_state();
    }
}

/// The bytes of the dummy proof of a request: a fixed mark, and the first bytes of the root.
pub fn mock_proof_data(root: &Hash256) -> (r: ProofData)
    ensures
        proof_bytes(r) == mock_proof_bytes(*root),
{
    let mut bytes: Vec<u8> = Vec::new();
    bytes.push(0xDE);
    bytes.push(0xAD);
    bytes.push(0xBE);
    bytes.push(0xEF);
    let mut i: usize = 0;
    while i < 16
        invariant
            i <= 16,
            bytes@ == seq![0xDEu8, 0xAD, 0xBE, 0xEF] + root.0@.take(i as int),
        decreases 16 - i,
    {
        bytes.push(root.0[i]);
        assert(bytes@ =~= seq![0xDEu8, 0xAD, 0xBE, 0xEF] + root.0@.take(i + 1));
        i = i + 1;
    }
    proof_data(bytes).unwrap()
}

} // verus!
