//! The service of a validator client that has proofs generated for new blocks, signs proofs, and
//! signs again the proofs that were found valid. The service is a machine: each thing that happens
//! gives what is done next.

use crate::execution_proof::{ExecutionProof, ProofAttributes, ProofType, SignedExecutionProof};
use crate::hash::{Hash256, PublicKeyBytes};
use vstd::prelude::*;
use vstd::string::*;

verus! {

/// How long the service waits before it subscribes again, in seconds.
pub const RESUBSCRIBE_DELAY: u64 = 2;

/// An event of a beacon node.
#[derive(Debug)]
pub enum BeaconEvent {
    /// A new block.
    Block { block: Hash256, slot: u64, execution_optimistic: bool },
    /// A proof was found valid.
    ExecutionProofValidated { execution_proof: ExecutionProof, epoch: u64 },
    /// Anything else.
    Other,
}

/// What happens to the service.
#[derive(Debug)]
pub enum MonitorEvent {
    /// The service starts.
    Started,
    /// The events could be subscribed to.
    Subscribed,
    /// The events could not be subscribed to.
    SubscriptionFailed,
    /// An event came.
    Received(BeaconEvent),
    /// The stream of events failed.
    StreamFailed,
    /// The stream of events ended.
    StreamEnded,
    /// The event that came was dealt with.
    Handled,
    /// The wait is over.
    Waited,
}

/// What the service does next.
#[derive(Debug)]
pub enum MonitorAction {
    /// Subscribe to the events for blocks and for validated proofs.
    Subscribe,
    /// Wait for the next event.
    AwaitEvent,
    /// Have proofs generated for a block.
    HandleBlock { block: Hash256, slot: u64 },
    /// Sign a proof again.
    HandleValidatedProof { execution_proof: ExecutionProof, epoch: u64 },
    /// Wait, in seconds.
    Wait(u64),
}

/// What the service does when something happens.
pub open spec fn action_after(event: MonitorEvent) -> MonitorAction {
    match event {
        MonitorEvent::Started => MonitorAction::Subscribe,
        MonitorEvent::Waited => MonitorAction::Subscribe,
        MonitorEvent::Subscribed => MonitorAction::AwaitEvent,
        MonitorEvent::Handled => MonitorAction::AwaitEvent,
        MonitorEvent::SubscriptionFailed => MonitorAction::Wait(RESUBSCRIBE_DELAY),
        MonitorEvent::StreamFailed => MonitorAction::Wait(RESUBSCRIBE_DELAY),
        MonitorEvent::StreamEnded => MonitorAction::Wait(RESUBSCRIBE_DELAY),
        MonitorEvent::Received(received) => match received {
            BeaconEvent::Block { block, slot, execution_optimistic } => if execution_optimistic {
                MonitorAction::AwaitEvent
            } else {
                MonitorAction::HandleBlock { block, slot }
            },
            BeaconEvent::ExecutionProofValidated { execution_proof, epoch } =>
                MonitorAction::HandleValidatedProof { execution_proof, epoch },
            BeaconEvent::Other => MonitorAction::AwaitEvent,
        },
    }
}

/// What the service does when something happens.
pub fn next_action(event: MonitorEvent) -> (r: MonitorAction)
    ensures
        r == action_after(event),
{
    match event {
        MonitorEvent::Started => MonitorAction::Subscribe,
        MonitorEvent::Waited => MonitorAction::Subscribe,
        MonitorEvent::Subscribed => MonitorAction::AwaitEvent,
        MonitorEvent::Handled => MonitorAction::AwaitEvent,
        MonitorEvent::SubscriptionFailed => MonitorAction::Wait(RESUBSCRIBE_DELAY),
        MonitorEvent::StreamFailed => MonitorAction::Wait(RESUBSCRIBE_DELAY),
        MonitorEvent::StreamEnded => MonitorAction::Wait(RESUBSCRIBE_DELAY),
        MonitorEvent::Received(received) => match received {
            BeaconEvent::Block { block, slot, execution_optimistic } => {
                if execution_optimistic {
                    MonitorAction::AwaitEvent
                } else {
                    MonitorAction::HandleBlock { block, slot }
                }
            },
            BeaconEvent::ExecutionProofValidated { execution_proof, epoch } => {
                MonitorAction::HandleValidatedProof { execution_proof, epoch }
            },
            BeaconEvent::Other => MonitorAction::AwaitEvent,
        },
    }
}

/// What the fetch of a block came to.
#[derive(Debug, Clone, Copy, PartialEq, Eq, Structural)]
pub enum FetchedBlock {
    /// A block with a payload request.
    WithPayload,
    /// A block without a payload request.
    WithoutPayload,
    /// No such block.
    NotFound,
    /// The fetch failed.
    Failed,
}

/// A proof that is to be signed.
#[derive(Debug)]
pub struct SigningRequest {
    pub pubkey: PublicKeyBytes,
    pub execution_proof: ExecutionProof,
    pub epoch: u64,
}

/// What the service of a validator client is set to do.
#[derive(Debug)]
pub struct ProofService {
    /// The kinds of proofs that are requested for each block.
    pub proof_types: Vec<ProofType>,
}

/// The message `text`, and why.
fn explained(text: &str, why: &str) -> (r: String)
    ensures
        r@ == text@ + why@,
{
    let mut r = text.to_owned();
    r.append(why);
    r
}

impl ProofService {
    /// A service that requests the given kinds of proofs, or the first three.
    pub fn new(proof_types: Option<Vec<ProofType>>) -> (r: Self)
        ensures
            match proof_types {
                Some(proof_types) => r.proof_types == proof_types,
                None => r.proof_types@ == seq![0u8, 1, 2],
            },
    {
        match proof_types {
            Some(proof_types) => ProofService { proof_types },
            None => {
                let mut proof_types: Vec<ProofType> = Vec::new();
                proof_types.push(0);
                proof_types.push(1);
                proof_types.push(2);
                assert(proof_types@ =~= seq![0u8, 1, 2]);
                ProofService { proof_types }
            },
        }
    }

    /// What proofs are requested for a block that was fetched, if any: those of all kinds that the
    /// service is set to, for a block with a payload request.
    pub fn handle_block_event(&self, fetched: FetchedBlock) -> (r: Option<ProofAttributes>)
        ensures
            match r {
                Some(attributes) => fetched is WithPayload && attributes.proof_types@
                    == self.proof_types@,
                None => fetched !is WithPayload,
            },
    {
        match fetched {
            FetchedBlock::WithPayload => {
                let mut proof_types: Vec<ProofType> = Vec::new();
                let mut i: usize = 0;
                while i < self.proof_types.len()
                    invariant
                        i <= self.proof_types@.len(),
                        proof_types@ == self.proof_types@.take(i as int),
                    decreases self.proof_types@.len() - i,
                {
                    proof_types.push(self.proof_types[i]);
                    assert(self.proof_types@.take(i + 1) =~= self.proof_types@.take(i as int).push(
                        self.proof_types@[i as int],
                    ));
                    i = i + 1;
                }
                assert(self.proof_types@.take(i as int) =~= self.proof_types@);
                Some(ProofAttributes { proof_types })
            },
            _ => None,
        }
    }

    /// The signature that is asked for when a proof was found valid: that of the first local
    /// validator, if there is one.
    pub fn handle_validated_proof(
        &self,
        voting_pubkeys: &Vec<PublicKeyBytes>,
        execution_proof: ExecutionProof,
        epoch: u64,
    ) -> (r: Option<SigningRequest>)
        ensures
            r == if voting_pubkeys@.len() > 0 {
                Some(SigningRequest { pubkey: voting_pubkeys@[0], execution_proof, epoch })
            } else {
                None
            },
    {
        if voting_pubkeys.len() > 0 {
            Some(SigningRequest { pubkey: voting_pubkeys[0], execution_proof, epoch })
        } else {
            None
        }
    }

    /// The signature that is asked for when a proof comes from the proof engine. Its epoch is the
    /// given one, else that of the slot that the clock shows, else the first.
    pub fn handle_proof_request(
        &self,
        pubkey: PublicKeyBytes,
        execution_proof: ExecutionProof,
        epoch: Option<u64>,
        now: Option<u64>,
        slots_per_epoch: u64,
    ) -> (r: SigningRequest)
        requires
            slots_per_epoch > 0,
        ensures
            r.pubkey == pubkey,
            r.execution_proof == execution_proof,
            r.epoch == match (epoch, now) {
                (Some(epoch), _) => epoch as int,
                (None, Some(slot)) => slot as int / slots_per_epoch as int,
                (None, None) => 0,
            },
    {
        let epoch: u64 = match epoch {
            Some(epoch) => epoch,
            None => match now {
                Some(slot) => slot / slots_per_epoch,
                None => 0,
            },
        };
        SigningRequest { pubkey, execution_proof, epoch }
    }

    /// The proof that is submitted once it is signed, or the error of the request.
    pub fn on_signed(signed: Result<SignedExecutionProof, String>) -> (r: Result<
        SignedExecutionProof,
        String,
    >)
        ensures
            match signed {
                Ok(signed) => r == Ok::<SignedExecutionProof, String>(signed),
                Err(why) => r matches Err(text) && text@ == "Failed to sign execution proof: "@
                    + why@,
            },
    {
        match signed {
            Ok(signed) => Ok(signed),
            Err(why) => Err(explained("Failed to sign execution proof: ", why.as_str())),
        }
    }

    /// What the request comes to once the proof was submitted.
    pub fn on_submitted(submitted: Result<(), String>) -> (r: Result<(), String>)
        ensures
            match submitted {
                Ok(_) => r is Ok,
                Err(why) => r matches Err(text) && text@
                    == "Failed to submit proof to beacon node: "@ + why@,
            },
    {
        match submitted {
            Ok(_) => Ok(()),
            Err(why) => Err(explained("Failed to submit proof to beacon node: ", why.as_str())),
        }
    }

    /// The error of a subscription that no beacon node could serve.
    pub fn subscription_error(why: &str) -> (r: String)
        ensures
            r@ == "All beacon nodes failed to provide event stream: "@ + why@,
    {
        explained("All beacon nodes failed to provide event stream: ", why)
    }
}

/// The service subscribes when it starts and after each wait, waits after each failure and after the
/// end of a stream, and has proofs generated only for blocks that are not optimistic.
pub proof fn law_service_goes_on(event: MonitorEvent)
    ensures
        action_after(event) is Subscribe <==> event is Started || event is Waited,
        action_after(event) is Wait <==> event is SubscriptionFailed || event is StreamFailed
            || event is StreamEnded,
        action_after(event) is HandleBlock <==> event matches MonitorEvent::Received(
            BeaconEvent::Block { execution_optimistic: false, .. },
        ),
{
}

/// Every proof that was found valid is signed again, whatever the proof: what is handed on is that
/// proof and that epoch. Nothing else has a proof signed again.
pub proof fn law_validated_proofs_handled(
    event: MonitorEvent,
    execution_proof: ExecutionProof,
    epoch: u64,
)
    ensures
        action_after(event) == (MonitorAction::HandleValidatedProof { execution_proof, epoch })
            <==> event == MonitorEvent::Received(
            BeaconEvent::ExecutionProofValidated { execution_proof, epoch },
        ),
{
}

/// Proofs are generated for every block that is not optimistic, and for no other: what is handed on is
/// that block and that slot.
pub proof fn law_blocks_handled(event: MonitorEvent, block: Hash256, slot: u64)
    ensures
        action_after(event) == (MonitorAction::HandleBlock { block, slot }) <==> event
            == MonitorEvent::Received(
            BeaconEvent::Block { block, slot, execution_optimistic: false },
        ),
{
}

/// The next event is awaited exactly when a subscription was made, an event was dealt with, or one
/// came that asks for nothing. Each wait takes two seconds.
pub proof fn law_idle_events_passed_over(event: MonitorEvent)
    ensures
        action_after(event) is AwaitEvent <==> {
            ||| event is Subscribed
            ||| event is Handled
            ||| event == MonitorEvent::Received(BeaconEvent::Other)
            ||| event matches MonitorEvent::Received(
                BeaconEvent::Block { execution_optimistic: true, .. },
            )
        },
        action_after(event) matches MonitorAction::Wait(seconds) ==> seconds == 2,
{
}

} // verus!
