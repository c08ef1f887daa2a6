//! How tests await the events of the nodes of a network. What a channel gives is judged here: each
//! thing that comes out of it gives what the one who waits does next.

use crate::execution_proof::ExecutionProof;
use crate::table::KeyedMap;
use crate::testing::mock_server::ProofRequestRecord;
use crate::text::{append_decimal, decimal};
use vstd::prelude::*;
use vstd::string::*;

verus! {

/// The two kinds of subscriptions. They differ in the texts of their errors.
#[derive(Debug, Clone, Copy, PartialEq, Eq, Structural)]
pub enum Source {
    /// The events of a beacon node.
    BeaconNode,
    /// The events of a proof engine.
    ProofEngine,
}

/// What a channel gives.
#[derive(Debug)]
pub enum Received<T> {
    /// An event.
    Event(T),
    /// No event yet.
    Empty,
    /// Nothing any more.
    Closed,
    /// So many events were lost.
    Lagged(u64),
    /// No event in time.
    TimedOut,
}

impl Source {
    /// What the error about lost events says.
    pub open spec fn lagged_message(self, n: u64) -> Seq<char> {
        (match self {
            Source::BeaconNode => "Event subscription lagged by "@,
            Source::ProofEngine => "Proof engine event subscription lagged by "@,
        }) + decimal(n as nat) + " events"@
    }

    /// What the error about an event that did not come in time says.
    pub open spec fn timeout_message(self) -> Seq<char> {
        match self {
            Source::BeaconNode => "Timeout waiting for event"@,
            Source::ProofEngine => "Timeout waiting for proof engine event"@,
        }
    }

    /// What the error about an event that did not come in time, of those that are awaited, says.
    pub open spec fn no_match_message(self) -> Seq<char> {
        match self {
            Source::BeaconNode => "Timeout waiting for matching event"@,
            Source::ProofEngine => "Timeout waiting for matching proof engine event"@,
        }
    }

    /// What the error about a channel that was closed says.
    pub open spec fn closed_message(self) -> Seq<char> {
        match self {
            Source::BeaconNode => "Channel closed while waiting for event"@,
            Source::ProofEngine => "Channel closed while waiting for proof engine event"@,
        }
    }

    /// Whether `r` is what the one who asked for an event is told: a closed or empty channel gives
    /// none, lost events and lost time are errors.
    pub open spec fn tells<T>(self, received: Received<T>, r: Result<Option<T>, String>) -> bool {
        match received {
            Received::Event(event) => r == Ok::<Option<T>, String>(Some(event)),
            Received::Empty => r == Ok::<Option<T>, String>(None),
            Received::Closed => r == Ok::<Option<T>, String>(None),
            Received::Lagged(n) => r matches Err(text) && text@ == self.lagged_message(n),
            Received::TimedOut => r matches Err(text) && text@ == self.timeout_message(),
        }
    }

    /// What the one who asked for an event is told.
    pub fn recv<T>(&self, received: Received<T>) -> (r: Result<Option<T>, String>)
        ensures
            self.tells(received, r),
    {
        match received {
            Received::Event(event) => Ok(Some(event)),
            Received::Empty => Ok(None),
            Received::Closed => Ok(None),
            Received::Lagged(n) => {
                let mut text = match self {
                    Source::BeaconNode => "Event subscription lagged by ".to_owned(),
                    Source::ProofEngine => "Proof engine event subscription lagged by ".to_owned(),
                };
                append_decimal(&mut text, n);
                text.append(" events");
                Err(text)
            },
            Received::TimedOut => match self {
                Source::BeaconNode => Err("Timeout waiting for event".to_owned()),
                Source::ProofEngine => Err("Timeout waiting for proof engine event".to_owned()),
            },
        }
    }

    /// What the one who waits for certain events does when an event came, or none, or an error:
    /// `Ok(Some(..))` ends the wait, `Ok(None)` goes on. `matched` says whether the event is one of
    /// them.
    pub fn wait_for<T>(&self, told: Result<Option<T>, String>, matched: bool) -> (r: Result<
        Option<T>,
        String,
    >)
        ensures
            match told {
                Ok(Some(event)) => r == Ok::<Option<T>, String>(
                    if matched {
                        Some(event)
                    } else {
                        None
                    },
                ),
                Ok(None) => r matches Err(text) && text@ == self.closed_message(),
                Err(text) => r == Err::<Option<T>, String>(text),
            },
    {
        match told {
            Ok(Some(event)) => {
                if matched {
                    Ok(Some(event))
                } else {
                    Ok(None)
                }
            },
            Ok(None) => match self {
                Source::BeaconNode => Err("Channel closed while waiting for event".to_owned()),
                Source::ProofEngine => Err(
                    "Channel closed while waiting for proof engine event".to_owned(),
                ),
            },
            Err(text) => Err(text),
        }
    }

    /// How much time is left for the next event, or that there is none.
    pub fn remaining(&self, duration: u64, elapsed: u64) -> (r: Result<u64, String>)
        ensures
            match r {
                Ok(rest) => elapsed < duration && rest == duration - elapsed,
                Err(text) => elapsed >= duration && text@ == self.no_match_message(),
            },
    {
        if elapsed < duration {
            return Ok(duration - elapsed);
        }
        match self {
            Source::BeaconNode => Err("Timeout waiting for matching event".to_owned()),
            Source::ProofEngine => Err(
                "Timeout waiting for matching proof engine event".to_owned(),
            ),
        }
    }
}

/// An event of a proof engine.
#[derive(Debug, Clone)]
pub enum ProofEngineEvent {
    /// A request for proofs came.
    ProofRequestReceived { record: ProofRequestRecord },
    /// A proof was sent to the validator client.
    ProofSentToValidator { execution_proof: ExecutionProof },
}

impl ProofEngineEvent {
    /// The request for proofs that the event is about, if it is about one.
    pub fn proof_request(self) -> (r: Option<ProofRequestRecord>)
        ensures
            r == match self {
                ProofEngineEvent::ProofRequestReceived { record } => Some(record),
                ProofEngineEvent::ProofSentToValidator { .. } => None,
            },
    {
        match self {
            ProofEngineEvent::ProofRequestReceived { record } => Some(record),
            ProofEngineEvent::ProofSentToValidator { .. } => None,
        }
    }

    /// The proof that was sent, if the event is about one.
    pub fn proof_sent(self) -> (r: Option<ExecutionProof>)
        ensures
            r == match self {
                ProofEngineEvent::ProofRequestReceived { .. } => None,
                ProofEngineEvent::ProofSentToValidator { execution_proof } => Some(execution_proof),
            },
    {
        match self {
            ProofEngineEvent::ProofRequestReceived { .. } => None,
            ProofEngineEvent::ProofSentToValidator { execution_proof } => Some(execution_proof),
        }
    }
}

/// The events of a beacon node that tests await.
#[derive(Debug, Clone, Copy)]
pub enum BeaconNodeEvent {
    /// There is a new head.
    Head { slot: u64 },
    /// There is a new block.
    Block { slot: u64 },
    /// An epoch was finalized.
    FinalizedCheckpoint { epoch: u64 },
    /// Anything else.
    Other,
}

impl BeaconNodeEvent {
    /// Whether the event ends the wait for a slot: there is a head at that slot.
    pub fn reaches_slot(&self, target_slot: u64) -> (r: bool)
        ensures
            r == (*self == BeaconNodeEvent::Head { slot: target_slot }),
    {
        match self {
            BeaconNodeEvent::Head { slot } => *slot == target_slot,
            _ => false,
        }
    }

    /// Whether the event ends the wait for a finalized epoch.
    pub fn finalizes(&self, target_epoch: u64) -> (r: bool)
        ensures
            r == (*self == BeaconNodeEvent::FinalizedCheckpoint { epoch: target_epoch }),
    {
        match self {
            BeaconNodeEvent::FinalizedCheckpoint { epoch } => *epoch == target_epoch,
            _ => false,
        }
    }

    /// Whether the event is about a head.
    pub fn is_head(&self) -> (r: bool)
        ensures
            r == (*self is Head),
    {
        matches!(self, BeaconNodeEvent::Head { .. })
    }

    /// Whether the event is about a block.
    pub fn is_block(&self) -> (r: bool)
        ensures
            r == (*self is Block),
    {
        matches!(self, BeaconNodeEvent::Block { .. })
    }
}

/// Counts requests for proofs: first those that wait in the channel, then those that come in time.
#[derive(Debug, Clone, Copy)]
pub struct ProofRequestCounter {
    /// How many requests there were.
    pub count: usize,
    /// The channel held no more events: the others are waited for.
    pub drained: bool,
    /// There is nothing more to wait for.
    pub done: bool,
}

impl ProofRequestCounter {
    /// A counter that saw nothing yet.
    pub fn new() -> (r: Self)
        ensures
            r == (ProofRequestCounter { count: 0, drained: false, done: false }),
    {
        ProofRequestCounter { count: 0, drained: false, done: false }
    }

    /// Takes what the one who asked for an event was told. While the channel is drained, anything
    /// but an event ends that; after that, anything but an event ends the count.
    pub fn on_told(&mut self, told: &Result<Option<ProofEngineEvent>, String>)
        requires
            old(self).count < usize::MAX,
            !old(self).done,
        ensures
            *final(self) == match told {
                Ok(Some(event)) => ProofRequestCounter {
                    count: if *event is ProofRequestReceived {
                        (old(self).count + 1) as usize
                    } else {
                        old(self).count
                    },
                    ..*old(self)
                },
                _ => ProofRequestCounter {
                    count: old(self).count,
                    drained: true,
                    done: old(self).drained,
                },
            },
    {
        match told {
            Ok(Some(event)) => {
                if let ProofEngineEvent::ProofRequestReceived { .. } = event {
                    self.count = self.count + 1;
                }
            },
            _ => {
                self.done = self.drained;
                self.drained = true;
            },
        }
    }

    /// Ends the count: the time is over.
    pub fn on_timeout(&mut self)
        ensures
            *final(self) == (ProofRequestCounter { done: true, ..*old(self) }),
    {
        self.done = true;
    }
}

/// The events that wait in a channel, up to the first answer that is none.
pub fn collect_pending(told: Vec<Result<Option<ProofEngineEvent>, String>>) -> (r: Vec<
    ProofEngineEvent,
>)
    ensures
        r@.len() <= told@.len(),
        forall|i: int|
            0 <= i < r@.len() ==> told@[i] == Ok::<Option<ProofEngineEvent>, String>(
                Some(#[trigger] r@[i]),
            ),
        r@.len() < told@.len() ==> !(told@[r@.len() as int] matches Ok(Some(_))),
{
    let ghost all = told@;
    let mut rest = told;
    let mut r: Vec<ProofEngineEvent> = Vec::new();
    while rest.len() > 0
        invariant
            all == told@,
            r@.len() <= all.len(),
            rest@ == all.skip(r@.len() as int),
            forall|i: int|
                0 <= i < r@.len() ==> all[i] == Ok::<Option<ProofEngineEvent>, String>(
                    Some(#[trigger] r@[i]),
                ),
        decreases rest@.len(),
    {
        let next = rest.remove(0);
        let ghost k = r@.len() as int;
        proof {
            assert(next == all[k]);
            assert(rest@ =~= all.skip(k + 1));
        }
        match next {
            Ok(Some(event)) => {
                r.push(event);
            },
            _ => {
                return r;
            },
        }
    }
    r
}

/// A subscription that is kept.
struct Kept<S> {
    subscription: S,
}

impl<S> View for Kept<S> {
    type V = S;

    closed spec fn view(&self) -> S {
        self.subscription
    }
}

/// The subscriptions to nodes, one for each node.
pub struct SubscriptionCache<S> {
    subscriptions: KeyedMap<usize, Kept<S>>,
}

/// The subscription to each node.
impl<S> View for SubscriptionCache<S> {
    type V = Map<usize, S>;

    closed spec fn view(&self) -> Map<usize, S> {
        self.subscriptions@
    }
}

impl<S> Default for SubscriptionCache<S> {
    fn default() -> (r: Self)
        ensures
            r@ == Map::<usize, S>::empty(),
    {
        SubscriptionCache::new()
    }
}

impl<S> SubscriptionCache<S> {
    /// No node was subscribed to.
    pub fn new() -> (r: Self)
        ensures
            r@ == Map::<usize, S>::empty(),
    {
        SubscriptionCache { subscriptions: KeyedMap::new() }
    }

    /// The subscription to a node. It is made by `subscribe` on first use, and kept. As long as it
    /// is kept, nothing is subscribed again.
    pub fn subscribe_to_node<F: FnOnce() -> S>(&mut self, node_index: usize, subscribe: F) -> (r: &S)
        requires
            !old(self)@.contains_key(node_index) ==> call_requires(subscribe, ()),
        ensures
            final(self)@.contains_key(node_index),
            *r == final(self)@[node_index],
            if old(self)@.contains_key(node_index) {
                final(self)@ == old(self)@
            } else {
                call_ensures(subscribe, (), *r) && final(self)@ == old(self)@.insert(node_index, *r)
            },
    {
        if !self.subscriptions.contains_key(&node_index) {
            let subscription = subscribe();
            self.subscriptions.insert(node_index, Kept { subscription });
        }
        &self.subscriptions.get(&node_index).unwrap().subscription
    }

    /// Forgets all subscriptions.
    pub fn clear(&mut self)
        ensures
            final(self)@ == Map::<usize, S>::empty(),
    {
        self.subscriptions = KeyedMap::new();
    }

    /// Forgets the subscription to a node.
    pub fn clear_for_node(&mut self, node_index: usize)
        ensures
            final(self)@ == old(self)@.remove(node_index),
    {
        self.subscriptions.remove(&node_index);
    }
}

/// Every event that comes is handed on as it is. A channel that is empty or closed hands on nothing.
/// Lost events and lost time are errors.
pub proof fn law_events_handed_on<T>(
    source: Source,
    received: Received<T>,
    told: Result<Option<T>, String>,
)
    requires
        source.tells(received, told),
    ensures
        told is Err <==> received is Lagged || received is TimedOut,
        told matches Ok(Some(event)) ==> received == Received::Event(event),
        received is Event ==> told is Ok && told->Ok_0 is Some,
        received is Empty || received is Closed ==> told == Ok::<Option<T>, String>(None),
{
}

} // verus!
