//! The subsystem that catches up with proofs.
//!
//! It is idle while blocks are synced, then waits for some slots, and then is active. While it
//! is active, each poll compares the best peer's verified slot with what is verified here. A
//! large gap is closed by one request for a range of slots, a small one by requests for single
//! blocks. The network calls are the caller's: the functions here say what to ask of whom, and
//! are told what was sent and what came back.

use crate::engine::forkchoice::{MissingProofInfo, MissingProofView};
use crate::hash::Hash256;
use crate::sync::in_flight::{
    in_flight_contents, map_default, map_insert, map_len, map_remove, map_roots, InFlightMap,
};
use crate::sync::status::ExecutionProofStatus;
use crate::table::KeyedMap;
use vstd::prelude::*;

verus! {

/// Slot gap above which a range of slots is asked for rather than single blocks.
pub const DEFAULT_RANGE_REQUEST_THRESHOLD: u64 = 16;

/// Most requests for single blocks that are unanswered at a time.
pub const DEFAULT_MAX_CONCURRENT: usize = 4;

/// Identifies a peer.
pub type PeerId = u64;

/// Identifies a request for the proofs of a range of slots.
#[derive(Debug, Clone, Copy, PartialEq, Eq, Structural)]
pub struct ExecutionProofsByRangeRequestId {
    pub id: u64,
}

/// Identifies a request for the proofs of a block.
#[derive(Debug, Clone, Copy, PartialEq, Eq, Structural)]
pub struct ExecutionProofsByRootRequestId {
    pub id: u64,
}

/// Identifies a request for a peer's status.
#[derive(Debug, Clone, Copy, PartialEq, Eq, Structural)]
pub struct ExecutionProofStatusRequestId {
    pub id: u64,
}

impl View for ExecutionProofStatusRequestId {
    type V = ExecutionProofStatusRequestId;

    open spec fn view(&self) -> ExecutionProofStatusRequestId {
        *self
    }
}

/// The one unanswered request for a range of slots, and the peer that serves it.
#[derive(Debug, Clone, Copy, PartialEq, Eq, Structural)]
pub struct RangeRequest {
    pub id: ExecutionProofsByRangeRequestId,
    pub peer_id: PeerId,
}

/// A status that a peer has announced.
#[derive(Debug, Clone, Copy)]
pub struct CachedExecutionProofStatus {
    pub status: ExecutionProofStatus,
    /// When the entry was last written, in the units of the caller's clock.
    pub timestamp: u64,
    /// Whether the announced block is known to be on the local chain.
    pub verified: bool,
}

impl View for CachedExecutionProofStatus {
    type V = CachedExecutionProofStatus;

    open spec fn view(&self) -> CachedExecutionProofStatus {
        *self
    }
}

impl CachedExecutionProofStatus {
    /// Whether the entry is unverified, or was written before the time `stale_before`.
    pub open spec fn spec_needs_refresh(self, stale_before: u64) -> bool {
        !self.verified || self.timestamp < stale_before
    }

    /// Whether the entry is unverified, or was written before the time `stale_before`.
    pub fn needs_refresh(&self, stale_before: u64) -> (r: bool)
        ensures
            r == self.spec_needs_refresh(stale_before),
    {
        !self.verified || self.timestamp < stale_before
    }

    /// Whether a peer with the status `other` is to be preferred: verified peers come before
    /// unverified ones, and higher slots before lower ones.
    pub open spec fn below(self, other: CachedExecutionProofStatus) -> bool {
        if self.verified == other.verified {
            self.status.slot < other.status.slot
        } else {
            other.verified
        }
    }
}

/// How the subsystem operates.
#[derive(Debug, Clone, Copy, PartialEq, Eq, Structural)]
pub enum ProofSyncState {
    /// Blocks are being synced. No proofs are asked for.
    Idle,
    /// So many more slots pass before proofs are asked for.
    Waiting(u64),
    /// Proofs are asked for.
    Syncing,
}

/// What a poll goes by.
#[derive(Debug)]
pub struct PollInput {
    /// The first slot of the finalized epoch.
    pub finalized_slot: u64,
    /// The slot up to which proofs are verified here.
    pub local_proof_slot: u64,
    /// The blocks that lack proofs.
    pub missing: Vec<MissingProofInfo>,
    /// The time before which cached statuses are stale.
    pub stale_before: u64,
}

/// The request for proofs that a poll gives rise to.
#[derive(Debug)]
pub enum ProofRequest {
    /// Nothing is asked for.
    Nothing,
    /// The proofs of `count` slots from `start_slot` on are asked for.
    Range { peer_id: PeerId, start_slot: u64, count: u64 },
    /// The proofs of these blocks are asked for, with one request each.
    Roots { peer_id: PeerId, missing: Vec<MissingProofInfo> },
}

/// What a poll gives rise to.
#[derive(Debug)]
pub struct PollAction {
    /// The peers whose status is to be asked for.
    pub refresh: Vec<PeerId>,
    /// The request for proofs.
    pub request: ProofRequest,
}

/// What a [`ProofRequest`] holds.
#[verifier::ext_equal]
pub enum ProofRequestView {
    Nothing,
    Range { peer_id: PeerId, start_slot: u64, count: u64 },
    Roots { peer_id: PeerId, missing: Seq<MissingProofView> },
}

/// What a sequence of missing proofs holds.
pub open spec fn infos(missing: Seq<MissingProofInfo>) -> Seq<MissingProofView> {
    missing.map_values(|m: MissingProofInfo| m@)
}

impl View for ProofRequest {
    type V = ProofRequestView;

    open spec fn view(&self) -> ProofRequestView {
        match *self {
            ProofRequest::Nothing => ProofRequestView::Nothing,
            ProofRequest::Range { peer_id, start_slot, count } => ProofRequestView::Range {
                peer_id,
                start_slot,
                count,
            },
            ProofRequest::Roots { peer_id, missing } => ProofRequestView::Roots {
                peer_id,
                missing: infos(missing@),
            },
        }
    }
}

/// The subsystem that catches up with proofs.
#[derive(Debug)]
pub struct ProofSync {
    state: ProofSyncState,
    range_request: Option<RangeRequest>,
    in_flight: InFlightMap,
    range_request_threshold: u64,
    max_concurrent: usize,
    peer_statuses: KeyedMap<PeerId, CachedExecutionProofStatus>,
    status_in_flight: KeyedMap<PeerId, ExecutionProofStatusRequestId>,
    activation_slots: u64,
}

/// What a [`ProofSync`] holds.
#[verifier::ext_equal]
pub struct ProofSyncView {
    pub state: ProofSyncState,
    /// The one unanswered request for a range.
    pub range_request: Option<RangeRequest>,
    /// The unanswered requests for single blocks.
    pub in_flight: Map<u64, MissingProofView>,
    pub range_request_threshold: u64,
    pub max_concurrent: nat,
    /// The statuses that peers have announced.
    pub peers: Map<PeerId, CachedExecutionProofStatus>,
    /// The unanswered requests for statuses.
    pub polled: Map<PeerId, ExecutionProofStatusRequestId>,
    /// How many slots pass before proofs are asked for.
    pub activation_slots: u64,
}

impl View for ProofSync {
    type V = ProofSyncView;

    closed spec fn view(&self) -> ProofSyncView {
        ProofSyncView {
            state: self.state,
            range_request: self.range_request,
            in_flight: in_flight_contents(self.in_flight),
            range_request_threshold: self.range_request_threshold,
            max_concurrent: self.max_concurrent as nat,
            peers: self.peer_statuses@,
            polled: self.status_in_flight@,
            activation_slots: self.activation_slots,
        }
    }
}

/// The first slot whose proofs are not settled here: the one after the later of the finalized
/// slot and the slot up to which proofs are verified, or the last slot of all.
pub open spec fn first_open_slot(finalized_slot: u64, local_proof_slot: u64) -> u64 {
    let settled = if finalized_slot >= local_proof_slot {
        finalized_slot
    } else {
        local_proof_slot
    };
    if settled == u64::MAX {
        u64::MAX
    } else {
        (settled + 1) as u64
    }
}

/// The number of slots from `start` up to `end`, both counted, or zero where there is none.
pub open spec fn slots_between(start: u64, end: u64) -> u64 {
    if end < u64::MAX && start <= end {
        (end + 1 - start) as u64
    } else {
        0
    }
}

impl ProofSyncView {
    /// Whether a peer's status is to be asked for: its entry needs a refresh, and no request for
    /// it is unanswered.
    pub open spec fn to_refresh(self, peer_id: PeerId, stale_before: u64) -> bool {
        self.peers.contains_key(peer_id) && self.peers[peer_id].spec_needs_refresh(stale_before)
            && !self.polled.contains_key(peer_id)
    }

    /// Whether `peers` lists the peers whose status is to be asked for, each once.
    pub open spec fn refreshes(self, peers: Seq<PeerId>, stale_before: u64) -> bool {
        peers.no_duplicates() && forall|p: PeerId| #[trigger]
            peers.contains(p) == self.to_refresh(p, stale_before)
    }

    /// Whether no peer is to be preferred to `peer_id`.
    pub open spec fn is_best(self, peer_id: PeerId) -> bool {
        self.peers.contains_key(peer_id) && forall|p: PeerId| #[trigger]
            self.peers.contains_key(p) ==> !self.peers[peer_id].below(self.peers[p])
    }

    /// Whether proofs of a block are being asked for.
    pub open spec fn asks_for(self, root: Hash256) -> bool {
        exists|id: u64|
            self.in_flight.contains_key(id) && (#[trigger] self.in_flight[id]).root == root
    }

    /// How many more requests for single blocks may be sent.
    pub open spec fn free_slots(self) -> nat {
        if self.in_flight.len() <= self.max_concurrent {
            (self.max_concurrent - self.in_flight.len()) as nat
        } else {
            0
        }
    }

    /// The missing proofs that are not asked for yet, as many as may be.
    pub open spec fn selected(self, missing: Seq<MissingProofView>) -> Seq<MissingProofView> {
        let open = missing.filter(|m: MissingProofView| !self.asks_for(m.root));
        if open.len() <= self.free_slots() {
            open
        } else {
            open.take(self.free_slots() as int)
        }
    }

    /// Whether this is active, or becomes so at the next poll, and waits for no range of slots.
    pub open spec fn may_ask(self) -> bool {
        (self.state is Syncing || self.state == ProofSyncState::Waiting(0)) && self.range_request
            is None
    }

    /// The state after a poll.
    pub open spec fn polled_state(self) -> ProofSyncState {
        match self.state {
            ProofSyncState::Idle => ProofSyncState::Idle,
            ProofSyncState::Waiting(n) => if n == 0 {
                ProofSyncState::Syncing
            } else {
                ProofSyncState::Waiting((n - 1) as u64)
            },
            ProofSyncState::Syncing => ProofSyncState::Syncing,
        }
    }

    /// The request that the best peer `peer_id` gives rise to: a range of slots where the gap is
    /// above the threshold, else single blocks.
    pub open spec fn request_to(
        self,
        peer_id: PeerId,
        finalized_slot: u64,
        local_proof_slot: u64,
        missing: Seq<MissingProofView>,
    ) -> ProofRequestView {
        let start_slot = first_open_slot(finalized_slot, local_proof_slot);
        let count = slots_between(start_slot, self.peers[peer_id].status.slot);
        if count > self.range_request_threshold {
            ProofRequestView::Range { peer_id, start_slot, count }
        } else {
            ProofRequestView::Roots { peer_id, missing: self.selected(missing) }
        }
    }

    /// Whether `id` is the unanswered request for a range.
    pub open spec fn serves_range(self, id: ExecutionProofsByRangeRequestId) -> bool {
        match self.range_request {
            Some(request) => request.id == id,
            None => false,
        }
    }

    /// The view with an entry for a status request.
    pub open spec fn status_asked(
        self,
        peer_id: PeerId,
        id: ExecutionProofStatusRequestId,
    ) -> ProofSyncView {
        ProofSyncView { polled: self.polled.insert(peer_id, id), ..self }
    }

    /// The view after a status request came to nothing: the entry of the peer is kept but counts
    /// as fresh. A peer without an entry gets one for slot zero.
    pub open spec fn status_failed(self, peer_id: PeerId, now: u64) -> ProofSyncView {
        let entry = if self.peers.contains_key(peer_id) {
            CachedExecutionProofStatus { timestamp: now, ..self.peers[peer_id] }
        } else {
            CachedExecutionProofStatus {
                status: ExecutionProofStatus { slot: 0, block_root: Hash256::spec_zero() },
                timestamp: now,
                verified: false,
            }
        };
        ProofSyncView {
            polled: self.polled.remove(peer_id),
            peers: self.peers.insert(peer_id, entry),
            ..self
        }
    }

    /// The view after a peer has announced a status. A slot that the local chain has must come
    /// with the block root of that slot, or the status is not taken. A slot ahead of the chain
    /// is taken unverified.
    pub open spec fn status_announced(
        self,
        peer_id: PeerId,
        status: ExecutionProofStatus,
        best_slot: u64,
        root_at_slot: Option<Hash256>,
        now: u64,
    ) -> ProofSyncView {
        if status.slot <= best_slot && root_at_slot != Some(status.block_root) {
            self.status_failed(peer_id, now)
        } else {
            ProofSyncView {
                polled: self.polled.remove(peer_id),
                peers: self.peers.insert(
                    peer_id,
                    CachedExecutionProofStatus {
                        status,
                        timestamp: now,
                        verified: status.slot <= best_slot,
                    },
                ),
                ..self
            }
        }
    }
}

impl ProofSync {
    /// The subsystem before anything has happened: idle, without requests and peers.
    pub fn new(activation_slots: u64) -> (r: Self)
        ensures
            r@ == (ProofSyncView {
                state: ProofSyncState::Idle,
                range_request: None,
                in_flight: Map::empty(),
                range_request_threshold: DEFAULT_RANGE_REQUEST_THRESHOLD,
                max_concurrent: DEFAULT_MAX_CONCURRENT as nat,
                peers: Map::empty(),
                polled: Map::empty(),
                activation_slots,
            }),
    {
        ProofSync {
            state: ProofSyncState::Idle,
            range_request: None,
            in_flight: map_default(),
            range_request_threshold: DEFAULT_RANGE_REQUEST_THRESHOLD,
            max_concurrent: DEFAULT_MAX_CONCURRENT,
            peer_statuses: KeyedMap::new(),
            status_in_flight: KeyedMap::new(),
            activation_slots,
        }
    }

    /// How the subsystem operates.
    pub fn state(&self) -> (r: ProofSyncState)
        ensures
            r == self@.state,
    {
        self.state
    }

    /// The unanswered requests for single blocks.
    pub fn in_flight(&self) -> (r: &InFlightMap)
        ensures
            in_flight_contents(*r) == self@.in_flight,
    {
        &self.in_flight
    }

    /// Sets how the subsystem operates.
    pub fn set_state(&mut self, state: ProofSyncState)
        ensures
            final(self)@ == (ProofSyncView { state, ..old(self)@ }),
    {
        self.state = state;
    }

    /// Sets the slot gap above which a range is asked for.
    pub fn set_range_request_threshold(&mut self, threshold: u64)
        ensures
            final(self)@ == (ProofSyncView { range_request_threshold: threshold, ..old(self)@ }),
    {
        self.range_request_threshold = threshold;
    }

    /// The unanswered request for a range of slots.
    pub fn range_request(&self) -> (r: Option<RangeRequest>)
        ensures
            r == self@.range_request,
    {
        self.range_request
    }

    /// The status that a peer has announced.
    pub fn peer_status(&self, peer_id: &PeerId) -> (r: Option<CachedExecutionProofStatus>)
        ensures
            r == if self@.peers.contains_key(*peer_id) {
                Some(self@.peers[*peer_id])
            } else {
                None
            },
    {
        match self.peer_statuses.get(peer_id) {
            Some(entry) => Some(*entry),
            None => None,
        }
    }

    /// Blocks have been synced: the wait begins. Returns the peers whose status is to be asked
    /// for.
    pub fn start(&mut self, stale_before: u64) -> (r: Vec<PeerId>)
        ensures
            final(self)@ == (ProofSyncView {
                state: ProofSyncState::Waiting(old(self)@.activation_slots),
                ..old(self)@
            }),
            old(self)@.refreshes(r@, stale_before),
    {
        let refresh = self.refresh_peer_statuses(stale_before);
        self.state = ProofSyncState::Waiting(self.activation_slots);
        refresh
    }

    /// Blocks are being synced again: no more proofs are asked for. Requests that are unanswered
    /// stay so.
    pub fn pause(&mut self)
        ensures
            final(self)@ == (ProofSyncView { state: ProofSyncState::Idle, ..old(self)@ }),
    {
        self.state = ProofSyncState::Idle;
    }

    /// The peers whose status is to be asked for.
    fn refresh_peer_statuses(&self, stale_before: u64) -> (r: Vec<PeerId>)
        ensures
            self@.refreshes(r@, stale_before),
    {
        let keys = self.peer_statuses.keys();
        let mut r: Vec<PeerId> = Vec::new();
        let mut i: usize = 0;
        while i < keys.len()
            invariant
                i <= keys@.len(),
                keys@.no_duplicates(),
                keys@.to_set() == self@.peers.dom(),
                r@.no_duplicates(),
                forall|p: PeerId| #[trigger]
                    r@.contains(p) == (keys@.take(i as int).contains(p) && self@.to_refresh(
                        p,
                        stale_before,
                    )),
            decreases keys@.len() - i,
        {
            let key: u64 = keys[i];
            assert(keys@.to_set().contains(key));
            let ghost before = r@;
            if let Some(entry) = self.peer_statuses.get(&key) {
                if entry.needs_refresh(stale_before) && !self.status_in_flight.contains_key(&key) {
                    r.push(key);
                }
            }
            proof {
                assert(!keys@.take(i as int).contains(key));
                assert(!before.contains(key));
                assert(keys@.take(i + 1) =~= keys@.take(i as int).push(key));
                assert forall|a: int, b: int|
                    0 <= a < r@.len() && 0 <= b < r@.len() && a != b implies r@[a] != r@[b] by {
                    if a < before.len() {
                        assert(before.contains(before[a]));
                    }
                    if b < before.len() {
                        assert(before.contains(before[b]));
                    }
                }
                assert forall|p: PeerId| #[trigger]
                    r@.contains(p) == (keys@.take(i + 1).contains(p) && self@.to_refresh(
                        p,
                        stale_before,
                    )) by {
                    if keys@.take(i as int).contains(p) {
                        let j = keys@.take(i as int).index_of(p);
                        assert(keys@.take(i + 1)[j] == p);
                    }
                    assert(keys@.take(i + 1)[i as int] == key);
                    if before.contains(p) {
                        let j = before.index_of(p);
                        assert(r@[j] == p);
                    }
                    if r@.contains(p) {
                        let j = r@.index_of(p);
                        if j < before.len() {
                            assert(before[j] == p);
                        }
                    }
                    if r@.len() > before.len() {
                        assert(r@[before.len() as int] == key);
                    }
                }
            }
            i = i + 1;
        }
        proof {
            assert(keys@.take(i as int) =~= keys@);
            assert forall|p: PeerId| #[trigger] r@.contains(p) == self@.to_refresh(
                p,
                stale_before,
            ) by {
                assert(keys@.to_set().contains(p) == self@.peers.dom().contains(p));
            }
        }
        r
    }

    /// The best peer, and the slot that it has announced.
    fn best_peer(&self) -> (r: Option<(PeerId, u64)>)
        ensures
            match r {
                Some((peer_id, slot)) => self@.is_best(peer_id) && slot
                    == self@.peers[peer_id].status.slot,
                None => self@.peers == Map::<PeerId, CachedExecutionProofStatus>::empty(),
            },
    {
        let keys = self.peer_statuses.keys();
        let mut best: Option<(PeerId, CachedExecutionProofStatus)> = None;
        let mut i: usize = 0;
        while i < keys.len()
            invariant
                i <= keys@.len(),
                keys@.to_set() == self@.peers.dom(),
                match best {
                    Some((peer_id, entry)) => self@.peers.contains_key(peer_id) && entry
                        == self@.peers[peer_id] && forall|j: int|
                        0 <= j < i ==> !entry.below(self@.peers[#[trigger] keys@[j]]),
                    None => i == 0,
                },
            decreases keys@.len() - i,
        {
            let key: u64 = keys[i];
            assert(keys@.to_set().contains(key));
            if let Some(entry) = self.peer_statuses.get(&key) {
                let better = match best {
                    Some((_, held)) => if held.verified == entry.verified {
                        held.status.slot <= entry.status.slot
                    } else {
                        entry.verified
                    },
                    None => true,
                };
                if better {
                    best = Some((key, *entry));
                }
            }
            i = i + 1;
        }
        proof {
            assert forall|p: PeerId| #[trigger] self@.peers.contains_key(p) implies (match best {
                Some((peer_id, entry)) => !entry.below(self@.peers[p]),
                None => false,
            }) by {
                assert(keys@.to_set().contains(p));
                let j = keys@.index_of(p);
                assert(keys@[j] == p);
            }
            if best is None {
                assert(self@.peers =~= Map::<PeerId, CachedExecutionProofStatus>::empty());
            }
        }
        match best {
            Some((peer_id, entry)) => Some((peer_id, entry.status.slot)),
            None => None,
        }
    }

    /// The missing proofs that are not asked for yet, as many as may be.
    fn select_missing(&self, missing: &Vec<MissingProofInfo>) -> (r: Vec<MissingProofInfo>)
        ensures
            infos(r@) == self@.selected(infos(missing@)),
    {
        let asked = map_roots(&self.in_flight);
        let sent: usize = map_len(&self.in_flight);
        let available: usize = if sent <= self.max_concurrent {
            self.max_concurrent - sent
        } else {
            0
        };
        let ghost all = infos(missing@);
        let ghost free = |m: MissingProofView| !self@.asks_for(m.root);
        let mut r: Vec<MissingProofInfo> = Vec::new();
        let mut i: usize = 0;
        proof {
            assert(infos(r@) =~= all.take(0).filter(free));
        }
        while i < missing.len() && r.len() < available
            invariant
                i <= missing@.len(),
                all == infos(missing@),
                free == (|m: MissingProofView| !self@.asks_for(m.root)),
                available == self@.free_slots(),
                forall|root: Hash256| #[trigger] asked@.contains(root) <==> self@.asks_for(root),
                infos(r@) == all.take(i as int).filter(free),
                r@.len() <= available,
            decreases missing@.len() - i,
        {
            let info = &missing[i];
            let ghost before = r@;
            if !contains_root(&asked, &info.root) {
                let copy = info.clone();
                r.push(copy);
                assert(infos(r@) =~= infos(before).push(copy@));
            }
            proof {
                assert(all.take(i + 1) =~= all.take(i as int).push(info@));
                all.take(i as int).lemma_filter_push(info@, free);
            }
            i = i + 1;
        }
        proof {
            let chosen = all.filter(free);
            assert(all =~= all.take(i as int) + all.skip(i as int));
            Seq::filter_distributes_over_add(all.take(i as int), all.skip(i as int), free);
            if i == missing@.len() {
                assert(all.take(i as int) =~= all);
            } else {
                assert(chosen.take(available as int) =~= infos(r@));
                if chosen.len() <= available {
                    assert(chosen =~= infos(r@));
                }
            }
        }
        r
    }

    /// Drives one cycle. While the subsystem waits, the wait grows shorter by one. While it is
    /// active and no range of slots is on its way, says whose status is to be asked for, and
    /// which proofs are to be asked for of the best peer.
    pub fn poll(&mut self, input: &PollInput) -> (r: PollAction)
        ensures
            final(self)@ == (ProofSyncView { state: old(self)@.polled_state(), ..old(self)@ }),
            if old(self)@.may_ask() {
                &&& old(self)@.refreshes(r.refresh@, input.stale_before)
                &&& if old(self)@.peers == Map::<PeerId, CachedExecutionProofStatus>::empty() {
                    r.request is Nothing
                } else {
                    exists|peer_id: PeerId| #[trigger]
                        old(self)@.is_best(peer_id) && r.request@ == old(self)@.request_to(
                            peer_id,
                            input.finalized_slot,
                            input.local_proof_slot,
                            infos(input.missing@),
                        )
                }
            } else {
                r.refresh@.len() == 0 && r.request is Nothing
            },
            r.request matches ProofRequest::Range { start_slot, .. } ==> {
                &&& start_slot > input.finalized_slot
                &&& start_slot > input.local_proof_slot
                &&& start_slot - 1 == input.finalized_slot || start_slot - 1
                    == input.local_proof_slot
            },
    {
        match self.state {
            ProofSyncState::Idle => return PollAction {
                refresh: Vec::new(),
                request: ProofRequest::Nothing,
            },
            ProofSyncState::Waiting(n) => {
                if n > 0 {
                    self.state = ProofSyncState::Waiting(n - 1);
                    return PollAction { refresh: Vec::new(), request: ProofRequest::Nothing };
                }
                self.state = ProofSyncState::Syncing;
            },
            ProofSyncState::Syncing => {},
        }
        if self.range_request.is_some() {
            return PollAction { refresh: Vec::new(), request: ProofRequest::Nothing };
        }
        let settled: u64 = if input.finalized_slot >= input.local_proof_slot {
            input.finalized_slot
        } else {
            input.local_proof_slot
        };
        let start_slot: u64 = settled.saturating_add(1);
        let refresh = self.refresh_peer_statuses(input.stale_before);
        proof {
            assert forall|p: PeerId| #[trigger] refresh@.contains(p) == old(self)@.to_refresh(
                p,
                input.stale_before,
            ) by {
                assert(self@.to_refresh(p, input.stale_before) == old(self)@.to_refresh(
                    p,
                    input.stale_before,
                ));
            }
        }
        let (peer_id, peer_slot) = match self.best_peer() {
            Some(best) => best,
            None => return PollAction { refresh, request: ProofRequest::Nothing },
        };
        assert(old(self)@.is_best(peer_id)) by {
            assert(self@.is_best(peer_id));
        }
        let gap: u64 = if peer_slot < u64::MAX && start_slot <= peer_slot {
            peer_slot + 1 - start_slot
        } else {
            0
        };
        if gap > self.range_request_threshold {
            let request = ProofRequest::Range { peer_id, start_slot, count: gap };
            return PollAction { refresh, request };
        }
        let missing = self.select_missing(&input.missing);
        proof {
            let before = old(self)@;
            let after = self@;
            let free_before = |m: MissingProofView| !before.asks_for(m.root);
            let free_after = |m: MissingProofView| !after.asks_for(m.root);
            assert(before.in_flight == after.in_flight);
            assert forall|root: Hash256| #[trigger] before.asks_for(root) == after.asks_for(
                root,
            ) by {}
            assert(free_before =~= free_after);
        }
        PollAction { refresh, request: ProofRequest::Roots { peer_id, missing } }
    }
}

impl ProofSync {
    /// A peer that can serve proofs has connected, and its status was asked for. `sent` is the
    /// request, where it could be sent. It takes the place of an earlier one.
    pub fn add_peer(&mut self, peer_id: PeerId, sent: Option<ExecutionProofStatusRequestId>)
        ensures
            final(self)@ == match sent {
                Some(id) => old(self)@.status_asked(peer_id, id),
                None => old(self)@,
            },
    {
        if let Some(id) = sent {
            self.status_in_flight.insert(peer_id, id);
        }
    }

    /// A peer's status was asked for because its entry needed a refresh.
    pub fn on_status_request_sent(&mut self, peer_id: PeerId, id: ExecutionProofStatusRequestId)
        ensures
            final(self)@ == old(self)@.status_asked(peer_id, id),
    {
        self.status_in_flight.insert(peer_id, id);
    }

    /// A range of slots was asked for.
    pub fn on_range_request_sent(&mut self, id: ExecutionProofsByRangeRequestId, peer_id: PeerId)
        ensures
            final(self)@ == (ProofSyncView {
                range_request: Some(RangeRequest { id, peer_id }),
                ..old(self)@
            }),
    {
        self.range_request = Some(RangeRequest { id, peer_id });
    }

    /// The proofs of a block were asked for.
    pub fn on_root_request_sent(
        &mut self,
        id: ExecutionProofsByRootRequestId,
        info: MissingProofInfo,
    )
        ensures
            final(self)@ == (ProofSyncView {
                in_flight: old(self)@.in_flight.insert(id.id, info@),
                ..old(self)@
            }),
    {
        map_insert(&mut self.in_flight, id.id, info);
    }

    /// The answer to a request for a range has ended. If it is the unanswered one, the wait
    /// begins anew, so that the proofs can be processed before more are asked for.
    pub fn on_range_request_terminated(&mut self, id: &ExecutionProofsByRangeRequestId)
        ensures
            final(self)@ == if old(self)@.serves_range(*id) {
                ProofSyncView {
                    range_request: None,
                    state: ProofSyncState::Waiting(old(self)@.activation_slots),
                    ..old(self)@
                }
            } else {
                old(self)@
            },
    {
        if self.is_range_request(id) {
            self.range_request = None;
            self.state = ProofSyncState::Waiting(self.activation_slots);
        }
    }

    /// A request for a range has failed. If it is the unanswered one, the next poll may ask
    /// again.
    pub fn on_range_request_error(&mut self, id: &ExecutionProofsByRangeRequestId)
        ensures
            final(self)@ == if old(self)@.serves_range(*id) {
                ProofSyncView { range_request: None, ..old(self)@ }
            } else {
                old(self)@
            },
    {
        if self.is_range_request(id) {
            self.range_request = None;
        }
    }

    /// Whether `id` is the unanswered request for a range.
    fn is_range_request(&self, id: &ExecutionProofsByRangeRequestId) -> (r: bool)
        ensures
            r == self@.serves_range(*id),
    {
        match self.range_request {
            Some(request) => request.id == *id,
            None => false,
        }
    }

    /// A request for the proofs of a block has failed.
    pub fn on_root_request_error(&mut self, id: &ExecutionProofsByRootRequestId)
        ensures
            final(self)@ == (ProofSyncView {
                in_flight: old(self)@.in_flight.remove(id.id),
                ..old(self)@
            }),
    {
        map_remove(&mut self.in_flight, id.id);
    }

    /// The answer to a request for the proofs of a block has ended.
    pub fn on_request_terminated(&mut self, id: &ExecutionProofsByRootRequestId)
        ensures
            final(self)@ == (ProofSyncView {
                in_flight: old(self)@.in_flight.remove(id.id),
                ..old(self)@
            }),
    {
        map_remove(&mut self.in_flight, id.id);
    }

    /// A peer that can serve proofs has disconnected: it is forgotten, and so is a request for a
    /// range that it served.
    pub fn on_proof_capable_peer_disconnected(&mut self, peer_id: &PeerId)
        ensures
            final(self)@ == (ProofSyncView {
                peers: old(self)@.peers.remove(*peer_id),
                polled: old(self)@.polled.remove(*peer_id),
                range_request: match old(self)@.range_request {
                    Some(request) => if request.peer_id == *peer_id {
                        None
                    } else {
                        Some(request)
                    },
                    None => None,
                },
                ..old(self)@
            }),
    {
        self.peer_statuses.remove(peer_id);
        self.status_in_flight.remove(peer_id);
        if let Some(request) = self.range_request {
            if request.peer_id == *peer_id {
                self.range_request = None;
            }
        }
    }

    /// A peer has announced a status, in answer to a request or of its own accord. `best_slot` is
    /// the head slot of the local chain, and `root_at_slot` the root of its block at the
    /// announced slot, where it has one there.
    pub fn on_peer_execution_proof_status(
        &mut self,
        peer_id: PeerId,
        _request_id: Option<ExecutionProofStatusRequestId>,
        status: ExecutionProofStatus,
        best_slot: u64,
        root_at_slot: Option<Hash256>,
        now: u64,
    )
        ensures
            final(self)@ == old(self)@.status_announced(
                peer_id,
                status,
                best_slot,
                root_at_slot,
                now,
            ),
    {
        let verified = if status.slot <= best_slot {
            let plausible = match root_at_slot {
                Some(root) => root.equals(&status.block_root),
                None => false,
            };
            if !plausible {
                self.on_peer_status_failed(peer_id, now);
                return;
            }
            true
        } else {
            false
        };
        self.status_in_flight.remove(&peer_id);
        self.peer_statuses.insert(
            peer_id,
            CachedExecutionProofStatus { status, timestamp: now, verified },
        );
    }

    /// A request for a peer's status has failed.
    pub fn on_peer_execution_proof_status_error(
        &mut self,
        peer_id: PeerId,
        _request_id: ExecutionProofStatusRequestId,
        now: u64,
    )
        ensures
            final(self)@ == old(self)@.status_failed(peer_id, now),
    {
        self.on_peer_status_failed(peer_id, now);
    }

    /// Keeps the entry of a peer whose status request came to nothing, but counts it as fresh.
    fn on_peer_status_failed(&mut self, peer_id: PeerId, now: u64)
        ensures
            final(self)@ == old(self)@.status_failed(peer_id, now),
    {
        self.status_in_flight.remove(&peer_id);
        let entry = match self.peer_statuses.get(&peer_id) {
            Some(held) => CachedExecutionProofStatus {
                status: held.status,
                timestamp: now,
                verified: held.verified,
            },
            None => CachedExecutionProofStatus {
                status: ExecutionProofStatus { slot: 0, block_root: Hash256::zero() },
                timestamp: now,
                verified: false,
            },
        };
        self.peer_statuses.insert(peer_id, entry);
    }
}

/// Whether a list of roots has a root.
fn contains_root(roots: &Vec<Hash256>, root: &Hash256) -> (r: bool)
    ensures
        r == roots@.contains(*root),
{
    let mut i: usize = 0;
    while i < roots.len()
        invariant
            i <= roots@.len(),
            forall|j: int| 0 <= j < i ==> roots@[j] != *root,
        decreases roots@.len() - i,
    {
        if roots[i].equals(root) {
            return true;
        }
        i = i + 1;
    }
    false
}

} // verus!
