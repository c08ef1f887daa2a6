//! Laws of the subsystem that catches up with proofs.

use crate::engine::forkchoice::MissingProofView;
use crate::hash::Hash256;
use crate::sync::proof_sync::{
    first_open_slot, CachedExecutionProofStatus, ExecutionProofStatusRequestId,
    ExecutionProofsByRangeRequestId, PeerId, ProofRequestView, ProofSyncState, ProofSyncView,
    RangeRequest,
};
use crate::sync::status::ExecutionProofStatus;
use vstd::prelude::*;

verus! {

/// The blocks that are asked for are among those that lack proofs, none of them is being asked for
/// already, and there are never more requests for single blocks than allowed.
pub proof fn law_root_requests_bounded(v: ProofSyncView, missing: Seq<MissingProofView>)
    ensures
        v.in_flight.len() <= v.max_concurrent ==> v.in_flight.len() + v.selected(missing).len()
            <= v.max_concurrent,
        v.in_flight.len() > v.max_concurrent ==> v.selected(missing).len() == 0,
        forall|i: int|
            0 <= i < v.selected(missing).len() ==> missing.contains(
                #[trigger] v.selected(missing)[i],
            ) && !v.asks_for(v.selected(missing)[i].root),
{
    let free = |m: MissingProofView| !v.asks_for(m.root);
    let open = missing.filter(free);
    let chosen = v.selected(missing);
    assert forall|i: int| 0 <= i < chosen.len() implies missing.contains(#[trigger] chosen[i])
        && !v.asks_for(chosen[i].root) by {
        assert(chosen[i] == open[i]);
        missing.lemma_filter_contains_rev(free, open[i]);
        missing.lemma_filter_pred(free, i);
    }
}

/// Where blocks lack proofs and there is room, at least one of them is asked for.
pub proof fn law_open_blocks_asked_for(v: ProofSyncView, missing: Seq<MissingProofView>, k: int)
    requires
        0 <= k < missing.len(),
        !v.asks_for(missing[k].root),
        v.free_slots() > 0,
    ensures
        v.selected(missing).len() > 0,
{
    let free = |m: MissingProofView| !v.asks_for(m.root);
    let open = missing.filter(free);
    missing.lemma_filter_contains(free, k);
    assert(open.contains(missing[k]));
    let i = open.index_of(missing[k]);
    assert(0 <= i < open.len());
}

/// A range of slots that is asked for begins after the slots that are settled here, ends at the slot
/// that the peer has announced, and is longer than the threshold.
pub proof fn law_range_covers_gap(
    v: ProofSyncView,
    peer_id: PeerId,
    finalized_slot: u64,
    local_proof_slot: u64,
    missing: Seq<MissingProofView>,
)
    requires
        v.request_to(peer_id, finalized_slot, local_proof_slot, missing) is Range,
    ensures
        ({
            let request = v.request_to(peer_id, finalized_slot, local_proof_slot, missing);
            let start = first_open_slot(finalized_slot, local_proof_slot);
            let end = v.peers[peer_id].status.slot;
            &&& request->Range_peer_id == peer_id
            &&& request->start_slot == start
            &&& start > finalized_slot && start > local_proof_slot
            &&& request->count == end + 1 - start
            &&& request->count > v.range_request_threshold
        }),
{
}

/// Single blocks are asked for exactly where the gap is not above the threshold.
pub proof fn law_small_gap_asks_for_blocks(
    v: ProofSyncView,
    peer_id: PeerId,
    finalized_slot: u64,
    local_proof_slot: u64,
    missing: Seq<MissingProofView>,
)
    requires
        v.peers[peer_id].status.slot < u64::MAX,
    ensures
        v.request_to(peer_id, finalized_slot, local_proof_slot, missing) is Roots
            <==> v.peers[peer_id].status.slot + 1 - first_open_slot(
            finalized_slot,
            local_proof_slot,
        ) <= v.range_request_threshold,
{
}

impl ProofSyncView {
    /// The state after `k` polls in which nothing else happens.
    pub open spec fn state_after(self, k: nat) -> ProofSyncState
        decreases k,
    {
        if k == 0 {
            self.state
        } else {
            let before = self.state_after((k - 1) as nat);
            (ProofSyncView { state: before, ..self }).polled_state()
        }
    }
}

/// A wait of `n` slots ends with the poll after `n` polls, not before. An idle subsystem stays idle,
/// an active one stays active.
pub proof fn law_wait_ends(v: ProofSyncView, k: nat)
    ensures
        v.state is Idle ==> v.state_after(k) is Idle,
        v.state is Syncing ==> v.state_after(k) is Syncing,
        v.state matches ProofSyncState::Waiting(n) ==> v.state_after(k) == (if k <= n {
            ProofSyncState::Waiting((n - k) as u64)
        } else {
            ProofSyncState::Syncing
        }),
    decreases k,
{
    if k > 0 {
        law_wait_ends(v, (k - 1) as nat);
    }
}

/// The best peer is verified where any peer is, and no peer of its kind has announced a higher slot.
pub proof fn law_verified_peers_first(v: ProofSyncView, best: PeerId, other: PeerId)
    requires
        v.is_best(best),
        v.peers.contains_key(other),
    ensures
        v.peers[other].verified ==> v.peers[best].verified,
        v.peers[other].verified == v.peers[best].verified ==> v.peers[other].status.slot
            <= v.peers[best].status.slot,
{
}

/// A status that contradicts the local chain changes nothing that is believed of a peer, and makes no
/// peer verified.
pub proof fn law_implausible_status_ignored(
    v: ProofSyncView,
    peer_id: PeerId,
    status: ExecutionProofStatus,
    best_slot: u64,
    root_at_slot: Option<Hash256>,
    now: u64,
    other: PeerId,
)
    requires
        status.slot <= best_slot,
        root_at_slot != Some(status.block_root),
    ensures
        ({
            let after = v.status_announced(peer_id, status, best_slot, root_at_slot, now);
            &&& v.peers.contains_key(other) ==> after.peers.contains_key(other)
                && after.peers[other].status == v.peers[other].status && after.peers[other].verified
                == v.peers[other].verified
            &&& after.peers.contains_key(other) && after.peers[other].verified
                ==> v.peers.contains_key(other) && v.peers[other].verified
            &&& !after.polled.contains_key(peer_id)
        }),
{
}

/// A status that is taken is the one that the peer announced, and counts as verified exactly where the
/// local chain reaches that slot.
pub proof fn law_status_taken(
    v: ProofSyncView,
    peer_id: PeerId,
    status: ExecutionProofStatus,
    best_slot: u64,
    root_at_slot: Option<Hash256>,
    now: u64,
)
    requires
        status.slot <= best_slot ==> root_at_slot == Some(status.block_root),
    ensures
        v.status_announced(peer_id, status, best_slot, root_at_slot, now).peers[peer_id] == (
        CachedExecutionProofStatus { status, timestamp: now, verified: status.slot <= best_slot }),
{
}

/// The slot just before a range that is asked for is settled here: it is the finalized slot or the
/// slot up to which proofs are verified, and the range begins after both. The last slot of the range is
/// the one that the peer has announced.
pub proof fn law_range_leaves_no_slot_out(
    v: ProofSyncView,
    peer_id: PeerId,
    finalized_slot: u64,
    local_proof_slot: u64,
    missing: Seq<MissingProofView>,
)
    ensures
        v.request_to(peer_id, finalized_slot, local_proof_slot, missing)
            matches ProofRequestView::Range { peer_id: asked, start_slot, count } ==> {
            &&& asked == peer_id
            &&& start_slot - 1 == finalized_slot || start_slot - 1 == local_proof_slot
            &&& start_slot > finalized_slot
            &&& start_slot > local_proof_slot
            &&& start_slot + count - 1 == v.peers[peer_id].status.slot
        },
{
}

/// A range is asked for exactly where the slot that the peer has announced is further than the
/// threshold beyond what is final and beyond what is verified here. Else single blocks are asked for,
/// of the same peer. The last slot that can be told counts as none.
pub proof fn law_range_exactly_above_threshold(
    v: ProofSyncView,
    peer_id: PeerId,
    finalized_slot: u64,
    local_proof_slot: u64,
    missing: Seq<MissingProofView>,
)
    ensures
        ({
            let request = v.request_to(peer_id, finalized_slot, local_proof_slot, missing);
            let slot = v.peers[peer_id].status.slot;
            &&& request is Range <==> slot < u64::MAX && slot - finalized_slot
                > v.range_request_threshold && slot - local_proof_slot > v.range_request_threshold
            &&& request !is Nothing
            &&& request matches ProofRequestView::Roots { peer_id: asked, .. } ==> asked == peer_id
        }),
{
}

/// Where an item passes a filter it stands in what the filter leaves, in the same order.
proof fn lemma_filter_places<T>(items: Seq<T>, passes: spec_fn(T) -> bool) -> (at: Seq<int>)
    ensures
        at.len() == items.filter(passes).len(),
        forall|i: int|
            0 <= i < at.len() ==> 0 <= #[trigger] at[i] < items.len() && items[at[i]]
                == items.filter(passes)[i] && passes(items[at[i]]),
        forall|i: int, j: int| 0 <= i < j < at.len() ==> at[i] < at[j],
        forall|k: int| 0 <= k < items.len() && passes(#[trigger] items[k]) ==> at.contains(k),
    decreases items.len(),
{
    reveal(Seq::filter);
    if items.len() == 0 {
        Seq::empty()
    } else {
        let init = items.drop_last();
        let before = lemma_filter_places(init, passes);
        let last = items.len() - 1;
        if passes(items.last()) {
            let at = before.push(last);
            assert forall|k: int| 0 <= k < items.len() && passes(#[trigger] items[k]) implies at.contains(
                k,
            ) by {
                if k < last {
                    assert(init[k] == items[k]);
                    let i = before.index_of(k);
                    assert(at[i] == k);
                } else {
                    assert(at[before.len() as int] == k);
                }
            }
            at
        } else {
            assert forall|k: int| 0 <= k < items.len() && passes(#[trigger] items[k]) implies before.contains(
                k,
            ) by {
                assert(init[k] == items[k]);
            }
            before
        }
    }
}

/// The single blocks that are asked for stand in the order in which they are missing. None of them is
/// being asked for already. One that is missing and is not being asked for is left out only where the
/// requests have reached their bound, and then only behind those that are asked for.
pub proof fn law_missing_blocks_asked_for(
    v: ProofSyncView,
    peer_id: PeerId,
    finalized_slot: u64,
    local_proof_slot: u64,
    missing: Seq<MissingProofView>,
    asked: Seq<MissingProofView>,
) -> (at: Seq<int>)
    requires
        v.request_to(peer_id, finalized_slot, local_proof_slot, missing) == (
        ProofRequestView::Roots { peer_id, missing: asked }),
    ensures
        at.len() == asked.len(),
        forall|i: int, j: int| 0 <= i < j < at.len() ==> at[i] < at[j],
        forall|i: int|
            0 <= i < at.len() ==> 0 <= #[trigger] at[i] < missing.len() && missing[at[i]]
                == asked[i],
        forall|i: int, id: u64|
            0 <= i < at.len() && v.in_flight.contains_key(id) ==> (#[trigger] v.in_flight[id]).root
                != missing[#[trigger] at[i]].root,
        forall|k: int|
            0 <= k < missing.len() && !#[trigger] at.contains(k) ==> {
                ||| exists|id: u64|
                    v.in_flight.contains_key(id) && (#[trigger] v.in_flight[id]).root
                        == missing[k].root
                ||| v.in_flight.len() + at.len() >= v.max_concurrent && forall|i: int|
                    0 <= i < at.len() ==> #[trigger] at[i] < k
            },
        v.in_flight.len() + at.len() <= v.max_concurrent || at.len() == 0,
{
    let free = |m: MissingProofView| !v.asks_for(m.root);
    let open = missing.filter(free);
    let all = lemma_filter_places(missing, free);
    let at = all.take(asked.len() as int);
    assert forall|i: int| 0 <= i < at.len() implies 0 <= #[trigger] at[i] < missing.len()
        && missing[at[i]] == asked[i] && free(missing[at[i]]) by {
        assert(at[i] == all[i]);
        assert(asked[i] == open[i]);
    }
    assert forall|k: int| 0 <= k < missing.len() && !#[trigger] at.contains(k) implies {
        ||| exists|id: u64|
            v.in_flight.contains_key(id) && (#[trigger] v.in_flight[id]).root == missing[k].root
        ||| v.in_flight.len() + at.len() >= v.max_concurrent && forall|i: int|
            0 <= i < at.len() ==> #[trigger] at[i] < k
    } by {
        if free(missing[k]) {
            let j = all.index_of(k);
            if j < at.len() {
                assert(at[j] == k);
            }
            assert forall|i: int| 0 <= i < at.len() implies #[trigger] at[i] < k by {
                assert(at[i] == all[i] && all[i] < all[j]);
            }
        }
    }
    at
}

/// A status is asked for of exactly those peers that have an entry that is unverified or older than
/// the given time, and of which no status is awaited. No peer is asked twice.
pub proof fn law_statuses_refreshed(v: ProofSyncView, peers: Seq<PeerId>, stale_before: u64)
    requires
        v.refreshes(peers, stale_before),
    ensures
        forall|i: int, j: int| 0 <= i < j < peers.len() ==> peers[i] != peers[j],
        forall|p: PeerId| #[trigger]
            peers.contains(p) <==> v.peers.contains_key(p) && !v.polled.contains_key(p) && (
            !v.peers[p].verified || v.peers[p].timestamp < stale_before),
{
}

/// A poll makes a wait shorter by one, and ends one that is over. While blocks are synced, while a
/// wait is not over, and while a range is awaited, nothing is asked for. Else something is, as soon as
/// there is a peer.
pub proof fn law_asks_when_active(v: ProofSyncView)
    ensures
        v.state is Idle ==> !v.may_ask(),
        v.state matches ProofSyncState::Waiting(n) ==> n > 0 ==> !v.may_ask(),
        v.range_request is Some ==> !v.may_ask(),
        v.polled_state() is Syncing && v.range_request is None ==> v.may_ask(),
        v.state is Idle <==> v.polled_state() is Idle,
        v.state is Syncing ==> v.polled_state() is Syncing,
        v.state matches ProofSyncState::Waiting(n) ==> if n == 0 {
            v.polled_state() is Syncing
        } else {
            v.polled_state() matches ProofSyncState::Waiting(m) && m == n - 1
        },
{
}

/// A peer is the best one if and only if every peer is unverified while it is verified, or is as
/// much verified as it is and has announced no higher slot.
pub proof fn law_best_peer(v: ProofSyncView, best: PeerId)
    ensures
        v.is_best(best) <==> v.peers.contains_key(best) && forall|p: PeerId| #[trigger]
            v.peers.contains_key(p) ==> {
                ||| v.peers[best].verified && !v.peers[p].verified
                ||| v.peers[best].verified == v.peers[p].verified && v.peers[p].status.slot
                    <= v.peers[best].status.slot
            },
{
}

/// What a peer announces changes nothing but what is known of that peer, whose status is no longer
/// awaited. A status that is not taken leaves the peer with the status that it had, or at slot zero,
/// and counts as fresh.
pub proof fn law_announcement_touches_one_peer(
    v: ProofSyncView,
    peer_id: PeerId,
    status: ExecutionProofStatus,
    best_slot: u64,
    root_at_slot: Option<Hash256>,
    now: u64,
    other: PeerId,
)
    requires
        other != peer_id,
    ensures
        ({
            let after = v.status_announced(peer_id, status, best_slot, root_at_slot, now);
            let taken = status.slot > best_slot || root_at_slot == Some(status.block_root);
            &&& after.state == v.state
            &&& after.range_request == v.range_request
            &&& after.in_flight == v.in_flight
            &&& after.range_request_threshold == v.range_request_threshold
            &&& after.max_concurrent == v.max_concurrent
            &&& after.activation_slots == v.activation_slots
            &&& after.peers.contains_key(other) == v.peers.contains_key(other)
            &&& v.peers.contains_key(other) ==> after.peers[other] == v.peers[other]
            &&& after.polled.contains_key(other) == v.polled.contains_key(other)
            &&& v.polled.contains_key(other) ==> after.polled[other] == v.polled[other]
            &&& !after.polled.contains_key(peer_id)
            &&& after.peers.contains_key(peer_id)
            &&& after.peers[peer_id].timestamp == now
            &&& taken ==> after.peers[peer_id].status == status && (after.peers[peer_id].verified
                <==> status.slot <= best_slot)
            &&& !taken && v.peers.contains_key(peer_id) ==> after.peers[peer_id].status
                == v.peers[peer_id].status && after.peers[peer_id].verified
                == v.peers[peer_id].verified
            &&& !taken && !v.peers.contains_key(peer_id) ==> after.peers[peer_id].status.slot == 0
                && !after.peers[peer_id].verified
        }),
{
}

/// A status request that fails leaves the peer with the status that it had, or at slot zero, counts as
/// fresh, and is no longer awaited. Nothing else changes.
pub proof fn law_failed_status_keeps_peer(
    v: ProofSyncView,
    peer_id: PeerId,
    now: u64,
)
    ensures
        ({
            let after = v.status_failed(peer_id, now);
            &&& after == (ProofSyncView { peers: after.peers, polled: after.polled, ..v })
            &&& after.polled == v.polled.remove(peer_id)
            &&& after.peers.remove(peer_id) == v.peers.remove(peer_id)
            &&& after.peers.contains_key(peer_id)
            &&& after.peers[peer_id].timestamp == now
            &&& v.peers.contains_key(peer_id) ==> after.peers[peer_id].status
                == v.peers[peer_id].status && after.peers[peer_id].verified
                == v.peers[peer_id].verified
            &&& !v.peers.contains_key(peer_id) ==> after.peers[peer_id].status.slot == 0
                && after.peers[peer_id].status.block_root == Hash256::spec_zero()
                && !after.peers[peer_id].verified
        }),
{
    let after = v.status_failed(peer_id, now);
    assert(after.peers.remove(peer_id) =~= v.peers.remove(peer_id));
}

/// A status that is asked for is awaited under that request, and a range request is recognised by its
/// id alone.
pub proof fn law_requests_recorded(
    v: ProofSyncView,
    peer_id: PeerId,
    id: ExecutionProofStatusRequestId,
    request: RangeRequest,
    range: ExecutionProofsByRangeRequestId,
)
    ensures
        v.status_asked(peer_id, id) == (ProofSyncView {
            polled: v.polled.insert(peer_id, id),
            ..v
        }),
        (ProofSyncView { range_request: None, ..v }).serves_range(range) == false,
        (ProofSyncView { range_request: Some(request), ..v }).serves_range(range) <==> request.id.id
            == range.id,
{
}

} // verus!
