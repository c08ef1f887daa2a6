//! Catching up with proofs: what is asked of which peer, and when.

use eip8025::engine::forkchoice::MissingProofInfo;
use eip8025::hash::Hash256;
use eip8025::sync::proof_sync::{
    ExecutionProofStatusRequestId, ExecutionProofsByRangeRequestId,
    ExecutionProofsByRootRequestId, PeerId, PollAction, PollInput, ProofRequest, ProofSync,
    ProofSyncState, DEFAULT_MAX_CONCURRENT, DEFAULT_RANGE_REQUEST_THRESHOLD,
};
use eip8025::sync::status::{ExecutionProofStatus, NetworkGlobals};

const GENESIS_ROOT: Hash256 = Hash256([0x47; 32]);

/// What was sent to a peer.
#[derive(Debug, Clone, PartialEq)]
enum Sent {
    Status(ExecutionProofStatusRequestId, PeerId),
    Range(ExecutionProofsByRangeRequestId, PeerId, u64, u64),
    Root(ExecutionProofsByRootRequestId, PeerId, Hash256),
}

/// A node at genesis, with a network that records what is sent.
struct TestRig {
    sync: ProofSync,
    globals: NetworkGlobals,
    connected: Vec<PeerId>,
    network: Vec<Sent>,
    missing: Vec<MissingProofInfo>,
    next_id: u64,
    next_peer: PeerId,
    next_root: u64,
    now: u64,
    stale_before: u64,
}

impl TestRig {
    fn test_setup() -> Self {
        TestRig {
            sync: ProofSync::new(2),
            globals: NetworkGlobals::new(),
            connected: Vec::new(),
            network: Vec::new(),
            missing: Vec::new(),
            next_id: 1,
            next_peer: 100,
            next_root: 1,
            now: 1000,
            stale_before: 0,
        }
    }

    fn id(&mut self) -> u64 {
        self.next_id += 1;
        self.next_id
    }

    fn random_root(&mut self) -> Hash256 {
        self.next_root += 1;
        Hash256::from_low_u64_be(self.next_root * 7919)
    }

    fn ask_status(&mut self, peer_id: PeerId) -> ExecutionProofStatusRequestId {
        let id = ExecutionProofStatusRequestId { id: self.id() };
        self.network.push(Sent::Status(id, peer_id));
        id
    }

    /// A proof-capable peer that has announced the genesis block.
    fn new_connected_proof_capable_peer(&mut self) -> PeerId {
        self.new_proof_peer_with_status(0)
    }

    fn new_proof_peer_with_status(&mut self, slot: u64) -> PeerId {
        self.next_peer += 1;
        let peer_id = self.next_peer;
        self.connected.push(peer_id);
        let id = self.ask_status(peer_id);
        self.sync.add_peer(peer_id, Some(id));
        let block_root = if slot == 0 { GENESIS_ROOT } else { self.random_root() };
        self.announce(peer_id, Some(id), ExecutionProofStatus { slot, block_root });
        self.drain_execution_proof_status_requests();
        peer_id
    }

    fn announce(
        &mut self,
        peer_id: PeerId,
        request_id: Option<ExecutionProofStatusRequestId>,
        status: ExecutionProofStatus,
    ) {
        let root_at_slot = if status.slot == 0 { Some(GENESIS_ROOT) } else { None };
        self.sync.on_peer_execution_proof_status(
            peer_id,
            request_id,
            status,
            0,
            root_at_slot,
            self.now,
        );
    }

    fn peer_disconnected(&mut self, peer_id: PeerId) {
        self.connected.retain(|p| *p != peer_id);
        self.sync.on_proof_capable_peer_disconnected(&peer_id);
    }

    fn refresh(&mut self, peers: Vec<PeerId>) {
        for peer_id in peers {
            let id = self.ask_status(peer_id);
            self.sync.on_status_request_sent(peer_id, id);
        }
    }

    /// Range sync has completed, and the wait is over.
    fn start_proof_sync(&mut self) {
        let peers = self.sync.start(self.stale_before);
        self.refresh(peers);
        assert_eq!(self.sync.state(), ProofSyncState::Waiting(2));
        self.sync.set_state(ProofSyncState::Syncing);
        self.sync.set_range_request_threshold(0);
    }

    fn poll(&mut self) -> PollAction {
        let input = PollInput {
            finalized_slot: 0,
            local_proof_slot: self.globals.local_execution_proof_status().slot,
            missing: self.missing.clone(),
            stale_before: self.stale_before,
        };
        self.sync.poll(&input)
    }

    fn poll_proof_sync(&mut self) {
        let action = self.poll();
        self.refresh(action.refresh);
        match action.request {
            ProofRequest::Nothing => {}
            ProofRequest::Range { peer_id, start_slot, count } => {
                let id = ExecutionProofsByRangeRequestId { id: self.id() };
                self.network.push(Sent::Range(id, peer_id, start_slot, count));
                self.sync.on_range_request_sent(id, peer_id);
            }
            ProofRequest::Roots { peer_id, missing } => {
                for info in missing {
                    let id = ExecutionProofsByRootRequestId { id: self.id() };
                    self.network.push(Sent::Root(id, peer_id, info.root));
                    self.sync.on_root_request_sent(id, info);
                }
            }
        }
    }

    fn take(&mut self, wanted: impl Fn(&Sent) -> bool) -> Option<Sent> {
        let index = self.network.iter().position(wanted)?;
        Some(self.network.remove(index))
    }

    fn find_range(&mut self) -> (ExecutionProofsByRangeRequestId, PeerId, u64, u64) {
        match self.take(|s| matches!(s, Sent::Range(..))) {
            Some(Sent::Range(id, peer_id, start, count)) => (id, peer_id, start, count),
            other => panic!("expected a range request, got {other:?}"),
        }
    }

    fn find_execution_proofs_by_range_request(
        &mut self,
    ) -> (ExecutionProofsByRangeRequestId, PeerId) {
        let (id, peer_id, _, _) = self.find_range();
        (id, peer_id)
    }

    fn find_execution_proofs_by_root_request(
        &mut self,
    ) -> (ExecutionProofsByRootRequestId, PeerId, Hash256) {
        match self.take(|s| matches!(s, Sent::Root(..))) {
            Some(Sent::Root(id, peer_id, root)) => (id, peer_id, root),
            other => panic!("expected a request by root, got {other:?}"),
        }
    }

    fn find_execution_proof_status_request(&mut self) -> (ExecutionProofStatusRequestId, PeerId) {
        match self.take(|s| matches!(s, Sent::Status(..))) {
            Some(Sent::Status(id, peer_id)) => (id, peer_id),
            other => panic!("expected a status request, got {other:?}"),
        }
    }

    fn drain_execution_proof_status_requests(&mut self) {
        self.network.retain(|s| !matches!(s, Sent::Status(..)));
    }

    fn expect_empty_network(&self) {
        assert_eq!(self.network, Vec::new());
    }

    fn expect_no_execution_proof_range_request(&self) {
        assert!(!self.network.iter().any(|s| matches!(s, Sent::Range(..))));
    }

    fn verified(&self, peer_id: PeerId) -> Option<bool> {
        self.sync.peer_status(&peer_id).map(|s| s.verified)
    }

    fn seed_missing(&mut self, count: usize) {
        self.missing = (0..count).map(|_| missing_proof(self.random_root())).collect();
    }
}

fn missing_proof(root: Hash256) -> MissingProofInfo {
    MissingProofInfo { root, existing_proof_types: vec![], slot: 0 }
}

#[test]
fn test_proof_sync_starts_in_idle() {
    let mut rig = TestRig::test_setup();
    assert_eq!(rig.sync.state(), ProofSyncState::Idle);
    rig.poll_proof_sync();
    rig.expect_empty_network();
}

#[test]
fn test_proof_sync_pending_range_issues_request_on_poll() {
    let mut rig = TestRig::test_setup();
    let _proof_peer = rig.new_proof_peer_with_status(1);
    rig.start_proof_sync();
    assert_eq!(rig.sync.state(), ProofSyncState::Syncing);
    rig.poll_proof_sync();
    let _ = rig.find_execution_proofs_by_range_request();
    assert!(rig.sync.range_request().is_some());
}

#[test]
fn test_proof_sync_no_peer_stays_pending() {
    let mut rig = TestRig::test_setup();
    rig.start_proof_sync();
    rig.poll_proof_sync();
    rig.expect_no_execution_proof_range_request();
    assert_eq!(rig.sync.state(), ProofSyncState::Syncing);
    assert!(rig.sync.range_request().is_none());

    let _proof_peer = rig.new_proof_peer_with_status(1);
    rig.poll_proof_sync();
    let _ = rig.find_execution_proofs_by_range_request();
    assert!(rig.sync.range_request().is_some());
}

#[test]
fn test_proof_sync_in_flight_poll_is_noop() {
    let mut rig = TestRig::test_setup();
    let _proof_peer = rig.new_proof_peer_with_status(1);
    rig.start_proof_sync();
    rig.poll_proof_sync();
    let _ = rig.find_execution_proofs_by_range_request();
    rig.drain_execution_proof_status_requests();
    assert!(rig.sync.range_request().is_some());

    rig.poll_proof_sync();
    rig.expect_empty_network();
    assert!(rig.sync.range_request().is_some());
}

#[test]
fn test_proof_sync_range_termination_enters_fill_mode() {
    let mut rig = TestRig::test_setup();
    let _proof_peer = rig.new_proof_peer_with_status(1);
    rig.start_proof_sync();
    rig.poll_proof_sync();
    let (req_id, _) = rig.find_execution_proofs_by_range_request();
    assert!(rig.sync.range_request().is_some());

    rig.sync.on_range_request_terminated(&req_id);
    assert!(matches!(rig.sync.state(), ProofSyncState::Waiting(_)));
    assert!(rig.sync.range_request().is_none());
}

#[test]
fn test_proof_sync_wrong_id_termination_ignored() {
    let mut rig = TestRig::test_setup();
    let _proof_peer = rig.new_proof_peer_with_status(1);
    rig.start_proof_sync();
    rig.poll_proof_sync();
    let _ = rig.find_execution_proofs_by_range_request();
    assert!(rig.sync.range_request().is_some());

    rig.sync.on_range_request_terminated(&ExecutionProofsByRangeRequestId { id: 9999 });
    assert!(rig.sync.range_request().is_some());
}

#[test]
fn test_proof_sync_fill_mode_no_missing_proofs() {
    let mut rig = TestRig::test_setup();
    let _proof_peer = rig.new_proof_peer_with_status(0);
    rig.start_proof_sync();
    rig.drain_execution_proof_status_requests();
    rig.poll_proof_sync();
    rig.expect_empty_network();
    assert_eq!(rig.sync.state(), ProofSyncState::Syncing);
}

#[test]
fn test_proof_sync_fill_mode_issues_by_root_requests() {
    let mut rig = TestRig::test_setup();
    let _proof_peer = rig.new_proof_peer_with_status(0);
    rig.start_proof_sync();
    rig.drain_execution_proof_status_requests();
    rig.seed_missing(2);
    rig.poll_proof_sync();
    let (_, _, first) = rig.find_execution_proofs_by_root_request();
    let (_, _, second) = rig.find_execution_proofs_by_root_request();
    assert_eq!(first, rig.missing[0].root);
    assert_eq!(second, rig.missing[1].root);
    assert_eq!(rig.sync.in_flight().len(), 2);
}

#[test]
fn test_proof_sync_fill_mode_respects_max_concurrent() {
    let mut rig = TestRig::test_setup();
    let _proof_peer = rig.new_proof_peer_with_status(0);
    rig.start_proof_sync();
    rig.drain_execution_proof_status_requests();
    rig.seed_missing(6);
    rig.poll_proof_sync();
    for _ in 0..4 {
        let _ = rig.find_execution_proofs_by_root_request();
    }
    assert_eq!(rig.sync.in_flight().len(), 4);
    assert_eq!(DEFAULT_MAX_CONCURRENT, 4);
    rig.expect_empty_network();
}

#[test]
fn test_proof_sync_fill_mode_skips_in_flight_roots() {
    let mut rig = TestRig::test_setup();
    let _proof_peer = rig.new_proof_peer_with_status(0);
    rig.start_proof_sync();
    rig.drain_execution_proof_status_requests();
    rig.seed_missing(2);
    rig.poll_proof_sync();
    let _ = rig.find_execution_proofs_by_root_request();
    let _ = rig.find_execution_proofs_by_root_request();
    assert_eq!(rig.sync.in_flight().len(), 2);

    rig.poll_proof_sync();
    rig.expect_empty_network();
    assert_eq!(rig.sync.in_flight().len(), 2);
}

#[test]
fn test_proof_sync_fill_mode_no_peer_breaks() {
    let mut rig = TestRig::test_setup();
    rig.sync.set_state(ProofSyncState::Syncing);
    rig.seed_missing(2);
    rig.poll_proof_sync();
    rig.expect_empty_network();
    assert_eq!(rig.sync.in_flight().len(), 0);
}

#[test]
fn test_proof_sync_on_request_terminated_clears_in_flight() {
    let mut rig = TestRig::test_setup();
    let _proof_peer = rig.new_proof_peer_with_status(0);
    rig.start_proof_sync();
    rig.drain_execution_proof_status_requests();
    rig.seed_missing(1);
    rig.poll_proof_sync();
    let (req_id, _, _) = rig.find_execution_proofs_by_root_request();
    assert_eq!(rig.sync.in_flight().len(), 1);

    rig.sync.on_request_terminated(&req_id);
    assert_eq!(rig.sync.in_flight().len(), 0);
}

#[test]
fn test_proof_sync_pause_resets_to_idle() {
    let mut rig = TestRig::test_setup();
    let _proof_peer = rig.new_proof_peer_with_status(0);
    rig.start_proof_sync();
    rig.drain_execution_proof_status_requests();
    rig.seed_missing(2);
    rig.poll_proof_sync();
    let _ = rig.find_execution_proofs_by_root_request();
    let _ = rig.find_execution_proofs_by_root_request();
    assert!(!rig.sync.in_flight().is_empty());

    rig.sync.pause();
    assert_eq!(rig.sync.state(), ProofSyncState::Idle);
    assert!(!rig.sync.in_flight().is_empty());
    rig.poll_proof_sync();
    rig.expect_empty_network();
}

#[test]
fn test_proof_sync_re_enter_range_resets_then_restarts() {
    let mut rig = TestRig::test_setup();
    let _proof_peer = rig.new_proof_peer_with_status(1);
    rig.start_proof_sync();
    rig.poll_proof_sync();
    let (req_id, _) = rig.find_execution_proofs_by_range_request();
    rig.sync.on_range_request_terminated(&req_id);
    assert!(rig.sync.range_request().is_none());

    rig.sync.pause();
    assert_eq!(rig.sync.state(), ProofSyncState::Idle);

    rig.start_proof_sync();
    assert_eq!(rig.sync.state(), ProofSyncState::Syncing);
    rig.poll_proof_sync();
    let _ = rig.find_execution_proofs_by_range_request();
    assert!(rig.sync.range_request().is_some());
}

#[test]
fn test_proof_sync_count_zero_skips_to_fill() {
    let mut rig = TestRig::test_setup();
    let _proof_peer = rig.new_proof_peer_with_status(0);
    rig.start_proof_sync();
    rig.drain_execution_proof_status_requests();
    rig.poll_proof_sync();
    rig.expect_no_execution_proof_range_request();
    assert_eq!(rig.sync.state(), ProofSyncState::Syncing);
    assert!(rig.sync.range_request().is_none());
}

#[test]
fn test_implausible_block_root_ignored() {
    let mut rig = TestRig::test_setup();
    let proof_peer = rig.new_connected_proof_capable_peer();
    rig.announce(proof_peer, None, ExecutionProofStatus { slot: 0, block_root: GENESIS_ROOT });
    assert!(rig.sync.peer_status(&proof_peer).is_some());
    assert_eq!(rig.verified(proof_peer), Some(true));

    let block_root = rig.random_root();
    rig.announce(proof_peer, None, ExecutionProofStatus { slot: 0, block_root });
    assert!(rig.sync.peer_status(&proof_peer).is_some());
    assert_eq!(rig.verified(proof_peer), Some(true));
    assert_eq!(rig.sync.peer_status(&proof_peer).unwrap().status.block_root, GENESIS_ROOT);
}

#[test]
fn test_optimistic_caching_for_ahead_peer() {
    let mut rig = TestRig::test_setup();
    let proof_peer = rig.new_connected_proof_capable_peer();
    let block_root = rig.random_root();
    rig.announce(proof_peer, None, ExecutionProofStatus { slot: 999, block_root });
    assert!(rig.sync.peer_status(&proof_peer).is_some());
    assert_eq!(rig.verified(proof_peer), Some(false));
}

#[test]
fn test_start_refreshes_unverified_entries() {
    let mut rig = TestRig::test_setup();
    let proof_peer = rig.new_connected_proof_capable_peer();
    let block_root = rig.random_root();
    rig.announce(proof_peer, None, ExecutionProofStatus { slot: 999, block_root });
    assert_eq!(rig.verified(proof_peer), Some(false));

    rig.start_proof_sync();
    let (id1, _) = rig.find_execution_proof_status_request();
    let block_root = rig.random_root();
    rig.announce(proof_peer, Some(id1), ExecutionProofStatus { slot: 999, block_root });
    assert_eq!(rig.verified(proof_peer), Some(false));

    rig.sync.pause();
    rig.start_proof_sync();
    let (_id2, peer2) = rig.find_execution_proof_status_request();
    assert_eq!(peer2, proof_peer);
}

#[test]
fn test_inbound_status_populates_cache() {
    let mut rig = TestRig::test_setup();
    let proof_peer = rig.new_connected_proof_capable_peer();
    let block_root = rig.random_root();
    rig.announce(proof_peer, None, ExecutionProofStatus { slot: 42, block_root });
    assert!(rig.sync.peer_status(&proof_peer).is_some());
    assert_eq!(rig.verified(proof_peer), Some(false));
}

#[test]
fn test_local_execution_proof_status_read_write() {
    let mut rig = TestRig::test_setup();
    let initial = rig.globals.local_execution_proof_status();
    assert_eq!(initial.slot, 0);

    let block_root = Hash256::repeat_byte(0xab);
    rig.globals
        .set_local_execution_proof_status(ExecutionProofStatus { slot: 42, block_root });
    let updated = rig.globals.local_execution_proof_status();
    assert_eq!(updated.slot, 42);
    assert_eq!(updated.block_root, block_root);
}

#[test]
fn test_proof_sync_start_slot_respects_local_proof_status() {
    let mut rig = TestRig::test_setup();
    let _proof_peer = rig.new_proof_peer_with_status(10);
    rig.globals.set_local_execution_proof_status(ExecutionProofStatus {
        slot: 7,
        block_root: Hash256::repeat_byte(0xcc),
    });
    rig.start_proof_sync();
    rig.poll_proof_sync();
    let (_req_id, _peer_id, start_slot, count) = rig.find_range();
    assert!(start_slot >= 8);
    // Slots 8, 9 and 10 are open.
    assert_eq!((start_slot, count), (8, 3));
}

#[test]
fn test_proof_sync_no_request_when_local_status_ahead_of_peer() {
    let mut rig = TestRig::test_setup();
    let _proof_peer = rig.new_proof_peer_with_status(5);
    rig.globals.set_local_execution_proof_status(ExecutionProofStatus {
        slot: 5,
        block_root: Hash256::repeat_byte(0xdd),
    });
    rig.start_proof_sync();
    rig.poll_proof_sync();
    rig.expect_no_execution_proof_range_request();
}

#[test]
fn test_execution_proof_by_range_disconnect_handling() {
    let mut rig = TestRig::test_setup();
    let proof_peer = rig.new_proof_peer_with_status(1);
    rig.start_proof_sync();
    rig.poll_proof_sync();
    let (_req_id, peer_id) = rig.find_execution_proofs_by_range_request();
    assert_eq!(peer_id, proof_peer);

    rig.peer_disconnected(peer_id);
    assert!(!rig.connected.contains(&peer_id));
    assert!(rig.sync.range_request().is_none());
    assert!(rig.sync.peer_status(&peer_id).is_none());
}

#[test]
fn test_peer_selection_multiple_peers_available() {
    let mut rig = TestRig::test_setup();
    let peer1 = rig.new_proof_peer_with_status(1);
    let peer2 = rig.new_proof_peer_with_status(1);
    let peer3 = rig.new_proof_peer_with_status(1);
    rig.start_proof_sync();
    rig.poll_proof_sync();
    let (_req_id, selected_peer) = rig.find_execution_proofs_by_range_request();
    assert!(selected_peer == peer1 || selected_peer == peer2 || selected_peer == peer3);
}

#[test]
fn test_peer_selection_failover_on_disconnect() {
    let mut rig = TestRig::test_setup();
    let peer1 = rig.new_proof_peer_with_status(1);
    let peer2 = rig.new_proof_peer_with_status(1);
    rig.start_proof_sync();
    rig.poll_proof_sync();
    let (_req_id, selected_peer) = rig.find_execution_proofs_by_range_request();

    rig.peer_disconnected(selected_peer);
    assert!(!rig.connected.contains(&selected_peer));
    let other_peer = if selected_peer == peer1 { peer2 } else { peer1 };
    assert!(rig.connected.contains(&other_peer));

    // The next poll turns to the peer that is left.
    rig.poll_proof_sync();
    let (_, next_peer) = rig.find_execution_proofs_by_range_request();
    assert_eq!(next_peer, other_peer);
}

#[test]
fn wait_ends_after_the_activation_slots() {
    let mut rig = TestRig::test_setup();
    let _proof_peer = rig.new_proof_peer_with_status(40);
    let _ = rig.sync.start(0);
    for left in [1, 0] {
        rig.poll_proof_sync();
        assert_eq!(rig.sync.state(), ProofSyncState::Waiting(left));
        rig.expect_empty_network();
    }
    rig.poll_proof_sync();
    assert_eq!(rig.sync.state(), ProofSyncState::Syncing);
    let (_, _, start, count) = rig.find_range();
    assert_eq!((start, count), (1, 40));
}

#[test]
fn gap_at_the_threshold_is_filled_block_by_block() {
    let mut rig = TestRig::test_setup();
    let _proof_peer = rig.new_proof_peer_with_status(DEFAULT_RANGE_REQUEST_THRESHOLD);
    rig.sync.set_state(ProofSyncState::Syncing);
    rig.seed_missing(1);
    rig.poll_proof_sync();
    rig.expect_no_execution_proof_range_request();
    assert_eq!(rig.sync.in_flight().len(), 1);

    let mut rig = TestRig::test_setup();
    let _proof_peer = rig.new_proof_peer_with_status(DEFAULT_RANGE_REQUEST_THRESHOLD + 1);
    rig.sync.set_state(ProofSyncState::Syncing);
    rig.poll_proof_sync();
    let (_, _, start, count) = rig.find_range();
    assert_eq!((start, count), (1, 17));
}

#[test]
fn verified_peers_come_first() {
    let mut rig = TestRig::test_setup();
    let verified = rig.new_proof_peer_with_status(0);
    let ahead = rig.new_proof_peer_with_status(999);
    assert_eq!(rig.verified(verified), Some(true));
    assert_eq!(rig.verified(ahead), Some(false));
    rig.start_proof_sync();
    rig.seed_missing(1);
    rig.poll_proof_sync();
    let (_, peer_id, _) = rig.find_execution_proofs_by_root_request();
    assert_eq!(peer_id, verified);
    rig.expect_no_execution_proof_range_request();
}

#[test]
fn higher_slots_come_first_among_equals() {
    let mut rig = TestRig::test_setup();
    let _low = rig.new_proof_peer_with_status(5);
    let high = rig.new_proof_peer_with_status(9);
    let _middle = rig.new_proof_peer_with_status(7);
    rig.start_proof_sync();
    rig.poll_proof_sync();
    let (_, peer_id, start, count) = rig.find_range();
    assert_eq!((peer_id, start, count), (high, 1, 9));
}

#[test]
fn range_error_keeps_the_state() {
    let mut rig = TestRig::test_setup();
    let _proof_peer = rig.new_proof_peer_with_status(3);
    rig.start_proof_sync();
    rig.poll_proof_sync();
    let (id, _) = rig.find_execution_proofs_by_range_request();
    rig.sync.on_range_request_error(&ExecutionProofsByRangeRequestId { id: 9999 });
    assert!(rig.sync.range_request().is_some());
    rig.sync.on_range_request_error(&id);
    assert!(rig.sync.range_request().is_none());
    assert_eq!(rig.sync.state(), ProofSyncState::Syncing);
}

#[test]
fn root_error_frees_the_root() {
    let mut rig = TestRig::test_setup();
    let _proof_peer = rig.new_proof_peer_with_status(0);
    rig.start_proof_sync();
    rig.seed_missing(1);
    rig.poll_proof_sync();
    let (id, _, root) = rig.find_execution_proofs_by_root_request();
    rig.sync.on_root_request_error(&id);
    assert_eq!(rig.sync.in_flight().len(), 0);
    rig.poll_proof_sync();
    let (_, _, again) = rig.find_execution_proofs_by_root_request();
    assert_eq!(again, root);
}

#[test]
fn failed_status_leaves_a_placeholder_or_the_entry() {
    let mut rig = TestRig::test_setup();
    let id = ExecutionProofStatusRequestId { id: 5 };
    rig.sync.add_peer(7, Some(id));
    rig.sync.on_peer_execution_proof_status_error(7, id, 50);
    let entry = rig.sync.peer_status(&7).unwrap();
    assert_eq!(entry.status.slot, 0);
    assert_eq!(entry.status.block_root, Hash256::zero());
    assert!(!entry.verified);
    assert_eq!(entry.timestamp, 50);

    rig.announce(7, None, ExecutionProofStatus { slot: 8, block_root: GENESIS_ROOT });
    rig.sync.on_peer_execution_proof_status_error(7, id, 2000);
    let entry = rig.sync.peer_status(&7).unwrap();
    assert_eq!(entry.status.slot, 8);
    assert_eq!(entry.timestamp, 2000);
}

#[test]
fn stale_statuses_are_asked_for_again() {
    let mut rig = TestRig::test_setup();
    let peer = rig.new_proof_peer_with_status(0);
    assert!(rig.sync.start(1000).is_empty());
    assert_eq!(rig.sync.start(1001), vec![peer]);
    // A request that is not answered yet is not repeated.
    rig.sync.on_status_request_sent(peer, ExecutionProofStatusRequestId { id: 1 });
    assert!(rig.sync.start(1001).is_empty());
}

#[test]
fn last_slots_do_not_overflow() {
    let mut rig = TestRig::test_setup();
    let _peer = rig.new_proof_peer_with_status(u64::MAX);
    rig.start_proof_sync();
    rig.globals.set_local_execution_proof_status(ExecutionProofStatus {
        slot: u64::MAX,
        block_root: GENESIS_ROOT,
    });
    rig.poll_proof_sync();
    rig.expect_no_execution_proof_range_request();
}
