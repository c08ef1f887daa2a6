//! The state of the engine: buffering, promotion, fork choice, pruning, and what is stored of it.

use eip8025::engine::errors::ProofEngineStateError;
use eip8025::engine::forkchoice::{ForkchoiceState, PayloadStatusV1Status};
use eip8025::engine::persisted_state::PersistedProofEngineState;
use eip8025::engine::state::{PayloadRequest, State};
use eip8025::engine::state_model::RequestMetadata;
use eip8025::execution_proof::{
    ExecutionProof, ProofStatus, PublicInput, SignedExecutionProof, MIN_REQUIRED_EXECUTION_PROOFS,
};
use eip8025::hash::{ExecutionBlockHash, Hash256, SignatureBytes};
use eip8025::proof_data::proof_data;
use eip8025::store::{DBColumn, KeyValueStoreOp, StoreError};

fn test_hash(byte: u8) -> Hash256 {
    Hash256::repeat_byte(byte)
}

fn test_exec_hash(byte: u8) -> ExecutionBlockHash {
    ExecutionBlockHash::repeat_byte(byte)
}

fn create_signed_proof_with_type(
    request_root: Hash256,
    validator_index: u64,
    proof_type: u8,
) -> SignedExecutionProof {
    SignedExecutionProof {
        message: ExecutionProof {
            proof_data: proof_data(vec![0xaa, 0xbb, 0xcc]).unwrap(),
            proof_type,
            public_input: PublicInput { new_payload_request_root: request_root },
        },
        validator_index,
        signature: SignatureBytes::empty(),
    }
}

fn create_forkchoice_state(
    head: ExecutionBlockHash,
    safe: ExecutionBlockHash,
    finalized: ExecutionBlockHash,
) -> ForkchoiceState {
    ForkchoiceState {
        head_block_hash: head,
        safe_block_hash: safe,
        finalized_block_hash: finalized,
    }
}

/// Chains of requests with their proofs: the canonical one first, then the forks.
struct TestStateFixture {
    blocks: Vec<Vec<PayloadRequest>>,
}

impl TestStateFixture {
    fn genesis_fcs(&self) -> ForkchoiceState {
        let hash = self.blocks[0][0].metadata.block_hash;
        create_forkchoice_state(hash, hash, hash)
    }

    fn canonical(&self, index: usize) -> &PayloadRequest {
        &self.blocks[0][index]
    }

    fn fork(&self, fork_id: usize, index: usize) -> &PayloadRequest {
        &self.blocks[fork_id + 1][index]
    }

    fn canonical_block_hash(&self, index: usize) -> ExecutionBlockHash {
        self.canonical(index).metadata.block_hash
    }

    fn fork_block_hash(&self, fork_id: usize, index: usize) -> ExecutionBlockHash {
        self.fork(fork_id, index).metadata.block_hash
    }

    fn canonical_request_root(&self, index: usize) -> Hash256 {
        self.canonical(index).metadata.request_root
    }

    fn bootstrap_canonical(&self, state: &mut State) {
        state.forkchoice_updated(self.genesis_fcs()).unwrap();
        self.insert_chain(state, 0, None);
    }

    fn insert_canonical(&self, state: &mut State, block_index: Option<usize>) {
        self.insert_chain(state, 0, block_index);
    }

    fn insert_fork(&self, state: &mut State, fork_id: usize, block_index: Option<usize>) {
        self.insert_chain(state, fork_id + 1, block_index);
    }

    fn insert_chain(&self, state: &mut State, chain: usize, block_index: Option<usize>) {
        let range = match block_index {
            Some(i) => i..=i,
            None => 0..=self.blocks[chain].len() - 1,
        };
        for index in range {
            state.buffer_request(self.blocks[chain][index].metadata);
            for proof in &self.blocks[chain][index].proofs {
                state.insert_proof(proof.clone()).unwrap();
            }
        }
    }
}

struct TestStateFixtureBuilder {
    canonical_chain_length: usize,
    forks: Vec<(usize, usize, Option<usize>)>,
    proofs_per_block: usize,
    starting_block_number: u64,
}

impl TestStateFixtureBuilder {
    fn new() -> Self {
        Self {
            canonical_chain_length: 0,
            forks: Vec::new(),
            proofs_per_block: MIN_REQUIRED_EXECUTION_PROOFS,
            starting_block_number: 0,
        }
    }

    fn simple_chain() -> Self {
        Self::new().with_canonical_chain(3)
    }

    fn with_proofs_per_block(mut self, proofs: usize) -> Self {
        self.proofs_per_block = proofs;
        self
    }

    fn with_canonical_chain(mut self, length: usize) -> Self {
        self.canonical_chain_length = length;
        self
    }

    fn with_fork(
        mut self,
        branch_point: usize,
        fork_length: usize,
        proofs_per_block: Option<usize>,
    ) -> Self {
        self.forks.push((branch_point, fork_length, proofs_per_block));
        self
    }

    fn build(self) -> TestStateFixture {
        let mut fixture = TestStateFixture { blocks: vec![Vec::new()] };
        for i in 0..self.canonical_chain_length {
            let parent_hash = if i == 0 {
                test_exec_hash(0xff)
            } else {
                fixture.blocks[0][i - 1].metadata.block_hash
            };
            let number = self.starting_block_number + i as u64;
            let block = Self::generate_block(0, i, parent_hash, number, self.proofs_per_block);
            fixture.blocks[0].push(block);
        }
        for (fork_idx, (branch_point, fork_length, custom_proofs)) in self.forks.iter().enumerate() {
            let proof_count = custom_proofs.unwrap_or(self.proofs_per_block);
            let mut fork_blocks: Vec<PayloadRequest> = Vec::new();
            for i in 0..*fork_length {
                let parent_hash = if i == 0 {
                    fixture.blocks[0][*branch_point].metadata.block_hash
                } else {
                    fork_blocks[i - 1].metadata.block_hash
                };
                let number = self.starting_block_number + *branch_point as u64 + i as u64 + 1;
                let block =
                    Self::generate_block(fork_idx + 1, i, parent_hash, number, proof_count);
                fork_blocks.push(block);
            }
            fixture.blocks.push(fork_blocks);
        }
        fixture
    }

    fn generate_block(
        chain_id: usize,
        block_index: usize,
        parent_hash: ExecutionBlockHash,
        block_number: u64,
        proof_count: usize,
    ) -> PayloadRequest {
        let hash_seed = (chain_id * 1000 + block_index) % 256;
        let block_hash = test_exec_hash(hash_seed as u8);
        let request_root = test_hash(((hash_seed + 0x10) % 256) as u8);
        let metadata = RequestMetadata { request_root, block_hash, parent_hash, block_number };
        let mut proofs = Vec::new();
        for i in 0..proof_count {
            proofs.push(create_signed_proof_with_type(
                request_root,
                request_root.0[0] as u64 + i as u64,
                (i as u8).wrapping_add(1),
            ));
        }
        PayloadRequest { metadata, proofs }
    }
}

fn in_tree(state: &State, request: &PayloadRequest) -> bool {
    state.tree.proofs_by_block_hash.contains_key(&request.metadata.block_hash)
}

fn in_buffer(state: &State, request: &PayloadRequest) -> bool {
    state.buffer.proofs.contains_key(&request.metadata.request_root)
}

#[test]
fn test_buffer_request_new() {
    let fixture = TestStateFixtureBuilder::new().with_canonical_chain(1).build();
    let request = fixture.canonical(0);
    let mut state = State::new();
    state.buffer_request(request.metadata);

    assert_eq!(state.buffer.proofs.len(), 1);
    assert!(in_buffer(&state, request));
    let buffered = state.buffer.proofs.get(&request.metadata.request_root).unwrap();
    assert_eq!(buffered.metadata.block_hash, request.metadata.block_hash);
    assert_eq!(buffered.proofs.len(), 0);
}

#[test]
fn test_buffer_request_preserves_proofs_on_duplicate() {
    let fixture =
        TestStateFixtureBuilder::new().with_proofs_per_block(4).with_canonical_chain(1).build();
    let mut state = State::with_min_required_proofs(3);
    let request = fixture.canonical(0);
    state.buffer_request(request.metadata);
    for i in 0..2 {
        state.insert_proof(request.proofs[i].clone()).unwrap();
    }
    let held = |state: &State| {
        state.buffer.proofs.get(&request.metadata.request_root).unwrap().proofs.len()
    };
    assert_eq!(held(&state), 2);

    state.buffer_request(request.metadata);
    assert_eq!(state.buffer.proofs.len(), 1);
    assert_eq!(held(&state), 2);
}

#[test]
fn test_buffer_request_skips_if_promoted_exists() {
    let fixture = TestStateFixtureBuilder::simple_chain().build();
    let mut state = State::new();
    fixture.bootstrap_canonical(&mut state);
    let request = fixture.canonical(2);
    assert!(in_tree(&state, request));
    assert!(!in_buffer(&state, request));

    state.buffer_request(request.metadata);
    assert!(in_tree(&state, request));
    assert!(!in_buffer(&state, request));
}

#[test]
fn test_insert_proof_unknown_request_root() {
    let fixture = TestStateFixtureBuilder::new().with_canonical_chain(1).build();
    let mut state = State::new();
    let request = fixture.canonical(0);
    match state.insert_proof(request.proofs[0].clone()) {
        Err(ProofEngineStateError::ProofRequestRootNotSeen(root)) => {
            assert_eq!(root, request.metadata.request_root);
        }
        other => panic!("expected ProofRequestRootNotSeen, got {other:?}"),
    }
}

#[test]
fn test_promotion() {
    let fixture = TestStateFixtureBuilder::simple_chain()
        .with_proofs_per_block(4)
        .with_fork(1, 1, None)
        .build();
    let mut state = State::with_min_required_proofs(4);

    let request = fixture.canonical(0);
    state.forkchoice_updated(fixture.genesis_fcs()).unwrap();
    state.buffer_request(request.metadata);
    for i in 0..request.proofs.len() - 1 {
        assert_eq!(
            state.insert_proof(request.proofs[i].clone()).unwrap(),
            ProofStatus::Accepted
        );
    }
    assert!(in_buffer(&state, request));
    assert!(!in_tree(&state, request));

    assert_eq!(
        state.insert_proof(request.proofs[request.proofs.len() - 1].clone()).unwrap(),
        ProofStatus::Valid
    );
    assert!(!in_buffer(&state, request));
    assert!(in_tree(&state, request));
    assert!(state.tree.request_root_to_block_hash.contains_key(&request.metadata.request_root));
    assert_eq!(state.tree.current_canonical_head, request.metadata.block_hash);
    let children = state.tree.parent_to_children.get(&request.metadata.parent_hash).unwrap();
    assert!(children.contains(&request.metadata.block_hash));
    let at_height = state.tree.block_number_to_block_hash.get(&0).unwrap();
    assert!(at_height.contains(&request.metadata.block_hash));

    fixture.insert_canonical(&mut state, Some(2));
    let request2 = fixture.canonical(2);
    assert!(in_buffer(&state, request2));

    fixture.insert_canonical(&mut state, Some(1));
    let request1 = fixture.canonical(1);
    assert!(!in_buffer(&state, request1));
    assert!(in_tree(&state, request1));
    assert!(!in_buffer(&state, request2));
    assert!(in_tree(&state, request2));
    assert_eq!(state.tree.current_canonical_head, request2.metadata.block_hash);

    fixture.insert_fork(&mut state, 0, None);
    let fork_request = fixture.fork(0, 0);
    assert!(!in_buffer(&state, fork_request));
    assert!(in_tree(&state, fork_request));
    assert_eq!(state.tree.current_canonical_head, request2.metadata.block_hash);
}

#[test]
fn test_forkchoice_updated_head_not_in_tree() {
    let mut state = State::new();
    let fixture = TestStateFixtureBuilder::simple_chain().build();
    fixture.bootstrap_canonical(&mut state);
    let base = fixture.canonical_block_hash(0);
    let fcs = create_forkchoice_state(test_exec_hash(0xee), base, base);
    let response = state.forkchoice_updated(fcs).unwrap();
    assert_eq!(response.payload_status.status, PayloadStatusV1Status::Syncing);
}

#[test]
fn test_forkchoice_invalid_ancestry_chain() {
    let mut state = State::new();
    let fixture = TestStateFixtureBuilder::simple_chain().with_fork(1, 1, None).build();
    fixture.bootstrap_canonical(&mut state);
    let head = fixture.canonical_block_hash(2);
    let finalized = fixture.canonical_block_hash(0);
    let unknown = test_exec_hash(0xee);

    let fcs = create_forkchoice_state(head, unknown, finalized);
    let response = state.forkchoice_updated(fcs).unwrap();
    assert_eq!(response.payload_status.status, PayloadStatusV1Status::Invalid);

    let fcs = create_forkchoice_state(head, fixture.canonical_block_hash(1), unknown);
    let response = state.forkchoice_updated(fcs).unwrap();
    assert_eq!(response.payload_status.status, PayloadStatusV1Status::Invalid);

    let fcs = create_forkchoice_state(head, fixture.fork_block_hash(0, 0), finalized);
    let response = state.forkchoice_updated(fcs).unwrap();
    assert_eq!(response.payload_status.status, PayloadStatusV1Status::Invalid);
}

#[test]
fn test_valid_forkchoice_update_with_new_fork_head() {
    let fixture = TestStateFixtureBuilder::simple_chain().with_fork(1, 1, None).build();
    let mut state = State::new();
    fixture.bootstrap_canonical(&mut state);
    let block_0 = fixture.canonical_block_hash(0);
    let block_1 = fixture.canonical_block_hash(1);
    let block_2 = fixture.canonical_block_hash(2);
    assert_eq!(state.tree.current_canonical_head, block_2);

    let response = state
        .forkchoice_updated(create_forkchoice_state(block_1, block_0, block_0))
        .unwrap();
    assert_eq!(response.payload_status.status, PayloadStatusV1Status::Valid);
    assert_eq!(state.tree.current_canonical_head, block_2);

    let response = state
        .forkchoice_updated(create_forkchoice_state(block_2, block_1, block_0))
        .unwrap();
    assert_eq!(response.payload_status.status, PayloadStatusV1Status::Valid);
    assert_eq!(state.tree.current_canonical_head, block_2);

    fixture.insert_fork(&mut state, 0, None);
    let fork_head = fixture.fork_block_hash(0, 0);
    let response = state
        .forkchoice_updated(create_forkchoice_state(fork_head, block_1, block_0))
        .unwrap();
    assert_eq!(response.payload_status.status, PayloadStatusV1Status::Valid);
    assert_eq!(state.tree.current_canonical_head, fork_head);
}

#[test]
fn test_prune() {
    let fixture = TestStateFixtureBuilder::simple_chain()
        .with_proofs_per_block(4)
        .with_fork(0, 4, None)
        .with_fork(0, 4, Some(1))
        .build();
    let mut state = State::with_min_required_proofs(4);
    fixture.bootstrap_canonical(&mut state);
    fixture.insert_fork(&mut state, 0, None);
    assert_eq!(state.tree.proofs_by_block_hash.len(), 7);

    let finalized = fixture.canonical_block_hash(1);
    let head = fixture.canonical_block_hash(2);
    let response = state
        .forkchoice_updated(create_forkchoice_state(head, finalized, finalized))
        .unwrap();
    assert_eq!(response.payload_status.status, PayloadStatusV1Status::Valid);
    assert_eq!(state.tree.proofs_by_block_hash.len(), 2);
}

#[test]
fn test_get_proofs_from_tree() {
    let fixture = TestStateFixtureBuilder::simple_chain().build();
    let mut state = State::new();
    fixture.bootstrap_canonical(&mut state);
    let proofs = state.get_proofs(&fixture.canonical_request_root(0));
    assert!(proofs.is_some());
    assert_eq!(proofs.unwrap().len(), MIN_REQUIRED_EXECUTION_PROOFS);
}

#[test]
fn test_get_proofs_from_buffer() {
    let fixture = TestStateFixtureBuilder::simple_chain().with_fork(0, 1, Some(1)).build();
    let mut state = State::new();
    fixture.bootstrap_canonical(&mut state);
    fixture.insert_fork(&mut state, 0, None);
    let proofs = state.get_proofs(&fixture.fork(0, 0).metadata.request_root);
    assert!(proofs.is_some());
    assert_eq!(proofs.unwrap().len(), 1);
}

#[test]
fn test_get_proofs_empty_list() {
    let fixture = TestStateFixtureBuilder::simple_chain().build();
    let mut state = State::new();
    let request = fixture.canonical(0);
    state.buffer_request(request.metadata);
    assert!(state.get_proofs(&request.metadata.request_root).is_none());
}

#[test]
fn test_tree_state_consistency_after_promotion() {
    let fixture = TestStateFixtureBuilder::simple_chain().build();
    let mut state = State::new();
    fixture.bootstrap_canonical(&mut state);
    let hashes: Vec<_> = (0..3).map(|i| fixture.canonical_block_hash(i)).collect();

    assert_eq!(state.tree.proofs_by_block_hash.len(), 3);
    assert_eq!(state.tree.request_root_to_block_hash.len(), 3);
    for i in 0..3 {
        assert_eq!(
            state.tree.request_root_to_block_hash.get(&fixture.canonical_request_root(i)).copied(),
            Some(hashes[i])
        );
        let parent = if i == 0 { test_exec_hash(0xff) } else { hashes[i - 1] };
        assert!(state.tree.parent_to_children.get(&parent).unwrap().contains(&hashes[i]));
        let at_height = state.tree.block_number_to_block_hash.get(&(i as u64)).unwrap();
        assert!(at_height.contains(&hashes[i]));
    }
}

/// A canonical chain, a fork in the buffer, and both fork choice states set.
fn populated_state() -> State {
    let fixture = TestStateFixtureBuilder::simple_chain()
        .with_fork(1, 2, Some(0))
        .with_fork(1, 3, Some(3))
        .build();
    let mut state = State::new();
    fixture.bootstrap_canonical(&mut state);
    fixture.insert_fork(&mut state, 0, None);
    state
        .forkchoice_updated(create_forkchoice_state(
            fixture.canonical_block_hash(2),
            fixture.canonical_block_hash(1),
            fixture.canonical_block_hash(0),
        ))
        .unwrap();
    assert!(state.latest_fcs.is_some());
    state
}

fn assert_same_state(restored: &State, state: &State) {
    assert_eq!(restored.last_valid_fcs, state.last_valid_fcs);
    assert_eq!(restored.latest_fcs, state.latest_fcs);
    assert_eq!(restored.min_required_proofs, MIN_REQUIRED_EXECUTION_PROOFS);
    assert_eq!(restored.tree.proofs_by_block_hash.len(), state.tree.proofs_by_block_hash.len());
    for hash in state.tree.proofs_by_block_hash.keys() {
        let r = restored.tree.proofs_by_block_hash.get(&hash).unwrap();
        let req = state.tree.proofs_by_block_hash.get(&hash).unwrap();
        assert_eq!(r.metadata, req.metadata);
        assert_eq!(r.proofs, req.proofs);
    }
    assert_eq!(
        restored.tree.request_root_to_block_hash.len(),
        state.tree.request_root_to_block_hash.len()
    );
    for root in state.tree.request_root_to_block_hash.keys() {
        assert_eq!(
            restored.tree.request_root_to_block_hash.get(&root),
            state.tree.request_root_to_block_hash.get(&root)
        );
    }
    assert_eq!(restored.tree.parent_to_children.len(), state.tree.parent_to_children.len());
    for parent in state.tree.parent_to_children.keys() {
        let r = restored.tree.parent_to_children.get(&parent).unwrap();
        let s = state.tree.parent_to_children.get(&parent).unwrap();
        assert_eq!(r.len(), s.len());
        for child in s.items() {
            assert!(r.contains(&child));
        }
    }
    assert_eq!(
        restored.tree.block_number_to_block_hash.len(),
        state.tree.block_number_to_block_hash.len()
    );
    for number in state.tree.block_number_to_block_hash.keys() {
        let r = restored.tree.block_number_to_block_hash.get(&number).unwrap();
        let s = state.tree.block_number_to_block_hash.get(&number).unwrap();
        assert_eq!(r.len(), s.len());
        for hash in s.items() {
            assert!(r.contains(&hash));
        }
    }
    assert_eq!(restored.tree.current_canonical_head, state.tree.current_canonical_head);
    assert_eq!(restored.buffer.proofs.len(), state.buffer.proofs.len());
    for root in state.buffer.proofs.keys() {
        let r = restored.buffer.proofs.get(&root).unwrap();
        let req = state.buffer.proofs.get(&root).unwrap();
        assert_eq!(r.metadata, req.metadata);
        assert_eq!(r.proofs, req.proofs);
    }
}

#[test]
fn test_state_serialization_round_trip() {
    let state = populated_state();
    let persisted = PersistedProofEngineState::from_state(&state);
    assert_same_state(&persisted.to_state(), &state);
}

#[test]
fn test_encode_decode_round_trip() {
    let state = populated_state();
    let persisted = PersistedProofEngineState::from_state(&state);
    let bytes = persisted.as_store_bytes();
    let decoded = PersistedProofEngineState::from_store_bytes(&bytes).unwrap();
    assert_eq!(decoded, persisted);
    assert_same_state(&decoded.to_state(), &state);
}

#[test]
fn stored_bytes_begin_with_version_and_fork_choice() {
    let state = populated_state();
    let persisted = PersistedProofEngineState::from_state(&state);
    let bytes = persisted.try_as_store_bytes().unwrap();
    assert_eq!(bytes[..8], 1u64.to_le_bytes());
    assert_eq!(bytes[8..40], [0x02; 32]);
    assert_eq!(bytes[40..72], [0x01; 32]);
    assert_eq!(bytes[72..104], [0x00; 32]);
    // The fixed part ends after three offsets, and the first one points there.
    assert_eq!(bytes[104..108], 116u32.to_le_bytes());
    // The pending fork choice state follows: it is there, and its head is the first block.
    assert_eq!(bytes[116], 1);
    assert_eq!(bytes[117..149], [0x00; 32]);
}

#[test]
fn truncated_bytes_are_refused() {
    let persisted = PersistedProofEngineState::from_state(&populated_state());
    let bytes = persisted.as_store_bytes();
    for len in [0, 50, 115, bytes.len() - 1] {
        assert!(matches!(
            PersistedProofEngineState::from_store_bytes(&bytes[..len]),
            Err(StoreError::SszDecodeError)
        ));
    }
    let mut longer = bytes.clone();
    longer.push(0);
    assert!(PersistedProofEngineState::from_store_bytes(&longer).is_err());
}

#[test]
fn empty_state_is_stored_and_restored() {
    let state = State::new();
    let persisted = PersistedProofEngineState::from_state(&state);
    let bytes = persisted.as_store_bytes();
    let decoded = PersistedProofEngineState::from_store_bytes(&bytes).unwrap();
    assert_eq!(decoded, persisted);
    assert!(decoded.latest_fcs.is_none());
    assert_same_state(&decoded.to_state(), &state);
}

#[test]
fn compression_decides_what_reaches_the_store() {
    let persisted = PersistedProofEngineState::from_state(&populated_state());
    let bytes = persisted.as_store_bytes();
    let decoded = PersistedProofEngineState::from_bytes(Ok(bytes.clone())).unwrap();
    assert_eq!(decoded, persisted);
    assert!(matches!(
        PersistedProofEngineState::from_bytes(Err("corrupt".to_string())),
        Err(StoreError::Compression(why)) if why == "corrupt"
    ));
    let op = PersistedProofEngineState::as_kv_store_op(Hash256::zero(), Ok(vec![1, 2])).unwrap();
    assert_eq!(
        op,
        KeyValueStoreOp::PutKeyValue(DBColumn::ProofEngine, vec![0; 32], vec![1, 2])
    );
    assert!(matches!(
        PersistedProofEngineState::as_kv_store_op(Hash256::zero(), Err("full".to_string())),
        Err(StoreError::Compression(_))
    ));
    assert_eq!(PersistedProofEngineState::db_column(), DBColumn::ProofEngine);
}

#[test]
fn schema_changes() {
    assert!(eip8025::store::upgrade_to_v29().unwrap().is_empty());
    assert_eq!(
        eip8025::store::downgrade_from_v29().unwrap(),
        vec![KeyValueStoreOp::DeleteKey(DBColumn::ProofEngine, vec![0; 32])]
    );
}

#[test]
fn proof_that_was_taken_is_read_back_last() {
    let fixture = TestStateFixtureBuilder::simple_chain().build();
    let mut state = State::new();
    fixture.bootstrap_canonical(&mut state);
    let root = fixture.canonical_request_root(1);
    let before = state.get_proofs(&root).unwrap().len();
    let late = create_signed_proof_with_type(root, 77, 9);
    assert_eq!(state.insert_proof(late.clone()).unwrap(), ProofStatus::Accepted);
    let proofs = state.get_proofs(&root).unwrap();
    assert_eq!(proofs.len(), before + 1);
    assert_eq!(proofs[before], late);
}

#[test]
fn promotion_cascades_over_several_blocks() {
    let fixture = TestStateFixtureBuilder::new().with_canonical_chain(6).build();
    let mut state = State::new();
    state.forkchoice_updated(fixture.genesis_fcs()).unwrap();
    for i in (1..6).rev() {
        fixture.insert_canonical(&mut state, Some(i));
    }
    // Block 1 is a child of the head, but the head is not in the tree yet.
    assert!(!state.can_promote(&fixture.canonical_request_root(1)).unwrap());
    assert_eq!(state.tree.proofs_by_block_hash.len(), 0);
    // The final block takes all that waited for it along.
    fixture.insert_canonical(&mut state, Some(0));
    assert_eq!(state.tree.proofs_by_block_hash.len(), 6);
    assert_eq!(state.tree.current_canonical_head, fixture.canonical_block_hash(5));
    assert_eq!(state.buffer.proofs.len(), 0);
}

#[test]
fn cascade_goes_by_the_threshold_of_the_state() {
    let fixture = TestStateFixtureBuilder::simple_chain().with_proofs_per_block(3).build();
    let mut state = State::with_min_required_proofs(3);
    state.forkchoice_updated(fixture.genesis_fcs()).unwrap();
    // The child has fewer proofs than the state asks for.
    state.buffer_request(fixture.canonical(1).metadata);
    for proof in &fixture.canonical(1).proofs[..2] {
        state.insert_proof(proof.clone()).unwrap();
    }
    fixture.insert_canonical(&mut state, Some(0));
    assert!(in_tree(&state, fixture.canonical(0)));
    assert!(in_buffer(&state, fixture.canonical(1)));
    assert_eq!(
        state.insert_proof(fixture.canonical(1).proofs[2].clone()).unwrap(),
        ProofStatus::Valid
    );
    assert!(in_tree(&state, fixture.canonical(1)));
}

#[test]
fn missing_proofs_follow_the_pending_head() {
    let fixture =
        TestStateFixtureBuilder::new().with_canonical_chain(4).with_proofs_per_block(2).build();
    let mut state = State::with_min_required_proofs(2);
    assert!(state.missing_proofs().is_empty());
    let base = fixture.canonical_block_hash(0);
    for i in 0..4 {
        state.buffer_request(fixture.canonical(i).metadata);
    }
    state.insert_proof(fixture.canonical(2).proofs[0].clone()).unwrap();
    state.insert_proof(fixture.canonical(1).proofs[0].clone()).unwrap();
    state.insert_proof(fixture.canonical(1).proofs[1].clone()).unwrap();
    state.insert_proof(fixture.canonical(0).proofs[0].clone()).unwrap();
    state.insert_proof(fixture.canonical(0).proofs[1].clone()).unwrap();
    let fcs = create_forkchoice_state(fixture.canonical_block_hash(3), base, base);
    state.forkchoice_updated(fcs).unwrap();
    // The final block and block 1 are in the tree, so the walk ends below block 2.
    assert_eq!(state.tree.proofs_by_block_hash.len(), 2);
    let missing = state.missing_proofs();
    let roots: Vec<_> = missing.iter().map(|m| m.root).collect();
    assert_eq!(roots, vec![fixture.canonical_request_root(3), fixture.canonical_request_root(2)]);
    assert!(missing[0].existing_proof_types.is_empty());
    assert_eq!(missing[1].existing_proof_types, vec![1]);
    assert_eq!(missing[1].slot, 0);
}

#[test]
fn circular_parents_end_the_walks() {
    let mut state = State::with_min_required_proofs(1);
    let a = RequestMetadata {
        request_root: test_hash(1),
        block_hash: test_exec_hash(0xa1),
        parent_hash: test_exec_hash(0xb1),
        block_number: 5,
    };
    let b = RequestMetadata {
        request_root: test_hash(2),
        block_hash: test_exec_hash(0xb1),
        parent_hash: test_exec_hash(0xa1),
        block_number: 6,
    };
    state.buffer_request(a);
    state.buffer_request(b);
    let fcs = create_forkchoice_state(a.block_hash, a.block_hash, test_exec_hash(0xf1));
    state.forkchoice_updated(fcs).unwrap();
    assert_eq!(state.missing_proofs().len(), 2);
}

#[test]
fn refused_and_invalid_updates_change_nothing() {
    let mut state = populated_state();
    let before = PersistedProofEngineState::from_state(&state);
    assert!(state.insert_proof(create_signed_proof_with_type(test_hash(0x99), 0, 1)).is_err());
    assert_eq!(PersistedProofEngineState::from_state(&state), before);
    let head = state.tree.current_canonical_head;
    let fcs = create_forkchoice_state(head, test_exec_hash(0xee), test_exec_hash(0x00));
    let response = state.forkchoice_updated(fcs).unwrap();
    assert_eq!(response.payload_status.status, PayloadStatusV1Status::Invalid);
    assert_eq!(response.payload_status.latest_valid_hash, Some(head));
    assert_eq!(
        response.payload_status.validation_error.as_deref(),
        Some("invalid forkchoice state")
    );
    assert_eq!(PersistedProofEngineState::from_state(&state), before);
}

#[test]
fn valid_update_is_valid_again_and_changes_nothing() {
    let fixture = TestStateFixtureBuilder::simple_chain().with_fork(0, 2, None).build();
    let mut state = State::new();
    fixture.bootstrap_canonical(&mut state);
    fixture.insert_fork(&mut state, 0, None);
    let finalized = fixture.canonical_block_hash(1);
    let fcs = create_forkchoice_state(fixture.canonical_block_hash(2), finalized, finalized);
    let first = state.forkchoice_updated(fcs).unwrap();
    assert_eq!(first.payload_status.status, PayloadStatusV1Status::Valid);
    let after = PersistedProofEngineState::from_state(&state);
    let second = state.forkchoice_updated(fcs).unwrap();
    assert_eq!(second.payload_status.status, PayloadStatusV1Status::Valid);
    assert_eq!(
        second.payload_status.latest_valid_hash,
        first.payload_status.latest_valid_hash
    );
    assert_eq!(PersistedProofEngineState::from_state(&state), after);
}

#[test]
fn pruning_keeps_the_final_chain_and_drops_what_lies_beside() {
    let fixture = TestStateFixtureBuilder::new()
        .with_canonical_chain(5)
        .with_fork(1, 3, None)
        .with_fork(0, 1, Some(0))
        .build();
    let mut state = State::new();
    fixture.bootstrap_canonical(&mut state);
    fixture.insert_fork(&mut state, 0, None);
    fixture.insert_fork(&mut state, 1, None);
    assert_eq!(state.buffer.proofs.len(), 1);
    let finalized = fixture.canonical_block_hash(2);
    let fcs = create_forkchoice_state(fixture.canonical_block_hash(4), finalized, finalized);
    state.forkchoice_updated(fcs).unwrap();
    for i in 0..5 {
        assert_eq!(in_tree(&state, fixture.canonical(i)), i >= 2);
    }
    for i in 0..3 {
        assert!(!in_tree(&state, fixture.fork(0, i)));
        assert!(state.get_proofs(&fixture.fork(0, i).metadata.request_root).is_none());
    }
    assert_eq!(state.buffer.proofs.len(), 0);
    assert_eq!(state.tree.block_number_to_block_hash.len(), 3);
    assert_eq!(state.last_valid_fcs, fcs);
}

/// Buffers a chain of blocks, each with a proof.
fn buffered_chain(length: u8) -> State {
    let mut state = State::new();
    for i in 0..length {
        let metadata = RequestMetadata {
            request_root: test_hash(0x10 + i),
            block_hash: test_exec_hash(0xa1 + i),
            parent_hash: test_exec_hash(0xa0 + i),
            block_number: i as u64,
        };
        state.buffer_request(metadata);
        let proof = create_signed_proof_with_type(metadata.request_root, 0, 1);
        assert_eq!(state.insert_proof(proof).unwrap(), ProofStatus::Accepted);
    }
    assert_eq!(state.tree.proofs_by_block_hash.len(), 0);
    state
}

#[test]
fn first_update_starts_from_the_final_block() {
    let mut state = buffered_chain(2);
    // The second block is final: it is in the tree, and its parent is not.
    let finalized = test_exec_hash(0xa2);
    let fcs = create_forkchoice_state(test_exec_hash(0xa3), finalized, finalized);
    let response = state.forkchoice_updated(fcs).unwrap();
    assert_eq!(response.payload_status.status, PayloadStatusV1Status::Syncing);
    assert_eq!(response.payload_status.latest_valid_hash, None);
    assert!(response.payload_id.is_none());
    assert_eq!(state.last_valid_fcs, create_forkchoice_state(finalized, finalized, finalized));
    assert_eq!(state.latest_fcs, Some(fcs));
    assert_eq!(state.tree.proofs_by_block_hash.len(), 1);
    assert!(state.tree.proofs_by_block_hash.contains_key(&finalized));
    assert_eq!(state.tree.current_canonical_head, finalized);
    assert_eq!(state.buffer.proofs.len(), 1);
}

#[test]
fn first_update_takes_along_what_waited_for_the_final_block() {
    let mut state = buffered_chain(3);
    let finalized = test_exec_hash(0xa2);
    let fcs = create_forkchoice_state(finalized, finalized, finalized);
    let response = state.forkchoice_updated(fcs).unwrap();
    assert_eq!(response.payload_status.status, PayloadStatusV1Status::Syncing);
    assert_eq!(state.tree.proofs_by_block_hash.len(), 2);
    assert_eq!(state.tree.current_canonical_head, test_exec_hash(0xa3));
}

#[test]
fn stored_heights_ascend() {
    let mut state = State::new();
    let finalized = test_exec_hash(0xa1);
    state.forkchoice_updated(create_forkchoice_state(finalized, finalized, finalized)).unwrap();
    let add = |state: &mut State, block: u8, parent: u8, number: u64| {
        let root = test_hash(block);
        state.buffer_request(RequestMetadata {
            request_root: root,
            block_hash: test_exec_hash(block),
            parent_hash: test_exec_hash(parent),
            block_number: number,
        });
        state.insert_proof(create_signed_proof_with_type(root, 0, 1)).unwrap();
    };
    add(&mut state, 0xa1, 0xa0, 2);
    add(&mut state, 0xa4, 0xa1, 9);
    add(&mut state, 0xa2, 0xa1, 3);
    add(&mut state, 0xa3, 0xa2, 5);
    let stored = PersistedProofEngineState::from_state(&state);
    let heights: Vec<u64> =
        stored.tree.block_number_to_block_hash.iter().map(|m| m.block_number).collect();
    assert_eq!(heights, vec![2, 3, 5, 9]);
}

#[test]
fn only_the_final_block_and_children_of_the_tree_are_promotable() {
    let mut state = buffered_chain(3);
    let root = |i: u8| test_hash(0x10 + i);
    for i in 0..3 {
        assert!(!state.can_promote(&root(i)).unwrap());
    }
    let finalized = test_exec_hash(0xaa);
    state.forkchoice_updated(create_forkchoice_state(finalized, finalized, finalized)).unwrap();
    // A child of the head whose parent is not in the tree has to wait.
    let child = RequestMetadata {
        request_root: test_hash(0x30),
        block_hash: test_exec_hash(0xab),
        parent_hash: finalized,
        block_number: 8,
    };
    state.buffer_request(child);
    let proof = create_signed_proof_with_type(child.request_root, 0, 1);
    assert_eq!(state.insert_proof(proof).unwrap(), ProofStatus::Accepted);
    assert!(!state.can_promote(&child.request_root).unwrap());
    assert!(matches!(
        state.can_promote(&test_hash(0x77)),
        Err(ProofEngineStateError::BufferedRequestNotFound(_))
    ));
    // The final block is taken, and its child with it.
    let block = RequestMetadata {
        request_root: test_hash(0x31),
        block_hash: finalized,
        parent_hash: test_exec_hash(0xa9),
        block_number: 7,
    };
    state.buffer_request(block);
    let proof = create_signed_proof_with_type(block.request_root, 0, 1);
    assert_eq!(state.insert_proof(proof).unwrap(), ProofStatus::Valid);
    assert_eq!(state.tree.current_canonical_head, child.block_hash);
    assert_eq!(state.buffer.proofs.len(), 3);
}

/// The parent of the final block is pruned. When its payload comes again it is buffered, and cannot
/// move into the tree any more.
#[test]
fn pruned_parent_that_comes_again_stays_out_of_the_tree() {
    let fixture = TestStateFixtureBuilder::new().with_canonical_chain(4).build();
    let mut state = State::new();
    fixture.bootstrap_canonical(&mut state);
    let finalized = fixture.canonical_block_hash(2);
    let fcs = create_forkchoice_state(fixture.canonical_block_hash(3), finalized, finalized);
    state.forkchoice_updated(fcs).unwrap();
    assert!(!in_tree(&state, fixture.canonical(1)));
    fixture.insert_canonical(&mut state, Some(1));
    assert!(in_buffer(&state, fixture.canonical(1)));
    assert!(!state.can_promote(&fixture.canonical_request_root(1)).unwrap());
    // The next update is valid, and prunes it again.
    let head = fixture.canonical_block_hash(3);
    let response = state.forkchoice_updated(create_forkchoice_state(head, head, head)).unwrap();
    assert_eq!(response.payload_status.status, PayloadStatusV1Status::Valid);
    assert_eq!(state.buffer.proofs.len(), 0);
    assert_eq!(state.tree.proofs_by_block_hash.len(), 1);
}
