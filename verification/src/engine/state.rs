//! The state of the proof engine: a tree of payload requests that are connected to the
//! canonical chain, and a buffer of those that are not connected yet.

use crate::engine::errors::ProofEngineStateError;
use crate::engine::forkchoice::{ForkchoiceState, MissingProofInfo, MissingProofView};
use crate::engine::state_model::{
    add_to, descends, index_links, indexes, lemma_chain_next, lemma_missing_stops,
    lemma_promote_next, lemma_promoted_all, missing_info, missing_views, missing_within, parents,
    PayloadRequestView, RequestMetadata, StateView, TreeView,
};
use crate::engine::walk::{goes_on, lemma_circle, lemma_stopped, step};
use crate::execution_proof::{
    views, ProofStatus, ProofType, SignedExecutionProof, SignedExecutionProofView,
    MIN_REQUIRED_EXECUTION_PROOFS,
};
use crate::hash::{ExecutionBlockHash, Hash256};
use crate::table::{KeyedMap, KeyedSet};
use vstd::prelude::*;

verus! {

/// A payload request and its proofs.
#[derive(Debug)]
pub struct PayloadRequest {
    pub metadata: RequestMetadata,
    pub proofs: Vec<SignedExecutionProof>,
}

impl View for PayloadRequest {
    type V = PayloadRequestView;

    open spec fn view(&self) -> PayloadRequestView {
        PayloadRequestView { metadata: self.metadata, proofs: views(self.proofs@) }
    }
}

impl PayloadRequest {
    /// A request without proofs.
    pub fn new(metadata: RequestMetadata) -> (r: Self)
        ensures
            r@ == (PayloadRequestView { metadata, proofs: Seq::empty() }),
    {
        let r = PayloadRequest { metadata, proofs: Vec::new() };
        assert(r@.proofs =~= Seq::<SignedExecutionProofView>::empty());
        r
    }
}

impl PayloadRequest {
    /// The kinds of the proofs.
    pub fn proof_types(&self) -> (r: Vec<ProofType>)
        ensures
            r@ == self@.proofs.map_values(|p: SignedExecutionProofView| p.message.proof_type),
    {
        let mut r: Vec<ProofType> = Vec::new();
        let mut i: usize = 0;
        while i < self.proofs.len()
            invariant
                i <= self.proofs@.len(),
                r@.len() == i,
                forall|j: int| 0 <= j < i ==> r@[j] == self.proofs@[j]@.message.proof_type,
            decreases self.proofs@.len() - i,
        {
            r.push(self.proofs[i].proof_type());
            i = i + 1;
        }
        assert(r@ =~= self@.proofs.map_values(
            |p: SignedExecutionProofView| p.message.proof_type,
        ));
        r
    }
}

/// The requests that are not connected to the canonical chain yet, by their roots.
#[derive(Debug)]
pub struct RequestBuffer {
    pub proofs: KeyedMap<Hash256, PayloadRequest>,
}

impl Default for RequestBuffer {
    /// A buffer without requests.
    fn default() -> (r: Self)
        ensures
            r.proofs@ == Map::<Hash256, PayloadRequestView>::empty(),
    {
        RequestBuffer { proofs: KeyedMap::new() }
    }
}

impl RequestBuffer {
    /// Puts a request into the buffer, without proofs. A request that is there already stays as
    /// it is.
    pub fn insert(&mut self, request: RequestMetadata)
        ensures
            final(self).proofs@ == if old(self).proofs@.contains_key(request.request_root) {
                old(self).proofs@
            } else {
                old(self).proofs@.insert(
                    request.request_root,
                    PayloadRequestView { metadata: request, proofs: Seq::empty() },
                )
            },
    {
        if !self.proofs.contains_key(&request.request_root) {
            self.proofs.insert(request.request_root, PayloadRequest::new(request));
        }
    }
}

/// The requests that are connected to the canonical chain, and the indices over them.
#[derive(Debug)]
pub struct TreeState {
    /// Each block's request.
    pub proofs_by_block_hash: KeyedMap<ExecutionBlockHash, PayloadRequest>,
    /// The block of each request root.
    pub request_root_to_block_hash: KeyedMap<Hash256, ExecutionBlockHash>,
    /// The children that each block was seen to have.
    pub parent_to_children: KeyedMap<ExecutionBlockHash, KeyedSet<ExecutionBlockHash>>,
    /// The blocks at each height.
    pub block_number_to_block_hash: KeyedMap<u64, KeyedSet<ExecutionBlockHash>>,
    /// The canonical head.
    pub current_canonical_head: ExecutionBlockHash,
}

impl View for TreeState {
    type V = TreeView;

    open spec fn view(&self) -> TreeView {
        TreeView {
            blocks: self.proofs_by_block_hash@,
            roots: self.request_root_to_block_hash@,
            children: self.parent_to_children@,
            numbers: self.block_number_to_block_hash@,
            head: self.current_canonical_head,
        }
    }
}

impl Default for TreeState {
    /// A tree without blocks. Its head is the zero hash.
    fn default() -> (r: Self)
        ensures
            r@ == TreeView::empty(),
    {
        TreeState {
            proofs_by_block_hash: KeyedMap::new(),
            request_root_to_block_hash: KeyedMap::new(),
            parent_to_children: KeyedMap::new(),
            block_number_to_block_hash: KeyedMap::new(),
            current_canonical_head: ExecutionBlockHash::zero(),
        }
    }
}

impl TreeState {
    /// Whether the tree has no block.
    pub fn is_empty(&self) -> (r: bool)
        ensures
            r == (self@.blocks == Map::<ExecutionBlockHash, PayloadRequestView>::empty()),
    {
        self.proofs_by_block_hash.is_empty()
    }
}

/// The state of the proof engine.
#[derive(Debug)]
pub struct State {
    /// The fork choice state that was last seen but not judged yet.
    pub latest_fcs: Option<ForkchoiceState>,
    /// The fork choice state that was last found valid.
    pub last_valid_fcs: ForkchoiceState,
    /// The requests that are connected to the canonical chain.
    pub tree: TreeState,
    /// The requests that are not connected yet.
    pub buffer: RequestBuffer,
    /// How many proofs make a request promotable from the buffer to the tree.
    pub min_required_proofs: usize,
}

impl View for State {
    type V = StateView;

    open spec fn view(&self) -> StateView {
        StateView {
            latest_fcs: self.latest_fcs,
            last_valid_fcs: self.last_valid_fcs,
            tree: self.tree@,
            buffer: self.buffer.proofs@,
            min_required_proofs: self.min_required_proofs as nat,
        }
    }
}

impl Default for State {
    fn default() -> (r: Self)
        ensures
            r@ == StateView::initial(MIN_REQUIRED_EXECUTION_PROOFS as nat),
    {
        State::with_min_required_proofs(MIN_REQUIRED_EXECUTION_PROOFS)
    }
}

impl State {
    /// The state before anything was seen.
    pub fn new() -> (r: Self)
        ensures
            r@ == StateView::initial(MIN_REQUIRED_EXECUTION_PROOFS as nat),
    {
        State::default()
    }

    /// The state before anything was seen, with a threshold for promotion.
    pub fn with_min_required_proofs(min_required_proofs: usize) -> (r: Self)
        ensures
            r@ == StateView::initial(min_required_proofs as nat),
    {
        let zero = ExecutionBlockHash::zero();
        State {
            latest_fcs: None,
            last_valid_fcs: ForkchoiceState {
                head_block_hash: zero,
                safe_block_hash: zero,
                finalized_block_hash: zero,
            },
            tree: TreeState::default(),
            buffer: RequestBuffer::default(),
            min_required_proofs,
        }
    }

    /// Whether the request is in the tree or in the buffer.
    pub fn contains_request_root(&self, request_root: &Hash256) -> (r: bool)
        ensures
            r == self@.knows(*request_root),
    {
        self.tree.request_root_to_block_hash.contains_key(request_root)
            || self.buffer.proofs.contains_key(request_root)
    }

    /// Puts a request into the buffer. A request that is in the tree or in the buffer already
    /// stays where it is, with the proofs that it has.
    pub fn buffer_request(&mut self, request: RequestMetadata)
        ensures
            final(self)@ == old(self)@.buffered(request),
    {
        if self.tree.request_root_to_block_hash.contains_key(&request.request_root) {
            return;
        }
        if self.buffer.proofs.contains_key(&request.request_root) {
            return;
        }
        self.buffer.insert(request);
    }

    /// The proofs of a request, where there are any.
    pub fn get_proofs(&self, root: &Hash256) -> (r: Option<&[SignedExecutionProof]>)
        ensures
            match r {
                Some(proofs) => self@.proofs_of(*root) == Some(views(proofs@)),
                None => self@.proofs_of(*root) is None,
            },
    {
        let in_tree = match self.tree.request_root_to_block_hash.get(root) {
            Some(block_hash) => self.tree.proofs_by_block_hash.get(block_hash),
            None => None,
        };
        let held = match in_tree {
            Some(request) => Some(request),
            None => self.buffer.proofs.get(root),
        };
        match held {
            Some(request) => if request.proofs.len() == 0 {
                None
            } else {
                Some(request.proofs.as_slice())
            },
            None => None,
        }
    }

    /// The requests that lack proofs, from the head of the pending fork choice state down its
    /// ancestors, as far as they are buffered. Without a pending fork choice state there is
    /// nothing to report.
    pub fn missing_proofs(&self) -> (r: Vec<MissingProofInfo>)
        ensures
            self@.is_missing(missing_views(r@)),
            r@.len() > 0 ==> self@.latest_fcs is Some,
            self@.latest_fcs is Some ==> self@.buffer.dom().finite(),
    {
        let mut r: Vec<MissingProofInfo> = Vec::new();
        let fcs = match self.latest_fcs {
            Some(fcs) => fcs,
            None => {
                assert(missing_views(r@) =~= Seq::<MissingProofView>::empty());
                return r;
            },
        };
        let index = self.index_buffer();
        let mut remaining: usize = index.len();
        let mut current = fcs.head_block_hash;
        let ghost head = fcs.head_block_hash;
        let ghost n = remaining as nat;
        let ghost mut walked: nat = 0;
        let ghost links = index_links(self@.buffer, index@);
        assert(missing_views(r@) =~= Seq::<MissingProofView>::empty());
        while remaining > 0
            invariant
                indexes(self@.buffer, index@),
                links == index_links(self@.buffer, index@),
                n == index@.len(),
                walked + remaining == n,
                step(links, head, walked) == Some(current),
                missing_views(r@) == missing_within(self@, index@, head, walked),
            ensures
                missing_views(r@) == missing_within(self@, index@, head, n),
            decreases remaining,
        {
            let ghost before = r@;
            let request = match index.get(&current) {
                Some(root) => match self.buffer.proofs.get(root) {
                    Some(request) => request,
                    None => {
                        assert(false);
                        break;
                    },
                },
                None => {
                    proof {
                        lemma_missing_stops(self@, index@, head, walked, n);
                    }
                    break;
                },
            };
            if request.proofs.len() < self.min_required_proofs {
                let info = MissingProofInfo {
                    root: request.metadata.request_root,
                    existing_proof_types: request.proof_types(),
                    slot: 0,
                };
                r.push(info);
                proof {
                    assert(missing_views(r@) =~= missing_views(before).push(info@));
                    assert(info@ =~= missing_info(request@));
                }
            }
            current = request.metadata.parent_hash;
            proof {
                walked = walked + 1;
            }
            remaining = remaining - 1;
        }
        r
    }

    /// The root of a buffered request about each block.
    fn index_buffer(&self) -> (r: KeyedMap<ExecutionBlockHash, Hash256>)
        ensures
            indexes(self@.buffer, r@),
            self@.buffer.dom().finite(),
    {
        let keys = self.buffer.proofs.keys();
        let mut r: KeyedMap<ExecutionBlockHash, Hash256> = KeyedMap::new();
        let mut i: usize = 0;
        while i < keys.len()
            invariant
                i <= keys@.len(),
                keys@.to_set() == self@.buffer.dom(),
                forall|hash: ExecutionBlockHash| #[trigger]
                    r@.contains_key(hash) ==> self@.buffer.contains_key(r@[hash])
                        && self@.buffer[r@[hash]].metadata.block_hash == hash,
                forall|j: int|
                    0 <= j < i ==> r@.contains_key(
                        self@.buffer[#[trigger] keys@[j]].metadata.block_hash,
                    ),
            decreases keys@.len() - i,
        {
            let root = keys[i];
            assert(keys@.to_set().contains(root));
            if let Some(request) = self.buffer.proofs.get(&root) {
                r.insert(request.metadata.block_hash, root);
            }
            i = i + 1;
        }
        proof {
            vstd::seq_lib::seq_to_set_is_finite(keys@);
            assert forall|root: Hash256| #[trigger] self@.buffer.contains_key(
                root,
            ) implies r@.contains_key(self@.buffer[root].metadata.block_hash) by {
                assert(keys@.to_set().contains(root));
                let j = keys@.index_of(root);
                assert(keys@[j] == root);
            }
        }
        r
    }

    /// Adds a proof to the request that it is about. A buffered request that can be promoted
    /// thereupon is, with all that follows from it.
    pub fn insert_proof(&mut self, signed: SignedExecutionProof) -> (r: Result<
        ProofStatus,
        ProofEngineStateError,
    >)
        ensures
            old(self)@.inserts(signed@, final(self)@, r),
    {
        let ghost s0 = self@;
        let request_root = signed.request_root();
        let ghost added = signed@;
        let in_tree: Option<ExecutionBlockHash> = match self.tree.request_root_to_block_hash.get(
            &request_root,
        ) {
            Some(block_hash) => Some(*block_hash),
            None => None,
        };
        if let Some(block_hash) = in_tree {
            let mut request = match self.tree.proofs_by_block_hash.remove(&block_hash) {
                Some(request) => request,
                None => {
                    assert(self@ =~= s0);
                    return Err(
                        ProofEngineStateError::BlockHashNotFoundForRequestRoot {
                            request_root,
                            block_hash,
                        },
                    );
                },
            };
            let ghost held = request;
            request.proofs.push(signed);
            proof {
                assert(views(request.proofs@) =~= views(held.proofs@).push(added));
            }
            self.tree.proofs_by_block_hash.insert(block_hash, request);
            assert(self@.tree.blocks =~= s0.proof_in_tree(block_hash, added).tree.blocks);
            assert(self@ =~= s0.proof_in_tree(block_hash, added));
            return Ok(ProofStatus::Accepted);
        }
        let mut request = match self.buffer.proofs.remove(&request_root) {
            Some(request) => request,
            None => {
                assert(self@ =~= s0);
                return Err(ProofEngineStateError::ProofRequestRootNotSeen(request_root));
            },
        };
        let ghost held = request;
        request.proofs.push(signed);
        proof {
            assert(views(request.proofs@) =~= views(held.proofs@).push(added));
        }
        self.buffer.proofs.insert(request_root, request);
        proof {
            assert(self@.buffer =~= s0.proof_in_buffer(request_root, added).buffer);
            assert(self@ =~= s0.proof_in_buffer(request_root, added));
        }
        let promotable = match self.can_promote(&request_root) {
            Ok(promotable) => promotable,
            Err(e) => return Err(e),
        };
        if promotable {
            match self.promote_buffered_requests(request_root) {
                Ok(Some(_)) => return Ok(ProofStatus::Valid),
                Ok(None) => return Ok(ProofStatus::Accepted),
                Err(e) => return Err(e),
            }
        }
        Ok(ProofStatus::Accepted)
    }

    /// Whether a buffered request may move into the tree: it has enough proofs, and its parent
    /// is in the tree, or it is about the block that was last found final.
    pub fn can_promote(&self, request: &Hash256) -> (r: Result<bool, ProofEngineStateError>)
        ensures
            match r {
                Ok(yes) => self@.buffer.contains_key(*request) && yes == self@.can_promote(
                    *request,
                ),
                Err(e) => !self@.buffer.contains_key(*request) && e
                    == ProofEngineStateError::BufferedRequestNotFound(*request),
            },
    {
        let buffered = match self.buffer.proofs.get(request) {
            Some(buffered) => buffered,
            None => return Err(ProofEngineStateError::BufferedRequestNotFound(*request)),
        };
        if buffered.proofs.len() < self.min_required_proofs {
            return Ok(false);
        }
        if self.tree.proofs_by_block_hash.contains_key(&buffered.metadata.parent_hash) {
            return Ok(true);
        }
        Ok(buffered.metadata.block_hash == self.last_valid_fcs.finalized_block_hash)
    }

    /// Moves one request from the buffer into the tree. Says which block it is about, and
    /// whether that block is the head now.
    pub fn promote_buffered_request(&mut self, request_root: Hash256) -> (r: Result<
        (ExecutionBlockHash, bool),
        ProofEngineStateError,
    >)
        ensures
            match r {
                Ok((block_hash, updated_head)) => {
                    &&& old(self)@.buffer.contains_key(request_root)
                    &&& final(self)@ == old(self)@.promoted(request_root)
                    &&& block_hash == old(self)@.buffer[request_root].metadata.block_hash
                    &&& updated_head == (final(self)@.tree.head == block_hash)
                },
                Err(e) => {
                    &&& !old(self)@.buffer.contains_key(request_root)
                    &&& final(self)@ == old(self)@
                    &&& e == ProofEngineStateError::BufferedRequestNotFound(request_root)
                },
            },
    {
        let request = match self.buffer.proofs.remove(&request_root) {
            Some(request) => request,
            None => {
                assert(self@ =~= old(self)@);
                return Err(ProofEngineStateError::BufferedRequestNotFound(request_root));
            },
        };
        let block_hash = request.metadata.block_hash;
        let parent_hash = request.metadata.parent_hash;
        insert_into_set(
            &mut self.tree.block_number_to_block_hash,
            request.metadata.block_number,
            block_hash,
        );
        insert_into_set(&mut self.tree.parent_to_children, parent_hash, block_hash);
        self.tree.proofs_by_block_hash.insert(block_hash, request);
        self.tree.request_root_to_block_hash.insert(request_root, block_hash);
        if self.tree.current_canonical_head == parent_hash {
            self.tree.current_canonical_head = block_hash;
        }
        assert(self@ =~= old(self)@.promoted(request_root));
        Ok((block_hash, self.tree.current_canonical_head == block_hash))
    }

    /// The buffered children of a block that have enough proofs.
    fn promotable_children(&self, parent_hash: ExecutionBlockHash) -> (r: Vec<Hash256>)
        ensures
            r@.no_duplicates(),
            forall|root: Hash256| #[trigger]
                r@.contains(root) == (self@.buffer.contains_key(root) && self@.proven(root)
                    && self@.buffer[root].metadata.parent_hash == parent_hash),
    {
        let keys = self.buffer.proofs.keys();
        let mut r: Vec<Hash256> = Vec::new();
        let mut i: usize = 0;
        while i < keys.len()
            invariant
                i <= keys@.len(),
                keys@.no_duplicates(),
                keys@.to_set() == self@.buffer.dom(),
                r@.no_duplicates(),
                forall|root: Hash256| #[trigger]
                    r@.contains(root) == (keys@.take(i as int).contains(root) && self@.proven(root)
                        && self@.buffer[root].metadata.parent_hash == parent_hash),
            decreases keys@.len() - i,
        {
            let key = keys[i];
            assert(keys@.to_set().contains(key));
            let ghost before = r@;
            if let Some(buffered) = self.buffer.proofs.get(&key) {
                if buffered.metadata.parent_hash == parent_hash && buffered.proofs.len()
                    >= self.min_required_proofs {
                    r.push(key);
                }
            }
            proof {
                assert(!keys@.take(i as int).contains(key));
                assert(!before.contains(key));
                assert forall|a: int, b: int|
                    0 <= a < r@.len() && 0 <= b < r@.len() && a != b implies r@[a] != r@[b] by {
                    if a < before.len() {
                        assert(before.contains(before[a]));
                    }
                    if b < before.len() {
                        assert(before.contains(before[b]));
                    }
                }
                assert(keys@.take(i + 1) =~= keys@.take(i as int).push(key));
                assert forall|root: Hash256| #[trigger]
                    r@.contains(root) == (keys@.take(i + 1).contains(root) && self@.proven(root)
                        && self@.buffer[root].metadata.parent_hash == parent_hash) by {
                    if keys@.take(i as int).contains(root) {
                        let j = keys@.take(i as int).index_of(root);
                        assert(keys@.take(i + 1)[j] == root);
                    }
                    assert(keys@.take(i + 1)[i as int] == key);
                    if before.contains(root) {
                        let j = before.index_of(root);
                        assert(r@[j] == root);
                    }
                    if r@.contains(root) {
                        let j = r@.index_of(root);
                        if j < before.len() {
                            assert(before[j] == root);
                        }
                    }
                    if r@.len() > before.len() {
                        assert(r@[before.len() as int] == key);
                    }
                }
            }
            i = i + 1;
        }
        proof {
            assert(keys@.take(i as int) =~= keys@);
            assert forall|root: Hash256| #[trigger]
                r@.contains(root) == (self@.buffer.contains_key(root) && self@.proven(root)
                    && self@.buffer[root].metadata.parent_hash == parent_hash) by {
                assert(keys@.to_set().contains(root) == self@.buffer.dom().contains(root));
            }
        }
        r
    }

    /// Moves a request from the buffer into the tree, and then every buffered request that has
    /// enough proofs and whose parent has moved. Returns the head, where one of the moves left
    /// the head at the moved block.
    pub fn promote_buffered_requests(&mut self, request_root: Hash256) -> (r: Result<
        Option<ExecutionBlockHash>,
        ProofEngineStateError,
    >)
        ensures
            match r {
                Ok(head) => exists|order: Seq<Hash256>|
                    {
                        &&& #[trigger] old(self)@.is_cascade(request_root, order)
                        &&& final(self)@ == old(self)@.promoted_all(order)
                        &&& head == if old(self)@.updates_head(order) {
                            Some(final(self)@.tree.head)
                        } else {
                            None
                        }
                    },
                Err(e) => {
                    &&& !old(self)@.buffer.contains_key(request_root)
                    &&& final(self)@ == old(self)@
                    &&& e == ProofEngineStateError::BufferedRequestNotFound(request_root)
                },
            },
    {
        let ghost s0 = self@;
        let ghost mut order: Seq<Hash256> = Seq::empty();
        let buffered: usize = self.buffer.proofs.len();
        proof {
            lemma_promoted_all(s0, order);
            lemma_promote_next(s0, order, request_root);
        }
        let (first_hash, first_updated) = match self.promote_buffered_request(request_root) {
            Ok(promoted) => promoted,
            Err(e) => return Err(e),
        };
        proof {
            order = order.push(request_root);
            lemma_promoted_all(s0, order);
            assert(order.take(0) =~= Seq::<Hash256>::empty());
        }
        let mut latest_head: Option<ExecutionBlockHash> = if first_updated {
            Some(self.tree.current_canonical_head)
        } else {
            None
        };
        let mut queue: Vec<ExecutionBlockHash> = Vec::new();
        queue.push(first_hash);
        proof {
            assert(queue@[0] == first_hash);
            assert(queue@.contains(first_hash));
            assert(!s0.updates_head(Seq::empty()));
            assert(s0.is_chain(request_root, order));
            assert forall|root: Hash256| #[trigger] s0.due(order, root) && !order.contains(
                root,
            ) implies queue@.contains(s0.buffer[root].metadata.parent_hash) by {
                assert(!s0.follows(Seq::empty(), root));
            }
        }
        while queue.len() > 0
            invariant
                self@ == s0.promoted_all(order),
                self@.buffer == s0.buffer.remove_keys(order.to_set()),
                self@.min_required_proofs == s0.min_required_proofs,
                self@.buffer.dom().finite(),
                s0.is_chain(request_root, order),
                forall|root: Hash256| #[trigger]
                    s0.due(order, root) && !order.contains(root) ==> queue@.contains(
                        s0.buffer[root].metadata.parent_hash,
                    ),
                forall|k: int|
                    0 <= k < queue@.len() ==> lists_block(s0, order, #[trigger] queue@[k]),
                latest_head == if s0.updates_head(order) {
                    Some(self@.tree.head)
                } else {
                    None::<ExecutionBlockHash>
                },
            decreases 2 * self@.buffer.len() + queue@.len(),
        {
            let ghost queue0 = queue@;
            let ghost measure = 2 * self@.buffer.len() + queue@.len();
            let parent_hash = queue.pop().unwrap();
            let children = self.promotable_children(parent_hash);
            proof {
                assert(lists_block(s0, order, parent_hash)) by {
                    assert(queue0[queue0.len() - 1] == parent_hash);
                }
                assert forall|k: int| 0 <= k < children@.len() implies s0.buffer.contains_key(
                    #[trigger] children@[k],
                ) && s0.proven(children@[k]) && !order.contains(children@[k])
                    && s0.buffer[children@[k]].metadata.parent_hash == parent_hash by {
                    assert(children@.contains(children@[k]));
                }
                assert forall|root: Hash256| #[trigger] s0.due(order, root) && !order.contains(
                    root,
                ) implies queue@.contains(s0.buffer[root].metadata.parent_hash) || contains_from(
                    children@,
                    0,
                    root,
                ) by {
                    let parent = s0.buffer[root].metadata.parent_hash;
                    let j = queue0.index_of(parent);
                    assert(queue0[j] == parent);
                    if j < queue@.len() {
                        assert(queue@[j] == parent);
                    } else {
                        assert(children@.contains(root));
                    }
                }
            }
            let mut i: usize = 0;
            while i < children.len()
                invariant
                    i <= children@.len(),
                    children@.no_duplicates(),
                    self@ == s0.promoted_all(order),
                    self@.buffer == s0.buffer.remove_keys(order.to_set()),
                    self@.min_required_proofs == s0.min_required_proofs,
                    self@.buffer.dom().finite(),
                    s0.is_chain(request_root, order),
                    lists_block(s0, order, parent_hash),
                    forall|k: int|
                        i <= k < children@.len() ==> s0.buffer.contains_key(#[trigger] children@[k])
                            && s0.proven(children@[k]) && !order.contains(children@[k])
                            && s0.buffer[children@[k]].metadata.parent_hash == parent_hash,
                    forall|root: Hash256| #[trigger]
                        s0.due(order, root) && !order.contains(root) ==> queue@.contains(
                            s0.buffer[root].metadata.parent_hash,
                        ) || contains_from(children@, i as int, root),
                    forall|k: int|
                        0 <= k < queue@.len() ==> lists_block(s0, order, #[trigger] queue@[k]),
                    latest_head == if s0.updates_head(order) {
                        Some(self@.tree.head)
                    } else {
                        None::<ExecutionBlockHash>
                    },
                    2 * self@.buffer.len() + queue@.len() < measure,
                decreases children@.len() - i,
            {
                let child = children[i];
                let ghost before = self@;
                let ghost queue1 = queue@;
                let ghost order1 = order;
                proof {
                    lemma_promote_next(s0, order, child);
                    assert(s0.follows(order, child));
                    lemma_chain_next(s0, request_root, order, child);
                    assert(self@.buffer.contains_key(child));
                }
                let (block_hash, updated_head) = match self.promote_buffered_request(child) {
                    Ok(promoted) => promoted,
                    Err(e) => return Err(e),
                };
                if updated_head {
                    latest_head = Some(self.tree.current_canonical_head);
                }
                queue.push(block_hash);
                proof {
                    order = order.push(child);
                    lemma_promoted_all(s0, order);
                    assert(before.buffer[child] == s0.buffer[child]);
                    assert(queue@[queue1.len() as int] == block_hash);
                    assert forall|k: int|
                        i + 1 <= k < children@.len() implies s0.buffer.contains_key(
                        #[trigger] children@[k],
                    ) && s0.proven(children@[k]) && !order.contains(children@[k])
                        && s0.buffer[children@[k]].metadata.parent_hash == parent_hash by {
                        assert(children@[k] != children@[i as int]);
                    }
                    assert forall|root: Hash256| #[trigger] s0.due(order, root)
                        && !order.contains(root) implies queue@.contains(
                        s0.buffer[root].metadata.parent_hash,
                    ) || contains_from(children@, i + 1, root) by {
                        let parent = s0.buffer[root].metadata.parent_hash;
                        if s0.follows(order1, root) {
                            assert(s0.due(order1, root));
                            if queue1.contains(parent) {
                                let j = queue1.index_of(parent);
                                assert(queue@[j] == parent);
                            } else {
                                let k = choose|k: int|
                                    i <= k < children@.len() && #[trigger] children@[k] == root;
                                assert(k != i);
                                assert(children@[k] == root);
                            }
                        } else {
                            assert(queue@.contains(parent));
                        }
                    }
                    assert forall|k: int| 0 <= k < queue@.len() implies lists_block(
                        s0,
                        order,
                        #[trigger] queue@[k],
                    ) by {
                        if k < queue1.len() {
                            assert(queue@[k] == queue1[k]);
                            lemma_lists_block_next(s0, order1, child, queue1[k]);
                        } else {
                            assert(order[order1.len() as int] == child);
                        }
                    }
                    lemma_lists_block_next(s0, order1, child, parent_hash);
                }
                i = i + 1;
            }
        }
        proof {
            assert forall|root: Hash256| #[trigger] s0.due(order, root) implies order.contains(
                root,
            ) by {
                if !order.contains(root) {
                    let parent = s0.buffer[root].metadata.parent_hash;
                    assert(queue@.contains(parent));
                }
            }
            assert(s0.is_cascade(request_root, order));
        }
        Ok(latest_head)
    }

    /// Whether `target` is `ancestor`, or has it among its ancestors in the tree.
    pub fn is_descendant(&self, ancestor: ExecutionBlockHash, target: ExecutionBlockHash) -> (r:
        bool)
        ensures
            r == descends(self@.tree, ancestor, target),
    {
        let ghost links = parents(self@.tree.blocks);
        let mut current = target;
        let mut remaining: usize = self.tree.proofs_by_block_hash.len();
        proof {
            assert(links.dom() =~= self@.tree.blocks.dom());
        }
        let ghost n = remaining as nat;
        let ghost mut walked: nat = 0;
        loop
            invariant
                links == parents(self@.tree.blocks),
                links.dom() == self@.tree.blocks.dom(),
                links.dom().finite(),
                n == links.len(),
                walked + remaining == n,
                step(links, target, walked) == Some(current),
                forall|j: nat| j < walked ==> #[trigger] step(links, target, j) != Some(ancestor),
            decreases remaining,
        {
            if current == ancestor {
                return true;
            }
            match self.tree.proofs_by_block_hash.get(&current) {
                Some(request) => {
                    if remaining == 0 {
                        proof {
                            assert(goes_on(links, target, links.len()));
                            assert forall|k: nat| #[trigger] step(links, target, k) != Some(
                                ancestor,
                            ) by {
                                lemma_circle(links, target, k);
                            }
                        }
                        return false;
                    }
                    remaining = remaining - 1;
                    proof {
                        walked = walked + 1;
                    }
                    current = request.metadata.parent_hash;
                },
                None => {
                    proof {
                        assert forall|k: nat| #[trigger] step(links, target, k) != Some(
                            ancestor,
                        ) by {
                            if k > walked {
                                lemma_stopped(links, target, walked, k);
                            }
                        }
                    }
                    return false;
                },
            }
        }
    }

    /// The number of a block of the tree.
    pub fn block_number_for_hash(&self, block_hash: ExecutionBlockHash) -> (r: Option<u64>)
        ensures
            r == if self@.tree.blocks.contains_key(block_hash) {
                Some(self@.tree.blocks[block_hash].metadata.block_number)
            } else {
                None
            },
    {
        match self.tree.proofs_by_block_hash.get(&block_hash) {
            Some(request) => Some(request.metadata.block_number),
            None => None,
        }
    }
}

/// Whether one of the requests of `order` is about the block `hash`.
spec fn lists_block(s: StateView, order: Seq<Hash256>, hash: ExecutionBlockHash) -> bool {
    exists|j: int|
        0 <= j < order.len() && (#[trigger] s.buffer[order[j]]).metadata.block_hash == hash
}

proof fn lemma_lists_block_next(
    s: StateView,
    order: Seq<Hash256>,
    root: Hash256,
    hash: ExecutionBlockHash,
)
    requires
        lists_block(s, order, hash),
    ensures
        lists_block(s, order.push(root), hash),
{
    let j = choose|j: int|
        0 <= j < order.len() && (#[trigger] s.buffer[order[j]]).metadata.block_hash == hash;
    assert(order.push(root)[j] == order[j]);
}

/// Whether `items` holds `item` at index `from` or later.
spec fn contains_from<T>(items: Seq<T>, from: int, item: T) -> bool {
    exists|k: int| from <= k < items.len() && #[trigger] items[k] == item
}

/// Adds an item to the set of a key, which is made where there is none.
fn insert_into_set<K: crate::table::Key>(
    sets: &mut KeyedMap<K, KeyedSet<ExecutionBlockHash>>,
    key: K,
    item: ExecutionBlockHash,
)
    ensures
        final(sets)@ == add_to(old(sets)@, key, item),
{
    let mut set = match sets.remove(&key) {
        Some(set) => set,
        None => KeyedSet::new(),
    };
    set.insert(item);
    sets.insert(key, set);
    assert(sets@ =~= add_to(old(sets)@, key, item));
}

} // verus!
