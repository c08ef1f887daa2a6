//! The mathematical model of the engine's state: maps and sets, and the changes that each
//! operation makes to them.

use crate::engine::forkchoice::{
    anchored_at, ForkchoiceState, MissingProofInfo, MissingProofView,
};
use crate::engine::walk::{goes_on, lemma_stopped, reaches, step};
use crate::engine::errors::ProofEngineStateError;
use crate::execution_proof::{ProofStatus, SignedExecutionProofView};
use crate::hash::{ExecutionBlockHash, Hash256};
use vstd::prelude::*;

verus! {

/// What identifies a payload request.
#[derive(Debug, Clone, Copy, PartialEq)]
pub struct RequestMetadata {
    /// The tree hash root of the request.
    pub request_root: Hash256,
    /// The block that the request is about.
    pub block_hash: ExecutionBlockHash,
    /// The parent of that block.
    pub parent_hash: ExecutionBlockHash,
    /// The number of that block.
    pub block_number: u64,
}

impl Default for RequestMetadata {
    fn default() -> (r: Self)
        ensures
            r == (RequestMetadata {
                request_root: Hash256::spec_zero(),
                block_hash: ExecutionBlockHash::spec_zero(),
                parent_hash: ExecutionBlockHash::spec_zero(),
                block_number: 0,
            }),
    {
        RequestMetadata {
            request_root: Hash256::zero(),
            block_hash: ExecutionBlockHash::zero(),
            parent_hash: ExecutionBlockHash::zero(),
            block_number: 0,
        }
    }
}

/// A payload request and its proofs.
#[verifier::ext_equal]
pub struct PayloadRequestView {
    pub metadata: RequestMetadata,
    pub proofs: Seq<SignedExecutionProofView>,
}

/// The tree of requests that are connected to the canonical chain.
#[verifier::ext_equal]
pub struct TreeView {
    /// Each block's request.
    pub blocks: Map<ExecutionBlockHash, PayloadRequestView>,
    /// The block of each request root.
    pub roots: Map<Hash256, ExecutionBlockHash>,
    /// The children that each block was seen to have.
    pub children: Map<ExecutionBlockHash, Set<ExecutionBlockHash>>,
    /// The blocks at each height.
    pub numbers: Map<u64, Set<ExecutionBlockHash>>,
    /// The canonical head.
    pub head: ExecutionBlockHash,
}

/// The state of the engine.
#[verifier::ext_equal]
pub struct StateView {
    /// The fork choice state that was last seen but not judged yet.
    pub latest_fcs: Option<ForkchoiceState>,
    /// The fork choice state that was last found valid.
    pub last_valid_fcs: ForkchoiceState,
    /// The requests that are connected to the canonical chain.
    pub tree: TreeView,
    /// The requests that are not connected yet.
    pub buffer: Map<Hash256, PayloadRequestView>,
    /// How many proofs make a request promotable.
    pub min_required_proofs: nat,
}

/// Adds `item` to the set of `key`, which is empty where the map has none.
pub open spec fn add_to<K, T>(sets: Map<K, Set<T>>, key: K, item: T) -> Map<K, Set<T>> {
    sets.insert(
        key,
        (if sets.contains_key(key) {
            sets[key]
        } else {
            Set::empty()
        }).insert(item),
    )
}

/// Takes `item` out of the set of `key`, and the set out of the map once it is empty.
pub open spec fn take_from<K, T>(sets: Map<K, Set<T>>, key: K, item: T) -> Map<K, Set<T>> {
    if !sets.contains_key(key) {
        sets
    } else if sets[key].remove(item) == Set::<T>::empty() {
        sets.remove(key)
    } else {
        sets.insert(key, sets[key].remove(item))
    }
}

/// The link from each block of the tree to its parent.
pub open spec fn parents(blocks: Map<ExecutionBlockHash, PayloadRequestView>) -> Map<
    ExecutionBlockHash,
    ExecutionBlockHash,
> {
    blocks.map_values(|b: PayloadRequestView| b.metadata.parent_hash)
}

/// Whether `target` is `ancestor`, or has it among its ancestors in the tree.
pub open spec fn descends(
    tree: TreeView,
    ancestor: ExecutionBlockHash,
    target: ExecutionBlockHash,
) -> bool {
    reaches(parents(tree.blocks), target, ancestor)
}

impl TreeView {
    /// The tree without blocks, whose head is the zero hash.
    pub open spec fn empty() -> TreeView {
        TreeView {
            blocks: Map::empty(),
            roots: Map::empty(),
            children: Map::empty(),
            numbers: Map::empty(),
            head: ExecutionBlockHash::spec_zero(),
        }
    }
}

impl StateView {
    /// The state before anything was seen.
    pub open spec fn initial(min_required_proofs: nat) -> StateView {
        StateView {
            latest_fcs: None,
            last_valid_fcs: anchored_at(ExecutionBlockHash::spec_zero()),
            tree: TreeView::empty(),
            buffer: Map::empty(),
            min_required_proofs,
        }
    }

    /// Whether the request is in the tree or in the buffer.
    pub open spec fn knows(self, root: Hash256) -> bool {
        self.tree.roots.contains_key(root) || self.buffer.contains_key(root)
    }

    /// Whether a buffered request has enough proofs.
    pub open spec fn proven(self, root: Hash256) -> bool {
        self.buffer[root].proofs.len() >= self.min_required_proofs
    }

    /// Whether the tree can take a buffered request: its parent is there, or it is about the block
    /// that was last found final.
    pub open spec fn grounds(self, root: Hash256) -> bool {
        let meta = self.buffer[root].metadata;
        self.tree.blocks.contains_key(meta.parent_hash) || meta.block_hash
            == self.last_valid_fcs.finalized_block_hash
    }

    /// Whether a buffered request may move into the tree: it has enough proofs, and its parent
    /// is in the tree, or it is about the block that was last found final.
    pub open spec fn can_promote(self, root: Hash256) -> bool {
        self.proven(root) && self.grounds(root)
    }

    /// The state with `request` in the buffer, unless it is known already.
    pub open spec fn buffered(self, request: RequestMetadata) -> StateView {
        if self.knows(request.request_root) {
            self
        } else {
            StateView {
                buffer: self.buffer.insert(
                    request.request_root,
                    PayloadRequestView { metadata: request, proofs: Seq::empty() },
                ),
                ..self
            }
        }
    }

    /// The proofs of a request, where there are any: those in the tree come before those in the
    /// buffer.
    pub open spec fn proofs_of(self, root: Hash256) -> Option<Seq<SignedExecutionProofView>> {
        let held = if self.tree.roots.contains_key(root) && self.tree.blocks.contains_key(
            self.tree.roots[root],
        ) {
            self.tree.blocks[self.tree.roots[root]].proofs
        } else if self.buffer.contains_key(root) {
            self.buffer[root].proofs
        } else {
            Seq::empty()
        };
        if held.len() == 0 {
            None
        } else {
            Some(held)
        }
    }

    /// The state with a proof added to a block of the tree.
    pub open spec fn proof_in_tree(
        self,
        block_hash: ExecutionBlockHash,
        proof_: SignedExecutionProofView,
    ) -> StateView {
        let request = self.tree.blocks[block_hash];
        StateView {
            tree: TreeView {
                blocks: self.tree.blocks.insert(
                    block_hash,
                    PayloadRequestView { proofs: request.proofs.push(proof_), ..request },
                ),
                ..self.tree
            },
            ..self
        }
    }

    /// The state with a proof added to a buffered request.
    pub open spec fn proof_in_buffer(
        self,
        root: Hash256,
        proof_: SignedExecutionProofView,
    ) -> StateView {
        let request = self.buffer[root];
        StateView {
            buffer: self.buffer.insert(
                root,
                PayloadRequestView { proofs: request.proofs.push(proof_), ..request },
            ),
            ..self
        }
    }

    /// Whether the insertion of a proof leads to the state `after` and to `outcome`.
    ///
    /// A proof goes to the block of the tree that its request is about, else to the buffered
    /// request. A buffered request that can then be promoted is, with all that follows from it.
    /// A proof of an unknown request is refused.
    pub open spec fn inserts(
        self,
        proof_: SignedExecutionProofView,
        after: StateView,
        outcome: Result<ProofStatus, ProofEngineStateError>,
    ) -> bool {
        let root = proof_.request_root();
        if self.tree.roots.contains_key(root) {
            let block_hash = self.tree.roots[root];
            if self.tree.blocks.contains_key(block_hash) {
                after == self.proof_in_tree(block_hash, proof_) && outcome == Ok::<
                    ProofStatus,
                    ProofEngineStateError,
                >(ProofStatus::Accepted)
            } else {
                after == self && outcome == Err::<ProofStatus, ProofEngineStateError>(
                    ProofEngineStateError::BlockHashNotFoundForRequestRoot {
                        request_root: root,
                        block_hash,
                    },
                )
            }
        } else if self.buffer.contains_key(root) {
            let held = self.proof_in_buffer(root, proof_);
            if held.can_promote(root) {
                held.cascades(root, after, outcome)
            } else {
                after == held && outcome == Ok::<ProofStatus, ProofEngineStateError>(
                    ProofStatus::Accepted,
                )
            }
        } else {
            after == self && outcome == Err::<ProofStatus, ProofEngineStateError>(
                ProofEngineStateError::ProofRequestRootNotSeen(root),
            )
        }
    }

    /// Whether the promotion of `root`, with all that follows from it, leads to the state
    /// `after`. The outcome is valid where the head was left at a promoted block.
    pub open spec fn cascades(
        self,
        root: Hash256,
        after: StateView,
        outcome: Result<ProofStatus, ProofEngineStateError>,
    ) -> bool {
        exists|order: Seq<Hash256>|
            {
                &&& #[trigger] self.is_cascade(root, order)
                &&& after == self.promoted_all(order)
                &&& outcome == Ok::<ProofStatus, ProofEngineStateError>(
                    if self.updates_head(order) {
                        ProofStatus::Valid
                    } else {
                        ProofStatus::Accepted
                    },
                )
            }
    }

    /// The state after the buffered request `root` has moved into the tree. The head moves on to
    /// it where it is a child of the head.
    pub open spec fn promoted(self, root: Hash256) -> StateView {
        let request = self.buffer[root];
        let meta = request.metadata;
        StateView {
            tree: TreeView {
                blocks: self.tree.blocks.insert(meta.block_hash, request),
                roots: self.tree.roots.insert(root, meta.block_hash),
                children: add_to(self.tree.children, meta.parent_hash, meta.block_hash),
                numbers: add_to(self.tree.numbers, meta.block_number, meta.block_hash),
                head: if self.tree.head == meta.parent_hash {
                    meta.block_hash
                } else {
                    self.tree.head
                },
            },
            buffer: self.buffer.remove(root),
            ..self
        }
    }

    /// The state after the requests of `order` have moved into the tree one by one.
    pub open spec fn promoted_all(self, order: Seq<Hash256>) -> StateView
        decreases order.len(),
    {
        if order.len() == 0 {
            self
        } else {
            self.promoted_all(order.drop_last()).promoted(order.last())
        }
    }

    /// Whether the promotion at index `i` of `order` leaves the head at the promoted block.
    pub open spec fn heads_at(self, order: Seq<Hash256>, i: int) -> bool {
        self.promoted_all(order.take(i + 1)).tree.head == self.buffer[order[i]].metadata.block_hash
    }

    /// Whether some promotion of `order` leaves the head at the promoted block.
    pub open spec fn updates_head(self, order: Seq<Hash256>) -> bool {
        exists|i: int| 0 <= i < order.len() && #[trigger] self.heads_at(order, i)
    }

    /// Whether one of the requests of `order` is about the parent of the request `root`.
    pub open spec fn follows(self, order: Seq<Hash256>, root: Hash256) -> bool {
        exists|j: int|
            0 <= j < order.len() && (#[trigger] self.buffer[order[j]]).metadata.block_hash
                == self.buffer[root].metadata.parent_hash
    }

    /// Whether `order` lists promotions that follow from that of `first`: `first` itself, then
    /// buffered requests that have enough proofs, each after its parent and none twice.
    pub open spec fn is_chain(self, first: Hash256, order: Seq<Hash256>) -> bool {
        &&& order.len() > 0
        &&& order[0] == first
        &&& order.no_duplicates()
        &&& forall|i: int| 0 <= i < order.len() ==> self.buffer.contains_key(#[trigger] order[i])
        &&& forall|i: int|
            0 < i < order.len() ==> self.proven(#[trigger] order[i]) && self.follows(
                order.take(i),
                order[i],
            )
    }

    /// Whether a buffered request has enough proofs and a parent in `order`.
    pub open spec fn due(self, order: Seq<Hash256>, root: Hash256) -> bool {
        self.buffer.contains_key(root) && self.proven(root) && self.follows(order, root)
    }

    /// Whether `order` lists the promotions that follow from that of `first`, and all of them.
    pub open spec fn is_cascade(self, first: Hash256, order: Seq<Hash256>) -> bool {
        &&& self.is_chain(first, order)
        &&& forall|root: Hash256| #[trigger] self.due(order, root) ==> order.contains(root)
    }
}

/// Whether `index` gives, for every block that a buffered request is about, the root of one
/// such request. Where several requests are about one block, any of them may be given.
pub open spec fn indexes(
    buffer: Map<Hash256, PayloadRequestView>,
    index: Map<ExecutionBlockHash, Hash256>,
) -> bool {
    &&& forall|hash: ExecutionBlockHash| #[trigger]
        index.contains_key(hash) ==> buffer.contains_key(index[hash])
            && buffer[index[hash]].metadata.block_hash == hash
    &&& forall|root: Hash256| #[trigger]
        buffer.contains_key(root) ==> index.contains_key(buffer[root].metadata.block_hash)
}

/// The link from each indexed block to its parent.
pub open spec fn index_links(
    buffer: Map<Hash256, PayloadRequestView>,
    index: Map<ExecutionBlockHash, Hash256>,
) -> Map<ExecutionBlockHash, ExecutionBlockHash> {
    index.map_values(|root: Hash256| buffer[root].metadata.parent_hash)
}

/// The requests that lack proofs among those of the first `n` blocks of the walk from `start`
/// to its ancestors.
pub open spec fn missing_within(
    s: StateView,
    index: Map<ExecutionBlockHash, Hash256>,
    start: ExecutionBlockHash,
    n: nat,
) -> Seq<MissingProofView>
    decreases n,
{
    if n == 0 {
        Seq::empty()
    } else {
        let before = missing_within(s, index, start, (n - 1) as nat);
        match step(index_links(s.buffer, index), start, (n - 1) as nat) {
            Some(hash) => if index.contains_key(hash) && !s.proven(index[hash]) {
                before.push(missing_info(s.buffer[index[hash]]))
            } else {
                before
            },
            None => before,
        }
    }
}

/// What is reported of a request that lacks proofs.
pub open spec fn missing_info(request: PayloadRequestView) -> MissingProofView {
    MissingProofView {
        root: request.metadata.request_root,
        existing_proof_types: request.proofs.map_values(
            |p: SignedExecutionProofView| p.message.proof_type,
        ),
        slot: 0,
    }
}

/// What a sequence of reports holds.
pub open spec fn missing_views(infos: Seq<MissingProofInfo>) -> Seq<MissingProofView> {
    infos.map_values(|i: MissingProofInfo| i@)
}

impl StateView {
    /// Whether `result` lists the requests that lack proofs, from the head of the pending fork
    /// choice state down its ancestors, as far as they are buffered. Each buffered block is
    /// looked at once at most.
    pub open spec fn is_missing(self, result: Seq<MissingProofView>) -> bool {
        match self.latest_fcs {
            Some(fcs) => exists|index: Map<ExecutionBlockHash, Hash256>|
                #[trigger] indexes(self.buffer, index) && result == missing_within(
                    self,
                    index,
                    fcs.head_block_hash,
                    index.len(),
                ),
            None => result == Seq::<MissingProofView>::empty(),
        }
    }
}

/// Promotion takes exactly the promoted requests out of the buffer, and leaves what is neither
/// buffer nor tree alone.
pub proof fn lemma_promoted_all(s: StateView, order: Seq<Hash256>)
    ensures
        s.promoted_all(order).buffer == s.buffer.remove_keys(order.to_set()),
        s.promoted_all(order).latest_fcs == s.latest_fcs,
        s.promoted_all(order).last_valid_fcs == s.last_valid_fcs,
        s.promoted_all(order).min_required_proofs == s.min_required_proofs,
    decreases order.len(),
{
    if order.len() == 0 {
        assert(s.buffer =~= s.buffer.remove_keys(order.to_set()));
    } else {
        lemma_promoted_all(s, order.drop_last());
        assert forall|r: Hash256| order.contains(r) == (order.drop_last().contains(r) || r
            == order.last()) by {
            if order.contains(r) {
                let i = order.index_of(r);
                if i < order.len() - 1 {
                    assert(order.drop_last()[i] == r);
                }
            }
            if order.drop_last().contains(r) {
                let i = order.drop_last().index_of(r);
                assert(order[i] == r);
            }
        }
        assert(s.promoted_all(order).buffer =~= s.buffer.remove_keys(order.to_set()));
    }
}

/// What one more promotion adds to a list of promotions.
pub proof fn lemma_promote_next(s: StateView, order: Seq<Hash256>, root: Hash256)
    ensures
        s.promoted_all(order.push(root)) == s.promoted_all(order).promoted(root),
        s.updates_head(order.push(root)) == (s.updates_head(order) || s.promoted_all(
            order,
        ).promoted(root).tree.head == s.buffer[root].metadata.block_hash),
        forall|r: Hash256| #[trigger]
            s.follows(order.push(root), r) == (s.follows(order, r)
                || s.buffer[root].metadata.block_hash == s.buffer[r].metadata.parent_hash),
        forall|r: Hash256| #[trigger]
            order.push(root).contains(r) == (order.contains(r) || r == root),
        forall|i: int|
            0 <= i <= order.len() ==> #[trigger] order.push(root).take(i) == order.take(i),
{
    let next = order.push(root);
    assert(next.drop_last() =~= order);
    assert forall|i: int| 0 <= i <= order.len() implies #[trigger] next.take(i) == order.take(
        i,
    ) by {
        assert(next.take(i) =~= order.take(i));
    }
    assert(next.take(next.len() as int) =~= next);
    assert forall|i: int| 0 <= i < order.len() implies s.heads_at(next, i) == s.heads_at(
        order,
        i,
    ) by {
        assert(next.take(i + 1) =~= order.take(i + 1));
    }
    assert(s.heads_at(next, order.len() as int) == (s.promoted_all(order).promoted(root).tree.head
        == s.buffer[root].metadata.block_hash));
    if s.updates_head(order) {
        let i = choose|i: int| 0 <= i < order.len() && #[trigger] s.heads_at(order, i);
        assert(s.heads_at(next, i));
    }
    if s.updates_head(next) {
        let i = choose|i: int| 0 <= i < next.len() && #[trigger] s.heads_at(next, i);
        if i < order.len() {
            assert(s.heads_at(order, i));
        }
    }
    assert forall|r: Hash256| #[trigger] s.follows(next, r) == (s.follows(order, r)
        || s.buffer[root].metadata.block_hash == s.buffer[r].metadata.parent_hash) by {
        if s.follows(order, r) {
            let j = choose|j: int|
                0 <= j < order.len() && (#[trigger] s.buffer[order[j]]).metadata.block_hash
                    == s.buffer[r].metadata.parent_hash;
            assert(next[j] == order[j]);
        }
        if s.buffer[root].metadata.block_hash == s.buffer[r].metadata.parent_hash {
            assert(next[order.len() as int] == root);
        }
        if s.follows(next, r) {
            let j = choose|j: int|
                0 <= j < next.len() && (#[trigger] s.buffer[next[j]]).metadata.block_hash
                    == s.buffer[r].metadata.parent_hash;
            if j < order.len() {
                assert(next[j] == order[j]);
            }
        }
    }
    assert forall|r: Hash256| #[trigger] next.contains(r) == (order.contains(r) || r == root) by {
        if order.contains(r) {
            let i = order.index_of(r);
            assert(next[i] == r);
        }
        if r == root {
            assert(next[order.len() as int] == r);
        }
        if next.contains(r) {
            let i = next.index_of(r);
            if i < order.len() {
                assert(order[i] == r);
            }
        }
    }
}

/// A chain of promotions stays one when a due request is appended.
pub proof fn lemma_chain_next(s: StateView, first: Hash256, order: Seq<Hash256>, root: Hash256)
    requires
        s.is_chain(first, order),
        s.due(order, root),
        !order.contains(root),
    ensures
        s.is_chain(first, order.push(root)),
{
    let next = order.push(root);
    lemma_promote_next(s, order, root);
    assert forall|i: int, j: int| 0 <= i < next.len() && 0 <= j < next.len() && i != j implies next[i]
        != next[j] by {
        if i < order.len() {
            assert(order.contains(order[i]));
        }
        if j < order.len() {
            assert(order.contains(order[j]));
        }
    }
    assert forall|i: int| 0 < i < next.len() implies s.proven(#[trigger] next[i]) && s.follows(
        next.take(i),
        next[i],
    ) by {
        assert(next.take(i) == order.take(i));
        if i == order.len() {
            assert(order.take(i) =~= order);
        } else {
            assert(next[i] == order[i]);
        }
    }
}

/// Once a walk has left the index, longer walks report no more.
pub proof fn lemma_missing_stops(
    s: StateView,
    index: Map<ExecutionBlockHash, Hash256>,
    start: ExecutionBlockHash,
    j: nat,
    k: nat,
)
    requires
        j <= k,
        !goes_on(index_links(s.buffer, index), start, j),
    ensures
        missing_within(s, index, start, k) == missing_within(s, index, start, j),
    decreases k,
{
    if j < k {
        lemma_missing_stops(s, index, start, j, (k - 1) as nat);
        if j < k - 1 {
            lemma_stopped(index_links(s.buffer, index), start, j, (k - 1) as nat);
        }
    }
}

} // verus!
