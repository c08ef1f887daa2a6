//! The form in which the state of the engine is stored: maps and sets become lists.

use crate::engine::forkchoice::ForkchoiceState;
use crate::engine::prune_model::lists;
use crate::engine::state::{PayloadRequest, RequestBuffer, State, TreeState};
use crate::engine::state_model::{PayloadRequestView, RequestMetadata, StateView, TreeView};
use crate::execution_proof::{
    clone_proofs, views, SignedExecutionProof, MIN_REQUIRED_EXECUTION_PROOFS,
};
use crate::hash::{ExecutionBlockHash, Hash256};
use crate::table::KeyedSet;
use vstd::prelude::*;

verus! {

/// The version of the stored form.
pub const PROOF_ENGINE_STATE_VERSION: u64 = 1;

/// The key under which the one stored state is kept.
pub fn proof_engine_db_key() -> (r: Hash256)
    ensures
        r == Hash256::spec_zero(),
{
    Hash256::zero()
}

/// A stored payload request and its proofs.
#[derive(Debug, PartialEq)]
pub struct PersistedBlockProofs {
    pub block_hash: ExecutionBlockHash,
    pub request_root: Hash256,
    pub parent_hash: ExecutionBlockHash,
    pub block_number: u64,
    pub proofs: Vec<SignedExecutionProof>,
}

/// The request that a stored form stands for.
impl View for PersistedBlockProofs {
    type V = PayloadRequestView;

    open spec fn view(&self) -> PayloadRequestView {
        PayloadRequestView {
            metadata: RequestMetadata {
                request_root: self.request_root,
                block_hash: self.block_hash,
                parent_hash: self.parent_hash,
                block_number: self.block_number,
            },
            proofs: views(self.proofs@),
        }
    }
}

/// A stored link from a request root to its block.
#[derive(Debug, Clone, Copy, PartialEq)]
pub struct RequestRootMapping {
    pub request_root: Hash256,
    pub block_hash: ExecutionBlockHash,
}

/// The stored children of a block.
#[derive(Debug, Clone, PartialEq)]
pub struct PersistedParentChildren {
    pub parent: ExecutionBlockHash,
    pub children: Vec<ExecutionBlockHash>,
}

/// The stored blocks at a height.
#[derive(Debug, Clone, PartialEq)]
pub struct PersistedBlockNumberMapping {
    pub block_number: u64,
    pub block_hashes: Vec<ExecutionBlockHash>,
}

/// The stored tree.
#[derive(Debug, PartialEq)]
pub struct PersistedTreeState {
    pub proofs_by_block_hash: Vec<PersistedBlockProofs>,
    pub request_root_to_block_hash: Vec<RequestRootMapping>,
    pub parent_to_children: Vec<PersistedParentChildren>,
    pub block_number_to_block_hash: Vec<PersistedBlockNumberMapping>,
    pub current_canonical_head: ExecutionBlockHash,
}

/// The stored buffer.
#[derive(Debug, PartialEq)]
pub struct PersistedRequestBuffer {
    pub requests: Vec<PersistedBlockProofs>,
}

/// The stored state.
#[derive(Debug, PartialEq)]
pub struct PersistedProofEngineState {
    pub version: u64,
    pub last_valid_fcs: ForkchoiceState,
    pub latest_fcs: Option<ForkchoiceState>,
    pub tree: PersistedTreeState,
    pub buffer: PersistedRequestBuffer,
}

/// The map that a list of pairs makes, where a later pair overrides an earlier one of the same
/// key.
pub open spec fn collected<K, V>(pairs: Seq<(K, V)>) -> Map<K, V>
    decreases pairs.len(),
{
    if pairs.len() == 0 {
        Map::empty()
    } else {
        collected(pairs.drop_last()).insert(pairs.last().0, pairs.last().1)
    }
}

/// A list of pairs with distinct keys makes the map of exactly these pairs.
pub proof fn lemma_collected<K, V>(pairs: Seq<(K, V)>)
    requires
        forall|i: int, j: int|
            0 <= i < pairs.len() && 0 <= j < pairs.len() && i != j ==> (#[trigger] pairs[i]).0 != (
            #[trigger] pairs[j]).0,
    ensures
        forall|i: int|
            0 <= i < pairs.len() ==> collected(pairs).contains_key((#[trigger] pairs[i]).0)
                && collected(pairs)[pairs[i].0] == pairs[i].1,
        forall|k: K| #[trigger]
            collected(pairs).contains_key(k) ==> exists|i: int|
                0 <= i < pairs.len() && (#[trigger] pairs[i]).0 == k,
    decreases pairs.len(),
{
    if pairs.len() > 0 {
        let init = pairs.drop_last();
        lemma_collected(init);
        assert forall|i: int| 0 <= i < pairs.len() implies collected(pairs).contains_key(
            (#[trigger] pairs[i]).0,
        ) && collected(pairs)[pairs[i].0] == pairs[i].1 by {
            if i < init.len() {
                assert(init[i] == pairs[i]);
                assert(pairs[i].0 != pairs[pairs.len() - 1].0);
            }
        }
        assert forall|k: K| #[trigger] collected(pairs).contains_key(k) implies exists|i: int|
            0 <= i < pairs.len() && (#[trigger] pairs[i]).0 == k by {
            if k != pairs.last().0 {
                assert(collected(init).contains_key(k));
                let i = choose|i: int| 0 <= i < init.len() && (#[trigger] init[i]).0 == k;
                assert(pairs[i].0 == k);
            } else {
                assert(pairs[pairs.len() - 1].0 == k);
            }
        }
    }
}

/// Stored requests as pairs of block and request.
pub open spec fn by_block(stored: Seq<PersistedBlockProofs>) -> Seq<
    (ExecutionBlockHash, PayloadRequestView),
> {
    stored.map_values(|p: PersistedBlockProofs| (p.block_hash, p@))
}

/// Stored requests as pairs of root and request.
pub open spec fn by_root(stored: Seq<PersistedBlockProofs>) -> Seq<(Hash256, PayloadRequestView)> {
    stored.map_values(|p: PersistedBlockProofs| (p.request_root, p@))
}

/// Stored root links as pairs.
pub open spec fn root_pairs(stored: Seq<RequestRootMapping>) -> Seq<(Hash256, ExecutionBlockHash)> {
    stored.map_values(|m: RequestRootMapping| (m.request_root, m.block_hash))
}

/// Stored children as pairs of block and set.
pub open spec fn child_pairs(stored: Seq<PersistedParentChildren>) -> Seq<
    (ExecutionBlockHash, Set<ExecutionBlockHash>),
> {
    stored.map_values(|p: PersistedParentChildren| (p.parent, p.children@.to_set()))
}

/// Stored heights as pairs of height and set.
pub open spec fn number_pairs(stored: Seq<PersistedBlockNumberMapping>) -> Seq<
    (u64, Set<ExecutionBlockHash>),
> {
    stored.map_values(|m: PersistedBlockNumberMapping| (m.block_number, m.block_hashes@.to_set()))
}

/// Whether `pairs` lists the entries of `map`, each once.
pub open spec fn lists_entries<K, V>(pairs: Seq<(K, V)>, map: Map<K, V>) -> bool {
    &&& forall|i: int, j: int|
        0 <= i < pairs.len() && 0 <= j < pairs.len() && i != j ==> (#[trigger] pairs[i]).0 != (
        #[trigger] pairs[j]).0
    &&& forall|i: int|
        0 <= i < pairs.len() ==> map.contains_key((#[trigger] pairs[i]).0) && map[pairs[i].0]
            == pairs[i].1
    &&& forall|k: K| #[trigger]
        map.contains_key(k) ==> exists|i: int| 0 <= i < pairs.len() && (#[trigger] pairs[i]).0 == k
}

/// A list of the entries of a map makes that map again.
pub proof fn lemma_lists_entries<K, V>(pairs: Seq<(K, V)>, map: Map<K, V>)
    requires
        lists_entries(pairs, map),
    ensures
        collected(pairs) == map,
{
    lemma_collected(pairs);
    assert(collected(pairs) =~= map);
}

/// Pairs taken along a list of the keys list the entries.
proof fn lemma_lists_by_keys<K, V>(order: Seq<K>, pairs: Seq<(K, V)>, map: Map<K, V>)
    requires
        lists(order, map.dom()),
        pairs.len() == order.len(),
        forall|i: int| 0 <= i < order.len() ==> #[trigger] pairs[i] == (order[i], map[order[i]]),
    ensures
        lists_entries(pairs, map),
{
    assert forall|i: int| 0 <= i < pairs.len() implies map.contains_key((#[trigger] pairs[i]).0)
        && map[pairs[i].0] == pairs[i].1 by {
        assert(order.to_set().contains(order[i]));
    }
    assert forall|k: K| #[trigger] map.contains_key(k) implies exists|i: int|
        0 <= i < pairs.len() && (#[trigger] pairs[i]).0 == k by {
        assert(order.to_set().contains(k));
        let i = order.index_of(k);
        assert(pairs[i].0 == k);
    }
    assert forall|i: int, j: int|
        0 <= i < pairs.len() && 0 <= j < pairs.len() && i != j implies (#[trigger] pairs[i]).0 != (
    #[trigger] pairs[j]).0 by {
        assert(order[i] != order[j]);
    }
}

/// The request `r`, said to be about the block `hash`.
pub open spec fn about_block(hash: ExecutionBlockHash, r: PayloadRequestView) -> PayloadRequestView {
    PayloadRequestView {
        metadata: RequestMetadata { block_hash: hash, ..r.metadata },
        proofs: r.proofs,
    }
}

impl PersistedTreeState {
    /// The tree that the stored form stands for.
    pub open spec fn tree(self) -> TreeView {
        TreeView {
            blocks: collected(by_block(self.proofs_by_block_hash@)),
            roots: collected(root_pairs(self.request_root_to_block_hash@)),
            children: collected(child_pairs(self.parent_to_children@)),
            numbers: collected(number_pairs(self.block_number_to_block_hash@)),
            head: self.current_canonical_head,
        }
    }

    /// Whether the stored form lists what the tree holds, each entry once, and heights from the
    /// lowest up. A request is stored as being about the block that the tree holds it for.
    pub open spec fn stores(self, tree: TreeView) -> bool {
        &&& lists_entries(
            by_block(self.proofs_by_block_hash@),
            tree.blocks.map_entries(
                |hash: ExecutionBlockHash, r: PayloadRequestView| about_block(hash, r),
            ),
        )
        &&& lists_entries(root_pairs(self.request_root_to_block_hash@), tree.roots)
        &&& lists_entries(child_pairs(self.parent_to_children@), tree.children)
        &&& lists_entries(number_pairs(self.block_number_to_block_hash@), tree.numbers)
        &&& forall|i: int|
            0 <= i < self.parent_to_children@.len() ==> (#[trigger] self.parent_to_children@[i])
                .children@.no_duplicates()
        &&& forall|i: int|
            0 <= i < self.block_number_to_block_hash@.len() ==> (
            #[trigger] self.block_number_to_block_hash@[i]).block_hashes@.no_duplicates()
        &&& forall|i: int, j: int|
            0 <= i < j < self.block_number_to_block_hash@.len()
                ==> self.block_number_to_block_hash@[i].block_number
                < self.block_number_to_block_hash@[j].block_number
        &&& self.current_canonical_head == tree.head
    }
}

impl PersistedRequestBuffer {
    /// Whether the stored form lists the requests that the buffer holds, each once.
    pub open spec fn stores(self, buffer: Map<Hash256, PayloadRequestView>) -> bool {
        exists|order: Seq<Hash256>|
            {
                &&& #[trigger] lists(order, buffer.dom())
                &&& self.requests@.len() == order.len()
                &&& forall|i: int|
                    0 <= i < order.len() ==> (#[trigger] self.requests@[i])@ == buffer[order[i]]
            }
    }
}

impl PersistedProofEngineState {
    /// Whether the stored form holds all of the state but its threshold.
    pub open spec fn stores(self, s: StateView) -> bool {
        &&& self.version == PROOF_ENGINE_STATE_VERSION
        &&& self.last_valid_fcs == s.last_valid_fcs
        &&& self.latest_fcs == s.latest_fcs
        &&& self.tree.stores(s.tree)
        &&& self.buffer.stores(s.buffer)
    }

    /// The state that the stored form stands for. Its threshold is the default one.
    pub open spec fn state(self) -> StateView {
        StateView {
            latest_fcs: self.latest_fcs,
            last_valid_fcs: self.last_valid_fcs,
            tree: self.tree.tree(),
            buffer: collected(by_root(self.buffer.requests@)),
            min_required_proofs: MIN_REQUIRED_EXECUTION_PROOFS as nat,
        }
    }
}

/// Whether every request stands under its own block in the tree, and under its own root in the
/// buffer.
pub open spec fn well_keyed(s: StateView) -> bool {
    &&& forall|hash: ExecutionBlockHash| #[trigger]
        s.tree.blocks.contains_key(hash) ==> s.tree.blocks[hash].metadata.block_hash == hash
    &&& forall|root: Hash256| #[trigger]
        s.buffer.contains_key(root) ==> s.buffer[root].metadata.request_root == root
}

/// A state that was stored and restored is the state that it was, with the default threshold.
pub proof fn law_store_restore(s: StateView, stored: PersistedProofEngineState)
    requires
        well_keyed(s),
        stored.stores(s),
    ensures
        stored.state() == (StateView {
            min_required_proofs: MIN_REQUIRED_EXECUTION_PROOFS as nat,
            ..s
        }),
{
    let t = stored.tree;
    let keyed = s.tree.blocks.map_entries(
        |hash: ExecutionBlockHash, r: PayloadRequestView| about_block(hash, r),
    );
    lemma_lists_entries(by_block(t.proofs_by_block_hash@), keyed);
    assert(keyed =~= s.tree.blocks);
    lemma_lists_entries(root_pairs(t.request_root_to_block_hash@), s.tree.roots);
    lemma_lists_entries(child_pairs(t.parent_to_children@), s.tree.children);
    lemma_lists_entries(number_pairs(t.block_number_to_block_hash@), s.tree.numbers);
    let requests = stored.buffer.requests@;
    let pairs = by_root(requests);
    let order = choose|order: Seq<Hash256>|
        {
            &&& #[trigger] lists(order, s.buffer.dom())
            &&& requests.len() == order.len()
            &&& forall|i: int|
                0 <= i < order.len() ==> (#[trigger] requests[i])@ == s.buffer[order[i]]
        };
    assert forall|i: int| 0 <= i < order.len() implies #[trigger] pairs[i] == (
        order[i],
        s.buffer[order[i]],
    ) by {
        assert(order.to_set().contains(order[i]));
        assert(s.buffer.contains_key(order[i]));
        assert(requests[i]@ == s.buffer[order[i]]);
    }
    lemma_lists_by_keys(order, pairs, s.buffer);
    lemma_lists_entries(pairs, s.buffer);
}

/// The stored form of a request, said to be about a block.
fn store_request(block_hash: ExecutionBlockHash, request: &PayloadRequest) -> (r: PersistedBlockProofs)
    ensures
        r@ == about_block(block_hash, request@),
        r.block_hash == block_hash,
{
    PersistedBlockProofs {
        block_hash,
        request_root: request.metadata.request_root,
        parent_hash: request.metadata.parent_hash,
        block_number: request.metadata.block_number,
        proofs: clone_proofs(&request.proofs),
    }
}

/// The request that a stored form stands for.
fn restore_request(stored: &PersistedBlockProofs) -> (r: PayloadRequest)
    ensures
        r@ == stored@,
{
    PayloadRequest {
        metadata: RequestMetadata {
            request_root: stored.request_root,
            block_hash: stored.block_hash,
            parent_hash: stored.parent_hash,
            block_number: stored.block_number,
        },
        proofs: clone_proofs(&stored.proofs),
    }
}

/// The set of the items of a list.
fn restore_set(items: &Vec<ExecutionBlockHash>) -> (r: KeyedSet<ExecutionBlockHash>)
    ensures
        r@ == items@.to_set(),
{
    let mut r: KeyedSet<ExecutionBlockHash> = KeyedSet::new();
    let mut i: usize = 0;
    assert(items@.take(0).to_set() =~= Set::<ExecutionBlockHash>::empty());
    while i < items.len()
        invariant
            i <= items@.len(),
            r@ == items@.take(i as int).to_set(),
        decreases items@.len() - i,
    {
        r.insert(items[i]);
        proof {
            assert(items@.take(i + 1) =~= items@.take(i as int).push(items@[i as int]));
            items@.take(i as int).lemma_push_to_set_commute(items@[i as int]);
        }
        i = i + 1;
    }
    assert(items@.take(i as int) =~= items@);
    r
}

/// One more pair, as the collected map sees it.
proof fn lemma_collect_next<K, V>(pairs: Seq<(K, V)>, i: int)
    requires
        0 <= i < pairs.len(),
    ensures
        collected(pairs.take(i + 1)) == collected(pairs.take(i)).insert(pairs[i].0, pairs[i].1),
{
    assert(pairs.take(i + 1).drop_last() =~= pairs.take(i));
}

/// One more height, put where it belongs.
proof fn lemma_height_inserted(heights: Seq<u64>, n: int, before: Seq<u64>, i: int)
    requires
        0 <= n < heights.len(),
        heights.no_duplicates(),
        forall|a: int, b: int| 0 <= a < b < before.len() ==> before[a] < before[b],
        before.to_set() == heights.take(n).to_set(),
        0 <= i <= before.len(),
        forall|j: int| 0 <= j < i ==> before[j] < heights[n],
        i < before.len() ==> before[i] >= heights[n],
    ensures
        forall|a: int, b: int|
            0 <= a < b < before.insert(i, heights[n]).len() ==> before.insert(i, heights[n])[a]
                < before.insert(i, heights[n])[b],
        before.insert(i, heights[n]).to_set() == heights.take(n + 1).to_set(),
{
    let height = heights[n];
    let after = before.insert(i, height);
    assert(!before.contains(height)) by {
        if before.contains(height) {
            assert(before.to_set().contains(height));
            assert(heights.take(n).contains(height));
            let j = heights.take(n).index_of(height);
            assert(heights[j] == heights[n]);
        }
    }
    if i < before.len() {
        assert(before.contains(before[i]));
    }
    assert(heights.take(n + 1) =~= heights.take(n).push(height));
    heights.take(n).lemma_push_to_set_commute(height);
    assert forall|k: u64| after.to_set().contains(k) == before.to_set().insert(height).contains(
        k,
    ) by {
        if after.contains(k) {
            let a = after.index_of(k);
            if a != i {
                let b = if a < i { a } else { a - 1 };
                assert(before[b] == k);
            }
        }
        if k == height {
            assert(after[i] == k);
        } else if before.contains(k) {
            let a = before.index_of(k);
            let b = if a < i { a } else { a + 1 };
            assert(after[b] == k);
        }
    }
    assert(after.to_set() =~= heights.take(n + 1).to_set());
}

/// The heights from the lowest up.
fn sort_heights(heights: Vec<u64>) -> (r: Vec<u64>)
    requires
        heights@.no_duplicates(),
    ensures
        forall|i: int, j: int| 0 <= i < j < r@.len() ==> r@[i] < r@[j],
        lists(r@, heights@.to_set()),
{
    let mut sorted: Vec<u64> = Vec::new();
    let mut n: usize = 0;
    assert(heights@.take(0).to_set() =~= sorted@.to_set());
    while n < heights.len()
        invariant
            n <= heights@.len(),
            heights@.no_duplicates(),
            forall|i: int, j: int| 0 <= i < j < sorted@.len() ==> sorted@[i] < sorted@[j],
            sorted@.to_set() == heights@.take(n as int).to_set(),
        decreases heights@.len() - n,
    {
        let height: u64 = heights[n];
        let mut i: usize = 0;
        while i < sorted.len() && sorted[i] < height
            invariant
                i <= sorted@.len(),
                forall|j: int| 0 <= j < i ==> sorted@[j] < height,
            decreases sorted@.len() - i,
        {
            i = i + 1;
        }
        let ghost before = sorted@;
        sorted.insert(i, height);
        proof {
            lemma_height_inserted(heights@, n as int, before, i as int);
        }
        n = n + 1;
    }
    assert(heights@.take(n as int) =~= heights@);
    sorted
}

impl PersistedTreeState {
    /// The stored form of a tree.
    pub fn from_tree(tree: &TreeState) -> (r: Self)
        ensures
            r.stores(tree@),
    {
        let block_keys = tree.proofs_by_block_hash.keys();
        let mut proofs_by_block_hash: Vec<PersistedBlockProofs> = Vec::new();
        let mut i: usize = 0;
        while i < block_keys.len()
            invariant
                i <= block_keys@.len(),
                lists(block_keys@, tree@.blocks.dom()),
                proofs_by_block_hash@.len() == i,
                forall|j: int|
                    0 <= j < i ==> (#[trigger] proofs_by_block_hash@[j])@ == about_block(
                        block_keys@[j],
                        tree@.blocks[block_keys@[j]],
                    ) && proofs_by_block_hash@[j].block_hash == block_keys@[j],
            decreases block_keys@.len() - i,
        {
            let key = block_keys[i];
            assert(block_keys@.to_set().contains(key));
            if let Some(request) = tree.proofs_by_block_hash.get(&key) {
                proofs_by_block_hash.push(store_request(key, request));
            }
            i = i + 1;
        }
        let root_keys = tree.request_root_to_block_hash.keys();
        let mut request_root_to_block_hash: Vec<RequestRootMapping> = Vec::new();
        i = 0;
        while i < root_keys.len()
            invariant
                i <= root_keys@.len(),
                lists(root_keys@, tree@.roots.dom()),
                request_root_to_block_hash@.len() == i,
                forall|j: int|
                    0 <= j < i ==> #[trigger] request_root_to_block_hash@[j] == (
                    RequestRootMapping {
                        request_root: root_keys@[j],
                        block_hash: tree@.roots[root_keys@[j]],
                    }),
            decreases root_keys@.len() - i,
        {
            let key = root_keys[i];
            assert(root_keys@.to_set().contains(key));
            if let Some(hash) = tree.request_root_to_block_hash.get(&key) {
                request_root_to_block_hash.push(
                    RequestRootMapping { request_root: key, block_hash: *hash },
                );
            }
            i = i + 1;
        }
        let parent_keys = tree.parent_to_children.keys();
        let mut parent_to_children: Vec<PersistedParentChildren> = Vec::new();
        i = 0;
        while i < parent_keys.len()
            invariant
                i <= parent_keys@.len(),
                lists(parent_keys@, tree@.children.dom()),
                parent_to_children@.len() == i,
                forall|j: int|
                    0 <= j < i ==> (#[trigger] parent_to_children@[j]).parent == parent_keys@[j]
                        && lists(parent_to_children@[j].children@, tree@.children[parent_keys@[j]]),
            decreases parent_keys@.len() - i,
        {
            let key = parent_keys[i];
            assert(parent_keys@.to_set().contains(key));
            if let Some(children) = tree.parent_to_children.get(&key) {
                parent_to_children.push(
                    PersistedParentChildren { parent: key, children: children.items() },
                );
            }
            i = i + 1;
        }
        let number_keys = sort_heights(tree.block_number_to_block_hash.keys());
        let mut block_number_to_block_hash: Vec<PersistedBlockNumberMapping> = Vec::new();
        i = 0;
        while i < number_keys.len()
            invariant
                i <= number_keys@.len(),
                lists(number_keys@, tree@.numbers.dom()),
                forall|a: int, b: int|
                    0 <= a < b < number_keys@.len() ==> number_keys@[a] < number_keys@[b],
                block_number_to_block_hash@.len() == i,
                forall|j: int|
                    0 <= j < i ==> (#[trigger] block_number_to_block_hash@[j]).block_number
                        == number_keys@[j] && lists(
                        block_number_to_block_hash@[j].block_hashes@,
                        tree@.numbers[number_keys@[j]],
                    ),
            decreases number_keys@.len() - i,
        {
            let key: u64 = number_keys[i];
            assert(number_keys@.to_set().contains(key));
            if let Some(hashes) = tree.block_number_to_block_hash.get(&key) {
                block_number_to_block_hash.push(
                    PersistedBlockNumberMapping { block_number: key, block_hashes: hashes.items() },
                );
            }
            i = i + 1;
        }
        let r = PersistedTreeState {
            proofs_by_block_hash,
            request_root_to_block_hash,
            parent_to_children,
            block_number_to_block_hash,
            current_canonical_head: tree.current_canonical_head,
        };
        proof {
            let keyed = tree@.blocks.map_entries(
                |hash: ExecutionBlockHash, r: PayloadRequestView| about_block(hash, r),
            );
            assert(keyed.dom() =~= tree@.blocks.dom());
            let pairs = by_block(r.proofs_by_block_hash@);
            assert forall|j: int| 0 <= j < block_keys@.len() implies #[trigger] pairs[j] == (
                block_keys@[j],
                keyed[block_keys@[j]],
            ) by {
                assert(block_keys@.to_set().contains(block_keys@[j]));
                assert(r.proofs_by_block_hash@[j].block_hash == block_keys@[j]);
            }
            lemma_lists_by_keys(block_keys@, pairs, keyed);
            lemma_lists_by_keys(
                root_keys@,
                root_pairs(r.request_root_to_block_hash@),
                tree@.roots,
            );
            let kids = child_pairs(r.parent_to_children@);
            assert forall|j: int| 0 <= j < parent_keys@.len() implies #[trigger] kids[j] == (
                parent_keys@[j],
                tree@.children[parent_keys@[j]],
            ) by {
                assert(r.parent_to_children@[j].parent == parent_keys@[j]);
            }
            lemma_lists_by_keys(parent_keys@, kids, tree@.children);
            let heights = number_pairs(r.block_number_to_block_hash@);
            assert forall|j: int| 0 <= j < number_keys@.len() implies #[trigger] heights[j] == (
                number_keys@[j],
                tree@.numbers[number_keys@[j]],
            ) by {
                assert(r.block_number_to_block_hash@[j].block_number == number_keys@[j]);
            }
            lemma_lists_by_keys(number_keys@, heights, tree@.numbers);
        }
        r
    }

    /// The tree that the stored form stands for.
    pub fn to_tree(&self) -> (r: TreeState)
        ensures
            r@ == self.tree(),
    {
        let mut r = TreeState::default();
        r.current_canonical_head = self.current_canonical_head;
        let ghost blocks = by_block(self.proofs_by_block_hash@);
        let ghost roots = root_pairs(self.request_root_to_block_hash@);
        let ghost kids = child_pairs(self.parent_to_children@);
        let ghost heights = number_pairs(self.block_number_to_block_hash@);
        let mut i: usize = 0;
        while i < self.proofs_by_block_hash.len()
            invariant
                i <= self.proofs_by_block_hash@.len(),
                blocks == by_block(self.proofs_by_block_hash@),
                r@ == (TreeView {
                    blocks: collected(blocks.take(i as int)),
                    head: self.current_canonical_head,
                    ..TreeView::empty()
                }),
            decreases self.proofs_by_block_hash@.len() - i,
        {
            let stored = &self.proofs_by_block_hash[i];
            r.proofs_by_block_hash.insert(stored.block_hash, restore_request(stored));
            proof {
                lemma_collect_next(blocks, i as int);
            }
            i = i + 1;
        }
        i = 0;
        while i < self.request_root_to_block_hash.len()
            invariant
                i <= self.request_root_to_block_hash@.len(),
                roots == root_pairs(self.request_root_to_block_hash@),
                r@ == (TreeView {
                    blocks: r@.blocks,
                    roots: collected(roots.take(i as int)),
                    head: self.current_canonical_head,
                    ..TreeView::empty()
                }),
                r@.blocks == collected(blocks.take(blocks.len() as int)),
            decreases self.request_root_to_block_hash@.len() - i,
        {
            let stored = self.request_root_to_block_hash[i];
            r.request_root_to_block_hash.insert(stored.request_root, stored.block_hash);
            proof {
                lemma_collect_next(roots, i as int);
            }
            i = i + 1;
        }
        i = 0;
        while i < self.parent_to_children.len()
            invariant
                i <= self.parent_to_children@.len(),
                kids == child_pairs(self.parent_to_children@),
                r@ == (TreeView {
                    blocks: r@.blocks,
                    roots: r@.roots,
                    children: collected(kids.take(i as int)),
                    head: self.current_canonical_head,
                    ..TreeView::empty()
                }),
                r@.blocks == collected(blocks.take(blocks.len() as int)),
                r@.roots == collected(roots.take(roots.len() as int)),
            decreases self.parent_to_children@.len() - i,
        {
            let stored = &self.parent_to_children[i];
            r.parent_to_children.insert(stored.parent, restore_set(&stored.children));
            proof {
                lemma_collect_next(kids, i as int);
            }
            i = i + 1;
        }
        i = 0;
        while i < self.block_number_to_block_hash.len()
            invariant
                i <= self.block_number_to_block_hash@.len(),
                heights == number_pairs(self.block_number_to_block_hash@),
                r@ == (TreeView {
                    numbers: collected(heights.take(i as int)),
                    ..r@
                }),
                r@.head == self.current_canonical_head,
                r@.blocks == collected(blocks.take(blocks.len() as int)),
                r@.roots == collected(roots.take(roots.len() as int)),
                r@.children == collected(kids.take(kids.len() as int)),
            decreases self.block_number_to_block_hash@.len() - i,
        {
            let stored = &self.block_number_to_block_hash[i];
            r.block_number_to_block_hash.insert(
                stored.block_number,
                restore_set(&stored.block_hashes),
            );
            proof {
                lemma_collect_next(heights, i as int);
            }
            i = i + 1;
        }
        proof {
            assert(blocks.take(blocks.len() as int) =~= blocks);
            assert(roots.take(roots.len() as int) =~= roots);
            assert(kids.take(kids.len() as int) =~= kids);
            assert(heights.take(heights.len() as int) =~= heights);
        }
        r
    }
}

impl PersistedRequestBuffer {
    /// The stored form of a buffer.
    pub fn from_buffer(buffer: &RequestBuffer) -> (r: Self)
        ensures
            r.stores(buffer.proofs@),
    {
        let keys = buffer.proofs.keys();
        let mut requests: Vec<PersistedBlockProofs> = Vec::new();
        let mut i: usize = 0;
        while i < keys.len()
            invariant
                i <= keys@.len(),
                lists(keys@, buffer.proofs@.dom()),
                requests@.len() == i,
                forall|j: int|
                    0 <= j < i ==> (#[trigger] requests@[j])@ == buffer.proofs@[keys@[j]],
            decreases keys@.len() - i,
        {
            let key = keys[i];
            assert(keys@.to_set().contains(key));
            if let Some(request) = buffer.proofs.get(&key) {
                requests.push(store_request(request.metadata.block_hash, request));
            }
            i = i + 1;
        }
        PersistedRequestBuffer { requests }
    }

    /// The buffer that the stored form stands for.
    pub fn to_buffer(&self) -> (r: RequestBuffer)
        ensures
            r.proofs@ == collected(by_root(self.requests@)),
    {
        let mut r = RequestBuffer::default();
        let ghost pairs = by_root(self.requests@);
        let mut i: usize = 0;
        while i < self.requests.len()
            invariant
                i <= self.requests@.len(),
                pairs == by_root(self.requests@),
                r.proofs@ == collected(pairs.take(i as int)),
            decreases self.requests@.len() - i,
        {
            let stored = &self.requests[i];
            r.proofs.insert(stored.request_root, restore_request(stored));
            proof {
                lemma_collect_next(pairs, i as int);
            }
            i = i + 1;
        }
        assert(pairs.take(pairs.len() as int) =~= pairs);
        r
    }
}

impl PersistedProofEngineState {
    /// The stored form of a state.
    pub fn from_state(state: &State) -> (r: Self)
        ensures
            r.stores(state@),
    {
        PersistedProofEngineState {
            version: PROOF_ENGINE_STATE_VERSION,
            last_valid_fcs: state.last_valid_fcs,
            latest_fcs: state.latest_fcs,
            tree: PersistedTreeState::from_tree(&state.tree),
            buffer: PersistedRequestBuffer::from_buffer(&state.buffer),
        }
    }

    /// The state that the stored form stands for.
    pub fn to_state(&self) -> (r: State)
        ensures
            r@ == self.state(),
    {
        State {
            latest_fcs: self.latest_fcs,
            last_valid_fcs: self.last_valid_fcs,
            tree: self.tree.to_tree(),
            buffer: self.buffer.to_buffer(),
            min_required_proofs: MIN_REQUIRED_EXECUTION_PROOFS,
        }
    }
}

/// A list of pairs makes a map of exactly its keys, and of two pairs with one key the later one holds.
pub proof fn law_last_pair_holds<K, V>(pairs: Seq<(K, V)>, key: K, i: int)
    ensures
        collected(pairs).contains_key(key) <==> exists|j: int|
            0 <= j < pairs.len() && (#[trigger] pairs[j]).0 == key,
        0 <= i < pairs.len() && pairs[i].0 == key && (forall|j: int|
            i < j < pairs.len() ==> (#[trigger] pairs[j]).0 != key) ==> collected(pairs)[key]
            == pairs[i].1,
    decreases pairs.len(),
{
    if pairs.len() > 0 {
        let init = pairs.drop_last();
        law_last_pair_holds(init, key, i);
        if collected(init).contains_key(key) {
            let j = choose|j: int| 0 <= j < init.len() && (#[trigger] init[j]).0 == key;
            assert(pairs[j].0 == key);
        }
        if pairs.last().0 == key {
            assert(pairs[pairs.len() - 1].0 == key);
        }
        if exists|j: int| 0 <= j < pairs.len() && (#[trigger] pairs[j]).0 == key {
            let j = choose|j: int| 0 <= j < pairs.len() && (#[trigger] pairs[j]).0 == key;
            if j < init.len() {
                assert(init[j].0 == key);
            }
        }
        if 0 <= i < init.len() && pairs[i].0 == key && (forall|j: int|
            i < j < pairs.len() ==> (#[trigger] pairs[j]).0 != key) {
            assert(pairs[pairs.len() - 1].0 != key);
            assert forall|j: int| i < j < init.len() implies (#[trigger] init[j]).0 != key by {
                assert(pairs[j].0 != key);
            }
            assert(init[i] == pairs[i]);
        }
    }
}

/// What a stored state is restored to: the fork choice states and the head that it names, each stored
/// request under its block or its root, and a threshold of one proof. Of two requests with one key the
/// later one holds.
pub proof fn law_restored_state(stored: PersistedProofEngineState, i: int)
    ensures
        ({
            let s = stored.state();
            let t = stored.tree;
            &&& s.latest_fcs == stored.latest_fcs
            &&& s.last_valid_fcs == stored.last_valid_fcs
            &&& s.tree.head == t.current_canonical_head
            &&& s.min_required_proofs == 1
            &&& 0 <= i < t.proofs_by_block_hash@.len() && (forall|j: int|
                i < j < t.proofs_by_block_hash@.len() ==> (
                #[trigger] t.proofs_by_block_hash@[j]).block_hash
                    != t.proofs_by_block_hash@[i].block_hash) ==> {
                let entry = t.proofs_by_block_hash@[i];
                &&& s.tree.blocks.contains_key(entry.block_hash)
                &&& s.tree.blocks[entry.block_hash] == entry@
            }
            &&& 0 <= i < stored.buffer.requests@.len() && (forall|j: int|
                i < j < stored.buffer.requests@.len() ==> (
                #[trigger] stored.buffer.requests@[j]).request_root
                    != stored.buffer.requests@[i].request_root) ==> {
                let entry = stored.buffer.requests@[i];
                &&& s.buffer.contains_key(entry.request_root)
                &&& s.buffer[entry.request_root] == entry@
            }
        }),
{
    let t = stored.tree;
    if 0 <= i < t.proofs_by_block_hash@.len() && (forall|j: int|
        i < j < t.proofs_by_block_hash@.len() ==> (#[trigger] t.proofs_by_block_hash@[j]).block_hash
            != t.proofs_by_block_hash@[i].block_hash) {
        let pairs = by_block(t.proofs_by_block_hash@);
        let key = t.proofs_by_block_hash@[i].block_hash;
        assert forall|j: int| i < j < pairs.len() implies (#[trigger] pairs[j]).0 != key by {
            assert(t.proofs_by_block_hash@[j].block_hash != key);
        }
        assert(pairs[i].0 == key);
        law_last_pair_holds(pairs, key, i);
    }
    if 0 <= i < stored.buffer.requests@.len() && (forall|j: int|
        i < j < stored.buffer.requests@.len() ==> (
        #[trigger] stored.buffer.requests@[j]).request_root
            != stored.buffer.requests@[i].request_root) {
        let pairs = by_root(stored.buffer.requests@);
        let key = stored.buffer.requests@[i].request_root;
        assert forall|j: int| i < j < pairs.len() implies (#[trigger] pairs[j]).0 != key by {
            assert(stored.buffer.requests@[j].request_root != key);
        }
        assert(pairs[i].0 == key);
        law_last_pair_holds(pairs, key, i);
    }
}

/// What the links of a stored tree are restored to: each root leads to its block, each block to its
/// children, and each height to its blocks. Of two entries with one key the later one holds.
pub proof fn law_restored_links(t: PersistedTreeState, i: int)
    ensures
        0 <= i < t.request_root_to_block_hash@.len() && (forall|j: int|
            i < j < t.request_root_to_block_hash@.len() ==> (
            #[trigger] t.request_root_to_block_hash@[j]).request_root
                != t.request_root_to_block_hash@[i].request_root) ==> {
            let entry = t.request_root_to_block_hash@[i];
            &&& t.tree().roots.contains_key(entry.request_root)
            &&& t.tree().roots[entry.request_root] == entry.block_hash
        },
        0 <= i < t.parent_to_children@.len() && (forall|j: int|
            i < j < t.parent_to_children@.len() ==> (#[trigger] t.parent_to_children@[j]).parent
                != t.parent_to_children@[i].parent) ==> {
            let entry = t.parent_to_children@[i];
            &&& t.tree().children.contains_key(entry.parent)
            &&& forall|child: ExecutionBlockHash| #[trigger]
                t.tree().children[entry.parent].contains(child) <==> entry.children@.contains(child)
        },
        0 <= i < t.block_number_to_block_hash@.len() && (forall|j: int|
            i < j < t.block_number_to_block_hash@.len() ==> (
            #[trigger] t.block_number_to_block_hash@[j]).block_number
                != t.block_number_to_block_hash@[i].block_number) ==> {
            let entry = t.block_number_to_block_hash@[i];
            &&& t.tree().numbers.contains_key(entry.block_number)
            &&& forall|hash: ExecutionBlockHash| #[trigger]
                t.tree().numbers[entry.block_number].contains(hash)
                    <==> entry.block_hashes@.contains(hash)
        },
{
    if 0 <= i < t.request_root_to_block_hash@.len() && (forall|j: int|
        i < j < t.request_root_to_block_hash@.len() ==> (
        #[trigger] t.request_root_to_block_hash@[j]).request_root
            != t.request_root_to_block_hash@[i].request_root) {
        let pairs = root_pairs(t.request_root_to_block_hash@);
        let key = t.request_root_to_block_hash@[i].request_root;
        assert forall|j: int| i < j < pairs.len() implies (#[trigger] pairs[j]).0 != key by {
            assert(t.request_root_to_block_hash@[j].request_root != key);
        }
        assert(pairs[i].0 == key);
        law_last_pair_holds(pairs, key, i);
    }
    if 0 <= i < t.parent_to_children@.len() && (forall|j: int|
        i < j < t.parent_to_children@.len() ==> (#[trigger] t.parent_to_children@[j]).parent
            != t.parent_to_children@[i].parent) {
        let pairs = child_pairs(t.parent_to_children@);
        let key = t.parent_to_children@[i].parent;
        assert forall|j: int| i < j < pairs.len() implies (#[trigger] pairs[j]).0 != key by {
            assert(t.parent_to_children@[j].parent != key);
        }
        assert(pairs[i].0 == key);
        law_last_pair_holds(pairs, key, i);
    }
    if 0 <= i < t.block_number_to_block_hash@.len() && (forall|j: int|
        i < j < t.block_number_to_block_hash@.len() ==> (
        #[trigger] t.block_number_to_block_hash@[j]).block_number
            != t.block_number_to_block_hash@[i].block_number) {
        let pairs = number_pairs(t.block_number_to_block_hash@);
        let key = t.block_number_to_block_hash@[i].block_number;
        assert forall|j: int| i < j < pairs.len() implies (#[trigger] pairs[j]).0 != key by {
            assert(t.block_number_to_block_hash@[j].block_number != key);
        }
        assert(pairs[i].0 == key);
        law_last_pair_holds(pairs, key, i);
    }
}

} // verus!
