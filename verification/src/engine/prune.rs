//! Pruning: taking out of the tree and the buffer what a final block rules out.

use crate::engine::errors::ProofEngineStateError;
use crate::engine::prune_model::{absence, groups_below, kept_requests, lists, lists_below};
use crate::engine::state::State;
use crate::engine::state_model::{take_from, StateView, TreeView};
use crate::hash::{ExecutionBlockHash, Hash256};
use crate::table::{KeyedMap, KeyedSet};
use vstd::prelude::*;

verus! {

/// Takes an item out of the set of a key, and the set out of the map once it is empty.
fn remove_from_set(
    sets: &mut KeyedMap<u64, KeyedSet<ExecutionBlockHash>>,
    key: u64,
    item: ExecutionBlockHash,
)
    ensures
        final(sets)@ == take_from(old(sets)@, key, item),
{
    if let Some(mut set) = sets.remove(&key) {
        set.remove(&item);
        if !set.is_empty() {
            sets.insert(key, set);
        }
    }
    assert(sets@ =~= take_from(old(sets)@, key, item));
}

/// The lowest height below `n` that has blocks.
fn lowest_below(numbers: &KeyedMap<u64, KeyedSet<ExecutionBlockHash>>, n: u64) -> (r: Option<u64>)
    ensures
        match r {
            Some(low) => numbers@.contains_key(low) && low < n && forall|k: u64| #[trigger]
                numbers@.contains_key(k) ==> low <= k,
            None => forall|k: u64| #[trigger] numbers@.contains_key(k) ==> k >= n,
        },
{
    let keys = numbers.keys();
    let mut lowest: Option<u64> = None;
    let mut i: usize = 0;
    while i < keys.len()
        invariant
            i <= keys@.len(),
            keys@.to_set() == numbers@.dom(),
            match lowest {
                Some(low) => numbers@.contains_key(low) && low < n && forall|j: int|
                    0 <= j < i ==> low <= #[trigger] keys@[j],
                None => forall|j: int| 0 <= j < i ==> #[trigger] keys@[j] >= n,
            },
        decreases keys@.len() - i,
    {
        let key: u64 = keys[i];
        assert(keys@.to_set().contains(key));
        let bound: u64 = match lowest {
            Some(low) => low,
            None => n,
        };
        if key < bound {
            lowest = Some(key);
        }
        i = i + 1;
    }
    proof {
        assert forall|k: u64| #[trigger] numbers@.contains_key(k) implies match lowest {
            Some(low) => low <= k,
            None => k >= n,
        } by {
            assert(keys@.to_set().contains(k));
            let j = keys@.index_of(k);
            assert(keys@[j] == k);
        }
    }
    lowest
}

/// Takes the heights below `n` out of the index, and lists their blocks from the lowest height
/// up.
fn split_below(numbers: &mut KeyedMap<u64, KeyedSet<ExecutionBlockHash>>, n: u64) -> (r: Vec<
    ExecutionBlockHash,
>)
    ensures
        final(numbers)@ == old(numbers)@.filter_keys(|k: u64| k >= n),
        lists_below(old(numbers)@, n, r@),
{
    let ghost before = numbers@;
    let ghost mut heights: Seq<u64> = Seq::empty();
    let ghost mut groups: Seq<Seq<ExecutionBlockHash>> = Seq::empty();
    let mut r: Vec<ExecutionBlockHash> = Vec::new();
    let mut lowest: Option<u64> = lowest_below(numbers, n);
    let mut left: usize = numbers.len();
    while lowest.is_some()
        invariant
            heights.len() == groups.len(),
            numbers@ == before.remove_keys(heights.to_set()),
            numbers@.dom().finite(),
            left == numbers@.len(),
            forall|i: int, j: int| 0 <= i < j < heights.len() ==> heights[i] < heights[j],
            forall|i: int, k: u64|
                0 <= i < heights.len() && #[trigger] numbers@.contains_key(k) ==> #[trigger] heights[i]
                    < k,
            forall|i: int|
                0 <= i < heights.len() ==> before.contains_key(#[trigger] heights[i]) && heights[i]
                    < n,
            forall|i: int| 0 <= i < heights.len() ==> lists(#[trigger] groups[i], before[heights[i]]),
            r@ == groups.flatten(),
            match lowest {
                Some(low) => numbers@.contains_key(low) && low < n && forall|k: u64| #[trigger]
                    numbers@.contains_key(k) ==> low <= k,
                None => forall|k: u64| #[trigger] numbers@.contains_key(k) ==> k >= n,
            },
        decreases left,
    {
        let low: u64 = lowest.unwrap();
        let ghost numbers1 = numbers@;
        let ghost heights1 = heights;
        let ghost groups1 = groups;
        if let Some(set) = numbers.remove(&low) {
            let mut items = set.items();
            proof {
                assert(numbers1[low] == before[low]);
                heights = heights.push(low);
                groups = groups.push(items@);
                groups1.lemma_flatten_push(items@);
                assert forall|k: u64| heights.contains(k) == (heights1.contains(k) || k == low) by {
                    if heights1.contains(k) {
                        let j = heights1.index_of(k);
                        assert(heights[j] == k);
                    }
                    assert(heights[heights1.len() as int] == low);
                }
                assert(numbers@ =~= before.remove_keys(heights.to_set()));
            }
            r.append(&mut items);
            assert(r@ =~= groups.flatten());
        }
        left = numbers.len();
        lowest = lowest_below(numbers, n);
    }
    proof {
        assert forall|k: u64| heights.contains(k) == (#[trigger] before.contains_key(k) && k < n) by {
            if heights.contains(k) {
                let j = heights.index_of(k);
                assert(heights[j] == k);
            } else if before.contains_key(k) {
                assert(numbers@.contains_key(k));
            }
        }
        assert(groups_below(before, n, heights, groups));
        assert(numbers@ =~= before.filter_keys(|k: u64| k >= n));
    }
    r
}

impl State {
    /// Takes a block and its proofs out of the tree. Hands back the children that it was seen to
    /// have.
    pub fn remove_request(&mut self, block_hash: ExecutionBlockHash) -> (r: Result<
        Option<KeyedSet<ExecutionBlockHash>>,
        ProofEngineStateError,
    >)
        ensures
            match r {
                Ok(children) => {
                    &&& old(self)@.tree.blocks.contains_key(block_hash)
                    &&& final(self)@ == (StateView {
                        tree: old(self)@.tree.without(block_hash),
                        ..old(self)@
                    })
                    &&& match children {
                        Some(set) => old(self)@.tree.children.contains_key(block_hash) && set@
                            == old(self)@.tree.children[block_hash],
                        None => !old(self)@.tree.children.contains_key(block_hash),
                    }
                },
                Err(e) => {
                    &&& !old(self)@.tree.blocks.contains_key(block_hash)
                    &&& final(self)@ == old(self)@
                    &&& e == ProofEngineStateError::BlockNumberNotFound(block_hash)
                },
            },
    {
        let entry = match self.tree.proofs_by_block_hash.remove(&block_hash) {
            Some(entry) => entry,
            None => {
                assert(self@ =~= old(self)@);
                return Err(ProofEngineStateError::BlockNumberNotFound(block_hash));
            },
        };
        self.tree.request_root_to_block_hash.remove(&entry.metadata.request_root);
        let children = self.tree.parent_to_children.remove(&block_hash);
        remove_from_set(
            &mut self.tree.block_number_to_block_hash,
            entry.metadata.block_number,
            block_hash,
        );
        Ok(children)
    }

    /// Takes out of the buffer the requests about blocks that are not above the height `n`,
    /// other than the final block.
    fn prune_buffer(&mut self, n: u64, finalized_hash: ExecutionBlockHash)
        ensures
            final(self)@ == (StateView {
                buffer: kept_requests(old(self)@.buffer, n, finalized_hash),
                ..old(self)@
            }),
    {
        let ghost s0 = self@;
        let keys = self.buffer.proofs.keys();
        let mut i: usize = 0;
        while i < keys.len()
            invariant
                i <= keys@.len(),
                keys@.no_duplicates(),
                keys@.to_set() == s0.buffer.dom(),
                self@ == (StateView { buffer: self@.buffer, ..s0 }),
                forall|root: Hash256| #[trigger]
                    self@.buffer.contains_key(root) == (s0.buffer.contains_key(root) && (
                    !keys@.take(i as int).contains(root) || s0.buffer[root].metadata.block_number
                        > n || s0.buffer[root].metadata.block_hash == finalized_hash)),
                forall|root: Hash256| #[trigger]
                    self@.buffer.contains_key(root) ==> self@.buffer[root] == s0.buffer[root],
            decreases keys@.len() - i,
        {
            let root = keys[i];
            let ghost before = self@;
            proof {
                assert(keys@.to_set().contains(root));
                assert(!keys@.take(i as int).contains(root));
                assert(keys@.take(i + 1) =~= keys@.take(i as int).push(root));
                assert forall|x: Hash256| #[trigger]
                    keys@.take(i + 1).contains(x) == (keys@.take(i as int).contains(x) || x
                        == root) by {
                    if keys@.take(i as int).contains(x) {
                        let j = keys@.take(i as int).index_of(x);
                        assert(keys@.take(i + 1)[j] == x);
                    }
                    assert(keys@.take(i + 1)[i as int] == root);
                }
            }
            let stale = match self.buffer.proofs.get(&root) {
                Some(request) => request.metadata.block_number <= n
                    && request.metadata.block_hash != finalized_hash,
                None => false,
            };
            if stale {
                self.buffer.proofs.remove(&root);
            }
            i = i + 1;
        }
        proof {
            assert(keys@.take(i as int) =~= keys@);
            assert forall|root: Hash256| #[trigger] s0.buffer.contains_key(root) implies keys@.contains(
                root,
            ) by {
                assert(keys@.to_set().contains(root));
            }
            assert(self@.buffer =~= kept_requests(s0.buffer, n, finalized_hash));
        }
    }

    /// Takes the blocks of `below` out of the tree one by one.
    fn remove_all(&mut self, below: &Vec<ExecutionBlockHash>) -> (r: Result<
        (),
        ProofEngineStateError,
    >)
        ensures
            final(self)@ == (StateView {
                tree: old(self)@.tree.without_all(below@),
                ..old(self)@
            }),
            r == absence(old(self)@.tree.first_absent(below@)),
    {
        let ghost s0 = self@;
        let mut i: usize = 0;
        assert(below@.skip(0) =~= below@);
        while i < below.len()
            invariant
                i <= below@.len(),
                s0 == old(self)@,
                self@ == (StateView { tree: self@.tree, ..s0 }),
                self@.tree.without_all(below@.skip(i as int)) == s0.tree.without_all(below@),
                self@.tree.first_absent(below@.skip(i as int)) == s0.tree.first_absent(below@),
            decreases below@.len() - i,
        {
            proof {
                assert(below@.skip(i as int)[0] == below@[i as int]);
                assert(below@.skip(i as int).skip(1) =~= below@.skip(i + 1));
            }
            match self.remove_request(below[i]) {
                Ok(_) => {},
                Err(e) => return Err(e),
            }
            i = i + 1;
        }
        Ok(())
    }

    /// Takes the pending blocks out of the tree, with all that descends from them.
    fn remove_descendants(&mut self, beside: Vec<ExecutionBlockHash>) -> (r: Result<
        (),
        ProofEngineStateError,
    >)
        ensures
            final(self)@ == (StateView { tree: final(self)@.tree, ..old(self)@ }),
            exists|steps: nat, absent: Option<ExecutionBlockHash>| #[trigger]
                old(self)@.tree.drains(beside@, steps, final(self)@.tree, absent) && r
                    == absence(absent),
    {
        let ghost s0 = self@;
        let mut pending = beside;
        let mut left: usize = self.tree.proofs_by_block_hash.len();
        let ghost mut done: nat = 0;
        while pending.len() > 0
            invariant
                s0 == old(self)@,
                self@ == (StateView { tree: self@.tree, ..s0 }),
                self@.tree.blocks.dom().finite(),
                left == self@.tree.blocks.len(),
                forall|n: nat, after: TreeView, absent: Option<ExecutionBlockHash>| #[trigger]
                    self@.tree.drains(pending@, n, after, absent) ==> s0.tree.drains(
                        beside@,
                        n + done,
                        after,
                        absent,
                    ),
            decreases left,
        {
            let ghost pending1 = pending@;
            let ghost tree1 = self@.tree;
            let block_hash = pending.pop().unwrap();
            let children = match self.remove_request(block_hash) {
                Ok(children) => children,
                Err(e) => {
                    proof {
                        assert(tree1.drains(pending1, 0, tree1, Some(block_hash)));
                        assert(s0.tree.drains(beside@, 0 + done, tree1, Some(block_hash)));
                    }
                    return Err(e);
                },
            };
            let mut more: Vec<ExecutionBlockHash> = match children {
                Some(set) => set.items(),
                None => Vec::new(),
            };
            proof {
                if children is None {
                    assert(more@.to_set() =~= Set::<ExecutionBlockHash>::empty());
                }
                assert(lists(more@, tree1.children_of(block_hash)));
                assert(pending@ =~= pending1.drop_last());
                let pending2 = pending@ + more@;
                assert forall|n: nat, after: TreeView, absent: Option<ExecutionBlockHash>|
                    #[trigger] self@.tree.drains(pending2, n, after, absent) implies s0.tree.drains(
                    beside@,
                    n + (done + 1),
                    after,
                    absent,
                ) by {
                    assert(lists(more@, tree1.children_of(pending1.last())));
                    assert(tree1.without(pending1.last()).drains(
                        pending1.drop_last() + more@,
                        ((n + 1) - 1) as nat,
                        after,
                        absent,
                    ));
                    assert(tree1.drains(pending1, n + 1, after, absent));
                    assert(s0.tree.drains(beside@, (n + 1) + done, after, absent));
                }
                done = done + 1;
            }
            pending.append(&mut more);
            left = self.tree.proofs_by_block_hash.len();
        }
        assert(self@.tree.drains(pending@, 0, self@.tree, None));
        Ok(())
    }

    /// Takes out what the final block rules out: buffered requests about blocks that are not
    /// above it, blocks of the tree below it, and blocks beside it with all that descends from
    /// them.
    pub fn prune_finalized_sidechains(&mut self, finalized_hash: ExecutionBlockHash) -> (r: Result<
        (),
        ProofEngineStateError,
    >)
        ensures
            old(self)@.prunes(finalized_hash, final(self)@, r),
    {
        let ghost s0 = self@;
        let finalized_number: u64 = match self.block_number_for_hash(finalized_hash) {
            Some(number) => number,
            None => return Err(ProofEngineStateError::BlockNumberNotFound(finalized_hash)),
        };
        self.prune_buffer(finalized_number, finalized_hash);
        let below = split_below(&mut self.tree.block_number_to_block_hash, finalized_number);
        assert(self@.tree =~= s0.tree.split_at(finalized_number));
        match self.remove_all(&below) {
            Ok(_) => {},
            Err(e) => {
                proof {
                    let absent = s0.tree.split_at(finalized_number).first_absent(below@);
                    assert(s0.tree.drops_stale(
                        finalized_number,
                        finalized_hash,
                        self@.tree,
                        absent,
                    ));
                }
                return Err(e);
            },
        }
        let ghost tree1 = self@.tree;
        let mut bucket = match self.tree.block_number_to_block_hash.remove(&finalized_number) {
            Some(bucket) => bucket,
            None => {
                proof {
                    assert(self@.tree =~= tree1);
                    assert(s0.tree.drops_stale(
                        finalized_number,
                        finalized_hash,
                        self@.tree,
                        None,
                    ));
                }
                return Ok(());
            },
        };
        bucket.remove(&finalized_hash);
        let beside = bucket.items();
        let mut settled: KeyedSet<ExecutionBlockHash> = KeyedSet::new();
        settled.insert(finalized_hash);
        self.tree.block_number_to_block_hash.insert(finalized_number, settled);
        proof {
            assert(settled@ =~= set![finalized_hash]);
            assert(self@.tree.numbers =~= tree1.settled_at(finalized_number, finalized_hash).numbers);
            assert(self@.tree =~= tree1.settled_at(finalized_number, finalized_hash));
        }
        let ghost settled_tree = self@.tree;
        let r = self.remove_descendants(beside);
        proof {
            let (steps, absent) = choose|steps: nat, absent: Option<ExecutionBlockHash>| #[trigger]
                settled_tree.drains(beside@, steps, self@.tree, absent) && r == absence(absent);
            assert(tree1.drops_siblings(finalized_number, finalized_hash, self@.tree, absent));
            assert(s0.tree.drops_stale(
                finalized_number,
                finalized_hash,
                self@.tree,
                absent,
            ));
        }
        r
    }
}

} // verus!
