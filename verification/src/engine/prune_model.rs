//! The mathematical model of pruning: what leaves the tree and the buffer once a block is final.

use crate::engine::errors::ProofEngineStateError;
use crate::engine::state_model::{take_from, PayloadRequestView, StateView, TreeView};
use crate::hash::{ExecutionBlockHash, Hash256};
use vstd::prelude::*;

verus! {

/// Whether `order` lists the items of `items`, each once.
pub open spec fn lists<T>(order: Seq<T>, items: Set<T>) -> bool {
    order.no_duplicates() && order.to_set() == items
}

/// Whether `order` lists the blocks at the heights below `n`, height by height from the lowest.
pub open spec fn lists_below(
    numbers: Map<u64, Set<ExecutionBlockHash>>,
    n: u64,
    order: Seq<ExecutionBlockHash>,
) -> bool {
    exists|heights: Seq<u64>, groups: Seq<Seq<ExecutionBlockHash>>| #[trigger]
        groups_below(numbers, n, heights, groups) && order == groups.flatten()
}

/// Whether `heights` are the heights below `n` that have blocks, ascending, and each group lists
/// the blocks at its height.
pub open spec fn groups_below(
    numbers: Map<u64, Set<ExecutionBlockHash>>,
    n: u64,
    heights: Seq<u64>,
    groups: Seq<Seq<ExecutionBlockHash>>,
) -> bool {
    &&& heights.len() == groups.len()
    &&& forall|i: int, j: int| 0 <= i < j < heights.len() ==> heights[i] < heights[j]
    &&& forall|k: u64| heights.contains(k) == (#[trigger] numbers.contains_key(k) && k < n)
    &&& forall|i: int| 0 <= i < heights.len() ==> lists(#[trigger] groups[i], numbers[heights[i]])
}

/// The outcome of removals: an error where a block was not there.
pub open spec fn absence(absent: Option<ExecutionBlockHash>) -> Result<(), ProofEngineStateError> {
    match absent {
        Some(hash) => Err(ProofEngineStateError::BlockNumberNotFound(hash)),
        None => Ok(()),
    }
}

impl TreeView {
    /// The children that a block was seen to have.
    pub open spec fn children_of(self, hash: ExecutionBlockHash) -> Set<ExecutionBlockHash> {
        if self.children.contains_key(hash) {
            self.children[hash]
        } else {
            Set::empty()
        }
    }

    /// The tree without one of its blocks.
    pub open spec fn without(self, hash: ExecutionBlockHash) -> TreeView {
        let meta = self.blocks[hash].metadata;
        TreeView {
            blocks: self.blocks.remove(hash),
            roots: self.roots.remove(meta.request_root),
            children: self.children.remove(hash),
            numbers: take_from(self.numbers, meta.block_number, hash),
            head: self.head,
        }
    }

    /// The tree after the blocks of `order` have been taken out one by one, up to the first one
    /// that is not there.
    pub open spec fn without_all(self, order: Seq<ExecutionBlockHash>) -> TreeView
        decreases order.len(),
    {
        if order.len() == 0 || !self.blocks.contains_key(order[0]) {
            self
        } else {
            self.without(order[0]).without_all(order.skip(1))
        }
    }

    /// The first block of `order` that is not there when its turn comes.
    pub open spec fn first_absent(self, order: Seq<ExecutionBlockHash>) -> Option<
        ExecutionBlockHash,
    >
        decreases order.len(),
    {
        if order.len() == 0 {
            None
        } else if !self.blocks.contains_key(order[0]) {
            Some(order[0])
        } else {
            self.without(order[0]).first_absent(order.skip(1))
        }
    }

    /// Whether `n` removals lead to the tree `after`. Each takes out the last of the pending
    /// blocks and makes its children pending. The removals end when no block is pending, or at
    /// a pending block that is not there, which is then `absent`.
    pub open spec fn drains(
        self,
        pending: Seq<ExecutionBlockHash>,
        n: nat,
        after: TreeView,
        absent: Option<ExecutionBlockHash>,
    ) -> bool
        decreases n,
    {
        if n == 0 {
            &&& after == self
            &&& if pending.len() == 0 {
                absent is None
            } else {
                !self.blocks.contains_key(pending.last()) && absent == Some(pending.last())
            }
        } else {
            &&& pending.len() > 0
            &&& self.blocks.contains_key(pending.last())
            &&& exists|more: Seq<ExecutionBlockHash>| #[trigger]
                lists(more, self.children_of(pending.last())) && self.without(
                    pending.last(),
                ).drains(pending.drop_last() + more, (n - 1) as nat, after, absent)
        }
    }

    /// The tree without the index entries of the heights below `n`.
    pub open spec fn split_at(self, n: u64) -> TreeView {
        TreeView { numbers: self.numbers.filter_keys(|k: u64| k >= n), ..self }
    }

    /// The tree in which `hash` is the one block at the height `n`, as far as the index says.
    pub open spec fn settled_at(self, n: u64, hash: ExecutionBlockHash) -> TreeView {
        TreeView { numbers: self.numbers.insert(n, set![hash]), ..self }
    }

    /// Whether the removal of the blocks beside `hash` at the height `n`, with all that descends
    /// from them, leads to the tree `after`, stopping at a block that is not there.
    pub open spec fn drops_siblings(
        self,
        n: u64,
        hash: ExecutionBlockHash,
        after: TreeView,
        absent: Option<ExecutionBlockHash>,
    ) -> bool {
        if !self.numbers.contains_key(n) {
            after == self && absent is None
        } else {
            exists|beside: Seq<ExecutionBlockHash>, steps: nat|
                lists(beside, self.numbers[n].remove(hash)) && #[trigger] self.settled_at(
                    n,
                    hash,
                ).drains(beside, steps, after, absent)
        }
    }

    /// Whether the removal of the blocks below the height `n`, and then of those beside `hash`,
    /// leads to the tree `after`, stopping at a block that is not there.
    pub open spec fn drops_stale(
        self,
        n: u64,
        hash: ExecutionBlockHash,
        after: TreeView,
        absent: Option<ExecutionBlockHash>,
    ) -> bool {
        exists|below: Seq<ExecutionBlockHash>| #[trigger]
            lists_below(self.numbers, n, below) && match self.split_at(n).first_absent(below) {
                Some(h) => after == self.split_at(n).without_all(below) && absent == Some(h),
                None => self.split_at(n).without_all(below).drops_siblings(n, hash, after, absent),
            }
    }
}

/// The buffered requests about blocks above the height `n`, or about the block `hash`.
pub open spec fn kept_requests(
    buffer: Map<Hash256, PayloadRequestView>,
    n: u64,
    hash: ExecutionBlockHash,
) -> Map<Hash256, PayloadRequestView> {
    buffer.filter_keys(
        |root: Hash256|
            buffer[root].metadata.block_number > n || buffer[root].metadata.block_hash == hash,
    )
}

impl StateView {
    /// Whether pruning at the final block `hash` leads to the state `after` and to `outcome`.
    pub open spec fn prunes(
        self,
        hash: ExecutionBlockHash,
        after: StateView,
        outcome: Result<(), ProofEngineStateError>,
    ) -> bool {
        if !self.tree.blocks.contains_key(hash) {
            after == self && outcome == Err::<(), ProofEngineStateError>(
                ProofEngineStateError::BlockNumberNotFound(hash),
            )
        } else {
            let n = self.tree.blocks[hash].metadata.block_number;
            &&& after == StateView {
                tree: after.tree,
                buffer: kept_requests(self.buffer, n, hash),
                ..self
            }
            &&& exists|absent: Option<ExecutionBlockHash>| #[trigger]
                self.tree.drops_stale(n, hash, after.tree, absent) && outcome == absence(absent)
        }
    }
}

} // verus!
