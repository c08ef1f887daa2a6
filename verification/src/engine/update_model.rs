//! The mathematical model of a fork choice update.

use crate::engine::errors::ProofEngineStateError;
use crate::engine::forkchoice::{
    anchored_at, invalid_status, syncing_status, valid_status, ForkchoiceState, PayloadStatusView,
};
use crate::engine::prune_model::lists;
use crate::engine::state_model::{descends, PayloadRequestView, StateView, TreeView};
use crate::hash::{ExecutionBlockHash, Hash256};
use vstd::prelude::*;

verus! {

/// `given`, or `otherwise` where it is the zero hash.
pub open spec fn or_last(
    given: ExecutionBlockHash,
    otherwise: ExecutionBlockHash,
) -> ExecutionBlockHash {
    if given == ExecutionBlockHash::spec_zero() {
        otherwise
    } else {
        given
    }
}

impl StateView {
    /// The state that follows the final block of `fcs` before any block is in the tree.
    pub open spec fn anchored(self, fcs: ForkchoiceState) -> StateView {
        StateView {
            latest_fcs: Some(fcs),
            last_valid_fcs: anchored_at(fcs.finalized_block_hash),
            tree: TreeView { head: fcs.finalized_block_hash, ..self.tree },
            ..self
        }
    }

    /// The buffered requests that may move into the tree.
    pub open spec fn promotable(self) -> Set<Hash256> {
        Set::new(|root: Hash256| self.buffer.contains_key(root) && self.can_promote(root))
    }

    /// Whether the promotion of the requests of `order` one by one, each with all that follows
    /// from it, leads to the state `after`. A request that has left the buffer in the wake of an
    /// earlier one is in the tree already.
    pub open spec fn promotes_each(self, order: Seq<Hash256>, after: StateView) -> bool
        decreases order.len(),
    {
        if order.len() == 0 {
            after == self
        } else if !self.buffer.contains_key(order[0]) {
            self.promotes_each(order.skip(1), after)
        } else {
            exists|wake: Seq<Hash256>| #[trigger]
                self.is_cascade(order[0], wake) && self.promoted_all(wake).promotes_each(
                    order.skip(1),
                    after,
                )
        }
    }

    /// Whether `fcs` finds an empty tree and names a final block to start from.
    pub open spec fn starts_from(self, fcs: ForkchoiceState) -> bool {
        self.tree.blocks == Map::<ExecutionBlockHash, PayloadRequestView>::empty()
            && fcs.finalized_block_hash != ExecutionBlockHash::spec_zero()
    }

    /// Whether the start from the final block of `fcs` leads to the state `after` and to
    /// `outcome`: every promotable request is promoted, in some order, and the state is syncing.
    pub open spec fn starts(
        self,
        fcs: ForkchoiceState,
        after: StateView,
        outcome: Result<PayloadStatusView, ProofEngineStateError>,
    ) -> bool {
        let anchored = self.anchored(fcs);
        &&& outcome == Ok::<PayloadStatusView, ProofEngineStateError>(syncing_status())
        &&& exists|order: Seq<Hash256>|
            lists(order, anchored.promotable()) && #[trigger] anchored.promotes_each(order, after)
    }

    /// The fork choice state that `fcs` stands for: a zero hash stands for the block that was
    /// last found valid in its place.
    pub open spec fn resolved(self, fcs: ForkchoiceState) -> ForkchoiceState {
        ForkchoiceState {
            head_block_hash: fcs.head_block_hash,
            safe_block_hash: or_last(fcs.safe_block_hash, self.last_valid_fcs.safe_block_hash),
            finalized_block_hash: or_last(
                fcs.finalized_block_hash,
                self.last_valid_fcs.finalized_block_hash,
            ),
        }
    }

    /// Whether `fcs` fits the tree: the safe and the final block that it names are there, and
    /// head, safe block, final block and the block that was final before descend from each
    /// other in this order.
    pub open spec fn fits(self, fcs: ForkchoiceState) -> bool {
        let zero = ExecutionBlockHash::spec_zero();
        let named = self.resolved(fcs);
        &&& fcs.safe_block_hash != zero ==> self.tree.blocks.contains_key(named.safe_block_hash)
        &&& fcs.finalized_block_hash != zero ==> self.tree.blocks.contains_key(
            named.finalized_block_hash,
        )
        &&& descends(self.tree, named.safe_block_hash, named.head_block_hash)
        &&& fcs.safe_block_hash != zero ==> descends(
            self.tree,
            named.finalized_block_hash,
            named.safe_block_hash,
        )
        &&& descends(
            self.tree,
            self.last_valid_fcs.finalized_block_hash,
            named.finalized_block_hash,
        )
    }

    /// The state whose head is the given block, unless the head it has descends from that.
    pub open spec fn headed(self, head: ExecutionBlockHash) -> StateView {
        if descends(self.tree, head, self.tree.head) {
            self
        } else {
            StateView { tree: TreeView { head, ..self.tree }, ..self }
        }
    }

    /// Whether `fcs` names a new final block.
    pub open spec fn advances(self, fcs: ForkchoiceState) -> bool {
        fcs.finalized_block_hash != ExecutionBlockHash::spec_zero()
            && self.last_valid_fcs.finalized_block_hash != fcs.finalized_block_hash
    }

    /// Whether the acceptance of a fitting `fcs` leads to the state `after` and to `outcome`.
    /// Where the final block advances, the state is pruned first.
    pub open spec fn accepts(
        self,
        fcs: ForkchoiceState,
        after: StateView,
        outcome: Result<PayloadStatusView, ProofEngineStateError>,
    ) -> bool {
        let headed = self.headed(fcs.head_block_hash);
        let named = self.resolved(fcs);
        if self.advances(fcs) {
            exists|pruned: StateView, result: Result<(), ProofEngineStateError>|
                {
                    &&& #[trigger] headed.prunes(named.finalized_block_hash, pruned, result)
                    &&& match result {
                        Ok(_) => after == (StateView { last_valid_fcs: named, ..pruned })
                            && outcome == Ok::<PayloadStatusView, ProofEngineStateError>(
                            valid_status(after.tree.head),
                        ),
                        Err(e) => after == pruned && outcome == Err::<
                            PayloadStatusView,
                            ProofEngineStateError,
                        >(e),
                    }
                }
        } else {
            after == (StateView { last_valid_fcs: named, ..headed }) && outcome == Ok::<
                PayloadStatusView,
                ProofEngineStateError,
            >(valid_status(after.tree.head))
        }
    }

    /// Whether the fork choice update `fcs` leads to the state `after` and to `outcome`.
    pub open spec fn updates(
        self,
        fcs: ForkchoiceState,
        after: StateView,
        outcome: Result<PayloadStatusView, ProofEngineStateError>,
    ) -> bool {
        if self.starts_from(fcs) {
            self.starts(fcs, after, outcome)
        } else if !self.tree.blocks.contains_key(fcs.head_block_hash) {
            after == (StateView { latest_fcs: Some(fcs), ..self }) && outcome == Ok::<
                PayloadStatusView,
                ProofEngineStateError,
            >(syncing_status())
        } else if !self.fits(fcs) {
            after == self && outcome == Ok::<PayloadStatusView, ProofEngineStateError>(
                invalid_status(self.tree.head),
            )
        } else {
            self.accepts(fcs, after, outcome)
        }
    }
}

} // verus!
