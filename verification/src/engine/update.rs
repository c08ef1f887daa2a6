//! Fork choice updates: judging a fork choice state by the tree.

use crate::engine::errors::ProofEngineStateError;
use crate::engine::forkchoice::{
    invalid_status, syncing_status, valid_status, ForkchoiceState, ForkchoiceUpdatedResponse,
    PayloadStatusV1, PayloadStatusV1Status, PayloadStatusView,
};
use crate::engine::prune_model::lists;
use crate::engine::state::State;
use crate::engine::state_model::{descends, parents, StateView};
use crate::engine::walk::step;
use crate::hash::Hash256;
use vstd::prelude::*;

verus! {

/// The payload status that a fork choice answer carries, or the error.
pub open spec fn outcome_of(
    r: Result<ForkchoiceUpdatedResponse, ProofEngineStateError>,
) -> Result<PayloadStatusView, ProofEngineStateError> {
    match r {
        Ok(response) => Ok(response.payload_status@),
        Err(e) => Err(e),
    }
}

impl State {
    /// The answer to a fork choice state that holds.
    fn forkchoice_response_valid(&self) -> (r: ForkchoiceUpdatedResponse)
        ensures
            r.says(valid_status(self@.tree.head)),
    {
        ForkchoiceUpdatedResponse {
            payload_status: PayloadStatusV1 {
                status: PayloadStatusV1Status::Valid,
                latest_valid_hash: Some(self.tree.current_canonical_head),
                validation_error: None,
            },
            payload_id: None,
        }
    }

    /// The answer to a fork choice state that cannot be judged yet.
    fn forkchoice_response_syncing(&self) -> (r: ForkchoiceUpdatedResponse)
        ensures
            r.says(syncing_status()),
    {
        ForkchoiceUpdatedResponse {
            payload_status: PayloadStatusV1 {
                status: PayloadStatusV1Status::Syncing,
                latest_valid_hash: None,
                validation_error: None,
            },
            payload_id: None,
        }
    }

    /// The answer to a fork choice state that contradicts the tree.
    fn forkchoice_response_invalid(&self) -> (r: ForkchoiceUpdatedResponse)
        ensures
            r.says(invalid_status(self@.tree.head)),
    {
        ForkchoiceUpdatedResponse {
            payload_status: PayloadStatusV1 {
                status: PayloadStatusV1Status::Invalid,
                latest_valid_hash: Some(self.tree.current_canonical_head),
                validation_error: Some("invalid forkchoice state".to_owned()),
            },
            payload_id: None,
        }
    }

    /// The buffered requests that may move into the tree.
    fn promotable_requests(&self) -> (r: Vec<Hash256>)
        ensures
            lists(r@, self@.promotable()),
    {
        let keys = self.buffer.proofs.keys();
        let mut r: Vec<Hash256> = Vec::new();
        let mut i: usize = 0;
        while i < keys.len()
            invariant
                i <= keys@.len(),
                keys@.no_duplicates(),
                keys@.to_set() == self@.buffer.dom(),
                r@.no_duplicates(),
                forall|root: Hash256| #[trigger]
                    r@.contains(root) == (keys@.take(i as int).contains(root) && self@.can_promote(
                        root,
                    )),
            decreases keys@.len() - i,
        {
            let key = keys[i];
            assert(keys@.to_set().contains(key));
            let ghost before = r@;
            if let Ok(true) = self.can_promote(&key) {
                r.push(key);
            }
            proof {
                assert(!keys@.take(i as int).contains(key));
                assert(!before.contains(key));
                assert(keys@.take(i + 1) =~= keys@.take(i as int).push(key));
                assert forall|a: int, b: int|
                    0 <= a < r@.len() && 0 <= b < r@.len() && a != b implies r@[a] != r@[b] by {
                    if a < before.len() {
                        assert(before.contains(before[a]));
                    }
                    if b < before.len() {
                        assert(before.contains(before[b]));
                    }
                }
                assert forall|root: Hash256| #[trigger]
                    r@.contains(root) == (keys@.take(i + 1).contains(root) && self@.can_promote(
                        root,
                    )) by {
                    if keys@.take(i as int).contains(root) {
                        let j = keys@.take(i as int).index_of(root);
                        assert(keys@.take(i + 1)[j] == root);
                    }
                    assert(keys@.take(i + 1)[i as int] == key);
                    if before.contains(root) {
                        let j = before.index_of(root);
                        assert(r@[j] == root);
                    }
                    if r@.contains(root) {
                        let j = r@.index_of(root);
                        if j < before.len() {
                            assert(before[j] == root);
                        }
                    }
                    if r@.len() > before.len() {
                        assert(r@[before.len() as int] == key);
                    }
                }
            }
            i = i + 1;
        }
        proof {
            assert(keys@.take(i as int) =~= keys@);
            assert forall|root: Hash256| r@.to_set().contains(root) == self@.promotable().contains(
                root,
            ) by {
                assert(keys@.to_set().contains(root) == self@.buffer.dom().contains(root));
            }
            assert(r@.to_set() =~= self@.promotable());
        }
        r
    }

    /// Promotes requests one by one, each with all that follows from it. One that has left the
    /// buffer in the wake of an earlier one is passed over.
    fn promote_each(&mut self, roots: &Vec<Hash256>)
        ensures
            old(self)@.promotes_each(roots@, final(self)@),
    {
        let ghost s0 = self@;
        let mut i: usize = 0;
        assert(roots@.skip(0) =~= roots@);
        while i < roots.len()
            invariant
                i <= roots@.len(),
                s0 == old(self)@,
                forall|after: StateView| #[trigger]
                    self@.promotes_each(roots@.skip(i as int), after) ==> s0.promotes_each(
                        roots@,
                        after,
                    ),
            decreases roots@.len() - i,
        {
            let ghost before = self@;
            let ghost rest = roots@.skip(i as int);
            let promoted = self.promote_buffered_requests(roots[i]);
            proof {
                assert(rest[0] == roots@[i as int]);
                assert(rest.skip(1) =~= roots@.skip(i + 1));
                if promoted is Ok {
                    let wake = choose|wake: Seq<Hash256>| #[trigger]
                        before.is_cascade(rest[0], wake) && self@ == before.promoted_all(wake);
                    assert(before.is_cascade(rest[0], wake));
                    assert(before.buffer.contains_key(wake[0]));
                }
                assert forall|after: StateView| #[trigger]
                    self@.promotes_each(roots@.skip(i + 1), after) implies s0.promotes_each(
                    roots@,
                    after,
                ) by {
                    assert(before.promotes_each(rest, after));
                }
            }
            i = i + 1;
        }
        assert(self@.promotes_each(roots@.skip(i as int), self@));
    }

    /// Judges a fork choice state by the tree, and follows it where it holds.
    ///
    /// With an empty tree the state starts from the final block, promotes what it can, and is syncing. A head that the
    /// tree does not hold is kept for later. A fork choice state that contradicts the tree is
    /// refused and changes nothing. One that holds becomes the last valid one: the head moves to
    /// its head unless the head descends from that already, and where the final block has
    /// advanced, what that rules out is pruned.
    pub fn forkchoice_updated(&mut self, forkchoice_state: ForkchoiceState) -> (r: Result<
        ForkchoiceUpdatedResponse,
        ProofEngineStateError,
    >)
        ensures
            old(self)@.updates(forkchoice_state, final(self)@, outcome_of(r)),
            r matches Ok(response) ==> response.payload_id is None,
    {
        let ghost s0 = self@;
        let head = forkchoice_state.head_block_hash;
        let safe = forkchoice_state.safe_block_hash;
        let finalized = forkchoice_state.finalized_block_hash;
        if self.tree.is_empty() && !finalized.is_zero() {
            self.last_valid_fcs =
            ForkchoiceState {
                head_block_hash: finalized,
                safe_block_hash: finalized,
                finalized_block_hash: finalized,
            };
            self.latest_fcs = Some(forkchoice_state);
            self.tree.current_canonical_head = finalized;
            assert(self@ =~= s0.anchored(forkchoice_state));
            let promotable = self.promotable_requests();
            self.promote_each(&promotable);
            return Ok(self.forkchoice_response_syncing());
        }
        let new_safe_zero = safe.is_zero();
        let new_finalized_zero = finalized.is_zero();
        let safe = if new_safe_zero {
            self.last_valid_fcs.safe_block_hash
        } else {
            safe
        };
        let finalized = if new_finalized_zero {
            self.last_valid_fcs.finalized_block_hash
        } else {
            finalized
        };
        if !self.tree.proofs_by_block_hash.contains_key(&head) {
            self.latest_fcs = Some(forkchoice_state);
            return Ok(self.forkchoice_response_syncing());
        }
        if !new_safe_zero && !self.tree.proofs_by_block_hash.contains_key(&safe) {
            return Ok(self.forkchoice_response_invalid());
        }
        if !new_finalized_zero && !self.tree.proofs_by_block_hash.contains_key(&finalized) {
            return Ok(self.forkchoice_response_invalid());
        }
        if !self.is_descendant(safe, head) {
            return Ok(self.forkchoice_response_invalid());
        }
        if !new_safe_zero && !self.is_descendant(finalized, safe) {
            return Ok(self.forkchoice_response_invalid());
        }
        if !self.is_descendant(self.last_valid_fcs.finalized_block_hash, finalized) {
            return Ok(self.forkchoice_response_invalid());
        }
        assert(s0.fits(forkchoice_state));
        if head != self.tree.current_canonical_head && !self.is_descendant(
            head,
            self.tree.current_canonical_head,
        ) {
            self.tree.current_canonical_head = head;
        }
        proof {
            if head == s0.tree.head {
                assert(step(parents(s0.tree.blocks), head, 0) == Some(head));
            }
            assert(self@ =~= s0.headed(head));
        }
        if !new_finalized_zero && self.last_valid_fcs.finalized_block_hash != finalized {
            match self.prune_finalized_sidechains(finalized) {
                Ok(_) => {},
                Err(e) => return Err(e),
            }
        }
        self.last_valid_fcs =
        ForkchoiceState {
            head_block_hash: head,
            safe_block_hash: safe,
            finalized_block_hash: finalized,
        };
        Ok(self.forkchoice_response_valid())
    }
}

} // verus!
