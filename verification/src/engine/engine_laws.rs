//! What holds of the engine as a whole: proofs that come before their payload are kept for it, and an
//! engine that asks no proof node has a proof of every payload.

use crate::engine::errors::{ProofEngineError, ProofEngineStateError};
use crate::engine::forkchoice::{syncing_status, valid_status};
use crate::engine::laws::{
    law_buffer_once, law_insert_read, law_inserted_last, law_inserted_tidy, law_refused_unchanged,
};
use crate::engine::proof_engine::{
    mock_proof, EngineView, PayloadVerificationView, ProofOutcome,
};
use crate::engine::soundness::{
    is_book, law_buffered_sound, law_initial_sound, law_inserted_sound, noted,
};
use crate::engine::state_model::{RequestMetadata, StateView};
use crate::execution_proof::{ProofStatus, SignedExecutionProofView};
use crate::hash::{ExecutionBlockHash, Hash256};
use vstd::prelude::*;

verus! {

impl EngineView {
    /// Whether every proof that waits does so under the root of its request.
    pub open spec fn filed(self) -> bool {
        forall|root: Hash256, i: int|
            self.waiting.contains_key(root) && 0 <= i < self.waiting[root].len() ==> (
            #[trigger] self.waiting[root][i]).request_root() == root
    }

    /// Whether the state is sound in a book of requests, and the proofs that wait do so under their
    /// own roots.
    pub open spec fn sound_in(self, book: Map<ExecutionBlockHash, RequestMetadata>) -> bool {
        self.state.sound_in(book) && self.filed()
    }
}

/// An engine that has seen nothing is sound.
pub proof fn law_new_engine_sound(
    min_required_proofs: nat,
    mock_mode: bool,
    book: Map<ExecutionBlockHash, RequestMetadata>,
)
    ensures
        (EngineView {
            state: StateView::initial(min_required_proofs),
            waiting: Map::empty(),
            mock_mode,
            latest_promoted: None,
        }).sound_in(book),
{
    law_initial_sound(min_required_proofs, book);
}

/// A proof whose payload has not been seen is kept behind those that wait for the same payload, and
/// changes nothing else. Once the payload is seen, none waits for it.
pub proof fn law_early_proof_waits(
    e: EngineView,
    early: SignedExecutionProofView,
    request: RequestMetadata,
    other: Hash256,
)
    requires
        e.filed(),
        request.request_root == early.request_root(),
    ensures
        e.put_by(early).filed(),
        e.put_by(early).state == e.state,
        e.put_by(early).waiting_for(request.request_root) == e.waiting_for(
            request.request_root,
        ).push(early),
        other != request.request_root ==> e.put_by(early).waiting_for(other) == e.waiting_for(
            other,
        ),
        e.put_by(early).with_payload(request) == e.with_payload(request),
        e.with_payload(request).waiting_for(request.request_root).len() == 0,
        other != request.request_root ==> e.with_payload(request).waiting_for(other)
            == e.waiting_for(other),
{
    let after = e.put_by(early);
    let root = request.request_root;
    assert forall|r: Hash256, i: int|
        after.waiting.contains_key(r) && 0 <= i < after.waiting[r].len() implies (
    #[trigger] after.waiting[r][i]).request_root() == r by {
        if r == root {
            if i < e.waiting_for(root).len() {
                assert(after.waiting[r][i] == e.waiting[r][i]);
            }
        } else {
            assert(after.waiting[r] == e.waiting[r]);
        }
    }
    assert(after.waiting.remove(root) =~= e.waiting.remove(root));
}

/// The proofs that wait for a payload are proofs of it, and those that go on waiting are filed.
proof fn lemma_seen(e: EngineView, request: RequestMetadata)
    requires
        e.filed(),
    ensures
        e.with_payload(request).filed(),
        e.with_payload(request).state.knows(request.request_root),
        forall|i: int|
            0 <= i < e.waiting_for(request.request_root).len() ==> (#[trigger] e.waiting_for(
                request.request_root,
            )[i]).request_root() == request.request_root,
{
    let root = request.request_root;
    let seen = e.with_payload(request);
    law_buffer_once(e.state, request, root);
    assert forall|r: Hash256, i: int|
        seen.waiting.contains_key(r) && 0 <= i < seen.waiting[r].len() implies (
    #[trigger] seen.waiting[r][i]).request_root() == r by {
        assert(seen.waiting[r] == e.waiting[r]);
    }
    assert forall|i: int| 0 <= i < e.waiting_for(root).len() implies (#[trigger] e.waiting_for(
        root,
    )[i]).request_root() == root by {
        assert(e.waiting_for(root)[i] == e.waiting[root][i]);
    }
}

/// A request that stays what its root stands for does so while proofs of it are verified one by one
/// without a proof node.
proof fn lemma_stays_through(
    e: EngineView,
    root: Hash256,
    added: Seq<SignedExecutionProofView>,
    after: EngineView,
)
    requires
        e.state.knows(root),
        e.state.stays(root),
        forall|i: int| 0 <= i < added.len() ==> (#[trigger] added[i]).request_root() == root,
        e.mock_verifies_each(added, after),
    ensures
        after.state.knows(root),
        after.state.stays(root),
    decreases added.len(),
{
    if added.len() > 0 {
        let mid = choose|mid: EngineView| #[trigger]
            e.mock_verifies(added[0], mid) && mid.mock_verifies_each(added.skip(1), after);
        let outcome = choose|outcome: Result<ProofStatus, ProofEngineStateError>| #[trigger]
            e.adds(added[0], mid, outcome);
        law_inserted_last(e.state, added[0], mid.state, outcome);
        assert forall|i: int| 0 <= i < added.skip(1).len() implies (
        #[trigger] added.skip(1)[i]).request_root() == root by {
            assert(added.skip(1)[i] == added[i + 1]);
        }
        lemma_stays_through(mid, root, added.skip(1), after);
    }
}

/// Whatever the state, an engine that asks no proof node has a proof of every payload that it has
/// seen: the last of its proofs is the dummy proof. The request must stay what its root stands for:
/// the tree has not lost its block, and its promotion does not lead to that block again.
pub proof fn law_mock_payload_proved(e: EngineView, request: RequestMetadata, after: EngineView)
    requires
        e.filed(),
        e.state.buffered(request).stays(request.request_root),
        e.mock_takes(request, after),
    ensures
        after.state.all_proofs(request.request_root).len() > 0,
        after.state.all_proofs(request.request_root).last() == mock_proof(request.request_root),
{
    let root = request.request_root;
    lemma_seen(e, request);
    let (mid, outcome) = choose|
        mid: EngineView,
        outcome: Result<ProofStatus, ProofEngineStateError>,
    |
        e.with_payload(request).mock_verifies_each(e.waiting_for(root), mid) && #[trigger] mid.adds(
            mock_proof(root),
            after,
            outcome,
        );
    lemma_stays_through(e.with_payload(request), root, e.waiting_for(root), mid);
    law_inserted_last(mid.state, mock_proof(root), after.state, outcome);
}

/// A proof that is added to a tidy engine keeps it tidy, and is the last of those of its request.
proof fn lemma_adds(
    e: EngineView,
    added: SignedExecutionProofView,
    after: EngineView,
    outcome: Result<ProofStatus, ProofEngineStateError>,
)
    requires
        e.state.tidy(),
        e.state.knows(added.request_root()),
        e.adds(added, after, outcome),
    ensures
        after.state.tidy(),
        after.state.knows(added.request_root()),
        after.state.all_proofs(added.request_root()) == e.state.all_proofs(
            added.request_root(),
        ).push(added),
{
    law_refused_unchanged(e.state, added, after.state, outcome);
    law_inserted_tidy(e.state, added, after.state, outcome);
    law_insert_read(e.state, added, after.state, outcome, added.request_root());
}

/// Proofs of one known request that are verified without a proof node are all added, in order.
proof fn lemma_mock_verifies_each(
    e: EngineView,
    root: Hash256,
    added: Seq<SignedExecutionProofView>,
    after: EngineView,
)
    requires
        e.state.tidy(),
        e.state.knows(root),
        forall|i: int| 0 <= i < added.len() ==> (#[trigger] added[i]).request_root() == root,
        e.mock_verifies_each(added, after),
    ensures
        after.state.tidy(),
        after.state.knows(root),
        after.state.all_proofs(root) == e.state.all_proofs(root) + added,
    decreases added.len(),
{
    if added.len() == 0 {
        assert(e.state.all_proofs(root) + added =~= e.state.all_proofs(root));
    } else {
        let mid = choose|mid: EngineView| #[trigger]
            e.mock_verifies(added[0], mid) && mid.mock_verifies_each(added.skip(1), after);
        let outcome = choose|outcome: Result<ProofStatus, ProofEngineStateError>| #[trigger]
            e.adds(added[0], mid, outcome);
        lemma_adds(e, added[0], mid, outcome);
        assert forall|i: int| 0 <= i < added.skip(1).len() implies (
        #[trigger] added.skip(1)[i]).request_root() == root by {
            assert(added.skip(1)[i] == added[i + 1]);
        }
        lemma_mock_verifies_each(mid, root, added.skip(1), after);
        assert(e.state.all_proofs(root).push(added[0]) + added.skip(1) =~= e.state.all_proofs(root)
            + added);
    }
}

/// The proofs of a payload that an engine without a proof node has seen are, in a tidy state, those
/// from before, the proofs that waited for the payload, and after them the dummy proof.
pub proof fn law_mock_payload_proofs(e: EngineView, request: RequestMetadata, after: EngineView)
    requires
        e.filed(),
        e.state.buffered(request).tidy(),
        e.mock_takes(request, after),
    ensures
        after.state.tidy(),
        after.state.all_proofs(request.request_root) == (e.state.all_proofs(request.request_root)
            + e.waiting_for(request.request_root)).push(mock_proof(request.request_root)),
{
    let root = request.request_root;
    let waiting = e.waiting_for(root);
    let seen = e.with_payload(request);
    lemma_seen(e, request);
    law_buffer_once(e.state, request, root);
    let (mid, outcome) = choose|
        mid: EngineView,
        outcome: Result<ProofStatus, ProofEngineStateError>,
    |
        seen.mock_verifies_each(waiting, mid) && #[trigger] mid.adds(
            mock_proof(root),
            after,
            outcome,
        );
    lemma_mock_verifies_each(seen, root, waiting, mid);
    lemma_adds(mid, mock_proof(root), after, outcome);
}

/// Verification without a proof node keeps a sound engine sound.
proof fn lemma_sound_through(
    e: EngineView,
    book: Map<ExecutionBlockHash, RequestMetadata>,
    root: Hash256,
    added: Seq<SignedExecutionProofView>,
    after: EngineView,
)
    requires
        is_book(book),
        e.sound_in(book),
        e.state.knows(root),
        forall|i: int| 0 <= i < added.len() ==> (#[trigger] added[i]).request_root() == root,
        e.mock_verifies_each(added, after),
    ensures
        after.sound_in(book),
    decreases added.len(),
{
    if added.len() > 0 {
        let mid = choose|mid: EngineView| #[trigger]
            e.mock_verifies(added[0], mid) && mid.mock_verifies_each(added.skip(1), after);
        let outcome = choose|outcome: Result<ProofStatus, ProofEngineStateError>| #[trigger]
            e.adds(added[0], mid, outcome);
        law_inserted_sound(e.state, book, added[0], mid.state, outcome);
        lemma_adds(e, added[0], mid, outcome);
        assert forall|i: int| 0 <= i < added.skip(1).len() implies (
        #[trigger] added.skip(1)[i]).request_root() == root by {
            assert(added.skip(1)[i] == added[i + 1]);
        }
        lemma_sound_through(mid, book, root, added.skip(1), after);
    }
}

/// A sound engine that asks no proof node stays sound when it takes a payload of the book.
pub proof fn law_mock_payload_sound(
    e: EngineView,
    book: Map<ExecutionBlockHash, RequestMetadata>,
    request: RequestMetadata,
    after: EngineView,
)
    requires
        is_book(book),
        e.sound_in(book),
        noted(book, request),
        e.mock_takes(request, after),
    ensures
        after.sound_in(book),
{
    let root = request.request_root;
    lemma_seen(e, request);
    law_buffered_sound(e.state, book, request);
    let (mid, outcome) = choose|
        mid: EngineView,
        outcome: Result<ProofStatus, ProofEngineStateError>,
    |
        e.with_payload(request).mock_verifies_each(e.waiting_for(root), mid) && #[trigger] mid.adds(
            mock_proof(root),
            after,
            outcome,
        );
    lemma_sound_through(e.with_payload(request), book, root, e.waiting_for(root), mid);
    law_inserted_sound(mid.state, book, mock_proof(root), after.state, outcome);
}

/// A payload whose proofs were all verified without an error is answered as valid if and only if
/// one of them was found valid.
pub proof fn law_one_proof_suffices(v: PayloadVerificationView, outcomes: Seq<ProofOutcome>)
    requires
        !v.found_valid,
        outcomes.len() == v.remaining.len(),
        forall|j: int| 0 <= j < outcomes.len() ==> (#[trigger] outcomes[j]) is Ok,
    ensures
        v.after_all(outcomes).remaining.len() == 0,
        v.after_all(outcomes).answer() == if exists|j: int|
            0 <= j < outcomes.len() && #[trigger] outcomes[j] == Ok::<ProofStatus, ProofEngineError>(
                ProofStatus::Valid,
            ) {
            valid_status(v.block_hash)
        } else {
            syncing_status()
        },
{
    lemma_verified_all(v, outcomes);
}

/// What the verification of all proofs of a payload leaves.
proof fn lemma_verified_all(v: PayloadVerificationView, outcomes: Seq<ProofOutcome>)
    requires
        outcomes.len() == v.remaining.len(),
        forall|j: int| 0 <= j < outcomes.len() ==> (#[trigger] outcomes[j]) is Ok,
    ensures
        v.after_all(outcomes).remaining.len() == 0,
        v.after_all(outcomes).block_hash == v.block_hash,
        v.after_all(outcomes).found_valid == (v.found_valid || exists|j: int|
            0 <= j < outcomes.len() && #[trigger] outcomes[j] == Ok::<ProofStatus, ProofEngineError>(
                ProofStatus::Valid,
            )),
    decreases outcomes.len(),
{
    if outcomes.len() > 0 {
        let rest = outcomes.skip(1);
        assert forall|j: int| 0 <= j < rest.len() implies (#[trigger] rest[j]) is Ok by {
            assert(rest[j] == outcomes[j + 1]);
        }
        lemma_verified_all(v.after(outcomes[0]), rest);
        let valid = Ok::<ProofStatus, ProofEngineError>(ProofStatus::Valid);
        if exists|j: int| 0 <= j < outcomes.len() && #[trigger] outcomes[j] == valid {
            let j = choose|j: int| 0 <= j < outcomes.len() && #[trigger] outcomes[j] == valid;
            if j > 0 {
                assert(rest[j - 1] == valid);
            }
        }
        if exists|j: int| 0 <= j < rest.len() && #[trigger] rest[j] == valid {
            let j = choose|j: int| 0 <= j < rest.len() && #[trigger] rest[j] == valid;
            assert(outcomes[j + 1] == valid);
        }
        assert(outcomes[0] is Ok);
    }
}

} // verus!
