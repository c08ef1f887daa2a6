//! The states that calls lead to. Whatever the calls are, as long as the requests that they bring do
//! not contradict each other, the state stays sound.

use crate::engine::errors::ProofEngineStateError;
use crate::engine::forkchoice::{ForkchoiceState, PayloadStatusView};
use crate::engine::laws::{law_inserted_proven, law_updated_proven, law_updated_sound};
use crate::engine::soundness::{
    is_book, law_buffered_sound, law_initial_sound, law_inserted_sound, noted,
};
use crate::engine::state_model::{RequestMetadata, StateView};
use crate::execution_proof::{ProofStatus, SignedExecutionProofView};
use crate::hash::ExecutionBlockHash;
use vstd::prelude::*;

verus! {

/// A call that changes the state.
pub enum Call {
    Buffer(RequestMetadata),
    Insert(SignedExecutionProofView),
    Update(ForkchoiceState),
}

impl StateView {
    /// Whether a call leads to the state `after`, whatever it returns.
    pub open spec fn leads(self, call: Call, after: StateView) -> bool {
        match call {
            Call::Buffer(request) => after == self.buffered(request),
            Call::Insert(added) => exists|outcome: Result<ProofStatus, ProofEngineStateError>|
                #[trigger] self.inserts(added, after, outcome),
            Call::Update(fcs) => exists|outcome: Result<PayloadStatusView, ProofEngineStateError>|
                #[trigger] self.updates(fcs, after, outcome),
        }
    }

    /// Whether calls lead to this state from the one before anything was seen.
    pub open spec fn reached(self, min_required_proofs: nat, calls: Seq<Call>) -> bool
        decreases calls.len(),
    {
        if calls.len() == 0 {
            self == StateView::initial(min_required_proofs)
        } else {
            exists|before: StateView|
                before.reached(min_required_proofs, calls.drop_last()) && #[trigger] before.leads(
                    calls.last(),
                    self,
                )
        }
    }
}

/// Whether two requests do not contradict each other: they are one where they are about one block or
/// have one root, and a block has a larger number than its parent.
pub open spec fn compatible(a: RequestMetadata, b: RequestMetadata) -> bool {
    &&& a.block_hash == b.block_hash || a.request_root == b.request_root ==> a == b
    &&& b.parent_hash == a.block_hash ==> a.block_number < b.block_number
}

/// Whether a call buffers this request.
pub open spec fn brings(call: Call, request: RequestMetadata) -> bool {
    call == Call::Buffer(request)
}

/// Whether the requests that calls bring do not contradict each other.
pub open spec fn consistent(calls: Seq<Call>) -> bool {
    forall|i: int, j: int, a: RequestMetadata, b: RequestMetadata|
        0 <= i < calls.len() && 0 <= j < calls.len() && #[trigger] brings(calls[i], a)
            && #[trigger] brings(calls[j], b) ==> compatible(a, b)
}

/// The requests that calls bring, by their blocks.
spec fn book_of(calls: Seq<Call>) -> Map<ExecutionBlockHash, RequestMetadata> {
    Map::new(
        |hash: ExecutionBlockHash|
            exists|i: int, m: RequestMetadata|
                0 <= i < calls.len() && #[trigger] brings(calls[i], m) && m.block_hash == hash,
        |hash: ExecutionBlockHash| brought(calls, hash),
    )
}

/// A request about a block that calls bring.
spec fn brought(calls: Seq<Call>, hash: ExecutionBlockHash) -> RequestMetadata {
    choose|m: RequestMetadata|
        m.block_hash == hash && exists|i: int|
            0 <= i < calls.len() && #[trigger] brings(calls[i], m)
}

/// The book of consistent calls has every request that they bring.
proof fn lemma_book_of(calls: Seq<Call>)
    requires
        consistent(calls),
    ensures
        is_book(book_of(calls)),
        forall|i: int, m: RequestMetadata|
            0 <= i < calls.len() && #[trigger] brings(calls[i], m) ==> noted(book_of(calls), m),
{
    let book = book_of(calls);
    assert forall|hash: ExecutionBlockHash| #[trigger] book.contains_key(hash) implies
        book[hash].block_hash == hash && exists|i: int|
        0 <= i < calls.len() && #[trigger] brings(calls[i], book[hash]) by {
        let (i, m) = choose|i: int, m: RequestMetadata|
            0 <= i < calls.len() && #[trigger] brings(calls[i], m) && m.block_hash == hash;
        assert(brings(calls[i], m));
    }
    assert forall|a: ExecutionBlockHash, b: ExecutionBlockHash| #[trigger]
        book.contains_key(a) && #[trigger] book.contains_key(b) implies compatible(
        book[a],
        book[b],
    ) by {
        let i = choose|i: int| 0 <= i < calls.len() && #[trigger] brings(calls[i], book[a]);
        let j = choose|j: int| 0 <= j < calls.len() && #[trigger] brings(calls[j], book[b]);
        assert(brings(calls[i], book[a]) && brings(calls[j], book[b]));
    }
    assert forall|i: int, m: RequestMetadata|
        0 <= i < calls.len() && #[trigger] brings(calls[i], m) implies noted(book, m) by {
        assert(book.contains_key(m.block_hash));
        let j = choose|j: int|
            0 <= j < calls.len() && #[trigger] brings(calls[j], book[m.block_hash]);
        assert(brings(calls[j], book[m.block_hash]));
    }
}

/// What calls lead to is sound in a book that has every request that they bring.
proof fn lemma_reached(
    s: StateView,
    min_required_proofs: nat,
    calls: Seq<Call>,
    book: Map<ExecutionBlockHash, RequestMetadata>,
)
    requires
        is_book(book),
        forall|i: int, m: RequestMetadata|
            0 <= i < calls.len() && #[trigger] brings(calls[i], m) ==> noted(book, m),
        s.reached(min_required_proofs, calls),
    ensures
        s.sound_in(book),
        s.proven_tree(),
    decreases calls.len(),
{
    if calls.len() == 0 {
        law_initial_sound(min_required_proofs, book);
    } else {
        let init = calls.drop_last();
        let before = choose|before: StateView|
            before.reached(min_required_proofs, init) && #[trigger] before.leads(calls.last(), s);
        assert forall|i: int, m: RequestMetadata|
            0 <= i < init.len() && #[trigger] brings(init[i], m) implies noted(book, m) by {
            assert(brings(calls[i], m));
        }
        lemma_reached(before, min_required_proofs, init, book);
        match calls.last() {
            Call::Buffer(request) => {
                assert(brings(calls[calls.len() - 1], request));
                law_buffered_sound(before, book, request);
            },
            Call::Insert(added) => {
                let outcome = choose|outcome: Result<ProofStatus, ProofEngineStateError>| #[trigger]
                    before.inserts(added, s, outcome);
                law_inserted_sound(before, book, added, s, outcome);
                law_inserted_proven(before, added, s, outcome);
            },
            Call::Update(fcs) => {
                let outcome = choose|outcome: Result<PayloadStatusView, ProofEngineStateError>|
                    #[trigger] before.updates(fcs, s, outcome);
                law_updated_sound(before, book, fcs, s, outcome);
                law_updated_proven(before, fcs, s, outcome);
            },
        }
    }
}

/// Every state that calls lead to is sound, and every request of its tree has enough proofs, as long
/// as the requests that the calls bring do not contradict each other.
pub proof fn law_reached_sound(s: StateView, min_required_proofs: nat, calls: Seq<Call>)
    requires
        consistent(calls),
        s.reached(min_required_proofs, calls),
    ensures
        s.sound(),
        s.proven_tree(),
{
    lemma_book_of(calls);
    lemma_reached(s, min_required_proofs, calls, book_of(calls));
}

/// No fork choice update of a state that calls lead to fails, as long as the requests that the calls
/// bring do not contradict each other.
pub proof fn law_reached_updates(
    s: StateView,
    min_required_proofs: nat,
    calls: Seq<Call>,
    fcs: ForkchoiceState,
    after: StateView,
    outcome: Result<PayloadStatusView, ProofEngineStateError>,
)
    requires
        consistent(calls),
        s.reached(min_required_proofs, calls),
        s.updates(fcs, after, outcome),
    ensures
        outcome is Ok,
{
    lemma_book_of(calls);
    lemma_reached(s, min_required_proofs, calls, book_of(calls));
    law_updated_sound(s, book_of(calls), fcs, after, outcome);
}

} // verus!
