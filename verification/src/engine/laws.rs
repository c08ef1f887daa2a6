//! Laws of the engine's state, across its operations.

use crate::engine::errors::ProofEngineStateError;
use crate::engine::forkchoice::{ForkchoiceState, MissingProofView, PayloadStatusView};
use crate::engine::persisted_state::{law_store_restore, well_keyed, PersistedProofEngineState};
use crate::engine::prune_model::lists;
use crate::engine::prune_laws::{
    law_final_chain_survives, law_pruned_sound, lemma_drops_stale, lemma_walk_in_fewer, lemma_walked,
    survives,
};
use crate::engine::soundness::{
    in_set, is_book, lemma_chain_sound, lemma_fresh, lemma_promoted_all_tidy, lemma_same_metadata,
    lemma_same_metadata_in, lemma_still_buffered,
};
use crate::engine::state_model::{
    descends, index_links, indexes, lemma_missing_stops, lemma_promoted_all, missing_info,
    missing_within, parents, PayloadRequestView, RequestMetadata, StateView,
};
use crate::engine::walk::{goes_on, lemma_circle, lemma_goes_on_before, step};
use crate::execution_proof::{
    ProofStatus, SignedExecutionProofView, MIN_REQUIRED_EXECUTION_PROOFS,
};
use crate::hash::{ExecutionBlockHash, Hash256};
use vstd::prelude::*;

verus! {

/// Buffering a request twice is buffering it once. The request is known then, and no request has
/// other proofs than before.
pub proof fn law_buffer_once(s: StateView, request: RequestMetadata, root: Hash256)
    ensures
        s.buffered(request).buffered(request) == s.buffered(request),
        s.buffered(request).knows(request.request_root),
        s.buffered(request).proofs_of(root) == s.proofs_of(root),
        s.knows(root) ==> s.buffered(request).knows(root),
{
}

/// A proof that is refused changes nothing. It is refused only where its request was never seen, or
/// where the tree lost the block of the request, which no tidy state did.
pub proof fn law_refused_unchanged(
    s: StateView,
    proof_: SignedExecutionProofView,
    after: StateView,
    outcome: Result<ProofStatus, ProofEngineStateError>,
)
    requires
        s.inserts(proof_, after, outcome),
    ensures
        outcome is Err ==> after == s,
        s.tidy() ==> (outcome is Err <==> !s.knows(proof_.request_root())),
{
}

impl StateView {
    /// The request with a root, wherever it is.
    pub open spec fn request_of(self, root: Hash256) -> Option<PayloadRequestView> {
        if self.tree.roots.contains_key(root) {
            Some(self.tree.blocks[self.tree.roots[root]])
        } else if self.buffer.contains_key(root) {
            Some(self.buffer[root])
        } else {
            None
        }
    }

    /// The proofs of a request, none where it has none.
    pub open spec fn all_proofs(self, root: Hash256) -> Seq<SignedExecutionProofView> {
        match self.proofs_of(root) {
            Some(proofs) => proofs,
            None => Seq::empty(),
        }
    }
}

/// Promotions leave every request as it was.
proof fn lemma_promoted_requests(s: StateView, order: Seq<Hash256>, root: Hash256)
    requires
        s.tidy(),
        order.no_duplicates(),
        forall|i: int| 0 <= i < order.len() ==> s.buffer.contains_key(#[trigger] order[i]),
    ensures
        s.promoted_all(order).tidy(),
        s.promoted_all(order).request_of(root) == s.request_of(root),
    decreases order.len(),
{
    lemma_promoted_all_tidy(s, order);
    if order.len() > 0 {
        let init = order.drop_last();
        let last = order.last();
        assert forall|i: int| 0 <= i < init.len() implies s.buffer.contains_key(
            #[trigger] init[i],
        ) by {
            assert(init[i] == order[i]);
        }
        lemma_promoted_requests(s, init, root);
        lemma_promoted_all(s, init);
        let mid = s.promoted_all(init);
        assert(s.buffer.contains_key(order[order.len() - 1]));
        lemma_still_buffered(s, order);
        lemma_fresh(mid, last);
        if mid.tree.roots.contains_key(root) {
            assert(mid.tree.blocks.contains_key(mid.tree.roots[root]));
        }
    }
}

/// In a tidy state the proofs of a request are those of the request, wherever it is.
proof fn lemma_proofs_of(s: StateView, root: Hash256)
    requires
        s.tidy(),
    ensures
        s.all_proofs(root) == match s.request_of(root) {
            Some(request) => request.proofs,
            None => Seq::empty(),
        },
{
    let held = match s.request_of(root) {
        Some(request) => request.proofs,
        None => Seq::empty(),
    };
    if s.tree.roots.contains_key(root) {
        assert(s.tree.blocks.contains_key(s.tree.roots[root]));
    }
    if held.len() == 0 {
        assert(held =~= Seq::<SignedExecutionProofView>::empty());
    }
}

/// What is read back of a proof that was taken: it is the last of the proofs of its request, the
/// others are those from before, and no other request has other proofs than before.
pub proof fn law_insert_read(
    s: StateView,
    proof_: SignedExecutionProofView,
    after: StateView,
    outcome: Result<ProofStatus, ProofEngineStateError>,
    root: Hash256,
)
    requires
        s.tidy(),
        s.inserts(proof_, after, outcome),
        outcome is Ok,
    ensures
        after.all_proofs(root) == if root == proof_.request_root() {
            s.all_proofs(root).push(proof_)
        } else {
            s.all_proofs(root)
        },
        after.knows(root) == s.knows(root),
{
    let target = proof_.request_root();
    lemma_proofs_of(s, root);
    if s.tree.roots.contains_key(target) {
        let hash = s.tree.roots[target];
        assert(s.tree.blocks.contains_key(hash));
        assert(after.tree.blocks.dom() =~= s.tree.blocks.dom());
        lemma_same_metadata(s, after);
        lemma_proofs_of(after, root);
        if s.tree.roots.contains_key(root) && root != target {
            assert(s.tree.blocks.contains_key(s.tree.roots[root]));
            assert(s.tree.roots[root] != hash);
        }
    } else {
        let held = s.proof_in_buffer(target, proof_);
        assert(held.buffer.dom() =~= s.buffer.dom());
        lemma_same_metadata(s, held);
        if held.can_promote(target) {
            let order = choose|order: Seq<Hash256>|
                {
                    &&& #[trigger] held.is_cascade(target, order)
                    &&& after == held.promoted_all(order)
                };
            lemma_promoted_requests(held, order, root);
        }
        lemma_proofs_of(after, root);
        assert(after.request_of(root) == held.request_of(root));
    }
}

/// A proof that is inserted keeps a state tidy, whatever comes of it.
pub proof fn law_inserted_tidy(
    s: StateView,
    proof_: SignedExecutionProofView,
    after: StateView,
    outcome: Result<ProofStatus, ProofEngineStateError>,
)
    requires
        s.tidy(),
        s.inserts(proof_, after, outcome),
    ensures
        after.tidy(),
{
    let root = proof_.request_root();
    if s.tree.roots.contains_key(root) {
        if s.tree.blocks.contains_key(s.tree.roots[root]) {
            assert(after.tree.blocks.dom() =~= s.tree.blocks.dom());
            lemma_same_metadata(s, after);
        }
    } else if s.buffer.contains_key(root) {
        let held = s.proof_in_buffer(root, proof_);
        assert(held.buffer.dom() =~= s.buffer.dom());
        lemma_same_metadata(s, held);
        if held.can_promote(root) {
            let order = choose|order: Seq<Hash256>|
                {
                    &&& #[trigger] held.is_cascade(root, order)
                    &&& after == held.promoted_all(order)
                };
            lemma_promoted_all_tidy(held, order);
        }
    }
}

impl StateView {
    /// Whether a request that is known stays what its root stands for: the tree has not lost its
    /// block, and no chain of promotions that starts at it comes to its block again.
    pub open spec fn stays(self, root: Hash256) -> bool {
        if self.tree.roots.contains_key(root) {
            self.tree.blocks.contains_key(self.tree.roots[root])
        } else {
            forall|order: Seq<Hash256>, i: int|
                #![trigger self.is_chain(root, order), order[i]]
                self.is_chain(root, order) && 0 < i < order.len()
                    ==> self.buffer[order[i]].metadata.block_hash
                    != self.buffer[root].metadata.block_hash
        }
    }
}

/// Every request of a tidy state stays what its root stands for.
pub proof fn law_tidy_stays(s: StateView, root: Hash256)
    requires
        s.tidy(),
    ensures
        s.stays(root),
{
    if !s.tree.roots.contains_key(root) {
        assert forall|order: Seq<Hash256>, i: int|
            #![trigger s.is_chain(root, order), order[i]]
            s.is_chain(root, order) && 0 < i < order.len() implies s.buffer[order[i]].metadata.block_hash
            != s.buffer[root].metadata.block_hash by {
            assert(order[0] != order[i]);
            assert(s.buffer.contains_key(order[0]) && s.buffer.contains_key(order[i]));
            lemma_fresh(s, root);
        }
    }
}

/// A chain of promotions leaves its first request in the tree as it was, unless it comes to the block
/// again.
proof fn lemma_first_promoted(s: StateView, first: Hash256, order: Seq<Hash256>, n: int)
    requires
        !s.tree.roots.contains_key(first),
        s.is_chain(first, order),
        s.stays(first),
        0 < n <= order.len(),
    ensures
        s.promoted_all(order.take(n)).tree.roots.contains_key(first),
        s.promoted_all(order.take(n)).tree.roots[first] == s.buffer[first].metadata.block_hash,
        s.promoted_all(order.take(n)).tree.blocks.contains_key(
            s.buffer[first].metadata.block_hash,
        ),
        s.promoted_all(order.take(n)).tree.blocks[s.buffer[first].metadata.block_hash]
            == s.buffer[first],
    decreases n,
{
    let next = order.take(n);
    assert(next.last() == order[n - 1]);
    assert(next.drop_last() =~= order.take(n - 1));
    lemma_still_buffered(s, next);
    if n > 1 {
        lemma_first_promoted(s, first, order, n - 1);
        assert(order[0] != order[n - 1]);
    }
}

/// Whatever the state, a proof of a known request is taken, and is then the last of the proofs of
/// that request, if the request stays what its root stands for.
pub proof fn law_inserted_last(
    s: StateView,
    proof_: SignedExecutionProofView,
    after: StateView,
    outcome: Result<ProofStatus, ProofEngineStateError>,
)
    requires
        s.knows(proof_.request_root()),
        s.stays(proof_.request_root()),
        s.inserts(proof_, after, outcome),
    ensures
        outcome is Ok,
        after.knows(proof_.request_root()),
        after.stays(proof_.request_root()),
        after.all_proofs(proof_.request_root()).len() > 0,
        after.all_proofs(proof_.request_root()).last() == proof_,
{
    let root = proof_.request_root();
    if !s.tree.roots.contains_key(root) {
        let held = s.proof_in_buffer(root, proof_);
        assert forall|order: Seq<Hash256>| #[trigger] held.is_chain(root, order) implies s.is_chain(
            root,
            order,
        ) by {
            assert forall|i: int| 0 <= i < order.len() implies s.buffer.contains_key(
                #[trigger] order[i],
            ) by {
                assert(held.buffer.contains_key(order[i]));
            }
            assert forall|i: int| 0 < i < order.len() implies s.proven(#[trigger] order[i])
                && s.follows(order.take(i), order[i]) by {
                assert(order[0] != order[i]);
                assert(held.proven(order[i]) && held.follows(order.take(i), order[i]));
                let j = choose|j: int|
                    0 <= j < order.take(i).len() && (
                    #[trigger] held.buffer[order.take(i)[j]]).metadata.block_hash
                        == held.buffer[order[i]].metadata.parent_hash;
                assert(s.buffer[order.take(i)[j]].metadata.block_hash
                    == s.buffer[order[i]].metadata.parent_hash);
            }
        }
        assert(held.stays(root)) by {
            assert forall|order: Seq<Hash256>, i: int|
                #![trigger held.is_chain(root, order), order[i]]
                held.is_chain(root, order) && 0 < i < order.len() implies
                held.buffer[order[i]].metadata.block_hash
                != held.buffer[root].metadata.block_hash by {
                assert(s.is_chain(root, order));
            }
        }
        if held.can_promote(root) {
            let order = choose|order: Seq<Hash256>|
                {
                    &&& #[trigger] held.is_cascade(root, order)
                    &&& after == held.promoted_all(order)
                };
            lemma_first_promoted(held, root, order, order.len() as int);
            assert(order.take(order.len() as int) =~= order);
        }
    }
}

/// Which requests are promoted in the wake of one does not depend on the order in which they are.
pub proof fn law_one_cascade(s: StateView, first: Hash256, a: Seq<Hash256>, b: Seq<Hash256>)
    requires
        s.is_cascade(first, a),
        s.is_cascade(first, b),
    ensures
        a.to_set() == b.to_set(),
{
    lemma_cascade_within(s, first, a, b, a.len() as int);
    lemma_cascade_within(s, first, b, a, b.len() as int);
    assert forall|root: Hash256| a.contains(root) == b.contains(root) by {
        if a.contains(root) {
            let i = a.index_of(root);
            assert(b.contains(a[i]));
        }
        if b.contains(root) {
            let i = b.index_of(root);
            assert(a.contains(b[i]));
        }
    }
    assert(a.to_set() =~= b.to_set());
}

proof fn lemma_cascade_within(
    s: StateView,
    first: Hash256,
    a: Seq<Hash256>,
    b: Seq<Hash256>,
    n: int,
)
    requires
        s.is_cascade(first, a),
        s.is_cascade(first, b),
        0 <= n <= a.len(),
    ensures
        forall|i: int| 0 <= i < n ==> b.contains(#[trigger] a[i]),
    decreases n,
{
    if n > 0 {
        lemma_cascade_within(s, first, a, b, n - 1);
        let i = n - 1;
        if i == 0 {
            assert(b[0] == a[0]);
        } else {
            assert(s.proven(a[i]) && s.follows(a.take(i), a[i]));
            let j = choose|j: int|
                0 <= j < a.take(i).len() && (#[trigger] s.buffer[a.take(i)[j]]).metadata.block_hash
                    == s.buffer[a[i]].metadata.parent_hash;
            assert(a.take(i)[j] == a[j]);
            let l = b.index_of(a[j]);
            assert(s.buffer[b[l]].metadata.block_hash == s.buffer[a[i]].metadata.parent_hash);
            assert(s.follows(b, a[i]));
            assert(s.due(b, a[i]));
        }
    }
}

/// The promotion of requests one by one keeps a state tidy, and leaves every request as it was.
proof fn lemma_promotes_each(
    s: StateView,
    order: Seq<Hash256>,
    after: StateView,
    root: Hash256,
)
    requires
        s.tidy(),
        s.promotes_each(order, after),
    ensures
        after.tidy(),
        after.request_of(root) == s.request_of(root),
    decreases order.len(),
{
    if order.len() > 0 {
        if s.buffer.contains_key(order[0]) {
            let wake = choose|wake: Seq<Hash256>| #[trigger]
                s.is_cascade(order[0], wake) && s.promoted_all(wake).promotes_each(
                    order.skip(1),
                    after,
                );
            lemma_promoted_requests(s, wake, root);
            lemma_promotes_each(s.promoted_all(wake), order.skip(1), after, root);
        } else {
            lemma_promotes_each(s, order.skip(1), after, root);
        }
    }
}

/// The promotion of requests that the tree can take, one by one, keeps a state sound.
proof fn lemma_promotes_each_sound(
    s: StateView,
    book: Map<ExecutionBlockHash, RequestMetadata>,
    order: Seq<Hash256>,
    after: StateView,
)
    requires
        is_book(book),
        s.sound_in(book),
        forall|i: int|
            0 <= i < order.len() && s.buffer.contains_key(#[trigger] order[i])
                ==> s.buffer[order[i]].metadata.block_hash
                == s.last_valid_fcs.finalized_block_hash,
        s.promotes_each(order, after),
    ensures
        after.sound_in(book),
    decreases order.len(),
{
    if order.len() > 0 {
        let rest = order.skip(1);
        assert forall|i: int| 0 <= i < rest.len() implies #[trigger] rest[i] == order[i + 1] by {}
        if s.buffer.contains_key(order[0]) {
            let wake = choose|wake: Seq<Hash256>| #[trigger]
                s.is_cascade(order[0], wake) && s.promoted_all(wake).promotes_each(rest, after);
            lemma_chain_sound(s, book, order[0], wake, wake.len() as int);
            assert(wake.take(wake.len() as int) =~= wake);
            lemma_promoted_all(s, wake);
            lemma_promotes_each_sound(s.promoted_all(wake), book, rest, after);
        } else {
            lemma_promotes_each_sound(s, book, rest, after);
        }
    }
}

/// A parent that pruning takes out lies below the final block, if one of its children stays.
proof fn lemma_lost_parent(
    s: StateView,
    hash: ExecutionBlockHash,
    p: ExecutionBlockHash,
    c: ExecutionBlockHash,
)
    requires
        s.tree.blocks.contains_key(p),
        survives(s.tree, hash, c),
        s.tree.blocks[c].metadata.parent_hash == p,
        !survives(s.tree, hash, p),
    ensures
        s.tree.blocks[p].metadata.block_number < s.tree.blocks[hash].metadata.block_number,
{
    let links = parents(s.tree.blocks);
    assert(step(links, c, 0) == Some(c));
    assert(step(links, c, 1) == Some(p)) by {
        reveal_with_fuel(step, 2);
    }
    if s.tree.number(p) >= s.tree.number(hash) {
        let beside = choose|beside: ExecutionBlockHash|
            s.tree.blocks.contains_key(beside) && s.tree.number(beside) == s.tree.number(hash)
                && beside != hash && #[trigger] descends(s.tree, beside, p);
        let k = choose|k: nat| #[trigger] step(links, p, k) == Some(beside);
        lemma_walk_on(links, c, 1, p, k);
        assert(step(links, c, 1 + k) == Some(beside));
        assert(descends(s.tree, beside, c));
    }
}

/// A sound state stays sound when it is pruned at one of its blocks, which is the last final one from
/// then on.
proof fn lemma_pruned_in(
    s: StateView,
    book: Map<ExecutionBlockHash, RequestMetadata>,
    hash: ExecutionBlockHash,
    pruned: StateView,
    outcome: Result<(), ProofEngineStateError>,
    after: StateView,
)
    requires
        s.sound_in(book),
        s.tree.blocks.contains_key(hash),
        s.prunes(hash, pruned, outcome),
        after == (StateView { last_valid_fcs: after.last_valid_fcs, ..pruned }),
        after.last_valid_fcs.finalized_block_hash == hash,
    ensures
        outcome is Ok,
        after.sound_in(book),
{
    let n = s.tree.number(hash);
    let last = s.last_valid_fcs.finalized_block_hash;
    law_pruned_sound(s, hash, pruned, outcome);
    lemma_same_metadata(pruned, after);
    let absent = choose|absent: Option<ExecutionBlockHash>| #[trigger]
        s.tree.drops_stale(n, hash, pruned.tree, absent);
    lemma_drops_stale(s, hash, pruned.tree, absent);
    assert(step(parents(s.tree.blocks), hash, 0) == Some(hash));
    assert(descends(s.tree, hash, hash));
    law_final_chain_survives(s, hash, hash);
    assert(after.tree.blocks.contains_key(hash));
    assert(after.tree.blocks[hash] == s.tree.blocks[hash]);
    assert forall|m: RequestMetadata| #[trigger] after.holds(m) implies s.holds(m) by {
        if after.tree.blocks.contains_key(m.block_hash) {
            assert(survives(s.tree, hash, m.block_hash));
        }
        if after.buffer.contains_key(m.request_root) {
            assert(s.buffer.contains_key(m.request_root));
        }
    }
    assert(after.within(book));
    assert(after.based()) by {
        assert forall|h: ExecutionBlockHash| #[trigger] after.tree.blocks.contains_key(h) implies
            after.tree.blocks[hash].metadata.block_number
            <= after.tree.blocks[h].metadata.block_number by {
            assert(survives(s.tree, hash, h));
        }
    }
    assert(after.settled(book)) by {
        assert forall|p: ExecutionBlockHash, c: ExecutionBlockHash| #[trigger]
            after.recalls(p, c) && book.contains_key(p) && !after.tree.blocks.contains_key(
                p,
            ) implies after.tree.blocks.contains_key(hash) && book[p].block_number
            < after.tree.blocks[hash].metadata.block_number by {
            if after.tree.blocks.contains_key(c) {
                assert(survives(s.tree, hash, c));
            }
            if s.tree.blocks.contains_key(p) {
                assert(s.holds(s.tree.blocks[p].metadata));
                assert(!in_set(after.tree.children, p, c));
                assert(!survives(s.tree, hash, p));
                lemma_lost_parent(s, hash, p, c);
            } else {
                assert(in_set(after.tree.children, p, c) == in_set(s.tree.children, p, c));
                assert(s.recalls(p, c));
                assert(s.tree.blocks.contains_key(last));
            }
        }
    }
}

/// A sound state stays sound when the fork choice is updated, and the update never fails.
pub proof fn law_updated_sound(
    s: StateView,
    book: Map<ExecutionBlockHash, RequestMetadata>,
    fcs: ForkchoiceState,
    after: StateView,
    outcome: Result<PayloadStatusView, ProofEngineStateError>,
)
    requires
        is_book(book),
        s.sound_in(book),
        s.updates(fcs, after, outcome),
    ensures
        after.sound_in(book),
        outcome is Ok,
{
    if s.starts_from(fcs) {
        let anchored = s.anchored(fcs);
        lemma_same_metadata_in(s, anchored, book);
        let order = choose|order: Seq<Hash256>|
            lists(order, anchored.promotable()) && #[trigger] anchored.promotes_each(order, after);
        assert forall|i: int|
            0 <= i < order.len() && anchored.buffer.contains_key(
                #[trigger] order[i],
            ) implies anchored.buffer[order[i]].metadata.block_hash
            == anchored.last_valid_fcs.finalized_block_hash by {
            assert(order.to_set().contains(order[i]));
        }
        lemma_promotes_each_sound(anchored, book, order, after);
    } else if !s.tree.blocks.contains_key(fcs.head_block_hash) {
        lemma_same_metadata_in(s, after, book);
    } else if s.fits(fcs) {
        let headed = s.headed(fcs.head_block_hash);
        lemma_same_metadata_in(s, headed, book);
        if s.advances(fcs) {
            let (pruned, result) = choose|
                pruned: StateView,
                result: Result<(), ProofEngineStateError>,
            |
                {
                    &&& #[trigger] headed.prunes(
                        s.resolved(fcs).finalized_block_hash,
                        pruned,
                        result,
                    )
                    &&& match result {
                        Ok(_) => after == (StateView { last_valid_fcs: s.resolved(fcs), ..pruned }),
                        Err(e) => after == pruned,
                    }
                    &&& outcome is Ok <==> result is Ok
                };
            law_pruned_sound(headed, s.resolved(fcs).finalized_block_hash, pruned, result);
            lemma_pruned_in(
                headed,
                book,
                s.resolved(fcs).finalized_block_hash,
                pruned,
                result,
                after,
            );
        } else {
            lemma_same_metadata_in(headed, after, book);
        }
    }
}

impl StateView {
    /// Whether every request of the tree has enough proofs.
    pub open spec fn proven_tree(self) -> bool {
        forall|hash: ExecutionBlockHash| #[trigger]
            self.tree.blocks.contains_key(hash) ==> self.tree.blocks[hash].proofs.len()
                >= self.min_required_proofs
    }
}

/// Promotions of requests with enough proofs leave none in the tree with fewer.
proof fn lemma_promoted_proven(s: StateView, order: Seq<Hash256>)
    requires
        s.proven_tree(),
        order.no_duplicates(),
        forall|i: int|
            0 <= i < order.len() ==> s.buffer.contains_key(#[trigger] order[i]) && s.proven(
                order[i],
            ),
    ensures
        s.promoted_all(order).proven_tree(),
    decreases order.len(),
{
    if order.len() > 0 {
        let init = order.drop_last();
        assert forall|i: int| 0 <= i < init.len() implies s.buffer.contains_key(#[trigger] init[i])
            && s.proven(init[i]) by {
            assert(init[i] == order[i]);
        }
        lemma_promoted_proven(s, init);
        lemma_promoted_all(s, init);
        let last = order.last();
        assert(last == order[order.len() - 1]);
        assert(!init.contains(last)) by {
            if init.contains(last) {
                let i = init.index_of(last);
                assert(order[i] == order[order.len() - 1]);
            }
        }
        let mid = s.promoted_all(init);
        assert(mid.buffer.contains_key(last) && mid.buffer[last] == s.buffer[last]);
    }
}

/// A cascade from a request with enough proofs promotes only requests with enough proofs.
proof fn lemma_cascade_proven(s: StateView, first: Hash256, order: Seq<Hash256>)
    requires
        s.proven_tree(),
        s.is_cascade(first, order),
        s.proven(first),
    ensures
        s.promoted_all(order).proven_tree(),
{
    assert forall|i: int| 0 <= i < order.len() implies s.buffer.contains_key(#[trigger] order[i])
        && s.proven(order[i]) by {
        if i == 0 {
            assert(order[0] == first);
        }
    }
    lemma_promoted_proven(s, order);
}

/// Every request of the tree has enough proofs, and keeps them when a proof is inserted.
pub proof fn law_inserted_proven(
    s: StateView,
    proof_: SignedExecutionProofView,
    after: StateView,
    outcome: Result<ProofStatus, ProofEngineStateError>,
)
    requires
        s.proven_tree(),
        s.inserts(proof_, after, outcome),
    ensures
        after.proven_tree(),
{
    let root = proof_.request_root();
    if !s.tree.roots.contains_key(root) && s.buffer.contains_key(root) {
        let held = s.proof_in_buffer(root, proof_);
        if held.can_promote(root) {
            let order = choose|order: Seq<Hash256>|
                {
                    &&& #[trigger] held.is_cascade(root, order)
                    &&& after == held.promoted_all(order)
                };
            lemma_cascade_proven(held, root, order);
        }
    }
}

/// The promotion of requests with enough proofs, one by one, leaves none in the tree with fewer.
proof fn lemma_promotes_each_proven(s: StateView, order: Seq<Hash256>, after: StateView)
    requires
        s.proven_tree(),
        forall|i: int|
            0 <= i < order.len() && s.buffer.contains_key(#[trigger] order[i]) ==> s.proven(
                order[i],
            ),
        s.promotes_each(order, after),
    ensures
        after.proven_tree(),
    decreases order.len(),
{
    if order.len() > 0 {
        let rest = order.skip(1);
        assert forall|i: int| 0 <= i < rest.len() implies #[trigger] rest[i] == order[i + 1] by {}
        if s.buffer.contains_key(order[0]) {
            let wake = choose|wake: Seq<Hash256>| #[trigger]
                s.is_cascade(order[0], wake) && s.promoted_all(wake).promotes_each(rest, after);
            lemma_cascade_proven(s, order[0], wake);
            lemma_promoted_all(s, wake);
            let mid = s.promoted_all(wake);
            assert forall|i: int|
                0 <= i < rest.len() && mid.buffer.contains_key(#[trigger] rest[i]) implies mid.proven(
                rest[i],
            ) by {
                assert(s.buffer.contains_key(rest[i]) && mid.buffer[rest[i]] == s.buffer[rest[i]]);
            }
            lemma_promotes_each_proven(mid, rest, after);
        } else {
            lemma_promotes_each_proven(s, rest, after);
        }
    }
}

/// Every request of the tree has enough proofs, also after the fork choice was updated.
pub proof fn law_updated_proven(
    s: StateView,
    fcs: ForkchoiceState,
    after: StateView,
    outcome: Result<PayloadStatusView, ProofEngineStateError>,
)
    requires
        s.sound(),
        s.proven_tree(),
        s.updates(fcs, after, outcome),
    ensures
        after.proven_tree(),
{
    if s.starts_from(fcs) {
        let anchored = s.anchored(fcs);
        let order = choose|order: Seq<Hash256>|
            lists(order, anchored.promotable()) && #[trigger] anchored.promotes_each(order, after);
        assert forall|i: int|
            0 <= i < order.len() && anchored.buffer.contains_key(
                #[trigger] order[i],
            ) implies anchored.proven(order[i]) by {
            assert(order.to_set().contains(order[i]));
        }
        lemma_promotes_each_proven(anchored, order, after);
    } else if s.tree.blocks.contains_key(fcs.head_block_hash) && s.fits(fcs) && s.advances(fcs) {
        let headed = s.headed(fcs.head_block_hash);
        lemma_same_metadata(s, headed);
        let fin = s.resolved(fcs).finalized_block_hash;
        let (pruned, result) = choose|
            pruned: StateView,
            result: Result<(), ProofEngineStateError>,
        |
            {
                &&& #[trigger] headed.prunes(fin, pruned, result)
                &&& match result {
                    Ok(_) => after == (StateView { last_valid_fcs: s.resolved(fcs), ..pruned }),
                    Err(e) => after == pruned,
                }
            };
        law_pruned_sound(headed, fin, pruned, result);
        assert forall|hash: ExecutionBlockHash| #[trigger]
            after.tree.blocks.contains_key(hash) implies after.tree.blocks[hash].proofs.len()
            >= after.min_required_proofs by {
            assert(pruned.tree.blocks.contains_key(hash));
            assert(survives(headed.tree, fin, hash));
        }
    }
}

/// A fork choice update that is found invalid changes nothing. One that finds an unknown head is
/// remembered, and changes nothing else.
pub proof fn law_unproven_update_unchanged(
    s: StateView,
    fcs: ForkchoiceState,
    after: StateView,
    outcome: Result<PayloadStatusView, ProofEngineStateError>,
)
    requires
        s.updates(fcs, after, outcome),
        !s.starts_from(fcs),
    ensures
        outcome matches Ok(answer) && answer.status is Invalid ==> after == s,
        outcome matches Ok(answer) && answer.status is Syncing ==> after == (StateView {
            latest_fcs: Some(fcs),
            ..s
        }),
{
}

/// A fork choice update that is found valid becomes the last valid one. The canonical head then is
/// the head of the update or descends from it, and the answer names it.
pub proof fn law_valid_update(
    s: StateView,
    fcs: ForkchoiceState,
    after: StateView,
    outcome: Result<PayloadStatusView, ProofEngineStateError>,
)
    requires
        s.sound(),
        s.updates(fcs, after, outcome),
        outcome is Ok && outcome->Ok_0.status is Valid,
    ensures
        after.last_valid_fcs == s.resolved(fcs),
        after.latest_fcs == s.latest_fcs,
        outcome->Ok_0.latest_valid_hash == Some(after.tree.head),
        descends(s.tree, fcs.head_block_hash, after.tree.head),
{
    let links = parents(s.tree.blocks);
    assert(step(links, fcs.head_block_hash, 0) == Some(fcs.head_block_hash));
    assert(descends(s.tree, fcs.head_block_hash, fcs.head_block_hash));
    if s.advances(fcs) {
        let headed = s.headed(fcs.head_block_hash);
        lemma_same_metadata(s, headed);
        let pruned = lemma_accepted(s, fcs, after, outcome);
        law_pruned_sound(headed, s.resolved(fcs).finalized_block_hash, pruned, Ok(()));
        let n = headed.tree.blocks[s.resolved(fcs).finalized_block_hash].metadata.block_number;
        let absent = choose|absent: Option<ExecutionBlockHash>| #[trigger]
            headed.tree.drops_stale(
                n,
                s.resolved(fcs).finalized_block_hash,
                pruned.tree,
                absent,
            );
        lemma_drops_stale(
            headed,
            s.resolved(fcs).finalized_block_hash,
            pruned.tree,
            absent,
        );
    }
}

/// The state that an accepted update prunes to.
proof fn lemma_accepted(
    s: StateView,
    fcs: ForkchoiceState,
    after: StateView,
    outcome: Result<PayloadStatusView, ProofEngineStateError>,
) -> (pruned: StateView)
    requires
        s.updates(fcs, after, outcome),
        s.advances(fcs),
        outcome is Ok && outcome->Ok_0.status is Valid,
    ensures
        s.fits(fcs),
        !s.starts_from(fcs),
        s.tree.blocks.contains_key(fcs.head_block_hash),
        s.headed(fcs.head_block_hash).prunes(
            s.resolved(fcs).finalized_block_hash,
            pruned,
            Ok(()),
        ),
        after == (StateView { last_valid_fcs: s.resolved(fcs), ..pruned }),
{
    let headed = s.headed(fcs.head_block_hash);
    let (pruned, result) = choose|pruned: StateView, result: Result<(), ProofEngineStateError>|
        {
            &&& #[trigger] headed.prunes(s.resolved(fcs).finalized_block_hash, pruned, result)
            &&& match result {
                Ok(_) => after == (StateView { last_valid_fcs: s.resolved(fcs), ..pruned }),
                Err(e) => after == pruned,
            }
            &&& outcome is Ok <==> result is Ok
        };
    assert(result == Ok::<(), ProofEngineStateError>(()));
    pruned
}

/// A fork choice update that does not name a new final block leaves every request with its proofs.
pub proof fn law_update_keeps_proofs(
    s: StateView,
    fcs: ForkchoiceState,
    after: StateView,
    outcome: Result<PayloadStatusView, ProofEngineStateError>,
    root: Hash256,
)
    requires
        s.tidy(),
        s.updates(fcs, after, outcome),
        s.starts_from(fcs) || !s.advances(fcs),
    ensures
        after.all_proofs(root) == s.all_proofs(root),
        after.knows(root) == s.knows(root),
{
    lemma_proofs_of(s, root);
    if s.starts_from(fcs) {
        let anchored = s.anchored(fcs);
        lemma_same_metadata(s, anchored);
        let order = choose|order: Seq<Hash256>| #[trigger] anchored.promotes_each(order, after);
        lemma_promotes_each(anchored, order, after, root);
        assert(anchored.request_of(root) == s.request_of(root));
        lemma_proofs_of(after, root);
    }
}

/// Walks compose.
proof fn lemma_walk_on(
    links: Map<ExecutionBlockHash, ExecutionBlockHash>,
    a: ExecutionBlockHash,
    j: nat,
    b: ExecutionBlockHash,
    k: nat,
)
    requires
        step(links, a, j) == Some(b),
    ensures
        step(links, a, j + k) == step(links, b, k),
    decreases k,
{
    if k > 0 {
        lemma_walk_on(links, a, j, b, (k - 1) as nat);
    }
}

/// A walk between blocks that descend from the final one is still there after pruning.
proof fn lemma_walk_survives(
    s: StateView,
    hash: ExecutionBlockHash,
    after: StateView,
    a: ExecutionBlockHash,
    b: ExecutionBlockHash,
)
    requires
        s.sound(),
        s.tree.blocks.contains_key(hash),
        s.prunes(hash, after, Ok(())),
        descends(s.tree, hash, a),
        descends(s.tree, a, b),
        s.tree.blocks.contains_key(b),
    ensures
        descends(after.tree, a, b),
        after.tree.blocks.contains_key(b),
{
    law_pruned_sound(s, hash, after, Ok(()));
    let links = parents(s.tree.blocks);
    let links1 = parents(after.tree.blocks);
    let k = choose|k: nat| #[trigger] step(links, b, k) == Some(a);
    let l = choose|l: nat| #[trigger] step(links, a, l) == Some(hash);
    let gone = Set::new(|h: ExecutionBlockHash| !after.tree.blocks.contains_key(h));
    assert(links1 =~= links.remove_keys(gone)) by {
        assert forall|h: ExecutionBlockHash| #[trigger] links1.contains_key(h) implies links1[h]
            == links[h] by {
            assert(after.tree.blocks.contains_key(h));
        }
        assert forall|h: ExecutionBlockHash| links1.contains_key(h) <==> links.remove_keys(
            gone,
        ).contains_key(h) by {
            if after.tree.blocks.contains_key(h) {
                assert(survives(s.tree, hash, h));
            }
        }
    }
    lemma_walk_on(links, b, k, a, l);
    assert(descends(s.tree, hash, b));
    law_final_chain_survives(s, hash, b);
    assert forall|j: nat| j < k implies !gone.contains((#[trigger] step(links, b, j))->0) by {
        lemma_walked(links, b, j, k);
        let v = step(links, b, j)->0;
        assert(links.contains_key(v));
        assert(s.tree.blocks.contains_key(v));
        lemma_walk_on(links, b, j, v, (k - j) as nat);
        lemma_walk_on(links, v, (k - j) as nat, a, l);
        assert(descends(s.tree, hash, v));
        law_final_chain_survives(s, hash, v);
    }
    lemma_walk_in_fewer(links, gone, b, k);
    assert(step(links1, b, k) == Some(a));
}

/// A fork choice update that was found valid is found valid again, and changes nothing then. An
/// update that names a new final block must name a safe block too.
pub proof fn law_valid_update_once(
    s: StateView,
    fcs: ForkchoiceState,
    after: StateView,
    outcome: Result<PayloadStatusView, ProofEngineStateError>,
    again: StateView,
    second: Result<PayloadStatusView, ProofEngineStateError>,
)
    requires
        s.sound(),
        s.updates(fcs, after, outcome),
        outcome is Ok && outcome->Ok_0.status is Valid,
        s.advances(fcs) ==> fcs.safe_block_hash != ExecutionBlockHash::spec_zero(),
        after.updates(fcs, again, second),
    ensures
        again == after,
        second == outcome,
{
    let named = s.resolved(fcs);
    let head = fcs.head_block_hash;
    let links = parents(s.tree.blocks);
    let links1 = parents(after.tree.blocks);
    assert(step(links, head, 0) == Some(head));
    assert(step(links1, named.finalized_block_hash, 0) == Some(named.finalized_block_hash));
    assert(descends(after.tree, named.finalized_block_hash, named.finalized_block_hash));
    assert(step(links1, head, 0) == Some(head));
    assert(descends(after.tree, head, head));
    law_valid_update(s, fcs, after, outcome);
    if s.advances(fcs) {
        let headed = s.headed(head);
        lemma_same_metadata(s, headed);
        let pruned = lemma_accepted(s, fcs, after, outcome);
        let fin = named.finalized_block_hash;
        assert(links == parents(headed.tree.blocks));
        let a = choose|k: nat| #[trigger] step(links, named.safe_block_hash, k) == Some(fin);
        let b = choose|k: nat| #[trigger] step(links, head, k) == Some(named.safe_block_hash);
        lemma_walk_on(links, head, b, named.safe_block_hash, a);
        assert(step(links, head, b + a) == Some(fin));
        assert(descends(headed.tree, fin, head));
        assert(step(links, fin, 0) == Some(fin));
        assert(descends(headed.tree, fin, fin));
        assert(descends(headed.tree, fin, named.safe_block_hash));
        lemma_walk_survives(headed, fin, pruned, named.safe_block_hash, head);
        lemma_walk_survives(headed, fin, pruned, fin, named.safe_block_hash);
        lemma_walk_survives(headed, fin, pruned, fin, fin);
        let c = choose|k: nat| #[trigger] step(links, after.tree.head, k) == Some(head);
        if c > 0 {
            lemma_walked(links, after.tree.head, 0, c);
            assert(headed.tree.blocks.contains_key(after.tree.head));
        }
        assert(headed.tree.blocks.contains_key(after.tree.head));
        assert(descends(headed.tree, head, after.tree.head));
        lemma_walk_survives(headed, fin, pruned, head, after.tree.head);
        assert(descends(after.tree, head, after.tree.head));
    }
    assert(after.resolved(fcs) == named);
    assert(after.tree.blocks.contains_key(head));
    assert(!after.starts_from(fcs)) by {
        assert(after.tree.blocks != Map::<ExecutionBlockHash, PayloadRequestView>::empty());
    }
    assert(after.fits(fcs));
}

/// Along the buffered ancestors of a block, numbers fall, so the walk comes to an end.
proof fn lemma_buffer_walk(
    s: StateView,
    index: Map<ExecutionBlockHash, Hash256>,
    start: ExecutionBlockHash,
    k: nat,
)
    requires
        s.tidy(),
        indexes(s.buffer, index),
        goes_on(index_links(s.buffer, index), start, k),
    ensures
        k <= s.buffer[index[start]].metadata.block_number,
        s.buffer[index[step(index_links(s.buffer, index), start, k)->0]].metadata.block_number + k
            <= s.buffer[index[start]].metadata.block_number,
    decreases k,
{
    let links = index_links(s.buffer, index);
    if k > 0 {
        let before = (k - 1) as nat;
        lemma_goes_on_before(links, start, before, k);
        lemma_buffer_walk(s, index, start, before);
        let p = step(links, start, before)->0;
        let q = step(links, start, k)->0;
        assert(index.contains_key(p) && index.contains_key(q));
        assert(links[p] == q);
        let a = s.buffer[index[q]].metadata;
        let b = s.buffer[index[p]].metadata;
        assert(s.holds(a) && s.holds(b));
        assert(b.parent_hash == a.block_hash);
    }
}

/// What is reported missing is all that is missing: however far one looks beyond the buffered
/// ancestors of the pending head, no more requests lack proofs.
pub proof fn law_missing_complete(
    s: StateView,
    index: Map<ExecutionBlockHash, Hash256>,
    start: ExecutionBlockHash,
    k: nat,
)
    requires
        s.tidy(),
        indexes(s.buffer, index),
        index.dom().finite(),
        k >= index.len(),
    ensures
        missing_within(s, index, start, k) == missing_within(s, index, start, index.len()),
{
    let links = index_links(s.buffer, index);
    assert(links.dom() =~= index.dom());
    if goes_on(links, start, index.len()) {
        let far = (s.buffer[index[start]].metadata.block_number + 1) as nat;
        lemma_circle(links, start, far);
        lemma_buffer_walk(s, index, start, far);
    }
    lemma_missing_stops(s, index, start, index.len(), k);
}

/// In a tidy state there is one list of what is missing.
pub proof fn law_one_missing_list(
    s: StateView,
    a: Seq<MissingProofView>,
    b: Seq<MissingProofView>,
)
    requires
        s.tidy(),
        s.is_missing(a),
        s.is_missing(b),
    ensures
        a == b,
{
    if let Some(fcs) = s.latest_fcs {
        let x = choose|index: Map<ExecutionBlockHash, Hash256>| #[trigger]
            indexes(s.buffer, index) && a == missing_within(
                s,
                index,
                fcs.head_block_hash,
                index.len(),
            );
        let y = choose|index: Map<ExecutionBlockHash, Hash256>| #[trigger]
            indexes(s.buffer, index) && b == missing_within(
                s,
                index,
                fcs.head_block_hash,
                index.len(),
            );
        assert forall|hash: ExecutionBlockHash| x.contains_key(hash) == y.contains_key(hash) && (
        x.contains_key(hash) ==> x[hash] == y[hash]) by {
            if x.contains_key(hash) {
                assert(s.buffer.contains_key(x[hash]));
                lemma_fresh(s, x[hash]);
                assert(y.contains_key(hash));
                assert(s.buffer.contains_key(y[hash]));
            }
            if y.contains_key(hash) {
                assert(s.buffer.contains_key(y[hash]));
            }
        }
        assert(x =~= y);
    }
}

/// Only buffered requests with too few proofs are reported missing.
pub proof fn law_missing_lack_proofs(
    s: StateView,
    index: Map<ExecutionBlockHash, Hash256>,
    start: ExecutionBlockHash,
    n: nat,
)
    requires
        indexes(s.buffer, index),
    ensures
        forall|i: int|
            0 <= i < missing_within(s, index, start, n).len() ==> exists|root: Hash256|
                s.buffer.contains_key(root) && !s.proven(root) && missing_info(
                    #[trigger] s.buffer[root],
                ) == (#[trigger] missing_within(s, index, start, n)[i]),
    decreases n,
{
    if n > 0 {
        let before = missing_within(s, index, start, (n - 1) as nat);
        let all = missing_within(s, index, start, n);
        law_missing_lack_proofs(s, index, start, (n - 1) as nat);
        assert forall|i: int| 0 <= i < all.len() implies exists|root: Hash256|
            s.buffer.contains_key(root) && !s.proven(root) && missing_info(
                #[trigger] s.buffer[root],
            ) == #[trigger] all[i] by {
            if i < before.len() {
                assert(all[i] == before[i]);
                let root = choose|root: Hash256|
                    s.buffer.contains_key(root) && !s.proven(root) && missing_info(
                        #[trigger] s.buffer[root],
                    ) == before[i];
                assert(missing_info(s.buffer[root]) == all[i]);
            } else {
                let hash = step(index_links(s.buffer, index), start, (n - 1) as nat)->0;
                assert(s.buffer.contains_key(index[hash]));
                assert(missing_info(s.buffer[index[hash]]) == all[i]);
            }
        }
    }
}

/// A tidy state that was stored and restored is the state that it was, with the default threshold.
pub proof fn law_sound_state_restores(s: StateView, stored: PersistedProofEngineState)
    requires
        s.tidy(),
        stored.stores(s),
    ensures
        stored.state() == (StateView {
            min_required_proofs: MIN_REQUIRED_EXECUTION_PROOFS as nat,
            ..s
        }),
{
    assert(well_keyed(s));
    law_store_restore(s, stored);
}

} // verus!
