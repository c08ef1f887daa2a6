//! The invariant of the engine's state: its maps say the same of the same blocks, and the numbers of
//! blocks rise from parents to children. Every operation keeps it, as long as the requests that the
//! state is given do not contradict each other.

use crate::engine::errors::ProofEngineStateError;
use crate::engine::state_model::{
    lemma_promoted_all, PayloadRequestView, RequestMetadata, StateView,
};
use crate::execution_proof::{ProofStatus, SignedExecutionProofView};
use crate::hash::{ExecutionBlockHash, Hash256};
use vstd::prelude::*;

verus! {

/// Whether `item` is in the set of `key`.
pub open spec fn in_set<K, T>(sets: Map<K, Set<T>>, key: K, item: T) -> bool {
    sets.contains_key(key) && sets[key].contains(item)
}

impl StateView {
    /// Whether a request with this metadata is in the tree or in the buffer.
    pub open spec fn holds(self, meta: RequestMetadata) -> bool {
        ||| self.tree.blocks.contains_key(meta.block_hash)
            && self.tree.blocks[meta.block_hash].metadata == meta
        ||| self.buffer.contains_key(meta.request_root) && self.buffer[meta.request_root].metadata
            == meta
    }

    /// Whether every request stands under its own block in the tree or its own root in the buffer,
    /// and the roots of the tree are exactly those of its requests. No request is in both.
    pub open spec fn keyed(self) -> bool {
        &&& forall|hash: ExecutionBlockHash| #[trigger]
            self.tree.blocks.contains_key(hash) ==> self.tree.blocks[hash].metadata.block_hash
                == hash && self.tree.roots.contains_key(
                self.tree.blocks[hash].metadata.request_root,
            ) && self.tree.roots[self.tree.blocks[hash].metadata.request_root] == hash
        &&& forall|root: Hash256| #[trigger]
            self.tree.roots.contains_key(root) ==> self.tree.blocks.contains_key(
                self.tree.roots[root],
            ) && self.tree.blocks[self.tree.roots[root]].metadata.request_root == root
        &&& forall|root: Hash256| #[trigger]
            self.buffer.contains_key(root) ==> self.buffer[root].metadata.request_root == root
                && !self.tree.roots.contains_key(root)
    }

    /// Whether no two requests are about one block.
    pub open spec fn one_per_block(self) -> bool {
        forall|a: RequestMetadata, b: RequestMetadata| #[trigger]
            self.holds(a) && #[trigger] self.holds(b) && a.block_hash == b.block_hash ==> a == b
    }

    /// Whether the number of each block is larger than that of its parent.
    pub open spec fn rising(self) -> bool {
        forall|a: RequestMetadata, b: RequestMetadata| #[trigger]
            self.holds(a) && #[trigger] self.holds(b) && b.parent_hash == a.block_hash
                ==> a.block_number < b.block_number
    }

    /// Whether the index of heights lists exactly the blocks of the tree.
    pub open spec fn numbered(self) -> bool {
        forall|n: u64, hash: ExecutionBlockHash| #[trigger]
            in_set(self.tree.numbers, n, hash) <==> self.tree.blocks.contains_key(hash)
                && self.tree.blocks[hash].metadata.block_number == n
    }

    /// Whether the index of children lists exactly the children of each block of the tree.
    pub open spec fn linked(self) -> bool {
        forall|hash: ExecutionBlockHash, child: ExecutionBlockHash| #[trigger]
            self.tree.blocks.contains_key(hash) ==> (#[trigger] in_set(
                self.tree.children,
                hash,
                child,
            ) <==> self.tree.blocks.contains_key(child)
                && self.tree.blocks[child].metadata.parent_hash == hash)
    }

    /// Whether requests stand under their own keys, no two are about one block, numbers rise from
    /// parents to children, and the index of heights lists the blocks of the tree.
    pub open spec fn tidy(self) -> bool {
        &&& self.keyed()
        &&& self.one_per_block()
        &&& self.rising()
        &&& self.numbered()
    }

    /// Whether the maps of the state say the same of the same blocks, and numbers rise from parents
    /// to children.
    pub open spec fn sound(self) -> bool {
        self.tidy() && self.linked()
    }

    /// Whether every request is the one that the book has for its block.
    pub open spec fn within(self, book: Map<ExecutionBlockHash, RequestMetadata>) -> bool {
        forall|m: RequestMetadata| #[trigger] self.holds(m) ==> noted(book, m)
    }

    /// Whether the tree has blocks only together with the block that was last found final, and none
    /// below that.
    pub open spec fn based(self) -> bool {
        let last = self.last_valid_fcs.finalized_block_hash;
        forall|hash: ExecutionBlockHash| #[trigger]
            self.tree.blocks.contains_key(hash) ==> self.tree.blocks.contains_key(last)
                && self.tree.blocks[last].metadata.block_number
                <= self.tree.blocks[hash].metadata.block_number
    }

    /// Whether the tree has a trace of `child` as a child of `hash`: in the index of children, or by
    /// the parent that `child` names.
    pub open spec fn recalls(self, hash: ExecutionBlockHash, child: ExecutionBlockHash) -> bool {
        in_set(self.tree.children, hash, child) || self.tree.blocks.contains_key(child)
            && self.tree.blocks[child].metadata.parent_hash == hash
    }

    /// Whether the tree has traces of children of a block that it does not hold only where the block
    /// lies below the one that was last found final.
    pub open spec fn settled(self, book: Map<ExecutionBlockHash, RequestMetadata>) -> bool {
        let last = self.last_valid_fcs.finalized_block_hash;
        forall|hash: ExecutionBlockHash, child: ExecutionBlockHash| #[trigger]
            self.recalls(hash, child) && book.contains_key(hash) && !self.tree.blocks.contains_key(
                hash,
            ) ==> self.tree.blocks.contains_key(last) && book[hash].block_number
                < self.tree.blocks[last].metadata.block_number
    }

    /// Whether the state is sound and holds no request but those of the book, and whatever its tree
    /// can still take has left no trace there.
    pub open spec fn sound_in(self, book: Map<ExecutionBlockHash, RequestMetadata>) -> bool {
        &&& self.sound()
        &&& self.within(book)
        &&& self.based()
        &&& self.settled(book)
    }
}

/// Whether a book of requests, one for each block, does not contradict itself: each stands under its
/// block, no two have one root, and the number of a block is larger than that of its parent.
pub open spec fn is_book(book: Map<ExecutionBlockHash, RequestMetadata>) -> bool {
    &&& forall|hash: ExecutionBlockHash| #[trigger]
        book.contains_key(hash) ==> book[hash].block_hash == hash
    &&& forall|a: ExecutionBlockHash, b: ExecutionBlockHash| #[trigger]
        book.contains_key(a) && #[trigger] book.contains_key(b) && book[a].request_root
            == book[b].request_root ==> a == b
    &&& forall|a: ExecutionBlockHash, b: ExecutionBlockHash| #[trigger]
        book.contains_key(a) && #[trigger] book.contains_key(b) && book[b].parent_hash == a
            ==> book[a].block_number < book[b].block_number
}

/// Whether a request is the one that the book has for its block.
pub open spec fn noted(
    book: Map<ExecutionBlockHash, RequestMetadata>,
    meta: RequestMetadata,
) -> bool {
    book.contains_key(meta.block_hash) && book[meta.block_hash] == meta
}

/// The state before anything was seen is sound.
pub proof fn law_initial_sound(
    min_required_proofs: nat,
    book: Map<ExecutionBlockHash, RequestMetadata>,
)
    ensures
        StateView::initial(min_required_proofs).sound_in(book),
{
}

/// A sound state stays sound when a request of the book is buffered.
pub proof fn law_buffered_sound(
    s: StateView,
    book: Map<ExecutionBlockHash, RequestMetadata>,
    request: RequestMetadata,
)
    requires
        is_book(book),
        s.sound_in(book),
        noted(book, request),
    ensures
        s.buffered(request).sound_in(book),
{
    if !s.knows(request.request_root) {
        let after = s.buffered(request);
        assert forall|a: RequestMetadata| #[trigger] after.holds(a) <==> s.holds(a) || a
            == request by {
            if s.buffer.contains_key(a.request_root) {
                assert(a.request_root != request.request_root);
            }
        }
        assert(after.within(book));
        assert(after.one_per_block());
        assert(after.rising());
        assert forall|hash: ExecutionBlockHash, child: ExecutionBlockHash| #[trigger]
            after.recalls(hash, child) == s.recalls(hash, child) by {}
    }
}

/// What is held does not depend on proofs.
pub open spec fn same_metadata(a: StateView, b: StateView) -> bool {
    &&& a.tree.blocks.dom() == b.tree.blocks.dom()
    &&& forall|hash: ExecutionBlockHash| #[trigger]
        a.tree.blocks.contains_key(hash) ==> a.tree.blocks[hash].metadata
            == b.tree.blocks[hash].metadata
    &&& a.tree.roots == b.tree.roots
    &&& a.tree.children == b.tree.children
    &&& a.tree.numbers == b.tree.numbers
    &&& a.buffer.dom() == b.buffer.dom()
    &&& forall|root: Hash256| #[trigger]
        a.buffer.contains_key(root) ==> a.buffer[root].metadata == b.buffer[root].metadata
}

/// Whether a state is tidy, and sound, does not depend on proofs, on the head, or on fork choice
/// states.
pub proof fn lemma_same_metadata(a: StateView, b: StateView)
    requires
        a.tidy(),
        same_metadata(a, b),
    ensures
        b.tidy(),
        a.linked() ==> b.linked(),
        forall|m: RequestMetadata| #[trigger] b.holds(m) <==> a.holds(m),
{
    assert forall|hash: ExecutionBlockHash| b.tree.blocks.contains_key(hash)
        == #[trigger] a.tree.blocks.contains_key(hash) by {
        assert(a.tree.blocks.dom().contains(hash) == b.tree.blocks.dom().contains(hash));
    }
    assert forall|root: Hash256| b.buffer.contains_key(root) == #[trigger] a.buffer.contains_key(
        root,
    ) by {
        assert(a.buffer.dom().contains(root) == b.buffer.dom().contains(root));
    }
    assert forall|m: RequestMetadata| #[trigger] b.holds(m) <==> a.holds(m) by {
        assert(a.tree.blocks.contains_key(m.block_hash) == b.tree.blocks.contains_key(
            m.block_hash,
        ));
        assert(a.buffer.contains_key(m.request_root) == b.buffer.contains_key(m.request_root));
    }
    assert(b.keyed()) by {
        assert forall|hash: ExecutionBlockHash| #[trigger]
            b.tree.blocks.contains_key(hash) implies b.tree.blocks[hash].metadata.block_hash == hash
            && b.tree.roots.contains_key(b.tree.blocks[hash].metadata.request_root)
            && b.tree.roots[b.tree.blocks[hash].metadata.request_root] == hash by {
            assert(a.tree.blocks.contains_key(hash));
        }
        assert forall|root: Hash256| #[trigger] b.tree.roots.contains_key(root) implies
            b.tree.blocks.contains_key(b.tree.roots[root])
            && b.tree.blocks[b.tree.roots[root]].metadata.request_root == root by {
            assert(a.tree.roots.contains_key(root));
            assert(a.tree.blocks.contains_key(a.tree.roots[root]));
        }
        assert forall|root: Hash256| #[trigger] b.buffer.contains_key(root) implies
            b.buffer[root].metadata.request_root == root && !b.tree.roots.contains_key(root) by {
            assert(a.buffer.contains_key(root));
        }
    }
    assert(b.numbered()) by {
        assert forall|n: u64, hash: ExecutionBlockHash| #[trigger]
            in_set(b.tree.numbers, n, hash) <==> b.tree.blocks.contains_key(hash)
                && b.tree.blocks[hash].metadata.block_number == n by {
            assert(in_set(a.tree.numbers, n, hash) == in_set(b.tree.numbers, n, hash));
            assert(a.tree.blocks.contains_key(hash) == b.tree.blocks.contains_key(hash));
        }
    }
    if a.linked() {
        assert forall|hash: ExecutionBlockHash, child: ExecutionBlockHash| #[trigger]
            b.tree.blocks.contains_key(hash) implies (#[trigger] in_set(
            b.tree.children,
            hash,
            child,
        ) <==> b.tree.blocks.contains_key(child) && b.tree.blocks[child].metadata.parent_hash
            == hash) by {
            assert(a.tree.blocks.contains_key(hash));
            assert(in_set(a.tree.children, hash, child) == in_set(b.tree.children, hash, child));
            assert(a.tree.blocks.contains_key(child) == b.tree.blocks.contains_key(child));
        }
    }
}

/// Whether a state is sound in a book does not depend on proofs or on the head.
pub proof fn lemma_same_metadata_in(
    a: StateView,
    b: StateView,
    book: Map<ExecutionBlockHash, RequestMetadata>,
)
    requires
        a.sound_in(book),
        same_metadata(a, b),
        a.last_valid_fcs.finalized_block_hash == b.last_valid_fcs.finalized_block_hash || a.tree.blocks
            == Map::<ExecutionBlockHash, PayloadRequestView>::empty(),
    ensures
        b.sound_in(book),
{
    lemma_same_metadata(a, b);
    assert forall|hash: ExecutionBlockHash| b.tree.blocks.contains_key(hash)
        == #[trigger] a.tree.blocks.contains_key(hash) by {
        assert(a.tree.blocks.dom().contains(hash) == b.tree.blocks.dom().contains(hash));
    }
    assert(b.based()) by {
        assert forall|hash: ExecutionBlockHash| #[trigger]
            b.tree.blocks.contains_key(hash) implies b.tree.blocks.contains_key(
            b.last_valid_fcs.finalized_block_hash,
        ) && b.tree.blocks[b.last_valid_fcs.finalized_block_hash].metadata.block_number
            <= b.tree.blocks[hash].metadata.block_number by {
            assert(a.tree.blocks.contains_key(hash));
            assert(a.tree.blocks.contains_key(a.last_valid_fcs.finalized_block_hash));
        }
    }
    assert forall|hash: ExecutionBlockHash, child: ExecutionBlockHash| #[trigger]
        b.recalls(hash, child) == a.recalls(hash, child) by {
        assert(a.tree.blocks.contains_key(child) == b.tree.blocks.contains_key(child));
    }
    assert(b.settled(book)) by {
        assert forall|hash: ExecutionBlockHash, child: ExecutionBlockHash| #[trigger]
            b.recalls(hash, child) && book.contains_key(hash) && !b.tree.blocks.contains_key(
                hash,
            ) implies b.tree.blocks.contains_key(b.last_valid_fcs.finalized_block_hash)
            && book[hash].block_number
            < b.tree.blocks[b.last_valid_fcs.finalized_block_hash].metadata.block_number by {
            assert(a.recalls(hash, child));
            assert(!a.tree.blocks.contains_key(hash));
            assert(a.tree.blocks.contains_key(a.last_valid_fcs.finalized_block_hash));
        }
    }
}

/// A buffered request of a tidy state is about a block that the tree does not have.
pub proof fn lemma_fresh(s: StateView, root: Hash256)
    requires
        s.tidy(),
        s.buffer.contains_key(root),
    ensures
        s.holds(s.buffer[root].metadata),
        !s.tree.blocks.contains_key(s.buffer[root].metadata.block_hash),
        forall|other: Hash256| #[trigger]
            s.buffer.contains_key(other) && other != root ==> s.buffer[other].metadata.block_hash
                != s.buffer[root].metadata.block_hash,
{
    let meta = s.buffer[root].metadata;
    assert(s.holds(meta));
    if s.tree.blocks.contains_key(meta.block_hash) {
        let other = s.tree.blocks[meta.block_hash].metadata;
        assert(s.holds(other));
    }
    assert forall|other: Hash256| #[trigger]
        s.buffer.contains_key(other) && other != root implies s.buffer[other].metadata.block_hash
        != meta.block_hash by {
        assert(s.holds(s.buffer[other].metadata));
    }
}

/// Promotion keeps a state tidy, and the same requests are held after it.
pub proof fn lemma_promoted_tidy(s: StateView, root: Hash256)
    requires
        s.tidy(),
        s.buffer.contains_key(root),
    ensures
        s.promoted(root).tidy(),
        forall|m: RequestMetadata| #[trigger] s.promoted(root).holds(m) <==> s.holds(m),
{
    let after = s.promoted(root);
    let meta = s.buffer[root].metadata;
    lemma_fresh(s, root);
    assert forall|m: RequestMetadata| #[trigger] after.holds(m) <==> s.holds(m) by {}
    assert(after.keyed()) by {
        assert forall|hash: ExecutionBlockHash| #[trigger]
            after.tree.blocks.contains_key(hash) implies after.tree.blocks[hash].metadata.block_hash
            == hash && after.tree.roots.contains_key(after.tree.blocks[hash].metadata.request_root)
            && after.tree.roots[after.tree.blocks[hash].metadata.request_root] == hash by {
            if hash != meta.block_hash {
                assert(s.tree.blocks.contains_key(hash));
            }
        }
        assert forall|r: Hash256| #[trigger] after.tree.roots.contains_key(r) implies
            after.tree.blocks.contains_key(after.tree.roots[r])
            && after.tree.blocks[after.tree.roots[r]].metadata.request_root == r by {
            if r != root {
                assert(s.tree.roots.contains_key(r));
                assert(s.tree.blocks.contains_key(s.tree.roots[r]));
            }
        }
        assert forall|r: Hash256| #[trigger] after.buffer.contains_key(r) implies
            after.buffer[r].metadata.request_root == r && !after.tree.roots.contains_key(r) by {
            assert(s.buffer.contains_key(r));
        }
    }
    assert(after.numbered()) by {
        assert forall|n: u64, hash: ExecutionBlockHash| #[trigger]
            in_set(after.tree.numbers, n, hash) <==> after.tree.blocks.contains_key(hash)
                && after.tree.blocks[hash].metadata.block_number == n by {
            assert(in_set(s.tree.numbers, n, hash) <==> s.tree.blocks.contains_key(hash)
                && s.tree.blocks[hash].metadata.block_number == n);
        }
    }
}

/// Promotions keep a state tidy, where the requests are in the buffer and none comes twice.
pub proof fn lemma_promoted_all_tidy(s: StateView, order: Seq<Hash256>)
    requires
        s.tidy(),
        order.no_duplicates(),
        forall|i: int| 0 <= i < order.len() ==> s.buffer.contains_key(#[trigger] order[i]),
    ensures
        s.promoted_all(order).tidy(),
    decreases order.len(),
{
    if order.len() > 0 {
        let init = order.drop_last();
        assert forall|i: int| 0 <= i < init.len() implies s.buffer.contains_key(
            #[trigger] init[i],
        ) by {
            assert(init[i] == order[i]);
        }
        lemma_promoted_all_tidy(s, init);
        lemma_still_buffered(s, order);
        lemma_promoted_tidy(s.promoted_all(init), order.last());
    }
}

/// The last of the requests that are promoted waits in the buffer until its turn comes.
pub proof fn lemma_still_buffered(s: StateView, order: Seq<Hash256>)
    requires
        order.len() > 0,
        order.no_duplicates(),
        s.buffer.contains_key(order.last()),
    ensures
        s.promoted_all(order.drop_last()).buffer.contains_key(order.last()),
        s.promoted_all(order.drop_last()).buffer[order.last()] == s.buffer[order.last()],
{
    let init = order.drop_last();
    let last = order.last();
    lemma_promoted_all(s, init);
    if init.contains(last) {
        let i = init.index_of(last);
        assert(order[i] == order[order.len() - 1]);
    }
}

/// The promotion of a request that the tree can take keeps a state sound.
proof fn lemma_promoted_in(
    s: StateView,
    book: Map<ExecutionBlockHash, RequestMetadata>,
    root: Hash256,
)
    requires
        is_book(book),
        s.sound_in(book),
        s.buffer.contains_key(root),
        s.grounds(root),
    ensures
        s.promoted(root).sound_in(book),
{
    let after = s.promoted(root);
    let meta = s.buffer[root].metadata;
    let hash = meta.block_hash;
    let last = s.last_valid_fcs.finalized_block_hash;
    lemma_fresh(s, root);
    lemma_promoted_tidy(s, root);
    assert(noted(book, meta));
    if s.tree.blocks.contains_key(meta.parent_hash) {
        assert(s.holds(s.tree.blocks[meta.parent_hash].metadata));
        assert(s.tree.blocks.contains_key(last));
    }
    assert forall|child: ExecutionBlockHash| !#[trigger] s.recalls(hash, child) by {}
    assert forall|p: ExecutionBlockHash, child: ExecutionBlockHash| #[trigger]
        after.recalls(p, child) <==> s.recalls(p, child) || p == meta.parent_hash && child
            == hash by {}
    assert(after.linked()) by {
        assert forall|p: ExecutionBlockHash, child: ExecutionBlockHash| #[trigger]
            after.tree.blocks.contains_key(p) implies (#[trigger] in_set(
            after.tree.children,
            p,
            child,
        ) <==> after.tree.blocks.contains_key(child)
            && after.tree.blocks[child].metadata.parent_hash == p) by {
            assert(!s.recalls(hash, child));
            if p != hash {
                assert(s.tree.blocks.contains_key(p));
                assert(in_set(s.tree.children, p, child) <==> s.tree.blocks.contains_key(child)
                    && s.tree.blocks[child].metadata.parent_hash == p);
            }
        }
    }
    assert(after.based()) by {
        assert forall|h: ExecutionBlockHash| #[trigger] after.tree.blocks.contains_key(h) implies
            after.tree.blocks.contains_key(last) && after.tree.blocks[last].metadata.block_number
            <= after.tree.blocks[h].metadata.block_number by {
            if h != hash {
                assert(s.tree.blocks.contains_key(h));
            }
        }
    }
    assert(after.settled(book)) by {
        assert forall|p: ExecutionBlockHash, child: ExecutionBlockHash| #[trigger]
            after.recalls(p, child) && book.contains_key(p) && !after.tree.blocks.contains_key(
                p,
            ) implies after.tree.blocks.contains_key(last) && book[p].block_number
            < after.tree.blocks[last].metadata.block_number by {
            if s.recalls(p, child) {
                assert(s.tree.blocks.contains_key(last));
            } else {
                assert(book.contains_key(hash) && book[hash].parent_hash == p);
            }
        }
    }
}

/// The promotion of a request that the tree can take, with what follows from it, keeps a state sound.
pub proof fn lemma_chain_sound(
    s: StateView,
    book: Map<ExecutionBlockHash, RequestMetadata>,
    first: Hash256,
    order: Seq<Hash256>,
    n: int,
)
    requires
        is_book(book),
        s.sound_in(book),
        s.is_chain(first, order),
        s.grounds(first),
        0 <= n <= order.len(),
    ensures
        s.promoted_all(order.take(n)).sound_in(book),
        forall|j: int|
            0 <= j < n ==> s.promoted_all(order.take(n)).tree.blocks.contains_key(
                (#[trigger] s.buffer[order[j]]).metadata.block_hash,
            ),
    decreases n,
{
    if n > 0 {
        let before = order.take(n - 1);
        let next = order.take(n);
        let root = order[n - 1];
        lemma_chain_sound(s, book, first, order, n - 1);
        assert(next.drop_last() =~= before);
        assert(next.last() == root);
        lemma_still_buffered(s, next);
        lemma_promoted_all(s, before);
        let mid = s.promoted_all(before);
        if n > 1 {
            assert(s.follows(before, root));
            let j = choose|j: int|
                0 <= j < before.len() && (#[trigger] s.buffer[before[j]]).metadata.block_hash
                    == s.buffer[root].metadata.parent_hash;
            assert(before[j] == order[j]);
            assert(mid.tree.blocks.contains_key(s.buffer[order[j]].metadata.block_hash));
        } else {
            assert(before =~= Seq::<Hash256>::empty());
        }
        lemma_promoted_in(mid, book, root);
    }
}

/// A sound state stays sound when a proof is inserted, whatever comes of it.
pub proof fn law_inserted_sound(
    s: StateView,
    book: Map<ExecutionBlockHash, RequestMetadata>,
    proof_: SignedExecutionProofView,
    after: StateView,
    outcome: Result<ProofStatus, ProofEngineStateError>,
)
    requires
        is_book(book),
        s.sound_in(book),
        s.inserts(proof_, after, outcome),
    ensures
        after.sound_in(book),
{
    let root = proof_.request_root();
    if s.tree.roots.contains_key(root) {
        let hash = s.tree.roots[root];
        if s.tree.blocks.contains_key(hash) {
            assert(after.tree.blocks.dom() =~= s.tree.blocks.dom());
            lemma_same_metadata_in(s, after, book);
        }
    } else if s.buffer.contains_key(root) {
        let held = s.proof_in_buffer(root, proof_);
        assert(held.buffer.dom() =~= s.buffer.dom());
        lemma_same_metadata_in(s, held, book);
        if held.can_promote(root) {
            let order = choose|order: Seq<Hash256>|
                {
                    &&& #[trigger] held.is_cascade(root, order)
                    &&& after == held.promoted_all(order)
                };
            lemma_chain_sound(held, book, root, order, order.len() as int);
            assert(order.take(order.len() as int) =~= order);
        }
    }
}

} // verus!
