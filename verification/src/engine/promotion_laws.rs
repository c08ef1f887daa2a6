//! Which requests a proof, or a first final block, moves into the tree, and where that leaves the
//! canonical head.

use crate::engine::errors::ProofEngineStateError;
use crate::engine::forkchoice::{ForkchoiceState, PayloadStatusV1Status, PayloadStatusView};
use crate::engine::lineage::{comes_after, is_line, stems};
use crate::engine::prune_model::lists;
use crate::engine::soundness::{
    in_set, lemma_fresh, lemma_promoted_all_tidy, lemma_same_metadata, lemma_still_buffered,
};
use crate::engine::state_model::{
    lemma_promoted_all, PayloadRequestView, RequestMetadata, StateView, TreeView,
};
use crate::execution_proof::{ProofStatus, SignedExecutionProofView};
use crate::hash::{ExecutionBlockHash, Hash256};
use vstd::prelude::*;

verus! {

/// Whether the request at `i` is about a child of the block that the next one is about, and has
/// enough proofs.
pub open spec fn is_due_after(s: StateView, line: Seq<Hash256>, i: int) -> bool {
    s.buffer[line[i]].metadata.parent_hash == s.buffer[line[i + 1]].metadata.block_hash
        && s.buffer[line[i]].proofs.len() >= s.min_required_proofs
}

/// Whether `line` leads from one buffered request to another, each about a child of the block that
/// the next one is about, and all but the last with enough proofs.
pub open spec fn is_due_line(s: StateView, line: Seq<Hash256>, from: Hash256, to: Hash256) -> bool {
    &&& line.len() > 0
    &&& line[0] == from
    &&& line[line.len() - 1] == to
    &&& forall|i: int| 0 <= i < line.len() ==> s.buffer.contains_key(#[trigger] line[i])
    &&& forall|i: int| 0 <= i < line.len() - 1 ==> #[trigger] is_due_after(s, line, i)
}

/// Whether the promotion of `to` lets `from` follow.
pub open spec fn waits_for(s: StateView, from: Hash256, to: Hash256) -> bool {
    exists|line: Seq<Hash256>| #[trigger] is_due_line(s, line, from, to)
}

/// Every promotion of a cascade waited for the first one.
proof fn lemma_cascade_waits(s: StateView, first: Hash256, order: Seq<Hash256>, n: int)
    requires
        s.is_chain(first, order),
        0 <= n < order.len(),
    ensures
        waits_for(s, order[n], first),
    decreases n,
{
    if n == 0 {
        assert(is_due_line(s, seq![first], first, first));
    } else {
        assert(s.proven(order[n]) && s.follows(order.take(n), order[n]));
        let j = choose|j: int|
            0 <= j < order.take(n).len() && (#[trigger] s.buffer[order.take(
                n,
            )[j]]).metadata.block_hash == s.buffer[order[n]].metadata.parent_hash;
        assert(order.take(n)[j] == order[j]);
        lemma_cascade_waits(s, first, order, j);
        let rest = choose|line: Seq<Hash256>| #[trigger] is_due_line(s, line, order[j], first);
        let line = seq![order[n]] + rest;
        assert forall|i: int| 0 <= i < line.len() implies s.buffer.contains_key(
            #[trigger] line[i],
        ) by {
            if i > 0 {
                assert(line[i] == rest[i - 1]);
            }
        }
        assert forall|i: int| 0 <= i < line.len() - 1 implies #[trigger] is_due_after(
            s,
            line,
            i,
        ) by {
            if i > 0 {
                assert(is_due_after(s, rest, i - 1));
                assert(line[i] == rest[i - 1] && line[i + 1] == rest[i]);
            } else {
                assert(line[1] == rest[0]);
            }
        }
        assert(is_due_line(s, line, order[n], first));
    }
}

/// Whatever waits for the first promotion of a cascade is promoted in it.
proof fn lemma_waits_in_cascade(
    s: StateView,
    first: Hash256,
    order: Seq<Hash256>,
    line: Seq<Hash256>,
    from: Hash256,
    k: int,
)
    requires
        s.is_cascade(first, order),
        is_due_line(s, line, from, first),
        0 <= k < line.len(),
    ensures
        order.contains(line[k]),
    decreases line.len() - k,
{
    if k == line.len() - 1 {
        assert(order[0] == first);
    } else {
        lemma_waits_in_cascade(s, first, order, line, from, k + 1);
        assert(is_due_after(s, line, k));
        let j = order.index_of(line[k + 1]);
        assert(s.buffer[order[j]].metadata.block_hash == s.buffer[line[k]].metadata.parent_hash);
        assert(s.follows(order, line[k]));
        assert(s.buffer.contains_key(line[k]));
        assert(s.due(order, line[k]));
    }
}

/// A cascade promotes exactly what waits for its first promotion.
proof fn lemma_cascade_members(s: StateView, first: Hash256, order: Seq<Hash256>, root: Hash256)
    requires
        s.is_cascade(first, order),
    ensures
        order.contains(root) <==> waits_for(s, root, first),
{
    if order.contains(root) {
        lemma_cascade_waits(s, first, order, order.index_of(root));
    }
    if waits_for(s, root, first) {
        let line = choose|line: Seq<Hash256>| #[trigger] is_due_line(s, line, root, first);
        lemma_waits_in_cascade(s, first, order, line, root, 0);
    }
}

/// Promotions add the blocks of the promoted requests to the tree, and leave those that are there.
proof fn lemma_promoted_blocks(s: StateView, order: Seq<Hash256>)
    requires
        s.tidy(),
        order.no_duplicates(),
        forall|i: int| 0 <= i < order.len() ==> s.buffer.contains_key(#[trigger] order[i]),
    ensures
        forall|i: int|
            0 <= i < order.len() ==> {
                let request = s.buffer[#[trigger] order[i]];
                s.promoted_all(order).tree.blocks.contains_key(request.metadata.block_hash)
                    && s.promoted_all(order).tree.blocks[request.metadata.block_hash] == request
            },
        forall|h: ExecutionBlockHash| #[trigger]
            s.tree.blocks.contains_key(h) ==> s.promoted_all(order).tree.blocks.contains_key(h)
                && s.promoted_all(order).tree.blocks[h] == s.tree.blocks[h],
        forall|h: ExecutionBlockHash| #[trigger]
            s.promoted_all(order).tree.blocks.contains_key(h) ==> s.tree.blocks.contains_key(h)
                || exists|i: int|
                0 <= i < order.len() && (#[trigger] s.buffer[order[i]]).metadata.block_hash == h,
    decreases order.len(),
{
    if order.len() > 0 {
        let init = order.drop_last();
        let last = order.last();
        assert forall|i: int| 0 <= i < init.len() implies s.buffer.contains_key(#[trigger] init[i])
            && init[i] == order[i] by {}
        lemma_promoted_blocks(s, init);
        assert(last == order[order.len() - 1]);
        lemma_still_buffered(s, order);
        lemma_fresh(s, last);
        let mid = s.promoted_all(init);
        let after = s.promoted_all(order);
        let added = s.buffer[last].metadata.block_hash;
        assert forall|i: int| 0 <= i < order.len() implies {
            let request = s.buffer[#[trigger] order[i]];
            after.tree.blocks.contains_key(request.metadata.block_hash)
                && after.tree.blocks[request.metadata.block_hash] == request
        } by {
            if i < init.len() {
                assert(init[i] == order[i]);
                assert(s.buffer.contains_key(order[i]) && order[i] != last);
            }
        }
        assert forall|h: ExecutionBlockHash| #[trigger]
            after.tree.blocks.contains_key(h) implies s.tree.blocks.contains_key(h) || exists|i: int|
            0 <= i < order.len() && (#[trigger] s.buffer[order[i]]).metadata.block_hash == h by {
            if h != added {
                assert(mid.tree.blocks.contains_key(h));
                if !s.tree.blocks.contains_key(h) {
                    let i = choose|i: int|
                        0 <= i < init.len() && (#[trigger] s.buffer[init[i]]).metadata.block_hash
                            == h;
                    assert(s.buffer[order[i]].metadata.block_hash == h);
                }
            } else {
                assert(s.buffer[order[order.len() - 1]].metadata.block_hash == h);
            }
        }
    }
}

/// No promotion of a cascade is about a lower block than the first one.
proof fn lemma_cascade_rises(s: StateView, first: Hash256, order: Seq<Hash256>, n: int)
    requires
        s.tidy(),
        s.is_chain(first, order),
        0 <= n < order.len(),
    ensures
        s.buffer[order[n]].metadata.block_number >= s.buffer[first].metadata.block_number,
    decreases n,
{
    if n > 0 {
        assert(s.follows(order.take(n), order[n]));
        let j = choose|j: int|
            0 <= j < order.take(n).len() && (#[trigger] s.buffer[order.take(
                n,
            )[j]]).metadata.block_hash == s.buffer[order[n]].metadata.parent_hash;
        assert(order.take(n)[j] == order[j]);
        lemma_cascade_rises(s, first, order, j);
        assert(s.buffer.contains_key(order[j]) && s.buffer.contains_key(order[n]));
        assert(s.holds(s.buffer[order[j]].metadata) && s.holds(s.buffer[order[n]].metadata));
    }
}

/// In a cascade a block comes after its parent.
proof fn lemma_cascade_ordered(
    s: StateView,
    first: Hash256,
    order: Seq<Hash256>,
    child: int,
    parent: int,
)
    requires
        s.tidy(),
        s.is_chain(first, order),
        0 <= child < order.len(),
        0 <= parent < order.len(),
        s.buffer[order[child]].metadata.parent_hash == s.buffer[order[parent]].metadata.block_hash,
    ensures
        parent < child,
{
    assert(s.buffer.contains_key(order[child]) && s.buffer.contains_key(order[parent]));
    assert(s.holds(s.buffer[order[child]].metadata) && s.holds(s.buffer[order[parent]].metadata));
    if child == 0 {
        lemma_cascade_rises(s, first, order, parent);
    } else {
        assert(s.follows(order.take(child), order[child]));
        let j = choose|j: int|
            0 <= j < order.take(child).len() && (#[trigger] s.buffer[order.take(
                child,
            )[j]]).metadata.block_hash == s.buffer[order[child]].metadata.parent_hash;
        assert(order.take(child)[j] == order[j]);
        lemma_fresh(s, order[j]);
        assert(s.buffer.contains_key(order[j]));
        assert(order[j] == order[parent]);
    }
}

/// What one promotion does to the head.
proof fn lemma_head_next(s: StateView, order: Seq<Hash256>, n: int)
    requires
        order.no_duplicates(),
        0 < n <= order.len(),
        s.buffer.contains_key(order[n - 1]),
    ensures
        ({
            let h = s.promoted_all(order.take(n - 1)).tree.head;
            let g = s.promoted_all(order.take(n)).tree.head;
            let meta = s.buffer[order[n - 1]].metadata;
            &&& h == meta.parent_hash ==> g == meta.block_hash
            &&& h != meta.parent_hash ==> g == h
            &&& s.heads_at(order, n - 1) <==> g == meta.block_hash
        }),
{
    let next = order.take(n);
    assert(next.drop_last() =~= order.take(n - 1));
    assert(next.last() == order[n - 1]);
    lemma_still_buffered(s, next);
}

/// The promotions of a cascade leave the head at a block that none of them continues.
proof fn lemma_head_ends(s: StateView, first: Hash256, order: Seq<Hash256>, n: int, j: int)
    requires
        s.tidy(),
        s.is_chain(first, order),
        0 <= j < n <= order.len(),
    ensures
        s.buffer[order[j]].metadata.parent_hash != s.promoted_all(order.take(n)).tree.head,
    decreases n,
{
    let h = s.promoted_all(order.take(n - 1)).tree.head;
    let g = s.promoted_all(order.take(n)).tree.head;
    assert(s.buffer.contains_key(order[n - 1]));
    lemma_head_next(s, order, n);
    if j < n - 1 {
        lemma_head_ends(s, first, order, n - 1, j);
    }
    if s.buffer[order[j]].metadata.parent_hash == g {
        lemma_cascade_ordered(s, first, order, j, n - 1);
    }
}

/// Whether one of the first `n` requests of `order` is about `hash`.
spec fn is_among(s: StateView, order: Seq<Hash256>, n: int, hash: ExecutionBlockHash) -> bool {
    exists|j: int| 0 <= j < n && (#[trigger] s.buffer[order[j]]).metadata.block_hash == hash
}

/// Promotions leave the head at the block of one of them if and only if one of them left it at its
/// own block.
proof fn lemma_head_among(s: StateView, order: Seq<Hash256>, n: int)
    requires
        order.no_duplicates(),
        forall|i: int| 0 <= i < order.len() ==> s.buffer.contains_key(#[trigger] order[i]),
        0 <= n <= order.len(),
    ensures
        (exists|i: int| 0 <= i < n && #[trigger] s.heads_at(order, i)) <==> is_among(
            s,
            order,
            n,
            s.promoted_all(order.take(n)).tree.head,
        ),
    decreases n,
{
    if n > 0 {
        let h = s.promoted_all(order.take(n - 1)).tree.head;
        let g = s.promoted_all(order.take(n)).tree.head;
        assert(s.buffer.contains_key(order[n - 1]));
        lemma_head_next(s, order, n);
        lemma_head_among(s, order, n - 1);
        if g == s.buffer[order[n - 1]].metadata.block_hash {
            assert(s.heads_at(order, n - 1));
            assert(is_among(s, order, n, g));
        } else {
            assert(g == h);
            if is_among(s, order, n, g) {
                assert(is_among(s, order, n - 1, h));
            }
            if is_among(s, order, n - 1, h) {
                assert(is_among(s, order, n, g));
            }
        }
    }
}

/// Parents lead from where promotions leave the head to where it was.
proof fn lemma_head_line(s: StateView, order: Seq<Hash256>, n: int) -> (line: Seq<
    ExecutionBlockHash,
>)
    requires
        s.tidy(),
        order.no_duplicates(),
        forall|i: int| 0 <= i < order.len() ==> s.buffer.contains_key(#[trigger] order[i]),
        0 <= n <= order.len(),
    ensures
        is_line(
            s.promoted_all(order).tree.blocks,
            line,
            s.promoted_all(order.take(n)).tree.head,
            s.tree.head,
        ),
    decreases n,
{
    if n == 0 {
        assert(order.take(0) =~= Seq::<Hash256>::empty());
        seq![s.tree.head]
    } else {
        let rest = lemma_head_line(s, order, n - 1);
        let meta = s.buffer[order[n - 1]].metadata;
        assert(s.buffer.contains_key(order[n - 1]));
        lemma_head_next(s, order, n);
        if s.promoted_all(order.take(n - 1)).tree.head == meta.parent_hash {
            let blocks = s.promoted_all(order).tree.blocks;
            assert(blocks.contains_key(meta.block_hash) && blocks[meta.block_hash].metadata
                == meta) by {
                lemma_promoted_blocks(s, order);
            }
            let line = seq![meta.block_hash] + rest;
            assert forall|i: int| 0 <= i < line.len() - 1 implies #[trigger] comes_after(
                blocks,
                line,
                i,
            ) by {
                if i > 0 {
                    assert(comes_after(blocks, rest, i - 1));
                    assert(line[i] == rest[i - 1] && line[i + 1] == rest[i]);
                } else {
                    assert(line[1] == rest[0]);
                }
            }
            assert(line[line.len() - 1] == rest[rest.len() - 1]);
            line
        } else {
            rest
        }
    }
}

/// What a cascade leaves of a buffered request and of a block.
proof fn lemma_cascaded(
    s: StateView,
    first: Hash256,
    order: Seq<Hash256>,
    root: Hash256,
    hash: ExecutionBlockHash,
)
    requires
        s.tidy(),
        s.is_cascade(first, order),
    ensures
        ({
            let after = s.promoted_all(order);
            &&& after.buffer.contains_key(root) <==> s.buffer.contains_key(root) && !waits_for(
                s,
                root,
                first,
            )
            &&& after.buffer.contains_key(root) ==> after.buffer[root] == s.buffer[root]
            &&& waits_for(s, root, first) ==> after.tree.blocks.contains_key(
                s.buffer[root].metadata.block_hash,
            ) && after.tree.blocks[s.buffer[root].metadata.block_hash] == s.buffer[root]
            &&& s.tree.blocks.contains_key(hash) ==> after.tree.blocks.contains_key(hash)
                && after.tree.blocks[hash] == s.tree.blocks[hash]
            &&& after.tree.blocks.contains_key(hash) && !s.tree.blocks.contains_key(hash) ==> {
                &&& exists|r: Hash256| #[trigger]
                    waits_for(s, r, first) && s.buffer[r].metadata.block_hash == hash
                &&& after.tree.blocks[hash].metadata.parent_hash != after.tree.head
            }
            &&& s.updates_head(order) <==> after.tree.blocks.contains_key(after.tree.head)
                && !s.tree.blocks.contains_key(after.tree.head)
            &&& stems(after.tree.blocks, after.tree.head, s.tree.head)
        }),
{
    let after = s.promoted_all(order);
    let n = order.len() as int;
    assert(order.take(n) =~= order);
    lemma_promoted_all(s, order);
    lemma_promoted_blocks(s, order);
    lemma_cascade_members(s, first, order, root);
    if waits_for(s, root, first) {
        assert(order[order.index_of(root)] == root);
    }
    if after.tree.blocks.contains_key(hash) && !s.tree.blocks.contains_key(hash) {
        let i = choose|i: int|
            0 <= i < order.len() && (#[trigger] s.buffer[order[i]]).metadata.block_hash == hash;
        lemma_cascade_waits(s, first, order, i);
        lemma_head_ends(s, first, order, n, i);
        assert(after.tree.blocks[hash] == s.buffer[order[i]]);
    }
    lemma_head_among(s, order, n);
    if is_among(s, order, n, after.tree.head) {
        let j = choose|j: int|
            0 <= j < n && (#[trigger] s.buffer[order[j]]).metadata.block_hash == after.tree.head;
        assert(s.buffer.contains_key(order[j]));
        lemma_fresh(s, order[j]);
    }
    let line = lemma_head_line(s, order, n);
    assert(is_line(after.tree.blocks, line, after.tree.head, s.tree.head));
}

/// Along a line of requests, numbers fall.
proof fn lemma_line_falls(s: StateView, line: Seq<Hash256>, from: Hash256, to: Hash256, i: int)
    requires
        s.tidy(),
        is_due_line(s, line, from, to),
        0 <= i < line.len() - 1,
    ensures
        s.buffer[line[i]].metadata.block_number > s.buffer[to].metadata.block_number,
    decreases line.len() - i,
{
    assert(is_due_after(s, line, i));
    assert(s.buffer.contains_key(line[i]) && s.buffer.contains_key(line[i + 1]));
    assert(s.holds(s.buffer[line[i]].metadata) && s.holds(s.buffer[line[i + 1]].metadata));
    if i + 1 < line.len() - 1 {
        lemma_line_falls(s, line, from, to, i + 1);
    }
}

/// What waits for a request does not depend on the proofs of that request.
proof fn lemma_waits_alike(s: StateView, held: StateView, from: Hash256, to: Hash256)
    requires
        s.tidy(),
        s.buffer.contains_key(to),
        held.buffer.dom() == s.buffer.dom(),
        held.min_required_proofs == s.min_required_proofs,
        forall|r: Hash256| #[trigger]
            s.buffer.contains_key(r) ==> held.buffer[r].metadata == s.buffer[r].metadata && (r != to
                ==> held.buffer[r] == s.buffer[r]),
        waits_for(s, from, to),
    ensures
        waits_for(held, from, to),
{
    let line = choose|line: Seq<Hash256>| #[trigger] is_due_line(s, line, from, to);
    assert forall|i: int| 0 <= i < line.len() implies held.buffer.contains_key(
        #[trigger] line[i],
    ) by {
        assert(s.buffer.contains_key(line[i]));
        assert(held.buffer.dom().contains(line[i]));
    }
    assert forall|i: int| 0 <= i < line.len() - 1 implies #[trigger] is_due_after(
        held,
        line,
        i,
    ) by {
        assert(is_due_after(s, line, i));
        assert(s.buffer.contains_key(line[i]) && s.buffer.contains_key(line[i + 1]));
        lemma_line_falls(s, line, from, to, i);
    }
    assert(is_due_line(held, line, from, to));
}

/// A proof goes to its buffered request. Where that has enough proofs then, and its parent is in the
/// tree or it is about the block that was last found final, exactly it and what waits for it move into
/// the tree, as they are. Every other request and block stays, and so do the fork choice states.
pub proof fn law_proof_promotes(
    s: StateView,
    proof_: SignedExecutionProofView,
    after: StateView,
    outcome: Result<ProofStatus, ProofEngineStateError>,
    root: Hash256,
    other: Hash256,
    hash: ExecutionBlockHash,
)
    requires
        s.tidy(),
        s.inserts(proof_, after, outcome),
        root == proof_.message.public_input.new_payload_request_root,
        s.buffer.contains_key(root),
    ensures
        outcome is Ok,
        after.latest_fcs == s.latest_fcs,
        after.last_valid_fcs == s.last_valid_fcs,
        after.min_required_proofs == s.min_required_proofs,
        ({
            let meta = s.buffer[root].metadata;
            let proofs = s.buffer[root].proofs.push(proof_);
            let ready = proofs.len() >= s.min_required_proofs && (s.tree.blocks.contains_key(
                meta.parent_hash,
            ) || meta.block_hash == s.last_valid_fcs.finalized_block_hash);
            let moves = ready && waits_for(s, other, root);
            let request = if other == root {
                PayloadRequestView { metadata: meta, proofs }
            } else {
                s.buffer[other]
            };
            &&& waits_for(s, root, root)
            &&& after.buffer.contains_key(other) <==> s.buffer.contains_key(other) && !moves
            &&& after.buffer.contains_key(other) ==> after.buffer[other] == request
            &&& moves ==> after.tree.blocks.contains_key(request.metadata.block_hash)
                && after.tree.blocks[request.metadata.block_hash] == request
            &&& s.tree.blocks.contains_key(hash) ==> after.tree.blocks.contains_key(hash)
                && after.tree.blocks[hash] == s.tree.blocks[hash]
            &&& after.tree.blocks.contains_key(hash) && !s.tree.blocks.contains_key(hash) ==> ready
                && exists|r: Hash256| #[trigger]
                waits_for(s, r, root) && s.buffer[r].metadata.block_hash == hash
            &&& !ready ==> after.tree == s.tree
        }),
{
    let held = s.proof_in_buffer(root, proof_);
    assert(is_due_line(s, seq![root], root, root));
    assert(held.buffer.dom() =~= s.buffer.dom());
    lemma_same_metadata(s, held);
    if held.can_promote(root) {
        let order = choose|order: Seq<Hash256>|
            {
                &&& #[trigger] held.is_cascade(root, order)
                &&& after == held.promoted_all(order)
            };
        assert forall|r: Hash256| #[trigger] waits_for(s, r, root) == waits_for(held, r, root) by {
            if waits_for(s, r, root) {
                lemma_waits_alike(s, held, r, root);
            }
            if waits_for(held, r, root) {
                lemma_waits_alike(held, s, r, root);
            }
        }
        lemma_cascaded(held, root, order, other, hash);
        lemma_promoted_all(held, order);
        if after.tree.blocks.contains_key(hash) && !s.tree.blocks.contains_key(hash) {
            let r = choose|r: Hash256| #[trigger]
                waits_for(held, r, root) && held.buffer[r].metadata.block_hash == hash;
            assert(waits_for(s, r, root));
        }
    }
}

/// A proof that is inserted is found valid if and only if the canonical head then is a block that
/// this insertion moved into the tree. Else, where its request is known, it is accepted: so where the
/// head was a block of the tree and stays there, whatever else moved.
pub proof fn law_valid_proof_moves_head(
    s: StateView,
    proof_: SignedExecutionProofView,
    after: StateView,
    outcome: Result<ProofStatus, ProofEngineStateError>,
)
    requires
        s.tidy(),
        s.inserts(proof_, after, outcome),
    ensures
        outcome == Ok::<ProofStatus, ProofEngineStateError>(ProofStatus::Valid)
            <==> after.tree.blocks.contains_key(after.tree.head) && !s.tree.blocks.contains_key(
            after.tree.head,
        ),
        outcome is Ok ==> outcome->Ok_0 is Valid || outcome->Ok_0 is Accepted,
        s.tree.blocks.contains_key(s.tree.head) && after.tree.head == s.tree.head && outcome is Ok
            ==> outcome->Ok_0 is Accepted,
{
    let root = proof_.request_root();
    if !s.tree.roots.contains_key(root) && s.buffer.contains_key(root) {
        let held = s.proof_in_buffer(root, proof_);
        assert(held.buffer.dom() =~= s.buffer.dom());
        lemma_same_metadata(s, held);
        if held.can_promote(root) {
            let order = choose|order: Seq<Hash256>|
                {
                    &&& #[trigger] held.is_cascade(root, order)
                    &&& after == held.promoted_all(order)
                    &&& outcome is Ok
                    &&& outcome->Ok_0 is Valid || outcome->Ok_0 is Accepted
                    &&& outcome->Ok_0 is Valid <==> held.updates_head(order)
                };
            lemma_cascaded(held, root, order, root, after.tree.head);
        }
    }
}

/// The canonical head follows what a proof moves into the tree: parents lead from where the head then
/// is to where it was, and no block that moved continues it.
pub proof fn law_head_follows_promotions(
    s: StateView,
    proof_: SignedExecutionProofView,
    after: StateView,
    outcome: Result<ProofStatus, ProofEngineStateError>,
    hash: ExecutionBlockHash,
)
    requires
        s.tidy(),
        s.inserts(proof_, after, outcome),
    ensures
        stems(after.tree.blocks, after.tree.head, s.tree.head),
        after.tree.blocks.contains_key(hash) && !s.tree.blocks.contains_key(hash)
            ==> after.tree.blocks[hash].metadata.parent_hash != after.tree.head,
{
    let root = proof_.request_root();
    assert(is_line(after.tree.blocks, seq![s.tree.head], s.tree.head, s.tree.head));
    if !s.tree.roots.contains_key(root) && s.buffer.contains_key(root) {
        let held = s.proof_in_buffer(root, proof_);
        assert(held.buffer.dom() =~= s.buffer.dom());
        lemma_same_metadata(s, held);
        if held.can_promote(root) {
            let order = choose|order: Seq<Hash256>|
                {
                    &&& #[trigger] held.is_cascade(root, order)
                    &&& after == held.promoted_all(order)
                };
            lemma_cascaded(held, root, order, root, hash);
        }
    }
}

/// A proof about a block of the tree is added to that block as its last proof and accepted, whatever
/// the proof, and nothing else changes. A proof whose request is unknown is refused by its root.
pub proof fn law_proof_of_known_block(
    s: StateView,
    proof_: SignedExecutionProofView,
    after: StateView,
    outcome: Result<ProofStatus, ProofEngineStateError>,
    hash: ExecutionBlockHash,
)
    requires
        s.tidy(),
        s.inserts(proof_, after, outcome),
        !s.buffer.contains_key(proof_.message.public_input.new_payload_request_root),
    ensures
        ({
            let root = proof_.message.public_input.new_payload_request_root;
            if s.tree.blocks.contains_key(hash) && s.tree.blocks[hash].metadata.request_root
                == root {
                &&& outcome == Ok::<ProofStatus, ProofEngineStateError>(ProofStatus::Accepted)
                &&& after.tree.blocks.contains_key(hash)
                &&& after.tree.blocks[hash].metadata == s.tree.blocks[hash].metadata
                &&& after.tree.blocks[hash].proofs == s.tree.blocks[hash].proofs.push(proof_)
                &&& after.tree.blocks.remove(hash) == s.tree.blocks.remove(hash)
            } else {
                &&& after.tree.blocks.contains_key(hash) == s.tree.blocks.contains_key(hash)
                &&& s.tree.blocks.contains_key(hash) ==> after.tree.blocks[hash]
                    == s.tree.blocks[hash]
            }
        }),
        outcome is Err <==> !s.tree.roots.contains_key(
            proof_.message.public_input.new_payload_request_root,
        ),
        outcome is Err ==> after == s && outcome->Err_0
            == ProofEngineStateError::ProofRequestRootNotSeen(
            proof_.message.public_input.new_payload_request_root,
        ),
        after.tree.head == s.tree.head,
        after.tree.roots == s.tree.roots,
        after.buffer == s.buffer,
        after.latest_fcs == s.latest_fcs,
        after.last_valid_fcs == s.last_valid_fcs,
        after.min_required_proofs == s.min_required_proofs,
{
    let root = proof_.request_root();
    if s.tree.roots.contains_key(root) {
        assert(s.tree.blocks.contains_key(s.tree.roots[root]));
        if s.tree.blocks.contains_key(hash) && s.tree.blocks[hash].metadata.request_root == root {
            assert(after.tree.blocks.remove(hash) =~= s.tree.blocks.remove(hash));
        }
    }
}

/// A request that is neither in the tree nor in the buffer waits in the buffer without proofs once it
/// is buffered. One that is known is left with the proofs that it has. Nothing else changes.
pub proof fn law_buffered_request_waits(s: StateView, request: RequestMetadata, other: Hash256)
    ensures
        ({
            let after = s.buffered(request);
            let root = request.request_root;
            &&& after.tree == s.tree
            &&& after.latest_fcs == s.latest_fcs
            &&& after.last_valid_fcs == s.last_valid_fcs
            &&& after.min_required_proofs == s.min_required_proofs
            &&& s.tree.roots.contains_key(root) || s.buffer.contains_key(root) ==> after.buffer
                == s.buffer
            &&& !s.tree.roots.contains_key(root) && !s.buffer.contains_key(root) ==> {
                &&& after.buffer.contains_key(root)
                &&& after.buffer[root].metadata == request
                &&& after.buffer[root].proofs.len() == 0
                &&& other != root ==> after.buffer.contains_key(other) == s.buffer.contains_key(
                    other,
                )
                &&& other != root && s.buffer.contains_key(other) ==> after.buffer[other]
                    == s.buffer[other]
            }
        }),
{
}

/// The first update that names a final block, before the tree has any, cannot be judged yet. Exactly
/// the request about that block, if it has enough proofs, and what waits for it move into the tree,
/// as they are. The canonical head begins at the final block and follows what moved.
pub proof fn law_first_final_block_starts(
    s: StateView,
    fcs: ForkchoiceState,
    after: StateView,
    outcome: Result<PayloadStatusView, ProofEngineStateError>,
    first: Hash256,
    other: Hash256,
    hash: ExecutionBlockHash,
)
    requires
        s.tidy(),
        s.updates(fcs, after, outcome),
        s.tree.blocks == Map::<ExecutionBlockHash, PayloadRequestView>::empty(),
        fcs.finalized_block_hash != ExecutionBlockHash::spec_zero(),
        s.buffer.contains_key(first) ==> s.buffer[first].metadata.block_hash
            == fcs.finalized_block_hash,
        !s.buffer.contains_key(first) ==> forall|r: Hash256| #[trigger]
            s.buffer.contains_key(r) ==> s.buffer[r].metadata.block_hash
                != fcs.finalized_block_hash,
    ensures
        outcome matches Ok(answer) && answer.status == PayloadStatusV1Status::Syncing
            && answer.latest_valid_hash is None && answer.validation_error is None,
        after.latest_fcs == Some(fcs),
        after.last_valid_fcs.head_block_hash == fcs.finalized_block_hash,
        after.last_valid_fcs.safe_block_hash == fcs.finalized_block_hash,
        after.last_valid_fcs.finalized_block_hash == fcs.finalized_block_hash,
        after.min_required_proofs == s.min_required_proofs,
        ({
            let ready = s.buffer.contains_key(first) && s.buffer[first].proofs.len()
                >= s.min_required_proofs;
            let moves = ready && waits_for(s, other, first);
            &&& after.buffer.contains_key(other) <==> s.buffer.contains_key(other) && !moves
            &&& after.buffer.contains_key(other) ==> after.buffer[other] == s.buffer[other]
            &&& moves ==> after.tree.blocks.contains_key(s.buffer[other].metadata.block_hash)
                && after.tree.blocks[s.buffer[other].metadata.block_hash] == s.buffer[other]
            &&& after.tree.blocks.contains_key(hash) ==> ready && exists|r: Hash256| #[trigger]
                waits_for(s, r, first) && s.buffer[r].metadata.block_hash == hash
            &&& after.tree.blocks.contains_key(hash)
                ==> after.tree.blocks[hash].metadata.parent_hash != after.tree.head
            &&& stems(after.tree.blocks, after.tree.head, fcs.finalized_block_hash)
        }),
{
    let anchored = s.anchored(fcs);
    lemma_same_metadata(s, anchored);
    assert forall|r: Hash256| #[trigger] waits_for(s, r, first) == waits_for(
        anchored,
        r,
        first,
    ) by {
        if waits_for(s, r, first) {
            let line = choose|line: Seq<Hash256>| #[trigger] is_due_line(s, line, r, first);
            assert forall|i: int| 0 <= i < line.len() - 1 implies #[trigger] is_due_after(
                anchored,
                line,
                i,
            ) by {
                assert(is_due_after(s, line, i));
            }
            assert(is_due_line(anchored, line, r, first));
        }
        if waits_for(anchored, r, first) {
            let line = choose|line: Seq<Hash256>| #[trigger] is_due_line(anchored, line, r, first);
            assert forall|i: int| 0 <= i < line.len() - 1 implies #[trigger] is_due_after(
                s,
                line,
                i,
            ) by {
                assert(is_due_after(anchored, line, i));
            }
            assert(is_due_line(s, line, r, first));
        }
    }
    let order = choose|order: Seq<Hash256>|
        lists(order, anchored.promotable()) && #[trigger] anchored.promotes_each(order, after);
    assert forall|i: int| 0 <= i < order.len() implies #[trigger] order[i] == first
        && s.buffer.contains_key(first) && anchored.proven(first) by {
        assert(order.to_set().contains(order[i]));
        assert(anchored.promotable().contains(order[i]));
        assert(s.buffer.contains_key(order[i]));
        if s.buffer.contains_key(first) {
            lemma_fresh(s, first);
        }
    }
    if order.len() > 0 {
        assert(order[0] == first);
        if order.len() > 1 {
            assert(order[1] == first);
        }
        let wake = choose|wake: Seq<Hash256>| #[trigger]
            anchored.is_cascade(order[0], wake) && anchored.promoted_all(wake).promotes_each(
                order.skip(1),
                after,
            );
        assert(order.skip(1).len() == 0);
        assert(after == anchored.promoted_all(wake));
        lemma_cascaded(anchored, first, wake, other, hash);
        lemma_promoted_all(anchored, wake);
        if after.tree.blocks.contains_key(hash) {
            let r = choose|r: Hash256| #[trigger]
                waits_for(anchored, r, first) && anchored.buffer[r].metadata.block_hash == hash;
            assert(waits_for(s, r, first));
        }
    } else {
        assert(after == anchored);
        if s.buffer.contains_key(first) && anchored.proven(first) {
            assert(anchored.promotable().contains(first));
            assert(order.to_set().contains(first));
        }
        assert(is_line(
            after.tree.blocks,
            seq![after.tree.head],
            after.tree.head,
            after.tree.head,
        ));
    }
}

/// A buffered request may move into the tree if and only if it has as many proofs as are required, and
/// the tree has its parent or it is about the block that was last found final.
pub proof fn law_promotable(s: StateView, root: Hash256)
    ensures
        s.can_promote(root) <==> s.buffer[root].proofs.len() >= s.min_required_proofs && (
        s.tree.blocks.contains_key(s.buffer[root].metadata.parent_hash)
            || s.buffer[root].metadata.block_hash == s.last_valid_fcs.finalized_block_hash),
{
}

/// A request that moves into the tree stands there under its block, as it was, and is found by its
/// root, among the children of its parent and among the blocks of its height. The canonical head moves
/// to it if and only if it was its parent. Whatever else was there stays.
pub proof fn law_promotion(
    s: StateView,
    root: Hash256,
    other: Hash256,
    hash: ExecutionBlockHash,
    child: ExecutionBlockHash,
    n: u64,
)
    ensures
        ({
            let after = s.promoted(root);
            let meta = s.buffer[root].metadata;
            &&& after.latest_fcs == s.latest_fcs
            &&& after.last_valid_fcs == s.last_valid_fcs
            &&& after.min_required_proofs == s.min_required_proofs
            &&& !after.buffer.contains_key(root)
            &&& other != root ==> after.buffer.contains_key(other) == s.buffer.contains_key(other)
            &&& other != root && s.buffer.contains_key(other) ==> after.buffer[other]
                == s.buffer[other]
            &&& after.tree.blocks.contains_key(meta.block_hash)
            &&& after.tree.blocks[meta.block_hash] == s.buffer[root]
            &&& hash != meta.block_hash ==> after.tree.blocks.contains_key(hash)
                == s.tree.blocks.contains_key(hash)
            &&& hash != meta.block_hash && s.tree.blocks.contains_key(hash)
                ==> after.tree.blocks[hash] == s.tree.blocks[hash]
            &&& after.tree.roots == s.tree.roots.insert(root, meta.block_hash)
            &&& in_set(after.tree.children, hash, child) <==> in_set(s.tree.children, hash, child)
                || hash == meta.parent_hash && child == meta.block_hash
            &&& in_set(after.tree.numbers, n, hash) <==> in_set(s.tree.numbers, n, hash) || n
                == meta.block_number && hash == meta.block_hash
            &&& s.tree.head == meta.parent_hash ==> after.tree.head == meta.block_hash
            &&& s.tree.head != meta.parent_hash ==> after.tree.head == s.tree.head
        }),
{
}

/// A block that is taken out of the tree takes its root, its own children's links and its place at its
/// height with it, and nothing else.
pub proof fn law_removal(
    t: TreeView,
    hash: ExecutionBlockHash,
    other: ExecutionBlockHash,
    child: ExecutionBlockHash,
    n: u64,
)
    ensures
        ({
            let after = t.without(hash);
            let meta = t.blocks[hash].metadata;
            &&& after.head == t.head
            &&& after.blocks.contains_key(other) <==> t.blocks.contains_key(other) && other != hash
            &&& after.blocks.contains_key(other) ==> after.blocks[other] == t.blocks[other]
            &&& after.roots == t.roots.remove(meta.request_root)
            &&& in_set(after.children, other, child) <==> in_set(t.children, other, child) && other
                != hash
            &&& in_set(after.numbers, n, other) <==> in_set(t.numbers, n, other) && !(n
                == meta.block_number && other == hash)
            &&& after.numbers.contains_key(n) && n == meta.block_number ==> exists|
                b: ExecutionBlockHash|
                #[trigger] after.numbers[n].contains(b)
        }),
{
    let meta = t.blocks[hash].metadata;
    let m = meta.block_number;
    if t.numbers.contains_key(m) {
        let rest = t.numbers[m].remove(hash);
        if rest == Set::<ExecutionBlockHash>::empty() {
            assert(!rest.contains(other));
        } else {
            assert(exists|b: ExecutionBlockHash| rest.contains(b)) by {
                if forall|b: ExecutionBlockHash| !rest.contains(b) {
                    assert(rest =~= Set::<ExecutionBlockHash>::empty());
                }
            }
        }
    }
}

/// Before anything was seen there is no block, no request and no fork choice state, and the head is the
/// zero hash.
pub proof fn law_initial_state(n: nat, root: Hash256, hash: ExecutionBlockHash)
    ensures
        ({
            let s = StateView::initial(n);
            let zero = ExecutionBlockHash::spec_zero();
            &&& !s.buffer.contains_key(root)
            &&& !s.tree.roots.contains_key(root)
            &&& !s.tree.blocks.contains_key(hash)
            &&& !s.tree.children.contains_key(hash)
            &&& s.tree.head == zero
            &&& s.latest_fcs is None
            &&& s.last_valid_fcs.head_block_hash == zero
            &&& s.last_valid_fcs.safe_block_hash == zero
            &&& s.last_valid_fcs.finalized_block_hash == zero
            &&& s.min_required_proofs == n
        }),
{
}

} // verus!
