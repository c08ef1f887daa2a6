//! Lines of descent, block by block, and what a fork choice update makes of them.

use crate::engine::errors::ProofEngineStateError;
use crate::engine::forkchoice::{ForkchoiceState, PayloadStatusV1Status, PayloadStatusView};
use crate::engine::prune_laws::{law_pruned_sound, lemma_drops_stale, survives};
use crate::engine::soundness::lemma_same_metadata;
use crate::engine::state_model::{descends, parents, PayloadRequestView, StateView};
use crate::engine::walk::step;
use crate::hash::{ExecutionBlockHash, Hash256};
use vstd::prelude::*;

verus! {

/// Whether the block at `i` is among `blocks` and the next one is its parent.
pub open spec fn comes_after(
    blocks: Map<ExecutionBlockHash, PayloadRequestView>,
    line: Seq<ExecutionBlockHash>,
    i: int,
) -> bool {
    blocks.contains_key(line[i]) && blocks[line[i]].metadata.parent_hash == line[i + 1]
}

/// Whether `line` leads from `from` to `to`, and each block of it to its parent.
pub open spec fn is_line(
    blocks: Map<ExecutionBlockHash, PayloadRequestView>,
    line: Seq<ExecutionBlockHash>,
    from: ExecutionBlockHash,
    to: ExecutionBlockHash,
) -> bool {
    &&& line.len() > 0
    &&& line[0] == from
    &&& line[line.len() - 1] == to
    &&& forall|i: int| 0 <= i < line.len() - 1 ==> #[trigger] comes_after(blocks, line, i)
}

/// Whether parents lead from `from` to `to`. Every block is its own ancestor.
pub open spec fn stems(
    blocks: Map<ExecutionBlockHash, PayloadRequestView>,
    from: ExecutionBlockHash,
    to: ExecutionBlockHash,
) -> bool {
    exists|line: Seq<ExecutionBlockHash>| #[trigger] is_line(blocks, line, from, to)
}

proof fn lemma_line_walk(
    blocks: Map<ExecutionBlockHash, PayloadRequestView>,
    line: Seq<ExecutionBlockHash>,
    from: ExecutionBlockHash,
    to: ExecutionBlockHash,
    k: nat,
)
    requires
        is_line(blocks, line, from, to),
        k < line.len(),
    ensures
        step(parents(blocks), from, k) == Some(line[k as int]),
    decreases k,
{
    if k > 0 {
        lemma_line_walk(blocks, line, from, to, (k - 1) as nat);
        assert(comes_after(blocks, line, k - 1));
        assert(parents(blocks).contains_key(line[k - 1]));
    }
}

proof fn lemma_walk_line(
    blocks: Map<ExecutionBlockHash, PayloadRequestView>,
    from: ExecutionBlockHash,
    k: nat,
) -> (line: Seq<ExecutionBlockHash>)
    requires
        step(parents(blocks), from, k) is Some,
    ensures
        is_line(blocks, line, from, step(parents(blocks), from, k)->0),
    decreases k,
{
    if k == 0 {
        seq![from]
    } else {
        let before = lemma_walk_line(blocks, from, (k - 1) as nat);
        let at = step(parents(blocks), from, (k - 1) as nat)->0;
        assert(parents(blocks).contains_key(at));
        let line = before.push(blocks[at].metadata.parent_hash);
        assert forall|i: int| 0 <= i < line.len() - 1 implies #[trigger] comes_after(
            blocks,
            line,
            i,
        ) by {
            if i < before.len() - 1 {
                assert(comes_after(blocks, before, i));
                assert(line[i] == before[i] && line[i + 1] == before[i + 1]);
            }
        }
        line
    }
}

/// A block descends from another if and only if a line of parents leads there.
pub proof fn law_descent_is_a_line(s: StateView, ancestor: ExecutionBlockHash, b: ExecutionBlockHash)
    ensures
        descends(s.tree, ancestor, b) <==> stems(s.tree.blocks, b, ancestor),
{
    let links = parents(s.tree.blocks);
    if descends(s.tree, ancestor, b) {
        let k = choose|k: nat| #[trigger] step(links, b, k) == Some(ancestor);
        let line = lemma_walk_line(s.tree.blocks, b, k);
    }
    if stems(s.tree.blocks, b, ancestor) {
        let line = choose|line: Seq<ExecutionBlockHash>| #[trigger]
            is_line(s.tree.blocks, line, b, ancestor);
        lemma_line_walk(s.tree.blocks, line, b, ancestor, (line.len() - 1) as nat);
        assert(step(links, b, (line.len() - 1) as nat) == Some(ancestor));
    }
}

/// An update that names blocks of one line is valid, whatever fork the canonical head is on: the
/// tree has the head, and the safe and the final block where they are named; parents lead from the
/// head to the safe block, from there to the final block, and from there to the block that was final
/// before. A zero hash stands for the block that was last found valid in its place. The canonical
/// head stays where parents lead from it to the head of the update, and else moves to that head. The
/// blocks are remembered as the last that were found valid.
pub proof fn law_linked_update_valid(
    s: StateView,
    fcs: ForkchoiceState,
    after: StateView,
    outcome: Result<PayloadStatusView, ProofEngineStateError>,
    safe: ExecutionBlockHash,
    last: ExecutionBlockHash,
)
    requires
        s.updates(fcs, after, outcome),
        s.tree.blocks.contains_key(fcs.head_block_hash),
        if fcs.safe_block_hash == ExecutionBlockHash::spec_zero() {
            safe == s.last_valid_fcs.safe_block_hash
        } else {
            safe == fcs.safe_block_hash && s.tree.blocks.contains_key(safe) && stems(
                s.tree.blocks,
                safe,
                last,
            )
        },
        if fcs.finalized_block_hash == ExecutionBlockHash::spec_zero() {
            last == s.last_valid_fcs.finalized_block_hash
        } else {
            last == fcs.finalized_block_hash && s.tree.blocks.contains_key(last)
        },
        last != s.last_valid_fcs.finalized_block_hash ==> s.sound(),
        stems(s.tree.blocks, fcs.head_block_hash, safe),
        stems(s.tree.blocks, last, s.last_valid_fcs.finalized_block_hash),
    ensures
        outcome matches Ok(answer) && answer.status == PayloadStatusV1Status::Valid
            && answer.latest_valid_hash == Some(after.tree.head) && answer.validation_error is None,
        stems(s.tree.blocks, after.tree.head, fcs.head_block_hash),
        stems(s.tree.blocks, s.tree.head, fcs.head_block_hash) ==> after.tree.head == s.tree.head,
        !stems(s.tree.blocks, s.tree.head, fcs.head_block_hash) ==> after.tree.head
            == fcs.head_block_hash,
        after.last_valid_fcs.head_block_hash == fcs.head_block_hash,
        after.last_valid_fcs.safe_block_hash == safe,
        after.last_valid_fcs.finalized_block_hash == last,
        after.latest_fcs == s.latest_fcs,
        after.min_required_proofs == s.min_required_proofs,
{
    let head = fcs.head_block_hash;
    law_descent_is_a_line(s, safe, head);
    law_descent_is_a_line(s, last, safe);
    law_descent_is_a_line(s, s.last_valid_fcs.finalized_block_hash, last);
    law_descent_is_a_line(s, head, s.tree.head);
    assert(s.fits(fcs));
    assert(!s.starts_from(fcs)) by {
        assert(s.tree.blocks != Map::<ExecutionBlockHash, PayloadRequestView>::empty());
    }
    if s.advances(fcs) {
        let headed = s.headed(head);
        lemma_same_metadata(s, headed);
        let (pruned, result) = choose|
            pruned: StateView,
            result: Result<(), ProofEngineStateError>,
        |
            {
                &&& #[trigger] headed.prunes(last, pruned, result)
                &&& match result {
                    Ok(_) => after == (StateView { last_valid_fcs: s.resolved(fcs), ..pruned })
                        && outcome is Ok && outcome->Ok_0.status is Valid,
                    Err(e) => true,
                }
            };
        law_pruned_sound(headed, last, pruned, result);
        let n = headed.tree.blocks[last].metadata.block_number;
        let absent = choose|absent: Option<ExecutionBlockHash>| #[trigger]
            headed.tree.drops_stale(n, last, pruned.tree, absent);
        lemma_drops_stale(headed, last, pruned.tree, absent);
    }
    assert(is_line(s.tree.blocks, seq![head], head, head));
}

/// An update whose head the tree has is invalid where the tree lacks the safe or the final block that
/// it names, or where parents do not lead from the head to the safe block, from there to the final
/// block, or from there to the block that was final before. Nothing changes then, and the answer names
/// the canonical head.
pub proof fn law_unlinked_update_invalid(
    s: StateView,
    fcs: ForkchoiceState,
    after: StateView,
    outcome: Result<PayloadStatusView, ProofEngineStateError>,
    safe: ExecutionBlockHash,
    last: ExecutionBlockHash,
)
    requires
        s.updates(fcs, after, outcome),
        s.tree.blocks.contains_key(fcs.head_block_hash),
        if fcs.safe_block_hash == ExecutionBlockHash::spec_zero() {
            safe == s.last_valid_fcs.safe_block_hash
        } else {
            safe == fcs.safe_block_hash
        },
        if fcs.finalized_block_hash == ExecutionBlockHash::spec_zero() {
            last == s.last_valid_fcs.finalized_block_hash
        } else {
            last == fcs.finalized_block_hash
        },
        ({
            ||| fcs.safe_block_hash != ExecutionBlockHash::spec_zero() && (
            !s.tree.blocks.contains_key(safe) || !stems(s.tree.blocks, safe, last))
            ||| fcs.finalized_block_hash != ExecutionBlockHash::spec_zero()
                && !s.tree.blocks.contains_key(last)
            ||| !stems(s.tree.blocks, fcs.head_block_hash, safe)
            ||| !stems(s.tree.blocks, last, s.last_valid_fcs.finalized_block_hash)
        }),
    ensures
        after == s,
        outcome matches Ok(answer) && answer.status == PayloadStatusV1Status::Invalid
            && answer.latest_valid_hash == Some(s.tree.head) && answer.validation_error == Some(
            "invalid forkchoice state"@,
        ),
{
    law_descent_is_a_line(s, safe, fcs.head_block_hash);
    law_descent_is_a_line(s, last, safe);
    law_descent_is_a_line(s, s.last_valid_fcs.finalized_block_hash, last);
    assert(!s.starts_from(fcs)) by {
        assert(s.tree.blocks != Map::<ExecutionBlockHash, PayloadRequestView>::empty());
    }
}

/// An update whose head the tree lacks is remembered and cannot be judged yet. Nothing else changes,
/// unless the tree has no block and the update names a final one.
pub proof fn law_unknown_head_syncing(
    s: StateView,
    fcs: ForkchoiceState,
    after: StateView,
    outcome: Result<PayloadStatusView, ProofEngineStateError>,
    b: ExecutionBlockHash,
)
    requires
        s.updates(fcs, after, outcome),
        !s.tree.blocks.contains_key(fcs.head_block_hash),
    ensures
        outcome matches Ok(answer) && answer.status == PayloadStatusV1Status::Syncing
            && answer.latest_valid_hash is None && answer.validation_error is None,
        fcs.finalized_block_hash == ExecutionBlockHash::spec_zero() || s.tree.blocks.contains_key(b)
            ==> {
            &&& after.latest_fcs == Some(fcs)
            &&& after.last_valid_fcs == s.last_valid_fcs
            &&& after.tree == s.tree
            &&& after.buffer == s.buffer
            &&& after.min_required_proofs == s.min_required_proofs
        },
{
    if s.tree.blocks.contains_key(b) {
        assert(s.tree.blocks != Map::<ExecutionBlockHash, PayloadRequestView>::empty());
    }
}

/// A valid update that names a new final block leaves exactly the blocks of the tree that are not
/// below it and descend from no other block of its height, each as it was. Of the buffered requests
/// it leaves exactly those about blocks above it. Any other valid update leaves all of them.
pub proof fn law_valid_update_prunes(
    s: StateView,
    fcs: ForkchoiceState,
    after: StateView,
    outcome: Result<PayloadStatusView, ProofEngineStateError>,
    hash: ExecutionBlockHash,
    root: Hash256,
)
    requires
        s.sound(),
        s.updates(fcs, after, outcome),
        outcome is Ok && outcome->Ok_0.status is Valid,
    ensures
        ({
            let last = fcs.finalized_block_hash;
            let moved = last != ExecutionBlockHash::spec_zero() && last
                != s.last_valid_fcs.finalized_block_hash;
            let n = s.tree.blocks[last].metadata.block_number;
            &&& moved ==> s.tree.blocks.contains_key(last)
            &&& after.tree.blocks.contains_key(hash) <==> s.tree.blocks.contains_key(hash) && (moved
                ==> s.tree.blocks[hash].metadata.block_number >= n && forall|beside: ExecutionBlockHash|
                s.tree.blocks.contains_key(beside) && beside != last
                    && s.tree.blocks[beside].metadata.block_number == n ==> !#[trigger] stems(
                    s.tree.blocks,
                    hash,
                    beside,
                ))
            &&& after.tree.blocks.contains_key(hash) ==> after.tree.blocks[hash]
                == s.tree.blocks[hash]
            &&& after.buffer.contains_key(root) <==> s.buffer.contains_key(root) && (moved
                ==> s.buffer[root].metadata.block_number > n)
            &&& after.buffer.contains_key(root) ==> after.buffer[root] == s.buffer[root]
        }),
        after.sound(),
{
    let last = fcs.finalized_block_hash;
    if s.advances(fcs) {
        let headed = s.headed(fcs.head_block_hash);
        lemma_same_metadata(s, headed);
        let (pruned, result) = choose|
            pruned: StateView,
            result: Result<(), ProofEngineStateError>,
        |
            {
                &&& #[trigger] headed.prunes(last, pruned, result)
                &&& match result {
                    Ok(_) => after == (StateView { last_valid_fcs: s.resolved(fcs), ..pruned }),
                    Err(e) => outcome is Err,
                }
            };
        law_pruned_sound(headed, last, pruned, result);
        lemma_same_metadata(pruned, after);
        assert(after.tree.blocks.contains_key(hash) <==> survives(headed.tree, last, hash));
        assert forall|beside: ExecutionBlockHash| #[trigger] stems(s.tree.blocks, hash, beside)
            == descends(headed.tree, beside, hash) by {
            law_descent_is_a_line(headed, beside, hash);
        }
        let n = s.tree.blocks[last].metadata.block_number;
        if survives(headed.tree, last, hash) {
            assert forall|beside: ExecutionBlockHash|
                s.tree.blocks.contains_key(beside) && beside != last
                    && s.tree.blocks[beside].metadata.block_number == n implies !#[trigger] stems(
                s.tree.blocks,
                hash,
                beside,
            ) by {
                assert(headed.tree.number(beside) == headed.tree.number(last));
                assert(!descends(headed.tree, beside, hash));
            }
        } else if s.tree.blocks.contains_key(hash) && s.tree.blocks[hash].metadata.block_number
            >= n {
            let beside = choose|beside: ExecutionBlockHash|
                headed.tree.blocks.contains_key(beside) && headed.tree.number(beside)
                    == headed.tree.number(last) && beside != last && #[trigger] descends(
                    headed.tree,
                    beside,
                    hash,
                );
            assert(stems(s.tree.blocks, hash, beside));
        }
    } else {
        lemma_same_metadata(s, after);
    }
}

} // verus!
