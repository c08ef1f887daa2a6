//! What the report of missing proofs holds: every buffered request on the way down from the pending
//! head that lacks proofs, and nothing else.

use crate::engine::forkchoice::{ForkchoiceState, MissingProofView};
use crate::engine::laws::law_missing_complete;
use crate::engine::soundness::lemma_fresh;
use crate::engine::state_model::{
    index_links, indexes, lemma_missing_stops, missing_info, missing_within, PayloadRequestView,
    StateView,
};
use crate::engine::walk::step;
use crate::hash::{ExecutionBlockHash, Hash256};
use vstd::prelude::*;

verus! {

/// Whether the request at `i` is about a child of the block that the next one is about.
pub open spec fn is_on_next(
    buffer: Map<Hash256, PayloadRequestView>,
    line: Seq<Hash256>,
    i: int,
) -> bool {
    buffer[line[i]].metadata.parent_hash == buffer[line[i + 1]].metadata.block_hash
}

/// Whether `line` goes from the buffered request about `start` on to those about its ancestors.
pub open spec fn goes_down(
    buffer: Map<Hash256, PayloadRequestView>,
    start: ExecutionBlockHash,
    line: Seq<Hash256>,
) -> bool {
    &&& line.len() > 0 ==> buffer[line[0]].metadata.block_hash == start
    &&& forall|i: int| 0 <= i < line.len() ==> buffer.contains_key(#[trigger] line[i])
    &&& forall|i: int| 0 <= i < line.len() - 1 ==> #[trigger] is_on_next(buffer, line, i)
}

/// The block that comes after those that `line` is about.
pub open spec fn next_down(
    buffer: Map<Hash256, PayloadRequestView>,
    start: ExecutionBlockHash,
    line: Seq<Hash256>,
) -> ExecutionBlockHash {
    if line.len() == 0 {
        start
    } else {
        buffer[line[line.len() - 1]].metadata.parent_hash
    }
}

/// Whether a report is about a request: it gives its root, and the kinds of its proofs in their
/// order.
pub open spec fn is_about(report: MissingProofView, request: PayloadRequestView) -> bool {
    &&& report.root == request.metadata.request_root
    &&& report.existing_proof_types.len() == request.proofs.len()
    &&& forall|i: int|
        0 <= i < request.proofs.len() ==> #[trigger] report.existing_proof_types[i]
            == request.proofs[i].message.proof_type
    &&& report.slot == 0
}

/// The requests that a walk has passed after `n` links, and which of them it reports.
proof fn lemma_walked_requests(
    s: StateView,
    index: Map<ExecutionBlockHash, Hash256>,
    start: ExecutionBlockHash,
    n: nat,
) -> (r: (Seq<Hash256>, Seq<int>))
    requires
        indexes(s.buffer, index),
    ensures
        goes_down(s.buffer, start, r.0),
        r.0.len() <= n,
        step(index_links(s.buffer, index), start, r.0.len()) == Some(
            next_down(s.buffer, start, r.0),
        ),
        r.0.len() < n ==> !index.contains_key(next_down(s.buffer, start, r.0)),
        r.1.len() == missing_within(s, index, start, n).len(),
        forall|i: int, j: int| 0 <= i < j < r.1.len() ==> r.1[i] < r.1[j],
        forall|i: int|
            0 <= i < r.1.len() ==> 0 <= #[trigger] r.1[i] < r.0.len() && missing_within(
                s,
                index,
                start,
                n,
            )[i] == missing_info(s.buffer[r.0[r.1[i]]]),
        forall|k: int|
            0 <= k < r.0.len() ==> (#[trigger] r.1.contains(k) <==> s.buffer[r.0[k]].proofs.len()
                < s.min_required_proofs),
    decreases n,
{
    let links = index_links(s.buffer, index);
    if n == 0 {
        (Seq::empty(), Seq::empty())
    } else {
        let (line, at) = lemma_walked_requests(s, index, start, (n - 1) as nat);
        let hash = next_down(s.buffer, start, line);
        if line.len() < n - 1 {
            lemma_missing_stops(s, index, start, line.len(), (n - 1) as nat);
            lemma_missing_stops(s, index, start, line.len(), n);
            (line, at)
        } else if !index.contains_key(hash) {
            (line, at)
        } else {
            let root = index[hash];
            let longer = line.push(root);
            assert(s.buffer.contains_key(root));
            assert(links.contains_key(hash) && links[hash] == s.buffer[root].metadata.parent_hash);
            assert forall|i: int| 0 <= i < longer.len() - 1 implies #[trigger] is_on_next(
                s.buffer,
                longer,
                i,
            ) by {
                if i < line.len() - 1 {
                    assert(is_on_next(s.buffer, line, i));
                    assert(longer[i] == line[i] && longer[i + 1] == line[i + 1]);
                }
            }
            let k = line.len() as int;
            let marked = if s.proven(root) {
                at
            } else {
                at.push(k)
            };
            assert forall|j: int| 0 <= j < longer.len() implies (#[trigger] marked.contains(j)
                <==> s.buffer[longer[j]].proofs.len() < s.min_required_proofs) by {
                if j < k {
                    assert(at.contains(j) <==> s.buffer[line[j]].proofs.len()
                        < s.min_required_proofs);
                    if at.contains(j) {
                        assert(marked[at.index_of(j)] == j);
                    }
                    if marked.contains(j) {
                        assert(at[marked.index_of(j)] == j);
                    }
                } else if !s.proven(root) {
                    assert(marked[at.len() as int] == k);
                } else if marked.contains(k) {
                    assert(at[at.index_of(k)] < k);
                }
            }
            (longer, marked)
        }
    }
}

/// On the way down, numbers fall.
proof fn lemma_numbers_fall_down(
    s: StateView,
    start: ExecutionBlockHash,
    line: Seq<Hash256>,
    k: int,
)
    requires
        s.tidy(),
        goes_down(s.buffer, start, line),
        0 <= k < line.len(),
    ensures
        s.buffer[line[k]].metadata.block_number + k <= s.buffer[line[0]].metadata.block_number,
    decreases k,
{
    if k > 0 {
        lemma_numbers_fall_down(s, start, line, k - 1);
        assert(is_on_next(s.buffer, line, k - 1));
        assert(s.buffer.contains_key(line[k]) && s.buffer.contains_key(line[k - 1]));
        assert(s.holds(s.buffer[line[k]].metadata) && s.holds(s.buffer[line[k - 1]].metadata));
    }
}

/// The report goes down from the pending head through the buffered requests, as far as one is about
/// the parent of the one before. On that way it holds exactly the requests that have fewer proofs
/// than required, in this order.
pub proof fn law_missing_report(
    s: StateView,
    fcs: ForkchoiceState,
    result: Seq<MissingProofView>,
) -> (r: (Seq<Hash256>, Seq<int>))
    requires
        s.tidy(),
        s.buffer.dom().finite(),
        s.is_missing(result),
        s.latest_fcs == Some(fcs),
    ensures
        goes_down(s.buffer, fcs.head_block_hash, r.0),
        forall|root: Hash256| #[trigger]
            s.buffer.contains_key(root) ==> s.buffer[root].metadata.block_hash != next_down(
                s.buffer,
                fcs.head_block_hash,
                r.0,
            ),
        r.1.len() == result.len(),
        forall|i: int, j: int| 0 <= i < j < r.1.len() ==> r.1[i] < r.1[j],
        forall|i: int|
            0 <= i < r.1.len() ==> 0 <= #[trigger] r.1[i] < r.0.len() && is_about(
                result[i],
                s.buffer[r.0[r.1[i]]],
            ) && result[i].root == r.0[r.1[i]],
        forall|k: int|
            0 <= k < r.0.len() ==> (#[trigger] r.1.contains(k) <==> s.buffer[r.0[k]].proofs.len()
                < s.min_required_proofs),
{
    let start = fcs.head_block_hash;
    let index = choose|index: Map<ExecutionBlockHash, Hash256>| #[trigger]
        indexes(s.buffer, index) && result == missing_within(s, index, start, index.len());
    let about = |root: Hash256| s.buffer[root].metadata.block_hash;
    assert(index.dom().subset_of(s.buffer.dom().map(about))) by {
        assert forall|hash: ExecutionBlockHash| #[trigger] index.dom().contains(
            hash,
        ) implies s.buffer.dom().map(about).contains(hash) by {
            assert(index.contains_key(hash));
            assert(s.buffer.dom().contains(index[hash]) && about(index[hash]) == hash);
        }
    }
    s.buffer.dom().lemma_map_finite(about);
    vstd::set_lib::lemma_set_subset_finite(s.buffer.dom().map(about), index.dom());
    let n = index.len() + u64::MAX as nat + 2;
    law_missing_complete(s, index, start, n);
    let (line, at) = lemma_walked_requests(s, index, start, n);
    if line.len() > 0 {
        lemma_numbers_fall_down(s, start, line, line.len() - 1);
    }
    (line, at)
}

/// Every buffered request that parents lead to from the pending head, through buffered requests, is
/// reported if and only if it has fewer proofs than required.
pub proof fn law_every_missing_proof_reported(
    s: StateView,
    fcs: ForkchoiceState,
    result: Seq<MissingProofView>,
    line: Seq<Hash256>,
)
    requires
        s.tidy(),
        s.buffer.dom().finite(),
        s.is_missing(result),
        s.latest_fcs == Some(fcs),
        line.len() > 0,
        goes_down(s.buffer, fcs.head_block_hash, line),
    ensures
        s.buffer[line[line.len() - 1]].proofs.len() < s.min_required_proofs <==> exists|i: int|
            0 <= i < result.len() && (#[trigger] result[i]).root == line[line.len() - 1],
        forall|i: int|
            0 <= i < result.len() && (#[trigger] result[i]).root == line[line.len() - 1]
                ==> is_about(result[i], s.buffer[line[line.len() - 1]]),
{
    let (walk, at) = law_missing_report(s, fcs, result);
    let k = line.len() - 1;
    lemma_one_way_down(s, fcs.head_block_hash, walk, line, k);
    let root = line[k];
    if s.buffer[root].proofs.len() < s.min_required_proofs {
        assert(at.contains(k));
        let i = at.index_of(k);
        assert(at[i] == k);
        assert(result[i].root == root);
    }
    assert forall|i: int| 0 <= i < result.len() && (#[trigger] result[i]).root == root implies
        is_about(result[i], s.buffer[root]) && s.buffer[root].proofs.len()
        < s.min_required_proofs by {
        let j = at[i];
        assert(at.contains(j));
        assert(walk[j] == root);
    }
}

/// There is one way down from a block, and the longest goes on as long as any other.
proof fn lemma_one_way_down(
    s: StateView,
    start: ExecutionBlockHash,
    walk: Seq<Hash256>,
    line: Seq<Hash256>,
    k: int,
)
    requires
        s.tidy(),
        goes_down(s.buffer, start, walk),
        goes_down(s.buffer, start, line),
        forall|root: Hash256| #[trigger]
            s.buffer.contains_key(root) ==> s.buffer[root].metadata.block_hash != next_down(
                s.buffer,
                start,
                walk,
            ),
        0 <= k < line.len(),
    ensures
        k < walk.len(),
        walk[k] == line[k],
    decreases k,
{
    assert(s.buffer.contains_key(line[k]));
    lemma_fresh(s, line[k]);
    if k == 0 {
        assert(walk.len() > 0);
        assert(s.buffer.contains_key(walk[0]));
    } else {
        lemma_one_way_down(s, start, walk, line, k - 1);
        assert(is_on_next(s.buffer, line, k - 1));
        if k < walk.len() {
            assert(is_on_next(s.buffer, walk, k - 1));
            assert(s.buffer.contains_key(walk[k]));
        } else {
            assert(walk.len() - 1 == k - 1);
        }
    }
}

/// While no fork choice state is pending, nothing is reported.
pub proof fn law_nothing_pending_nothing_missing(s: StateView, result: Seq<MissingProofView>)
    requires
        s.is_missing(result),
        s.latest_fcs is None,
    ensures
        result.len() == 0,
{
}

} // verus!
