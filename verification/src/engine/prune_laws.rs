//! What pruning leaves of a sound state.

use crate::engine::errors::ProofEngineStateError;
use crate::engine::prune_model::{absence, groups_below, lists, lists_below};
use crate::engine::soundness::{in_set, lemma_fresh};
use crate::engine::state_model::{descends, parents, RequestMetadata, StateView, TreeView};
use crate::engine::walk::step;
use crate::hash::{ExecutionBlockHash, Hash256};
use vstd::prelude::*;

verus! {

impl TreeView {
    /// The number of a block of the tree.
    pub open spec fn number(self, hash: ExecutionBlockHash) -> u64 {
        self.blocks[hash].metadata.block_number
    }

    /// The parent of a block of the tree.
    pub open spec fn parent(self, hash: ExecutionBlockHash) -> ExecutionBlockHash {
        self.blocks[hash].metadata.parent_hash
    }

    /// Whether the roots of the tree are exactly those of its requests.
    pub open spec fn rooted(self) -> bool {
        &&& forall|hash: ExecutionBlockHash| #[trigger]
            self.blocks.contains_key(hash) ==> self.roots.contains_key(
                self.blocks[hash].metadata.request_root,
            ) && self.roots[self.blocks[hash].metadata.request_root] == hash
        &&& forall|root: Hash256| #[trigger]
            self.roots.contains_key(root) ==> self.blocks.contains_key(self.roots[root])
                && self.blocks[self.roots[root]].metadata.request_root == root
    }

    /// Whether the index of children lists exactly the children of each block of the tree.
    pub open spec fn closed_below(self) -> bool {
        forall|hash: ExecutionBlockHash, child: ExecutionBlockHash| #[trigger]
            self.blocks.contains_key(hash) ==> (#[trigger] in_set(self.children, hash, child)
                <==> self.blocks.contains_key(child) && self.parent(child) == hash)
    }

    /// Whether the number of each block is larger than that of its parent.
    pub open spec fn climbs(self) -> bool {
        forall|hash: ExecutionBlockHash| #[trigger]
            self.blocks.contains_key(hash) && self.blocks.contains_key(self.parent(hash))
                ==> self.number(self.parent(hash)) < self.number(hash)
    }

    /// The blocks that are among `tops` or descend from one of them.
    pub open spec fn under(self, tops: Seq<ExecutionBlockHash>) -> Set<ExecutionBlockHash> {
        Set::new(
            |b: ExecutionBlockHash|
                self.blocks.contains_key(b) && exists|top: ExecutionBlockHash|
                    tops.contains(top) && #[trigger] descends(self, top, b),
        )
    }

    /// Whether `after` is the tree without the blocks of `gone`.
    pub open spec fn cut(self, gone: Set<ExecutionBlockHash>, after: TreeView) -> bool {
        &&& after.blocks == self.blocks.remove_keys(gone)
        &&& after.children == self.children.remove_keys(gone)
        &&& after.head == self.head
        &&& forall|root: Hash256| #[trigger]
            after.roots.contains_key(root) <==> self.roots.contains_key(root) && !gone.contains(
                self.roots[root],
            )
        &&& forall|root: Hash256| #[trigger]
            after.roots.contains_key(root) ==> after.roots[root] == self.roots[root]
        &&& forall|n: u64, hash: ExecutionBlockHash| #[trigger]
            in_set(after.numbers, n, hash) <==> in_set(self.numbers, n, hash) && !(gone.contains(
                hash,
            ) && self.number(hash) == n)
    }
}

proof fn lemma_without(t: TreeView, hash: ExecutionBlockHash)
    requires
        t.rooted(),
        t.blocks.contains_key(hash),
    ensures
        t.cut(set![hash], t.without(hash)),
        t.without(hash).rooted(),
{
    let after = t.without(hash);
    let meta = t.blocks[hash].metadata;
    assert(after.blocks =~= t.blocks.remove_keys(set![hash]));
    assert(after.children =~= t.children.remove_keys(set![hash]));
    assert forall|root: Hash256| #[trigger] after.roots.contains_key(root)
        <==> t.roots.contains_key(root) && !set![hash].contains(t.roots[root]) by {
        if t.roots.contains_key(root) && t.roots[root] == hash {
            assert(t.blocks[t.roots[root]].metadata.request_root == root);
        }
    }
    assert forall|n: u64, h: ExecutionBlockHash| #[trigger] in_set(after.numbers, n, h) <==> in_set(
        t.numbers,
        n,
        h,
    ) && !(set![hash].contains(h) && t.number(h) == n) by {
        let m = meta.block_number;
        if t.numbers.contains_key(m) && t.numbers[m].remove(hash) == Set::<
            ExecutionBlockHash,
        >::empty() {
            if n == m && t.numbers[m].contains(h) && h != hash {
                assert(t.numbers[m].remove(hash).contains(h));
            }
        }
    }
    assert forall|h: ExecutionBlockHash| #[trigger] after.blocks.contains_key(h) implies
        after.roots.contains_key(after.blocks[h].metadata.request_root)
        && after.roots[after.blocks[h].metadata.request_root] == h by {
        assert(t.blocks.contains_key(h));
    }
    assert forall|root: Hash256| #[trigger] after.roots.contains_key(root) implies
        after.blocks.contains_key(after.roots[root])
        && after.blocks[after.roots[root]].metadata.request_root == root by {
        assert(t.roots.contains_key(root));
    }
}

proof fn lemma_cut_nothing(t: TreeView)
    ensures
        t.cut(Set::empty(), t),
{
    assert(t.blocks =~= t.blocks.remove_keys(Set::empty()));
    assert(t.children =~= t.children.remove_keys(Set::empty()));
}

proof fn lemma_cut_twice(
    t: TreeView,
    a: Set<ExecutionBlockHash>,
    t1: TreeView,
    b: Set<ExecutionBlockHash>,
    t2: TreeView,
)
    requires
        t.cut(a, t1),
        t1.cut(b, t2),
        forall|h: ExecutionBlockHash| #[trigger] b.contains(h) ==> t1.blocks.contains_key(h),
    ensures
        t.cut(a.union(b), t2),
{
    let ab = a.union(b);
    assert(t2.blocks =~= t.blocks.remove_keys(ab));
    assert(t2.children =~= t.children.remove_keys(ab));
    assert forall|root: Hash256| #[trigger] t2.roots.contains_key(root)
        <==> t.roots.contains_key(root) && !ab.contains(t.roots[root]) by {
        assert(t1.roots.contains_key(root) <==> t.roots.contains_key(root) && !a.contains(
            t.roots[root],
        ));
    }
    assert forall|root: Hash256| #[trigger] t2.roots.contains_key(root) implies t2.roots[root]
        == t.roots[root] by {
        assert(t1.roots.contains_key(root));
    }
    assert forall|n: u64, h: ExecutionBlockHash| #[trigger] in_set(t2.numbers, n, h) <==> in_set(
        t.numbers,
        n,
        h,
    ) && !(ab.contains(h) && t.number(h) == n) by {
        assert(in_set(t1.numbers, n, h) <==> in_set(t.numbers, n, h) && !(a.contains(h)
            && t.number(h) == n));
        if b.contains(h) {
            assert(t1.blocks.contains_key(h));
            assert(t1.number(h) == t.number(h));
        }
    }
}

/// Blocks of the tree, none of them twice, can all be taken out.
proof fn lemma_without_all(t: TreeView, order: Seq<ExecutionBlockHash>)
    requires
        t.rooted(),
        order.no_duplicates(),
        forall|i: int| 0 <= i < order.len() ==> t.blocks.contains_key(#[trigger] order[i]),
    ensures
        t.first_absent(order) is None,
        t.cut(order.to_set(), t.without_all(order)),
        t.without_all(order).rooted(),
    decreases order.len(),
{
    if order.len() == 0 {
        assert(order.to_set() =~= Set::<ExecutionBlockHash>::empty());
        lemma_cut_nothing(t);
    } else {
        let first = order[0];
        let rest = order.skip(1);
        let t1 = t.without(first);
        lemma_without(t, first);
        assert forall|i: int| 0 <= i < rest.len() implies t1.blocks.contains_key(
            #[trigger] rest[i],
        ) by {
            assert(rest[i] == order[i + 1]);
            assert(order[i + 1] != order[0]);
        }
        assert forall|i: int, j: int|
            0 <= i < rest.len() && 0 <= j < rest.len() && i != j implies rest[i] != rest[j] by {
            assert(rest[i] == order[i + 1] && rest[j] == order[j + 1]);
        }
        lemma_without_all(t1, rest);
        assert forall|h: ExecutionBlockHash| #[trigger]
            rest.to_set().contains(h) implies t1.blocks.contains_key(h) by {
            let i = rest.index_of(h);
            assert(rest[i] == h);
        }
        lemma_cut_twice(t, set![first], t1, rest.to_set(), t1.without_all(rest));
        assert(set![first].union(rest.to_set()) =~= order.to_set()) by {
            assert forall|h: ExecutionBlockHash| order.contains(h) == (h == first
                || rest.contains(h)) by {
                if order.contains(h) {
                    let i = order.index_of(h);
                    if i > 0 {
                        assert(rest[i - 1] == h);
                    }
                }
                if rest.contains(h) {
                    let i = rest.index_of(h);
                    assert(order[i + 1] == h);
                }
                assert(order.contains(first));
            }
        }
    }
}

/// A walk along some of the links is a walk along all of them.
proof fn lemma_walk_in_more<K>(some: Map<K, K>, all: Map<K, K>, start: K, k: nat)
    requires
        step(some, start, k) is Some,
        forall|x: K| #[trigger]
            some.contains_key(x) ==> all.contains_key(x) && all[x] == some[x],
    ensures
        step(all, start, k) == step(some, start, k),
    decreases k,
{
    if k > 0 {
        lemma_walk_in_more(some, all, start, (k - 1) as nat);
    }
}

/// A walk that uses none of the links that are missing is a walk without them.
pub proof fn lemma_walk_in_fewer<K>(all: Map<K, K>, gone: Set<K>, start: K, k: nat)
    requires
        step(all, start, k) is Some,
        forall|j: nat| j < k ==> !gone.contains((#[trigger] step(all, start, j))->0),
    ensures
        step(all.remove_keys(gone), start, k) == step(all, start, k),
    decreases k,
{
    if k > 0 {
        lemma_walk_in_fewer(all, gone, start, (k - 1) as nat);
        assert(step(all, start, (k - 1) as nat) is Some);
        assert(!gone.contains(step(all, start, (k - 1) as nat)->0));
    }
}

/// The first time at which a walk meets `x`, if it does within `k` links.
proof fn lemma_first_meeting<K>(links: Map<K, K>, start: K, x: K, k: nat) -> (j: Option<nat>)
    ensures
        match j {
            Some(j) => j <= k && step(links, start, j) == Some(x) && forall|i: nat|
                i < j ==> #[trigger] step(links, start, i) != Some(x),
            None => forall|i: nat| i <= k ==> #[trigger] step(links, start, i) != Some(x),
        },
    decreases k,
{
    if k == 0 {
        if start == x {
            Some(0)
        } else {
            None
        }
    } else {
        let earlier = lemma_first_meeting(links, start, x, (k - 1) as nat);
        if earlier is Some {
            earlier
        } else if step(links, start, k) == Some(x) {
            Some(k)
        } else {
            None
        }
    }
}

/// A walk that goes on has been somewhere before.
pub proof fn lemma_walked(links: Map<ExecutionBlockHash, ExecutionBlockHash>, start: ExecutionBlockHash, j: nat, k: nat)
    requires
        j <= k,
        step(links, start, k) is Some,
    ensures
        step(links, start, j) is Some,
        j < k ==> links.contains_key(step(links, start, j)->0),
    decreases k,
{
    if j < k {
        lemma_walked(links, start, j, (k - 1) as nat);
        if j == k - 1 {
        }
    }
}

/// Along a walk to ancestors, numbers fall.
proof fn lemma_numbers_fall(t: TreeView, b: ExecutionBlockHash, j: nat, k: nat)
    requires
        t.climbs(),
        j < k,
        step(parents(t.blocks), b, k) is Some,
        t.blocks.contains_key(step(parents(t.blocks), b, k)->0),
    ensures
        step(parents(t.blocks), b, j) is Some,
        t.blocks.contains_key(step(parents(t.blocks), b, j)->0),
        t.number(step(parents(t.blocks), b, j)->0) > t.number(step(parents(t.blocks), b, k)->0),
    decreases k,
{
    let links = parents(t.blocks);
    lemma_walked(links, b, j, k);
    lemma_walked(links, b, (k - 1) as nat, k);
    let before = step(links, b, (k - 1) as nat)->0;
    assert(links.contains_key(before));
    assert(t.blocks.contains_key(before));
    assert(links[before] == t.parent(before));
    assert(step(links, b, k) == Some(t.parent(before)));
    if j < k - 1 {
        lemma_numbers_fall(t, b, j, (k - 1) as nat);
    }
}

/// What descends from the pending blocks is the last of them, and what descends from its children or
/// from the other pending blocks once it is gone.
proof fn lemma_under_next(
    t: TreeView,
    pending: Seq<ExecutionBlockHash>,
    more: Seq<ExecutionBlockHash>,
)
    requires
        t.closed_below(),
        t.climbs(),
        pending.len() > 0,
        pending.no_duplicates(),
        t.blocks.contains_key(pending.last()),
        lists(more, t.children_of(pending.last())),
    ensures
        t.under(pending) == set![pending.last()].union(
            t.without(pending.last()).under(pending.drop_last() + more),
        ),
{
    let x = pending.last();
    let t1 = t.without(x);
    let next = pending.drop_last() + more;
    let links = parents(t.blocks);
    let links1 = parents(t1.blocks);
    assert(links1 =~= links.remove_keys(set![x]));
    assert(pending.contains(x));
    assert forall|b: ExecutionBlockHash| t.under(pending).contains(b) implies set![x].union(
        t1.under(next),
    ).contains(b) by {
        if b != x {
            let top = choose|top: ExecutionBlockHash|
                pending.contains(top) && #[trigger] descends(t, top, b);
            let k = choose|k: nat| #[trigger] step(links, b, k) == Some(top);
            match lemma_first_meeting(links, b, x, k) {
                Some(j) => {
                    assert(j > 0);
                    let i = (j - 1) as nat;
                    lemma_walked(links, b, i, j);
                    let c = step(links, b, i)->0;
                    assert(links.contains_key(c) && links[c] == x);
                    assert(t.blocks.contains_key(c) && t.parent(c) == x);
                    assert(in_set(t.children, x, c));
                    assert(more.to_set().contains(c));
                    assert forall|l: nat| l < i implies !set![x].contains(
                        (#[trigger] step(links, b, l))->0,
                    ) by {
                        lemma_walked(links, b, l, j);
                        assert(step(links, b, l) != Some(x));
                    }
                    lemma_walk_in_fewer(links, set![x], b, i);
                    assert(step(links1, b, i) == Some(c));
                    assert(descends(t1, c, b));
                    let at = more.index_of(c);
                    assert(next[pending.drop_last().len() + at] == c);
                    assert(next.contains(c));
                },
                None => {
                    assert forall|l: nat| l < k implies !set![x].contains(
                        (#[trigger] step(links, b, l))->0,
                    ) by {
                        lemma_walked(links, b, l, k);
                        assert(step(links, b, l) != Some(x));
                    }
                    lemma_walk_in_fewer(links, set![x], b, k);
                    assert(step(links1, b, k) == Some(top));
                    assert(descends(t1, top, b));
                    assert(step(links, b, k) != Some(x));
                    let at = pending.index_of(top);
                    assert(next[at] == top);
                    assert(next.contains(top));
                },
            }
        }
    }
    assert forall|b: ExecutionBlockHash| set![x].union(t1.under(next)).contains(b) implies t.under(
        pending,
    ).contains(b) by {
        if b == x {
            assert(step(links, b, 0) == Some(x));
            assert(descends(t, x, b));
        } else {
            let top = choose|top: ExecutionBlockHash|
                next.contains(top) && #[trigger] descends(t1, top, b);
            let k = choose|k: nat| #[trigger] step(links1, b, k) == Some(top);
            lemma_walk_in_more(links1, links, b, k);
            let at = next.index_of(top);
            if at < pending.len() - 1 {
                assert(pending[at] == top);
                assert(descends(t, top, b));
            } else {
                assert(more[at - (pending.len() - 1)] == top);
                assert(more.to_set().contains(top));
                assert(in_set(t.children, x, top));
                assert(t.blocks.contains_key(top) && t.parent(top) == x);
                assert(links.contains_key(top) && links[top] == x);
                assert(step(links, b, k + 1) == Some(x));
                assert(descends(t, x, b));
            }
        }
    }
    assert(t.under(pending) =~= set![x].union(t1.under(next)));
}

/// Whether pending blocks can be taken out with all that descends from them: they are in the tree,
/// none twice, and their parents are not.
pub open spec fn ready(t: TreeView, pending: Seq<ExecutionBlockHash>) -> bool {
    &&& t.rooted()
    &&& t.closed_below()
    &&& t.climbs()
    &&& pending.no_duplicates()
    &&& forall|i: int|
        0 <= i < pending.len() ==> t.blocks.contains_key(#[trigger] pending[i])
            && !t.blocks.contains_key(t.parent(pending[i]))
}

/// One removal leaves the pending blocks ready.
proof fn lemma_ready_next(
    t: TreeView,
    pending: Seq<ExecutionBlockHash>,
    more: Seq<ExecutionBlockHash>,
)
    requires
        ready(t, pending),
        pending.len() > 0,
        lists(more, t.children_of(pending.last())),
    ensures
        ready(t.without(pending.last()), pending.drop_last() + more),
{
    let x = pending.last();
    let t1 = t.without(x);
    let next = pending.drop_last() + more;
    lemma_without(t, x);
    assert(x == pending[pending.len() - 1]);
    assert forall|i: int| 0 <= i < more.len() implies t.blocks.contains_key(#[trigger] more[i])
        && t.parent(more[i]) == x && more[i] != x by {
        assert(more.to_set().contains(more[i]));
        assert(in_set(t.children, x, more[i]));
    }
    assert forall|i: int| 0 <= i < next.len() implies t1.blocks.contains_key(#[trigger] next[i])
        && !t1.blocks.contains_key(t1.parent(next[i])) by {
        if i < pending.len() - 1 {
            assert(next[i] == pending[i]);
            assert(pending[i] != pending[pending.len() - 1]);
        } else {
            assert(next[i] == more[i - (pending.len() - 1)]);
        }
    }
    assert forall|i: int, j: int|
        0 <= i < next.len() && 0 <= j < next.len() && i != j implies next[i] != next[j] by {
        let n = pending.len() - 1;
        if i < n && j < n {
            assert(next[i] == pending[i] && next[j] == pending[j]);
        } else if i >= n && j >= n {
            assert(next[i] == more[i - n] && next[j] == more[j - n]);
        } else if i < n {
            assert(next[i] == pending[i] && next[j] == more[j - n]);
        } else {
            assert(next[j] == pending[j] && next[i] == more[i - n]);
        }
    }
    assert forall|h: ExecutionBlockHash, c: ExecutionBlockHash| #[trigger]
        t1.blocks.contains_key(h) implies (#[trigger] in_set(t1.children, h, c)
        <==> t1.blocks.contains_key(c) && t1.parent(c) == h) by {
        assert(t.blocks.contains_key(h));
        assert(in_set(t1.children, h, c) == in_set(t.children, h, c));
    }
    assert forall|h: ExecutionBlockHash| #[trigger]
        t1.blocks.contains_key(h) && t1.blocks.contains_key(t1.parent(h)) implies t1.number(
        t1.parent(h),
    ) < t1.number(h) by {
        assert(t.blocks.contains_key(h) && t.blocks.contains_key(t.parent(h)));
    }
}

/// Ready blocks are taken out with exactly what descends from them, and nothing is missed.
proof fn lemma_drains(
    t: TreeView,
    pending: Seq<ExecutionBlockHash>,
    n: nat,
    after: TreeView,
    absent: Option<ExecutionBlockHash>,
)
    requires
        ready(t, pending),
        t.drains(pending, n, after, absent),
    ensures
        absent is None,
        t.cut(t.under(pending), after),
        after.rooted(),
        after.closed_below(),
    decreases n,
{
    if n == 0 {
        if pending.len() > 0 {
            assert(t.blocks.contains_key(pending[pending.len() - 1]));
        }
        assert(t.under(pending) =~= Set::<ExecutionBlockHash>::empty());
        lemma_cut_nothing(t);
    } else {
        let x = pending.last();
        let more = choose|more: Seq<ExecutionBlockHash>| #[trigger]
            lists(more, t.children_of(pending.last())) && t.without(pending.last()).drains(
                pending.drop_last() + more,
                (n - 1) as nat,
                after,
                absent,
            );
        let t1 = t.without(x);
        let next = pending.drop_last() + more;
        lemma_ready_next(t, pending, more);
        lemma_drains(t1, next, (n - 1) as nat, after, absent);
        lemma_without(t, x);
        lemma_under_next(t, pending, more);
        lemma_cut_twice(t, set![x], t1, t1.under(next), after);
    }
}

/// Groups of blocks of different heights have no block in common.
proof fn lemma_groups(
    t: TreeView,
    heights: Seq<u64>,
    groups: Seq<Seq<ExecutionBlockHash>>,
)
    requires
        heights.len() == groups.len(),
        forall|i: int, j: int| 0 <= i < j < heights.len() ==> heights[i] < heights[j],
        forall|i: int|
            0 <= i < heights.len() ==> lists(#[trigger] groups[i], t.numbers[heights[i]])
                && t.numbers.contains_key(heights[i]),
        forall|n: u64, hash: ExecutionBlockHash| #[trigger]
            in_set(t.numbers, n, hash) <==> t.blocks.contains_key(hash) && t.number(hash) == n,
    ensures
        groups.flatten().no_duplicates(),
        forall|h: ExecutionBlockHash| #[trigger]
            groups.flatten().contains(h) <==> (t.blocks.contains_key(h) && heights.contains(
                t.number(h),
            )),
    decreases groups.len(),
{
    if groups.len() == 0 {
        assert(groups.flatten() =~= Seq::<ExecutionBlockHash>::empty());
    } else {
        let n = groups.len() - 1;
        let init = groups.drop_last();
        let last = groups.last();
        let lower = heights.drop_last();
        assert forall|i: int| 0 <= i < lower.len() implies lists(
            #[trigger] init[i],
            t.numbers[lower[i]],
        ) && t.numbers.contains_key(lower[i]) by {
            assert(init[i] == groups[i]);
        }
        lemma_groups(t, lower, init);
        init.lemma_flatten_push(last);
        assert(init.push(last) =~= groups);
        assert(groups.flatten() == init.flatten() + last);
        assert(lists(groups[n], t.numbers[heights[n]]));
        let all = groups.flatten();
        let a = init.flatten();
        assert forall|h: ExecutionBlockHash| #[trigger] last.contains(h) <==> (
        t.blocks.contains_key(h) && t.number(h) == heights[n]) by {
            assert(last.to_set().contains(h) == t.numbers[heights[n]].contains(h));
            assert(in_set(t.numbers, heights[n], h) == last.contains(h));
        }
        assert forall|h: ExecutionBlockHash| all.contains(h) <==> a.contains(h)
            || last.contains(h) by {
            if all.contains(h) {
                let i = all.index_of(h);
                if i < a.len() {
                    assert(a[i] == h);
                } else {
                    assert(last[i - a.len()] == h);
                }
            }
            if a.contains(h) {
                let i = a.index_of(h);
                assert(all[i] == h);
            }
            if last.contains(h) {
                let i = last.index_of(h);
                assert(all[a.len() + i] == h);
            }
        }
        assert forall|h: ExecutionBlockHash| #[trigger]
            all.contains(h) <==> (t.blocks.contains_key(h) && heights.contains(t.number(h))) by {
            let m = t.number(h);
            assert(all.contains(h) <==> a.contains(h) || last.contains(h));
            assert(a.contains(h) <==> t.blocks.contains_key(h) && lower.contains(m));
            assert(last.contains(h) <==> t.blocks.contains_key(h) && m == heights[n]);
            if lower.contains(m) {
                let i = lower.index_of(m);
                assert(heights[i] == m);
            }
            if m == heights[n] {
                assert(heights.contains(m));
            }
            if heights.contains(m) {
                let i = heights.index_of(m);
                if i < n {
                    assert(lower[i] == m);
                }
            }
        }
        assert forall|i: int, j: int|
            0 <= i < all.len() && 0 <= j < all.len() && i != j implies all[i] != all[j] by {
            let p = if i < j { i } else { j };
            let q = if i < j { j } else { i };
            if q < a.len() {
                assert(a[p] != a[q]);
            } else if p >= a.len() {
                assert(last[p - a.len()] != last[q - a.len()]);
            } else {
                assert(a.contains(a[p]));
                assert(last.contains(last[q - a.len()]));
                if all[p] == all[q] {
                    let h = all[p];
                    assert(t.blocks.contains_key(h));
                    let l = lower.index_of(t.number(h));
                    assert(heights[l] < heights[n]);
                }
            }
        }
    }
}

/// The blocks that pruning at the final block `hash` keeps: those at its height or above that
/// descend from none of the other blocks at its height.
pub open spec fn survives(t: TreeView, hash: ExecutionBlockHash, b: ExecutionBlockHash) -> bool {
    &&& t.blocks.contains_key(b)
    &&& t.number(b) >= t.number(hash)
    &&& forall|beside: ExecutionBlockHash|
        t.blocks.contains_key(beside) && t.number(beside) == t.number(hash) && beside != hash
            ==> !#[trigger] descends(t, beside, b)
}

/// What is under the blocks beside the final one is the same with and without the blocks below.
proof fn lemma_under_beside(
    t: TreeView,
    hash: ExecutionBlockHash,
    below: Set<ExecutionBlockHash>,
    t1: TreeView,
    beside: Seq<ExecutionBlockHash>,
    b: ExecutionBlockHash,
)
    requires
        t.climbs(),
        t1.blocks == t.blocks.remove_keys(below),
        forall|h: ExecutionBlockHash|
            below.contains(h) <==> #[trigger] t.blocks.contains_key(h) && t.number(h) < t.number(
                hash,
            ),
        forall|h: ExecutionBlockHash|
            beside.contains(h) <==> #[trigger] t.blocks.contains_key(h) && t.number(h) == t.number(
                hash,
            ) && h != hash,
        t1.blocks.contains_key(b),
    ensures
        t1.under(beside).contains(b) <==> !survives(t, hash, b),
{
    let links = parents(t.blocks);
    let links1 = parents(t1.blocks);
    assert(links1 =~= links.remove_keys(below));
    assert(t.blocks.contains_key(b));
    if t1.under(beside).contains(b) {
        let top = choose|top: ExecutionBlockHash|
            beside.contains(top) && #[trigger] descends(t1, top, b);
        let k = choose|k: nat| #[trigger] step(links1, b, k) == Some(top);
        lemma_walk_in_more(links1, links, b, k);
        assert(descends(t, top, b));
        assert(t.blocks.contains_key(top));
    }
    if !survives(t, hash, b) {
        let top = choose|top: ExecutionBlockHash|
            t.blocks.contains_key(top) && t.number(top) == t.number(hash) && top != hash
                && #[trigger] descends(t, top, b);
        assert(descends(t, top, b));
        let k = choose|k: nat| #[trigger] step(links, b, k) == Some(top);
        assert forall|j: nat| j < k implies !below.contains(
            (#[trigger] step(links, b, j))->0,
        ) by {
            lemma_numbers_fall(t, b, j, k);
        }
        lemma_walk_in_fewer(links, below, b, k);
        assert(step(links1, b, k) == Some(top));
        assert(beside.contains(top));
        assert(descends(t1, top, b));
    }
}

/// What pruning a sound state at one of its blocks does to the tree: it misses no block, and leaves
/// exactly the blocks that survive.
pub proof fn lemma_drops_stale(
    s: StateView,
    hash: ExecutionBlockHash,
    after: TreeView,
    absent: Option<ExecutionBlockHash>,
)
    requires
        s.sound(),
        s.tree.blocks.contains_key(hash),
        s.tree.drops_stale(s.tree.number(hash), hash, after, absent),
    ensures
        absent is None,
        forall|b: ExecutionBlockHash| #[trigger]
            after.blocks.contains_key(b) <==> survives(s.tree, hash, b),
        forall|b: ExecutionBlockHash| #[trigger]
            after.blocks.contains_key(b) ==> after.blocks[b] == s.tree.blocks[b],
        after.rooted(),
        after.closed_below(),
        after.head == s.tree.head,
        forall|n: u64, b: ExecutionBlockHash| #[trigger]
            in_set(after.numbers, n, b) <==> after.blocks.contains_key(b) && after.number(b) == n,
        forall|root: Hash256| #[trigger]
            after.roots.contains_key(root) ==> s.tree.roots.contains_key(root),
        forall|p: ExecutionBlockHash, c: ExecutionBlockHash|
            !s.tree.blocks.contains_key(p) ==> #[trigger] in_set(after.children, p, c) == in_set(
                s.tree.children,
                p,
                c,
            ),
        forall|p: ExecutionBlockHash, c: ExecutionBlockHash|
            s.tree.blocks.contains_key(p) && !after.blocks.contains_key(p) ==> !#[trigger] in_set(
                after.children,
                p,
                c,
            ),
{
    let t = s.tree;
    let n = t.number(hash);
    assert(t.rooted());
    assert(t.climbs()) by {
        assert forall|h: ExecutionBlockHash| #[trigger]
            t.blocks.contains_key(h) && t.blocks.contains_key(t.parent(h)) implies t.number(
            t.parent(h),
        ) < t.number(h) by {
            assert(s.holds(t.blocks[h].metadata));
            assert(s.holds(t.blocks[t.parent(h)].metadata));
        }
    }
    assert(t.closed_below()) by {
        assert forall|h: ExecutionBlockHash, c: ExecutionBlockHash| #[trigger]
            t.blocks.contains_key(h) implies (#[trigger] in_set(t.children, h, c)
            <==> t.blocks.contains_key(c) && t.parent(c) == h) by {}
    }
    let below = choose|below: Seq<ExecutionBlockHash>| #[trigger]
        lists_below(t.numbers, n, below) && match t.split_at(n).first_absent(below) {
            Some(h) => after == t.split_at(n).without_all(below) && absent == Some(h),
            None => t.split_at(n).without_all(below).drops_siblings(n, hash, after, absent),
        };
    let (heights, groups) = choose|heights: Seq<u64>, groups: Seq<Seq<ExecutionBlockHash>>|
        #[trigger] groups_below(t.numbers, n, heights, groups) && below == groups.flatten();
    assert forall|i: int| 0 <= i < heights.len() implies lists(
        #[trigger] groups[i],
        t.numbers[heights[i]],
    ) && t.numbers.contains_key(heights[i]) by {
        assert(heights.contains(heights[i]));
    }
    lemma_groups(t, heights, groups);
    assert forall|h: ExecutionBlockHash|
        below.to_set().contains(h) <==> #[trigger] t.blocks.contains_key(h) && t.number(h) < n by {
        if t.blocks.contains_key(h) {
            assert(in_set(t.numbers, t.number(h), h));
            assert(t.numbers.contains_key(t.number(h)));
        }
        assert(below.contains(h) <==> t.blocks.contains_key(h) && heights.contains(t.number(h)));
    }
    let t0 = t.split_at(n);
    assert(t0.rooted());
    assert forall|i: int| 0 <= i < below.len() implies t0.blocks.contains_key(
        #[trigger] below[i],
    ) by {
        assert(below.to_set().contains(below[i]));
        assert(t.blocks.contains_key(below[i]));
    }
    lemma_without_all(t0, below);
    let t1 = t0.without_all(below);
    assert forall|m: u64, b: ExecutionBlockHash| #[trigger] in_set(t1.numbers, m, b)
        <==> t1.blocks.contains_key(b) && t1.number(b) == m by {
        assert(in_set(t0.numbers, m, b) <==> m >= n && in_set(t.numbers, m, b));
        assert(in_set(t.numbers, m, b) <==> t.blocks.contains_key(b) && t.number(b) == m);
        assert(t1.blocks.contains_key(b) <==> t.blocks.contains_key(b) && !below.to_set().contains(
            b,
        ));
    }
    assert(t.blocks.contains_key(hash));
    assert(t1.blocks.contains_key(hash));
    assert(in_set(t1.numbers, n, hash));
    let (beside, steps) = choose|beside: Seq<ExecutionBlockHash>, steps: nat|
        lists(beside, t1.numbers[n].remove(hash)) && #[trigger] t1.settled_at(n, hash).drains(
            beside,
            steps,
            after,
            absent,
        );
    let t2 = t1.settled_at(n, hash);
    assert forall|h: ExecutionBlockHash|
        beside.contains(h) <==> #[trigger] t.blocks.contains_key(h) && t.number(h) == n && h
            != hash by {
        assert(beside.to_set().contains(h) == t1.numbers[n].remove(hash).contains(h));
        assert(in_set(t1.numbers, n, h) <==> t1.blocks.contains_key(h) && t1.number(h) == n);
        if t.blocks.contains_key(h) && t.number(h) == n {
            assert(t1.blocks.contains_key(h));
        }
    }
    assert(ready(t2, beside)) by {
        assert(t2.rooted());
        assert forall|h: ExecutionBlockHash, c: ExecutionBlockHash| #[trigger]
            t2.blocks.contains_key(h) implies (#[trigger] in_set(t2.children, h, c)
            <==> t2.blocks.contains_key(c) && t2.parent(c) == h) by {
            assert(t.blocks.contains_key(h));
            assert(!below.to_set().contains(h));
            assert(in_set(t2.children, h, c) == in_set(t.children, h, c));
            if t.blocks.contains_key(c) && t.parent(c) == h {
                assert(t.number(h) < t.number(c));
                assert(!below.to_set().contains(c));
                assert(t2.blocks.contains_key(c));
            }
        }
        assert forall|h: ExecutionBlockHash| #[trigger]
            t2.blocks.contains_key(h) && t2.blocks.contains_key(t2.parent(h)) implies t2.number(
            t2.parent(h),
        ) < t2.number(h) by {
            assert(t.blocks.contains_key(h) && t.blocks.contains_key(t.parent(h)));
        }
        assert forall|i: int| 0 <= i < beside.len() implies t2.blocks.contains_key(
            #[trigger] beside[i],
        ) && !t2.blocks.contains_key(t2.parent(beside[i])) by {
            let h = beside[i];
            assert(beside.contains(h));
            assert(t.blocks.contains_key(h));
            assert(!below.to_set().contains(h));
            if t2.blocks.contains_key(t2.parent(h)) {
                assert(t.blocks.contains_key(t.parent(h)));
                assert(t.number(t.parent(h)) < n);
                assert(below.to_set().contains(t.parent(h)));
            }
        }
    }
    lemma_drains(t2, beside, steps, after, absent);
    let gone = t2.under(beside);
    assert forall|b: ExecutionBlockHash| #[trigger] after.blocks.contains_key(b) <==> survives(
        t,
        hash,
        b,
    ) by {
        assert(t1.blocks.contains_key(b) <==> t.blocks.contains_key(b) && !below.to_set().contains(
            b,
        ));
        if t1.blocks.contains_key(b) {
            lemma_under_beside(t, hash, below.to_set(), t2, beside, b);
        }
        assert(t.blocks.contains_key(b) ==> (below.to_set().contains(b) <==> t.number(b) < n));
    }
    assert forall|m: u64, b: ExecutionBlockHash| #[trigger] in_set(after.numbers, m, b)
        <==> after.blocks.contains_key(b) && after.number(b) == m by {
        assert(in_set(t1.numbers, m, b) <==> t1.blocks.contains_key(b) && t1.number(b) == m);
        if m == n {
            assert(in_set(t2.numbers, m, b) <==> b == hash);
            assert(!gone.contains(hash)) by {
                if gone.contains(hash) {
                    let top = choose|top: ExecutionBlockHash|
                        beside.contains(top) && #[trigger] descends(t2, top, hash);
                    let k = choose|k: nat| #[trigger] step(parents(t2.blocks), hash, k) == Some(
                        top,
                    );
                    assert(t.blocks.contains_key(top));
                    assert(t2.blocks.contains_key(top));
                    if k > 0 {
                        lemma_numbers_fall(t2, hash, 0, k);
                    }
                }
            }
            if after.blocks.contains_key(b) && after.number(b) == n && b != hash {
                assert(t.blocks.contains_key(b));
                assert(beside.contains(b));
                assert(step(parents(t2.blocks), b, 0) == Some(b));
                assert(descends(t2, b, b));
                assert(gone.contains(b));
            }
        } else {
            assert(in_set(t2.numbers, m, b) == in_set(t1.numbers, m, b));
        }
    }
    assert forall|root: Hash256| #[trigger]
        after.roots.contains_key(root) implies t.roots.contains_key(root) by {
        assert(t2.roots.contains_key(root));
        assert(t1.roots.contains_key(root));
    }
    assert forall|p: ExecutionBlockHash, c: ExecutionBlockHash|
        !t.blocks.contains_key(p) implies #[trigger] in_set(after.children, p, c) == in_set(
        t.children,
        p,
        c,
    ) by {
        assert(!t2.blocks.contains_key(p));
        assert(!gone.contains(p));
        assert(!below.to_set().contains(p));
    }
}

/// Pruning a sound state at one of its blocks never fails, leaves the state sound, and leaves exactly
/// the blocks that survive, as they were. Of the buffered requests it leaves those above the final
/// block.
pub proof fn law_pruned_sound(
    s: StateView,
    hash: ExecutionBlockHash,
    after: StateView,
    outcome: Result<(), ProofEngineStateError>,
)
    requires
        s.sound(),
        s.tree.blocks.contains_key(hash),
        s.prunes(hash, after, outcome),
    ensures
        outcome is Ok,
        after.sound(),
        forall|b: ExecutionBlockHash| #[trigger]
            after.tree.blocks.contains_key(b) <==> survives(s.tree, hash, b),
        forall|b: ExecutionBlockHash| #[trigger]
            after.tree.blocks.contains_key(b) ==> after.tree.blocks[b] == s.tree.blocks[b],
        forall|root: Hash256| #[trigger]
            after.buffer.contains_key(root) <==> s.buffer.contains_key(root)
                && s.buffer[root].metadata.block_number > s.tree.number(hash),
{
    let n = s.tree.number(hash);
    let absent = choose|absent: Option<ExecutionBlockHash>| #[trigger]
        s.tree.drops_stale(n, hash, after.tree, absent) && outcome == absence(absent);
    lemma_drops_stale(s, hash, after.tree, absent);
    assert forall|root: Hash256| #[trigger] after.buffer.contains_key(root)
        <==> s.buffer.contains_key(root) && s.buffer[root].metadata.block_number > n by {
        if s.buffer.contains_key(root) {
            lemma_fresh(s, root);
        }
    }
    assert forall|root: Hash256| #[trigger] after.buffer.contains_key(root) implies
        after.buffer[root] == s.buffer[root] by {}
    assert forall|m: RequestMetadata| #[trigger] after.holds(m) implies s.holds(m) by {
        if after.tree.blocks.contains_key(m.block_hash) {
            assert(survives(s.tree, hash, m.block_hash));
        }
        if after.buffer.contains_key(m.request_root) {
            assert(s.buffer.contains_key(m.request_root));
        }
    }
    assert(after.keyed()) by {
        assert forall|h: ExecutionBlockHash| #[trigger] after.tree.blocks.contains_key(h) implies
            after.tree.blocks[h].metadata.block_hash == h by {
            assert(s.tree.blocks.contains_key(h));
        }
    }
    assert(after.linked()) by {
        assert forall|p: ExecutionBlockHash, c: ExecutionBlockHash| #[trigger]
            after.tree.blocks.contains_key(p) implies (#[trigger] in_set(
            after.tree.children,
            p,
            c,
        ) <==> after.tree.blocks.contains_key(c) && after.tree.blocks[c].metadata.parent_hash
            == p) by {
            assert(after.tree.parent(c) == after.tree.blocks[c].metadata.parent_hash);
        }
    }
}

/// The final block stays, and with it every block that descends from it.
pub proof fn law_final_chain_survives(s: StateView, hash: ExecutionBlockHash, b: ExecutionBlockHash)
    requires
        s.sound(),
        s.tree.blocks.contains_key(hash),
        s.tree.blocks.contains_key(b),
        descends(s.tree, hash, b),
    ensures
        survives(s.tree, hash, b),
{
    let t = s.tree;
    let links = parents(t.blocks);
    assert(t.climbs()) by {
        assert forall|h: ExecutionBlockHash| #[trigger]
            t.blocks.contains_key(h) && t.blocks.contains_key(t.parent(h)) implies t.number(
            t.parent(h),
        ) < t.number(h) by {
            assert(s.holds(t.blocks[h].metadata));
            assert(s.holds(t.blocks[t.parent(h)].metadata));
        }
    }
    let k = choose|k: nat| #[trigger] step(links, b, k) == Some(hash);
    if k > 0 {
        lemma_numbers_fall(t, b, 0, k);
    }
    assert forall|beside: ExecutionBlockHash|
        t.blocks.contains_key(beside) && t.number(beside) == t.number(hash) && beside
            != hash implies !#[trigger] descends(t, beside, b) by {
        if descends(t, beside, b) {
            let j = choose|j: nat| #[trigger] step(links, b, j) == Some(beside);
            if j < k {
                lemma_numbers_fall(t, b, j, k);
            } else if k < j {
                lemma_numbers_fall(t, b, k, j);
            }
        }
    }
}

/// A list of what a set holds has each of its items once, and no others.
pub proof fn law_lists_each_once<T>(order: Seq<T>, set: Set<T>, item: T, i: int, k: int)
    requires
        lists(order, set),
    ensures
        set.contains(item) <==> exists|j: int| 0 <= j < order.len() && #[trigger] order[j] == item,
        0 <= i < k < order.len() ==> order[i] != order[k],
        set.finite() && set.len() == order.len(),
{
    assert(order.to_set().contains(item) == order.contains(item));
    order.unique_seq_to_set();
    vstd::seq_lib::seq_to_set_is_finite(order);
}

} // verus!
