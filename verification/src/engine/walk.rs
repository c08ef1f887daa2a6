//! Walks along a map of links, such as from a block to its parent, to the parent of that, and
//! so on until a block has no link.

use vstd::prelude::*;

verus! {

/// The key that `k` links lead to from `start`, where there are so many.
pub open spec fn step<K>(links: Map<K, K>, start: K, k: nat) -> Option<K>
    decreases k,
{
    if k == 0 {
        Some(start)
    } else {
        match step(links, start, (k - 1) as nat) {
            Some(at) => if links.contains_key(at) {
                Some(links[at])
            } else {
                None
            },
            None => None,
        }
    }
}

/// Whether some number of links leads from `start` to `end`.
pub open spec fn reaches<K>(links: Map<K, K>, start: K, end: K) -> bool {
    exists|k: nat| #[trigger] step(links, start, k) == Some(end)
}

/// Whether `k` links lead from `start` to a key that has a link itself.
pub open spec fn goes_on<K>(links: Map<K, K>, start: K, k: nat) -> bool {
    match step(links, start, k) {
        Some(at) => links.contains_key(at),
        None => false,
    }
}

/// A walk that has gone so far has gone to every shorter distance.
pub proof fn lemma_goes_on_before<K>(links: Map<K, K>, start: K, j: nat, k: nat)
    requires
        j <= k,
        goes_on(links, start, k),
    ensures
        goes_on(links, start, j),
    decreases k - j,
{
    if j < k {
        assert(step(links, start, k) == match step(links, start, (k - 1) as nat) {
            Some(at) => if links.contains_key(at) {
                Some(links[at])
            } else {
                None
            },
            None => None,
        });
        lemma_goes_on_before(links, start, j, (k - 1) as nat);
    }
}

/// A walk that stops somewhere goes nowhere beyond.
pub proof fn lemma_stopped<K>(links: Map<K, K>, start: K, j: nat, k: nat)
    requires
        j < k,
        !goes_on(links, start, j),
    ensures
        step(links, start, k) is None,
    decreases k - j,
{
    if j + 1 < k {
        lemma_stopped(links, start, j, (k - 1) as nat);
    }
}

/// Two distances that lead to the same key lead to the same keys from there on.
proof fn lemma_shift<K>(links: Map<K, K>, start: K, i: nat, j: nat, d: nat)
    requires
        step(links, start, i) == step(links, start, j),
    ensures
        step(links, start, i + d) == step(links, start, j + d),
    decreases d,
{
    if d > 0 {
        lemma_shift(links, start, i, j, (d - 1) as nat);
    }
}

/// Every key of a walk is met before the walk meets a key for the second time.
proof fn lemma_periodic<K>(links: Map<K, K>, start: K, i: nat, j: nat, k: nat)
    requires
        i < j,
        step(links, start, i) == step(links, start, j),
    ensures
        exists|m: nat| m < j && #[trigger] step(links, start, m) == step(links, start, k),
    decreases k,
{
    if k >= j {
        let d = (k - j) as nat;
        lemma_shift(links, start, i, j, d);
        assert(i + d < k);
        lemma_periodic(links, start, i, j, i + d);
        let m = choose|m: nat| m < j && #[trigger] step(links, start, m) == step(links, start, i + d);
        assert(step(links, start, m) == step(links, start, k));
    }
}

/// A walk that goes on for as many links as there are runs in a circle: every key that it ever
/// reaches, it reaches within that many links, and it never stops.
pub proof fn lemma_circle<K>(links: Map<K, K>, start: K, k: nat)
    requires
        links.dom().finite(),
        goes_on(links, start, links.len()),
    ensures
        exists|m: nat| m <= links.len() && #[trigger] step(links, start, m) == step(links, start, k),
        goes_on(links, start, k),
{
    let n = links.len();
    let visited = Seq::new((n + 1) as nat, |i: int| step(links, start, i as nat)->0);
    assert forall|i: int| 0 <= i <= n implies links.contains_key(#[trigger] visited[i]) && step(
        links,
        start,
        i as nat,
    ) == Some(visited[i]) by {
        lemma_goes_on_before(links, start, i as nat, n);
    }
    assert(!visited.no_duplicates()) by {
        if visited.no_duplicates() {
            visited.unique_seq_to_set();
            assert(visited.to_set().subset_of(links.dom()));
            vstd::set_lib::lemma_len_subset(visited.to_set(), links.dom());
        }
    }
    let (i, j) = choose|i: int, j: int|
        0 <= i < visited.len() && 0 <= j < visited.len() && i != j && visited[i] == visited[j];
    let (lo, hi) = if i < j {
        (i as nat, j as nat)
    } else {
        (j as nat, i as nat)
    };
    assert(visited[lo as int] == visited[hi as int]);
    assert(step(links, start, lo) == Some(visited[lo as int]));
    assert(step(links, start, hi) == Some(visited[hi as int]));
    assert(lo < hi <= n);
    lemma_periodic(links, start, lo, hi, k);
    let m = choose|m: nat| m < hi && #[trigger] step(links, start, m) == step(links, start, k);
    assert(links.contains_key(visited[m as int]));
}

} // verus!
