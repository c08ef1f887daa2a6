//! The requests for proofs of single blocks that have not been answered yet.

use crate::engine::forkchoice::{MissingProofInfo, MissingProofView};
use crate::hash::Hash256;
use fnv::FnvHashMap;
use vstd::prelude::*;

verus! {

/// The hasher of `fnv`, carried as an opaque value.
#[verifier::external_type_specification]
#[verifier::external_body]
pub struct ExFnvHasher(fnv::FnvHasher);

/// What builds a hasher by its default, carried as an opaque value.
#[verifier::external_type_specification]
#[verifier::external_body]
#[verifier::reject_recursive_types(H)]
pub struct ExBuildHasherDefault<H>(std::hash::BuildHasherDefault<H>);

/// Request ids, and what each request asks for.
pub type InFlightMap = FnvHashMap<u64, MissingProofInfo>;

/// What a map of requests holds.
pub uninterp spec fn in_flight_contents(map: InFlightMap) -> Map<u64, MissingProofView>;

/// Whether `roots` are the roots that the requests ask for.
pub open spec fn roots_of(requests: Map<u64, MissingProofView>, roots: Seq<Hash256>) -> bool {
    forall|root: Hash256| #[trigger]
        roots.contains(root) <==> exists|id: u64|
            requests.contains_key(id) && (#[trigger] requests[id]).root == root
}

/// Whether there are finitely many requests, and as many as `n`.
pub open spec fn counts(requests: Map<u64, MissingProofView>, n: usize) -> bool {
    requests.dom().finite() && requests.len() == n
}

/// `FnvHashMap::default`: a map without entries.
#[verifier::external_body]
pub(crate) fn map_default() -> (r: InFlightMap)
    ensures
        (in_flight_contents(r) == Map::<u64, MissingProofView>::empty()),
{
    FnvHashMap::default()
}

/// `FnvHashMap::insert`: sets the value of a key.
#[verifier::external_body]
pub(crate) fn map_insert(map: &mut InFlightMap, id: u64, info: MissingProofInfo)
    ensures
        in_flight_contents(*final(map)) == in_flight_contents(*old(map)).insert(id, info@),
{
    map.insert(id, info);
}

/// `FnvHashMap::remove`: takes the entry of a key out, where there is one.
#[verifier::external_body]
pub(crate) fn map_remove(map: &mut InFlightMap, id: u64)
    ensures
        in_flight_contents(*final(map)) == in_flight_contents(*old(map)).remove(id),
{
    map.remove(&id);
}

/// `FnvHashMap::len`: the number of entries, of which there are finitely many.
#[verifier::external_body]
pub(crate) fn map_len(map: &InFlightMap) -> (r: usize)
    ensures
        counts(in_flight_contents(*map), r),
{
    map.len()
}

/// `FnvHashMap::values`: the root that each value asks for, in no particular order.
#[verifier::external_body]
pub(crate) fn map_roots(map: &InFlightMap) -> (r: Vec<Hash256>)
    ensures
        roots_of(in_flight_contents(*map), r@),
{
    map.values().map(|info| info.root).collect()
}

} // verus!
