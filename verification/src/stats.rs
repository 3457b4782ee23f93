//! Counting operations by kind in `ahash` maps, and filtering partitions
//! by name with an `ahash` set.

use vstd::prelude::*;
use ahash::{AHashMap, AHashSet};

verus! {

#[verifier::external_type_specification]
#[verifier::external_body]
pub struct ExAHashRandomState(ahash::RandomState);

#[verifier::external_type_specification]
#[verifier::external_body]
#[verifier::reject_recursive_types(K)]
#[verifier::reject_recursive_types(V)]
#[verifier::reject_recursive_types(S)]
pub struct ExAHashMap<K, V, S>(ahash::AHashMap<K, V, S>);

#[verifier::external_type_specification]
#[verifier::external_body]
#[verifier::reject_recursive_types(T)]
#[verifier::reject_recursive_types(S)]
pub struct ExAHashSet<T, S>(ahash::AHashSet<T, S>);

/// Operation statistics by kind number: count and data length sum.
pub type StatsMap = AHashMap<u64, (usize, u64)>;

/// What an operation-statistics map holds: for each operation kind's
/// number, the count of operations and the sum of their data lengths.
pub uninterp spec fn stats_contents(m: StatsMap) -> Map<u64, (usize, u64)>;

/// The names a partition filter holds.
pub uninterp spec fn filter_contents(s: AHashSet<&str>) -> Set<Seq<char>>;

/// Calls `AHashMap::new`. Trusted: the new map holds nothing.
#[verifier::external_body]
pub(crate) fn stats_new() -> (r: StatsMap)
    ensures
        stats_contents(r).dom() == Set::<u64>::empty(),
{
    AHashMap::new()
}

/// Calls `HashMap::get` on an `AHashMap`. Trusted: the value held for
/// `k`, if any.
#[verifier::external_body]
pub(crate) fn stats_get(m: &StatsMap, k: u64) -> (r: Option<(usize, u64)>)
    ensures
        stats_contents(*m).dom().contains(k) ==> r == Some(stats_contents(*m)[k]),
        !stats_contents(*m).dom().contains(k) ==> r is None,
{
    m.get(&k).copied()
}

/// Calls `HashMap::insert` on an `AHashMap`. Trusted: `k` now holds `v`
/// and every other key what it held.
#[verifier::external_body]
pub(crate) fn stats_insert(m: &mut StatsMap, k: u64, v: (usize, u64))
    ensures
        stats_contents(*final(m)) == stats_contents(*old(m)).insert(k, v),
{
    m.insert(k, v);
}

/// Calls `into_iter` on an `AHashMap` and collects the pairs. Trusted:
/// each pair of the map comes out once, in an order that the map's
/// random hasher decides, and nothing else comes out.
#[verifier::external_body]
pub(crate) fn stats_into_vec(m: StatsMap) -> (r: Vec<(u64, (usize, u64))>)
    ensures
        forall|i: int| 0 <= i < r@.len() ==> stats_contents(m).dom().contains((#[trigger] r@[i]).0)
            && stats_contents(m)[r@[i].0] == r@[i].1,
        forall|i: int, j: int| 0 <= i < j < r@.len() ==> (#[trigger] r@[i]).0 != (#[trigger] r@[j]).0,
        forall|k: u64| stats_contents(m).dom().contains(k) ==> exists|i: int| 0 <= i < r@.len() && (#[trigger] r@[i]).0 == k,
{
    m.into_iter().collect()
}

/// Calls `HashSet::contains` on an `AHashSet`. Trusted: whether the set
/// holds `name`.
#[verifier::external_body]
pub(crate) fn filter_contains(s: &AHashSet<&str>, name: &str) -> (r: bool)
    ensures
        r == filter_contents(*s).contains(name@),
{
    s.contains(name)
}

} // verus!
