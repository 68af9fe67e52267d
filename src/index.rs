//! The concurrent maps the matcher keeps, through `dashmap`.
use vstd::prelude::*;

use dashmap::DashMap;

use crate::matcher::Matcher;

verus! {

#[verifier::external_type_specification]
#[verifier::external_body]
#[verifier::reject_recursive_types(K)]
#[verifier::reject_recursive_types(V)]
#[verifier::reject_recursive_types(S)]
pub struct ExDashMap<K, V, S>(DashMap<K, V, S>);

/// What a fingerprint index holds: for each fingerprint, positions of signatures.
pub uninterp spec fn index_entries(m: DashMap<u128, Vec<usize>>) -> Map<u128, Seq<usize>>;

/// Relies on `DashMap::new`: a new map holds no entry.
#[verifier::external_body]
pub(crate) fn index_new() -> (r: DashMap<u128, Vec<usize>>)
    ensures
        forall|k: u128| !#[trigger] index_entries(r).contains_key(k),
{
    DashMap::new()
}

/// Relies on `DashMap::get`: the value stored under `k`, if any (copied out).
#[verifier::external_body]
pub(crate) fn index_get(m: &DashMap<u128, Vec<usize>>, k: u128) -> (r: Option<Vec<usize>>)
    ensures
        match r {
            Some(v) => index_entries(*m).contains_key(k) && v@ == index_entries(*m)[k],
            None => !index_entries(*m).contains_key(k),
        },
{
    match m.get(&k) {
        Some(entry) => Some(entry.value().clone()),
        None => None,
    }
}

/// Relies on `DashMap::insert`: `k` now maps to `v`, other keys are untouched.
#[verifier::external_body]
pub(crate) fn index_insert(m: &mut DashMap<u128, Vec<usize>>, k: u128, v: Vec<usize>)
    ensures
        index_entries(*final(m)) == index_entries(*old(m)).insert(k, v@),
{
    m.insert(k, v);
}


/// The platform identifiers a matcher cache holds a matcher for.
pub uninterp spec fn cached_platforms(m: DashMap<u64, Matcher>) -> Set<u64>;

/// Relies on `DashMap::new`: a new map holds no entry.
#[verifier::external_body]
pub(crate) fn cache_new() -> (r: DashMap<u64, Matcher>)
    ensures
        forall|k: u64| !#[trigger] cached_platforms(r).contains(k),
{
    DashMap::new()
}

/// Relies on `DashMap::contains_key`: whether `k` has an entry.
#[verifier::external_body]
pub(crate) fn cache_contains(m: &DashMap<u64, Matcher>, k: u64) -> (r: bool)
    ensures
        r == cached_platforms(*m).contains(k),
{
    m.contains_key(&k)
}

/// Relies on `DashMap::insert`: `k` now has an entry, other keys are untouched.
#[verifier::external_body]
pub(crate) fn cache_insert(m: &mut DashMap<u64, Matcher>, k: u64, v: Matcher)
    ensures
        cached_platforms(*final(m)) == cached_platforms(*old(m)).insert(k),
{
    m.insert(k, v);
}

/// Relies on `DashMap::clear`: afterwards no key has an entry.
#[verifier::external_body]
pub(crate) fn cache_clear(m: &mut DashMap<u64, Matcher>)
    ensures
        forall|k: u64| !#[trigger] cached_platforms(*final(m)).contains(k),
{
    m.clear();
}

} // verus!
