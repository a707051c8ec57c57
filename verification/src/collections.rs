//! The concurrent hash collections of `dashmap`, as the library uses them:
//! a set of strings, a map from strings to counts, and the response cache's
//! map from keys to entries. Each collection's contents have a name, and
//! each method the library calls has a contract over it.
//!
//! `dashmap` lets these collections change through a shared reference; here
//! every change goes through an exclusive one, so that a contents name
//! describes the value it is applied to.

use vstd::prelude::*;

use dashmap::{DashMap, DashSet};

use crate::cache::CacheEntry;

verus! {

#[verifier::external_type_specification]
#[verifier::external_body]
#[verifier::reject_recursive_types(K)]
#[verifier::reject_recursive_types(S)]
pub struct ExDashSet<K, S>(DashSet<K, S>);

#[verifier::external_type_specification]
#[verifier::external_body]
#[verifier::reject_recursive_types(K)]
#[verifier::reject_recursive_types(V)]
#[verifier::reject_recursive_types(S)]
pub struct ExDashMap<K, V, S>(DashMap<K, V, S>);

/// The strings that a `DashSet<String>` holds.
pub uninterp spec fn set_contents(s: DashSet<String>) -> Set<Seq<char>>;

/// The keys and counts that a `DashMap<String, u64>` holds.
pub uninterp spec fn counter_contents(m: DashMap<String, u64>) -> Map<Seq<char>, u64>;

/// The keys and entries (response bytes, expiry) that the cache's
/// `DashMap` holds.
pub uninterp spec fn entry_contents(m: DashMap<Vec<u8>, CacheEntry>) -> Map<Seq<u8>, (Seq<u8>, u128)>;

/// No counts at all.
pub open spec fn no_counts() -> Map<Seq<char>, u64> {
    Map::empty()
}

/// No cache entries at all.
pub open spec fn no_entries() -> Map<Seq<u8>, (Seq<u8>, u128)> {
    Map::empty()
}

/// `DashSet::new`: an empty set.
#[verifier::external_body]
pub(crate) fn string_set_new() -> (s: DashSet<String>)
    ensures
        set_contents(s) == Set::<Seq<char>>::empty(),
{
    DashSet::new()
}

/// `DashSet::insert`: the key is added; the result tells whether it was
/// absent.
#[verifier::external_body]
pub(crate) fn string_set_insert(s: &mut DashSet<String>, key: String) -> (added: bool)
    ensures
        set_contents(*final(s)) == set_contents(*old(s)).insert(key@),
        added == !set_contents(*old(s)).contains(key@),
{
    s.insert(key)
}

/// `DashSet::contains`, looked up by a string slice.
#[verifier::external_body]
pub(crate) fn string_set_contains(s: &DashSet<String>, key: &str) -> (found: bool)
    ensures
        found == set_contents(*s).contains(key@),
{
    s.contains(key)
}

/// `DashSet::len`: the number of keys held.
#[verifier::external_body]
pub(crate) fn string_set_len(s: &DashSet<String>) -> (n: usize)
    ensures
        n == set_contents(*s).len(),
{
    s.len()
}

/// `DashSet::iter`, each key cloned: every key once, in no stated order.
#[verifier::external_body]
pub(crate) fn string_set_items(s: &DashSet<String>) -> (items: Vec<String>)
    ensures
        forall|i: int| 0 <= i < items@.len() ==> set_contents(*s).contains(#[trigger] items@[i]@),
        forall|k: Seq<char>|
            set_contents(*s).contains(k) ==> exists|i: int| 0 <= i < items@.len() && #[trigger] items@[i]@ == k,
        forall|i: int, j: int|
            0 <= i < j < items@.len() ==> #[trigger] items@[i]@ != #[trigger] items@[j]@,
{
    s.iter().map(|k| k.key().clone()).collect()
}

/// `DashMap::new`: an empty map of counts.
#[verifier::external_body]
pub(crate) fn counter_new() -> (m: DashMap<String, u64>)
    ensures
        counter_contents(m) == no_counts(),
{
    DashMap::new()
}

/// `DashMap::get`, the count copied out.
#[verifier::external_body]
pub(crate) fn counter_get(m: &DashMap<String, u64>, key: &str) -> (v: Option<u64>)
    ensures
        v == (if counter_contents(*m).contains_key(key@) {
            Some(counter_contents(*m)[key@])
        } else {
            None
        }),
{
    m.get(key).map(|r| *r.value())
}

/// `DashMap::insert`: the key is mapped to the count.
#[verifier::external_body]
pub(crate) fn counter_insert(m: &mut DashMap<String, u64>, key: String, value: u64)
    ensures
        counter_contents(*final(m)) == counter_contents(*old(m)).insert(key@, value),
{
    m.insert(key, value);
}

/// `DashMap::clear`: no key is left.
#[verifier::external_body]
pub(crate) fn counter_clear(m: &mut DashMap<String, u64>)
    ensures
        counter_contents(*final(m)) == no_counts(),
{
    m.clear();
}

/// `DashMap::iter`, each pair copied out: every key once with its count, in
/// no stated order.
#[verifier::external_body]
pub(crate) fn counter_items(m: &DashMap<String, u64>) -> (items: Vec<(String, u64)>)
    ensures
        forall|i: int|
            0 <= i < items@.len() ==> counter_contents(*m).contains_key(#[trigger] items@[i].0@)
                && counter_contents(*m)[items@[i].0@] == items@[i].1,
        forall|k: Seq<char>|
            counter_contents(*m).contains_key(k) ==> exists|i: int|
                0 <= i < items@.len() && #[trigger] items@[i].0@ == k,
        forall|i: int, j: int|
            0 <= i < j < items@.len() ==> #[trigger] items@[i].0@ != #[trigger] items@[j].0@,
        items@.len() == counter_contents(*m).dom().len(),
{
    m.iter().map(|e| (e.key().clone(), *e.value())).collect()
}

/// `DashMap::new`: an empty map of cache entries.
#[verifier::external_body]
pub(crate) fn entries_new() -> (m: DashMap<Vec<u8>, CacheEntry>)
    ensures
        entry_contents(m) == no_entries(),
{
    DashMap::new()
}

/// `DashMap::get`, the entry cloned out.
#[verifier::external_body]
pub(crate) fn entries_get(m: &DashMap<Vec<u8>, CacheEntry>, key: &[u8]) -> (e: Option<CacheEntry>)
    ensures
        match e {
            Some(x) => entry_contents(*m).contains_key(key@) && entry_contents(*m)[key@] == x@,
            None => !entry_contents(*m).contains_key(key@),
        },
{
    m.get(key).map(|r| r.value().clone())
}

/// `DashMap::insert`: the key is mapped to the entry.
#[verifier::external_body]
pub(crate) fn entries_insert(m: &mut DashMap<Vec<u8>, CacheEntry>, key: Vec<u8>, e: CacheEntry)
    ensures
        entry_contents(*final(m)) == entry_contents(*old(m)).insert(key@, e@),
{
    m.insert(key, e);
}

/// `DashMap::remove`: the key is no longer mapped.
#[verifier::external_body]
pub(crate) fn entries_remove(m: &mut DashMap<Vec<u8>, CacheEntry>, key: &[u8])
    ensures
        entry_contents(*final(m)) == entry_contents(*old(m)).remove(key@),
{
    m.remove(key);
}

/// `DashMap::len`: the number of keys held.
#[verifier::external_body]
pub(crate) fn entries_len(m: &DashMap<Vec<u8>, CacheEntry>) -> (n: usize)
    ensures
        n == entry_contents(*m).dom().len(),
{
    m.len()
}

} // verus!
