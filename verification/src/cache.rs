//! The bounded, least-recently-used cache of corner values, shared by
//! every dataset of a catalog.
//!
//! The cache itself comes from the `lru-cache` crate; this module gives
//! its contents a name and puts the three calls the predictor makes
//! behind trusted wrappers.

use vstd::prelude::*;

use crate::point::Atmospheroid;

verus! {

#[verifier::external_type_specification]
#[verifier::external_body]
#[verifier::reject_recursive_types(K)]
#[verifier::reject_recursive_types(V)]
#[verifier::reject_recursive_types(S)]
pub struct ExLruCache<K: core::cmp::Eq + core::hash::Hash, V, S: core::hash::BuildHasher>(
    lru_cache::LruCache<K, V, S>,
);

/// The cache keyed by packed corner keys.
pub type Cache = lru_cache::LruCache<u32, Atmospheroid>;

/// The entries the cache currently holds.
pub uninterp spec fn lru_contents(c: Cache) -> Map<u32, Atmospheroid>;

/// The capacity the cache was created with.
pub uninterp spec fn lru_capacity(c: Cache) -> nat;

/// Relies on `lru_cache::LruCache::new`: an empty cache that holds at
/// most `capacity` entries.
#[verifier::external_body]
pub fn cache_new(capacity: usize) -> (r: Cache)
    ensures
        forall|k: u32| !lru_contents(r).contains_key(k),
        lru_contents(r).dom().finite(),
        lru_contents(r).dom().len() == 0,
        lru_capacity(r) == capacity,
{
    lru_cache::LruCache::new(capacity)
}

/// Relies on `lru_cache::LruCache::get_mut` (`get_refresh` of the
/// underlying map): it returns the entry under the key, if one is held,
/// and only refreshes its recency, leaving the contents unchanged.
#[verifier::external_body]
pub fn cache_get(c: &mut Cache, k: u32) -> (r: Option<Atmospheroid>)
    ensures
        lru_contents(*final(c)) == lru_contents(*old(c)),
        lru_capacity(*final(c)) == lru_capacity(*old(c)),
        r == if lru_contents(*old(c)).contains_key(k) {
            Some(lru_contents(*old(c))[k])
        } else {
            None::<Atmospheroid>
        },
{
    match c.get_mut(&k) {
        Some(v) => Some(*v),
        None => None,
    }
}

/// Relies on `lru_cache::LruCache::insert`: afterward the key holds the
/// value (the capacity being at least one, the fresh entry is the most
/// recent and survives the eviction step), and every other surviving
/// entry is unchanged; eviction only removes entries.  The cache stays
/// bounded: insertion adds at most one entry and evicts one as soon as
/// the capacity is exceeded, so the entry count never grows past the
/// larger of its old value and the capacity; while the cache is below
/// capacity, insertion is exactly a map update.
#[verifier::external_body]
pub fn cache_insert(c: &mut Cache, k: u32, v: Atmospheroid)
    ensures
        lru_capacity(*final(c)) == lru_capacity(*old(c)),
        lru_capacity(*old(c)) >= 1 ==> lru_contents(*final(c)).contains_key(k),
        lru_contents(*final(c)).contains_key(k) ==> lru_contents(*final(c))[k] == v,
        forall|k2: u32|
            #[trigger] lru_contents(*final(c)).contains_key(k2) && k2 != k ==> lru_contents(*old(c)).contains_key(k2) && lru_contents(*final(c))[k2] == lru_contents(*old(c))[k2],
        lru_contents(*old(c)).dom().finite() ==> lru_contents(*final(c)).dom().finite()
            && lru_contents(*final(c)).dom().len() <= (if lru_contents(*old(c)).dom().len()
            >= lru_capacity(*old(c)) {
            lru_contents(*old(c)).dom().len()
        } else {
            lru_capacity(*old(c))
        }),
        (lru_contents(*old(c)).dom().finite() && lru_contents(*old(c)).dom().len() < lru_capacity(
            *old(c),
        )) ==> lru_contents(*final(c)) == lru_contents(*old(c)).insert(k, v),
{
    c.insert(k, v);
}

} // verus!
