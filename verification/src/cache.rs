//! The bounded measurement cache: a least-recently-used map from string
//! content to total cell width. Because string width is a pure function of
//! the string, every cached value equals the width that would be computed
//! afresh; that purity is the cache's correctness invariant.

use vstd::prelude::*;

use crate::cells::cell_len_spec;

verus! {

/// How many measurements the cache retains.
pub const CACHE_CAPACITY: usize = 4096;

#[verifier::external_type_specification]
#[verifier::external_body]
#[verifier::reject_recursive_types(K)]
#[verifier::reject_recursive_types(V)]
#[verifier::reject_recursive_types(S)]
pub struct ExLruCache<K, V, S>(lru::LruCache<K, V, S>);

/// An LRU cache from string content to measured cell width.
pub type WidthLru = lru::LruCache<String, u32>;

/// The entries a cache holds, as a map from string content to stored width.
pub uninterp spec fn lru_contents(c: WidthLru) -> Map<Seq<char>, u32>;

/// The contents of a cache that holds nothing.
pub open spec fn no_contents() -> Map<Seq<char>, u32> {
    Map::empty()
}

/// Relies on lru's LruCache::new: a fresh cache of the given capacity holds
/// no entries.
#[verifier::external_body]
fn lru_new(capacity: usize) -> (c: WidthLru)
    requires
        capacity >= 1,
    ensures
        lru_contents(c) == no_contents(),
{
    lru::LruCache::new(std::num::NonZeroUsize::new(capacity).unwrap())
}

/// Relies on lru's LruCache::get: returns the value stored under the key;
/// it only reorders recency, leaving the stored entries unchanged.
#[verifier::external_body]
fn lru_get(c: &mut WidthLru, key: &str) -> (r: Option<u32>)
    ensures
        lru_contents(*final(c)) == lru_contents(*old(c)),
        match r {
            Some(v) => lru_contents(*old(c)).contains_key(key@) && lru_contents(*old(c))[key@]
                == v,
            None => !lru_contents(*old(c)).contains_key(key@),
        },
{
    c.get(key).copied()
}

/// Relies on lru's LruCache::put: stores the pair, evicting at most the
/// least recently used other entry when the cache is full, so every entry
/// afterwards is either the pair just stored or one already present.
#[verifier::external_body]
fn lru_put(c: &mut WidthLru, key: &str, value: u32)
    ensures
        lru_contents(*final(c)).contains_key(key@),
        lru_contents(*final(c))[key@] == value,
        forall|k: Seq<char>| #[trigger] lru_contents(*final(c)).contains_key(k) ==> lru_contents(
            *old(c),
        ).insert(key@, value).contains_key(k) && lru_contents(*final(c))[k] == lru_contents(
            *old(c),
        ).insert(key@, value)[k],
{
    c.put(key.to_owned(), value);
}

/// A bounded, least-recently-used cache of string width measurements.
pub struct MeasurementCache {
    entries: WidthLru,
}

impl MeasurementCache {
    /// Every cached value is the true cell width of its key.
    pub closed spec fn wf(self) -> bool {
        forall|k: Seq<char>| #[trigger] lru_contents(self.entries).contains_key(k)
            ==> lru_contents(self.entries)[k] == cell_len_spec(k)
    }

    /// A fresh, empty measurement cache.
    pub fn new() -> (c: Self)
        ensures
            c.wf(),
    {
        let c = MeasurementCache { entries: lru_new(CACHE_CAPACITY) };
        proof {
            assert(lru_contents(c.entries) =~= no_contents());
        }
        c
    }

    /// Look a string up; a hit is the string's true cell width.
    pub fn lookup(&mut self, key: &str) -> (r: Option<u32>)
        requires
            old(self).wf(),
        ensures
            final(self).wf(),
            r is Some ==> r->0 == cell_len_spec(key@),
    {
        lru_get(&mut self.entries, key)
    }

    /// Record a string's cell width, possibly evicting the least recently
    /// used other measurement.
    pub fn store(&mut self, key: &str, value: u32)
        requires
            old(self).wf(),
            value == cell_len_spec(key@),
        ensures
            final(self).wf(),
    {
        lru_put(&mut self.entries, key, value);
    }
}

} // verus!
