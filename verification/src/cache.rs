use vstd::prelude::*;

verus! {

use crate::rpc::SearchCodeResult;

/// The cache holds nothing.
pub open spec fn cache_empty_map() -> Map<Seq<char>, SearchCodeResult> {
    Map::empty()
}

/// The LRU cache of search results, keyed by the joined scope, query and
/// top-k string.  Verus sees it through the two content functions below.
#[verifier::external_body]
pub struct QueryCache {
    inner: lru::LruCache<String, SearchCodeResult>,
}

/// The key-to-result map the cache currently holds.
pub uninterp spec fn cache_contents(c: QueryCache) -> Map<Seq<char>, SearchCodeResult>;

/// The capacity the cache was created with.
pub uninterp spec fn cache_capacity(c: QueryCache) -> nat;

impl QueryCache {
    /// Relies on `lru::LruCache::new`: a fresh cache with the given
    /// capacity is empty.
    #[verifier::external_body]
    pub fn new(capacity: usize) -> (r: QueryCache)
        ensures
            cache_contents(r) == cache_empty_map(),
            cache_capacity(r) == (if capacity >= 1 {
                capacity as nat
            } else {
                1nat
            }),
    {
        let cap = std::num::NonZeroUsize::new(capacity.max(1)).unwrap();
        QueryCache { inner: lru::LruCache::new(cap) }
    }

    /// Relies on `lru::LruCache::get`: a hit returns a clone of the stored
    /// result; only the recency order changes, never the contents.
    #[verifier::external_body]
    pub fn cache_lookup(&mut self, key: &str) -> (r: Option<SearchCodeResult>)
        ensures
            cache_contents(*final(self)) == cache_contents(*old(self)),
            cache_capacity(*final(self)) == cache_capacity(*old(self)),
            r == (if cache_contents(*old(self)).contains_key(key@) {
                Some(cache_contents(*old(self))[key@])
            } else {
                None::<SearchCodeResult>
            }),
    {
        self.inner.get(&key.to_string()).cloned()
    }

    /// Relies on `lru::LruCache::put`: the key maps to the value
    /// afterwards; eviction can only drop entries, never change or add
    /// others, and the cache never exceeds its capacity.
    #[verifier::external_body]
    pub fn cache_store(&mut self, key: String, value: SearchCodeResult)
        ensures
            cache_capacity(*final(self)) == cache_capacity(*old(self)),
            cache_contents(*final(self)).contains_key(key@),
            cache_contents(*final(self))[key@] == value,
            forall|k: Seq<char>|
                #[trigger] cache_contents(*final(self)).contains_key(k) && k != key@
                    ==> cache_contents(*old(self)).contains_key(k) && cache_contents(
                    *final(self),
                )[k] == cache_contents(*old(self))[k],
            cache_contents(*final(self)).dom().finite(),
            cache_contents(*final(self)).dom().len() <= cache_capacity(*old(self)),
    {
        self.inner.put(key, value);
    }
}

} // verus!
