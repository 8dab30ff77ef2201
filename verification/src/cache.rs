//! Caching of route resolution results in two bounded LRU caches, with
//! counters of hits, misses and invalidations.
//!
//! The parent cache maps a full request path to the id of the route that
//! owns it; the child cache is reserved for outlet resolutions. Both evict
//! their least recently used entry when full.

use vstd::prelude::*;
use lru::LruCache;
use std::num::NonZeroUsize;
use crate::route::Route;
use crate::text::str_eq;

verus! {

/// The `lru` crate's cache type, opaque here.
#[verifier::external_type_specification]
#[verifier::external_body]
#[verifier::reject_recursive_types(K)]
#[verifier::reject_recursive_types(V)]
#[verifier::reject_recursive_types(S)]
pub struct ExLruCache<K, V, S>(LruCache<K, V, S>);

/// The hasher the `lru` crate's cache uses by default, opaque here.
#[verifier::external_type_specification]
#[verifier::external_body]
pub struct ExDefaultHasher(lru::DefaultHasher);

/// The entries of an LRU cache of strings, most recently used first.
pub uninterp spec fn lru_entries(c: LruCache<String, String>) -> Seq<(Seq<char>, Seq<char>)>;

/// The capacity an LRU cache of strings was made with.
pub uninterp spec fn lru_capacity(c: LruCache<String, String>) -> nat;

/// Index of the entry with key `k`, or `-1`.
pub open spec fn entry_index(s: Seq<(Seq<char>, Seq<char>)>, k: Seq<char>) -> int
    decreases s.len(),
{
    if s.len() == 0 {
        -1
    } else if s.last().0 == k {
        s.len() - 1
    } else {
        entry_index(s.drop_last(), k)
    }
}

/// No key occurs twice.
pub open spec fn keys_unique(s: Seq<(Seq<char>, Seq<char>)>) -> bool {
    forall|i: int, j: int| 0 <= i < j < s.len() ==> s[i].0 != s[j].0
}

/// The entries after using the entry at `i`: it moves to the front.
pub open spec fn touched(s: Seq<(Seq<char>, Seq<char>)>, i: int) -> Seq<(Seq<char>, Seq<char>)> {
    seq![s[i]] + s.remove(i)
}

/// The entries after pushing `(k, v)` into a cache of capacity `cap`: an
/// entry with key `k` is replaced and moves to the front; otherwise a full
/// cache drops its least recently used entry, and the new entry goes first.
pub open spec fn pushed_entries(
    s: Seq<(Seq<char>, Seq<char>)>,
    cap: nat,
    k: Seq<char>,
    v: Seq<char>,
) -> Seq<(Seq<char>, Seq<char>)> {
    let i = entry_index(s, k);
    if i >= 0 {
        seq![(k, v)] + s.remove(i)
    } else if s.len() >= cap {
        seq![(k, v)] + s.drop_last()
    } else {
        seq![(k, v)] + s
    }
}

proof fn lemma_entry_index_bounds(s: Seq<(Seq<char>, Seq<char>)>, k: Seq<char>)
    ensures
        -1 <= entry_index(s, k) < s.len(),
        entry_index(s, k) >= 0 ==> s[entry_index(s, k)].0 == k,
        entry_index(s, k) < 0 ==> forall|j: int| 0 <= j < s.len() ==> s[j].0 != k,
    decreases s.len(),
{
    if s.len() > 0 && s.last().0 != k {
        lemma_entry_index_bounds(s.drop_last(), k);
        assert forall|j: int| 0 <= j < s.len() - 1 implies s.drop_last()[j] == s[j] by {}
    }
}

proof fn lemma_touched_unique(s: Seq<(Seq<char>, Seq<char>)>, i: int)
    requires
        keys_unique(s),
        0 <= i < s.len(),
    ensures
        keys_unique(touched(s, i)),
        touched(s, i).len() == s.len(),
{
    let t = touched(s, i);
    assert forall|a: int, b: int| 0 <= a < b < t.len() implies t[a].0 != t[b].0 by {
        let ia = if a == 0 { i } else if a - 1 < i { a - 1 } else { a };
        let ib = if b - 1 < i { b - 1 } else { b };
        assert(t[a] == s[ia]);
        assert(t[b] == s[ib]);
    }
}

/// After a push into a cache whose keys are unique, the keys are still
/// unique, the cache holds no more than its capacity, and the pushed entry
/// is the one found for its key: a lookup right after a set hits with the
/// value that was set.
pub proof fn lemma_pushed_unique(s: Seq<(Seq<char>, Seq<char>)>, cap: nat, k: Seq<char>, v: Seq<char>)
    requires
        keys_unique(s),
        s.len() <= cap,
        cap > 0,
    ensures
        keys_unique(pushed_entries(s, cap, k, v)),
        pushed_entries(s, cap, k, v).len() <= cap,
        entry_index(pushed_entries(s, cap, k, v), k) == 0,
        pushed_entries(s, cap, k, v)[0] == (k, v),
{
    let t = pushed_entries(s, cap, k, v);
    let i = entry_index(s, k);
    lemma_entry_index_bounds(s, k);
    let rest = if i >= 0 {
        s.remove(i)
    } else if s.len() >= cap {
        s.drop_last()
    } else {
        s
    };
    assert(t == seq![(k, v)] + rest);
    assert forall|j: int| 0 <= j < rest.len() implies #[trigger] rest[j] == (if i >= 0 && j >= i {
        s[j + 1]
    } else {
        s[j]
    }) by {}
    assert forall|j: int| 0 <= j < rest.len() implies rest[j].0 != k by {
        if i >= 0 && j >= i {
            assert(s[j + 1].0 != s[i].0);
        } else if i >= 0 {
            assert(s[j].0 != s[i].0);
        }
    }
    assert forall|a: int, b: int| 0 <= a < b < t.len() implies t[a].0 != t[b].0 by {
        if a > 0 {
            assert(t[a] == rest[a - 1]);
            assert(t[b] == rest[b - 1]);
        } else {
            assert(t[b] == rest[b - 1]);
        }
    }
    lemma_entry_index_bounds(t, k);
    assert(t[0].0 == k);
    if entry_index(t, k) > 0 {
        assert(t[entry_index(t, k)] == rest[entry_index(t, k) - 1]);
    }
}

/// `LruCache::new`: an empty cache that holds at most `cap` entries.
#[verifier::external_body]
fn lru_new(cap: usize) -> (r: LruCache<String, String>)
    requires
        cap > 0,
    ensures
        lru_entries(r) == Seq::<(Seq<char>, Seq<char>)>::empty(),
        lru_capacity(r) == cap,
{
    LruCache::new(NonZeroUsize::new(cap).unwrap())
}

/// `LruCache::get`: the value of `key`, which becomes the most recently used
/// entry; a missing key changes nothing.
#[verifier::external_body]
fn lru_get(c: &mut LruCache<String, String>, key: &str) -> (r: Option<String>)
    ensures
        lru_capacity(*final(c)) == lru_capacity(*old(c)),
        entry_index(lru_entries(*old(c)), key@) >= 0 ==> {
            let i = entry_index(lru_entries(*old(c)), key@);
            &&& r is Some
            &&& r->0@ == lru_entries(*old(c))[i].1
            &&& lru_entries(*final(c)) == touched(lru_entries(*old(c)), i)
        },
        entry_index(lru_entries(*old(c)), key@) < 0 ==> r is None && lru_entries(*final(c))
            == lru_entries(*old(c)),
{
    c.get(key).cloned()
}

/// `LruCache::push`: insert or replace `(key, value)` as the most recently
/// used entry, evicting the least recently used entry of a full cache.
#[verifier::external_body]
fn lru_push(c: &mut LruCache<String, String>, key: String, value: String)
    ensures
        lru_capacity(*final(c)) == lru_capacity(*old(c)),
        lru_entries(*final(c)) == pushed_entries(
            lru_entries(*old(c)),
            lru_capacity(*old(c)),
            key@,
            value@,
        ),
{
    c.push(key, value);
}

/// `LruCache::len`: the number of entries.
#[verifier::external_body]
fn lru_len(c: &LruCache<String, String>) -> (r: usize)
    ensures
        r == lru_entries(*c).len(),
{
    c.len()
}

/// `LruCache::cap`: the capacity the cache was made with, a non-zero
/// number.
#[verifier::external_body]
fn lru_cap(c: &LruCache<String, String>) -> (r: usize)
    ensures
        r == lru_capacity(*c),
        r > 0,
{
    c.cap().get()
}

/// `LruCache::clear`: remove every entry.
#[verifier::external_body]
fn lru_clear(c: &mut LruCache<String, String>)
    ensures
        lru_capacity(*final(c)) == lru_capacity(*old(c)),
        lru_entries(*final(c)) == Seq::<(Seq<char>, Seq<char>)>::empty(),
{
    c.clear();
}

/// Identifier of a route by its path.
#[derive(Debug, Clone, PartialEq, Eq, Hash)]
pub struct RouteId {
    /// Full path of the route (e.g., "/dashboard/analytics")
    pub path: String,
}

impl RouteId {
    /// The id of a route: its path pattern.
    pub fn from_route(route: &Route) -> (r: Self)
        ensures
            r.path@ == route.config.path@,
    {
        RouteId { path: route.config.path.clone() }
    }

    /// The id of the route with the given path.
    pub fn from_path(path: &str) -> (r: Self)
        ensures
            r.path@ == path@,
    {
        RouteId { path: path.to_owned() }
    }
}

/// Counters of cache hits, misses and invalidations.
#[derive(Debug, Clone)]
pub struct CacheStats {
    /// Number of parent-cache hits.
    pub parent_hits: usize,
    /// Number of parent-cache misses.
    pub parent_misses: usize,
    /// Number of child-cache hits.
    pub child_hits: usize,
    /// Number of child-cache misses.
    pub child_misses: usize,
    /// Number of full cache invalidations (via [`RouteCache::clear`]).
    pub invalidations: usize,
}

impl Default for CacheStats {
    fn default() -> (r: Self)
        ensures
            r.parent_hits == 0,
            r.parent_misses == 0,
            r.child_hits == 0,
            r.child_misses == 0,
            r.invalidations == 0,
    {
        CacheStats { parent_hits: 0, parent_misses: 0, child_hits: 0, child_misses: 0, invalidations: 0 }
    }
}

impl CacheStats {
    /// A copy of the counters.
    pub fn copied(&self) -> (r: Self)
        ensures
            r == *self,
    {
        CacheStats {
            parent_hits: self.parent_hits,
            parent_misses: self.parent_misses,
            child_hits: self.child_hits,
            child_misses: self.child_misses,
            invalidations: self.invalidations,
        }
    }
}

/// All counters at zero.
pub open spec fn zero_stats() -> CacheStats {
    CacheStats { parent_hits: 0, parent_misses: 0, child_hits: 0, child_misses: 0, invalidations: 0 }
}

/// Two bounded LRU caches of route resolutions with their counters.
#[derive(Debug)]
pub struct RouteCache {
    parent_cache: LruCache<String, String>,
    child_cache: LruCache<String, String>,
    stats: CacheStats,
}

/// The number of entries each cache of [`RouteCache::new`] holds.
pub const DEFAULT_CAPACITY: usize = 1000;

impl RouteCache {
    /// The parent cache's entries (request path and owning route path),
    /// most recently used first.
    pub closed spec fn parent_entries(&self) -> Seq<(Seq<char>, Seq<char>)> {
        lru_entries(self.parent_cache)
    }

    /// The number of entries in the child cache.
    pub closed spec fn child_len(&self) -> nat {
        lru_entries(self.child_cache).len()
    }

    /// The number of entries each cache holds at most.
    pub closed spec fn capacity(&self) -> nat {
        lru_capacity(self.parent_cache)
    }

    /// The counters.
    pub closed spec fn counters(&self) -> CacheStats {
        self.stats
    }

    /// The request paths of the parent cache are all different, there are
    /// at most `capacity` of them, and the capacity is positive.
    pub closed spec fn well_formed(&self) -> bool {
        &&& keys_unique(lru_entries(self.parent_cache))
        &&& lru_entries(self.parent_cache).len() <= lru_capacity(self.parent_cache)
        &&& lru_capacity(self.parent_cache) > 0
        &&& lru_capacity(self.child_cache) == lru_capacity(self.parent_cache)
        &&& lru_entries(self.child_cache).len() == 0
    }

    /// Empty caches of the default capacity.
    pub fn new() -> (r: Self)
        ensures
            r.well_formed(),
            r.parent_entries().len() == 0,
            r.child_len() == 0,
            r.capacity() == DEFAULT_CAPACITY,
            r.counters() == zero_stats(),
    {
        RouteCache::with_capacity(DEFAULT_CAPACITY)
    }

    /// Empty caches that each hold at most `capacity` entries.
    pub fn with_capacity(capacity: usize) -> (r: Self)
        requires
            capacity > 0,
        ensures
            r.well_formed(),
            r.parent_entries().len() == 0,
            r.child_len() == 0,
            r.capacity() == capacity,
            r.counters() == zero_stats(),
    {
        RouteCache {
            parent_cache: lru_new(capacity),
            child_cache: lru_new(capacity),
            stats: CacheStats::default(),
        }
    }

    /// Empty both caches and count one invalidation.
    pub fn clear(&mut self)
        requires
            old(self).well_formed(),
            old(self).counters().invalidations < usize::MAX,
        ensures
            final(self).well_formed(),
            final(self).parent_entries().len() == 0,
            final(self).child_len() == 0,
            final(self).capacity() == old(self).capacity(),
            final(self).counters() == (CacheStats {
                invalidations: (old(self).counters().invalidations + 1) as usize,
                ..old(self).counters()
            }),
    {
        lru_clear(&mut self.parent_cache);
        lru_clear(&mut self.child_cache);
        self.stats.invalidations = self.stats.invalidations + 1;
    }

    /// The owner recorded for `path`, which becomes the most recently used
    /// entry; a hit or a miss is counted.
    pub fn get_parent(&mut self, path: &str) -> (r: Option<RouteId>)
        requires
            old(self).well_formed(),
            old(self).counters().parent_hits < usize::MAX,
            old(self).counters().parent_misses < usize::MAX,
        ensures
            final(self).well_formed(),
            final(self).capacity() == old(self).capacity(),
            final(self).child_len() == old(self).child_len(),
            entry_index(old(self).parent_entries(), path@) >= 0 ==> {
                let i = entry_index(old(self).parent_entries(), path@);
                &&& r is Some
                &&& r->0.path@ == old(self).parent_entries()[i].1
                &&& final(self).parent_entries() == touched(old(self).parent_entries(), i)
                &&& final(self).counters() == (CacheStats {
                    parent_hits: (old(self).counters().parent_hits + 1) as usize,
                    ..old(self).counters()
                })
            },
            entry_index(old(self).parent_entries(), path@) < 0 ==> {
                &&& r is None
                &&& final(self).parent_entries() == old(self).parent_entries()
                &&& final(self).counters() == (CacheStats {
                    parent_misses: (old(self).counters().parent_misses + 1) as usize,
                    ..old(self).counters()
                })
            },
    {
        let ghost old_entries = lru_entries(self.parent_cache);
        match lru_get(&mut self.parent_cache, path) {
            Some(owner) => {
                proof {
                    lemma_entry_index_bounds(old_entries, path@);
                    lemma_touched_unique(old_entries, entry_index(old_entries, path@));
                }
                self.stats.parent_hits = self.stats.parent_hits + 1;
                Some(RouteId { path: owner })
            },
            None => {
                self.stats.parent_misses = self.stats.parent_misses + 1;
                None
            },
        }
    }

    /// Record `parent` as the owner of `path`, as the most recently used
    /// entry (the least recently used entry of a full cache is dropped).
    pub fn set_parent(&mut self, path: String, parent: RouteId)
        requires
            old(self).well_formed(),
        ensures
            final(self).well_formed(),
            final(self).parent_entries().len() <= final(self).capacity(),
            final(self).parent_entries() == pushed_entries(
                old(self).parent_entries(),
                old(self).capacity(),
                path@,
                parent.path@,
            ),
            final(self).capacity() == old(self).capacity(),
            final(self).child_len() == old(self).child_len(),
            final(self).counters() == old(self).counters(),
    {
        let ghost old_entries = lru_entries(self.parent_cache);
        let ghost k = path@;
        let ghost v = parent.path@;
        lru_push(&mut self.parent_cache, path, parent.path);
        proof {
            lemma_pushed_unique(old_entries, lru_capacity(self.parent_cache), k, v);
        }
    }

    /// The counters.
    pub fn stats(&self) -> (r: &CacheStats)
        ensures
            *r == self.counters(),
    {
        &self.stats
    }

    /// Set every counter to zero.
    pub fn reset_stats(&mut self)
        requires
            old(self).well_formed(),
        ensures
            final(self).well_formed(),
            final(self).counters() == zero_stats(),
            final(self).parent_entries() == old(self).parent_entries(),
            final(self).child_len() == old(self).child_len(),
            final(self).capacity() == old(self).capacity(),
    {
        self.stats = CacheStats::default();
    }

    /// The number of entries in the parent cache.
    pub fn parent_cache_size(&self) -> (r: usize)
        ensures
            r == self.parent_entries().len(),
    {
        lru_len(&self.parent_cache)
    }

    /// The number of entries in the child cache.
    pub fn child_cache_size(&self) -> (r: usize)
        ensures
            r == self.child_len(),
    {
        lru_len(&self.child_cache)
    }

    /// The number of entries in both caches.
    pub fn total_size(&self) -> (r: usize)
        requires
            self.well_formed(),
        ensures
            r == self.parent_entries().len() + self.child_len(),
    {
        let a = self.parent_cache_size();
        let b = self.child_cache_size();
        a + b
    }
}


impl Default for RouteCache {
    fn default() -> (r: Self)
        ensures
            r.well_formed(),
            r.parent_entries().len() == 0,
            r.child_len() == 0,
            r.capacity() == DEFAULT_CAPACITY,
            r.counters() == zero_stats(),
    {
        RouteCache::new()
    }
}

impl Clone for RouteCache {
    /// Empty caches of the same capacity, with the same counters.
    fn clone(&self) -> (r: Self)
        ensures
            self.well_formed() ==> r.well_formed(),
            r.parent_entries().len() == 0,
            r.child_len() == 0,
            r.capacity() == self.capacity(),
            r.counters() == self.counters(),
    {
        let cap = lru_cap(&self.parent_cache);
        let child_cap = lru_cap(&self.child_cache);
        RouteCache {
            parent_cache: lru_new(cap),
            child_cache: lru_new(child_cap),
            stats: self.stats.copied(),
        }
    }
}

} // verus!
