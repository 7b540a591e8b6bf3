//! Bounded LRU memoization of rendered output.
//!
//! A key holds every input that can change an output: a path, its
//! modification time and size, the template's modification time, and the
//! qualifiers of the request (the caller's context directives, or a TOC
//! title). Entries are never persisted.

use vstd::prelude::*;
use lru::LruCache;
use crate::text::views;

verus! {

#[verifier::external_type_specification]
#[verifier::external_body]
#[verifier::reject_recursive_types(K)]
#[verifier::reject_recursive_types(V)]
#[verifier::reject_recursive_types(S)]
pub struct ExLruCache<K, V, S>(LruCache<K, V, S>);

#[verifier::external_type_specification]
#[verifier::external_body]
pub struct ExLruHasher(lru::DefaultHasher);

/// Path, modification time (seconds), size, template modification time,
/// qualifiers.
pub type ContentKey = (String, u64, u64, u64, Vec<String>);

/// An LRU cache of rendered output.
pub type ContentLru = LruCache<ContentKey, String>;

pub type KeyView = (Seq<char>, u64, u64, u64, Seq<Seq<char>>);

pub open spec fn key_view(k: ContentKey) -> KeyView {
    (k.0@, k.1, k.2, k.3, views(k.4@))
}

/// The entries an LRU cache of rendered output holds.
pub uninterp spec fn lru_entries(c: LruCache<(String, u64, u64, u64, Vec<String>), String>) -> Map<KeyView, Seq<char>>;

/// Relies on `lru::LruCache::new`: an empty cache of the given capacity.
#[verifier::external_body]
fn lru_new(cap: usize) -> (r: ContentLru)
    requires
        cap > 0,
    ensures
        lru_entries(r).dom() == Set::<KeyView>::empty(),
{
    LruCache::new(std::num::NonZeroUsize::new(cap).unwrap())
}

/// Relies on `lru::LruCache::get`: the value under the key, if present; only
/// the recency order changes.
#[verifier::external_body]
fn lru_get(c: &mut ContentLru, k: &ContentKey) -> (r: Option<String>)
    ensures
        lru_entries(*final(c)) == lru_entries(*old(c)),
        match r {
            Some(v) => lru_entries(*old(c)).contains_key(key_view(*k)) && lru_entries(*old(c))[key_view(*k)] == v@,
            None => !lru_entries(*old(c)).contains_key(key_view(*k)),
        },
{
    c.get(k).cloned()
}

/// Relies on `lru::LruCache::put`: the key then holds the value; when the
/// cache was full another entry may have been evicted, none was added.
#[verifier::external_body]
fn lru_put(c: &mut ContentLru, k: ContentKey, v: String)
    ensures
        lru_entries(*final(c)).contains_key(key_view(k)),
        lru_entries(*final(c))[key_view(k)] == v@,
        forall|x: KeyView| #[trigger] lru_entries(*final(c)).contains_key(x) && x != key_view(k) ==> lru_entries(*old(c)).contains_key(x)
            && lru_entries(*final(c))[x] == lru_entries(*old(c))[x],
{
    c.put(k, v);
}

/// One cache: disabled, or an LRU built on first use with the configured
/// capacity (zero counts as one).
pub struct ContentCache {
    enabled: bool,
    capacity: usize,
    lru: Option<ContentLru>,
}

impl ContentCache {
    pub closed spec fn view(&self) -> Map<KeyView, Seq<char>> {
        match self.lru {
            Some(c) => lru_entries(c),
            None => Map::empty(),
        }
    }

    pub closed spec fn is_enabled(&self) -> bool {
        self.enabled
    }

    pub closed spec fn wf(&self) -> bool {
        !self.enabled ==> self.lru is None
    }

    /// A cache that holds nothing until first used.
    pub fn new(enabled: bool, capacity: usize) -> (r: ContentCache)
        ensures
            r.wf(),
            r.is_enabled() == enabled,
            r.view() == Map::<KeyView, Seq<char>>::empty(),
    {
        ContentCache { enabled, capacity, lru: None }
    }

    /// Looks a key up: a disabled cache never hits.
    pub fn lookup(&mut self, k: &ContentKey) -> (r: Option<String>)
        requires
            old(self).wf(),
        ensures
            final(self).wf(),
            final(self).is_enabled() == old(self).is_enabled(),
            final(self).view() == old(self).view(),
            match r {
                Some(v) => old(self).view().contains_key(key_view(*k)) && old(self).view()[key_view(*k)] == v@,
                None => !old(self).view().contains_key(key_view(*k)),
            },
    {
        match &mut self.lru {
            Some(c) => lru_get(c, k),
            None => None,
        }
    }

    /// Stores a value under a key; a disabled cache stays empty.
    pub fn store(&mut self, k: ContentKey, v: String)
        requires
            old(self).wf(),
        ensures
            final(self).wf(),
            final(self).is_enabled() == old(self).is_enabled(),
            old(self).is_enabled() ==> final(self).view().contains_key(key_view(k)) && final(self).view()[key_view(k)] == v@,
            !old(self).is_enabled() ==> final(self).view() == old(self).view(),
            forall|x: KeyView| #[trigger] final(self).view().contains_key(x) && x != key_view(k) ==> old(self).view().contains_key(x)
                && final(self).view()[x] == old(self).view()[x],
    {
        if !self.enabled {
            return;
        }
        if self.lru.is_none() {
            let cap = if self.capacity == 0 {
                1
            } else {
                self.capacity
            };
            self.lru = Some(lru_new(cap));
        }
        match &mut self.lru {
            Some(c) => lru_put(c, k, v),
            None => {},
        }
    }
}

/// What a cache hands out for a key: the stored value on a hit, else the
/// fresh result.
pub open spec fn served(
    entries: Map<KeyView, Seq<char>>,
    k: KeyView,
    fresh: Option<Seq<char>>,
) -> Option<Seq<char>> {
    if entries.contains_key(k) {
        Some(entries[k])
    } else {
        fresh
    }
}

/// Every entry holds what its key stands for.
pub open spec fn faithful(entries: Map<KeyView, Seq<char>>, truth: spec_fn(KeyView) -> Seq<char>) -> bool {
    forall|k: KeyView| #[trigger] entries.contains_key(k) ==> entries[k] == truth(k)
}

/// How a cached computation may change the entries: the key, when it missed
/// and the computation succeeded on an enabled cache, now holds the result,
/// and no other entry changed or appeared.
pub open spec fn refreshed(
    before: Map<KeyView, Seq<char>>,
    after: Map<KeyView, Seq<char>>,
    k: KeyView,
    fresh: Option<Seq<char>>,
) -> bool {
    &&& forall|x: KeyView| #[trigger] after.contains_key(x) && x != k ==> before.contains_key(x) && after[x] == before[x]
    &&& after.contains_key(k) ==> (before.contains_key(k) && after[k] == before[k]) || fresh == Some(after[k])
}

/// Turning a cache on changes nothing but latency: if every entry holds what
/// its key stands for and a fresh computation yields that too, the cache
/// serves exactly the fresh result and stays faithful.
pub proof fn lemma_cache_transparent(
    before: Map<KeyView, Seq<char>>,
    after: Map<KeyView, Seq<char>>,
    k: KeyView,
    fresh: Option<Seq<char>>,
    truth: spec_fn(KeyView) -> Seq<char>,
)
    requires
        faithful(before, truth),
        fresh is Some ==> fresh == Some(truth(k)),
        before.contains_key(k) ==> fresh is Some,
        refreshed(before, after, k, fresh),
    ensures
        served(before, k, fresh) == fresh,
        faithful(after, truth),
{
    assert forall|x: KeyView| #[trigger] after.contains_key(x) implies after[x] == truth(x) by {
        if x != k {
            assert(before.contains_key(x));
        }
    }
}

/// A changed modification time always misses: when no entry for the path
/// carries the new time, what is served is the fresh result.
pub proof fn lemma_new_mtime_misses(
    entries: Map<KeyView, Seq<char>>,
    k: KeyView,
    fresh: Option<Seq<char>>,
)
    requires
        forall|x: KeyView| #[trigger] entries.contains_key(x) && x.0 == k.0 ==> x.1 != k.1,
    ensures
        served(entries, k, fresh) == fresh,
{
    if entries.contains_key(k) {
        assert(k.1 != k.1);
    }
}

} // verus!
