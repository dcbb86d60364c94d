use vstd::prelude::*;

use lru_cache::LruCache;
use std::hash::{BuildHasher, Hash};

verus! {

#[verifier::external_type_specification]
#[verifier::external_body]
#[verifier::reject_recursive_types(K)]
#[verifier::reject_recursive_types(V)]
#[verifier::reject_recursive_types(S)]
pub struct ExLruCache<K: Eq + Hash, V, S: BuildHasher>(LruCache<K, V, S>);

/// The cache type behind both halves of the token cache: a token's two hash
/// halves map to its spam and ham counts and the end of its validity.
pub type TokenLru = LruCache<(u64, u64), (u32, u32, u64)>;

/// The contents of a token cache, key to value.
pub type TokenMap = Map<(u64, u64), (u32, u32, u64)>;

/// What an LRU cache holds, key to value.
pub uninterp spec fn lru_contents(c: TokenLru) -> TokenMap;

/// The capacity an LRU cache was made with.
pub uninterp spec fn lru_capacity(c: TokenLru) -> nat;

pub open spec fn map_get(m: TokenMap, k: (u64, u64)) -> Option<
    (u32, u32, u64),
> {
    if m.contains_key(k) {
        Some(m[k])
    } else {
        None
    }
}

/// Relies on lru_cache::LruCache::new: an empty cache of the given capacity.
#[verifier::external_body]
fn lru_new(capacity: usize) -> (r: TokenLru)
    ensures
        lru_contents(r) == TokenMap::empty(),
        lru_capacity(r) == capacity,
{
    LruCache::new(capacity)
}

/// Relies on lru_cache::LruCache::insert: the pair is stored (unless the
/// capacity is zero), the old value for the key comes back, and where the
/// cache grows past its capacity one other entry is evicted.
#[verifier::external_body]
fn lru_insert(c: &mut TokenLru, k: (u64, u64), v: (u32, u32, u64)) -> (r: Option<(u32, u32, u64)>)
    ensures
        r == map_get(lru_contents(*old(c)), k),
        lru_capacity(*final(c)) == lru_capacity(*old(c)),
        lru_contents(*final(c)).dom().finite(),
        lru_capacity(*old(c)) > 0 ==> lru_contents(*final(c)).contains_key(k)
            && lru_contents(*final(c))[k] == v,
        forall|k2: (u64, u64)|
            k2 != k && #[trigger] lru_contents(*final(c)).contains_key(k2) ==> lru_contents(
                *old(c),
            ).contains_key(k2) && lru_contents(*final(c))[k2] == lru_contents(*old(c))[k2],
        lru_contents(*old(c)).dom().finite() && lru_contents(*old(c)).len() <= lru_capacity(
            *old(c),
        ) && (lru_contents(*old(c)).contains_key(k) || lru_contents(*old(c)).len() < lru_capacity(
            *old(c),
        )) ==> lru_contents(*final(c)) == lru_contents(*old(c)).insert(k, v),
{
    c.insert(k, v)
}

/// Relies on lru_cache::LruCache::get_mut: the value held for the key; the
/// lookup only marks the entry as recently used.
#[verifier::external_body]
fn lru_get(c: &mut TokenLru, k: &(u64, u64)) -> (r: Option<(u32, u32, u64)>)
    ensures
        r == map_get(lru_contents(*old(c)), *k),
        lru_contents(*final(c)) == lru_contents(*old(c)),
        lru_capacity(*final(c)) == lru_capacity(*old(c)),
{
    c.get_mut(k).map(|v| *v)
}

/// Relies on lru_cache::LruCache::remove: the entry leaves and its value comes back.
#[verifier::external_body]
fn lru_remove(c: &mut TokenLru, k: &(u64, u64)) -> (r: Option<(u32, u32, u64)>)
    ensures
        r == map_get(lru_contents(*old(c)), *k),
        lru_contents(*final(c)) == lru_contents(*old(c)).remove(*k),
        lru_capacity(*final(c)) == lru_capacity(*old(c)),
{
    c.remove(k)
}

/// The identity of a token: two independent 64-bit hashes.
#[derive(Clone, Copy, Debug, PartialEq, Eq, Structural, Hash)]
pub struct TokenHash {
    pub h1: u64,
    pub h2: u64,
}

/// How often a token was seen in spam and in ham.
#[derive(Clone, Copy, Debug, PartialEq, Eq, Structural, Hash)]
pub struct Weights {
    pub spam: u32,
    pub ham: u32,
}

/// Known weights of a token, kept until `valid_until`.
#[derive(Clone, Copy, Debug, PartialEq, Eq, Structural)]
pub struct CacheItem {
    pub item: Weights,
    pub valid_until: u64,
}

impl CacheItem {
    pub fn new(item: Weights, valid_until: u64) -> (r: CacheItem)
        ensures
            r.item == item,
            r.valid_until == valid_until,
    {
        CacheItem { item, valid_until }
    }

    pub fn weights(&self) -> (r: Weights)
        ensures
            r == self.item,
    {
        self.item
    }

    pub fn valid_until(&self) -> (r: u64)
        ensures
            r == self.valid_until,
    {
        self.valid_until
    }

    /// The item may still be served at `now`.
    pub fn is_valid(&self, now: u64) -> (r: bool)
        ensures
            r == (self.valid_until >= now),
    {
        self.valid_until >= now
    }
}

/// `now + ttl`, held at the largest timestamp.
pub open spec fn until_of(now: u64, ttl: u64) -> u64 {
    if now + ttl <= u64::MAX {
        (now + ttl) as u64
    } else {
        u64::MAX
    }
}

fn until(now: u64, ttl: u64) -> (r: u64)
    ensures
        r == until_of(now, ttl),
{
    if ttl <= u64::MAX - now {
        now + ttl
    } else {
        u64::MAX
    }
}

pub open spec fn key_of(h: TokenHash) -> (u64, u64) {
    (h.h1, h.h2)
}

/// What a lookup of `k` at `now` answers: `Some(Some(w))` for a token with
/// known weights, `Some(None)` for one known to be absent, `None` where
/// nothing valid is cached.
pub open spec fn cached_answer(
    pos: TokenMap,
    neg: TokenMap,
    k: (u64, u64),
    now: u64,
) -> Option<Option<Weights>> {
    if pos.contains_key(k) {
        if pos[k].2 >= now {
            Some(Some(Weights { spam: pos[k].0, ham: pos[k].1 }))
        } else {
            None
        }
    } else if neg.contains_key(k) {
        if neg[k].2 >= now {
            Some(None)
        } else {
            None
        }
    } else {
        None
    }
}

/// A cache of token weights in front of the token store: known weights in
/// one LRU cache, tokens known to be absent in another, each entry valid for
/// its own time to live. Times are in seconds.
pub struct BayesTokenCache {
    positive: TokenLru,
    /// Entries carry only their end of validity; the counts are unused.
    negative: TokenLru,
    ttl_negative: u64,
    ttl_positive: u64,
}

impl BayesTokenCache {
    pub closed spec fn positive_view(&self) -> TokenMap {
        lru_contents(self.positive)
    }

    pub closed spec fn negative_view(&self) -> TokenMap {
        lru_contents(self.negative)
    }

    pub closed spec fn capacity(&self) -> nat {
        lru_capacity(self.positive)
    }

    pub closed spec fn negative_capacity(&self) -> nat {
        lru_capacity(self.negative)
    }

    pub closed spec fn ttl_positive_spec(&self) -> u64 {
        self.ttl_positive
    }

    pub closed spec fn ttl_negative_spec(&self) -> u64 {
        self.ttl_negative
    }

    pub fn new(capacity: usize, ttl_positive: u64, ttl_negative: u64) -> (r: BayesTokenCache)
        ensures
            r.positive_view() == TokenMap::empty(),
            r.negative_view() == TokenMap::empty(),
            r.capacity() == capacity,
            r.negative_capacity() == capacity,
            r.ttl_positive_spec() == ttl_positive,
            r.ttl_negative_spec() == ttl_negative,
    {
        BayesTokenCache {
            positive: lru_new(capacity),
            negative: lru_new(capacity),
            ttl_negative,
            ttl_positive,
        }
    }

    /// Looks `hash` up at `now`. An expired entry is dropped on the way.
    pub fn get(&mut self, hash: &TokenHash, now: u64) -> (r: Option<Option<Weights>>)
        ensures
            r == cached_answer(old(self).positive_view(), old(self).negative_view(), key_of(*hash), now),
            final(self).positive_view() == if old(self).positive_view().contains_key(key_of(*hash))
                && old(self).positive_view()[key_of(*hash)].2 < now {
                old(self).positive_view().remove(key_of(*hash))
            } else {
                old(self).positive_view()
            },
            final(self).negative_view() == if !old(self).positive_view().contains_key(key_of(*hash))
                && old(self).negative_view().contains_key(key_of(*hash))
                && old(self).negative_view()[key_of(*hash)].2 < now {
                old(self).negative_view().remove(key_of(*hash))
            } else {
                old(self).negative_view()
            },
            final(self).capacity() == old(self).capacity(),
            final(self).negative_capacity() == old(self).negative_capacity(),
            final(self).ttl_positive_spec() == old(self).ttl_positive_spec(),
            final(self).ttl_negative_spec() == old(self).ttl_negative_spec(),
    {
        let k = (hash.h1, hash.h2);
        match lru_get(&mut self.positive, &k) {
            Some(entry) => {
                let item = CacheItem::new(Weights { spam: entry.0, ham: entry.1 }, entry.2);
                if item.is_valid(now) {
                    return Some(Some(item.weights()));
                } else {
                    lru_remove(&mut self.positive, &k);
                    return None;
                }
            },
            None => {},
        }
        match lru_get(&mut self.negative, &k) {
            Some(entry) => {
                if entry.2 >= now {
                    Some(None)
                } else {
                    lru_remove(&mut self.negative, &k);
                    None
                }
            },
            None => None,
        }
    }

    /// Records the weights of `hash`, valid for the positive time to live.
    pub fn insert_positive(&mut self, hash: TokenHash, weights: Weights, now: u64)
        ensures
            old(self).capacity() > 0 ==> final(self).positive_view().contains_key(key_of(hash))
                && final(self).positive_view()[key_of(hash)] == (
                weights.spam,
                weights.ham,
                until_of(now, old(self).ttl_positive_spec()),
            ),
            forall|k2: (u64, u64)|
                k2 != key_of(hash) && #[trigger] final(self).positive_view().contains_key(k2)
                    ==> old(self).positive_view().contains_key(k2)
                    && final(self).positive_view()[k2] == old(self).positive_view()[k2],
            final(self).negative_view() == old(self).negative_view(),
            final(self).capacity() == old(self).capacity(),
            final(self).negative_capacity() == old(self).negative_capacity(),
            final(self).ttl_positive_spec() == old(self).ttl_positive_spec(),
            final(self).ttl_negative_spec() == old(self).ttl_negative_spec(),
    {
        let valid = until(now, self.ttl_positive);
        lru_insert(&mut self.positive, (hash.h1, hash.h2), (weights.spam, weights.ham, valid));
    }

    /// Records that `hash` is absent from the store, for the negative time to live.
    pub fn insert_negative(&mut self, hash: TokenHash, now: u64)
        ensures
            old(self).negative_capacity() > 0 ==> final(self).negative_view().contains_key(
                key_of(hash),
            ) && final(self).negative_view()[key_of(hash)].2 == until_of(
                now,
                old(self).ttl_negative_spec(),
            ),
            forall|k2: (u64, u64)|
                k2 != key_of(hash) && #[trigger] final(self).negative_view().contains_key(k2)
                    ==> old(self).negative_view().contains_key(k2)
                    && final(self).negative_view()[k2] == old(self).negative_view()[k2],
            final(self).positive_view() == old(self).positive_view(),
            final(self).capacity() == old(self).capacity(),
            final(self).negative_capacity() == old(self).negative_capacity(),
            final(self).ttl_positive_spec() == old(self).ttl_positive_spec(),
            final(self).ttl_negative_spec() == old(self).ttl_negative_spec(),
    {
        let valid = until(now, self.ttl_negative);
        lru_insert(&mut self.negative, (hash.h1, hash.h2), (0, 0, valid));
    }

    /// Forgets `hash`: its known weights, or else its known absence.
    pub fn invalidate(&mut self, hash: &TokenHash)
        ensures
            final(self).positive_view() == old(self).positive_view().remove(key_of(*hash)),
            final(self).negative_view() == if old(self).positive_view().contains_key(key_of(*hash)) {
                old(self).negative_view()
            } else {
                old(self).negative_view().remove(key_of(*hash))
            },
            final(self).capacity() == old(self).capacity(),
            final(self).negative_capacity() == old(self).negative_capacity(),
            final(self).ttl_positive_spec() == old(self).ttl_positive_spec(),
            final(self).ttl_negative_spec() == old(self).ttl_negative_spec(),
    {
        let k = (hash.h1, hash.h2);
        if lru_remove(&mut self.positive, &k).is_none() {
            lru_remove(&mut self.negative, &k);
        }
    }
}

impl Default for BayesTokenCache {
    fn default() -> (r: BayesTokenCache)
        ensures
            r.positive_view() == TokenMap::empty(),
            r.negative_view() == TokenMap::empty(),
            r.capacity() == 1024,
            r.negative_capacity() == 1024,
            r.ttl_positive_spec() == 0,
            r.ttl_negative_spec() == 0,
    {
        BayesTokenCache::new(1024, 0, 0)
    }
}

} // verus!
