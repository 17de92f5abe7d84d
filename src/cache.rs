use crate::clock::{clock_start, duration_nanos, elapsed_since};
use crate::stats::{bump, CacheStats};
use std::collections::HashMap;
use std::hash::Hash;
use std::time::{Duration, Instant};
use vstd::prelude::*;
use vstd::pervasive::strictly_cloned;
use vstd::std_specs::hash::obeys_key_model;
use vstd::std_specs::iter::IteratorSpec;

verus! {

broadcast use vstd::std_specs::hash::group_hash_axioms;

/// Outcome of a lookup.
#[derive(Debug, Clone)]
pub enum CacheResult<T> {
    /// The key was present and fresh; this is a clone of its value.
    Hit(T),
    /// The key was absent.
    Miss,
    /// The key was present but stale; the entry has been dropped.
    Expired,
}

/// A stored value with the time it was stored and how long it stays fresh,
/// both in nanoseconds on the cache's clock.
#[derive(Debug, Clone)]
pub struct CacheEntry<T> {
    pub value: T,
    pub inserted_at: u128,
    pub ttl: u128,
}

impl<T> CacheEntry<T> {
    /// Stale at `now`: more than `ttl` has passed since it was stored.
    pub open spec fn expired_at(self, now: u128) -> bool {
        now - self.inserted_at > self.ttl
    }

    fn new(value: T, ttl: u128, now: u128) -> (r: CacheEntry<T>)
        ensures
            r == (CacheEntry { value, inserted_at: now, ttl }),
    {
        CacheEntry { value, inserted_at: now, ttl }
    }

    fn is_expired(&self, now: u128) -> (r: bool)
        ensures
            r == self.expired_at(now),
    {
        now > self.inserted_at && now - self.inserted_at > self.ttl
    }
}

/// How often the background sweep runs, in seconds.
pub const SWEEP_INTERVAL_SECS: u64 = 60;

/// The sweep interval in nanoseconds, the unit of the cache's clock.
pub const SWEEP_INTERVAL_NANOS: u128 = 60_000_000_000;

/// A clone of a value of `T` is that same value.
pub open spec fn faithful_clone<T: Clone>() -> bool {
    forall|a: T, b: T| #[trigger] strictly_cloned(a, b) ==> a == b
}

/// `K` can key the store: its `Eq` and `Hash` agree with identity, and a
/// clone of a key is the same key.
pub open spec fn valid_key_type<K: Clone>() -> bool {
    &&& obeys_key_model::<K>()
    &&& faithful_clone::<K>()
}

/// A new key meets a store that is full and not empty: one entry must go first.
pub open spec fn must_evict<K, T>(m: Map<K, CacheEntry<T>>, key: K, max_size: usize) -> bool {
    &&& !m.contains_key(key)
    &&& m.len() >= max_size
    &&& m.len() > 0
}

/// The entries of `m` that are still fresh at `now`.
pub open spec fn live_entries<K, T>(m: Map<K, CacheEntry<T>>, now: u128) -> Map<K, CacheEntry<T>> {
    Map::new(|k: K| m.contains_key(k) && !m[k].expired_at(now), |k: K| m[k])
}

/// The largest number of entries a store of capacity `max_size` ever holds:
/// an empty store takes one entry even at capacity zero.
pub open spec fn bound(max_size: usize) -> nat {
    if max_size == 0 {
        1
    } else {
        max_size as nat
    }
}

proof fn lemma_push_contains<T>(s: Seq<T>, a: T, x: T)
    ensures
        s.push(a).contains(x) <==> (s.contains(x) || x == a),
{
    if s.contains(x) {
        let j = choose|j: int| 0 <= j < s.len() && s[j] == x;
        assert(s.push(a)[j] == x);
    }
    if x == a {
        assert(s.push(a)[s.len() as int] == x);
    }
}

/// Key-value cache with a time-to-live per entry and a bound on the number of entries.
pub struct Cache<K, V> {
    store: HashMap<K, CacheEntry<V>>,
    default_ttl: u128,
    max_size: usize,
    stats: CacheStats,
    origin: Instant,
}

impl<K: Eq + Hash + Clone, V: Clone> Cache<K, V> {
    /// The entries, by key.
    pub closed spec fn entries(&self) -> Map<K, CacheEntry<V>> {
        self.store@
    }

    pub closed spec fn spec_default_ttl(&self) -> u128 {
        self.default_ttl
    }

    pub closed spec fn spec_max_size(&self) -> usize {
        self.max_size
    }

    pub closed spec fn spec_stats(&self) -> CacheStats {
        self.stats
    }

    /// Well-formed: the key type behaves, and the store is within its bound.
    pub open spec fn wf(&self) -> bool {
        &&& valid_key_type::<K>()
        &&& self.entries().dom().finite()
        &&& self.entries().len() <= bound(self.spec_max_size())
    }

    /// The configuration of `b` is that of `a`.
    pub open spec fn same_config(a: Self, b: Self) -> bool {
        &&& a.spec_max_size() == b.spec_max_size()
        &&& a.spec_default_ttl() == b.spec_default_ttl()
    }

    /// `b` is `a` after `key` was stored with `value` and `ttl` at `now`.
    pub open spec fn insert_post(a: Self, b: Self, key: K, value: V, ttl: u128, now: u128) -> bool {
        let m = a.entries();
        let e = CacheEntry { value, inserted_at: now, ttl };
        &&& Self::same_config(a, b)
        &&& if must_evict(m, key, a.spec_max_size()) {
            &&& exists|victim: K|
                m.contains_key(victim) && b.entries() == #[trigger] m.remove(victim).insert(key, e)
            &&& b.spec_stats().spec_evictions() == bump(a.spec_stats().spec_evictions())
            &&& b.spec_stats().agrees_except(a.spec_stats(), false, false, true, false)
        } else {
            &&& b.entries() == m.insert(key, e)
            &&& b.spec_stats() == a.spec_stats()
        }
    }

    /// `b` is `a` after a lookup of `key` at `now` that returned `r`.
    pub open spec fn get_post(a: Self, b: Self, key: K, now: u128, r: CacheResult<V>) -> bool {
        let m = a.entries();
        let s = a.spec_stats();
        let t = b.spec_stats();
        &&& Self::same_config(a, b)
        &&& if !m.contains_key(key) {
            &&& r is Miss
            &&& b.entries() == m
            &&& t.spec_misses() == bump(s.spec_misses())
            &&& t.agrees_except(s, false, true, false, false)
        } else if m[key].expired_at(now) {
            &&& r is Expired
            &&& b.entries() == m.remove(key)
            &&& t.spec_misses() == bump(s.spec_misses())
            &&& t.spec_expirations() == bump(s.spec_expirations())
            &&& t.agrees_except(s, false, true, false, true)
        } else {
            &&& r matches CacheResult::Hit(v) && cloned(m[key].value, v)
            &&& b.entries() == m
            &&& t.spec_hits() == bump(s.spec_hits())
            &&& t.agrees_except(s, true, false, false, false)
        }
    }

    /// `b` is `a` after a sweep at `now` that removed `removed` entries.
    pub open spec fn sweep_post(a: Self, b: Self, now: u128, removed: nat) -> bool {
        let s = a.spec_stats();
        let t = b.spec_stats();
        &&& Self::same_config(a, b)
        &&& b.entries() == live_entries(a.entries(), now)
        &&& removed == a.entries().len() - b.entries().len()
        &&& t.spec_expirations() == if s.spec_expirations() + removed <= u64::MAX {
            s.spec_expirations() + removed
        } else {
            u64::MAX as int
        }
        &&& t.agrees_except(s, false, false, false, true)
    }

    /// An empty cache whose entries live `default_ttl` unless told otherwise,
    /// and which holds at most `max_size` of them (one, if `max_size` is zero).
    /// The default is kept as `default_ttl` read in nanoseconds.
    pub fn new(default_ttl: Duration, max_size: usize) -> (r: Self)
        requires
            valid_key_type::<K>(),
        ensures
            r.wf(),
            r.entries() == Map::<K, CacheEntry<V>>::empty(),
            r.spec_max_size() == max_size,
            r.spec_stats().is_zero(),
    {
        let ttl = duration_nanos(&default_ttl);
        Cache::with_ttl_nanos(ttl, max_size)
    }

    /// An empty cache whose entries live `default_ttl` nanoseconds unless told
    /// otherwise, and which holds at most `max_size` of them (one, if
    /// `max_size` is zero).
    pub fn with_ttl_nanos(default_ttl: u128, max_size: usize) -> (r: Self)
        requires
            valid_key_type::<K>(),
        ensures
            r.wf(),
            r.entries() == Map::<K, CacheEntry<V>>::empty(),
            r.spec_default_ttl() == default_ttl,
            r.spec_max_size() == max_size,
            r.spec_stats().is_zero(),
    {
        let origin = clock_start();
        Cache {
            store: HashMap::new(),
            default_ttl,
            max_size,
            stats: CacheStats::new(),
            origin,
        }
    }

    /// Stores `value` under `key` at time `now`, for the default time-to-live.
    pub fn insert_at(&mut self, key: K, value: V, now: u128)
        requires
            old(self).wf(),
        ensures
            final(self).wf(),
            Self::insert_post(*old(self), *final(self), key, value, old(self).spec_default_ttl(), now),
            old(self).spec_stats().le(final(self).spec_stats()),
    {
        let ttl = self.default_ttl;
        self.insert_with_ttl_at(key, value, ttl, now);
    }

    /// Nanoseconds since the cache was built.
    pub fn now(&self) -> (r: u128) {
        let d = elapsed_since(&self.origin);
        duration_nanos(&d)
    }

    /// The default time-to-live, in nanoseconds.
    pub fn default_ttl(&self) -> (r: u128)
        ensures
            r == self.spec_default_ttl(),
    {
        self.default_ttl
    }

    /// The capacity the cache was built with.
    pub fn max_size(&self) -> (r: usize)
        ensures
            r == self.spec_max_size(),
    {
        self.max_size
    }

    /// Stores `value` under `key` at time `now`, to live `ttl`. A new key that
    /// finds the store full first evicts one entry, whichever comes first in the
    /// map's own order; a key already present is overwritten in place.
    pub fn insert_with_ttl_at(&mut self, key: K, value: V, ttl: u128, now: u128)
        requires
            old(self).wf(),
        ensures
            final(self).wf(),
            Self::insert_post(*old(self), *final(self), key, value, ttl, now),
            old(self).spec_stats().le(final(self).spec_stats()),
    {
        let ghost m = self.store@;
        if self.store.len() >= self.max_size && !self.store.contains_key(&key) {
            let mut victim: Option<K> = None;
            for k in it: self.store.keys()
                invariant_except_break
                    victim is None,
                    it.index() == 0,
                invariant
                    it.seq().unref().to_set() == m.dom(),
                    it.seq().len() == m.len(),
                    self.store@ == m,
                    valid_key_type::<K>(),
                ensures
                    victim matches Some(v) ==> m.contains_key(v),
                    victim is None ==> m.len() == 0,
            {
                proof {
                    assert(it.seq().unref()[it.index() as int] == *k);
                    assert(m.dom().contains(*k));
                }
                let c = k.clone();
                proof {
                    assert(strictly_cloned(*k, c));
                }
                victim = Some(c);
                break;
            }
            match victim {
                Some(v) => {
                    self.store.remove(&v);
                    self.stats.record_eviction();
                    proof {
                        assert(m.contains_key(v));
                        assert(self.store@.insert(key, CacheEntry { value, inserted_at: now, ttl })
                            == m.remove(v).insert(key, CacheEntry { value, inserted_at: now, ttl }));
                    }
                },
                None => {},
            }
        }
        self.store.insert(key, CacheEntry::new(value, ttl, now));
    }

    /// Looks `key` up at time `now`. A stale entry is dropped and reported as
    /// `Expired`; it counts as a miss and an expiration.
    pub fn get_at(&mut self, key: &K, now: u128) -> (r: CacheResult<V>)
        requires
            old(self).wf(),
        ensures
            final(self).wf(),
            Self::get_post(*old(self), *final(self), *key, now, r),
            old(self).spec_stats().le(final(self).spec_stats()),
    {
        match self.store.get(key) {
            Some(entry) => {
                if entry.is_expired(now) {
                    self.store.remove(key);
                    self.stats.record_expiration();
                    self.stats.record_miss();
                    CacheResult::Expired
                } else {
                    let v = entry.value.clone();
                    self.stats.record_hit();
                    CacheResult::Hit(v)
                }
            },
            None => {
                self.stats.record_miss();
                CacheResult::Miss
            },
        }
    }

    /// Removes `key` whatever its age, and hands back its value if it was there.
    pub fn remove(&mut self, key: &K) -> (r: Option<V>)
        requires
            old(self).wf(),
        ensures
            final(self).wf(),
            Self::same_config(*old(self), *final(self)),
            final(self).entries() == old(self).entries().remove(*key),
            final(self).spec_stats() == old(self).spec_stats(),
            r == if old(self).entries().contains_key(*key) {
                Some(old(self).entries()[*key].value)
            } else {
                None
            },
    {
        match self.store.remove(key) {
            Some(entry) => Some(entry.value),
            None => None,
        }
    }

    /// Removes every entry.
    pub fn clear(&mut self)
        requires
            old(self).wf(),
        ensures
            final(self).wf(),
            Self::same_config(*old(self), *final(self)),
            final(self).entries() == Map::<K, CacheEntry<V>>::empty(),
            final(self).spec_stats() == old(self).spec_stats(),
    {
        self.store.clear();
    }

    /// Number of entries, stale ones included until something drops them.
    pub fn size(&self) -> (r: usize)
        requires
            self.wf(),
        ensures
            r == self.entries().len(),
    {
        self.store.len()
    }

    /// A copy of the counters.
    pub fn stats(&self) -> (r: CacheStats)
        ensures
            r == self.spec_stats(),
    {
        self.stats
    }

    /// Drops every entry that is stale at `now`, counting each as an expiration
    /// (and not as a miss), and returns how many went.
    pub fn sweep_expired_at(&mut self, now: u128) -> (r: usize)
        requires
            old(self).wf(),
        ensures
            final(self).wf(),
            Self::sweep_post(*old(self), *final(self), now, r as nat),
            old(self).spec_stats().le(final(self).spec_stats()),
    {
        let ghost m = self.store@;
        let ghost s0 = self.stats;
        let mut stale: Vec<K> = Vec::new();
        for k in it: self.store.keys()
            invariant
                it.seq().unref().to_set() == m.dom(),
                self.store@ == m,
                valid_key_type::<K>(),
                forall|x: K| #[trigger] stale@.contains(x) <==> (
                    m.contains_key(x) && m[x].expired_at(now)
                    && exists|j: int| 0 <= j < it.index() && it.seq().unref()[j] == x),
            ensures
                forall|x: K| #[trigger] stale@.contains(x) <==> (
                    m.contains_key(x) && m[x].expired_at(now)),
        {
            let ghost before = stale@;
            let ghost idx = it.index();
            proof {
                assert(it.seq().unref()[it.index() as int] == *k);
                assert(m.dom().contains(*k));
            }
            let fresh = match self.store.get(k) {
                Some(entry) => !entry.is_expired(now),
                None => true,
            };
            if !fresh {
                let c = k.clone();
                proof {
                    assert(strictly_cloned(*k, c));
                }
                stale.push(c);
            }
            proof {
                let ks = it.seq().unref();
                assert forall|x: K| #[trigger] stale@.contains(x) <==> (
                    m.contains_key(x) && m[x].expired_at(now)
                    && exists|j: int| 0 <= j < idx + 1 && ks[j] == x) by {
                    lemma_push_contains(before, *k, x);
                    if x == *k {
                        assert(ks[idx as int] == x);
                    }
                    if exists|j: int| 0 <= j < idx + 1 && ks[j] == x {
                        let j = choose|j: int| 0 <= j < idx + 1 && ks[j] == x;
                        if j < idx {
                            assert(exists|j: int| 0 <= j < idx && ks[j] == x);
                        }
                    }
                }
            }
        }
        let mut removed: usize = 0;
        let mut i: usize = 0;
        while i < stale.len()
            invariant
                i <= stale.len(),
                removed <= i,
                valid_key_type::<K>(),
                self.store@.dom().finite(),
                forall|x: K| #[trigger] stale@.contains(x) <==> (
                    m.contains_key(x) && m[x].expired_at(now)),
                forall|x: K| #[trigger] self.store@.contains_key(x) <==> (
                    m.contains_key(x) && !stale@.take(i as int).contains(x)),
                forall|x: K| self.store@.contains_key(x) ==> #[trigger] self.store@[x] == m[x],
                removed == m.len() - self.store@.len(),
                self.stats.spec_expirations() == if s0.spec_expirations() + removed <= u64::MAX {
                    s0.spec_expirations() + removed
                } else {
                    u64::MAX as int
                },
                self.stats.agrees_except(s0, false, false, false, true),
                self.max_size == old(self).max_size,
                self.default_ttl == old(self).default_ttl,
                m == old(self).store@,
                s0 == old(self).stats,
            decreases stale.len() - i,
        {
            let ghost here = self.store@;
            let k = &stale[i];
            proof {
                assert(stale@.take(i + 1) =~= stale@.take(i as int).push(*k));
            }
            match self.store.remove(k) {
                Some(_) => {
                    removed = removed + 1;
                    self.stats.record_expiration();
                },
                None => {},
            }
            i = i + 1;
            proof {
                assert forall|x: K| #[trigger] self.store@.contains_key(x) <==> (
                    m.contains_key(x) && !stale@.take(i as int).contains(x)) by {
                    lemma_push_contains(stale@.take(i - 1), stale@[i - 1], x);
                }
            }
        }
        proof {
            assert(stale@.take(i as int) =~= stale@);
            assert(self.store@ =~= live_entries(m, now));
        }
        removed
    }

    /// Stores `value` under `key` for the default time-to-live, stamped with
    /// the clock as it reads now.
    pub fn insert(&mut self, key: K, value: V)
        requires
            old(self).wf(),
        ensures
            final(self).wf(),
            exists|now: u128|
                Self::insert_post(*old(self), *final(self), key, value, old(self).spec_default_ttl(), now),
            old(self).spec_stats().le(final(self).spec_stats()),
    {
        let now = self.now();
        self.insert_at(key, value, now);
    }

    /// Stores `value` under `key` for `ttl`, stamped with the clock as it reads now.
    pub fn insert_with_ttl(&mut self, key: K, value: V, ttl: Duration)
        requires
            old(self).wf(),
        ensures
            final(self).wf(),
            exists|ttl_nanos: u128, now: u128|
                Self::insert_post(*old(self), *final(self), key, value, ttl_nanos, now),
            old(self).spec_stats().le(final(self).spec_stats()),
    {
        let ttl_nanos = duration_nanos(&ttl);
        let now = self.now();
        self.insert_with_ttl_at(key, value, ttl_nanos, now);
    }

    /// Looks `key` up against the clock as it reads now.
    pub fn get(&mut self, key: &K) -> (r: CacheResult<V>)
        requires
            old(self).wf(),
        ensures
            final(self).wf(),
            exists|now: u128| Self::get_post(*old(self), *final(self), *key, now, r),
            old(self).spec_stats().le(final(self).spec_stats()),
    {
        let now = self.now();
        self.get_at(key, now)
    }

    /// Drops every entry that is stale by the clock as it reads now; returns
    /// how many went.
    pub fn sweep_expired(&mut self) -> (r: usize)
        requires
            old(self).wf(),
        ensures
            final(self).wf(),
            exists|now: u128| Self::sweep_post(*old(self), *final(self), now, r as nat),
            old(self).spec_stats().le(final(self).spec_stats()),
    {
        let now = self.now();
        self.sweep_expired_at(now)
    }
}

} // verus!
