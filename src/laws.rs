use crate::cache::{
    faithful_clone, live_entries, must_evict, Cache, CacheEntry, CacheResult,
    SWEEP_INTERVAL_NANOS,
};
use crate::stats::bump;
use std::hash::Hash;
use vstd::prelude::*;

verus! {

/// `b` is `a` after `value` was stored under `key`, with any time-to-live and time.
pub open spec fn inserts<K: Eq + Hash + Clone, V: Clone>(
    a: Cache<K, V>,
    b: Cache<K, V>,
    key: K,
    value: V,
) -> bool {
    exists|ttl: u128, now: u128| Cache::insert_post(a, b, key, value, ttl, now)
}

/// After `key` was stored with `value` and `ttl` at `t_ins`, the entry under
/// `key` is exactly the one stored.
proof fn lemma_inserted_entry<K: Eq + Hash + Clone, V: Clone>(
    c0: Cache<K, V>,
    c1: Cache<K, V>,
    key: K,
    value: V,
    ttl: u128,
    t_ins: u128,
)
    requires
        Cache::insert_post(c0, c1, key, value, ttl, t_ins),
    ensures
        c1.entries().contains_key(key),
        c1.entries()[key] == (CacheEntry { value, inserted_at: t_ins, ttl }),
{
    let m = c0.entries();
    let e = CacheEntry { value, inserted_at: t_ins, ttl };
    if must_evict(m, key, c0.spec_max_size()) {
        let victim = choose|victim: K|
            m.contains_key(victim) && c1.entries() == #[trigger] m.remove(victim).insert(key, e);
    }
}

/// A lookup within the time-to-live of an entry just stored finds it, and
/// hands back a clone of the stored value (the value itself, where cloning is
/// faithful).
pub proof fn insert_then_get_hits<K: Eq + Hash + Clone, V: Clone>(
    c0: Cache<K, V>,
    c1: Cache<K, V>,
    c2: Cache<K, V>,
    key: K,
    value: V,
    ttl: u128,
    t_ins: u128,
    t_get: u128,
    r: CacheResult<V>,
)
    requires
        Cache::insert_post(c0, c1, key, value, ttl, t_ins),
        Cache::get_post(c1, c2, key, t_get, r),
        t_get - t_ins <= ttl,
    ensures
        r matches CacheResult::Hit(v) && cloned(value, v),
        faithful_clone::<V>() ==> r == CacheResult::Hit(value),
        c2.entries() == c1.entries(),
{
    lemma_inserted_entry(c0, c1, key, value, ttl, t_ins);
}

/// A lookup after the time-to-live of an entry just stored reports it expired,
/// and the next lookup of that key misses.
pub proof fn expired_once_then_miss<K: Eq + Hash + Clone, V: Clone>(
    c0: Cache<K, V>,
    c1: Cache<K, V>,
    c2: Cache<K, V>,
    c3: Cache<K, V>,
    key: K,
    value: V,
    ttl: u128,
    t_ins: u128,
    t1: u128,
    t2: u128,
    r1: CacheResult<V>,
    r2: CacheResult<V>,
)
    requires
        Cache::insert_post(c0, c1, key, value, ttl, t_ins),
        Cache::get_post(c1, c2, key, t1, r1),
        Cache::get_post(c2, c3, key, t2, r2),
        t1 - t_ins > ttl,
    ensures
        r1 is Expired,
        r2 is Miss,
        c2.spec_stats().spec_expirations() == bump(c1.spec_stats().spec_expirations()),
{
    lemma_inserted_entry(c0, c1, key, value, ttl, t_ins);
}

/// In a cache of positive capacity that is within it, an insert keeps it
/// within it; a new key that finds it full evicts exactly one entry, so the
/// size stays the same and one eviction is counted.
pub proof fn insert_keeps_capacity<K: Eq + Hash + Clone, V: Clone>(
    c0: Cache<K, V>,
    c1: Cache<K, V>,
    key: K,
    value: V,
    ttl: u128,
    now: u128,
)
    requires
        c0.wf(),
        c0.spec_max_size() > 0,
        c0.entries().len() <= c0.spec_max_size(),
        Cache::insert_post(c0, c1, key, value, ttl, now),
    ensures
        c1.entries().len() <= c1.spec_max_size(),
        !c0.entries().contains_key(key) && c0.entries().len() == c0.spec_max_size() ==> {
            &&& c1.entries().len() == c0.entries().len()
            &&& c1.spec_stats().spec_evictions() == bump(c0.spec_stats().spec_evictions())
            &&& c0.spec_stats().spec_evictions() < u64::MAX ==> c1.spec_stats().spec_evictions()
                == c0.spec_stats().spec_evictions() + 1
        },
{
    let m = c0.entries();
    let e = CacheEntry { value, inserted_at: now, ttl };
    if must_evict(m, key, c0.spec_max_size()) {
        let victim = choose|victim: K|
            m.contains_key(victim) && c1.entries() == #[trigger] m.remove(victim).insert(key, e);
        assert(!m.remove(victim).contains_key(key));
    }
}

/// Storing a key that is already present, into a cache at capacity or not,
/// changes neither the size nor the counters.
pub proof fn overwrite_does_not_evict<K: Eq + Hash + Clone, V: Clone>(
    c0: Cache<K, V>,
    c1: Cache<K, V>,
    key: K,
    value: V,
    ttl: u128,
    now: u128,
)
    requires
        c0.wf(),
        c0.entries().contains_key(key),
        Cache::insert_post(c0, c1, key, value, ttl, now),
    ensures
        c1.entries().len() == c0.entries().len(),
        c1.spec_stats() == c0.spec_stats(),
{
}

/// An entry stored with a time-to-live shorter than the sweep interval, and
/// never read, is gone after a sweep that runs one interval later or after;
/// the sweep counts it as an expiration and counts no miss. Where it was the
/// only stale entry, the sweep removes exactly one.
pub proof fn sweep_removes_unread_entry<K: Eq + Hash + Clone, V: Clone>(
    c0: Cache<K, V>,
    c1: Cache<K, V>,
    c2: Cache<K, V>,
    key: K,
    value: V,
    ttl: u128,
    t_ins: u128,
    t_sweep: u128,
    removed: nat,
)
    requires
        c0.wf(),
        ttl < SWEEP_INTERVAL_NANOS,
        t_sweep - t_ins >= SWEEP_INTERVAL_NANOS,
        Cache::insert_post(c0, c1, key, value, ttl, t_ins),
        Cache::sweep_post(c1, c2, t_sweep, removed),
    ensures
        !c2.entries().contains_key(key),
        removed >= 1,
        c2.spec_stats().spec_expirations() > c1.spec_stats().spec_expirations()
            || c1.spec_stats().spec_expirations() == u64::MAX,
        c2.spec_stats().spec_misses() == c1.spec_stats().spec_misses(),
        (forall|k: K| #[trigger] c1.entries().contains_key(k) && k != key
            ==> !c1.entries()[k].expired_at(t_sweep)) ==> {
            &&& removed == 1
            &&& c1.spec_stats().spec_expirations() < u64::MAX ==> c2.spec_stats().spec_expirations()
                == c1.spec_stats().spec_expirations() + 1
        },
{
    lemma_inserted_entry(c0, c1, key, value, ttl, t_ins);
    let m = c1.entries();
    let live = live_entries(m, t_sweep);
    lemma_insert_keeps_finite(c0, c1, key, value, ttl, t_ins);
    assert(live.dom().subset_of(m.dom().remove(key)));
    vstd::set_lib::lemma_len_subset(live.dom(), m.dom().remove(key));
    if forall|k: K| #[trigger] m.contains_key(k) && k != key ==> !m[k].expired_at(t_sweep) {
        assert(live.dom() =~= m.dom().remove(key));
    }
}

/// An insert into a cache with finitely many entries leaves finitely many.
proof fn lemma_insert_keeps_finite<K: Eq + Hash + Clone, V: Clone>(
    c0: Cache<K, V>,
    c1: Cache<K, V>,
    key: K,
    value: V,
    ttl: u128,
    now: u128,
)
    requires
        c0.entries().dom().finite(),
        Cache::insert_post(c0, c1, key, value, ttl, now),
    ensures
        c1.entries().dom().finite(),
{
    let m = c0.entries();
    let e = CacheEntry { value, inserted_at: now, ttl };
    if must_evict(m, key, c0.spec_max_size()) {
        let victim = choose|victim: K|
            m.contains_key(victim) && c1.entries() == #[trigger] m.remove(victim).insert(key, e);
    }
}

/// The first `n` of a run of inserts of distinct keys into an empty cache that
/// has room for all of them: the cache then holds those `n` keys, each with
/// its value, and no eviction has happened.
proof fn lemma_distinct_inserts_prefix<K: Eq + Hash + Clone, V: Clone>(
    cs: Seq<Cache<K, V>>,
    keys: Seq<K>,
    values: Seq<V>,
    n: int,
)
    requires
        0 <= n <= keys.len(),
        cs.len() == keys.len() + 1,
        values.len() == keys.len(),
        cs[0].wf(),
        cs[0].entries().dom().is_empty(),
        keys.no_duplicates(),
        keys.len() <= cs[0].spec_max_size(),
        forall|i: int| 0 <= i < keys.len() ==> inserts(#[trigger] cs[i], cs[i + 1], keys[i], values[i]),
    ensures
        cs[n].entries().dom().finite(),
        cs[n].entries().dom() == Set::new(|k: K| exists|j: int| 0 <= j < n && keys[j] == k),
        cs[n].entries().len() == n,
        forall|j: int| 0 <= j < n ==> cs[n].entries()[#[trigger] keys[j]].value == values[j],
        cs[n].spec_max_size() == cs[0].spec_max_size(),
        cs[n].spec_stats().spec_evictions() == cs[0].spec_stats().spec_evictions(),
    decreases n,
{
    if n == 0 {
        assert(cs[0].entries().dom() =~= Set::new(|k: K| exists|j: int| 0 <= j < 0 && keys[j] == k));
    } else {
        lemma_distinct_inserts_prefix(cs, keys, values, n - 1);
        let a = cs[n - 1];
        let b = cs[n];
        let key = keys[n - 1];
        assert(inserts(a, b, key, values[n - 1]));
        let (ttl, now) = choose|ttl: u128, now: u128|
            #[trigger] Cache::insert_post(a, b, key, values[n - 1], ttl, now);
        assert(!a.entries().contains_key(key)) by {
            if a.entries().contains_key(key) {
                let j = choose|j: int| 0 <= j < n - 1 && keys[j] == key;
                assert(keys[j] == keys[n - 1]);
            }
        }
        assert(!must_evict(a.entries(), key, a.spec_max_size()));
        assert forall|j: int| 0 <= j < n implies b.entries()[#[trigger] keys[j]].value == values[j] by {
            if j < n - 1 {
                assert(keys[j] != keys[n - 1]);
            }
        }
        assert(b.entries().dom() =~= Set::new(|k: K| exists|j: int| 0 <= j < n && keys[j] == k)) by {
            assert forall|k: K| b.entries().dom().contains(k)
                == (exists|j: int| 0 <= j < n && keys[j] == k) by {
                if k == key {
                    assert(keys[n - 1] == k);
                }
                if exists|j: int| 0 <= j < n && keys[j] == k {
                    let j = choose|j: int| 0 <= j < n && keys[j] == k;
                    if j < n - 1 {
                        assert(exists|j: int| 0 <= j < n - 1 && keys[j] == k);
                    }
                }
            }
        }
    }
}

/// Inserts of distinct keys, however callers interleave them, reach the store
/// one at a time. Into an empty cache with room for all of them, they leave one
/// entry per key, holding the value stored under it, and evict nothing.
pub proof fn distinct_inserts_fill_without_eviction<K: Eq + Hash + Clone, V: Clone>(
    cs: Seq<Cache<K, V>>,
    keys: Seq<K>,
    values: Seq<V>,
)
    requires
        cs.len() == keys.len() + 1,
        values.len() == keys.len(),
        cs[0].wf(),
        cs[0].entries().dom().is_empty(),
        keys.no_duplicates(),
        keys.len() <= cs[0].spec_max_size(),
        forall|i: int| 0 <= i < keys.len() ==> inserts(#[trigger] cs[i], cs[i + 1], keys[i], values[i]),
    ensures
        cs.last().entries().len() == keys.len(),
        forall|i: int| 0 <= i < keys.len() ==> {
            &&& cs.last().entries().contains_key(#[trigger] keys[i])
            &&& cs.last().entries()[keys[i]].value == values[i]
        },
        cs.last().spec_stats().spec_evictions() == cs[0].spec_stats().spec_evictions(),
{
    let n = keys.len() as int;
    lemma_distinct_inserts_prefix(cs, keys, values, n);
    assert forall|i: int| 0 <= i < n implies cs[n].entries().contains_key(#[trigger] keys[i]) by {
        assert(exists|j: int| 0 <= j < n && keys[j] == keys[i]);
    }
}

/// Inserts of distinct keys into an empty cache of positive capacity `m`:
/// after `n` of them the cache holds the smaller of `n` and `m` entries, never
/// more than `m` on the way, and has evicted once for each insert past `m`.
pub proof fn distinct_inserts_stay_within_capacity<K: Eq + Hash + Clone, V: Clone>(
    cs: Seq<Cache<K, V>>,
    keys: Seq<K>,
)
    requires
        cs.len() == keys.len() + 1,
        cs[0].wf(),
        cs[0].entries().dom().is_empty(),
        cs[0].spec_max_size() >= 1,
        cs[0].spec_stats().spec_evictions() + keys.len() <= u64::MAX,
        keys.no_duplicates(),
        forall|i: int| 0 <= i < keys.len() ==> inserts_key(#[trigger] cs[i], cs[i + 1], keys[i]),
    ensures
        forall|i: int| 0 <= i < cs.len() ==> #[trigger] cs[i].entries().len() <= cs[0].spec_max_size(),
        cs.last().entries().len() == if keys.len() <= cs[0].spec_max_size() {
            keys.len() as int
        } else {
            cs[0].spec_max_size() as int
        },
        cs.last().spec_stats().spec_evictions() == cs[0].spec_stats().spec_evictions() + if keys.len()
            <= cs[0].spec_max_size() {
            0
        } else {
            keys.len() - cs[0].spec_max_size()
        },
{
    assert forall|i: int| 0 <= i < cs.len() implies #[trigger] cs[i].entries().len()
        <= cs[0].spec_max_size() by {
        lemma_bounded_inserts_prefix(cs, keys, i);
    }
    lemma_bounded_inserts_prefix(cs, keys, keys.len() as int);
}

/// `b` is `a` after `key` was stored, with any value, time-to-live and time.
pub open spec fn inserts_key<K: Eq + Hash + Clone, V: Clone>(a: Cache<K, V>, b: Cache<K, V>, key: K) -> bool {
    exists|value: V, ttl: u128, now: u128| Cache::insert_post(a, b, key, value, ttl, now)
}

/// The first `n` of a run of inserts of distinct keys into an empty cache of
/// positive capacity: every key present is one of the first `n`, and the size
/// and eviction count are as the capacity dictates.
proof fn lemma_bounded_inserts_prefix<K: Eq + Hash + Clone, V: Clone>(
    cs: Seq<Cache<K, V>>,
    keys: Seq<K>,
    n: int,
)
    requires
        0 <= n <= keys.len(),
        cs.len() == keys.len() + 1,
        cs[0].wf(),
        cs[0].entries().dom().is_empty(),
        cs[0].spec_max_size() >= 1,
        cs[0].spec_stats().spec_evictions() + keys.len() <= u64::MAX,
        keys.no_duplicates(),
        forall|i: int| 0 <= i < keys.len() ==> inserts_key(#[trigger] cs[i], cs[i + 1], keys[i]),
    ensures
        cs[n].entries().dom().finite(),
        forall|k: K| #[trigger] cs[n].entries().contains_key(k)
            ==> exists|j: int| 0 <= j < n && keys[j] == k,
        cs[n].spec_max_size() == cs[0].spec_max_size(),
        cs[n].entries().len() == if n <= cs[0].spec_max_size() {
            n
        } else {
            cs[0].spec_max_size() as int
        },
        cs[n].spec_stats().spec_evictions() == cs[0].spec_stats().spec_evictions() + if n
            <= cs[0].spec_max_size() {
            0
        } else {
            n - cs[0].spec_max_size()
        },
    decreases n,
{
    if n > 0 {
        lemma_bounded_inserts_prefix(cs, keys, n - 1);
        let a = cs[n - 1];
        let b = cs[n];
        let key = keys[n - 1];
        let m = a.entries();
        assert(inserts_key(a, b, key));
        let (value, ttl, now) = choose|value: V, ttl: u128, now: u128|
            Cache::insert_post(a, b, key, value, ttl, now);
        let e = CacheEntry { value, inserted_at: now, ttl };
        assert(!m.contains_key(key)) by {
            if m.contains_key(key) {
                let j = choose|j: int| 0 <= j < n - 1 && keys[j] == key;
                assert(keys[j] == keys[n - 1]);
            }
        }
        if must_evict(m, key, a.spec_max_size()) {
            let victim = choose|victim: K|
                m.contains_key(victim) && b.entries() == #[trigger] m.remove(victim).insert(key, e);
            assert(!m.remove(victim).contains_key(key));
        }
        assert forall|k: K| #[trigger] b.entries().contains_key(k)
            implies exists|j: int| 0 <= j < n && keys[j] == k by {
            if k == key {
                assert(keys[n - 1] == k);
            } else {
                assert(m.contains_key(k));
                let j = choose|j: int| 0 <= j < n - 1 && keys[j] == k;
                assert(0 <= j < n && keys[j] == k);
            }
        }
    }
}

} // verus!
