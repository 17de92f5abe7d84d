use vstd::prelude::*;

verus! {

/// Adds one to a counter, holding it at `u64::MAX` once it gets there.
pub open spec fn bump(n: u64) -> u64 {
    if n < u64::MAX {
        (n + 1) as u64
    } else {
        n
    }
}

/// Counters of what the cache has done since it was built.
#[derive(Debug, Clone, Copy, PartialEq, Eq, Structural)]
pub struct CacheStats {
    hits: u64,
    misses: u64,
    evictions: u64,
    expirations: u64,
}

impl CacheStats {
    pub closed spec fn spec_hits(self) -> u64 {
        self.hits
    }

    pub closed spec fn spec_misses(self) -> u64 {
        self.misses
    }

    pub closed spec fn spec_evictions(self) -> u64 {
        self.evictions
    }

    pub closed spec fn spec_expirations(self) -> u64 {
        self.expirations
    }

    /// All four counters are zero.
    pub open spec fn is_zero(self) -> bool {
        &&& self.spec_hits() == 0
        &&& self.spec_misses() == 0
        &&& self.spec_evictions() == 0
        &&& self.spec_expirations() == 0
    }

    /// Every counter of `later` is at least the same counter of `self`.
    pub open spec fn le(self, later: CacheStats) -> bool {
        &&& self.spec_hits() <= later.spec_hits()
        &&& self.spec_misses() <= later.spec_misses()
        &&& self.spec_evictions() <= later.spec_evictions()
        &&& self.spec_expirations() <= later.spec_expirations()
    }

    /// The counters of `self` and `other` agree, but possibly the ones that `hits`,
    /// `misses`, `evictions` and `expirations` allow to differ.
    pub open spec fn agrees_except(
        self,
        other: CacheStats,
        hits: bool,
        misses: bool,
        evictions: bool,
        expirations: bool,
    ) -> bool {
        &&& (hits || self.spec_hits() == other.spec_hits())
        &&& (misses || self.spec_misses() == other.spec_misses())
        &&& (evictions || self.spec_evictions() == other.spec_evictions())
        &&& (expirations || self.spec_expirations() == other.spec_expirations())
    }

    pub fn new() -> (r: CacheStats)
        ensures
            r.is_zero(),
    {
        CacheStats { hits: 0, misses: 0, evictions: 0, expirations: 0 }
    }

    pub fn hits(&self) -> (r: u64)
        ensures
            r == self.spec_hits(),
    {
        self.hits
    }

    pub fn misses(&self) -> (r: u64)
        ensures
            r == self.spec_misses(),
    {
        self.misses
    }

    pub fn evictions(&self) -> (r: u64)
        ensures
            r == self.spec_evictions(),
    {
        self.evictions
    }

    pub fn expirations(&self) -> (r: u64)
        ensures
            r == self.spec_expirations(),
    {
        self.expirations
    }

    /// Number of lookups, hits and misses together: the denominator of the hit rate.
    pub fn lookups(&self) -> (r: u128)
        ensures
            r == self.spec_hits() + self.spec_misses(),
    {
        self.hits as u128 + self.misses as u128
    }

    pub(crate) fn record_hit(&mut self)
        ensures
            final(self).spec_hits() == bump(old(self).spec_hits()),
            final(self).agrees_except(*old(self), true, false, false, false),
    {
        self.hits = self.hits.saturating_add(1);
    }

    pub(crate) fn record_miss(&mut self)
        ensures
            final(self).spec_misses() == bump(old(self).spec_misses()),
            final(self).agrees_except(*old(self), false, true, false, false),
    {
        self.misses = self.misses.saturating_add(1);
    }

    pub(crate) fn record_eviction(&mut self)
        ensures
            final(self).spec_evictions() == bump(old(self).spec_evictions()),
            final(self).agrees_except(*old(self), false, false, true, false),
    {
        self.evictions = self.evictions.saturating_add(1);
    }

    pub(crate) fn record_expiration(&mut self)
        ensures
            final(self).spec_expirations() == bump(old(self).spec_expirations()),
            final(self).agrees_except(*old(self), false, false, false, true),
    {
        self.expirations = self.expirations.saturating_add(1);
    }
}

impl Default for CacheStats {
    fn default() -> (r: CacheStats)
        ensures
            r.is_zero(),
    {
        CacheStats::new()
    }
}

} // verus!
