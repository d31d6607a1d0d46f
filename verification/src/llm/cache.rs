//! Settings and counters of the response cache.

use vstd::prelude::*;

verus! {

/// How many responses the cache keeps, for how long, and whether it is on.
#[derive(Debug, Clone, Copy)]
pub struct CacheConfig {
    pub max_capacity: usize,
    pub ttl_seconds: u64,
    pub enabled: bool,
}

impl CacheConfig {
    /// A hundred responses, kept an hour, cache on.
    pub fn default() -> (c: CacheConfig)
        ensures
            c.max_capacity == 100,
            c.ttl_seconds == 3600,
            c.enabled,
    {
        CacheConfig { max_capacity: 100, ttl_seconds: 3600, enabled: true }
    }
}

/// What the cache has counted: hits, misses and evictions.
#[derive(Debug, Clone, Copy)]
pub struct CacheStats {
    pub hits: u64,
    pub misses: u64,
    pub evictions: u64,
}

impl CacheStats {
    /// All counts at zero.
    pub fn new() -> (s: CacheStats)
        ensures
            s.hits == 0 && s.misses == 0 && s.evictions == 0,
    {
        CacheStats { hits: 0, misses: 0, evictions: 0 }
    }

    /// Sets every count back to zero.
    pub fn reset(&mut self)
        ensures
            final(self).hits == 0 && final(self).misses == 0 && final(self).evictions == 0,
    {
        self.hits = 0;
        self.misses = 0;
        self.evictions = 0;
    }

    /// Counts a hit; the count stops at its largest value.
    pub fn record_hit(&mut self)
        ensures
            final(self).hits == (if old(self).hits < u64::MAX { old(self).hits + 1 } else { old(self).hits as int }),
            final(self).misses == old(self).misses,
            final(self).evictions == old(self).evictions,
    {
        self.hits = self.hits.saturating_add(1);
    }

    /// Counts a miss; the count stops at its largest value.
    pub fn record_miss(&mut self)
        ensures
            final(self).misses == (if old(self).misses < u64::MAX { old(self).misses + 1 } else { old(self).misses as int }),
            final(self).hits == old(self).hits,
            final(self).evictions == old(self).evictions,
    {
        self.misses = self.misses.saturating_add(1);
    }

    /// Counts an eviction; the count stops at its largest value.
    pub fn record_eviction(&mut self)
        ensures
            final(self).evictions == (if old(self).evictions < u64::MAX { old(self).evictions + 1 } else { old(self).evictions as int }),
            final(self).hits == old(self).hits,
            final(self).misses == old(self).misses,
    {
        self.evictions = self.evictions.saturating_add(1);
    }

    /// The hits and the lookups made (hits and misses), the two numbers the
    /// hit rate divides; the total stops at its largest value.
    pub fn hit_ratio_parts(&self) -> (r: (u64, u64))
        ensures
            r.0 == self.hits,
            r.1 == (if self.hits + self.misses <= u64::MAX { self.hits + self.misses } else { u64::MAX as int }),
    {
        (self.hits, self.hits.saturating_add(self.misses))
    }
}

} // verus!
