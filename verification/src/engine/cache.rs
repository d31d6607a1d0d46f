//! The multi-level cache's tiers, counters and file tier naming.

use vstd::prelude::*;
use crate::text::str_eq;

verus! {

/// A level of the cache: memory, shared memory, or disk.
#[derive(Debug, Clone, Copy, PartialEq, Eq, Structural)]
pub enum CacheTier {
    L1,
    L2,
    L3,
}

/// Hits and misses per tier, writes and evictions.
#[derive(Debug, Clone, Copy)]
pub struct CacheStats {
    pub l1_hits: u64,
    pub l1_misses: u64,
    pub l2_hits: u64,
    pub l2_misses: u64,
    pub l3_hits: u64,
    pub l3_misses: u64,
    pub total_writes: u64,
    pub total_evictions: u64,
}

impl CacheStats {
    /// All counts at zero.
    pub fn new() -> (s: CacheStats)
        ensures
            s == (CacheStats {
                l1_hits: 0,
                l1_misses: 0,
                l2_hits: 0,
                l2_misses: 0,
                l3_hits: 0,
                l3_misses: 0,
                total_writes: 0,
                total_evictions: 0,
            }),
    {
        CacheStats {
            l1_hits: 0,
            l1_misses: 0,
            l2_hits: 0,
            l2_misses: 0,
            l3_hits: 0,
            l3_misses: 0,
            total_writes: 0,
            total_evictions: 0,
        }
    }

    /// Sets every count back to zero.
    pub fn reset(&mut self)
        ensures
            *final(self) == CacheStats::new_spec(),
    {
        *self = CacheStats::new();
    }

    /// The counts all at zero.
    pub open spec fn new_spec() -> CacheStats {
        CacheStats {
            l1_hits: 0,
            l1_misses: 0,
            l2_hits: 0,
            l2_misses: 0,
            l3_hits: 0,
            l3_misses: 0,
            total_writes: 0,
            total_evictions: 0,
        }
    }

    /// The hits and misses counted at a tier.
    pub fn tier_counts(&self, tier: CacheTier) -> (r: (u64, u64))
        ensures
            r == match tier {
                CacheTier::L1 => (self.l1_hits, self.l1_misses),
                CacheTier::L2 => (self.l2_hits, self.l2_misses),
                CacheTier::L3 => (self.l3_hits, self.l3_misses),
            },
    {
        match tier {
            CacheTier::L1 => (self.l1_hits, self.l1_misses),
            CacheTier::L2 => (self.l2_hits, self.l2_misses),
            CacheTier::L3 => (self.l3_hits, self.l3_misses),
        }
    }

    /// Counts a hit or a miss at a tier; counts stop at their largest value.
    pub fn record(&mut self, tier: CacheTier, hit: bool)
        ensures
            ({
                let o = *old(self);
                let bump = |x: u64| if x < u64::MAX { (x + 1) as u64 } else { x };
                *final(self) == match (tier, hit) {
                    (CacheTier::L1, true) => CacheStats { l1_hits: bump(o.l1_hits), ..o },
                    (CacheTier::L1, false) => CacheStats { l1_misses: bump(o.l1_misses), ..o },
                    (CacheTier::L2, true) => CacheStats { l2_hits: bump(o.l2_hits), ..o },
                    (CacheTier::L2, false) => CacheStats { l2_misses: bump(o.l2_misses), ..o },
                    (CacheTier::L3, true) => CacheStats { l3_hits: bump(o.l3_hits), ..o },
                    (CacheTier::L3, false) => CacheStats { l3_misses: bump(o.l3_misses), ..o },
                }
            }),
    {
        match (tier, hit) {
            (CacheTier::L1, true) => self.l1_hits = self.l1_hits.saturating_add(1),
            (CacheTier::L1, false) => self.l1_misses = self.l1_misses.saturating_add(1),
            (CacheTier::L2, true) => self.l2_hits = self.l2_hits.saturating_add(1),
            (CacheTier::L2, false) => self.l2_misses = self.l2_misses.saturating_add(1),
            (CacheTier::L3, true) => self.l3_hits = self.l3_hits.saturating_add(1),
            (CacheTier::L3, false) => self.l3_misses = self.l3_misses.saturating_add(1),
        }
    }
}

/// The disk tier: files in a directory, at most `max_files` of them.
#[derive(Debug, Clone)]
pub struct FileCache {
    cache_dir: String,
    max_files: usize,
}

/// The lowercase hex text of the MD5 digest of the bytes.
pub uninterp spec fn md5_hex_text(bytes: Seq<u8>) -> Seq<char>;

/// The MD5 digest of the bytes in lowercase hex: `md5::compute` written
/// with `{:x}`: 16 bytes, 32 hex digits.
#[verifier::external_body]
fn md5_hex(bytes: &[u8]) -> (r: String)
    ensures
        r@ == md5_hex_text(bytes@),
        r@.len() == 32,
{
    format!("{:x}", md5::compute(bytes))
}

impl FileCache {
    /// A file tier in the directory (which the caller creates).
    pub fn new(cache_dir: String, max_files: usize) -> (c: FileCache)
        ensures
            c.dir()@ == cache_dir@,
            c.max_files() == max_files,
    {
        FileCache { cache_dir, max_files }
    }

    /// The directory of the files.
    pub closed spec fn dir(&self) -> String {
        self.cache_dir
    }

    /// The directory of the files.
    pub fn cache_dir(&self) -> (r: &String)
        ensures
            r@ == self.dir()@,
    {
        &self.cache_dir
    }

    /// The most files the tier keeps.
    pub closed spec fn max_files(&self) -> usize {
        self.max_files
    }

    /// The most files the tier keeps.
    pub fn max_file_count(&self) -> (r: usize)
        ensures
            r == self.max_files(),
    {
        self.max_files
    }

    /// The name of the file a key is stored in: the MD5 digest of the key
    /// in hex.
    pub fn file_name(&self, key: &str) -> (r: String)
        ensures
            r@ == md5_hex_text(vstd::utf8::encode_utf8(key@)),
    {
        md5_hex(key.as_bytes())
    }
}

} // verus!
