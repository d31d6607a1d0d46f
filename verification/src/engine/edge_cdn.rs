//! The edge CDN: providers and settings, the content cached at the edge
//! with its expiry, purge requests, and the counters of hits, misses and
//! purges. Times are milliseconds since the Unix epoch.

use vstd::prelude::*;
use crate::text::str_eq;
use crate::error::AetherisError;
use crate::runtime::{new_uuid, now_millis};
use crate::governance::classification::{keyed, key_pos, distinct_keys, put_keyed, find_keyed, put_keyed_exec};
use crate::governance::masking::{sha256_hex, sha256_hex_text};

verus! {

/// Who serves the content at the edge.
#[derive(Debug, Clone)]
pub enum CdnProvider {
    Cloudflare,
    Akamai,
    Fastly,
    AwsCloudFront,
    AzureCdn,
    Custom(String),
}

/// Two providers are the same, custom ones by name.
pub open spec fn same_provider(a: CdnProvider, b: CdnProvider) -> bool {
    match (a, b) {
        (CdnProvider::Custom(x), CdnProvider::Custom(y)) => x@ == y@,
        (CdnProvider::Cloudflare, CdnProvider::Cloudflare) => true,
        (CdnProvider::Akamai, CdnProvider::Akamai) => true,
        (CdnProvider::Fastly, CdnProvider::Fastly) => true,
        (CdnProvider::AwsCloudFront, CdnProvider::AwsCloudFront) => true,
        (CdnProvider::AzureCdn, CdnProvider::AzureCdn) => true,
        _ => false,
    }
}

impl PartialEq for CdnProvider {
    fn eq(&self, other: &Self) -> (r: bool) {
        match (self, other) {
            (CdnProvider::Custom(x), CdnProvider::Custom(y)) => str_eq(x.as_str(), y.as_str()),
            (CdnProvider::Cloudflare, CdnProvider::Cloudflare) => true,
            (CdnProvider::Akamai, CdnProvider::Akamai) => true,
            (CdnProvider::Fastly, CdnProvider::Fastly) => true,
            (CdnProvider::AwsCloudFront, CdnProvider::AwsCloudFront) => true,
            (CdnProvider::AzureCdn, CdnProvider::AzureCdn) => true,
            _ => false,
        }
    }
}

impl vstd::std_specs::cmp::PartialEqSpecImpl for CdnProvider {
    open spec fn obeys_eq_spec() -> bool {
        true
    }

    open spec fn eq_spec(&self, other: &Self) -> bool {
        same_provider(*self, *other)
    }
}

/// How the CDN is reached and how long it caches.
#[derive(Debug, Clone)]
pub struct CdnConfig {
    pub provider: CdnProvider,
    pub api_key: Option<String>,
    pub api_secret: Option<String>,
    pub endpoint: Option<String>,
    pub zone_id: Option<String>,
    pub distribution_id: Option<String>,
    pub cache_ttl_seconds: u64,
    pub enabled: bool,
    pub purge_on_update: bool,
}

impl CdnConfig {
    /// Cloudflare, no credentials, a day of caching, off, purging on update.
    pub fn default() -> (c: CdnConfig)
        ensures
            c.provider is Cloudflare,
            c.api_key is None,
            c.api_secret is None,
            c.endpoint is None,
            c.zone_id is None,
            c.distribution_id is None,
            c.cache_ttl_seconds == 86400,
            !c.enabled,
            c.purge_on_update,
    {
        CdnConfig {
            provider: CdnProvider::Cloudflare,
            api_key: None,
            api_secret: None,
            endpoint: None,
            zone_id: None,
            distribution_id: None,
            cache_ttl_seconds: 86400,
            enabled: false,
            purge_on_update: true,
        }
    }
}

/// Where a purge request stands.
#[derive(Debug, Clone, Copy, PartialEq, Eq, Structural)]
pub enum PurgeStatus {
    Pending,
    InProgress,
    Completed,
    Failed,
}


/// Content held at the edge. Times are milliseconds since the Unix epoch.
#[derive(Debug, Clone)]
pub struct CachedContent {
    pub content_id: String,
    pub content_type: String,
    pub content_hash: String,
    pub size_bytes: u64,
    pub cached_at: i64,
    pub expires_at: i64,
    pub etag: String,
    pub last_modified: i64,
    pub cache_hits: u64,
    pub cache_misses: u64,
    pub origin_url: Option<String>,
    pub cdn_url: Option<String>,
    pub provider: CdnProvider,
}

/// A request to drop content from the edge: given ids, patterns, or all.
#[derive(Debug, Clone)]
pub struct CachePurgeRequest {
    pub purge_id: String,
    pub content_ids: Vec<String>,
    pub patterns: Vec<String>,
    pub purge_all: bool,
    pub requested_at: i64,
    pub status: PurgeStatus,
    pub completed_at: Option<i64>,
}

/// Counters of the edge cache.
#[derive(Debug, Clone, Copy)]
pub struct CdnStats {
    pub total_cache_hits: u64,
    pub total_cache_misses: u64,
    pub total_bytes_served: u64,
    pub total_bytes_origin: u64,
    pub bandwidth_saved_bytes: u64,
    pub active_cached_items: usize,
    pub total_purges: u64,
    pub successful_purges: u64,
    pub failed_purges: u64,
    pub avg_latency_ms: u64,
    pub peak_requests_per_second: u64,
}

/// The model of an edge CDN manager: its settings, its content and its
/// purge requests by id, and its counters.
pub struct CdnModel {
    pub config: CdnConfig,
    pub cache: Seq<(Seq<char>, CachedContent)>,
    pub purges: Seq<(Seq<char>, CachePurgeRequest)>,
    pub stats: CdnStats,
}

/// Content cached at the edge, purge requests and counters.
#[derive(Debug)]
pub struct EdgeCdnManager {
    config: CdnConfig,
    cache: Vec<(String, CachedContent)>,
    purge_requests: Vec<(String, CachePurgeRequest)>,
    stats: CdnStats,
}

impl View for EdgeCdnManager {
    type V = CdnModel;

    closed spec fn view(&self) -> CdnModel {
        CdnModel {
            config: self.config,
            cache: keyed(self.cache@),
            purges: keyed(self.purge_requests@),
            stats: self.stats,
        }
    }
}

/// Counters that are all zero.
pub open spec fn zero_stats(s: CdnStats) -> bool {
    &&& s.total_cache_hits == 0
    &&& s.total_cache_misses == 0
    &&& s.total_bytes_served == 0
    &&& s.total_bytes_origin == 0
    &&& s.bandwidth_saved_bytes == 0
    &&& s.active_cached_items == 0
    &&& s.total_purges == 0
    &&& s.successful_purges == 0
    &&& s.failed_purges == 0
    &&& s.avg_latency_ms == 0
    &&& s.peak_requests_per_second == 0
}

/// The CDN address of a content id: the endpoint, a slash and the id.
pub open spec fn cdn_url_of(endpoint: Option<String>, id: Seq<char>) -> Option<Seq<char>> {
    match endpoint {
        Some(e) => Some(e@ + "/"@ + id),
        None => None,
    }
}

/// A purge request as recorded once carried out: completed, and stamped.
pub open spec fn completed(before: CachePurgeRequest, after: CachePurgeRequest) -> bool {
    &&& after.purge_id == before.purge_id
    &&& after.content_ids@ == before.content_ids@
    &&& after.patterns@ == before.patterns@
    &&& after.purge_all == before.purge_all
    &&& after.requested_at == before.requested_at
    &&& after.status == PurgeStatus::Completed
    &&& after.completed_at is Some
}

/// Counters after a purge: one more, successful.
pub open spec fn purge_counted(before: CdnStats, after: CdnStats) -> bool {
    after == (CdnStats {
        total_purges: (before.total_purges + 1) as u64,
        successful_purges: (before.successful_purges + 1) as u64,
        ..before
    })
}

/// Position i of the content holds something newer than position j: it
/// was cached later, or at the same time and i is earlier.
pub open spec fn newer_first(cs: Seq<CachedContent>, i: int, j: int) -> bool {
    cs[i].cached_at > cs[j].cached_at || (cs[i].cached_at == cs[j].cached_at && i < j)
}

/// r is the newest `limit` of the content cs, taken from its positions idx:
/// as many as there are up to the limit, newest first, and every content
/// left out is older than all of them.
pub open spec fn newest(cs: Seq<CachedContent>, limit: Option<usize>, r: Seq<&CachedContent>, idx: Seq<int>) -> bool {
    &&& r.len() == (match limit {
        Some(l) => if (l as int) < cs.len() { l as int } else { cs.len() as int },
        None => cs.len() as int,
    })
    &&& idx.len() == r.len()
    &&& forall|k: int| 0 <= k < idx.len() ==> 0 <= #[trigger] idx[k] < cs.len() && *r[k] == cs[idx[k]]
    &&& forall|k: int, l: int| 0 <= k < l < idx.len() ==> newer_first(cs, #[trigger] idx[k], #[trigger] idx[l])
    &&& forall|i: int, k: int| 0 <= i < cs.len() && !idx.contains(i) && 0 <= k < idx.len()
        ==> #[trigger] newer_first(cs, idx[k], i)
}

/// The values of keyed entries.
pub open spec fn values_of<T>(s: Seq<(Seq<char>, T)>) -> Seq<T> {
    s.map_values(|e: (Seq<char>, T)| e.1)
}

/// Sorts positions of content newest first, stably.
fn newest_order(cs: &Vec<(String, CachedContent)>) -> (order: Vec<usize>)
    ensures
        order@.len() == cs@.len(),
        forall|m: int| 0 <= m < order@.len() ==> #[trigger] order@[m] < cs@.len(),
        forall|j: int| 0 <= j < cs@.len() ==> #[trigger] crate::config::template_library::holds_position(order@, j),
        forall|a: int, b: int| 0 <= a < b < order@.len()
            ==> newer_first(values_of(keyed(cs@)), #[trigger] order@[a] as int, #[trigger] order@[b] as int),
{
    let ghost s = values_of(keyed(cs@));
    let mut order: Vec<usize> = Vec::new();
    let mut i: usize = 0;
    while i < cs.len()
        invariant
            i <= cs@.len(),
            s == values_of(keyed(cs@)),
            s.len() == cs@.len(),
            order@.len() == i,
            forall|m: int| 0 <= m < order@.len() ==> #[trigger] order@[m] < i,
            forall|j: int| 0 <= j < i ==> #[trigger] crate::config::template_library::holds_position(order@, j),
            forall|a: int, b: int| 0 <= a < b < order@.len() ==> newer_first(s, #[trigger] order@[a] as int, #[trigger] order@[b] as int),
        decreases cs@.len() - i,
    {
        let t = cs[i].1.cached_at;
        assert(s[i as int].cached_at == t);
        let mut k: usize = 0;
        while k < order.len()
            invariant
                i < cs@.len(),
                s == values_of(keyed(cs@)),
                s.len() == cs@.len(),
                s[i as int].cached_at == t,
                k <= order@.len(),
                forall|m: int| 0 <= m < order@.len() ==> #[trigger] order@[m] < i,
                forall|m: int| 0 <= m < k ==> !(t > s[#[trigger] order@[m] as int].cached_at),
            ensures
                k <= order@.len(),
                forall|m: int| 0 <= m < k ==> !(t > s[#[trigger] order@[m] as int].cached_at),
                k < order@.len() ==> t > s[order@[k as int] as int].cached_at,
            decreases order@.len() - k,
        {
            let o = order[k];
            assert(s[o as int].cached_at == cs@[o as int].1.cached_at);
            if t > cs[o].1.cached_at {
                break;
            }
            k = k + 1;
        }
        let ghost old_order = order@;
        order.insert(k, i);
        proof {
            old_order.insert_ensures(k as int, i);
            assert(order@ == old_order.insert(k as int, i));
            assert forall|m: int| 0 <= m < order@.len() implies #[trigger] order@[m] < i + 1 by {
                if m > k {
                    assert(order@[m] == old_order[m - 1]);
                }
            }
            assert forall|j: int| 0 <= j < i + 1 implies #[trigger] crate::config::template_library::holds_position(order@, j) by {
                if j == i {
                    assert(order@[k as int] == j);
                } else {
                    assert(crate::config::template_library::holds_position(old_order, j));
                    let m0 = choose|m: int| 0 <= m < old_order.len() && #[trigger] old_order[m] == j;
                    if m0 < k {
                        assert(order@[m0] == j);
                    } else {
                        assert(order@[m0 + 1] == j);
                    }
                }
            }
            assert forall|a: int, b: int| 0 <= a < b < order@.len() implies newer_first(s, #[trigger] order@[a] as int, #[trigger] order@[b] as int) by {
                if b < k {
                    assert(newer_first(s, old_order[a] as int, old_order[b] as int));
                } else if b == k {
                    assert(!(t > s[old_order[a] as int].cached_at));
                    assert(old_order[a] < i);
                } else if a < k {
                    assert(newer_first(s, old_order[a] as int, old_order[b - 1] as int));
                } else if a == k {
                    if b - 1 > k {
                        assert(newer_first(s, old_order[k as int] as int, old_order[b - 1] as int));
                    }
                } else {
                    assert(newer_first(s, old_order[a - 1] as int, old_order[b - 1] as int));
                }
            }
        }
        i = i + 1;
    }
    order
}

/// Content can be looked up in the state without a counter overflowing.
pub open spec fn lookup_fits(m: CdnModel, content_id: Seq<char>) -> bool {
    match key_pos(m.cache, content_id) {
        Some(p) => {
            let c = m.cache[p].1;
            &&& c.cache_hits < u64::MAX
            &&& c.cache_misses < u64::MAX
            &&& m.stats.total_cache_hits < u64::MAX
            &&& m.stats.total_cache_misses < u64::MAX
            &&& m.stats.total_bytes_served + c.size_bytes <= u64::MAX
            &&& m.stats.bandwidth_saved_bytes + c.size_bytes <= u64::MAX
        },
        None => true,
    }
}

/// A lookup of content at time `now`, from state `m` to state `m2` with
/// result `r`: with the CDN off, or no such content, nothing changes and
/// nothing is found. Content that expires after `now` is a hit: its hits
/// and the bytes served and saved are counted, and a copy given. Content
/// expired by `now` is a miss: counted, and dropped.
pub open spec fn lookup_at(
    m: CdnModel,
    content_id: Seq<char>,
    now: i64,
    r: Result<Option<CachedContent>, AetherisError>,
    m2: CdnModel,
) -> bool {
    if !m.config.enabled {
        r == Ok::<Option<CachedContent>, AetherisError>(None) && m2 == m
    } else {
        match key_pos(m.cache, content_id) {
            None => r == Ok::<Option<CachedContent>, AetherisError>(None) && m2 == m,
            Some(p) => {
                let c = m.cache[p].1;
                if c.expires_at > now {
                    let hit = CachedContent { cache_hits: (c.cache_hits + 1) as u64, ..c };
                    &&& r == Ok::<Option<CachedContent>, AetherisError>(Some(hit))
                    &&& m2 == (CdnModel {
                        cache: m.cache.update(p, (content_id, hit)),
                        stats: CdnStats {
                            total_cache_hits: (m.stats.total_cache_hits + 1) as u64,
                            total_bytes_served: (m.stats.total_bytes_served + c.size_bytes) as u64,
                            bandwidth_saved_bytes: (m.stats.bandwidth_saved_bytes + c.size_bytes) as u64,
                            ..m.stats
                        },
                        ..m
                    })
                } else {
                    &&& r == Ok::<Option<CachedContent>, AetherisError>(None)
                    &&& m2 == (CdnModel {
                        cache: m.cache.remove(p),
                        stats: CdnStats { total_cache_misses: (m.stats.total_cache_misses + 1) as u64, ..m.stats },
                        ..m
                    })
                }
            },
        }
    }
}

impl EdgeCdnManager {
    /// Ids are distinct among the content and among the purge requests.
    pub open spec fn wf(&self) -> bool {
        &&& distinct_keys(self@.cache)
        &&& distinct_keys(self@.purges)
    }

    /// A manager with the given settings, no content, no purge requests and
    /// zero counters.
    pub fn new(config: CdnConfig) -> (m: EdgeCdnManager)
        ensures
            m.wf(),
            m@.config == config,
            m@.cache.len() == 0,
            m@.purges.len() == 0,
            zero_stats(m@.stats),
    {
        EdgeCdnManager {
            config,
            cache: Vec::new(),
            purge_requests: Vec::new(),
            stats: CdnStats {
                total_cache_hits: 0,
                total_cache_misses: 0,
                total_bytes_served: 0,
                total_bytes_origin: 0,
                bandwidth_saved_bytes: 0,
                active_cached_items: 0,
                total_purges: 0,
                successful_purges: 0,
                failed_purges: 0,
                avg_latency_ms: 0,
                peak_requests_per_second: 0,
            },
        }
    }

    /// A manager with the default settings.
    pub fn default() -> (m: EdgeCdnManager)
        ensures
            m.wf(),
            m@.config.cache_ttl_seconds == 86400,
            !m@.config.enabled,
            m@.cache.len() == 0,
            m@.purges.len() == 0,
            zero_stats(m@.stats),
    {
        EdgeCdnManager::new(CdnConfig::default())
    }

    /// Whether the CDN is on.
    pub fn is_enabled(&self) -> (r: bool)
        ensures
            r == self@.config.enabled,
    {
        self.config.enabled
    }

    /// The SHA-256 digest of the data in lowercase hex.
    pub fn compute_hash(data: &[u8]) -> (r: String)
        ensures
            r@ == sha256_hex_text(data@),
    {
        sha256_hex(data)
    }

    fn generate_cdn_url(&self, content_id: &str) -> (r: Option<String>)
        ensures
            match r {
                Some(u) => cdn_url_of(self@.config.endpoint, content_id@) == Some(u@),
                None => cdn_url_of(self@.config.endpoint, content_id@) is None,
            },
    {
        match &self.config.endpoint {
            Some(e) => {
                let mut u = e.clone();
                u.append("/");
                u.append(content_id);
                Some(u)
            },
            None => None,
        }
    }

    /// Caches content at the edge, replacing content with its id: its
    /// SHA-256 as hash and (quoted) etag, its size, its CDN address, and an
    /// expiry the configured time-to-live after now. Refused when the CDN
    /// is off.
    pub fn cache_content(
        &mut self,
        content_id: String,
        content_type: String,
        content_data: Vec<u8>,
        origin_url: Option<String>,
    ) -> (r: Result<CachedContent, AetherisError>)
        requires
            old(self).wf(),
            old(self)@.config.cache_ttl_seconds <= 1_000_000_000_000,
        ensures
            final(self).wf(),
            !old(self)@.config.enabled ==> (r matches Err(AetherisError::Cdn(m)) && m@ == "CDN is not enabled"@
                && final(self)@ == old(self)@),
            old(self)@.config.enabled ==> (r matches Ok(c) && ({
                &&& c.content_id@ == content_id@
                &&& c.content_type@ == content_type@
                &&& c.content_hash@ == sha256_hex_text(content_data@)
                &&& c.etag@ == "\""@ + sha256_hex_text(content_data@) + "\""@
                &&& c.size_bytes == content_data@.len()
                &&& c.last_modified == c.cached_at
                &&& c.cached_at <= i64::MAX - old(self)@.config.cache_ttl_seconds * 1000
                    ==> c.expires_at == c.cached_at + old(self)@.config.cache_ttl_seconds * 1000
                &&& c.cache_hits == 0
                &&& c.cache_misses == 0
                &&& c.origin_url == origin_url
                &&& opt_view(c.cdn_url) == cdn_url_of(old(self)@.config.endpoint, content_id@)
                &&& c.provider == old(self)@.config.provider
                &&& final(self)@.cache == put_keyed(old(self)@.cache, content_id@, c)
                &&& final(self)@.stats == (CdnStats { active_cached_items: final(self)@.cache.len() as usize, ..old(self)@.stats })
                &&& final(self)@.config == old(self)@.config
                &&& final(self)@.purges == old(self)@.purges
            })),
    {
        if !self.config.enabled {
            return Err(AetherisError::Cdn(String::from_str("CDN is not enabled")));
        }
        let content_hash = sha256_hex(content_data.as_slice());
        let now = now_millis();
        let ttl_ms: i64 = (self.config.cache_ttl_seconds as i64) * 1000;
        let expires_at = match now.checked_add(ttl_ms) {
            Some(t) => t,
            None => i64::MAX,
        };
        let mut etag = String::from_str("\"");
        etag.append(content_hash.as_str());
        etag.append("\"");
        let cached = CachedContent {
            content_id: content_id.clone(),
            content_type,
            content_hash,
            size_bytes: content_data.len() as u64,
            cached_at: now,
            expires_at,
            etag,
            last_modified: now,
            cache_hits: 0,
            cache_misses: 0,
            origin_url,
            cdn_url: self.generate_cdn_url(content_id.as_str()),
            provider: self.config.provider.duplicate(),
        };
        let copy = cached.duplicate();
        put_keyed_exec(&mut self.cache, content_id, cached);
        self.stats.active_cached_items = self.cache.len();
        Ok(copy)
    }
}

/// Two purge requests hold the same.
pub open spec fn same_request(a: CachePurgeRequest, b: CachePurgeRequest) -> bool {
    &&& a.purge_id == b.purge_id
    &&& a.content_ids@ == b.content_ids@
    &&& a.patterns@ == b.patterns@
    &&& a.purge_all == b.purge_all
    &&& a.requested_at == b.requested_at
    &&& a.status == b.status
    &&& a.completed_at == b.completed_at
}

/// The text of an optional string.
pub open spec fn opt_view(o: Option<String>) -> Option<Seq<char>> {
    match o {
        Some(s) => Some(s@),
        None => None,
    }
}

impl CdnProvider {
    /// A copy of the provider.
    pub fn duplicate(&self) -> (r: CdnProvider)
        ensures
            r == *self,
    {
        match self {
            CdnProvider::Cloudflare => CdnProvider::Cloudflare,
            CdnProvider::Akamai => CdnProvider::Akamai,
            CdnProvider::Fastly => CdnProvider::Fastly,
            CdnProvider::AwsCloudFront => CdnProvider::AwsCloudFront,
            CdnProvider::AzureCdn => CdnProvider::AzureCdn,
            CdnProvider::Custom(s) => CdnProvider::Custom(s.clone()),
        }
    }
}

fn copy_text(o: &Option<String>) -> (r: Option<String>)
    ensures
        r == *o,
{
    match o {
        Some(s) => Some(s.clone()),
        None => None,
    }
}

impl CachedContent {
    /// A copy of the content's record.
    pub fn duplicate(&self) -> (r: CachedContent)
        ensures
            r == *self,
    {
        CachedContent {
            content_id: self.content_id.clone(),
            content_type: self.content_type.clone(),
            content_hash: self.content_hash.clone(),
            size_bytes: self.size_bytes,
            cached_at: self.cached_at,
            expires_at: self.expires_at,
            etag: self.etag.clone(),
            last_modified: self.last_modified,
            cache_hits: self.cache_hits,
            cache_misses: self.cache_misses,
            origin_url: copy_text(&self.origin_url),
            cdn_url: copy_text(&self.cdn_url),
            provider: self.provider.duplicate(),
        }
    }
}

impl CachePurgeRequest {
    /// A copy of the request.
    pub fn duplicate(&self) -> (r: CachePurgeRequest)
        ensures
            same_request(r, *self),
    {
        CachePurgeRequest {
            purge_id: self.purge_id.clone(),
            content_ids: crate::engine::types::clone_strings(&self.content_ids),
            patterns: crate::engine::types::clone_strings(&self.patterns),
            purge_all: self.purge_all,
            requested_at: self.requested_at,
            status: self.status,
            completed_at: self.completed_at,
        }
    }
}

impl EdgeCdnManager {
    /// Records a purge request, carries it out (the providers are told
    /// nothing more), stores it completed and counts it; gives it back as
    /// it was requested.
    fn run_purge(&mut self, request: CachePurgeRequest) -> (r: CachePurgeRequest)
        requires
            old(self).wf(),
            old(self)@.stats.total_purges < u64::MAX,
            old(self)@.stats.successful_purges < u64::MAX,
        ensures
            final(self).wf(),
            same_request(r, request),
            exists|done: CachePurgeRequest| completed(request, done)
                && #[trigger] put_keyed(old(self)@.purges, request.purge_id@, done) == final(self)@.purges,
            purge_counted(old(self)@.stats, final(self)@.stats),
            final(self)@.cache == old(self)@.cache,
            final(self)@.config == old(self)@.config,
    {
        let copy = request.duplicate();
        let mut done = request.duplicate();
        done.status = PurgeStatus::InProgress;
        done.status = PurgeStatus::Completed;
        done.completed_at = Some(now_millis());
        let ghost g = done;
        let id = done.purge_id.clone();
        put_keyed_exec(&mut self.purge_requests, id, done);
        assert(completed(request, g));
        self.stats.total_purges = self.stats.total_purges + 1;
        self.stats.successful_purges = self.stats.successful_purges + 1;
        copy
    }

    /// Asks the edge to drop content by id: the request is recorded,
    /// carried out and counted, and given back as requested. The cached
    /// content itself stays. Refused when the CDN is off.
    pub fn purge_content(&mut self, content_ids: Vec<String>) -> (r: Result<CachePurgeRequest, AetherisError>)
        requires
            old(self).wf(),
            old(self)@.stats.total_purges < u64::MAX,
            old(self)@.stats.successful_purges < u64::MAX,
        ensures
            final(self).wf(),
            !old(self)@.config.enabled ==> (r matches Err(AetherisError::Cdn(m)) && m@ == "CDN is not enabled"@
                && final(self)@ == old(self)@),
            old(self)@.config.enabled ==> (r matches Ok(p) && ({
                &&& p.content_ids@ == content_ids@
                &&& p.patterns@.len() == 0
                &&& !p.purge_all
                &&& p.status == PurgeStatus::Pending
                &&& p.completed_at is None
                &&& p.purge_id@.len() == 36
                &&& exists|done: CachePurgeRequest| completed(p, done)
                    && #[trigger] put_keyed(old(self)@.purges, p.purge_id@, done) == final(self)@.purges
                &&& purge_counted(old(self)@.stats, final(self)@.stats)
                &&& final(self)@.cache == old(self)@.cache
                &&& final(self)@.config == old(self)@.config
            })),
    {
        if !self.config.enabled {
            return Err(AetherisError::Cdn(String::from_str("CDN is not enabled")));
        }
        let request = CachePurgeRequest {
            purge_id: new_uuid(),
            content_ids,
            patterns: Vec::new(),
            purge_all: false,
            requested_at: now_millis(),
            status: PurgeStatus::Pending,
            completed_at: None,
        };
        Ok(self.run_purge(request))
    }

    /// Asks the edge to drop content matching patterns: the request is
    /// recorded, carried out and counted, and given back as requested. The
    /// cached content itself stays. Refused when the CDN is off.
    pub fn purge_by_pattern(&mut self, patterns: Vec<String>) -> (r: Result<CachePurgeRequest, AetherisError>)
        requires
            old(self).wf(),
            old(self)@.stats.total_purges < u64::MAX,
            old(self)@.stats.successful_purges < u64::MAX,
        ensures
            final(self).wf(),
            !old(self)@.config.enabled ==> (r matches Err(AetherisError::Cdn(m)) && m@ == "CDN is not enabled"@
                && final(self)@ == old(self)@),
            old(self)@.config.enabled ==> (r matches Ok(p) && ({
                &&& p.content_ids@.len() == 0
                &&& p.patterns@ == patterns@
                &&& !p.purge_all
                &&& p.status == PurgeStatus::Pending
                &&& p.completed_at is None
                &&& p.purge_id@.len() == 36
                &&& exists|done: CachePurgeRequest| completed(p, done)
                    && #[trigger] put_keyed(old(self)@.purges, p.purge_id@, done) == final(self)@.purges
                &&& purge_counted(old(self)@.stats, final(self)@.stats)
                &&& final(self)@.cache == old(self)@.cache
                &&& final(self)@.config == old(self)@.config
            })),
    {
        if !self.config.enabled {
            return Err(AetherisError::Cdn(String::from_str("CDN is not enabled")));
        }
        let request = CachePurgeRequest {
            purge_id: new_uuid(),
            content_ids: Vec::new(),
            patterns,
            purge_all: false,
            requested_at: now_millis(),
            status: PurgeStatus::Pending,
            completed_at: None,
        };
        Ok(self.run_purge(request))
    }

    /// Drops all cached content: the request is recorded, carried out and
    /// counted, the cache emptied, and the request given back as
    /// requested. Refused when the CDN is off.
    pub fn purge_all(&mut self) -> (r: Result<CachePurgeRequest, AetherisError>)
        requires
            old(self).wf(),
            old(self)@.stats.total_purges < u64::MAX,
            old(self)@.stats.successful_purges < u64::MAX,
        ensures
            final(self).wf(),
            !old(self)@.config.enabled ==> (r matches Err(AetherisError::Cdn(m)) && m@ == "CDN is not enabled"@
                && final(self)@ == old(self)@),
            old(self)@.config.enabled ==> (r matches Ok(p) && ({
                &&& p.content_ids@.len() == 0
                &&& p.patterns@.len() == 0
                &&& p.purge_all
                &&& p.status == PurgeStatus::Pending
                &&& p.completed_at is None
                &&& p.purge_id@.len() == 36
                &&& exists|done: CachePurgeRequest| completed(p, done)
                    && #[trigger] put_keyed(old(self)@.purges, p.purge_id@, done) == final(self)@.purges
                &&& purge_counted(old(self)@.stats, final(self)@.stats)
                &&& final(self)@.cache.len() == 0
                &&& final(self)@.config == old(self)@.config
            })),
    {
        if !self.config.enabled {
            return Err(AetherisError::Cdn(String::from_str("CDN is not enabled")));
        }
        let request = CachePurgeRequest {
            purge_id: new_uuid(),
            content_ids: Vec::new(),
            patterns: Vec::new(),
            purge_all: true,
            requested_at: now_millis(),
            status: PurgeStatus::Pending,
            completed_at: None,
        };
        let r = self.run_purge(request);
        self.cache = Vec::new();
        assert(self@.cache =~= Seq::<(Seq<char>, CachedContent)>::empty());
        Ok(r)
    }

    /// Looks content up at the edge at time `now` (milliseconds since the
    /// epoch), when the CDN is on: content expiring after `now` is a hit,
    /// expired content a miss, as `lookup_at` says.
    pub fn get_content_at(&mut self, content_id: &str, now: i64) -> (r: Result<Option<CachedContent>, AetherisError>)
        requires
            old(self).wf(),
            lookup_fits(old(self)@, content_id@),
        ensures
            final(self).wf(),
            lookup_at(old(self)@, content_id@, now, r, final(self)@),
    {
        if !self.config.enabled {
            return Ok(None);
        }
        let ghost m = self@;
        match find_keyed(&self.cache, content_id) {
            None => Ok(None),
            Some(p) => {
                let (k, mut c) = self.cache.remove(p);
                if c.expires_at > now {
                    c.cache_hits = c.cache_hits + 1;
                    let copy = c.duplicate();
                    let size = c.size_bytes;
                    self.cache.insert(p, (k, c));
                    self.stats.total_cache_hits = self.stats.total_cache_hits + 1;
                    self.stats.total_bytes_served = self.stats.total_bytes_served + size;
                    self.stats.bandwidth_saved_bytes = self.stats.bandwidth_saved_bytes + size;
                    proof {
                        assert(self@.cache =~= m.cache.update(p as int, (content_id@, copy)));
                        assert forall|a: int, b: int| 0 <= a < b < self@.cache.len() implies #[trigger] self@.cache[a].0
                            != #[trigger] self@.cache[b].0 by {
                            assert(m.cache[a].0 != m.cache[b].0);
                        }
                    }
                    Ok(Some(copy))
                } else {
                    self.stats.total_cache_misses = self.stats.total_cache_misses + 1;
                    proof {
                        assert(self@.cache =~= m.cache.remove(p as int));
                        assert forall|a: int, b: int| 0 <= a < b < self@.cache.len() implies #[trigger] self@.cache[a].0
                            != #[trigger] self@.cache[b].0 by {
                            if b < p {
                                assert(m.cache[a].0 != m.cache[b].0);
                            } else if a < p {
                                assert(m.cache[a].0 != m.cache[b + 1].0);
                            } else {
                                assert(m.cache[a + 1].0 != m.cache[b + 1].0);
                            }
                        }
                    }
                    Ok(None)
                }
            },
        }
    }

    /// Looks content up at the edge now, by the system clock: the outcome
    /// is `get_content_at`'s for the time the clock gave.
    pub fn get_content(&mut self, content_id: &str) -> (r: Result<Option<CachedContent>, AetherisError>)
        requires
            old(self).wf(),
            lookup_fits(old(self)@, content_id@),
        ensures
            final(self).wf(),
            exists|now: i64| lookup_at(old(self)@, content_id@, now, r, final(self)@),
    {
        let now = now_millis();
        self.get_content_at(content_id, now)
    }

    /// The purge request with the given id.
    pub fn get_purge_status(&self, purge_id: &str) -> (r: Option<&CachePurgeRequest>)
        requires
            self.wf(),
        ensures
            match key_pos(self@.purges, purge_id@) {
                Some(p) => r == Some(&self@.purges[p].1),
                None => r is None,
            },
    {
        match find_keyed(&self.purge_requests, purge_id) {
            Some(i) => Some(&self.purge_requests[i].1),
            None => None,
        }
    }

    /// The counters.
    pub fn get_stats(&self) -> (s: CdnStats)
        ensures
            s == self@.stats,
    {
        self.stats
    }

    /// How many pieces of content are cached.
    pub fn get_cached_content_count(&self) -> (n: usize)
        ensures
            n == self@.cache.len(),
    {
        self.cache.len()
    }

    /// The cached content, newest first (content cached at the same time in
    /// the order it was first cached), at most `limit` of it.
    pub fn list_cached_content(&self, limit: Option<usize>) -> (r: Vec<&CachedContent>)
        ensures
            exists|idx: Seq<int>| newest(values_of(self@.cache), limit, r@, idx),
    {
        let ghost s = values_of(self@.cache);
        let order = newest_order(&self.cache);
        let n: usize = match limit {
            Some(l) => if l < order.len() { l } else { order.len() },
            None => order.len(),
        };
        let mut r: Vec<&CachedContent> = Vec::new();
        let mut k: usize = 0;
        while k < n
            invariant
                n <= order@.len(),
                order@.len() == s.len(),
                s == values_of(self@.cache),
                s.len() == self.cache@.len(),
                forall|m: int| 0 <= m < order@.len() ==> #[trigger] order@[m] < s.len(),
                k <= n,
                r@.len() == k,
                forall|j: int| 0 <= j < k ==> *#[trigger] r@[j] == s[order@[j] as int],
            decreases n - k,
        {
            let o = order[k];
            assert(s[o as int] == self.cache@[o as int].1);
            r.push(&self.cache[o].1);
            k = k + 1;
        }
        let ghost idx = Seq::new(n as nat, |j: int| order@[j] as int);
        proof {
            assert forall|i: int, k: int| 0 <= i < s.len() && !idx.contains(i) && 0 <= k < idx.len()
                implies #[trigger] newer_first(s, idx[k], i) by {
                assert(crate::config::template_library::holds_position(order@, i));
                let m = choose|m: int| 0 <= m < order@.len() && #[trigger] order@[m] == i;
                if m < n {
                    assert(idx[m] == i);
                }
                assert(newer_first(s, order@[k] as int, order@[m] as int));
            }
            assert forall|k: int, l: int| 0 <= k < l < idx.len() implies newer_first(s, #[trigger] idx[k], #[trigger] idx[l]) by {
                assert(newer_first(s, order@[k] as int, order@[l] as int));
            }
            assert(newest(s, limit, r@, idx));
        }
        r
    }
}

} // verus!
