use aetheris::engine::edge_cdn::{CdnConfig, EdgeCdnManager, PurgeStatus};
use aetheris::error::AetherisError;

fn enabled_config() -> CdnConfig {
    let mut config = CdnConfig::default();
    config.enabled = true;
    config.endpoint = Some("https://cdn.example.com".to_string());
    config
}

#[test]
fn test_cdn_manager_new() {
    let manager = EdgeCdnManager::new(CdnConfig::default());
    assert!(!manager.is_enabled());
    assert_eq!(manager.get_cached_content_count(), 0);
}

#[test]
fn test_compute_hash() {
    let data = b"test content";
    let hash1 = EdgeCdnManager::compute_hash(data);
    let hash2 = EdgeCdnManager::compute_hash(data);
    assert_eq!(hash1, hash2);
}

#[test]
fn test_compute_hash_value() {
    assert_eq!(
        EdgeCdnManager::compute_hash(b"abc"),
        "ba7816bf8f01cfea414140de5dae2223b00361a396177a9cb410ff61f20015ad"
    );
}

#[test]
fn test_disabled_cdn_refuses() {
    let mut manager = EdgeCdnManager::default();
    match manager.cache_content("a".to_string(), "text/plain".to_string(), vec![1, 2], None) {
        Err(AetherisError::Cdn(m)) => assert_eq!(m, "CDN is not enabled"),
        other => panic!("unexpected {:?}", other),
    }
    assert!(matches!(manager.get_content("a"), Ok(None)));
    assert!(manager.purge_all().is_err());
    assert!(manager.purge_content(vec!["a".to_string()]).is_err());
    assert!(manager.purge_by_pattern(vec!["*".to_string()]).is_err());
}

#[test]
fn test_cache_and_get_content() {
    let mut manager = EdgeCdnManager::new(enabled_config());
    let c = manager.cache_content("page".to_string(), "text/html".to_string(), b"abc".to_vec(), Some("https://origin/page".to_string())).unwrap();
    assert_eq!(c.content_hash, "ba7816bf8f01cfea414140de5dae2223b00361a396177a9cb410ff61f20015ad");
    assert_eq!(c.etag, "\"ba7816bf8f01cfea414140de5dae2223b00361a396177a9cb410ff61f20015ad\"");
    assert_eq!(c.size_bytes, 3);
    assert_eq!(c.expires_at, c.cached_at + 86_400_000);
    assert_eq!(c.cdn_url, Some("https://cdn.example.com/page".to_string()));
    assert_eq!(manager.get_cached_content_count(), 1);
    assert_eq!(manager.get_stats().active_cached_items, 1);
    let hit = manager.get_content("page").unwrap().unwrap();
    assert_eq!(hit.cache_hits, 1);
    let stats = manager.get_stats();
    assert_eq!(stats.total_cache_hits, 1);
    assert_eq!(stats.total_bytes_served, 3);
    assert_eq!(stats.bandwidth_saved_bytes, 3);
    assert!(manager.get_content("missing").unwrap().is_none());
}

#[test]
fn test_expired_content_is_a_miss() {
    let mut config = enabled_config();
    config.cache_ttl_seconds = 0;
    let mut manager = EdgeCdnManager::new(config);
    manager.cache_content("x".to_string(), "t".to_string(), vec![], None).unwrap();
    assert!(manager.get_content("x").unwrap().is_none());
    assert_eq!(manager.get_stats().total_cache_misses, 1);
    assert_eq!(manager.get_cached_content_count(), 0);
}

#[test]
fn test_purges() {
    let mut manager = EdgeCdnManager::new(enabled_config());
    manager.cache_content("a".to_string(), "t".to_string(), vec![1], None).unwrap();
    manager.cache_content("b".to_string(), "t".to_string(), vec![2], None).unwrap();
    let p = manager.purge_content(vec!["a".to_string()]).unwrap();
    assert_eq!(p.status, PurgeStatus::Pending);
    assert_eq!(p.content_ids, vec!["a".to_string()]);
    let stored = manager.get_purge_status(&p.purge_id).unwrap();
    assert_eq!(stored.status, PurgeStatus::Completed);
    assert!(stored.completed_at.is_some());
    assert_eq!(manager.get_cached_content_count(), 2);
    let q = manager.purge_by_pattern(vec!["a*".to_string()]).unwrap();
    assert_eq!(q.patterns, vec!["a*".to_string()]);
    let all = manager.purge_all().unwrap();
    assert!(all.purge_all);
    assert_eq!(manager.get_cached_content_count(), 0);
    let stats = manager.get_stats();
    assert_eq!(stats.total_purges, 3);
    assert_eq!(stats.successful_purges, 3);
    assert!(manager.get_purge_status("nope").is_none());
}

#[test]
fn test_list_cached_content_newest_first() {
    let mut manager = EdgeCdnManager::new(enabled_config());
    for id in ["a", "b", "c"] {
        manager.cache_content(id.to_string(), "t".to_string(), vec![], None).unwrap();
    }
    let all = manager.list_cached_content(None);
    assert_eq!(all.len(), 3);
    for w in all.windows(2) {
        assert!(w[0].cached_at >= w[1].cached_at);
    }
    assert_eq!(manager.list_cached_content(Some(2)).len(), 2);
    assert!(manager.list_cached_content(Some(0)).is_empty());
}

#[test]
fn content_is_a_hit_until_it_expires() {
    let mut manager = EdgeCdnManager::new(enabled_config());
    let c = manager.cache_content("page".to_string(), "text/html".to_string(), b"abcd".to_vec(), None).unwrap();
    let hit = manager.get_content_at("page", c.expires_at - 1).unwrap().unwrap();
    assert_eq!(hit.cache_hits, 1);
    assert_eq!(manager.get_stats().total_bytes_served, 4);
    assert!(manager.get_content_at("page", c.expires_at).unwrap().is_none());
    assert_eq!(manager.get_stats().total_cache_misses, 1);
    assert_eq!(manager.get_cached_content_count(), 0);
    assert!(manager.get_content_at("page", 0).unwrap().is_none());
    assert_eq!(manager.get_stats().total_cache_misses, 1);
}
