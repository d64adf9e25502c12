use jaringan::cache::cacheable;
use jaringan::protocol::StatusCode;
use jaringan::cache::{cache_lookup, cache_store, ResponseCache};
use jaringan::gateway::HttpToJrgGatewayConfig;

fn config(max: usize) -> HttpToJrgGatewayConfig {
    HttpToJrgGatewayConfig { cache_max_entries: max, ..HttpToJrgGatewayConfig::default() }
}

#[test]
fn test_cache_hit_returns_cached_content() {
    let cfg = HttpToJrgGatewayConfig::default();
    let mut cache = ResponseCache::new();
    cache_store(&mut cache, "jrg://test/page.jrg".to_string(), "<html>cached</html>".to_string(), 100, &cfg);
    assert_eq!(cache_lookup(&cache, "jrg://test/page.jrg", 110, cfg.cache_ttl_secs), Some("<html>cached</html>".to_string()));
    assert_eq!(cache_lookup(&cache, "jrg://test/other.jrg", 110, cfg.cache_ttl_secs), None);
}

#[test]
fn stale_pages_are_not_served() {
    let cfg = HttpToJrgGatewayConfig::default();
    let mut cache = ResponseCache::new();
    cache_store(&mut cache, "k".to_string(), "v".to_string(), 100, &cfg);
    assert_eq!(cache_lookup(&cache, "k", 159, 60), Some("v".to_string()));
    assert_eq!(cache_lookup(&cache, "k", 160, 60), None);
}

#[test]
fn storing_again_replaces_the_page() {
    let cfg = config(4);
    let mut cache = ResponseCache::new();
    cache_store(&mut cache, "k".to_string(), "old".to_string(), 1, &cfg);
    cache_store(&mut cache, "k".to_string(), "new".to_string(), 2, &cfg);
    assert_eq!(cache.len(), 1);
    assert_eq!(cache_lookup(&cache, "k", 3, 60), Some("new".to_string()));
}

#[test]
fn a_full_cache_drops_stale_then_oldest_pages() {
    let cfg = config(2);
    let mut cache = ResponseCache::new();
    cache_store(&mut cache, "a".to_string(), "A".to_string(), 0, &cfg);
    cache_store(&mut cache, "b".to_string(), "B".to_string(), 100, &cfg);
    cache_store(&mut cache, "c".to_string(), "C".to_string(), 101, &cfg);
    assert_eq!(cache.len(), 2);
    assert_eq!(cache_lookup(&cache, "a", 101, 60), None);
    assert_eq!(cache_lookup(&cache, "b", 101, 60), Some("B".to_string()));
    cache_store(&mut cache, "d".to_string(), "D".to_string(), 102, &cfg);
    assert_eq!(cache.len(), 2);
    assert_eq!(cache_lookup(&cache, "b", 102, 60), None);
    assert_eq!(cache_lookup(&cache, "c", 102, 60), Some("C".to_string()));
    assert_eq!(cache_lookup(&cache, "d", 102, 60), Some("D".to_string()));
}

#[test]
fn only_successful_gets_are_cached() {
    assert!(cacheable(true, StatusCode::Success));
    assert!(!cacheable(false, StatusCode::Success));
    assert!(!cacheable(true, StatusCode::NotFound));
}

#[test]
fn a_cache_with_room_for_none_keeps_nothing() {
    let mut cache = ResponseCache::new();
    cache_store(&mut cache, "jrg://a/".to_string(), "page".to_string(), 10, &config(0));
    assert_eq!(cache.len(), 0);
    assert_eq!(cache_lookup(&cache, "jrg://a/", 10, 60), None);
}
