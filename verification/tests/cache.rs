use its_hub_rs::cache::{CacheKey, TokenCache};

const SECOND: u64 = 1_000_000_000;

fn test_key(model: &str) -> CacheKey {
    CacheKey::new(model, "[{\"role\":\"user\",\"content\":\"hello\"}]", Some(0.7f64.to_bits()), Some(100), 5)
}

#[test]
fn cache_put_and_get() {
    let mut cache: TokenCache<String> = TokenCache::new(100, 300);
    let key = test_key("model-a");
    cache.put(key, "hi".to_string(), 0);
    assert_eq!(cache.get(&test_key("model-a"), SECOND), Some("hi".to_string()));
}

#[test]
fn cache_miss_on_different_key() {
    let mut cache: TokenCache<String> = TokenCache::new(100, 300);
    cache.put(test_key("model-a"), "hi".to_string(), 0);
    assert_eq!(cache.get(&test_key("model-b"), SECOND), None);
}

#[test]
fn cache_ttl_expiry() {
    let mut cache: TokenCache<String> = TokenCache::new(100, 0);
    cache.put(test_key("model-a"), "hi".to_string(), 0);
    assert_eq!(cache.get(&test_key("model-a"), 10_000_000), None);
    assert_eq!(cache.stats().entries, 0);
}

#[test]
fn cache_serves_until_ttl() {
    let mut cache: TokenCache<String> = TokenCache::new(100, 2);
    cache.put(test_key("model-a"), "hi".to_string(), 0);
    assert_eq!(cache.get(&test_key("model-a"), 2 * SECOND), Some("hi".to_string()));
    assert_eq!(cache.get(&test_key("model-a"), 2 * SECOND + 1), None);
}

#[test]
fn cache_evicts_at_capacity() {
    let mut cache: TokenCache<String> = TokenCache::new(2, 300);
    cache.put(test_key("a"), "a".to_string(), 0);
    cache.put(test_key("b"), "b".to_string(), SECOND);
    assert!(cache.get(&test_key("a"), 2 * SECOND).is_some());
    cache.put(test_key("c"), "c".to_string(), 3 * SECOND);
    assert_eq!(cache.stats().entries, 2);
    assert!(cache.get(&test_key("b"), 4 * SECOND).is_none());
    assert!(cache.get(&test_key("a"), 4 * SECOND).is_some());
    assert!(cache.get(&test_key("c"), 4 * SECOND).is_some());
}

#[test]
fn cache_stats_tracking() {
    let mut cache: TokenCache<String> = TokenCache::new(100, 300);
    cache.put(test_key("model-a"), "hi".to_string(), 0);
    cache.get(&test_key("model-a"), 1);
    cache.get(&test_key("model-a"), 2);
    cache.get(&test_key("miss"), 3);
    let stats = cache.stats();
    assert_eq!(stats.hits, 2);
    assert_eq!(stats.misses, 1);
    let hit_rate = stats.hits as f64 / (stats.hits + stats.misses) as f64;
    assert!((hit_rate - 0.6667).abs() < 0.01);
    assert_eq!(stats.entries, 1);
}

#[test]
fn cache_key_temperature_sensitivity() {
    let m = "[{\"role\":\"user\",\"content\":\"hi\"}]";
    let key1 = CacheKey::new("model", m, Some(0.7f64.to_bits()), Some(100), 5);
    let key2 = CacheKey::new("model", m, Some(0.8f64.to_bits()), Some(100), 5);
    assert!(!key1.same_as(&key2));
}

#[test]
fn cache_key_budget_sensitivity() {
    let m = "[{\"role\":\"user\",\"content\":\"hi\"}]";
    let key1 = CacheKey::new("model", m, Some(0.7f64.to_bits()), Some(100), 1);
    let key2 = CacheKey::new("model", m, Some(0.7f64.to_bits()), Some(100), 100);
    assert!(!key1.same_as(&key2));
    assert!(key1.same_as(&CacheKey::new("model", m, Some(0.7f64.to_bits()), Some(100), 1)));
}

#[test]
fn cache_put_replaces_existing() {
    let mut cache: TokenCache<String> = TokenCache::new(100, 300);
    cache.put(test_key("m"), "old".to_string(), 0);
    cache.put(test_key("m"), "new".to_string(), 1);
    assert_eq!(cache.get(&test_key("m"), 2), Some("new".to_string()));
    assert_eq!(cache.stats().entries, 1);
}
