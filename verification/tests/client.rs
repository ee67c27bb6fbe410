use modular_agent_jev::client::{client_cache_key, get_cached_client, ClientCache, TypeSafeClient, Usage};
use modular_agent_jev::modules::{build_client, DEFAULT_API_BASE};

#[test]
fn new_client_drops_trailing_slashes() {
    let c = TypeSafeClient::new("https://api.example.com//", "key").unwrap();
    assert_eq!(c.base_url(), "https://api.example.com");
    assert_eq!(c.api_key(), "key");
    assert_eq!(c.system_one_url(), "https://api.example.com/v1/systemone");
    let d = TypeSafeClient::new("https://api.example.com", "key").unwrap();
    assert_eq!(d.system_one_url(), "https://api.example.com/v1/systemone");
    let e = c.clone();
    assert_eq!(e.base_url(), c.base_url());
    assert_eq!(e.api_key(), c.api_key());
}

#[test]
fn cache_key_joins_with_nul() {
    assert_eq!(client_cache_key("https://a", "k"), "https://a\0k");
}

#[test]
fn cache_serves_one_client_per_pair() {
    let mut cache = ClientCache::new();
    let key_a = client_cache_key("https://a/", "k1");
    assert!(cache.get(&key_a).is_none());
    let first = get_cached_client(&mut cache, "https://a/", "k1").unwrap();
    assert_eq!(first.base_url(), "https://a");
    let cached = cache.get(&key_a).expect("client is cached");
    assert_eq!(cached.api_key(), "k1");
    let again = get_cached_client(&mut cache, "https://a/", "k1").unwrap();
    assert_eq!(again.base_url(), "https://a");
    assert_eq!(again.api_key(), "k1");
    let other = get_cached_client(&mut cache, "https://a/", "k2").unwrap();
    assert_eq!(other.api_key(), "k2");
    assert!(cache.get(&client_cache_key("https://a/", "k2")).is_some());
    assert!(cache.get(&client_cache_key("https://a", "k1")).is_none());
}

#[test]
fn build_client_uses_defaults_and_fallbacks() {
    let mut cache = ClientCache::new();
    let c = build_client(&mut cache, Some(String::new()), Some("env-key".to_string()), None).unwrap();
    assert_eq!(c.api_key(), "env-key");
    assert_eq!(c.base_url(), DEFAULT_API_BASE);
    let d = build_client(
        &mut cache,
        Some("global".to_string()),
        Some("env-key".to_string()),
        Some("https://other/".to_string()),
    )
    .unwrap();
    assert_eq!(d.api_key(), "global");
    assert_eq!(d.base_url(), "https://other");
    assert!(build_client(&mut cache, None, None, None).is_err());
}

#[test]
fn usage_compares_by_counts() {
    let u = Usage { input_tokens: 120, output_tokens: 8 };
    assert_eq!(u, Usage { input_tokens: 120, output_tokens: 8 });
    assert_ne!(u, Usage { input_tokens: 120, output_tokens: 9 });
}
