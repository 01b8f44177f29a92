use fingerprint_client::cache::get_or_build_client;
use fingerprint_client::key::{bucket_timeout, emulation_label, ClientKey};
use fingerprint_client::method::{normalize_method, HttpMethod};
use fingerprint_client::response::{first_cookie_header, response_cookies, text_headers};
use fingerprint_client::{parse_cookies, ClientCache, CLIENT_CACHE_LIMIT};
use std::sync::Arc;

fn key(label: &str, proxy: Option<&str>, timeout: u64) -> ClientKey {
    ClientKey::derive(label, &proxy.map(|p| p.to_string()), timeout)
}

fn pairs(v: &[(&str, &str)]) -> Vec<(String, String)> {
    v.iter().map(|(a, b)| (a.to_string(), b.to_string())).collect()
}

#[test]
fn timeout_buckets() {
    assert_eq!(bucket_timeout(1), 5000);
    assert_eq!(bucket_timeout(5000), 5000);
    assert_eq!(bucket_timeout(5001), 10000);
    assert_eq!(bucket_timeout(0), 5000);
    assert_eq!(bucket_timeout(12345), 15000);
}

#[test]
fn identical_configuration_gives_identical_key() {
    let a = key("chrome_131", Some("http://127.0.0.1:8080"), 1);
    let b = key("chrome_131", Some("http://127.0.0.1:8080"), 5000);
    assert!(a.same_as(&b));
    assert!(a == b);
    assert_eq!(a.timeout_bucket, 5000);
    let c = key("chrome_131", None, 5000);
    assert!(!a.same_as(&c));
    let d = key("chrome_131", Some("http://127.0.0.1:8080"), 5001);
    assert!(!a.same_as(&d));
}

#[test]
fn label_falls_back_to_default() {
    assert_eq!(emulation_label(None), "chrome_142");
    assert_eq!(emulation_label(Some("firefox_133".to_string())), "firefox_133");
}

#[test]
fn cache_holds_at_most_its_limit_and_evicts_oldest() {
    let mut cache: ClientCache<u32> = ClientCache::new();
    assert_eq!(cache.capacity(), CLIENT_CACHE_LIMIT);
    for i in 0..(CLIENT_CACHE_LIMIT as u64) {
        let r: Result<_, ()> = cache.get_or_try_insert(key("chrome", None, i * 5000 + 1), || Ok(i as u32));
        assert!(r.is_ok());
    }
    assert_eq!(cache.len(), 1024);
    let extra: Result<_, ()> = cache.get_or_try_insert(key("chrome", None, 1024 * 5000 + 1), || Ok(1024));
    assert!(extra.is_ok());
    assert_eq!(cache.len(), 1024);
    assert!(!cache.contains(&key("chrome", None, 1)));
    assert!(cache.contains(&key("chrome", None, 5001)));
    assert!(cache.contains(&key("chrome", None, 1024 * 5000 + 1)));
}

#[test]
fn touched_key_outlives_later_ones() {
    let mut cache: ClientCache<&str> = ClientCache::with_capacity(3);
    for (label, v) in [("a", "A"), ("b", "B"), ("c", "C")] {
        let r: Result<_, ()> = cache.get_or_try_insert(key(label, None, 0), || Ok(v));
        assert!(r.is_ok());
    }
    let hit: Result<_, ()> = cache.get_or_try_insert(key("a", None, 0), || Ok("rebuilt"));
    assert_eq!(hit.ok().unwrap().client, "A");
    let r: Result<_, ()> = cache.get_or_try_insert(key("d", None, 0), || Ok("D"));
    assert!(r.is_ok());
    assert!(!cache.contains(&key("b", None, 0)));
    assert!(cache.contains(&key("a", None, 0)));
    assert!(cache.contains(&key("c", None, 0)));
    let r: Result<_, ()> = cache.get_or_try_insert(key("e", None, 0), || Ok("E"));
    assert!(r.is_ok());
    assert!(!cache.contains(&key("c", None, 0)));
    assert!(cache.contains(&key("a", None, 0)));
}

#[test]
fn handles_match_their_configuration() {
    let mut cache: ClientCache<String> = ClientCache::new();
    let proxy = Some("socks5://10.0.0.1:1080".to_string());
    let h = get_or_build_client(&mut cache, "safari_18", &proxy, 30000, || -> Result<String, ()> {
        Ok("built for safari".to_string())
    })
    .ok()
    .unwrap();
    assert!(h.key.same_as(&key("safari_18", Some("socks5://10.0.0.1:1080"), 30000)));
    let again = get_or_build_client(&mut cache, "safari_18", &proxy, 29999, || -> Result<String, ()> {
        Ok("second build".to_string())
    })
    .ok()
    .unwrap();
    assert!(Arc::ptr_eq(&h, &again));
    assert_eq!(again.client, "built for safari");
}

#[test]
fn later_lookups_return_the_stored_handle() {
    let mut cache: ClientCache<u64> = ClientCache::new();
    let first: Result<_, ()> = cache.get_or_try_insert(key("edge", None, 7000), || Ok(1));
    let first = first.ok().unwrap();
    assert!(first.key.same_as(&key("edge", None, 10000)));
    let mut built_again = false;
    let later: Result<_, ()> = cache.get_or_try_insert(key("edge", None, 10000), || {
        built_again = true;
        Ok(99)
    });
    let later = later.ok().unwrap();
    assert!(!built_again);
    assert!(Arc::ptr_eq(&first, &later));
    assert_eq!(later.client, 1);
    assert_eq!(cache.len(), 1);
}

#[test]
fn empty_method_means_get() {
    assert_eq!(normalize_method("").ok(), Some(HttpMethod::Get));
    assert_eq!(normalize_method("GET").ok(), Some(HttpMethod::Get));
    assert_eq!(normalize_method("get").ok(), Some(HttpMethod::Get));
    assert_eq!(normalize_method("post").ok(), Some(HttpMethod::Post));
    assert_eq!(normalize_method("Delete").ok(), Some(HttpMethod::Delete));
    assert_eq!(normalize_method("pAtCh").ok(), Some(HttpMethod::Patch));
    assert_eq!(normalize_method("head").ok(), Some(HttpMethod::Head));
    assert_eq!(normalize_method("put").ok(), Some(HttpMethod::Put));
    assert_eq!(HttpMethod::Get.as_str(), "GET");
}

#[test]
fn trace_is_unsupported() {
    let err = normalize_method("TRACE").err().unwrap();
    assert_eq!(err.method, "TRACE");
    assert!(err.message().contains("TRACE"));
    assert_eq!(err.message(), "Unsupported HTTP method: TRACE");
    let lower = normalize_method("options").err().unwrap();
    assert_eq!(lower.method, "options");
    assert_eq!(lower.message(), "Unsupported HTTP method: options");
    let mixed = normalize_method("Trace").err().unwrap();
    assert_eq!(mixed.message(), "Unsupported HTTP method: Trace");
}

#[test]
fn set_cookie_pairs() {
    assert_eq!(parse_cookies("a=1; b=2"), pairs(&[("a", "1"), ("b", "2")]));
    assert_eq!(parse_cookies("  sid=x=y ;path ; ;k="), pairs(&[("sid", "x=y"), ("k", "")]));
    assert_eq!(parse_cookies(""), pairs(&[]));
    assert_eq!(parse_cookies("\tname = v \t"), pairs(&[("name ", " v")]));
    assert_eq!(parse_cookies("\u{3000}a=1\u{a0}; \u{2003}b=2"), pairs(&[("a", "1"), ("b", "2")]));
}

#[test]
fn cookies_come_from_first_set_cookie_header() {
    let raw = vec![
        ("content-type".to_string(), Some("text/html".to_string())),
        ("set-cookie".to_string(), Some("a=1; b=2".to_string())),
        ("set-cookie".to_string(), Some("c=3".to_string())),
    ];
    assert_eq!(first_cookie_header(&raw), Some("a=1; b=2".to_string()));
    assert_eq!(response_cookies(&raw), pairs(&[("a", "1"), ("b", "2")]));
    let undecodable = vec![("set-cookie".to_string(), None), ("set-cookie".to_string(), Some("c=3".to_string()))];
    assert_eq!(response_cookies(&undecodable), pairs(&[]));
}

#[test]
fn undecodable_header_values_are_dropped() {
    let raw = vec![
        ("x-a".to_string(), Some("1".to_string())),
        ("x-b".to_string(), None),
        ("x-c".to_string(), Some("3".to_string())),
    ];
    assert_eq!(text_headers(&raw), pairs(&[("x-a", "1"), ("x-c", "3")]));
}

#[test]
fn failed_build_leaves_no_entry() {
    let mut cache: ClientCache<String> = ClientCache::new();
    let bad = Some("not-a-url".to_string());
    let r = get_or_build_client(&mut cache, "chrome_142", &bad, 0, || -> Result<String, String> {
        Err("Failed to create proxy".to_string())
    });
    assert_eq!(r.err(), Some("Failed to create proxy".to_string()));
    assert!(!cache.contains(&key("chrome_142", Some("not-a-url"), 0)));
    assert_eq!(cache.len(), 0);
    let mut retried = false;
    let r = get_or_build_client(&mut cache, "chrome_142", &bad, 0, || -> Result<String, String> {
        retried = true;
        Ok("retried".to_string())
    });
    assert!(retried);
    assert_eq!(r.ok().unwrap().client, "retried");
    assert!(cache.contains(&key("chrome_142", Some("not-a-url"), 0)));
    let good = Some("http://127.0.0.1:3128".to_string());
    let r = get_or_build_client(&mut cache, "chrome_142", &good, 0, || -> Result<String, String> { Ok("proxied".to_string()) });
    assert_eq!(r.ok().unwrap().client, "proxied");
    assert_eq!(cache.len(), 2);
    assert_eq!(ClientCache::<String>::new().len(), 0);
}

#[test]
fn evicted_handle_stays_usable() {
    let mut cache: ClientCache<Vec<u8>> = ClientCache::with_capacity(1);
    let r: Result<_, ()> = cache.get_or_try_insert(key("a", None, 0), || Ok(vec![1, 2, 3]));
    let held = r.ok().unwrap();
    let r: Result<_, ()> = cache.get_or_try_insert(key("b", None, 0), || Ok(vec![4]));
    assert!(r.is_ok());
    assert!(!cache.contains(&key("a", None, 0)));
    assert_eq!(held.client, vec![1, 2, 3]);
    assert!(held.key.same_as(&key("a", None, 0)));
}

#[test]
fn store_touch_and_replace() {
    let mut store: ClientCache<u8> = ClientCache::with_capacity(2);
    let r: Result<_, ()> = store.get_or_try_insert(key("a", None, 0), || Ok(1));
    assert_eq!(r.ok().unwrap().client, 1);
    let r: Result<_, ()> = store.get_or_try_insert(key("a", None, 0), || Ok(2));
    assert_eq!(r.ok().unwrap().client, 1);
    assert_eq!(store.len(), 1);
    assert!(store.get(&key("b", None, 0)).is_none());
    assert_eq!(store.get(&key("a", None, 0)).unwrap().client, 1);
    assert_eq!(store.capacity(), 2);
}
