use devoxx::local::Cache;
use devoxx::model::{CacheKey, CachedResponse, Header, StoreError};
use devoxx::orchestrator::WireStore;
use devoxx::pool::PoolCursor;
use devoxx::store::MemoryStore;

fn bv(s: &str) -> Vec<u8> {
    s.as_bytes().to_vec()
}

fn header(name: &str, value: &str) -> Header {
    Header { name: bv(name), value: bv(value) }
}

fn resp(status: u16, max_age: Option<&str>, body: &str, cached_at: u64) -> CachedResponse {
    let mut headers = vec![header("content-type", "text/plain")];
    if let Some(v) = max_age {
        headers.push(header("cache-control", v));
    }
    CachedResponse::new(status, headers, bv(body), cached_at)
}

#[test]
fn local_cache_upserts_and_misses_are_typed() {
    let mut cache = Cache::new();
    assert!(cache.get_from_cache(&bv("GET"), &bv("http://o/a")).is_none());
    cache.insert_into_cache(bv("GET"), bv("http://o/a"), 200, vec![], bv("one"), 10);
    assert!(cache.is_cached(&bv("GET"), &bv("http://o/a")));
    let got = cache.get_from_cache(&bv("GET"), &bv("http://o/a")).unwrap();
    assert_eq!(got.status, 200);
    assert_eq!(got.body, bv("one"));
    assert_eq!(got.cached_at, 10);
    // Replaced, not duplicated.
    cache.insert_into_cache(bv("GET"), bv("http://o/a"), 201, vec![], bv("two"), 20);
    assert_eq!(cache.len(), 1);
    let got = cache.get_from_cache(&bv("GET"), &bv("http://o/a")).unwrap();
    assert_eq!(got.body, bv("two"));
}

#[test]
fn key_identity_is_method_and_uri_alone() {
    // Two requests differing only in header values share the entry.
    let mut cache = Cache::new();
    let r1 = resp(200, Some("max-age=60"), "payload", 10);
    cache.insert(CacheKey::new(bv("GET"), bv("http://o/a")), r1);
    assert!(cache.is_cached(&bv("GET"), &bv("http://o/a")));
    // A differing method or uri is a distinct entry.
    assert!(!cache.is_cached(&bv("POST"), &bv("http://o/a")));
    assert!(!cache.is_cached(&bv("GET"), &bv("http://o/b")));
    cache.insert(
        CacheKey::new(bv("POST"), bv("http://o/a")),
        resp(201, None, "other", 11),
    );
    assert_eq!(cache.len(), 2);
    assert_eq!(
        cache.get_from_cache(&bv("GET"), &bv("http://o/a")).unwrap().status,
        200
    );
    assert_eq!(
        cache.get_from_cache(&bv("POST"), &bv("http://o/a")).unwrap().status,
        201
    );
}

#[test]
fn remove_from_cache_reports_what_went_away() {
    let mut cache = Cache::new();
    cache.insert(CacheKey::new(bv("GET"), bv("http://o/a")), resp(200, None, "x", 1));
    assert_eq!(cache.remove_from_cache(&bv("GET"), &bv("http://o/a")), Some(1));
    assert_eq!(cache.remove_from_cache(&bv("GET"), &bv("http://o/a")), None);
    assert!(!cache.is_cached(&bv("GET"), &bv("http://o/a")));
}

#[test]
fn sweep_removes_exactly_the_stale_entries() {
    let mut cache = Cache::new();
    let t: u64 = 100;
    cache.insert(CacheKey::new(bv("GET"), bv("http://o/short")), resp(200, Some("max-age=5"), "s", t));
    cache.insert(CacheKey::new(bv("GET"), bv("http://o/long")), resp(200, Some("max-age=500"), "l", t));
    cache.insert(CacheKey::new(bv("GET"), bv("http://o/untagged")), resp(200, None, "u", t));
    cache.remove_stale_cache(t + 4);
    assert!(cache.is_cached(&bv("GET"), &bv("http://o/short")));
    cache.remove_stale_cache(t + 6);
    assert!(!cache.is_cached(&bv("GET"), &bv("http://o/short")));
    assert!(cache.is_cached(&bv("GET"), &bv("http://o/long")));
    // Absent max-age never expires.
    assert!(cache.is_cached(&bv("GET"), &bv("http://o/untagged")));
}

#[test]
fn snapshot_is_independent() {
    let mut cache = Cache::new();
    cache.insert(CacheKey::new(bv("GET"), bv("http://o/a")), resp(200, None, "x", 1));
    let snap = cache.snapshot();
    cache.insert(CacheKey::new(bv("GET"), bv("http://o/b")), resp(200, None, "y", 2));
    assert_eq!(snap.len(), 1);
    assert_eq!(cache.len(), 2);
    assert!(!snap.is_cached(&bv("GET"), &bv("http://o/b")));
}

#[test]
fn pool_cursor_goes_round_robin() {
    let mut cursor = PoolCursor::new();
    assert_eq!(cursor.pick(3), Some(0));
    assert_eq!(cursor.pick(3), Some(1));
    assert_eq!(cursor.pick(3), Some(2));
    assert_eq!(cursor.pick(3), Some(0));
    assert_eq!(cursor.pick(5), Some(4));
    assert_eq!(cursor.pick(0), None);
}

#[test]
fn wire_store_upserts_and_removes() {
    let mut store = WireStore::new();
    assert!(store.get(&bv("k1")).is_none());
    store.set(bv("k1"), bv("v1"));
    store.set(bv("k2"), bv("v2"));
    store.set(bv("k1"), bv("v3"));
    assert_eq!(store.get(&bv("k1")), Some(bv("v3")));
    assert_eq!(store.get(&bv("k2")), Some(bv("v2")));
    assert!(store.remove(&bv("k1")));
    assert!(!store.remove(&bv("k1")));
    assert!(store.get(&bv("k1")).is_none());
    assert_eq!(store.get(&bv("k2")), Some(bv("v2")));
}

#[test]
fn test_db_store() {
    // The two-step write and the two-step read, against the in-memory
    // store the process falls back to without a database file.
    let mut store = MemoryStore::new();
    let headers = vec![header("hello", "rosy"), header("jack", "world")];
    let cache_key = CacheKey::new(bv("GET"), bv("http://localhost:8080"));
    let cached_response = CachedResponse::new(201, headers, vec![0, 1, 2], 1712580201);
    store.add(cache_key, cached_response).unwrap();
    let probe = CacheKey::new(bv("GET"), bv("http://localhost:8080"));
    let result = store.find_page_and_content(&probe).unwrap();
    assert_eq!(result.status, 201);
    assert_eq!(result.body, vec![0, 1, 2]);
    assert_eq!(result.headers.len(), 2);
    assert_eq!(result.headers[0].name, bv("hello"));
    assert_eq!(result.headers[0].value, bv("rosy"));
    assert_eq!(result.cached_at, 1712580201);
}

#[test]
fn memory_store_is_append_only_by_key() {
    let mut store = MemoryStore::new();
    let k = || CacheKey::new(bv("GET"), bv("http://o/a"));
    store.add(k(), resp(200, None, "first", 1)).unwrap();
    store.add(k(), resp(500, None, "second", 2)).unwrap();
    assert_eq!(store.page_count(), 1);
    let got = store.find_page_and_content(&k()).unwrap();
    assert_eq!(got.status, 200);
    assert_eq!(got.body, bv("first"));
}

#[test]
fn memory_store_miss_is_not_found() {
    let store = MemoryStore::new();
    let probe = CacheKey::new(bv("GET"), bv("http://o/missing"));
    assert_eq!(
        store.find_page_and_content(&probe).unwrap_err(),
        StoreError::NotFound
    );
}
