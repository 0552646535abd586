use devoxx::model::{build_target_uri, CacheKey, CachedResponse, Header, StoreError};
use devoxx::orchestrator::{CacheSystem, LookupOutcome};

fn bv(s: &str) -> Vec<u8> {
    s.as_bytes().to_vec()
}

fn header(name: &str, value: &str) -> Header {
    Header { name: bv(name), value: bv(value) }
}

fn origin_response(cache_control: Option<&str>, body: &str, now: u64) -> CachedResponse {
    let mut headers = vec![header("content-type", "text/html; charset=utf-8")];
    if let Some(v) = cache_control {
        headers.push(header("cache-control", v));
    }
    CachedResponse::new(200, headers, bv(body), now)
}

fn key(method: &str, uri: &str) -> CacheKey {
    CacheKey::new(bv(method), bv(uri))
}

#[test]
fn first_fetch_then_served_from_cache() {
    // GET http://origin/fast answers 200 with Cache-Control:
    // max-age=3700.  The first call needs the origin and is stored in
    // all three tiers; the second call is served byte-identical without
    // the origin.
    let mut sys = CacheSystem::new();
    let k = key("GET", "http://origin/fast");
    let now: u64 = 1712580201;
    match sys.lookup(&k) {
        LookupOutcome::NeedsOrigin => {},
        LookupOutcome::Found(_) => panic!("nothing was stored yet"),
    }
    let fetched = origin_response(Some("max-age=3700"), "<h1>Fast</h1>", now);
    sys.store_fetched(&k, &fetched);
    assert!(sys.l1.is_cached(&bv("GET"), &bv("http://origin/fast")));
    let served = match sys.lookup(&k) {
        LookupOutcome::Found(c) => c,
        LookupOutcome::NeedsOrigin => panic!("second call must not refetch"),
    };
    assert_eq!(served.status, 200);
    assert_eq!(served.body, bv("<h1>Fast</h1>"));
    assert_eq!(served.headers.len(), 2);
    assert_eq!(served.headers[1].name, bv("cache-control"));
    assert_eq!(served.headers[1].value, bv("max-age=3700"));
    assert_eq!(served.cached_at, now);
    // Stored durably too.
    assert_eq!(sys.l3.find_page_and_content(&k).unwrap().body, bv("<h1>Fast</h1>"));
}

#[test]
fn long_ttl_survives_restart_in_l3() {
    let mut sys = CacheSystem::new();
    let k = key("GET", "http://origin/fast");
    let fetched = origin_response(Some("max-age=3700"), "durable", 50);
    sys.store_fetched(&k, &fetched);
    // A restart clears the in-process and distributed tiers; the
    // persistent tier still serves the key.
    let survived = sys.l3;
    let got = survived.find_page_and_content(&k).unwrap();
    assert_eq!(got.status, 200);
    assert_eq!(got.body, bv("durable"));
    assert_eq!(got.cached_at, 50);
}

#[test]
fn short_ttl_stays_out_of_l3() {
    let mut sys = CacheSystem::new();
    let k = key("GET", "http://origin/brief");
    let fetched = origin_response(Some("max-age=60"), "brief", 50);
    sys.store_fetched(&k, &fetched);
    // In the in-process tier, and retrievable without the origin.
    assert!(sys.l1.is_cached(&bv("GET"), &bv("http://origin/brief")));
    match sys.lookup(&k) {
        LookupOutcome::Found(c) => assert_eq!(c.body, bv("brief")),
        LookupOutcome::NeedsOrigin => panic!("within the window this is cached"),
    }
    // Not in the persistent tier.
    assert_eq!(sys.l3.find_page_and_content(&k).unwrap_err(), StoreError::NotFound);
}

#[test]
fn uncacheable_goes_only_to_l2() {
    let mut sys = CacheSystem::new();
    for (name, cc) in [
        ("http://origin/none", None),
        ("http://origin/zero", Some("max-age=0")),
        ("http://origin/malformed", Some("max-age=soon")),
    ] {
        let k = key("GET", name);
        let fetched = origin_response(cc, "plain", 50);
        sys.store_fetched(&k, &fetched);
        // Never written to the in-process or the persistent tier.
        assert!(!sys.l1.is_cached(&bv("GET"), &bv(name)));
        assert_eq!(sys.l3.find_page_and_content(&k).unwrap_err(), StoreError::NotFound);
        // Still written through to the distributed tier.
        match sys.lookup(&k) {
            LookupOutcome::Found(c) => assert_eq!(c.body, bv("plain")),
            LookupOutcome::NeedsOrigin => panic!("the write-through is unconditional"),
        }
    }
}

#[test]
fn swept_entry_falls_through_to_l2() {
    let mut sys = CacheSystem::new();
    let k = key("GET", "http://origin/fleeting");
    let t: u64 = 100;
    let fetched = origin_response(Some("max-age=5"), "fleeting", t);
    sys.store_fetched(&k, &fetched);
    sys.l1.remove_stale_cache(t + 4);
    assert!(sys.l1.is_cached(&bv("GET"), &bv("http://origin/fleeting")));
    sys.l1.remove_stale_cache(t + 6);
    assert!(!sys.l1.is_cached(&bv("GET"), &bv("http://origin/fleeting")));
    // The next lookup is still served from the distributed tier, and
    // repopulates the in-process tier.
    match sys.lookup(&k) {
        LookupOutcome::Found(c) => assert_eq!(c.body, bv("fleeting")),
        LookupOutcome::NeedsOrigin => panic!("the distributed tier still holds it"),
    }
    assert!(sys.l1.is_cached(&bv("GET"), &bv("http://origin/fleeting")));
}

#[test]
fn l1_presence_gates_an_l3_read() {
    // For a disk-worthy entry the in-process tier acts as a presence
    // flag and the full value comes from the persistent tier.
    let mut sys = CacheSystem::new();
    let k = key("GET", "http://origin/fast");
    sys.store_fetched(&k, &origin_response(Some("max-age=3700"), "durable", 7));
    match sys.lookup(&k) {
        LookupOutcome::Found(c) => {
            assert_eq!(c.body, bv("durable"));
            assert_eq!(c.cached_at, 7);
        },
        LookupOutcome::NeedsOrigin => panic!("stored in every tier"),
    }
}

#[test]
fn target_uri_is_scheme_authority_path() {
    assert_eq!(
        build_target_uri(&bv("localhost:3000"), &bv("/fast?x=1")),
        bv("http://localhost:3000/fast?x=1")
    );
    assert_eq!(build_target_uri(&bv("o"), &bv("/")), bv("http://o/"));
}
