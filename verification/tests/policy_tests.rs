use devoxx::model::Header;
use devoxx::policy::CachePolicy;

fn bv(s: &str) -> Vec<u8> {
    s.as_bytes().to_vec()
}

fn policy_of(name: &str, value: &str) -> CachePolicy {
    CachePolicy { headers: vec![Header { name: bv(name), value: bv(value) }] }
}

#[test]
fn max_age_reads_the_directive() {
    assert_eq!(policy_of("cache-control", "max-age=3700").max_age(), Some(3700));
    assert_eq!(policy_of("cache-control", "max-age=0").max_age(), Some(0));
    assert_eq!(policy_of("cache-control", "  max-age=60  ").max_age(), Some(60));
}

#[test]
fn max_age_header_name_is_case_insensitive() {
    assert_eq!(policy_of("CACHE-CONTROL", "max-age=5").max_age(), Some(5));
    assert_eq!(policy_of("Cache-Control", "max-age=5").max_age(), Some(5));
}

#[test]
fn max_age_absent_on_malformation() {
    assert_eq!(policy_of("content-type", "text/html").max_age(), None);
    assert_eq!(policy_of("cache-control", "").max_age(), None);
    assert_eq!(policy_of("cache-control", "max-age=").max_age(), None);
    assert_eq!(policy_of("cache-control", "max-age=abc").max_age(), None);
    assert_eq!(policy_of("cache-control", "max-age=-5").max_age(), None);
    assert_eq!(policy_of("cache-control", "no-store").max_age(), None);
    // Only a lone directive is recognised.
    assert_eq!(policy_of("cache-control", "private, max-age=60").max_age(), None);
    assert_eq!(policy_of("cache-control", "max-age=60, private").max_age(), None);
    let empty = CachePolicy { headers: vec![] };
    assert_eq!(empty.max_age(), None);
}

#[test]
fn max_age_rejects_numbers_that_overflow() {
    assert_eq!(
        policy_of("cache-control", "max-age=18446744073709551615").max_age(),
        Some(u64::MAX)
    );
    assert_eq!(
        policy_of("cache-control", "max-age=18446744073709551616").max_age(),
        None
    );
}

#[test]
fn cacheable_means_strictly_positive_max_age() {
    assert!(policy_of("cache-control", "max-age=1").is_cacheable());
    assert!(!policy_of("cache-control", "max-age=0").is_cacheable());
    assert!(!policy_of("content-type", "text/html").is_cacheable());
    assert!(!policy_of("cache-control", "max-age=x").is_cacheable());
}

#[test]
fn storable_needs_an_hour() {
    assert!(policy_of("cache-control", "max-age=3600").is_storable_to_disk());
    assert!(policy_of("cache-control", "max-age=3700").is_storable_to_disk());
    assert!(!policy_of("cache-control", "max-age=3599").is_storable_to_disk());
    assert!(!policy_of("content-type", "x").is_storable_to_disk());
}

#[test]
fn staleness_window() {
    // An entry with max-age=5 cached at T is fresh at T+4 and stale at
    // T+6.
    let p = policy_of("cache-control", "max-age=5");
    let t: u64 = 100;
    assert!(!p.is_stale(t, t + 4));
    assert!(!p.is_stale(t, t + 5));
    assert!(p.is_stale(t, t + 6));
}

#[test]
fn no_max_age_never_goes_stale() {
    let p = policy_of("content-type", "text/html");
    assert!(!p.is_stale(0, u64::MAX));
    // A present zero max-age is expired as soon as time moves.
    let z = policy_of("cache-control", "max-age=0");
    assert!(!z.is_stale(100, 100));
    assert!(z.is_stale(100, 101));
}

#[test]
fn first_cache_control_header_wins() {
    let p = CachePolicy {
        headers: vec![
            Header { name: bv("cache-control"), value: bv("max-age=7") },
            Header { name: bv("cache-control"), value: bv("max-age=9") },
        ],
    };
    assert_eq!(p.max_age(), Some(7));
}
