use weathr::cache::{entry_path, key_dir, plan_lookup, store_location};
use weathr::keys::encode_key;
use weathr::stamp::{entry_name, parse_entry_name};

fn names(v: &[&str]) -> Vec<String> {
    v.iter().map(|s| s.to_string()).collect()
}

#[test]
fn entry_names_have_twenty_digits() {
    assert_eq!(entry_name(5), "00000000000000000005");
    assert_eq!(entry_name(u64::MAX), "18446744073709551615");
    assert_eq!(parse_entry_name("00000000000000000005"), Some(5));
    assert_eq!(parse_entry_name("18446744073709551615"), Some(u64::MAX));
}

#[test]
fn entry_names_refuse_other_files() {
    assert_eq!(parse_entry_name("5"), None);
    assert_eq!(parse_entry_name("0000000000000000000x"), None);
    assert_eq!(parse_entry_name("99999999999999999999"), None);
    assert_eq!(parse_entry_name(""), None);
}

#[test]
fn key_encoding_escapes_slashes() {
    assert_eq!(
        encode_key("https://api.weather.gov/points/39.7,-105.0"),
        "https:%2F%2Fapi.weather.gov%2Fpoints%2F39.7,-105.0"
    );
    assert_eq!(encode_key("100%"), "100%25");
    assert_eq!(encode_key(""), "");
}

#[test]
fn distinct_keys_get_distinct_directories() {
    assert_ne!(encode_key("a/b"), encode_key("a%2Fb"));
    assert_eq!(encode_key("a%2Fb"), "a%252Fb");
    assert_ne!(key_dir("x/y"), key_dir("x/y/"));
}

#[test]
fn fresh_entry_answers_lookup() {
    // put(K, E, B) with E in the future, then get(K)
    let listing = names(&[&entry_name(1000)]);
    let plan = plan_lookup(&listing, 500);
    assert_eq!(plan.hit, Some(0));
    assert!(plan.expired.is_empty());
}

#[test]
fn expired_entry_is_swept_and_misses() {
    let listing = names(&[&entry_name(100)]);
    let plan = plan_lookup(&listing, 500);
    assert_eq!(plan.hit, None);
    assert_eq!(plan.expired, vec![0]);
    // an entry expiring exactly now is expired
    let plan = plan_lookup(&names(&[&entry_name(500)]), 500);
    assert_eq!(plan.hit, None);
    assert_eq!(plan.expired, vec![0]);
}

#[test]
fn latest_expiration_wins_among_fresh_entries() {
    let listing = names(&[
        "00000000000000000010",
        "junk",
        "00000000000000000100",
        "00000000000000000050",
    ]);
    let plan = plan_lookup(&listing, 20);
    assert_eq!(plan.expired, vec![0]);
    assert_eq!(plan.hit, Some(2));
}

#[test]
fn purged_cache_misses() {
    let plan = plan_lookup(&Vec::new(), 0);
    assert_eq!(plan.hit, None);
    assert!(plan.expired.is_empty());
}

#[test]
fn store_location_reads_expires_header() {
    let p = store_location("https://a/b", "Wed, 18 Feb 2015 23:16:09 GMT").unwrap();
    assert_eq!(p.dir, "https:%2F%2Fa%2Fb");
    assert_eq!(p.file, "00000000001424301369");
    assert_eq!(parse_entry_name(&p.file), Some(1424301369));
}

#[test]
fn missing_expires_header_is_not_cached() {
    assert!(store_location("https://a/b", "").is_none());
    assert!(store_location("https://a/b", "not a date").is_none());
}

#[test]
fn entry_path_clamps_negative_instants() {
    let p = entry_path("k", -7);
    assert_eq!(p.dir, "k");
    assert_eq!(p.file, "00000000000000000000");
}
