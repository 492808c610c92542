use pie::cache::Cache;
use pie::types::PackageLock;
use pie::versions::Versions;

fn s(x: &str) -> String {
    x.to_string()
}

fn strings(xs: &[&str]) -> Vec<String> {
    xs.iter().map(|x| x.to_string()).collect()
}

fn snapshot(entries: &[(&str, bool)]) -> Cache {
    let listing: Vec<(String, bool)> =
        entries.iter().map(|(n, l)| (n.to_string(), *l)).collect();
    Cache::get_cached_versions(&listing)
}

#[test]
fn snapshot_keys_entries_by_package_name() {
    let cache = snapshot(&[("foo@1.2.3", true), ("bar@0.1.0", false)]);
    assert_eq!(cache.get_latest_version_in_cache(&s("foo")).as_deref(), Some("1.2.3"));
    assert_eq!(cache.get_latest_version_in_cache(&s("bar")), None);
    assert!(cache.is_in_cache(&s("bar"), &s("0.1.0")));
    assert!(!cache.is_in_cache(&s("bar"), &s("0.2.0")));
    assert!(!cache.is_in_cache(&s("baz"), &s("0.1.0")));
}

#[test]
fn a_later_listing_entry_for_the_same_name_wins() {
    let cache = snapshot(&[("foo@1.0.0", false), ("foo@2.0.0", true)]);
    assert_eq!(cache.get_latest_version_in_cache(&s("foo")).as_deref(), Some("2.0.0"));
    assert!(cache.is_in_cache(&s("foo"), &s("2.0.0")));
    assert!(!cache.is_in_cache(&s("foo"), &s("1.0.0")));
}

#[test]
fn lookup_serves_a_newest_version_request_from_the_flag() {
    let cache = snapshot(&[("foo@1.2.3", true), ("bar@0.1.0", false)]);
    let none: Vec<String> = Vec::new();
    let (hit, version) = cache.lookup(&s("foo"), Some(&s("latest")), None, &none);
    assert!(hit);
    assert_eq!(version.as_deref(), Some("1.2.3"));
    // An entry not installed as the newest version cannot serve the request.
    let (hit, version) = cache.lookup(&s("bar"), Some(&s("latest")), None, &none);
    assert!(!hit);
    assert_eq!(version, None);
}

#[test]
fn lookup_serves_a_concrete_version_from_the_snapshot() {
    let cache = snapshot(&[("foo@1.2.3", false)]);
    let none: Vec<String> = Vec::new();
    let (hit, version) = cache.lookup(&s("foo"), Some(&s("1.2.3")), None, &none);
    assert!(hit);
    assert_eq!(version.as_deref(), Some("1.2.3"));
    let (hit, version) = cache.lookup(&s("foo"), Some(&s("1.2.4")), None, &none);
    assert!(!hit);
    assert_eq!(version.as_deref(), Some("1.2.4"));
}

#[test]
fn lookup_scans_the_listing_for_a_bare_range() {
    let cache = snapshot(&[]);
    let range = Versions::parse_semantic_version(&s("^1.2.0")).unwrap();
    let entries = strings(&["other@9.9.9", "foo@1.1.0", "foo@1.4.0", "foo@1.9.0"]);
    // The first entry in listing order wins, not the best one.
    let (hit, version) = cache.lookup(&s("foo"), None, Some(&range), &entries);
    assert!(hit);
    assert_eq!(version.as_deref(), Some("1.4.0"));
    let range = Versions::parse_semantic_version(&s("^2.0.0")).unwrap();
    let (hit, version) = cache.lookup(&s("foo"), None, Some(&range), &entries);
    assert!(!hit);
    assert_eq!(version, None);
}

#[test]
fn range_scan_matches_on_a_name_prefix() {
    // The scan takes any listing entry that merely opens with the name.
    let cache = snapshot(&[]);
    let range = Versions::parse_semantic_version(&s("^1.0.0")).unwrap();
    let entries = strings(&["foobar@1.0.0"]);
    let (hit, version) = cache.lookup(&s("foo"), None, Some(&range), &entries);
    assert!(hit);
    assert_eq!(version.as_deref(), Some("1.0.0"));
}

#[test]
fn link_plan_covers_the_package_and_every_recorded_dependency() {
    let lock = PackageLock { is_latest: false, dependencies: strings(&["b@2.0.0", "c@3.0.0"]) };
    let links = Cache::load_cached_version(s("a@1.0.0"), &lock);
    assert_eq!(
        links,
        vec![
            (s("b@2.0.0"), s("b")),
            (s("c@3.0.0"), s("c")),
            (s("a@1.0.0"), s("a")),
        ]
    );
}
