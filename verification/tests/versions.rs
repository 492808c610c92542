use pie::errors::CommandError;
use pie::versions::RangeOp;
use pie::versions::VersionRange;
use pie::versions::VersionTriple;
use pie::versions::Versions;

fn s(x: &str) -> String {
    x.to_string()
}

fn strings(xs: &[&str]) -> Vec<String> {
    xs.iter().map(|x| x.to_string()).collect()
}

#[test]
fn parse_version_reads_a_triple() {
    assert_eq!(
        Versions::parse_version("1.2.3"),
        Some(VersionTriple { major: 1, minor: 2, patch: 3 })
    );
    assert_eq!(Versions::parse_version("0.0.0"), Some(VersionTriple { major: 0, minor: 0, patch: 0 }));
    assert_eq!(Versions::parse_version("10.20.30"), Some(VersionTriple { major: 10, minor: 20, patch: 30 }));
}

#[test]
fn parse_version_rejects_other_text() {
    assert_eq!(Versions::parse_version(""), None);
    assert_eq!(Versions::parse_version("1.2"), None);
    assert_eq!(Versions::parse_version("1.2.3.4"), None);
    assert_eq!(Versions::parse_version("01.2.3"), None);
    assert_eq!(Versions::parse_version("1.2.3-alpha"), None);
    assert_eq!(Versions::parse_version("latest"), None);
    assert_eq!(Versions::parse_version("18446744073709551616.0.0"), None);
}

#[test]
fn parse_version_accepts_the_largest_component() {
    assert_eq!(
        Versions::parse_version("18446744073709551615.0.1"),
        Some(VersionTriple { major: u64::MAX, minor: 0, patch: 1 })
    );
}

#[test]
fn parse_range_defaults_to_caret() {
    let r = Versions::parse_semantic_version(&s("1.2.3")).unwrap();
    assert_eq!(
        r,
        VersionRange { op: RangeOp::Caret, major: 1, minor: Some(2), patch: Some(3) }
    );
}

#[test]
fn parse_range_reads_each_operator() {
    let cases: &[(&str, RangeOp)] = &[
        ("=1.2.3", RangeOp::Exact),
        (">1.2.3", RangeOp::Greater),
        (">=1.2.3", RangeOp::GreaterEq),
        ("<1.2.3", RangeOp::Less),
        ("<=1.2.3", RangeOp::LessEq),
        ("~1.2.3", RangeOp::Tilde),
        ("^1.2.3", RangeOp::Caret),
    ];
    for (text, op) in cases {
        let r = Versions::parse_semantic_version(&s(text)).unwrap();
        assert_eq!(r.op, *op);
        assert_eq!((r.major, r.minor, r.patch), (1, Some(2), Some(3)));
    }
}

#[test]
fn parse_range_reads_partial_triples() {
    let r = Versions::parse_semantic_version(&s(">=1")).unwrap();
    assert_eq!(r, VersionRange { op: RangeOp::GreaterEq, major: 1, minor: None, patch: None });
    let r = Versions::parse_semantic_version(&s("~2.5")).unwrap();
    assert_eq!(r, VersionRange { op: RangeOp::Tilde, major: 2, minor: Some(5), patch: None });
}

#[test]
fn parse_range_reads_wildcards() {
    let r = Versions::parse_semantic_version(&s("1.*")).unwrap();
    assert_eq!(r, VersionRange { op: RangeOp::Wildcard, major: 1, minor: None, patch: None });
    let r = Versions::parse_semantic_version(&s("1.2.x")).unwrap();
    assert_eq!(r, VersionRange { op: RangeOp::Wildcard, major: 1, minor: Some(2), patch: None });
}

#[test]
fn parse_range_honors_only_the_first_comparator() {
    let r = Versions::parse_semantic_version(&s(">=1.2, <2.0")).unwrap();
    assert_eq!(r, VersionRange { op: RangeOp::GreaterEq, major: 1, minor: Some(2), patch: None });
}

#[test]
fn parse_range_rejects_bad_text() {
    for text in ["", "*", "abc", "1.", "1..2", ">=x", ">=1.*", "1.2.3junk", "^ 1.2.3"] {
        assert!(Versions::parse_semantic_version(&s(text)).is_err(), "accepted {:?}", text);
    }
}

#[test]
fn package_details_split_at_the_first_at_sign() {
    let (name, version) = Versions::parse_raw_package_details(s("foo@1.2.3"));
    assert_eq!((name.as_str(), version.as_str()), ("foo", "1.2.3"));
    let (name, version) = Versions::parse_raw_package_details(s("foo"));
    assert_eq!((name.as_str(), version.as_str()), ("foo", "latest"));
}

#[test]
fn latest_shortcut_spec_without_version_or_with_marker() {
    // A bare name and an explicit newest-version marker ask the same thing.
    let (name, range) = Versions::parse_semantic_package_details(s("foo")).unwrap();
    assert_eq!(name.as_str(), "foo");
    assert!(range.is_none());
    let (name, range) = Versions::parse_semantic_package_details(s("foo@latest")).unwrap();
    assert_eq!(name.as_str(), "foo");
    assert!(range.is_none());
    // And resolving no range at all answers the newest-version marker.
    assert_eq!(Versions::resolve_full_version(None).as_deref(), Some("latest"));
}

#[test]
fn resolve_full_serves_open_bounds_as_latest() {
    for text in [">1.2.3", ">=1.2.3"] {
        let r = Versions::parse_semantic_version(&s(text)).unwrap();
        assert_eq!(Versions::resolve_full_version(Some(&r)).as_deref(), Some("latest"));
    }
}

#[test]
fn resolve_full_serves_pinnable_operators_at_their_triple() {
    for text in ["=1.2.3", "<=1.2.3", "~1.2.3", "^1.2.3"] {
        let r = Versions::parse_semantic_version(&s(text)).unwrap();
        assert_eq!(Versions::resolve_full_version(Some(&r)).as_deref(), Some("1.2.3"));
    }
}

#[test]
fn resolve_full_defers_partial_triples_and_strict_upper_bounds() {
    for text in ["=1.2", ">=1", "1.*", "<1.2.3", "~2.5"] {
        let r = Versions::parse_semantic_version(&s(text)).unwrap();
        assert_eq!(Versions::resolve_full_version(Some(&r)), None, "for {:?}", text);
    }
}

#[test]
fn predecessor_rule_strict_upper_bound_takes_the_entry_before() {
    let range = Versions::parse_semantic_version(&s("<1.2.0")).unwrap();
    let available = strings(&["1.0.0", "1.1.0", "1.2.0", "1.3.0"]);
    let r = Versions::resolve_partial_version(Some(&range), &available).unwrap();
    assert_eq!(r.as_str(), "1.1.0");
}

#[test]
fn predecessor_rule_fails_without_a_predecessor() {
    let range = Versions::parse_semantic_version(&s("<1.0.0")).unwrap();
    let available = strings(&["1.0.0", "1.1.0"]);
    assert_eq!(
        Versions::resolve_partial_version(Some(&range), &available),
        Err(CommandError::InvalidVersion)
    );
}

#[test]
fn predecessor_rule_fails_without_an_exact_match() {
    let range = Versions::parse_semantic_version(&s("<1.2.1")).unwrap();
    let available = strings(&["1.0.0", "1.1.0", "1.2.0", "1.3.0"]);
    assert_eq!(
        Versions::resolve_partial_version(Some(&range), &available),
        Err(CommandError::InvalidVersion)
    );
}

#[test]
fn descending_match_rule_takes_the_highest_compatible() {
    let range = Versions::parse_semantic_version(&s("^1.2.0")).unwrap();
    let available = strings(&["1.2.0", "1.2.5", "1.3.0", "2.0.0"]);
    let r = Versions::resolve_partial_version(Some(&range), &available).unwrap();
    assert_eq!(r.as_str(), "1.3.0");
}

#[test]
fn resolution_is_deterministic_on_equal_inputs() {
    let range = Versions::parse_semantic_version(&s("^1.2.0")).unwrap();
    let available = strings(&["1.3.0", "1.2.0", "2.0.0", "1.2.5"]);
    let first = Versions::resolve_partial_version(Some(&range), &available);
    let second = Versions::resolve_partial_version(Some(&range), &available);
    assert_eq!(first, second);
    assert_eq!(first.unwrap().as_str(), "1.3.0");
}

#[test]
fn resolution_fails_when_nothing_matches() {
    let range = Versions::parse_semantic_version(&s("^3.0.0")).unwrap();
    let available = strings(&["1.2.0", "2.0.0"]);
    assert_eq!(
        Versions::resolve_partial_version(Some(&range), &available),
        Err(CommandError::InvalidVersion)
    );
}

#[test]
fn unparseable_versions_sort_lowest() {
    // "garbage" keys as 0.0.0 and sorts below every real version, so a range
    // over real versions never picks it.
    let range = Versions::parse_semantic_version(&s(">=1.0.0")).unwrap();
    let available = strings(&["garbage", "1.0.5"]);
    let r = Versions::resolve_partial_version(Some(&range), &available).unwrap();
    assert_eq!(r.as_str(), "1.0.5");
}

#[test]
fn sort_orders_by_semantic_version() {
    let sorted = Versions::sort(&strings(&["1.10.0", "1.2.0", "junk", "0.9.9"]));
    let sorted: Vec<&str> = sorted.iter().map(|x| x.as_str()).collect();
    assert_eq!(sorted, vec!["junk", "0.9.9", "1.2.0", "1.10.0"]);
}

#[test]
fn sort_keeps_equal_keys_in_first_come_order() {
    // Text that is not a version keys as the lowest possible version, so
    // these two tie; a stable sort leaves them in their given order.
    let sorted = Versions::sort(&strings(&["zzz", "1.0.0", "aaa"]));
    let sorted: Vec<&str> = sorted.iter().map(|x| x.as_str()).collect();
    assert_eq!(sorted, vec!["zzz", "aaa", "1.0.0"]);
}

#[test]
fn range_matching_follows_the_operators() {
    let v = |a, b, c| VersionTriple { major: a, minor: b, patch: c };
    let r = Versions::parse_semantic_version(&s("~1.2.3")).unwrap();
    assert!(Versions::range_matches(&r, &v(1, 2, 3)));
    assert!(Versions::range_matches(&r, &v(1, 2, 9)));
    assert!(!Versions::range_matches(&r, &v(1, 3, 0)));
    let r = Versions::parse_semantic_version(&s("^0.2.3")).unwrap();
    assert!(Versions::range_matches(&r, &v(0, 2, 4)));
    assert!(!Versions::range_matches(&r, &v(0, 3, 0)));
    let r = Versions::parse_semantic_version(&s("^0.0.3")).unwrap();
    assert!(Versions::range_matches(&r, &v(0, 0, 3)));
    assert!(!Versions::range_matches(&r, &v(0, 0, 4)));
    let r = Versions::parse_semantic_version(&s("1.*")).unwrap();
    assert!(Versions::range_matches(&r, &v(1, 9, 9)));
    assert!(!Versions::range_matches(&r, &v(2, 0, 0)));
}

#[test]
fn stringify_builds_fingerprints_and_triples() {
    assert_eq!(Versions::stringify(&s("foo"), &s("1.2.3")).as_str(), "foo@1.2.3");
    assert_eq!(Versions::stringify_from_nums(1, 22, 333).as_str(), "1.22.333");
    assert_eq!(Versions::stringify_from_nums(0, 0, 0).as_str(), "0.0.0");
}

#[test]
fn is_latest_only_accepts_the_marker() {
    assert!(Versions::is_latest(Some(&s("latest"))));
    assert!(!Versions::is_latest(Some(&s("1.2.3"))));
    assert!(!Versions::is_latest(None));
}
