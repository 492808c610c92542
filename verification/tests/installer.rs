use pie::cache::Cache;
use pie::errors::CommandError;
use pie::errors::ParseError;
use pie::installer::DependencyPlan;
use pie::installer::Installer;
use pie::types::Dist;
use pie::types::PackageData;
use pie::types::VersionData;
use pie::versions::Versions;

fn s(x: &str) -> String {
    x.to_string()
}

fn vd(name: &str, version: &str) -> VersionData {
    VersionData {
        name: s(name),
        version: s(version),
        dependencies: None,
        dist: Dist { tarball: format!("https://example.invalid/{}-{}.tgz", name, version) },
    }
}

fn catalog(name: &str, versions: &[&str]) -> PackageData {
    PackageData {
        versions: versions.iter().map(|v| (v.to_string(), vd(name, v))).collect(),
    }
}

fn empty_cache() -> Cache {
    Cache::get_cached_versions(&Vec::new())
}

#[test]
fn select_version_data_resolves_against_the_catalog() {
    let range = Versions::parse_semantic_version(&s("^1.2.0")).unwrap();
    let data = Installer::select_version_data(
        catalog("foo", &["1.2.0", "1.2.5", "1.3.0", "2.0.0"]),
        Some(&range),
    )
    .unwrap();
    assert_eq!(data.version.as_str(), "1.3.0");
    assert_eq!(data.name.as_str(), "foo");
}

#[test]
fn select_version_data_fails_when_nothing_matches() {
    let range = Versions::parse_semantic_version(&s("^9.0.0")).unwrap();
    let r = Installer::select_version_data(catalog("foo", &["1.2.0"]), Some(&range));
    assert_eq!(r.err(), Some(CommandError::InvalidVersion));
}

#[test]
fn cache_short_circuit_plans_a_link_instead_of_a_fetch() {
    // The requested version is cached, so the plan names the cached
    // fingerprint and asks for no fetch at all.
    let cache = Cache::get_cached_versions(&vec![(s("foo@1.2.3"), false)]);
    let entries: Vec<String> = Vec::new();
    let (_, plan) =
        Installer::plan_dependency(&s("foo"), &s("=1.2.3"), &cache, &entries).unwrap();
    match plan {
        DependencyPlan::UseCached { fingerprint } => {
            assert_eq!(fingerprint.as_str(), "foo@1.2.3")
        },
        _ => panic!("expected the cached fingerprint to be used"),
    }
}

#[test]
fn uncached_pinnable_range_plans_a_direct_fetch() {
    let cache = empty_cache();
    let entries: Vec<String> = Vec::new();
    let (range, plan) =
        Installer::plan_dependency(&s("foo"), &s("^1.2.3"), &cache, &entries).unwrap();
    match plan {
        DependencyPlan::FetchDirect { version } => assert_eq!(version.as_str(), "1.2.3"),
        _ => panic!("expected a direct fetch"),
    }
    assert_eq!(range.major, 1);
}

#[test]
fn open_range_plans_a_direct_fetch_of_the_newest() {
    let cache = empty_cache();
    let entries: Vec<String> = Vec::new();
    let (_, plan) =
        Installer::plan_dependency(&s("foo"), &s(">=1.0.0"), &cache, &entries).unwrap();
    match plan {
        DependencyPlan::FetchDirect { version } => assert_eq!(version.as_str(), "latest"),
        _ => panic!("expected a direct fetch of the newest version"),
    }
}

#[test]
fn partial_range_plans_a_version_list_fetch() {
    let cache = empty_cache();
    let entries: Vec<String> = Vec::new();
    let (_, plan) = Installer::plan_dependency(&s("foo"), &s("<1.2.0"), &cache, &entries).unwrap();
    assert!(matches!(plan, DependencyPlan::FetchList));
}

#[test]
fn bad_range_fails_the_plan() {
    let cache = empty_cache();
    let entries: Vec<String> = Vec::new();
    let r = Installer::plan_dependency(&s("foo"), &s("not a range"), &cache, &entries);
    assert_eq!(r.err(), Some(ParseError::InvalidVersionNotation));
}
