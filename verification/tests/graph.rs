use pie::graph::DependencyGraph;
use pie::types::PackageLock;
use pie::installer::Installer;
use pie::installer::PackageInfo;
use pie::types::Dist;
use pie::types::VersionData;
use pie::versions::Versions;

fn s(x: &str) -> String {
    x.to_string()
}

fn info(name: &str, version: &str, is_latest: bool) -> PackageInfo {
    PackageInfo {
        version_data: VersionData {
            name: s(name),
            version: s(version),
            dependencies: None,
            dist: Dist { tarball: format!("https://example.invalid/{}-{}.tgz", name, version) },
        },
        is_latest,
        stringified: Versions::stringify(&s(name), &s(version)),
    }
}

#[test]
fn register_dedups_each_fingerprint() {
    let mut graph = DependencyGraph::new();
    assert!(!graph.register(s("foo@1.0.0"), false));
    assert!(graph.register(s("foo@1.0.0"), false));
    assert!(graph.register(s("foo@1.0.0"), true));
    assert_eq!(graph.len(), 1);
    assert!(!graph.register(s("foo@1.0.1"), false));
    assert_eq!(graph.len(), 2);
}

#[test]
fn register_keeps_the_first_record() {
    let mut graph = DependencyGraph::new();
    graph.register(s("foo@1.0.0"), true);
    graph.register(s("foo@1.0.0"), false);
    let lock = graph.get(&s("foo@1.0.0")).unwrap();
    assert!(lock.is_latest);
    assert!(lock.dependencies.is_empty());
}

#[test]
fn append_child_reaches_every_named_parent() {
    let mut graph = DependencyGraph::new();
    graph.register(s("a@1.0.0"), false);
    graph.register(s("b@2.0.0"), false);
    let parents = vec![s("a@1.0.0"), s("b@2.0.0")];
    Installer::append_version(&parents, s("c@3.0.0"), &mut graph);
    assert_eq!(graph.get(&s("a@1.0.0")).unwrap().dependencies, vec![s("c@3.0.0")]);
    assert_eq!(graph.get(&s("b@2.0.0")).unwrap().dependencies, vec![s("c@3.0.0")]);
}

#[test]
fn append_child_creates_a_missing_parent_row() {
    let mut graph = DependencyGraph::new();
    let parents = vec![s("root@latest"), s("other@1.0.0")];
    Installer::append_version(&parents, s("dep@1.0.0"), &mut graph);
    // A parent row made on the fly takes its flag from the parent's text.
    let root = graph.get(&s("root@latest")).unwrap();
    assert!(root.is_latest);
    assert_eq!(root.dependencies, vec![s("dep@1.0.0")]);
    let other = graph.get(&s("other@1.0.0")).unwrap();
    assert!(!other.is_latest);
    assert_eq!(other.dependencies, vec![s("dep@1.0.0")]);
}

#[test]
fn install_package_runs_once_per_fingerprint() {
    let mut graph = DependencyGraph::new();
    let mut parents: Vec<String> = Vec::new();
    let root = info("app", "1.0.0", true);
    assert!(Installer::install_package(&mut graph, &mut parents, &root));
    assert_eq!(parents, vec![s("app@1.0.0")]);
    // A cyclic or diamond declaration reaches the same fingerprint again: the
    // gate stops it without touching the graph.
    assert!(!Installer::install_package(&mut graph, &mut parents, &root));
    assert_eq!(graph.len(), 1);
    assert_eq!(parents, vec![s("app@1.0.0")]);
}

#[test]
fn ancestor_propagation_records_each_level() {
    // Installing a@1.0.0 -> b@1.0.0 -> c@1.0.0 leaves b among a's
    // dependencies and c among b's.
    let mut graph = DependencyGraph::new();
    let mut parents: Vec<String> = Vec::new();
    assert!(Installer::install_package(&mut graph, &mut parents, &info("a", "1.0.0", false)));
    Installer::append_version(&parents, s("b@1.0.0"), &mut graph);
    assert!(Installer::install_package(&mut graph, &mut parents, &info("b", "1.0.0", false)));
    Installer::append_version(&parents, s("c@1.0.0"), &mut graph);
    assert!(Installer::install_package(&mut graph, &mut parents, &info("c", "1.0.0", false)));
    let a = graph.get(&s("a@1.0.0")).unwrap();
    assert!(a.dependencies.contains(&s("b@1.0.0")));
    let b = graph.get(&s("b@1.0.0")).unwrap();
    assert!(b.dependencies.contains(&s("c@1.0.0")));
}

#[test]
fn lockfiles_read_back_as_their_records() {
    let mut graph = DependencyGraph::new();
    graph.register(s("a@1.0.0"), true);
    graph.register(s("b@2.0.0"), false);
    graph.append_child(&s("a@1.0.0"), &s("b@2.0.0"));
    for (fingerprint, document) in graph.lockfiles() {
        let lock = PackageLock::from_json_str(document.as_str()).expect("canonical document");
        let row = graph.get(&fingerprint).unwrap();
        assert_eq!(lock.is_latest, row.is_latest);
        assert_eq!(lock.dependencies, row.dependencies);
    }
}

#[test]
fn lockfiles_render_every_row() {
    let mut graph = DependencyGraph::new();
    graph.register(s("a@1.0.0"), true);
    graph.register(s("b@2.0.0"), false);
    graph.append_child(&s("a@1.0.0"), &s("b@2.0.0"));
    let files = graph.lockfiles();
    assert_eq!(files.len(), 2);
    assert_eq!(files[0].0, s("a@1.0.0"));
    assert_eq!(files[0].1, "{\"isLatest\":true,\"dependencies\":[\"b@2.0.0\"]}");
    assert_eq!(files[1].0, s("b@2.0.0"));
    assert_eq!(files[1].1, "{\"isLatest\":false,\"dependencies\":[]}");
}
