use pie::cache::Cache;
use pie::graph::DependencyGraph;
use pie::installer::DependencyPlan;
use pie::installer::Installer;
use pie::installer::PackageInfo;
use pie::tasks::TaskAllocator;
use pie::types::Dist;
use pie::types::VersionData;
use pie::versions::Versions;

fn s(x: &str) -> String {
    x.to_string()
}

/// A tiny in-memory registry: every package has the one version 1.0.0.
fn registry(name: &str, dependencies: &[(&str, &str)]) -> VersionData {
    VersionData {
        name: s(name),
        version: s("1.0.0"),
        dependencies: if dependencies.is_empty() {
            None
        } else {
            Some(dependencies.iter().map(|(n, r)| (n.to_string(), r.to_string())).collect())
        },
        dist: Dist { tarball: format!("https://example.invalid/{}-1.0.0.tgz", name) },
    }
}

struct Run {
    graph: DependencyGraph,
    parents: Vec<String>,
    tasks: TaskAllocator,
    cache: Cache,
    extractions: Vec<String>,
    fetch: fn(&str) -> VersionData,
}

/// Drives one package's install the way the program does: register, then as
/// one unit of work download its archive, hand the bytes to extraction, and
/// resolve its declared dependencies.
fn install(run: &mut Run, info: PackageInfo) {
    if !Installer::install_package(&mut run.graph, &mut run.parents, &info) {
        return;
    }
    run.tasks.increment_tasks();
    // The downloaded bytes go one way into the extraction pipeline.
    run.extractions.push(info.stringified.clone());
    let dependencies = info.version_data.dependencies.clone().unwrap_or_default();
    let dir_entries: Vec<String> = Vec::new();
    for (dep_name, dep_range) in dependencies {
        let (_, plan) =
            Installer::plan_dependency(&dep_name, &dep_range, &run.cache, &dir_entries).unwrap();
        match plan {
            DependencyPlan::UseCached { fingerprint } => {
                Installer::append_version(&run.parents, fingerprint, &mut run.graph);
            },
            DependencyPlan::FetchDirect { version: _ } | DependencyPlan::FetchList => {
                let version_data = (run.fetch)(dep_name.as_str());
                let stringified =
                    Versions::stringify(&version_data.name, &version_data.version);
                Installer::append_version(&run.parents, stringified.clone(), &mut run.graph);
                let dep_info = PackageInfo {
                    version_data,
                    is_latest: Versions::is_latest(Some(&stringified)),
                    stringified,
                };
                install(run, dep_info);
            },
        }
    }
    run.tasks.decrement_tasks();
}

fn fresh_run(fetch: fn(&str) -> VersionData) -> Run {
    Run {
        graph: DependencyGraph::new(),
        parents: Vec::new(),
        tasks: TaskAllocator::new(),
        cache: Cache::get_cached_versions(&Vec::new()),
        extractions: Vec::new(),
        fetch,
    }
}

fn tree_fetch(name: &str) -> VersionData {
    match name {
        "app" => registry("app", &[("b", "=1.0.0"), ("c", "=1.0.0"), ("d", "=1.0.0")]),
        "b" => registry("b", &[("e", "=1.0.0")]),
        "c" => registry("c", &[("f", "=1.0.0")]),
        "d" => registry("d", &[("g", "=1.0.0")]),
        other => registry(other, &[]),
    }
}

#[test]
fn barrier_clears_after_all_seven_extractions() {
    // A root with three direct dependencies, each with one further
    // dependency: exactly seven archives flow into extraction, and only once
    // all of them have, the in-flight count reaches zero.
    let mut run = fresh_run(tree_fetch);
    let root = tree_fetch("app");
    let stringified = Versions::stringify(&root.name, &root.version);
    install(
        &mut run,
        PackageInfo { version_data: root, is_latest: false, stringified },
    );
    assert_eq!(run.extractions.len(), 7);
    assert_eq!(run.tasks.active_tasks(), 0);
    assert_eq!(run.graph.len(), 7);
}

fn diamond_fetch(name: &str) -> VersionData {
    match name {
        "app" => registry("app", &[("left", "=1.0.0"), ("right", "=1.0.0")]),
        "left" => registry("left", &[("shared", "=1.0.0")]),
        "right" => registry("right", &[("shared", "=1.0.0")]),
        other => registry(other, &[]),
    }
}

#[test]
fn diamond_dependency_is_extracted_once() {
    // Both sides of the diamond declare the same package; the dedup gate lets
    // only one branch download and extract it.
    let mut run = fresh_run(diamond_fetch);
    let root = diamond_fetch("app");
    let stringified = Versions::stringify(&root.name, &root.version);
    install(
        &mut run,
        PackageInfo { version_data: root, is_latest: false, stringified },
    );
    assert_eq!(run.extractions.len(), 4);
    let shared: Vec<&String> =
        run.extractions.iter().filter(|f| f.as_str() == "shared@1.0.0").collect();
    assert_eq!(shared.len(), 1);
    // Both parents still record the shared package.
    assert!(run.graph.get(&s("left@1.0.0")).unwrap().dependencies.contains(&s("shared@1.0.0")));
    assert!(run.graph.get(&s("right@1.0.0")).unwrap().dependencies.contains(&s("shared@1.0.0")));
    assert_eq!(run.tasks.active_tasks(), 0);
}

fn cyclic_fetch(name: &str) -> VersionData {
    match name {
        "ping" => registry("ping", &[("pong", "=1.0.0")]),
        "pong" => registry("pong", &[("ping", "=1.0.0")]),
        other => registry(other, &[]),
    }
}

#[test]
fn cyclic_declarations_terminate_with_one_record_each() {
    let mut run = fresh_run(cyclic_fetch);
    let root = cyclic_fetch("ping");
    let stringified = Versions::stringify(&root.name, &root.version);
    install(
        &mut run,
        PackageInfo { version_data: root, is_latest: false, stringified },
    );
    assert_eq!(run.extractions, vec![s("ping@1.0.0"), s("pong@1.0.0")]);
    assert_eq!(run.graph.len(), 2);
    assert_eq!(run.tasks.active_tasks(), 0);
}

#[test]
fn task_ledger_counts_in_and_out() {
    let mut tasks = TaskAllocator::new();
    assert_eq!(tasks.active_tasks(), 0);
    tasks.increment_tasks();
    tasks.increment_tasks();
    assert_eq!(tasks.active_tasks(), 2);
    tasks.decrement_tasks();
    assert_eq!(tasks.active_tasks(), 1);
    tasks.decrement_tasks();
    assert_eq!(tasks.active_tasks(), 0);
}
