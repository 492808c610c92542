//! The install orchestrator's decisions.
//!
//! The recursive install of a dependency tree alternates between outside work
//! — fetching metadata, downloading archives — and decisions. Every decision
//! lives here as a pure function over plain values: whether a fingerprint is
//! new or already handled, how a dependency's range resolves, whether the
//! cache serves it, and how the dependency graph must change. The caller
//! performs the outside work these decisions call for and feeds the results
//! back in.

use vstd::prelude::*;

use crate::cache;
use crate::cache::Cache;
use crate::errors::CommandError;
use crate::errors::ParseError;
use crate::graph;
use crate::graph::DependencyGraph;
use crate::text;
use crate::types::LockView;
use crate::types::PackageData;
use crate::types::VersionData;
use crate::versions;
use crate::versions::fingerprint_seq;
use crate::versions::VersionRange;
use crate::versions::Versions;

verus! {

/// Everything known about a package at the moment it is installed.
pub struct PackageInfo {
    pub version_data: VersionData,
    pub is_latest: bool,
    pub stringified: String,
}

impl PackageInfo {
    /// The carried fingerprint is the canonical one of the metadata's name
    /// and version.
    pub open spec fn wf(&self) -> bool {
        self.stringified@ == fingerprint_seq(self.version_data.name@, self.version_data.version@)
    }
}

/// How one declared dependency is to be satisfied.
pub enum DependencyPlan {
    /// Served from the cache: record and link this fingerprint; no network.
    UseCached { fingerprint: String },
    /// Fetch this concrete version's metadata directly.
    FetchDirect { version: String },
    /// Fetch the package's whole version list and resolve against it.
    FetchList,
}

/// The version texts under which a registry catalog lists its versions.
pub open spec fn spec_catalog_keys(pd: &PackageData) -> Seq<Seq<char>> {
    Seq::new(pd.versions@.len(), |i: int| pd.versions@[i].0@)
}

/// Namespace for the orchestrator's decision functions.
pub struct Installer;

impl Installer {
    /// The sole dedup gate: reports whether this package's fingerprint
    /// already has a record, and registers a fresh empty one when it does
    /// not, in one step.
    pub fn already_resolved(graph: &mut DependencyGraph, package_info: &PackageInfo) -> (already:
        bool)
        ensures
            already == old(graph).contains(
                fingerprint_seq(
                    package_info.version_data.name@,
                    package_info.version_data.version@,
                ),
            ),
            already ==> final(graph).entries_view() == old(graph).entries_view(),
            !already ==> final(graph).entries_view() == old(graph).entries_view().push(
                (
                    fingerprint_seq(
                        package_info.version_data.name@,
                        package_info.version_data.version@,
                    ),
                    LockView {
                        is_latest: package_info.is_latest,
                        dependencies: Seq::<Seq<char>>::empty(),
                    },
                ),
            ),
            final(graph).contains(
                fingerprint_seq(
                    package_info.version_data.name@,
                    package_info.version_data.version@,
                ),
            ),
            old(graph).wf() ==> final(graph).wf(),
    {
        let stringified = Versions::stringify(
            &package_info.version_data.name,
            &package_info.version_data.version,
        );
        graph.register(stringified, package_info.is_latest)
    }

    /// Records a newly resolved fingerprint as a dependency of every
    /// currently open ancestor, in order.
    pub fn append_version(
        parents: &Vec<String>,
        new_version_name: String,
        graph: &mut DependencyGraph,
    )
        ensures
            final(graph).entries_view() == graph::spec_append_all(
                old(graph).entries_view(),
                parents.deep_view(),
                new_version_name@,
            ),
            old(graph).wf() ==> final(graph).wf(),
    {
        let ghost old_view = graph.entries_view();
        let ghost pv = parents.deep_view();
        let mut i: usize = 0;
        proof {
            assert(graph.entries_view() =~= graph::spec_append_all(
                old_view,
                pv.take(0),
                new_version_name@,
            ));
        }
        while i < parents.len()
            invariant
                0 <= i <= parents@.len(),
                pv == parents.deep_view(),
                pv.len() == parents@.len(),
                graph.entries_view() == graph::spec_append_all(
                    old_view,
                    pv.take(i as int),
                    new_version_name@,
                ),
                old(graph).wf() ==> graph.wf(),
            decreases parents@.len() - i,
        {
            proof {
                assert(pv[i as int] == parents@[i as int]@);
            }
            graph.append_child(&parents[i], &new_version_name);
            i += 1;
            proof {
                lemma_append_all_snoc(
                    old_view,
                    pv.take(i as int - 1),
                    pv[i as int - 1],
                    new_version_name@,
                );
                assert(pv.take(i as int - 1).push(pv[i as int - 1]) =~= pv.take(i as int));
            }
        }
        proof {
            assert(pv.take(parents@.len() as int) =~= pv);
        }
    }

    /// One package's registration step: stop if its fingerprint is already
    /// handled; otherwise create its empty record and open the fingerprint as
    /// an ancestor for its own dependencies. Returns whether the caller
    /// should go on to download and recurse.
    pub fn install_package(
        graph: &mut DependencyGraph,
        parents: &mut Vec<String>,
        package_info: &PackageInfo,
    ) -> (proceed: bool)
        requires
            package_info.wf(),
        ensures
            proceed == !old(graph).contains(package_info.stringified@),
            !proceed ==> final(graph).entries_view() == old(graph).entries_view(),
            !proceed ==> final(parents).deep_view() == old(parents).deep_view(),
            proceed ==> final(graph).entries_view() == old(graph).entries_view().push(
                (
                    package_info.stringified@,
                    LockView {
                        is_latest: package_info.is_latest,
                        dependencies: Seq::<Seq<char>>::empty(),
                    },
                ),
            ),
            proceed ==> final(parents).deep_view() == old(parents).deep_view().push(
                package_info.stringified@,
            ),
            final(graph).contains(package_info.stringified@),
            old(graph).wf() ==> final(graph).wf(),
    {
        if Self::already_resolved(graph, package_info) {
            return false;
        }
        let ghost pv = parents.deep_view();
        parents.push(package_info.stringified.clone());
        proof {
            assert(parents.deep_view() =~= pv.push(package_info.stringified@));
        }
        true
    }

    /// Picks, out of a fetched registry catalog, the version data that a
    /// range resolves to.
    pub fn select_version_data(package_data: PackageData, semantic_version: Option<&VersionRange>) -> (r:
        Result<VersionData, CommandError>)
        requires
            semantic_version is Some,
        ensures
            ({
                let keys = spec_catalog_keys(&package_data);
                let resolved = versions::spec_resolve_partial(*semantic_version->0, keys);
                match r {
                    Ok(vd) => resolved matches Ok(v) && versions::find_text(keys, v) matches Some(i)
                        && vd == package_data.versions@[i].1,
                    Err(e) => e == CommandError::InvalidVersion && (resolved is Err || (
                    resolved matches Ok(v) && versions::find_text(keys, v) is None)),
                }
            }),
    {
        let ghost keys = spec_catalog_keys(&package_data);
        let n = package_data.versions.len();
        let mut key_list: Vec<String> = Vec::new();
        let mut i: usize = 0;
        while i < n
            invariant
                0 <= i <= n,
                n == package_data.versions@.len(),
                keys == spec_catalog_keys(&package_data),
                key_list.deep_view() == keys.take(i as int),
            decreases n - i,
        {
            key_list.push(package_data.versions[i].0.clone());
            i += 1;
            proof {
                assert(key_list.deep_view() =~= keys.take(i as int));
            }
        }
        proof {
            assert(keys.take(n as int) =~= keys);
        }
        let package_version = match Versions::resolve_partial_version(
            semantic_version,
            &key_list,
        ) {
            Ok(v) => v,
            Err(e) => {
                return Err(e);
            },
        };
        proof {
            versions::lemma_find_text(keys, package_version@);
        }
        let mut package_data = package_data;
        let ghost pd0 = package_data;
        let mut i: usize = 0;
        while i < n
            invariant
                0 <= i <= n,
                package_data == pd0,
                n == package_data.versions@.len(),
                keys == spec_catalog_keys(&package_data),
                forall|j: int| 0 <= j < i ==> keys[j] != package_version@,
            decreases n - i,
        {
            proof {
                assert(keys[i as int] == package_data.versions@[i as int].0@);
            }
            if text::str_eq(package_data.versions[i].0.as_str(), package_version.as_str()) {
                proof {
                    if let Some(k) = versions::find_text(keys, package_version@) {
                        assert(!(k < i) && !(i < k));
                    }
                }
                let entry = package_data.versions.remove(i);
                return Ok(entry.1);
            }
            i += 1;
        }
        Err(CommandError::InvalidVersion)
    }

    /// The per-dependency decision of the recursive install: parse the
    /// declared range, try the shortcut resolution, ask the cache, and say
    /// what the caller must do — link the cached fingerprint, fetch one
    /// version directly, or fetch the version list and resolve against it.
    pub fn plan_dependency(
        name: &String,
        raw_range: &String,
        cache: &Cache,
        dir_entries: &Vec<String>,
    ) -> (r: Result<(VersionRange, DependencyPlan), ParseError>)
        ensures
            ({
                match r {
                    Ok(p) => versions::spec_parse_range(raw_range@) == Some(p.0) && {
                        let full = versions::spec_resolve_full(Some(p.0));
                        let looked = cache::spec_lookup(
                            cache.spec_map(),
                            name@,
                            full,
                            Some(p.0),
                            dir_entries.deep_view(),
                        );
                        if looked.0 {
                            p.1 matches DependencyPlan::UseCached { fingerprint } && fingerprint@
                                == fingerprint_seq(name@, looked.1->0)
                        } else {
                            match full {
                                Some(v) => p.1 matches DependencyPlan::FetchDirect { version }
                                    && version@ == v,
                                None => p.1 is FetchList,
                            }
                        }
                    },
                    Err(e) => versions::spec_parse_range(raw_range@) is None && e
                        == ParseError::InvalidVersionNotation,
                }
            }),
    {
        let comparator = match Versions::parse_semantic_version(raw_range) {
            Ok(c) => c,
            Err(e) => {
                return Err(e);
            },
        };
        let full_version = Versions::resolve_full_version(Some(&comparator));
        let (is_cached, cached_version) = cache.lookup(
            name,
            full_version.as_ref(),
            Some(&comparator),
            dir_entries,
        );
        if is_cached {
            let version = match cached_version {
                Some(v) => v,
                None => {
                    proof {
                        assert(false);
                    }
                    return Err(ParseError::InvalidVersionNotation);
                },
            };
            let stringified = Versions::stringify(name, &version);
            return Ok((comparator, DependencyPlan::UseCached { fingerprint: stringified }));
        }
        match full_version {
            Some(v) => Ok((comparator, DependencyPlan::FetchDirect { version: v })),
            None => Ok((comparator, DependencyPlan::FetchList)),
        }
    }
}

/// Appending a child for one more parent at the end of the list is one more
/// child-append after the rest.
proof fn lemma_append_all_snoc(
    s: Seq<(Seq<char>, LockView)>,
    parents: Seq<Seq<char>>,
    p: Seq<char>,
    child: Seq<char>,
)
    ensures
        graph::spec_append_all(s, parents.push(p), child) == graph::spec_append_child(
            graph::spec_append_all(s, parents, child),
            p,
            child,
        ),
    decreases parents.len(),
{
    let q = parents.push(p);
    if parents.len() == 0 {
        assert(q.drop_first() =~= Seq::<Seq<char>>::empty());
        assert(q[0] == p);
        assert(graph::spec_append_all(s, q, child) == graph::spec_append_all(
            graph::spec_append_child(s, p, child),
            q.drop_first(),
            child,
        ));
        assert(graph::spec_append_all(s, parents, child) == s);
    } else {
        let s1 = graph::spec_append_child(s, parents[0], child);
        lemma_append_all_snoc(s1, parents.drop_first(), p, child);
        assert(q[0] == parents[0]);
        assert(q.drop_first() =~= parents.drop_first().push(p));
        assert(graph::spec_append_all(s, q, child) == graph::spec_append_all(
            s1,
            q.drop_first(),
            child,
        ));
        assert(graph::spec_append_all(s, parents, child) == graph::spec_append_all(
            s1,
            parents.drop_first(),
            child,
        ));
    }
}

} // verus!
