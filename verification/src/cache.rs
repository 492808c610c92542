//! The local install cache, as one run sees it.
//!
//! At process start the caller reads the cache directory once and hands this
//! module the listing: one lock record per cached fingerprint directory. From
//! then on every "is this already installed" question is answered from that
//! snapshot, without touching the network; the caller only returns to the
//! disk to link a cached package into the active project tree, following the
//! link plan computed here.

use vstd::prelude::*;
use vstd::hash_map::StringHashMap;
use vstd::string::StrSliceExecFns;

use crate::text;
use crate::types::PackageLock;
use crate::versions::latest_seq;
use crate::versions::range_matches;
use crate::versions::spec_split_package;
use crate::versions::version_key;
use crate::versions::VersionRange;
use crate::versions::Versions;

verus! {

/// One package's cache entry: the version its directory holds and whether it
/// was installed as the newest version.
pub struct CachedVersion {
    pub version: String,
    pub is_latest: bool,
}

/// The pre-run snapshot of the on-disk cache, keyed by package name.
pub struct Cache {
    entries: StringHashMap<CachedVersion>,
}

/// Building the snapshot from directory entries: each cache directory name
/// splits into package name and version, and a later entry for the same name
/// wins.
pub open spec fn spec_build_cache(entries: Seq<(Seq<char>, bool)>) -> Map<
    Seq<char>,
    (Seq<char>, bool),
>
    decreases entries.len(),
{
    if entries.len() == 0 {
        Map::<Seq<char>, (Seq<char>, bool)>::empty()
    } else {
        spec_build_cache(entries.drop_last()).insert(
            spec_split_package(entries.last().0).0,
            (spec_split_package(entries.last().0).1, entries.last().1),
        )
    }
}

/// The range-only lookup: the first directory entry, in listing order, whose
/// name opens with the package name and whose version part satisfies the
/// range. The version part of an entry without one reads as the
/// newest-version marker, which keys as the lowest possible version.
pub open spec fn spec_scan_entries(
    name: Seq<char>,
    r: VersionRange,
    entries: Seq<Seq<char>>,
) -> Option<Seq<char>>
    decreases entries.len(),
{
    if entries.len() == 0 {
        None
    } else {
        let ver = spec_split_package(entries[0]).1;
        if name.is_prefix_of(entries[0]) && range_matches(r, version_key(ver)) {
            Some(ver)
        } else {
            spec_scan_entries(name, r, entries.drop_first())
        }
    }
}

/// What a cache lookup answers: whether the request is served from the cache
/// and, if so, by which version.
pub open spec fn spec_lookup(
    m: Map<Seq<char>, (Seq<char>, bool)>,
    name: Seq<char>,
    version: Option<Seq<char>>,
    range: Option<VersionRange>,
    entries: Seq<Seq<char>>,
) -> (bool, Option<Seq<char>>) {
    match version {
        Some(v) => if v == latest_seq() {
            if m.contains_key(name) && m[name].1 {
                (true, Some(m[name].0))
            } else {
                (false, None)
            }
        } else {
            (m.contains_key(name) && m[name].0 == v, Some(v))
        },
        None => match spec_scan_entries(name, range->0, entries) {
            Some(ver) => (true, Some(ver)),
            None => (false, None),
        },
    }
}

/// The links that materializing a cached fingerprint creates: one per
/// recorded dependency and one for the package itself, each from the cached
/// fingerprint directory to the plain package name.
pub open spec fn spec_link_plan(package: Seq<char>, deps: Seq<Seq<char>>) -> Seq<
    (Seq<char>, Seq<char>),
> {
    let all = deps.push(package);
    Seq::new(all.len(), |i: int| (all[i], spec_split_package(all[i]).0))
}

impl Cache {
    /// The snapshot as a map from package name to cached version and
    /// newest-version flag.
    pub closed spec fn spec_map(&self) -> Map<Seq<char>, (Seq<char>, bool)> {
        Map::new(
            |k: Seq<char>| self.entries@.contains_key(k),
            |k: Seq<char>| (self.entries@[k].version@, self.entries@[k].is_latest),
        )
    }

    /// Builds the snapshot from the cache directory's listing: one pair per
    /// cached fingerprint directory, its name and its lock record's
    /// newest-version flag.
    pub fn get_cached_versions(lock_entries: &Vec<(String, bool)>) -> (r: Cache)
        ensures
            r.spec_map() == spec_build_cache(lock_entries.deep_view()),
    {
        let ghost dv = lock_entries.deep_view();
        let mut cache = Cache { entries: StringHashMap::new() };
        proof {
            assert(cache.spec_map() =~= spec_build_cache(dv.take(0)));
        }
        let mut i: usize = 0;
        while i < lock_entries.len()
            invariant
                0 <= i <= lock_entries@.len(),
                dv == lock_entries.deep_view(),
                dv.len() == lock_entries@.len(),
                cache.spec_map() == spec_build_cache(dv.take(i as int)),
            decreases lock_entries@.len() - i,
        {
            let (name, version) = Versions::parse_raw_package_details(lock_entries[i].0.clone());
            let is_latest = lock_entries[i].1;
            proof {
                assert(dv[i as int] == (lock_entries@[i as int].0@, lock_entries@[i as int].1));
            }
            let ghost prev = cache.spec_map();
            let ghost namev = name@;
            let ghost verv = version@;
            cache.entries.insert(name, CachedVersion { version, is_latest });
            i += 1;
            proof {
                assert(cache.spec_map() =~= prev.insert(namev, (verv, is_latest)));
                assert(dv.take(i as int).drop_last() =~= dv.take(i as int - 1));
                assert(dv.take(i as int).last() == dv[i as int - 1]);
            }
        }
        proof {
            assert(dv.take(lock_entries@.len() as int) =~= dv);
        }
        cache
    }

    /// The cached version of a package, provided it was installed as the
    /// newest version.
    pub fn get_latest_version_in_cache(&self, package_name: &String) -> (r: Option<String>)
        ensures
            match r {
                Some(v) => self.spec_map().contains_key(package_name@) && self.spec_map()[
                    package_name@].1 && v@ == self.spec_map()[package_name@].0,
                None => !(self.spec_map().contains_key(package_name@) && self.spec_map()[
                    package_name@].1),
            },
    {
        match self.entries.get(package_name.as_str()) {
            Some(v) => {
                if v.is_latest {
                    Some(v.version.clone())
                } else {
                    None
                }
            },
            None => None,
        }
    }

    /// Whether the cache holds exactly this version of the package.
    pub fn is_in_cache(&self, package: &String, version: &String) -> (b: bool)
        ensures
            b == (self.spec_map().contains_key(package@) && self.spec_map()[package@].0
                == version@),
    {
        match self.entries.get(package.as_str()) {
            Some(v) => text::str_eq(v.version.as_str(), version.as_str()),
            None => false,
        }
    }

    /// Answers whether a request is served from the cache, and by which
    /// version: a newest-version request from the snapshot's flag, a concrete
    /// version from the snapshot's entry, and a bare range by scanning the
    /// cache directory's listing.
    pub fn lookup(
        &self,
        package_name: &String,
        version: Option<&String>,
        sem_ver: Option<&VersionRange>,
        dir_entries: &Vec<String>,
    ) -> (r: (bool, Option<String>))
        requires
            version is None ==> sem_ver is Some,
        ensures
            ({
                let spec = spec_lookup(
                    self.spec_map(),
                    package_name@,
                    match version {
                        Some(v) => Some(v@),
                        None => None,
                    },
                    match sem_ver {
                        Some(r) => Some(*r),
                        None => None,
                    },
                    dir_entries.deep_view(),
                );
                r.0 == spec.0 && (match r.1 {
                    Some(v) => spec.1 == Some(v@),
                    None => spec.1 is None,
                })
            }),
    {
        if let Some(version) = version {
            if text::str_eq(version.as_str(), "latest") {
                let latest_version = self.get_latest_version_in_cache(package_name);
                let hit = latest_version.is_some();
                return (hit, latest_version);
            }
            return (self.is_in_cache(package_name, version), Some(version.clone()));
        }
        let r = match sem_ver {
            Some(r) => r,
            None => {
                proof {
                    assert(false);
                }
                return (false, None);
            },
        };
        let ghost dv = dir_entries.deep_view();
        let n = dir_entries.len();
        let mut i: usize = 0;
        proof {
            assert(dv.skip(0) =~= dv);
        }
        while i < n
            invariant
                0 <= i <= n,
                n == dv.len(),
                dv == dir_entries.deep_view(),
                spec_scan_entries(package_name@, *r, dv) == spec_scan_entries(
                    package_name@,
                    *r,
                    dv.skip(i as int),
                ),
            decreases n - i,
        {
            proof {
                assert(dv.skip(i as int)[0] == dv[i as int]);
                assert(dv[i as int] == dir_entries@[i as int]@);
                assert(dv.skip(i as int).drop_first() =~= dv.skip(i as int + 1));
            }
            let filename = &dir_entries[i];
            if text::str_starts_with(filename.as_str(), package_name.as_str()) {
                let (_, entry_version) = Versions::parse_raw_package_details(filename.clone());
                let key = Versions::version_key_of(entry_version.as_str());
                if Versions::range_matches(r, &key) {
                    return (true, Some(entry_version));
                }
            }
            i += 1;
        }
        (false, None)
    }

    /// The link plan for materializing a cached fingerprint: for the package
    /// itself and every dependency its lock record names, a link from that
    /// fingerprint's cache directory to the plain package name.
    pub fn load_cached_version(package: String, lock: &PackageLock) -> (r: Vec<(String, String)>)
        ensures
            r.deep_view() == spec_link_plan(package@, lock.dependencies.deep_view()),
    {
        let ghost deps = lock.dependencies.deep_view();
        let ghost all = deps.push(package@);
        let mut r: Vec<(String, String)> = Vec::new();
        let mut i: usize = 0;
        while i < lock.dependencies.len()
            invariant
                0 <= i <= lock.dependencies@.len(),
                deps == lock.dependencies.deep_view(),
                deps.len() == lock.dependencies@.len(),
                r.deep_view().len() == i,
                forall|j: int|
                    0 <= j < i ==> #[trigger] r.deep_view()[j] == (
                    deps[j],
                    spec_split_package(deps[j]).0,
                ),
            decreases lock.dependencies@.len() - i,
        {
            let d = lock.dependencies[i].clone();
            let link_source = d.clone();
            let (name, _) = Versions::parse_raw_package_details(d);
            let ghost rv = r.deep_view();
            r.push((link_source, name));
            proof {
                assert(deps[i as int] == lock.dependencies@[i as int]@);
                assert(r.deep_view() =~~= rv.push((deps[i as int], spec_split_package(
                    deps[i as int],
                ).0)));
            }
            i += 1;
        }
        let link_source = package.clone();
        let (name, _) = Versions::parse_raw_package_details(package);
        let ghost rv = r.deep_view();
        r.push((link_source, name));
        proof {
            assert(r.deep_view() =~~= rv.push((all.last(), spec_split_package(all.last()).0)));
            assert(r.deep_view() =~~= spec_link_plan(all.last(), deps));
        }
        r
    }
}

} // verus!
