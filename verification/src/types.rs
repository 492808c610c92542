//! The plain data carried through an install run: registry metadata as the
//! caller hands it in, and the lock record kept per resolved fingerprint.

use vstd::prelude::*;

verus! {

/// Everything the registry reports for one package: its catalog of concrete
/// versions, each entry pairing a version text with that version's metadata.
pub struct PackageData {
    pub versions: Vec<(String, VersionData)>,
}

/// Registry metadata for one concrete version of a package.
#[derive(Debug)]
pub struct VersionData {
    pub name: String,
    pub version: String,
    pub dependencies: Option<Vec<(String, String)>>,
    pub dist: Dist,
}

/// Where a version's archive can be downloaded.
#[derive(Debug)]
pub struct Dist {
    pub tarball: String,
}

/// The lock record of one resolved fingerprint: whether it was installed as
/// the newest version of its package, and the fingerprints it depends on.
#[derive(Debug)]
pub struct PackageLock {
    pub is_latest: bool,
    pub dependencies: Vec<String>,
}

/// The mathematical value of a lock record.
#[verifier::ext_equal]
pub ghost struct LockView {
    pub is_latest: bool,
    pub dependencies: Seq<Seq<char>>,
}

impl View for PackageLock {
    type V = LockView;

    open spec fn view(&self) -> LockView {
        LockView { is_latest: self.is_latest, dependencies: self.dependencies.deep_view() }
    }
}

impl PackageLock {
    /// A fresh record with no dependencies yet.
    pub fn new(is_latest: bool) -> (r: Self)
        ensures
            r.is_latest == is_latest,
            r.dependencies@.len() == 0,
    {
        Self { is_latest, dependencies: Vec::new() }
    }
}

} // verus!
