//! The dependency graph of one install run: a mapping from fingerprint to
//! lock record, shared by every branch of the run.
//!
//! Its central invariant is deduplication: at most one lock record ever
//! exists per fingerprint. `register` is the sole gate that creates a record
//! for a package about to be installed — it either reports the fingerprint
//! as already present, doing nothing, or inserts a fresh empty record.

use vstd::prelude::*;
use vstd::string::StrSliceExecFns;

use crate::lockfile;
use crate::text;
use crate::types::LockView;
use crate::types::PackageLock;
use crate::versions::latest_seq;

verus! {

/// One row of the graph.
pub struct GraphEntry {
    pub fingerprint: String,
    pub lock: PackageLock,
}

/// The graph itself: fingerprint-to-record rows in insertion order.
pub struct DependencyGraph {
    entries: Vec<GraphEntry>,
}

/// First row holding the given fingerprint, if any.
pub open spec fn find_fp(s: Seq<(Seq<char>, LockView)>, fp: Seq<char>) -> Option<int>
    decreases s.len(),
{
    if s.len() == 0 {
        None
    } else if s[0].0 == fp {
        Some(0int)
    } else {
        match find_fp(s.drop_first(), fp) {
            Some(i) => Some(i + 1),
            None => None,
        }
    }
}

/// `find_fp` returns the first occurrence, or reports that there is none.
pub proof fn lemma_find_fp(s: Seq<(Seq<char>, LockView)>, fp: Seq<char>)
    ensures
        match find_fp(s, fp) {
            Some(i) => 0 <= i < s.len() && s[i].0 == fp && (forall|j: int|
                0 <= j < i ==> s[j].0 != fp),
            None => forall|j: int| 0 <= j < s.len() ==> s[j].0 != fp,
        },
    decreases s.len(),
{
    if s.len() > 0 && s[0].0 != fp {
        let rest = s.drop_first();
        lemma_find_fp(rest, fp);
        match find_fp(rest, fp) {
            Some(i) => {
                assert(s[i + 1] == rest[i]);
                assert forall|j: int| 0 <= j < i + 1 implies s[j].0 != fp by {
                    if j > 0 {
                        assert(s[j] == rest[j - 1]);
                    }
                }
            },
            None => {
                assert forall|j: int| 0 <= j < s.len() implies s[j].0 != fp by {
                    if j > 0 {
                        assert(s[j] == rest[j - 1]);
                    }
                }
            },
        }
    }
}

/// Appending a child to one parent's record: the parent's row gains the child
/// at the end of its dependencies; a parent without a row gets a fresh one
/// whose `is_latest` reflects whether the parent's text ends in the
/// newest-version marker.
pub open spec fn spec_append_child(
    s: Seq<(Seq<char>, LockView)>,
    parent: Seq<char>,
    child: Seq<char>,
) -> Seq<(Seq<char>, LockView)> {
    match find_fp(s, parent) {
        Some(i) => s.update(
            i,
            (
                s[i].0,
                LockView {
                    is_latest: s[i].1.is_latest,
                    dependencies: s[i].1.dependencies.push(child),
                },
            ),
        ),
        None => s.push(
            (
                parent,
                LockView { is_latest: latest_seq().is_suffix_of(parent), dependencies: seq![child] },
            ),
        ),
    }
}

/// Appending a child to every parent in order.
pub open spec fn spec_append_all(
    s: Seq<(Seq<char>, LockView)>,
    parents: Seq<Seq<char>>,
    child: Seq<char>,
) -> Seq<(Seq<char>, LockView)>
    decreases parents.len(),
{
    if parents.len() == 0 {
        s
    } else {
        spec_append_all(spec_append_child(s, parents[0], child), parents.drop_first(), child)
    }
}

impl DependencyGraph {
    /// The rows of the graph, as mathematical values, in insertion order.
    pub closed spec fn entries_view(&self) -> Seq<(Seq<char>, LockView)> {
        Seq::new(self.entries@.len(), |i: int| (self.entries@[i].fingerprint@, self.entries@[i].lock@))
    }

    /// Whether a row exists for the fingerprint.
    pub open spec fn contains(&self, fp: Seq<char>) -> bool {
        find_fp(self.entries_view(), fp) is Some
    }

    /// The record of the fingerprint's first row.
    pub open spec fn lock_of(&self, fp: Seq<char>) -> LockView
        recommends
            self.contains(fp),
    {
        self.entries_view()[find_fp(self.entries_view(), fp)->0].1
    }

    /// The dedup invariant: at most one row per fingerprint.
    pub open spec fn wf(&self) -> bool {
        forall|i: int, j: int|
            0 <= i < j < self.entries_view().len() ==> self.entries_view()[i].0
                != self.entries_view()[j].0
    }

    /// An empty graph.
    pub fn new() -> (r: Self)
        ensures
            r.entries_view() == Seq::<(Seq<char>, LockView)>::empty(),
            r.wf(),
    {
        let r = DependencyGraph { entries: Vec::new() };
        proof {
            assert(r.entries_view() =~= Seq::<(Seq<char>, LockView)>::empty());
        }
        r
    }

    /// How many rows the graph holds.
    pub fn len(&self) -> (n: usize)
        ensures
            n == self.entries_view().len(),
    {
        self.entries.len()
    }

    /// Index of the fingerprint's first row, if any.
    fn find(&self, fingerprint: &String) -> (r: Option<usize>)
        ensures
            match r {
                Some(i) => find_fp(self.entries_view(), fingerprint@) == Some(i as int),
                None => find_fp(self.entries_view(), fingerprint@) is None,
            },
    {
        proof {
            lemma_find_fp(self.entries_view(), fingerprint@);
        }
        let ghost sv = self.entries_view();
        let n = self.entries.len();
        let mut i: usize = 0;
        while i < n
            invariant
                0 <= i <= n,
                n == sv.len(),
                sv == self.entries_view(),
                forall|j: int| 0 <= j < i ==> sv[j].0 != fingerprint@,
            decreases n - i,
        {
            proof {
                assert(sv[i as int].0 == self.entries@[i as int].fingerprint@);
            }
            if text::str_eq(self.entries[i].fingerprint.as_str(), fingerprint.as_str()) {
                proof {
                    if let Some(k) = find_fp(sv, fingerprint@) {
                        assert(!(k < i) && !(i < k));
                    }
                }
                return Some(i);
            }
            i += 1;
        }
        None
    }

    /// A borrowed view of the fingerprint's record, if one exists.
    pub fn get(&self, fingerprint: &String) -> (r: Option<&PackageLock>)
        ensures
            match r {
                Some(l) => self.contains(fingerprint@) && l@ == self.lock_of(fingerprint@),
                None => !self.contains(fingerprint@),
            },
    {
        match self.find(fingerprint) {
            Some(i) => {
                proof {
                    lemma_find_fp(self.entries_view(), fingerprint@);
                    assert(self.entries_view()[i as int].1 == self.entries@[i as int].lock@);
                }
                Some(&self.entries[i].lock)
            },
            None => None,
        }
    }

    /// The single dedup gate: reports whether the fingerprint already has a
    /// row, and inserts a fresh empty record when it does not — one atomic
    /// check-and-insert.
    pub fn register(&mut self, fingerprint: String, is_latest: bool) -> (already: bool)
        ensures
            already == old(self).contains(fingerprint@),
            already ==> final(self).entries_view() == old(self).entries_view(),
            !already ==> final(self).entries_view() == old(self).entries_view().push(
                (fingerprint@, LockView { is_latest, dependencies: Seq::<Seq<char>>::empty() }),
            ),
            final(self).contains(fingerprint@),
            old(self).wf() ==> final(self).wf(),
    {
        let ghost old_view = self.entries_view();
        match self.find(&fingerprint) {
            Some(_) => true,
            None => {
                proof {
                    lemma_find_fp(old_view, fingerprint@);
                }
                let ghost fpv = fingerprint@;
                self.entries.push(
                    GraphEntry { fingerprint, lock: PackageLock::new(is_latest) },
                );
                proof {
                    let new_view = self.entries_view();
                    assert(new_view =~~= old_view.push(
                        (fpv, LockView { is_latest, dependencies: Seq::<Seq<char>>::empty() }),
                    ));
                    lemma_find_fp(new_view, fpv);
                    if find_fp(new_view, fpv) is None {
                        assert(new_view[new_view.len() - 1].0 == fpv);
                    }
                    if old(self).wf() {
                        assert forall|i: int, j: int|
                            0 <= i < j < new_view.len() implies new_view[i].0 != new_view[j].0 by {
                            if j == new_view.len() - 1 {
                                assert(new_view[i].0 == old_view[i].0);
                            }
                        }
                    }
                }
                false
            },
        }
    }

    /// Appends a child fingerprint to one parent's record, creating the
    /// parent's row if it has none.
    pub fn append_child(&mut self, parent: &String, child: &String)
        ensures
            final(self).entries_view() == spec_append_child(
                old(self).entries_view(),
                parent@,
                child@,
            ),
            old(self).wf() ==> final(self).wf(),
    {
        let ghost old_view = self.entries_view();
        match self.find(parent) {
            Some(i) => {
                let ghost iv = i as int;
                proof {
                    lemma_find_fp(old_view, parent@);
                }
                let mut e = self.entries.remove(i);
                let ghost old_deps = e.lock.dependencies.deep_view();
                e.lock.dependencies.push(child.clone());
                proof {
                    assert(e.lock.dependencies.deep_view() =~= old_deps.push(child@));
                }
                self.entries.insert(i, e);
                proof {
                    let new_view = self.entries_view();
                    assert(new_view =~~= spec_append_child(old_view, parent@, child@));
                    if old(self).wf() {
                        assert forall|a: int, b: int|
                            0 <= a < b < new_view.len() implies new_view[a].0 != new_view[b].0 by {
                            assert(new_view[a].0 == old_view[a].0);
                            assert(new_view[b].0 == old_view[b].0);
                        }
                    }
                }
            },
            None => {
                proof {
                    lemma_find_fp(old_view, parent@);
                }
                let is_latest = text::str_ends_with(parent.as_str(), "latest");
                let mut deps: Vec<String> = Vec::new();
                deps.push(child.clone());
                let ghost pv = parent@;
                self.entries.push(
                    GraphEntry {
                        fingerprint: parent.clone(),
                        lock: PackageLock { is_latest, dependencies: deps },
                    },
                );
                proof {
                    let new_view = self.entries_view();
                    assert(new_view =~~= spec_append_child(old_view, pv, child@));
                    if old(self).wf() {
                        assert forall|a: int, b: int|
                            0 <= a < b < new_view.len() implies new_view[a].0 != new_view[b].0 by {
                            assert(new_view[a].0 == old_view[a].0);
                            if b < new_view.len() - 1 {
                                assert(new_view[b].0 == old_view[b].0);
                            }
                        }
                    }
                }
            },
        }
    }

    /// One lock-file document per row: each fingerprint paired with its
    /// record's canonical document.
    pub fn lockfiles(&self) -> (r: Vec<(String, String)>)
        ensures
            r.deep_view().len() == self.entries_view().len(),
            forall|i: int|
                0 <= i < r.deep_view().len() ==> #[trigger] r.deep_view()[i] == (
                self.entries_view()[i].0,
                lockfile::lock_json(
                    self.entries_view()[i].1.is_latest,
                    self.entries_view()[i].1.dependencies,
                ),
            ),
    {
        let ghost sv = self.entries_view();
        let n = self.entries.len();
        let mut r: Vec<(String, String)> = Vec::new();
        let mut i: usize = 0;
        while i < n
            invariant
                0 <= i <= n,
                n == sv.len(),
                sv == self.entries_view(),
                r.deep_view().len() == i,
                forall|j: int|
                    0 <= j < i ==> #[trigger] r.deep_view()[j] == (
                    sv[j].0,
                    lockfile::lock_json(sv[j].1.is_latest, sv[j].1.dependencies),
                ),
            decreases n - i,
        {
            let fp = self.entries[i].fingerprint.clone();
            let doc = self.entries[i].lock.to_json_string();
            proof {
                assert(sv[i as int].0 == self.entries@[i as int].fingerprint@);
                assert(sv[i as int].1 == self.entries@[i as int].lock@);
            }
            let ghost rv_old = r.deep_view();
            r.push((fp, doc));
            proof {
                assert(r.deep_view() =~~= rv_old.push((fp@, doc@)));
            }
            i += 1;
        }
        r
    }
}

/// A child appended for one parent stays recorded for every parent already
/// served, and rows for other fingerprints keep their records.
pub proof fn lemma_append_child_effect(
    s: Seq<(Seq<char>, LockView)>,
    parent: Seq<char>,
    child: Seq<char>,
    fp: Seq<char>,
)
    ensures
        ({
            let t = spec_append_child(s, parent, child);
            &&& (fp == parent ==> find_fp(t, fp) is Some && t[find_fp(t, fp)->0].1.dependencies.contains(
                child,
            ))
            &&& (fp != parent && find_fp(s, fp) is Some ==> find_fp(t, fp) == find_fp(s, fp) && t[find_fp(
                t,
                fp,
            )->0].1.dependencies.contains(child) == s[find_fp(s, fp)->0].1.dependencies.contains(
                child,
            ))
        }),
{
    let t = spec_append_child(s, parent, child);
    lemma_find_fp(s, parent);
    lemma_find_fp(s, fp);
    match find_fp(s, parent) {
        Some(i) => {
            assert(t =~= s.update(
                i,
                (
                    s[i].0,
                    LockView {
                        is_latest: s[i].1.is_latest,
                        dependencies: s[i].1.dependencies.push(child),
                    },
                ),
            ));
            assert forall|j: int| 0 <= j < t.len() implies t[j].0 == s[j].0 by {}
            lemma_find_fp_same_keys(s, t, fp);
            if fp == parent {
                assert(find_fp(t, fp) == find_fp(s, fp));
                assert(t[i].1.dependencies.contains(child)) by {
                    assert(t[i].1.dependencies.last() == child);
                }
            } else {
                if find_fp(s, fp) is Some {
                    let k = find_fp(s, fp)->0;
                    assert(s[k].0 == fp);
                    assert(k != i);
                    assert(t[k] == s[k]);
                }
            }
        },
        None => {
            let entry = (
                parent,
                LockView { is_latest: latest_seq().is_suffix_of(parent), dependencies: seq![child] },
            );
            assert(t == s.push(entry));
            lemma_find_fp(t, fp);
            if fp == parent {
                assert(t[t.len() - 1].0 == fp);
                if find_fp(t, fp) is None {
                    assert(false);
                }
                let k = find_fp(t, fp)->0;
                if k < s.len() {
                    assert(s[k] == t[k]);
                    assert(false);
                }
                assert(t[k].1.dependencies.contains(child)) by {
                    assert(t[k].1.dependencies[0] == child);
                }
            } else {
                if find_fp(s, fp) is Some {
                    let k = find_fp(s, fp)->0;
                    assert(t[k] == s[k]);
                    assert forall|j: int| 0 <= j < k implies t[j].0 != fp by {
                        assert(t[j] == s[j]);
                    }
                    lemma_find_fp_is(t, fp, k);
                }
            }
        },
    }
}

/// Dedup invariant: in a well-formed graph a fingerprint's row is the only
/// row holding that fingerprint — whatever row one picks with a given
/// fingerprint, it is the row the graph's lookup finds.
pub proof fn lemma_dedup(g: &DependencyGraph, fp: Seq<char>, i: int)
    requires
        g.wf(),
        0 <= i < g.entries_view().len(),
        g.entries_view()[i].0 == fp,
    ensures
        find_fp(g.entries_view(), fp) == Some(i),
{
    let s = g.entries_view();
    assert forall|j: int| 0 <= j < i implies s[j].0 != fp by {
        assert(s[j].0 != s[i].0);
    }
    lemma_find_fp_is(s, fp, i);
}

/// No graph operation removes a row: a recorded fingerprint stays recorded
/// through any further registration and any child append. Together with the
/// gate's contract — it inserts only what was absent and reports everything
/// else — each fingerprint is admitted for download at most once over a
/// whole run.
pub proof fn lemma_row_persists(
    s: Seq<(Seq<char>, LockView)>,
    e: (Seq<char>, LockView),
    parent: Seq<char>,
    child: Seq<char>,
    fp: Seq<char>,
)
    requires
        find_fp(s, fp) is Some,
    ensures
        find_fp(s.push(e), fp) is Some,
        find_fp(spec_append_child(s, parent, child), fp) is Some,
{
    lemma_find_fp(s, fp);
    let i = find_fp(s, fp)->0;
    assert(s.push(e)[i] == s[i]);
    assert forall|j: int| 0 <= j < i implies s.push(e)[j].0 != fp by {
        assert(s.push(e)[j] == s[j]);
    }
    lemma_find_fp_is(s.push(e), fp, i);
    lemma_append_child_effect(s, parent, child, fp);
}

/// A row whose record already lists the child keeps listing it through any
/// number of further child appends.
proof fn lemma_append_all_preserves(
    s: Seq<(Seq<char>, LockView)>,
    parents: Seq<Seq<char>>,
    child: Seq<char>,
    fp: Seq<char>,
)
    requires
        find_fp(s, fp) is Some,
        s[find_fp(s, fp)->0].1.dependencies.contains(child),
    ensures
        ({
            let t = spec_append_all(s, parents, child);
            find_fp(t, fp) is Some && t[find_fp(t, fp)->0].1.dependencies.contains(child)
        }),
    decreases parents.len(),
{
    if parents.len() > 0 {
        let s1 = spec_append_child(s, parents[0], child);
        lemma_append_child_effect(s, parents[0], child, fp);
        lemma_append_all_preserves(s1, parents.drop_first(), child, fp);
    }
}

/// Ancestor propagation: appending a child for a list of parents leaves the
/// child recorded in every one of those parents' records.
pub proof fn lemma_append_all_records(
    s: Seq<(Seq<char>, LockView)>,
    parents: Seq<Seq<char>>,
    child: Seq<char>,
    k: int,
)
    requires
        0 <= k < parents.len(),
    ensures
        ({
            let t = spec_append_all(s, parents, child);
            find_fp(t, parents[k]) is Some && t[find_fp(t, parents[k])->0].1.dependencies.contains(
                child,
            )
        }),
    decreases parents.len(),
{
    let s1 = spec_append_child(s, parents[0], child);
    if k == 0 {
        lemma_append_child_effect(s, parents[0], child, parents[0]);
        lemma_append_all_preserves(s1, parents.drop_first(), child, parents[0]);
    } else {
        lemma_append_all_records(s1, parents.drop_first(), child, k - 1);
        assert(parents.drop_first()[k - 1] == parents[k]);
    }
}

/// Two row lists with the same fingerprints in the same places are searched
/// alike.
proof fn lemma_find_fp_same_keys(
    s: Seq<(Seq<char>, LockView)>,
    t: Seq<(Seq<char>, LockView)>,
    fp: Seq<char>,
)
    requires
        s.len() == t.len(),
        forall|j: int| 0 <= j < s.len() ==> s[j].0 == t[j].0,
    ensures
        find_fp(s, fp) == find_fp(t, fp),
    decreases s.len(),
{
    if s.len() > 0 {
        if s[0].0 != fp {
            assert forall|j: int|
                0 <= j < s.drop_first().len() implies s.drop_first()[j].0 == t.drop_first()[j].0 by {
                assert(s.drop_first()[j] == s[j + 1]);
                assert(t.drop_first()[j] == t[j + 1]);
            }
            lemma_find_fp_same_keys(s.drop_first(), t.drop_first(), fp);
        }
    }
}

/// A position whose row holds `fp`, with no earlier one, is what `find_fp`
/// finds.
proof fn lemma_find_fp_is(s: Seq<(Seq<char>, LockView)>, fp: Seq<char>, i: int)
    requires
        0 <= i < s.len(),
        s[i].0 == fp,
        forall|j: int| 0 <= j < i ==> s[j].0 != fp,
    ensures
        find_fp(s, fp) == Some(i),
{
    lemma_find_fp(s, fp);
    match find_fp(s, fp) {
        Some(k) => {
            assert(!(k < i) && !(i < k));
        },
        None => {
            assert(s[i].0 != fp);
        },
    }
}

} // verus!
