//! The lock-file document.
//!
//! Each installed fingerprint keeps a small JSON document,
//! `{"isLatest":<bool>,"dependencies":["<fp>","<fp>",...]}`, recording whether
//! it was installed as the newest version and which fingerprints it depends
//! on. This module renders a lock record into that document and reads one
//! back. Fingerprints hold no quote, backslash or control character, so the
//! strings in the document need no escaping; the writer emits exactly the
//! canonical form and the reader accepts exactly that form.

use vstd::prelude::*;
use vstd::string::StrSliceExecFns;
use vstd::string::StringExecFns;

use crate::text;
use crate::types::PackageLock;

verus! {

/// A character that may stand inside the document's strings unescaped.
pub open spec fn plain_char(c: char) -> bool {
    c != '"' && c != '\\' && (c as u32) >= 32
}

/// Text that may stand inside the document's strings unescaped.
pub open spec fn wf_text(s: Seq<char>) -> bool {
    forall|i: int| 0 <= i < s.len() ==> plain_char(s[i])
}

/// Every dependency fingerprint is plain text.
pub open spec fn wf_deps(deps: Seq<Seq<char>>) -> bool {
    forall|i: int| 0 <= i < deps.len() ==> wf_text(deps[i])
}

/// The document's list body: the dependencies, quoted, joined by commas.
pub open spec fn deps_json(deps: Seq<Seq<char>>) -> Seq<char>
    decreases deps.len(),
{
    if deps.len() == 0 {
        Seq::<char>::empty()
    } else if deps.len() == 1 {
        seq!['"'] + deps[0] + seq!['"']
    } else {
        deps_json(deps.drop_last()) + seq![','] + seq!['"'] + deps.last() + seq!['"']
    }
}

/// The canonical lock-file document for a record.
pub open spec fn lock_json(is_latest: bool, deps: Seq<Seq<char>>) -> Seq<char> {
    "{\"isLatest\":"@ + (if is_latest {
        "true"@
    } else {
        "false"@
    }) + ",\"dependencies\":["@ + deps_json(deps) + "]}"@
}

/// Reads the document's list body at an opening quote: one or more quoted
/// plain strings, comma-joined, closed by `]}` at the very end.
pub open spec fn spec_parse_dep_list(s: Seq<char>) -> Option<Seq<Seq<char>>>
    decreases s.len(),
    via spec_parse_dep_list_decreases
{
    if s.len() >= 1 && s[0] == '"' {
        let rest = s.skip(1);
        match text::find_char(rest, '"') {
            Some(q) => {
                let dep = rest.take(q);
                let after = rest.skip(q + 1);
                if wf_text(dep) {
                    if after == "]}"@ {
                        Some(seq![dep])
                    } else if after.len() >= 1 && after[0] == ',' {
                        match spec_parse_dep_list(after.skip(1)) {
                            Some(ds) => Some(seq![dep] + ds),
                            None => None,
                        }
                    } else {
                        None
                    }
                } else {
                    None
                }
            },
            None => None,
        }
    } else {
        None
    }
}

#[via_fn]
proof fn spec_parse_dep_list_decreases(s: Seq<char>) {
    if s.len() >= 1 && s[0] == '"' {
        text::lemma_find_char(s.skip(1), '"');
    }
}

/// Reads a whole lock-file document: exactly the canonical form that
/// `lock_json` renders.
pub open spec fn spec_parse_lock(s: Seq<char>) -> Option<(bool, Seq<Seq<char>>)> {
    let p1 = "{\"isLatest\":"@;
    if !p1.is_prefix_of(s) {
        None
    } else {
        let s1 = s.skip(p1.len() as int);
        let bopt = if "true"@.is_prefix_of(s1) {
            Some((true, s1.skip("true"@.len() as int)))
        } else if "false"@.is_prefix_of(s1) {
            Some((false, s1.skip("false"@.len() as int)))
        } else {
            None
        };
        match bopt {
            None => None,
            Some((b, s2)) => {
                let p2 = ",\"dependencies\":["@;
                if !p2.is_prefix_of(s2) {
                    None
                } else {
                    let body = s2.skip(p2.len() as int);
                    if body == "]}"@ {
                        Some((b, Seq::<Seq<char>>::empty()))
                    } else {
                        match spec_parse_dep_list(body) {
                            Some(ds) => Some((b, ds)),
                            None => None,
                        }
                    }
                }
            },
        }
    }
}

/// Joining two nonempty lists joins their documents with a comma.
proof fn lemma_deps_json_concat(a: Seq<Seq<char>>, b: Seq<Seq<char>>)
    requires
        a.len() >= 1,
        b.len() >= 1,
    ensures
        deps_json(a + b) == deps_json(a) + seq![','] + deps_json(b),
    decreases b.len(),
{
    if b.len() == 1 {
        assert((a + b).drop_last() =~= a);
        assert((a + b).last() == b[0]);
        assert(deps_json(a + b) =~= deps_json(a) + seq![','] + deps_json(b));
    } else {
        lemma_deps_json_concat(a, b.drop_last());
        assert((a + b).drop_last() =~= a + b.drop_last());
        assert((a + b).last() == b.last());
        assert(deps_json(a + b) =~= deps_json(a) + seq![','] + deps_json(b));
    }
}

/// The list body of a nonempty list holds at least its two quotes.
proof fn lemma_deps_json_len(deps: Seq<Seq<char>>)
    requires
        deps.len() >= 1,
    ensures
        deps_json(deps).len() >= 2,
    decreases deps.len(),
{
    if deps.len() > 1 {
        lemma_deps_json_len(deps.drop_last());
    }
}

/// Reading the rendered list body of a record's dependencies, with the
/// document's closer behind it, gives those dependencies back.
proof fn lemma_dep_list_round_trip(deps: Seq<Seq<char>>)
    requires
        wf_deps(deps),
        deps.len() >= 1,
    ensures
        spec_parse_dep_list(deps_json(deps) + "]}"@) == Some(deps),
    decreases deps.len(),
{
    reveal_strlit("]}");
    let s = deps_json(deps) + "]}"@;
    let d0 = deps[0];
    let ghost tail: Seq<char> = if deps.len() == 1 {
        "]}"@
    } else {
        seq![','] + deps_json(deps.drop_first()) + "]}"@
    };
    if deps.len() == 1 {
        assert(s =~= seq!['"'] + d0 + seq!['"'] + tail);
    } else {
        lemma_deps_json_concat(seq![d0], deps.drop_first());
        assert(seq![d0] + deps.drop_first() =~= deps);
        assert(deps_json(seq![d0]) =~= seq!['"'] + d0 + seq!['"']);
        assert(s =~= seq!['"'] + d0 + seq!['"'] + tail);
    }
    let rest = s.skip(1);
    assert(rest =~= d0 + seq!['"'] + tail);
    assert(rest[d0.len() as int] == '"');
    assert forall|j: int| 0 <= j < d0.len() implies rest[j] != '"' by {
        assert(rest[j] == d0[j]);
        assert(plain_char(d0[j]));
    }
    text::lemma_find_char_is(rest, '"', d0.len() as int);
    assert(rest.take(d0.len() as int) =~= d0);
    let after = rest.skip(d0.len() as int + 1);
    assert(after =~= tail);
    if deps.len() == 1 {
        assert(deps =~= seq![d0]);
    } else {
        assert(after[0] == ',');
        assert(after != "]}"@);
        assert(after.skip(1) =~= deps_json(deps.drop_first()) + "]}"@);
        assert forall|i: int| 0 <= i < deps.drop_first().len() implies wf_text(
            deps.drop_first()[i],
        ) by {
            assert(deps.drop_first()[i] == deps[i + 1]);
        }
        lemma_dep_list_round_trip(deps.drop_first());
        assert(seq![d0] + deps.drop_first() =~= deps);
    }
}

/// Reading the canonical document of a record gives that record back.
pub proof fn lemma_lock_round_trip(is_latest: bool, deps: Seq<Seq<char>>)
    requires
        wf_deps(deps),
    ensures
        spec_parse_lock(lock_json(is_latest, deps)) == Some((is_latest, deps)),
{
    reveal_strlit("{\"isLatest\":");
    reveal_strlit("true");
    reveal_strlit("false");
    reveal_strlit(",\"dependencies\":[");
    reveal_strlit("]}");
    let s = lock_json(is_latest, deps);
    let p1 = "{\"isLatest\":"@;
    let bs: Seq<char> = if is_latest {
        "true"@
    } else {
        "false"@
    };
    let p2 = ",\"dependencies\":["@;
    let dj = deps_json(deps);
    assert(s =~= p1 + (bs + (p2 + (dj + "]}"@))));
    assert(p1 =~= s.subrange(0, p1.len() as int));
    let s1 = s.skip(p1.len() as int);
    assert(s1 =~= bs + (p2 + (dj + "]}"@)));
    if is_latest {
        assert("true"@ =~= s1.subrange(0, "true"@.len() as int));
    } else {
        assert(s1[0] == 'f');
        assert(s1.len() >= "true"@.len());
        assert(s1.subrange(0, "true"@.len() as int)[0] == s1[0]);
        assert(!"true"@.is_prefix_of(s1));
        assert("false"@ =~= s1.subrange(0, "false"@.len() as int));
    }
    let s2 = s1.skip(bs.len() as int);
    assert(s2 =~= p2 + (dj + "]}"@));
    assert(p2 =~= s2.subrange(0, p2.len() as int));
    let body = s2.skip(p2.len() as int);
    assert(body =~= dj + "]}"@);
    if deps.len() == 0 {
        assert(body =~= "]}"@);
    } else {
        lemma_deps_json_len(deps);
        assert(body.len() > "]}"@.len());
        assert(body != "]}"@);
        lemma_dep_list_round_trip(deps);
    }
}

/// A document the reader accepts for some dependency list is that list's
/// rendered body followed by the document's closer.
proof fn lemma_dep_list_exact(s: Seq<char>, deps: Seq<Seq<char>>)
    requires
        spec_parse_dep_list(s) == Some(deps),
    ensures
        s == deps_json(deps) + "]}"@,
        wf_deps(deps),
        deps.len() >= 1,
    decreases s.len(),
{
    let rest = s.skip(1);
    text::lemma_find_char(rest, '"');
    let q = text::find_char(rest, '"')->0;
    let dep = rest.take(q);
    let after = rest.skip(q + 1);
    assert(s =~= seq!['"'] + dep + seq!['"'] + after);
    if after == "]}"@ {
        assert(deps =~= seq![dep]);
        assert(deps_json(deps) =~= seq!['"'] + dep + seq!['"']);
        assert(s =~= deps_json(deps) + "]}"@);
    } else {
        let ds = spec_parse_dep_list(after.skip(1))->0;
        lemma_dep_list_exact(after.skip(1), ds);
        assert(deps == seq![dep] + ds);
        lemma_deps_json_concat(seq![dep], ds);
        assert(deps_json(seq![dep]) =~= seq!['"'] + dep + seq!['"']);
        assert(after =~= seq![','] + (deps_json(ds) + "]}"@));
        assert(s =~= deps_json(deps) + "]}"@);
        assert forall|i: int| 0 <= i < deps.len() implies wf_text(deps[i]) by {
            if i == 0 {
                assert(deps[0] == dep);
            } else {
                assert(deps[i] == ds[i - 1]);
            }
        }
    }
}

/// A document the reader accepts is the canonical document of the record it
/// returns.
pub proof fn lemma_parse_lock_exact(s: Seq<char>, b: bool, deps: Seq<Seq<char>>)
    requires
        spec_parse_lock(s) == Some((b, deps)),
    ensures
        s == lock_json(b, deps),
        wf_deps(deps),
{
    let p1 = "{\"isLatest\":"@;
    let s1 = s.skip(p1.len() as int);
    let bs: Seq<char> = if "true"@.is_prefix_of(s1) {
        "true"@
    } else {
        "false"@
    };
    let s2 = s1.skip(bs.len() as int);
    let p2 = ",\"dependencies\":["@;
    let body = s2.skip(p2.len() as int);
    assert(s =~= p1 + (s1.subrange(0, bs.len() as int) + (s2.subrange(0, p2.len() as int)
        + body)));
    if body == "]}"@ {
        assert(s =~= lock_json(b, deps));
    } else {
        lemma_dep_list_exact(body, deps);
        assert(s =~= lock_json(b, deps));
    }
}

/// Advances over `lit` if it stands at `pos` in `s`.
fn eat(s: &str, pos: usize, lit: &str) -> (r: Option<usize>)
    requires
        pos <= s@.len(),
    ensures
        match r {
            Some(q) => q == pos + lit@.len() && q <= s@.len() && lit@.is_prefix_of(
                s@.skip(pos as int),
            ),
            None => !lit@.is_prefix_of(s@.skip(pos as int)),
        },
{
    let n = s.unicode_len();
    let ln = lit.unicode_len();
    if ln > n - pos {
        return None;
    }
    let mut i: usize = 0;
    while i < ln
        invariant
            0 <= i <= ln,
            forall|j: int| 0 <= j < i ==> s@[pos + j] == lit@[j],
        decreases ln - i,
    {
        if s.get_char(pos + i) != lit.get_char(i) {
            proof {
                assert(s@.skip(pos as int)[i as int] != lit@[i as int]);
            }
            return None;
        }
        i += 1;
    }
    proof {
        assert(lit@ =~= s@.skip(pos as int).subrange(0, ln as int));
    }
    Some(pos + ln)
}

/// Scans forward from `start` for a closing quote, insisting that everything
/// before it is plain text.
fn scan_string(s: &str, start: usize) -> (r: Option<usize>)
    requires
        start <= s@.len(),
    ensures
        match r {
            Some(k) => start <= k < s@.len() && s@[k as int] == '"' && wf_text(
                s@.subrange(start as int, k as int),
            ) && text::find_char(s@.skip(start as int), '"') == Some(k - start as int),
            None => match text::find_char(s@.skip(start as int), '"') {
                Some(q) => !wf_text(s@.skip(start as int).take(q)),
                None => true,
            },
        },
{
    let n = s.unicode_len();
    let ghost rest = s@.skip(start as int);
    let mut k = start;
    while k < n
        invariant
            start <= k <= n,
            n == s@.len(),
            rest == s@.skip(start as int),
            forall|j: int| start <= j < k ==> s@[j] != '"' && plain_char(s@[j]),
        decreases n - k,
    {
        let c = s.get_char(k);
        proof {
            assert(rest[k - start as int] == s@[k as int]);
        }
        if c == '"' {
            proof {
                assert forall|j: int| 0 <= j < k - start implies rest[j] != '"' by {
                    assert(rest[j] == s@[start + j]);
                }
                text::lemma_find_char_is(rest, '"', k - start as int);
                assert forall|j: int|
                    0 <= j < s@.subrange(start as int, k as int).len() implies plain_char(
                    s@.subrange(start as int, k as int)[j],
                ) by {
                    assert(s@.subrange(start as int, k as int)[j] == s@[start + j]);
                }
            }
            return Some(k);
        }
        if !(c != '\\' && (c as u32) >= 32) {
            proof {
                text::lemma_find_char(rest, '"');
                if let Some(q) = text::find_char(rest, '"') {
                    assert forall|j: int| 0 <= j < k - start implies rest[j] != '"' by {
                        assert(rest[j] == s@[start + j]);
                    }
                    assert(q > k - start);
                    assert(!plain_char(rest.take(q)[k - start as int]));
                }
            }
            return None;
        }
        k += 1;
    }
    proof {
        text::lemma_find_char(rest, '"');
        if let Some(q) = text::find_char(rest, '"') {
            assert(rest[q] == s@[start + q]);
            assert(false);
        }
    }
    None
}

/// Reads the one-or-more-strings list body that starts at `pos`, which must
/// run to the very end of `s`.
#[verifier::rlimit(60)]
fn parse_list(s: &str, pos: usize) -> (r: Option<Vec<String>>)
    requires
        pos <= s@.len(),
    ensures
        match r {
            Some(v) => spec_parse_dep_list(s@.skip(pos as int)) == Some(v.deep_view()),
            None => spec_parse_dep_list(s@.skip(pos as int)) is None,
        },
{
    let n = s.unicode_len();
    let mut deps: Vec<String> = Vec::new();
    let mut cur = pos;
    loop
        invariant
            pos <= cur <= n,
            n == s@.len(),
            spec_parse_dep_list(s@.skip(cur as int)) is Some ==> spec_parse_dep_list(
                s@.skip(pos as int),
            ) == Some(deps.deep_view() + spec_parse_dep_list(s@.skip(cur as int))->0),
            spec_parse_dep_list(s@.skip(cur as int)) is None ==> spec_parse_dep_list(
                s@.skip(pos as int),
            ) is None,
        decreases n - cur,
    {
        let ghost piece = s@.skip(cur as int);
        if cur >= n {
            return None;
        }
        if s.get_char(cur) != '"' {
            proof {
                assert(piece[0] == s@[cur as int]);
            }
            return None;
        }
        proof {
            assert(piece[0] == s@[cur as int]);
            assert(piece.skip(1) =~= s@.skip(cur as int + 1));
        }
        let start = cur + 1;
        let k = match scan_string(s, start) {
            Some(k) => k,
            None => {
                return None;
            },
        };
        let dep = s.substring_char(start, k).to_owned();
        proof {
            assert(dep@ =~= s@.skip(start as int).take(k - start as int));
        }
        let ghost dv_old = deps.deep_view();
        deps.push(dep);
        proof {
            assert(deps.deep_view() =~= dv_old.push(dep@));
        }
        let ghost after = s@.skip(start as int).skip(k - start as int + 1);
        proof {
            assert(after =~= s@.skip(k as int + 1));
        }
        if let Some(p) = eat(s, k + 1, "]}") {
            if p == n {
                proof {
                    assert(after =~= "]}"@);
                    assert(spec_parse_dep_list(piece) == Some(seq![dep@]));
                    assert(dv_old + seq![dep@] =~= deps.deep_view());
                }
                return Some(deps);
            }
            proof {
                reveal_strlit("]}");
                assert(after.len() > "]}"@.len());
                assert(after[0] == "]}"@[0]);
                assert(after[0] == ']');
            }
            return None;
        }
        proof {
            if after == "]}"@ {
                assert("]}"@.is_prefix_of(after));
            }
        }
        let p = match eat(s, k + 1, ",") {
            Some(p) => p,
            None => {
                proof {
                    reveal_strlit(",");
                    if after.len() >= 1 && after[0] == ',' {
                        assert(","@.is_prefix_of(after));
                    }
                }
                return None;
            },
        };
        proof {
            reveal_strlit(",");
            assert(after[0] == ","@[0]);
            assert(after[0] == ',');
            assert(after.skip(1) =~= s@.skip(p as int));
            assert forall|tail: Seq<Seq<char>>|
                dv_old + (seq![dep@] + tail) =~= deps.deep_view() + tail by {}
        }
        cur = p;
    }
}

impl PackageLock {
    /// Reads a lock-file document back into a record; only the canonical
    /// form that `to_json_string` renders is accepted.
    pub fn from_json_str(s: &str) -> (r: Option<PackageLock>)
        ensures
            match r {
                Some(l) => spec_parse_lock(s@) == Some((l.is_latest, l.dependencies.deep_view())),
                None => spec_parse_lock(s@) is None,
            },
    {
        let n = s.unicode_len();
        proof {
            assert(s@.skip(0) =~= s@);
        }
        let pos = match eat(s, 0, "{\"isLatest\":") {
            Some(p) => p,
            None => {
                return None;
            },
        };
        let ghost s1 = s@.skip("{\"isLatest\":"@.len() as int);
        proof {
            assert(s1 == s@.skip(pos as int));
        }
        let (is_latest, pos): (bool, usize) = match eat(s, pos, "true") {
            Some(p) => (true, p),
            None => match eat(s, pos, "false") {
                Some(p) => (false, p),
                None => {
                    return None;
                },
            },
        };
        let ghost s2 = if is_latest {
            s1.skip("true"@.len() as int)
        } else {
            s1.skip("false"@.len() as int)
        };
        proof {
            assert(s2 =~= s@.skip(pos as int));
        }
        let pos = match eat(s, pos, ",\"dependencies\":[") {
            Some(p) => p,
            None => {
                return None;
            },
        };
        let ghost body = s2.skip(",\"dependencies\":["@.len() as int);
        proof {
            assert(body =~= s@.skip(pos as int));
        }
        if let Some(p) = eat(s, pos, "]}") {
            if p == n {
                proof {
                    assert(body =~= "]}"@);
                }
                return Some(PackageLock { is_latest, dependencies: Vec::new() });
            }
            proof {
                reveal_strlit("]}");
                assert(body.len() > "]}"@.len());
                assert(body[0] == "]}"@[0]);
                assert(body[0] == ']');
            }
            return None;
        }
        proof {
            if body == "]}"@ {
                assert("]}"@.is_prefix_of(body));
            }
        }
        match parse_list(s, pos) {
            Some(deps) => Some(PackageLock { is_latest, dependencies: deps }),
            None => None,
        }
    }

    /// Renders this record as its canonical lock-file document.
    pub fn to_json_string(&self) -> (r: String)
        ensures
            r@ == lock_json(self.is_latest, self.dependencies.deep_view()),
    {
        let ghost deps = self.dependencies.deep_view();
        let mut r = "{\"isLatest\":".to_owned();
        if self.is_latest {
            r.append("true");
        } else {
            r.append("false");
        }
        r.append(",\"dependencies\":[");
        let ghost head = r@;
        let mut i: usize = 0;
        while i < self.dependencies.len()
            invariant
                0 <= i <= self.dependencies@.len(),
                r@ == head + deps_json(deps.take(i as int)),
            decreases self.dependencies@.len() - i,
        {
            if i > 0 {
                r.append(",");
            }
            r.append("\"");
            r.append(self.dependencies[i].as_str());
            r.append("\"");
            i += 1;
            proof {
                reveal_strlit(",");
                reveal_strlit("\"");
                assert(deps[i as int - 1] == self.dependencies@[i as int - 1]@);
                assert(deps.take(i as int).drop_last() =~= deps.take(i as int - 1));
                assert(deps.take(i as int).last() == deps[i as int - 1]);
                assert(r@ =~= head + deps_json(deps.take(i as int)));
            }
        }
        r.append("]}");
        proof {
            assert(deps.take(self.dependencies@.len() as int) =~= deps);
            assert(r@ =~= lock_json(self.is_latest, deps));
        }
        r
    }
}

} // verus!
