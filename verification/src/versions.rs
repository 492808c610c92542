//! Version ranges and version resolution.
//!
//! A version is a `major.minor.patch` triple of numbers; a range is one
//! comparison operator applied to a possibly partial triple. This module
//! parses both forms from text, tests a version against a range, and resolves
//! a range to a concrete version, either directly or against the list of
//! versions a registry offers.

use vstd::prelude::*;
use vstd::string::StrSliceExecFns;
use vstd::string::StringExecFns;

use crate::errors::CommandError;
use crate::errors::ParseError;
use crate::text;

verus! {

/// The comparison operator of a version range.
#[derive(Debug, Clone, Copy, PartialEq, Eq, Structural)]
pub enum RangeOp {
    /// `=`: equal on every given component.
    Exact,
    /// `>`: strictly newer.
    Greater,
    /// `>=`: equal or newer.
    GreaterEq,
    /// `<`: strictly older.
    Less,
    /// `<=`: equal or older.
    LessEq,
    /// `~`: same major and minor, patch at least the given one.
    Tilde,
    /// `^`: compatible with the given triple (leftmost nonzero component
    /// pinned).
    Caret,
    /// A trailing wildcard component: every version with the given prefix.
    Wildcard,
}

/// One comparator of a version range: an operator plus a partial triple.
#[derive(Debug, Clone, Copy, PartialEq, Eq)]
pub struct VersionRange {
    pub op: RangeOp,
    pub major: u64,
    pub minor: Option<u64>,
    pub patch: Option<u64>,
}

/// A concrete `major.minor.patch` version.
#[derive(Debug, Clone, Copy, PartialEq, Eq, Structural)]
pub struct VersionTriple {
    pub major: u64,
    pub minor: u64,
    pub patch: u64,
}

/// The view of the marker string that selects the newest registry version.
pub open spec fn latest_seq() -> Seq<char> {
    "latest"@
}

/// The canonical fingerprint text `name@version`.
pub open spec fn fingerprint_seq(name: Seq<char>, version: Seq<char>) -> Seq<char> {
    name + seq!['@'] + version
}

/// The canonical text of a concrete version triple.
pub open spec fn triple_seq(major: nat, minor: nat, patch: nat) -> Seq<char> {
    text::dec_str(major) + seq!['.'] + text::dec_str(minor) + seq!['.'] + text::dec_str(patch)
}

/// Does a version satisfy an `=` (or trailing-wildcard) comparator? Every
/// component that the range gives must be equal.
pub open spec fn matches_exact(r: VersionRange, v: VersionTriple) -> bool {
    &&& v.major == r.major
    &&& (r.minor matches Some(m) ==> v.minor == m)
    &&& (r.patch matches Some(p) ==> v.patch == p)
}

/// Does a version lie strictly above the range's partial triple? A missing
/// component leaves nothing further to exceed.
pub open spec fn matches_greater(r: VersionRange, v: VersionTriple) -> bool {
    if v.major != r.major {
        v.major > r.major
    } else if r.minor is None {
        false
    } else if v.minor != r.minor->0 {
        v.minor > r.minor->0
    } else if r.patch is None {
        false
    } else {
        v.patch > r.patch->0
    }
}

/// Does a version lie strictly below the range's partial triple?
pub open spec fn matches_less(r: VersionRange, v: VersionTriple) -> bool {
    if v.major != r.major {
        v.major < r.major
    } else if r.minor is None {
        false
    } else if v.minor != r.minor->0 {
        v.minor < r.minor->0
    } else if r.patch is None {
        false
    } else {
        v.patch < r.patch->0
    }
}

/// Does a version satisfy a `~` comparator? Major and any given minor are
/// pinned; a given patch is a lower bound.
pub open spec fn matches_tilde(r: VersionRange, v: VersionTriple) -> bool {
    &&& v.major == r.major
    &&& (r.minor matches Some(m) ==> v.minor == m)
    &&& (r.patch matches Some(p) ==> v.patch >= p)
}

/// Does a version satisfy a `^` comparator? The leftmost nonzero component of
/// the range's triple is pinned; later components are lower bounds.
pub open spec fn matches_caret(r: VersionRange, v: VersionTriple) -> bool {
    if v.major != r.major {
        false
    } else if r.minor is None {
        true
    } else if r.patch is None {
        if r.major > 0 {
            v.minor >= r.minor->0
        } else {
            v.minor == r.minor->0
        }
    } else if r.major > 0 {
        if v.minor != r.minor->0 {
            v.minor > r.minor->0
        } else {
            v.patch >= r.patch->0
        }
    } else if r.minor->0 > 0 {
        if v.minor != r.minor->0 {
            false
        } else {
            v.patch >= r.patch->0
        }
    } else {
        v.minor == r.minor->0 && v.patch == r.patch->0
    }
}

/// Does a concrete version satisfy a range?
pub open spec fn range_matches(r: VersionRange, v: VersionTriple) -> bool {
    match r.op {
        RangeOp::Exact => matches_exact(r, v),
        RangeOp::Wildcard => matches_exact(r, v),
        RangeOp::Greater => matches_greater(r, v),
        RangeOp::GreaterEq => matches_exact(r, v) || matches_greater(r, v),
        RangeOp::Less => matches_less(r, v),
        RangeOp::LessEq => matches_exact(r, v) || matches_less(r, v),
        RangeOp::Tilde => matches_tilde(r, v),
        RangeOp::Caret => matches_caret(r, v),
    }
}

/// A component of a version text is usable iff it is a canonical numeral
/// whose value fits in a `u64`.
pub open spec fn valid_comp(s: Seq<char>) -> bool {
    text::is_canon_num(s) && text::dec_val(s) <= u64::MAX
}

/// A wildcard component: `*`, `x` or `X` alone.
pub open spec fn is_wild_comp(s: Seq<char>) -> bool {
    s.len() == 1 && (s[0] == '*' || s[0] == 'x' || s[0] == 'X')
}

/// Reads a concrete version from text: exactly three dot-separated canonical
/// numerals that fit in a `u64` each. Anything else is not a version.
pub open spec fn spec_parse_version(s: Seq<char>) -> Option<VersionTriple> {
    match text::find_char(s, '.') {
        None => None,
        Some(i) => {
            let major_s = s.take(i);
            let rest = s.skip(i + 1);
            match text::find_char(rest, '.') {
                None => None,
                Some(j) => {
                    let minor_s = rest.take(j);
                    let patch_s = rest.skip(j + 1);
                    if valid_comp(major_s) && valid_comp(minor_s) && valid_comp(patch_s) {
                        Some(
                            VersionTriple {
                                major: text::dec_val(major_s) as u64,
                                minor: text::dec_val(minor_s) as u64,
                                patch: text::dec_val(patch_s) as u64,
                            },
                        )
                    } else {
                        None
                    }
                },
            }
        },
    }
}

/// The sort key of a version text: its triple, or the lowest possible version
/// for text that is not a version.
pub open spec fn version_key(s: Seq<char>) -> VersionTriple {
    match spec_parse_version(s) {
        Some(v) => v,
        None => VersionTriple { major: 0, minor: 0, patch: 0 },
    }
}

/// Splits a package spec `name@version` at its first `@`; a spec without a
/// version part selects the newest registry version.
pub open spec fn spec_split_package(s: Seq<char>) -> (Seq<char>, Seq<char>) {
    match text::find_char(s, '@') {
        Some(i) => (s.take(i), s.skip(i + 1)),
        None => (s, latest_seq()),
    }
}

/// Strips one leading comparison operator, if any, off a range text.
pub open spec fn spec_strip_op(s: Seq<char>) -> (Option<RangeOp>, Seq<char>) {
    if s.len() >= 2 && s[0] == '>' && s[1] == '=' {
        (Some(RangeOp::GreaterEq), s.skip(2))
    } else if s.len() >= 2 && s[0] == '<' && s[1] == '=' {
        (Some(RangeOp::LessEq), s.skip(2))
    } else if s.len() >= 1 && s[0] == '>' {
        (Some(RangeOp::Greater), s.skip(1))
    } else if s.len() >= 1 && s[0] == '<' {
        (Some(RangeOp::Less), s.skip(1))
    } else if s.len() >= 1 && s[0] == '=' {
        (Some(RangeOp::Exact), s.skip(1))
    } else if s.len() >= 1 && s[0] == '~' {
        (Some(RangeOp::Tilde), s.skip(1))
    } else if s.len() >= 1 && s[0] == '^' {
        (Some(RangeOp::Caret), s.skip(1))
    } else {
        (None, s)
    }
}

/// Reads the partial triple that follows an operator. Without an explicit
/// operator a bare triple means a caret range, and a trailing wildcard
/// component turns the comparator into a wildcard range.
pub open spec fn spec_parse_body(opk: Option<RangeOp>, b: Seq<char>) -> Option<VersionRange> {
    let op_plain = match opk {
        Some(o) => o,
        None => RangeOp::Caret,
    };
    match text::find_char(b, '.') {
        None => if valid_comp(b) {
            Some(
                VersionRange {
                    op: op_plain,
                    major: text::dec_val(b) as u64,
                    minor: None,
                    patch: None,
                },
            )
        } else {
            None
        },
        Some(i) => {
            let major_s = b.take(i);
            let rest = b.skip(i + 1);
            if !valid_comp(major_s) {
                None
            } else {
                let major = text::dec_val(major_s) as u64;
                match text::find_char(rest, '.') {
                    None => if is_wild_comp(rest) {
                        if opk is None {
                            Some(VersionRange { op: RangeOp::Wildcard, major, minor: None, patch: None })
                        } else {
                            None
                        }
                    } else if valid_comp(rest) {
                        Some(
                            VersionRange {
                                op: op_plain,
                                major,
                                minor: Some(text::dec_val(rest) as u64),
                                patch: None,
                            },
                        )
                    } else {
                        None
                    },
                    Some(j) => {
                        let minor_s = rest.take(j);
                        let patch_s = rest.skip(j + 1);
                        if !valid_comp(minor_s) {
                            None
                        } else {
                            let minor = text::dec_val(minor_s) as u64;
                            if is_wild_comp(patch_s) {
                                if opk is None {
                                    Some(
                                        VersionRange {
                                            op: RangeOp::Wildcard,
                                            major,
                                            minor: Some(minor),
                                            patch: None,
                                        },
                                    )
                                } else {
                                    None
                                }
                            } else if valid_comp(patch_s) {
                                Some(
                                    VersionRange {
                                        op: op_plain,
                                        major,
                                        minor: Some(minor),
                                        patch: Some(text::dec_val(patch_s) as u64),
                                    },
                                )
                            } else {
                                None
                            }
                        }
                    },
                }
            }
        },
    }
}

/// Reads the first comparator of a range text; anything after a comma is
/// disregarded, as only the first comparator of a compound range is honored.
pub open spec fn spec_parse_range(s: Seq<char>) -> Option<VersionRange> {
    let head = match text::find_char(s, ',') {
        Some(i) => s.take(i),
        None => s,
    };
    let stripped = spec_strip_op(head);
    spec_parse_body(stripped.0, stripped.1)
}

/// The version a range can be resolved to without consulting the registry's
/// version list: the newest version, a directly fetchable triple, or nothing.
pub open spec fn spec_resolve_full(r: Option<VersionRange>) -> Option<Seq<char>> {
    match r {
        None => Some(latest_seq()),
        Some(r) => {
            if r.minor is None || r.patch is None {
                None
            } else {
                match r.op {
                    RangeOp::Greater | RangeOp::GreaterEq | RangeOp::Wildcard => Some(latest_seq()),
                    RangeOp::Exact | RangeOp::LessEq | RangeOp::Tilde | RangeOp::Caret => Some(
                        triple_seq(r.major as nat, r.minor->0 as nat, r.patch->0 as nat),
                    ),
                    RangeOp::Less => None,
                }
            }
        },
    }
}

/// Orders two version sort keys: by major, then minor, then patch.
pub open spec fn key_le(a: VersionTriple, b: VersionTriple) -> bool {
    if a.major != b.major {
        a.major < b.major
    } else if a.minor != b.minor {
        a.minor < b.minor
    } else {
        a.patch <= b.patch
    }
}

/// Inserts a version text into an ascending list, after every entry whose key
/// is at most its own, so that equal keys keep their first-come order.
pub open spec fn spec_insert_sorted(s: Seq<Seq<char>>, x: Seq<char>) -> Seq<Seq<char>>
    decreases s.len(),
{
    if s.len() == 0 {
        seq![x]
    } else if key_le(version_key(s.last()), version_key(x)) {
        s.push(x)
    } else {
        spec_insert_sorted(s.drop_last(), x).push(s.last())
    }
}

/// Sorts version texts ascending by key; text that is not a version keys as
/// the lowest possible version. The sort is stable.
pub open spec fn spec_sort_versions(s: Seq<Seq<char>>) -> Seq<Seq<char>>
    decreases s.len(),
{
    if s.len() == 0 {
        Seq::<Seq<char>>::empty()
    } else {
        spec_insert_sorted(spec_sort_versions(s.drop_last()), s.last())
    }
}

/// An ascending list: every earlier entry's key is at most every later one's.
pub open spec fn sorted_by_key(s: Seq<Seq<char>>) -> bool {
    forall|i: int, j: int| 0 <= i < j < s.len() ==> key_le(version_key(s[i]), version_key(s[j]))
}

/// Inserting into an ascending list keeps it ascending and adds exactly the
/// inserted text.
proof fn lemma_insert_sorted_props(s: Seq<Seq<char>>, x: Seq<char>)
    requires
        sorted_by_key(s),
    ensures
        sorted_by_key(spec_insert_sorted(s, x)),
        spec_insert_sorted(s, x).to_multiset() == s.to_multiset().insert(x),
    decreases s.len(),
{
    broadcast use vstd::seq_lib::group_to_multiset_ensures;

    let t = spec_insert_sorted(s, x);
    if s.len() == 0 {
        assert(t =~= Seq::<Seq<char>>::empty().push(x));
        assert(t.to_multiset() =~= s.to_multiset().insert(x));
    } else if key_le(version_key(s.last()), version_key(x)) {
        assert(t.to_multiset() =~= s.to_multiset().insert(x));
        assert forall|i: int, j: int| 0 <= i < j < t.len() implies key_le(
            version_key(t[i]),
            version_key(t[j]),
        ) by {
            if j == s.len() {
                if i < s.len() - 1 {
                    assert(key_le(version_key(s[i]), version_key(s.last())));
                }
            }
        }
    } else {
        let s0 = s.drop_last();
        lemma_insert_sorted_props(s0, x);
        let u = spec_insert_sorted(s0, x);
        assert(s =~= s0.push(s.last()));
        assert(s.to_multiset() =~= s0.to_multiset().insert(s.last()));
        assert(t.to_multiset() =~= s.to_multiset().insert(x));
        assert forall|k: int| 0 <= k < u.len() implies key_le(
            version_key(u[k]),
            version_key(s.last()),
        ) by {
            assert(u.contains(u[k]));
            assert(u.to_multiset().count(u[k]) > 0);
            if u[k] != x {
                assert(s0.to_multiset().count(u[k]) > 0);
                assert(s0.contains(u[k]));
                let i = choose|i: int| 0 <= i < s0.len() && s0[i] == u[k];
                assert(key_le(version_key(s[i]), version_key(s.last())));
            }
        }
        assert forall|i: int, j: int| 0 <= i < j < t.len() implies key_le(
            version_key(t[i]),
            version_key(t[j]),
        ) by {
            if j < u.len() {
                assert(t[i] == u[i] && t[j] == u[j]);
            } else {
                assert(t[j] == s.last());
                assert(t[i] == u[i]);
            }
        }
    }
}

/// What sorting promises: the result is ascending by key and holds exactly
/// the given version texts.
pub proof fn lemma_sort_versions_props(s: Seq<Seq<char>>)
    ensures
        sorted_by_key(spec_sort_versions(s)),
        spec_sort_versions(s).to_multiset() == s.to_multiset(),
    decreases s.len(),
{
    broadcast use vstd::seq_lib::group_to_multiset_ensures;

    if s.len() > 0 {
        let s0 = s.drop_last();
        lemma_sort_versions_props(s0);
        lemma_insert_sorted_props(spec_sort_versions(s0), s.last());
        assert(s =~= s0.push(s.last()));
        assert(s.to_multiset() =~= s0.to_multiset().insert(s.last()));
        assert(spec_sort_versions(s).to_multiset() =~= s.to_multiset());
    }
}

/// First index holding exactly the given text, if any.
pub open spec fn find_text(s: Seq<Seq<char>>, t: Seq<char>) -> Option<int>
    decreases s.len(),
{
    if s.len() == 0 {
        None
    } else if s[0] == t {
        Some(0int)
    } else {
        match find_text(s.drop_first(), t) {
            Some(i) => Some(i + 1),
            None => None,
        }
    }
}

/// `find_text` returns the first occurrence, or reports that there is none.
pub proof fn lemma_find_text(s: Seq<Seq<char>>, t: Seq<char>)
    ensures
        match find_text(s, t) {
            Some(i) => 0 <= i < s.len() && s[i] == t && (forall|j: int| 0 <= j < i ==> s[j] != t),
            None => forall|j: int| 0 <= j < s.len() ==> s[j] != t,
        },
    decreases s.len(),
{
    if s.len() > 0 && s[0] != t {
        let rest = s.drop_first();
        lemma_find_text(rest, t);
        match find_text(rest, t) {
            Some(i) => {
                assert(s[i + 1] == rest[i]);
                assert forall|j: int| 0 <= j < i + 1 implies s[j] != t by {
                    if j > 0 {
                        assert(s[j] == rest[j - 1]);
                    }
                }
            },
            None => {
                assert forall|j: int| 0 <= j < s.len() implies s[j] != t by {
                    if j > 0 {
                        assert(s[j] == rest[j - 1]);
                    }
                }
            },
        }
    }
}

/// The key of the topmost entry of the sorted list that satisfies the range,
/// scanning from the highest version downward.
pub open spec fn spec_scan_desc(sorted: Seq<Seq<char>>, r: VersionRange) -> Option<VersionTriple>
    decreases sorted.len(),
{
    if sorted.len() == 0 {
        None
    } else if range_matches(r, version_key(sorted.last())) {
        Some(version_key(sorted.last()))
    } else {
        spec_scan_desc(sorted.drop_last(), r)
    }
}

/// Descending-match rule, in general: on an ascending list the downward scan
/// returns the key of some held version that satisfies the range, and no
/// satisfying version held anywhere in the list has a greater key; when it
/// returns nothing, no held version satisfies the range.
pub proof fn lemma_scan_desc_highest(sorted: Seq<Seq<char>>, r: VersionRange)
    requires
        sorted_by_key(sorted),
    ensures
        match spec_scan_desc(sorted, r) {
            Some(k) => range_matches(r, k) && (exists|i: int|
                0 <= i < sorted.len() && version_key(sorted[i]) == k) && (forall|i: int|
                0 <= i < sorted.len() && range_matches(r, version_key(sorted[i])) ==> key_le(
                    version_key(sorted[i]),
                    k,
                )),
            None => forall|i: int| 0 <= i < sorted.len() ==> !range_matches(
                r,
                version_key(sorted[i]),
            ),
        },
    decreases sorted.len(),
{
    if sorted.len() > 0 {
        let last = sorted.len() - 1;
        if range_matches(r, version_key(sorted.last())) {
            assert(version_key(sorted[last]) == version_key(sorted.last()));
            assert forall|i: int|
                0 <= i < sorted.len() && range_matches(r, version_key(sorted[i])) implies key_le(
                version_key(sorted[i]),
                version_key(sorted.last()),
            ) by {
                if i < last {
                    assert(key_le(version_key(sorted[i]), version_key(sorted[last])));
                }
            }
        } else {
            let s0 = sorted.drop_last();
            lemma_scan_desc_highest(s0, r);
            match spec_scan_desc(s0, r) {
                Some(k) => {
                    let w = choose|i: int| 0 <= i < s0.len() && version_key(s0[i]) == k;
                    assert(sorted[w] == s0[w]);
                    assert forall|i: int|
                        0 <= i < sorted.len() && range_matches(r, version_key(sorted[i]))
                            implies key_le(version_key(sorted[i]), k) by {
                        if i < last {
                            assert(sorted[i] == s0[i]);
                        }
                    }
                },
                None => {
                    assert forall|i: int| 0 <= i < sorted.len() implies !range_matches(
                        r,
                        version_key(sorted[i]),
                    ) by {
                        if i < last {
                            assert(sorted[i] == s0[i]);
                        }
                    }
                },
            }
        }
    }
}

/// Resolution of a range against the registry's version list. A strict
/// upper bound with a full triple selects the entry immediately preceding
/// that triple's text in the sorted list; every other range selects the
/// highest version whose key satisfies it, rendered as its triple.
pub open spec fn spec_resolve_partial(r: VersionRange, avail: Seq<Seq<char>>) -> Result<
    Seq<char>,
    CommandError,
> {
    let sorted = spec_sort_versions(avail);
    if r.op == RangeOp::Less && r.minor is Some && r.patch is Some {
        let target = triple_seq(r.major as nat, r.minor->0 as nat, r.patch->0 as nat);
        match find_text(sorted, target) {
            None => Err(CommandError::InvalidVersion),
            Some(i) => if i == 0 {
                Err(CommandError::InvalidVersion)
            } else {
                Ok(sorted[i - 1])
            },
        }
    } else {
        match spec_scan_desc(sorted, r) {
            Some(k) => Ok(triple_seq(k.major as nat, k.minor as nat, k.patch as nat)),
            None => Err(CommandError::InvalidVersion),
        }
    }
}

/// Resolution is deterministic: what a range resolves to against an
/// available-version list is a function of those two values alone, so two
/// resolutions of equal inputs agree — and `resolve_partial_version` returns
/// exactly this function of its inputs.
pub proof fn lemma_resolution_deterministic(
    r1: VersionRange,
    a1: Seq<Seq<char>>,
    r2: VersionRange,
    a2: Seq<Seq<char>>,
)
    requires
        r1 == r2,
        a1 == a2,
    ensures
        spec_resolve_partial(r1, a1) == spec_resolve_partial(r2, a2),
{
}

/// Outcome of reading a package spec: the package's name and, unless the
/// newest version is wanted, the requested range.
pub open spec fn spec_parse_package_details(s: Seq<char>) -> Result<
    (Seq<char>, Option<VersionRange>),
    ParseError,
> {
    let parts = spec_split_package(s);
    if parts.1 == latest_seq() {
        Ok((parts.0, None))
    } else {
        match spec_parse_range(parts.1) {
            Some(r) => Ok((parts.0, Some(r))),
            None => Err(ParseError::InvalidVersionNotation),
        }
    }
}

/// Namespace for the version-handling operations.
pub struct Versions;

impl Versions {
    /// Reads a concrete `major.minor.patch` version from text.
    pub fn parse_version(s: &str) -> (r: Option<VersionTriple>)
        ensures
            r == spec_parse_version(s@),
    {
        let n = s.unicode_len();
        let i = match text::find_char_in(s, '.') {
            Some(i) => i,
            None => {
                return None;
            },
        };
        proof {
            text::lemma_find_char(s@, '.');
        }
        let major_str = s.substring_char(0, i);
        let rest = s.substring_char(i + 1, n);
        proof {
            assert(major_str@ =~= s@.take(i as int));
            assert(rest@ =~= s@.skip(i as int + 1));
        }
        let rn = rest.unicode_len();
        let j = match text::find_char_in(rest, '.') {
            Some(j) => j,
            None => {
                return None;
            },
        };
        proof {
            text::lemma_find_char(rest@, '.');
        }
        let minor_str = rest.substring_char(0, j);
        let patch_str = rest.substring_char(j + 1, rn);
        proof {
            assert(minor_str@ =~= rest@.take(j as int));
            assert(patch_str@ =~= rest@.skip(j as int + 1));
        }
        let major = match text::parse_u64_str(major_str) {
            Some(v) => v,
            None => {
                return None;
            },
        };
        let minor = match text::parse_u64_str(minor_str) {
            Some(v) => v,
            None => {
                return None;
            },
        };
        let patch = match text::parse_u64_str(patch_str) {
            Some(v) => v,
            None => {
                return None;
            },
        };
        Some(VersionTriple { major, minor, patch })
    }

    /// The sort key of a version text: its triple, or the lowest possible
    /// version for text that is not a version.
    pub fn version_key_of(s: &str) -> (k: VersionTriple)
        ensures
            k == version_key(s@),
    {
        match Self::parse_version(s) {
            Some(v) => v,
            None => VersionTriple { major: 0, minor: 0, patch: 0 },
        }
    }

    /// Splits a package spec `name@version` at its first `@`; a spec without
    /// a version part selects the newest registry version.
    pub fn parse_raw_package_details(package: String) -> (r: (String, String))
        ensures
            r.0@ == spec_split_package(package@).0,
            r.1@ == spec_split_package(package@).1,
    {
        let n = package.as_str().unicode_len();
        match text::find_char_in(package.as_str(), '@') {
            Some(i) => {
                proof {
                    text::lemma_find_char(package@, '@');
                }
                let name = package.as_str().substring_char(0, i).to_owned();
                let version = package.as_str().substring_char(i + 1, n).to_owned();
                proof {
                    assert(name@ =~= package@.take(i as int));
                    assert(version@ =~= package@.skip(i as int + 1));
                }
                (name, version)
            },
            None => {
                let version = "latest".to_owned();
                (package, version)
            },
        }
    }

    /// Reads the first comparator of a version-range text.
    pub fn parse_semantic_version(raw_version: &String) -> (r: Result<VersionRange, ParseError>)
        ensures
            match r {
                Ok(vr) => spec_parse_range(raw_version@) == Some(vr),
                Err(e) => spec_parse_range(raw_version@) is None && e
                    == ParseError::InvalidVersionNotation,
            },
    {
        let s = raw_version.as_str();
        let n = s.unicode_len();
        let head: &str = match text::find_char_in(s, ',') {
            Some(i) => {
                proof {
                    text::lemma_find_char(s@, ',');
                }
                s.substring_char(0, i)
            },
            None => s,
        };
        proof {
            assert(head@ =~= (match text::find_char(s@, ',') {
                Some(i) => s@.take(i),
                None => s@,
            }));
        }
        let hn = head.unicode_len();
        let (opk, start): (Option<RangeOp>, usize) = if hn >= 2 && head.get_char(0) == '>'
            && head.get_char(1) == '=' {
            (Some(RangeOp::GreaterEq), 2)
        } else if hn >= 2 && head.get_char(0) == '<' && head.get_char(1) == '=' {
            (Some(RangeOp::LessEq), 2)
        } else if hn >= 1 && head.get_char(0) == '>' {
            (Some(RangeOp::Greater), 1)
        } else if hn >= 1 && head.get_char(0) == '<' {
            (Some(RangeOp::Less), 1)
        } else if hn >= 1 && head.get_char(0) == '=' {
            (Some(RangeOp::Exact), 1)
        } else if hn >= 1 && head.get_char(0) == '~' {
            (Some(RangeOp::Tilde), 1)
        } else if hn >= 1 && head.get_char(0) == '^' {
            (Some(RangeOp::Caret), 1)
        } else {
            (None, 0)
        };
        let body = head.substring_char(start, hn);
        proof {
            assert(body@ =~= head@.skip(start as int));
            assert(opk == spec_strip_op(head@).0);
            assert(body@ == spec_strip_op(head@).1);
        }
        match Self::parse_body(opk, body) {
            Some(vr) => Ok(vr),
            None => Err(ParseError::InvalidVersionNotation),
        }
    }

    /// Reads the partial triple that follows an operator.
    fn parse_body(opk: Option<RangeOp>, b: &str) -> (r: Option<VersionRange>)
        ensures
            r == spec_parse_body(opk, b@),
    {
        let op_plain = match opk {
            Some(o) => o,
            None => RangeOp::Caret,
        };
        let n = b.unicode_len();
        let i = match text::find_char_in(b, '.') {
            Some(i) => i,
            None => {
                let major = match text::parse_u64_str(b) {
                    Some(v) => v,
                    None => {
                        return None;
                    },
                };
                return Some(VersionRange { op: op_plain, major, minor: None, patch: None });
            },
        };
        proof {
            text::lemma_find_char(b@, '.');
        }
        let major_str = b.substring_char(0, i);
        let rest = b.substring_char(i + 1, n);
        proof {
            assert(major_str@ =~= b@.take(i as int));
            assert(rest@ =~= b@.skip(i as int + 1));
        }
        let major = match text::parse_u64_str(major_str) {
            Some(v) => v,
            None => {
                return None;
            },
        };
        let rn = rest.unicode_len();
        let j = match text::find_char_in(rest, '.') {
            Some(j) => j,
            None => {
                if Self::is_wild(rest) {
                    if opk.is_none() {
                        return Some(
                            VersionRange { op: RangeOp::Wildcard, major, minor: None, patch: None },
                        );
                    }
                    return None;
                }
                let minor = match text::parse_u64_str(rest) {
                    Some(v) => v,
                    None => {
                        return None;
                    },
                };
                return Some(VersionRange { op: op_plain, major, minor: Some(minor), patch: None });
            },
        };
        proof {
            text::lemma_find_char(rest@, '.');
        }
        let minor_str = rest.substring_char(0, j);
        let patch_str = rest.substring_char(j + 1, rn);
        proof {
            assert(minor_str@ =~= rest@.take(j as int));
            assert(patch_str@ =~= rest@.skip(j as int + 1));
        }
        let minor = match text::parse_u64_str(minor_str) {
            Some(v) => v,
            None => {
                return None;
            },
        };
        if Self::is_wild(patch_str) {
            if opk.is_none() {
                return Some(
                    VersionRange { op: RangeOp::Wildcard, major, minor: Some(minor), patch: None },
                );
            }
            return None;
        }
        let patch = match text::parse_u64_str(patch_str) {
            Some(v) => v,
            None => {
                return None;
            },
        };
        Some(VersionRange { op: op_plain, major, minor: Some(minor), patch: Some(patch) })
    }

    /// A wildcard component: `*`, `x` or `X` alone.
    fn is_wild(s: &str) -> (r: bool)
        ensures
            r == is_wild_comp(s@),
    {
        if s.unicode_len() != 1 {
            return false;
        }
        let c = s.get_char(0);
        c == '*' || c == 'x' || c == 'X'
    }

    /// Splits a package spec into its name and, unless the newest version is
    /// wanted, its version range.
    pub fn parse_semantic_package_details(details: String) -> (r: Result<
        (String, Option<VersionRange>),
        ParseError,
    >)
        ensures
            match r {
                Ok(p) => spec_parse_package_details(details@) matches Ok(q) && p.0@ == q.0 && p.1
                    == q.1,
                Err(e) => spec_parse_package_details(details@) == Err::<
                    (Seq<char>, Option<VersionRange>),
                    ParseError,
                >(e),
            },
    {
        let (name, version) = Self::parse_raw_package_details(details);
        if text::str_eq(version.as_str(), "latest") {
            return Ok((name, None));
        }
        match Self::parse_semantic_version(&version) {
            Ok(vr) => Ok((name, Some(vr))),
            Err(e) => Err(e),
        }
    }

    /// Resolves a range without the registry's version list, where possible:
    /// no range or an open upper bound selects the newest version, and the
    /// operators that can be served at their own triple resolve to it.
    pub fn resolve_full_version(semantic_version: Option<&VersionRange>) -> (r: Option<String>)
        ensures
            match r {
                Some(s) => spec_resolve_full(match semantic_version {
                    Some(v) => Some(*v),
                    None => None,
                }) == Some(s@),
                None => spec_resolve_full(match semantic_version {
                    Some(v) => Some(*v),
                    None => None,
                }) is None,
            },
    {
        let latest = "latest".to_owned();
        let semantic_version = match semantic_version {
            Some(semantic_version) => semantic_version,
            None => {
                return Some(latest);
            },
        };
        let (minor, patch) = match (semantic_version.minor, semantic_version.patch) {
            (Some(minor), Some(patch)) => (minor, patch),
            _ => {
                return None;
            },
        };
        match semantic_version.op {
            RangeOp::Greater | RangeOp::GreaterEq | RangeOp::Wildcard => Some(latest),
            RangeOp::Exact | RangeOp::LessEq | RangeOp::Tilde | RangeOp::Caret => Some(
                Self::stringify_from_nums(semantic_version.major, minor, patch),
            ),
            RangeOp::Less => None,
        }
    }
    /// True iff the given version text is the marker that selects the newest
    /// registry version.
    pub fn is_latest(version_string: Option<&String>) -> (r: bool)
        ensures
            r == (version_string matches Some(v) && v@ == latest_seq()),
    {
        match version_string {
            Some(version) => text::str_eq(version.as_str(), "latest"),
            None => false,
        }
    }

    /// Builds the fingerprint `name@version`.
    pub fn stringify(name: &String, version: &String) -> (r: String)
        ensures
            r@ == fingerprint_seq(name@, version@),
    {
        let mut r = name.clone();
        r.append("@");
        r.append(version.as_str());
        proof {
            reveal_strlit("@");
            assert(r@ =~= fingerprint_seq(name@, version@));
        }
        r
    }

    /// Renders a concrete triple as `major.minor.patch`.
    pub fn stringify_from_nums(major: u64, minor: u64, patch: u64) -> (r: String)
        ensures
            r@ == triple_seq(major as nat, minor as nat, patch as nat),
    {
        let mut r = text::u64_to_string(major);
        r.append(".");
        let ms = text::u64_to_string(minor);
        r.append(ms.as_str());
        r.append(".");
        let ps = text::u64_to_string(patch);
        r.append(ps.as_str());
        proof {
            reveal_strlit(".");
            assert(r@ =~= triple_seq(major as nat, minor as nat, patch as nat));
        }
        r
    }

    /// Orders two version sort keys.
    fn key_le(a: &VersionTriple, b: &VersionTriple) -> (r: bool)
        ensures
            r == key_le(*a, *b),
    {
        if a.major != b.major {
            a.major < b.major
        } else if a.minor != b.minor {
            a.minor < b.minor
        } else {
            a.patch <= b.patch
        }
    }

    /// Inserts a version text into an ascending list, keeping it sorted.
    fn insert_sorted(v: Vec<String>, x: String) -> (r: Vec<String>)
        ensures
            r.deep_view() == spec_insert_sorted(v.deep_view(), x@),
        decreases v@.len(),
    {
        if v.len() == 0 {
            let mut r = v;
            r.push(x);
            proof {
                assert(r.deep_view() =~= spec_insert_sorted(Seq::<Seq<char>>::empty(), x@));
            }
            r
        } else {
            let lk = Self::version_key_of(v[v.len() - 1].as_str());
            let xk = Self::version_key_of(x.as_str());
            if Self::key_le(&lk, &xk) {
                let ghost dv = v.deep_view();
                let mut r = v;
                r.push(x);
                proof {
                    assert(r.deep_view() =~= dv.push(x@));
                }
                r
            } else {
                let ghost dv = v.deep_view();
                let mut v = v;
                let last = v.pop().unwrap();
                proof {
                    assert(v.deep_view() =~= dv.drop_last());
                }
                let mut r = Self::insert_sorted(v, x);
                let ghost rv = r.deep_view();
                r.push(last);
                proof {
                    assert(r.deep_view() =~= rv.push(last@));
                }
                r
            }
        }
    }

    /// Sorts version texts ascending by key, stably; text that is not a
    /// version keys as the lowest possible version.
    pub fn sort(versions: &Vec<String>) -> (r: Vec<String>)
        ensures
            r.deep_view() == spec_sort_versions(versions.deep_view()),
    {
        let ghost full = versions.deep_view();
        let mut out: Vec<String> = Vec::new();
        let mut i: usize = 0;
        proof {
            assert(out.deep_view() =~= spec_sort_versions(full.take(0)));
        }
        while i < versions.len()
            invariant
                0 <= i <= versions@.len(),
                full == versions.deep_view(),
                full.len() == versions@.len(),
                out.deep_view() == spec_sort_versions(full.take(i as int)),
            decreases versions@.len() - i,
        {
            let x = versions[i].clone();
            out = Self::insert_sorted(out, x);
            i += 1;
            proof {
                assert(full.take(i as int).drop_last() =~= full.take(i as int - 1));
                assert(full.take(i as int).last() == full[i as int - 1]);
            }
        }
        proof {
            assert(full.take(versions@.len() as int) =~= full);
        }
        out
    }

    /// Resolves a range against the registry's version list.
    ///
    /// The list is sorted ascending by version, text that is not a version
    /// sorting as the lowest possible version. A `<` range with a full triple
    /// selects the entry immediately before that triple's exact text, and has
    /// no resolution when that text is absent or first. Every other range
    /// selects the highest version satisfying it, and has no resolution when
    /// none does.
    pub fn resolve_partial_version(
        semantic_version: Option<&VersionRange>,
        available_versions: &Vec<String>,
    ) -> (res: Result<String, CommandError>)
        requires
            semantic_version is Some,
        ensures
            match res {
                Ok(s) => spec_resolve_partial(*semantic_version->0, available_versions.deep_view())
                    == Ok::<Seq<char>, CommandError>(s@),
                Err(e) => spec_resolve_partial(
                    *semantic_version->0,
                    available_versions.deep_view(),
                ) == Err::<Seq<char>, CommandError>(e),
            },
    {
        let r = match semantic_version {
            Some(r) => r,
            None => {
                proof {
                    assert(false);
                }
                return Err(CommandError::InvalidVersion);
            },
        };
        let sorted = Self::sort(available_versions);
        let ghost sv = sorted.deep_view();
        let n = sorted.len();
        if r.op == RangeOp::Less && r.minor.is_some() && r.patch.is_some() {
            let minor = match r.minor {
                Some(m) => m,
                None => 0,
            };
            let patch = match r.patch {
                Some(p) => p,
                None => 0,
            };
            let target = Self::stringify_from_nums(r.major, minor, patch);
            proof {
                lemma_find_text(sv, target@);
            }
            let mut i: usize = 0;
            while i < n
                invariant
                    0 <= i <= n,
                    n == sv.len(),
                    sv == sorted.deep_view(),
                    forall|j: int| 0 <= j < i ==> sv[j] != target@,
                    match find_text(sv, target@) {
                        Some(k) => 0 <= k < sv.len() && sv[k] == target@ && (forall|j: int|
                            0 <= j < k ==> sv[j] != target@),
                        None => forall|j: int| 0 <= j < sv.len() ==> sv[j] != target@,
                    },
                decreases n - i,
            {
                proof {
                    assert(sv[i as int] == sorted@[i as int]@);
                }
                if text::str_eq(sorted[i].as_str(), target.as_str()) {
                    proof {
                        if let Some(k) = find_text(sv, target@) {
                            assert(!(k < i) && !(i < k));
                        }
                    }
                    if i == 0 {
                        return Err(CommandError::InvalidVersion);
                    }
                    let out = sorted[i - 1].clone();
                    proof {
                        assert(sv[i as int - 1] == sorted@[i as int - 1]@);
                    }
                    return Ok(out);
                }
                i += 1;
            }
            return Err(CommandError::InvalidVersion);
        }
        let mut i: usize = n;
        proof {
            assert(sv.take(n as int) =~= sv);
        }
        while i > 0
            invariant
                0 <= i <= n,
                n == sv.len(),
                sv == sorted.deep_view(),
                spec_scan_desc(sv, *r) == spec_scan_desc(sv.take(i as int), *r),
                !(r.op == RangeOp::Less && r.minor is Some && r.patch is Some),
            decreases i,
        {
            let k = Self::version_key_of(sorted[i - 1].as_str());
            proof {
                assert(sv[i as int - 1] == sorted@[i as int - 1]@);
                assert(sv.take(i as int).last() == sv[i as int - 1]);
                assert(sv.take(i as int).drop_last() =~= sv.take(i as int - 1));
            }
            if Self::range_matches(r, &k) {
                return Ok(Self::stringify_from_nums(k.major, k.minor, k.patch));
            }
            i -= 1;
        }
        proof {
            assert(sv.take(0) =~= Seq::<Seq<char>>::empty());
        }
        Err(CommandError::InvalidVersion)
    }

    /// Tests a concrete version against a range.
    pub fn range_matches(r: &VersionRange, v: &VersionTriple) -> (b: bool)
        ensures
            b == range_matches(*r, *v),
    {
        match r.op {
            RangeOp::Exact => Self::matches_exact(r, v),
            RangeOp::Wildcard => Self::matches_exact(r, v),
            RangeOp::Greater => Self::matches_greater(r, v),
            RangeOp::GreaterEq => Self::matches_exact(r, v) || Self::matches_greater(r, v),
            RangeOp::Less => Self::matches_less(r, v),
            RangeOp::LessEq => Self::matches_exact(r, v) || Self::matches_less(r, v),
            RangeOp::Tilde => Self::matches_tilde(r, v),
            RangeOp::Caret => Self::matches_caret(r, v),
        }
    }

    fn matches_exact(r: &VersionRange, v: &VersionTriple) -> (b: bool)
        ensures
            b == matches_exact(*r, *v),
    {
        if v.major != r.major {
            return false;
        }
        if let Some(m) = r.minor {
            if v.minor != m {
                return false;
            }
        }
        if let Some(p) = r.patch {
            if v.patch != p {
                return false;
            }
        }
        true
    }

    fn matches_greater(r: &VersionRange, v: &VersionTriple) -> (b: bool)
        ensures
            b == matches_greater(*r, *v),
    {
        if v.major != r.major {
            return v.major > r.major;
        }
        match r.minor {
            None => false,
            Some(m) => {
                if v.minor != m {
                    v.minor > m
                } else {
                    match r.patch {
                        None => false,
                        Some(p) => v.patch > p,
                    }
                }
            },
        }
    }

    fn matches_less(r: &VersionRange, v: &VersionTriple) -> (b: bool)
        ensures
            b == matches_less(*r, *v),
    {
        if v.major != r.major {
            return v.major < r.major;
        }
        match r.minor {
            None => false,
            Some(m) => {
                if v.minor != m {
                    v.minor < m
                } else {
                    match r.patch {
                        None => false,
                        Some(p) => v.patch < p,
                    }
                }
            },
        }
    }

    fn matches_tilde(r: &VersionRange, v: &VersionTriple) -> (b: bool)
        ensures
            b == matches_tilde(*r, *v),
    {
        if v.major != r.major {
            return false;
        }
        if let Some(m) = r.minor {
            if v.minor != m {
                return false;
            }
        }
        if let Some(p) = r.patch {
            if v.patch < p {
                return false;
            }
        }
        true
    }

    fn matches_caret(r: &VersionRange, v: &VersionTriple) -> (b: bool)
        ensures
            b == matches_caret(*r, *v),
    {
        if v.major != r.major {
            return false;
        }
        let m = match r.minor {
            None => {
                return true;
            },
            Some(m) => m,
        };
        let p = match r.patch {
            None => {
                if r.major > 0 {
                    return v.minor >= m;
                }
                return v.minor == m;
            },
            Some(p) => p,
        };
        if r.major > 0 {
            if v.minor != m {
                v.minor > m
            } else {
                v.patch >= p
            }
        } else if m > 0 {
            if v.minor != m {
                false
            } else {
                v.patch >= p
            }
        } else {
            v.minor == m && v.patch == p
        }
    }
}

} // verus!
