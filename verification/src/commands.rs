//! The command line's closed set of commands, and how argument text is read
//! into one of them.

use vstd::prelude::*;
use vstd::string::StrSliceExecFns;

use crate::errors::ParseError;
use crate::versions;
use crate::versions::VersionRange;
use crate::versions::Versions;

verus! {

/// Everything the program can be asked to do.
#[derive(Debug)]
pub enum Command {
    /// Install a package, either at its newest version or within a range.
    Install { package_name: String, package_version: Option<VersionRange> },
}

/// One character equals another up to ASCII case: they are the same, or the
/// left is the upper-case form of the right.
pub open spec fn eq_ic_char(a: char, b: char) -> bool {
    a == b || ('A' <= a && a <= 'Z' && a as int + 32 == b as int)
}

/// A command word matches a keyword when, lowered ASCII-letter by letter, it
/// spells the keyword.
pub open spec fn spec_matches_keyword(s: Seq<char>, t: Seq<char>) -> bool {
    s.len() == t.len() && (forall|i: int| 0 <= i < s.len() ==> eq_ic_char(s[i], t[i]))
}

/// Compares a command word against a lower-case keyword, ignoring the ASCII
/// case of the word.
fn eq_ignore_ascii_case(s: &str, t: &str) -> (r: bool)
    ensures
        r == spec_matches_keyword(s@, t@),
{
    let ns = s.unicode_len();
    let nt = t.unicode_len();
    if ns != nt {
        return false;
    }
    let mut i: usize = 0;
    while i < ns
        invariant
            0 <= i <= ns,
            ns == s@.len(),
            ns == t@.len(),
            forall|j: int| 0 <= j < i ==> eq_ic_char(s@[j], t@[j]),
        decreases ns - i,
    {
        let a = s.get_char(i);
        let b = t.get_char(i);
        let same = a == b || (a >= 'A' && a <= 'Z' && (a as u32) + 32 == (b as u32));
        if !same {
            return false;
        }
        i += 1;
    }
    true
}

/// Reads the program's arguments: the first is the program's own name, the
/// second the command word, matched ignoring ASCII case, and the third, for
/// the install command, the package spec. Without a command word there is
/// nothing to do; an unknown word or a bad package spec is an error.
pub fn handle_args(args: &Vec<String>) -> (r: Result<Option<Command>, ParseError>)
    ensures
        ({
            let a = args.deep_view();
            match r {
                Ok(cmd) => match cmd {
                    None => a.len() <= 1,
                    Some(c) => a.len() >= 3 && spec_matches_keyword(a[1], "install"@) && (
                    c matches Command::Install { package_name, package_version }
                        && versions::spec_parse_package_details(a[2]) matches Ok(p)
                        && package_name@ == p.0 && package_version == p.1),
                },
                Err(e) => a.len() >= 2 && match e {
                    ParseError::CommandNotFound(w) => !spec_matches_keyword(a[1], "install"@) && w@
                        == a[1],
                    ParseError::MissingArgument(x) => spec_matches_keyword(a[1], "install"@)
                        && a.len() == 2 && x@ == "package_name"@,
                    ParseError::InvalidVersionNotation => spec_matches_keyword(a[1], "install"@)
                        && a.len() >= 3 && versions::spec_parse_package_details(a[2]) is Err,
                },
            }
        }),
{
    proof {
        assert(args.deep_view().len() == args@.len());
    }
    if args.len() <= 1 {
        return Ok(None);
    }
    proof {
        assert(args.deep_view()[1] == args@[1]@);
    }
    let command = &args[1];
    if !eq_ignore_ascii_case(command.as_str(), "install") {
        return Err(ParseError::CommandNotFound(command.clone()));
    }
    if args.len() <= 2 {
        return Err(ParseError::MissingArgument("package_name".to_owned()));
    }
    proof {
        assert(args.deep_view()[2] == args@[2]@);
    }
    let package = args[2].clone();
    match Versions::parse_semantic_package_details(package) {
        Ok((package_name, package_version)) => Ok(
            Some(Command::Install { package_name, package_version }),
        ),
        Err(e) => {
            proof {
                assert(e == ParseError::InvalidVersionNotation);
            }
            Err(e)
        },
    }
}

} // verus!
