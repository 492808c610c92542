//! Error types of the library.

use vstd::prelude::*;

verus! {

/// Errors from reading user-supplied text: a command line or a version-range
/// string.
#[derive(Debug, PartialEq, Eq)]
pub enum ParseError {
    /// The version-range text does not follow the range grammar.
    InvalidVersionNotation,
    /// A required command-line argument is absent; holds the argument's name.
    MissingArgument(String),
    /// The given command word is not known; holds the word.
    CommandNotFound(String),
}

/// Errors from resolving a version range against a registry catalog.
#[derive(Debug, Clone, Copy, PartialEq, Eq, Structural)]
pub enum CommandError {
    /// No version in the available set satisfies the requested range, or the
    /// range asks for the predecessor of a version that has none.
    InvalidVersion,
}

} // verus!
