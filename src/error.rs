use vstd::prelude::*;

use crate::token::Token;

verus! {

/// Why a directive could not be compiled. Each kind carries the offending
/// token or path.
#[derive(Debug, PartialEq, Eq)]
pub enum ImportError {
    /// Input ended where a section keyword was expected.
    UnexpectedEnd,
    /// A word stood where `dependencies` or `modules` was expected.
    UnknownSection(String),
    /// A token that is not a word stood where a section keyword was expected.
    UnexpectedToken(Token),
    /// Input went on after both section kinds had been read.
    TrailingInput(Token),
    /// `nuget` was not followed by `:`.
    NugetWithoutColon,
    /// A token that is not a word stood where a package name segment was expected.
    NugetSegment(Token),
    /// Input ended before the first package name segment after `nuget:`.
    NugetEnd,
    /// The system root is unknown, so `os` cannot be resolved.
    MissingSystemRoot,
    /// The path is neither a directory nor a descriptor file.
    NotFileOrDirectory(String),
    /// The directory at the path could not be listed; the second field says why.
    UnreadableDirectory(String, String),
}

} // verus!
