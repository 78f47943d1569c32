//! The reasons a decode can fail.

use vstd::prelude::*;

verus! {

/// Why decoding stopped. Every failure aborts the whole decode.
#[derive(Debug, Clone, Copy, PartialEq, Eq, Structural)]
#[non_exhaustive]
pub enum Error {
    /// The byte after the magic signature names no known version.
    InvalidVersion(u8),
    /// An entry refers to a slot that the string table does not have.
    InvalidLocalizedStringIndex(usize),
    /// A string with a positive length prefix is not valid UTF-8.
    StringParsingFailed,
    /// The source ended before a read could be completed.
    Io,
}

} // verus!
