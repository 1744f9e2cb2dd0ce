//! The kinds of failure a command can report.

use vstd::prelude::*;

verus! {

/// Why a command failed. The first failure ends the command; what was open
/// before stays open and unchanged.
#[derive(Debug, Clone, Copy, PartialEq, Eq, Structural)]
pub enum ErrorKind {
    /// A file could not be read.
    IoRead,
    /// A file could not be written.
    IoWrite,
    /// Binary content is not in the format it was taken for.
    ParseFormat,
    /// Edited text could not be parsed back into a document.
    ParseText,
    /// Yaz0 compression or decompression failed.
    Compression,
    /// A looked-up resource is not there.
    UnknownResource,
    /// The content is no genuine resource size table.
    InvalidRstb,
    /// The content is neither AAMP, BYML nor MSBT.
    NotAKnownFormat,
}

impl ErrorKind {
    /// The short name of the kind, as it is shown to the user.
    pub fn name(&self) -> (r: &'static str)
        ensures
            r@ == self.spec_name(),
    {
        match self {
            ErrorKind::IoRead => "io-read",
            ErrorKind::IoWrite => "io-write",
            ErrorKind::ParseFormat => "parse-format",
            ErrorKind::ParseText => "parse-text",
            ErrorKind::Compression => "compression",
            ErrorKind::UnknownResource => "unknown-resource",
            ErrorKind::InvalidRstb => "invalid-rstb",
            ErrorKind::NotAKnownFormat => "not-a-known-format",
        }
    }

    pub open spec fn spec_name(&self) -> Seq<char> {
        match self {
            ErrorKind::IoRead => "io-read"@,
            ErrorKind::IoWrite => "io-write"@,
            ErrorKind::ParseFormat => "parse-format"@,
            ErrorKind::ParseText => "parse-text"@,
            ErrorKind::Compression => "compression"@,
            ErrorKind::UnknownResource => "unknown-resource"@,
            ErrorKind::InvalidRstb => "invalid-rstb"@,
            ErrorKind::NotAKnownFormat => "not-a-known-format"@,
        }
    }
}

} // verus!
