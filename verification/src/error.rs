//! Failure kinds reported by the reader, decoder, reconstructor and index.

use vstd::prelude::*;

verus! {

/// Why a read, a decode or a reconstruction failed.
///
/// Every failure is reported to the immediate caller as a value of this
/// type; nothing is retried internally.
#[derive(Clone, Copy, Debug, PartialEq, Eq, Structural)]
pub enum Error {
    /// Fewer bytes were available than a declared length requires.
    TruncatedRead,
    /// A block header record failed deserialization.
    MalformedHeader,
    /// A block record failed deserialization, a parallel-array length
    /// mismatch was found, or a string-table index was out of range or did
    /// not resolve to valid text.
    MalformedBlock,
    /// A compressed payload did not inflate cleanly.
    DecompressionFailed,
    /// The payload declared a compression scheme other than "stored
    /// uncompressed" or "zlib".
    UnsupportedCompression,
}

impl Error {
    /// A short human-readable name for the failure kind.
    pub fn describe(&self) -> (r: &'static str) {
        match self {
            Error::TruncatedRead => "truncated read",
            Error::MalformedHeader => "malformed header",
            Error::MalformedBlock => "malformed block",
            Error::DecompressionFailed => "decompression failed",
            Error::UnsupportedCompression => "unsupported compression",
        }
    }
}

} // verus!
