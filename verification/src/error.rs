//! Error values shared by the seeker, the skip resolver and the merge writer.

use vstd::prelude::*;

verus! {

/// Which end of a file a skip directive was measured from.
#[derive(Clone, Copy, Debug, PartialEq, Eq, Structural)]
pub enum SkipEnd {
    /// The directive trims from the start of the file.
    Head,
    /// The directive trims from the end of the file.
    Tail,
}

/// The specific kind of an error.
#[derive(Clone, Copy, Debug, PartialEq, Eq, Structural)]
pub enum ErrorKind {
    /// An input/output failure, reported by the caller's storage layer.
    Io,
    /// There was nothing to merge: no sources were supplied.
    NothingPassed,
    /// A seek to a negative offset: the stream is empty.
    SeekNegative,
    /// The byte being sought does not occur in the unsearched region.
    ByteNotFound,
    /// A skip directive asks for more lines or bytes than the file holds.
    InvalidSkip {
        /// Position of the failing file in the input sequence.
        index: usize,
        /// Which end of that file could not supply the requested amount.
        end: SkipEnd,
    },
}

/// An error that can occur while seeking or merging.
#[derive(Clone, Copy, Debug, PartialEq, Eq, Structural)]
pub struct Error {
    kind: ErrorKind,
}

impl Error {
    /// The kind carried by this error, for use in specifications.
    pub closed spec fn spec_kind(&self) -> ErrorKind {
        self.kind
    }

    /// Crate-private constructor.
    pub(crate) fn new(kind: ErrorKind) -> (e: Error)
        ensures
            e.spec_kind() == kind,
    {
        Error { kind }
    }

    /// Returns the specific kind of this error.
    pub fn kind(&self) -> (k: &ErrorKind)
        ensures
            *k == self.spec_kind(),
    {
        &self.kind
    }

    /// Unwraps this error into its underlying kind.
    pub fn into_kind(self) -> (k: ErrorKind)
        ensures
            k == self.spec_kind(),
    {
        self.kind
    }
}

} // verus!
