//! Verified file-merging core: a bidirectional delimiter seeker, a
//! skip-resolution algorithm that turns line/byte trim requests into byte
//! ranges, a padding planner, and a merge writer that assembles the output.
//!
//! All operations work on raw bytes, with `\n` (0x0a) as the sole line
//! delimiter.  Reading files and writing the merged stream are left to the
//! caller; the library computes what the output must be and proves it.

pub mod bytes;
pub mod concat;
pub mod error;
pub mod laws;
pub mod merge;
pub mod pad;
pub mod seeker;
pub mod skip;
pub mod util;

pub use crate::concat::Concat;
pub use crate::error::{Error, ErrorKind, SkipEnd};
pub use crate::merge::FileMerger;
pub use crate::pad::{Newline, Pad};
pub use crate::seeker::ByteSeeker;
pub use crate::skip::{FileSlot, Skip, TrimRange};
pub use crate::util::{count_occurrences, ends_with_newline, get_last_byte};
