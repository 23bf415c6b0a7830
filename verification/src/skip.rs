//! Skip resolution: turning a trim directive and a file's position into the
//! byte range of that file that survives.
//!
//! Line-mode boundaries are located with the bidirectional [`ByteSeeker`];
//! the number of addressable lines equals the number of line feeds, plus one
//! when the content does not end with a line feed (the unterminated final
//! fragment counts as one more line).  A request for more lines or bytes
//! than a file holds fails with `InvalidSkip` rather than silently clamping.

use vstd::prelude::*;

use crate::bytes::{
    ends_with, lemma_count_le, lemma_count_split, lemma_line_start_bounds, lemma_nth_dual,
    lemma_nth_from, line_count, line_start, nth_from, NL,
};
use crate::error::{Error, ErrorKind, SkipEnd};
use crate::seeker::ByteSeeker;
use crate::util::{count_occurrences, ends_with_newline};

verus! {

/// A trim request: how much to cut from one end of each file.
///
/// The "once" variants exempt the file at the relevant boundary of the
/// sequence: a head skip is suppressed for the first file, a tail skip for
/// the last.
#[derive(Clone, Copy, Debug, PartialEq, Eq, Structural)]
pub enum Skip {
    /// Skip this many lines from every file.
    Lines(usize),
    /// Skip this many lines, exempting the file at the relevant boundary.
    LinesOnce(usize),
    /// Skip this many bytes from every file.
    Bytes(usize),
    /// Skip this many bytes, exempting the file at the relevant boundary.
    BytesOnce(usize),
}

impl Skip {
    /// The requested line or byte count.
    pub open spec fn spec_amount(&self) -> nat {
        match *self {
            Skip::Lines(n) => n as nat,
            Skip::LinesOnce(n) => n as nat,
            Skip::Bytes(n) => n as nat,
            Skip::BytesOnce(n) => n as nat,
        }
    }

    /// Whether this directive counts lines rather than bytes.
    pub open spec fn spec_is_lines(&self) -> bool {
        self is Lines || self is LinesOnce
    }

    /// Whether this directive exempts the file at the boundary.
    pub open spec fn spec_is_once(&self) -> bool {
        self is LinesOnce || self is BytesOnce
    }

    /// The requested line or byte count.
    pub fn amount(&self) -> (n: usize)
        ensures
            n == self.spec_amount(),
    {
        match *self {
            Skip::Lines(n) => n,
            Skip::LinesOnce(n) => n,
            Skip::Bytes(n) => n,
            Skip::BytesOnce(n) => n,
        }
    }

    /// Whether this directive counts lines rather than bytes.
    pub fn is_lines(&self) -> (r: bool)
        ensures
            r == self.spec_is_lines(),
    {
        match *self {
            Skip::Lines(_) => true,
            Skip::LinesOnce(_) => true,
            Skip::Bytes(_) => false,
            Skip::BytesOnce(_) => false,
        }
    }

    /// Whether this directive exempts the file at the boundary.
    pub fn is_once(&self) -> (r: bool)
        ensures
            r == self.spec_is_once(),
    {
        match *self {
            Skip::Lines(_) => false,
            Skip::LinesOnce(_) => true,
            Skip::Bytes(_) => false,
            Skip::BytesOnce(_) => true,
        }
    }
}

/// A file's ordinal position within the merge sequence.
#[derive(Clone, Copy, Debug, PartialEq, Eq, Structural)]
pub struct FileSlot {
    /// Position of the file, starting at zero.
    pub index: usize,
    /// Total number of files in the sequence.
    pub count: usize,
}

impl FileSlot {
    /// Whether this slot is the first of the sequence.
    pub open spec fn spec_is_first(&self) -> bool {
        self.index == 0
    }

    /// Whether this slot is the last of the sequence.
    pub open spec fn spec_is_last(&self) -> bool {
        self.index + 1 == self.count
    }

    /// Whether this slot is the first of the sequence.
    pub fn is_first(&self) -> (r: bool)
        ensures
            r == self.spec_is_first(),
    {
        self.index == 0
    }

    /// Whether this slot is the last of the sequence.
    pub fn is_last(&self) -> (r: bool)
        ensures
            r == self.spec_is_last(),
    {
        self.count > 0 && self.index == self.count - 1
    }
}

/// The byte interval of one file that survives trimming: `start <= end`,
/// both within the file's length.  An empty interval is valid and produces
/// no output.
#[derive(Clone, Copy, Debug, PartialEq, Eq, Structural)]
pub struct TrimRange {
    /// First byte kept.
    pub start: usize,
    /// One past the last byte kept.
    pub end: usize,
}

/// Start offset requested by a head directive on content `s`, or `None`
/// when the file cannot supply that many lines or bytes.
pub open spec fn spec_head_boundary(s: Seq<u8>, head: Option<Skip>, is_first: bool) -> Option<
    int,
> {
    match head {
        Option::None => Option::Some(0),
        Option::Some(k) => {
            let n = k.spec_amount();
            if (k.spec_is_once() && is_first) || n == 0 {
                Option::Some(0)
            } else if k.spec_is_lines() {
                if n <= line_count(s) {
                    Option::Some(line_start(s, n))
                } else {
                    Option::None
                }
            } else {
                if n <= s.len() {
                    Option::Some(n as int)
                } else {
                    Option::None
                }
            }
        },
    }
}

/// End offset requested by a tail directive on content `s`, or `None` when
/// the file cannot supply that many lines or bytes.
pub open spec fn spec_tail_boundary(s: Seq<u8>, tail: Option<Skip>, is_last: bool) -> Option<
    int,
> {
    match tail {
        Option::None => Option::Some(s.len() as int),
        Option::Some(k) => {
            let n = k.spec_amount();
            if (k.spec_is_once() && is_last) || n == 0 {
                Option::Some(s.len() as int)
            } else if k.spec_is_lines() {
                if n <= line_count(s) {
                    Option::Some(line_start(s, (line_count(s) - n) as nat))
                } else {
                    Option::None
                }
            } else {
                if n <= s.len() {
                    Option::Some(s.len() - n)
                } else {
                    Option::None
                }
            }
        },
    }
}

/// The trim range of one file under a head and a tail directive, or `None`
/// when either end cannot supply the requested amount.  The two boundaries
/// are resolved independently; when they overlap the range collapses to
/// empty rather than failing.
pub open spec fn spec_trim(
    s: Seq<u8>,
    head: Option<Skip>,
    tail: Option<Skip>,
    is_first: bool,
    is_last: bool,
) -> Option<(int, int)> {
    match (spec_head_boundary(s, head, is_first), spec_tail_boundary(s, tail, is_last)) {
        (Option::Some(st), Option::Some(en)) => if st <= en {
            Option::Some((st, en))
        } else {
            Option::Some((0, 0))
        },
        _ => Option::None,
    }
}

/// A resolved trim range is always a valid interval of the file:
/// `0 <= start <= end <= len`.
pub proof fn lemma_trim_in_range(
    s: Seq<u8>,
    head: Option<Skip>,
    tail: Option<Skip>,
    is_first: bool,
    is_last: bool,
)
    ensures
        spec_trim(s, head, tail, is_first, is_last) matches Some(range) ==> 0 <= range.0
            <= range.1 <= s.len(),
{
    match head {
        Option::Some(k) => {
            lemma_line_start_bounds(s, k.spec_amount());
        },
        Option::None => {},
    }
    match tail {
        Option::Some(k) => {
            if k.spec_amount() <= line_count(s) {
                lemma_line_start_bounds(s, (line_count(s) - k.spec_amount()) as nat);
            }
        },
        Option::None => {},
    }
}

/// Converts one head and one tail directive plus a file's position into the
/// byte range of `content` that survives, exactly as `spec_trim` describes;
/// fails with `InvalidSkip`, naming the file and the failing end, when a
/// directive asks for more than the file holds.
pub fn resolve_range(
    content: &Vec<u8>,
    head: Option<Skip>,
    tail: Option<Skip>,
    slot: FileSlot,
) -> (r: Result<TrimRange, Error>)
    ensures
        match spec_trim(content@, head, tail, slot.spec_is_first(), slot.spec_is_last()) {
            Option::Some(range) => r matches Ok(tr) && tr.start as int == range.0 && tr.end as int
                == range.1,
            Option::None => r matches Err(e) && e.spec_kind() == (ErrorKind::InvalidSkip {
                index: slot.index,
                end: if spec_head_boundary(content@, head, slot.spec_is_first()) is None {
                    SkipEnd::Head
                } else {
                    SkipEnd::Tail
                },
            }),
        },
{
    let ghost s = content@;
    let len = content.len();
    let c = count_occurrences(content, NL);
    let ends_nl = ends_with_newline(content);
    proof {
        if len > 0 && !ends_with(s, NL) {
            lemma_count_split(s, NL, 0, len - 1, len as int);
            lemma_count_le(s, NL, 0, len - 1);
        }
    }
    let k_lines = if len > 0 && !ends_nl {
        c + 1
    } else {
        c
    };
    assert(k_lines == line_count(s));

    let start: usize;
    match head {
        Option::None => {
            start = 0;
        },
        Option::Some(kk) => {
            let n = kk.amount();
            if (kk.is_once() && slot.is_first()) || n == 0 {
                start = 0;
            } else if kk.is_lines() {
                if n > k_lines {
                    return Err(
                        Error::new(
                            ErrorKind::InvalidSkip { index: slot.index, end: SkipEnd::Head },
                        ),
                    );
                } else if n <= c {
                    let mut sk = ByteSeeker::new(content);
                    match sk.seek_nth(NL, n) {
                        Ok(i) => {
                            proof {
                                lemma_nth_from(s, NL, 0, n as nat);
                            }
                            start = i + 1;
                        },
                        Err(e) => {
                            // Unreachable: the seeker promises success while
                            // at least `n` line feeds remain.
                            assert(false);
                            return Err(e);
                        },
                    }
                } else {
                    // One more line than there are line feeds: the
                    // unterminated final fragment; its head boundary is the
                    // end of the stream.
                    start = len;
                }
            } else {
                if n > len {
                    return Err(
                        Error::new(
                            ErrorKind::InvalidSkip { index: slot.index, end: SkipEnd::Head },
                        ),
                    );
                }
                start = n;
            }
        },
    }
    assert(spec_head_boundary(s, head, slot.spec_is_first()) == Option::Some(start as int));

    let end: usize;
    match tail {
        Option::None => {
            end = len;
        },
        Option::Some(kk) => {
            let n = kk.amount();
            if (kk.is_once() && slot.is_last()) || n == 0 {
                end = len;
            } else if kk.is_lines() {
                if n > k_lines {
                    return Err(
                        Error::new(
                            ErrorKind::InvalidSkip { index: slot.index, end: SkipEnd::Tail },
                        ),
                    );
                } else if n == k_lines {
                    end = 0;
                } else {
                    // The last kept line ends at the mth line feed from the
                    // tail; a terminated file has one line feed more to step
                    // over than an unterminated one.
                    let m = if ends_nl {
                        n + 1
                    } else {
                        n
                    };
                    let mut sk = ByteSeeker::new(content);
                    match sk.seek_nth_back(NL, m) {
                        Ok(i) => {
                            proof {
                                lemma_nth_dual(s, NL, m as nat);
                                lemma_nth_from(s, NL, 0, (c + 1 - m) as nat);
                                assert(i as int == nth_from(s, NL, 0, (c + 1 - m) as nat));
                                assert((c + 1 - m) as nat == (k_lines - n) as nat);
                            }
                            end = i + 1;
                        },
                        Err(e) => {
                            // Unreachable: the seeker promises success while
                            // at least `m` line feeds remain.
                            assert(false);
                            return Err(e);
                        },
                    }
                }
            } else {
                if n > len {
                    return Err(
                        Error::new(
                            ErrorKind::InvalidSkip { index: slot.index, end: SkipEnd::Tail },
                        ),
                    );
                }
                end = len - n;
            }
        },
    }
    assert(spec_tail_boundary(s, tail, slot.spec_is_last()) == Option::Some(end as int));

    if start <= end {
        Ok(TrimRange { start, end })
    } else {
        Ok(TrimRange { start: 0, end: 0 })
    }
}

} // verus!
