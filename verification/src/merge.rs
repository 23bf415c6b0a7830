//! The merge writer: assembles trimmed file contents, padding and forced
//! terminators into one output stream, in file order.
//!
//! For each file in order the writer emits its padding-before bytes, the
//! surviving byte range, the configured terminator when the trimmed content
//! does not already end with a line feed, and its padding-after bytes.
//! Nothing else is added: the output is the literal concatenation of those
//! tuples.  A failure on any file aborts the whole run; files after it are
//! never touched.

use vstd::prelude::*;

use crate::bytes::{ends_with, NL};
use crate::error::{Error, ErrorKind, SkipEnd};
use crate::pad::{pad_after, pad_before, plan_of, spec_pad_after, spec_pad_before, Newline, Pad, PadPlan};
use crate::skip::{
    lemma_trim_in_range, resolve_range, spec_head_boundary, spec_trim, FileSlot, Skip,
};
use crate::util::{push_all, push_range};
use vstd::seq_lib::lemma_concat_associative;

verus! {

/// The byte sequences held by a list of in-memory sources.
pub open spec fn views_of(sources: Seq<Vec<u8>>) -> Seq<Seq<u8>> {
    Seq::new(sources.len(), |i: int| sources[i]@)
}

/// Output contributed by the file in `slot` with content `s`, or the error
/// that aborts the run: padding before, the surviving range, the forced
/// terminator when the trimmed content does not end with a line feed, and
/// padding after, concatenated in that order.
pub open spec fn spec_file_piece(
    s: Seq<u8>,
    head: Option<Skip>,
    tail: Option<Skip>,
    plan: PadPlan,
    newline: Option<Newline>,
    slot: FileSlot,
) -> Result<Seq<u8>, ErrorKind> {
    match spec_trim(s, head, tail, slot.spec_is_first(), slot.spec_is_last()) {
        Option::None => Result::Err(
            ErrorKind::InvalidSkip {
                index: slot.index,
                end: if spec_head_boundary(s, head, slot.spec_is_first()) is None {
                    SkipEnd::Head
                } else {
                    SkipEnd::Tail
                },
            },
        ),
        Option::Some(range) => {
            let trimmed = s.subrange(range.0, range.1);
            let term = match newline {
                Option::Some(nl) => if ends_with(trimmed, NL) {
                    Seq::<u8>::empty()
                } else {
                    nl.spec_bytes()
                },
                Option::None => Seq::<u8>::empty(),
            };
            Result::Ok(
                spec_pad_before(plan, slot.spec_is_first()) + trimmed + term + spec_pad_after(
                    plan,
                    slot.spec_is_last(),
                ),
            )
        },
    }
}

/// Concatenated output of the files of `sources` from position `i` on, or
/// the first error among them.
pub open spec fn spec_merge_from(
    sources: Seq<Seq<u8>>,
    head: Option<Skip>,
    tail: Option<Skip>,
    plan: PadPlan,
    newline: Option<Newline>,
    i: int,
) -> Result<Seq<u8>, ErrorKind>
    decreases sources.len() - i,
{
    if i < 0 || i >= sources.len() {
        Result::Ok(Seq::empty())
    } else {
        let slot = FileSlot { index: i as usize, count: sources.len() as usize };
        match spec_file_piece(sources[i], head, tail, plan, newline, slot) {
            Result::Err(k) => Result::Err(k),
            Result::Ok(piece) => match spec_merge_from(sources, head, tail, plan, newline, i + 1) {
                Result::Err(k) => Result::Err(k),
                Result::Ok(rest) => Result::Ok(piece + rest),
            },
        }
    }
}

/// The merged output of `sources` under a configuration, or the first
/// error.  Merging an empty list is an error.
pub open spec fn spec_merge(
    sources: Seq<Seq<u8>>,
    head: Option<Skip>,
    tail: Option<Skip>,
    plan: PadPlan,
    newline: Option<Newline>,
) -> Result<Seq<u8>, ErrorKind> {
    if sources.len() == 0 {
        Result::Err(ErrorKind::NothingPassed)
    } else {
        spec_merge_from(sources, head, tail, plan, newline, 0)
    }
}

/// Appends one file's contribution to `out`: padding before, the surviving
/// range of `content`, the forced terminator when the trimmed content does
/// not end with a line feed, and padding after.  On failure `out` is left
/// untouched.
fn emit_piece(
    out: &mut Vec<u8>,
    content: &Vec<u8>,
    head: Option<Skip>,
    tail: Option<Skip>,
    pad: &Option<Pad>,
    newline: Option<Newline>,
    slot: FileSlot,
) -> (r: Result<(), Error>)
    ensures
        match r {
            Ok(_) => spec_file_piece(content@, head, tail, plan_of(*pad), newline, slot) matches Result::Ok(
                piece,
            ) && final(out)@ == old(out)@ + piece,
            Err(e) => spec_file_piece(content@, head, tail, plan_of(*pad), newline, slot) == Result::<
                Seq<u8>,
                ErrorKind,
            >::Err(e.spec_kind()) && final(out)@ == old(out)@,
        },
{
    let ghost s = content@;
    let ghost out0 = out@;
    proof {
        lemma_trim_in_range(s, head, tail, slot.spec_is_first(), slot.spec_is_last());
    }
    match resolve_range(content, head, tail, slot) {
        Err(e) => Err(e),
        Ok(tr) => {
            let ghost st = tr.start as int;
            let ghost en = tr.end as int;
            let ghost trimmed = s.subrange(st, en);
            let ghost padb = spec_pad_before(plan_of(*pad), slot.spec_is_first());
            let ghost pada = spec_pad_after(plan_of(*pad), slot.spec_is_last());
            let ghost term = match newline {
                Option::Some(style) => if ends_with(trimmed, NL) {
                    Seq::<u8>::empty()
                } else {
                    style.spec_bytes()
                },
                Option::None => Seq::<u8>::empty(),
            };
            match pad_before(pad, slot) {
                Option::Some(b) => push_all(out, b),
                Option::None => {},
            }
            proof {
                assert(out@ =~= out0 + padb);
            }
            push_range(out, content, tr.start, tr.end);
            let ghost out2 = out@;
            match newline {
                Option::Some(style) => {
                    let terminated = tr.end > tr.start && content[tr.end - 1] == NL;
                    proof {
                        assert(terminated == ends_with(trimmed, NL));
                    }
                    if !terminated {
                        match style {
                            Newline::Lf => out.push(NL),
                            Newline::Crlf => {
                                out.push(13);
                                out.push(NL);
                            },
                        }
                    }
                },
                Option::None => {},
            }
            proof {
                assert(out@ =~= out2 + term);
            }
            let ghost out3 = out@;
            match pad_after(pad, slot) {
                Option::Some(b) => push_all(out, b),
                Option::None => {},
            }
            proof {
                assert(out@ =~= out3 + pada);
                lemma_concat_associative(out0, padb, trimmed);
                lemma_concat_associative(out0, padb + trimmed, term);
                lemma_concat_associative(out0, padb + trimmed + term, pada);
                assert(out@ == out0 + (padb + trimmed + term + pada));
                assert(spec_file_piece(s, head, tail, plan_of(*pad), newline, slot) == Result::<
                    Seq<u8>,
                    ErrorKind,
                >::Ok(padb + trimmed + term + pada));
            }
            Ok(())
        },
    }
}

/// Configures and performs a merge: at most one head skip, one tail skip,
/// one padding spec, and one newline spec.
#[derive(Clone, Debug)]
pub struct FileMerger {
    head: Option<Skip>,
    tail: Option<Skip>,
    pad: Option<Pad>,
    newline: Option<Newline>,
}

impl FileMerger {
    /// The configured head skip.
    pub closed spec fn spec_head(&self) -> Option<Skip> {
        self.head
    }

    /// The configured tail skip.
    pub closed spec fn spec_tail(&self) -> Option<Skip> {
        self.tail
    }

    /// The configured padding.
    pub closed spec fn spec_pad(&self) -> Option<Pad> {
        self.pad
    }

    /// The configured newline style.
    pub closed spec fn spec_newline(&self) -> Option<Newline> {
        self.newline
    }

    /// A merger with no skip, no padding and no forced newline.
    pub fn new() -> (m: FileMerger)
        ensures
            m.spec_head() is None,
            m.spec_tail() is None,
            m.spec_pad() is None,
            m.spec_newline() is None,
    {
        FileMerger { head: Option::None, tail: Option::None, pad: Option::None, newline: Option::None }
    }

    /// Sets the head skip, applied to the start of each source.
    pub fn skip_head(&mut self, skip: Skip)
        ensures
            final(self).spec_head() == Option::Some(skip),
            final(self).spec_tail() == old(self).spec_tail(),
            final(self).spec_pad() == old(self).spec_pad(),
            final(self).spec_newline() == old(self).spec_newline(),
    {
        self.head = Option::Some(skip);
    }

    /// Sets the tail skip, applied to the end of each source.
    pub fn skip_tail(&mut self, skip: Skip)
        ensures
            final(self).spec_tail() == Option::Some(skip),
            final(self).spec_head() == old(self).spec_head(),
            final(self).spec_pad() == old(self).spec_pad(),
            final(self).spec_newline() == old(self).spec_newline(),
    {
        self.tail = Option::Some(skip);
    }

    /// Sets the padding inserted around sources.
    pub fn pad_with(&mut self, pad: Pad)
        ensures
            final(self).spec_pad() == Option::Some(pad),
            final(self).spec_head() == old(self).spec_head(),
            final(self).spec_tail() == old(self).spec_tail(),
            final(self).spec_newline() == old(self).spec_newline(),
    {
        self.pad = Option::Some(pad);
    }

    /// Forces each source's contribution to end with the given newline
    /// style.
    pub fn force_ending_newline(&mut self, newline: Newline)
        ensures
            final(self).spec_newline() == Option::Some(newline),
            final(self).spec_head() == old(self).spec_head(),
            final(self).spec_tail() == old(self).spec_tail(),
            final(self).spec_pad() == old(self).spec_pad(),
    {
        self.newline = Option::Some(newline);
    }

    /// Merges the given in-memory sources into one output stream, exactly
    /// as `spec_merge` describes: per file, padding before, the surviving
    /// byte range, the forced terminator when the trimmed content does not
    /// end with a line feed, and padding after.  Fails on an empty source
    /// list, or on the first file whose skip cannot be supplied.
    pub fn merge(&self, sources: &Vec<Vec<u8>>) -> (r: Result<Vec<u8>, Error>)
        ensures
            match r {
                Ok(out) => spec_merge(
                    views_of(sources@),
                    self.spec_head(),
                    self.spec_tail(),
                    plan_of(self.spec_pad()),
                    self.spec_newline(),
                ) == Result::<Seq<u8>, ErrorKind>::Ok(out@),
                Err(e) => spec_merge(
                    views_of(sources@),
                    self.spec_head(),
                    self.spec_tail(),
                    plan_of(self.spec_pad()),
                    self.spec_newline(),
                ) == Result::<Seq<u8>, ErrorKind>::Err(e.spec_kind()),
            },
    {
        let ghost srcs = views_of(sources@);
        let ghost h = self.spec_head();
        let ghost t = self.spec_tail();
        let ghost p = plan_of(self.spec_pad());
        let ghost nl = self.spec_newline();
        let n = sources.len();
        if n == 0 {
            return Err(Error::new(ErrorKind::NothingPassed));
        }
        let mut out: Vec<u8> = Vec::new();
        let mut i: usize = 0;
        proof {
            assert(srcs.len() == n);
            match spec_merge_from(srcs, h, t, p, nl, 0) {
                Result::Ok(rest) => {
                    assert(Seq::<u8>::empty() + rest =~= rest);
                },
                Result::Err(_) => {},
            }
        }
        #[verifier::loop_isolation(false)]
        while i < n
            invariant
                i <= n,
                match spec_merge_from(srcs, h, t, p, nl, i as int) {
                    Result::Ok(rest) => spec_merge_from(srcs, h, t, p, nl, 0) == Result::<
                        Seq<u8>,
                        ErrorKind,
                    >::Ok(out@ + rest),
                    Result::Err(k) => spec_merge_from(srcs, h, t, p, nl, 0) == Result::<
                        Seq<u8>,
                        ErrorKind,
                    >::Err(k),
                },
            decreases n - i,
        {
            let ghost out0 = out@;
            let slot = FileSlot { index: i, count: n };
            let content = &sources[i];
            proof {
                assert(srcs[i as int] == content@);
            }
            match emit_piece(&mut out, content, self.head, self.tail, &self.pad, self.newline, slot) {
                Err(e) => {
                    return Err(e);
                },
                Ok(_) => {
                    proof {
                        let piece = spec_file_piece(srcs[i as int], h, t, p, nl, slot)->Ok_0;
                        match spec_merge_from(srcs, h, t, p, nl, i + 1) {
                            Result::Ok(rest) => {
                                lemma_concat_associative(out0, piece, rest);
                            },
                            Result::Err(_) => {},
                        }
                    }
                    i = i + 1;
                },
            }
        }
        proof {
            assert(spec_merge_from(srcs, h, t, p, nl, n as int) == Result::<
                Seq<u8>,
                ErrorKind,
            >::Ok(Seq::empty()));
            assert(out@ + Seq::<u8>::empty() =~= out@);
        }
        Ok(out)
    }
}

} // verus!
