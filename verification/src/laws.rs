//! Properties of the merge core, stated and proved once for all inputs.

use vstd::prelude::*;

use crate::bytes::{count_range, ends_with, lemma_line_start_full, line_count, NL};
use crate::error::ErrorKind;
use crate::merge::{spec_file_piece, spec_merge, spec_merge_from};
use crate::pad::{Newline, PadPlan};
use crate::skip::{spec_head_boundary, spec_tail_boundary, spec_trim, FileSlot, Skip};

verus! {

/// The plain concatenation of the sources from position `i` on.
pub open spec fn concat_from(sources: Seq<Seq<u8>>, i: int) -> Seq<u8>
    decreases sources.len() - i,
{
    if i < 0 || i >= sources.len() {
        Seq::empty()
    } else {
        sources[i] + concat_from(sources, i + 1)
    }
}

/// A padding plan that pads nowhere.
pub open spec fn empty_plan() -> PadPlan {
    PadPlan { before: Seq::empty(), between: Seq::empty(), after: Seq::empty() }
}

/// With no skip, no padding and no forced newline, merging yields the exact
/// byte-for-byte concatenation of the sources, in order, with nothing added
/// or removed.
pub proof fn lemma_merge_is_concat(sources: Seq<Seq<u8>>)
    requires
        sources.len() > 0,
    ensures
        spec_merge(sources, Option::None, Option::None, empty_plan(), Option::None) == Result::<
            Seq<u8>,
            ErrorKind,
        >::Ok(concat_from(sources, 0)),
{
    lemma_merge_from_is_concat(sources, 0);
}

proof fn lemma_merge_from_is_concat(sources: Seq<Seq<u8>>, i: int)
    requires
        0 <= i <= sources.len(),
    ensures
        spec_merge_from(sources, Option::None, Option::None, empty_plan(), Option::None, i)
            == Result::<Seq<u8>, ErrorKind>::Ok(concat_from(sources, i)),
    decreases sources.len() - i,
{
    if i < sources.len() {
        lemma_merge_from_is_concat(sources, i + 1);
        let s = sources[i];
        let slot = FileSlot { index: i as usize, count: sources.len() as usize };
        assert(spec_trim(s, Option::None, Option::None, slot.spec_is_first(), slot.spec_is_last())
            == Option::Some((0int, s.len() as int)));
        assert(Seq::<u8>::empty() + s.subrange(0, s.len() as int) + Seq::<u8>::empty() + Seq::<
            u8,
        >::empty() =~= s);
        assert(spec_file_piece(s, Option::None, Option::None, empty_plan(), Option::None, slot)
            == Result::<Seq<u8>, ErrorKind>::Ok(s));
    }
}

/// A merge fails only because nothing was passed or because a skip exceeds
/// a file's content: the seeker's internal not-found condition is always
/// translated before it reaches the caller, never exposed raw.
pub proof fn lemma_merge_error_kinds(
    sources: Seq<Seq<u8>>,
    head: Option<Skip>,
    tail: Option<Skip>,
    plan: PadPlan,
    newline: Option<Newline>,
)
    ensures
        spec_merge(sources, head, tail, plan, newline) matches Result::Err(k) ==> (k
            is NothingPassed || k is InvalidSkip),
{
    if sources.len() > 0 {
        lemma_merge_from_error_kinds(sources, head, tail, plan, newline, 0);
    }
}

proof fn lemma_merge_from_error_kinds(
    sources: Seq<Seq<u8>>,
    head: Option<Skip>,
    tail: Option<Skip>,
    plan: PadPlan,
    newline: Option<Newline>,
    i: int,
)
    ensures
        spec_merge_from(sources, head, tail, plan, newline, i) matches Result::Err(k) ==> k
            is InvalidSkip,
    decreases sources.len() - i,
{
    if 0 <= i < sources.len() {
        lemma_merge_from_error_kinds(sources, head, tail, plan, newline, i + 1);
    }
}

/// Line-skip symmetry: skipping exactly as many lines as a file holds, from
/// either end, resolves to an empty trim range.
pub proof fn lemma_line_skip_all(s: Seq<u8>, k: usize, is_first: bool, is_last: bool)
    requires
        k as nat == line_count(s),
    ensures
        spec_trim(s, Option::Some(Skip::Lines(k)), Option::None, is_first, is_last)
            == Option::Some((s.len() as int, s.len() as int)),
        spec_trim(s, Option::None, Option::Some(Skip::Lines(k)), is_first, is_last)
            == Option::Some((0int, 0int)),
{
    lemma_line_start_full(s);
    if k == 0 && s.len() > 0 && ends_with(s, NL) {
        assert(count_range(s, NL, 0, s.len() as int) == count_range(s, NL, 0, s.len() - 1) + 1);
    }
}

/// Requesting more lines than a file holds fails, from either end: the
/// resolver reports insufficient content rather than clamping.
pub proof fn lemma_line_skip_too_many(s: Seq<u8>, n: usize, is_first: bool, is_last: bool)
    requires
        n as nat > line_count(s),
    ensures
        spec_trim(s, Option::Some(Skip::Lines(n)), Option::None, is_first, is_last) is None,
        spec_trim(s, Option::None, Option::Some(Skip::Lines(n)), is_first, is_last) is None,
{
}

/// Once-exemption: a once-skip leaves the file at its boundary untouched —
/// the first file for head skips, the last for tail skips — and behaves as
/// the plain skip on every other file.
pub proof fn lemma_once_exemption(s: Seq<u8>, n: usize, is_first: bool, is_last: bool)
    ensures
        spec_head_boundary(s, Option::Some(Skip::LinesOnce(n)), true) == Option::Some(0int),
        spec_head_boundary(s, Option::Some(Skip::BytesOnce(n)), true) == Option::Some(0int),
        !is_first ==> spec_head_boundary(s, Option::Some(Skip::LinesOnce(n)), is_first)
            == spec_head_boundary(s, Option::Some(Skip::Lines(n)), is_first),
        !is_first ==> spec_head_boundary(s, Option::Some(Skip::BytesOnce(n)), is_first)
            == spec_head_boundary(s, Option::Some(Skip::Bytes(n)), is_first),
        spec_tail_boundary(s, Option::Some(Skip::LinesOnce(n)), true) == Option::Some(
            s.len() as int,
        ),
        spec_tail_boundary(s, Option::Some(Skip::BytesOnce(n)), true) == Option::Some(
            s.len() as int,
        ),
        !is_last ==> spec_tail_boundary(s, Option::Some(Skip::LinesOnce(n)), is_last)
            == spec_tail_boundary(s, Option::Some(Skip::Lines(n)), is_last),
        !is_last ==> spec_tail_boundary(s, Option::Some(Skip::BytesOnce(n)), is_last)
            == spec_tail_boundary(s, Option::Some(Skip::Bytes(n)), is_last),
{
}

/// Byte-mode bounds: skipping exactly the file's length succeeds with an
/// empty range; one byte more is an error, not a silent clamp.
pub proof fn lemma_byte_skip_bounds(s: Seq<u8>, n: usize, is_first: bool, is_last: bool)
    ensures
        n as nat > s.len() ==> spec_trim(
            s,
            Option::Some(Skip::Bytes(n)),
            Option::None,
            is_first,
            is_last,
        ) is None,
        n as nat > s.len() ==> spec_trim(
            s,
            Option::None,
            Option::Some(Skip::Bytes(n)),
            is_first,
            is_last,
        ) is None,
        n as nat == s.len() ==> spec_trim(
            s,
            Option::Some(Skip::Bytes(n)),
            Option::None,
            is_first,
            is_last,
        ) == Option::Some((s.len() as int, s.len() as int)),
        n as nat == s.len() ==> spec_trim(
            s,
            Option::None,
            Option::Some(Skip::Bytes(n)),
            is_first,
            is_last,
        ) == Option::Some((0int, 0int)),
{
}

} // verus!
