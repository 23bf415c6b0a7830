//! Padding placement: a pure decision, per file position, of which literal
//! byte strings surround a file in the output.

use vstd::prelude::*;

use crate::skip::FileSlot;

verus! {

/// The newline style appended when forced-newline normalisation is on.
#[derive(Clone, Copy, Debug, PartialEq, Eq, Structural)]
pub enum Newline {
    /// A single line feed.
    Lf,
    /// A carriage return followed by a line feed.
    Crlf,
}

impl Newline {
    /// The terminator bytes of this style.
    pub open spec fn spec_bytes(&self) -> Seq<u8> {
        match *self {
            Newline::Lf => seq![10u8],
            Newline::Crlf => seq![13u8, 10u8],
        }
    }
}

/// Where literal padding bytes are inserted relative to file boundaries.
#[derive(Clone, Debug)]
pub enum Pad {
    /// Emit once, before the first file.
    Before(Vec<u8>),
    /// Emit once, after the last file.
    After(Vec<u8>),
    /// Emit after every file except the last.
    Between(Vec<u8>),
    /// Independent combination of the three placements, each optional:
    /// before the first file, after every non-last file, after the last
    /// file.
    Custom(Option<Vec<u8>>, Option<Vec<u8>>, Option<Vec<u8>>),
}

/// The bytes a padding spec assigns to each of its three positions: before
/// the first file, after every non-last file, after the last file.
pub ghost struct PadPlan {
    /// Emitted once, before the first file.
    pub before: Seq<u8>,
    /// Emitted after every file except the last.
    pub between: Seq<u8>,
    /// Emitted once, after the last file.
    pub after: Seq<u8>,
}

/// The bytes of an optional padding payload; none stands for no bytes.
pub open spec fn opt_bytes(o: Option<Vec<u8>>) -> Seq<u8> {
    match o {
        Option::Some(v) => v@,
        Option::None => Seq::empty(),
    }
}

impl Pad {
    /// The three-position plan this spec stands for.
    pub open spec fn plan(&self) -> PadPlan {
        match *self {
            Pad::Before(b) => PadPlan { before: b@, between: Seq::empty(), after: Seq::empty() },
            Pad::After(b) => PadPlan { before: Seq::empty(), between: Seq::empty(), after: b@ },
            Pad::Between(b) => PadPlan { before: Seq::empty(), between: b@, after: Seq::empty() },
            Pad::Custom(before, between, after) => PadPlan {
                before: opt_bytes(before),
                between: opt_bytes(between),
                after: opt_bytes(after),
            },
        }
    }
}

/// The plan of an optional padding spec; none pads nowhere.
pub open spec fn plan_of(pad: Option<Pad>) -> PadPlan {
    match pad {
        Option::Some(p) => p.plan(),
        Option::None => PadPlan {
            before: Seq::empty(),
            between: Seq::empty(),
            after: Seq::empty(),
        },
    }
}

/// The bytes emitted immediately before a file at the given position.
pub open spec fn spec_pad_before(plan: PadPlan, is_first: bool) -> Seq<u8> {
    if is_first {
        plan.before
    } else {
        Seq::empty()
    }
}

/// The bytes emitted immediately after a file at the given position.
pub open spec fn spec_pad_after(plan: PadPlan, is_last: bool) -> Seq<u8> {
    if is_last {
        plan.after
    } else {
        plan.between
    }
}

/// The padding emitted before the file in `slot`, if any.
pub fn pad_before<'a>(pad: &'a Option<Pad>, slot: FileSlot) -> (r: Option<&'a Vec<u8>>)
    ensures
        match r {
            Option::Some(b) => b@ == spec_pad_before(plan_of(*pad), slot.spec_is_first()),
            Option::None => spec_pad_before(plan_of(*pad), slot.spec_is_first())
                == Seq::<u8>::empty(),
        },
{
    if !slot.is_first() {
        return Option::None;
    }
    match pad {
        Option::Some(Pad::Before(b)) => Option::Some(b),
        Option::Some(Pad::Custom(before, _, _)) => match before {
            Option::Some(b) => Option::Some(b),
            Option::None => Option::None,
        },
        _ => Option::None,
    }
}

/// The padding emitted after the file in `slot`, if any.
pub fn pad_after<'a>(pad: &'a Option<Pad>, slot: FileSlot) -> (r: Option<&'a Vec<u8>>)
    ensures
        match r {
            Option::Some(b) => b@ == spec_pad_after(plan_of(*pad), slot.spec_is_last()),
            Option::None => spec_pad_after(plan_of(*pad), slot.spec_is_last())
                == Seq::<u8>::empty(),
        },
{
    let last = slot.is_last();
    match pad {
        Option::Some(Pad::After(b)) => if last {
            Option::Some(b)
        } else {
            Option::None
        },
        Option::Some(Pad::Between(b)) => if last {
            Option::None
        } else {
            Option::Some(b)
        },
        Option::Some(Pad::Custom(_, between, after)) => {
            if last {
                match after {
                    Option::Some(b) => Option::Some(b),
                    Option::None => Option::None,
                }
            } else {
                match between {
                    Option::Some(b) => Option::Some(b),
                    Option::None => Option::None,
                }
            }
        },
        _ => Option::None,
    }
}

/// Padding placement, stated for every variant over every position: `Before`
/// pads once, before the first file only; `After` pads once, after the last
/// file only; `Between` pads after every file except the last; `Custom`
/// applies the three rules independently; no spec pads nowhere.
pub proof fn lemma_pad_placement(b: Vec<u8>, is_first: bool, is_last: bool)
    ensures
        spec_pad_before(plan_of(Option::Some(Pad::Before(b))), is_first) == if is_first {
            b@
        } else {
            Seq::<u8>::empty()
        },
        spec_pad_after(plan_of(Option::Some(Pad::Before(b))), is_last) == Seq::<u8>::empty(),
        spec_pad_before(plan_of(Option::Some(Pad::After(b))), is_first) == Seq::<u8>::empty(),
        spec_pad_after(plan_of(Option::Some(Pad::After(b))), is_last) == if is_last {
            b@
        } else {
            Seq::<u8>::empty()
        },
        spec_pad_before(plan_of(Option::Some(Pad::Between(b))), is_first) == Seq::<u8>::empty(),
        spec_pad_after(plan_of(Option::Some(Pad::Between(b))), is_last) == if is_last {
            Seq::<u8>::empty()
        } else {
            b@
        },
        spec_pad_before(
            plan_of(
                Option::Some(Pad::Custom(Option::Some(b), Option::Some(b), Option::Some(b))),
            ),
            is_first,
        ) == if is_first {
            b@
        } else {
            Seq::<u8>::empty()
        },
        spec_pad_after(
            plan_of(
                Option::Some(Pad::Custom(Option::Some(b), Option::Some(b), Option::Some(b))),
            ),
            is_last,
        ) == b@,
        spec_pad_before(plan_of(Option::None), is_first) == Seq::<u8>::empty(),
        spec_pad_after(plan_of(Option::None), is_last) == Seq::<u8>::empty(),
{
}

} // verus!
