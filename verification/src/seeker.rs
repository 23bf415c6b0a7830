//! A bidirectional, stateful search engine over a byte stream.
//!
//! A `ByteSeeker` walks a borrowed byte stream to find the position of a
//! given byte.  Forward and backward searches are independent walks over the
//! same stream; each is monotonic — the forward cursor only advances, the
//! backward cursor only retreats — until `reset`.  Once a direction is
//! exhausted, every further call in that direction fails without looking at
//! the stream again.

use vstd::prelude::*;

use crate::bytes::{
    count_range, first_at, last_at, lemma_first_at, lemma_first_at_count, lemma_last_at,
    lemma_last_at_count, lemma_nth_back_succ, lemma_nth_from_succ, nth_back, nth_from,
};
use crate::error::{Error, ErrorKind};

verus! {

/// The abstract state of a seeker's two cursors.
pub ghost struct Cursor {
    /// Position from which the next forward search resumes.
    pub fwd: int,
    /// Whether the forward walk is exhausted.
    pub fwd_done: bool,
    /// Position from which the next backward search resumes.
    pub bwd: int,
    /// Whether the backward walk is exhausted.
    pub bwd_done: bool,
}

/// The cursor that `new` and `reset` establish over a stream of `len`
/// bytes.
pub open spec fn initial_cursor(len: int) -> Cursor {
    Cursor {
        fwd: 0,
        fwd_done: false,
        bwd: if len == 0 {
            0int
        } else {
            len - 1
        },
        bwd_done: false,
    }
}

/// One forward search over stream `s` from position `pos`: the offset
/// found, if any, with the position and exhaustion flag afterwards.
pub open spec fn spec_seek_step(s: Seq<u8>, pos: int, done: bool, byte: u8) -> (
    Option<int>,
    int,
    bool,
) {
    if done || first_at(s, byte, pos) == -1 {
        (Option::None, pos, true)
    } else {
        (Option::Some(first_at(s, byte, pos)), first_at(s, byte, pos) + 1, false)
    }
}

/// One backward search over stream `s` from position `pos`: the offset
/// found, if any, with the position and exhaustion flag afterwards.
pub open spec fn spec_seek_back_step(s: Seq<u8>, pos: int, done: bool, byte: u8) -> (
    Option<int>,
    int,
    bool,
) {
    if done || last_at(s, byte, pos) == -1 {
        (Option::None, pos, true)
    } else {
        let i = last_at(s, byte, pos);
        if i == 0 {
            (Option::Some(0int), 0int, true)
        } else {
            (Option::Some(i), i - 1, false)
        }
    }
}

/// One call in a seek sequence: the direction walked and the byte sought.
pub enum SeekOp {
    /// A forward search for the given byte.
    Forward(u8),
    /// A backward search for the given byte.
    Backward(u8),
}

/// One operation applied to a cursor: the offset returned, if any, and the
/// cursor afterwards.
pub open spec fn apply_op(s: Seq<u8>, c: Cursor, op: SeekOp) -> (Option<int>, Cursor) {
    match op {
        SeekOp::Forward(b) => {
            let (res, pos, done) = spec_seek_step(s, c.fwd, c.fwd_done, b);
            (res, Cursor { fwd: pos, fwd_done: done, bwd: c.bwd, bwd_done: c.bwd_done })
        },
        SeekOp::Backward(b) => {
            let (res, pos, done) = spec_seek_back_step(s, c.bwd, c.bwd_done, b);
            (res, Cursor { fwd: c.fwd, fwd_done: c.fwd_done, bwd: pos, bwd_done: done })
        },
    }
}

/// The offsets returned by a sequence of seeks from a given cursor.  Each
/// entry is a function of the stream and the cursor alone.
pub open spec fn replay(s: Seq<u8>, c: Cursor, ops: Seq<SeekOp>) -> Seq<Option<int>>
    decreases ops.len(),
{
    if ops.len() == 0 {
        Seq::empty()
    } else {
        seq![apply_op(s, c, ops[0]).0] + replay(s, apply_op(s, c, ops[0]).1, ops.drop_first())
    }
}

/// Idempotence of seeking: `reset` restores the cursor that `new`
/// establishes, and every search result is a function of the stream and the
/// cursor alone, so repeating an identical sequence of `seek` and
/// `seek_back` calls after a `reset` reproduces identical offsets.
pub proof fn lemma_reset_replay(a: ByteSeeker, b: ByteSeeker, ops: Seq<SeekOp>)
    requires
        a.bytes() == b.bytes(),
        a.is_initial(),
        b.is_initial(),
    ensures
        a.cursor() == b.cursor(),
        a.cursor() == initial_cursor(a.bytes().len() as int),
        replay(a.bytes(), a.cursor(), ops) == replay(b.bytes(), b.cursor(), ops),
{
}

/// Bidirectional search state over one byte stream.
pub struct ByteSeeker<'a> {
    data: &'a Vec<u8>,
    forward_pos: usize,
    backward_pos: usize,
    forward_exhausted: bool,
    backward_exhausted: bool,
}

impl<'a> ByteSeeker<'a> {
    #[verifier::type_invariant]
    spec fn wf(self) -> bool {
        &&& self.forward_pos <= self.data@.len()
        &&& (self.backward_pos == 0 || self.backward_pos < self.data@.len())
    }

    /// The underlying byte stream.
    pub closed spec fn bytes(&self) -> Seq<u8> {
        self.data@
    }

    /// Position from which the next forward search resumes.
    pub closed spec fn fwd_pos(&self) -> int {
        self.forward_pos as int
    }

    /// Position from which the next backward search resumes.
    pub closed spec fn bwd_pos(&self) -> int {
        self.backward_pos as int
    }

    /// Whether the forward walk has been exhausted.
    pub closed spec fn fwd_done(&self) -> bool {
        self.forward_exhausted
    }

    /// Whether the backward walk has been exhausted.
    pub closed spec fn bwd_done(&self) -> bool {
        self.backward_exhausted
    }

    /// The abstract state of this seeker's two cursors.
    pub open spec fn cursor(&self) -> Cursor {
        Cursor {
            fwd: self.fwd_pos(),
            fwd_done: self.fwd_done(),
            bwd: self.bwd_pos(),
            bwd_done: self.bwd_done(),
        }
    }

    /// Both cursors stand where `new` puts them and neither walk is
    /// exhausted.
    pub open spec fn is_initial(&self) -> bool {
        &&& self.fwd_pos() == 0
        &&& self.bwd_pos() == if self.bytes().len() == 0 {
            0int
        } else {
            self.bytes().len() - 1
        }
        &&& !self.fwd_done()
        &&& !self.bwd_done()
    }

    /// Creates a seeker over `data`, with the forward cursor at the start
    /// and the backward cursor at the last byte.
    pub fn new(data: &'a Vec<u8>) -> (s: Self)
        ensures
            s.bytes() == data@,
            s.is_initial(),
    {
        let len = data.len();
        ByteSeeker {
            data,
            forward_pos: 0,
            backward_pos: if len == 0 {
                0
            } else {
                len - 1
            },
            forward_exhausted: false,
            backward_exhausted: false,
        }
    }

    /// Length of the underlying stream.
    pub fn length(&self) -> (n: usize)
        ensures
            n == self.bytes().len(),
    {
        self.data.len()
    }

    /// Reinitialises both cursors and clears both exhaustion flags.
    ///
    /// Because every search result is a function of the stream and the
    /// cursor state alone, repeating an identical sequence of calls after a
    /// reset reproduces identical offsets.
    pub fn reset(&mut self)
        ensures
            final(self).bytes() == old(self).bytes(),
            final(self).is_initial(),
    {
        proof {
            use_type_invariant(&*self);
        }
        let len = self.data.len();
        self.forward_pos = 0;
        self.backward_pos = if len == 0 {
            0
        } else {
            len - 1
        };
        self.forward_exhausted = false;
        self.backward_exhausted = false;
    }

    /// Searches forward from the forward cursor for `byte`, returning its
    /// absolute offset; the forward cursor advances to one past the match.
    /// Fails with `ByteNotFound`, exhausting the forward walk, when no match
    /// remains.
    pub fn seek(&mut self, byte: u8) -> (r: Result<usize, Error>)
        ensures
            final(self).bytes() == old(self).bytes(),
            final(self).bwd_pos() == old(self).bwd_pos(),
            final(self).bwd_done() == old(self).bwd_done(),
            r is Ok <==> !old(self).fwd_done() && first_at(
                old(self).bytes(),
                byte,
                old(self).fwd_pos(),
            ) != -1,
            r matches Ok(i) ==> {
                &&& i as int == first_at(old(self).bytes(), byte, old(self).fwd_pos())
                &&& final(self).fwd_pos() == i + 1
                &&& !final(self).fwd_done()
            },
            r matches Err(e) ==> {
                &&& e.spec_kind() == ErrorKind::ByteNotFound
                &&& final(self).fwd_done()
                &&& final(self).fwd_pos() == old(self).fwd_pos()
            },
            (
                match r {
                    Ok(i) => Option::Some(i as int),
                    Err(_) => Option::<int>::None,
                },
                final(self).cursor(),
            ) == apply_op(old(self).bytes(), old(self).cursor(), SeekOp::Forward(byte)),
    {
        proof {
            use_type_invariant(&*self);
        }
        if self.forward_exhausted {
            return Err(Error::new(ErrorKind::ByteNotFound));
        }
        let len = self.data.len();
        match fscan(self.data, self.forward_pos, byte) {
            Some(i) => {
                assert(i < len);
                self.forward_pos = i + 1;
                Ok(i)
            },
            None => {
                self.forward_exhausted = true;
                Err(Error::new(ErrorKind::ByteNotFound))
            },
        }
    }

    /// Searches backward from the backward cursor for `byte`, returning its
    /// absolute offset measured from the start of the stream; the backward
    /// cursor retreats to one before the match.  Fails with `ByteNotFound`,
    /// exhausting the backward walk, when no match remains.
    pub fn seek_back(&mut self, byte: u8) -> (r: Result<usize, Error>)
        ensures
            final(self).bytes() == old(self).bytes(),
            final(self).fwd_pos() == old(self).fwd_pos(),
            final(self).fwd_done() == old(self).fwd_done(),
            r is Ok <==> !old(self).bwd_done() && last_at(
                old(self).bytes(),
                byte,
                old(self).bwd_pos(),
            ) != -1,
            r matches Ok(i) ==> {
                &&& i as int == last_at(old(self).bytes(), byte, old(self).bwd_pos())
                &&& (i > 0 ==> final(self).bwd_pos() == i - 1 && !final(self).bwd_done())
                &&& (i == 0 ==> final(self).bwd_pos() == 0 && final(self).bwd_done())
            },
            r matches Err(e) ==> {
                &&& e.spec_kind() == ErrorKind::ByteNotFound
                &&& final(self).bwd_done()
                &&& final(self).bwd_pos() == old(self).bwd_pos()
            },
            (
                match r {
                    Ok(i) => Option::Some(i as int),
                    Err(_) => Option::<int>::None,
                },
                final(self).cursor(),
            ) == apply_op(old(self).bytes(), old(self).cursor(), SeekOp::Backward(byte)),
    {
        proof {
            use_type_invariant(&*self);
        }
        if self.backward_exhausted {
            return Err(Error::new(ErrorKind::ByteNotFound));
        }
        if self.data.len() == 0 {
            self.backward_exhausted = true;
            return Err(Error::new(ErrorKind::ByteNotFound));
        }
        match rscan(self.data, self.backward_pos, byte) {
            Some(i) => {
                if i == 0 {
                    self.backward_pos = 0;
                    self.backward_exhausted = true;
                } else {
                    self.backward_pos = i - 1;
                }
                Ok(i)
            },
            None => {
                self.backward_exhausted = true;
                Err(Error::new(ErrorKind::ByteNotFound))
            },
        }
    }

    /// Repeats `seek` `nth` times, returning the final position: the offset
    /// of the `nth` occurrence of `byte` at or after the forward cursor.
    /// Fails as soon as any underlying call fails; no partial result is
    /// returned.
    pub fn seek_nth(&mut self, byte: u8, nth: usize) -> (r: Result<usize, Error>)
        requires
            1 <= nth,
        ensures
            final(self).bytes() == old(self).bytes(),
            final(self).bwd_pos() == old(self).bwd_pos(),
            final(self).bwd_done() == old(self).bwd_done(),
            r is Ok <==> !old(self).fwd_done() && count_range(
                old(self).bytes(),
                byte,
                old(self).fwd_pos(),
                old(self).bytes().len() as int,
            ) >= nth,
            r matches Ok(i) ==> {
                &&& i as int == nth_from(old(self).bytes(), byte, old(self).fwd_pos(), nth as nat)
                &&& final(self).fwd_pos() == i + 1
                &&& !final(self).fwd_done()
            },
            r matches Err(e) ==> {
                &&& e.spec_kind() == ErrorKind::ByteNotFound
                &&& final(self).fwd_done()
            },
            old(self).fwd_pos() <= final(self).fwd_pos(),
    {
        proof {
            use_type_invariant(&*self);
        }
        let ghost s = self.bytes();
        let ghost len = s.len() as int;
        let ghost from0 = self.fwd_pos();
        let ghost fd0 = self.fwd_done();
        let mut t: usize = 0;
        let mut last: usize = 0;
        #[verifier::loop_isolation(false)]
        while t < nth
            invariant
                t <= nth,
                self.bytes() == s,
                self.bwd_pos() == old(self).bwd_pos(),
                self.bwd_done() == old(self).bwd_done(),
                from0 <= self.fwd_pos(),
                t == 0 ==> self.fwd_pos() == from0 && self.fwd_done() == fd0,
                t >= 1 ==> {
                    &&& !fd0
                    &&& !self.fwd_done()
                    &&& last as int == nth_from(s, byte, from0, t as nat)
                    &&& 0 <= last < len
                    &&& self.fwd_pos() == last + 1
                },
                count_range(s, byte, from0, len) == count_range(s, byte, self.fwd_pos(), len) + t,
            decreases nth - t,
        {
            let ghost fwd_t = self.fwd_pos();
            let ghost fdone_t = self.fwd_done();
            match self.seek(byte) {
                Ok(i) => {
                    proof {
                        lemma_first_at(s, byte, fwd_t);
                        lemma_first_at_count(s, byte, fwd_t);
                        if t >= 1 {
                            lemma_nth_from_succ(s, byte, from0, t as nat);
                        }
                    }
                    last = i;
                    t = t + 1;
                },
                Err(e) => {
                    proof {
                        if !fdone_t && first_at(s, byte, fwd_t) == -1 {
                            lemma_first_at_count(s, byte, fwd_t);
                        }
                    }
                    return Err(e);
                },
            }
        }
        Ok(last)
    }

    /// Repeats `seek_back` `nth` times, returning the final position: the
    /// offset of the `nth` occurrence of `byte` at or before the backward
    /// cursor, counting from the right.  Fails as soon as any underlying
    /// call fails; no partial result is returned.
    pub fn seek_nth_back(&mut self, byte: u8, nth: usize) -> (r: Result<usize, Error>)
        requires
            1 <= nth,
        ensures
            final(self).bytes() == old(self).bytes(),
            final(self).fwd_pos() == old(self).fwd_pos(),
            final(self).fwd_done() == old(self).fwd_done(),
            r is Ok <==> !old(self).bwd_done() && count_range(
                old(self).bytes(),
                byte,
                0,
                old(self).bwd_pos() + 1,
            ) >= nth,
            r matches Ok(i) ==> {
                &&& i as int == nth_back(old(self).bytes(), byte, old(self).bwd_pos(), nth as nat)
                &&& (i > 0 ==> final(self).bwd_pos() == i - 1 && !final(self).bwd_done())
                &&& (i == 0 ==> final(self).bwd_pos() == 0 && final(self).bwd_done())
            },
            r matches Err(e) ==> {
                &&& e.spec_kind() == ErrorKind::ByteNotFound
                &&& final(self).bwd_done()
            },
            final(self).bwd_pos() <= old(self).bwd_pos(),
    {
        proof {
            use_type_invariant(&*self);
        }
        let ghost s = self.bytes();
        let ghost upto0 = self.bwd_pos();
        let ghost bd0 = self.bwd_done();
        let mut t: usize = 0;
        let mut last: usize = 0;
        #[verifier::loop_isolation(false)]
        while t < nth
            invariant
                t <= nth,
                self.bytes() == s,
                self.fwd_pos() == old(self).fwd_pos(),
                self.fwd_done() == old(self).fwd_done(),
                self.bwd_pos() <= upto0,
                t == 0 ==> self.bwd_pos() == upto0 && self.bwd_done() == bd0,
                t >= 1 ==> {
                    &&& !bd0
                    &&& last as int == nth_back(s, byte, upto0, t as nat)
                    &&& 0 <= last <= upto0
                    &&& (last > 0 ==> !self.bwd_done() && self.bwd_pos() == last - 1)
                    &&& (last == 0 ==> self.bwd_done() && self.bwd_pos() == 0)
                },
                !self.bwd_done() ==> count_range(s, byte, 0, upto0 + 1) == count_range(
                    s,
                    byte,
                    0,
                    self.bwd_pos() + 1,
                ) + t,
                t >= 1 && self.bwd_done() ==> count_range(s, byte, 0, upto0 + 1) == t,
            decreases nth - t,
        {
            let ghost bwd_t = self.bwd_pos();
            let ghost bdone_t = self.bwd_done();
            match self.seek_back(byte) {
                Ok(i) => {
                    proof {
                        lemma_last_at_count(s, byte, bwd_t);
                        if t >= 1 {
                            lemma_nth_back_succ(s, byte, upto0, t as nat);
                        }
                        lemma_last_at(s, byte, bwd_t);
                    }
                    last = i;
                    t = t + 1;
                },
                Err(e) => {
                    proof {
                        if !bdone_t && last_at(s, byte, bwd_t) == -1 && s.len() > 0 {
                            lemma_last_at_count(s, byte, bwd_t);
                        }
                        if s.len() == 0 {
                            assert(count_range(s, byte, 0, upto0 + 1) == 0);
                        }
                    }
                    return Err(e);
                },
            }
        }
        Ok(last)
    }
}

/// Scans `data[from..]` for `byte`, returning the least matching index.
fn fscan(data: &Vec<u8>, from: usize, byte: u8) -> (r: Option<usize>)
    requires
        from <= data@.len(),
    ensures
        match r {
            Some(i) => {
                &&& i as int == first_at(data@, byte, from as int)
                &&& from <= i < data@.len()
            },
            None => first_at(data@, byte, from as int) == -1,
        },
{
    let ghost s = data@;
    let len = data.len();
    let mut i = from;
    while i < len
        invariant
            from <= i <= len,
            len == s.len(),
            s == data@,
            forall|j: int| from <= j < i ==> s[j] != byte,
        decreases len - i,
    {
        if data[i] == byte {
            proof {
                lemma_first_at(s, byte, from as int);
            }
            return Some(i);
        }
        i = i + 1;
    }
    proof {
        lemma_first_at(s, byte, from as int);
    }
    None
}

/// Scans `data[..=upto]` backward for `byte`, returning the greatest
/// matching index.
fn rscan(data: &Vec<u8>, upto: usize, byte: u8) -> (r: Option<usize>)
    requires
        upto < data@.len(),
    ensures
        match r {
            Some(i) => {
                &&& i as int == last_at(data@, byte, upto as int)
                &&& i <= upto
            },
            None => last_at(data@, byte, upto as int) == -1,
        },
{
    let ghost s = data@;
    let len = data.len();
    assert(upto < len);
    let mut i = upto + 1;
    while i > 0
        invariant
            i <= upto + 1,
            upto < s.len(),
            s == data@,
            forall|j: int| i <= j <= upto ==> s[j] != byte,
        decreases i,
    {
        i = i - 1;
        if data[i] == byte {
            proof {
                lemma_last_at(s, byte, upto as int);
            }
            return Some(i);
        }
    }
    proof {
        lemma_last_at(s, byte, upto as int);
    }
    None
}

} // verus!
