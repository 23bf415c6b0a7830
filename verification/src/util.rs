//! Small verified helpers over in-memory byte streams.

use vstd::prelude::*;

use crate::bytes::{count_range, ends_with, NL};
use crate::error::{Error, ErrorKind};

verus! {

/// Returns the last byte of a stream held in memory.
///
/// # Errors
///
/// Fails with `SeekNegative` when the stream is empty: there is no last byte
/// to seek to.
pub fn get_last_byte(data: &Vec<u8>) -> (r: Result<u8, Error>)
    ensures
        match r {
            Ok(b) => data@.len() > 0 && b == data@.last(),
            Err(e) => data@.len() == 0 && e.spec_kind() == ErrorKind::SeekNegative,
        },
{
    let n = data.len();
    if n == 0 {
        Err(Error::new(ErrorKind::SeekNegative))
    } else {
        Ok(data[n - 1])
    }
}

/// Checks whether a stream held in memory ends with a line feed.  An empty
/// stream does not.
pub fn ends_with_newline(data: &Vec<u8>) -> (r: bool)
    ensures
        r == ends_with(data@, NL),
{
    match get_last_byte(data) {
        Ok(b) => b == NL,
        Err(_) => false,
    }
}

/// Counts the occurrences of `byte` in `data`.
pub fn count_occurrences(data: &Vec<u8>, byte: u8) -> (n: usize)
    ensures
        n == count_range(data@, byte, 0, data@.len() as int),
        n <= data@.len(),
{
    let ghost s = data@;
    let len = data.len();
    let mut n: usize = 0;
    let mut i: usize = 0;
    while i < len
        invariant
            i <= len,
            n <= i,
            len == s.len(),
            s == data@,
            n == count_range(s, byte, 0, i as int),
        decreases len - i,
    {
        if data[i] == byte {
            n = n + 1;
        }
        i = i + 1;
    }
    n
}

/// Appends all of `src` to `dst`.
pub(crate) fn push_all(dst: &mut Vec<u8>, src: &Vec<u8>)
    ensures
        final(dst)@ == old(dst)@ + src@,
{
    let ghost base = old(dst)@;
    let len = src.len();
    let mut i: usize = 0;
    while i < len
        invariant
            i <= len,
            len == src@.len(),
            dst@ == base + src@.subrange(0, i as int),
        decreases len - i,
    {
        dst.push(src[i]);
        proof {
            assert(dst@ =~= base + src@.subrange(0, i as int + 1));
        }
        i = i + 1;
    }
    proof {
        assert(src@.subrange(0, len as int) =~= src@);
    }
}

/// Appends `src[start..end]` to `dst`.
pub(crate) fn push_range(dst: &mut Vec<u8>, src: &Vec<u8>, start: usize, end: usize)
    requires
        start <= end <= src@.len(),
    ensures
        final(dst)@ == old(dst)@ + src@.subrange(start as int, end as int),
{
    let ghost base = old(dst)@;
    let mut i: usize = start;
    while i < end
        invariant
            start <= i <= end,
            end <= src@.len(),
            dst@ == base + src@.subrange(start as int, i as int),
        decreases end - i,
    {
        dst.push(src[i]);
        proof {
            assert(dst@ =~= base + src@.subrange(start as int, i as int + 1));
        }
        i = i + 1;
    }
}

} // verus!
