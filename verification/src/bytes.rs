//! Specification-level view of a byte stream: occurrence counts, the index of
//! the nth occurrence of a byte from either end, and line boundaries derived
//! from them.
//!
//! An unterminated final fragment counts as one more line, delimited
//! implicitly by the end of the stream; `line_count` and `line_start` encode
//! that policy once, and both the seeker and the skip resolver are specified
//! against them.

use vstd::prelude::*;

verus! {

/// The line delimiter: a line feed.
pub const NL: u8 = 10;

/// Number of occurrences of `b` in `s[lo..hi)`.
///
/// Out-of-range or empty intervals count zero; callers keep
/// `0 <= lo <= hi <= s.len()`.
pub open spec fn count_range(s: Seq<u8>, b: u8, lo: int, hi: int) -> nat
    decreases hi - lo,
{
    if lo < 0 || lo >= hi || hi > s.len() {
        0
    } else if s[hi - 1] == b {
        count_range(s, b, lo, hi - 1) + 1
    } else {
        count_range(s, b, lo, hi - 1)
    }
}

/// Number of occurrences of `b` in all of `s`.
pub open spec fn count_bytes(s: Seq<u8>, b: u8) -> nat {
    count_range(s, b, 0, s.len() as int)
}

/// Index of the first occurrence of `b` at or after `from`, or `-1`.
pub open spec fn first_at(s: Seq<u8>, b: u8, from: int) -> int
    decreases s.len() - from,
{
    if from < 0 || from >= s.len() {
        -1
    } else if s[from] == b {
        from
    } else {
        first_at(s, b, from + 1)
    }
}

/// Index of the last occurrence of `b` at or before `upto`, or `-1`.
pub open spec fn last_at(s: Seq<u8>, b: u8, upto: int) -> int
    decreases upto + 1,
{
    if upto < 0 || upto >= s.len() {
        -1
    } else if s[upto] == b {
        upto
    } else {
        last_at(s, b, upto - 1)
    }
}

/// Index of the nth occurrence (1-based) of `b` at or after `from`, or `-1`.
pub open spec fn nth_from(s: Seq<u8>, b: u8, from: int, n: nat) -> int
    decreases n,
{
    if n == 0 {
        -1
    } else {
        let i = first_at(s, b, from);
        if i == -1 {
            -1
        } else if n == 1 {
            i
        } else {
            nth_from(s, b, i + 1, (n - 1) as nat)
        }
    }
}

/// Index of the nth occurrence (1-based) of `b` at or before `upto`,
/// counting from the right, or `-1`.
pub open spec fn nth_back(s: Seq<u8>, b: u8, upto: int, n: nat) -> int
    decreases n,
{
    if n == 0 {
        -1
    } else {
        let i = last_at(s, b, upto);
        if i == -1 {
            -1
        } else if n == 1 {
            i
        } else {
            nth_back(s, b, i - 1, (n - 1) as nat)
        }
    }
}

/// Whether `s` ends with the byte `b`.
pub open spec fn ends_with(s: Seq<u8>, b: u8) -> bool {
    s.len() > 0 && s[s.len() - 1] == b
}

/// Number of addressable lines of `s`: one per line feed, plus one for an
/// unterminated final fragment.
pub open spec fn line_count(s: Seq<u8>) -> nat {
    count_bytes(s, NL) + (if s.len() > 0 && !ends_with(s, NL) {
        1nat
    } else {
        0nat
    })
}

/// Byte offset at which the ith line (0-based) begins; `i == line_count`
/// yields `s.len()`, the boundary past the last line.
pub open spec fn line_start(s: Seq<u8>, i: nat) -> int {
    if i == 0 {
        0
    } else if i <= count_bytes(s, NL) {
        nth_from(s, NL, 0, i) + 1
    } else {
        s.len() as int
    }
}

/// `count_range` splits additively at any midpoint.
pub proof fn lemma_count_split(s: Seq<u8>, b: u8, lo: int, mid: int, hi: int)
    requires
        0 <= lo <= mid <= hi <= s.len(),
    ensures
        count_range(s, b, lo, hi) == count_range(s, b, lo, mid) + count_range(s, b, mid, hi),
    decreases hi - mid,
{
    if mid < hi {
        lemma_count_split(s, b, lo, mid, hi - 1);
    }
}

/// A count never exceeds the width of its range.
pub proof fn lemma_count_le(s: Seq<u8>, b: u8, lo: int, hi: int)
    requires
        0 <= lo <= hi <= s.len(),
    ensures
        count_range(s, b, lo, hi) <= hi - lo,
    decreases hi - lo,
{
    if lo < hi {
        lemma_count_le(s, b, lo, hi - 1);
    }
}

/// A range counts zero exactly when it contains no occurrence.
pub proof fn lemma_count_zero(s: Seq<u8>, b: u8, lo: int, hi: int)
    requires
        0 <= lo <= hi <= s.len(),
    ensures
        count_range(s, b, lo, hi) == 0 <==> (forall|j: int| lo <= j < hi ==> s[j] != b),
    decreases hi - lo,
{
    if lo < hi {
        lemma_count_zero(s, b, lo, hi - 1);
    }
}

/// Characterisation of `first_at`: the result is the least occurrence at or
/// after `from`, and `-1` exactly when the suffix holds none.
pub proof fn lemma_first_at(s: Seq<u8>, b: u8, from: int)
    requires
        0 <= from,
    ensures
        first_at(s, b, from) == -1 <==> (forall|j: int| from <= j < s.len() ==> s[j] != b),
        first_at(s, b, from) != -1 ==> {
            let r = first_at(s, b, from);
            &&& from <= r < s.len()
            &&& s[r] == b
            &&& forall|j: int| from <= j < r ==> s[j] != b
        },
    decreases s.len() - from,
{
    if from < s.len() && s[from] != b {
        lemma_first_at(s, b, from + 1);
    }
}

/// Characterisation of `last_at`: the result is the greatest occurrence at or
/// before `upto`, and `-1` exactly when the prefix holds none.
pub proof fn lemma_last_at(s: Seq<u8>, b: u8, upto: int)
    requires
        upto < s.len(),
    ensures
        last_at(s, b, upto) == -1 <==> (forall|j: int| 0 <= j <= upto ==> s[j] != b),
        last_at(s, b, upto) != -1 ==> {
            let r = last_at(s, b, upto);
            &&& 0 <= r <= upto
            &&& s[r] == b
            &&& forall|j: int| r < j <= upto ==> s[j] != b
        },
    decreases upto + 1,
{
    if 0 <= upto && s[upto] != b {
        lemma_last_at(s, b, upto - 1);
    }
}

/// `first_at` counted: there is an occurrence at or after `from` exactly when
/// the suffix count is positive, and skipping past the first occurrence
/// decrements the count.
pub proof fn lemma_first_at_count(s: Seq<u8>, b: u8, from: int)
    requires
        0 <= from <= s.len(),
    ensures
        first_at(s, b, from) != -1 <==> count_range(s, b, from, s.len() as int) > 0,
        first_at(s, b, from) != -1 ==> count_range(s, b, from, s.len() as int) == count_range(
            s,
            b,
            first_at(s, b, from) + 1,
            s.len() as int,
        ) + 1,
{
    let len = s.len() as int;
    lemma_first_at(s, b, from);
    lemma_count_zero(s, b, from, len);
    if first_at(s, b, from) != -1 {
        let r = first_at(s, b, from);
        lemma_count_split(s, b, from, r, len);
        lemma_count_split(s, b, r, r + 1, len);
        lemma_count_zero(s, b, from, r);
        assert(count_range(s, b, r, r) == 0);
        assert(count_range(s, b, r, r + 1) == 1);
    }
}

/// `last_at` counted: there is an occurrence at or before `upto` exactly when
/// the prefix count is positive, and nothing occurs to its right.
pub proof fn lemma_last_at_count(s: Seq<u8>, b: u8, upto: int)
    requires
        -1 <= upto < s.len(),
    ensures
        last_at(s, b, upto) != -1 <==> count_range(s, b, 0, upto + 1) > 0,
        last_at(s, b, upto) != -1 ==> count_range(s, b, last_at(s, b, upto) + 1, upto + 1) == 0
            && count_range(s, b, 0, upto + 1) == count_range(s, b, 0, last_at(s, b, upto)) + 1,
{
    lemma_last_at(s, b, upto);
    lemma_count_zero(s, b, 0, upto + 1);
    if last_at(s, b, upto) != -1 {
        let r = last_at(s, b, upto);
        lemma_count_zero(s, b, r + 1, upto + 1);
        lemma_count_split(s, b, 0, r, upto + 1);
        lemma_count_split(s, b, r, r + 1, upto + 1);
        assert(count_range(s, b, r, r) == 0);
        assert(count_range(s, b, r, r + 1) == 1);
    }
}

/// Characterisation of `nth_from`: defined exactly when the suffix holds at
/// least `n` occurrences; the result is the occurrence preceded by `n - 1`
/// occurrences at or after `from`.
pub proof fn lemma_nth_from(s: Seq<u8>, b: u8, from: int, n: nat)
    requires
        0 <= from <= s.len(),
        n >= 1,
    ensures
        nth_from(s, b, from, n) != -1 <==> count_range(s, b, from, s.len() as int) >= n,
        nth_from(s, b, from, n) != -1 ==> {
            let r = nth_from(s, b, from, n);
            &&& from <= r < s.len()
            &&& s[r] == b
            &&& count_range(s, b, from, r) == n - 1
            &&& count_range(s, b, from, r + 1) == n
        },
    decreases n,
{
    let len = s.len() as int;
    let i = first_at(s, b, from);
    lemma_first_at(s, b, from);
    lemma_first_at_count(s, b, from);
    if i != -1 {
        lemma_count_zero(s, b, from, i);
        lemma_count_split(s, b, from, i, i + 1);
        assert(count_range(s, b, i, i) == 0);
        assert(count_range(s, b, i, i + 1) == 1);
        if n == 1 {
            lemma_count_split(s, b, from, i, len);
        } else {
            lemma_nth_from(s, b, i + 1, (n - 1) as nat);
            let r = nth_from(s, b, i + 1, (n - 1) as nat);
            if r != -1 {
                lemma_count_split(s, b, from, i + 1, r);
                lemma_count_split(s, b, from, i + 1, r + 1);
            }
        }
    }
}

/// Uniqueness for `nth_from`: an occurrence preceded by exactly `n - 1`
/// occurrences at or after `from` is the nth one.
pub proof fn lemma_nth_from_unique(s: Seq<u8>, b: u8, from: int, n: nat, i: int)
    requires
        0 <= from <= i < s.len(),
        n >= 1,
        s[i] == b,
        count_range(s, b, from, i) == n - 1,
    ensures
        nth_from(s, b, from, n) == i,
{
    let len = s.len() as int;
    lemma_count_split(s, b, from, i, len);
    lemma_count_split(s, b, i, i + 1, len);
    assert(count_range(s, b, i, i) == 0);
    assert(count_range(s, b, i, i + 1) == 1);
    lemma_nth_from(s, b, from, n);
    let r = nth_from(s, b, from, n);
    assert(r != -1);
    if r < i {
        lemma_count_split(s, b, from, r + 1, i);
        assert(false);
    } else if r > i {
        lemma_count_split(s, b, from, i + 1, r);
        assert(false);
    }
}

/// Characterisation of `nth_back`: defined exactly when the prefix up to
/// `upto` holds at least `n` occurrences; the result is the occurrence
/// followed by `n - 1` occurrences at or before `upto`.
pub proof fn lemma_nth_back(s: Seq<u8>, b: u8, upto: int, n: nat)
    requires
        -1 <= upto < s.len(),
        n >= 1,
    ensures
        nth_back(s, b, upto, n) != -1 <==> count_range(s, b, 0, upto + 1) >= n,
        nth_back(s, b, upto, n) != -1 ==> {
            let r = nth_back(s, b, upto, n);
            &&& 0 <= r <= upto
            &&& s[r] == b
            &&& count_range(s, b, r + 1, upto + 1) == n - 1
        },
    decreases n,
{
    let i = last_at(s, b, upto);
    lemma_last_at(s, b, upto);
    lemma_last_at_count(s, b, upto);
    if i != -1 {
        if n == 1 {
        } else {
            lemma_nth_back(s, b, i - 1, (n - 1) as nat);
            let r = nth_back(s, b, i - 1, (n - 1) as nat);
            if r != -1 {
                lemma_count_split(s, b, r + 1, i, i + 1);
                lemma_count_split(s, b, r + 1, i + 1, upto + 1);
                lemma_count_zero(s, b, i + 1, upto + 1);
                assert(count_range(s, b, i, i) == 0);
                assert(count_range(s, b, i, i + 1) == 1);
            }
        }
    }
}

/// Uniqueness for `nth_back`: an occurrence followed by exactly `n - 1`
/// occurrences at or before `upto` is the nth one from the right.
pub proof fn lemma_nth_back_unique(s: Seq<u8>, b: u8, upto: int, n: nat, i: int)
    requires
        0 <= i <= upto < s.len(),
        n >= 1,
        s[i] == b,
        count_range(s, b, i + 1, upto + 1) == n - 1,
    ensures
        nth_back(s, b, upto, n) == i,
{
    lemma_count_split(s, b, 0, i, upto + 1);
    lemma_count_split(s, b, i, i + 1, upto + 1);
    assert(count_range(s, b, i, i) == 0);
    assert(count_range(s, b, i, i + 1) == 1);
    lemma_nth_back(s, b, upto, n);
    let r = nth_back(s, b, upto, n);
    assert(r != -1);
    if r < i {
        lemma_count_split(s, b, r + 1, i, upto + 1);
        lemma_count_split(s, b, i, i + 1, upto + 1);
        assert(false);
    } else if r > i {
        lemma_count_split(s, b, i + 1, r, upto + 1);
        lemma_count_split(s, b, r, r + 1, upto + 1);
        assert(count_range(s, b, r, r) == 0);
        assert(count_range(s, b, r, r + 1) == 1);
        assert(false);
    }
}

/// Stepping forward: the `(n + 1)`th occurrence is the first one past the
/// nth.
pub proof fn lemma_nth_from_succ(s: Seq<u8>, b: u8, from: int, n: nat)
    requires
        0 <= from,
        n >= 1,
        nth_from(s, b, from, n) != -1,
    ensures
        nth_from(s, b, from, n + 1) == first_at(s, b, nth_from(s, b, from, n) + 1),
    decreases n,
{
    let i = first_at(s, b, from);
    lemma_first_at(s, b, from);
    assert(i != -1);
    if n == 1 {
        assert(nth_from(s, b, from, 2) == nth_from(s, b, i + 1, 1));
        assert(nth_from(s, b, i + 1, 1) == first_at(s, b, i + 1));
    } else {
        lemma_nth_from_succ(s, b, i + 1, (n - 1) as nat);
        assert(nth_from(s, b, from, n) == nth_from(s, b, i + 1, (n - 1) as nat));
        assert(nth_from(s, b, from, n + 1) == nth_from(s, b, i + 1, n));
    }
}

/// Stepping backward: the `(n + 1)`th occurrence from the right is the last
/// one before the nth.
pub proof fn lemma_nth_back_succ(s: Seq<u8>, b: u8, upto: int, n: nat)
    requires
        n >= 1,
        nth_back(s, b, upto, n) != -1,
    ensures
        nth_back(s, b, upto, n + 1) == last_at(s, b, nth_back(s, b, upto, n) - 1),
    decreases n,
{
    let i = last_at(s, b, upto);
    assert(i != -1);
    if n == 1 {
        assert(nth_back(s, b, upto, 2) == nth_back(s, b, i - 1, 1));
        assert(nth_back(s, b, i - 1, 1) == last_at(s, b, i - 1));
    } else {
        lemma_nth_back_succ(s, b, i - 1, (n - 1) as nat);
        assert(nth_back(s, b, upto, n) == nth_back(s, b, i - 1, (n - 1) as nat));
        assert(nth_back(s, b, upto, n + 1) == nth_back(s, b, i - 1, n));
    }
}

/// Duality: the nth occurrence from the right is the `(c + 1 - n)`th from the
/// left, where `c` is the total count.  Both directions of a bidirectional
/// walk locate the same occurrences.
pub proof fn lemma_nth_dual(s: Seq<u8>, b: u8, n: nat)
    requires
        1 <= n <= count_bytes(s, b),
    ensures
        nth_back(s, b, s.len() - 1, n) == nth_from(s, b, 0, (count_bytes(s, b) + 1 - n) as nat),
{
    let len = s.len() as int;
    let c = count_bytes(s, b);
    let m = (c + 1 - n) as nat;
    lemma_nth_from(s, b, 0, m);
    let i = nth_from(s, b, 0, m);
    assert(i != -1);
    lemma_count_split(s, b, 0, i + 1, len);
    assert(count_range(s, b, i + 1, len) == n - 1);
    lemma_nth_back_unique(s, b, len - 1, n, i);
}

/// Successive occurrences lie strictly later in the stream: a forward walk
/// that finds the `n1`th and then the `n2`th occurrence returns strictly
/// increasing offsets.
pub proof fn lemma_nth_from_increasing(s: Seq<u8>, b: u8, from: int, n1: nat, n2: nat)
    requires
        0 <= from <= s.len(),
        1 <= n1 < n2,
        count_range(s, b, from, s.len() as int) >= n2,
    ensures
        nth_from(s, b, from, n1) < nth_from(s, b, from, n2),
{
    lemma_nth_from(s, b, from, n1);
    lemma_nth_from(s, b, from, n2);
    let r1 = nth_from(s, b, from, n1);
    let r2 = nth_from(s, b, from, n2);
    if r2 <= r1 {
        lemma_count_split(s, b, from, r2, r1);
        assert(false);
    }
}

/// Every line boundary lies within the stream.
pub proof fn lemma_line_start_bounds(s: Seq<u8>, i: nat)
    ensures
        0 <= line_start(s, i) <= s.len(),
{
    if 1 <= i && i <= count_bytes(s, NL) {
        lemma_nth_from(s, NL, 0, i);
    }
}

/// The boundary of line `line_count` is the end of the stream: skipping every
/// line, from either end, leaves nothing.
pub proof fn lemma_line_start_full(s: Seq<u8>)
    ensures
        line_start(s, line_count(s)) == s.len(),
{
    let len = s.len() as int;
    let c = count_bytes(s, NL);
    let k = line_count(s);
    if s.len() == 0 {
        assert(count_range(s, NL, 0, 0) == 0);
    } else if ends_with(s, NL) {
        assert(count_range(s, NL, len - 1, len) == count_range(s, NL, len - 1, len - 1) + 1);
        lemma_count_split(s, NL, 0, len - 1, len);
        assert(c >= 1);
        lemma_nth_from_unique(s, NL, 0, c, len - 1);
    }
}

} // verus!
