//! ASCII decimal digits: runs of them, and the numbers they write.
use vstd::prelude::*;

verus! {

pub open spec fn is_digit(b: u8) -> bool {
    48 <= b <= 57
}

/// Every byte of `s[start..end]` is a digit.
pub open spec fn all_digits(s: Seq<u8>, start: int, end: int) -> bool {
    forall|k: int| start <= k < end ==> is_digit(#[trigger] s[k])
}

/// Where the run of digits that begins at `i` ends, looking no further than `end`.
pub open spec fn digit_run_end(s: Seq<u8>, i: int, end: int) -> int
    decreases end - i,
{
    if 0 <= i < end && end <= s.len() && is_digit(s[i]) {
        digit_run_end(s, i + 1, end)
    } else {
        i
    }
}

/// The number that the digits `s` write, most significant first.
pub open spec fn decimal_value(s: Seq<u8>) -> nat
    decreases s.len(),
{
    if s.len() == 0 {
        0
    } else {
        decimal_value(s.drop_last()) * 10 + (s.last() - 48) as nat
    }
}

/// `v`, or `cap + 1` where `v` exceeds `cap`.
pub open spec fn capped(v: nat, cap: nat) -> nat {
    if v <= cap {
        v
    } else {
        cap + 1
    }
}

/// The end of the run of digits of `s` that begins at `start`, looking no further than `end`.
pub fn scan_digits(s: &[u8], start: usize, end: usize) -> (r: usize)
    requires
        start <= end <= s@.len(),
    ensures
        r == digit_run_end(s@, start as int, end as int),
        start <= r <= end,
        all_digits(s@, start as int, r as int),
        r < end ==> !is_digit(s@[r as int]),
{
    let mut i: usize = start;
    while i < end && 48 <= s[i] && s[i] <= 57
        invariant
            start <= i <= end <= s@.len(),
            digit_run_end(s@, start as int, end as int) == digit_run_end(s@, i as int, end as int),
            all_digits(s@, start as int, i as int),
        decreases end - i,
    {
        i = i + 1;
    }
    i
}

/// The number written by the digits `s[start..end]`, or `cap + 1` where it exceeds `cap`.
pub fn capped_decimal(s: &[u8], start: usize, end: usize, cap: u32) -> (r: u32)
    requires
        start <= end <= s@.len(),
        all_digits(s@, start as int, end as int),
        cap < 100_000_000,
    ensures
        r as nat == capped(decimal_value(s@.subrange(start as int, end as int)), cap as nat),
{
    let mut acc: u32 = 0;
    let mut i: usize = start;
    assert(s@.subrange(start as int, start as int).len() == 0);
    while i < end
        invariant
            start <= i <= end <= s@.len(),
            all_digits(s@, start as int, end as int),
            cap < 100_000_000,
            acc as nat == capped(decimal_value(s@.subrange(start as int, i as int)), cap as nat),
        decreases end - i,
    {
        let ghost prev = s@.subrange(start as int, i as int);
        let ghost next = s@.subrange(start as int, i as int + 1);
        assert(next.drop_last() =~= prev);
        assert(next.last() == s@[i as int]);
        assert(is_digit(s@[i as int]));
        let d: u32 = (s[i] - 48) as u32;
        if acc <= cap {
            let t: u32 = acc * 10 + d;
            if t > cap {
                acc = cap + 1;
            } else {
                acc = t;
            }
        }
        i = i + 1;
    }
    acc
}

} // verus!
