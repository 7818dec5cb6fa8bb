//! The trace-window argument: `start`, `start,end` or `,end`, in decimal
//! ticks.

use vstd::prelude::*;
use vstd::string::StringSliceAdditionalSpecFns;

verus! {

/// An ASCII decimal digit.
pub open spec fn is_digit(c: u8) -> bool {
    48 <= c <= 57
}

/// The value of a run of decimal digits, most significant first.
pub open spec fn digits_value(s: Seq<u8>) -> nat
    decreases s.len(),
{
    if s.len() == 0 {
        0
    } else {
        digits_value(s.drop_last()) * 10 + (s.last() - 48) as nat
    }
}

/// The digits of a number, after an optional leading `+`.
pub open spec fn unsigned_digits(s: Seq<u8>) -> Seq<u8> {
    if s.len() > 0 && s[0] == 43 {
        s.drop_first()
    } else {
        s
    }
}

/// The `u64` that `s` spells in decimal, with an optional leading `+`: at
/// least one digit, nothing but digits, and no more than `u64::MAX`.
pub open spec fn decimal_of(s: Seq<u8>) -> Option<u64> {
    let d = unsigned_digits(s);
    if d.len() > 0 && (forall|i: int| 0 <= i < d.len() ==> #[trigger] is_digit(d[i]))
        && digits_value(d) <= u64::MAX {
        Some(digits_value(d) as u64)
    } else {
        None
    }
}

/// Whether `s` holds a comma.
pub open spec fn has_comma(s: Seq<u8>) -> bool {
    exists|i: int| 0 <= i < s.len() && #[trigger] s[i] == 44
}

/// The window that `s` describes. Empty text gives `(0, 0)`; one number
/// gives a start with no end; `,end` an end from tick 0; `start,end` both,
/// and a start past the end is rejected; more than two parts give `(0, 0)`.
/// `None` marks a part that is not a number, or a start past the end.
pub open spec fn range_of(s: Seq<u8>) -> Option<(u64, u64)> {
    if s.len() == 0 {
        Some((0, 0))
    } else if !has_comma(s) {
        match decimal_of(s) {
            Some(v) => Some((v, 0)),
            None => None,
        }
    } else {
        let c = choose|i: int| 0 <= i < s.len() && s[i] == 44 && !has_comma(s.subrange(0, i));
        let first = s.subrange(0, c);
        let second = s.subrange(c + 1, s.len() as int);
        if has_comma(second) {
            Some((0, 0))
        } else if first.len() == 0 {
            match decimal_of(second) {
                Some(e) => Some((0, e)),
                None => None,
            }
        } else {
            match (decimal_of(first), decimal_of(second)) {
                (Some(a), Some(b)) => if a > b {
                    None
                } else {
                    Some((a, b))
                },
                _ => None,
            }
        }
    }
}

proof fn lemma_digits_grow(d: Seq<u8>, k: int)
    requires
        0 <= k <= d.len(),
        forall|i: int| 0 <= i < d.len() ==> #[trigger] is_digit(d[i]),
    ensures
        digits_value(d.subrange(0, k)) <= digits_value(d),
    decreases d.len() - k,
{
    if k < d.len() {
        lemma_digits_grow(d, k + 1);
        assert(d.subrange(0, k + 1).drop_last() =~= d.subrange(0, k));
    } else {
        assert(d.subrange(0, k) =~= d);
    }
}

/// Parses `b[lo..hi]` as an unsigned decimal number.
pub(crate) fn parse_decimal(b: &[u8], lo: usize, hi: usize) -> (r: Option<u64>)
    requires
        lo <= hi <= b@.len(),
    ensures
        r == decimal_of(b@.subrange(lo as int, hi as int)),
{
    let ghost s = b@.subrange(lo as int, hi as int);
    let mut start = lo;
    if lo < hi && b[lo] == 43 {
        start = lo + 1;
    }
    let ghost d = b@.subrange(start as int, hi as int);
    assert(d =~= unsigned_digits(s));
    if start == hi {
        return None;
    }
    let mut v: u64 = 0;
    let mut i = start;
    while i < hi
        invariant
            start <= i <= hi <= b@.len(),
            d == b@.subrange(start as int, hi as int),
            d == unsigned_digits(b@.subrange(lo as int, hi as int)),
            d.len() > 0,
            forall|j: int| 0 <= j < i - start ==> #[trigger] is_digit(d[j]),
            v == digits_value(d.subrange(0, i - start)),
        decreases hi - i,
    {
        let c = b[i];
        if c < 48 || c > 57 {
            assert(!is_digit(d[i - start]));
            return None;
        }
        let digit = (c - 48) as u64;
        assert(d.subrange(0, i + 1 - start).drop_last() =~= d.subrange(0, i - start));
        if v > (u64::MAX - digit) / 10 {
            proof {
                assert(v * 10 + digit > u64::MAX) by (nonlinear_arith)
                    requires
                        v > (u64::MAX - digit) / 10,
                        digit <= 9,
                ;
                if forall|j: int| 0 <= j < d.len() ==> #[trigger] is_digit(d[j]) {
                    lemma_digits_grow(d, i + 1 - start);
                }
            }
            return None;
        }
        v = v * 10 + digit;
        i += 1;
    }
    assert(d.subrange(0, d.len() as int) =~= d);
    Some(v)
}

/// Finds the first comma in `b[lo..]`, if any.
fn find_comma(b: &[u8], lo: usize) -> (r: Option<usize>)
    requires
        lo <= b@.len(),
    ensures
        r matches Some(c) ==> lo <= c < b@.len() && b@[c as int] == 44 && !has_comma(
            b@.subrange(lo as int, c as int),
        ),
        r is None ==> !has_comma(b@.subrange(lo as int, b@.len() as int)),
{
    let mut i = lo;
    while i < b.len()
        invariant
            lo <= i <= b@.len(),
            forall|j: int| lo <= j < i ==> b@[j] != 44,
        decreases b@.len() - i,
    {
        if b[i] == 44 {
            assert(!has_comma(b@.subrange(lo as int, i as int))) by {
                assert forall|j: int| 0 <= j < i - lo implies b@.subrange(lo as int, i as int)[j]
                    != 44 by {
                    assert(b@[lo + j] != 44);
                }
            }
            return Some(i);
        }
        i += 1;
    }
    assert forall|j: int| 0 <= j < b@.len() - lo implies b@.subrange(lo as int, b@.len() as int)[j]
        != 44 by {
        assert(b@[lo + j] != 44);
    }
    None
}

/// Reads a trace window from `input`: `start`, `start,end` or `,end`, in
/// decimal ticks; empty text means `(0, 0)` and so does text of more than
/// two parts. Returns `None` when a part is not a number or the start lies
/// past the end.
pub fn parse_range(input: &str) -> (r: Option<(u64, u64)>)
    ensures
        r == range_of(input.spec_bytes()),
{
    let b = input.as_bytes();
    let ghost s = b@;
    if b.len() == 0 {
        return Some((0, 0));
    }
    match find_comma(b, 0) {
        None => {
            assert(s.subrange(0, s.len() as int) =~= s);
            assert(b@.subrange(0, b@.len() as int) =~= s);
            match parse_decimal(b, 0, b.len()) {
                Some(v) => Some((v, 0)),
                None => None,
            }
        },
        Some(c) => {
            assert(s.subrange(0, 0) =~= Seq::<u8>::empty());
            assert(has_comma(s)) by {
                assert(s[c as int] == 44);
            }
            let ghost chosen = choose|i: int|
                0 <= i < s.len() && s[i] == 44 && !has_comma(s.subrange(0, i));
            assert(chosen == c) by {
                if chosen < c {
                    assert(s.subrange(0, c as int)[chosen] == 44);
                } else if chosen > c {
                    assert(s.subrange(0, chosen)[c as int] == 44);
                }
            }
            match find_comma(b, c + 1) {
                Some(c2) => {
                    assert(s.subrange(c + 1, s.len() as int)[c2 - c - 1] == 44);
                    Some((0, 0))
                },
                None => {
                    let second = parse_decimal(b, c + 1, b.len());
                    if c == 0 {
                        match second {
                            Some(e) => Some((0, e)),
                            None => None,
                        }
                    } else {
                        let first = parse_decimal(b, 0, c);
                        match (first, second) {
                            (Some(a), Some(e)) => {
                                if a > e {
                                    None
                                } else {
                                    Some((a, e))
                                }
                            },
                            _ => None,
                        }
                    }
                },
            }
        },
    }
}

} // verus!
