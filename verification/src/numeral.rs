//! Decimal numeral parsing for token conversion.
//!
//! A token is read the way the standard integer parsers read it: an
//! optional leading `+` or `-` sign followed by one or more ASCII decimal
//! digits, nothing else.  Conversion never fails: a malformed token or a
//! value outside the target range degrades to zero.

use vstd::prelude::*;

verus! {

/// True when `c` is an ASCII decimal digit.
pub open spec fn is_digit_char(c: char) -> bool {
    '0' <= c && c <= '9'
}

/// The numeric value of the digit `c`.
pub open spec fn digit_of(c: char) -> int {
    c as u32 - '0' as u32
}

/// True when every character of `s` is an ASCII decimal digit.
pub open spec fn all_digits(s: Seq<char>) -> bool {
    forall|i: int| 0 <= i < s.len() ==> is_digit_char(#[trigger] s[i])
}

/// The value of the digit string `s`, read in base ten.
pub open spec fn digits_value(s: Seq<char>) -> int
    decreases s.len(),
{
    if s.len() == 0 {
        0
    } else {
        digits_value(s.drop_last()) * 10 + digit_of(s.last())
    }
}

/// `s` without its leading sign character, if it has one.
pub open spec fn numeral_part(s: Seq<char>) -> Seq<char> {
    if s.len() > 0 && (s[0] == '+' || s[0] == '-') {
        s.skip(1)
    } else {
        s
    }
}

/// True when `s` begins with a minus sign.
pub open spec fn is_negative(s: Seq<char>) -> bool {
    s.len() > 0 && s[0] == '-'
}

/// The integer a token denotes: a signed decimal numeral, or nothing when
/// the token is empty, has no digits after the sign, or holds any other
/// character.
pub open spec fn parse_int(s: Seq<char>) -> Option<int> {
    let num = numeral_part(s);
    if num.len() > 0 && all_digits(num) {
        Some(
            if is_negative(s) {
                -digits_value(num)
            } else {
                digits_value(num)
            },
        )
    } else {
        None
    }
}

/// `v` when it lies in `[min, max]`, and the fallback zero otherwise.
pub open spec fn clamped(v: int, min: int, max: int) -> int {
    if min <= v && v <= max {
        v
    } else {
        0
    }
}

/// The value a token converts to for an integer target type with range
/// `[min, max]`: the parsed value when the token is a well-formed numeral
/// in range, and zero otherwise.
pub open spec fn token_int(s: Seq<char>, min: int, max: int) -> int {
    match parse_int(s) {
        Some(v) => clamped(v, min, max),
        None => 0,
    }
}

/// The signed value denoted by a sign flag and a magnitude.
pub open spec fn signed_of(negative: bool, magnitude: u128) -> int {
    if negative {
        -(magnitude as int)
    } else {
        magnitude as int
    }
}

/// True when the token denotes no value whose magnitude a `u128` can
/// carry: it is malformed, or its magnitude exceeds `u128::MAX`.
pub open spec fn unrepresentable(s: Seq<char>) -> bool {
    match parse_int(s) {
        Some(v) => v > u128::MAX as int || v < -(u128::MAX as int),
        None => true,
    }
}

/// A digit string denotes a value that is never negative.
pub proof fn lemma_digits_value_nonneg(s: Seq<char>)
    requires
        all_digits(s),
    ensures
        digits_value(s) >= 0,
    decreases s.len(),
{
    if s.len() > 0 {
        assert(all_digits(s.drop_last())) by {
            assert(forall|i: int|
                0 <= i < s.len() - 1 ==> s.drop_last()[i] == #[trigger] s[i]);
        }
        lemma_digits_value_nonneg(s.drop_last());
    }
}

/// Outcome of scanning one token as a signed decimal numeral.
pub(crate) enum ScannedInt {
    /// A well-formed numeral whose magnitude fits in a `u128`.
    Numeral { negative: bool, magnitude: u128 },
    /// A malformed token, or one whose magnitude no `u128` can carry.
    Unusable,
}

/// The largest magnitude that can take another digit without leaving
/// `u128` when the digit is at most five: `u128::MAX / 10`.
pub(crate) const TENTH_OF_MAX: u128 = 34028236692093846346337460743176821145;

/// The magnitude of `i128::MIN`.
pub(crate) const MIN_I128_MAGNITUDE: u128 = 170141183460469231731687303715884105728;

/// Scans one token as an optionally signed decimal numeral, detecting
/// malformed text and magnitudes beyond `u128`.
pub(crate) fn scan_int(t: &str) -> (r: ScannedInt)
    ensures
        (match r {
            ScannedInt::Numeral { negative, magnitude } => parse_int(t@) == Some(
                signed_of(negative, magnitude),
            ),
            ScannedInt::Unusable => unrepresentable(t@),
        }),
{
    let n = t.unicode_len();
    let mut i: usize = 0;
    let mut negative = false;
    if n > 0 {
        let c0 = t.get_char(0);
        if c0 == '+' {
            i = 1;
        } else if c0 == '-' {
            negative = true;
            i = 1;
        }
    }
    let ghost start = i as int;
    proof {
        assert(numeral_part(t@) =~= t@.skip(start));
        assert(negative == is_negative(t@));
    }
    if i == n {
        return ScannedInt::Unusable;
    }
    let mut magnitude: u128 = 0;
    let ghost mut value: int = 0int;
    let mut overflow = false;
    while i < n
        invariant
            0 <= start <= i <= n,
            start < n,
            n == t@.len(),
            t@.skip(start) == numeral_part(t@),
            negative == is_negative(t@),
            all_digits(t@.subrange(start, i as int)),
            value == digits_value(t@.subrange(start, i as int)),
            !overflow ==> magnitude == value,
            overflow ==> value > u128::MAX as int,
        decreases n - i,
    {
        let c = t.get_char(i);
        let cv = c as u32;
        if cv < 48 || cv > 57 {
            proof {
                assert(!is_digit_char(t@[i as int]));
                assert(numeral_part(t@)[i - start] == t@[i as int]);
                assert(!all_digits(numeral_part(t@)));
            }
            return ScannedInt::Unusable;
        }
        let d = cv - 48;
        proof {
            assert(is_digit_char(t@[i as int]));
            assert(t@.subrange(start, i + 1).drop_last() =~= t@.subrange(start, i as int));
            assert(t@.subrange(start, i + 1).last() == t@[i as int]);
            assert(digit_of(t@[i as int]) == d as int);
            value = value * 10 + (d as int);
            assert(value == digits_value(t@.subrange(start, i + 1)));
        }
        if overflow {
            // the true value keeps growing; it stays beyond u128
        } else if magnitude > TENTH_OF_MAX || (magnitude == TENTH_OF_MAX && d > 5) {
            overflow = true;
        } else {
            magnitude = magnitude * 10 + (d as u128);
        }
        i = i + 1;
    }
    proof {
        assert(t@.subrange(start, n as int) =~= t@.skip(start));
        lemma_digits_value_nonneg(t@.skip(start));
    }
    if overflow {
        ScannedInt::Unusable
    } else {
        ScannedInt::Numeral { negative, magnitude }
    }
}

/// Clamps an optionally negated magnitude into the signed range
/// `[min, max]`, falling back to zero outside it.
pub(crate) fn clamp_signed(negative: bool, magnitude: u128, min: i128, max: i128) -> (r: i128)
    requires
        min < 0 <= max,
    ensures
        r as int == clamped(signed_of(negative, magnitude), min as int, max as int),
{
    if negative {
        if min == i128::MIN {
            if magnitude > MIN_I128_MAGNITUDE {
                0
            } else if magnitude == MIN_I128_MAGNITUDE {
                i128::MIN
            } else {
                -(magnitude as i128)
            }
        } else {
            let min_mag = (-min) as u128;
            if magnitude <= min_mag {
                -(magnitude as i128)
            } else {
                0
            }
        }
    } else {
        if magnitude <= max as u128 {
            magnitude as i128
        } else {
            0
        }
    }
}

/// Clamps an optionally negated magnitude into the unsigned range
/// `[0, max]`, falling back to zero outside it.
pub(crate) fn clamp_unsigned(negative: bool, magnitude: u128, max: u128) -> (r: u128)
    ensures
        r as int == clamped(signed_of(negative, magnitude), 0, max as int),
{
    if !negative && magnitude <= max {
        magnitude
    } else {
        0
    }
}

} // verus!

