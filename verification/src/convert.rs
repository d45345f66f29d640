//! The conversion protocol: from a token group to a typed value.
//!
//! A type takes part by implementing [`FromToken`]: a total conversion
//! from one token that never fails, together with the default value used
//! when a token is absent.  The four structural shapes a parameter can
//! declare — scalar, optional scalar, sequence, optional sequence — are
//! then derived once, generically, by the `convert_*` functions.

use vstd::prelude::*;

use crate::numeral::clamp_signed;
use crate::numeral::clamp_unsigned;
use crate::numeral::scan_int;
use crate::numeral::token_int;
use crate::numeral::ScannedInt;
use crate::raw::Raw;

verus! {

/// The capability of being read from one token, totally: a malformed
/// token yields the type's default value, never an error.
pub trait FromToken: View + Sized {
    /// The value (as a view) that the token `t` converts to.
    spec fn from_token_spec(t: Seq<char>) -> Self::V;

    /// The value (as a view) used when no token was supplied.
    spec fn default_spec() -> Self::V;

    /// Converts one token, falling back to the default on malformed input.
    fn from_token(t: &str) -> (r: Self)
        ensures
            r@ == Self::from_token_spec(t@),
    ;

    /// The fallback value for an absent token.
    fn default_value() -> (r: Self)
        ensures
            r@ == Self::default_spec(),
    ;
}

/// The value (as a view) a whole group converts to under the scalar rule:
/// the first token alone is read; an empty group yields the default.
pub open spec fn scalar_view<T: FromToken>(tokens: Seq<String>) -> T::V {
    if tokens.len() == 0 {
        T::default_spec()
    } else {
        T::from_token_spec(tokens[0]@)
    }
}

/// Converts a group to a scalar value: parse the first token; on a
/// missing token fall back to the type's default value.
pub fn convert_scalar<T: FromToken>(raw: &Raw) -> (r: T)
    ensures
        r@ == scalar_view::<T>(raw@),
{
    if raw.is_empty() {
        T::default_value()
    } else {
        T::from_token(raw.get(0).as_str())
    }
}

/// Converts a group to an optional scalar: absent on an empty group,
/// otherwise present with the scalar conversion of the group.
pub fn convert_optional<T: FromToken>(raw: &Raw) -> (r: Option<T>)
    ensures
        (match r {
            None => raw@.len() == 0,
            Some(x) => raw@.len() > 0 && x@ == scalar_view::<T>(raw@),
        }),
{
    if raw.is_empty() {
        None
    } else {
        Some(convert_scalar(raw))
    }
}

/// Converts a group to a sequence: every token is converted
/// independently, order preserved; an empty group yields an empty vector.
pub fn convert_sequence<T: FromToken>(raw: &Raw) -> (r: Vec<T>)
    ensures
        r@.len() == raw@.len(),
        forall|i: int|
            0 <= i < raw@.len() ==> #[trigger] r@[i]@ == T::from_token_spec(raw@[i]@),
{
    let n = raw.len();
    let mut out: Vec<T> = Vec::new();
    let mut i: usize = 0;
    while i < n
        invariant
            i <= n,
            n == raw@.len(),
            out@.len() == i,
            forall|j: int|
                0 <= j < i ==> #[trigger] out@[j]@ == T::from_token_spec(raw@[j]@),
        decreases n - i,
    {
        out.push(T::from_token(raw.get(i).as_str()));
        i = i + 1;
    }
    out
}

/// Converts a group to an optional sequence: absent on an empty group,
/// otherwise present with the sequence conversion of the group.
pub fn convert_optional_sequence<T: FromToken>(raw: &Raw) -> (r: Option<Vec<T>>)
    ensures
        (match r {
            None => raw@.len() == 0,
            Some(v) => raw@.len() > 0 && v@.len() == raw@.len() && forall|i: int|
                0 <= i < raw@.len() ==> #[trigger] v@[i]@ == T::from_token_spec(raw@[i]@),
        }),
{
    if raw.is_empty() {
        None
    } else {
        Some(convert_sequence(raw))
    }
}


/// A signed integer is read as a decimal numeral; out-of-range or
/// malformed tokens fall back to zero.
impl FromToken for i8 {
    open spec fn from_token_spec(t: Seq<char>) -> i8 {
        token_int(t, i8::MIN as int, i8::MAX as int) as i8
    }

    open spec fn default_spec() -> i8 {
        0
    }

    fn from_token(t: &str) -> i8 {
        match scan_int(t) {
            ScannedInt::Numeral { negative, magnitude } => {
                let v = clamp_signed(negative, magnitude, i8::MIN as i128, i8::MAX as i128);
                v as i8
            },
            ScannedInt::Unusable => 0,
        }
    }

    fn default_value() -> i8 {
        0
    }
}

/// A signed integer is read as a decimal numeral; out-of-range or
/// malformed tokens fall back to zero.
impl FromToken for i16 {
    open spec fn from_token_spec(t: Seq<char>) -> i16 {
        token_int(t, i16::MIN as int, i16::MAX as int) as i16
    }

    open spec fn default_spec() -> i16 {
        0
    }

    fn from_token(t: &str) -> i16 {
        match scan_int(t) {
            ScannedInt::Numeral { negative, magnitude } => {
                let v = clamp_signed(negative, magnitude, i16::MIN as i128, i16::MAX as i128);
                v as i16
            },
            ScannedInt::Unusable => 0,
        }
    }

    fn default_value() -> i16 {
        0
    }
}

/// A signed integer is read as a decimal numeral; out-of-range or
/// malformed tokens fall back to zero.
impl FromToken for i32 {
    open spec fn from_token_spec(t: Seq<char>) -> i32 {
        token_int(t, i32::MIN as int, i32::MAX as int) as i32
    }

    open spec fn default_spec() -> i32 {
        0
    }

    fn from_token(t: &str) -> i32 {
        match scan_int(t) {
            ScannedInt::Numeral { negative, magnitude } => {
                let v = clamp_signed(negative, magnitude, i32::MIN as i128, i32::MAX as i128);
                v as i32
            },
            ScannedInt::Unusable => 0,
        }
    }

    fn default_value() -> i32 {
        0
    }
}

/// A signed integer is read as a decimal numeral; out-of-range or
/// malformed tokens fall back to zero.
impl FromToken for i64 {
    open spec fn from_token_spec(t: Seq<char>) -> i64 {
        token_int(t, i64::MIN as int, i64::MAX as int) as i64
    }

    open spec fn default_spec() -> i64 {
        0
    }

    fn from_token(t: &str) -> i64 {
        match scan_int(t) {
            ScannedInt::Numeral { negative, magnitude } => {
                let v = clamp_signed(negative, magnitude, i64::MIN as i128, i64::MAX as i128);
                v as i64
            },
            ScannedInt::Unusable => 0,
        }
    }

    fn default_value() -> i64 {
        0
    }
}

/// A signed integer is read as a decimal numeral; out-of-range or
/// malformed tokens fall back to zero.
impl FromToken for i128 {
    open spec fn from_token_spec(t: Seq<char>) -> i128 {
        token_int(t, i128::MIN as int, i128::MAX as int) as i128
    }

    open spec fn default_spec() -> i128 {
        0
    }

    fn from_token(t: &str) -> i128 {
        match scan_int(t) {
            ScannedInt::Numeral { negative, magnitude } => clamp_signed(
                negative,
                magnitude,
                i128::MIN,
                i128::MAX,
            ),
            ScannedInt::Unusable => 0,
        }
    }

    fn default_value() -> i128 {
        0
    }
}

/// A signed integer is read as a decimal numeral; out-of-range or
/// malformed tokens fall back to zero.
impl FromToken for isize {
    open spec fn from_token_spec(t: Seq<char>) -> isize {
        token_int(t, isize::MIN as int, isize::MAX as int) as isize
    }

    open spec fn default_spec() -> isize {
        0
    }

    fn from_token(t: &str) -> isize {
        match scan_int(t) {
            ScannedInt::Numeral { negative, magnitude } => {
                let v = clamp_signed(negative, magnitude, isize::MIN as i128, isize::MAX as i128);
                v as isize
            },
            ScannedInt::Unusable => 0,
        }
    }

    fn default_value() -> isize {
        0
    }
}

/// An unsigned integer is read as a decimal numeral; out-of-range or
/// malformed tokens fall back to zero.
impl FromToken for u8 {
    open spec fn from_token_spec(t: Seq<char>) -> u8 {
        token_int(t, 0, u8::MAX as int) as u8
    }

    open spec fn default_spec() -> u8 {
        0
    }

    fn from_token(t: &str) -> u8 {
        match scan_int(t) {
            ScannedInt::Numeral { negative, magnitude } => {
                let v = clamp_unsigned(negative, magnitude, u8::MAX as u128);
                v as u8
            },
            ScannedInt::Unusable => 0,
        }
    }

    fn default_value() -> u8 {
        0
    }
}

/// An unsigned integer is read as a decimal numeral; out-of-range or
/// malformed tokens fall back to zero.
impl FromToken for u16 {
    open spec fn from_token_spec(t: Seq<char>) -> u16 {
        token_int(t, 0, u16::MAX as int) as u16
    }

    open spec fn default_spec() -> u16 {
        0
    }

    fn from_token(t: &str) -> u16 {
        match scan_int(t) {
            ScannedInt::Numeral { negative, magnitude } => {
                let v = clamp_unsigned(negative, magnitude, u16::MAX as u128);
                v as u16
            },
            ScannedInt::Unusable => 0,
        }
    }

    fn default_value() -> u16 {
        0
    }
}

/// An unsigned integer is read as a decimal numeral; out-of-range or
/// malformed tokens fall back to zero.
impl FromToken for u32 {
    open spec fn from_token_spec(t: Seq<char>) -> u32 {
        token_int(t, 0, u32::MAX as int) as u32
    }

    open spec fn default_spec() -> u32 {
        0
    }

    fn from_token(t: &str) -> u32 {
        match scan_int(t) {
            ScannedInt::Numeral { negative, magnitude } => {
                let v = clamp_unsigned(negative, magnitude, u32::MAX as u128);
                v as u32
            },
            ScannedInt::Unusable => 0,
        }
    }

    fn default_value() -> u32 {
        0
    }
}

/// An unsigned integer is read as a decimal numeral; out-of-range or
/// malformed tokens fall back to zero.
impl FromToken for u64 {
    open spec fn from_token_spec(t: Seq<char>) -> u64 {
        token_int(t, 0, u64::MAX as int) as u64
    }

    open spec fn default_spec() -> u64 {
        0
    }

    fn from_token(t: &str) -> u64 {
        match scan_int(t) {
            ScannedInt::Numeral { negative, magnitude } => {
                let v = clamp_unsigned(negative, magnitude, u64::MAX as u128);
                v as u64
            },
            ScannedInt::Unusable => 0,
        }
    }

    fn default_value() -> u64 {
        0
    }
}

/// An unsigned integer is read as a decimal numeral; out-of-range or
/// malformed tokens fall back to zero.
impl FromToken for u128 {
    open spec fn from_token_spec(t: Seq<char>) -> u128 {
        token_int(t, 0, u128::MAX as int) as u128
    }

    open spec fn default_spec() -> u128 {
        0
    }

    fn from_token(t: &str) -> u128 {
        match scan_int(t) {
            ScannedInt::Numeral { negative, magnitude } => clamp_unsigned(
                negative,
                magnitude,
                u128::MAX,
            ),
            ScannedInt::Unusable => 0,
        }
    }

    fn default_value() -> u128 {
        0
    }
}

/// An unsigned integer is read as a decimal numeral; out-of-range or
/// malformed tokens fall back to zero.
impl FromToken for usize {
    open spec fn from_token_spec(t: Seq<char>) -> usize {
        token_int(t, 0, usize::MAX as int) as usize
    }

    open spec fn default_spec() -> usize {
        0
    }

    fn from_token(t: &str) -> usize {
        match scan_int(t) {
            ScannedInt::Numeral { negative, magnitude } => {
                let v = clamp_unsigned(negative, magnitude, usize::MAX as u128);
                v as usize
            },
            ScannedInt::Unusable => 0,
        }
    }

    fn default_value() -> usize {
        0
    }
}

/// A boolean token must read exactly `true` to hold; any other token,
/// including a missing one, reads as `false`.
impl FromToken for bool {
    open spec fn from_token_spec(t: Seq<char>) -> bool {
        t == "true"@
    }

    open spec fn default_spec() -> bool {
        false
    }

    fn from_token(t: &str) -> bool {
        proof {
            reveal_strlit("true");
        }
        let n = t.unicode_len();
        if n != 4 {
            return false;
        }
        let r = t.get_char(0) == 't' && t.get_char(1) == 'r' && t.get_char(2) == 'u'
            && t.get_char(3) == 'e';
        proof {
            if r {
                assert(t@ =~= "true"@);
            }
        }
        r
    }

    fn default_value() -> bool {
        false
    }
}

/// A character token must hold exactly one character; any other token
/// falls back to the null character, the type's default.
impl FromToken for char {
    open spec fn from_token_spec(t: Seq<char>) -> char {
        if t.len() == 1 {
            t[0]
        } else {
            '\0'
        }
    }

    open spec fn default_spec() -> char {
        '\0'
    }

    fn from_token(t: &str) -> char {
        let n = t.unicode_len();
        if n == 1 {
            t.get_char(0)
        } else {
            '\0'
        }
    }

    fn default_value() -> char {
        '\0'
    }
}

/// A string token is taken as it stands; a missing one reads as the
/// empty string.
impl FromToken for String {
    open spec fn from_token_spec(t: Seq<char>) -> Seq<char> {
        t
    }

    open spec fn default_spec() -> Seq<char> {
        Seq::empty()
    }

    fn from_token(t: &str) -> String {
        t.to_owned()
    }

    fn default_value() -> String {
        String::new()
    }
}

} // verus!
