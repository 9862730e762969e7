//! Decoding integers from environment-variable text.
//!
//! The grammar is an optional `+` or `-` sign followed by one or more decimal
//! digits.  [`text_int`] is the specification: the mathematical value of the
//! text, or nothing when the text is not of that shape.  Each fixed-width
//! decoder returns that value exactly when it lies in the type's range, and
//! says otherwise whether the text was malformed or merely out of range.

use vstd::prelude::*;
use crate::digits::{all_digits, char_digit, digits_value};

verus! {

/// The numeric magnitude of a nonempty digit string.
pub open spec fn text_mag(s: Seq<char>) -> Option<nat> {
    if s.len() > 0 && all_digits(s) {
        Some(digits_value(s))
    } else {
        None
    }
}

/// The integer value of decimal text: an optional sign, then digits.
pub open spec fn text_int(s: Seq<char>) -> Option<int> {
    if s.len() == 0 {
        None
    } else if s[0] == '+' {
        match text_mag(s.subrange(1, s.len() as int)) {
            Some(v) => Some(v as int),
            None => None,
        }
    } else if s[0] == '-' {
        match text_mag(s.subrange(1, s.len() as int)) {
            Some(v) => Some(-(v as int)),
            None => None,
        }
    } else {
        match text_mag(s) {
            Some(v) => Some(v as int),
            None => None,
        }
    }
}

/// Why integer text was rejected: not of the grammar at all, or a value that
/// does not fit the field's type.
#[derive(Clone, Copy, Debug, PartialEq, Eq, Structural)]
pub enum IntError {
    /// The text is not an optionally signed, nonempty run of decimal digits.
    Malformed,
    /// The text denotes an integer outside the target type's range.
    OutOfRange,
}

/// A scanned integer: sign and magnitude, the latter absent when it exceeds
/// what a `u128` can hold.
enum RawInt {
    Bad,
    Num { neg: bool, mag: Option<u128> },
}

/// The digit value of a character, executably.
fn digit_of_char(c: char) -> (r: Option<u8>)
    ensures
        r == char_digit(c),
{
    match c {
        '0' => Some(0),
        '1' => Some(1),
        '2' => Some(2),
        '3' => Some(3),
        '4' => Some(4),
        '5' => Some(5),
        '6' => Some(6),
        '7' => Some(7),
        '8' => Some(8),
        '9' => Some(9),
        _ => None,
    }
}

/// Scans signed decimal text into sign and magnitude.
fn scan_int(t: &String) -> (r: RawInt)
    ensures
        (r is Bad) <==> (text_int(t@) is None),
        (match r {
            RawInt::Bad => true,
            RawInt::Num { neg, mag } => {
                let v = text_int(t@)->Some_0;
                match mag {
                    Some(m) => v == if neg {
                        -(m as int)
                    } else {
                        m as int
                    },
                    None => if neg {
                        v < -(u128::MAX as int)
                    } else {
                        v > u128::MAX as int
                    },
                }
            },
        }),
{
    let s = t.as_str();
    let n = s.unicode_len();
    if n == 0 {
        return RawInt::Bad;
    }
    let first = s.get_char(0);
    let neg = first == '-';
    let start: usize = if first == '+' || first == '-' {
        1
    } else {
        0
    };
    if n == start {
        return RawInt::Bad;
    }
    let ghost digits_part = t@.subrange(start as int, n as int);
    let mut mag: Option<u128> = Some(0);
    let mut i = start;
    proof {
        assert(t@.subrange(start as int, start as int) =~= Seq::<char>::empty());
    }
    while i < n
        invariant
            start <= i <= n,
            n == t@.len(),
            start < n,
            s@ == t@,
            start == 0 || start == 1,
            start == 1 ==> (t@[0] == '+' || t@[0] == '-'),
            start == 0 ==> (t@[0] != '+' && t@[0] != '-'),
            forall|k: int| start <= k < i ==> char_digit(t@[k]) is Some,
            match mag {
                Some(m) => m == digits_value(t@.subrange(start as int, i as int)),
                None => digits_value(t@.subrange(start as int, i as int)) > u128::MAX,
            },
        decreases n - i,
    {
        let c = s.get_char(i);
        let ghost before = t@.subrange(start as int, i as int);
        let ghost after = t@.subrange(start as int, i as int + 1);
        proof {
            assert(after.drop_last() =~= before);
            assert(after.last() == t@[i as int]);
        }
        match digit_of_char(c) {
            None => {
                proof {
                    let dp = t@.subrange(start as int, n as int);
                    assert(dp[i - start] == t@[i as int]);
                    assert(char_digit(dp[i - start]) is None);
                    assert(!all_digits(dp));
                    if start == 1 {
                        assert(t@.subrange(1, t@.len() as int) =~= dp);
                    } else {
                        assert(dp =~= t@);
                    }
                }
                return RawInt::Bad;
            },
            Some(d) => {
                mag = match mag {
                    Some(m) => {
                        match m.checked_mul(10) {
                            Some(m10) => m10.checked_add(d as u128),
                            None => None,
                        }
                    },
                    None => None,
                };
            },
        }
        i += 1;
    }
    proof {
        assert(digits_part.len() > 0);
        assert(all_digits(digits_part)) by {
            assert forall|k: int| 0 <= k < digits_part.len() implies char_digit(
                digits_part[k],
            ) is Some by {
                assert(digits_part[k] == t@[k + start]);
            }
        }
        if start == 1 {
            assert(t@.subrange(1, t@.len() as int) == digits_part);
        } else {
            assert(t@.subrange(0, t@.len() as int) =~= t@);
            assert(digits_part =~= t@);
        }
    }
    RawInt::Num { neg, mag }
}

/// Decodes `u8` text: the denoted value exactly when it fits.
pub fn parse_u8(t: &String) -> (r: Result<u8, IntError>)
    ensures
        match text_int(t@) {
            None => r == Err::<u8, IntError>(IntError::Malformed),
            Some(v) => if 0 <= v <= u8::MAX {
                r == Ok::<u8, IntError>(v as u8)
            } else {
                r == Err::<u8, IntError>(IntError::OutOfRange)
            },
        },
{
    match scan_int(t) {
        RawInt::Bad => Err(IntError::Malformed),
        RawInt::Num { neg, mag } => match mag {
            None => Err(IntError::OutOfRange),
            Some(m) => {
                if neg {
                    if m == 0 {
                        Ok(0)
                    } else {
                        Err(IntError::OutOfRange)
                    }
                } else if m <= u8::MAX as u128 {
                    Ok(m as u8)
                } else {
                    Err(IntError::OutOfRange)
                }
            },
        },
    }
}

/// Decodes `u16` text: the denoted value exactly when it fits.
pub fn parse_u16(t: &String) -> (r: Result<u16, IntError>)
    ensures
        match text_int(t@) {
            None => r == Err::<u16, IntError>(IntError::Malformed),
            Some(v) => if 0 <= v <= u16::MAX {
                r == Ok::<u16, IntError>(v as u16)
            } else {
                r == Err::<u16, IntError>(IntError::OutOfRange)
            },
        },
{
    match scan_int(t) {
        RawInt::Bad => Err(IntError::Malformed),
        RawInt::Num { neg, mag } => match mag {
            None => Err(IntError::OutOfRange),
            Some(m) => {
                if neg {
                    if m == 0 {
                        Ok(0)
                    } else {
                        Err(IntError::OutOfRange)
                    }
                } else if m <= u16::MAX as u128 {
                    Ok(m as u16)
                } else {
                    Err(IntError::OutOfRange)
                }
            },
        },
    }
}

/// Decodes `u32` text: the denoted value exactly when it fits.
pub fn parse_u32(t: &String) -> (r: Result<u32, IntError>)
    ensures
        match text_int(t@) {
            None => r == Err::<u32, IntError>(IntError::Malformed),
            Some(v) => if 0 <= v <= u32::MAX {
                r == Ok::<u32, IntError>(v as u32)
            } else {
                r == Err::<u32, IntError>(IntError::OutOfRange)
            },
        },
{
    match scan_int(t) {
        RawInt::Bad => Err(IntError::Malformed),
        RawInt::Num { neg, mag } => match mag {
            None => Err(IntError::OutOfRange),
            Some(m) => {
                if neg {
                    if m == 0 {
                        Ok(0)
                    } else {
                        Err(IntError::OutOfRange)
                    }
                } else if m <= u32::MAX as u128 {
                    Ok(m as u32)
                } else {
                    Err(IntError::OutOfRange)
                }
            },
        },
    }
}

/// Decodes `u64` text: the denoted value exactly when it fits.
pub fn parse_u64(t: &String) -> (r: Result<u64, IntError>)
    ensures
        match text_int(t@) {
            None => r == Err::<u64, IntError>(IntError::Malformed),
            Some(v) => if 0 <= v <= u64::MAX {
                r == Ok::<u64, IntError>(v as u64)
            } else {
                r == Err::<u64, IntError>(IntError::OutOfRange)
            },
        },
{
    match scan_int(t) {
        RawInt::Bad => Err(IntError::Malformed),
        RawInt::Num { neg, mag } => match mag {
            None => Err(IntError::OutOfRange),
            Some(m) => {
                if neg {
                    if m == 0 {
                        Ok(0)
                    } else {
                        Err(IntError::OutOfRange)
                    }
                } else if m <= u64::MAX as u128 {
                    Ok(m as u64)
                } else {
                    Err(IntError::OutOfRange)
                }
            },
        },
    }
}

/// Decodes `u128` text: the denoted value exactly when it fits.
pub fn parse_u128(t: &String) -> (r: Result<u128, IntError>)
    ensures
        match text_int(t@) {
            None => r == Err::<u128, IntError>(IntError::Malformed),
            Some(v) => if 0 <= v <= u128::MAX {
                r == Ok::<u128, IntError>(v as u128)
            } else {
                r == Err::<u128, IntError>(IntError::OutOfRange)
            },
        },
{
    match scan_int(t) {
        RawInt::Bad => Err(IntError::Malformed),
        RawInt::Num { neg, mag } => match mag {
            None => Err(IntError::OutOfRange),
            Some(m) => {
                if neg {
                    if m == 0 {
                        Ok(0)
                    } else {
                        Err(IntError::OutOfRange)
                    }
                } else {
                    Ok(m)
                }
            },
        },
    }
}

/// Decodes `i8` text: the denoted value exactly when it fits.
pub fn parse_i8(t: &String) -> (r: Result<i8, IntError>)
    ensures
        match text_int(t@) {
            None => r == Err::<i8, IntError>(IntError::Malformed),
            Some(v) => if i8::MIN <= v <= i8::MAX {
                r == Ok::<i8, IntError>(v as i8)
            } else {
                r == Err::<i8, IntError>(IntError::OutOfRange)
            },
        },
{
    match scan_int(t) {
        RawInt::Bad => Err(IntError::Malformed),
        RawInt::Num { neg, mag } => match mag {
            None => Err(IntError::OutOfRange),
            Some(m) => {
                if neg {
                    if m <= 128 {
                        let w: i16 = 0 - (m as i16);
                        Ok(w as i8)
                    } else {
                        Err(IntError::OutOfRange)
                    }
                } else if m <= i8::MAX as u128 {
                    Ok(m as i8)
                } else {
                    Err(IntError::OutOfRange)
                }
            },
        },
    }
}

/// Decodes `i16` text: the denoted value exactly when it fits.
pub fn parse_i16(t: &String) -> (r: Result<i16, IntError>)
    ensures
        match text_int(t@) {
            None => r == Err::<i16, IntError>(IntError::Malformed),
            Some(v) => if i16::MIN <= v <= i16::MAX {
                r == Ok::<i16, IntError>(v as i16)
            } else {
                r == Err::<i16, IntError>(IntError::OutOfRange)
            },
        },
{
    match scan_int(t) {
        RawInt::Bad => Err(IntError::Malformed),
        RawInt::Num { neg, mag } => match mag {
            None => Err(IntError::OutOfRange),
            Some(m) => {
                if neg {
                    if m <= 32768 {
                        let w: i32 = 0 - (m as i32);
                        Ok(w as i16)
                    } else {
                        Err(IntError::OutOfRange)
                    }
                } else if m <= i16::MAX as u128 {
                    Ok(m as i16)
                } else {
                    Err(IntError::OutOfRange)
                }
            },
        },
    }
}

/// Decodes `i32` text: the denoted value exactly when it fits.
pub fn parse_i32(t: &String) -> (r: Result<i32, IntError>)
    ensures
        match text_int(t@) {
            None => r == Err::<i32, IntError>(IntError::Malformed),
            Some(v) => if i32::MIN <= v <= i32::MAX {
                r == Ok::<i32, IntError>(v as i32)
            } else {
                r == Err::<i32, IntError>(IntError::OutOfRange)
            },
        },
{
    match scan_int(t) {
        RawInt::Bad => Err(IntError::Malformed),
        RawInt::Num { neg, mag } => match mag {
            None => Err(IntError::OutOfRange),
            Some(m) => {
                if neg {
                    if m <= 2147483648 {
                        let w: i64 = 0 - (m as i64);
                        Ok(w as i32)
                    } else {
                        Err(IntError::OutOfRange)
                    }
                } else if m <= i32::MAX as u128 {
                    Ok(m as i32)
                } else {
                    Err(IntError::OutOfRange)
                }
            },
        },
    }
}

/// Decodes `i64` text: the denoted value exactly when it fits.
pub fn parse_i64(t: &String) -> (r: Result<i64, IntError>)
    ensures
        match text_int(t@) {
            None => r == Err::<i64, IntError>(IntError::Malformed),
            Some(v) => if i64::MIN <= v <= i64::MAX {
                r == Ok::<i64, IntError>(v as i64)
            } else {
                r == Err::<i64, IntError>(IntError::OutOfRange)
            },
        },
{
    match scan_int(t) {
        RawInt::Bad => Err(IntError::Malformed),
        RawInt::Num { neg, mag } => match mag {
            None => Err(IntError::OutOfRange),
            Some(m) => {
                if neg {
                    if m <= 9223372036854775808 {
                        let w: i128 = 0 - (m as i128);
                        Ok(w as i64)
                    } else {
                        Err(IntError::OutOfRange)
                    }
                } else if m <= i64::MAX as u128 {
                    Ok(m as i64)
                } else {
                    Err(IntError::OutOfRange)
                }
            },
        },
    }
}

/// Decodes `i128` text: the denoted value exactly when it fits.
pub fn parse_i128(t: &String) -> (r: Result<i128, IntError>)
    ensures
        match text_int(t@) {
            None => r == Err::<i128, IntError>(IntError::Malformed),
            Some(v) => if i128::MIN <= v <= i128::MAX {
                r == Ok::<i128, IntError>(v as i128)
            } else {
                r == Err::<i128, IntError>(IntError::OutOfRange)
            },
        },
{
    match scan_int(t) {
        RawInt::Bad => Err(IntError::Malformed),
        RawInt::Num { neg, mag } => match mag {
            None => Err(IntError::OutOfRange),
            Some(m) => {
                if neg {
                    if m == 170141183460469231731687303715884105728u128 {
                        Ok(i128::MIN)
                    } else if m < 170141183460469231731687303715884105728u128 {
                        Ok(0 - (m as i128))
                    } else {
                        Err(IntError::OutOfRange)
                    }
                } else if m <= i128::MAX as u128 {
                    Ok(m as i128)
                } else {
                    Err(IntError::OutOfRange)
                }
            },
        },
    }
}

} // verus!
