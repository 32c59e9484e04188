//! The mathematical model: the base-36 alphabet, the expansion of an input
//! into a stream of decimal digits, and the Luhn weighted sum over that stream.

use vstd::prelude::*;

verus! {

/// The ASCII code of `0`.
pub const ASCII_ZERO: u8 = 48;

/// The ASCII code of `9`.
pub const ASCII_NINE: u8 = 57;

/// The ASCII code of `A`.
pub const ASCII_UPPER_A: u8 = 65;

/// The ASCII code of `Z`.
pub const ASCII_UPPER_Z: u8 = 90;

/// A decimal digit byte, `0` to `9`.
pub open spec fn is_decimal(b: u8) -> bool {
    ASCII_ZERO <= b && b <= ASCII_NINE
}

/// An uppercase ASCII letter, `A` to `Z`.
pub open spec fn is_upper(b: u8) -> bool {
    ASCII_UPPER_A <= b && b <= ASCII_UPPER_Z
}

/// A byte of the base-36 alphabet.
pub open spec fn is_base36(b: u8) -> bool {
    is_decimal(b) || is_upper(b)
}

/// Every byte of `s` is of the base-36 alphabet.
pub open spec fn all_base36(s: Seq<u8>) -> bool {
    forall|i: int| 0 <= i < s.len() ==> is_base36(#[trigger] s[i])
}

/// The base-36 value of an alphabet byte: `0`..`9` are 0..9, `A`..`Z` are 10..35.
pub open spec fn base36_value(b: u8) -> int {
    if is_decimal(b) {
        b - ASCII_ZERO
    } else {
        b - ASCII_UPPER_A + 10
    }
}

/// The decimal digits that one alphabet byte contributes to the stream: one
/// digit for a value below ten, else its tens digit followed by its ones digit.
pub open spec fn digits_of(b: u8) -> Seq<u8> {
    let v = base36_value(b);
    if v < 10 {
        seq![v as u8]
    } else {
        seq![(v / 10) as u8, (v % 10) as u8]
    }
}

/// The decimal digit stream of an input, in left-to-right order.
pub open spec fn expand(s: Seq<u8>) -> Seq<u8>
    decreases s.len(),
{
    if s.len() == 0 {
        Seq::empty()
    } else {
        expand(s.drop_last()) + digits_of(s.last())
    }
}

/// A digit doubled, with the two digits of the product summed: `2d`, or
/// `2d - 9` when `d` is five or more.
pub open spec fn doubled(d: u8) -> int {
    if d >= 5 {
        2 * d - 9
    } else {
        2 * d
    }
}

/// The Luhn sum of a digit stream, walked from its right end: the last digit
/// is doubled when `double_last` holds, and the role alternates from there.
pub open spec fn luhn_sum(ds: Seq<u8>, double_last: bool) -> int
    decreases ds.len(),
{
    if ds.len() == 0 {
        0
    } else {
        (if double_last {
            doubled(ds.last())
        } else {
            ds.last() as int
        }) + luhn_sum(ds.drop_last(), !double_last)
    }
}

/// `s` is a base-36 string whose last character checks the rest: the Luhn sum
/// of its digit stream, its own last digit not doubled, is a multiple of ten.
pub open spec fn is_luhn_valid(s: Seq<u8>) -> bool {
    all_base36(s) && luhn_sum(expand(s), false) % 10 == 0
}

/// The value of the check digit for `s`, which is to be appended to it.
pub open spec fn check_value(s: Seq<u8>) -> int {
    (10 - luhn_sum(expand(s), true) % 10) % 10
}

/// The ASCII check digit for `s`.
pub open spec fn check_digit(s: Seq<u8>) -> u8 {
    (ASCII_ZERO + check_value(s)) as u8
}

} // verus!
