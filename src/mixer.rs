//! The digit accumulator of the `luhn3` crate, with the contracts this
//! library relies on.
//!
//! A `luhn3::Mixer` holds two accumulators, each a sum of digits and a count
//! of those digits that are five or more. `push` adds a digit to the first
//! and then exchanges the two, so the second always holds the last digit
//! pushed. The names below stand for what those fields give.

use vstd::prelude::*;
use crate::digits::{doubled, ASCII_ZERO};

verus! {

#[verifier::external_type_specification]
#[verifier::external_body]
pub struct ExMixer(luhn3::Mixer);

/// Twice the first accumulator's sum, less nine for each of its digits that
/// is five or more, plus the second accumulator's sum: the total that
/// `Mixer::valid` tests.
pub uninterp spec fn valid_total(m: luhn3::Mixer) -> int;

/// Twice the second accumulator's sum, less nine for each of its digits that
/// is five or more, plus the first accumulator's sum: the total that
/// `Mixer::checksum` completes.
pub uninterp spec fn check_total(m: luhn3::Mixer) -> int;

/// The sum of both accumulators' sums: every digit pushed, added up.
pub uninterp spec fn digit_total(m: luhn3::Mixer) -> nat;

/// Relies on `luhn3::Mixer`'s derived `Default`: both sums and both counts
/// start at zero.
#[verifier::external_body]
pub(crate) fn new_mixer() -> (r: luhn3::Mixer)
    ensures
        valid_total(r) == 0,
        check_total(r) == 0,
        digit_total(r) == 0,
{
    luhn3::Mixer::default()
}

/// Relies on `luhn3::Mixer::push`: the digit is added to the first
/// accumulator's sum, and counted there when it is five or more; then the two
/// accumulators trade places. The crate asserts in debug builds that the
/// digit is below ten; the bound on the sums keeps them from overflowing.
pub assume_specification[ luhn3::Mixer::push ](m: &mut luhn3::Mixer, digit: u8)
    requires
        digit < 10,
        digit_total(*old(m)) + 9 <= usize::MAX / 3,
    ensures
        valid_total(*final(m)) == check_total(*old(m)) + digit,
        check_total(*final(m)) == valid_total(*old(m)) + doubled(digit),
        digit_total(*final(m)) == digit_total(*old(m)) + digit,
;

/// Relies on `luhn3::Mixer::valid`: whether its total is a multiple of ten.
/// With the sums bounded, the arithmetic in `usize` cannot overflow.
#[verifier::external_body]
pub(crate) fn mixer_valid(m: &luhn3::Mixer) -> (r: bool)
    requires
        digit_total(*m) <= usize::MAX / 3,
    ensures
        r == (valid_total(*m) % 10 == 0),
{
    m.valid()
}

/// Relies on `luhn3::Mixer::checksum`: the ASCII digit that brings its total
/// to a multiple of ten. With the sums bounded, the arithmetic in `usize`
/// cannot overflow.
#[verifier::external_body]
pub(crate) fn mixer_checksum(m: &luhn3::Mixer) -> (r: u8)
    requires
        digit_total(*m) <= usize::MAX / 3,
    ensures
        r == ASCII_ZERO + (10 - check_total(*m) % 10) % 10,
{
    m.checksum()
}

} // verus!
