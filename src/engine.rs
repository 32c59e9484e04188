//! The checksum engine: one fold of the input into the digit accumulator,
//! read in two ways, to validate a string or to compute its check digit.

use vstd::prelude::*;
use vstd::string::StringSliceAdditionalSpecFns;
use crate::digits::{
    all_base36, check_digit, digits_of, doubled, expand, is_base36, is_luhn_valid, luhn_sum,
    ASCII_NINE,
    ASCII_UPPER_A, ASCII_UPPER_Z, ASCII_ZERO,
};
use crate::mixer::{check_total, digit_total, mixer_checksum, mixer_valid, new_mixer, valid_total};

verus! {

/// The longest input accepted. Its digit stream is at most twice as long,
/// and the accumulator's sums over that stream must fit in a `usize`.
pub const MAX_INPUT_LEN: usize = usize::MAX / 64;

/// Appending one byte to an input appends its digits to the stream.
proof fn lemma_expand_push(s: Seq<u8>, b: u8)
    ensures
        expand(s.push(b)) == expand(s) + digits_of(b),
{
    assert(s.push(b).drop_last() =~= s);
}

/// The digit stream of an input holds at most two digits for each byte.
proof fn lemma_expand_len(s: Seq<u8>)
    ensures
        expand(s).len() <= 2 * s.len(),
    decreases s.len(),
{
    if s.len() > 0 {
        lemma_expand_len(s.drop_last());
    }
}

/// The Luhn sums of a stream with one digit pushed on its right end.
proof fn lemma_luhn_sum_push(ds: Seq<u8>, d: u8)
    ensures
        luhn_sum(ds.push(d), false) == luhn_sum(ds, true) + d,
        luhn_sum(ds.push(d), true) == luhn_sum(ds, false) + doubled(d),
{
    assert(ds.push(d).drop_last() =~= ds);
}

/// Folds the input's digit stream into a fresh accumulator, walking the
/// input once. Returns `None`, and no partial accumulator, when some byte is
/// not of the base-36 alphabet.
fn fold(input: &[u8]) -> (r: Option<luhn3::Mixer>)
    requires
        input@.len() <= MAX_INPUT_LEN,
    ensures
        r.is_some() <==> all_base36(input@),
        r.is_some() ==> valid_total(r.unwrap()) == luhn_sum(expand(input@), false),
        r.is_some() ==> check_total(r.unwrap()) == luhn_sum(expand(input@), true),
        r.is_some() ==> digit_total(r.unwrap()) <= 9 * expand(input@).len(),
{
    let mut m = new_mixer();
    let mut i: usize = 0;
    assert(input@.take(0) =~= Seq::<u8>::empty());
    while i < input.len()
        invariant
            i <= input@.len(),
            input@.len() <= MAX_INPUT_LEN,
            all_base36(input@.take(i as int)),
            valid_total(m) == luhn_sum(expand(input@.take(i as int)), false),
            check_total(m) == luhn_sum(expand(input@.take(i as int)), true),
            digit_total(m) <= 9 * expand(input@.take(i as int)).len(),
        decreases input@.len() - i,
    {
        let c = input[i];
        let ghost done = input@.take(i as int);
        let ghost ds = expand(done);
        proof {
            lemma_expand_len(done);
            lemma_expand_push(done, c);
            assert(input@.take(i + 1) =~= done.push(c));
        }
        if ASCII_ZERO <= c && c <= ASCII_NINE {
            let d: u8 = c - ASCII_ZERO;
            proof {
                lemma_luhn_sum_push(ds, d);
                assert(ds.push(d).len() == ds.len() + 1);
                assert(digits_of(c) =~= seq![d]);
                assert(ds + digits_of(c) =~= ds.push(d));
            }
            m.push(d);
        } else if ASCII_UPPER_A <= c && c <= ASCII_UPPER_Z {
            let v: u8 = c - ASCII_UPPER_A + 10;
            let tens: u8 = v / 10;
            let ones: u8 = v % 10;
            proof {
                lemma_luhn_sum_push(ds, tens);
                lemma_luhn_sum_push(ds.push(tens), ones);
                assert(ds.push(tens).push(ones).len() == ds.len() + 2);
                assert(digits_of(c) =~= seq![tens, ones]);
                assert(ds + digits_of(c) =~= ds.push(tens).push(ones));
            }
            m.push(tens);
            m.push(ones);
        } else {
            assert(!is_base36(input@[i as int]));
            return None;
        }
        i += 1;
        proof {
            assert forall|k: int| 0 <= k < i implies is_base36(#[trigger] input@.take(i as int)[k]) by {
                if k < i - 1 {
                    assert(input@.take(i as int)[k] == done[k]);
                }
            }
        }
    }
    assert(input@.take(i as int) =~= input@);
    Some(m)
}

/// Whether `pan` validates: it is made of decimal digits and uppercase
/// ASCII letters only, and its last digit is the Luhn check digit of the
/// rest. A string with any other byte in it never validates.
pub fn valid(pan: &str) -> (r: bool)
    requires
        pan.spec_bytes().len() <= MAX_INPUT_LEN,
    ensures
        r == is_luhn_valid(pan.spec_bytes()),
        !all_base36(pan.spec_bytes()) ==> !r,
{
    let bytes = pan.as_bytes();
    match fold(bytes) {
        Some(m) => {
            proof {
                lemma_expand_len(bytes@);
            }
            mixer_valid(&m)
        },
        None => false,
    }
}

/// The Luhn check digit of `input`, as an ASCII digit, or `None` when
/// `input` holds a byte that is neither a decimal digit nor an uppercase
/// ASCII letter. Appended to `input`, the digit makes a string that
/// validates.
pub fn safe_checksum(input: &[u8]) -> (r: Option<u8>)
    requires
        input@.len() <= MAX_INPUT_LEN,
    ensures
        r.is_some() <==> all_base36(input@),
        r.is_some() ==> r.unwrap() == check_digit(input@),
{
    match fold(input) {
        Some(m) => {
            proof {
                lemma_expand_len(input@);
            }
            Some(mixer_checksum(&m))
        },
        None => None,
    }
}

/// The Luhn check digit of `input`, as an ASCII digit. The input must be
/// made of decimal digits and uppercase ASCII letters only.
pub fn checksum(input: &[u8]) -> (r: u8)
    requires
        input@.len() <= MAX_INPUT_LEN,
        all_base36(input@),
    ensures
        r == check_digit(input@),
{
    match safe_checksum(input) {
        Some(d) => d,
        None => unreached(),
    }
}

} // verus!
