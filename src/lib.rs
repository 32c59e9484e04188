//! Validation and check-digit computation for Luhn-style checksums over
//! decimal and uppercase alphanumeric identifiers (card numbers, ISIN codes).
//!
//! An input is read as a stream of decimal digits: a decimal byte gives its
//! value, an uppercase letter gives the two digits of its base-36 value
//! (`A` is 10, so `1` then `0`). Any other byte makes the input malformed.

pub mod digits;
mod engine;
pub mod laws;
mod mixer;

pub use engine::{checksum, safe_checksum, valid, MAX_INPUT_LEN};
