//! Laws of validation and check digits, stated over the model that the
//! public functions' contracts speak of.

use vstd::prelude::*;
use crate::digits::{
    all_base36, check_digit, digits_of, doubled, expand, is_base36, is_decimal,
    is_luhn_valid, luhn_sum, ASCII_ZERO,
};

verus! {

/// The digit stream of a concatenation is the concatenation of the streams.
pub proof fn lemma_expand_concat(a: Seq<u8>, b: Seq<u8>)
    ensures
        expand(a + b) == expand(a) + expand(b),
    decreases b.len(),
{
    if b.len() == 0 {
        assert(a + b =~= a);
        assert(expand(a) + expand(b) =~= expand(a));
    } else {
        let b0 = b.drop_last();
        assert((a + b).drop_last() =~= a + b0);
        lemma_expand_concat(a, b0);
        assert(expand(a + b) =~= expand(a) + expand(b));
    }
}

/// The Luhn sum of a concatenation: the right part is walked first, and the
/// left part starts in the role that the right part's length leaves it.
pub proof fn lemma_luhn_sum_concat(a: Seq<u8>, b: Seq<u8>, double_last: bool)
    ensures
        luhn_sum(a + b, double_last) == luhn_sum(b, double_last) + luhn_sum(
            a,
            if b.len() % 2 == 0 {
                double_last
            } else {
                !double_last
            },
        ),
    decreases b.len(),
{
    if b.len() == 0 {
        assert(a + b =~= a);
    } else {
        let b0 = b.drop_last();
        assert((a + b).drop_last() =~= a + b0);
        assert((a + b).last() == b.last());
        lemma_luhn_sum_concat(a, b0, !double_last);
    }
}

/// Whether a digit at the given role is doubled, its contribution to the sum.
pub open spec fn weight(d: u8, double: bool) -> int {
    if double {
        doubled(d)
    } else {
        d as int
    }
}

/// The sum of a stream split around one digit.
proof fn lemma_luhn_sum_around(p: Seq<u8>, d: u8, q: Seq<u8>)
    ensures
        luhn_sum(p + seq![d] + q, false) == luhn_sum(q, false) + weight(d, q.len() % 2 == 1)
            + luhn_sum(p, q.len() % 2 == 0),
{
    lemma_luhn_sum_concat(p + seq![d], q, false);
    let role = q.len() % 2 == 1;
    lemma_luhn_sum_concat(p, seq![d], role);
    assert(seq![d].drop_last() =~= Seq::<u8>::empty());
    assert(luhn_sum(seq![d], role) == weight(d, role) + luhn_sum(Seq::<u8>::empty(), !role));
}

/// The sum of a stream split around two adjacent digits.
proof fn lemma_luhn_sum_around_pair(p: Seq<u8>, x: u8, y: u8, q: Seq<u8>)
    ensures
        luhn_sum(p + seq![x, y] + q, false) == luhn_sum(q, false) + weight(y, q.len() % 2 == 1)
            + weight(x, q.len() % 2 == 0) + luhn_sum(p, q.len() % 2 == 1),
{
    lemma_luhn_sum_concat(p + seq![x, y], q, false);
    let role = q.len() % 2 == 1;
    lemma_luhn_sum_concat(p, seq![x, y], role);
    assert(seq![x, y].drop_last() =~= seq![x]);
    assert(seq![x].drop_last() =~= Seq::<u8>::empty());
    assert(luhn_sum(seq![x], !role) == weight(x, !role) + luhn_sum(Seq::<u8>::empty(), role));
    assert(luhn_sum(seq![x, y], role) == weight(y, role) + luhn_sum(seq![x], !role));
}

/// The Luhn sum of a string with a decimal digit appended: that digit, plus
/// the sum of the string with its own last digit doubled.
proof fn lemma_luhn_sum_push_decimal(s: Seq<u8>, c: u8)
    requires
        is_decimal(c),
    ensures
        luhn_sum(expand(s.push(c)), false) == (c - ASCII_ZERO) + luhn_sum(expand(s), true),
{
    assert(s.push(c).drop_last() =~= s);
    let d = (c - ASCII_ZERO) as u8;
    assert(digits_of(c) =~= seq![d]);
    let ds = expand(s);
    assert(expand(s.push(c)) =~= ds.push(d));
    assert(ds.push(d).drop_last() =~= ds);
}

/// Appending a byte of the alphabet to a base-36 string keeps it so.
proof fn lemma_all_base36_push(s: Seq<u8>, c: u8)
    requires
        all_base36(s),
        is_base36(c),
    ensures
        all_base36(s.push(c)),
{
    let t = s.push(c);
    assert forall|i: int| 0 <= i < t.len() implies is_base36(#[trigger] t[i]) by {
        if i < s.len() {
            assert(t[i] == s[i]);
        }
    }
}

/// Appending the check digit of a base-36 string makes a string that
/// validates.
pub proof fn lemma_check_digit_completes(s: Seq<u8>)
    requires
        all_base36(s),
    ensures
        is_decimal(check_digit(s)),
        is_luhn_valid(s.push(check_digit(s))),
{
    lemma_check_digit_unique(s, check_digit(s));
}

/// A base-36 string followed by a decimal digit validates exactly when that
/// digit is the check digit of the string: the check digit is the one digit
/// that completes it.
pub proof fn lemma_check_digit_unique(s: Seq<u8>, c: u8)
    requires
        all_base36(s),
        is_decimal(c),
    ensures
        is_decimal(check_digit(s)),
        is_luhn_valid(s.push(c)) <==> c == check_digit(s),
{
    lemma_all_base36_push(s, c);
    lemma_luhn_sum_push_decimal(s, c);
    let sum = luhn_sum(expand(s), true);
    let d = c - ASCII_ZERO;
    assert((d + sum) % 10 == 0 <==> d == (10 - sum % 10) % 10) by (nonlinear_arith)
        requires
            0 <= d < 10,
    ;
}

/// The digit stream of a string split in three parts.
proof fn lemma_expand_around(p: Seq<u8>, x: Seq<u8>, q: Seq<u8>)
    ensures
        expand(p + x + q) == expand(p) + expand(x) + expand(q),
{
    lemma_expand_concat(p + x, q);
    lemma_expand_concat(p, x);
}

/// The stream of a single decimal byte is its digit value.
proof fn lemma_expand_decimal(b: u8)
    requires
        is_decimal(b),
    ensures
        expand(seq![b]) == seq![(b - ASCII_ZERO) as u8],
{
    assert(seq![b].drop_last() =~= Seq::<u8>::empty());
    assert(seq![b].last() == b);
    assert(expand(Seq::<u8>::empty()) =~= Seq::<u8>::empty());
    assert(digits_of(b) =~= seq![(b - ASCII_ZERO) as u8]);
    assert(Seq::<u8>::empty() + digits_of(b) =~= seq![(b - ASCII_ZERO) as u8]);
}

/// Replacing one decimal digit of a string that validates by a different
/// decimal digit makes a string that does not validate.
pub proof fn lemma_digit_change_detected(p: Seq<u8>, x: u8, y: u8, q: Seq<u8>)
    requires
        is_decimal(x),
        is_decimal(y),
        x != y,
        is_luhn_valid(p + seq![x] + q),
    ensures
        !is_luhn_valid(p + seq![y] + q),
{
    let dx = (x - ASCII_ZERO) as u8;
    let dy = (y - ASCII_ZERO) as u8;
    lemma_expand_around(p, seq![x], q);
    lemma_expand_around(p, seq![y], q);
    lemma_expand_decimal(x);
    lemma_expand_decimal(y);
    let ep = expand(p);
    let eq = expand(q);
    lemma_luhn_sum_around(ep, dx, eq);
    lemma_luhn_sum_around(ep, dy, eq);
    let rest = luhn_sum(eq, false) + luhn_sum(ep, eq.len() % 2 == 0);
    let role = eq.len() % 2 == 1;
    let wx = weight(dx, role);
    let wy = weight(dy, role);
    assert(0 <= wx < 19 && 0 <= wy < 19 && wx != wy && (wx - wy) % 10 != 0);
    assert((rest + wx) % 10 == 0 ==> (rest + wy) % 10 != 0) by (nonlinear_arith)
        requires
            (wx - wy) % 10 != 0,
    ;
}

/// Exchanging two adjacent decimal digits of a string that validates makes a
/// string that does not validate, unless the digits are equal or are `0` and
/// `9`, the one pair that Luhn cannot tell apart.
pub proof fn lemma_adjacent_swap_detected(p: Seq<u8>, x: u8, y: u8, q: Seq<u8>)
    requires
        is_decimal(x),
        is_decimal(y),
        x != y,
        !(x == ASCII_ZERO && y == ASCII_ZERO + 9),
        !(x == ASCII_ZERO + 9 && y == ASCII_ZERO),
        is_luhn_valid(p + seq![x, y] + q),
    ensures
        !is_luhn_valid(p + seq![y, x] + q),
{
    let dx = (x - ASCII_ZERO) as u8;
    let dy = (y - ASCII_ZERO) as u8;
    lemma_expand_around(p, seq![x, y], q);
    lemma_expand_around(p, seq![y, x], q);
    assert(seq![x, y] =~= seq![x] + seq![y]);
    assert(seq![y, x] =~= seq![y] + seq![x]);
    lemma_expand_concat(seq![x], seq![y]);
    lemma_expand_concat(seq![y], seq![x]);
    lemma_expand_decimal(x);
    lemma_expand_decimal(y);
    assert(expand(seq![x, y]) =~= seq![dx, dy]);
    assert(expand(seq![y, x]) =~= seq![dy, dx]);
    let ep = expand(p);
    let eq = expand(q);
    assert(ep + expand(seq![x, y]) + eq == ep + seq![dx, dy] + eq);
    lemma_luhn_sum_around_pair(ep, dx, dy, eq);
    lemma_luhn_sum_around_pair(ep, dy, dx, eq);
    let rest = luhn_sum(eq, false) + luhn_sum(ep, eq.len() % 2 == 1);
    let a = weight(dy, eq.len() % 2 == 1) + weight(dx, eq.len() % 2 == 0);
    let b = weight(dx, eq.len() % 2 == 1) + weight(dy, eq.len() % 2 == 0);
    assert((a - b) % 10 != 0);
    assert((rest + a) % 10 == 0 ==> (rest + b) % 10 != 0) by (nonlinear_arith)
        requires
            (a - b) % 10 != 0,
    ;
}

} // verus!
