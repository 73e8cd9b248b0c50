//! Rounding, multiplying and writing out floating-point numbers.

use crate::float_bits::{
    distance, f32_mag, f32_units, lemma_nearest_is_nearest, lemma_p2_mono, lemma_units,
    lemma_units_monotone, nearest, p2, round_half_even, units,
};
use crate::float_ops::{f64_narrowed, narrowed, product, quotient};
use crate::float_text::{
    exponential, f32_debug, f32_display, f64_display, p10, positional, shortest, zeros,
};
use crate::text::{decimal, signed_decimal};
use crate::text_laws::{lemma_numeral, number_of};
use vstd::prelude::*;

verus! {

// ---- rounding -------------------------------------------------------------------------

/// A quotient halfway between two whole numbers is rounded to the even one of them.
pub proof fn lemma_tie_to_even(a: nat, d: nat, n: nat)
    requires
        d > 0,
        2 * a == (2 * n + 1) * d,
    ensures
        round_half_even(a, d) == n || round_half_even(a, d) == n + 1,
        round_half_even(a, d) % 2 == 0,
{
    let half = (a - n * d) as int;
    assert(2 * half == d) by (nonlinear_arith)
        requires
            half == a - n * d,
            2 * a == (2 * n + 1) * d,
    ;
    vstd::arithmetic::div_mod::lemma_fundamental_div_mod_converse(
        a as int,
        d as int,
        n as int,
        half,
    );
}

/// The magnitude of an fp32 pattern is that of no number.
pub open spec fn no_number(b: u32) -> bool {
    b % 0x8000_0000 > 0x7F80_0000
}

/// The pattern is one of the infinities.
pub open spec fn infinite(b: u32) -> bool {
    b % 0x8000_0000 == 0x7F80_0000
}

/// The pattern is one of the zeros.
pub open spec fn nought(b: u32) -> bool {
    b % 0x8000_0000 == 0
}

/// `r` has the magnitude `m` and a minus sign where `x` and `y` differ in theirs.
pub open spec fn signed_as(r: nat, m: nat, x: u32, y: u32) -> bool {
    r == m + if (x >= 0x8000_0000) != (y >= 0x8000_0000) {
        0x8000_0000nat
    } else {
        0
    }
}

/// The product of two numbers. Nothing times a NaN and no zero times an infinity is
/// a number. An infinity times anything else is one, and the product of finite
/// numbers is a number that no other is closer to. Its sign is minus where the signs
/// differ.
pub proof fn lemma_product_rules(x: u32, y: u32, other: nat)
    ensures
        no_number(x) || no_number(y) ==> product(x, y) == 0x7FC0_0000,
        (infinite(x) && nought(y)) || (nought(x) && infinite(y)) ==> product(x, y) == 0x7FC0_0000,
        infinite(x) && !nought(y) && !no_number(y) ==> signed_as(product(x, y), 0x7F80_0000, x, y),
        infinite(y) && !nought(x) && !no_number(x) ==> signed_as(product(x, y), 0x7F80_0000, x, y),
        x % 0x8000_0000 < 0x7F80_0000 && y % 0x8000_0000 < 0x7F80_0000 ==> ({
            let exact = f32_units(x) * f32_units(y);
            let m = nearest(exact, p2(149), 24, 0x7F80_0000);
            &&& signed_as(product(x, y), m, x, y)
            &&& m <= 0x7F80_0000
            &&& m < 0x7F80_0000 ==> distance(units(m, 24) * p2(149), exact) <= distance(
                units(other, 24) * p2(149),
                exact,
            )
        }),
        product(x, y) == product(y, x),
{
    assert(f32_units(x) * f32_units(y) == f32_units(y) * f32_units(x)) by (nonlinear_arith);
    lemma_p2_mono(0, 149);
    let exact = f32_units(x) * f32_units(y);
    if nearest(exact, p2(149), 24, 0x7F80_0000) < 0x7F80_0000 {
        lemma_nearest_is_nearest(exact, p2(149), 24, 0x7F80_0000, other);
    }
}

/// The quotient of two numbers. A NaN, two infinities and two zeros have none. A
/// number by zero is an infinity, and by an infinity zero. The quotient of other
/// numbers is a number that no other is closer to. Its sign is minus where the signs
/// differ.
pub proof fn lemma_quotient_rules(x: u32, y: u32, other: nat)
    ensures
        no_number(x) || no_number(y) ==> quotient(x, y) == 0x7FC0_0000,
        (infinite(x) && infinite(y)) || (nought(x) && nought(y)) ==> quotient(x, y) == 0x7FC0_0000,
        infinite(x) && y % 0x8000_0000 < 0x7F80_0000 ==> signed_as(
            quotient(x, y),
            0x7F80_0000,
            x,
            y,
        ),
        nought(y) && !nought(x) && !no_number(x) ==> signed_as(quotient(x, y), 0x7F80_0000, x, y),
        infinite(y) && x % 0x8000_0000 < 0x7F80_0000 ==> signed_as(quotient(x, y), 0, x, y),
        x % 0x8000_0000 < 0x7F80_0000 && 0 < y % 0x8000_0000 < 0x7F80_0000 ==> ({
            let (a, d) = (f32_units(x) * p2(149), f32_units(y));
            let m = nearest(a, d, 24, 0x7F80_0000);
            &&& signed_as(quotient(x, y), m, x, y)
            &&& d > 0
            &&& m < 0x7F80_0000 ==> distance(units(m, 24) * d, a) <= distance(
                units(other, 24) * d,
                a,
            )
        }),
{
    if 0 < f32_mag(y) {
        lemma_units_monotone(0, f32_mag(y), 24);
        lemma_units(0, 24);
        lemma_p2_mono(0, 24);
        let (a, d) = (f32_units(x) * p2(149), f32_units(y));
        if nearest(a, d, 24, 0x7F80_0000) < 0x7F80_0000 {
            lemma_nearest_is_nearest(a, d, 24, 0x7F80_0000, other);
        }
    }
}

/// Narrowing to fp16 keeps the sign, keeps infinity and NaN as such, and gives a
/// number that no other is closer to.
pub proof fn lemma_narrowed_rules(b: u32, other: nat)
    ensures
        ({
            let m = if b >= 0x8000_0000 {
                narrowed(b) - 0x8000
            } else {
                narrowed(b) as int
            };
            &&& 0 <= m < 0x8000
            &&& no_number(b) ==> m > 0x7C00
            &&& infinite(b) ==> m == 0x7C00
            &&& b % 0x8000_0000 < 0x7F80_0000 ==> m <= 0x7C00
            &&& m < 0x7C00 && b % 0x8000_0000 < 0x7F80_0000 ==> distance(
                units(m as nat, 11) * p2(125),
                f32_units(b),
            ) <= distance(units(other, 11) * p2(125), f32_units(b))
        }),
{
    lemma_p2_mono(0, 125);
    if nearest(f32_units(b), p2(125), 11, 0x7C00) < 0x7C00 {
        lemma_nearest_is_nearest(f32_units(b), p2(125), 11, 0x7C00, other);
    }
}

/// Narrowing an fp64 number to fp32 keeps the sign and infinity, and gives a number
/// that no other is closer to. Every NaN becomes one of them.
pub proof fn lemma_f64_narrowed_rules(b: u64, other: nat)
    ensures
        ({
            let g = (b % 0x8000_0000_0000_0000) as nat;
            let exact = units(g, 53);
            let m = if b >= 0x8000_0000_0000_0000 {
                f64_narrowed(b) - 0x8000_0000
            } else {
                f64_narrowed(b) as int
            };
            &&& g > 0x7FF0_0000_0000_0000 ==> f64_narrowed(b) == 0x7FC0_0000
            &&& g == 0x7FF0_0000_0000_0000 ==> m == 0x7F80_0000
            &&& g < 0x7FF0_0000_0000_0000 ==> 0 <= m <= 0x7F80_0000
            &&& g < 0x7FF0_0000_0000_0000 && m < 0x7F80_0000 ==> distance(
                units(m as nat, 24) * p2(925),
                exact,
            ) <= distance(units(other, 24) * p2(925), exact)
        }),
{
    lemma_p2_mono(0, 925);
    let exact = units((b % 0x8000_0000_0000_0000) as nat, 53);
    if nearest(exact, p2(925), 24, 0x7F80_0000) < 0x7F80_0000 {
        lemma_nearest_is_nearest(exact, p2(925), 24, 0x7F80_0000, other);
    }
}

// ---- digits ---------------------------------------------------------------------------

proof fn lemma_leading_zeros(n: nat, s: Seq<char>)
    ensures
        number_of(zeros(n as int) + s, 10) == number_of(s, 10),
    decreases s.len(), n,
{
    let t = zeros(n as int) + s;
    if s.len() > 0 {
        assert(t.drop_last() =~= zeros(n as int) + s.drop_last());
        lemma_leading_zeros(n, s.drop_last());
    } else if n > 0 {
        assert(t.drop_last() =~= zeros(n - 1) + s);
        lemma_leading_zeros((n - 1) as nat, s);
        assert(t.last() == '0');
    } else {
        assert(t =~= s);
    }
}

proof fn lemma_trailing_zeros(s: Seq<char>, n: nat)
    ensures
        number_of(s + zeros(n as int), 10) == number_of(s, 10) * p10(n),
    decreases n,
{
    let t = s + zeros(n as int);
    if n > 0 {
        assert(t.drop_last() =~= s + zeros(n - 1));
        lemma_trailing_zeros(s, (n - 1) as nat);
        let (v, p) = (number_of(s, 10), p10((n - 1) as nat) as int);
        assert(v * p * 10 == v * (10 * p)) by (nonlinear_arith);
    } else {
        assert(t =~= s);
        assert(number_of(s, 10) * 1 == number_of(s, 10));
    }
}

/// Written out without an exponent, `d * 10^k` has all its digits. Below one it is
/// `0.` and the digits after it; with some digits left of the point and some right of
/// it, the digits are those of `d`; and a whole number is followed by as many zeros as
/// it takes, and then by `whole`.
pub proof fn lemma_written_out(d: nat, k: int, whole: Seq<char>) -> (parts: (Seq<char>, Seq<char>))
    ensures
        ({
            let s = decimal(d);
            let at = s.len() + k;
            let (left, right) = parts;
            &&& k >= 0 ==> positional(s, at, whole) == left + whole && right.len() == 0 && number_of(
                left,
                10,
            ) == d * p10(k as nat)
            &&& k < 0 ==> positional(s, at, whole) == left + "."@ + right && right.len() == -k
                && number_of(left + right, 10) == d
            &&& left.len() > 0
        }),
{
    let s = decimal(d);
    let at = s.len() + k;
    lemma_numeral(d, 10);
    if k >= 0 {
        let left = s + zeros(k);
        lemma_trailing_zeros(s, k as nat);
        assert(positional(s, at, whole) =~= left + whole);
        (left, Seq::empty())
    } else if at <= 0 {
        let left = seq!['0'];
        let right = zeros(-at) + s;
        lemma_leading_zeros((1 - at) as nat, s);
        assert(left + right =~= zeros(1 - at) + s);
        reveal_strlit("0.");
        reveal_strlit(".");
        assert("0."@ =~= left + "."@);
        assert(positional(s, at, whole) =~= left + "."@ + right);
        (left, right)
    } else {
        let (left, right) = (s.take(at), s.skip(at));
        assert(left + right =~= s);
        (left, right)
    }
}

/// With an exponent, `d * 10^k` is written with one digit left of the point: the
/// digits are those of `d`, and the power is that of the first of them.
pub proof fn lemma_written_with_exponent(d: nat, k: int)
    ensures
        ({
            let s = decimal(d);
            let power = signed_decimal(k + s.len() - 1);
            &&& s.len() == 1 ==> exponential(s, s.len() + k) == s + "e"@ + power
            &&& s.len() > 1 ==> exponential(s, s.len() + k) == s.take(1) + "."@ + s.skip(1) + "e"@
                + power
        }),
{
    lemma_numeral(d, 10);
}

/// What is shown of an fp32 number: NaN and the infinities by name, and every other
/// number as its shortest decimal, written out, with its sign.
pub proof fn lemma_f32_shown(b: u32)
    ensures
        ({
            let m = (b % 0x8000_0000) as nat;
            let sign = if b >= 0x8000_0000 {
                "-"@
            } else {
                ""@
            };
            let (d, k) = shortest(m, 24, 149);
            let s = decimal(d);
            &&& m > 0x7F80_0000 ==> f32_display(b) == "NaN"@ && f32_debug(b) == "NaN"@
            &&& m == 0x7F80_0000 ==> f32_display(b) == sign + "inf"@ && f32_debug(b) == sign + "inf"@
            &&& m == 0 ==> f32_display(b) == sign + "0"@ && f32_debug(b) == sign + "0.0"@
            &&& 0 < m < 0x7F80_0000 ==> f32_display(b) == sign + positional(s, s.len() + k, ""@)
            &&& 0x38D1_B717 <= m < 0x5A0E_1BCA ==> f32_debug(b) == sign + positional(
                s,
                s.len() + k,
                ".0"@,
            )
            &&& 0 < m < 0x38D1_B717 || 0x5A0E_1BCA <= m < 0x7F80_0000 ==> f32_debug(b) == sign
                + exponential(s, s.len() + k)
        }),
{
}

/// What is shown of an fp64 number, in the same way.
pub proof fn lemma_f64_shown(b: u64)
    ensures
        ({
            let m = (b % 0x8000_0000_0000_0000) as nat;
            let sign = if b >= 0x8000_0000_0000_0000 {
                "-"@
            } else {
                ""@
            };
            let (d, k) = shortest(m, 53, 1074);
            let s = decimal(d);
            &&& m > 0x7FF0_0000_0000_0000 ==> f64_display(b) == "NaN"@
            &&& m == 0x7FF0_0000_0000_0000 ==> f64_display(b) == sign + "inf"@
            &&& m == 0 ==> f64_display(b) == sign + "0"@
            &&& 0 < m < 0x7FF0_0000_0000_0000 ==> f64_display(b) == sign + positional(
                s,
                s.len() + k,
                ""@,
            )
        }),
{
}

} // verus!
