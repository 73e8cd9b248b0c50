//! Floating-point numbers in decimal: the shortest decimal that reads back as
//! the number.

use crate::float_bits::{
    distance, f32_mag, f32_neg, lemma_floor_log2_unique, lemma_p2_add, lemma_p2_mono, lemma_p2_values, lemma_quotient,
    lemma_quotient_is, lemma_units, lemma_units_monotone, nearest, p2, pow2_u64, units,
};
use crate::natural::Natural;
use crate::text::{
    decimal, numeral, push_chars, push_decimal, push_repeated, push_signed, push_text,
    signed_decimal, to_chars,
};
use vstd::prelude::*;

verus! {

// ---- what the shortest decimal is -----------------------------------------------------

/// Ten to the power `n`.
pub open spec fn p10(n: nat) -> nat
    decreases n,
{
    if n == 0 {
        1
    } else {
        10 * p10((n - 1) as nat)
    }
}

/// The lowest point, in half units, from which numbers are read as the pattern
/// `g`: halfway to the pattern below. `p` is the number of significant bits.
pub open spec fn lower(g: nat, p: nat) -> nat {
    units((g - 1) as nat, p) + units(g, p)
}

/// The highest such point: halfway to the pattern above.
pub open spec fn upper(g: nat, p: nat) -> nat {
    units(g, p) + units(g + 1, p)
}

/// `d * 10^k` in half units of `2^-e`, times [`scale`].
pub open spec fn scaled(d: nat, k: int, e: nat) -> nat {
    d * (p2(e + 1) * p10(if k >= 0 {
        k as nat
    } else {
        0
    }))
}

/// The power of ten that makes `d * 10^k` a whole number.
pub open spec fn scale(k: int) -> nat {
    p10(if k >= 0 {
        0
    } else {
        (-k) as nat
    })
}

/// `d * 10^k` is read as the pattern `g`, whose unit is `2^-e`: it is closer to
/// its number than to any other, or halfway to another and the pattern is even.
pub open spec fn reads_back(g: nat, p: nat, e: nat, d: nat, k: int) -> bool {
    let x = scaled(d, k, e);
    let (lo, hi) = (lower(g, p) * scale(k), upper(g, p) * scale(k));
    lo < x < hi || (g % 2 == 0 && (x == lo || x == hi))
}

/// How far `d * 10^k` is from the number of a pattern.
pub open spec fn off(g: nat, p: nat, e: nat, d: nat, k: int) -> nat {
    distance(scaled(d, k, e), 2 * units(g, p) * scale(k))
}

/// `d * 10^k` is the shortest decimal of a pattern: no multiple of a higher power
/// of ten reads back, and no other multiple of this one that does is closer to
/// the number. Of two that are as close, it is the larger.
pub open spec fn is_shortest(g: nat, p: nat, e: nat, d: nat, k: int) -> bool {
    &&& reads_back(g, p, e, d, k)
    &&& forall|d2: nat, k2: int| k2 > k ==> !#[trigger] reads_back(g, p, e, d2, k2)
    &&& forall|d2: nat| #[trigger]
        reads_back(g, p, e, d2, k) ==> off(g, p, e, d, k) < off(g, p, e, d2, k) || (off(
            g,
            p,
            e,
            d,
            k,
        ) == off(g, p, e, d2, k) && d2 <= d)
}

/// The shortest decimal of a pattern.
pub open spec fn shortest(g: nat, p: nat, e: nat) -> (nat, int) {
    choose|d: nat, k: int| is_shortest(g, p, e, d, k)
}

/// There is only one.
pub proof fn lemma_shortest_unique(g: nat, p: nat, e: nat, d: nat, k: int)
    requires
        is_shortest(g, p, e, d, k),
    ensures
        shortest(g, p, e) == (d, k),
{
    let (d2, k2) = shortest(g, p, e);
    assert(is_shortest(g, p, e, d2, k2));
    assert(reads_back(g, p, e, d2, k2));
    assert(reads_back(g, p, e, d, k));
}

// ---- texts ----------------------------------------------------------------------------

/// `n` zeros.
pub open spec fn zeros(n: int) -> Seq<char> {
    Seq::new(n as nat, |i: int| '0')
}

/// Digits with the point after the first `at` of them. `whole` follows a whole
/// number.
pub open spec fn positional(digits: Seq<char>, at: int, whole: Seq<char>) -> Seq<char> {
    if at <= 0 {
        "0."@ + zeros(-at) + digits
    } else if at < digits.len() {
        digits.take(at) + "."@ + digits.skip(at)
    } else {
        digits + zeros(at - digits.len()) + whole
    }
}

/// Digits with the point after the first, and the power of ten that puts it
/// after `at` of them.
pub open spec fn exponential(digits: Seq<char>, at: int) -> Seq<char> {
    let head = if digits.len() > 1 {
        digits.take(1) + "."@ + digits.skip(1)
    } else {
        digits
    };
    head + "e"@ + signed_decimal(at - 1)
}

/// The digits of the shortest decimal of a pattern, and where the point is.
pub open spec fn digits_of(g: nat, p: nat, e: nat) -> (Seq<char>, int) {
    let (d, k) = shortest(g, p, e);
    (decimal(d), decimal(d).len() + k)
}

/// A minus sign where there is one.
pub open spec fn sign_text(neg: bool) -> Seq<char> {
    if neg {
        "-"@
    } else {
        ""@
    }
}

/// A pattern as it is shown to users, in a format with infinity at `inf`.
pub open spec fn display_text(neg: bool, g: nat, p: nat, e: nat, inf: nat) -> Seq<char> {
    if g > inf {
        "NaN"@
    } else if g == inf {
        sign_text(neg) + "inf"@
    } else if g == 0 {
        sign_text(neg) + "0"@
    } else {
        let (s, at) = digits_of(g, p, e);
        sign_text(neg) + positional(s, at, ""@)
    }
}

/// An fp32 number as it is shown to users: all its digits, without an exponent.
pub open spec fn f32_display(b: u32) -> Seq<char> {
    display_text(f32_neg(b), f32_mag(b), 24, 149, 0x7F80_0000)
}

/// An fp64 number as it is shown to users: all its digits, without an exponent.
pub open spec fn f64_display(b: u64) -> Seq<char> {
    display_text(
        b >= 0x8000_0000_0000_0000,
        (b % 0x8000_0000_0000_0000) as nat,
        53,
        1074,
        0x7FF0_0000_0000_0000,
    )
}

/// An fp32 number as it is shown in diagnostics: with an exponent from `1e16`
/// up and below `1e-4`, with a fraction otherwise.
pub open spec fn f32_debug(b: u32) -> Seq<char> {
    let g = f32_mag(b);
    let sign = sign_text(f32_neg(b));
    if g > 0x7F80_0000 {
        "NaN"@
    } else if g == 0x7F80_0000 {
        sign + "inf"@
    } else if g == 0 {
        sign + "0.0"@
    } else {
        let (s, at) = digits_of(g, 24, 149);
        if g >= 0x5A0E_1BCA || g < 0x38D1_B717 {
            sign + exponential(s, at)
        } else {
            sign + positional(s, at, ".0"@)
        }
    }
}

// ---- powers and gaps ------------------------------------------------------------------

proof fn lemma_p10_add(a: nat, b: nat)
    ensures
        p10(a + b) == p10(a) * p10(b),
    decreases b,
{
    if b > 0 {
        lemma_p10_add(a, (b - 1) as nat);
        assert((a + b - 1) as nat == a + (b - 1) as nat);
        let (x, y) = (p10(a), p10((b - 1) as nat));
        assert(10 * (x * y) == x * (10 * y)) by (nonlinear_arith);
    } else {
        assert(p10(a) * 1 == p10(a));
    }
}

proof fn lemma_p10_mono(a: nat, b: nat)
    requires
        a <= b,
    ensures
        1 <= p10(a) <= p10(b),
    decreases b,
{
    if a < b {
        lemma_p10_mono(a, (b - 1) as nat);
    } else if a > 0 {
        lemma_p10_mono((a - 1) as nat, (a - 1) as nat);
    }
}

/// A power of ten is above the power of eight, and of two.
proof fn lemma_p10_above(n: nat)
    ensures
        p2(3 * n) <= p10(n),
        p2(n) <= p10(n),
    decreases n,
{
    if n > 0 {
        lemma_p10_above((n - 1) as nat);
        reveal_with_fuel(p2, 5);
        assert(3 * n == 3 * (n - 1) + 3);
    }
}

/// The power of two by which a pattern is spaced.
spec fn spacing(g: nat, p: nat) -> nat {
    let half = p2((p - 1) as nat);
    if g < half {
        0
    } else {
        (g / half - 1) as nat
    }
}

/// The next pattern is one spacing away.
proof fn lemma_gap(g: nat, p: nat)
    requires
        p >= 1,
    ensures
        units(g + 1, p) == units(g, p) + p2(spacing(g, p)),
{
    let half = p2((p - 1) as nat);
    lemma_p2_mono(0, (p - 1) as nat);
    lemma_quotient(g, half);
    let (f, m) = (g / half, g % half);
    let c = p2(spacing(g, p));
    reveal_with_fuel(p2, 2);
    if g < half {
        assert(0 * half == 0 && (0 + 1) * half == half) by (nonlinear_arith);
        lemma_quotient_is(g, half, 0);
        assert(f * half == 0);
    } else {
        assert(f >= 1) by (nonlinear_arith)
            requires
                g == f * half + m,
                g >= half,
                m < half,
        ;
    }
    if m + 1 < half {
        assert((g + 1) as nat == f * half + (m + 1));
        assert(f * half <= g + 1 < (f + 1) * half) by (nonlinear_arith)
            requires
                g == f * half + m,
                m + 1 < half,
        ;
        lemma_quotient_is((g + 1) as nat, half, f);
        lemma_quotient((g + 1) as nat, half);
        assert((g + 1) % half == m + 1);
        if f > 0 {
            assert((m + 1 + half) * c == (m + half) * c + c) by (nonlinear_arith);
        }
    } else {
        assert(g + 1 == (f + 1) * half) by (nonlinear_arith)
            requires
                g == f * half + m,
                m + 1 == half,
        ;
        assert((f + 1) * half < (f + 2) * half) by (nonlinear_arith)
            requires
                half > 0,
        ;
        lemma_quotient_is((g + 1) as nat, half, f + 1);
        lemma_quotient((g + 1) as nat, half);
        assert((g + 1) % half == 0);
        assert(units(g + 1, p) == (0 + half) * p2(f));
        if f == 0 {
            assert(half * 1 == half);
        } else {
            assert(p2(f) == 2 * c);
            assert(half * (2 * c) == (m + half) * c + c) by (nonlinear_arith)
                requires
                    m + 1 == half,
            ;
        }
    }
}

// ---- digit by digit -------------------------------------------------------------------

/// `d` multiples of `unit` are read as the pattern, where `ten` is the number
/// of parts into which a half unit is split.
spec fn reads_scaled(g: nat, p: nat, unit: nat, ten: nat, d: nat) -> bool {
    let x = d * unit;
    let (lo, hi) = (lower(g, p) * ten, upper(g, p) * ten);
    lo < x < hi || (g % 2 == 0 && (x == lo || x == hi))
}

/// What is read of multiples of `10^(top - j)`, and how far they are, with all
/// that is compared multiplied by the same factor.
proof fn lemma_scaled(g: nat, p: nat, e: nat, top: nat, j: nat, d: nat) -> (c: nat)
    ensures
        c > 0,
        reads_back(g, p, e, d, top - j) == reads_scaled(
            g,
            p,
            p2(e + 1) * p10(top),
            p10(j),
            d,
        ),
        d * (p2(e + 1) * p10(top)) == c * scaled(d, top - j, e),
        2 * units(g, p) * p10(j) == c * (2 * units(g, p) * scale(top - j)),
        c == (if j <= top {
            p10(j)
        } else {
            p10(top)
        }),
{
    let k = top - j;
    let w = p2(e + 1);
    let c = if j <= top {
        p10(j)
    } else {
        p10(top)
    };
    lemma_p10_mono(0, j);
    lemma_p10_mono(0, top);
    let t = if k >= 0 {
        p10(k as nat)
    } else {
        1
    };
    let s = scale(k);
    if j <= top {
        lemma_p10_add(k as nat, j);
        assert(p10(top) == t * c && p10(j) == c * s) by (nonlinear_arith)
            requires
                p10(top) == p10(k as nat) * p10(j),
                t == p10(k as nat),
                c == p10(j),
                s == 1,
        ;
    } else {
        lemma_p10_add(top, (-k) as nat);
        assert(p10(top) == t * c) by (nonlinear_arith)
            requires
                t == 1,
                c == p10(top),
        ;
    }
    let x = scaled(d, k, e);
    assert(x == d * (w * t));
    assert(d * (w * p10(top)) == c * x) by (nonlinear_arith)
        requires
            x == d * (w * t),
            p10(top) == t * c,
    ;
    let (lo, hi, a) = (lower(g, p), upper(g, p), 2 * units(g, p));
    let ten = p10(j);
    assert(lo * ten == c * (lo * s)) by (nonlinear_arith)
        requires
            ten == c * s,
    ;
    assert(hi * ten == c * (hi * s)) by (nonlinear_arith)
        requires
            ten == c * s,
    ;
    assert(a * ten == c * (a * s)) by (nonlinear_arith)
        requires
            ten == c * s,
    ;
    let (l, h) = (lo * s, hi * s);
    assert((c * l < c * x) == (l < x)) by (nonlinear_arith)
        requires
            c > 0,
    ;
    assert((c * x < c * h) == (x < h)) by (nonlinear_arith)
        requires
            c > 0,
    ;
    assert((c * x == c * l) == (x == l)) by (nonlinear_arith)
        requires
            c > 0,
    ;
    assert((c * x == c * h) == (x == h)) by (nonlinear_arith)
        requires
            c > 0,
    ;
    c
}

/// The point that the digits have come to: `d` units and `r` of the number, and
/// what the digits so far leave to the sides.
spec fn at_point(g: nat, p: nat, unit: nat, ten: nat, d: nat, r: nat, lo: nat, hi: nat) -> bool {
    &&& 2 * units(g, p) * ten == d * unit + r
    &&& r < unit
    &&& lo == (2 * units(g, p) - lower(g, p)) * ten
    &&& hi == (upper(g, p) - 2 * units(g, p)) * ten
    &&& lower(g, p) <= 2 * units(g, p) <= upper(g, p)
}

/// The lower neighbour reads back.
spec fn down(g: nat, r: nat, lo: nat) -> bool {
    r < lo || (g % 2 == 0 && r == lo)
}

/// The upper neighbour reads back.
spec fn up(g: nat, unit: nat, r: nat, hi: nat) -> bool {
    unit < r + hi || (g % 2 == 0 && unit == r + hi)
}

/// What reads back lies between the sides.
proof fn lemma_sides(
    g: nat,
    p: nat,
    unit: nat,
    ten: nat,
    d: nat,
    r: nat,
    lo: nat,
    hi: nat,
    d2: nat,
)
    requires
        at_point(g, p, unit, ten, d, r, lo, hi),
    ensures
        d2 <= d && reads_scaled(g, p, unit, ten, d2) ==> down(g, r, lo),
        d2 > d && reads_scaled(g, p, unit, ten, d2) ==> up(g, unit, r, hi),
        d2 == d && down(g, r, lo) && hi > 0 ==> reads_scaled(g, p, unit, ten, d2),
        d2 == d + 1 && up(g, unit, r, hi) && lo > 0 ==> reads_scaled(g, p, unit, ten, d2),
{
    let a = 2 * units(g, p);
    let (l, h) = (lower(g, p), upper(g, p));
    assert(l * ten == a * ten - lo) by (nonlinear_arith)
        requires
            lo == (a - l) * ten,
    ;
    assert(h * ten == a * ten + hi) by (nonlinear_arith)
        requires
            hi == (h - a) * ten,
    ;
    if d2 <= d {
        assert(d2 * unit <= d * unit) by (nonlinear_arith)
            requires
                d2 <= d,
        ;
    } else {
        assert(d2 * unit >= d * unit + unit) by (nonlinear_arith)
            requires
                d2 >= d + 1,
        ;
        assert((d + 1) * unit == d * unit + unit) by (nonlinear_arith);
    }
}

/// How far a multiple is from the number.
proof fn lemma_off(g: nat, p: nat, e: nat, top: nat, j: nat, d: nat)
    ensures
        ({
            let c = if j <= top {
                p10(j)
            } else {
                p10(top)
            };
            distance(d * (p2(e + 1) * p10(top)), 2 * units(g, p) * p10(j)) == c * off(
                g,
                p,
                e,
                d,
                top - j,
            )
        }),
{
    let c = lemma_scaled(g, p, e, top, j, d);
    let x = scaled(d, top - j, e);
    let y = 2 * units(g, p) * scale(top - j);
    assert((c * x < c * y) == (x < y)) by (nonlinear_arith)
        requires
            c > 0,
    ;
    assert(c * y - c * x == c * (y - x)) by (nonlinear_arith);
    assert(c * x - c * y == c * (x - y)) by (nonlinear_arith);
}

/// Of the two neighbours, the one that reads back and is closer is the shortest.
proof fn lemma_chosen(
    g: nat,
    p: nat,
    e: nat,
    top: nat,
    j: nat,
    d: nat,
    r: nat,
    lo: nat,
    hi: nat,
    res: nat,
)
    requires
        at_point(g, p, p2(e + 1) * p10(top), p10(j), d, r, lo, hi),
        lo > 0,
        hi > 0,
        down(g, r, lo) || up(g, p2(e + 1) * p10(top), r, hi),
        res == (if up(g, p2(e + 1) * p10(top), r, hi) && (!down(g, r, lo) || 2 * r >= p2(e + 1)
            * p10(top)) {
            d + 1
        } else {
            d
        }),
        forall|d2: nat, k2: int| k2 > top - j ==> !#[trigger] reads_back(g, p, e, d2, k2),
    ensures
        is_shortest(g, p, e, res, top - j),
{
    let unit = p2(e + 1) * p10(top);
    let ten = p10(j);
    let k = top - j;
    let a = 2 * units(g, p) * ten;
    lemma_scaled(g, p, e, top, j, res);
    lemma_sides(g, p, unit, ten, d, r, lo, hi, res);
    assert(reads_back(g, p, e, res, k));
    let c = if j <= top {
        p10(j)
    } else {
        p10(top)
    };
    assert forall|d2: nat| #[trigger] reads_back(g, p, e, d2, k) implies off(g, p, e, res, k) < off(
        g,
        p,
        e,
        d2,
        k,
    ) || (off(g, p, e, res, k) == off(g, p, e, d2, k) && d2 <= res) by {
        lemma_scaled(g, p, e, top, j, d2);
        lemma_sides(g, p, unit, ten, d, r, lo, hi, d2);
        lemma_off(g, p, e, top, j, d2);
        lemma_off(g, p, e, top, j, res);
        let (u, v) = (off(g, p, e, res, k), off(g, p, e, d2, k));
        let (x, y) = (distance(res * unit, a), distance(d2 * unit, a));
        assert((d + 1) * unit == d * unit + unit) by (nonlinear_arith);
        if d2 <= d {
            if d2 < d {
                assert(d2 * unit + unit <= d * unit) by (nonlinear_arith)
                    requires
                        d2 + 1 <= d,
                ;
            }
        } else if d2 > d + 1 {
            assert(d2 * unit >= d * unit + 2 * unit) by (nonlinear_arith)
                requires
                    d2 >= d + 2,
            ;
        }
        assert(x < y || (x == y && d2 <= res));
        lemma_p10_mono(0, j);
        lemma_p10_mono(0, top);
        assert((c * u < c * v) == (u < v)) by (nonlinear_arith)
            requires
                c > 0,
        ;
        assert((c * u == c * v) == (u == v)) by (nonlinear_arith)
            requires
                c > 0,
        ;
    }
}

/// The number of a pattern as a significand and a power of two.
fn parts(g: u64, p: u32) -> (r: (u64, u32))
    requires
        2 <= p <= 53,
        (g as nat) < 2047 * p2((p - 1) as nat),
    ensures
        units(g as nat, p as nat) == r.0 as nat * p2(r.1 as nat),
        r.1 as nat == spacing(g as nat, p as nat),
        r.1 <= 2046,
{
    proof {
        lemma_p2_mono((p - 1) as nat, 52);
        lemma_p2_mono(0, (p - 1) as nat);
        assert(p2(52) == 0x10_0000_0000_0000) by {
            lemma_p2_values();
            lemma_p2_add(24, 28);
            lemma_p2_add(24, 4);
            reveal_with_fuel(p2, 5);
        }
    }
    let half: u64 = pow2_u64(p - 1);
    let f: u64 = g / half;
    let m: u64 = g % half;
    proof {
        assert(m * p2(0) == m) by (nonlinear_arith)
            requires
                p2(0) == 1,
        ;
    }
    proof {
        lemma_quotient(g as nat, half as nat);
        let (x, y) = (f as nat, half as nat);
        assert(x < 2047) by (nonlinear_arith)
            requires
                x * y <= g < 2047 * y,
        ;
        assert(x == 0 <==> (g as nat) < y) by (nonlinear_arith)
            requires
                g == x * y + m,
                m < y,
        ;
    }
    if f == 0 {
        (m, 0)
    } else {
        (m + half, (f - 1) as u32)
    }
}

/// The number times a power of a small base.
fn times_power(n: Natural, base: u32, count: u32) -> (r: Natural)
    requires
        base == 2 || base == 10,
    ensures
        base == 2 ==> r@ == n@ * p2(count as nat),
        base == 10 ==> r@ == n@ * p10(count as nat),
{
    let mut r = n;
    let ghost start = n@;
    let mut i: u32 = 0;
    proof {
        assert(start * 1 == start);
    }
    while i < count
        invariant
            base == 2 || base == 10,
            i <= count,
            base == 2 ==> r@ == start * p2(i as nat),
            base == 10 ==> r@ == start * p10(i as nat),
        decreases count - i,
    {
        proof {
            let (x, y) = (p2(i as nat), p10(i as nat));
            assert((start * x) * 2 == start * (2 * x)) by (nonlinear_arith);
            assert((start * y) * 10 == start * (10 * y)) by (nonlinear_arith);
        }
        r = r.times(base);
        i = i + 1;
    }
    r
}

/// A pattern that is not zero, in a format whose numbers are all below
/// `10^top`.
spec fn in_format(g: nat, p: nat, e: nat, top: nat) -> bool {
    &&& 2 <= p <= 53
    &&& e <= 1074
    &&& top <= 342
    &&& 0 < g < 2047 * p2((p - 1) as nat)
    &&& upper(g, p) < p2(e + 1) * p10(top)
}

/// No multiple of a power above the numbers of the format reads back.
proof fn lemma_above(g: nat, p: nat, e: nat, top: nat)
    requires
        in_format(g, p, e, top),
    ensures
        forall|d2: nat, k2: int| k2 > top ==> !#[trigger] reads_back(g, p, e, d2, k2),
{
    lemma_between(g, p);
    lemma_p2_mono(0, spacing(g, p));
    assert forall|d2: nat, k2: int| k2 > top implies !#[trigger] reads_back(g, p, e, d2, k2) by {
        let w = p2(e + 1);
        let (x, y) = (p10(top), p10(k2 as nat));
        lemma_p10_mono(top, k2 as nat);
        let (l, h, c) = (lower(g, p), upper(g, p), scale(k2));
        assert(c == 1);
        assert(l * c == l && h * c == h) by (nonlinear_arith)
            requires
                c == 1,
        ;
        assert(scaled(d2, k2, e) == d2 * (w * y));
        if d2 == 0 {
            assert(d2 * (w * y) == 0) by (nonlinear_arith)
                requires
                    d2 == 0,
            ;
        } else {
            assert(d2 * (w * y) >= w * x) by (nonlinear_arith)
                requires
                    d2 >= 1,
                    y >= x,
                    w >= 0,
            ;
        }
    }
}

/// How a pattern lies between its neighbours.
proof fn lemma_between(g: nat, p: nat)
    requires
        p >= 2,
        g > 0,
    ensures
        lower(g, p) > 0,
        2 * units(g, p) - lower(g, p) == p2(spacing((g - 1) as nat, p)),
        upper(g, p) - 2 * units(g, p) == p2(spacing(g, p)),
        2 * units(g, p) <= p2((p + 2) as nat) * p2(spacing((g - 1) as nat, p)),
        units(g, p) > 0,
{
    let b = (g - 1) as nat;
    let half = p2((p - 1) as nat);
    lemma_gap(g, p);
    lemma_gap(b, p);
    let s = p2(spacing(b, p));
    lemma_p2_mono(0, spacing(b, p));
    lemma_p2_mono(0, (p - 1) as nat);
    reveal_with_fuel(p2, 4);
    assert(p2((p + 2) as nat) == 8 * half);
    // the pattern below is less than twice the half, in its own spacing
    lemma_quotient(b, half);
    let m = b % half;
    if b < half {
        lemma_units(b, p);
        assert(units(b, p) < half);
        assert(2 * (units(b, p) + 1) <= (8 * half) * 1);
    } else {
        assert(b / half >= 1) by (nonlinear_arith)
            requires
                b == (b / half) * half + m,
                b >= half,
                m < half,
        ;
        assert(units(b, p) == (m + half) * s);
        assert(2 * ((m + half) * s + s) <= (8 * half) * s) by (nonlinear_arith)
            requires
                m < half,
                half >= 1,
        ;
    }
}

/// The shortest decimal of a pattern, as its digits and a power of ten.
fn shortest_of(g: u64, p: u32, e: u32, top: u32) -> (r: (u64, i32))
    requires
        in_format(g as nat, p as nat, e as nat, top as nat),
    ensures
        is_shortest(g as nat, p as nat, e as nat, r.0 as nat, r.1 as int),
        (r.0 as nat, r.1 as int) == shortest(g as nat, p as nat, e as nat),
        -2000 <= r.1 <= 342,
{
    let ghost (gn, pn, en, tn) = (g as nat, p as nat, e as nat, top as nat);
    let ghost unit_n = p2(en + 1) * p10(tn);
    let ghost a = 2 * units(gn, pn);
    let ghost (gap_lo, gap_hi) = (
        (a - lower(gn, pn)) as nat,
        (upper(gn, pn) - a) as nat,
    );
    proof {
        lemma_between(gn, pn);
        lemma_above(gn, pn, en, tn);
        lemma_p2_mono(0, spacing(gn, pn));
        lemma_p2_mono(0, spacing((gn - 1) as nat, pn));
    }
    let (m, s) = parts(g, p);
    let (_, s0) = parts(g - 1, p);
    let one = Natural::from_u64(1);
    let unit = times_power(times_power(one, 2, e + 1), 10, top);
    assert(unit@ == unit_n) by {
        assert(1 * p2(en + 1) == p2(en + 1));
    }
    let mut r = times_power(Natural::from_u64(m), 2, s + 1);
    assert(r@ == a) by {
        let (x, y) = (m as nat, p2(s as nat));
        assert(p2((s + 1) as nat) == 2 * y);
        assert(x * (2 * y) == 2 * (x * y)) by (nonlinear_arith);
    }
    let mut lo = times_power(Natural::from_u64(1), 2, s0);
    let mut hi = times_power(Natural::from_u64(1), 2, s);
    let even: bool = g % 2 == 0;
    let mut d: u64 = 0;
    let mut j: u32 = 0;
    proof {
        assert(1 * p2(s0 as nat) == p2(s0 as nat) && 1 * p2(s as nat) == p2(s as nat));
        assert(p10(0) == 1);
        assert(a * 1 == a && gap_lo * 1 == gap_lo && gap_hi * 1 == gap_hi);
        assert(0 * unit_n == 0);
    }
    loop
        invariant_except_break
            forall|d2: nat, k2: int|
                k2 > tn - j ==> !#[trigger] reads_back(gn, pn, en, d2, k2),
            d <= 0x500_0000_0000_0000,
        invariant
            in_format(gn, pn, en, tn),
            gn == g,
            pn == p,
            en == e,
            tn == top,
            even == (gn % 2 == 0),
            unit@ == unit_n,
            unit_n == p2(en + 1) * p10(tn),
            a == 2 * units(gn, pn),
            gap_lo == a - lower(gn, pn),
            gap_hi == upper(gn, pn) - a,
            gap_lo > 0,
            gap_hi > 0,
            lower(gn, pn) > 0,
            a <= p2(pn + 2) * gap_lo,
            at_point(gn, pn, unit_n, p10(j as nat), d as nat, r@, lo@, hi@),
            lo@ == gap_lo * p10(j as nat),
            hi@ == gap_hi * p10(j as nat),
            j <= 2000,
            d <= 0x500_0000_0000_0000,
        ensures
            forall|d2: nat, k2: int|
                k2 > tn - j ==> !#[trigger] reads_back(gn, pn, en, d2, k2),
            down(gn, r@, lo@) || up(gn, unit_n, r@, hi@),
        decreases 2000 - j,
    {
        let ghost ten = p10(j as nat);
        proof {
            lemma_p10_mono(0, j as nat);
        }
        let lower_ok: bool = r.less(&lo) || (even && !lo.less(&r));
        let sum = r.plus(&hi);
        let upper_ok: bool = unit.less(&sum) || (even && !sum.less(&unit));
        if lower_ok || upper_ok {
            break;
        }
        proof {
            assert forall|d2: nat, k2: int| k2 > tn - (j + 1) implies !#[trigger] reads_back(
                gn,
                pn,
                en,
                d2,
                k2,
            ) by {
                if k2 == tn - j {
                    lemma_scaled(gn, pn, en, tn, j as nat, d2);
                    lemma_sides(gn, pn, unit_n, ten, d as nat, r@, lo@, hi@, d2);
                }
            }
            lemma_step_bounds(pn, en, tn, j as nat, a, gap_lo, d as nat, r@);
        }
        let ghost (d0, r0) = (d as nat, r@);
        r = r.times(10);
        lo = lo.times(10);
        hi = hi.times(10);
        let mut q: u64 = 0;
        assert(0 * unit_n == 0);
        while !r.less(&unit)
            invariant
                unit@ == unit_n,
                unit_n > 0,
                r0 < unit_n,
                r0 * 10 == q * unit_n + r@,
                q <= 9,
            decreases r@,
        {
            proof {
                let x = q as nat;
                assert(x < 9) by (nonlinear_arith)
                    requires
                        r0 * 10 >= x * unit_n + unit_n,
                        r0 < unit_n,
                ;
                assert((x + 1) * unit_n == x * unit_n + unit_n) by (nonlinear_arith);
            }
            r = r.minus(&unit);
            q = q + 1;
        }
        proof {
            let x = q as nat;
            assert(p10((j + 1) as nat) == 10 * ten);
            assert(a * (10 * ten) == (10 * d0 + x) * unit_n + r@) by (nonlinear_arith)
                requires
                    a * ten == d0 * unit_n + r0,
                    r0 * 10 == x * unit_n + r@,
            ;
            assert((gap_lo * ten) * 10 == gap_lo * (10 * ten)) by (nonlinear_arith);
            assert((gap_hi * ten) * 10 == gap_hi * (10 * ten)) by (nonlinear_arith);
        }
        d = 10 * d + q;
        j = j + 1;
    }
    let lower_ok: bool = r.less(&lo) || (even && !lo.less(&r));
    let sum = r.plus(&hi);
    let upper_ok: bool = unit.less(&sum) || (even && !sum.less(&unit));
    let twice = r.times(2);
    let res: u64 = if upper_ok && (!lower_ok || !twice.less(&unit)) {
        d + 1
    } else {
        d
    };
    let k: i32 = top as i32 - j as i32;
    proof {
        lemma_p10_mono(0, j as nat);
        let ten = p10(j as nat);
        assert(gap_lo * ten > 0 && gap_hi * ten > 0) by (nonlinear_arith)
            requires
                gap_lo > 0,
                gap_hi > 0,
                ten > 0,
        ;
        lemma_chosen(gn, pn, en, tn, j as nat, d as nat, r@, lo@, hi@, res as nat);
        lemma_shortest_unique(gn, pn, en, res as nat, k as int);
    }
    (res, k)
}

/// While no neighbour reads back, the digits are few.
proof fn lemma_step_bounds(
    p: nat,
    e: nat,
    top: nat,
    j: nat,
    a: nat,
    gap: nat,
    d: nat,
    r: nat,
)
    requires
        2 <= p <= 53,
        e <= 1074,
        top <= 342,
        gap > 0,
        a <= p2(p + 2) * gap,
        a * p10(j) == d * (p2(e + 1) * p10(top)) + r,
        gap * p10(j) <= r < p2(e + 1) * p10(top),
    ensures
        d < 0x80_0000_0000_0000,
        j < 1999,
{
    let unit = p2(e + 1) * p10(top);
    let ten = p10(j);
    let b = p2(p + 2);
    lemma_p10_mono(0, j);
    lemma_p2_mono(p + 2, 55);
    lemma_p2_mono(0, p + 2);
    assert(p2(55) == 0x80_0000_0000_0000) by {
        lemma_p2_values();
        lemma_p2_add(24, 31);
    }
    assert(a * ten <= b * (gap * ten)) by (nonlinear_arith)
        requires
            a <= b * gap,
    ;
    let near = gap * ten;
    assert(d < b) by (nonlinear_arith)
        requires
            d * unit <= b * near,
            near < unit,
            b > 0,
    ;
    assert(ten <= gap * ten) by (nonlinear_arith)
        requires
            gap >= 1,
    ;
    if j >= 1999 {
        lemma_p10_above(e + 1);
        lemma_p10_add(e + 1, top);
        lemma_p10_mono(e + 1 + top, j);
        let (x, y, z) = (p2(e + 1), p10(e + 1), p10(top));
        assert(x * z <= y * z) by (nonlinear_arith)
            requires
                x <= y,
        ;
    }
}

/// The patterns below infinity are in their format.
proof fn lemma_in_format(g: nat, p: nat, e: nat, top: nat, f: nat)
    requires
        2 <= p <= 53,
        e <= 1074,
        top <= 342,
        2 <= f <= 2047,
        0 < g < f * p2((p - 1) as nat),
        p + f <= e + 1 + 3 * top,
    ensures
        in_format(g, p, e, top),
{
    let half = p2((p - 1) as nat);
    lemma_p2_mono(0, (p - 1) as nat);
    let inf = f * half;
    assert(inf <= 2047 * half) by (nonlinear_arith)
        requires
            inf == f * half,
            f <= 2047,
    ;
    lemma_units_monotone(g, inf, p);
    lemma_units_monotone(g + 1, inf, p);
    assert(inf < (f + 1) * half) by (nonlinear_arith)
        requires
            inf == f * half,
            half > 0,
    ;
    lemma_quotient_is(inf, half, f);
    lemma_quotient(inf, half);
    assert(inf % half == 0);
    assert(units(inf, p) == (0 + half) * p2((f - 1) as nat));
    lemma_p2_add((p - 1) as nat, (f - 1) as nat);
    let n = ((p - 1) + (f - 1)) as nat;
    assert(units(inf, p) == p2(n));
    assert(upper(g, p) <= p2(n + 1));
    lemma_p10_above(top);
    lemma_p2_add(e + 1, 3 * top);
    lemma_p2_mono(n + 2, e + 1 + 3 * top);
    let (x, y, z) = (p2(e + 1), p2(3 * top), p10(top));
    assert(x * y <= x * z) by (nonlinear_arith)
        requires
            y <= z,
    ;
    reveal_with_fuel(p2, 3);
    lemma_p2_mono(0, n);
}

/// How a finite number that is not zero is written.
#[derive(Copy, Clone)]
enum Style {
    /// All digits; nothing follows a whole number.
    Plain,
    /// All digits, and a fraction in any case.
    Fraction,
    /// With an exponent.
    Exponent,
}

spec fn styled(style: Style, digits: Seq<char>, at: int) -> Seq<char> {
    match style {
        Style::Plain => positional(digits, at, ""@),
        Style::Fraction => positional(digits, at, ".0"@),
        Style::Exponent => exponential(digits, at),
    }
}

fn push_finite(out: &mut String, g: u64, p: u32, e: u32, top: u32, style: Style)
    requires
        in_format(g as nat, p as nat, e as nat, top as nat),
    ensures
        ({
            let (s, at) = digits_of(g as nat, p as nat, e as nat);
            final(out)@ == old(out)@ + styled(style, s, at)
        }),
{
    let (d, k) = shortest_of(g, p, e, top);
    let mut text: String = String::new();
    push_decimal(&mut text, d);
    let digits = to_chars(text.as_str());
    let n: usize = digits.len();
    proof {
        reveal_strlit("");
        reveal_strlit(".");
        assert(text@ =~= decimal(d as nat));
        lemma_decimal_short(d as nat);
    }
    let ghost s = digits@;
    let ghost start = out@;
    let at: i64 = n as i64 + k as i64;
    assert(s.subrange(0, n as int) =~= s);
    match style {
        Style::Exponent => {
            push_chars(out, &digits, 0, 1);
            if n > 1 {
                push_text(out, ".");
                push_chars(out, &digits, 1, n);
            }
            push_text(out, "e");
            push_signed(out, (at - 1) as i32);
            proof {
                assert(s.subrange(0, 1) =~= s.take(1));
                assert(s.subrange(1, n as int) =~= s.skip(1));
                assert(n == 1 ==> s.take(1) =~= s);
                assert(out@ =~= start + exponential(s, at as int));
            }
        },
        _ => {
            if at <= 0 {
                push_text(out, "0.");
                push_repeated(out, '0', (-at) as usize);
                push_chars(out, &digits, 0, n);
                assert(out@ =~= start + ("0."@ + zeros(-at as int) + s));
            } else if (at as usize) < n {
                push_chars(out, &digits, 0, at as usize);
                push_text(out, ".");
                push_chars(out, &digits, at as usize, n);
                proof {
                    assert(s.subrange(0, at as int) =~= s.take(at as int));
                    assert(s.subrange(at as int, n as int) =~= s.skip(at as int));
                    assert(out@ =~= start + (s.take(at as int) + "."@ + s.skip(at as int)));
                }
            } else {
                push_chars(out, &digits, 0, n);
                push_repeated(out, '0', at as usize - n);
                match style {
                    Style::Fraction => push_text(out, ".0"),
                    _ => {},
                }
                assert(out@ =~= start + styled(style, s, at as int));
            }
        },
    }
}

/// A 64-bit number has at least one digit and at most twenty.
proof fn lemma_decimal_short(n: nat)
    requires
        n <= u64::MAX,
    ensures
        1 <= decimal(n).len() <= 20,
{
    reveal_with_fuel(numeral, 21);
}

fn push_sign(out: &mut String, neg: bool)
    ensures
        final(out)@ == old(out)@ + sign_text(neg),
{
    if neg {
        push_text(out, "-");
    } else {
        proof {
            reveal_strlit("");
        }
        assert(out@ + ""@ =~= out@);
    }
}

/// Appends an fp32 number, all its digits without an exponent.
pub fn push_f32(out: &mut String, b: u32)
    ensures
        final(out)@ == old(out)@ + f32_display(b),
{
    let g: u32 = b % 0x8000_0000;
    let ghost start = out@;
    if g > 0x7F80_0000 {
        push_text(out, "NaN");
        return;
    }
    push_sign(out, b >= 0x8000_0000);
    if g == 0x7F80_0000 {
        push_text(out, "inf");
    } else if g == 0 {
        push_text(out, "0");
    } else {
        proof {
            lemma_p2_values();
            lemma_in_format(g as nat, 24, 149, 43, 255);
        }
        push_finite(out, g as u64, 24, 149, 43, Style::Plain);
    }
    assert(out@ =~= start + f32_display(b));
}

/// Appends an fp32 number as it is shown in diagnostics.
pub fn push_f32_debug(out: &mut String, b: u32)
    ensures
        final(out)@ == old(out)@ + f32_debug(b),
{
    let g: u32 = b % 0x8000_0000;
    let ghost start = out@;
    if g > 0x7F80_0000 {
        push_text(out, "NaN");
        return;
    }
    push_sign(out, b >= 0x8000_0000);
    if g == 0x7F80_0000 {
        push_text(out, "inf");
    } else if g == 0 {
        push_text(out, "0.0");
    } else {
        proof {
            lemma_p2_values();
            lemma_in_format(g as nat, 24, 149, 43, 255);
        }
        let style = if g >= 0x5A0E_1BCA || g < 0x38D1_B717 {
            Style::Exponent
        } else {
            Style::Fraction
        };
        push_finite(out, g as u64, 24, 149, 43, style);
    }
    assert(out@ =~= start + f32_debug(b));
}

/// Appends an fp64 number, all its digits without an exponent.
pub fn push_f64(out: &mut String, b: u64)
    ensures
        final(out)@ == old(out)@ + f64_display(b),
{
    let g: u64 = b % 0x8000_0000_0000_0000;
    let ghost start = out@;
    if g > 0x7FF0_0000_0000_0000 {
        push_text(out, "NaN");
        return;
    }
    push_sign(out, b >= 0x8000_0000_0000_0000);
    if g == 0x7FF0_0000_0000_0000 {
        push_text(out, "inf");
    } else if g == 0 {
        push_text(out, "0");
    } else {
        proof {
            lemma_p2_52();
            lemma_in_format(g as nat, 53, 1074, 342, 2047);
        }
        push_finite(out, g, 53, 1074, 342, Style::Plain);
    }
    assert(out@ =~= start + f64_display(b));
}

// ---- reading --------------------------------------------------------------------------

/// Where a number is rounded to a multiple of the spacing that its magnitude
/// gives, the pattern of that multiple is the nearest.
proof fn lemma_rounds_to(x: nat, s: nat, j: nat, n: nat, p: nat, inf: nat)
    requires
        p >= 2,
        s > 0,
        n >= 1,
        j * p2((p - 1) as nat) + n < inf,
        (2 * n - 1) * (s * p2(j)) <= x <= (2 * n + 1) * (s * p2(j)),
        x == (2 * n - 1) * (s * p2(j)) || x == (2 * n + 1) * (s * p2(j)) ==> n % 2 == 0,
        x < 4 * p2((p - 1) as nat) * (s * p2(j)),
        j == 0 || x >= 2 * p2((p - 1) as nat) * (s * p2(j)),
    ensures
        nearest(x, 2 * s, p, inf) == j * p2((p - 1) as nat) + n,
{
    let half = p2((p - 1) as nat);
    let c = p2(j);
    lemma_p2_mono(0, (p - 1) as nat);
    lemma_p2_mono(0, j);
    assert(p2(p) == 2 * half);
    // the spacing
    let den = 2 * s;
    let q = x / den;
    lemma_quotient(x, den);
    assert(q < 2 * half * c) by (nonlinear_arith)
        requires
            q * den <= x,
            x < 4 * half * (s * c),
            den == 2 * s,
            s > 0,
    ;
    if j == 0 {
        assert(2 * half * c == 2 * half) by (nonlinear_arith)
            requires
                c == 1,
        ;
    } else {
        let r = x % den;
        assert(q >= half * c) by (nonlinear_arith)
            requires
                x == q * den + r,
                r < den,
                x >= 2 * half * (s * c),
                den == 2 * s,
                s > 0,
        ;
        lemma_p2_mono(1, j);
        reveal_with_fuel(p2, 2);
        assert(half * c >= 2 * half && 2 * half * c == 2 * (half * c)) by (nonlinear_arith)
            requires
                c >= 2,
                half >= 0,
        ;
        lemma_p2_add((p - 1) as nat, j);
        let l = (p - 1 + j) as nat;
        assert(p2(l + 1) == 2 * p2(l));
        lemma_floor_log2_unique(q, l);
    }
    // the multiple
    let d = den * c;
    assert(d == 2 * (s * c) && s * c > 0) by (nonlinear_arith)
        requires
            d == den * c,
            den == 2 * s,
            s > 0,
            c > 0,
    ;
    let h = s * c;
    let (a, b) = ((2 * n - 1) * h, (2 * n + 1) * h);
    assert(a == n * d - h && b == n * d + h && (n - 1) * d == n * d - d && (n + 1) * d == n * d + d)
        by (nonlinear_arith)
        requires
            d == 2 * h,
            a == (2 * n - 1) * h,
            b == (2 * n + 1) * h,
    ;
    lemma_quotient(x, d);
    if x >= n * d {
        lemma_quotient_is(x, d, n);
    } else {
        lemma_quotient_is(x, d, (n - 1) as nat);
    }
}

/// A decimal that reads back rounds to the pattern: of all numbers of the
/// format, that of the pattern is the nearest to it, a tie going to the even
/// pattern.
pub proof fn lemma_reads_back(g: nat, p: nat, e: nat, d: nat, k: int, inf: nat)
    requires
        p >= 2,
        0 < g < inf,
        reads_back(g, p, e, d, k),
    ensures
        nearest(scaled(d, k, e), 2 * scale(k), p, inf) == g,
{
    let half = p2((p - 1) as nat);
    let x = scaled(d, k, e);
    let s = scale(k);
    lemma_p10_mono(0, if k >= 0 {
        0
    } else {
        (-k) as nat
    });
    lemma_p2_mono(1, (p - 1) as nat);
    reveal_with_fuel(p2, 2);
    let j = spacing(g, p);
    let n = (g - j * half) as nat;
    let c = p2(j);
    lemma_p2_mono(0, j);
    lemma_significand(g, p);
    lemma_gap(g, p);
    lemma_gap((g - 1) as nat, p);
    let u = units(g, p);
    assert(half == 2 * p2((p - 2) as nat));
    assert(g % 2 == n % 2) by {
        let t = p2((p - 2) as nat);
        let y = j * t;
        assert(j * half == 2 * y) by (nonlinear_arith)
            requires
                half == 2 * t,
                y == j * t,
        ;
    }
    let h = s * c;
    assert(upper(g, p) * s == (2 * n + 1) * h) by (nonlinear_arith)
        requires
            upper(g, p) == u + (u + c),
            u == n * c,
            h == s * c,
    ;
    assert((2 * n + 1) * h < 4 * half * h) by (nonlinear_arith)
        requires
            n < 2 * half,
            h == s * c,
            s > 0,
            c > 0,
    ;
    assert(lower(g, p) * s < upper(g, p) * s) by (nonlinear_arith)
        requires
            lower(g, p) < upper(g, p),
            s > 0,
    ;
    if j == 0 || n > half {
        assert(lower(g, p) * s == (2 * n - 1) * h) by (nonlinear_arith)
            requires
                lower(g, p) == (u - c) + u,
                u == n * c,
                h == s * c,
        ;
        if j > 0 {
            assert((2 * n - 1) * h >= 2 * half * h) by (nonlinear_arith)
                requires
                    n > half,
                    h >= 0,
            ;
        }
        lemma_rounds_to(x, s, j, n, p, inf);
    } else if x >= 2 * half * h {
        assert(x == (2 * n - 1) * h ==> false) by (nonlinear_arith)
            requires
                x >= 2 * half * h,
                n == half,
                h == s * c,
                s > 0,
                c > 0,
        ;
        assert((2 * n - 1) * h <= x) by (nonlinear_arith)
            requires
                x >= 2 * half * h,
                n == half,
                h >= 0,
        ;
        lemma_rounds_to(x, s, j, n, p, inf);
    } else {
        // below the first number of its spacing
        let i = (j - 1) as nat;
        let c2 = p2(i);
        assert(c == 2 * c2);
        lemma_p2_mono(0, i);
        let h2 = s * c2;
        let n2 = 2 * half;
        assert(lower(g, p) * s == (2 * n2 - 1) * h2) by (nonlinear_arith)
            requires
                lower(g, p) == (u - c2) + u,
                u == half * c,
                c == 2 * c2,
                h2 == s * c2,
                n2 == 2 * half,
        ;
        assert(2 * half * h == 4 * half * h2 && 4 * half * h2 < (2 * n2 + 1) * h2) by (
        nonlinear_arith)
            requires
                h == s * c,
                c == 2 * c2,
                h2 == s * c2,
                n2 == 2 * half,
                s > 0,
                c2 > 0,
        ;
        assert((2 * n2 - 1) * h2 >= 2 * half * h2) by (nonlinear_arith)
            requires
                n2 == 2 * half,
                half >= 1,
                h2 >= 0,
        ;
        assert(i * half + n2 == j * half + half) by (nonlinear_arith)
            requires
                i == j - 1,
                n2 == 2 * half,
        ;
        lemma_rounds_to(x, s, i, n2, p, inf);
    }
}

/// A pattern as a multiple of its spacing, and the spacing of the pattern below.
proof fn lemma_significand(g: nat, p: nat)
    requires
        p >= 2,
        g > 0,
    ensures
        ({
            let half = p2((p - 1) as nat);
            let j = spacing(g, p);
            let n = g - j * half;
            &&& 0 < n < 2 * half
            &&& j > 0 ==> n >= half
            &&& units(g, p) == n * p2(j)
            &&& spacing((g - 1) as nat, p) == if j > 0 && n == half {
                (j - 1) as nat
            } else {
                j
            }
        }),
{
    let half = p2((p - 1) as nat);
    lemma_p2_mono(0, (p - 1) as nat);
    lemma_units(g, p);
    assert(p2(p) == 2 * half);
    lemma_quotient(g, half);
    lemma_quotient((g - 1) as nat, half);
    let f = g / half;
    let m = g % half;
    let j = spacing(g, p);
    assert(2 * half == half + half && 1 * half == half && 0 * half == 0);
    if g < half {
        assert(j * half == 0);
    } else if g < 2 * half {
        lemma_quotient_is(g, half, 1);
        assert(j * half == 0);
        if g > half {
            lemma_quotient_is((g - 1) as nat, half, 1);
        }
    } else {
        assert(j == f - 1);
        assert((f - 1) * half == f * half - half && (f + 1) * half == f * half + half) by (
        nonlinear_arith);
        if m == 0 {
            lemma_quotient_is((g - 1) as nat, half, (f - 1) as nat);
        } else {
            lemma_quotient_is((g - 1) as nat, half, f);
        }
    }
    assert(g * p2(0) == g) by (nonlinear_arith)
        requires
            p2(0) == 1,
    ;
}

/// Digit by digit, a shortest decimal is found.
proof fn lemma_search(g: nat, p: nat, e: nat, top: nat, j: nat)
    requires
        in_format(g, p, e, top),
        j <= 1999,
        forall|d2: nat, k2: int| k2 > top - j ==> !#[trigger] reads_back(g, p, e, d2, k2),
    ensures
        is_shortest(g, p, e, shortest(g, p, e).0, shortest(g, p, e).1),
    decreases 2000 - j,
{
    let unit = p2(e + 1) * p10(top);
    let ten = p10(j);
    let a = 2 * units(g, p);
    lemma_between(g, p);
    lemma_p10_mono(0, j);
    lemma_p2_mono(0, spacing(g, p));
    lemma_p2_mono(0, spacing((g - 1) as nat, p));
    let (gap_lo, gap_hi) = ((a - lower(g, p)) as nat, (upper(g, p) - a) as nat);
    let (lo, hi) = (gap_lo * ten, gap_hi * ten);
    assert(lo > 0 && hi > 0) by (nonlinear_arith)
        requires
            lo == gap_lo * ten,
            hi == gap_hi * ten,
            gap_lo > 0,
            gap_hi > 0,
            ten > 0,
    ;
    lemma_quotient(a * ten, unit);
    let (d, r) = ((a * ten) / unit, (a * ten) % unit);
    assert(at_point(g, p, unit, ten, d, r, lo, hi));
    if down(g, r, lo) || up(g, unit, r, hi) {
        let res = if up(g, unit, r, hi) && (!down(g, r, lo) || 2 * r >= unit) {
            d + 1
        } else {
            d
        };
        lemma_chosen(g, p, e, top, j, d, r, lo, hi, res);
        lemma_shortest_unique(g, p, e, res, top - j);
    } else {
        assert forall|d2: nat, k2: int| k2 > top - (j + 1) implies !#[trigger] reads_back(
            g,
            p,
            e,
            d2,
            k2,
        ) by {
            if k2 == top - j {
                lemma_scaled(g, p, e, top, j, d2);
                lemma_sides(g, p, unit, ten, d, r, lo, hi, d2);
            }
        }
        lemma_step_bounds(p, e, top, j, a, gap_lo, d, r);
        lemma_search(g, p, e, top, j + 1);
    }
}

/// Every finite fp32 number but zero has a shortest decimal, and reading it gives
/// the number back.
pub proof fn lemma_f32_shortest(b: u32)
    requires
        0 < f32_mag(b) < 0x7F80_0000,
    ensures
        ({
            let (d, k) = shortest(f32_mag(b), 24, 149);
            &&& is_shortest(f32_mag(b), 24, 149, d, k)
            &&& nearest(scaled(d, k, 149), 2 * scale(k), 24, 0x7F80_0000) == f32_mag(b)
        }),
{
    let g = f32_mag(b);
    lemma_p2_values();
    lemma_in_format(g, 24, 149, 43, 255);
    lemma_above(g, 24, 149, 43);
    lemma_search(g, 24, 149, 43, 0);
    let (d, k) = shortest(g, 24, 149);
    lemma_reads_back(g, 24, 149, d, k, 0x7F80_0000);
}

/// Every finite fp64 number but zero has a shortest decimal, and reading it gives
/// the number back. `g` is the bit pattern without its sign.
pub proof fn lemma_f64_shortest(g: nat)
    requires
        0 < g < 0x7FF0_0000_0000_0000,
    ensures
        ({
            let (d, k) = shortest(g, 53, 1074);
            &&& is_shortest(g, 53, 1074, d, k)
            &&& nearest(scaled(d, k, 1074), 2 * scale(k), 53, 0x7FF0_0000_0000_0000) == g
        }),
{
    lemma_p2_52();
    lemma_in_format(g, 53, 1074, 342, 2047);
    lemma_above(g, 53, 1074, 342);
    lemma_search(g, 53, 1074, 342, 0);
    let (d, k) = shortest(g, 53, 1074);
    lemma_reads_back(g, 53, 1074, d, k, 0x7FF0_0000_0000_0000);
}

/// The smallest significand of an fp64 number.
proof fn lemma_p2_52()
    ensures
        p2(52) == 0x10_0000_0000_0000,
{
    lemma_p2_values();
    lemma_p2_add(24, 28);
    lemma_p2_add(24, 4);
    reveal_with_fuel(p2, 5);
}

} // verus!
