//! Conversions and arithmetic on fp32 and fp16 bit patterns, rounded to
//! nearest with ties to even.

use crate::float_bits::{
    f16_mag, f16_neg, f16_pack, f16_units, f32_mag, f32_neg, f32_pack, f32_units, floor_log2,
    lemma_floor_log2, lemma_floor_log2_unique, lemma_nearest_common, lemma_nearest_exact,
    lemma_nearest_of_short, lemma_nearest_scaled, lemma_p2_add, lemma_p2_mono, lemma_p2_values,
    lemma_quotient, lemma_quotient_is, lemma_units, log2_u64, nearest, p2, pack, pow2_u64,
    round_half_even, scaled_den, scaled_num, units, F16_INF, F32_INF,
};
use vstd::prelude::*;

verus! {

/// Whether an fp32 pattern is not a number.
pub open spec fn f32_is_nan(b: u32) -> bool {
    f32_mag(b) > F32_INF
}

/// Whether an fp32 pattern is an infinity.
pub open spec fn f32_is_inf(b: u32) -> bool {
    f32_mag(b) == F32_INF
}

/// Whether an fp32 pattern is a zero.
pub open spec fn f32_is_zero(b: u32) -> bool {
    f32_mag(b) == 0
}

/// Whether an fp16 pattern is not a number.
pub open spec fn f16_is_nan(h: u16) -> bool {
    f16_mag(h) > F16_INF
}

/// Whether an fp16 pattern is an infinity.
pub open spec fn f16_is_inf(h: u16) -> bool {
    f16_mag(h) == F16_INF
}

/// A finite number as a significand and a power of two: `m * 2^e` units.
pub(crate) fn f32_parts(b: u32) -> (r: (u64, u32))
    requires
        f32_mag(b) < F32_INF,
    ensures
        r.0 < 0x100_0000,
        r.1 <= 253,
        f32_units(b) == r.0 as nat * p2(r.1 as nat),
        r.0 == 0 <==> f32_mag(b) == 0,
{
    let g: u32 = b % 0x8000_0000;
    let e: u32 = g / 0x80_0000;
    let m: u32 = g % 0x80_0000;
    proof {
        lemma_p2_values();
        assert(m * p2(0) == m) by (nonlinear_arith)
            requires
                p2(0) == 1,
        ;
    }
    if e == 0 {
        (m as u64, 0)
    } else {
        (m as u64 + 0x80_0000, e - 1)
    }
}

/// A finite number as a significand and a power of two: `m * 2^e` units.
pub(crate) fn f16_parts(h: u16) -> (r: (u64, u32))
    requires
        f16_mag(h) < F16_INF,
    ensures
        r.0 < 0x800,
        r.1 <= 29,
        f16_units(h) == r.0 as nat * p2(r.1 as nat),
{
    let g: u16 = h % 0x8000;
    let e: u16 = g / 0x400;
    let m: u16 = g % 0x400;
    proof {
        lemma_p2_values();
        assert(m * p2(0) == m) by (nonlinear_arith)
            requires
                p2(0) == 1,
        ;
    }
    if e == 0 {
        (m as u64, 0)
    } else {
        (m as u64 + 0x400, e as u32 - 1)
    }
}

/// The fp32 pattern of a sign and a magnitude.
fn join_f32(neg: bool, mag: u32) -> (b: u32)
    requires
        mag < 0x8000_0000,
    ensures
        b as nat == f32_pack(neg, mag as nat),
        f32_neg(b) == neg,
        f32_mag(b) == mag,
{
    if neg {
        0x8000_0000 + mag
    } else {
        mag
    }
}

/// `r` is the fp32 number of the same value as the fp16 number `h`: a finite
/// number keeps its value, `2^-24` being `2^125` times `2^-149`, and the
/// payload of a NaN moves to the high bits.
pub open spec fn widens(h: u16, r: u32) -> bool {
    &&& f32_neg(r) == f16_neg(h)
    &&& if f16_mag(h) < F16_INF {
        f32_mag(r) < F32_INF && f32_units(r) == f16_units(h) * p2(125)
    } else {
        f32_mag(r) == F32_INF + (f16_mag(h) - F16_INF) * 0x2000
    }
}

/// The product of two finite numbers given in parts, where no rounding is
/// needed.
fn exact_product(m: u64, e: u32) -> (r: u32)
    requires
        m < 0x100_0000,
        e <= 253,
    ensures
        r < F32_INF,
        units(r as nat, 24) == m as nat * p2(e as nat),
{
    proof {
        lemma_p2_values();
        lemma_nearest_of_short(m as nat, e as nat, 24, F32_INF as nat);
    }
    pack(m, e as i32, 24, F32_INF)
}

/// The fp32 pattern of the value of an fp16 pattern; the payload of a NaN moves
/// to the high bits.
pub open spec fn widened(h: u16) -> nat {
    f32_pack(
        f16_neg(h),
        if f16_mag(h) < F16_INF {
            nearest(f16_units(h) * p2(125), 1, 24, F32_INF as nat)
        } else {
            (F32_INF + (f16_mag(h) - F16_INF) * 0x2000) as nat
        },
    )
}

/// Half-precision (FP16, IEEE 754 binary16) bit pattern to FP32 bit pattern.
/// The conversion is exact.
pub fn f16_bits_to_f32(bits: u16) -> (r: u32)
    ensures
        r as nat == widened(bits),
        widens(bits, r),
        (r >= 0x8000_0000) == (bits >= 0x8000),
        bits % 0x8000 < 0x7C00 ==> r % 0x8000_0000 < 0x7F80_0000 && f32_units(r) == f16_units(bits)
            * p2(125),
        bits % 0x8000 >= 0x7C00 ==> r % 0x8000_0000 == 0x7F80_0000 + (bits % 0x8000 - 0x7C00)
            * 0x2000,
{
    let neg: bool = bits >= 0x8000;
    let g: u16 = bits % 0x8000;
    if g < F16_INF {
        let (m, e) = f16_parts(bits);
        let mag = exact_product(m, e + 125);
        proof {
            lemma_p2_add(e as nat, 125);
            assert(m * (p2(e as nat) * p2(125)) == (m * p2(e as nat)) * p2(125))
                by (nonlinear_arith);
            assert(f32_units(mag) * 1 == f32_units(mag));
            lemma_nearest_exact(mag as nat, 1, 24, F32_INF as nat);
        }
        join_f32(neg, mag)
    } else {
        join_f32(neg, F32_INF + (g as u32 - 0x7C00) * 0x2000)
    }
}

/// The fp16 pattern that an fp32 pattern is converted to: the nearest one, a
/// tie going to the even one; infinity where the magnitude is too large; and
/// one quiet NaN for every NaN.
pub open spec fn narrowed(b: u32) -> nat {
    f16_pack(
        f32_neg(b),
        if f32_is_nan(b) {
            0x7E00
        } else if f32_is_inf(b) {
            0x7C00
        } else {
            nearest(f32_units(b), p2(125), 11, F16_INF as nat)
        },
    )
}

/// FP32 to FP16 bit pattern, rounded to nearest with ties to even.
pub fn f32_to_f16_bits(value: u32) -> (h: u16)
    ensures
        h as nat == narrowed(value),
{
    let g: u32 = value % 0x8000_0000;
    let mag: u32;
    if g > F32_INF {
        mag = 0x7E00;
    } else if g == F32_INF {
        mag = 0x7C00;
    } else {
        let (m, e) = f32_parts(value);
        proof {
            lemma_nearest_scaled(m as nat, e as nat, 125, 11, F16_INF as nat);
        }
        mag = pack(m, e as i32 - 125, 11, F16_INF as u32);
    }
    if value >= 0x8000_0000 {
        0x8000 + mag as u16
    } else {
        mag as u16
    }
}

/// Widening and narrowing gives back the number: every fp16 number that is no
/// NaN survives the way through fp32.
pub proof fn lemma_f16_round_trip(h: u16, r: u32)
    requires
        !f16_is_nan(h),
        widens(h, r),
    ensures
        narrowed(r) == h,
{
    if f16_mag(h) < F16_INF {
        lemma_p2_mono(0, 125);
        lemma_nearest_exact(f16_mag(h), p2(125), 11, F16_INF as nat);
    }
}

/// Only one pattern stands for a given number: a wide pattern is determined by
/// the narrow one.
pub proof fn lemma_widening_unique(h: u16, a: u32, b: u32)
    requires
        widens(h, a),
        widens(h, b),
    ensures
        a == b,
{
    if f16_mag(h) < F16_INF {
        lemma_nearest_exact(f32_mag(a), 1, 24, F32_INF as nat);
        lemma_nearest_exact(f32_mag(b), 1, 24, F32_INF as nat);
    }
}

// ---- products and quotients -----------------------------------------------------------

/// The quiet NaN that stands for an undefined product or quotient.
pub const F32_NAN: u32 = 0x7FC0_0000;

/// The fp32 product of `x` and `y`: the nearest number to the product of the
/// values.
pub open spec fn product(x: u32, y: u32) -> nat {
    if f32_is_nan(x) || f32_is_nan(y) || (f32_is_inf(x) && f32_is_zero(y)) || (f32_is_zero(x)
        && f32_is_inf(y)) {
        F32_NAN as nat
    } else {
        f32_pack(
            f32_neg(x) != f32_neg(y),
            if f32_is_inf(x) || f32_is_inf(y) {
                F32_INF as nat
            } else {
                nearest(f32_units(x) * f32_units(y), p2(149), 24, F32_INF as nat)
            },
        )
    }
}

/// The fp32 quotient of `x` and `y`: the nearest number to the quotient of the
/// values.
pub open spec fn quotient(x: u32, y: u32) -> nat {
    if f32_is_nan(x) || f32_is_nan(y) || (f32_is_inf(x) && f32_is_inf(y)) || (f32_is_zero(x)
        && f32_is_zero(y)) {
        F32_NAN as nat
    } else {
        f32_pack(
            f32_neg(x) != f32_neg(y),
            if f32_is_inf(x) || f32_is_zero(y) {
                F32_INF as nat
            } else if f32_is_inf(y) {
                0
            } else {
                nearest(f32_units(x) * p2(149), f32_units(y), 24, F32_INF as nat)
            },
        )
    }
}

/// The fp32 product.
pub fn f32_mul(x: u32, y: u32) -> (r: u32)
    ensures
        r as nat == product(x, y),
{
    let gx: u32 = x % 0x8000_0000;
    let gy: u32 = y % 0x8000_0000;
    let neg: bool = (x >= 0x8000_0000) != (y >= 0x8000_0000);
    if gx > F32_INF || gy > F32_INF || (gx == F32_INF && gy == 0) || (gx == 0 && gy == F32_INF) {
        return F32_NAN;
    }
    if gx == F32_INF || gy == F32_INF {
        return join_f32(neg, F32_INF);
    }
    let (mx, ex) = f32_parts(x);
    let (my, ey) = f32_parts(y);
    proof {
        let a = mx as nat;
        let b = my as nat;
        assert(a * b < 0x4000_0000_0000_0000) by (nonlinear_arith)
            requires
                a < 0x100_0000,
                b < 0x100_0000,
        ;
        let i = p2(ex as nat);
        let j = p2(ey as nat);
        assert((a * i) * (b * j) == (a * b) * (i * j)) by (nonlinear_arith);
        lemma_p2_add(ex as nat, ey as nat);
        lemma_nearest_scaled(a * b, (ex + ey) as nat, 149, 24, F32_INF as nat);
        assert(ex as nat + ey as nat == (ex + ey) as nat);
    }
    let mag = pack(mx * my, ex as i32 + ey as i32 - 149, 24, F32_INF);
    join_f32(neg, mag)
}

/// A quotient's integer part with one more bit that tells whether anything is
/// left over rounds to the same as the quotient, at any scale above that bit.
proof fn lemma_sticky(a: nat, d: nat, n: nat, w: nat)
    requires
        d > 0,
        w > 0,
        n == 2 * (a / d) + if a % d == 0 {
            0nat
        } else {
            1nat
        },
    ensures
        round_half_even(a, d * (2 * w)) == round_half_even(n, 2 * (2 * w)),
{
    let m = 2 * w;
    let q = a / d;
    let r = a % d;
    lemma_quotient(a, d);
    lemma_quotient(q, m);
    let g = q / m;
    let x = q % m;
    let b = (n - 2 * q) as nat;
    // a == g * (d * m) + (x * d + r)
    let rem = x * d + r;
    assert(a == g * (d * m) + rem) by (nonlinear_arith)
        requires
            a == q * d + r,
            q == g * m + x,
            rem == x * d + r,
    ;
    assert(rem < d * m) by (nonlinear_arith)
        requires
            rem == x * d + r,
            r < d,
            x + 1 <= m,
    ;
    assert(d * m > 0) by (nonlinear_arith)
        requires
            d > 0,
            m > 0,
    ;
    assert(g * (d * m) <= a < (g + 1) * (d * m)) by (nonlinear_arith)
        requires
            a == g * (d * m) + rem,
            0 <= rem < d * m,
    ;
    lemma_quotient_is(a, d * m, g);
    lemma_quotient(a, d * m);
    // n == g * (2 * m) + (2 * x + b)
    assert(n == g * (2 * m) + (2 * x + b)) by (nonlinear_arith)
        requires
            n == 2 * q + b,
            q == g * m + x,
    ;
    assert(g * (2 * m) <= n < (g + 1) * (2 * m)) by (nonlinear_arith)
        requires
            n == g * (2 * m) + (2 * x + b),
            0 <= 2 * x + b < 2 * m,
    ;
    lemma_quotient_is(n, 2 * m, g);
    lemma_quotient(n, 2 * m);
    // compare x * d + r with w * d, and 2 * x + b with 2 * w
    if x < w {
        assert(rem < w * d) by (nonlinear_arith)
            requires
                rem == x * d + r,
                r < d,
                x + 1 <= w,
        ;
    } else {
        assert(rem >= w * d && (x > w ==> rem > w * d)) by (nonlinear_arith)
            requires
                rem == x * d + r,
                x >= w,
                d > 0,
        ;
        assert(x == w ==> rem == w * d + r);
    }
    assert(d * m == 2 * (w * d)) by (nonlinear_arith)
        requires
            m == 2 * w,
    ;
}

/// A quotient of two integers, scaled by a power of two, is rounded by way of
/// its integer part and the bit that tells whether anything is left over.
proof fn lemma_nearest_sticky(a: nat, d: nat, n: nat, t: int, p: nat, inf: nat)
    requires
        d > 0,
        p >= 1,
        a / d >= p2(p + 1),
        n == 2 * (a / d) + if a % d == 0 {
            0nat
        } else {
            1nat
        },
    ensures
        nearest(scaled_num(a, t), d * scaled_den(t), p, inf) == nearest(
            scaled_num(n, t - 1),
            scaled_den(t - 1),
            p,
            inf,
        ),
{
    let q = a / d;
    lemma_quotient(a, d);
    lemma_p2_mono(0, p + 1);
    lemma_floor_log2(q);
    let h = floor_log2(q);
    if h < p + 1 {
        lemma_p2_mono(h + 1, p + 1);
    }
    // both magnitudes have their leading bit at h + t
    lemma_ratio_top(a, d, h, t, p);
    assert(p2(h + 1) == 2 * p2(h));
    assert(p2(h + 1 + 1) == 2 * p2(h + 1));
    lemma_ratio_top(n, 1, h + 1, t - 1, p);
    let den = scaled_den(t - 1);
    assert(1 * den == den);
    let k = if h + t < p {
        0
    } else {
        (h + t - (p - 1)) as nat
    };
    // the quotient is rounded to multiples of 2^e
    let e = (k - t) as nat;
    assert(k - t >= 1);
    let w = p2((e - 1) as nat);
    lemma_p2_mono(0, (e - 1) as nat);
    assert(p2(e) == 2 * w);
    lemma_sticky(a, d, n, w);
    lemma_ratio_round(a, d, t, k);
    lemma_ratio_round(n, 1, t - 1, k);
    assert(p2((k - (t - 1)) as nat) == 2 * p2(e)) by {
        assert((k - (t - 1)) as nat == e + 1);
    }
    assert(1 * p2((k - (t - 1)) as nat) == p2((k - (t - 1)) as nat));
    assert(1 * scaled_den(t - 1) * p2(k) == scaled_den(t - 1) * p2(k));
}

/// Where the leading bit of a scaled quotient stands.
proof fn lemma_ratio_top(a: nat, d: nat, h: nat, t: int, p: nat)
    requires
        d > 0,
        p2(h) * d <= a < p2(h + 1) * d || p2(h) <= a / d < p2(h + 1),
    ensures
        d * scaled_den(t) > 0,
        h + t < p ==> scaled_num(a, t) / (d * scaled_den(t)) < p2(p),
        h + t >= p ==> {
            &&& scaled_num(a, t) / (d * scaled_den(t)) >= p2(p)
            &&& floor_log2(scaled_num(a, t) / (d * scaled_den(t))) == h + t
        },
{
    lemma_quotient(a, d);
    let q0 = a / d;
    let r0 = a % d;
    let lo = p2(h);
    let hi = p2(h + 1);
    assert(lo * d <= a < hi * d) by {
        if lo <= q0 < hi {
            assert(lo * d <= q0 * d + r0) by (nonlinear_arith)
                requires
                    lo <= q0,
            ;
            assert(q0 * d + r0 < hi * d) by (nonlinear_arith)
                requires
                    q0 + 1 <= hi,
                    r0 < d,
            ;
        }
    }
    let num = scaled_num(a, t);
    let den = d * scaled_den(t);
    if t >= 0 {
        lemma_p2_mono(0, t as nat);
        assert(den == d) by (nonlinear_arith)
            requires
                den == d * 1,
        ;
    } else {
        lemma_p2_mono(0, (-t) as nat);
        assert(den > 0) by (nonlinear_arith)
            requires
                den == d * p2((-t) as nat),
                d > 0,
                p2((-t) as nat) > 0,
        ;
    }
    lemma_quotient(num, den);
    let q = num / den;
    let r = num % den;
    if h + t >= 0 {
        let g = (h + t) as nat;
        // p2(g) * den <= num < p2(g + 1) * den
        if t >= 0 {
            let c = p2(t as nat);
            lemma_p2_add(h, t as nat);
            lemma_p2_add(h + 1, t as nat);
            assert(h + 1 + t as nat == g + 1);
            assert((lo * c) * d <= a * c < (hi * c) * d) by (nonlinear_arith)
                requires
                    lo * d <= a < hi * d,
                    c > 0,
            ;
        } else {
            let c = p2((-t) as nat);
            lemma_p2_add(g, (-t) as nat);
            lemma_p2_add(g + 1, (-t) as nat);
            assert(g + (-t) as nat == h);
            assert(g + 1 + (-t) as nat == h + 1);
            assert(p2(g) * (d * c) == lo * d) by (nonlinear_arith)
                requires
                    lo == p2(g) * c,
            ;
            assert(p2(g + 1) * (d * c) == hi * d) by (nonlinear_arith)
                requires
                    hi == p2(g + 1) * c,
            ;
        }
        assert(p2(g) <= q) by (nonlinear_arith)
            requires
                p2(g) * den <= q * den + r,
                r < den,
        ;
        assert(q < p2(g + 1)) by (nonlinear_arith)
            requires
                q * den + r < p2(g + 1) * den,
                r >= 0,
                den > 0,
        ;
        lemma_floor_log2_unique(q, g);
        if g < p {
            lemma_p2_mono(g + 1, p);
        } else {
            lemma_p2_mono(p, g);
        }
    } else {
        let c = p2((-t) as nat);
        lemma_p2_mono(h + 1, (-t) as nat);
        assert(a < d * c) by (nonlinear_arith)
            requires
                a < hi * d,
                hi <= c,
        ;
        assert(0 * den == 0 && (0 + 1) * den == den) by (nonlinear_arith);
        lemma_quotient_is(a, den, 0);
        lemma_p2_mono(0, p);
    }
}

/// The scale of a quotient moves into its denominator.
proof fn lemma_ratio_round(a: nat, d: nat, t: int, k: nat)
    requires
        d > 0,
        k >= t,
    ensures
        round_half_even(scaled_num(a, t), d * scaled_den(t) * p2(k)) == round_half_even(
            a,
            d * p2((k - t) as nat),
        ),
{
    let e = (k - t) as nat;
    lemma_p2_mono(0, e);
    if t >= 0 {
        let c = p2(t as nat);
        lemma_p2_mono(0, t as nat);
        lemma_p2_add(e, t as nat);
        assert(e + t as nat == k);
        let f = p2(e);
        assert(d * 1 * (f * c) == (d * f) * c) by (nonlinear_arith);
        assert(d * f > 0) by (nonlinear_arith)
            requires
                d > 0,
                f > 0,
        ;
        crate::float_bits::lemma_round_scale(a, d * f, c);
    } else {
        let c = p2((-t) as nat);
        lemma_p2_add((-t) as nat, k);
        assert((-t) as nat + k == e);
        assert(d * c * p2(k) == d * (c * p2(k))) by (nonlinear_arith);
    }
}

/// The quotient of two numbers in parts, as a scaled quotient of integers.
proof fn lemma_quotient_parts(mx: nat, ex: nat, my: nat, ey: nat, u: nat)
    requires
        my > 0,
    ensures
        ({
            let t = ex + 149 - ey - u;
            nearest(mx * p2(ex) * p2(149), my * p2(ey), 24, F32_INF as nat) == nearest(
                scaled_num(mx * p2(u), t),
                my * scaled_den(t),
                24,
                F32_INF as nat,
            )
        }),
{
    let t = ex + 149 - ey - u;
    let inf = F32_INF as nat;
    lemma_p2_add(ex, 149);
    let top = p2(ex + 149);
    assert(mx * p2(ex) * p2(149) == mx * top) by (nonlinear_arith)
        requires
            top == p2(ex) * p2(149),
    ;
    lemma_p2_mono(0, ey);
    if t >= 0 {
        let c = p2(ey);
        let b = p2(u);
        let f = p2(t as nat);
        lemma_p2_add(u, t as nat);
        lemma_p2_add(u + t as nat, ey);
        assert(u + t as nat + ey == ex + 149);
        assert(mx * b * f * c == mx * top) by (nonlinear_arith)
            requires
                top == (b * f) * c,
        ;
        assert(my * 1 == my);
        lemma_nearest_common(mx * b * f, my, c, 24, inf);
    } else {
        let g = (-t) as nat;
        lemma_p2_mono(0, g);
        let b = p2(u);
        let f = p2(g);
        assert(my * f > 0 && my * p2(ey) > 0) by (nonlinear_arith)
            requires
                my > 0,
                f > 0,
                p2(ey) > 0,
        ;
        if ey >= g {
            let c = p2((ey - g) as nat);
            lemma_p2_mono(0, (ey - g) as nat);
            lemma_p2_add(u, (ey - g) as nat);
            lemma_p2_add(g, (ey - g) as nat);
            assert(u + (ey - g) as nat == ex + 149);
            assert(g + (ey - g) as nat == ey);
            assert(mx * b * c == mx * top) by (nonlinear_arith)
                requires
                    top == b * c,
            ;
            assert(my * f * c == my * p2(ey)) by (nonlinear_arith)
                requires
                    p2(ey) == f * c,
            ;
            lemma_nearest_common(mx * b, my * f, c, 24, inf);
        } else {
            let c = p2((g - ey) as nat);
            lemma_p2_mono(0, (g - ey) as nat);
            lemma_p2_add(ex + 149, (g - ey) as nat);
            lemma_p2_add(ey, (g - ey) as nat);
            assert(ex + 149 + (g - ey) as nat == u);
            assert(ey + (g - ey) as nat == g);
            assert(mx * top * c == mx * b) by (nonlinear_arith)
                requires
                    b == top * c,
            ;
            assert(my * p2(ey) * c == my * f) by (nonlinear_arith)
                requires
                    f == p2(ey) * c,
            ;
            lemma_nearest_common(mx * top, my * p2(ey), c, 24, inf);
        }
    }
}

/// The fp32 quotient.
pub fn f32_div(x: u32, y: u32) -> (r: u32)
    ensures
        r as nat == quotient(x, y),
{
    let gx: u32 = x % 0x8000_0000;
    let gy: u32 = y % 0x8000_0000;
    let neg: bool = (x >= 0x8000_0000) != (y >= 0x8000_0000);
    if gx > F32_INF || gy > F32_INF || (gx == F32_INF && gy == F32_INF) || (gx == 0 && gy == 0) {
        return F32_NAN;
    }
    if gx == F32_INF || gy == 0 {
        return join_f32(neg, F32_INF);
    }
    if gy == F32_INF {
        return join_f32(neg, 0);
    }
    let (mx, ex) = f32_parts(x);
    let (my, ey) = f32_parts(y);
    if mx == 0 {
        proof {
            lemma_zero_quotient(p2(ex as nat), my as nat, p2(ey as nat));
            lemma_p2_mono(0, ey as nat);
        }
        return join_f32(neg, 0);
    }
    let l: u32 = log2_u64(mx);
    proof {
        lemma_p2_values();
        if l >= 24 {
            lemma_p2_mono(24, l as nat);
        }
    }
    let u: u32 = 60 - l;
    let up: u64 = pow2_u64(u);
    proof {
        lemma_shifted(mx as nat, l as nat, u as nat, my as nat);
    }
    let a: u64 = mx * up;
    let q: u64 = a / my;
    let n: u64 = 2 * q + if a % my == 0 {
        0
    } else {
        1
    };
    let t: i32 = ex as i32 + 149 - ey as i32 - u as i32;
    proof {
        lemma_quotient_parts(mx as nat, ex as nat, my as nat, ey as nat, u as nat);
        lemma_nearest_sticky(a as nat, my as nat, n as nat, t as int, 24, F32_INF as nat);
    }
    let mag = pack(n, t - 1, 24, F32_INF);
    join_f32(neg, mag)
}

/// Zero divided by a number is zero.
proof fn lemma_zero_quotient(i: nat, my: nat, j: nat)
    ensures
        my > 0 && j > 0 ==> nearest(0 * i * p2(149), my * j, 24, F32_INF as nat) == 0,
{
    if my > 0 && j > 0 {
        let d = my * j;
        assert(d > 0) by (nonlinear_arith)
            requires
                d == my * j,
                my > 0,
                j > 0,
        ;
        assert(0 * i * p2(149) == 0) by (nonlinear_arith);
        lemma_p2_mono(0, 24);
        lemma_units(0, 24);
        assert(units(0, 24) * d == 0) by (nonlinear_arith)
            requires
                units(0, 24) == 0,
        ;
        lemma_nearest_exact(0, d, 24, F32_INF as nat);
    }
}

/// The dividend shifted up to 61 bits: the quotient then has more bits than
/// any rounding looks at.
proof fn lemma_shifted(mx: nat, l: nat, u: nat, my: nat)
    requires
        p2(l) <= mx < p2(l + 1),
        l + u == 60,
        0 < my < 0x100_0000,
    ensures
        mx * p2(u) < 0x2000_0000_0000_0000,
        (mx * p2(u)) / my >= p2(25),
        (mx * p2(u)) / my < 0x2000_0000_0000_0000,
{
    lemma_p2_values();
    lemma_p2_add(l, u);
    lemma_p2_add(l + 1, u);
    lemma_p2_mono(0, u);
    let c = p2(u);
    let a = mx * c;
    assert(p2(l) * c <= a < p2(l + 1) * c) by (nonlinear_arith)
        requires
            p2(l) <= mx < p2(l + 1),
            c > 0,
            a == mx * c,
    ;
    lemma_p2_add(32, 28);
    lemma_p2_add(32, 29);
    lemma_p2_add(24, 1);
    assert(p2(28) == 0x1000_0000 && p2(29) == 0x2000_0000) by {
        reveal_with_fuel(p2, 30);
    }
    assert(p2(60) == 0x1_0000_0000nat * 0x1000_0000);
    assert(p2(61) == 0x1_0000_0000nat * 0x2000_0000);
    assert(l + 1 + u == 61);
    lemma_quotient(a, my);
    let q = a / my;
    let r = a % my;
    assert(q >= 0x200_0000) by (nonlinear_arith)
        requires
            q * my + r >= 0x1000_0000_0000_0000,
            r < my,
            my < 0x100_0000,
    ;
    assert(q <= a) by (nonlinear_arith)
        requires
            a == q * my + r,
            my >= 1,
    ;
}

// ---- double precision -----------------------------------------------------------------

/// The pattern of fp64 infinity, without sign.
pub const F64_INF: u64 = 0x7FF0_0000_0000_0000;

/// An fp64 pattern without its sign bit.
pub open spec fn f64_mag(b: u64) -> nat {
    (b % 0x8000_0000_0000_0000) as nat
}

/// The fp32 pattern that an fp64 pattern is converted to: the nearest one, a
/// tie going to the even one; and one quiet NaN for every NaN. The unit of
/// fp64 is `2^-1074`, that of fp32 is `2^-149`.
pub open spec fn f64_narrowed(b: u64) -> nat {
    if f64_mag(b) > F64_INF {
        F32_NAN as nat
    } else {
        f32_pack(
            b >= 0x8000_0000_0000_0000,
            if f64_mag(b) == F64_INF {
                F32_INF as nat
            } else {
                nearest(units(f64_mag(b), 53), p2(925), 24, F32_INF as nat)
            },
        )
    }
}

/// FP64 to FP32 bit pattern, rounded to nearest with ties to even.
pub fn f64_to_f32_bits(b: u64) -> (r: u32)
    ensures
        r as nat == f64_narrowed(b),
{
    let g: u64 = b % 0x8000_0000_0000_0000;
    if g > F64_INF {
        return F32_NAN;
    }
    let neg: bool = b >= 0x8000_0000_0000_0000;
    if g == F64_INF {
        return join_f32(neg, F32_INF);
    }
    let e: u64 = g / 0x10_0000_0000_0000;
    let f: u64 = g % 0x10_0000_0000_0000;
    let m: u64;
    let x: u32;
    proof {
        lemma_p2_values();
        lemma_p2_add(32, 20);
        assert(p2(20) == 0x10_0000) by {
            reveal_with_fuel(p2, 21);
        }
        assert(p2(52) == 0x1_0000_0000nat * 0x10_0000);
        assert(f * p2(0) == f) by (nonlinear_arith)
            requires
                p2(0) == 1,
        ;
    }
    if e == 0 {
        m = f;
        x = 0;
    } else {
        m = f + 0x10_0000_0000_0000;
        x = e as u32 - 1;
    }
    assert(units(g as nat, 53) == m as nat * p2(x as nat));
    proof {
        lemma_nearest_scaled(m as nat, x as nat, 925, 24, F32_INF as nat);
    }
    let mag = pack(m, x as i32 - 925, 24, F32_INF);
    join_f32(neg, mag)
}

} // verus!
