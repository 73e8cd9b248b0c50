//! Laws of quantization: the bytes of a block stay within 127 of zero, and a
//! number comes back within about half a step.

use crate::float_bits::{
    distance, f32_mag, f32_neg, f32_pack, f32_units, lemma_nearest_error, lemma_nearest_finite,
    lemma_nearest_large, lemma_p2_add, lemma_p2_mono, lemma_p2_values, lemma_quotient,
    lemma_units, lemma_units_monotone, nearest, p2, units, F32_INF,
};
use crate::float_ops::{f32_is_inf, f32_is_nan, f32_is_zero, product, quotient};
use crate::runtime::quant::{
    abs, chunk_scale, inverse_scale, is_quantized, max_mag, quantized, BlockQ8_0, F32_127, F32_ONE,
};
use vstd::prelude::*;

verus! {

/// `2^149`: the number of units in one.
spec fn one() -> nat {
    p2(149)
}

proof fn lemma_one()
    ensures
        f32_units(F32_ONE) == one(),
        f32_units(F32_127) == 127 * one(),
        one() >= 0x1_0000_0000,
{
    reveal_with_fuel(p2, 24);
    assert(p2(23) == 0x80_0000);
    lemma_p2_add(23, 126);
    lemma_p2_mono(32, 149);
    lemma_p2_values();
    assert(p2(32) == 0x1_0000_0000);
    let g = f32_mag(F32_ONE);
    assert(g / 0x80_0000 == 127 && g % 0x80_0000 == 0);
    assert(units(g, 24) == (0 + p2(23)) * p2(126));
    let h = f32_mag(F32_127);
    assert(h / 0x80_0000 == 133 && h % 0x80_0000 == 0x7E_0000);
    assert(units(h, 24) == (0x7E_0000 + p2(23)) * p2(132));
    lemma_p2_add(17, 132);
    assert(p2(17) == 0x2_0000);
    let c = p2(132);
    assert(0xFE_0000 * c == 127 * (0x2_0000 * c)) by (nonlinear_arith);
}

/// No number of a chunk is larger than the largest.
proof fn lemma_max_mag_holds(xs: Seq<u32>, j: int)
    requires
        0 <= j < xs.len(),
        f32_mag(xs[j]) <= F32_INF,
    ensures
        f32_mag(xs[j]) <= max_mag(xs),
    decreases xs.len(),
{
    if j < xs.len() - 1 {
        lemma_max_mag_holds(xs.drop_last(), j);
        assert(xs.drop_last()[j] == xs[j]);
    }
}

proof fn lemma_max_mag_bound(xs: Seq<u32>)
    ensures
        max_mag(xs) <= F32_INF,
    decreases xs.len(),
{
    if xs.len() > 0 {
        lemma_max_mag_bound(xs.drop_last());
    }
}

/// What is known of the scale of a chunk and of one over it, where both are
/// positive and finite: `a` is the largest magnitude, `d` the scale and `i` one
/// over it, in units.
spec fn scaled(a: nat, d: nat, i: nat) -> bool {
    &&& d >= 0x20_0000
    &&& a * 0x40_0000 <= 127 * d * 0x40_0001
    &&& i * d * 0x100_0000 <= one() * one() * 0x100_0001
    &&& one() * one() * 0xFF_FFFF <= i * d * 0x100_0000
}

proof fn lemma_values()
    ensures
        p2(21) == 0x20_0000,
        p2(23) == 0x80_0000,
        p2(24) == 0x100_0000,
{
    reveal_with_fuel(p2, 25);
}

/// A finite number is below `2^277` units.
proof fn lemma_units_bound(g: nat)
    requires
        g < F32_INF,
    ensures
        units(g, 24) < p2(277),
{
    lemma_values();
    lemma_units(g, 24);
    if g >= p2(24) {
        let k = (g / 0x80_0000 - 1) as nat;
        assert(g / 0x80_0000 <= 254);
        lemma_p2_mono(24 + k, 277);
    } else {
        lemma_p2_mono(24, 277);
    }
}

/// The scale, given the largest magnitude `a` in units: a finite number `d`
/// close to `a / 127`.
proof fn lemma_scale_units(a: nat) -> (d: nat)
    requires
        a < p2(277),
    ensures
        ({
            let n = nearest(a * one(), 127 * one(), 24, F32_INF as nat);
            n < F32_INF && d == units(n, 24)
        }),
        2 * distance(127 * d, a) <= 127 || 0x100_0000 * distance(127 * d, a) <= a,
{
    let t = one();
    lemma_one();
    lemma_values();
    let n = nearest(a * t, 127 * t, 24, F32_INF as nat);
    lemma_common(a, 127, t);
    assert(p2(277) == 2 * p2(276));
    lemma_nearest_finite(a * t, 127 * t, 24, F32_INF as nat, 252);
    let d = units(n, 24);
    lemma_nearest_error(a * t, 127 * t, 24, F32_INF as nat);
    let off = distance(d * (127 * t), a * t);
    let b = 127 * d;
    assert(d * (127 * t) == b * t) by (nonlinear_arith)
        requires
            b == 127 * d,
    ;
    let e = distance(b, a);
    assert(off == e * t) by {
        if a < b {
            assert((b - a) * t == b * t - a * t) by (nonlinear_arith);
            assert(a * t <= b * t) by (nonlinear_arith)
                requires
                    a < b,
            ;
        } else {
            assert((a - b) * t == a * t - b * t) by (nonlinear_arith);
            assert(b * t <= a * t) by (nonlinear_arith)
                requires
                    b <= a,
            ;
        }
    }
    if 2 * off <= 127 * t {
        assert(2 * e <= 127) by (nonlinear_arith)
            requires
                2 * (e * t) <= 127 * t,
                t > 0,
        ;
    } else {
        assert(0x100_0000 * e <= a) by (nonlinear_arith)
            requires
                0x100_0000 * (e * t) <= a * t,
                t > 0,
        ;
    }
    d
}

/// A scale below `2^21` units has no finite inverse.
proof fn lemma_tiny_scale(d: nat)
    requires
        0 < d < 0x20_0000,
    ensures
        nearest(one() * one(), d, 24, F32_INF as nat) == F32_INF,
{
    let t = one();
    lemma_values();
    lemma_p2_add(149, 149);
    lemma_p2_add(21, 277);
    let c = p2(277);
    let s = t * t;
    assert(s == 0x20_0000 * c);
    assert(s / d >= c) by (nonlinear_arith)
        requires
            s == 0x20_0000 * c,
            0 < d < 0x20_0000,
    ;
    lemma_nearest_large(s, d, 24, F32_INF as nat, 253);
}

/// One over a scale of moderate size.
proof fn lemma_inverse_units(d: nat)
    requires
        0 < d,
        d <= p2(272),
        nearest(one() * one(), d, 24, F32_INF as nat) < F32_INF,
    ensures
        ({
            let i = units(nearest(one() * one(), d, 24, F32_INF as nat), 24);
            0x100_0000 * distance(i * d, one() * one()) <= one() * one()
        }),
{
    let s = one() * one();
    let i = units(nearest(s, d, 24, F32_INF as nat), 24);
    lemma_values();
    lemma_nearest_error(s, d, 24, F32_INF as nat);
    let off = distance(i * d, s);
    if 2 * off <= d {
        lemma_p2_add(149, 149);
        lemma_p2_add(272, 23);
        lemma_p2_mono(295, 298);
        let c = p2(272);
        assert(c * 0x80_0000 <= s);
    }
}

/// The scale of a chunk whose largest magnitude is finite, where one over it
/// is finite too.
proof fn lemma_scaled(xs: Seq<u32>)
    requires
        max_mag(xs) < F32_INF,
        !f32_is_zero(chunk_scale(xs)),
        !f32_is_inf(inverse_scale(chunk_scale(xs))),
    ensures
        f32_mag(chunk_scale(xs)) < F32_INF,
        !f32_neg(chunk_scale(xs)),
        f32_mag(inverse_scale(chunk_scale(xs))) < F32_INF,
        !f32_neg(inverse_scale(chunk_scale(xs))),
        scaled(
            units(max_mag(xs), 24),
            f32_units(chunk_scale(xs)),
            f32_units(inverse_scale(chunk_scale(xs))),
        ),
{
    let t = one();
    let s = t * t;
    let g = max_mag(xs);
    let x = g as u32;
    let a = units(g, 24);
    lemma_one();
    lemma_units_bound(g);
    assert(f32_mag(x) == g);
    assert(f32_mag(F32_127) == F32_127);
    let d = lemma_scale_units(a);
    let n1 = nearest(a * t, 127 * t, 24, F32_INF as nat);
    let d0 = chunk_scale(xs);
    assert(quotient(x, F32_127) == n1);
    assert(d0 == n1);
    assert(d0 < 0x8000_0000);
    assert(f32_mag(d0) == n1);
    lemma_units_positive(n1);
    let i0 = inverse_scale(d0);
    let n2 = nearest(t * t, d, 24, F32_INF as nat);
    assert(f32_mag(F32_ONE) == F32_ONE);
    assert(quotient(F32_ONE, d0) == n2);
    assert(n2 <= F32_INF);
    assert(i0 == n2);
    assert(f32_mag(i0) == n2);
    let i = f32_units(i0);
    if d < 0x20_0000 {
        lemma_tiny_scale(d);
    }
    let e = distance(127 * d, a);
    assert(d <= p2(272)) by {
        lemma_p2_add(272, 5);
        reveal_with_fuel(p2, 6);
        assert(p2(277) == p2(272) * 32);
        lemma_p2_mono(32, 272);
        lemma_p2_values();
    }
    lemma_inverse_units(d);
    let off = distance(i * d, s);
    assert(i * d * 0x100_0000 <= s * 0x100_0001);
    assert(s * 0xFF_FFFF <= i * d * 0x100_0000);
}

/// A common factor cancels.
proof fn lemma_common(a: nat, b: nat, t: nat)
    requires
        b > 0,
        t > 0,
    ensures
        (a * t) / (b * t) == a / b,
{
    vstd::arithmetic::div_mod::lemma_div_multiples_vanish_quotient(t as int, a as int, b as int);
    assert(a * t == t * a && b * t == t * b) by (nonlinear_arith);
}

/// A pattern other than zero stands for a positive number.
proof fn lemma_units_positive(g: nat)
    requires
        g > 0,
    ensures
        units(g, 24) > 0,
{
    lemma_units(g, 24);
    lemma_p2_mono(0, 23);
    if g >= p2(24) {
        let k = (g / p2(23) - 1) as nat;
        lemma_p2_mono(0, (23 + k) as nat);
    }
}

/// A number times one over the scale, rounded: `n` is close to the quotient, and
/// at most 127.
#[verifier::rlimit(40)]
proof fn lemma_steps(a: nat, d: nat, i: nat, x: nat, p: nat, n: nat)
    requires
        scaled(a, d, i),
        x <= a,
        2 * distance(p * one(), x * i) <= one() || 0x100_0000 * distance(p * one(), x * i) <= x * i,
        n == (2 * p + one()) / (2 * one()),
    ensures
        n <= 127,
        distance(x, n * d) * 0x4000 <= d * 0x2001,
{
    lemma_one();
    let t = one() as int;
    let s = t * t;
    let (a, d, i, x, p, n) = (a as int, d as int, i as int, x as int, p as int, n as int);
    let w = x * i;
    let pt = p * t;
    let id = i * d;
    assert(s >= 0x1_0000_0000 * t) by (nonlinear_arith)
        requires
            s == t * t,
            t >= 0x1_0000_0000,
    ;
    // the rounding to an integer
    assert(n * (2 * t) <= 2 * p + t < (n + 1) * (2 * t) && 0 <= n) by {
        vstd::arithmetic::div_mod::lemma_fundamental_div_mod(2 * p + t, 2 * t);
        vstd::arithmetic::div_mod::lemma_mod_bound(2 * p + t, 2 * t);
        let q = (2 * p + t) / (2 * t);
        assert((2 * t) * q == q * (2 * t)) by (nonlinear_arith);
        assert((q + 1) * (2 * t) == q * (2 * t) + 2 * t) by (nonlinear_arith);
        vstd::arithmetic::div_mod::lemma_div_pos_is_pos(2 * p + t, 2 * t);
    }
    let nt = n * t;
    assert(n * (2 * t) == 2 * nt && (n + 1) * (2 * t) == 2 * nt + 2 * t) by (nonlinear_arith)
        requires
            nt == n * t,
    ;
    // everything times the scale
    let xs = x * s;
    let ds = d * s;
    let xid = x * id;
    let ptd = pt * d;
    let nds = nt * d * t;
    let dt = d * t;
    assert(x * 0x40_0000 <= 127 * d * 0x40_0001);
    assert(xs * 0x40_0000 <= 127 * ds * 0x40_0001) by (nonlinear_arith)
        requires
            x * 0x40_0000 <= 127 * d * 0x40_0001,
            xs == x * s,
            ds == d * s,
            s >= 0,
    ;
    assert(xid * 0x100_0000 <= xs * 0x100_0001 && xs * 0xFF_FFFF <= xid * 0x100_0000)
        by (nonlinear_arith)
        requires
            id * 0x100_0000 <= s * 0x100_0001,
            s * 0xFF_FFFF <= id * 0x100_0000,
            xid == x * id,
            xs == x * s,
            x >= 0,
    ;
    assert(w * d == xid) by (nonlinear_arith)
        requires
            w == x * i,
            id == i * d,
            xid == x * id,
    ;
    assert(0 <= xs && 0 <= xid && 0 <= w) by (nonlinear_arith)
        requires
            0 <= x,
            0 <= s,
            0 <= id,
            0 <= i,
            xs == x * s,
            xid == x * id,
            w == x * i,
    ;
    assert(ds >= 0x1_0000_0000 * dt && dt >= 0) by (nonlinear_arith)
        requires
            ds == d * s,
            dt == d * t,
            s >= 0x1_0000_0000 * t,
            d >= 0,
            t >= 0,
    ;
    // the rounding of the product
    let lo = pt - w;
    assert((2 * lo <= t && -t <= 2 * lo) || (0x100_0000 * lo <= w && -w <= 0x100_0000 * lo));
    assert(ptd - xid == lo * d) by (nonlinear_arith)
        requires
            lo == pt - w,
            ptd == pt * d,
            w * d == xid,
    ;
    let ld = lo * d;
    assert((2 * ld <= dt && -dt <= 2 * ld) || (0x100_0000 * ld <= xid && -xid <= 0x100_0000 * ld)) by {
        if 2 * lo <= t && -t <= 2 * lo {
            assert(2 * ld <= dt && -dt <= 2 * ld) by (nonlinear_arith)
                requires
                    ld == lo * d,
                    dt == d * t,
                    d >= 0,
                    -t <= 2 * lo <= t,
            ;
        } else {
            assert(0x100_0000 * ld <= xid && -xid <= 0x100_0000 * ld) by (nonlinear_arith)
                requires
                    ld == lo * d,
                    w * d == xid,
                    d >= 0,
                    -w <= 0x100_0000 * lo <= w,
            ;
        }
    }
    // the rounding to an integer, times the scale
    let gap = nt - p;
    assert(-t <= 2 * gap <= t);
    assert(nds - ptd == gap * d * t) by (nonlinear_arith)
        requires
            gap == nt - p,
            nds == nt * d * t,
            ptd == pt * d,
            pt == p * t,
    ;
    assert(-ds <= 2 * (nds - ptd) <= ds) by (nonlinear_arith)
        requires
            nds - ptd == gap * d * t,
            -t <= 2 * gap <= t,
            ds == d * s,
            s == t * t,
            d >= 0,
            t >= 0,
    ;
    assert((nds - xs) * 0x4000 <= ds * 0x2001 && -(ds * 0x2001) <= (nds - xs) * 0x4000);
    assert(nds == n * d * s) by (nonlinear_arith)
        requires
            nds == nt * d * t,
            nt == n * t,
            s == t * t,
    ;
    let nd = n * d;
    assert((nd - x) * 0x4000 <= d * 0x2001 && -(d * 0x2001) <= (nd - x) * 0x4000)
        by (nonlinear_arith)
        requires
            (nds - xs) * 0x4000 <= ds * 0x2001,
            -(ds * 0x2001) <= (nds - xs) * 0x4000,
            nds == nd * s,
            xs == x * s,
            ds == d * s,
            s > 0,
    ;
    // n * d is at most about 127.6 * d
    assert(nd * 0x40_0000 <= 127 * d * 0x40_0001 + d * 0x2001 * 0x100);
    assert(n < 128) by (nonlinear_arith)
        requires
            nd == n * d,
            nd * 0x40_0000 <= 127 * d * 0x40_0001 + d * 0x2001 * 0x100,
            d > 0,
    ;
}

/// The product of a number and one over the scale, in units.
proof fn lemma_product_units(x: nat, i: nat)
    requires
        x * i < 0x100 * (one() * one()),
    ensures
        ({
            let n = nearest(x * i, one(), 24, F32_INF as nat);
            let p = units(n, 24);
            &&& n < F32_INF
            &&& 2 * distance(p * one(), x * i) <= one() || 0x100_0000 * distance(p * one(), x * i)
                <= x * i
        }),
{
    let t = one();
    let w = x * i;
    lemma_one();
    lemma_values();
    lemma_p2_values();
    lemma_p2_add(8, 149);
    lemma_p2_mono(157, 276);
    let q = w / t;
    lemma_quotient(w, t);
    assert(q < 0x100 * t) by (nonlinear_arith)
        requires
            q * t <= w,
            w < 0x100 * (t * t),
            t > 0,
    ;
    lemma_nearest_finite(w, t, 24, F32_INF as nat, 252);
    lemma_nearest_error(w, t, 24, F32_INF as nat);
}

/// A number of a chunk comes back within about half a step: its byte times the
/// scale is off by at most `1/2 + 1/16384` of the scale, and has its sign. This
/// holds wherever the chunk's largest magnitude, its scale and one over the
/// scale are numbers other than zero and infinity.
#[verifier::rlimit(40)]
pub proof fn lemma_quantized_close(b: BlockQ8_0, xs: Seq<u32>, j: int)
    requires
        xs.len() == 32,
        is_quantized(b, xs),
        0 <= j < 32,
        !f32_is_nan(xs[j]),
        max_mag(xs) < F32_INF,
        !f32_is_zero(chunk_scale(xs)),
        !f32_is_inf(inverse_scale(chunk_scale(xs))),
    ensures
        ({
            let q = b.qs@[j] as int;
            let d = f32_units(chunk_scale(xs));
            &&& -127 <= q <= 127
            &&& f32_neg(xs[j]) ==> q <= 0
            &&& !f32_neg(xs[j]) ==> q >= 0
            &&& distance(f32_units(xs[j]), abs(q) * d) * 0x4000 <= d * 0x2001
        }),
{
    let t = one();
    let v = xs[j];
    let d0 = chunk_scale(xs);
    let i0 = inverse_scale(d0);
    let a = units(max_mag(xs), 24);
    let d = f32_units(d0);
    let i = f32_units(i0);
    let x = f32_units(v);
    lemma_one();
    lemma_scaled(xs);
    lemma_max_mag_holds(xs, j);
    lemma_units_monotone(f32_mag(v), max_mag(xs), 24);
    assert(x * i < 0x100 * (t * t)) by {
        let s = t * t;
        assert(d * (x * i) == x * (i * d)) by (nonlinear_arith);
        let w = x * i;
        let id = i * d;
        assert(x * id * 0x100_0000 <= x * s * 0x100_0001) by (nonlinear_arith)
            requires
                id * 0x100_0000 <= s * 0x100_0001,
        ;
        assert(x * s * 0x40_0000 <= 127 * d * s * 0x40_0001) by (nonlinear_arith)
            requires
                x * 0x40_0000 <= 127 * d * 0x40_0001,
        ;
        let ds = d * s;
        assert(127 * d * s == 127 * ds) by (nonlinear_arith)
            requires
                ds == d * s,
        ;
        assert(d * w < 0x100 * ds) by {
            assert(ds > 0) by (nonlinear_arith)
                requires
                    ds == d * s,
                    d > 0,
                    s == t * t,
                    t > 0,
            ;
        }
        assert(w < 0x100 * s) by (nonlinear_arith)
            requires
                d * w < 0x100 * ds,
                ds == d * s,
                d > 0,
        ;
    }
    lemma_product_units(x, i);
    let m = nearest(x * i, t, 24, F32_INF as nat);
    let p = units(m, 24);
    let r = product(v, i0) as u32;
    assert(product(v, i0) == f32_pack(f32_neg(v), m));
    assert(f32_mag(r) == m);
    assert(f32_neg(r) == f32_neg(v));
    assert(p2(150) == 2 * t);
    let n = (2 * p + t) / (2 * t);
    lemma_steps(a, d, i, x, p, n);
    assert(b.qs@[j] as int == quantized(v, i0));
}

/// The bytes of a block are within 127 of zero, wherever one over the chunk's
/// scale does not overflow.
pub proof fn lemma_quantized_range(b: BlockQ8_0, xs: Seq<u32>)
    requires
        xs.len() == 32,
        is_quantized(b, xs),
        !f32_is_inf(inverse_scale(chunk_scale(xs))),
    ensures
        forall|j: int| 0 <= j < 32 ==> -127 <= #[trigger] b.qs@[j] <= 127,
{
    let d0 = chunk_scale(xs);
    let i0 = inverse_scale(d0);
    lemma_max_mag_bound(xs);
    assert forall|j: int| 0 <= j < 32 implies -127 <= #[trigger] b.qs@[j] <= 127 by {
        let v = xs[j];
        assert(b.qs@[j] as int == quantized(v, i0));
        if f32_is_nan(v) {
        } else if max_mag(xs) == F32_INF {
            assert(f32_mag(F32_127) == F32_127);
            assert(f32_mag(F32_ONE) == F32_ONE);
            assert(max_mag(xs) as u32 == F32_INF);
            assert(d0 == F32_INF);
            assert(i0 == 0);
            lemma_zero_product(v);
        } else if f32_is_zero(d0) {
            lemma_zero_product(v);
        } else {
            lemma_quantized_close(b, xs, j);
        }
    }
}

/// A product with zero is quantized to zero.
proof fn lemma_zero_product(v: u32)
    ensures
        quantized(v, 0) == 0,
{
    lemma_one();
    lemma_values();
    lemma_units(0, 24);
    assert(f32_mag(0) == 0);
    let x = f32_units(v);
    assert(x * 0 == 0);
    if !f32_is_nan(v) && !f32_is_inf(v) {
        let t = one();
        assert(0nat / t == 0) by (nonlinear_arith)
            requires
                t > 0,
        ;
        assert(p2(0) == 1);
        assert(t * p2(0) == t) by (nonlinear_arith)
            requires
                p2(0) == 1,
        ;
        assert(0nat % t == 0) by (nonlinear_arith)
            requires
                t > 0,
        ;
        assert(nearest(0, t, 24, F32_INF as nat) == 0);
        let r = product(v, 0) as u32;
        assert(f32_mag(r) == 0);
        assert(f32_units(r) == 0);
        assert(p2(150) == 2 * t);
        assert((2 * 0 + t) / (2 * t) == 0) by (nonlinear_arith)
            requires
                t > 0,
        ;
    }
}

} // verus!
