//! Floating-point numbers as bit patterns: what an IEEE 754 pattern stands for,
//! and the conversions that can be done exactly on integers.

use vstd::prelude::*;

verus! {

/// Two to the power `n`.
pub open spec fn p2(n: nat) -> nat
    decreases n,
{
    if n == 0 {
        1
    } else {
        2 * p2((n - 1) as nat)
    }
}

/// Powers of two multiply by adding exponents.
pub proof fn lemma_p2_add(a: nat, b: nat)
    ensures
        p2(a + b) == p2(a) * p2(b),
    decreases b,
{
    if b > 0 {
        lemma_p2_add(a, (b - 1) as nat);
        assert((a + b - 1) as nat == a + (b - 1) as nat);
        assert(p2(a + b) == 2 * p2((a + b - 1) as nat));
        let x = p2(a);
        let y = p2((b - 1) as nat);
        assert(2 * (x * y) == x * (2 * y)) by (nonlinear_arith);
        assert(p2(b) == 2 * y);
    } else {
        let x = p2(a);
        let y = p2(0);
        assert(x * y == x) by (nonlinear_arith)
            requires
                y == 1,
        ;
    }
}

/// Powers of two do not decrease, and are positive.
pub proof fn lemma_p2_mono(a: nat, b: nat)
    requires
        a <= b,
    ensures
        1 <= p2(a) <= p2(b),
    decreases b,
{
    if a < b {
        lemma_p2_mono(a, (b - 1) as nat);
    } else if a > 0 {
        lemma_p2_mono((a - 1) as nat, (a - 1) as nat);
    }
}

/// Some powers of two.
pub proof fn lemma_p2_values()
    ensures
        p2(0) == 1,
        p2(1) == 2,
        p2(2) == 4,
        p2(8) == 256,
        p2(10) == 1024,
        p2(11) == 2048,
        p2(23) == 0x80_0000,
        p2(24) == 0x100_0000,
        p2(31) == 0x8000_0000,
        p2(32) == 0x1_0000_0000,
{
    reveal_with_fuel(p2, 33);
}

/// The largest `l` with `2^l <= n`, for positive `n`.
pub open spec fn floor_log2(n: nat) -> nat
    decreases n,
{
    if n < 2 {
        0
    } else {
        1 + floor_log2(n / 2)
    }
}

/// `floor_log2` is what its name says.
pub proof fn lemma_floor_log2(n: nat)
    requires
        n > 0,
    ensures
        p2(floor_log2(n)) <= n < p2(floor_log2(n) + 1),
    decreases n,
{
    reveal_with_fuel(p2, 3);
    if n >= 2 {
        lemma_floor_log2(n / 2);
    }
}

/// Only one exponent fits between two powers of two.
pub proof fn lemma_floor_log2_unique(n: nat, l: nat)
    requires
        p2(l) <= n < p2(l + 1),
    ensures
        floor_log2(n) == l,
{
    lemma_p2_mono(l, l);
    lemma_floor_log2(n);
    let k = floor_log2(n);
    if k < l {
        lemma_p2_mono(k + 1, l);
    } else if l < k {
        lemma_p2_mono(l + 1, k);
    }
}

/// `a / d` rounded to the nearest integer, a tie to the even one.
pub open spec fn round_half_even(a: nat, d: nat) -> nat {
    let q = a / d;
    let r = a % d;
    if 2 * r > d || (2 * r == d && q % 2 == 1) {
        q + 1
    } else {
        q
    }
}

/// A positive integer as an fp32 number: the 24-bit significand `m` and the
/// exponent `l` of `m * 2^(l - 23)`.
pub open spec fn int_parts(n: nat) -> (nat, nat) {
    let l = floor_log2(n);
    let m = if l <= 23 {
        n * p2((23 - l) as nat)
    } else {
        round_half_even(n, p2((l - 23) as nat))
    };
    if m == 0x100_0000 {
        (0x80_0000, l + 1)
    } else {
        (m, l)
    }
}

/// The bit pattern of the fp32 quotient of 1 and `n`, `n` first being made an
/// fp32 number: infinity for 0, a power of two for a power of two, and
/// otherwise the 24-bit significand nearest to the quotient.
pub open spec fn recip_bits(n: nat) -> nat {
    let (m, l) = int_parts(n);
    if n == 0 {
        0x7F80_0000
    } else if m == 0x80_0000 {
        ((127 - l) * 0x80_0000) as nat
    } else {
        ((126 - l) * 0x80_0000 + (round_half_even(0x8000_0000_0000, m) - 0x80_0000)) as nat
    }
}

/// `a / d` rounded to the nearest integer, a tie to the even one.
pub(crate) fn round_div(a: u64, d: u64) -> (r: u64)
    requires
        0 < d < 0x8000_0000_0000_0000,
        a < 0x8000_0000_0000_0000,
    ensures
        r as nat == round_half_even(a as nat, d as nat),
{
    let q: u64 = a / d;
    assert(a % d < d && a / d <= a) by (nonlinear_arith)
        requires
            d > 0,
    ;
    let rest: u64 = a % d;
    if 2 * rest > d || (2 * rest == d && q % 2 == 1) {
        q + 1
    } else {
        q
    }
}

/// A rounded quotient lies within one of the true bounds.
pub proof fn lemma_round_bounds(a: nat, d: nat, lo: nat, hi: nat)
    requires
        d > 0,
        lo * d <= a <= hi * d,
    ensures
        lo <= round_half_even(a, d) <= hi,
{
    let q = (a / d) as int;
    let r = (a % d) as int;
    let ai = a as int;
    let di = d as int;
    assert(ai == q * di + r && 0 <= r < di) by (nonlinear_arith)
        requires
            q == ai / di,
            r == ai % di,
            di > 0,
    ;
    assert(lo <= q) by (nonlinear_arith)
        requires
            lo * di <= ai,
            ai == q * di + r,
            r < di,
            di > 0,
    ;
    assert(q <= hi) by (nonlinear_arith)
        requires
            ai <= hi * di,
            ai == q * di + r,
            r >= 0,
            di > 0,
    ;
    if q == hi {
        assert(r == 0) by (nonlinear_arith)
            requires
                ai <= hi * di,
                ai == q * di + r,
                q == hi,
                r >= 0,
        ;
    }
}

/// `(floor_log2(n), 2^floor_log2(n))` of a positive number.
fn log2_of(n: u32) -> (r: (u32, u64))
    requires
        n > 0,
    ensures
        r.0 as nat == floor_log2(n as nat),
        r.1 as nat == p2(r.0 as nat),
        r.0 <= 31,
{
    let mut l: u32 = 0;
    let mut p: u64 = 1;
    while p * 2 <= n as u64
        invariant
            l <= 31,
            p as nat == p2(l as nat),
            1 <= p <= n,
        decreases n - p,
    {
        p = p * 2;
        l = l + 1;
        proof {
            lemma_p2_values();
            if l >= 32 {
                lemma_p2_mono(32, l as nat);
            }
        }
    }
    proof {
        assert(p2((l + 1) as nat) == 2 * p2(l as nat));
        lemma_floor_log2_unique(n as nat, l as nat);
    }
    (l, p)
}

/// The bit pattern of the fp32 quotient of 1 and `n`.
pub fn recip_f32_bits(n: u32) -> (bits: u32)
    ensures
        bits as nat == recip_bits(n as nat),
        bits <= 0x7F80_0000,
{
    if n == 0 {
        return 0x7F80_0000;
    }
    let (l, p) = log2_of(n);
    proof {
        lemma_floor_log2(n as nat);
        lemma_p2_values();
    }
    let mut m: u64;
    let mut e: u32 = l;
    if l <= 23 {
        // 2^(23 - l) = 2^23 / 2^l
        let up: u64 = 0x80_0000 / p;
        proof {
            lemma_p2_add((23 - l) as nat, l as nat);
            let u = p2((23 - l) as nat) as int;
            let pp = p as int;
            lemma_p2_mono(0, l as nat);
            lemma_p2_mono(0, (23 - l) as nat);
            assert(0x80_0000 == u * pp);
            assert(0x80_0000int / pp == u) by (nonlinear_arith)
                requires
                    0x80_0000 == u * pp,
                    pp > 0,
            ;
            let ni = n as int;
            assert(0x80_0000 <= ni * u < 0x100_0000) by (nonlinear_arith)
                requires
                    0x80_0000 == u * pp,
                    pp <= ni < 2 * pp,
                    u > 0,
            ;
        }
        m = n as u64 * up;
    } else {
        let down: u64 = p / 0x80_0000;
        proof {
            lemma_p2_add((l - 23) as nat, 23);
            let d = p2((l - 23) as nat);
            lemma_p2_mono(0, (l - 23) as nat);
            assert(p == d * 0x80_0000);
            assert(down == d);
            assert(0x80_0000 * d <= n <= 0x100_0000 * d);
            lemma_round_bounds(n as nat, d, 0x80_0000, 0x100_0000);
            lemma_p2_mono((l - 23) as nat, 23);
        }
        m = round_div(n as u64, down);
        if m == 0x100_0000 {
            m = 0x80_0000;
            e = l + 1;
        }
    }
    assert(int_parts(n as nat) == (m as nat, e as nat));
    assert(0x80_0000 <= m < 0x100_0000);
    if m == 0x80_0000 {
        (127 - e) * 0x80_0000
    } else {
        let q: u64 = round_div(0x8000_0000_0000, m);
        proof {
            assert(0x80_0000 * m <= 0x8000_0000_0000 <= 0x100_0000 * m) by (nonlinear_arith)
                requires
                    0x80_0000 < m < 0x100_0000,
            ;
            lemma_round_bounds(0x8000_0000_0000, m as nat, 0x80_0000, 0x100_0000);
        }
        (126 - e) * 0x80_0000 + (q as u32 - 0x80_0000)
    }
}

// ---- what a pattern stands for ------------------------------------------------------

/// The magnitude that a finite pattern without its sign bit stands for, as a
/// multiple of the smallest positive number of the format. `p` is the number
/// of significant bits: 24 for fp32, 11 for fp16.
pub open spec fn units(g: nat, p: nat) -> nat {
    let half = p2((p - 1) as nat);
    let e = g / half;
    let m = g % half;
    if e == 0 {
        m
    } else {
        (m + half) * p2((e - 1) as nat)
    }
}

/// The pattern nearest to `a / d` units, a tie going to the even pattern, and
/// infinity where that is out of range. Numbers are `2^k` units apart where
/// `k` is what the magnitude leaves over `p` significant bits.
pub open spec fn nearest(a: nat, d: nat, p: nat, inf: nat) -> nat {
    let q = a / d;
    let k = if q < p2(p) {
        0
    } else {
        (floor_log2(q) - (p - 1)) as nat
    };
    let r = k * p2((p - 1) as nat) + round_half_even(a, d * p2(k));
    if r < inf {
        r
    } else {
        inf
    }
}

/// The pattern of fp32 infinity, without sign.
pub const F32_INF: u32 = 0x7F80_0000;

/// The pattern of fp16 infinity, without sign.
pub const F16_INF: u16 = 0x7C00;

/// An fp32 pattern without its sign bit.
pub open spec fn f32_mag(b: u32) -> nat {
    (b % 0x8000_0000) as nat
}

/// Whether the sign bit of an fp32 pattern is set.
pub open spec fn f32_neg(b: u32) -> bool {
    b >= 0x8000_0000
}

/// The magnitude of a finite fp32 number in units of `2^-149`.
pub open spec fn f32_units(b: u32) -> nat {
    units(f32_mag(b), 24)
}

/// An fp16 pattern without its sign bit.
pub open spec fn f16_mag(h: u16) -> nat {
    (h % 0x8000) as nat
}

/// Whether the sign bit of an fp16 pattern is set.
pub open spec fn f16_neg(h: u16) -> bool {
    h >= 0x8000
}

/// The magnitude of a finite fp16 number in units of `2^-24`.
pub open spec fn f16_units(h: u16) -> nat {
    units(f16_mag(h), 11)
}

/// The fp32 pattern of a sign and a magnitude.
pub open spec fn f32_pack(neg: bool, mag: nat) -> nat {
    if neg {
        0x8000_0000 + mag
    } else {
        mag
    }
}

/// The fp16 pattern of a sign and a magnitude.
pub open spec fn f16_pack(neg: bool, mag: nat) -> nat {
    if neg {
        0x8000 + mag
    } else {
        mag
    }
}

// ---- laws of rounding ---------------------------------------------------------------

/// Quotient and remainder.
pub(crate) proof fn lemma_quotient(a: nat, d: nat)
    requires
        d > 0,
    ensures
        a == (a / d) * d + a % d,
        a % d < d,
{
    let x = a as int;
    let y = d as int;
    assert(x == (x / y) * y + x % y && 0 <= x % y < y) by (nonlinear_arith)
        requires
            y > 0,
    ;
}

/// A number between two multiples of `d` has the smaller factor as quotient.
pub(crate) proof fn lemma_quotient_is(a: nat, d: nat, q: nat)
    requires
        q * d <= a < (q + 1) * d,
    ensures
        a / d == q,
{
    assert(d > 0) by (nonlinear_arith)
        requires
            q * d < (q + 1) * d,
    ;
    lemma_quotient(a, d);
    let g = (a / d) as int;
    let r = (a % d) as int;
    let di = d as int;
    let qi = q as int;
    assert(g == qi) by (nonlinear_arith)
        requires
            qi * di <= g * di + r,
            g * di + r < (qi + 1) * di,
            0 <= r < di,
    ;
}

/// Rounding does not see a common factor.
pub proof fn lemma_round_scale(a: nat, d: nat, c: nat)
    requires
        d > 0,
        c > 0,
    ensures
        round_half_even(a * c, d * c) == round_half_even(a, d),
{
    lemma_quotient(a, d);
    let q = a / d;
    let r = a % d;
    assert(q * (d * c) <= a * c < (q + 1) * (d * c)) by (nonlinear_arith)
        requires
            a == q * d + r,
            r < d,
            c > 0,
    ;
    lemma_quotient_is(a * c, d * c, q);
    assert(d * c > 0) by (nonlinear_arith)
        requires
            d > 0,
            c > 0,
    ;
    lemma_quotient(a * c, d * c);
    let s = (a * c) % (d * c);
    assert(s == r * c) by (nonlinear_arith)
        requires
            a == q * d + r,
            a * c == q * (d * c) + s,
    ;
    assert(2 * s > d * c <==> 2 * r > d) by (nonlinear_arith)
        requires
            s == r * c,
            c > 0,
    ;
    assert(2 * s == d * c <==> 2 * r == d) by (nonlinear_arith)
        requires
            s == r * c,
            c > 0,
    ;
}

/// A multiple of the divisor rounds to its factor.
pub proof fn lemma_round_exact(n: nat, d: nat)
    requires
        d > 0,
    ensures
        round_half_even(n * d, d) == n,
{
    assert(n * d < (n + 1) * d) by (nonlinear_arith)
        requires
            d > 0,
    ;
    lemma_quotient_is(n * d, d, n);
    lemma_quotient(n * d, d);
}

/// The distance of two numbers.
pub open spec fn distance(a: nat, b: nat) -> nat {
    if a < b {
        (b - a) as nat
    } else {
        (a - b) as nat
    }
}

/// No integer is closer to the quotient than the rounded one.
pub proof fn lemma_round_nearest(a: nat, d: nat, n: nat)
    requires
        d > 0,
    ensures
        distance(round_half_even(a, d) * d, a) <= distance(n * d, a),
        2 * distance(round_half_even(a, d) * d, a) <= d,
{
    lemma_quotient(a, d);
    let q = a / d;
    let r = a % d;
    assert((q + 1) * d == q * d + d) by (nonlinear_arith);
    if n <= q {
        assert(n * d <= q * d) by (nonlinear_arith)
            requires
                n <= q,
        ;
    } else {
        assert((q + 1) * d <= n * d) by (nonlinear_arith)
            requires
                n >= q + 1,
        ;
    }
}

/// The number of units of a pattern, by its exponent field.
pub proof fn lemma_units(g: nat, p: nat)
    requires
        p >= 1,
    ensures
        g < p2(p) ==> units(g, p) == g,
        g >= p2(p) ==> {
            let half = p2((p - 1) as nat);
            let k = (g / half - 1) as nat;
            let r = (g - k * half) as nat;
            &&& g / half >= 2
            &&& half <= r < 2 * half
            &&& g == k * half + r
            &&& units(g, p) == r * p2(k)
            &&& p2((p - 1 + k) as nat) <= units(g, p) < p2((p + k) as nat)
        },
{
    let half = p2((p - 1) as nat);
    lemma_p2_mono(0, (p - 1) as nat);
    lemma_quotient(g, half);
    let e = g / half;
    let m = g % half;
    assert(p2(p) == 2 * half);
    if g < p2(p) {
        assert(e < 2) by (nonlinear_arith)
            requires
                e * half <= g,
                g < 2 * half,
        ;
        assert(e == 0 ==> g == m) by (nonlinear_arith)
            requires
                g == e * half + m,
        ;
        assert(e == 1 ==> g == m + half && (m + half) * p2(0) == m + half) by (nonlinear_arith)
            requires
                g == e * half + m,
                p2(0) == 1,
        ;
    } else {
        assert(e >= 2) by (nonlinear_arith)
            requires
                g == e * half + m,
                g >= 2 * half,
                m < half,
        ;
        let k = (e - 1) as nat;
        assert(g - k * half == m + half) by (nonlinear_arith)
            requires
                g == e * half + m,
                k == e - 1,
        ;
        lemma_p2_add((p - 1) as nat, k);
        lemma_p2_mono(0, k);
        assert((p + k) as nat == 1 + (p - 1 + k) as nat);
        let r = m + half;
        let c = p2(k);
        assert(half * c <= r * c < 2 * (half * c)) by (nonlinear_arith)
            requires
                half <= r < 2 * half,
                c > 0,
        ;
    }
}

/// A number of the format rounds to itself.
pub proof fn lemma_nearest_exact(g: nat, d: nat, p: nat, inf: nat)
    requires
        p >= 1,
        d > 0,
        g < inf,
    ensures
        nearest(units(g, p) * d, d, p, inf) == g,
{
    let u = units(g, p);
    let half = p2((p - 1) as nat);
    assert(u * d < (u + 1) * d) by (nonlinear_arith)
        requires
            d > 0,
    ;
    lemma_quotient_is(u * d, d, u);
    lemma_units(g, p);
    if g < p2(p) {
        lemma_round_exact(u, d);
        assert(d * p2(0) == d) by (nonlinear_arith)
            requires
                p2(0) == 1,
        ;
        assert(0 * half == 0);
    } else {
        let k = (g / half - 1) as nat;
        let r = (g - k * half) as nat;
        assert((p + k) as nat == (p - 1 + k) as nat + 1);
        lemma_floor_log2_unique(u, (p - 1 + k) as nat);
        lemma_p2_mono(p, (p - 1 + k) as nat);
        lemma_p2_mono(0, k);
        let c = p2(k);
        assert((r * c) * d == r * (d * c)) by (nonlinear_arith);
        assert(d * c > 0) by (nonlinear_arith)
            requires
                d > 0,
                c > 0,
        ;
        lemma_round_exact(r, d * c);
    }
}

/// The scale that [`nearest`] picks for a magnitude, and what it rounds to.
proof fn lemma_nearest_scale(a: nat, d: nat, p: nat) -> (k: nat)
    requires
        p >= 1,
        d > 0,
    ensures
        k == (if a / d < p2(p) {
            0
        } else {
            (floor_log2(a / d) - (p - 1)) as nat
        }),
        k > 0 ==> p2((p - 1) as nat) <= round_half_even(a, d * p2(k)),
        k > 0 ==> p2((p - 1) as nat) * (d * p2(k)) <= a,
        round_half_even(a, d * p2(k)) <= p2(p),
        d * p2(k) > 0,
{
    let q = a / d;
    lemma_quotient(a, d);
    assert((q + 1) * d == q * d + d) by (nonlinear_arith);
    let half = p2((p - 1) as nat);
    assert(p2(p) == 2 * half);
    lemma_p2_mono(0, (p - 1) as nat);
    if q < p2(p) {
        assert(d * p2(0) == d) by (nonlinear_arith)
            requires
                p2(0) == 1,
        ;
        let t = p2(p);
        assert(a <= t * d) by (nonlinear_arith)
            requires
                a < (q + 1) * d,
                q + 1 <= t,
        ;
        assert(0 * d == 0);
        lemma_round_bounds(a, d, 0, t);
        0
    } else {
        lemma_p2_mono(0, p);
        lemma_floor_log2(q);
        let l = floor_log2(q);
        if l < p {
            lemma_p2_mono(l + 1, p);
        }
        let k = (l - (p - 1)) as nat;
        lemma_p2_add((p - 1) as nat, k);
        lemma_p2_add(p, k);
        assert((p - 1) as nat + k == l);
        assert(p + k == l + 1);
        let c = p2(k);
        lemma_p2_mono(0, k);
        let t = p2(p);
        assert(half * (d * c) <= a) by (nonlinear_arith)
            requires
                half * c <= q,
                q * d <= a,
        ;
        assert(a <= t * (d * c)) by (nonlinear_arith)
            requires
                q < t * c,
                a < (q + 1) * d,
        ;
        assert(d * c > 0) by (nonlinear_arith)
            requires
                d > 0,
                c > 0,
        ;
        lemma_round_bounds(a, d * c, half, t);
        k
    }
}

/// The number that a scale and a rounded significand stand for.
proof fn lemma_units_of_scaled(k: nat, r: nat, p: nat)
    requires
        p >= 1,
        r <= p2(p),
        k > 0 ==> p2((p - 1) as nat) <= r,
    ensures
        units(k * p2((p - 1) as nat) + r, p) == r * p2(k),
{
    let half = p2((p - 1) as nat);
    let g = k * half + r;
    lemma_p2_mono(0, (p - 1) as nat);
    assert(p2(p) == 2 * half);
    if r == p2(p) {
        // the significand carried into the next scale
        assert(g == (k + 2) * half) by (nonlinear_arith)
            requires
                g == k * half + 2 * half,
        ;
        assert(g < (k + 3) * half) by (nonlinear_arith)
            requires
                g == (k + 2) * half,
                half > 0,
        ;
        lemma_quotient_is(g, half, k + 2);
        lemma_quotient(g, half);
        assert(p2(k + 1) == 2 * p2(k));
        let c = p2(k);
        assert(half * (2 * c) == (2 * half) * c) by (nonlinear_arith);
    } else if k == 0 {
        assert(0 * half == 0);
        lemma_units(g, p);
        assert(r * p2(0) == r) by (nonlinear_arith)
            requires
                p2(0) == 1,
        ;
    } else {
        let m = (r - half) as nat;
        assert(g == (k + 1) * half + m) by (nonlinear_arith)
            requires
                g == k * half + half + m,
        ;
        assert(g < (k + 2) * half) by (nonlinear_arith)
            requires
                g == (k + 1) * half + m,
                m < half,
        ;
        lemma_quotient_is(g, half, k + 1);
        lemma_quotient(g, half);
    }
}

/// How far conversion can be off: by half a unit, or by half of the last of `p`
/// significant bits.
pub proof fn lemma_nearest_error(a: nat, d: nat, p: nat, inf: nat)
    requires
        p >= 1,
        d > 0,
        nearest(a, d, p, inf) < inf,
    ensures
        ({
            let off = distance(units(nearest(a, d, p, inf), p) * d, a);
            2 * off <= d || p2(p) * off <= a
        }),
{
    let half = p2((p - 1) as nat);
    let k = lemma_nearest_scale(a, d, p);
    let c = p2(k);
    let r = round_half_even(a, d * c);
    assert(nearest(a, d, p, inf) == k * half + r);
    lemma_units_of_scaled(k, r, p);
    assert((r * c) * d == r * (d * c)) by (nonlinear_arith);
    lemma_round_nearest(a, d * c, 0);
    let off = distance(r * (d * c), a);
    if k == 0 {
        assert(d * c == d) by (nonlinear_arith)
            requires
                c == 1,
        ;
    } else {
        let e = d * c;
        assert((2 * half) * off <= half * e) by (nonlinear_arith)
            requires
                2 * off <= e,
        ;
        assert(p2(p) == 2 * half);
    }
}

/// What is too large for any number of the format becomes infinity.
pub proof fn lemma_nearest_large(a: nat, d: nat, p: nat, inf: nat, k: nat)
    requires
        p >= 1,
        d > 0,
        a / d >= p2(p + k),
        inf <= (k + 2) * p2((p - 1) as nat),
    ensures
        nearest(a, d, p, inf) == inf,
{
    let half = p2((p - 1) as nat);
    let q = a / d;
    lemma_p2_mono(p, p + k);
    let j = lemma_nearest_scale(a, d, p);
    lemma_floor_log2(q);
    if floor_log2(q) < p + k {
        lemma_p2_mono(floor_log2(q) + 1, p + k);
    }
    assert(j >= k + 1);
    let r = round_half_even(a, d * p2(j));
    assert(j * half + r >= (k + 2) * half) by (nonlinear_arith)
        requires
            j >= k + 1,
            r >= half,
    ;
}

/// What is small enough becomes a finite number.
pub proof fn lemma_nearest_finite(a: nat, d: nat, p: nat, inf: nat, k: nat)
    requires
        p >= 1,
        d > 0,
        a / d < p2(p + k),
        (k + 2) * p2((p - 1) as nat) < inf,
    ensures
        nearest(a, d, p, inf) < inf,
{
    let half = p2((p - 1) as nat);
    let q = a / d;
    lemma_p2_mono(0, (p - 1) as nat);
    assert(p2(p) == 2 * half);
    let j = lemma_nearest_scale(a, d, p);
    if q >= p2(p) {
        lemma_p2_mono(0, p);
        lemma_floor_log2(q);
        if floor_log2(q) >= p + k {
            lemma_p2_mono(p + k, floor_log2(q));
        }
        if floor_log2(q) < p {
            lemma_p2_mono(floor_log2(q) + 1, p);
        }
    }
    assert(j <= k);
    let r = round_half_even(a, d * p2(j));
    assert(j * half + r <= (k + 2) * half) by (nonlinear_arith)
        requires
            j <= k,
            r <= 2 * half,
    ;
}

/// A larger pattern stands for a larger number.
pub proof fn lemma_units_monotone(g: nat, h: nat, p: nat)
    requires
        p >= 1,
        g <= h,
    ensures
        units(g, p) <= units(h, p),
        g < h ==> units(g, p) < units(h, p),
{
    lemma_units(g, p);
    lemma_units(h, p);
    let half = p2((p - 1) as nat);
    lemma_p2_mono(0, (p - 1) as nat);
    assert(p2(p) == 2 * half);
    if g >= p2(p) {
        let j = (g / half - 1) as nat;
        let k = (h / half - 1) as nat;
        vstd::arithmetic::div_mod::lemma_div_is_ordered(g as int, h as int, half as int);
        if j == k {
            let r = (g - j * half) as nat;
            let s = (h - k * half) as nat;
            let c = p2(j);
            lemma_p2_mono(0, j);
            assert(r * c <= s * c) by (nonlinear_arith)
                requires
                    r <= s,
            ;
            assert(r < s ==> r * c < s * c) by (nonlinear_arith)
                requires
                    c >= 1,
            ;
        } else {
            lemma_p2_mono((p + j) as nat, (p - 1 + k) as nat);
        }
    } else if h >= p2(p) {
        let k = (h / half - 1) as nat;
        lemma_p2_mono(p, (p - 1 + k) as nat);
    }
}

/// Conversion rounds to nearest: no finite number of the format is closer to
/// the converted magnitude than the result.
pub proof fn lemma_nearest_is_nearest(a: nat, d: nat, p: nat, inf: nat, other: nat)
    requires
        p >= 1,
        d > 0,
        nearest(a, d, p, inf) < inf,
    ensures
        distance(units(nearest(a, d, p, inf), p) * d, a) <= distance(units(other, p) * d, a),
{
    let half = p2((p - 1) as nat);
    let k = lemma_nearest_scale(a, d, p);
    let c = p2(k);
    let r = round_half_even(a, d * c);
    let g = k * half + r;
    assert(nearest(a, d, p, inf) == g);
    lemma_units_of_scaled(k, r, p);
    assert((r * c) * d == r * (d * c)) by (nonlinear_arith);
    lemma_p2_mono(0, k);
    let v = units(other, p);
    lemma_units(other, p);
    if k == 0 {
        lemma_round_nearest(a, d * c, v);
        assert(v * (d * c) == v * d) by (nonlinear_arith)
            requires
                c == 1,
        ;
    } else if other >= p2(p) && other / half - 1 >= k {
        let j = (other / half - 1) as nat;
        let s = (other - j * half) as nat;
        lemma_p2_add((j - k) as nat, k);
        let b = p2((j - k) as nat);
        assert(v == (s * b) * c) by (nonlinear_arith)
            requires
                v == s * p2(j),
                p2(j) == b * c,
        ;
        assert(v * d == (s * b) * (d * c)) by (nonlinear_arith)
            requires
                v == (s * b) * c,
        ;
        lemma_round_nearest(a, d * c, s * b);
    } else {
        // a number below the scale is farther than the first one of the scale
        assert(v <= half * c) by {
            lemma_p2_add((p - 1) as nat, k);
            if other < p2(p) {
                lemma_p2_mono(p, (p - 1) as nat + k);
            } else {
                let j = (other / half - 1) as nat;
                lemma_p2_mono((p + j) as nat, (p - 1) as nat + k);
            }
        }
        lemma_round_nearest(a, d * c, half);
        assert(v * d <= half * (d * c)) by (nonlinear_arith)
            requires
                v <= half * c,
        ;
    }
}

/// [`nearest`] does not see a common factor.
pub proof fn lemma_nearest_common(a: nat, d: nat, c: nat, p: nat, inf: nat)
    requires
        d > 0,
        c > 0,
    ensures
        nearest(a * c, d * c, p, inf) == nearest(a, d, p, inf),
{
    lemma_quotient(a, d);
    let q = a / d;
    let r = a % d;
    assert(q * (d * c) <= a * c < (q + 1) * (d * c)) by (nonlinear_arith)
        requires
            a == q * d + r,
            r < d,
            c > 0,
    ;
    lemma_quotient_is(a * c, d * c, q);
    let k = if q < p2(p) {
        0
    } else {
        (floor_log2(q) - (p - 1)) as nat
    };
    let e = p2(k);
    lemma_p2_mono(0, k);
    assert(d * e > 0) by (nonlinear_arith)
        requires
            d > 0,
            e > 0,
    ;
    assert((d * c) * e == (d * e) * c) by (nonlinear_arith);
    lemma_round_scale(a, d * e, c);
}

/// The numerator of `n * 2^s`.
pub open spec fn scaled_num(n: nat, s: int) -> nat {
    if s >= 0 {
        n * p2(s as nat)
    } else {
        n
    }
}

/// The denominator of `n * 2^s`.
pub open spec fn scaled_den(s: int) -> nat {
    if s >= 0 {
        1
    } else {
        p2((-s) as nat)
    }
}

/// A numerator and a denominator that stand in the ratio of `n * 2^s` round as
/// that number does.
pub proof fn lemma_nearest_scaled(n: nat, i: nat, j: nat, p: nat, inf: nat)
    ensures
        nearest(n * p2(i), p2(j), p, inf) == nearest(
            scaled_num(n, i - j),
            scaled_den(i - j),
            p,
            inf,
        ),
{
    lemma_p2_mono(0, i);
    lemma_p2_mono(0, j);
    if i >= j {
        let up = p2((i - j) as nat);
        lemma_p2_add((i - j) as nat, j);
        let c = p2(j);
        assert(n * (up * c) == (n * up) * c) by (nonlinear_arith);
        assert(1 * c == c);
        lemma_nearest_common(n * up, 1, c, p, inf);
    } else {
        let down = p2((j - i) as nat);
        lemma_p2_mono(0, (j - i) as nat);
        lemma_p2_add((j - i) as nat, i);
        lemma_nearest_common(n, down, p2(i), p, inf);
    }
}

/// Some larger powers of two.
proof fn lemma_p2_large()
    ensures
        p2(38) == 0x40_0000_0000,
        p2(62) == 0x4000_0000_0000_0000,
        p2(63) == 0x8000_0000_0000_0000,
{
    lemma_p2_values();
    lemma_p2_add(31, 31);
    lemma_p2_add(31, 32);
    lemma_p2_add(31, 7);
    assert(p2(7) == 128) by {
        reveal_with_fuel(p2, 8);
    }
    assert(p2(38) == 0x8000_0000nat * 128);
    assert(p2(62) == 0x8000_0000nat * 0x8000_0000);
    assert(p2(63) == 0x8000_0000nat * 0x1_0000_0000);
}

/// `2^n`.
pub(crate) fn pow2_u64(n: u32) -> (r: u64)
    requires
        n < 64,
    ensures
        r as nat == p2(n as nat),
{
    let mut r: u64 = 1;
    let mut i: u32 = 0;
    while i < n
        invariant
            i <= n < 64,
            r as nat == p2(i as nat),
        decreases n - i,
    {
        proof {
            lemma_p2_mono(i as nat, 62);
            lemma_p2_large();
        }
        r = r * 2;
        i = i + 1;
    }
    r
}

/// The largest `l` with `2^l <= n`.
pub(crate) fn log2_u64(n: u64) -> (l: u32)
    requires
        0 < n < 0x4000_0000_0000_0000,
    ensures
        l as nat == floor_log2(n as nat),
        p2(l as nat) <= n < p2((l + 1) as nat),
        l <= 61,
{
    let mut l: u32 = 0;
    let mut p: u64 = 1;
    proof {
        lemma_p2_large();
    }
    while p * 2 <= n
        invariant
            l <= 61,
            p as nat == p2(l as nat),
            1 <= p <= n < 0x4000_0000_0000_0000,
            p2(62) == 0x4000_0000_0000_0000,
        decreases n - p,
    {
        p = p * 2;
        l = l + 1;
        proof {
            if l >= 62 {
                lemma_p2_mono(62, l as nat);
            }
        }
    }
    proof {
        assert(p2((l + 1) as nat) == 2 * p2(l as nat));
        lemma_floor_log2_unique(n as nat, l as nat);
    }
    l
}

/// The pattern nearest to `n * 2^s` units in a format of `p` significant bits.
pub(crate) fn pack(n: u64, s: i32, p: u32, inf: u32) -> (r: u32)
    requires
        n < 0x4000_0000_0000_0000,
        -0x1000_0000 < s < 0x1000_0000,
        2 <= p <= 24,
    ensures
        r as nat == nearest(
            scaled_num(n as nat, s as int),
            scaled_den(s as int),
            p as nat,
            inf as nat,
        ),
        r <= inf,
{
    let ghost a = scaled_num(n as nat, s as int);
    let ghost d = scaled_den(s as int);
    proof {
        lemma_p2_values();
        lemma_p2_large();
        lemma_p2_mono(p as nat, 24);
        assert(p2(p as nat) == 2 * p2((p - 1) as nat));
    }
    if n == 0 {
        proof {
            lemma_pack_zero(s as int, p as nat, inf as nat);
        }
        return 0;
    }
    let l: u32 = log2_u64(n);
    let top: i32 = l as i32 + s;
    proof {
        lemma_pack_top(n as nat, l as nat, s as int, p as nat);
    }
    let half: u64 = pow2_u64(p - 1);
    let k: i32;
    let r: u64;
    if top < p as i32 {
        // numbers are one unit apart
        k = 0;
        proof {
            assert(d * p2(0) == d) by (nonlinear_arith)
                requires
                    p2(0) == 1,
            ;
        }
        if s >= 0 {
            let up: u64 = pow2_u64(s as u32);
            proof {
                lemma_round_exact(a, 1);
                assert(a * 1 == a);
            }
            r = n * up;
        } else if s <= -63 {
            proof {
                lemma_p2_mono(63, (-s) as nat);
                assert(0 * d == 0 && (0 + 1) * d == d) by (nonlinear_arith);
                lemma_quotient_is(n as nat, d, 0);
                lemma_quotient(n as nat, d);
            }
            r = 0;
        } else {
            let down: u64 = pow2_u64((-s) as u32);
            proof {
                lemma_p2_mono((-s) as nat, 62);
                lemma_quotient(n as nat, d);
            }
            r = round_div(n, down);
        }
    } else {
        k = top - (p as i32 - 1);
        proof {
            lemma_pack_significand(n as nat, l as nat, s as int, p as nat);
        }
        if l < p {
            let up: u64 = pow2_u64(p - 1 - l);
            proof {
                lemma_pack_up(n as nat, l as nat, p as nat);
            }
            r = n * up;
        } else {
            let down: u64 = pow2_u64(l - (p - 1));
            proof {
                let j = (l - (p - 1)) as nat;
                lemma_p2_mono(j, 62);
                lemma_p2_add((p - 1) as nat, j);
                lemma_p2_add(p as nat, j);
                assert((p - 1) as nat + j == l);
                assert(p as nat + j == l + 1);
                lemma_round_bounds(n as nat, p2(j), p2((p - 1) as nat), p2(p as nat));
            }
            r = round_div(n, down);
        }
    }
    assert(r <= p2(p as nat));
    proof {
        let kk = k as int;
        let hh = half as int;
        assert(0 <= kk * hh <= 0x2000_0000 * 0x80_0000) by (nonlinear_arith)
            requires
                0 <= kk <= 0x2000_0000,
                0 <= hh <= 0x80_0000,
        ;
    }
    let bits: u64 = k as u64 * half + r;
    if bits < inf as u64 {
        bits as u32
    } else {
        inf
    }
}

/// Zero rounds to zero.
proof fn lemma_pack_zero(s: int, p: nat, inf: nat)
    ensures
        nearest(scaled_num(0, s), scaled_den(s), p, inf) == 0,
{
    let a = scaled_num(0, s);
    let d = scaled_den(s);
    if s >= 0 {
        assert(0 * p2(s as nat) == 0) by (nonlinear_arith);
    } else {
        lemma_p2_mono(0, (-s) as nat);
    }
    assert(0 * d == 0 && (0 + 1) * d == d) by (nonlinear_arith);
    lemma_quotient_is(0, d, 0);
    lemma_p2_mono(0, p);
    assert(d * p2(0) == d) by (nonlinear_arith)
        requires
            p2(0) == 1,
    ;
    lemma_round_exact(0, d);
    assert(0 * p2((p - 1) as nat) == 0) by (nonlinear_arith);
}

/// Where the leading bit of `n * 2^s` stands.
proof fn lemma_pack_top(n: nat, l: nat, s: int, p: nat)
    requires
        p2(l) <= n < p2(l + 1),
    ensures
        scaled_den(s) > 0,
        l + s < p ==> scaled_num(n, s) / scaled_den(s) < p2(p),
        l + s >= p ==> {
            &&& scaled_num(n, s) / scaled_den(s) >= p2(p)
            &&& floor_log2(scaled_num(n, s) / scaled_den(s)) == l + s
        },
        s >= 0 && l + s < p ==> scaled_num(n, s) < p2(p),
        s >= 0 ==> p2(s as nat) <= scaled_num(n, s),
{
    let a = scaled_num(n, s);
    let d = scaled_den(s);
    if s >= 0 {
        let c = p2(s as nat);
        lemma_p2_mono(0, s as nat);
        lemma_p2_mono(0, l);
        lemma_p2_add(l, s as nat);
        lemma_p2_add(l + 1, s as nat);
        assert(p2(l) * c <= n * c < p2(l + 1) * c) by (nonlinear_arith)
            requires
                p2(l) <= n < p2(l + 1),
                c > 0,
        ;
        assert(c <= n * c) by (nonlinear_arith)
            requires
                n >= 1,
        ;
        assert(a / 1 == a);
        assert(l + 1 + s as nat == (l + s) as nat + 1);
        lemma_floor_log2_unique(a, (l + s) as nat);
        if l + s < p {
            lemma_p2_mono((l + s) as nat + 1, p);
        } else {
            lemma_p2_mono(p, (l + s) as nat);
        }
    } else {
        let t = (-s) as nat;
        lemma_p2_mono(0, t);
        lemma_quotient(a, d);
        let q = a / d;
        if l + s >= 0 {
            let h = (l + s) as nat;
            lemma_p2_add(h, t);
            lemma_p2_add(h + 1, t);
            assert(h + t == l);
            assert(h + 1 + t == l + 1);
            let r = a % d;
            assert(p2(h) <= q) by (nonlinear_arith)
                requires
                    p2(h) * d <= q * d + r,
                    r < d,
            ;
            assert(q < p2(h + 1)) by (nonlinear_arith)
                requires
                    q * d + r < p2(h + 1) * d,
                    r >= 0,
                    d > 0,
            ;
            lemma_floor_log2_unique(q, h);
            if h < p {
                lemma_p2_mono(h + 1, p);
            } else {
                lemma_p2_mono(p, h);
            }
        } else {
            lemma_p2_mono(l + 1, t);
            assert(n < d);
            assert(0 * d == 0 && (0 + 1) * d == d) by (nonlinear_arith);
            lemma_quotient_is(n, d, 0);
            lemma_p2_mono(0, p);
        }
    }
}

/// The significand of `n * 2^s` depends on `n` alone.
proof fn lemma_pack_significand(n: nat, l: nat, s: int, p: nat)
    requires
        p2(l) <= n < p2(l + 1),
        p >= 1,
        l + s >= p,
    ensures
        round_half_even(scaled_num(n, s), scaled_den(s) * p2((l + s - (p - 1)) as nat)) == (if l
            < p {
            n * p2((p - 1 - l) as nat)
        } else {
            round_half_even(n, p2((l - (p - 1)) as nat))
        }),
{
    let a = scaled_num(n, s);
    let d = scaled_den(s);
    let k = (l + s - (p - 1)) as nat;
    lemma_p2_mono(0, k);
    if s >= 0 {
        assert(d * p2(k) == p2(k)) by (nonlinear_arith)
            requires
                d == 1,
        ;
        if l < p {
            let j = (p - 1 - l) as nat;
            lemma_p2_add(j, k);
            assert(j + k == s as nat);
            let c = p2(k);
            assert(n * (p2(j) * c) == (n * p2(j)) * c) by (nonlinear_arith);
            lemma_round_exact(n * p2(j), c);
        } else {
            let j = (l - (p - 1)) as nat;
            lemma_p2_add(j, s as nat);
            assert(j + s as nat == k);
            lemma_p2_mono(0, j);
            lemma_p2_mono(0, s as nat);
            lemma_round_scale(n, p2(j), p2(s as nat));
        }
    } else {
        let j = (l - (p - 1)) as nat;
        lemma_p2_add((-s) as nat, k);
        assert((-s) as nat + k == j);
    }
}

/// A number below `2^p` scaled up to a significand of `p` bits.
proof fn lemma_pack_up(n: nat, l: nat, p: nat)
    requires
        p2(l) <= n < p2(l + 1),
        l < p,
    ensures
        p2((p - 1) as nat) <= n * p2((p - 1 - l) as nat) < p2(p),
        p2((p - 1 - l) as nat) <= n * p2((p - 1 - l) as nat),
{
    let j = (p - 1 - l) as nat;
    lemma_p2_add(l, j);
    lemma_p2_add(l + 1, j);
    lemma_p2_mono(0, j);
    lemma_p2_mono(0, l);
    assert(l + j == (p - 1) as nat);
    assert(l + 1 + j == p);
    let c = p2(j);
    assert(p2(l) * c <= n * c < p2(l + 1) * c) by (nonlinear_arith)
        requires
            p2(l) <= n < p2(l + 1),
            c > 0,
    ;
    assert(c <= n * c) by (nonlinear_arith)
        requires
            n >= 1,
    ;
}

/// A number that has at most `p` significant bits, and is not too large for
/// the format, is converted exactly.
pub proof fn lemma_nearest_of_short(n: nat, s: nat, p: nat, inf: nat)
    requires
        p >= 2,
        n < p2(p),
        inf >= (s + 2) * p2((p - 1) as nat),
    ensures
        nearest(scaled_num(n, s as int), scaled_den(s as int), p, inf) < inf,
        units(nearest(scaled_num(n, s as int), scaled_den(s as int), p, inf), p) == n * p2(s),
{
    let half = p2((p - 1) as nat);
    lemma_p2_mono(0, (p - 1) as nat);
    let a = n * p2(s);
    let t = s + 2;
    assert(2 * half <= t * half) by (nonlinear_arith)
        requires
            t >= 2,
    ;
    assert(p2(p) == 2 * half);
    if n == 0 {
        lemma_pack_zero(s as int, p, inf);
        lemma_units(0, p);
        assert(0 * p2(s) == 0) by (nonlinear_arith);
    } else {
        lemma_floor_log2(n);
        let l = floor_log2(n);
        if l >= p {
            lemma_p2_mono(p, l);
        }
        lemma_pack_top(n, l, s as int, p);
        if l + s < p {
            assert(1 * p2(0) == 1);
            lemma_round_exact(a, 1);
            assert(a * 1 == a);
            assert(a / 1 == a);
            assert(0 * half == 0) by (nonlinear_arith);
            lemma_units(a, p);
        } else {
            lemma_pack_significand(n, l, s as int, p);
            lemma_pack_up(n, l, p);
            let j = (p - 1 - l) as nat;
            let k = (l + s - (p - 1)) as nat;
            let r = n * p2(j);
            lemma_units_of_scaled(k, r, p);
            lemma_p2_add(j, k);
            assert(j + k == s);
            assert((n * p2(j)) * p2(k) == n * (p2(j) * p2(k))) by (nonlinear_arith);
            assert(k * half + r < t * half) by (nonlinear_arith)
                requires
                    r < 2 * half,
                    k + 2 <= t,
            ;
            assert(1 * p2(k) == p2(k));
        }
    }
}

} // verus!
