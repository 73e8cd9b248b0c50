//! Quantization formats compatible with GGUF / llama.cpp.
//!
//! ## Block layout
//!
//! `Q4_0`: 32 elements per block, 18 bytes: an fp16 scale `d`, then 16 bytes
//! that hold two nibbles each. The low nibble of byte `j` is element `j`, the
//! high nibble is element `j + 16`. Both are read as `nibble - 8` (a signed
//! number from -8 to 7) and multiplied by the scale.
//!
//! `Q8_0`: 32 elements per block, 34 bytes: an fp16 scale `d`, then 32 signed
//! bytes. `y[i] = qs[i] * d`.
//!
//! Floating-point values are bit patterns.

use crate::bytes::{
    le_bytes, lemma_le_bytes_len, lemma_le_bytes_of_le_value, lemma_le_value_of_le_bytes,
    lemma_pow256_values, push_le, read_le,
};
use crate::float_bits::{
    f16_mag, f16_neg, f16_units, f32_mag, f32_neg, f32_pack, f32_units, lemma_nearest_of_short,
    lemma_p2_add, lemma_p2_mono, lemma_p2_values, lemma_quotient, lemma_quotient_is, lemma_units,
    nearest, p2, pack, pow2_u64, F16_INF, F32_INF,
};
use crate::float_ops::{
    f16_is_inf, f16_is_nan, f16_parts, f32_div, f32_is_inf, f32_is_nan, f32_is_zero, f32_mul,
    f32_parts, f32_to_f16_bits, narrowed, product, quotient, F32_NAN,
};
use vstd::prelude::*;

verus! {

/// Elements per quantization block. Standard ggml value.
pub const QK: usize = 32;

/// A Q4_0 block.
#[derive(Copy, Clone, Debug)]
pub struct BlockQ4_0 {
    /// FP16 scale (bits).
    pub d: u16,
    /// 32 x 4-bit signed values packed as 16 bytes.
    pub qs: [u8; 16],
}

/// A Q8_0 block.
#[derive(Copy, Clone, Debug, PartialEq, Eq)]
pub struct BlockQ8_0 {
    /// FP16 scale (bits).
    pub d: u16,
    pub qs: [i8; 32],
}

/// The distance of a number from zero.
pub open spec fn abs(v: int) -> nat {
    if v < 0 {
        (-v) as nat
    } else {
        v as nat
    }
}

/// The fp32 pattern of `q` times the fp16 scale `d`.
pub open spec fn dequantized(q: int, d: u16) -> nat {
    if f16_is_nan(d) || (f16_is_inf(d) && q == 0) {
        F32_NAN as nat
    } else {
        f32_pack(
            (q < 0) != f16_neg(d),
            if f16_is_inf(d) {
                F32_INF as nat
            } else {
                nearest(abs(q) * f16_units(d) * p2(125), 1, 24, F32_INF as nat)
            },
        )
    }
}

/// Dequantization is exact: the fp32 number is `q` times the value of the
/// scale, without rounding.
pub proof fn lemma_dequantized_exact(q: int, d: u16, r: u32)
    requires
        -128 <= q <= 127,
        f16_mag(d) < F16_INF,
        r as nat == dequantized(q, d),
    ensures
        f32_mag(r) < F32_INF,
        f32_units(r) == abs(q) * f16_units(d) * p2(125),
        f32_neg(r) == ((q < 0) != f16_neg(d)),
{
    let g = f16_mag(d);
    let half = p2(10);
    lemma_p2_values();
    lemma_units(g, 11);
    // the magnitude is m * 2^e with a significand of at most 11 bits
    let (m, e): (nat, nat) = if g < p2(11) {
        (g, 0)
    } else {
        ((g - (g / half - 1) * half) as nat, (g / half - 1) as nat)
    };
    assert(f16_units(d) == m * p2(e)) by {
        if g < p2(11) {
            assert(m * p2(0) == m) by (nonlinear_arith)
                requires
                    p2(0) == 1,
            ;
        }
    }
    assert(m < 2048 && e <= 29);
    let a = abs(q);
    let n = a * m;
    assert(n < 0x100_0000) by (nonlinear_arith)
        requires
            a <= 128,
            m < 2048,
            n == a * m,
    ;
    lemma_p2_add(e, 125);
    assert(a * (m * p2(e)) * p2(125) == n * p2(e + 125)) by (nonlinear_arith)
        requires
            n == a * m,
            p2(e + 125) == p2(e) * p2(125),
    ;
    assert((e + 127) * p2(23) <= F32_INF) by (nonlinear_arith)
        requires
            e <= 29,
            p2(23) == 0x80_0000,
    ;
    lemma_nearest_of_short(n, e + 125, 24, F32_INF as nat);
}

/// The fp32 pattern of `q` times the fp16 scale `d`.
fn dequantize_value(q: i32, d: u16) -> (r: u32)
    requires
        -128 <= q <= 127,
    ensures
        r as nat == dequantized(q as int, d),
{
    let g: u16 = d % 0x8000;
    if g > F16_INF || (g == F16_INF && q == 0) {
        return F32_NAN;
    }
    let neg: bool = (q < 0) != (d >= 0x8000);
    let mag: u32;
    if g == F16_INF {
        mag = F32_INF;
    } else {
        let (m, e) = f16_parts(d);
        let a: u64 = if q < 0 {
            (-q) as u64
        } else {
            q as u64
        };
        proof {
            let aa = a as nat;
            let mm = m as nat;
            assert(aa * mm < 0x100_0000) by (nonlinear_arith)
                requires
                    aa <= 128,
                    mm < 2048,
            ;
            let n = aa * mm;
            lemma_p2_add(e as nat, 125);
            let b = p2(e as nat);
            assert(aa * (mm * b) * p2(125) == n * (b * p2(125))) by (nonlinear_arith)
                requires
                    n == aa * mm,
            ;
        }
        mag = pack(a * m, e as i32 + 125, 24, F32_INF);
    }
    if neg {
        0x8000_0000 + mag
    } else {
        mag
    }
}

/// The low nibble of a byte, as a signed number.
pub open spec fn low_nibble(b: u8) -> int {
    b % 16 - 8
}

/// The high nibble of a byte, as a signed number.
pub open spec fn high_nibble(b: u8) -> int {
    b / 16 - 8
}

/// Element `j` of a Q4_0 block.
pub open spec fn q4_element(b: BlockQ4_0, j: int) -> int {
    if j < 16 {
        low_nibble(b.qs@[j])
    } else {
        high_nibble(b.qs@[j - 16])
    }
}

/// Dequantize Q4_0 blocks into a flat fp32 buffer. `out.len()` must equal
/// `blocks.len() * QK`.
pub fn dequantize_q4_0(blocks: &[BlockQ4_0], out: &mut [u32])
    requires
        old(out)@.len() == blocks@.len() * 32,
    ensures
        final(out)@.len() == old(out)@.len(),
        forall|i: int, j: int|
            0 <= i < blocks@.len() && 0 <= j < 32 ==> #[trigger] final(out)@[32 * i + j] as nat
                == dequantized(#[trigger] q4_element(blocks@[i], j), blocks@[i].d),
{
    let total: usize = out.len();
    let mut i: usize = 0;
    while i < blocks.len()
        invariant
            i <= blocks@.len(),
            out@.len() == blocks@.len() * 32,
            total == out@.len(),
            forall|b: int, j: int|
                0 <= b < i && 0 <= j < 32 ==> #[trigger] out@[32 * b + j] as nat == dequantized(
                    #[trigger] q4_element(blocks@[b], j),
                    blocks@[b].d,
                ),
        decreases blocks@.len() - i,
    {
        let d: u16 = blocks[i].d;
        let base: usize = i * QK;
        let mut j: usize = 0;
        while j < 16
            invariant
                i < blocks@.len(),
                j <= 16,
                base == 32 * i,
                d == blocks@[i as int].d,
                out@.len() == blocks@.len() * 32,
                forall|b: int, k: int|
                    0 <= b < i && 0 <= k < 32 ==> #[trigger] out@[32 * b + k] as nat
                        == dequantized(#[trigger] q4_element(blocks@[b], k), blocks@[b].d),
                forall|k: int|
                    0 <= k < j ==> out@[base + k] as nat == dequantized(
                        #[trigger] q4_element(blocks@[i as int], k),
                        d,
                    ),
                forall|k: int|
                    16 <= k < 16 + j ==> out@[base + k] as nat == dequantized(
                        #[trigger] q4_element(blocks@[i as int], k),
                        d,
                    ),
            decreases 16 - j,
        {
            let q: u8 = blocks[i].qs[j];
            let lo: i32 = (q % 16) as i32 - 8;
            let hi: i32 = (q / 16) as i32 - 8;
            out[base + j] = dequantize_value(lo, d);
            out[base + j + 16] = dequantize_value(hi, d);
            j = j + 1;
        }
        i = i + 1;
    }
}

/// Dequantize Q8_0 blocks into a flat fp32 buffer. `out.len()` must equal
/// `blocks.len() * QK`.
pub fn dequantize_q8_0(blocks: &[BlockQ8_0], out: &mut [u32])
    requires
        old(out)@.len() == blocks@.len() * 32,
    ensures
        final(out)@.len() == old(out)@.len(),
        forall|i: int, j: int|
            0 <= i < blocks@.len() && 0 <= j < 32 ==> #[trigger] final(out)@[32 * i + j] as nat
                == dequantized(#[trigger] blocks@[i].qs@[j] as int, blocks@[i].d),
{
    let total: usize = out.len();
    let mut i: usize = 0;
    while i < blocks.len()
        invariant
            i <= blocks@.len(),
            out@.len() == blocks@.len() * 32,
            total == out@.len(),
            forall|b: int, j: int|
                0 <= b < i && 0 <= j < 32 ==> #[trigger] out@[32 * b + j] as nat == dequantized(
                    #[trigger] blocks@[b].qs@[j] as int,
                    blocks@[b].d,
                ),
        decreases blocks@.len() - i,
    {
        let d: u16 = blocks[i].d;
        let base: usize = i * QK;
        let mut j: usize = 0;
        while j < QK
            invariant
                i < blocks@.len(),
                j <= 32,
                base == 32 * i,
                d == blocks@[i as int].d,
                out@.len() == blocks@.len() * 32,
                forall|b: int, k: int|
                    0 <= b < i && 0 <= k < 32 ==> #[trigger] out@[32 * b + k] as nat
                        == dequantized(#[trigger] blocks@[b].qs@[k] as int, blocks@[b].d),
                forall|k: int|
                    0 <= k < j ==> out@[base + k] as nat == dequantized(
                        #[trigger] blocks@[i as int].qs@[k] as int,
                        d,
                    ),
            decreases 32 - j,
        {
            out[base + j] = dequantize_value(blocks[i].qs[j] as i32, d);
            j = j + 1;
        }
        i = i + 1;
    }
}

// ---- quantization ---------------------------------------------------------------------

/// The largest magnitude among the numbers of a chunk; a NaN does not count.
pub open spec fn max_mag(xs: Seq<u32>) -> nat
    decreases xs.len(),
{
    if xs.len() == 0 {
        0
    } else {
        let m = max_mag(xs.drop_last());
        let g = f32_mag(xs.last());
        if g <= F32_INF && g > m {
            g
        } else {
            m
        }
    }
}

/// The fp32 pattern of 127.
pub const F32_127: u32 = 0x42FE_0000;

/// The fp32 pattern of 1.
pub const F32_ONE: u32 = 0x3F80_0000;

/// The scale of a chunk: its largest magnitude over 127.
pub open spec fn chunk_scale(xs: Seq<u32>) -> u32 {
    quotient(max_mag(xs) as u32, F32_127) as u32
}

/// One over the scale, or zero where the scale is zero.
pub open spec fn inverse_scale(d: u32) -> u32 {
    if f32_is_zero(d) {
        0
    } else {
        quotient(F32_ONE, d) as u32
    }
}

/// A number rounded to the nearest integer, halves away from zero, and brought
/// into the range of a signed byte; a NaN counts as zero.
pub open spec fn rounded_i8(b: u32) -> int {
    if f32_is_nan(b) {
        0
    } else {
        let n = if f32_is_inf(b) {
            128
        } else {
            ((2 * f32_units(b) + p2(149)) / p2(150)) as int
        };
        if f32_neg(b) {
            if n > 128 {
                -128
            } else {
                -n
            }
        } else {
            if n > 127 {
                127
            } else {
                n
            }
        }
    }
}

/// The Q8_0 byte of a number, given one over the scale.
pub open spec fn quantized(x: u32, inv: u32) -> int {
    rounded_i8(product(x, inv) as u32)
}

/// What a chunk of 32 numbers is quantized to.
pub open spec fn is_quantized(b: BlockQ8_0, xs: Seq<u32>) -> bool {
    let d = chunk_scale(xs);
    let inv = inverse_scale(d);
    &&& b.d as nat == narrowed(d)
    &&& forall|j: int| 0 <= j < 32 ==> #[trigger] b.qs@[j] as int == quantized(xs[j], inv)
}

proof fn lemma_max_mag_bound(xs: Seq<u32>)
    ensures
        max_mag(xs) <= F32_INF,
    decreases xs.len(),
{
    if xs.len() > 0 {
        lemma_max_mag_bound(xs.drop_last());
    }
}

/// `(2 * m * 2^e + 2^149) / 2^150`, brought down to at most 128.
fn rounded_magnitude(m: u64, e: u32) -> (n: u64)
    requires
        m < 0x100_0000,
        e <= 253,
    ensures
        n <= 128,
        ({
            let v = (2 * (m as nat * p2(e as nat)) + p2(149)) / p2(150);
            n as nat == if v > 128 {
                128
            } else {
                v
            }
        }),
{
    let ghost a = m as nat * p2(e as nat);
    proof {
        lemma_p2_values();
        lemma_p2_mono(0, 149);
        assert(p2(150) == 2 * p2(149));
    }
    if m == 0 {
        proof {
            assert(a == 0) by (nonlinear_arith)
                requires
                    a == m as nat * p2(e as nat),
                    m == 0,
            ;
            lemma_round_small(a, 0);
        }
        return 0;
    }
    if e >= 157 {
        proof {
            lemma_p2_mono(157, e as nat);
            lemma_p2_add(8, 149);
            let b = p2(e as nat);
            assert(a >= b) by (nonlinear_arith)
                requires
                    a == m as nat * b,
                    m >= 1,
            ;
            lemma_round_large(a);
        }
        return 128;
    }
    if e <= 124 {
        proof {
            lemma_p2_mono(e as nat, 124);
            lemma_p2_add(24, 124);
            assert(p2(149) == 2 * p2(148));
            let b = p2(e as nat);
            let c = p2(124);
            assert(a < 0x100_0000 * c) by (nonlinear_arith)
                requires
                    a == m as nat * b,
                    m < 0x100_0000,
                    0 < b <= c,
            ;
            lemma_p2_mono(0, e as nat);
            lemma_round_small(a, 0);
        }
        return 0;
    }
    if e >= 150 {
        // a whole number of units of the result
        let up: u64 = pow2_u64(e - 149);
        proof {
            lemma_p2_mono((e - 149) as nat, 8);
            let u = p2((e - 149) as nat);
            let mm = m as nat;
            assert(mm * u < 0x1_0000_0000_0000) by (nonlinear_arith)
                requires
                    mm < 0x100_0000,
                    u <= 256,
            ;
            lemma_p2_add((e - 149) as nat, 149);
            assert((e - 149) as nat + 149 == e as nat);
            assert(a == (mm * u) * p2(149)) by (nonlinear_arith)
                requires
                    a == mm * p2(e as nat),
                    p2(e as nat) == u * p2(149),
            ;
            lemma_round_whole(mm * u);
        }
        let v: u64 = m * up;
        return if v > 128 {
            128
        } else {
            v
        };
    }
    // (2 * m + 2^s) / 2^(s + 1) where s = 149 - e
    let s: u32 = 149 - e;
    let half: u64 = pow2_u64(s);
    proof {
        lemma_p2_mono(s as nat, 24);
        lemma_round_part(m as nat, e as nat, s as nat);
    }
    let v: u64 = (2 * m + half) / (2 * half);
    if v > 128 {
        128
    } else {
        v
    }
}

/// Less than half a unit over `n` units rounds to `n`.
proof fn lemma_round_small(a: nat, n: nat)
    requires
        n * p2(149) <= a < n * p2(149) + p2(148),
    ensures
        (2 * a + p2(149)) / p2(150) == n,
{
    let c = p2(148);
    lemma_p2_mono(0, 148);
    assert(p2(149) == 2 * c);
    assert(p2(150) == 4 * c);
    let x = 2 * a + 2 * c;
    assert(n * (4 * c) <= x < (n + 1) * (4 * c)) by (nonlinear_arith)
        requires
            n * (2 * c) <= a < n * (2 * c) + c,
            x == 2 * a + 2 * c,
    ;
    lemma_quotient_is(x, 4 * c, n);
}

/// 256 units or more round to more than 128.
proof fn lemma_round_large(a: nat)
    requires
        a >= 256 * p2(149),
    ensures
        (2 * a + p2(149)) / p2(150) > 128,
{
    lemma_p2_mono(0, 149);
    assert(p2(150) == 2 * p2(149));
    let x = 2 * a + p2(149);
    let d = p2(150);
    lemma_quotient(x, d);
    let q = x / d;
    let r = x % d;
    assert(q > 128) by (nonlinear_arith)
        requires
            q * d + r >= 256 * d,
            r < d,
            d > 0,
    ;
}

/// A whole number rounds to itself.
proof fn lemma_round_whole(n: nat)
    ensures
        (2 * (n * p2(149)) + p2(149)) / p2(150) == n,
{
    lemma_p2_mono(0, 148);
    assert(p2(149) == 2 * p2(148));
    lemma_round_small(n * p2(149), n);
}

/// The common factor of the rounded quotient is cancelled.
proof fn lemma_round_part(m: nat, e: nat, s: nat)
    requires
        e + s == 149,
    ensures
        (2 * (m * p2(e)) + p2(149)) / p2(150) == (2 * m + p2(s)) / (2 * p2(s)),
{
    lemma_p2_add(s, e);
    lemma_p2_mono(0, e);
    lemma_p2_mono(0, s);
    assert(s + e == 149);
    let c = p2(e);
    let h = p2(s);
    assert(p2(150) == 2 * p2(149));
    let x = 2 * m + h;
    let d = 2 * h;
    lemma_quotient(x, d);
    let q = x / d;
    let r = x % d;
    let y = 2 * (m * c) + h * c;
    assert(y == x * c) by (nonlinear_arith)
        requires
            y == 2 * (m * c) + h * c,
            x == 2 * m + h,
    ;
    assert(q * (d * c) <= x * c < (q + 1) * (d * c)) by (nonlinear_arith)
        requires
            x == q * d + r,
            0 <= r < d,
            c > 0,
    ;
    assert(d * c == 2 * (h * c)) by (nonlinear_arith)
        requires
            d == 2 * h,
    ;
    lemma_quotient_is(x * c, d * c, q);
}

/// A number rounded to a signed byte.
fn round_to_i8(b: u32) -> (q: i8)
    ensures
        q as int == rounded_i8(b),
{
    let g: u32 = b % 0x8000_0000;
    if g > F32_INF {
        return 0;
    }
    let n: u64;
    if g == F32_INF {
        n = 128;
    } else {
        let (m, e) = f32_parts(b);
        n = rounded_magnitude(m, e);
    }
    if b >= 0x8000_0000 {
        (-(n as i64)) as i8
    } else if n > 127 {
        127
    } else {
        n as i8
    }
}

/// Quantize an fp32 slice into Q8_0 blocks.
pub fn quantize_q8_0(input: &[u32], out: &mut [BlockQ8_0])
    requires
        input@.len() == old(out)@.len() * 32,
    ensures
        final(out)@.len() == old(out)@.len(),
        forall|i: int|
            0 <= i < final(out)@.len() ==> is_quantized(
                #[trigger] final(out)@[i],
                input@.subrange(32 * i, 32 * i + 32),
            ),
{
    let total: usize = input.len();
    let mut i: usize = 0;
    while i < out.len()
        invariant
            i <= out@.len(),
            out@.len() == old(out)@.len(),
            input@.len() == out@.len() * 32,
            total == input@.len(),
            forall|b: int|
                0 <= b < i ==> is_quantized(
                    #[trigger] out@[b],
                    input@.subrange(32 * b, 32 * b + 32),
                ),
        decreases out@.len() - i,
    {
        let block = quantize_chunk(input, i * QK);
        out[i] = block;
        i = i + 1;
    }
}

/// The block of the 32 numbers at `base`.
fn quantize_chunk(input: &[u32], base: usize) -> (b: BlockQ8_0)
    requires
        base + 32 <= input@.len(),
    ensures
        is_quantized(b, input@.subrange(base as int, base + 32)),
{
    let ghost xs = input@.subrange(base as int, base + 32);
    let total: usize = input.len();
    let mut amax: u32 = 0;
    let mut j: usize = 0;
    while j < QK
        invariant
            j <= 32,
            base + 32 <= total == input@.len(),
            xs == input@.subrange(base as int, base + 32),
            amax as nat == max_mag(xs.subrange(0, j as int)),
            amax <= F32_INF,
        decreases 32 - j,
    {
        let g: u32 = input[base + j] % 0x8000_0000;
        if g <= F32_INF && g > amax {
            amax = g;
        }
        j = j + 1;
        proof {
            let s = xs.subrange(0, j as int);
            assert(s.drop_last() =~= xs.subrange(0, j - 1));
            assert(s.last() == input@[base + j - 1]);
        }
    }
    assert(xs.subrange(0, 32) =~= xs);
    let d: u32 = f32_div(amax, F32_127);
    let inv: u32 = if d % 0x8000_0000 != 0 {
        f32_div(F32_ONE, d)
    } else {
        0
    };
    let mut qs: [i8; 32] = [0;32];
    let mut k: usize = 0;
    while k < QK
        invariant
            k <= 32,
            base + 32 <= total == input@.len(),
            xs == input@.subrange(base as int, base + 32),
            forall|j: int| 0 <= j < k ==> #[trigger] qs@[j] as int == quantized(xs[j], inv),
        decreases 32 - k,
    {
        let p: u32 = f32_mul(input[base + k], inv);
        qs[k] = round_to_i8(p);
        k = k + 1;
    }
    BlockQ8_0 { d: f32_to_f16_bits(d), qs }
}

// ---- layout in memory -------------------------------------------------------------------

/// The byte of a signed number, in two's complement.
pub open spec fn byte_of(q: i8) -> u8 {
    (q as int % 256) as u8
}

/// The 18 bytes of a Q4_0 block.
pub open spec fn q4_bytes(b: BlockQ4_0) -> Seq<u8> {
    le_bytes(b.d as nat, 2) + b.qs@
}

/// The 34 bytes of a Q8_0 block.
pub open spec fn q8_bytes(b: BlockQ8_0) -> Seq<u8> {
    le_bytes(b.d as nat, 2) + Seq::new(32, |j: int| byte_of(b.qs@[j]))
}

/// The bytes of Q8_0 blocks in a row.
pub open spec fn q8_run(blocks: Seq<BlockQ8_0>) -> Seq<u8>
    decreases blocks.len(),
{
    if blocks.len() == 0 {
        Seq::empty()
    } else {
        q8_run(blocks.drop_last()) + q8_bytes(blocks.last())
    }
}

/// Where the blocks of a run stand.
pub(crate) proof fn lemma_q8_run(blocks: Seq<BlockQ8_0>, i: int)
    requires
        0 <= i < blocks.len(),
    ensures
        q8_run(blocks).len() == 34 * blocks.len(),
        q8_run(blocks).subrange(34 * i, 34 * i + 34) == q8_bytes(blocks[i]),
    decreases blocks.len(),
{
    let rest = blocks.drop_last();
    lemma_le_bytes_len(blocks.last().d as nat, 2);
    if rest.len() > 0 {
        lemma_q8_run(rest, 0);
    } else {
        assert(q8_run(rest) =~= Seq::empty());
    }
    if i < rest.len() {
        lemma_q8_run(rest, i);
        assert(q8_run(blocks).subrange(34 * i, 34 * i + 34) =~= q8_run(rest).subrange(
            34 * i,
            34 * i + 34,
        ));
    } else {
        assert(q8_run(blocks).subrange(34 * i, 34 * i + 34) =~= q8_bytes(blocks[i]));
    }
}

/// A block is determined by its bytes.
pub proof fn lemma_q8_bytes_injective(a: BlockQ8_0, b: BlockQ8_0)
    requires
        q8_bytes(a) == q8_bytes(b),
    ensures
        a.d == b.d,
        a.qs@ == b.qs@,
{
    lemma_pow256_values();
    lemma_le_bytes_len(a.d as nat, 2);
    lemma_le_bytes_len(b.d as nat, 2);
    assert(q8_bytes(a).subrange(0, 2) =~= le_bytes(a.d as nat, 2));
    assert(q8_bytes(b).subrange(0, 2) =~= le_bytes(b.d as nat, 2));
    lemma_le_value_of_le_bytes(a.d as nat, 2);
    lemma_le_value_of_le_bytes(b.d as nat, 2);
    assert forall|j: int| 0 <= j < 32 implies a.qs@[j] == b.qs@[j] by {
        assert(q8_bytes(a)[2 + j] == byte_of(a.qs@[j]));
        assert(q8_bytes(b)[2 + j] == byte_of(b.qs@[j]));
    }
    assert(a.qs@ =~= b.qs@);
}

/// Writing blocks down and reading them back gives the blocks: what reads the
/// bytes of a run holds the same scales and values.
pub proof fn lemma_q8_round_trip(blocks: Seq<BlockQ8_0>, back: Seq<BlockQ8_0>)
    requires
        back.len() == blocks.len(),
        forall|i: int|
            0 <= i < back.len() ==> q8_bytes(#[trigger] back[i]) == q8_run(blocks).subrange(
                34 * i,
                34 * i + 34,
            ),
    ensures
        forall|i: int|
            0 <= i < back.len() ==> (#[trigger] back[i]).d == blocks[i].d && back[i].qs@
                == blocks[i].qs@,
{
    assert forall|i: int| 0 <= i < back.len() implies (#[trigger] back[i]).d == blocks[i].d
        && back[i].qs@ == blocks[i].qs@ by {
        lemma_q8_run(blocks, i);
        lemma_q8_bytes_injective(back[i], blocks[i]);
    }
}

/// The bytes of Q8_0 blocks, in a row.
pub fn q8_to_bytes(blocks: &[BlockQ8_0]) -> (out: Vec<u8>)
    ensures
        out@ == q8_run(blocks@),
{
    let mut out: Vec<u8> = Vec::new();
    let mut i: usize = 0;
    while i < blocks.len()
        invariant
            i <= blocks@.len(),
            out@ == q8_run(blocks@.subrange(0, i as int)),
        decreases blocks@.len() - i,
    {
        let ghost before = out@;
        let b = blocks[i];
        push_le(&mut out, b.d as u64, 2);
        let mut j: usize = 0;
        while j < QK
            invariant
                j <= 32,
                out@ == before + le_bytes(b.d as nat, 2) + Seq::new(
                    j as nat,
                    |k: int| byte_of(b.qs@[k]),
                ),
            decreases 32 - j,
        {
            let q: i8 = b.qs[j];
            let v: u8 = if q < 0 {
                (q as i16 + 256) as u8
            } else {
                q as u8
            };
            let ghost prev = out@;
            out.push(v);
            j = j + 1;
            assert(out@ =~= before + le_bytes(b.d as nat, 2) + Seq::new(
                j as nat,
                |k: int| byte_of(b.qs@[k]),
            ));
        }
        i = i + 1;
        proof {
            let s = blocks@.subrange(0, i as int);
            assert(s.drop_last() =~= blocks@.subrange(0, i - 1));
            assert(s.last() == b);
            assert(out@ =~= q8_run(s));
        }
    }
    assert(blocks@.subrange(0, i as int) =~= blocks@);
    out
}

/// The Q8_0 blocks that bytes hold.
pub fn q8_from_bytes(bytes: &[u8]) -> (out: Vec<BlockQ8_0>)
    requires
        bytes@.len() % 34 == 0,
    ensures
        out@.len() == bytes@.len() / 34,
        forall|i: int|
            0 <= i < out@.len() ==> q8_bytes(#[trigger] out@[i]) == bytes@.subrange(
                34 * i,
                34 * i + 34,
            ),
{
    let n: usize = bytes.len() / 34;
    let mut out: Vec<BlockQ8_0> = Vec::new();
    let mut i: usize = 0;
    while i < n
        invariant
            i <= n,
            n * 34 == bytes@.len(),
            bytes@.len() <= usize::MAX,
            out@.len() == i,
            forall|b: int|
                0 <= b < i ==> q8_bytes(#[trigger] out@[b]) == bytes@.subrange(
                    34 * b,
                    34 * b + 34,
                ),
        decreases n - i,
    {
        let at: usize = 34 * i;
        let d: u16 = read_scale(bytes, at);
        let mut qs: [i8; 32] = [0;32];
        let mut j: usize = 0;
        while j < QK
            invariant
                j <= 32,
                at + 34 <= bytes@.len(),
                bytes@.len() <= usize::MAX,
                forall|k: int| 0 <= k < j ==> byte_of(#[trigger] qs@[k]) == bytes@[at + 2 + k],
            decreases 32 - j,
        {
            let v: u8 = bytes[at + 2 + j];
            qs[j] = if v < 128 {
                v as i8
            } else {
                (v as i16 - 256) as i8
            };
            j = j + 1;
        }
        let b = BlockQ8_0 { d, qs };
        proof {
            assert(q8_bytes(b) =~= bytes@.subrange(34 * i, 34 * i + 34)) by {
                lemma_le_bytes_len(d as nat, 2);
                let s = bytes@.subrange(at as int, at + 2);
                assert(bytes@.subrange(34 * i, 34 * i + 34).subrange(0, 2) =~= s);
                assert(forall|k: int| 0 <= k < 32 ==> byte_of(b.qs@[k]) == bytes@[at + 2 + k]);
                let whole = bytes@.subrange(34 * i, 34 * i + 34);
                assert forall|k: int| 0 <= k < 34 implies q8_bytes(b)[k] == whole[k] by {
                    if k < 2 {
                        assert(q8_bytes(b)[k] == le_bytes(d as nat, 2)[k]);
                        assert(s[k] == whole[k]);
                    }
                }
            }
        }
        out.push(b);
        i = i + 1;
    }
    out
}

/// The fp16 scale at a position.
fn read_scale(bytes: &[u8], at: usize) -> (d: u16)
    requires
        at + 2 <= bytes@.len(),
    ensures
        le_bytes(d as nat, 2) == bytes@.subrange(at as int, at + 2),
{
    let v: u64 = read_le(bytes, at, 2);
    proof {
        let s = bytes@.subrange(at as int, at + 2);
        lemma_le_bytes_of_le_value(s);
        lemma_pow256_values();
    }
    v as u16
}

/// The Q4_0 blocks that bytes hold.
pub fn q4_from_bytes(bytes: &[u8]) -> (out: Vec<BlockQ4_0>)
    requires
        bytes@.len() % 18 == 0,
    ensures
        out@.len() == bytes@.len() / 18,
        forall|i: int|
            0 <= i < out@.len() ==> q4_bytes(#[trigger] out@[i]) == bytes@.subrange(
                18 * i,
                18 * i + 18,
            ),
{
    let n: usize = bytes.len() / 18;
    let mut out: Vec<BlockQ4_0> = Vec::new();
    let mut i: usize = 0;
    while i < n
        invariant
            i <= n,
            n * 18 == bytes@.len(),
            bytes@.len() <= usize::MAX,
            out@.len() == i,
            forall|b: int|
                0 <= b < i ==> q4_bytes(#[trigger] out@[b]) == bytes@.subrange(
                    18 * b,
                    18 * b + 18,
                ),
        decreases n - i,
    {
        let at: usize = 18 * i;
        let d: u16 = read_scale(bytes, at);
        let mut qs: [u8; 16] = [0;16];
        let mut j: usize = 0;
        while j < 16
            invariant
                j <= 16,
                at + 18 <= bytes@.len(),
                bytes@.len() <= usize::MAX,
                forall|k: int| 0 <= k < j ==> #[trigger] qs@[k] == bytes@[at + 2 + k],
            decreases 16 - j,
        {
            qs[j] = bytes[at + 2 + j];
            j = j + 1;
        }
        let b = BlockQ4_0 { d, qs };
        proof {
            lemma_le_bytes_len(d as nat, 2);
            let s = bytes@.subrange(at as int, at + 2);
            let whole = bytes@.subrange(18 * i, 18 * i + 18);
            assert forall|k: int| 0 <= k < 18 implies q4_bytes(b)[k] == whole[k] by {
                if k < 2 {
                    assert(q4_bytes(b)[k] == le_bytes(d as nat, 2)[k]);
                    assert(s[k] == whole[k]);
                } else {
                    assert(q4_bytes(b)[k] == b.qs@[k - 2]);
                }
            }
            assert(q4_bytes(b) =~= whole);
        }
        out.push(b);
        i = i + 1;
    }
    out
}

} // verus!
