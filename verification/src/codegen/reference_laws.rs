//! The kernels on Q8_0 data and the functions on blocks agree: on what the
//! bytes in memory stand for, on dequantization, and on which vectors the
//! integer kernels can take.

use crate::bytes::{le_bytes, lemma_le_bytes_len};
use crate::codegen::block_laws::{quant, scale_bits, weight, weights};
use crate::codegen::integer_laws::signs_fit;
use crate::codegen::machine::{bytes_at, signed8, Fpu};
use crate::float_bits::{
    f16_mag, f16_neg, f16_units, f32_mag, f32_neg, f32_pack, f32_units, lemma_nearest_common,
    lemma_nearest_of_short, lemma_p2_mono, lemma_p2_values, lemma_units, nearest, p2, F16_INF,
    F32_INF,
};
use crate::float_ops::{f32_is_inf, f32_is_nan, f32_is_zero, product, widened};
use crate::runtime::quant::{abs, byte_of, dequantized, lemma_q8_run, q8_run, BlockQ8_0};
use vstd::prelude::*;

verus! {

/// The memory at `at` holds the blocks.
pub open spec fn holds_blocks(
    mem: spec_fn(int) -> u8,
    at: int,
    blocks: Seq<BlockQ8_0>,
) -> bool {
    bytes_at(mem, at, 34 * blocks.len()) == q8_run(blocks)
}

/// What the kernels read of a block is what the block holds.
pub proof fn lemma_block_in_memory(
    mem: spec_fn(int) -> u8,
    at: int,
    blocks: Seq<BlockQ8_0>,
    b: int,
    e: int,
)
    requires
        holds_blocks(mem, at, blocks),
        0 <= b < blocks.len(),
        0 <= e < 32,
    ensures
        quant(mem, at, b, e) == blocks[b].qs@[e],
        scale_bits(mem, at, b) == blocks[b].d,
{
    let s = q8_run(blocks);
    let block = blocks[b];
    lemma_q8_run(blocks, b);
    let part = s.subrange(34 * b, 34 * b + 34);
    lemma_le_bytes_len(block.d as nat, 2);
    assert(part[0] == s[34 * b] && part[1] == s[34 * b + 1] && part[2 + e] == s[34 * b + 2 + e]);
    assert(s[34 * b] == mem(at + 34 * b));
    assert(s[34 * b + 1] == mem(at + (34 * b + 1)));
    assert(s[34 * b + 2 + e] == mem(at + (34 * b + 2 + e)));
    assert(part[2 + e] == byte_of(block.qs@[e]));
    let q = block.qs@[e];
    assert(signed8(byte_of(q)) == q);
    reveal_with_fuel(le_bytes, 3);
    let d = block.d as nat;
    assert(part[0] == le_bytes(d, 2)[0] && part[1] == le_bytes(d, 2)[1]);
    assert(d == d % 256 + 256 * (d / 256));
    assert(le_bytes(d, 2)[0] == (d % 256) as u8);
    assert(le_bytes(d, 2)[1] == (d / 256 % 256) as u8);
}

/// A vector of blocks without the byte -128 fits every matrix: no sign is lost
/// in the integer kernels. Such blocks are what quantization gives wherever one
/// over a chunk's scale does not overflow.
pub proof fn lemma_signs_fit(
    mem: spec_fn(int) -> u8,
    w: int,
    a: int,
    m: int,
    blocks: Seq<BlockQ8_0>,
)
    requires
        holds_blocks(mem, a, blocks),
        forall|b: int, e: int|
            0 <= b < blocks.len() && 0 <= e < 32 ==> #[trigger] blocks[b].qs@[e] >= -127,
    ensures
        signs_fit(mem, w, a, m, blocks.len() as int),
{
    let n = blocks.len() as int;
    assert forall|i: int, b: int, e: int|
        0 <= i < m && 0 <= b < n && 0 <= e < 32 && #[trigger] quant(mem, a, b, e)
            == -128 implies #[trigger] quant(mem, w, i * n + b, e) >= 0 by {
        lemma_block_in_memory(mem, a, blocks, b, e);
        assert(blocks[b].qs@[e] >= -127);
    }
}

/// The arithmetic follows IEEE 754, with rounding to nearest, on operands whose
/// product is a number.
pub open spec fn ieee(fpu: Fpu) -> bool {
    &&& forall|x: u32, y: u32|
        !f32_is_nan(x) && !f32_is_nan(y) && !(f32_is_inf(x) && f32_is_zero(y)) && !(f32_is_zero(x)
            && f32_is_inf(y)) ==> #[trigger] (fpu.mul)(x, y) as nat == product(x, y)
    &&& forall|h: u16| f16_mag(h) <= F16_INF ==> #[trigger] (fpu.widen)(h) as nat == widened(h)
    &&& forall|v: int|
        -0x100_0000 < v < 0x100_0000 ==> #[trigger] (fpu.from_int)(v) as nat == f32_pack(
            v < 0,
            nearest(abs(v) * p2(149), 1, 24, F32_INF as nat),
        )
}

/// An element that a kernel dequantizes is the one that dequantization of its
/// block gives, where the block's scale is a number.
pub proof fn lemma_dequant_agrees(
    fpu: Fpu,
    mem: spec_fn(int) -> u8,
    at: int,
    blocks: Seq<BlockQ8_0>,
    b: int,
    e: int,
)
    requires
        ieee(fpu),
        holds_blocks(mem, at, blocks),
        0 <= b < blocks.len(),
        0 <= e < 32,
        f16_mag(blocks[b].d) < F16_INF,
    ensures
        weight(fpu, mem, at, b, e) as nat == dequantized(blocks[b].qs@[e] as int, blocks[b].d),
        weights(fpu, mem, at, 32 * blocks.len())[32 * b + e] == weight(fpu, mem, at, b, e),
{
    let q = blocks[b].qs@[e] as int;
    let d = blocks[b].d;
    lemma_block_in_memory(mem, at, blocks, b, e);
    assert((32 * b + e) / 32 == b && (32 * b + e) % 32 == e);
    let x = (fpu.from_int)(q);
    let y = (fpu.widen)(d);
    lemma_int_units(fpu, q);
    lemma_widened_units(d, y);
    let u = f16_units(d) * p2(125);
    let t = p2(149);
    lemma_p2_mono(0, 149);
    assert((abs(q) * t) * u == (abs(q) * f16_units(d) * p2(125)) * t) by (nonlinear_arith)
        requires
            u == f16_units(d) * p2(125),
    ;
    let z = abs(q) * f16_units(d) * p2(125);
    lemma_nearest_common(z, 1, t, 24, F32_INF as nat);
    assert(1 * t == t);
    assert(product(x, y) == dequantized(q, d));
}

/// A small integer as fp32.
proof fn lemma_int_units(fpu: Fpu, q: int)
    requires
        ieee(fpu),
        -128 <= q <= 127,
    ensures
        f32_mag((fpu.from_int)(q)) < F32_INF,
        f32_units((fpu.from_int)(q)) == abs(q) * p2(149),
        f32_neg((fpu.from_int)(q)) == (q < 0),
{
    lemma_p2_values();
    lemma_nearest_of_short(abs(q), 149, 24, F32_INF as nat);
}

/// A finite fp16 number as fp32.
proof fn lemma_widened_units(h: u16, r: u32)
    requires
        f16_mag(h) < F16_INF,
        r as nat == widened(h),
    ensures
        f32_mag(r) < F32_INF,
        f32_units(r) == f16_units(h) * p2(125),
        f32_neg(r) == f16_neg(h),
{
    let g = f16_mag(h);
    let half = p2(10);
    lemma_p2_values();
    lemma_units(g, 11);
    let (m, e): (nat, nat) = if g < p2(11) {
        (g, 0)
    } else {
        ((g - (g / half - 1) * half) as nat, (g / half - 1) as nat)
    };
    assert(f16_units(h) == m * p2(e)) by {
        if g < p2(11) {
            assert(m * p2(0) == m) by (nonlinear_arith)
                requires
                    p2(0) == 1,
            ;
        }
    }
    assert(m < 2048 && e <= 29);
    crate::float_bits::lemma_p2_add(e, 125);
    assert((m * p2(e)) * p2(125) == m * p2(e + 125)) by (nonlinear_arith)
        requires
            p2(e + 125) == p2(e) * p2(125),
    ;
    assert((e + 127) * p2(23) <= F32_INF) by (nonlinear_arith)
        requires
            e <= 29,
            p2(23) == 0x80_0000,
    ;
    lemma_nearest_of_short(m, e + 125, 24, F32_INF as nat);
}

} // verus!
