//! What is in a quantized block: its scale, its bytes, and where they stand.

use crate::bytes::le_bytes;
use crate::float_bits::{f32_mag, f32_units, lemma_p2_add, lemma_p2_mono, p2};
use crate::float_ops::{narrowed, product, quotient};
use crate::runtime::quant::{
    chunk_scale, inverse_scale, is_quantized, max_mag, q4_bytes, q4_element, q8_bytes, q8_run,
    quantized, rounded_i8, BlockQ4_0, BlockQ8_0,
};
use vstd::prelude::*;

verus! {

/// The largest magnitude of a chunk is that of one of its numbers, and none is larger.
/// NaNs do not count, and without numbers it is zero.
pub proof fn lemma_largest(xs: Seq<u32>)
    ensures
        max_mag(xs) <= 0x7F80_0000,
        forall|j: int|
            0 <= j < xs.len() && (#[trigger] xs[j]) % 0x8000_0000 <= 0x7F80_0000 ==> xs[j]
                % 0x8000_0000 <= max_mag(xs),
        max_mag(xs) == 0 || exists|j: int|
            0 <= j < xs.len() && (#[trigger] xs[j]) % 0x8000_0000 == max_mag(xs),
    decreases xs.len(),
{
    if xs.len() > 0 {
        let head = xs.drop_last();
        let last = xs.len() - 1;
        lemma_largest(head);
        assert(xs[last] == xs.last());
        assert(f32_mag(xs.last()) == xs.last() % 0x8000_0000);
        assert forall|j: int|
            0 <= j < xs.len() && (#[trigger] xs[j]) % 0x8000_0000 <= 0x7F80_0000 implies xs[j]
            % 0x8000_0000 <= max_mag(xs) by {
            if j < last {
                assert(head[j] == xs[j]);
            }
        }
        if max_mag(xs) != 0 {
            if max_mag(xs) == max_mag(head) {
                let j = choose|j: int|
                    0 <= j < head.len() && (#[trigger] head[j]) % 0x8000_0000 == max_mag(head);
                assert(xs[j] % 0x8000_0000 == max_mag(xs));
            } else {
                assert(xs[last] % 0x8000_0000 == max_mag(xs));
            }
        }
    }
}

/// A block holds the largest magnitude over 127 as its scale, in fp16, and each number
/// times one over that scale, rounded. Where the scale is zero every byte is zero.
pub proof fn lemma_block_of_chunk(b: BlockQ8_0, xs: Seq<u32>, j: int)
    requires
        is_quantized(b, xs),
        0 <= j < 32,
    ensures
        ({
            let scale = quotient(max_mag(xs) as u32, 0x42FE_0000) as u32;
            let inverse = if scale % 0x8000_0000 == 0 {
                0u32
            } else {
                quotient(0x3F80_0000, scale) as u32
            };
            &&& b.d as nat == narrowed(scale)
            &&& b.qs@[j] as int == rounded_i8(product(xs[j], inverse) as u32)
            &&& chunk_scale(xs) == scale
            &&& inverse_scale(scale) == inverse
            &&& quantized(xs[j], inverse) == b.qs@[j] as int
        }),
{
}

/// A number is rounded to the nearest byte, away from zero where it is halfway between
/// two. What is past the bytes becomes the last one on its side, and a NaN zero.
pub proof fn lemma_rounded(b: u32)
    ensures
        ({
            let g = b % 0x8000_0000;
            let neg = b >= 0x8000_0000;
            let (q, u, one) = (rounded_i8(b), f32_units(b) as int, p2(149) as int);
            &&& -128 <= q <= 127
            &&& g > 0x7F80_0000 ==> q == 0
            &&& g == 0x7F80_0000 ==> q == (if neg {
                -128int
            } else {
                127int
            })
            &&& g < 0x7F80_0000 && !neg ==> q >= 0 && (2 * q - 1) * one <= 2 * u && (q < 127 ==> 2
                * u < (2 * q + 1) * one)
            &&& g < 0x7F80_0000 && neg ==> q <= 0 && (2 * -q - 1) * one <= 2 * u && (q > -128 ==> 2
                * u < (2 * -q + 1) * one)
        }),
{
    let (u, one) = (f32_units(b) as int, p2(149) as int);
    lemma_p2_mono(0, 149);
    lemma_p2_add(149, 1);
    reveal_with_fuel(p2, 2);
    assert(p2(150) == 2 * one);
    let n = (2 * u + one) / (2 * one);
    vstd::arithmetic::div_mod::lemma_fundamental_div_mod(2 * u + one, 2 * one);
    let r = (2 * u + one) % (2 * one);
    assert(0 <= r < 2 * one);
    assert((2 * n - 1) * one <= 2 * u < (2 * n + 1) * one) by (nonlinear_arith)
        requires
            2 * u + one == (2 * one) * n + r,
            0 <= r < 2 * one,
    ;
    assert(n >= 0) by (nonlinear_arith)
        requires
            2 * u < (2 * n + 1) * one,
            u >= 0,
            one >= 1,
    ;
    assert(n > 127 ==> (2 * 127 - 1) * one <= (2 * n - 1) * one) by (nonlinear_arith)
        requires
            one >= 1,
    ;
    assert(n > 128 ==> (2 * 128 - 1) * one <= (2 * n - 1) * one) by (nonlinear_arith)
        requires
            one >= 1,
    ;
}

/// The bytes of blocks: two of the scale, the lower one first, and then the bytes in
/// order; blocks follow each other without a gap.
pub proof fn lemma_block_bytes(b: BlockQ8_0, c: BlockQ4_0, blocks: Seq<BlockQ8_0>, j: int)
    ensures
        q8_bytes(b).len() == 34,
        q8_bytes(b)[0] == b.d % 256,
        q8_bytes(b)[1] == b.d / 256,
        0 <= j < 32 ==> q8_bytes(b)[2 + j] == (b.qs@[j] as int) % 256,
        q4_bytes(c).len() == 18,
        q4_bytes(c)[0] == c.d % 256,
        q4_bytes(c)[1] == c.d / 256,
        0 <= j < 16 ==> q4_bytes(c)[2 + j] == c.qs@[j],
        q8_run(Seq::empty()) == Seq::<u8>::empty(),
        q8_run(blocks.push(b)) == q8_run(blocks) + q8_bytes(b),
{
    reveal_with_fuel(le_bytes, 3);
    assert(blocks.push(b).drop_last() =~= blocks);
}

/// A byte of a block of four-bit numbers holds two of them, each eight too large: the
/// lower half is a number of the first sixteen, the upper half one of the others.
pub proof fn lemma_half_bytes(b: BlockQ4_0, j: int)
    requires
        0 <= j < 16,
    ensures
        q4_element(b, j) == b.qs@[j] % 16 - 8,
        q4_element(b, 16 + j) == b.qs@[j] / 16 - 8,
        -8 <= q4_element(b, j) <= 7,
{
}

} // verus!
