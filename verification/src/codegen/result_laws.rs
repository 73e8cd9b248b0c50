//! What the kernels compute, number by number.
//!
//! `fpu` is any arithmetic: which numbers meet, and in which order the sums are
//! taken, is stated for all of them.

use crate::codegen::block_laws::{four_sum, lane_sum, quant, weight, weights};
use crate::codegen::decode_laws::{decoded, decoded_wide, place_sum, wide_sum};
use crate::codegen::integer_laws::{integer_product, lane_dot, lane_total, scale_product};
use crate::codegen::machine::{word_at, Fpu};
use crate::codegen::matmul_laws::{dot, fused_dot, fused_product, product};
use crate::codegen::norm_laws::{normalized, square_total};
use crate::codegen::unrolled_laws::{strided_lane, strided_total, unrolled_product};
use vstd::prelude::*;

verus! {

/// Entry `(i, j)` of a product is the sum over `t` of the entries `(i, t)` and
/// `(t, j)` multiplied, taken from the left, with one rounding for each step or two.
pub proof fn lemma_product_entries(
    fpu: Fpu,
    a: Seq<u32>,
    b: Seq<u32>,
    m: nat,
    k: nat,
    n: nat,
    i: int,
    j: int,
    t: nat,
)
    requires
        0 <= i < m,
        0 <= j < n,
    ensures
        product(fpu, a, b, m, k, n).len() == m * n,
        product(fpu, a, b, m, k, n)[i * n + j] == dot(fpu, a, b, k as int, n as int, i, j, k),
        fused_product(fpu, a, b, m, k, n).len() == m * n,
        fused_product(fpu, a, b, m, k, n)[i * n + j] == fused_dot(
            fpu,
            a,
            b,
            k as int,
            n as int,
            i,
            j,
            k,
        ),
        dot(fpu, a, b, k as int, n as int, i, j, 0) == 0,
        dot(fpu, a, b, k as int, n as int, i, j, t + 1) == (fpu.add)(
            dot(fpu, a, b, k as int, n as int, i, j, t),
            (fpu.mul)(a[i * k + t], b[t * n + j]),
        ),
        fused_dot(fpu, a, b, k as int, n as int, i, j, 0) == 0,
        fused_dot(fpu, a, b, k as int, n as int, i, j, t + 1) == (fpu.fma)(
            a[i * k + t],
            b[t * n + j],
            fused_dot(fpu, a, b, k as int, n as int, i, j, t),
        ),
{
    let (x, w) = (i * n + j, n as int);
    assert(0 <= x < m * n) by (nonlinear_arith)
        requires
            0 <= i < m,
            0 <= j < n,
            x == i * n + j,
    ;
    vstd::arithmetic::div_mod::lemma_fundamental_div_mod_converse(x, w, i, j);
    assert(t * n == (t as int) * n);
}

/// A normalized number is the number times one over the root of the mean of the
/// squares plus `eps`, times its weight. The squares are added up in eight lanes.
pub proof fn lemma_normalized_numbers(
    fpu: Fpu,
    mem: spec_fn(int) -> u8,
    x: int,
    w: int,
    h: nat,
    inv_h: u32,
    eps: u32,
    p: int,
    l: int,
    turns: nat,
)
    requires
        0 <= p < h,
    ensures
        ({
            let s = |lane: int| square_total(fpu, mem, x, lane, h / 8);
            let sum = (fpu.add)(
                (fpu.add)((fpu.add)(s(0), s(1)), (fpu.add)(s(2), s(3))),
                (fpu.add)((fpu.add)(s(4), s(5)), (fpu.add)(s(6), s(7))),
            );
            let one: u32 = 0x3F80_0000;
            let factor = (fpu.div)(one, (fpu.sqrt)((fpu.add)((fpu.mul)(sum, inv_h), eps)));
            normalized(fpu, mem, x, w, h, inv_h, eps)[p] == (fpu.mul)(
                (fpu.mul)(word_at(mem, x + 4 * p), factor),
                word_at(mem, w + 4 * p),
            )
        }),
        normalized(fpu, mem, x, w, h, inv_h, eps).len() == h,
        square_total(fpu, mem, x, l, 0) == 0,
        ({
            let v = word_at(mem, x + 4 * (8 * turns + l));
            square_total(fpu, mem, x, l, turns + 1) == (fpu.fma)(
                v,
                v,
                square_total(fpu, mem, x, l, turns),
            )
        }),
{
}

/// Number `p` of blocks of 34 bytes is byte `p % 32` of the block after its two bytes
/// of scale, with its sign, times the scale.
pub proof fn lemma_block_numbers(
    fpu: Fpu,
    mem: spec_fn(int) -> u8,
    at: int,
    count: nat,
    p: int,
)
    requires
        0 <= p < count,
    ensures
        ({
            let block = at + 34 * (p / 32);
            let byte = mem(block + 2 + p % 32) as int;
            let q = if byte >= 128 {
                byte - 256
            } else {
                byte
            };
            let scale = (mem(block) + 256 * mem(block + 1)) as u16;
            &&& weights(fpu, mem, at, count)[p] == (fpu.mul)((fpu.from_int)(q), (fpu.widen)(scale))
            &&& weights(fpu, mem, at, count).len() == count
            &&& quant(mem, at, p / 32, p % 32) == q
            &&& weight(fpu, mem, at, p / 32, p % 32) == weights(fpu, mem, at, count)[p]
        }),
{
}

/// Entry `i` of the product of blocks and numbers: for each of the 32 places in a
/// block a sum over the blocks of row `i`, and then the sum of these.
pub proof fn lemma_block_product(
    fpu: Fpu,
    mem: spec_fn(int) -> u8,
    w: int,
    a: int,
    i: int,
    blocks: nat,
    e: int,
    b: nat,
)
    ensures
        ({
            let first = i * blocks;
            let v = |place: int| place_sum(fpu, mem, w, a, first, place, blocks);
            &&& decoded(fpu, mem, w, a, i, blocks) == lane_sum(fpu, |l: int| four_sum(fpu, v, l))
            &&& decoded_wide(fpu, mem, w, a, i, blocks) == lane_sum(
                fpu,
                |l: int| wide_sum(fpu, v, l),
            )
            &&& place_sum(fpu, mem, w, a, first, e, 0) == 0
            &&& place_sum(fpu, mem, w, a, first, e, b + 1) == (fpu.fma)(
                weight(fpu, mem, w, first + b, e),
                word_at(mem, a + 4 * (32 * b + e)),
                place_sum(fpu, mem, w, a, first, e, b),
            )
        }),
{
}

/// The sums of lanes: eight by pairs, and four groups of eight by pairs.
pub proof fn lemma_lane_sums(fpu: Fpu, v: spec_fn(int) -> u32, l: int)
    ensures
        lane_sum(fpu, v) == (fpu.add)(
            (fpu.add)((fpu.add)(v(0), v(1)), (fpu.add)(v(2), v(3))),
            (fpu.add)((fpu.add)(v(4), v(5)), (fpu.add)(v(6), v(7))),
        ),
        four_sum(fpu, v, l) == (fpu.add)(
            (fpu.add)(v(l), v(8 + l)),
            (fpu.add)(v(16 + l), v(24 + l)),
        ),
        wide_sum(fpu, v, l) == (fpu.add)(
            (fpu.add)(v(l), v(16 + l)),
            (fpu.add)(v(8 + l), v(24 + l)),
        ),
{
}

/// Entry `i` of the product of blocks and blocks: eight lanes, each a sum over the
/// blocks of row `i` of four products of bytes times both scales. The unrolled kernel
/// takes every fourth block together.
pub proof fn lemma_integer_products(
    fpu: Fpu,
    mem: spec_fn(int) -> u8,
    w: int,
    a: int,
    i: int,
    blocks: nat,
    l: int,
    b: nat,
    c: int,
)
    ensures
        ({
            let first = i * blocks;
            let lanes = |x: int| lane_total(fpu, mem, w, a, first, x, blocks);
            let groups = |x: int|
                strided_total(fpu, mem, w, a, first, x / 8, x % 8, (blocks / 4) as nat);
            let q = |wb: int, ab: int, e: int| quant(mem, w, wb, e) * quant(mem, a, ab, e);
            let at = 4 * b + c;
            &&& integer_product(fpu, mem, w, a, i, blocks) == lane_sum(fpu, lanes)
            &&& lane_total(fpu, mem, w, a, first, l, 0) == 0
            &&& lane_total(fpu, mem, w, a, first, l, b + 1) == (fpu.fma)(
                (fpu.from_int)(lane_dot(mem, w, a, first + b, b as int, l)),
                scale_product(fpu, mem, w, a, first + b, b as int),
                lane_total(fpu, mem, w, a, first, l, b),
            )
            &&& lane_dot(mem, w, a, first + b, b as int, l) == q(first + b, b as int, 4 * l) + q(
                first + b,
                b as int,
                4 * l + 1,
            ) + q(first + b, b as int, 4 * l + 2) + q(first + b, b as int, 4 * l + 3)
            &&& strided_total(fpu, mem, w, a, first, c, l, 0) == 0
            &&& strided_total(fpu, mem, w, a, first, c, l, b + 1) == (fpu.fma)(
                (fpu.from_int)(lane_dot(mem, w, a, first + at, at, l)),
                scale_product(fpu, mem, w, a, first + at, at),
                strided_total(fpu, mem, w, a, first, c, l, b),
            )
            &&& unrolled_product(fpu, mem, w, a, i, blocks) == lane_sum(
                fpu,
                |x: int| four_sum(fpu, groups, x),
            )
        }),
{
    let first = i * blocks;
    let groups = |x: int| strided_total(fpu, mem, w, a, first, x / 8, x % 8, (blocks / 4) as nat);
    let v = |e: int| strided_lane(fpu, mem, w, a, first, e, (blocks / 4) as nat);
    assert(v =~= groups);
    let lanes = |x: int| lane_total(fpu, mem, w, a, first, x, blocks);
    assert((|x: int| lane_total(fpu, mem, w, a, i * blocks, x, blocks)) =~= lanes);
    assert((|x: int| four_sum(fpu, v, x)) =~= (|x: int| four_sum(fpu, groups, x)));
}

} // verus!
