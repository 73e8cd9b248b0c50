//! The kernels that multiply a Q8_0 matrix with a Q8_0 vector compute that
//! product: integers within a block, fp32 across blocks.

use crate::bytes::{lemma_le_bytes_of_le_value, lemma_pow256_values};
use crate::codegen::assembler::{
    at, ByteInst, Code, ConvInst, FloatInst, Inst, IntInst, MemInst, SseInst,
};
use crate::codegen::avx2_enc::Ymm;
use crate::codegen::block_laws::{
    gives_rows, lane_sum, lemma_block_place, lemma_hsum, lemma_q8_offset, lemma_row_store,
    lemma_rows, lemma_rows_end, lemma_rows_entered, lemma_signed_low, lemma_vector_byte,
    lemma_vector_scale, lemma_weight_byte, lemma_weight_scale, quant, rows_of, scale_bits, Rows,
};
use crate::codegen::frame_laws::{in_range, lemma_enter};
use crate::codegen::kernels::{
    bind_code, block_bytes_code, block_scales_code, blocks_per_row, bytes_per_row, counted,
    dot_code, epilogue_code, frame_extra, gp, hsum_code, prologue_code, q8_offset_code,
    quant_matmul_q8q8_n1_body_blocks, quant_matmul_q8q8_n1_body_code,
    quant_matmul_q8q8_n1_body_rows, quant_matmul_q8q8_n1_body_vnni_blocks,
    quant_matmul_q8q8_n1_body_vnni_code, quant_matmul_q8q8_n1_body_vnni_rows, sse, vbyte, vcvt,
    vps,
};
use crate::codegen::machine::{
    after_turn, byte_of, byte_product, dot_step, half_of, half_shifted, lane_of, lane_of_halves,
    lemma_all_ones, lemma_imul, lemma_loop, lemma_mov_rr, lemma_run_concat, lemma_run_none,
    lemma_run_op, lemma_run_single, lemma_vbroadcastss_xmm, lemma_vcvtdq2ps, lemma_vcvtph2ps,
    lemma_vfmadd_reg, lemma_vmovd_load, lemma_vmovdqu_load, lemma_vmulss, lemma_vpdpbusd_evex,
    lemma_vpdpbusd_vex, lemma_vpmaddubsw, lemma_vpmaddwd, lemma_vpsignb, lemma_vpsrlw,
    lemma_vxorps, lemma_word_bytes, low, pair_sum, quad_sum, run, run_one, signed16, signed8, step,
    with_sign, word_at, word_count, Fpu, Machine,
};
use crate::codegen::matmul_laws::{called, lemma_last_count};
use crate::codegen::x86_64::{Abi, VnniForm};
use crate::codegen::x86_64_enc::{Reg, Scale, Xmm};
use crate::float_bits::p2;
use vstd::prelude::*;

verus! {

/// The product of two elements before scaling.
pub open spec fn element_product(
    mem: spec_fn(int) -> u8,
    w: int,
    a: int,
    wb: int,
    ab: int,
    e: int,
) -> int {
    quant(mem, w, wb, e) * quant(mem, a, ab, e)
}

/// The sum of four products.
pub open spec fn lane_dot(
    mem: spec_fn(int) -> u8,
    w: int,
    a: int,
    wb: int,
    ab: int,
    l: int,
) -> int {
    element_product(mem, w, a, wb, ab, 4 * l) + element_product(mem, w, a, wb, ab, 4 * l + 1)
        + element_product(mem, w, a, wb, ab, 4 * l + 2) + element_product(
        mem,
        w,
        a,
        wb,
        ab,
        4 * l + 3,
    )
}

/// The product of the scales of two blocks.
pub open spec fn scale_product(
    fpu: Fpu,
    mem: spec_fn(int) -> u8,
    w: int,
    a: int,
    wb: int,
    ab: int,
) -> u32 {
    (fpu.mul)((fpu.widen)(scale_bits(mem, w, wb)), (fpu.widen)(scale_bits(mem, a, ab)))
}

/// The sum in lane `l` over the first blocks of a row, whose weights start at
/// block `first`.
pub open spec fn lane_total(
    fpu: Fpu,
    mem: spec_fn(int) -> u8,
    w: int,
    a: int,
    first: int,
    l: int,
    blocks: nat,
) -> u32
    decreases blocks,
{
    if blocks == 0 {
        0
    } else {
        let b = blocks - 1;
        (fpu.fma)(
            (fpu.from_int)(lane_dot(mem, w, a, first + b, b, l)),
            scale_product(fpu, mem, w, a, first + b, b),
            lane_total(fpu, mem, w, a, first, l, b as nat),
        )
    }
}

/// The product of row `i` and the vector.
pub open spec fn integer_product(
    fpu: Fpu,
    mem: spec_fn(int) -> u8,
    w: int,
    a: int,
    i: int,
    blocks: nat,
) -> u32 {
    lane_sum(fpu, |l: int| lane_total(fpu, mem, w, a, i * blocks, l, blocks))
}

/// The kernels move the sign of a weight over to the vector, which has no room
/// for `+128`: where the vector holds -128, the weight is not negative.
pub open spec fn signs_fit(mem: spec_fn(int) -> u8, w: int, a: int, m: int, blocks: int) -> bool {
    forall|i: int, b: int, e: int|
        0 <= i < m && 0 <= b < blocks && 0 <= e < 32 && #[trigger] quant(mem, a, b, e) == -128
            ==> #[trigger] quant(mem, w, i * blocks + b, e) >= 0
}

// ---- bytes of lanes -------------------------------------------------------------------

/// A byte of a word in memory.
pub(crate) proof fn lemma_byte_of_word(mem: spec_fn(int) -> u8, at: int, k: int)
    requires
        0 <= k < 4,
    ensures
        byte_of(word_at(mem, at), k) == mem(at + k),
{
    lemma_word_bytes(mem, at);
}

/// A byte of a lane made of bytes.
proof fn lemma_byte_of_lane(f: spec_fn(int) -> u8, k: int)
    requires
        0 <= k < 4,
    ensures
        byte_of(lane_of(f), k) == f(k),
{
    let s = Seq::new(4, |j: int| f(j));
    lemma_pow256_values();
    lemma_le_bytes_of_le_value(s);
}

/// Moving the sign from one factor to the other.
proof fn lemma_moved_sign(w: u8, a: u8)
    requires
        signed8(a) == -128 ==> signed8(w) >= 0,
    ensures
        with_sign(w, w) * signed8(with_sign(a, w)) == signed8(w) * signed8(a),
        -16256 <= signed8(w) * signed8(a) <= 16256,
{
    let x = signed8(w);
    let y = signed8(a);
    if x < 0 {
        assert(with_sign(w, w) == -x);
        assert(signed8(with_sign(a, w)) == -y) by {
            if a == 0 {
                assert((256 - a) % 256 == 0);
            } else {
                assert((256 - a) % 256 == 256 - a);
            }
        }
        assert((-x) * (-y) == x * y) by (nonlinear_arith);
        assert(-16256 <= x * y <= 16256) by (nonlinear_arith)
            requires
                -128 <= x < 0,
                -127 <= y <= 127,
        ;
    } else {
        assert(-16256 <= x * y <= 16256) by (nonlinear_arith)
            requires
                0 <= x <= 127,
                -128 <= y <= 127,
        ;
        if w == 0 {
            assert(x * y == 0) by (nonlinear_arith)
                requires
                    x == 0,
            ;
        }
    }
}

/// A number survives its way through half a lane.
proof fn lemma_halves(a: int, b: int)
    requires
        -32768 <= a < 32768,
        -32768 <= b < 32768,
    ensures
        signed16(half_of(lane_of_halves(a, b), 0)) == a,
        signed16(half_of(lane_of_halves(a, b), 1)) == b,
{
    let x = a % 0x1_0000;
    let y = b % 0x1_0000;
    assert(0 <= x < 0x1_0000 && 0 <= y < 0x1_0000);
    assert(x == if a < 0 {
        a + 0x1_0000
    } else {
        a
    });
    assert(y == if b < 0 {
        b + 0x1_0000
    } else {
        b
    });
    let v = lane_of_halves(a, b);
    assert(v == x + y * 0x1_0000);
    assert(v % 0x1_0000 == x);
    assert(v / 0x1_0000 == y);
}

// ---- the parts of a block ---------------------------------------------------------------

/// The bytes of two lanes multiply to the products of the elements.
pub open spec fn multiplies(x: Rows, wb: int, ab: int, l: int, p: u32, q: u32) -> bool {
    forall|k: int|
        0 <= k < 4 ==> (#[trigger] byte_product(p, q, k)) == element_product(
            x.mem,
            x.w,
            x.a,
            wb,
            ab,
            4 * l + k,
        ) && -16256 <= byte_product(p, q, k) <= 16256
}

/// No sign is lost in two blocks.
pub open spec fn block_fits(x: Rows, wb: int, ab: int) -> bool {
    forall|e: int|
        0 <= e < 32 && #[trigger] quant(x.mem, x.a, ab, e) == -128 ==> quant(x.mem, x.w, wb, e)
            >= 0
}

/// Lanes that hold the bytes of two blocks, with the signs moved.
pub(crate) proof fn lemma_sign_lanes(
    x: Rows,
    t: Machine,
    wb: int,
    ab: int,
    l: int,
    at_w: int,
    at_a: int,
    p: u32,
    q: u32,
)
    requires
        x.ok(),
        x.steady(t),
        block_fits(x, wb, ab),
        0 <= wb,
        34 * wb + 34 <= x.w_len,
        0 <= ab,
        34 * ab + 34 <= x.a_len,
        0 <= l < 8,
        at_w == x.w + 34 * wb + 2 + 4 * l,
        at_a == x.a + 34 * ab + 2 + 4 * l,
        p == lane_of(
            |k: int|
                with_sign(byte_of(word_at(t.mem, at_w), k), byte_of(word_at(t.mem, at_w), k)),
        ),
        q == lane_of(
            |k: int|
                with_sign(byte_of(word_at(t.mem, at_a), k), byte_of(word_at(t.mem, at_w), k)),
        ),
    ensures
        multiplies(x, wb, ab, l, p, q),
{
    let f = |k: int|
        with_sign(byte_of(word_at(t.mem, at_w), k), byte_of(word_at(t.mem, at_w), k));
    let g = |k: int|
        with_sign(byte_of(word_at(t.mem, at_a), k), byte_of(word_at(t.mem, at_w), k));
    assert forall|k: int| 0 <= k < 4 implies (#[trigger] byte_product(p, q, k)) == element_product(
        x.mem,
        x.w,
        x.a,
        wb,
        ab,
        4 * l + k,
    ) && -16256 <= byte_product(p, q, k) <= 16256 by {
        lemma_byte_of_lane(f, k);
        lemma_byte_of_lane(g, k);
        lemma_byte_of_word(t.mem, at_w, k);
        lemma_byte_of_word(t.mem, at_a, k);
        lemma_weight_byte(x, t, at_w + k);
        lemma_vector_byte(x, t, at_a + k);
        assert(at_w + k == x.w + 34 * wb + 2 + (4 * l + k));
        assert(at_a + k == x.a + 34 * ab + 2 + (4 * l + k));
        assert(signed8((x.mem)(at_w + k)) == quant(x.mem, x.w, wb, 4 * l + k));
        assert(signed8((x.mem)(at_a + k)) == quant(x.mem, x.a, ab, 4 * l + k));
        lemma_moved_sign((x.mem)(at_w + k), (x.mem)(at_a + k));
    }
}

/// The four products of a lane sum up to its dot product, also by pairs, which
/// fit 16 bits.
pub(crate) proof fn lemma_lane_sums(x: Rows, wb: int, ab: int, l: int, p: u32, q: u32)
    requires
        multiplies(x, wb, ab, l, p, q),
    ensures
        quad_sum(p, q) == lane_dot(x.mem, x.w, x.a, wb, ab, l),
        -65024 <= lane_dot(x.mem, x.w, x.a, wb, ab, l) <= 65024,
        pair_sum(p, q, 0) + pair_sum(p, q, 1) == lane_dot(x.mem, x.w, x.a, wb, ab, l),
        -32768 <= pair_sum(p, q, 0) < 32768,
        -32768 <= pair_sum(p, q, 1) < 32768,
{
    assert(byte_product(p, q, 0) == element_product(x.mem, x.w, x.a, wb, ab, 4 * l + 0));
    assert(byte_product(p, q, 1) == element_product(x.mem, x.w, x.a, wb, ab, 4 * l + 1));
    assert(byte_product(p, q, 2) == element_product(x.mem, x.w, x.a, wb, ab, 4 * l + 2));
    assert(byte_product(p, q, 3) == element_product(x.mem, x.w, x.a, wb, ab, 4 * l + 3));
}

/// Loads the bytes of two blocks and moves the signs.
proof fn lemma_block_bytes(x: Rows, fpu: Fpu, fuel: nat, s: Machine, wb: int, ab: int)
    requires
        x.ok(),
        x.steady(s),
        block_fits(x, wb, ab),
        0 <= wb,
        34 * wb + 34 <= x.w_len,
        0 <= ab,
        34 * ab + 34 <= x.a_len,
        s.regs[Reg::RAX] == 34 * wb,
        s.regs[Reg::R10] == 34 * ab,
    ensures
        run(block_bytes_code(), fpu, fuel, s) matches Some(u) && {
            &&& in_range(u)
            &&& u.regs == s.regs
            &&& u.mem == s.mem
            &&& forall|q: u8| q != 1 && q != 2 && q != 3 ==> #[trigger] u.vecs[q] == s.vecs[q]
            &&& forall|l: int|
                0 <= l < 8 ==> multiplies(x, wb, ab, l, #[trigger] u.vecs[3][l], u.vecs[2][l])
        },
{
    let mw = at(Reg::R12, Reg::RAX, Scale::S1, 2);
    let ma = at(Reg::R13, Reg::R10, Scale::S1, 2);
    let c0 = block_bytes_code();
    let c1 = c0.drop_first();
    let c2 = c1.drop_first();
    let c3 = c2.drop_first();
    let c4 = c3.drop_first();
    let s1 = step(Inst::Mem(MemInst::VmovdquLoad(Ymm(1), mw)), fpu, s);
    lemma_vmovdqu_load(Ymm(1), mw, fpu, s);
    lemma_run_op(c0, fpu, fuel, s);
    let s2 = step(Inst::Mem(MemInst::VmovdquLoad(Ymm(2), ma)), fpu, s1);
    lemma_vmovdqu_load(Ymm(2), ma, fpu, s1);
    lemma_run_op(c1, fpu, fuel, s1);
    let s3 = step(Inst::Byte(ByteInst::VpsignbReg(Ymm(3), Ymm(1), Ymm(1))), fpu, s2);
    lemma_vpsignb(Ymm(3), Ymm(1), Ymm(1), fpu, s2);
    lemma_run_op(c2, fpu, fuel, s2);
    let s4 = step(Inst::Byte(ByteInst::VpsignbReg(Ymm(2), Ymm(2), Ymm(1))), fpu, s3);
    lemma_vpsignb(Ymm(2), Ymm(2), Ymm(1), fpu, s3);
    lemma_run_op(c3, fpu, fuel, s3);
    lemma_run_none(c4, fpu, fuel, s4);
    let pw = x.w + 34 * wb + 2;
    let pa = x.a + 34 * ab + 2;
    assert(s.addr(mw) == pw);
    assert(s1.addr(ma) == pa);
    assert forall|l: int| 0 <= l < 8 implies multiplies(
        x,
        wb,
        ab,
        l,
        #[trigger] s4.vecs[3][l],
        s4.vecs[2][l],
    ) by {
        assert(s1.vecs[1][l] == word_at(s.mem, pw + 4 * l));
        assert(s2.vecs[2][l] == word_at(s.mem, pa + 4 * l));
        assert(s2.vecs[1][l] == word_at(s.mem, pw + 4 * l));
        lemma_sign_lanes(
            x,
            s,
            wb,
            ab,
            l,
            pw + 4 * l,
            pa + 4 * l,
            s4.vecs[3][l],
            s4.vecs[2][l],
        );
    }
}

/// Broadcasts the product of the scales of two blocks.
proof fn lemma_block_scales(x: Rows, fpu: Fpu, fuel: nat, s: Machine, wb: int, ab: int)
    requires
        x.ok(),
        x.steady(s),
        0 <= wb,
        34 * wb + 34 <= x.w_len,
        0 <= ab,
        34 * ab + 34 <= x.a_len,
        s.regs[Reg::RAX] == 34 * wb,
        s.regs[Reg::R10] == 34 * ab,
    ensures
        run(block_scales_code(), fpu, fuel, s) matches Some(u) && {
            &&& in_range(u)
            &&& u.regs == s.regs
            &&& u.mem == s.mem
            &&& forall|q: u8| q != 1 && q != 2 && q != 4 ==> #[trigger] u.vecs[q] == s.vecs[q]
            &&& forall|l: int|
                0 <= l < 8 ==> #[trigger] u.vecs[4][l] == scale_product(
                    fpu,
                    x.mem,
                    x.w,
                    x.a,
                    wb,
                    ab,
                )
        },
{
    let mw = at(Reg::R12, Reg::RAX, Scale::S1, 0);
    let ma = at(Reg::R13, Reg::R10, Scale::S1, 0);
    let c0 = block_scales_code();
    let c1 = c0.drop_first();
    let c2 = c1.drop_first();
    let c3 = c2.drop_first();
    let c4 = c3.drop_first();
    let c5 = c4.drop_first();
    let c6 = c5.drop_first();
    let s1 = step(Inst::Mem(MemInst::VmovdLoad(Ymm(1), mw)), fpu, s);
    lemma_vmovd_load(Ymm(1), mw, fpu, s);
    lemma_run_op(c0, fpu, fuel, s);
    let s2 = step(Inst::Conv(ConvInst::Vcvtph2psXmm(Ymm(1), Ymm(1))), fpu, s1);
    lemma_vcvtph2ps(Ymm(1), Ymm(1), fpu, s1);
    lemma_run_op(c1, fpu, fuel, s1);
    let s3 = step(Inst::Mem(MemInst::VmovdLoad(Ymm(2), ma)), fpu, s2);
    lemma_vmovd_load(Ymm(2), ma, fpu, s2);
    lemma_run_op(c2, fpu, fuel, s2);
    let s4 = step(Inst::Conv(ConvInst::Vcvtph2psXmm(Ymm(2), Ymm(2))), fpu, s3);
    lemma_vcvtph2ps(Ymm(2), Ymm(2), fpu, s3);
    lemma_run_op(c3, fpu, fuel, s3);
    let s5 = step(Inst::Float(FloatInst::VmulssXmm(Ymm(1), Ymm(1), Ymm(2))), fpu, s4);
    lemma_vmulss(Ymm(1), Ymm(1), Ymm(2), fpu, s4);
    lemma_run_op(c4, fpu, fuel, s4);
    let s6 = step(Inst::Float(FloatInst::VbroadcastssXmm(Ymm(4), Ymm(1))), fpu, s5);
    lemma_vbroadcastss_xmm(Ymm(4), Ymm(1), fpu, s5);
    lemma_run_op(c5, fpu, fuel, s5);
    lemma_run_none(c6, fpu, fuel, s6);
    assert(s.addr(mw) == x.w + 34 * wb);
    assert(s2.addr(ma) == x.a + 34 * ab);
    lemma_weight_scale(x, s, wb);
    lemma_vector_scale(x, s, ab);
    assert(s1.vecs[1][0] == word_at(s.mem, x.w + 34 * wb));
    assert(s2.vecs[1][0] == (fpu.widen)(scale_bits(x.mem, x.w, wb)));
    assert(s3.vecs[2][0] == word_at(s.mem, x.a + 34 * ab));
    assert(s4.vecs[2][0] == (fpu.widen)(scale_bits(x.mem, x.a, ab)));
    assert(s4.vecs[1][0] == s2.vecs[1][0]);
    assert(s5.vecs[1][0] == scale_product(fpu, x.mem, x.w, x.a, wb, ab));
}

// ---- the loop over blocks ---------------------------------------------------------------

/// Every half of every lane is 1.
pub open spec fn ones(v: Seq<u32>) -> bool {
    forall|l: int| 0 <= l < 8 ==> #[trigger] v[l] == lane_of_halves(1, 1)
}

/// Before block `b` of row `i`; `with_ones` says that register 5 is in use.
spec fn totals_inv(
    x: Rows,
    fpu: Fpu,
    with_ones: bool,
    blocks: int,
    i: int,
    b: int,
    t: Machine,
) -> bool {
    &&& x.before(i, t)
    &&& x.high(t)
    &&& with_ones ==> ones(t.vecs[5])
    &&& t.regs[Reg::R11] == b
    &&& 0 <= b <= blocks
    &&& forall|l: int|
        0 <= l < 8 ==> #[trigger] t.vecs[0][l] == lane_total(
            fpu,
            x.mem,
            x.w,
            x.a,
            i * blocks,
            l,
            b as nat,
        )
}

/// What holds of every kernel here.
pub open spec fn sized(x: Rows, row_bytes: int, blocks: int) -> bool {
    &&& x.ok()
    &&& 0 <= blocks
    &&& row_bytes == 34 * blocks
    &&& x.w_len == 34 * (x.m * blocks)
    &&& x.a_len == 34 * blocks
    &&& signs_fit(x.mem, x.w, x.a, x.m, blocks)
}

/// Finds the blocks: the code in front of every block.
pub open spec fn place_code(row_bytes: i32) -> Seq<Code> {
    q8_offset_code(row_bytes) + seq![
        gp(IntInst::MovRR(Reg::R10, Reg::R11)),
        gp(IntInst::ImulRRI(Reg::R10, Reg::R10, 34)),
    ]
}

pub(crate) proof fn lemma_place(
    x: Rows,
    fpu: Fpu,
    fuel: nat,
    row_bytes: i32,
    blocks: int,
    i: int,
    b: int,
    t: Machine,
)
    requires
        sized(x, row_bytes as int, blocks),
        0 <= i < x.m,
        0 <= b < blocks,
        x.before(i, t),
        t.regs[Reg::R11] == b,
    ensures
        run(place_code(row_bytes), fpu, fuel, t) matches Some(u) && {
            &&& x.before(i, u)
            &&& u.regs[Reg::R11] == b
            &&& u.regs[Reg::RAX] == 34 * (i * blocks + b)
            &&& u.regs[Reg::R10] == 34 * b
            &&& u.vecs == t.vecs
            &&& u.mem == t.mem
        },
        0 <= i * blocks + b,
        34 * (i * blocks + b) + 34 <= x.w_len,
        34 * b + 34 <= x.a_len,
        block_fits(x, i * blocks + b, b),
{
    let ca = q8_offset_code(row_bytes);
    let c10 = seq![
        gp(IntInst::MovRR(Reg::R10, Reg::R11)),
        gp(IntInst::ImulRRI(Reg::R10, Reg::R10, 34)),
    ];
    lemma_block_place(x.m, blocks, i, b);
    lemma_q8_offset(row_bytes, fpu, fuel, t, blocks, i, b);
    let s1 = run(ca, fpu, fuel, t)->0;
    assert(s1.regs[Reg::RAX] == 34 * (i * blocks + b));
    assert(0 <= 34 * (i * blocks + b) < word_count());
    assert(in_range(s1));
    let rc0 = c10;
    let rc1 = rc0.drop_first();
    let rc2 = rc1.drop_first();
    let r1 = step(Inst::Int(IntInst::MovRR(Reg::R10, Reg::R11)), fpu, s1);
    lemma_mov_rr(Reg::R10, Reg::R11, fpu, s1);
    lemma_run_op(rc0, fpu, fuel, s1);
    let r2 = step(Inst::Int(IntInst::ImulRRI(Reg::R10, Reg::R10, 34)), fpu, r1);
    lemma_imul(Reg::R10, Reg::R10, 34, fpu, r1);
    lemma_run_op(rc1, fpu, fuel, r1);
    lemma_run_none(rc2, fpu, fuel, r2);
    lemma_run_concat(ca, c10, fpu, fuel, t);
    assert(in_range(r2));
    assert forall|e: int|
        0 <= e < 32 && #[trigger] quant(x.mem, x.a, b, e) == -128 implies quant(
        x.mem,
        x.w,
        i * blocks + b,
        e,
    ) >= 0 by {}
}

#[verifier::rlimit(40)]
proof fn lemma_madd_block(
    x: Rows,
    fpu: Fpu,
    fuel: nat,
    row_bytes: i32,
    blocks: int,
    i: int,
    b: int,
    t: Machine,
)
    requires
        sized(x, row_bytes as int, blocks),
        0 <= i < x.m,
        0 <= b < blocks,
        totals_inv(x, fpu, true, blocks, i, b, t),
    ensures
        after_turn(
            Reg::R11,
            1,
            quant_matmul_q8q8_n1_body_blocks(row_bytes),
            fpu,
            fuel,
            t,
        ) matches Some(u) && totals_inv(x, fpu, true, blocks, i, b + 1, u),
{
    let wb = i * blocks + b;
    let ca = place_code(row_bytes);
    let cb = block_bytes_code();
    let cm = seq![
        vbyte(ByteInst::VpmaddubswReg(Ymm(3), Ymm(3), Ymm(2))),
        vbyte(ByteInst::VpmaddwdReg(Ymm(3), Ymm(3), Ymm(5))),
        vcvt(ConvInst::Vcvtdq2ps(Ymm(3), Ymm(3))),
    ];
    let cs = block_scales_code();
    let cf = seq![vps(FloatInst::Vfmadd231psReg(Ymm(0), Ymm(3), Ymm(4)))];
    lemma_place(x, fpu, fuel, row_bytes, blocks, i, b, t);
    let s2 = run(ca, fpu, fuel, t)->0;
    lemma_block_bytes(x, fpu, fuel, s2, wb, b);
    let s3 = run(cb, fpu, fuel, s2)->0;
    lemma_run_concat(ca, cb, fpu, fuel, t);
    let mc0 = cm;
    let mc1 = mc0.drop_first();
    let mc2 = mc1.drop_first();
    let mc3 = mc2.drop_first();
    let m1 = step(Inst::Byte(ByteInst::VpmaddubswReg(Ymm(3), Ymm(3), Ymm(2))), fpu, s3);
    lemma_vpmaddubsw(Ymm(3), Ymm(3), Ymm(2), fpu, s3);
    lemma_run_op(mc0, fpu, fuel, s3);
    let m2 = step(Inst::Byte(ByteInst::VpmaddwdReg(Ymm(3), Ymm(3), Ymm(5))), fpu, m1);
    lemma_vpmaddwd(Ymm(3), Ymm(3), Ymm(5), fpu, m1);
    lemma_run_op(mc1, fpu, fuel, m1);
    let m3 = step(Inst::Conv(ConvInst::Vcvtdq2ps(Ymm(3), Ymm(3))), fpu, m2);
    lemma_vcvtdq2ps(Ymm(3), Ymm(3), fpu, m2);
    lemma_run_op(mc2, fpu, fuel, m2);
    lemma_run_none(mc3, fpu, fuel, m3);
    lemma_run_concat(ca + cb, cm, fpu, fuel, t);
    assert(s3.vecs[5] == t.vecs[5]);
    assert forall|l: int| 0 <= l < 8 implies #[trigger] m3.vecs[3][l] == (fpu.from_int)(
        lane_dot(x.mem, x.w, x.a, wb, b, l),
    ) by {
        let p = s3.vecs[3][l];
        let q = s3.vecs[2][l];
        assert(multiplies(x, wb, b, l, p, q));
        lemma_lane_sums(x, wb, b, l, p, q);
        let p0 = pair_sum(p, q, 0);
        let p1 = pair_sum(p, q, 1);
        lemma_halves(p0, p1);
        lemma_halves(1, 1);
        assert(m1.vecs[3][l] == lane_of_halves(p0, p1));
        assert(t.vecs[5][l] == lane_of_halves(1, 1));
        assert(m1.vecs[5][l] == lane_of_halves(1, 1));
        assert(m2.vecs[3][l] == low(p0 + p1));
        lemma_signed_low(p0 + p1);
    }
    assert(in_range(m3));
    assert(x.steady(m3));
    lemma_block_scales(x, fpu, fuel, m3, wb, b);
    let s5 = run(cs, fpu, fuel, m3)->0;
    lemma_run_concat(ca + cb + cm, cs, fpu, fuel, t);
    let fc0 = cf;
    let fc1 = fc0.drop_first();
    let f1 = step(Inst::Float(FloatInst::Vfmadd231psReg(Ymm(0), Ymm(3), Ymm(4))), fpu, s5);
    lemma_vfmadd_reg(Ymm(0), Ymm(3), Ymm(4), fpu, s5);
    lemma_run_op(fc0, fpu, fuel, s5);
    lemma_run_none(fc1, fpu, fuel, f1);
    lemma_run_concat(ca + cb + cm + cs, cf, fpu, fuel, t);
    assert(ca + cb + cm + cs + cf =~= quant_matmul_q8q8_n1_body_blocks(row_bytes));
    assert forall|l: int| 0 <= l < 8 implies #[trigger] f1.vecs[0][l] == lane_total(
        fpu,
        x.mem,
        x.w,
        x.a,
        i * blocks,
        l,
        (b + 1) as nat,
    ) by {
        assert(t.vecs[0][l] == lane_total(fpu, x.mem, x.w, x.a, i * blocks, l, b as nat));
        assert(s5.vecs[0] == t.vecs[0]);
        assert(s5.vecs[3][l] == m3.vecs[3][l]);
        assert(s5.vecs[4][l] == scale_product(fpu, x.mem, x.w, x.a, wb, b));
    }
    let u = f1.set(Reg::R11, f1.regs[Reg::R11] + 1);
    assert(in_range(u));
    assert(u.vecs[5] == t.vecs[5]);
}

/// The dot product of a lane, in either form of the instruction.
pub(crate) proof fn lemma_dot(
    form: VnniForm,
    acc: u8,
    p: u8,
    q: u8,
    fpu: Fpu,
    fuel: nat,
    s: Machine,
)
    ensures
        run(dot_code(form, Ymm(acc), Ymm(p), Ymm(q)), fpu, fuel, s) == Some(
            dot_step(acc, p, q, s),
        ),
{
    let c = dot_code(form, Ymm(acc), Ymm(p), Ymm(q));
    lemma_vpdpbusd_vex(Ymm(acc), Ymm(p), Ymm(q), fpu, s);
    lemma_vpdpbusd_evex(Ymm(acc), Ymm(p), Ymm(q), fpu, s);
    lemma_run_op(c, fpu, fuel, s);
    lemma_run_none(c.drop_first(), fpu, fuel, dot_step(acc, p, q, s));
}

#[verifier::rlimit(40)]
proof fn lemma_vnni_block(
    x: Rows,
    fpu: Fpu,
    fuel: nat,
    form: VnniForm,
    row_bytes: i32,
    blocks: int,
    i: int,
    b: int,
    t: Machine,
)
    requires
        sized(x, row_bytes as int, blocks),
        0 <= i < x.m,
        0 <= b < blocks,
        totals_inv(x, fpu, false, blocks, i, b, t),
    ensures
        after_turn(
            Reg::R11,
            1,
            quant_matmul_q8q8_n1_body_vnni_blocks(form, row_bytes),
            fpu,
            fuel,
            t,
        ) matches Some(u) && totals_inv(x, fpu, false, blocks, i, b + 1, u),
{
    let wb = i * blocks + b;
    let ca = place_code(row_bytes);
    let cb = block_bytes_code();
    let cz = seq![vps(FloatInst::VxorpsZero(Ymm(5)))];
    let cd = dot_code(form, Ymm(5), Ymm(3), Ymm(2));
    let cv = seq![vcvt(ConvInst::Vcvtdq2ps(Ymm(5), Ymm(5)))];
    let cs = block_scales_code();
    let cf = seq![vps(FloatInst::Vfmadd231psReg(Ymm(0), Ymm(5), Ymm(4)))];
    lemma_place(x, fpu, fuel, row_bytes, blocks, i, b, t);
    let s2 = run(ca, fpu, fuel, t)->0;
    lemma_block_bytes(x, fpu, fuel, s2, wb, b);
    let s3 = run(cb, fpu, fuel, s2)->0;
    lemma_run_concat(ca, cb, fpu, fuel, t);
    let zc0 = cz;
    let zc1 = zc0.drop_first();
    let z1 = step(Inst::Float(FloatInst::VxorpsZero(Ymm(5))), fpu, s3);
    lemma_vxorps(Ymm(5), fpu, s3);
    lemma_run_op(zc0, fpu, fuel, s3);
    lemma_run_none(zc1, fpu, fuel, z1);
    lemma_run_concat(ca + cb, cz, fpu, fuel, t);
    let d1 = dot_step(5, 3, 2, z1);
    lemma_dot(form, 5, 3, 2, fpu, fuel, z1);
    lemma_run_concat(ca + cb + cz, cd, fpu, fuel, t);
    let vc0 = cv;
    let vc1 = vc0.drop_first();
    let v1 = step(Inst::Conv(ConvInst::Vcvtdq2ps(Ymm(5), Ymm(5))), fpu, d1);
    lemma_vcvtdq2ps(Ymm(5), Ymm(5), fpu, d1);
    lemma_run_op(vc0, fpu, fuel, d1);
    lemma_run_none(vc1, fpu, fuel, v1);
    lemma_run_concat(ca + cb + cz + cd, cv, fpu, fuel, t);
    assert forall|l: int| 0 <= l < 8 implies #[trigger] v1.vecs[5][l] == (fpu.from_int)(
        lane_dot(x.mem, x.w, x.a, wb, b, l),
    ) by {
        let p = s3.vecs[3][l];
        let q = s3.vecs[2][l];
        assert(multiplies(x, wb, b, l, p, q));
        lemma_lane_sums(x, wb, b, l, p, q);
        assert(z1.vecs[5][l] == 0);
        assert(z1.vecs[3][l] == p && z1.vecs[2][l] == q);
        assert(d1.vecs[5][l] == low(quad_sum(p, q)));
        lemma_signed_low(quad_sum(p, q));
    }
    assert(in_range(v1));
    assert(x.steady(v1));
    lemma_block_scales(x, fpu, fuel, v1, wb, b);
    let s5 = run(cs, fpu, fuel, v1)->0;
    lemma_run_concat(ca + cb + cz + cd + cv, cs, fpu, fuel, t);
    let fc0 = cf;
    let fc1 = fc0.drop_first();
    let f1 = step(Inst::Float(FloatInst::Vfmadd231psReg(Ymm(0), Ymm(5), Ymm(4))), fpu, s5);
    lemma_vfmadd_reg(Ymm(0), Ymm(5), Ymm(4), fpu, s5);
    lemma_run_op(fc0, fpu, fuel, s5);
    lemma_run_none(fc1, fpu, fuel, f1);
    lemma_run_concat(ca + cb + cz + cd + cv + cs, cf, fpu, fuel, t);
    assert(ca + cb + cz + cd + cv + cs + cf =~= quant_matmul_q8q8_n1_body_vnni_blocks(
        form,
        row_bytes,
    ));
    assert forall|l: int| 0 <= l < 8 implies #[trigger] f1.vecs[0][l] == lane_total(
        fpu,
        x.mem,
        x.w,
        x.a,
        i * blocks,
        l,
        (b + 1) as nat,
    ) by {
        assert(t.vecs[0][l] == lane_total(fpu, x.mem, x.w, x.a, i * blocks, l, b as nat));
        assert(s5.vecs[0] == t.vecs[0]);
        assert(s5.vecs[5][l] == v1.vecs[5][l]);
        assert(s5.vecs[4][l] == scale_product(fpu, x.mem, x.w, x.a, wb, b));
    }
    let u = f1.set(Reg::R11, f1.regs[Reg::R11] + 1);
    assert(in_range(u));
}

// ---- the loop over rows -----------------------------------------------------------------

/// A row, where the body of its loop takes one block to the next.
proof fn lemma_totals_row(
    x: Rows,
    fpu: Fpu,
    fuel: nat,
    with_ones: bool,
    k_blocks: i32,
    body: Seq<Code>,
    i: int,
    t: Machine,
)
    requires
        x.ok(),
        0 <= k_blocks,
        fuel > k_blocks + 1,
        i < x.m,
        (x.entry)(i) == integer_product(fpu, x.mem, x.w, x.a, i, k_blocks as nat),
        x.before(i, t),
        x.high(t),
        with_ones ==> ones(t.vecs[5]),
        forall|b: int, u: Machine| #[trigger]
            totals_inv(x, fpu, with_ones, k_blocks as int, i, b, u) && b < k_blocks ==> (after_turn(
                Reg::R11,
                1,
                body,
                fpu,
                fuel,
                u,
            ) matches Some(z) && totals_inv(x, fpu, with_ones, k_blocks as int, i, b + 1, z)),
    ensures
        after_turn(
            Reg::R15,
            1,
            seq![vps(FloatInst::VxorpsZero(Ymm(0)))] + seq![counted(Reg::R11, k_blocks, 1, body)]
                + hsum_code() + seq![
                sse(SseInst::MovssStore(Xmm(0), at(Reg::R14, Reg::R15, Scale::S4, 0))),
            ],
            fpu,
            fuel,
            t,
        ) matches Some(u) && x.before(i + 1, u) && x.high(u) && (with_ones ==> ones(u.vecs[5])),
{
    let blocks = k_blocks as int;
    let v = |l: int| lane_total(fpu, x.mem, x.w, x.a, i * blocks, l, blocks as nat);
    let zero = seq![vps(FloatInst::VxorpsZero(Ymm(0)))];
    let turns = seq![counted(Reg::R11, k_blocks, 1, body)];
    let put = seq![sse(SseInst::MovssStore(Xmm(0), at(Reg::R14, Reg::R15, Scale::S4, 0)))];
    let zc0 = zero;
    let zc1 = zc0.drop_first();
    let z1 = step(Inst::Float(FloatInst::VxorpsZero(Ymm(0))), fpu, t);
    lemma_vxorps(Ymm(0), fpu, t);
    lemma_run_op(zc0, fpu, fuel, t);
    lemma_run_none(zc1, fpu, fuel, z1);
    let inv = |b: int, u: Machine| totals_inv(x, fpu, with_ones, blocks, i, b, u);
    assert forall|b: int, u: Machine| #[trigger]
        inv(b, u) && 0 <= b < k_blocks && b % 1 == 0 implies (after_turn(
        Reg::R11,
        1,
        body,
        fpu,
        fuel,
        u,
    ) matches Some(w) && inv(b + 1, w)) by {
        assert(totals_inv(x, fpu, with_ones, blocks, i, b, u));
    }
    let s0 = z1.set(Reg::R11, 0);
    assert(in_range(s0));
    assert(inv(0, s0));
    lemma_loop(Reg::R11, k_blocks, 1, body, fpu, fuel, z1, inv);
    lemma_last_count(blocks, 1);
    lemma_run_single(turns[0], fpu, fuel, z1);
    let s2 = run_one(turns[0], fpu, fuel, z1)->0;
    assert(inv(blocks, s2));
    lemma_run_concat(zero, turns, fpu, fuel, t);
    lemma_hsum(fpu, fuel, s2, v);
    let s3 = run(hsum_code(), fpu, fuel, s2)->0;
    lemma_run_concat(zero + turns, hsum_code(), fpu, fuel, t);
    assert(s3.vecs[0][0] == integer_product(fpu, x.mem, x.w, x.a, i, k_blocks as nat));
    lemma_row_store(x, fpu, fuel, i, s3);
    let s4 = run(put, fpu, fuel, s3)->0;
    lemma_run_concat(zero + turns + hsum_code(), put, fpu, fuel, t);
    assert(s4.vecs[5] == s2.vecs[5]);
}

/// The code that fills register 5 with ones.
spec fn ones_code() -> Seq<Code> {
    seq![
        vbyte(ByteInst::VpcmpeqdReg(Ymm(5), Ymm(5), Ymm(5))),
        vbyte(ByteInst::VpsrlwImm8(Ymm(5), Ymm(5), 15)),
    ]
}

proof fn lemma_ones(fpu: Fpu, fuel: nat, s: Machine)
    requires
        in_range(s),
    ensures
        run(ones_code(), fpu, fuel, s) matches Some(u) && {
            &&& in_range(u)
            &&& u.regs == s.regs
            &&& u.mem == s.mem
            &&& u.returned == s.returned
            &&& forall|q: u8| q != 5 ==> #[trigger] u.vecs[q] == s.vecs[q]
            &&& ones(u.vecs[5])
        },
{
    let c0 = ones_code();
    let c1 = c0.drop_first();
    let c2 = c1.drop_first();
    let s1 = step(Inst::Byte(ByteInst::VpcmpeqdReg(Ymm(5), Ymm(5), Ymm(5))), fpu, s);
    lemma_all_ones(Ymm(5), fpu, s);
    lemma_run_op(c0, fpu, fuel, s);
    let s2 = step(Inst::Byte(ByteInst::VpsrlwImm8(Ymm(5), Ymm(5), 15)), fpu, s1);
    lemma_vpsrlw(Ymm(5), Ymm(5), 15, fpu, s1);
    lemma_run_op(c1, fpu, fuel, s1);
    lemma_run_none(c2, fpu, fuel, s2);
    lemma_one_bit();
    assert forall|l: int| 0 <= l < 8 implies #[trigger] s2.vecs[5][l] == lane_of_halves(1, 1) by {
        assert(s1.vecs[5][l] == 0xFFFF_FFFFu32);
    }
}

/// The highest bit of a half that is all ones.
proof fn lemma_one_bit()
    ensures
        half_shifted(0xFFFF_FFFF, 0, 15) == 1,
        half_shifted(0xFFFF_FFFF, 1, 15) == 1,
{
    reveal_with_fuel(p2, 16);
    assert(p2(15) == 32768);
    assert(half_of(0xFFFF_FFFF, 0) == 65535);
    assert(half_of(0xFFFF_FFFF, 1) == 65535);
}

/// The kernel without VNNI instructions computes the product of a Q8_0 matrix
/// of `m` rows and `k` columns and a Q8_0 vector, where `k` is a multiple of 32
/// and no sign is lost.
#[verifier::rlimit(40)]
pub proof fn lemma_quant_matmul_q8q8_n1(
    fpu: Fpu,
    fuel: nat,
    s: Machine,
    w: Reg,
    a: Reg,
    out: Reg,
    m: i32,
    k: i32,
    abi: Abi,
)
    requires
        0 <= m,
        0 <= k,
        k % 32 == 0,
        k / 32 * 34 <= i32::MAX,
        fuel > m + 1,
        fuel > k / 32 + 1,
        called(s, w, 34 * (m * (k / 32)), a, 34 * (k / 32), out, 4 * m, abi),
        signs_fit(s.mem, s.regs[w], s.regs[a], m as int, k / 32),
    ensures
        run(quant_matmul_q8q8_n1_body_code(w, a, out, m, k, abi), fpu, fuel, s) matches Some(t)
            && gives_rows(
            s,
            t,
            out,
            m,
            |i: int| integer_product(fpu, s.mem, s.regs[w], s.regs[a], i, (k / 32) as nat),
        ),
{
    let extra = frame_extra(abi);
    let k_blocks = blocks_per_row(k);
    let row_bytes = bytes_per_row(k);
    let w_len = 34 * (m * (k / 32));
    let a_len = 34 * (k / 32);
    let entry = |i: int| integer_product(fpu, s.mem, s.regs[w], s.regs[a], i, (k / 32) as nat);
    let head = prologue_code(extra) + bind_code(w, a, out);
    let fill = ones_code();
    let inner = quant_matmul_q8q8_n1_body_blocks(row_bytes);
    let body = quant_matmul_q8q8_n1_body_rows(k_blocks, row_bytes);
    let rows = seq![counted(Reg::R15, m, 1, body)];
    assert(0 <= m * (k / 32)) by (nonlinear_arith)
        requires
            0 <= m,
            0 <= k,
    ;
    lemma_enter(extra, w, a, out, fpu, fuel, s);
    let t = run(head, fpu, fuel, s)->0;
    let x = rows_of(s, t, w, w_len, a, a_len, out, m, t.regs[Reg::RSP], entry);
    lemma_rows_entered(s, t, w, w_len, a, a_len, out, m, abi, entry);
    lemma_ones(fpu, fuel, t);
    let t1 = run(fill, fpu, fuel, t)->0;
    lemma_run_concat(head, fill, fpu, fuel, s);
    let also = |u: Machine| x.high(u) && ones(u.vecs[5]);
    assert forall|i: int, u: Machine| #[trigger]
        x.before(i, u) && i < m && also(u) implies (after_turn(
        Reg::R15,
        1,
        body,
        fpu,
        fuel,
        u,
    ) matches Some(z) && x.before(i + 1, z) && also(z)) by {
        assert forall|b: int, y: Machine| #[trigger]
            totals_inv(x, fpu, true, k_blocks as int, i, b, y) && b < k_blocks implies (after_turn(
            Reg::R11,
            1,
            inner,
            fpu,
            fuel,
            y,
        ) matches Some(z) && totals_inv(x, fpu, true, k_blocks as int, i, b + 1, z)) by {
            lemma_madd_block(x, fpu, fuel, row_bytes, k_blocks as int, i, b, y);
        }
        lemma_totals_row(x, fpu, fuel, true, k_blocks, inner, i, u);
    }
    lemma_rows(x, m, body, fpu, fuel, t1, also);
    let u = run(rows, fpu, fuel, t1)->0;
    lemma_run_concat(head + fill, rows, fpu, fuel, s);
    lemma_rows_end(fpu, fuel, s, t, u, w, w_len, a, a_len, out, m, abi, entry);
    lemma_run_concat(head + fill + rows, epilogue_code(extra), fpu, fuel, s);
    assert(head + fill + rows + epilogue_code(extra) =~= quant_matmul_q8q8_n1_body_code(
        w,
        a,
        out,
        m,
        k,
        abi,
    ));
}

/// The kernel with VNNI instructions computes the same product, on the same
/// inputs.
pub proof fn lemma_quant_matmul_q8q8_n1_vnni(
    fpu: Fpu,
    fuel: nat,
    s: Machine,
    w: Reg,
    a: Reg,
    out: Reg,
    m: i32,
    k: i32,
    abi: Abi,
    form: VnniForm,
)
    requires
        0 <= m,
        0 <= k,
        k % 32 == 0,
        k / 32 * 34 <= i32::MAX,
        fuel > m + 1,
        fuel > k / 32 + 1,
        called(s, w, 34 * (m * (k / 32)), a, 34 * (k / 32), out, 4 * m, abi),
        signs_fit(s.mem, s.regs[w], s.regs[a], m as int, k / 32),
    ensures
        run(
            quant_matmul_q8q8_n1_body_vnni_code(w, a, out, m, k, abi, form),
            fpu,
            fuel,
            s,
        ) matches Some(t) && gives_rows(
            s,
            t,
            out,
            m,
            |i: int| integer_product(fpu, s.mem, s.regs[w], s.regs[a], i, (k / 32) as nat),
        ),
{
    let extra = frame_extra(abi);
    let k_blocks = blocks_per_row(k);
    let row_bytes = bytes_per_row(k);
    let w_len = 34 * (m * (k / 32));
    let a_len = 34 * (k / 32);
    let entry = |i: int| integer_product(fpu, s.mem, s.regs[w], s.regs[a], i, (k / 32) as nat);
    let head = prologue_code(extra) + bind_code(w, a, out);
    let inner = quant_matmul_q8q8_n1_body_vnni_blocks(form, row_bytes);
    let body = quant_matmul_q8q8_n1_body_vnni_rows(form, k_blocks, row_bytes);
    let rows = seq![counted(Reg::R15, m, 1, body)];
    assert(0 <= m * (k / 32)) by (nonlinear_arith)
        requires
            0 <= m,
            0 <= k,
    ;
    lemma_enter(extra, w, a, out, fpu, fuel, s);
    let t = run(head, fpu, fuel, s)->0;
    let x = rows_of(s, t, w, w_len, a, a_len, out, m, t.regs[Reg::RSP], entry);
    lemma_rows_entered(s, t, w, w_len, a, a_len, out, m, abi, entry);
    let also = |u: Machine| x.high(u);
    assert forall|i: int, u: Machine| #[trigger]
        x.before(i, u) && i < m && also(u) implies (after_turn(
        Reg::R15,
        1,
        body,
        fpu,
        fuel,
        u,
    ) matches Some(z) && x.before(i + 1, z) && also(z)) by {
        assert forall|b: int, y: Machine| #[trigger]
            totals_inv(x, fpu, false, k_blocks as int, i, b, y) && b < k_blocks implies (after_turn(
            Reg::R11,
            1,
            inner,
            fpu,
            fuel,
            y,
        ) matches Some(z) && totals_inv(x, fpu, false, k_blocks as int, i, b + 1, z)) by {
            lemma_vnni_block(x, fpu, fuel, form, row_bytes, k_blocks as int, i, b, y);
        }
        lemma_totals_row(x, fpu, fuel, false, k_blocks, inner, i, u);
    }
    lemma_rows(x, m, body, fpu, fuel, t, also);
    let u = run(rows, fpu, fuel, t)->0;
    lemma_run_concat(head, rows, fpu, fuel, s);
    lemma_rows_end(fpu, fuel, s, t, u, w, w_len, a, a_len, out, m, abi, entry);
    lemma_run_concat(head + rows, epilogue_code(extra), fpu, fuel, s);
}

} // verus!
