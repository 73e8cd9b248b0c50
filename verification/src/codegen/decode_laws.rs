//! The kernels that multiply a Q8_0 matrix with an fp32 vector compute that
//! product, with one sum per lane.

use crate::codegen::assembler::{at, Code, ConvInst, FloatInst, Inst, IntInst, MemInst, SseInst, ZmmInst};
use crate::codegen::avx2_enc::{Ymm, Zmm};
use crate::codegen::block_laws::{
    four_lanes, four_sum, gives_rows, lane_sum, lemma_block_place, lemma_combine4, lemma_hsum,
    lemma_q8_offset, lemma_row_store, lemma_rows, lemma_rows_end, lemma_rows_entered,
    lemma_signed_low, lemma_vector_word, lemma_weight_byte, lemma_weight_scale, quant, rows_of,
    scale_bits, weight, Rows,
};
use crate::codegen::frame_laws::{in_range, lemma_enter};
use crate::codegen::kernels::{
    bind_code, blocks_per_row, bytes_per_row, combine4_code, counted, epilogue_code, frame_extra,
    gp, hsum_code, prologue_code, q8_chunk_code, q8_offset_code, quant_matmul_q8_n1_body_blocks,
    quant_matmul_q8_n1_body_code, quant_matmul_q8_n1_body_rows, quant_matmul_q8_n1_body_zmm_blocks,
    quant_matmul_q8_n1_body_zmm_code, quant_matmul_q8_n1_body_zmm_rows, sse, vcvt, vmem, vps,
    zero4_code, zmm,
};
use crate::codegen::machine::{
    after_turn, lemma_imul, lemma_loop, lemma_mov_rr, lemma_run_concat, lemma_run_none,
    lemma_run_op, lemma_run_single, lemma_vaddps, lemma_vbroadcastss_xmm, lemma_vcvtdq2ps,
    lemma_vcvtph2ps, lemma_vfmadd_mem, lemma_vmovd_load, lemma_vmulps, lemma_vpmovsxbd,
    lemma_zmm_add, lemma_zmm_broadcast, lemma_zmm_cvt, lemma_zmm_extract, lemma_zmm_fma,
    lemma_zmm_mul, lemma_zmm_sext, lemma_zmm_zero, low, run, run_one, signed8, step, word_at,
    word_count, Fpu, Machine,
};
use crate::codegen::matmul_laws::{called, lemma_last_count};
use crate::codegen::tile_laws::lemma_zero4;
use crate::codegen::x86_64::Abi;
use crate::codegen::x86_64_enc::{Reg, Scale, Xmm};
use vstd::prelude::*;

verus! {

/// The sum of the products at place `e` of the first blocks of a row, whose
/// weights start at block `first`.
pub open spec fn place_sum(
    fpu: Fpu,
    mem: spec_fn(int) -> u8,
    w: int,
    a: int,
    first: int,
    e: int,
    blocks: nat,
) -> u32
    decreases blocks,
{
    if blocks == 0 {
        0
    } else {
        let b = blocks - 1;
        (fpu.fma)(
            weight(fpu, mem, w, first + b, e),
            word_at(mem, a + 4 * (32 * b + e)),
            place_sum(fpu, mem, w, a, first, e, b as nat),
        )
    }
}

/// The product of row `i` and the vector: the sums of the 32 places, added up.
pub open spec fn decoded(
    fpu: Fpu,
    mem: spec_fn(int) -> u8,
    w: int,
    a: int,
    i: int,
    blocks: nat,
) -> u32 {
    let v = |e: int| place_sum(fpu, mem, w, a, i * blocks, e, blocks);
    lane_sum(fpu, |l: int| four_sum(fpu, v, l))
}

// ---- eight lanes and four accumulators --------------------------------------------------

/// Eight elements of a block.
proof fn lemma_q8_chunk(
    x: Rows,
    fpu: Fpu,
    fuel: nat,
    s: Machine,
    inner: i32,
    disp: i32,
    acc: u8,
    first: int,
    b: int,
    v: spec_fn(int) -> u32,
)
    requires
        x.ok(),
        x.steady(s),
        acc < 4,
        inner == 2 + 8 * acc,
        disp == 32 * acc,
        0 <= first + b,
        34 * (first + b) + 34 <= x.w_len,
        0 <= b < 0x8000_0000,
        4 * (32 * b + 32) <= x.a_len,
        s.regs[Reg::RAX] == 34 * (first + b),
        s.regs[Reg::R10] == 32 * b,
        forall|l: int|
            0 <= l < 8 ==> #[trigger] s.vecs[5][l] == (fpu.widen)(
                scale_bits(x.mem, x.w, first + b),
            ),
        forall|l: int| 0 <= l < 8 ==> #[trigger] s.vecs[acc][l] == v(8 * acc + l),
    ensures
        run(q8_chunk_code(inner, disp, Ymm(acc)), fpu, fuel, s) matches Some(u) && {
            &&& in_range(u)
            &&& u.regs == s.regs
            &&& u.mem == s.mem
            &&& forall|q: u8| q != acc && q != 4 ==> #[trigger] u.vecs[q] == s.vecs[q]
            &&& forall|l: int|
                0 <= l < 8 ==> #[trigger] u.vecs[acc][l] == (fpu.fma)(
                    weight(fpu, x.mem, x.w, first + b, 8 * acc + l),
                    word_at(x.mem, x.a + 4 * (32 * b + (8 * acc + l))),
                    v(8 * acc + l),
                )
        },
{
    let mw = at(Reg::R12, Reg::RAX, Scale::S1, inner);
    let ma = at(Reg::R13, Reg::R10, Scale::S4, disp);
    let c0 = q8_chunk_code(inner, disp, Ymm(acc));
    let c1 = c0.drop_first();
    let c2 = c1.drop_first();
    let c3 = c2.drop_first();
    let c4 = c3.drop_first();
    let s1 = step(Inst::Mem(MemInst::VpmovsxbdLoad(Ymm(4), mw)), fpu, s);
    lemma_vpmovsxbd(Ymm(4), mw, fpu, s);
    lemma_run_op(c0, fpu, fuel, s);
    let s2 = step(Inst::Conv(ConvInst::Vcvtdq2ps(Ymm(4), Ymm(4))), fpu, s1);
    lemma_vcvtdq2ps(Ymm(4), Ymm(4), fpu, s1);
    lemma_run_op(c1, fpu, fuel, s1);
    let s3 = step(Inst::Float(FloatInst::VmulpsReg(Ymm(4), Ymm(4), Ymm(5))), fpu, s2);
    lemma_vmulps(Ymm(4), Ymm(4), Ymm(5), fpu, s2);
    lemma_run_op(c2, fpu, fuel, s2);
    let s4 = step(Inst::Mem(MemInst::Vfmadd231psMem(Ymm(acc), Ymm(4), ma)), fpu, s3);
    lemma_vfmadd_mem(Ymm(acc), Ymm(4), ma, fpu, s3);
    lemma_run_op(c3, fpu, fuel, s3);
    lemma_run_none(c4, fpu, fuel, s4);
    let p = x.w + 34 * (first + b) + inner;
    assert(s.addr(mw) == p);
    let q = x.a + 4 * (32 * b) + disp;
    assert(s3.addr(ma) == q);
    assert forall|l: int| 0 <= l < 8 implies #[trigger] s4.vecs[acc][l] == (fpu.fma)(
        weight(fpu, x.mem, x.w, first + b, 8 * acc + l),
        word_at(x.mem, x.a + 4 * (32 * b + (8 * acc + l))),
        v(8 * acc + l),
    ) by {
        let e = 8 * acc + l;
        let z = signed8((s.mem)(p + l));
        lemma_signed_low(z);
        lemma_weight_byte(x, s, p + l);
        assert(p + l == x.w + 34 * (first + b) + 2 + e);
        assert(z == quant(x.mem, x.w, first + b, e));
        assert(s1.vecs[4][l] == low(z));
        assert(s2.vecs[4][l] == (fpu.from_int)(z));
        assert(s.vecs[5][l] == (fpu.widen)(scale_bits(x.mem, x.w, first + b)));
        assert(s3.vecs[4][l] == weight(fpu, x.mem, x.w, first + b, e));
        assert(q + 4 * l == x.a + 4 * (32 * b + e));
        lemma_vector_word(x, s, q + 4 * l);
        assert(s.vecs[acc][l] == v(e));
    }
}

/// Broadcasts the scale of a block, and finds the vector's part.
spec fn scale5_code() -> Seq<Code> {
    seq![
        vmem(MemInst::VmovdLoad(Ymm(5), at(Reg::R12, Reg::RAX, Scale::S1, 0))),
        vcvt(ConvInst::Vcvtph2psXmm(Ymm(5), Ymm(5))),
        vps(FloatInst::VbroadcastssXmm(Ymm(5), Ymm(5))),
        gp(IntInst::MovRR(Reg::R10, Reg::R11)),
        gp(IntInst::ImulRRI(Reg::R10, Reg::R10, 32)),
    ]
}

proof fn lemma_scale5(x: Rows, fpu: Fpu, fuel: nat, s: Machine, block: int, b: int)
    requires
        x.ok(),
        x.steady(s),
        0 <= block,
        34 * block + 34 <= x.w_len,
        0 <= b < 0x8000_0000,
        s.regs[Reg::RAX] == 34 * block,
        s.regs[Reg::R11] == b,
    ensures
        run(scale5_code(), fpu, fuel, s) matches Some(u) && {
            &&& in_range(u)
            &&& u.regs == s.regs.insert(Reg::R10, 32 * b)
            &&& u.mem == s.mem
            &&& forall|q: u8| q != 5 ==> #[trigger] u.vecs[q] == s.vecs[q]
            &&& forall|l: int|
                0 <= l < 8 ==> #[trigger] u.vecs[5][l] == (fpu.widen)(
                    scale_bits(x.mem, x.w, block),
                )
        },
{
    let mw = at(Reg::R12, Reg::RAX, Scale::S1, 0);
    let c0 = scale5_code();
    let c1 = c0.drop_first();
    let c2 = c1.drop_first();
    let c3 = c2.drop_first();
    let c4 = c3.drop_first();
    let c5 = c4.drop_first();
    let s1 = step(Inst::Mem(MemInst::VmovdLoad(Ymm(5), mw)), fpu, s);
    lemma_vmovd_load(Ymm(5), mw, fpu, s);
    lemma_run_op(c0, fpu, fuel, s);
    let s2 = step(Inst::Conv(ConvInst::Vcvtph2psXmm(Ymm(5), Ymm(5))), fpu, s1);
    lemma_vcvtph2ps(Ymm(5), Ymm(5), fpu, s1);
    lemma_run_op(c1, fpu, fuel, s1);
    let s3 = step(Inst::Float(FloatInst::VbroadcastssXmm(Ymm(5), Ymm(5))), fpu, s2);
    lemma_vbroadcastss_xmm(Ymm(5), Ymm(5), fpu, s2);
    lemma_run_op(c2, fpu, fuel, s2);
    let s4 = step(Inst::Int(IntInst::MovRR(Reg::R10, Reg::R11)), fpu, s3);
    lemma_mov_rr(Reg::R10, Reg::R11, fpu, s3);
    lemma_run_op(c3, fpu, fuel, s3);
    let s5 = step(Inst::Int(IntInst::ImulRRI(Reg::R10, Reg::R10, 32)), fpu, s4);
    lemma_imul(Reg::R10, Reg::R10, 32, fpu, s4);
    lemma_run_op(c4, fpu, fuel, s4);
    lemma_run_none(c5, fpu, fuel, s5);
    assert(s.addr(mw) == x.w + 34 * block);
    lemma_weight_scale(x, s, block);
    assert(s1.vecs[5][0] == word_at(s.mem, x.w + 34 * block));
    assert(s2.vecs[5][0] == (fpu.widen)(scale_bits(x.mem, x.w, block)));
    assert(s5.regs =~= s.regs.insert(Reg::R10, 32 * b));
}

/// Before block `b` of row `i`.
spec fn decode_inv(x: Rows, fpu: Fpu, blocks: int, i: int, b: int, t: Machine) -> bool {
    &&& x.before(i, t)
    &&& x.high(t)
    &&& t.regs[Reg::R11] == b
    &&& 0 <= b <= blocks
    &&& four_lanes(t, |e: int| place_sum(fpu, x.mem, x.w, x.a, i * blocks, e, b as nat))
}

#[verifier::rlimit(40)]
proof fn lemma_decode_block(
    x: Rows,
    fpu: Fpu,
    fuel: nat,
    row_bytes: i32,
    blocks: int,
    i: int,
    b: int,
    t: Machine,
)
    requires
        x.ok(),
        0 <= b < blocks,
        row_bytes == 34 * blocks,
        i < x.m,
        x.w_len == 34 * (x.m * blocks),
        x.a_len == 4 * (32 * blocks),
        decode_inv(x, fpu, blocks, i, b, t),
    ensures
        after_turn(
            Reg::R11,
            1,
            quant_matmul_q8_n1_body_blocks(row_bytes),
            fpu,
            fuel,
            t,
        ) matches Some(u) && decode_inv(x, fpu, blocks, i, b + 1, u),
{
    let first = i * blocks;
    let v = |e: int| place_sum(fpu, x.mem, x.w, x.a, first, e, b as nat);
    let v1 = |e: int| place_sum(fpu, x.mem, x.w, x.a, first, e, (b + 1) as nat);
    let ca = q8_offset_code(row_bytes);
    let cb = scale5_code();
    let k0 = q8_chunk_code(2, 0, Ymm(0));
    let k1 = q8_chunk_code(10, 32, Ymm(1));
    let k2 = q8_chunk_code(18, 64, Ymm(2));
    let k3 = q8_chunk_code(26, 96, Ymm(3));
    lemma_block_place(x.m, blocks, i, b);
    lemma_q8_offset(row_bytes, fpu, fuel, t, blocks, i, b);
    let s1 = run(ca, fpu, fuel, t)->0;
    assert(s1.regs[Reg::RAX] == 34 * (first + b));
    assert(0 <= 34 * (first + b) < word_count());
    assert(in_range(s1));
    assert(x.steady(s1));
    lemma_scale5(x, fpu, fuel, s1, first + b, b);
    let s2 = run(cb, fpu, fuel, s1)->0;
    lemma_run_concat(ca, cb, fpu, fuel, t);
    assert(x.steady(s2));
    assert forall|l: int| 0 <= l < 8 implies #[trigger] s2.vecs[0][l] == v(8 * 0 + l) by {
        assert(t.vecs[0][l] == v(l));
    }
    lemma_q8_chunk(x, fpu, fuel, s2, 2, 0, 0, first, b, v);
    let s3 = run(k0, fpu, fuel, s2)->0;
    lemma_run_concat(ca + cb, k0, fpu, fuel, t);
    assert(x.steady(s3));
    assert(s3.vecs[5] == s2.vecs[5]);
    assert forall|l: int| 0 <= l < 8 implies #[trigger] s3.vecs[1][l] == v(8 * 1 + l) by {
        assert(t.vecs[0][l] == v(l));
    }
    lemma_q8_chunk(x, fpu, fuel, s3, 10, 32, 1, first, b, v);
    let s4 = run(k1, fpu, fuel, s3)->0;
    lemma_run_concat(ca + cb + k0, k1, fpu, fuel, t);
    assert(x.steady(s4));
    assert(s4.vecs[5] == s2.vecs[5]);
    assert forall|l: int| 0 <= l < 8 implies #[trigger] s4.vecs[2][l] == v(8 * 2 + l) by {
        assert(t.vecs[0][l] == v(l));
    }
    lemma_q8_chunk(x, fpu, fuel, s4, 18, 64, 2, first, b, v);
    let s5 = run(k2, fpu, fuel, s4)->0;
    lemma_run_concat(ca + cb + k0 + k1, k2, fpu, fuel, t);
    assert(x.steady(s5));
    assert(s5.vecs[5] == s2.vecs[5]);
    assert forall|l: int| 0 <= l < 8 implies #[trigger] s5.vecs[3][l] == v(8 * 3 + l) by {
        assert(t.vecs[0][l] == v(l));
    }
    lemma_q8_chunk(x, fpu, fuel, s5, 26, 96, 3, first, b, v);
    let s6 = run(k3, fpu, fuel, s5)->0;
    lemma_run_concat(ca + cb + k0 + k1 + k2, k3, fpu, fuel, t);
    assert(ca + cb + k0 + k1 + k2 + k3 =~= quant_matmul_q8_n1_body_blocks(row_bytes));
    let u = s6.set(Reg::R11, s6.regs[Reg::R11] + 1);
    assert(in_range(u));
    assert(s6.vecs[0] == s3.vecs[0] && s6.vecs[1] == s4.vecs[1] && s6.vecs[2] == s5.vecs[2]);
    assert forall|l: int| 0 <= l < 8 implies (#[trigger] u.vecs[0][l]) == v1(l) && u.vecs[1][l]
        == v1(8 + l) && u.vecs[2][l] == v1(16 + l) && u.vecs[3][l] == v1(24 + l) by {
        assert(s3.vecs[0][l] == v1(8 * 0 + l));
        assert(s4.vecs[1][l] == v1(8 * 1 + l));
        assert(s5.vecs[2][l] == v1(8 * 2 + l));
        assert(s6.vecs[3][l] == v1(8 * 3 + l));
    }
    assert(four_lanes(u, v1));
}

proof fn lemma_decode_row(
    x: Rows,
    fpu: Fpu,
    fuel: nat,
    k_blocks: i32,
    row_bytes: i32,
    i: int,
    t: Machine,
)
    requires
        x.ok(),
        0 <= k_blocks,
        row_bytes == 34 * k_blocks,
        fuel > k_blocks + 1,
        i < x.m,
        x.w_len == 34 * (x.m * k_blocks),
        x.a_len == 4 * (32 * k_blocks),
        (x.entry)(i) == decoded(fpu, x.mem, x.w, x.a, i, k_blocks as nat),
        x.before(i, t),
        x.high(t),
    ensures
        after_turn(
            Reg::R15,
            1,
            quant_matmul_q8_n1_body_rows(k_blocks, row_bytes),
            fpu,
            fuel,
            t,
        ) matches Some(u) && x.before(i + 1, u) && x.high(u),
{
    let blocks = k_blocks as int;
    let v = |e: int| place_sum(fpu, x.mem, x.w, x.a, i * blocks, e, blocks as nat);
    let body = quant_matmul_q8_n1_body_blocks(row_bytes);
    let zero = zero4_code();
    let turns = seq![counted(Reg::R11, k_blocks, 1, body)];
    let put = seq![sse(SseInst::MovssStore(Xmm(0), at(Reg::R14, Reg::R15, Scale::S4, 0)))];
    lemma_zero4(fpu, fuel, t);
    let s1 = run(zero, fpu, fuel, t)->0;

    let inv = |b: int, u: Machine| decode_inv(x, fpu, blocks, i, b, u);
    assert forall|b: int, u: Machine| #[trigger]
        inv(b, u) && 0 <= b < k_blocks && b % 1 == 0 implies (after_turn(
        Reg::R11,
        1,
        body,
        fpu,
        fuel,
        u,
    ) matches Some(w) && inv(b + 1, w)) by {
        lemma_decode_block(x, fpu, fuel, row_bytes, blocks, i, b, u);
    }
    let s0 = s1.set(Reg::R11, 0);
    assert(in_range(s0));
    assert(inv(0, s0));
    lemma_loop(Reg::R11, k_blocks, 1, body, fpu, fuel, s1, inv);
    lemma_last_count(blocks, 1);
    lemma_run_single(turns[0], fpu, fuel, s1);
    let s2 = run_one(turns[0], fpu, fuel, s1)->0;
    assert(inv(blocks, s2));
    lemma_run_concat(zero, turns, fpu, fuel, t);

    lemma_combine4(fpu, fuel, s2, v);
    let s3 = run(combine4_code(), fpu, fuel, s2)->0;
    lemma_run_concat(zero + turns, combine4_code(), fpu, fuel, t);
    let z = |l: int| four_sum(fpu, v, l);
    lemma_hsum(fpu, fuel, s3, z);
    let s4 = run(hsum_code(), fpu, fuel, s3)->0;
    lemma_run_concat(zero + turns + combine4_code(), hsum_code(), fpu, fuel, t);
    assert(s4.vecs[0][0] == decoded(fpu, x.mem, x.w, x.a, i, k_blocks as nat));
    lemma_row_store(x, fpu, fuel, i, s4);
    let s5 = run(put, fpu, fuel, s4)->0;
    lemma_run_concat(zero + turns + combine4_code() + hsum_code(), put, fpu, fuel, t);
    assert(run(quant_matmul_q8_n1_body_rows(k_blocks, row_bytes), fpu, fuel, t) == Some(s5));
}

/// The kernel with four accumulators computes the product of a Q8_0 matrix of
/// `m` rows and `k` columns and an fp32 vector, where `k` is a multiple of 32.
pub proof fn lemma_quant_matmul_q8_n1(
    fpu: Fpu,
    fuel: nat,
    s: Machine,
    w: Reg,
    a: Reg,
    out: Reg,
    m: i32,
    k: i32,
    abi: Abi,
)
    requires
        0 <= m,
        0 <= k,
        k % 32 == 0,
        k / 32 * 34 <= i32::MAX,
        fuel > m + 1,
        fuel > k / 32 + 1,
        called(s, w, 34 * (m * (k / 32)), a, 4 * k, out, 4 * m, abi),
    ensures
        run(quant_matmul_q8_n1_body_code(w, a, out, m, k, abi), fpu, fuel, s) matches Some(t)
            && gives_rows(
            s,
            t,
            out,
            m,
            |i: int| decoded(fpu, s.mem, s.regs[w], s.regs[a], i, (k / 32) as nat),
        ),
{
    let extra = frame_extra(abi);
    let k_blocks = blocks_per_row(k);
    let row_bytes = bytes_per_row(k);
    let w_len = 34 * (m * (k / 32));
    let a_len = 4 * (k as int);
    let entry = |i: int| decoded(fpu, s.mem, s.regs[w], s.regs[a], i, (k / 32) as nat);
    let head = prologue_code(extra) + bind_code(w, a, out);
    let body = quant_matmul_q8_n1_body_rows(k_blocks, row_bytes);
    let rows = seq![counted(Reg::R15, m, 1, body)];
    assert(0 <= m * (k / 32)) by (nonlinear_arith)
        requires
            0 <= m,
            0 <= k,
    ;
    lemma_enter(extra, w, a, out, fpu, fuel, s);
    let t = run(head, fpu, fuel, s)->0;
    let x = rows_of(s, t, w, w_len, a, a_len, out, m, t.regs[Reg::RSP], entry);
    lemma_rows_entered(s, t, w, w_len, a, a_len, out, m, abi, entry);
    let also = |u: Machine| x.high(u);
    assert forall|i: int, u: Machine| #[trigger]
        x.before(i, u) && i < m && also(u) implies (after_turn(
        Reg::R15,
        1,
        body,
        fpu,
        fuel,
        u,
    ) matches Some(z) && x.before(i + 1, z) && also(z)) by {
        lemma_decode_row(x, fpu, fuel, k_blocks, row_bytes, i, u);
    }
    lemma_rows(x, m, body, fpu, fuel, t, also);
    let u = run(rows, fpu, fuel, t)->0;
    lemma_run_concat(head, rows, fpu, fuel, s);
    lemma_rows_end(fpu, fuel, s, t, u, w, w_len, a, a_len, out, m, abi, entry);
    lemma_run_concat(head + rows, epilogue_code(extra), fpu, fuel, s);
}

// ---- sixteen lanes and two accumulators -------------------------------------------------

/// As [`decoded`], with the sums of the places added up in another order.
pub open spec fn decoded_wide(
    fpu: Fpu,
    mem: spec_fn(int) -> u8,
    w: int,
    a: int,
    i: int,
    blocks: nat,
) -> u32 {
    let v = |e: int| place_sum(fpu, mem, w, a, i * blocks, e, blocks);
    lane_sum(fpu, |l: int| wide_sum(fpu, v, l))
}

/// The sum of two registers of sixteen lanes, folded to eight.
pub open spec fn wide_sum(fpu: Fpu, v: spec_fn(int) -> u32, l: int) -> u32 {
    (fpu.add)((fpu.add)(v(l), v(16 + l)), (fpu.add)(v(8 + l), v(24 + l)))
}

/// Finds the vector's part, and broadcasts the scale of a block.
spec fn wide_scale_code() -> Seq<Code> {
    seq![
        gp(IntInst::MovRR(Reg::R10, Reg::R11)),
        gp(IntInst::ImulRRI(Reg::R10, Reg::R10, 32)),
        vmem(MemInst::VmovdLoad(Ymm(2), at(Reg::R12, Reg::RAX, Scale::S1, 0))),
        vcvt(ConvInst::Vcvtph2psXmm(Ymm(2), Ymm(2))),
        zmm(ZmmInst::VbroadcastssZmmXmm(Zmm(2), Zmm(2))),
    ]
}

proof fn lemma_wide_scale(x: Rows, fpu: Fpu, fuel: nat, s: Machine, block: int, b: int)
    requires
        x.ok(),
        x.steady(s),
        0 <= block,
        34 * block + 34 <= x.w_len,
        0 <= b < 0x8000_0000,
        s.regs[Reg::RAX] == 34 * block,
        s.regs[Reg::R11] == b,
    ensures
        run(wide_scale_code(), fpu, fuel, s) matches Some(u) && {
            &&& in_range(u)
            &&& u.regs == s.regs.insert(Reg::R10, 32 * b)
            &&& u.mem == s.mem
            &&& forall|q: u8| q != 2 ==> #[trigger] u.vecs[q] == s.vecs[q]
            &&& forall|l: int|
                0 <= l < 16 ==> #[trigger] u.vecs[2][l] == (fpu.widen)(
                    scale_bits(x.mem, x.w, block),
                )
        },
{
    let mw = at(Reg::R12, Reg::RAX, Scale::S1, 0);
    let c0 = wide_scale_code();
    let c1 = c0.drop_first();
    let c2 = c1.drop_first();
    let c3 = c2.drop_first();
    let c4 = c3.drop_first();
    let c5 = c4.drop_first();
    let s1 = step(Inst::Int(IntInst::MovRR(Reg::R10, Reg::R11)), fpu, s);
    lemma_mov_rr(Reg::R10, Reg::R11, fpu, s);
    lemma_run_op(c0, fpu, fuel, s);
    let s2 = step(Inst::Int(IntInst::ImulRRI(Reg::R10, Reg::R10, 32)), fpu, s1);
    lemma_imul(Reg::R10, Reg::R10, 32, fpu, s1);
    lemma_run_op(c1, fpu, fuel, s1);
    let s3 = step(Inst::Mem(MemInst::VmovdLoad(Ymm(2), mw)), fpu, s2);
    lemma_vmovd_load(Ymm(2), mw, fpu, s2);
    lemma_run_op(c2, fpu, fuel, s2);
    let s4 = step(Inst::Conv(ConvInst::Vcvtph2psXmm(Ymm(2), Ymm(2))), fpu, s3);
    lemma_vcvtph2ps(Ymm(2), Ymm(2), fpu, s3);
    lemma_run_op(c3, fpu, fuel, s3);
    let s5 = step(Inst::Zmm(ZmmInst::VbroadcastssZmmXmm(Zmm(2), Zmm(2))), fpu, s4);
    lemma_zmm_broadcast(Zmm(2), Zmm(2), fpu, s4);
    lemma_run_op(c4, fpu, fuel, s4);
    lemma_run_none(c5, fpu, fuel, s5);
    assert(s2.regs =~= s.regs.insert(Reg::R10, 32 * b));
    assert(s2.addr(mw) == x.w + 34 * block);
    lemma_weight_scale(x, s, block);
    assert(s3.vecs[2][0] == word_at(s.mem, x.w + 34 * block));
    assert(s4.vecs[2][0] == (fpu.widen)(scale_bits(x.mem, x.w, block)));
}

/// Sixteen elements of a block.
spec fn wide_chunk_code(inner: i32, disp: i32, acc: u8) -> Seq<Code> {
    seq![
        zmm(ZmmInst::VpmovsxbdZmmLoad(Zmm(3), at(Reg::R12, Reg::RAX, Scale::S1, inner))),
        zmm(ZmmInst::Vcvtdq2psZmm(Zmm(3), Zmm(3))),
        zmm(ZmmInst::VmulpsZmmReg(Zmm(3), Zmm(3), Zmm(2))),
        zmm(ZmmInst::Vfmadd231psZmmMem(Zmm(acc), Zmm(3), at(Reg::R13, Reg::R10, Scale::S4, disp))),
    ]
}

proof fn lemma_wide_chunk(
    x: Rows,
    fpu: Fpu,
    fuel: nat,
    s: Machine,
    inner: i32,
    disp: i32,
    acc: u8,
    first: int,
    b: int,
    v: spec_fn(int) -> u32,
)
    requires
        x.ok(),
        x.steady(s),
        acc < 2,
        inner == 2 + 16 * acc,
        disp == 64 * acc,
        0 <= first + b,
        34 * (first + b) + 34 <= x.w_len,
        0 <= b < 0x8000_0000,
        4 * (32 * b + 32) <= x.a_len,
        s.regs[Reg::RAX] == 34 * (first + b),
        s.regs[Reg::R10] == 32 * b,
        forall|l: int|
            0 <= l < 16 ==> #[trigger] s.vecs[2][l] == (fpu.widen)(
                scale_bits(x.mem, x.w, first + b),
            ),
        forall|l: int| 0 <= l < 16 ==> #[trigger] s.vecs[acc][l] == v(16 * acc + l),
    ensures
        run(wide_chunk_code(inner, disp, acc), fpu, fuel, s) matches Some(u) && {
            &&& in_range(u)
            &&& u.regs == s.regs
            &&& u.mem == s.mem
            &&& forall|q: u8| q != acc && q != 3 ==> #[trigger] u.vecs[q] == s.vecs[q]
            &&& forall|l: int|
                0 <= l < 16 ==> #[trigger] u.vecs[acc][l] == (fpu.fma)(
                    weight(fpu, x.mem, x.w, first + b, 16 * acc + l),
                    word_at(x.mem, x.a + 4 * (32 * b + (16 * acc + l))),
                    v(16 * acc + l),
                )
        },
{
    let mw = at(Reg::R12, Reg::RAX, Scale::S1, inner);
    let ma = at(Reg::R13, Reg::R10, Scale::S4, disp);
    let c0 = wide_chunk_code(inner, disp, acc);
    let c1 = c0.drop_first();
    let c2 = c1.drop_first();
    let c3 = c2.drop_first();
    let c4 = c3.drop_first();
    let s1 = step(Inst::Zmm(ZmmInst::VpmovsxbdZmmLoad(Zmm(3), mw)), fpu, s);
    lemma_zmm_sext(Zmm(3), mw, fpu, s);
    lemma_run_op(c0, fpu, fuel, s);
    let s2 = step(Inst::Zmm(ZmmInst::Vcvtdq2psZmm(Zmm(3), Zmm(3))), fpu, s1);
    lemma_zmm_cvt(Zmm(3), Zmm(3), fpu, s1);
    lemma_run_op(c1, fpu, fuel, s1);
    let s3 = step(Inst::Zmm(ZmmInst::VmulpsZmmReg(Zmm(3), Zmm(3), Zmm(2))), fpu, s2);
    lemma_zmm_mul(Zmm(3), Zmm(3), Zmm(2), fpu, s2);
    lemma_run_op(c2, fpu, fuel, s2);
    let s4 = step(Inst::Zmm(ZmmInst::Vfmadd231psZmmMem(Zmm(acc), Zmm(3), ma)), fpu, s3);
    lemma_zmm_fma(Zmm(acc), Zmm(3), ma, fpu, s3);
    lemma_run_op(c3, fpu, fuel, s3);
    lemma_run_none(c4, fpu, fuel, s4);
    let p = x.w + 34 * (first + b) + inner;
    assert(s.addr(mw) == p);
    let q = x.a + 4 * (32 * b) + disp;
    assert(s3.addr(ma) == q);
    assert forall|l: int| 0 <= l < 16 implies #[trigger] s4.vecs[acc][l] == (fpu.fma)(
        weight(fpu, x.mem, x.w, first + b, 16 * acc + l),
        word_at(x.mem, x.a + 4 * (32 * b + (16 * acc + l))),
        v(16 * acc + l),
    ) by {
        let e = 16 * acc + l;
        let z = signed8((s.mem)(p + l));
        lemma_signed_low(z);
        lemma_weight_byte(x, s, p + l);
        assert(p + l == x.w + 34 * (first + b) + 2 + e);
        assert(z == quant(x.mem, x.w, first + b, e));
        assert(s1.vecs[3][l] == low(z));
        assert(s2.vecs[3][l] == (fpu.from_int)(z));
        assert(s.vecs[2][l] == (fpu.widen)(scale_bits(x.mem, x.w, first + b)));
        assert(s3.vecs[3][l] == weight(fpu, x.mem, x.w, first + b, e));
        assert(q + 4 * l == x.a + 4 * (32 * b + e));
        lemma_vector_word(x, s, q + 4 * l);
        assert(s.vecs[acc][l] == v(e));
    }
}

/// The two accumulators, as one sequence of 32 lanes.
spec fn two_lanes(s: Machine, v: spec_fn(int) -> u32) -> bool {
    forall|l: int|
        0 <= l < 16 ==> (#[trigger] s.vecs[0][l]) == v(l) && s.vecs[1][l] == v(16 + l)
}

/// Before block `b` of row `i`.
spec fn wide_inv(x: Rows, fpu: Fpu, blocks: int, i: int, b: int, t: Machine) -> bool {
    &&& x.before(i, t)
    &&& x.high(t)
    &&& t.regs[Reg::R11] == b
    &&& 0 <= b <= blocks
    &&& two_lanes(t, |e: int| place_sum(fpu, x.mem, x.w, x.a, i * blocks, e, b as nat))
}

proof fn lemma_wide_block(
    x: Rows,
    fpu: Fpu,
    fuel: nat,
    row_bytes: i32,
    blocks: int,
    i: int,
    b: int,
    t: Machine,
)
    requires
        x.ok(),
        0 <= b < blocks,
        row_bytes == 34 * blocks,
        i < x.m,
        x.w_len == 34 * (x.m * blocks),
        x.a_len == 4 * (32 * blocks),
        wide_inv(x, fpu, blocks, i, b, t),
    ensures
        after_turn(
            Reg::R11,
            1,
            quant_matmul_q8_n1_body_zmm_blocks(row_bytes),
            fpu,
            fuel,
            t,
        ) matches Some(u) && wide_inv(x, fpu, blocks, i, b + 1, u),
{
    let first = i * blocks;
    let v = |e: int| place_sum(fpu, x.mem, x.w, x.a, first, e, b as nat);
    let v1 = |e: int| place_sum(fpu, x.mem, x.w, x.a, first, e, (b + 1) as nat);
    let ca = q8_offset_code(row_bytes);
    let cb = wide_scale_code();
    let k0 = wide_chunk_code(2, 0, 0);
    let k1 = wide_chunk_code(18, 64, 1);
    lemma_block_place(x.m, blocks, i, b);
    lemma_q8_offset(row_bytes, fpu, fuel, t, blocks, i, b);
    let s1 = run(ca, fpu, fuel, t)->0;
    assert(s1.regs[Reg::RAX] == 34 * (first + b));
    assert(0 <= 34 * (first + b) < word_count());
    assert(in_range(s1));
    assert(x.steady(s1));
    lemma_wide_scale(x, fpu, fuel, s1, first + b, b);
    let s2 = run(cb, fpu, fuel, s1)->0;
    lemma_run_concat(ca, cb, fpu, fuel, t);
    assert(x.steady(s2));
    assert forall|l: int| 0 <= l < 16 implies #[trigger] s2.vecs[0][l] == v(16 * 0 + l) by {
        assert(t.vecs[0][l] == v(l));
    }
    lemma_wide_chunk(x, fpu, fuel, s2, 2, 0, 0, first, b, v);
    let s3 = run(k0, fpu, fuel, s2)->0;
    lemma_run_concat(ca + cb, k0, fpu, fuel, t);
    assert(x.steady(s3));
    assert(s3.vecs[2] == s2.vecs[2]);
    assert forall|l: int| 0 <= l < 16 implies #[trigger] s3.vecs[1][l] == v(16 * 1 + l) by {
        assert(t.vecs[0][l] == v(l));
    }
    lemma_wide_chunk(x, fpu, fuel, s3, 18, 64, 1, first, b, v);
    let s4 = run(k1, fpu, fuel, s3)->0;
    lemma_run_concat(ca + cb + k0, k1, fpu, fuel, t);
    assert(ca + cb + k0 + k1 =~= quant_matmul_q8_n1_body_zmm_blocks(row_bytes));
    let u = s4.set(Reg::R11, s4.regs[Reg::R11] + 1);
    assert(in_range(u));
    assert(s4.vecs[0] == s3.vecs[0]);
    assert forall|l: int| 0 <= l < 16 implies (#[trigger] u.vecs[0][l]) == v1(l) && u.vecs[1][l]
        == v1(16 + l) by {
        assert(s3.vecs[0][l] == v1(16 * 0 + l));
        assert(s4.vecs[1][l] == v1(16 * 1 + l));
    }
    assert(two_lanes(u, v1));
}

#[verifier::rlimit(40)]
proof fn lemma_wide_row(
    x: Rows,
    fpu: Fpu,
    fuel: nat,
    k_blocks: i32,
    row_bytes: i32,
    i: int,
    t: Machine,
)
    requires
        x.ok(),
        0 <= k_blocks,
        row_bytes == 34 * k_blocks,
        fuel > k_blocks + 1,
        i < x.m,
        x.w_len == 34 * (x.m * k_blocks),
        x.a_len == 4 * (32 * k_blocks),
        (x.entry)(i) == decoded_wide(fpu, x.mem, x.w, x.a, i, k_blocks as nat),
        x.before(i, t),
        x.high(t),
    ensures
        after_turn(
            Reg::R15,
            1,
            quant_matmul_q8_n1_body_zmm_rows(k_blocks, row_bytes),
            fpu,
            fuel,
            t,
        ) matches Some(u) && x.before(i + 1, u) && x.high(u),
{
    let blocks = k_blocks as int;
    let v = |e: int| place_sum(fpu, x.mem, x.w, x.a, i * blocks, e, blocks as nat);
    let body = quant_matmul_q8_n1_body_zmm_blocks(row_bytes);
    let zero = seq![zmm(ZmmInst::VxorpsZmmZero(Zmm(0))), zmm(ZmmInst::VxorpsZmmZero(Zmm(1)))];
    let turns = seq![counted(Reg::R11, k_blocks, 1, body)];
    let fold = seq![
        zmm(ZmmInst::VaddpsZmmReg(Zmm(0), Zmm(0), Zmm(1))),
        zmm(ZmmInst::Vextractf32x8Zmm(Ymm(1), Zmm(0), 1)),
        vps(FloatInst::VaddpsReg(Ymm(0), Ymm(0), Ymm(1))),
    ];
    let put = seq![sse(SseInst::MovssStore(Xmm(0), at(Reg::R14, Reg::R15, Scale::S4, 0)))];
    let zc0 = zero;
    let zc1 = zc0.drop_first();
    let zc2 = zc1.drop_first();
    let z1 = step(Inst::Zmm(ZmmInst::VxorpsZmmZero(Zmm(0))), fpu, t);
    lemma_zmm_zero(Zmm(0), fpu, t);
    lemma_run_op(zc0, fpu, fuel, t);
    let z2 = step(Inst::Zmm(ZmmInst::VxorpsZmmZero(Zmm(1))), fpu, z1);
    lemma_zmm_zero(Zmm(1), fpu, z1);
    lemma_run_op(zc1, fpu, fuel, z1);
    lemma_run_none(zc2, fpu, fuel, z2);

    let inv = |b: int, u: Machine| wide_inv(x, fpu, blocks, i, b, u);
    assert forall|b: int, u: Machine| #[trigger]
        inv(b, u) && 0 <= b < k_blocks && b % 1 == 0 implies (after_turn(
        Reg::R11,
        1,
        body,
        fpu,
        fuel,
        u,
    ) matches Some(w) && inv(b + 1, w)) by {
        lemma_wide_block(x, fpu, fuel, row_bytes, blocks, i, b, u);
    }
    let s0 = z2.set(Reg::R11, 0);
    assert(in_range(s0));
    assert(inv(0, s0));
    lemma_loop(Reg::R11, k_blocks, 1, body, fpu, fuel, z2, inv);
    lemma_last_count(blocks, 1);
    lemma_run_single(turns[0], fpu, fuel, z2);
    let s2 = run_one(turns[0], fpu, fuel, z2)->0;
    assert(inv(blocks, s2));
    lemma_run_concat(zero, turns, fpu, fuel, t);

    let fc0 = fold;
    let fc1 = fc0.drop_first();
    let fc2 = fc1.drop_first();
    let fc3 = fc2.drop_first();
    let f1 = step(Inst::Zmm(ZmmInst::VaddpsZmmReg(Zmm(0), Zmm(0), Zmm(1))), fpu, s2);
    lemma_zmm_add(Zmm(0), Zmm(0), Zmm(1), fpu, s2);
    lemma_run_op(fc0, fpu, fuel, s2);
    let f2 = step(Inst::Zmm(ZmmInst::Vextractf32x8Zmm(Ymm(1), Zmm(0), 1)), fpu, f1);
    lemma_zmm_extract(Ymm(1), Zmm(0), 1, fpu, f1);
    lemma_run_op(fc1, fpu, fuel, f1);
    let f3 = step(Inst::Float(FloatInst::VaddpsReg(Ymm(0), Ymm(0), Ymm(1))), fpu, f2);
    lemma_vaddps(Ymm(0), Ymm(0), Ymm(1), fpu, f2);
    lemma_run_op(fc2, fpu, fuel, f2);
    lemma_run_none(fc3, fpu, fuel, f3);
    lemma_run_concat(zero + turns, fold, fpu, fuel, t);
    let z = |l: int| wide_sum(fpu, v, l);
    assert forall|l: int| 0 <= l < 8 implies #[trigger] f3.vecs[0][l] == z(l) by {
        assert(s2.vecs[0][l] == v(l));
        assert(s2.vecs[0][8 + l] == v(8 + l));
        assert(f1.vecs[0][l] == (fpu.add)(v(l), v(16 + l)));
        assert(f1.vecs[0][8 + l] == (fpu.add)(v(8 + l), v(24 + l)));
        assert(f2.vecs[1][l] == f1.vecs[0][8 + l]);
    }
    assert(in_range(f3));
    assert(x.before(i, f3));
    lemma_hsum(fpu, fuel, f3, z);
    let s4 = run(hsum_code(), fpu, fuel, f3)->0;
    lemma_run_concat(zero + turns + fold, hsum_code(), fpu, fuel, t);
    assert(s4.vecs[0][0] == decoded_wide(fpu, x.mem, x.w, x.a, i, k_blocks as nat));
    lemma_row_store(x, fpu, fuel, i, s4);
    let s5 = run(put, fpu, fuel, s4)->0;
    lemma_run_concat(zero + turns + fold + hsum_code(), put, fpu, fuel, t);
    assert(run(quant_matmul_q8_n1_body_zmm_rows(k_blocks, row_bytes), fpu, fuel, t) == Some(s5));
}

/// The kernel with registers of sixteen lanes computes the product of a Q8_0
/// matrix of `m` rows and `k` columns and an fp32 vector, where `k` is a
/// multiple of 32.
pub proof fn lemma_quant_matmul_q8_n1_zmm(
    fpu: Fpu,
    fuel: nat,
    s: Machine,
    w: Reg,
    a: Reg,
    out: Reg,
    m: i32,
    k: i32,
    abi: Abi,
)
    requires
        0 <= m,
        0 <= k,
        k % 32 == 0,
        k / 32 * 34 <= i32::MAX,
        fuel > m + 1,
        fuel > k / 32 + 1,
        called(s, w, 34 * (m * (k / 32)), a, 4 * k, out, 4 * m, abi),
    ensures
        run(quant_matmul_q8_n1_body_zmm_code(w, a, out, m, k, abi), fpu, fuel, s) matches Some(t)
            && gives_rows(
            s,
            t,
            out,
            m,
            |i: int| decoded_wide(fpu, s.mem, s.regs[w], s.regs[a], i, (k / 32) as nat),
        ),
{
    let extra = frame_extra(abi);
    let k_blocks = blocks_per_row(k);
    let row_bytes = bytes_per_row(k);
    let w_len = 34 * (m * (k / 32));
    let a_len = 4 * (k as int);
    let entry = |i: int| decoded_wide(fpu, s.mem, s.regs[w], s.regs[a], i, (k / 32) as nat);
    let head = prologue_code(extra) + bind_code(w, a, out);
    let body = quant_matmul_q8_n1_body_zmm_rows(k_blocks, row_bytes);
    let rows = seq![counted(Reg::R15, m, 1, body)];
    assert(0 <= m * (k / 32)) by (nonlinear_arith)
        requires
            0 <= m,
            0 <= k,
    ;
    lemma_enter(extra, w, a, out, fpu, fuel, s);
    let t = run(head, fpu, fuel, s)->0;
    let x = rows_of(s, t, w, w_len, a, a_len, out, m, t.regs[Reg::RSP], entry);
    lemma_rows_entered(s, t, w, w_len, a, a_len, out, m, abi, entry);
    let also = |u: Machine| x.high(u);
    assert forall|i: int, u: Machine| #[trigger]
        x.before(i, u) && i < m && also(u) implies (after_turn(
        Reg::R15,
        1,
        body,
        fpu,
        fuel,
        u,
    ) matches Some(z) && x.before(i + 1, z) && also(z)) by {
        lemma_wide_row(x, fpu, fuel, k_blocks, row_bytes, i, u);
    }
    lemma_rows(x, m, body, fpu, fuel, t, also);
    let u = run(rows, fpu, fuel, t)->0;
    lemma_run_concat(head, rows, fpu, fuel, s);
    lemma_rows_end(fpu, fuel, s, t, u, w, w_len, a, a_len, out, m, abi, entry);
    lemma_run_concat(head + rows, epilogue_code(extra), fpu, fuel, s);
}

} // verus!
