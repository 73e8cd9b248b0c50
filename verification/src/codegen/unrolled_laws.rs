//! The unrolled kernel that multiplies a Q8_0 matrix with a Q8_0 vector computes
//! that product, with one accumulator for each of four neighbouring blocks.

use crate::codegen::assembler::{at, ByteInst, Code, ConvInst, FloatInst, Inst, MemInst, SseInst};
use crate::codegen::avx2_enc::Ymm;
use crate::codegen::block_laws::{
    four_lanes, four_sum, lane_sum, lemma_combine4, lemma_hsum, lemma_row_store, lemma_rows,
    lemma_signed_low, lemma_vector_scale, lemma_weight_scale, rows_of, scale_bits, Rows,
};
use crate::codegen::frame_laws::{
    in_range, is_pointer, lemma_bind, lemma_epilogue, lemma_prologue, lemma_quad_same, restored,
    same_outside, saved,
};
use crate::codegen::integer_laws::{
    block_fits, lane_dot, lemma_dot, lemma_lane_sums, lemma_place, lemma_sign_lanes, multiplies,
    place_code, scale_product, signs_fit, sized,
};
use crate::codegen::kernels::{
    bind_code, blocks_per_row, bytes_per_row, combine4_code, counted, dot_code, epilogue_code,
    frame_extra, hsum_code, prologue_code, quant_matmul_q8q8_n1_body_vnni_4acc_blocks,
    quant_matmul_q8q8_n1_body_vnni_4acc_code, quant_matmul_q8q8_n1_body_vnni_4acc_rows, sse,
    vbyte, vcvt, vmem, vnni_block_code, vps, zero4_code,
};
use crate::codegen::machine::{
    after_turn, bytes_at, dot_step, lane_bytes, lemma_lanes_back, lemma_loop, lemma_run_concat,
    lemma_run_none, lemma_run_op, lemma_run_single, lemma_vbroadcastss_xmm, lemma_vcvtdq2ps,
    lemma_vcvtph2ps, lemma_vfmadd_reg, lemma_vmovd_load, lemma_vmovdqu_load, lemma_vmovups_load,
    lemma_vmovups_store, lemma_vmulss, lemma_vpsignb, lemma_vxorps, low, quad_sum, run, run_one,
    step, word_at, word_count, words, Fpu, Machine,
};
use crate::codegen::matmul_laws::{disjoint, lemma_last_count};
use crate::codegen::tile_laws::lemma_zero4;
use crate::codegen::x86_64::{Abi, VnniForm};
use crate::codegen::x86_64_enc::{Reg, Scale, Xmm};
use vstd::prelude::*;

verus! {

/// The sum in lane `l` over every fourth block of a row from block `c` on, for
/// the first of them; the row's weights start at block `first`.
pub open spec fn strided_total(
    fpu: Fpu,
    mem: spec_fn(int) -> u8,
    w: int,
    a: int,
    first: int,
    c: int,
    l: int,
    turns: nat,
) -> u32
    decreases turns,
{
    if turns == 0 {
        0
    } else {
        let b = 4 * (turns - 1) + c;
        (fpu.fma)(
            (fpu.from_int)(lane_dot(mem, w, a, first + b, b, l)),
            scale_product(fpu, mem, w, a, first + b, b),
            strided_total(fpu, mem, w, a, first, c, l, (turns - 1) as nat),
        )
    }
}

/// Lane `e % 8` of accumulator `e / 8`.
pub open spec fn strided_lane(
    fpu: Fpu,
    mem: spec_fn(int) -> u8,
    w: int,
    a: int,
    first: int,
    e: int,
    turns: nat,
) -> u32 {
    strided_total(fpu, mem, w, a, first, e / 8, e % 8, turns)
}

/// The product of row `i` and the vector.
pub open spec fn unrolled_product(
    fpu: Fpu,
    mem: spec_fn(int) -> u8,
    w: int,
    a: int,
    i: int,
    blocks: nat,
) -> u32 {
    let v = |e: int| strided_lane(fpu, mem, w, a, i * blocks, e, (blocks / 4) as nat);
    lane_sum(fpu, |l: int| four_sum(fpu, v, l))
}

/// Block `c` of four.
#[verifier::rlimit(40)]
proof fn lemma_unrolled_block(
    x: Rows,
    fpu: Fpu,
    fuel: nat,
    form: VnniForm,
    s: Machine,
    block: i32,
    quants: i32,
    acc: u8,
    wb: int,
    ab: int,
)
    requires
        x.ok(),
        x.steady(s),
        acc < 4,
        block == 34 * acc,
        quants == 34 * acc + 2,
        0 <= wb,
        34 * (wb + acc) + 34 <= x.w_len,
        0 <= ab,
        34 * (ab + acc) + 34 <= x.a_len,
        block_fits(x, wb + acc, ab + acc),
        s.regs[Reg::RAX] == 34 * wb,
        s.regs[Reg::R10] == 34 * ab,
    ensures
        run(vnni_block_code(form, block, quants, Ymm(acc)), fpu, fuel, s) matches Some(u) && {
            &&& in_range(u)
            &&& u.regs == s.regs
            &&& u.mem == s.mem
            &&& forall|q: u8|
                q != acc && q != 4 && q != 5 && q != 6 ==> #[trigger] u.vecs[q] == s.vecs[q]
            &&& forall|l: int|
                0 <= l < 8 ==> #[trigger] u.vecs[acc][l] == (fpu.fma)(
                    (fpu.from_int)(lane_dot(x.mem, x.w, x.a, wb + acc, ab + acc, l)),
                    scale_product(fpu, x.mem, x.w, x.a, wb + acc, ab + acc),
                    s.vecs[acc][l],
                )
        },
{
    let qw = at(Reg::R12, Reg::RAX, Scale::S1, quants);
    let qa = at(Reg::R13, Reg::R10, Scale::S1, quants);
    let mw = at(Reg::R12, Reg::RAX, Scale::S1, block);
    let ma = at(Reg::R13, Reg::R10, Scale::S1, block);
    let ca = seq![
        vmem(MemInst::VmovdquLoad(Ymm(4), qw)),
        vmem(MemInst::VmovdquLoad(Ymm(5), qa)),
        vbyte(ByteInst::VpsignbReg(Ymm(5), Ymm(5), Ymm(4))),
        vbyte(ByteInst::VpsignbReg(Ymm(4), Ymm(4), Ymm(4))),
        vps(FloatInst::VxorpsZero(Ymm(6))),
    ];
    let cd = dot_code(form, Ymm(6), Ymm(4), Ymm(5));
    let cb = seq![
        vcvt(ConvInst::Vcvtdq2ps(Ymm(6), Ymm(6))),
        vmem(MemInst::VmovdLoad(Ymm(4), mw)),
        vcvt(ConvInst::Vcvtph2psXmm(Ymm(4), Ymm(4))),
        vmem(MemInst::VmovdLoad(Ymm(5), ma)),
        vcvt(ConvInst::Vcvtph2psXmm(Ymm(5), Ymm(5))),
        vps(FloatInst::VmulssXmm(Ymm(4), Ymm(4), Ymm(5))),
        vps(FloatInst::VbroadcastssXmm(Ymm(4), Ymm(4))),
        vps(FloatInst::Vfmadd231psReg(Ymm(acc), Ymm(6), Ymm(4))),
    ];
    let w1 = wb + acc;
    let a1 = ab + acc;
    let pw = x.w + 34 * w1 + 2;
    let pa = x.a + 34 * a1 + 2;
    let c0 = ca;
    let c1 = c0.drop_first();
    let c2 = c1.drop_first();
    let c3 = c2.drop_first();
    let c4 = c3.drop_first();
    let c5 = c4.drop_first();
    let s1 = step(Inst::Mem(MemInst::VmovdquLoad(Ymm(4), qw)), fpu, s);
    lemma_vmovdqu_load(Ymm(4), qw, fpu, s);
    lemma_run_op(c0, fpu, fuel, s);
    let s2 = step(Inst::Mem(MemInst::VmovdquLoad(Ymm(5), qa)), fpu, s1);
    lemma_vmovdqu_load(Ymm(5), qa, fpu, s1);
    lemma_run_op(c1, fpu, fuel, s1);
    let s3 = step(Inst::Byte(ByteInst::VpsignbReg(Ymm(5), Ymm(5), Ymm(4))), fpu, s2);
    lemma_vpsignb(Ymm(5), Ymm(5), Ymm(4), fpu, s2);
    lemma_run_op(c2, fpu, fuel, s2);
    let s4 = step(Inst::Byte(ByteInst::VpsignbReg(Ymm(4), Ymm(4), Ymm(4))), fpu, s3);
    lemma_vpsignb(Ymm(4), Ymm(4), Ymm(4), fpu, s3);
    lemma_run_op(c3, fpu, fuel, s3);
    let s5 = step(Inst::Float(FloatInst::VxorpsZero(Ymm(6))), fpu, s4);
    lemma_vxorps(Ymm(6), fpu, s4);
    lemma_run_op(c4, fpu, fuel, s4);
    lemma_run_none(c5, fpu, fuel, s5);
    assert(s.addr(qw) == pw);
    assert(s1.addr(qa) == pa);
    assert forall|l: int| 0 <= l < 8 implies multiplies(
        x,
        w1,
        a1,
        l,
        #[trigger] s5.vecs[4][l],
        s5.vecs[5][l],
    ) by {
        assert(s1.vecs[4][l] == word_at(s.mem, pw + 4 * l));
        assert(s2.vecs[5][l] == word_at(s.mem, pa + 4 * l));
        assert(s2.vecs[4][l] == word_at(s.mem, pw + 4 * l));
        lemma_sign_lanes(
            x,
            s,
            w1,
            a1,
            l,
            pw + 4 * l,
            pa + 4 * l,
            s5.vecs[4][l],
            s5.vecs[5][l],
        );
    }
    let d = dot_step(6, 4, 5, s5);
    lemma_dot(form, 6, 4, 5, fpu, fuel, s5);
    lemma_run_concat(ca, cd, fpu, fuel, s);
    let f0 = cb;
    let f1 = f0.drop_first();
    let f2 = f1.drop_first();
    let f3 = f2.drop_first();
    let f4 = f3.drop_first();
    let f5 = f4.drop_first();
    let f6 = f5.drop_first();
    let f7 = f6.drop_first();
    let f8 = f7.drop_first();
    let e1 = step(Inst::Conv(ConvInst::Vcvtdq2ps(Ymm(6), Ymm(6))), fpu, d);
    lemma_vcvtdq2ps(Ymm(6), Ymm(6), fpu, d);
    lemma_run_op(f0, fpu, fuel, d);
    let e2 = step(Inst::Mem(MemInst::VmovdLoad(Ymm(4), mw)), fpu, e1);
    lemma_vmovd_load(Ymm(4), mw, fpu, e1);
    lemma_run_op(f1, fpu, fuel, e1);
    let e3 = step(Inst::Conv(ConvInst::Vcvtph2psXmm(Ymm(4), Ymm(4))), fpu, e2);
    lemma_vcvtph2ps(Ymm(4), Ymm(4), fpu, e2);
    lemma_run_op(f2, fpu, fuel, e2);
    let e4 = step(Inst::Mem(MemInst::VmovdLoad(Ymm(5), ma)), fpu, e3);
    lemma_vmovd_load(Ymm(5), ma, fpu, e3);
    lemma_run_op(f3, fpu, fuel, e3);
    let e5 = step(Inst::Conv(ConvInst::Vcvtph2psXmm(Ymm(5), Ymm(5))), fpu, e4);
    lemma_vcvtph2ps(Ymm(5), Ymm(5), fpu, e4);
    lemma_run_op(f4, fpu, fuel, e4);
    let e6 = step(Inst::Float(FloatInst::VmulssXmm(Ymm(4), Ymm(4), Ymm(5))), fpu, e5);
    lemma_vmulss(Ymm(4), Ymm(4), Ymm(5), fpu, e5);
    lemma_run_op(f5, fpu, fuel, e5);
    let e7 = step(Inst::Float(FloatInst::VbroadcastssXmm(Ymm(4), Ymm(4))), fpu, e6);
    lemma_vbroadcastss_xmm(Ymm(4), Ymm(4), fpu, e6);
    lemma_run_op(f6, fpu, fuel, e6);
    let e8 = step(Inst::Float(FloatInst::Vfmadd231psReg(Ymm(acc), Ymm(6), Ymm(4))), fpu, e7);
    lemma_vfmadd_reg(Ymm(acc), Ymm(6), Ymm(4), fpu, e7);
    lemma_run_op(f7, fpu, fuel, e7);
    lemma_run_none(f8, fpu, fuel, e8);
    lemma_run_concat(ca + cd, cb, fpu, fuel, s);
    assert(ca + cd + cb =~= vnni_block_code(form, block, quants, Ymm(acc)));
    assert forall|l: int| 0 <= l < 8 implies #[trigger] e1.vecs[6][l] == (fpu.from_int)(
        lane_dot(x.mem, x.w, x.a, w1, a1, l),
    ) by {
        let p = s5.vecs[4][l];
        let q = s5.vecs[5][l];
        assert(multiplies(x, w1, a1, l, p, q));
        lemma_lane_sums(x, w1, a1, l, p, q);
        assert(s5.vecs[6][l] == 0);
        assert(d.vecs[6][l] == low(quad_sum(p, q)));
        lemma_signed_low(quad_sum(p, q));
    }
    assert(e1.addr(mw) == x.w + 34 * w1);
    assert(e3.addr(ma) == x.a + 34 * a1);
    lemma_weight_scale(x, s, w1);
    lemma_vector_scale(x, s, a1);
    assert(e2.vecs[4][0] == word_at(s.mem, x.w + 34 * w1));
    assert(e3.vecs[4][0] == (fpu.widen)(scale_bits(x.mem, x.w, w1)));
    assert(e4.vecs[5][0] == word_at(s.mem, x.a + 34 * a1));
    assert(e5.vecs[5][0] == (fpu.widen)(scale_bits(x.mem, x.a, a1)));
    assert(e5.vecs[4][0] == e3.vecs[4][0]);
    assert(e6.vecs[4][0] == scale_product(fpu, x.mem, x.w, x.a, w1, a1));
    assert forall|l: int| 0 <= l < 8 implies #[trigger] e8.vecs[acc][l] == (fpu.fma)(
        (fpu.from_int)(lane_dot(x.mem, x.w, x.a, w1, a1, l)),
        scale_product(fpu, x.mem, x.w, x.a, w1, a1),
        s.vecs[acc][l],
    ) by {
        assert(e7.vecs[6] == e1.vecs[6]);
        assert(e7.vecs[4][l] == e6.vecs[4][0]);
        assert(e7.vecs[acc] == s.vecs[acc]);
    }
    assert(in_range(e8));
}

/// The vector registers from 7 on are what they were.
spec fn higher(x: Rows, t: Machine) -> bool {
    forall|v: u8| v >= 7 ==> #[trigger] t.vecs[v] == x.vecs[v]
}

/// Before the four blocks from `b` on of row `i`.
spec fn strided_inv(x: Rows, fpu: Fpu, blocks: int, i: int, b: int, t: Machine) -> bool {
    &&& x.before(i, t)
    &&& higher(x, t)
    &&& t.regs[Reg::R11] == b
    &&& 0 <= b <= blocks
    &&& four_lanes(
        t,
        |e: int| strided_lane(fpu, x.mem, x.w, x.a, i * blocks, e, (b / 4) as nat),
    )
}

proof fn lemma_unrolled_turn(
    x: Rows,
    fpu: Fpu,
    fuel: nat,
    form: VnniForm,
    row_bytes: i32,
    blocks: int,
    i: int,
    b: int,
    t: Machine,
)
    requires
        sized(x, row_bytes as int, blocks),
        0 <= i < x.m,
        0 <= b,
        b % 4 == 0,
        b + 4 <= blocks,
        strided_inv(x, fpu, blocks, i, b, t),
    ensures
        after_turn(
            Reg::R11,
            4,
            quant_matmul_q8q8_n1_body_vnni_4acc_blocks(form, row_bytes),
            fpu,
            fuel,
            t,
        ) matches Some(u) && strided_inv(x, fpu, blocks, i, b + 4, u),
{
    let first = i * blocks;
    let n = (b / 4) as nat;
    let v = |e: int| strided_lane(fpu, x.mem, x.w, x.a, first, e, (b / 4) as nat);
    let v1 = |e: int| strided_lane(fpu, x.mem, x.w, x.a, first, e, ((b + 4) / 4) as nat);
    let wb = first + b;
    let ca = place_code(row_bytes);
    let k0 = vnni_block_code(form, 0, 2, Ymm(0));
    let k1 = vnni_block_code(form, 34, 36, Ymm(1));
    let k2 = vnni_block_code(form, 68, 70, Ymm(2));
    let k3 = vnni_block_code(form, 102, 104, Ymm(3));
    lemma_block_fits(x, row_bytes as int, blocks, i, b + 1);
    lemma_block_fits(x, row_bytes as int, blocks, i, b + 2);
    lemma_block_fits(x, row_bytes as int, blocks, i, b + 3);
    lemma_place(x, fpu, fuel, row_bytes, blocks, i, b, t);
    let s1 = run(ca, fpu, fuel, t)->0;
    lemma_unrolled_block(x, fpu, fuel, form, s1, 0, 2, 0, wb, b);
    let s2 = run(k0, fpu, fuel, s1)->0;
    lemma_run_concat(ca, k0, fpu, fuel, t);
    assert(x.steady(s2));
    lemma_unrolled_block(x, fpu, fuel, form, s2, 34, 36, 1, wb, b);
    let s3 = run(k1, fpu, fuel, s2)->0;
    lemma_run_concat(ca + k0, k1, fpu, fuel, t);
    assert(x.steady(s3));
    lemma_unrolled_block(x, fpu, fuel, form, s3, 68, 70, 2, wb, b);
    let s4 = run(k2, fpu, fuel, s3)->0;
    lemma_run_concat(ca + k0 + k1, k2, fpu, fuel, t);
    assert(x.steady(s4));
    lemma_unrolled_block(x, fpu, fuel, form, s4, 102, 104, 3, wb, b);
    let s5 = run(k3, fpu, fuel, s4)->0;
    lemma_run_concat(ca + k0 + k1 + k2, k3, fpu, fuel, t);
    assert(ca + k0 + k1 + k2 + k3 =~= quant_matmul_q8q8_n1_body_vnni_4acc_blocks(form, row_bytes));
    let u = s5.set(Reg::R11, s5.regs[Reg::R11] + 4);
    assert(in_range(u));
    assert(s5.vecs[0] == s2.vecs[0] && s5.vecs[1] == s3.vecs[1] && s5.vecs[2] == s4.vecs[2]);
    assert(s2.vecs[1] == t.vecs[1] && s3.vecs[2] == t.vecs[2] && s4.vecs[3] == t.vecs[3]);
    assert((b + 4) / 4 == n + 1);
    assert(4 * n == b);
    assert forall|l: int| 0 <= l < 8 implies (#[trigger] u.vecs[0][l]) == v1(l) && u.vecs[1][l]
        == v1(8 + l) && u.vecs[2][l] == v1(16 + l) && u.vecs[3][l] == v1(24 + l) by {
        assert(t.vecs[0][l] == v(l));
        assert(l / 8 == 0 && l % 8 == l);
        assert((8 + l) / 8 == 1 && (8 + l) % 8 == l);
        assert((16 + l) / 8 == 2 && (16 + l) % 8 == l);
        assert((24 + l) / 8 == 3 && (24 + l) % 8 == l);
        lemma_strided_step(fpu, x.mem, x.w, x.a, first, 0, l, n);
        lemma_strided_step(fpu, x.mem, x.w, x.a, first, 1, l, n);
        lemma_strided_step(fpu, x.mem, x.w, x.a, first, 2, l, n);
        lemma_strided_step(fpu, x.mem, x.w, x.a, first, 3, l, n);
        assert(s2.vecs[0][l] == v1(l));
        assert(s3.vecs[1][l] == v1(8 + l));
        assert(s4.vecs[2][l] == v1(16 + l));
        assert(s5.vecs[3][l] == v1(24 + l));
    }
    assert(four_lanes(u, v1));
}

/// One turn more.
proof fn lemma_strided_step(
    fpu: Fpu,
    mem: spec_fn(int) -> u8,
    w: int,
    a: int,
    first: int,
    c: int,
    l: int,
    n: nat,
)
    ensures
        strided_total(fpu, mem, w, a, first, c, l, n + 1) == (fpu.fma)(
            (fpu.from_int)(lane_dot(mem, w, a, first + 4 * n + c, 4 * n + c, l)),
            scale_product(fpu, mem, w, a, first + 4 * n + c, 4 * n + c),
            strided_total(fpu, mem, w, a, first, c, l, n),
        ),
{
    assert(first + (4 * n + c) == first + 4 * n + c);
}

/// Where a block is, and that no sign is lost in it.
proof fn lemma_block_fits(x: Rows, row_bytes: int, blocks: int, i: int, b: int)
    requires
        sized(x, row_bytes, blocks),
        0 <= i < x.m,
        0 <= b < blocks,
    ensures
        0 <= i * blocks + b,
        34 * (i * blocks + b) + 34 <= x.w_len,
        34 * b + 34 <= x.a_len,
        block_fits(x, i * blocks + b, b),
{
    crate::codegen::block_laws::lemma_block_place(x.m, blocks, i, b);
}

proof fn lemma_unrolled_row(
    x: Rows,
    fpu: Fpu,
    fuel: nat,
    form: VnniForm,
    k_blocks: i32,
    row_bytes: i32,
    i: int,
    t: Machine,
)
    requires
        sized(x, row_bytes as int, k_blocks as int),
        k_blocks % 4 == 0,
        fuel > k_blocks + 4,
        i < x.m,
        (x.entry)(i) == unrolled_product(fpu, x.mem, x.w, x.a, i, k_blocks as nat),
        x.before(i, t),
        higher(x, t),
    ensures
        after_turn(
            Reg::R15,
            1,
            quant_matmul_q8q8_n1_body_vnni_4acc_rows(form, k_blocks, row_bytes),
            fpu,
            fuel,
            t,
        ) matches Some(u) && x.before(i + 1, u) && higher(x, u),
{
    let blocks = k_blocks as int;
    let v = |e: int| strided_lane(fpu, x.mem, x.w, x.a, i * blocks, e, (blocks / 4) as nat);
    let body = quant_matmul_q8q8_n1_body_vnni_4acc_blocks(form, row_bytes);
    let zero = zero4_code();
    let turns = seq![counted(Reg::R11, k_blocks, 4, body)];
    let put = seq![sse(SseInst::MovssStore(Xmm(0), at(Reg::R14, Reg::R15, Scale::S4, 0)))];
    lemma_zero4(fpu, fuel, t);
    let s1 = run(zero, fpu, fuel, t)->0;

    let inv = |b: int, u: Machine| strided_inv(x, fpu, blocks, i, b, u);
    assert forall|b: int, u: Machine| #[trigger]
        inv(b, u) && 0 <= b < k_blocks && b % 4 == 0 implies (after_turn(
        Reg::R11,
        4,
        body,
        fpu,
        fuel,
        u,
    ) matches Some(w) && inv(b + 4, w)) by {
        lemma_unrolled_turn(x, fpu, fuel, form, row_bytes, blocks, i, b, u);
    }
    let s0 = s1.set(Reg::R11, 0);
    assert(in_range(s0));
    assert(inv(0, s0));
    lemma_loop(Reg::R11, k_blocks, 4, body, fpu, fuel, s1, inv);
    lemma_last_count(blocks, 4);
    lemma_run_single(turns[0], fpu, fuel, s1);
    let s2 = run_one(turns[0], fpu, fuel, s1)->0;
    assert(inv(blocks, s2));
    lemma_run_concat(zero, turns, fpu, fuel, t);

    lemma_combine4(fpu, fuel, s2, v);
    let s3 = run(combine4_code(), fpu, fuel, s2)->0;
    lemma_run_concat(zero + turns, combine4_code(), fpu, fuel, t);
    let z = |l: int| four_sum(fpu, v, l);
    lemma_hsum(fpu, fuel, s3, z);
    let s4 = run(hsum_code(), fpu, fuel, s3)->0;
    lemma_run_concat(zero + turns + combine4_code(), hsum_code(), fpu, fuel, t);
    assert(s4.vecs[0][0] == unrolled_product(fpu, x.mem, x.w, x.a, i, k_blocks as nat));
    lemma_row_store(x, fpu, fuel, i, s4);
    let s5 = run(put, fpu, fuel, s4)->0;
    lemma_run_concat(zero + turns + combine4_code() + hsum_code(), put, fpu, fuel, t);
    assert(run(
        quant_matmul_q8q8_n1_body_vnni_4acc_rows(form, k_blocks, row_bytes),
        fpu,
        fuel,
        t,
    ) == Some(s5));
}

/// The stack with a slot for one vector register and the buffer `[from, to)` do
/// not meet.
pub open spec fn apart_from_slot(sp: int, from: int, to: int) -> bool {
    to <= sp - 72 || sp + 8 <= from
}

/// A call that the unrolled kernel can serve: the operands lie in memory, and
/// the output meets neither them nor the stack.
pub open spec fn called_with_slot(
    s: Machine,
    w: Reg,
    w_len: int,
    a: Reg,
    a_len: int,
    out: Reg,
    out_len: int,
    abi: Abi,
) -> bool {
    let sp = s.regs[Reg::RSP];
    &&& in_range(s)
    &&& is_pointer(w)
    &&& is_pointer(a)
    &&& is_pointer(out)
    &&& 72 + frame_extra(abi) <= sp < word_count() - 8
    &&& s.regs[w] + w_len <= word_count()
    &&& s.regs[a] + a_len <= word_count()
    &&& s.regs[out] + out_len <= word_count()
    &&& disjoint(s.regs[w], w_len, s.regs[out], out_len)
    &&& disjoint(s.regs[a], a_len, s.regs[out], out_len)
    &&& apart_from_slot(sp, s.regs[w], s.regs[w] + w_len)
    &&& apart_from_slot(sp, s.regs[a], s.regs[a] + a_len)
    &&& apart_from_slot(sp, s.regs[out], s.regs[out] + out_len)
}

/// The state in which the unrolled kernel's loops start: as after a prologue,
/// with the lanes of register 6 in the slot.
spec fn slot_entered(s: Machine, t: Machine, extra: int, w: Reg, a: Reg, out: Reg) -> bool {
    let sp = s.regs[Reg::RSP];
    &&& in_range(t)
    &&& t.regs[Reg::R12] == s.regs[w]
    &&& t.regs[Reg::R13] == s.regs[a]
    &&& t.regs[Reg::R14] == s.regs[out]
    &&& t.regs[Reg::RSP] == sp - 72 - extra
    &&& t.regs[Reg::RBP] == s.regs[Reg::RBP]
    &&& t.vecs == s.vecs
    &&& saved(s, t.mem, sp)
    &&& same_outside(s.mem, t.mem, sp - 72, sp)
    &&& forall|l: int| 0 <= l < 8 ==> #[trigger] word_at(t.mem, sp - 72 + 4 * l) == s.vecs[6][l]
}

/// The code in front of the loops.
spec fn slot_head(w: Reg, a: Reg, out: Reg, abi: Abi) -> Seq<Code> {
    let extra = frame_extra(abi);
    prologue_code((extra + 32) as i32) + seq![
        vmem(MemInst::VmovupsStore(Ymm(6), at(Reg::RSP, Reg::RSP, Scale::S1, extra))),
    ] + bind_code(w, a, out)
}

proof fn lemma_slot_enter(fpu: Fpu, fuel: nat, s: Machine, w: Reg, a: Reg, out: Reg, abi: Abi)
    requires
        in_range(s),
        is_pointer(w),
        is_pointer(a),
        is_pointer(out),
        72 + frame_extra(abi) <= s.regs[Reg::RSP],
    ensures
        run(slot_head(w, a, out, abi), fpu, fuel, s) matches Some(t) && slot_entered(
            s,
            t,
            frame_extra(abi) as int,
            w,
            a,
            out,
        ),
{
    let sp = s.regs[Reg::RSP];
    let extra = frame_extra(abi);
    let size = (extra + 32) as i32;
    let slot = at(Reg::RSP, Reg::RSP, Scale::S1, extra);
    let keep = seq![vmem(MemInst::VmovupsStore(Ymm(6), slot))];
    lemma_prologue(size, fpu, fuel, s);
    let t0 = run(prologue_code(size), fpu, fuel, s)->0;
    assert(0 <= sp < word_count());
    let kc0 = keep;
    let kc1 = kc0.drop_first();
    let k1 = step(Inst::Mem(MemInst::VmovupsStore(Ymm(6), slot)), fpu, t0);
    lemma_vmovups_store(Ymm(6), slot, fpu, t0);
    lemma_run_op(kc0, fpu, fuel, t0);
    lemma_run_none(kc1, fpu, fuel, k1);
    assert(t0.addr(slot) == sp - 72);
    lemma_run_concat(prologue_code(size), keep, fpu, fuel, s);
    assert(lane_bytes(s.vecs[6], 8).len() == 32);
    assert(same_outside(t0.mem, k1.mem, sp - 72, sp - 40));
    lemma_quad_same(t0.mem, k1.mem, sp - 72, sp - 40, sp - 8);
    lemma_quad_same(t0.mem, k1.mem, sp - 72, sp - 40, sp - 16);
    lemma_quad_same(t0.mem, k1.mem, sp - 72, sp - 40, sp - 24);
    lemma_quad_same(t0.mem, k1.mem, sp - 72, sp - 40, sp - 32);
    lemma_quad_same(t0.mem, k1.mem, sp - 72, sp - 40, sp - 40);
    assert forall|l: int| 0 <= l < 8 implies #[trigger] word_at(k1.mem, sp - 72 + 4 * l)
        == s.vecs[6][l] by {
        lemma_lanes_back(t0.mem, sp - 72, s.vecs[6], 8, l);
    }
    assert forall|q: int| !(sp - 72 <= q < sp) implies #[trigger] (k1.mem)(q) == (s.mem)(q) by {
        assert((k1.mem)(q) == (t0.mem)(q));
        assert((t0.mem)(q) == (s.mem)(q));
    }
    lemma_bind(w, a, out, fpu, fuel, k1);
    lemma_run_concat(prologue_code(size) + keep, bind_code(w, a, out), fpu, fuel, s);
}

proof fn lemma_slot_leave(
    fpu: Fpu,
    fuel: nat,
    s: Machine,
    t: Machine,
    u: Machine,
    w: Reg,
    a: Reg,
    out: Reg,
    abi: Abi,
    from: int,
    to: int,
)
    requires
        in_range(s),
        in_range(u),
        72 + frame_extra(abi) <= s.regs[Reg::RSP] < word_count() - 8,
        slot_entered(s, t, frame_extra(abi) as int, w, a, out),
        u.regs[Reg::RSP] == t.regs[Reg::RSP],
        u.regs[Reg::RBP] == t.regs[Reg::RBP],
        same_outside(t.mem, u.mem, from, to),
        apart_from_slot(s.regs[Reg::RSP], from, to),
    ensures
        run(
            seq![
                vmem(
                    MemInst::VmovupsLoad(
                        Ymm(6),
                        at(Reg::RSP, Reg::RSP, Scale::S1, frame_extra(abi)),
                    ),
                ),
            ] + epilogue_code((frame_extra(abi) + 32) as i32),
            fpu,
            fuel,
            u,
        ) matches Some(v) && {
            &&& restored(s, v, 72, from, to)
            &&& v.mem == u.mem
            &&& forall|q: u8| q >= 7 ==> #[trigger] v.vecs[q] == u.vecs[q]
            &&& forall|l: int| 0 <= l < 8 ==> #[trigger] v.vecs[6][l] == s.vecs[6][l]
        },
{
    let sp = s.regs[Reg::RSP];
    let extra = frame_extra(abi);
    let size = (extra + 32) as i32;
    let slot = at(Reg::RSP, Reg::RSP, Scale::S1, extra);
    let back = seq![vmem(MemInst::VmovupsLoad(Ymm(6), slot))];
    let lc0 = back;
    let lc1 = lc0.drop_first();
    let l1 = step(Inst::Mem(MemInst::VmovupsLoad(Ymm(6), slot)), fpu, u);
    lemma_vmovups_load(Ymm(6), slot, fpu, u);
    lemma_run_op(lc0, fpu, fuel, u);
    lemma_run_none(lc1, fpu, fuel, l1);
    assert(u.addr(slot) == sp - 72);
    assert forall|l: int| 0 <= l < 8 implies #[trigger] l1.vecs[6][l] == s.vecs[6][l] by {
        assert(word_at(t.mem, sp - 72 + 4 * l) == s.vecs[6][l]);
        assert(bytes_at(u.mem, sp - 72 + 4 * l, 4) =~= bytes_at(t.mem, sp - 72 + 4 * l, 4));
    }
    lemma_quad_same(t.mem, u.mem, from, to, sp - 8);
    lemma_quad_same(t.mem, u.mem, from, to, sp - 16);
    lemma_quad_same(t.mem, u.mem, from, to, sp - 24);
    lemma_quad_same(t.mem, u.mem, from, to, sp - 32);
    lemma_quad_same(t.mem, u.mem, from, to, sp - 40);
    lemma_quad_same(t.mem, u.mem, from, to, sp);
    lemma_quad_same(s.mem, t.mem, sp - 72, sp, sp);
    lemma_epilogue(size, fpu, fuel, s, l1);
    lemma_run_concat(back, epilogue_code(size), fpu, fuel, u);
    let v = run(epilogue_code(size), fpu, fuel, l1)->0;
    assert forall|k: int|
        !(from <= k < to) && !(sp - 72 <= k < sp) implies #[trigger] (v.mem)(k) == (s.mem)(k) by {
        assert((u.mem)(k) == (t.mem)(k));
        assert((t.mem)(k) == (s.mem)(k));
    }
}

/// The unrolled kernel computes the product of a Q8_0 matrix of `m` rows and
/// `k` columns and a Q8_0 vector, where `k` is a multiple of 128 and no sign is
/// lost. Of the vector registers from 6 on it changes none, but for the lanes
/// of register 6 above the eighth.
#[verifier::rlimit(40)]
pub proof fn lemma_quant_matmul_q8q8_n1_vnni_4acc(
    fpu: Fpu,
    fuel: nat,
    s: Machine,
    w: Reg,
    a: Reg,
    out: Reg,
    m: i32,
    k: i32,
    abi: Abi,
    form: VnniForm,
)
    requires
        0 <= m,
        0 <= k,
        k % 128 == 0,
        k / 32 * 34 <= i32::MAX,
        fuel > m + 1,
        fuel > k / 32 + 4,
        called_with_slot(s, w, 34 * (m * (k / 32)), a, 34 * (k / 32), out, 4 * m, abi),
        signs_fit(s.mem, s.regs[w], s.regs[a], m as int, k / 32),
    ensures
        run(
            quant_matmul_q8q8_n1_body_vnni_4acc_code(w, a, out, m, k, abi, form),
            fpu,
            fuel,
            s,
        ) matches Some(t) && {
            &&& restored(s, t, 72, s.regs[out], s.regs[out] + 4 * m)
            &&& forall|q: u8| q >= 7 ==> #[trigger] t.vecs[q] == s.vecs[q]
            &&& forall|l: int| 0 <= l < 8 ==> #[trigger] t.vecs[6][l] == s.vecs[6][l]
            &&& words(t.mem, s.regs[out], m as nat) == Seq::new(
                m as nat,
                |i: int| unrolled_product(fpu, s.mem, s.regs[w], s.regs[a], i, (k / 32) as nat),
            )
        },
{
    let extra = frame_extra(abi);
    let k_blocks = blocks_per_row(k);
    let row_bytes = bytes_per_row(k);
    let w_len = 34 * (m * (k / 32));
    let a_len = 34 * (k / 32);
    let entry = |i: int| unrolled_product(fpu, s.mem, s.regs[w], s.regs[a], i, (k / 32) as nat);
    let head = slot_head(w, a, out, abi);
    let body = quant_matmul_q8q8_n1_body_vnni_4acc_rows(form, k_blocks, row_bytes);
    let rows = seq![counted(Reg::R15, m, 1, body)];
    let back = seq![
        vmem(MemInst::VmovupsLoad(Ymm(6), at(Reg::RSP, Reg::RSP, Scale::S1, extra))),
    ];
    let tail = back + epilogue_code((extra + 32) as i32);
    assert(0 <= m * (k / 32)) by (nonlinear_arith)
        requires
            0 <= m,
            0 <= k,
    ;
    assert((k / 32) % 4 == 0);
    lemma_slot_enter(fpu, fuel, s, w, a, out, abi);
    let t = run(head, fpu, fuel, s)->0;
    let x = rows_of(s, t, w, w_len, a, a_len, out, m, t.regs[Reg::RSP], entry);
    assert(0 <= s.regs[w] && 0 <= s.regs[a] && 0 <= s.regs[out]);
    assert(x.ok());
    assert(x.steady(t));
    let also = |u: Machine| higher(x, u);
    assert forall|i: int, u: Machine| #[trigger]
        x.before(i, u) && i < m && also(u) implies (after_turn(
        Reg::R15,
        1,
        body,
        fpu,
        fuel,
        u,
    ) matches Some(z) && x.before(i + 1, z) && also(z)) by {
        lemma_unrolled_row(x, fpu, fuel, form, k_blocks, row_bytes, i, u);
    }
    lemma_rows(x, m, body, fpu, fuel, t, also);
    let u = run(rows, fpu, fuel, t)->0;
    lemma_run_concat(head, rows, fpu, fuel, s);
    lemma_slot_leave(
        fpu,
        fuel,
        s,
        t,
        u,
        w,
        a,
        out,
        abi,
        s.regs[out],
        s.regs[out] + 4 * m,
    );
    let v = run(tail, fpu, fuel, u)->0;
    lemma_run_concat(head + rows, tail, fpu, fuel, s);
    assert(head + rows + tail =~= quant_matmul_q8q8_n1_body_vnni_4acc_code(
        w,
        a,
        out,
        m,
        k,
        abi,
        form,
    ));
    assert(words(v.mem, s.regs[out], m as nat) =~= Seq::new(m as nat, entry));
}

} // verus!
