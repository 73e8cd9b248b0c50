//! The kernels for RMS normalization and for dequantization compute what they
//! are for.

use crate::codegen::assembler::{at, ConvInst, FloatInst, Inst, IntInst, MemInst};
use crate::codegen::avx2_enc::Ymm;
use crate::codegen::block_laws::{
    lane_sum, lemma_hsum, lemma_low_half, lemma_signed_low, lemma_vector_word, lemma_weight_word,
    quant, scale_bits, weight, weights, Rows,
};
use crate::codegen::frame_laws::{
    in_range, lemma_bind, lemma_pop_three, lemma_push_three, lemma_quad_same, pop_three,
    push_three, restored, same_high, same_outside,
};
use crate::codegen::kernels::{
    bind_code, counted, dequant_group_code, dequant_q8_body_blocks, dequant_q8_body_code,
    frame_extra, gp, hsum_code, inverse_rms_code, rms_norm_body_code, rms_norm_body_lanes,
    rms_norm_body_squares, vcvt, vmem, vps,
};
use crate::codegen::machine::{
    after_turn, bytes_at, lemma_imul, lemma_lanes_back, lemma_loop, lemma_mov_ri, lemma_mov_rr,
    lemma_run_concat, lemma_run_none, lemma_run_op, lemma_run_single, lemma_vaddss,
    lemma_vbroadcastss_xmm, lemma_vcvtdq2ps, lemma_vcvtph2ps, lemma_vdivss, lemma_vfmadd_reg,
    lemma_vmovd_load, lemma_vmovd_reg, lemma_vmovups_load, lemma_vmovups_store, lemma_vmulps,
    lemma_vmulss, lemma_vpmovsxbd, lemma_vsqrtss, lemma_vxorps, low, run, run_one, signed8, step,
    word_at, word_count, words, Fpu, Machine,
};
use crate::codegen::matmul_laws::{called, disjoint, lemma_last_count};
use crate::codegen::x86_64::Abi;
use crate::codegen::x86_64_enc::{Reg, Scale};
use vstd::prelude::*;

verus! {

// ---- RMS normalization ----------------------------------------------------------------

/// The sum of the squares of every eighth number from `l` on, for the first of
/// them.
pub open spec fn square_total(fpu: Fpu, mem: spec_fn(int) -> u8, x: int, l: int, turns: nat) -> u32
    decreases turns,
{
    if turns == 0 {
        0
    } else {
        let v = word_at(mem, x + 4 * (8 * (turns - 1) + l));
        (fpu.fma)(v, v, square_total(fpu, mem, x, l, (turns - 1) as nat))
    }
}

/// One over the root of the mean square plus `eps`.
pub open spec fn inverse_rms(fpu: Fpu, sum: u32, inv_h: u32, eps: u32) -> u32 {
    (fpu.div)(0x3F80_0000, (fpu.sqrt)((fpu.add)((fpu.mul)(sum, inv_h), eps)))
}

/// The normalized numbers, each times its weight.
pub open spec fn normalized(
    fpu: Fpu,
    mem: spec_fn(int) -> u8,
    x: int,
    w: int,
    h: nat,
    inv_h: u32,
    eps: u32,
) -> Seq<u32> {
    let sum = lane_sum(fpu, |l: int| square_total(fpu, mem, x, l, h / 8));
    let factor = inverse_rms(fpu, sum, inv_h, eps);
    Seq::new(
        h,
        |p: int| (fpu.mul)((fpu.mul)(word_at(mem, x + 4 * p), factor), word_at(mem, w + 4 * p)),
    )
}

/// Before element `c` of the squares.
spec fn squares_inv(x: Rows, fpu: Fpu, mem0: spec_fn(int) -> u8, c: int, t: Machine) -> bool {
    &&& x.steady(t)
    &&& x.high(t)
    &&& t.mem == mem0
    &&& t.regs[Reg::RCX] == c
    &&& 0 <= c <= x.m
    &&& forall|l: int|
        0 <= l < 8 ==> #[trigger] t.vecs[0][l] == square_total(fpu, x.mem, x.w, l, (c / 8) as nat)
}

proof fn lemma_square_turn(
    x: Rows,
    fpu: Fpu,
    fuel: nat,
    mem0: spec_fn(int) -> u8,
    c: int,
    t: Machine,
)
    requires
        x.ok(),
        x.m < 0x8000_0000,
        x.w_len == 4 * x.m,
        c % 8 == 0,
        c + 8 <= x.m,
        squares_inv(x, fpu, mem0, c, t),
    ensures
        after_turn(Reg::RCX, 8, rms_norm_body_squares(), fpu, fuel, t) matches Some(u)
            && squares_inv(x, fpu, mem0, c + 8, u),
{
    let m = at(Reg::R12, Reg::RCX, Scale::S4, 0);
    let c0 = rms_norm_body_squares();
    let c1 = c0.drop_first();
    let c2 = c1.drop_first();
    let s1 = step(Inst::Mem(MemInst::VmovupsLoad(Ymm(1), m)), fpu, t);
    lemma_vmovups_load(Ymm(1), m, fpu, t);
    lemma_run_op(c0, fpu, fuel, t);
    let s2 = step(Inst::Float(FloatInst::Vfmadd231psReg(Ymm(0), Ymm(1), Ymm(1))), fpu, s1);
    lemma_vfmadd_reg(Ymm(0), Ymm(1), Ymm(1), fpu, s1);
    lemma_run_op(c1, fpu, fuel, s1);
    lemma_run_none(c2, fpu, fuel, s2);
    assert(t.addr(m) == x.w + 4 * c);
    let n = c / 8;
    assert((c + 8) / 8 == n + 1);
    assert forall|l: int| 0 <= l < 8 implies #[trigger] s2.vecs[0][l] == square_total(
        fpu,
        x.mem,
        x.w,
        l,
        ((c + 8) / 8) as nat,
    ) by {
        lemma_weight_word(x, t, x.w + 4 * c + 4 * l);
        assert(x.w + 4 * c + 4 * l == x.w + 4 * (8 * n + l));
        assert(s1.vecs[1][l] == word_at(x.mem, x.w + 4 * (8 * n + l)));
        assert(t.vecs[0][l] == square_total(fpu, x.mem, x.w, l, n as nat));
        assert(s1.vecs[0] == t.vecs[0]);
    }
    let u = s2.set(Reg::RCX, s2.regs[Reg::RCX] + 8);
    assert(in_range(u));
}

/// The factor, in every lane of register 2.
#[verifier::rlimit(40)]
proof fn lemma_inverse_rms(fpu: Fpu, fuel: nat, s: Machine, inv_h: u32, eps: u32)
    requires
        in_range(s),
    ensures
        run(inverse_rms_code(inv_h, eps), fpu, fuel, s) matches Some(u) && {
            &&& in_range(u)
            &&& forall|q: Reg| q != Reg::RAX ==> #[trigger] u.regs[q] == s.regs[q]
            &&& u.mem == s.mem
            &&& forall|q: u8| q >= 3 ==> #[trigger] u.vecs[q] == s.vecs[q]
            &&& forall|l: int|
                0 <= l < 8 ==> #[trigger] u.vecs[2][l] == inverse_rms(
                    fpu,
                    s.vecs[0][0],
                    inv_h,
                    eps,
                )
        },
{
    let c0 = inverse_rms_code(inv_h, eps);
    let c1 = c0.drop_first();
    let c2 = c1.drop_first();
    let c3 = c2.drop_first();
    let c4 = c3.drop_first();
    let c5 = c4.drop_first();
    let c6 = c5.drop_first();
    let c7 = c6.drop_first();
    let c8 = c7.drop_first();
    let c9 = c8.drop_first();
    let c10 = c9.drop_first();
    let c11 = c10.drop_first();
    let s1 = step(Inst::Int(IntInst::MovRI32(Reg::RAX, inv_h)), fpu, s);
    lemma_mov_ri(Reg::RAX, inv_h, fpu, s);
    lemma_run_op(c0, fpu, fuel, s);
    let s2 = step(Inst::Conv(ConvInst::VmovdLoadReg(Ymm(1), Reg::RAX)), fpu, s1);
    lemma_vmovd_reg(Ymm(1), Reg::RAX, fpu, s1);
    lemma_run_op(c1, fpu, fuel, s1);
    let s3 = step(Inst::Float(FloatInst::VmulssXmm(Ymm(0), Ymm(0), Ymm(1))), fpu, s2);
    lemma_vmulss(Ymm(0), Ymm(0), Ymm(1), fpu, s2);
    lemma_run_op(c2, fpu, fuel, s2);
    let s4 = step(Inst::Int(IntInst::MovRI32(Reg::RAX, eps)), fpu, s3);
    lemma_mov_ri(Reg::RAX, eps, fpu, s3);
    lemma_run_op(c3, fpu, fuel, s3);
    let s5 = step(Inst::Conv(ConvInst::VmovdLoadReg(Ymm(1), Reg::RAX)), fpu, s4);
    lemma_vmovd_reg(Ymm(1), Reg::RAX, fpu, s4);
    lemma_run_op(c4, fpu, fuel, s4);
    let s6 = step(Inst::Float(FloatInst::VaddssXmm(Ymm(0), Ymm(0), Ymm(1))), fpu, s5);
    lemma_vaddss(Ymm(0), Ymm(0), Ymm(1), fpu, s5);
    lemma_run_op(c5, fpu, fuel, s5);
    let s7 = step(Inst::Float(FloatInst::VsqrtssXmm(Ymm(0), Ymm(0), Ymm(0))), fpu, s6);
    lemma_vsqrtss(Ymm(0), Ymm(0), Ymm(0), fpu, s6);
    lemma_run_op(c6, fpu, fuel, s6);
    let s8 = step(Inst::Int(IntInst::MovRI32(Reg::RAX, 0x3F80_0000)), fpu, s7);
    lemma_mov_ri(Reg::RAX, 0x3F80_0000, fpu, s7);
    lemma_run_op(c7, fpu, fuel, s7);
    let s9 = step(Inst::Conv(ConvInst::VmovdLoadReg(Ymm(1), Reg::RAX)), fpu, s8);
    lemma_vmovd_reg(Ymm(1), Reg::RAX, fpu, s8);
    lemma_run_op(c8, fpu, fuel, s8);
    let s10 = step(Inst::Float(FloatInst::VdivssXmm(Ymm(0), Ymm(1), Ymm(0))), fpu, s9);
    lemma_vdivss(Ymm(0), Ymm(1), Ymm(0), fpu, s9);
    lemma_run_op(c9, fpu, fuel, s9);
    let s11 = step(Inst::Float(FloatInst::VbroadcastssXmm(Ymm(2), Ymm(0))), fpu, s10);
    lemma_vbroadcastss_xmm(Ymm(2), Ymm(0), fpu, s10);
    lemma_run_op(c10, fpu, fuel, s10);
    lemma_run_none(c11, fpu, fuel, s11);
    assert(s1.regs[Reg::RAX] == inv_h);
    assert(s2.vecs[1][0] == inv_h);
    assert(s3.vecs[0][0] == (fpu.mul)(s.vecs[0][0], inv_h));
    assert(s4.regs[Reg::RAX] == eps);
    assert(s5.vecs[1][0] == eps);
    assert(s6.vecs[0][0] == (fpu.add)((fpu.mul)(s.vecs[0][0], inv_h), eps));
    assert(s7.vecs[0][0] == (fpu.sqrt)(s6.vecs[0][0]));
    assert(s8.regs[Reg::RAX] == 0x3F80_0000);
    assert(s9.vecs[1][0] == 0x3F80_0000);
    assert(s9.vecs[0][0] == s7.vecs[0][0]);
    assert(s10.vecs[0][0] == inverse_rms(fpu, s.vecs[0][0], inv_h, eps));
    assert(in_range(s11));
}

/// Before element `c` of the output.
spec fn lanes_inv(x: Rows, factor: u32, c: int, t: Machine) -> bool {
    &&& x.steady(t)
    &&& x.high(t)
    &&& t.regs[Reg::RCX] == c
    &&& 0 <= c <= x.m
    &&& x.filled(t.mem, c)
    &&& forall|l: int| 0 <= l < 8 ==> #[trigger] t.vecs[2][l] == factor
}

/// The entries of a task are the normalized numbers.
spec fn is_normalized(x: Rows, fpu: Fpu, factor: u32) -> bool {
    forall|p: int|
        0 <= p < x.m ==> #[trigger] (x.entry)(p) == (fpu.mul)(
            (fpu.mul)(word_at(x.mem, x.w + 4 * p), factor),
            word_at(x.mem, x.a + 4 * p),
        )
}

#[verifier::rlimit(40)]
proof fn lemma_lane_turn(x: Rows, fpu: Fpu, fuel: nat, factor: u32, c: int, t: Machine)
    requires
        x.ok(),
        x.m < 0x8000_0000,
        x.w_len == 4 * x.m,
        x.a_len == 4 * x.m,
        is_normalized(x, fpu, factor),
        c + 8 <= x.m,
        lanes_inv(x, factor, c, t),
    ensures
        after_turn(Reg::RCX, 8, rms_norm_body_lanes(), fpu, fuel, t) matches Some(u)
            && lanes_inv(x, factor, c + 8, u),
{
    let mx = at(Reg::R12, Reg::RCX, Scale::S4, 0);
    let mw = at(Reg::R13, Reg::RCX, Scale::S4, 0);
    let mo = at(Reg::R14, Reg::RCX, Scale::S4, 0);
    let c0 = rms_norm_body_lanes();
    let c1 = c0.drop_first();
    let c2 = c1.drop_first();
    let c3 = c2.drop_first();
    let c4 = c3.drop_first();
    let c5 = c4.drop_first();
    let s1 = step(Inst::Mem(MemInst::VmovupsLoad(Ymm(0), mx)), fpu, t);
    lemma_vmovups_load(Ymm(0), mx, fpu, t);
    lemma_run_op(c0, fpu, fuel, t);
    let s2 = step(Inst::Mem(MemInst::VmovupsLoad(Ymm(1), mw)), fpu, s1);
    lemma_vmovups_load(Ymm(1), mw, fpu, s1);
    lemma_run_op(c1, fpu, fuel, s1);
    let s3 = step(Inst::Float(FloatInst::VmulpsReg(Ymm(0), Ymm(0), Ymm(2))), fpu, s2);
    lemma_vmulps(Ymm(0), Ymm(0), Ymm(2), fpu, s2);
    lemma_run_op(c2, fpu, fuel, s2);
    let s4 = step(Inst::Float(FloatInst::VmulpsReg(Ymm(0), Ymm(0), Ymm(1))), fpu, s3);
    lemma_vmulps(Ymm(0), Ymm(0), Ymm(1), fpu, s3);
    lemma_run_op(c3, fpu, fuel, s3);
    let s5 = step(Inst::Mem(MemInst::VmovupsStore(Ymm(0), mo)), fpu, s4);
    lemma_vmovups_store(Ymm(0), mo, fpu, s4);
    lemma_run_op(c4, fpu, fuel, s4);
    lemma_run_none(c5, fpu, fuel, s5);
    assert(t.addr(mx) == x.w + 4 * c);
    assert(s1.addr(mw) == x.a + 4 * c);
    assert(s4.addr(mo) == x.out + 4 * c);
    let v = s4.vecs[0];
    assert forall|l: int| 0 <= l < 8 implies #[trigger] v[l] == (x.entry)(c + l) by {
        lemma_weight_word(x, t, x.w + 4 * c + 4 * l);
        lemma_vector_word(x, t, x.a + 4 * c + 4 * l);
        assert(x.w + 4 * c + 4 * l == x.w + 4 * (c + l));
        assert(x.a + 4 * c + 4 * l == x.a + 4 * (c + l));
        assert(s1.vecs[0][l] == word_at(x.mem, x.w + 4 * (c + l)));
        assert(s2.vecs[1][l] == word_at(x.mem, x.a + 4 * (c + l)));
        assert(s2.vecs[0] == s1.vecs[0]);
        assert(s2.vecs[2] == t.vecs[2]);
        assert(t.vecs[2][l] == factor);
        assert(s3.vecs[0][l] == (fpu.mul)(word_at(x.mem, x.w + 4 * (c + l)), factor));
        assert(s3.vecs[1] == s2.vecs[1]);
        assert((x.entry)(c + l) == (fpu.mul)(
            (fpu.mul)(word_at(x.mem, x.w + 4 * (c + l)), factor),
            word_at(x.mem, x.a + 4 * (c + l)),
        ));
    }
    assert forall|p: int| 0 <= p < c + 8 implies #[trigger] word_at(s5.mem, x.out + 4 * p) == (
    x.entry)(p) by {
        if p < c {
            assert(word_at(t.mem, x.out + 4 * p) == (x.entry)(p));
            assert(bytes_at(s5.mem, x.out + 4 * p, 4) =~= bytes_at(t.mem, x.out + 4 * p, 4));
        } else {
            let l = p - c;
            lemma_lanes_back(t.mem, x.out + 4 * c, v, 8, l);
            assert(x.out + 4 * c + 4 * l == x.out + 4 * p);
            assert(v[l] == (x.entry)(c + l));
        }
    }
    let u = s5.set(Reg::RCX, s5.regs[Reg::RCX] + 8);
    assert(in_range(u));
    assert forall|q: int| !(x.out <= q < x.out + 4 * x.m) implies #[trigger] (u.mem)(q) == (x.base)(
        q,
    ) by {
        assert((t.mem)(q) == (x.base)(q));
    }
    assert(u.vecs[2] == t.vecs[2]);
}

/// From the start of the loops to the factor.
proof fn lemma_rms_factor(
    x: Rows,
    fpu: Fpu,
    fuel: nat,
    h: i32,
    inv_h: u32,
    eps: u32,
    t: Machine,
)
    requires
        x.ok(),
        x.m == h,
        x.w_len == 4 * x.m,
        h % 8 == 0,
        fuel > h + 8,
        x.steady(t),
        x.high(t),
    ensures
        run(
            seq![vps(FloatInst::VxorpsZero(Ymm(0)))] + seq![
                counted(Reg::RCX, h, 8, rms_norm_body_squares()),
            ] + hsum_code() + inverse_rms_code(inv_h, eps),
            fpu,
            fuel,
            t,
        ) matches Some(u) && {
            let sum = lane_sum(
                fpu,
                |l: int| square_total(fpu, x.mem, x.w, l, (h as nat) / 8),
            );
            &&& x.steady(u)
            &&& x.high(u)
            &&& u.mem == t.mem
            &&& u.regs[Reg::RBX] == t.regs[Reg::RBX]
            &&& u.regs[Reg::R15] == t.regs[Reg::R15]
            &&& forall|l: int|
                0 <= l < 8 ==> #[trigger] u.vecs[2][l] == inverse_rms(fpu, sum, inv_h, eps)
        },
{
    let v = |l: int| square_total(fpu, x.mem, x.w, l, (h as nat) / 8);
    let zero = seq![vps(FloatInst::VxorpsZero(Ymm(0)))];
    let squares = seq![counted(Reg::RCX, h, 8, rms_norm_body_squares())];
    let zc0 = zero;
    let zc1 = zc0.drop_first();
    let z1 = step(Inst::Float(FloatInst::VxorpsZero(Ymm(0))), fpu, t);
    lemma_vxorps(Ymm(0), fpu, t);
    lemma_run_op(zc0, fpu, fuel, t);
    lemma_run_none(zc1, fpu, fuel, z1);
    assert(in_range(z1));
    let inv = |c: int, u: Machine|
        squares_inv(x, fpu, t.mem, c, u) && u.regs[Reg::RBX] == t.regs[Reg::RBX]
            && u.regs[Reg::R15] == t.regs[Reg::R15];
    assert forall|c: int, u: Machine| #[trigger]
        inv(c, u) && 0 <= c < h && c % 8 == 0 implies (after_turn(
        Reg::RCX,
        8,
        rms_norm_body_squares(),
        fpu,
        fuel,
        u,
    ) matches Some(w) && inv(c + 8, w)) by {
        lemma_square_turn(x, fpu, fuel, t.mem, c, u);
        lemma_squares_keep(fpu, fuel, u);
    }
    let y0 = z1.set(Reg::RCX, 0);
    assert(in_range(y0));
    assert(inv(0, y0));
    lemma_loop(Reg::RCX, h, 8, rms_norm_body_squares(), fpu, fuel, z1, inv);
    lemma_last_count(h as int, 8);
    lemma_run_single(squares[0], fpu, fuel, z1);
    let y1 = run_one(squares[0], fpu, fuel, z1)->0;
    assert(inv(h as int, y1));
    lemma_run_concat(zero, squares, fpu, fuel, t);
    lemma_hsum(fpu, fuel, y1, v);
    let y2 = run(hsum_code(), fpu, fuel, y1)->0;
    lemma_run_concat(zero + squares, hsum_code(), fpu, fuel, t);
    lemma_inverse_rms(fpu, fuel, y2, inv_h, eps);
    lemma_run_concat(
        zero + squares + hsum_code(),
        inverse_rms_code(inv_h, eps),
        fpu,
        fuel,
        t,
    );
}

/// The loop that writes the output.
proof fn lemma_rms_lanes(x: Rows, fpu: Fpu, fuel: nat, h: i32, factor: u32, t: Machine)
    requires
        x.ok(),
        x.m == h,
        x.w_len == 4 * x.m,
        x.a_len == 4 * x.m,
        h % 8 == 0,
        fuel > h + 8,
        is_normalized(x, fpu, factor),
        x.steady(t),
        x.high(t),
        forall|l: int| 0 <= l < 8 ==> #[trigger] t.vecs[2][l] == factor,
    ensures
        run(
            seq![counted(Reg::RCX, h, 8, rms_norm_body_lanes())],
            fpu,
            fuel,
            t,
        ) matches Some(u) && {
            &&& x.steady(u)
            &&& x.high(u)
            &&& x.filled(u.mem, h as int)
            &&& u.regs[Reg::RBX] == t.regs[Reg::RBX]
            &&& u.regs[Reg::R15] == t.regs[Reg::R15]
        },
{
    let lanes = seq![counted(Reg::RCX, h, 8, rms_norm_body_lanes())];
    let inv = |c: int, u: Machine|
        lanes_inv(x, factor, c, u) && u.regs[Reg::RBX] == t.regs[Reg::RBX] && u.regs[Reg::R15]
            == t.regs[Reg::R15];
    assert forall|c: int, u: Machine| #[trigger]
        inv(c, u) && 0 <= c < h && c % 8 == 0 implies (after_turn(
        Reg::RCX,
        8,
        rms_norm_body_lanes(),
        fpu,
        fuel,
        u,
    ) matches Some(w) && inv(c + 8, w)) by {
        lemma_lane_turn(x, fpu, fuel, factor, c, u);
        lemma_lanes_keep(fpu, fuel, u);
    }
    let y4 = t.set(Reg::RCX, 0);
    assert(in_range(y4));
    assert(x.steady(y4));
    assert(inv(0, y4));
    lemma_loop(Reg::RCX, h, 8, rms_norm_body_lanes(), fpu, fuel, t, inv);
    lemma_last_count(h as int, 8);
    lemma_run_single(lanes[0], fpu, fuel, t);
    assert(inv(h as int, run_one(lanes[0], fpu, fuel, t)->0));
}

/// The kernel normalizes `h` numbers, where `h` is a multiple of eight.
#[verifier::rlimit(40)]
pub proof fn lemma_rms_norm(
    fpu: Fpu,
    fuel: nat,
    s: Machine,
    p_x: Reg,
    p_w: Reg,
    p_out: Reg,
    h: i32,
    inv_h: u32,
    eps: u32,
    abi: Abi,
)
    requires
        0 <= h,
        h % 8 == 0,
        fuel > h + 8,
        called(s, p_x, 4 * h, p_w, 4 * h, p_out, 4 * h, abi),
    ensures
        run(rms_norm_body_code(p_x, p_w, p_out, h, inv_h, eps, abi), fpu, fuel, s) matches Some(t)
            && {
            &&& restored(s, t, 24, s.regs[p_out], s.regs[p_out] + 4 * h)
            &&& same_high(s, t)
            &&& words(t.mem, s.regs[p_out], h as nat) == normalized(
                fpu,
                s.mem,
                s.regs[p_x],
                s.regs[p_w],
                h as nat,
                inv_h,
                eps,
            )
        },
{
    let sp = s.regs[Reg::RSP];
    let extra = frame_extra(abi);
    let want = normalized(fpu, s.mem, s.regs[p_x], s.regs[p_w], h as nat, inv_h, eps);
    let v = |l: int| square_total(fpu, s.mem, s.regs[p_x], l, (h as nat) / 8);
    let sum = lane_sum(fpu, v);
    let factor = inverse_rms(fpu, sum, inv_h, eps);
    let pushes = push_three(Reg::R12, Reg::R13, Reg::R14, extra);
    let bind = bind_code(p_x, p_w, p_out);
    let zero = seq![vps(FloatInst::VxorpsZero(Ymm(0)))];
    let squares = seq![counted(Reg::RCX, h, 8, rms_norm_body_squares())];
    let lanes = seq![counted(Reg::RCX, h, 8, rms_norm_body_lanes())];
    let pops = pop_three(Reg::R12, Reg::R13, Reg::R14, extra);
    assert(0 <= s.regs[p_x] && 0 <= s.regs[p_w] && 0 <= s.regs[p_out]);
    lemma_push_three(Reg::R12, Reg::R13, Reg::R14, extra, fpu, fuel, s);
    let t0 = run(pushes, fpu, fuel, s)->0;
    lemma_bind(p_x, p_w, p_out, fpu, fuel, t0);
    let t = run(bind, fpu, fuel, t0)->0;
    lemma_run_concat(pushes, bind, fpu, fuel, s);
    let x = Rows {
        m: h as int,
        w: s.regs[p_x],
        w_len: 4 * (h as int),
        a: s.regs[p_w],
        a_len: 4 * (h as int),
        out: s.regs[p_out],
        sp: t.regs[Reg::RSP],
        bp: s.regs[Reg::RBP],
        vecs: s.vecs,
        mem: s.mem,
        base: t.mem,
        entry: |p: int| want[p],
    };
    assert(x.ok());
    assert(x.steady(t));
    assert(is_normalized(x, fpu, factor));

    let middle = zero + squares + hsum_code() + inverse_rms_code(inv_h, eps);
    lemma_rms_factor(x, fpu, fuel, h, inv_h, eps, t);
    let y3 = run(middle, fpu, fuel, t)->0;
    lemma_run_concat(pushes + bind, middle, fpu, fuel, s);
    lemma_rms_lanes(x, fpu, fuel, h, factor, y3);
    let u = run(lanes, fpu, fuel, y3)->0;
    let so_far = pushes + bind + middle;
    lemma_run_concat(so_far, lanes, fpu, fuel, s);

    let from = s.regs[p_out];
    let to = s.regs[p_out] + 4 * h;
    lemma_quad_same(t.mem, u.mem, from, to, sp - 8);
    lemma_quad_same(t.mem, u.mem, from, to, sp - 16);
    lemma_quad_same(t.mem, u.mem, from, to, sp - 24);
    lemma_quad_same(t.mem, u.mem, from, to, sp);
    lemma_quad_same(s.mem, t.mem, sp - 24, sp, sp);
    lemma_pop_three(Reg::R12, Reg::R13, Reg::R14, extra, fpu, fuel, s, u);
    lemma_run_concat(so_far + lanes, pops, fpu, fuel, s);
    let w = run(pops, fpu, fuel, u)->0;
    assert(so_far + lanes + pops =~= rms_norm_body_code(p_x, p_w, p_out, h, inv_h, eps, abi));
    assert forall|k: int|
        !(from <= k < to) && !(sp - 24 <= k < sp) implies #[trigger] (w.mem)(k) == (s.mem)(k) by {
        assert((u.mem)(k) == (t.mem)(k));
        assert((t.mem)(k) == (s.mem)(k));
    }
    assert(words(w.mem, s.regs[p_out], h as nat) =~= want);
}

/// The loop over squares changes no register but its counter.
proof fn lemma_squares_keep(fpu: Fpu, fuel: nat, t: Machine)
    ensures
        after_turn(Reg::RCX, 8, rms_norm_body_squares(), fpu, fuel, t) matches Some(u) ==> forall|
            q: Reg,
        |
            q != Reg::RCX ==> #[trigger] u.regs[q] == t.regs[q],
{
    let m = at(Reg::R12, Reg::RCX, Scale::S4, 0);
    let c0 = rms_norm_body_squares();
    let c1 = c0.drop_first();
    let c2 = c1.drop_first();
    let s1 = step(Inst::Mem(MemInst::VmovupsLoad(Ymm(1), m)), fpu, t);
    lemma_vmovups_load(Ymm(1), m, fpu, t);
    lemma_run_op(c0, fpu, fuel, t);
    let s2 = step(Inst::Float(FloatInst::Vfmadd231psReg(Ymm(0), Ymm(1), Ymm(1))), fpu, s1);
    lemma_vfmadd_reg(Ymm(0), Ymm(1), Ymm(1), fpu, s1);
    lemma_run_op(c1, fpu, fuel, s1);
    lemma_run_none(c2, fpu, fuel, s2);
}

/// The loop over lanes changes no register but its counter.
proof fn lemma_lanes_keep(fpu: Fpu, fuel: nat, t: Machine)
    ensures
        after_turn(Reg::RCX, 8, rms_norm_body_lanes(), fpu, fuel, t) matches Some(u) ==> forall|
            q: Reg,
        |
            q != Reg::RCX ==> #[trigger] u.regs[q] == t.regs[q],
{
    let mx = at(Reg::R12, Reg::RCX, Scale::S4, 0);
    let mw = at(Reg::R13, Reg::RCX, Scale::S4, 0);
    let mo = at(Reg::R14, Reg::RCX, Scale::S4, 0);
    let c0 = rms_norm_body_lanes();
    let c1 = c0.drop_first();
    let c2 = c1.drop_first();
    let c3 = c2.drop_first();
    let c4 = c3.drop_first();
    let c5 = c4.drop_first();
    let s1 = step(Inst::Mem(MemInst::VmovupsLoad(Ymm(0), mx)), fpu, t);
    lemma_vmovups_load(Ymm(0), mx, fpu, t);
    lemma_run_op(c0, fpu, fuel, t);
    let s2 = step(Inst::Mem(MemInst::VmovupsLoad(Ymm(1), mw)), fpu, s1);
    lemma_vmovups_load(Ymm(1), mw, fpu, s1);
    lemma_run_op(c1, fpu, fuel, s1);
    let s3 = step(Inst::Float(FloatInst::VmulpsReg(Ymm(0), Ymm(0), Ymm(2))), fpu, s2);
    lemma_vmulps(Ymm(0), Ymm(0), Ymm(2), fpu, s2);
    lemma_run_op(c2, fpu, fuel, s2);
    let s4 = step(Inst::Float(FloatInst::VmulpsReg(Ymm(0), Ymm(0), Ymm(1))), fpu, s3);
    lemma_vmulps(Ymm(0), Ymm(0), Ymm(1), fpu, s3);
    lemma_run_op(c3, fpu, fuel, s3);
    let s5 = step(Inst::Mem(MemInst::VmovupsStore(Ymm(0), mo)), fpu, s4);
    lemma_vmovups_store(Ymm(0), mo, fpu, s4);
    lemma_run_op(c4, fpu, fuel, s4);
    lemma_run_none(c5, fpu, fuel, s5);
}

// ---- dequantization -------------------------------------------------------------------

/// A dequantization under way: where the blocks and the numbers are, and what
/// memory held at first and before the loop.
pub struct Unpack {
    pub count: int,
    pub src: int,
    pub dst: int,
    pub sp: int,
    pub r14: int,
    pub r15: int,
    pub bp: int,
    pub vecs: Map<u8, Seq<u32>>,
    pub mem: spec_fn(int) -> u8,
    pub base: spec_fn(int) -> u8,
}

impl Unpack {
    /// The blocks and the numbers lie in memory and do not meet.
    spec fn ok(self) -> bool {
        &&& 0 <= self.count < 0x8000_0000
        &&& 0 <= self.src && self.src + 34 * self.count <= word_count()
        &&& 0 <= self.dst && self.dst + 128 * self.count <= word_count()
        &&& disjoint(self.src, 34 * self.count, self.dst, 128 * self.count)
        &&& forall|q: int|
            self.src <= q < self.src + 34 * self.count ==> #[trigger] (self.base)(q) == (self.mem)(
                q,
            )
    }

    /// What the loop relies on throughout.
    spec fn steady(self, t: Machine) -> bool {
        &&& in_range(t)
        &&& t.regs[Reg::R12] == self.src
        &&& t.regs[Reg::R13] == self.dst
        &&& t.regs[Reg::RSP] == self.sp
        &&& t.regs[Reg::RBP] == self.bp
        &&& t.regs[Reg::R14] == self.r14
        &&& t.regs[Reg::R15] == self.r15
        &&& same_outside(self.base, t.mem, self.dst, self.dst + 128 * self.count)
        &&& forall|v: u8| v >= 6 ==> #[trigger] t.vecs[v] == self.vecs[v]
    }

    /// The first `count` numbers are there.
    spec fn filled(self, fpu: Fpu, mem: spec_fn(int) -> u8, count: int) -> bool {
        forall|p: int|
            0 <= p < count ==> #[trigger] word_at(mem, self.dst + 4 * p) == weight(
                fpu,
                self.mem,
                self.src,
                p / 32,
                p % 32,
            )
    }
}

/// Eight numbers of a block.
#[verifier::rlimit(40)]
proof fn lemma_group(
    y: Unpack,
    fpu: Fpu,
    fuel: nat,
    s: Machine,
    quants: i32,
    dest: i32,
    b: int,
    g: int,
)
    requires
        y.ok(),
        y.steady(s),
        0 <= g < 4,
        quants == 2 + 8 * g,
        dest == 32 * g,
        0 <= b < y.count,
        s.regs[Reg::RAX] == 34 * b,
        s.regs[Reg::RCX] == 128 * b,
        y.filled(fpu, s.mem, 32 * b + 8 * g),
        forall|l: int|
            0 <= l < 8 ==> #[trigger] s.vecs[0][l] == (fpu.widen)(scale_bits(y.mem, y.src, b)),
    ensures
        run(dequant_group_code(quants, dest), fpu, fuel, s) matches Some(u) && {
            &&& y.steady(u)
            &&& u.regs == s.regs
            &&& u.vecs[0] == s.vecs[0]
            &&& y.filled(fpu, u.mem, 32 * b + 8 * g + 8)
        },
{
    let mw = at(Reg::R12, Reg::RAX, Scale::S1, quants);
    let mo = at(Reg::R13, Reg::RCX, Scale::S1, dest);
    let c0 = dequant_group_code(quants, dest);
    let c1 = c0.drop_first();
    let c2 = c1.drop_first();
    let c3 = c2.drop_first();
    let c4 = c3.drop_first();
    let s1 = step(Inst::Mem(MemInst::VpmovsxbdLoad(Ymm(1), mw)), fpu, s);
    lemma_vpmovsxbd(Ymm(1), mw, fpu, s);
    lemma_run_op(c0, fpu, fuel, s);
    let s2 = step(Inst::Conv(ConvInst::Vcvtdq2ps(Ymm(1), Ymm(1))), fpu, s1);
    lemma_vcvtdq2ps(Ymm(1), Ymm(1), fpu, s1);
    lemma_run_op(c1, fpu, fuel, s1);
    let s3 = step(Inst::Float(FloatInst::VmulpsReg(Ymm(1), Ymm(1), Ymm(0))), fpu, s2);
    lemma_vmulps(Ymm(1), Ymm(1), Ymm(0), fpu, s2);
    lemma_run_op(c2, fpu, fuel, s2);
    let s4 = step(Inst::Mem(MemInst::VmovupsStore(Ymm(1), mo)), fpu, s3);
    lemma_vmovups_store(Ymm(1), mo, fpu, s3);
    lemma_run_op(c3, fpu, fuel, s3);
    lemma_run_none(c4, fpu, fuel, s4);
    let p = y.src + 34 * b + quants;
    assert(s.addr(mw) == p);
    let first = 32 * b + 8 * g;
    assert(s3.addr(mo) == y.dst + 4 * first);
    let v = s3.vecs[1];
    assert forall|l: int| 0 <= l < 8 implies #[trigger] v[l] == weight(
        fpu,
        y.mem,
        y.src,
        (first + l) / 32,
        (first + l) % 32,
    ) by {
        let z = signed8((s.mem)(p + l));
        lemma_signed_low(z);
        assert((s.mem)(p + l) == (y.base)(p + l));
        assert((y.base)(p + l) == (y.mem)(p + l));
        assert((first + l) / 32 == b && (first + l) % 32 == 8 * g + l);
        assert(p + l == y.src + 34 * b + 2 + (8 * g + l));
        assert(z == quant(y.mem, y.src, b, 8 * g + l));
        assert(s1.vecs[1][l] == low(z));
        assert(s2.vecs[1][l] == (fpu.from_int)(z));
        assert(s2.vecs[0] == s.vecs[0]);
        assert(s.vecs[0][l] == (fpu.widen)(scale_bits(y.mem, y.src, b)));
    }
    assert forall|q: int| 0 <= q < first + 8 implies #[trigger] word_at(s4.mem, y.dst + 4 * q)
        == weight(fpu, y.mem, y.src, q / 32, q % 32) by {
        if q < first {
            assert(word_at(s.mem, y.dst + 4 * q) == weight(fpu, y.mem, y.src, q / 32, q % 32));
            assert(bytes_at(s4.mem, y.dst + 4 * q, 4) =~= bytes_at(s.mem, y.dst + 4 * q, 4));
        } else {
            let l = q - first;
            lemma_lanes_back(s.mem, y.dst + 4 * first, v, 8, l);
            assert(y.dst + 4 * first + 4 * l == y.dst + 4 * q);
            assert(v[l] == weight(fpu, y.mem, y.src, (first + l) / 32, (first + l) % 32));
        }
    }
    assert forall|q: int| !(y.dst <= q < y.dst + 128 * y.count) implies #[trigger] (s4.mem)(q) == (
    y.base)(q) by {
        assert((s.mem)(q) == (y.base)(q));
    }
    assert(in_range(s4));
}

/// Before block `b`.
spec fn unpack_inv(y: Unpack, fpu: Fpu, b: int, t: Machine) -> bool {
    &&& y.steady(t)
    &&& t.regs[Reg::RBX] == b
    &&& 0 <= b <= y.count
    &&& y.filled(fpu, t.mem, 32 * b)
}

#[verifier::rlimit(40)]
proof fn lemma_unpack_turn(y: Unpack, fpu: Fpu, fuel: nat, b: int, t: Machine)
    requires
        y.ok(),
        b < y.count,
        unpack_inv(y, fpu, b, t),
    ensures
        after_turn(Reg::RBX, 1, dequant_q8_body_blocks(), fpu, fuel, t) matches Some(u)
            && unpack_inv(y, fpu, b + 1, u),
{
    let mw = at(Reg::R12, Reg::RAX, Scale::S1, 0);
    let ca = seq![
        gp(IntInst::MovRR(Reg::RAX, Reg::RBX)),
        gp(IntInst::ImulRRI(Reg::RAX, Reg::RAX, 34)),
        vmem(MemInst::VmovdLoad(Ymm(1), mw)),
        vcvt(ConvInst::Vcvtph2psXmm(Ymm(1), Ymm(1))),
        vps(FloatInst::VbroadcastssXmm(Ymm(0), Ymm(1))),
        gp(IntInst::MovRR(Reg::RCX, Reg::RBX)),
        gp(IntInst::ImulRRI(Reg::RCX, Reg::RCX, 128)),
    ];
    let g0 = dequant_group_code(2, 0);
    let g1 = dequant_group_code(10, 32);
    let g2 = dequant_group_code(18, 64);
    let g3 = dequant_group_code(26, 96);
    let c0 = ca;
    let c1 = c0.drop_first();
    let c2 = c1.drop_first();
    let c3 = c2.drop_first();
    let c4 = c3.drop_first();
    let c5 = c4.drop_first();
    let c6 = c5.drop_first();
    let c7 = c6.drop_first();
    let s1 = step(Inst::Int(IntInst::MovRR(Reg::RAX, Reg::RBX)), fpu, t);
    lemma_mov_rr(Reg::RAX, Reg::RBX, fpu, t);
    lemma_run_op(c0, fpu, fuel, t);
    let s2 = step(Inst::Int(IntInst::ImulRRI(Reg::RAX, Reg::RAX, 34)), fpu, s1);
    lemma_imul(Reg::RAX, Reg::RAX, 34, fpu, s1);
    lemma_run_op(c1, fpu, fuel, s1);
    let s3 = step(Inst::Mem(MemInst::VmovdLoad(Ymm(1), mw)), fpu, s2);
    lemma_vmovd_load(Ymm(1), mw, fpu, s2);
    lemma_run_op(c2, fpu, fuel, s2);
    let s4 = step(Inst::Conv(ConvInst::Vcvtph2psXmm(Ymm(1), Ymm(1))), fpu, s3);
    lemma_vcvtph2ps(Ymm(1), Ymm(1), fpu, s3);
    lemma_run_op(c3, fpu, fuel, s3);
    let s5 = step(Inst::Float(FloatInst::VbroadcastssXmm(Ymm(0), Ymm(1))), fpu, s4);
    lemma_vbroadcastss_xmm(Ymm(0), Ymm(1), fpu, s4);
    lemma_run_op(c4, fpu, fuel, s4);
    let s6 = step(Inst::Int(IntInst::MovRR(Reg::RCX, Reg::RBX)), fpu, s5);
    lemma_mov_rr(Reg::RCX, Reg::RBX, fpu, s5);
    lemma_run_op(c5, fpu, fuel, s5);
    let s7 = step(Inst::Int(IntInst::ImulRRI(Reg::RCX, Reg::RCX, 128)), fpu, s6);
    lemma_imul(Reg::RCX, Reg::RCX, 128, fpu, s6);
    lemma_run_op(c6, fpu, fuel, s6);
    lemma_run_none(c7, fpu, fuel, s7);
    let p = y.src + 34 * b;
    assert(s2.regs[Reg::RAX] == 34 * b);
    assert(s2.addr(mw) == p);
    lemma_low_half(t.mem, p);
    assert((t.mem)(p) == (y.base)(p) && (t.mem)(p + 1) == (y.base)(p + 1));
    assert((y.base)(p) == (y.mem)(p) && (y.base)(p + 1) == (y.mem)(p + 1));
    assert(s3.vecs[1][0] == word_at(t.mem, p));
    assert(s4.vecs[1][0] == (fpu.widen)(scale_bits(y.mem, y.src, b)));
    assert(s7.regs[Reg::RCX] == 128 * b);
    assert(in_range(s7));
    assert(y.steady(s7));
    lemma_group(y, fpu, fuel, s7, 2, 0, b, 0);
    let s8 = run(g0, fpu, fuel, s7)->0;
    lemma_run_concat(ca, g0, fpu, fuel, t);
    lemma_group(y, fpu, fuel, s8, 10, 32, b, 1);
    let s9 = run(g1, fpu, fuel, s8)->0;
    lemma_run_concat(ca + g0, g1, fpu, fuel, t);
    lemma_group(y, fpu, fuel, s9, 18, 64, b, 2);
    let s10 = run(g2, fpu, fuel, s9)->0;
    lemma_run_concat(ca + g0 + g1, g2, fpu, fuel, t);
    lemma_group(y, fpu, fuel, s10, 26, 96, b, 3);
    let s11 = run(g3, fpu, fuel, s10)->0;
    lemma_run_concat(ca + g0 + g1 + g2, g3, fpu, fuel, t);
    assert(run(dequant_q8_body_blocks(), fpu, fuel, t) == Some(s11));
    let u = s11.set(Reg::RBX, s11.regs[Reg::RBX] + 1);
    assert(in_range(u));
    assert(32 * b + 8 * 3 + 8 == 32 * (b + 1));
}

/// A call that the dequantization kernel can serve: the blocks and the numbers
/// lie in memory, and meet neither each other nor the stack.
pub open spec fn called_to_unpack(s: Machine, src: Reg, dst: Reg, count: int, abi: Abi) -> bool {
    let sp = s.regs[Reg::RSP];
    &&& in_range(s)
    &&& src != Reg::RSP
    &&& dst != Reg::RSP
    &&& dst != Reg::R12
    &&& 24 + frame_extra(abi) <= sp < word_count() - 8
    &&& s.regs[src] + 34 * count <= word_count()
    &&& s.regs[dst] + 128 * count <= word_count()
    &&& disjoint(s.regs[src], 34 * count, s.regs[dst], 128 * count)
    &&& s.regs[src] + 34 * count <= sp - 24 || sp + 8 <= s.regs[src]
    &&& s.regs[dst] + 128 * count <= sp - 24 || sp + 8 <= s.regs[dst]
}

/// The kernel writes out the numbers of the blocks.
#[verifier::rlimit(40)]
pub proof fn lemma_dequant_q8(
    fpu: Fpu,
    fuel: nat,
    s: Machine,
    src: Reg,
    dst: Reg,
    num_blocks: i32,
    abi: Abi,
)
    requires
        0 <= num_blocks,
        fuel > num_blocks + 1,
        called_to_unpack(s, src, dst, num_blocks as int, abi),
    ensures
        run(dequant_q8_body_code(src, dst, num_blocks, abi), fpu, fuel, s) matches Some(t) && {
            &&& restored(s, t, 24, s.regs[dst], s.regs[dst] + 128 * num_blocks)
            &&& same_high(s, t)
            &&& words(t.mem, s.regs[dst], (32 * num_blocks) as nat) == weights(
                fpu,
                s.mem,
                s.regs[src],
                (32 * num_blocks) as nat,
            )
        },
{
    let sp = s.regs[Reg::RSP];
    let extra = frame_extra(abi);
    let pushes = push_three(Reg::R12, Reg::R13, Reg::RBX, extra);
    let moves = seq![gp(IntInst::MovRR(Reg::R12, src)), gp(IntInst::MovRR(Reg::R13, dst))];
    let body = dequant_q8_body_blocks();
    let turns = seq![counted(Reg::RBX, num_blocks, 1, body)];
    let pops = pop_three(Reg::R12, Reg::R13, Reg::RBX, extra);
    assert(0 <= s.regs[src] < word_count() && 0 <= s.regs[dst] < word_count());
    lemma_push_three(Reg::R12, Reg::R13, Reg::RBX, extra, fpu, fuel, s);
    let t0 = run(pushes, fpu, fuel, s)->0;
    let bc0 = moves;
    let bc1 = bc0.drop_first();
    let bc2 = bc1.drop_first();
    let b1 = step(Inst::Int(IntInst::MovRR(Reg::R12, src)), fpu, t0);
    lemma_mov_rr(Reg::R12, src, fpu, t0);
    lemma_run_op(bc0, fpu, fuel, t0);
    let b2 = step(Inst::Int(IntInst::MovRR(Reg::R13, dst)), fpu, b1);
    lemma_mov_rr(Reg::R13, dst, fpu, b1);
    lemma_run_op(bc1, fpu, fuel, b1);
    lemma_run_none(bc2, fpu, fuel, b2);
    lemma_run_concat(pushes, moves, fpu, fuel, s);
    assert(in_range(b2));
    let y = Unpack {
        count: num_blocks as int,
        src: s.regs[src],
        dst: s.regs[dst],
        sp: b2.regs[Reg::RSP],
        r14: s.regs[Reg::R14],
        r15: s.regs[Reg::R15],
        bp: s.regs[Reg::RBP],
        vecs: s.vecs,
        mem: s.mem,
        base: b2.mem,
    };
    assert(y.ok());
    assert(y.steady(b2));

    let inv = |b: int, u: Machine| unpack_inv(y, fpu, b, u);
    assert forall|b: int, u: Machine| #[trigger]
        inv(b, u) && 0 <= b < num_blocks && b % 1 == 0 implies (after_turn(
        Reg::RBX,
        1,
        body,
        fpu,
        fuel,
        u,
    ) matches Some(w) && inv(b + 1, w)) by {
        lemma_unpack_turn(y, fpu, fuel, b, u);
    }
    let y0 = b2.set(Reg::RBX, 0);
    assert(in_range(y0));
    assert(inv(0, y0));
    lemma_loop(Reg::RBX, num_blocks, 1, body, fpu, fuel, b2, inv);
    lemma_last_count(num_blocks as int, 1);
    lemma_run_single(turns[0], fpu, fuel, b2);
    let u = run_one(turns[0], fpu, fuel, b2)->0;
    assert(inv(num_blocks as int, u));
    lemma_run_concat(pushes + moves, turns, fpu, fuel, s);

    let from = s.regs[dst];
    let to = s.regs[dst] + 128 * num_blocks;
    lemma_quad_same(b2.mem, u.mem, from, to, sp - 8);
    lemma_quad_same(b2.mem, u.mem, from, to, sp - 16);
    lemma_quad_same(b2.mem, u.mem, from, to, sp - 24);
    lemma_quad_same(b2.mem, u.mem, from, to, sp);
    lemma_quad_same(s.mem, b2.mem, sp - 24, sp, sp);
    lemma_pop_three(Reg::R12, Reg::R13, Reg::RBX, extra, fpu, fuel, s, u);
    lemma_run_concat(pushes + moves + turns, pops, fpu, fuel, s);
    let w = run(pops, fpu, fuel, u)->0;
    assert(pushes + moves + turns + pops =~= dequant_q8_body_code(src, dst, num_blocks, abi));
    assert forall|k: int|
        !(from <= k < to) && !(sp - 24 <= k < sp) implies #[trigger] (w.mem)(k) == (s.mem)(k) by {
        assert((u.mem)(k) == (b2.mem)(k));
        assert((b2.mem)(k) == (s.mem)(k));
    }
    assert(words(w.mem, s.regs[dst], (32 * num_blocks) as nat) =~= weights(
        fpu,
        s.mem,
        s.regs[src],
        (32 * num_blocks) as nat,
    ));
}

} // verus!
