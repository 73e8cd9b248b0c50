//! How long the machine code of the kernels is.

use crate::bytes::{lemma_le_bytes_len, wrap32};
use crate::codegen::assembler::{
    assemble, byte_inst_bytes, code_bytes, conv_inst_bytes, float_inst_bytes, inst_bytes,
    int_inst_bytes, loop_bytes, mem_inst_bytes, sse_inst_bytes, zmm_inst_bytes,
    ByteInst, Code, ConvInst, FloatInst, Inst, IntInst, Mem, MemInst, SseInst, ZmmInst,
};
use crate::codegen::avx2_enc::{
    enc_vaddps_reg, enc_vaddps_zmm_reg, enc_vaddss_xmm, enc_vbroadcastss, enc_vbroadcastss_xmm,
    enc_vbroadcastss_zmm_xmm, enc_vcvtdq2ps, enc_vcvtdq2ps_zmm, enc_vcvtph2ps_xmm,
    enc_vcvtsi2ss_xmm_r32, enc_vdivss_xmm, enc_vextractf128_xmm, enc_vextractf32x8_zmm,
    enc_vfmadd231ps_mem, enc_vfmadd231ps_reg, enc_vfmadd231ps_zmm_mem, enc_vhaddps_ymm,
    enc_vmovd_load, enc_vmovd_load_reg, enc_vmovdqu_load, enc_vmovups_load, enc_vmovups_store,
    enc_vmulps_reg, enc_vmulps_zmm_reg, enc_vmulss_xmm, enc_vpcmpeqd_reg, enc_vpdpbusd_evex_reg,
    enc_vpdpbusd_vex_reg, enc_vpmaddubsw_reg, enc_vpmaddwd_reg, enc_vpmovsxbd_load,
    enc_vpmovsxbd_zmm_load, enc_vpsignb_reg, enc_vpsrlw_imm8, enc_vsqrtss_xmm, enc_vxorps_zero,
    enc_vxorps_zmm_zero,
};
use crate::codegen::flat_laws::{leads, lemma_bytes_run};
use crate::codegen::kernels::{
    blocks_per_row, bytes_per_row, dequant_q8_body_blocks, dequant_q8_body_code,
    matmul_avx2_1xn_4acc_code, matmul_avx2_1xn_4acc_columns, matmul_avx2_1xn_4acc_terms,
    matmul_avx2_code, matmul_avx2_columns, matmul_avx2_rows, matmul_avx2_terms, matmul_body_code,
    matmul_body_columns, matmul_body_rows, matmul_body_terms, matmul_tile_4x8_code,
    matmul_tile_4x8_columns, matmul_tile_4x8_rows, matmul_tile_4x8_terms,
    quant_matmul_q8_body_blocks, quant_matmul_q8_body_code, quant_matmul_q8_body_columns,
    quant_matmul_q8_body_elements, quant_matmul_q8_body_rows, quant_matmul_q8_n1_body_blocks,
    quant_matmul_q8_n1_body_code, quant_matmul_q8_n1_body_rows, quant_matmul_q8_n1_body_zmm_blocks,
    quant_matmul_q8_n1_body_zmm_code, quant_matmul_q8_n1_body_zmm_rows,
    quant_matmul_q8q8_n1_body_blocks, quant_matmul_q8q8_n1_body_code,
    quant_matmul_q8q8_n1_body_rows, quant_matmul_q8q8_n1_body_vnni_4acc_blocks,
    quant_matmul_q8q8_n1_body_vnni_4acc_code, quant_matmul_q8q8_n1_body_vnni_4acc_rows,
    quant_matmul_q8q8_n1_body_vnni_blocks, quant_matmul_q8q8_n1_body_vnni_code,
    quant_matmul_q8q8_n1_body_vnni_rows, rms_norm_body_code, rms_norm_body_lanes,
    rms_norm_body_squares,
};
use crate::codegen::machine::{run, Fpu, Machine};
use crate::codegen::x86_64::{
    function_lowering, matmul_kernel, q8_kernel, q8q8_kernel, Abi, FunctionLowering, VnniForm,
};
use crate::codegen::x86_64_enc::{
    enc_add_ri32, enc_add_rr, enc_addss_xmm, enc_cmp_ri32, enc_imul_rri32, enc_inc_r,
    enc_jcc_rel32, enc_jmp_rel32, enc_mov_ri32, enc_mov_rr, enc_movss_load, enc_movss_store,
    enc_movsx_r32_m8, enc_mulss_load, enc_pop_r64, enc_push_r64, enc_ret, enc_sub_ri32, enc_xor_rr,
    enc_xorps_self,
    mem_bytes, Reg,
};
use crate::ir::module::Function;
use vstd::prelude::*;

verus! {

// ---- instructions ---------------------------------------------------------------------

proof fn lemma_int_size(i: IntInst)
    ensures
        int_inst_bytes(i).len() <= 16,
{
    broadcast use lemma_le_bytes_len;

    match i {
        IntInst::Push(_) => {
            reveal(enc_push_r64);
        },
        IntInst::Pop(_) => {
            reveal(enc_pop_r64);
        },
        IntInst::Ret => {
            reveal(enc_ret);
        },
        IntInst::MovRR(_, _) => {
            reveal(enc_mov_rr);
        },
        IntInst::MovRI32(_, _) => {
            reveal(enc_mov_ri32);
        },
        IntInst::AddRR(_, _) => {
            reveal(enc_add_rr);
        },
        IntInst::AddRI(_, _) => {
            reveal(enc_add_ri32);
        },
        IntInst::SubRI(_, _) => {
            reveal(enc_sub_ri32);
        },
        IntInst::ImulRRI(_, _, _) => {
            reveal(enc_imul_rri32);
        },
        IntInst::MovsxR32M8(a, m) => {
            reveal(enc_movsx_r32_m8);
            lemma_mem_bytes_size(a.num(), m);
        },
    }
}

proof fn lemma_sse_size(i: SseInst)
    ensures
        sse_inst_bytes(i).len() <= 16,
{
    broadcast use lemma_le_bytes_len;

    match i {
        SseInst::MovssLoad(a, m) => {
            reveal(enc_movss_load);
            lemma_mem_bytes_size(a.0, m);
        },
        SseInst::MovssStore(a, m) => {
            reveal(enc_movss_store);
            lemma_mem_bytes_size(a.0, m);
        },
        SseInst::MulssLoad(a, m) => {
            reveal(enc_mulss_load);
            lemma_mem_bytes_size(a.0, m);
        },
        SseInst::AddssXmm(_, _) => {
            reveal(enc_addss_xmm);
        },
        SseInst::XorpsSelf(_) => {
            reveal(enc_xorps_self);
        },
    }
}

proof fn lemma_mem_bytes_size(reg: u8, m: Mem)
    ensures
        mem_bytes(reg, m.base, m.index(), m.disp).len() <= 6,
{
    lemma_le_bytes_len(wrap32(m.disp as int), 4);
}

proof fn lemma_mem_size(i: MemInst)
    ensures
        mem_inst_bytes(i).len() <= 16,
{
    match i {
        MemInst::VmovupsLoad(a, m) => {
            reveal(enc_vmovups_load);
            lemma_mem_bytes_size(a.0, m);
        },
        MemInst::VmovupsStore(a, m) => {
            reveal(enc_vmovups_store);
            lemma_mem_bytes_size(a.0, m);
        },
        MemInst::Vbroadcastss(a, m) => {
            reveal(enc_vbroadcastss);
            lemma_mem_bytes_size(a.0, m);
        },
        MemInst::Vfmadd231psMem(a, _, m) => {
            reveal(enc_vfmadd231ps_mem);
            lemma_mem_bytes_size(a.0, m);
        },
        MemInst::VmovdLoad(a, m) => {
            reveal(enc_vmovd_load);
            lemma_mem_bytes_size(a.0, m);
        },
        MemInst::VpmovsxbdLoad(a, m) => {
            reveal(enc_vpmovsxbd_load);
            lemma_mem_bytes_size(a.0, m);
        },
        MemInst::VmovdquLoad(a, m) => {
            reveal(enc_vmovdqu_load);
            lemma_mem_bytes_size(a.0, m);
        },
    }
}

proof fn lemma_float_size(i: FloatInst)
    ensures
        float_inst_bytes(i).len() <= 16,
{
    broadcast use lemma_le_bytes_len;

    reveal(enc_vxorps_zero);
    reveal(enc_vbroadcastss_xmm);
    reveal(enc_vfmadd231ps_reg);
    reveal(enc_vmulps_reg);
    reveal(enc_vaddps_reg);
    reveal(enc_vhaddps_ymm);
    reveal(enc_vextractf128_xmm);
    reveal(enc_vsqrtss_xmm);
    reveal(enc_vdivss_xmm);
    reveal(enc_vaddss_xmm);
    reveal(enc_vmulss_xmm);
}

proof fn lemma_conv_size(i: ConvInst)
    ensures
        conv_inst_bytes(i).len() <= 16,
{
    broadcast use lemma_le_bytes_len;

    reveal(enc_vmovd_load_reg);
    reveal(enc_vcvtph2ps_xmm);
    reveal(enc_vcvtdq2ps);
    reveal(enc_vcvtsi2ss_xmm_r32);
}

proof fn lemma_byte_size(i: ByteInst)
    ensures
        byte_inst_bytes(i).len() <= 16,
{
    broadcast use lemma_le_bytes_len;

    reveal(enc_vpsignb_reg);
    reveal(enc_vpmaddubsw_reg);
    reveal(enc_vpmaddwd_reg);
    reveal(enc_vpcmpeqd_reg);
    reveal(enc_vpsrlw_imm8);
    reveal(enc_vpdpbusd_vex_reg);
    reveal(enc_vpdpbusd_evex_reg);
}

proof fn lemma_zmm_size(i: ZmmInst)
    ensures
        zmm_inst_bytes(i).len() <= 16,
{
    broadcast use lemma_le_bytes_len;

    match i {
        ZmmInst::VxorpsZmmZero(_) => {
            reveal(enc_vxorps_zmm_zero);
        },
        ZmmInst::VaddpsZmmReg(_, _, _) => {
            reveal(enc_vaddps_zmm_reg);
        },
        ZmmInst::VmulpsZmmReg(_, _, _) => {
            reveal(enc_vmulps_zmm_reg);
        },
        ZmmInst::Vcvtdq2psZmm(_, _) => {
            reveal(enc_vcvtdq2ps_zmm);
        },
        ZmmInst::VbroadcastssZmmXmm(_, _) => {
            reveal(enc_vbroadcastss_zmm_xmm);
        },
        ZmmInst::VpmovsxbdZmmLoad(a, m) => {
            reveal(enc_vpmovsxbd_zmm_load);
            lemma_mem_bytes_size(a.0, m);
        },
        ZmmInst::Vfmadd231psZmmMem(a, _, m) => {
            reveal(enc_vfmadd231ps_zmm_mem);
            lemma_mem_bytes_size(a.0, m);
        },
        ZmmInst::Vextractf32x8Zmm(_, _, _) => {
            reveal(enc_vextractf32x8_zmm);
        },
    }
}

/// No instruction is longer than 16 bytes.
proof fn lemma_inst_size(i: Inst)
    ensures
        inst_bytes(i).len() <= 16,
{
    match i {
        Inst::Int(x) => {
            lemma_int_size(x);
        },
        Inst::Sse(x) => {
            lemma_sse_size(x);
        },
        Inst::Mem(x) => {
            lemma_mem_size(x);
        },
        Inst::Float(x) => {
            lemma_float_size(x);
        },
        Inst::Conv(x) => {
            lemma_conv_size(x);
        },
        Inst::Byte(x) => {
            lemma_byte_size(x);
        },
        Inst::Zmm(x) => {
            lemma_zmm_size(x);
        },
    }
}

/// A loop is at most 32 bytes longer than its body.
proof fn lemma_loop_size(ctr: Reg, bound: i32, step: i32, body: Seq<u8>)
    ensures
        loop_bytes(ctr, bound, step, body).len() <= body.len() + 32,
{
    broadcast use lemma_le_bytes_len;

    reveal(enc_xor_rr);
    reveal(enc_cmp_ri32);
    reveal(enc_inc_r);
    reveal(enc_add_ri32);
    reveal(enc_jcc_rel32);
    reveal(enc_jmp_rel32);
}

/// Every piece of the code takes at most `c` bytes.
spec fn pieces_within(code: Seq<Code>, c: nat) -> bool {
    forall|i: int| 0 <= i < code.len() ==> code_bytes(#[trigger] code[i]).len() <= c
}

proof fn lemma_pieces(code: Seq<Code>, c: nat)
    requires
        pieces_within(code, c),
    ensures
        assemble(code).len() <= code.len() * c,
    decreases code.len(),
{
    if code.len() > 0 {
        let front = code.drop_last();
        assert forall|i: int| 0 <= i < front.len() implies code_bytes(#[trigger] front[i]).len()
            <= c by {
            assert(front[i] == code[i]);
        }
        lemma_pieces(front, c);
        assert(code_bytes(code.last()).len() <= c);
        assert(code.len() * c == front.len() * c + c) by (nonlinear_arith)
            requires
                code.len() == front.len() + 1,
        ;
    } else {
        assert(code.len() * c == 0) by (nonlinear_arith)
            requires
                code.len() == 0,
        ;
    }
}

/// The size of code of at most `n` pieces, where every loop in it has a body of
/// at most `b` bytes.
proof fn lemma_size(code: Seq<Code>, n: nat, b: nat)
    requires
        code.len() <= n,
        forall|i: int|
            0 <= i < code.len() ==> ((#[trigger] code[i]) matches Code::Loop { body, .. }
                ==> assemble(body).len() <= b),
    ensures
        assemble(code).len() <= n * (b + 32),
{
    assert forall|i: int| 0 <= i < code.len() implies code_bytes(#[trigger] code[i]).len() <= b
        + 32 by {
        match code[i] {
            Code::Op(inst) => {
                lemma_inst_size(inst);
            },
            Code::Loop { ctr, bound, step, body } => {
                lemma_loop_size(ctr, bound, step, assemble(body));
            },
        }
    }
    lemma_pieces(code, b + 32);
    assert(code.len() * (b + 32) <= n * (b + 32)) by (nonlinear_arith)
        requires
            code.len() <= n,
    ;
}

// ---- kernels --------------------------------------------------------------------------

proof fn lemma_matmul_body_size(p0: Reg, p1: Reg, p2: Reg, m: i32, k: i32, n: i32, abi: Abi)
    ensures
        assemble(matmul_body_code(p0, p1, p2, m, k, n, abi)).len() <= 0x10_0000,
{
    lemma_size(matmul_body_terms(k, n), 9, 0);
    lemma_size(matmul_body_columns(k, n), 6, 288);
    lemma_size(matmul_body_rows(k, n), 1, 1920);
    lemma_size(matmul_body_code(p0, p1, p2, m, k, n, abi), 17, 1952);
}

proof fn lemma_matmul_avx2_size(p0: Reg, p1: Reg, p2: Reg, m: i32, k: i32, n: i32, abi: Abi)
    ensures
        assemble(matmul_avx2_code(p0, p1, p2, m, k, n, abi)).len() <= 0x10_0000,
{
    lemma_size(matmul_avx2_terms(k, n), 8, 0);
    lemma_size(matmul_avx2_columns(k, n), 6, 256);
    lemma_size(matmul_avx2_rows(k, n), 1, 1728);
    lemma_size(matmul_avx2_code(p0, p1, p2, m, k, n, abi), 17, 1760);
}

proof fn lemma_matmul_1xn_size(p0: Reg, p1: Reg, p2: Reg, k: i32, n: i32, abi: Abi)
    ensures
        assemble(matmul_avx2_1xn_4acc_code(p0, p1, p2, k, n, abi)).len() <= 0x10_0000,
{
    lemma_size(matmul_avx2_1xn_4acc_terms(n), 8, 0);
    lemma_size(matmul_avx2_1xn_4acc_columns(k, n), 9, 256);
    lemma_size(matmul_avx2_1xn_4acc_code(p0, p1, p2, k, n, abi), 17, 2592);
}

proof fn lemma_matmul_tile_size(p0: Reg, p1: Reg, p2: Reg, m: i32, k: i32, n: i32, abi: Abi)
    ensures
        assemble(matmul_tile_4x8_code(p0, p1, p2, m, k, n, abi)).len() <= 0x10_0000,
{
    lemma_size(matmul_tile_4x8_terms(k, n), 28, 0);
    lemma_size(matmul_tile_4x8_columns(k, n), 25, 896);
    lemma_size(matmul_tile_4x8_rows(k, n), 1, 23200);
    lemma_size(matmul_tile_4x8_code(p0, p1, p2, m, k, n, abi), 17, 23232);
}

proof fn lemma_q8_size(p0: Reg, p1: Reg, p2: Reg, m: i32, k: i32, n: i32, abi: Abi)
    ensures
        assemble(quant_matmul_q8_body_code(p0, p1, p2, m, k, n, abi)).len() <= 0x10_0000,
{
    lemma_size(quant_matmul_q8_body_elements(n), 12, 0);
    lemma_size(quant_matmul_q8_body_blocks(n, bytes_per_row(k)), 8, 384);
    lemma_size(quant_matmul_q8_body_columns(n, blocks_per_row(k), bytes_per_row(k)), 6, 3328);
    lemma_size(quant_matmul_q8_body_rows(n, blocks_per_row(k), bytes_per_row(k)), 1, 20160);
    lemma_size(quant_matmul_q8_body_code(p0, p1, p2, m, k, n, abi), 17, 20192);
}

proof fn lemma_q8_n1_size(p0: Reg, p1: Reg, p2: Reg, m: i32, k: i32, abi: Abi)
    ensures
        assemble(quant_matmul_q8_n1_body_code(p0, p1, p2, m, k, abi)).len() <= 0x10_0000,
{
    lemma_size(quant_matmul_q8_n1_body_blocks(bytes_per_row(k)), 26, 0);
    lemma_size(quant_matmul_q8_n1_body_rows(blocks_per_row(k), bytes_per_row(k)), 13, 832);
    lemma_size(quant_matmul_q8_n1_body_code(p0, p1, p2, m, k, abi), 19, 11232);
}

proof fn lemma_q8_n1_zmm_size(p0: Reg, p1: Reg, p2: Reg, m: i32, k: i32, abi: Abi)
    ensures
        assemble(quant_matmul_q8_n1_body_zmm_code(p0, p1, p2, m, k, abi)).len() <= 0x10_0000,
{
    lemma_size(quant_matmul_q8_n1_body_zmm_blocks(bytes_per_row(k)), 26, 0);
    lemma_size(quant_matmul_q8_n1_body_zmm_rows(blocks_per_row(k), bytes_per_row(k)), 13, 832);
    lemma_size(quant_matmul_q8_n1_body_zmm_code(p0, p1, p2, m, k, abi), 19, 11232);
}

proof fn lemma_q8q8_n1_size(p0: Reg, p1: Reg, p2: Reg, m: i32, k: i32, abi: Abi)
    ensures
        assemble(quant_matmul_q8q8_n1_body_code(p0, p1, p2, m, k, abi)).len() <= 0x10_0000,
{
    lemma_size(quant_matmul_q8q8_n1_body_blocks(bytes_per_row(k)), 26, 0);
    lemma_size(quant_matmul_q8q8_n1_body_rows(blocks_per_row(k), bytes_per_row(k)), 13, 832);
    lemma_size(quant_matmul_q8q8_n1_body_code(p0, p1, p2, m, k, abi), 19, 11232);
}

proof fn lemma_q8q8_vnni_size(p0: Reg, p1: Reg, p2: Reg, m: i32, k: i32, abi: Abi, form: VnniForm)
    ensures
        assemble(quant_matmul_q8q8_n1_body_vnni_code(p0, p1, p2, m, k, abi, form)).len() <= 0x10_0000,
{
    lemma_size(quant_matmul_q8q8_n1_body_vnni_blocks(form, bytes_per_row(k)), 21, 0);
    lemma_size(quant_matmul_q8q8_n1_body_vnni_rows(form, blocks_per_row(k), bytes_per_row(k)), 13, 672);
    lemma_size(quant_matmul_q8q8_n1_body_vnni_code(p0, p1, p2, m, k, abi, form), 19, 9152);
}

proof fn lemma_q8q8_vnni_4acc_size(p0: Reg, p1: Reg, p2: Reg, m: i32, k: i32, abi: Abi, form: VnniForm)
    ensures
        assemble(quant_matmul_q8q8_n1_body_vnni_4acc_code(p0, p1, p2, m, k, abi, form)).len() <= 0x10_0000,
{
    lemma_size(quant_matmul_q8q8_n1_body_vnni_4acc_blocks(form, bytes_per_row(k)), 64, 0);
    lemma_size(quant_matmul_q8q8_n1_body_vnni_4acc_rows(form, blocks_per_row(k), bytes_per_row(k)), 13, 2048);
    lemma_size(quant_matmul_q8q8_n1_body_vnni_4acc_code(p0, p1, p2, m, k, abi, form), 19, 27040);
}

proof fn lemma_rms_norm_size(
    p0: Reg,
    p1: Reg,
    p2: Reg,
    h: i32,
    inv_h: u32,
    eps: u32,
    abi: Abi,
)
    ensures
        assemble(rms_norm_body_code(p0, p1, p2, h, inv_h, eps, abi)).len() <= 0x10_0000,
{
    lemma_size(rms_norm_body_squares(), 5, 0);
    lemma_size(rms_norm_body_lanes(), 5, 0);
    lemma_size(rms_norm_body_code(p0, p1, p2, h, inv_h, eps, abi), 30, 160);
}

proof fn lemma_dequant_size(p0: Reg, p1: Reg, blocks: i32, abi: Abi)
    ensures
        assemble(dequant_q8_body_code(p0, p1, blocks, abi)).len() <= 0x10_0000,
{
    lemma_size(dequant_q8_body_blocks(), 23, 0);
    lemma_size(dequant_q8_body_code(p0, p1, blocks, abi), 12, 736);
}

// ---- selected kernels -----------------------------------------------------------------

pub(crate) proof fn lemma_matmul_kernel_size(
    lhs: Reg,
    rhs: Reg,
    out: Reg,
    m: u32,
    k: u32,
    n: u32,
    abi: Abi,
    avx2: bool,
)
    ensures
        assemble(matmul_kernel(lhs, rhs, out, m, k, n, abi, avx2)).len() <= 0x10_0000,
{
    let (mi, ki, ni) = (m as i32, k as i32, n as i32);
    lemma_matmul_tile_size(lhs, rhs, out, mi, ki, ni, abi);
    lemma_matmul_1xn_size(lhs, rhs, out, ki, ni, abi);
    lemma_matmul_avx2_size(lhs, rhs, out, mi, ki, ni, abi);
    lemma_matmul_body_size(lhs, rhs, out, mi, ki, ni, abi);
}

pub(crate) proof fn lemma_q8_kernel_size(
    w: Reg,
    a: Reg,
    out: Reg,
    m: u32,
    k: u32,
    n: u32,
    abi: Abi,
    use_avx512: bool,
)
    ensures
        assemble(q8_kernel(w, a, out, m, k, n, abi, use_avx512)).len() <= 0x10_0000,
{
    let (mi, ki, ni) = (m as i32, k as i32, n as i32);
    lemma_q8_size(w, a, out, mi, ki, ni, abi);
    lemma_q8_n1_size(w, a, out, mi, ki, abi);
    lemma_q8_n1_zmm_size(w, a, out, mi, ki, abi);
}

pub(crate) proof fn lemma_q8q8_kernel_size(
    w: Reg,
    a: Reg,
    out: Reg,
    m: u32,
    k: u32,
    abi: Abi,
    vnni: Option<VnniForm>,
)
    ensures
        assemble(q8q8_kernel(w, a, out, m, k, abi, vnni)).len() <= 0x10_0000,
{
    let (mi, ki) = (m as i32, k as i32);
    match vnni {
        Some(form) => {
            lemma_q8q8_vnni_size(w, a, out, mi, ki, abi, form);
            lemma_q8q8_vnni_4acc_size(w, a, out, mi, ki, abi, form);
        },
        None => {
            lemma_q8q8_n1_size(w, a, out, mi, ki, abi);
        },
    }
}

/// Whatever a function compiles to, its machine code takes at most a mebibyte:
/// every jump in it fits the 32 bits that it has.
pub proof fn lemma_machine_code_size(
    f: Function,
    abi: Abi,
    avx2: bool,
    vnni: Option<VnniForm>,
    use_avx512: bool,
)
    ensures
        function_lowering(f, abi, avx2, vnni, use_avx512) matches FunctionLowering::Emits(
            code,
        ) ==> assemble(code).len() <= 0x10_0000,
{
    assert forall|lhs: Reg, rhs: Reg, out: Reg, m: u32, k: u32, n: u32|
        assemble(#[trigger] matmul_kernel(lhs, rhs, out, m, k, n, abi, avx2)).len()
            <= 0x10_0000 by {
        lemma_matmul_kernel_size(lhs, rhs, out, m, k, n, abi, avx2);
    }
    assert forall|w: Reg, a: Reg, out: Reg, m: u32, k: u32, n: u32|
        assemble(#[trigger] q8_kernel(w, a, out, m, k, n, abi, use_avx512)).len()
            <= 0x10_0000 by {
        lemma_q8_kernel_size(w, a, out, m, k, n, abi, use_avx512);
    }
    assert forall|w: Reg, a: Reg, out: Reg, m: u32, k: u32|
        assemble(#[trigger] q8q8_kernel(w, a, out, m, k, abi, vnni)).len() <= 0x10_0000 by {
        lemma_q8q8_kernel_size(w, a, out, m, k, abi, vnni);
    }
    assert forall|x: Reg, w: Reg, out: Reg, h: i32, inv_h: u32, eps: u32|
        assemble(#[trigger] rms_norm_body_code(x, w, out, h, inv_h, eps, abi)).len()
            <= 0x10_0000 by {
        lemma_rms_norm_size(x, w, out, h, inv_h, eps, abi);
    }
    assert forall|p: Reg, q: Reg, blocks: i32|
        assemble(#[trigger] dequant_q8_body_code(p, q, blocks, abi)).len() <= 0x10_0000 by {
        lemma_dequant_size(p, q, blocks, abi);
    }
}

/// The machine code of a function, entered at its first byte, does what its
/// structured code does, jump by jump.
pub proof fn lemma_machine_code_runs(
    f: Function,
    abi: Abi,
    avx2: bool,
    vnni: Option<VnniForm>,
    use_avx512: bool,
    fpu: Fpu,
    fuel: nat,
    s: Machine,
)
    requires
        function_lowering(f, abi, avx2, vnni, use_avx512) matches FunctionLowering::Emits(
            code,
        ) && run(code, fpu, fuel, s) is Some,
    ensures
        ({
            let code = function_lowering(f, abi, avx2, vnni, use_avx512)->Emits_0;
            let bytes = assemble(code);
            leads(bytes, fpu, 0, s, bytes.len() as int, run(code, fpu, fuel, s)->0)
        }),
{
    let code = function_lowering(f, abi, avx2, vnni, use_avx512)->Emits_0;
    let bytes = assemble(code);
    lemma_machine_code_size(f, abi, avx2, vnni, use_avx512);
    assert(bytes.subrange(0, bytes.len() as int) =~= bytes);
    lemma_bytes_run(bytes, 0, code, fpu, fuel, s);
}

} // verus!
