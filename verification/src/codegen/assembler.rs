//! Structured machine code: instructions, counted loops, and the assembler
//! that turns them into bytes.

use crate::bytes::{le_bytes, lemma_le_bytes_len, wrap32};
use crate::codegen::avx2_enc::{
    Ymm, Zmm, enc_vaddps_reg, enc_vaddps_zmm_reg, enc_vaddss_xmm, enc_vbroadcastss,
    enc_vbroadcastss_xmm, enc_vbroadcastss_zmm_xmm, enc_vcvtdq2ps, enc_vcvtdq2ps_zmm,
    enc_vcvtph2ps_xmm, enc_vcvtsi2ss_xmm_r32, enc_vdivss_xmm, enc_vextractf128_xmm,
    enc_vextractf32x8_zmm, enc_vfmadd231ps_mem, enc_vfmadd231ps_reg, enc_vfmadd231ps_zmm_mem,
    enc_vhaddps_ymm, enc_vmovd_load, enc_vmovd_load_reg, enc_vmovdqu_load, enc_vmovups_load,
    enc_vmovups_store, enc_vmulps_reg, enc_vmulps_zmm_reg, enc_vmulss_xmm, enc_vpcmpeqd_reg,
    enc_vpdpbusd_evex_reg, enc_vpdpbusd_vex_reg, enc_vpmaddubsw_reg, enc_vpmaddwd_reg,
    enc_vpmovsxbd_load, enc_vpmovsxbd_zmm_load, enc_vpsignb_reg, enc_vpsrlw_imm8,
    enc_vsqrtss_xmm, enc_vxorps_zero, enc_vxorps_zmm_zero, vaddps_reg, vaddps_zmm_reg,
    vaddss_xmm, vbroadcastss, vbroadcastss_xmm, vbroadcastss_zmm_xmm, vcvtdq2ps, vcvtdq2ps_zmm,
    vcvtph2ps_xmm, vcvtsi2ss_xmm_r32, vdivss_xmm, vextractf128_xmm, vextractf32x8_zmm,
    vfmadd231ps_mem, vfmadd231ps_reg, vfmadd231ps_zmm_mem, vhaddps_ymm, vmovd_load,
    vmovd_load_reg, vmovdqu_load, vmovups_load, vmovups_store, vmulps_reg, vmulps_zmm_reg,
    vmulss_xmm, vpcmpeqd_reg, vpdpbusd_evex_reg, vpdpbusd_vex_reg, vpmaddubsw_reg, vpmaddwd_reg,
    vpmovsxbd_load, vpmovsxbd_zmm_load, vpsignb_reg, vpsrlw_imm8, vsqrtss_xmm, vxorps_zero,
    vxorps_zmm_zero,
};
use crate::codegen::emit::{patched, Emitter};
use crate::codegen::x86_64_enc::{
    Cond, Reg, Scale, Xmm, add_ri32, add_rr, addss_xmm, cmp_ri32, enc_add_ri32, enc_add_rr,
    enc_addss_xmm, enc_cmp_ri32, enc_imul_rri32, enc_inc_r, enc_jcc_rel32, enc_jmp_rel32,
    enc_mov_ri32, enc_mov_rr, enc_movss_load, enc_movss_store, enc_movsx_r32_m8, enc_mulss_load,
    enc_pop_r64, enc_push_r64, enc_ret, enc_sub_ri32, enc_xor_rr, enc_xorps_self, imul_rri32,
    inc_r, jcc_rel32_placeholder, jmp_rel32_placeholder, mov_ri32, mov_rr, movss_load, movss_store,
    movsx_r32_m8, mulss_load, patch_rel32, pop_r64, push_r64, ret, sub_ri32, xor_rr, xorps_self,
};
use vstd::prelude::*;

verus! {

/// The memory operand `[base + idx*scale + disp]`.
#[derive(Copy, Clone, Debug, PartialEq, Eq, Structural)]
pub struct Mem {
    pub base: Reg,
    pub idx: Reg,
    pub scale: Scale,
    pub disp: i32,
}

impl Mem {
    /// The index part of the operand, as the encoders take it.
    #[verifier::when_used_as_spec(spec_index)]
    pub fn index(&self) -> (i: Option<(Reg, Scale)>)
        ensures
            i == self.spec_index(),
    {
        Some((self.idx, self.scale))
    }

    /// The index part of the operand.
    pub open spec fn spec_index(&self) -> Option<(Reg, Scale)> {
        Some((self.idx, self.scale))
    }
}

/// The memory operand `[base + idx*scale + disp]`.
pub open spec fn spec_at(base: Reg, idx: Reg, scale: Scale, disp: i32) -> Mem {
    Mem { base, idx, scale, disp }
}

/// The memory operand `[base + idx*scale + disp]`.
#[verifier::when_used_as_spec(spec_at)]
pub fn at(base: Reg, idx: Reg, scale: Scale, disp: i32) -> (m: Mem)
    ensures
        m == spec_at(base, idx, scale, disp),
{
    Mem { base, idx, scale, disp }
}

/// Instructions on general-purpose registers.
#[derive(Copy, Clone, Debug, PartialEq, Eq, Structural)]
pub enum IntInst {
    /// See `push_r64`.
    Push(Reg),
    /// See `pop_r64`.
    Pop(Reg),
    /// See `ret`.
    Ret,
    /// See `mov_rr`.
    MovRR(Reg, Reg),
    /// See `mov_ri32`.
    MovRI32(Reg, u32),
    /// See `add_rr`.
    AddRR(Reg, Reg),
    /// See `add_ri32`.
    AddRI(Reg, i32),
    /// See `sub_ri32`.
    SubRI(Reg, i32),
    /// See `imul_rri32`.
    ImulRRI(Reg, Reg, i32),
    /// See `movsx_r32_m8`.
    MovsxR32M8(Reg, Mem),
}

/// The bytes of one such instruction.
pub open spec fn int_inst_bytes(inst: IntInst) -> Seq<u8> {
    match inst {
        IntInst::Push(a) => enc_push_r64(a),
        IntInst::Pop(a) => enc_pop_r64(a),
        IntInst::Ret => enc_ret(),
        IntInst::MovRR(a, b) => enc_mov_rr(a, b),
        IntInst::MovRI32(a, b) => enc_mov_ri32(a, b),
        IntInst::AddRR(a, b) => enc_add_rr(a, b),
        IntInst::AddRI(a, b) => enc_add_ri32(a, b),
        IntInst::SubRI(a, b) => enc_sub_ri32(a, b),
        IntInst::ImulRRI(a, b, c) => enc_imul_rri32(a, b, c),
        IntInst::MovsxR32M8(a, m) => enc_movsx_r32_m8(a, m.base, m.index(), m.disp),
    }
}

fn emit_int_inst(em: &mut Emitter, inst: IntInst)
    ensures
        final(em)@ == old(em)@ + int_inst_bytes(inst),
{
    match inst {
        IntInst::Push(a) => push_r64(em, a),
        IntInst::Pop(a) => pop_r64(em, a),
        IntInst::Ret => ret(em),
        IntInst::MovRR(a, b) => mov_rr(em, a, b),
        IntInst::MovRI32(a, b) => mov_ri32(em, a, b),
        IntInst::AddRR(a, b) => add_rr(em, a, b),
        IntInst::AddRI(a, b) => add_ri32(em, a, b),
        IntInst::SubRI(a, b) => sub_ri32(em, a, b),
        IntInst::ImulRRI(a, b, c) => imul_rri32(em, a, b, c),
        IntInst::MovsxR32M8(a, m) => movsx_r32_m8(em, a, m.base, m.index(), m.disp),
    }
}

/// SSE scalar instructions.
#[derive(Copy, Clone, Debug, PartialEq, Eq, Structural)]
pub enum SseInst {
    /// See `movss_load`.
    MovssLoad(Xmm, Mem),
    /// See `movss_store`.
    MovssStore(Xmm, Mem),
    /// See `mulss_load`.
    MulssLoad(Xmm, Mem),
    /// See `addss_xmm`.
    AddssXmm(Xmm, Xmm),
    /// See `xorps_self`.
    XorpsSelf(Xmm),
}

/// The bytes of one such instruction.
pub open spec fn sse_inst_bytes(inst: SseInst) -> Seq<u8> {
    match inst {
        SseInst::MovssLoad(a, m) => enc_movss_load(a, m.base, m.index(), m.disp),
        SseInst::MovssStore(a, m) => enc_movss_store(a, m.base, m.index(), m.disp),
        SseInst::MulssLoad(a, m) => enc_mulss_load(a, m.base, m.index(), m.disp),
        SseInst::AddssXmm(a, b) => enc_addss_xmm(a, b),
        SseInst::XorpsSelf(a) => enc_xorps_self(a),
    }
}

fn emit_sse_inst(em: &mut Emitter, inst: SseInst)
    ensures
        final(em)@ == old(em)@ + sse_inst_bytes(inst),
{
    match inst {
        SseInst::MovssLoad(a, m) => movss_load(em, a, m.base, m.index(), m.disp),
        SseInst::MovssStore(a, m) => movss_store(em, a, m.base, m.index(), m.disp),
        SseInst::MulssLoad(a, m) => mulss_load(em, a, m.base, m.index(), m.disp),
        SseInst::AddssXmm(a, b) => addss_xmm(em, a, b),
        SseInst::XorpsSelf(a) => xorps_self(em, a),
    }
}

/// AVX instructions with a memory operand.
#[derive(Copy, Clone, Debug, PartialEq, Eq, Structural)]
pub enum MemInst {
    /// See `vmovups_load`.
    VmovupsLoad(Ymm, Mem),
    /// See `vmovups_store`.
    VmovupsStore(Ymm, Mem),
    /// See `vbroadcastss`.
    Vbroadcastss(Ymm, Mem),
    /// See `vfmadd231ps_mem`.
    Vfmadd231psMem(Ymm, Ymm, Mem),
    /// See `vmovd_load`.
    VmovdLoad(Ymm, Mem),
    /// See `vpmovsxbd_load`.
    VpmovsxbdLoad(Ymm, Mem),
    /// See `vmovdqu_load`.
    VmovdquLoad(Ymm, Mem),
}

/// The bytes of one such instruction.
pub open spec fn mem_inst_bytes(inst: MemInst) -> Seq<u8> {
    match inst {
        MemInst::VmovupsLoad(a, m) => enc_vmovups_load(a, m.base, m.index(), m.disp),
        MemInst::VmovupsStore(a, m) => enc_vmovups_store(a, m.base, m.index(), m.disp),
        MemInst::Vbroadcastss(a, m) => enc_vbroadcastss(a, m.base, m.index(), m.disp),
        MemInst::Vfmadd231psMem(a, b, m) => enc_vfmadd231ps_mem(a, b, m.base, m.index(), m.disp),
        MemInst::VmovdLoad(a, m) => enc_vmovd_load(a, m.base, m.index(), m.disp),
        MemInst::VpmovsxbdLoad(a, m) => enc_vpmovsxbd_load(a, m.base, m.index(), m.disp),
        MemInst::VmovdquLoad(a, m) => enc_vmovdqu_load(a, m.base, m.index(), m.disp),
    }
}

fn emit_mem_inst(em: &mut Emitter, inst: MemInst)
    ensures
        final(em)@ == old(em)@ + mem_inst_bytes(inst),
{
    match inst {
        MemInst::VmovupsLoad(a, m) => vmovups_load(em, a, m.base, m.index(), m.disp),
        MemInst::VmovupsStore(a, m) => vmovups_store(em, a, m.base, m.index(), m.disp),
        MemInst::Vbroadcastss(a, m) => vbroadcastss(em, a, m.base, m.index(), m.disp),
        MemInst::Vfmadd231psMem(a, b, m) => vfmadd231ps_mem(em, a, b, m.base, m.index(), m.disp),
        MemInst::VmovdLoad(a, m) => vmovd_load(em, a, m.base, m.index(), m.disp),
        MemInst::VpmovsxbdLoad(a, m) => vpmovsxbd_load(em, a, m.base, m.index(), m.disp),
        MemInst::VmovdquLoad(a, m) => vmovdqu_load(em, a, m.base, m.index(), m.disp),
    }
}

/// AVX instructions on packed or scalar floats in registers.
#[derive(Copy, Clone, Debug, PartialEq, Eq, Structural)]
pub enum FloatInst {
    /// See `vxorps_zero`.
    VxorpsZero(Ymm),
    /// See `vbroadcastss_xmm`.
    VbroadcastssXmm(Ymm, Ymm),
    /// See `vfmadd231ps_reg`.
    Vfmadd231psReg(Ymm, Ymm, Ymm),
    /// See `vmulps_reg`.
    VmulpsReg(Ymm, Ymm, Ymm),
    /// See `vaddps_reg`.
    VaddpsReg(Ymm, Ymm, Ymm),
    /// See `vhaddps_ymm`.
    VhaddpsYmm(Ymm, Ymm, Ymm),
    /// See `vextractf128_xmm`.
    Vextractf128Xmm(Ymm, Ymm, u8),
    /// See `vsqrtss_xmm`.
    VsqrtssXmm(Ymm, Ymm, Ymm),
    /// See `vdivss_xmm`.
    VdivssXmm(Ymm, Ymm, Ymm),
    /// See `vaddss_xmm`.
    VaddssXmm(Ymm, Ymm, Ymm),
    /// See `vmulss_xmm`.
    VmulssXmm(Ymm, Ymm, Ymm),
}

/// The bytes of one such instruction.
pub open spec fn float_inst_bytes(inst: FloatInst) -> Seq<u8> {
    match inst {
        FloatInst::VxorpsZero(a) => enc_vxorps_zero(a),
        FloatInst::VbroadcastssXmm(a, b) => enc_vbroadcastss_xmm(a, b),
        FloatInst::Vfmadd231psReg(a, b, c) => enc_vfmadd231ps_reg(a, b, c),
        FloatInst::VmulpsReg(a, b, c) => enc_vmulps_reg(a, b, c),
        FloatInst::VaddpsReg(a, b, c) => enc_vaddps_reg(a, b, c),
        FloatInst::VhaddpsYmm(a, b, c) => enc_vhaddps_ymm(a, b, c),
        FloatInst::Vextractf128Xmm(a, b, c) => enc_vextractf128_xmm(a, b, c),
        FloatInst::VsqrtssXmm(a, b, c) => enc_vsqrtss_xmm(a, b, c),
        FloatInst::VdivssXmm(a, b, c) => enc_vdivss_xmm(a, b, c),
        FloatInst::VaddssXmm(a, b, c) => enc_vaddss_xmm(a, b, c),
        FloatInst::VmulssXmm(a, b, c) => enc_vmulss_xmm(a, b, c),
    }
}

fn emit_float_inst(em: &mut Emitter, inst: FloatInst)
    ensures
        final(em)@ == old(em)@ + float_inst_bytes(inst),
{
    match inst {
        FloatInst::VxorpsZero(a) => vxorps_zero(em, a),
        FloatInst::VbroadcastssXmm(a, b) => vbroadcastss_xmm(em, a, b),
        FloatInst::Vfmadd231psReg(a, b, c) => vfmadd231ps_reg(em, a, b, c),
        FloatInst::VmulpsReg(a, b, c) => vmulps_reg(em, a, b, c),
        FloatInst::VaddpsReg(a, b, c) => vaddps_reg(em, a, b, c),
        FloatInst::VhaddpsYmm(a, b, c) => vhaddps_ymm(em, a, b, c),
        FloatInst::Vextractf128Xmm(a, b, c) => vextractf128_xmm(em, a, b, c),
        FloatInst::VsqrtssXmm(a, b, c) => vsqrtss_xmm(em, a, b, c),
        FloatInst::VdivssXmm(a, b, c) => vdivss_xmm(em, a, b, c),
        FloatInst::VaddssXmm(a, b, c) => vaddss_xmm(em, a, b, c),
        FloatInst::VmulssXmm(a, b, c) => vmulss_xmm(em, a, b, c),
    }
}

/// AVX moves and conversions between registers.
#[derive(Copy, Clone, Debug, PartialEq, Eq, Structural)]
pub enum ConvInst {
    /// See `vmovd_load_reg`.
    VmovdLoadReg(Ymm, Reg),
    /// See `vcvtph2ps_xmm`.
    Vcvtph2psXmm(Ymm, Ymm),
    /// See `vcvtdq2ps`.
    Vcvtdq2ps(Ymm, Ymm),
    /// See `vcvtsi2ss_xmm_r32`.
    Vcvtsi2ssXmmR32(Ymm, Ymm, Reg),
}

/// The bytes of one such instruction.
pub open spec fn conv_inst_bytes(inst: ConvInst) -> Seq<u8> {
    match inst {
        ConvInst::VmovdLoadReg(a, b) => enc_vmovd_load_reg(a, b),
        ConvInst::Vcvtph2psXmm(a, b) => enc_vcvtph2ps_xmm(a, b),
        ConvInst::Vcvtdq2ps(a, b) => enc_vcvtdq2ps(a, b),
        ConvInst::Vcvtsi2ssXmmR32(a, b, c) => enc_vcvtsi2ss_xmm_r32(a, b, c),
    }
}

fn emit_conv_inst(em: &mut Emitter, inst: ConvInst)
    ensures
        final(em)@ == old(em)@ + conv_inst_bytes(inst),
{
    match inst {
        ConvInst::VmovdLoadReg(a, b) => vmovd_load_reg(em, a, b),
        ConvInst::Vcvtph2psXmm(a, b) => vcvtph2ps_xmm(em, a, b),
        ConvInst::Vcvtdq2ps(a, b) => vcvtdq2ps(em, a, b),
        ConvInst::Vcvtsi2ssXmmR32(a, b, c) => vcvtsi2ss_xmm_r32(em, a, b, c),
    }
}

/// AVX2 and VNNI instructions on packed integers.
#[derive(Copy, Clone, Debug, PartialEq, Eq, Structural)]
pub enum ByteInst {
    /// See `vpsignb_reg`.
    VpsignbReg(Ymm, Ymm, Ymm),
    /// See `vpmaddubsw_reg`.
    VpmaddubswReg(Ymm, Ymm, Ymm),
    /// See `vpmaddwd_reg`.
    VpmaddwdReg(Ymm, Ymm, Ymm),
    /// See `vpcmpeqd_reg`.
    VpcmpeqdReg(Ymm, Ymm, Ymm),
    /// See `vpsrlw_imm8`.
    VpsrlwImm8(Ymm, Ymm, u8),
    /// See `vpdpbusd_vex_reg`.
    VpdpbusdVexReg(Ymm, Ymm, Ymm),
    /// See `vpdpbusd_evex_reg`.
    VpdpbusdEvexReg(Ymm, Ymm, Ymm),
}

/// The bytes of one such instruction.
pub open spec fn byte_inst_bytes(inst: ByteInst) -> Seq<u8> {
    match inst {
        ByteInst::VpsignbReg(a, b, c) => enc_vpsignb_reg(a, b, c),
        ByteInst::VpmaddubswReg(a, b, c) => enc_vpmaddubsw_reg(a, b, c),
        ByteInst::VpmaddwdReg(a, b, c) => enc_vpmaddwd_reg(a, b, c),
        ByteInst::VpcmpeqdReg(a, b, c) => enc_vpcmpeqd_reg(a, b, c),
        ByteInst::VpsrlwImm8(a, b, c) => enc_vpsrlw_imm8(a, b, c),
        ByteInst::VpdpbusdVexReg(a, b, c) => enc_vpdpbusd_vex_reg(a, b, c),
        ByteInst::VpdpbusdEvexReg(a, b, c) => enc_vpdpbusd_evex_reg(a, b, c),
    }
}

fn emit_byte_inst(em: &mut Emitter, inst: ByteInst)
    ensures
        final(em)@ == old(em)@ + byte_inst_bytes(inst),
{
    match inst {
        ByteInst::VpsignbReg(a, b, c) => vpsignb_reg(em, a, b, c),
        ByteInst::VpmaddubswReg(a, b, c) => vpmaddubsw_reg(em, a, b, c),
        ByteInst::VpmaddwdReg(a, b, c) => vpmaddwd_reg(em, a, b, c),
        ByteInst::VpcmpeqdReg(a, b, c) => vpcmpeqd_reg(em, a, b, c),
        ByteInst::VpsrlwImm8(a, b, c) => vpsrlw_imm8(em, a, b, c),
        ByteInst::VpdpbusdVexReg(a, b, c) => vpdpbusd_vex_reg(em, a, b, c),
        ByteInst::VpdpbusdEvexReg(a, b, c) => vpdpbusd_evex_reg(em, a, b, c),
    }
}

/// AVX-512 instructions.
#[derive(Copy, Clone, Debug, PartialEq, Eq, Structural)]
pub enum ZmmInst {
    /// See `vxorps_zmm_zero`.
    VxorpsZmmZero(Zmm),
    /// See `vaddps_zmm_reg`.
    VaddpsZmmReg(Zmm, Zmm, Zmm),
    /// See `vmulps_zmm_reg`.
    VmulpsZmmReg(Zmm, Zmm, Zmm),
    /// See `vcvtdq2ps_zmm`.
    Vcvtdq2psZmm(Zmm, Zmm),
    /// See `vbroadcastss_zmm_xmm`.
    VbroadcastssZmmXmm(Zmm, Zmm),
    /// See `vpmovsxbd_zmm_load`.
    VpmovsxbdZmmLoad(Zmm, Mem),
    /// See `vfmadd231ps_zmm_mem`.
    Vfmadd231psZmmMem(Zmm, Zmm, Mem),
    /// See `vextractf32x8_zmm`.
    Vextractf32x8Zmm(Ymm, Zmm, u8),
}

/// The bytes of one such instruction.
pub open spec fn zmm_inst_bytes(inst: ZmmInst) -> Seq<u8> {
    match inst {
        ZmmInst::VxorpsZmmZero(a) => enc_vxorps_zmm_zero(a),
        ZmmInst::VaddpsZmmReg(a, b, c) => enc_vaddps_zmm_reg(a, b, c),
        ZmmInst::VmulpsZmmReg(a, b, c) => enc_vmulps_zmm_reg(a, b, c),
        ZmmInst::Vcvtdq2psZmm(a, b) => enc_vcvtdq2ps_zmm(a, b),
        ZmmInst::VbroadcastssZmmXmm(a, b) => enc_vbroadcastss_zmm_xmm(a, b),
        ZmmInst::VpmovsxbdZmmLoad(a, m) => enc_vpmovsxbd_zmm_load(a, m.base, m.index(), m.disp),
        ZmmInst::Vfmadd231psZmmMem(a, b, m) => enc_vfmadd231ps_zmm_mem(a, b, m.base, m.index(), m.disp),
        ZmmInst::Vextractf32x8Zmm(a, b, c) => enc_vextractf32x8_zmm(a, b, c),
    }
}

fn emit_zmm_inst(em: &mut Emitter, inst: ZmmInst)
    ensures
        final(em)@ == old(em)@ + zmm_inst_bytes(inst),
{
    match inst {
        ZmmInst::VxorpsZmmZero(a) => vxorps_zmm_zero(em, a),
        ZmmInst::VaddpsZmmReg(a, b, c) => vaddps_zmm_reg(em, a, b, c),
        ZmmInst::VmulpsZmmReg(a, b, c) => vmulps_zmm_reg(em, a, b, c),
        ZmmInst::Vcvtdq2psZmm(a, b) => vcvtdq2ps_zmm(em, a, b),
        ZmmInst::VbroadcastssZmmXmm(a, b) => vbroadcastss_zmm_xmm(em, a, b),
        ZmmInst::VpmovsxbdZmmLoad(a, m) => vpmovsxbd_zmm_load(em, a, m.base, m.index(), m.disp),
        ZmmInst::Vfmadd231psZmmMem(a, b, m) => vfmadd231ps_zmm_mem(em, a, b, m.base, m.index(), m.disp),
        ZmmInst::Vextractf32x8Zmm(a, b, c) => vextractf32x8_zmm(em, a, b, c),
    }
}

/// One instruction with its operands.
#[derive(Copy, Clone, Debug, PartialEq, Eq, Structural)]
pub enum Inst {
    Int(IntInst),
    Sse(SseInst),
    Mem(MemInst),
    Float(FloatInst),
    Conv(ConvInst),
    Byte(ByteInst),
    Zmm(ZmmInst),
}

/// The bytes of one instruction.
pub open spec fn inst_bytes(inst: Inst) -> Seq<u8> {
    match inst {
        Inst::Int(i) => int_inst_bytes(i),
        Inst::Sse(i) => sse_inst_bytes(i),
        Inst::Mem(i) => mem_inst_bytes(i),
        Inst::Float(i) => float_inst_bytes(i),
        Inst::Conv(i) => conv_inst_bytes(i),
        Inst::Byte(i) => byte_inst_bytes(i),
        Inst::Zmm(i) => zmm_inst_bytes(i),
    }
}

/// Appends one instruction.
pub fn emit_inst(em: &mut Emitter, inst: Inst)
    ensures
        final(em)@ == old(em)@ + inst_bytes(inst),
{
    match inst {
        Inst::Int(i) => emit_int_inst(em, i),
        Inst::Sse(i) => emit_sse_inst(em, i),
        Inst::Mem(i) => emit_mem_inst(em, i),
        Inst::Float(i) => emit_float_inst(em, i),
        Inst::Conv(i) => emit_conv_inst(em, i),
        Inst::Byte(i) => emit_byte_inst(em, i),
        Inst::Zmm(i) => emit_zmm_inst(em, i),
    }
}

/// A piece of structured code: an instruction, or a loop that counts `ctr`
/// from 0 in steps of `step` while it is below `bound`.
pub enum Code {
    Op(Inst),
    Loop { ctr: Reg, bound: i32, step: i32, body: Seq<Code> },
}

/// How a loop advances its counter.
pub open spec fn step_bytes(ctr: Reg, step: i32) -> Seq<u8> {
    if step == 1 {
        enc_inc_r(ctr)
    } else {
        enc_add_ri32(ctr, step)
    }
}

/// The bytes of a loop around `body`:
///
/// ```text
///       xor ctr, ctr
/// head: cmp ctr, bound
///       jge done
///       body
///       add ctr, step
///       jmp head
/// done:
/// ```
pub open spec fn loop_bytes(ctr: Reg, bound: i32, step: i32, body: Seq<u8>) -> Seq<u8> {
    let test = enc_cmp_ri32(ctr, bound);
    let work = body + step_bytes(ctr, step);
    enc_xor_rr(ctr) + test + enc_jcc_rel32(Cond::GreaterOrEqual, 5int + work.len()) + work
        + enc_jmp_rel32(-(test.len() + 6 + 5int + work.len()))
}

/// The bytes of one piece of code.
pub open spec fn code_bytes(c: Code) -> Seq<u8>
    decreases c,
{
    match c {
        Code::Op(inst) => inst_bytes(inst),
        Code::Loop { ctr, bound, step, body } => loop_bytes(ctr, bound, step, assemble(body)),
    }
}

/// The bytes of a sequence of code, one piece after the other.
pub open spec fn assemble(code: Seq<Code>) -> Seq<u8>
    decreases code,
{
    if code.len() == 0 {
        Seq::empty()
    } else {
        assemble(code.drop_last()) + code_bytes(code.last())
    }
}

/// Appending a piece of code appends its bytes.
pub(crate) proof fn lemma_assemble_push(code: Seq<Code>, c: Code)
    ensures
        assemble(code.push(c)) == assemble(code) + code_bytes(c),
{
    assert(code.push(c).drop_last() =~= code);
}

/// A loop whose body is being emitted.
pub struct OpenLoop {
    pub ctr: Reg,
    pub bound: i32,
    /// The code before the loop.
    pub before: Seq<Code>,
}

/// The bytes of a loop up to its body, with the exit jump not yet resolved.
pub open spec fn loop_head(ctr: Reg, bound: i32) -> Seq<u8> {
    enc_xor_rr(ctr) + enc_cmp_ri32(ctr, bound) + enc_jcc_rel32(Cond::GreaterOrEqual, 0)
}

/// The bytes emitted while the loops `open` are open, before the code of the
/// innermost one.
pub open spec fn pending_bytes(open: Seq<OpenLoop>) -> Seq<u8>
    decreases open.len(),
{
    if open.len() == 0 {
        Seq::empty()
    } else {
        let l = open.last();
        pending_bytes(open.drop_last()) + assemble(l.before) + loop_head(l.ctr, l.bound)
    }
}

/// Resolving the two jumps of a loop: the back jump to the test, then the exit
/// jump to the end.
proof fn lemma_close_loop(pre: Seq<u8>, x: Seq<u8>, test: Seq<u8>, work: Seq<u8>)
    ensures
        ({
            let head = 0int + pre.len() + x.len();
            let exit = head + test.len() + 2;
            let back = exit + 4 + work.len() + 1;
            let s0 = pre + x + test + enc_jcc_rel32(Cond::GreaterOrEqual, 0) + work
                + enc_jmp_rel32(0);
            let s1 = patched(s0, back, le_bytes(wrap32(head - (back + 4)), 4));
            let s2 = patched(s1, exit, le_bytes(wrap32(s1.len() - (exit + 4)), 4));
            &&& s0.len() == back + 4
            &&& s1.len() == s0.len()
            &&& s2 == pre + (x + test + enc_jcc_rel32(Cond::GreaterOrEqual, 5int + work.len())
                + work + enc_jmp_rel32(-(test.len() + 6 + 5int + work.len())))
        }),
{
    let head = 0int + pre.len() + x.len();
    let exit = head + test.len() + 2;
    let back = exit + 4 + work.len() + 1;
    let jcc0 = enc_jcc_rel32(Cond::GreaterOrEqual, 0);
    let jmp0 = enc_jmp_rel32(0);
    let to_head = le_bytes(wrap32(head - (back + 4)), 4);
    let to_end = le_bytes(wrap32(5int + work.len()), 4);
    lemma_le_bytes_len(wrap32(0), 4);
    lemma_le_bytes_len(wrap32(head - (back + 4)), 4);
    lemma_le_bytes_len(wrap32(5int + work.len()), 4);
    let s0 = pre + x + test + jcc0 + work + jmp0;
    let s1 = patched(s0, back, to_head);
    assert(s1 =~= pre + x + test + jcc0 + work + (seq![0xE9u8] + to_head));
    let s2 = patched(s1, exit, to_end);
    assert(s1.len() - (exit + 4) == 5int + work.len());
    assert(s2 =~= pre + (x + test + (seq![0x0Fu8, 0x8Du8] + to_end) + work + (seq![0xE9u8]
        + to_head)));
    assert(head - (back + 4) == -(test.len() + 6 + 5int + work.len()));
}

/// Where an open loop has its jumps.
pub struct Label {
    head: usize,
    exit: usize,
    outer: Ghost<Seq<OpenLoop>>,
}

/// An assembler: the bytes so far, and the structured code that they stand for.
pub struct Asm {
    em: Emitter,
    code: Ghost<Seq<Code>>,
    open: Ghost<Seq<OpenLoop>>,
}

impl Asm {
    /// The code emitted so far in the innermost open loop, or in the whole
    /// program where no loop is open.
    pub closed spec fn code(&self) -> Seq<Code> {
        self.code@
    }

    /// The loops that are open, outermost first.
    pub closed spec fn open(&self) -> Seq<OpenLoop> {
        self.open@
    }

    /// The bytes are those of the code.
    pub closed spec fn wf(&self) -> bool {
        self.em@ == pending_bytes(self.open@) + assemble(self.code@)
    }

    /// An assembler with nothing emitted yet.
    pub fn new() -> (a: Self)
        ensures
            a.wf(),
            a.code() == Seq::<Code>::empty(),
            a.open() == Seq::<OpenLoop>::empty(),
    {
        let a = Asm {
            em: Emitter::new(),
            code: Ghost(Seq::empty()),
            open: Ghost(Seq::empty()),
        };
        assert(pending_bytes(a.open@) + assemble(a.code@) =~= Seq::<u8>::empty());
        a
    }

    /// Emits one instruction.
    pub fn op(&mut self, inst: Inst)
        requires
            old(self).wf(),
        ensures
            final(self).wf(),
            final(self).code() == old(self).code().push(Code::Op(inst)),
            final(self).open() == old(self).open(),
    {
        emit_inst(&mut self.em, inst);
        proof {
            lemma_assemble_push(self.code@, Code::Op(inst));
            self.code@ = self.code@.push(Code::Op(inst));
        }
        assert(self.em@ =~= pending_bytes(self.open@) + assemble(self.code@));
    }

    /// Opens a loop that counts `ctr` from 0 up to `bound`.
    pub fn begin(&mut self, ctr: Reg, bound: i32) -> (label: Label)
        requires
            old(self).wf(),
        ensures
            final(self).wf(),
            final(self).code() == Seq::<Code>::empty(),
            final(self).open() == old(self).open().push(
                (OpenLoop { ctr, bound, before: old(self).code() }),
            ),
            label.outer() == old(self).open(),
            label.wf(final(self).open()),
    {
        let ghost before = self.em@;
        let ghost outer = self.open@;
        let ghost inner = OpenLoop { ctr, bound, before: self.code@ };
        xor_rr(&mut self.em, ctr);
        let head: usize = self.em.len();
        cmp_ri32(&mut self.em, ctr, bound);
        let exit: usize = jcc_rel32_placeholder(&mut self.em, Cond::GreaterOrEqual);
        proof {
            self.open@ = outer.push(inner);
            self.code@ = Seq::empty();
            assert(self.open@.drop_last() =~= outer);
            assert(self.em@ =~= before + loop_head(ctr, bound));
            assert(pending_bytes(self.open@) == pending_bytes(outer) + assemble(inner.before)
                + loop_head(ctr, bound));
            assert(self.em@ =~= pending_bytes(self.open@) + assemble(self.code@));
            assert(head == before.len() + enc_xor_rr(ctr).len());
            assert(before.len() == (pending_bytes(outer) + assemble(inner.before)).len());
        }
        Label { head, exit, outer: Ghost(outer) }
    }

    /// Closes the innermost open loop: advances its counter by `step` and
    /// jumps back to its test.
    pub fn end(&mut self, label: Label, ctr: Reg, step: i32)
        requires
            old(self).wf(),
            old(self).open().len() > 0,
            label.wf(old(self).open()),
            ctr == old(self).open().last().ctr,
        ensures
            final(self).wf(),
            final(self).open() == label.outer(),
            ({
                let l = old(self).open().last();
                final(self).code() == l.before.push(
                    (Code::Loop { ctr, bound: l.bound, step, body: old(self).code() }),
                )
            }),
    {
        let ghost l = self.open@.last();
        let ghost bound = l.bound;
        let ghost outer = label.outer@;
        let ghost body = self.code@;
        let ghost pre = pending_bytes(outer) + assemble(l.before);
        if step == 1 {
            inc_r(&mut self.em, ctr);
        } else {
            add_ri32(&mut self.em, ctr, step);
        }
        let back: usize = jmp_rel32_placeholder(&mut self.em);
        let ghost s0 = self.em@;
        patch_rel32(&mut self.em, back, label.head);
        let done: usize = self.em.len();
        patch_rel32(&mut self.em, label.exit, done);
        proof {
            let test = enc_cmp_ri32(ctr, bound);
            let work = assemble(body) + step_bytes(ctr, step);
            let x = enc_xor_rr(ctr);
            assert(s0 =~= pre + x + test + enc_jcc_rel32(Cond::GreaterOrEqual, 0) + work
                + enc_jmp_rel32(0));
            lemma_close_loop(pre, x, test, work);
            assert(self.em@ =~= pre + loop_bytes(ctr, bound, step, assemble(body)));
            let c = Code::Loop { ctr, bound, step, body };
            lemma_assemble_push(l.before, c);
            self.code@ = l.before.push(c);
            self.open@ = outer;
            assert(self.em@ =~= pending_bytes(self.open@) + assemble(self.code@));
        }
    }

    /// The bytes of the whole program.
    pub fn finish(self) -> (bytes: Vec<u8>)
        requires
            self.wf(),
            self.open().len() == 0,
        ensures
            bytes@ == assemble(self.code()),
    {
        assert(self.em@ =~= assemble(self.code@));
        self.em.buf
    }
}

impl Label {
    /// The loops around the one that the label belongs to.
    pub closed spec fn outer(&self) -> Seq<OpenLoop> {
        self.outer@
    }

    /// The label belongs to the innermost of the open loops.
    pub closed spec fn wf(&self, open: Seq<OpenLoop>) -> bool {
        let l = open.last();
        let start = (pending_bytes(open.drop_last()) + assemble(l.before)).len();
        let head = start + enc_xor_rr(l.ctr).len();
        &&& self.outer@ == open.drop_last()
        &&& self.head == head
        &&& self.exit == head + enc_cmp_ri32(l.ctr, l.bound).len() + 2
    }
}

} // verus!
