//! AVX2 (256-bit) and AVX-512 instruction encoder.
//!
//! AVX uses VEX prefixes instead of REX. Reference: Intel SDM Vol. 2A.
//!
//! ```text
//! 2-byte VEX: C5 [R vvvv L pp]            (only when X==0, B==0, W==0, opcode map 0F)
//! 3-byte VEX: C4 [R X B mmmmm] [W vvvv L pp]
//! EVEX:       62 [R X B R' 0 mmm] [W vvvv 1 pp] [z LL b V' aaa]
//! ```
//!
//! Field meanings:
//! - R/X/B  : like REX.R/X/B (inverted, so 1 means low reg, 0 means high)
//! - W      : like REX.W (0 in every operation emitted here)
//! - L      : 0 = 128-bit XMM operands, 1 = 256-bit YMM (LL = 2: 512-bit ZMM)
//! - pp     : mandatory legacy prefix (00=none, 01=0x66, 10=0xF3, 11=0xF2)
//! - mmmmm  : opcode map (00001=0F, 00010=0F38, 00011=0F3A)
//! - vvvv   : 4-bit second source register (inverted: ymm0 = 1111)
//!
//! Each encoder appends to the emitter exactly the bytes that the `enc_`
//! function of the same name gives for its operands.

use crate::codegen::emit::Emitter;
use crate::codegen::x86_64_enc::{
    emit_modrm_sib_disp32, high_of_index, index_high, mem_bytes, mem_ok, modrm, modrm_byte, Reg,
    Scale,
};
use vstd::prelude::*;

verus! {

/// 256-bit AVX register, 0..=15.
#[derive(Copy, Clone, Debug, PartialEq, Eq, Structural)]
pub struct Ymm(pub u8);

impl Ymm {
    /// Low 3 bits of the register number.
    pub fn low3(self) -> (n: u8)
        ensures
            n == self.0 % 8,
    {
        self.0 % 8
    }

    /// The bits of the register number above the low 3.
    pub fn high1(self) -> (n: u8)
        ensures
            n == self.0 / 8,
    {
        self.0 / 8
    }
}

/// 512-bit AVX-512 register, 0..=31.
#[derive(Copy, Clone, Debug, PartialEq, Eq, Structural)]
pub struct Zmm(pub u8);

/// Opcode map of a VEX or EVEX instruction.
#[derive(Copy, Clone, Debug, PartialEq, Eq, Structural)]
pub enum OpcodeMap {
    /// `0F`
    M0F,
    /// `0F 38`
    M0F38,
    /// `0F 3A`
    M0F3A,
}

impl OpcodeMap {
    /// The map-select bits.
    pub open spec fn num(self) -> u8 {
        match self {
            OpcodeMap::M0F => 0b00001,
            OpcodeMap::M0F38 => 0b00010,
            OpcodeMap::M0F3A => 0b00011,
        }
    }

    fn bits(self) -> (n: u8)
        ensures
            n == self.num(),
            n < 4,
    {
        match self {
            OpcodeMap::M0F => 0b00001,
            OpcodeMap::M0F38 => 0b00010,
            OpcodeMap::M0F3A => 0b00011,
        }
    }
}

/// Mandatory legacy prefix, as it is folded into VEX and EVEX.
#[derive(Copy, Clone, Debug, PartialEq, Eq, Structural)]
pub enum Prefix {
    /// No legacy prefix.
    NP,
    P66,
    PF3,
    PF2,
}

impl Prefix {
    /// The `pp` bits.
    pub open spec fn num(self) -> u8 {
        match self {
            Prefix::NP => 0b00,
            Prefix::P66 => 0b01,
            Prefix::PF3 => 0b10,
            Prefix::PF2 => 0b11,
        }
    }

    fn bits(self) -> (n: u8)
        ensures
            n == self.num(),
            n < 4,
    {
        match self {
            Prefix::NP => 0b00,
            Prefix::P66 => 0b01,
            Prefix::PF3 => 0b10,
            Prefix::PF2 => 0b11,
        }
    }
}

/// The VEX prefix with W = 0: two bytes where R is the only extension bit and
/// the opcode map is `0F`, three bytes otherwise. `r`, `x`, `b` are the raw
/// extension bits, `vvvv` the raw register; `wide` selects 256-bit operands.
pub open spec fn vex_bytes(
    r: u8,
    x: u8,
    b: u8,
    map: OpcodeMap,
    vvvv: u8,
    wide: bool,
    pp: Prefix,
) -> Seq<u8> {
    let last = 8 * (15 - vvvv % 16) + (if wide {
        4int
    } else {
        0int
    }) + pp.num();
    if x != 0 || b != 0 || map != OpcodeMap::M0F {
        seq![
            0xC4u8,
            (128 * (1 - r % 2) + 64 * (1 - x % 2) + 32 * (1 - b % 2) + map.num()) as u8,
            last as u8,
        ]
    } else {
        seq![0xC5u8, (128 * (1 - r % 2) + last) as u8]
    }
}

/// The EVEX prefix with W = 0, no masking and no broadcast. `reg` is the
/// 5-bit register in ModR/M.reg; `x` and `b` are the raw bits that extend the
/// other operand; `vvvv` is the raw 5-bit register; `ll` is 1 for 256-bit and
/// 2 for 512-bit operands.
pub open spec fn evex_bytes(
    reg: u8,
    x: u8,
    b: u8,
    map: OpcodeMap,
    vvvv: u8,
    ll: u8,
    pp: Prefix,
) -> Seq<u8> {
    seq![
        0x62u8,
        (128 * (1 - reg / 8 % 2) + 64 * (1 - x % 2) + 32 * (1 - b % 2) + 16 * (1 - reg / 16 % 2)
            + map.num()) as u8,
        (8 * (15 - vvvv % 16) + 4 + pp.num()) as u8,
        (32 * (ll % 4) + 8 * (1 - vvvv / 16 % 2)) as u8,
    ]
}

/// Emit a 2-byte or 3-byte VEX prefix depending on which extension bits are set.
fn emit_vex(
    em: &mut Emitter,
    r: u8,
    x: u8,
    b: u8,
    map: OpcodeMap,
    vvvv: u8,
    wide: bool,
    pp: Prefix,
)
    ensures
        final(em)@ == old(em)@ + vex_bytes(r, x, b, map, vvvv, wide, pp),
{
    let l_bit: u8 = if wide {
        4
    } else {
        0
    };
    let last: u8 = 8 * (15 - vvvv % 16) + l_bit + pp.bits();
    if x != 0 || b != 0 || map != OpcodeMap::M0F {
        em.u8(0xC4);
        em.u8(128 * (1 - r % 2) + 64 * (1 - x % 2) + 32 * (1 - b % 2) + map.bits());
        em.u8(last);
    } else {
        em.u8(0xC5);
        em.u8(128 * (1 - r % 2) + last);
    }
}

/// Emit a 4-byte EVEX prefix.
fn emit_evex(
    em: &mut Emitter,
    reg: u8,
    x: u8,
    b: u8,
    map: OpcodeMap,
    vvvv: u8,
    ll: u8,
    pp: Prefix,
)
    ensures
        final(em)@ == old(em)@ + evex_bytes(reg, x, b, map, vvvv, ll, pp),
{
    em.u8(0x62);
    em.u8(
        128 * (1 - reg / 8 % 2) + 64 * (1 - x % 2) + 32 * (1 - b % 2) + 16 * (1 - reg / 16 % 2)
            + map.bits(),
    );
    em.u8(8 * (15 - vvvv % 16) + 4 + pp.bits());
    em.u8(32 * (ll % 4) + 8 * (1 - vvvv / 16 % 2));
}

/// The bytes of [`vxorps_zero`].
#[verifier::opaque]
pub open spec fn enc_vxorps_zero(dst: Ymm) -> Seq<u8> {
    vex_bytes(dst.0 / 8, 0, dst.0 / 8, OpcodeMap::M0F, dst.0, true, Prefix::NP)
        + seq![0x57u8, modrm_byte(0b11, dst.0, dst.0)]
}

/// `vxorps ymm_dst, ymm_dst, ymm_dst`: clears the register.
///
/// Encoding: VEX.NDS.256.0F.WIG 57 /r
pub fn vxorps_zero(em: &mut Emitter, dst: Ymm)
    ensures
        final(em)@ == old(em)@ + enc_vxorps_zero(dst),
{
    proof {
        reveal(enc_vxorps_zero);
    }
    emit_vex(em, dst.high1(), 0, dst.high1(), OpcodeMap::M0F, dst.0, true, Prefix::NP);
    em.u8(0x57);
    em.u8(modrm(0b11, dst.low3(), dst.low3()));
}

/// The bytes of [`vmovups_load`].
#[verifier::opaque]
pub open spec fn enc_vmovups_load(
    dst: Ymm,
    base: Reg,
    index: Option<(Reg, Scale)>,
    disp: i32,
) -> Seq<u8> {
    vex_bytes(dst.0 / 8, index_high(index), base.num() / 8, OpcodeMap::M0F, 0, true, Prefix::NP)
        + seq![0x10u8] + mem_bytes(dst.0 % 8, base, index, disp)
}

/// `vmovups ymm, [base + index*scale + disp32]`: 256-bit unaligned load.
///
/// Encoding: VEX.256.0F.WIG 10 /r
pub fn vmovups_load(em: &mut Emitter, dst: Ymm, base: Reg, index: Option<(Reg, Scale)>, disp: i32)
    requires
        mem_ok(base, index),
    ensures
        final(em)@ == old(em)@ + enc_vmovups_load(dst, base, index, disp),
{
    proof {
        reveal(enc_vmovups_load);
    }
    emit_vex(
        em,
        dst.high1(),
        high_of_index(index),
        base.high1(),
        OpcodeMap::M0F,
        0,
        true,
        Prefix::NP,
    );
    em.u8(0x10);
    emit_modrm_sib_disp32(em, dst.low3(), base, index, disp);
}

/// The bytes of [`vmovups_store`].
#[verifier::opaque]
pub open spec fn enc_vmovups_store(
    src: Ymm,
    base: Reg,
    index: Option<(Reg, Scale)>,
    disp: i32,
) -> Seq<u8> {
    vex_bytes(src.0 / 8, index_high(index), base.num() / 8, OpcodeMap::M0F, 0, true, Prefix::NP)
        + seq![0x11u8] + mem_bytes(src.0 % 8, base, index, disp)
}

/// `vmovups [base + index*scale + disp32], ymm`: 256-bit unaligned store.
///
/// Encoding: VEX.256.0F.WIG 11 /r
pub fn vmovups_store(em: &mut Emitter, src: Ymm, base: Reg, index: Option<(Reg, Scale)>, disp: i32)
    requires
        mem_ok(base, index),
    ensures
        final(em)@ == old(em)@ + enc_vmovups_store(src, base, index, disp),
{
    proof {
        reveal(enc_vmovups_store);
    }
    emit_vex(
        em,
        src.high1(),
        high_of_index(index),
        base.high1(),
        OpcodeMap::M0F,
        0,
        true,
        Prefix::NP,
    );
    em.u8(0x11);
    emit_modrm_sib_disp32(em, src.low3(), base, index, disp);
}

/// The bytes of [`vbroadcastss`].
#[verifier::opaque]
pub open spec fn enc_vbroadcastss(
    dst: Ymm,
    base: Reg,
    index: Option<(Reg, Scale)>,
    disp: i32,
) -> Seq<u8> {
    vex_bytes(dst.0 / 8, index_high(index), base.num() / 8, OpcodeMap::M0F38, 0, true, Prefix::P66)
        + seq![0x18u8] + mem_bytes(dst.0 % 8, base, index, disp)
}

/// `vbroadcastss ymm, [base + index*scale + disp32]`: load one fp32 and
/// replicate it into all 8 lanes.
///
/// Encoding: VEX.256.66.0F38.W0 18 /r
pub fn vbroadcastss(em: &mut Emitter, dst: Ymm, base: Reg, index: Option<(Reg, Scale)>, disp: i32)
    requires
        mem_ok(base, index),
    ensures
        final(em)@ == old(em)@ + enc_vbroadcastss(dst, base, index, disp),
{
    proof {
        reveal(enc_vbroadcastss);
    }
    emit_vex(
        em,
        dst.high1(),
        high_of_index(index),
        base.high1(),
        OpcodeMap::M0F38,
        0,
        true,
        Prefix::P66,
    );
    em.u8(0x18);
    emit_modrm_sib_disp32(em, dst.low3(), base, index, disp);
}

/// The bytes of [`vfmadd231ps_mem`].
#[verifier::opaque]
pub open spec fn enc_vfmadd231ps_mem(
    acc: Ymm,
    a: Ymm,
    base: Reg,
    index: Option<(Reg, Scale)>,
    disp: i32,
) -> Seq<u8> {
    vex_bytes(acc.0 / 8, index_high(index), base.num() / 8, OpcodeMap::M0F38, a.0, true, Prefix::P66)
        + seq![0xB8u8] + mem_bytes(acc.0 % 8, base, index, disp)
}

/// `vfmadd231ps ymm_acc, ymm_a, [base + index*scale + disp32]`:
/// `acc = acc + a * b` where b is loaded from memory.
///
/// Encoding: VEX.DDS.256.66.0F38.W0 B8 /r
pub fn vfmadd231ps_mem(
    em: &mut Emitter,
    acc: Ymm,
    a: Ymm,
    base: Reg,
    index: Option<(Reg, Scale)>,
    disp: i32,
)
    requires
        mem_ok(base, index),
    ensures
        final(em)@ == old(em)@ + enc_vfmadd231ps_mem(acc, a, base, index, disp),
{
    proof {
        reveal(enc_vfmadd231ps_mem);
    }
    emit_vex(
        em,
        acc.high1(),
        high_of_index(index),
        base.high1(),
        OpcodeMap::M0F38,
        a.0,
        true,
        Prefix::P66,
    );
    em.u8(0xB8);
    emit_modrm_sib_disp32(em, acc.low3(), base, index, disp);
}

/// The bytes of [`vfmadd231ps_reg`].
#[verifier::opaque]
pub open spec fn enc_vfmadd231ps_reg(acc: Ymm, a: Ymm, b: Ymm) -> Seq<u8> {
    vex_bytes(acc.0 / 8, 0, b.0 / 8, OpcodeMap::M0F38, a.0, true, Prefix::P66)
        + seq![0xB8u8, modrm_byte(0b11, acc.0, b.0)]
}

/// `vfmadd231ps ymm_acc, ymm_a, ymm_b`: same but b is in a register.
pub fn vfmadd231ps_reg(em: &mut Emitter, acc: Ymm, a: Ymm, b: Ymm)
    ensures
        final(em)@ == old(em)@ + enc_vfmadd231ps_reg(acc, a, b),
{
    proof {
        reveal(enc_vfmadd231ps_reg);
    }
    emit_vex(em, acc.high1(), 0, b.high1(), OpcodeMap::M0F38, a.0, true, Prefix::P66);
    em.u8(0xB8);
    em.u8(modrm(0b11, acc.low3(), b.low3()));
}

/// The bytes of [`vmulps_reg`].
#[verifier::opaque]
pub open spec fn enc_vmulps_reg(dst: Ymm, src1: Ymm, src2: Ymm) -> Seq<u8> {
    vex_bytes(dst.0 / 8, 0, src2.0 / 8, OpcodeMap::M0F, src1.0, true, Prefix::NP)
        + seq![0x59u8, modrm_byte(0b11, dst.0, src2.0)]
}

/// `vmulps ymm_dst, ymm_src1, ymm_src2`.
///
/// Encoding: VEX.NDS.256.0F.WIG 59 /r
pub fn vmulps_reg(em: &mut Emitter, dst: Ymm, src1: Ymm, src2: Ymm)
    ensures
        final(em)@ == old(em)@ + enc_vmulps_reg(dst, src1, src2),
{
    proof {
        reveal(enc_vmulps_reg);
    }
    emit_vex(em, dst.high1(), 0, src2.high1(), OpcodeMap::M0F, src1.0, true, Prefix::NP);
    em.u8(0x59);
    em.u8(modrm(0b11, dst.low3(), src2.low3()));
}

/// The bytes of [`vaddps_reg`].
#[verifier::opaque]
pub open spec fn enc_vaddps_reg(dst: Ymm, src1: Ymm, src2: Ymm) -> Seq<u8> {
    vex_bytes(dst.0 / 8, 0, src2.0 / 8, OpcodeMap::M0F, src1.0, true, Prefix::NP)
        + seq![0x58u8, modrm_byte(0b11, dst.0, src2.0)]
}

/// `vaddps ymm_dst, ymm_src1, ymm_src2`.
///
/// Encoding: VEX.NDS.256.0F.WIG 58 /r
pub fn vaddps_reg(em: &mut Emitter, dst: Ymm, src1: Ymm, src2: Ymm)
    ensures
        final(em)@ == old(em)@ + enc_vaddps_reg(dst, src1, src2),
{
    proof {
        reveal(enc_vaddps_reg);
    }
    emit_vex(em, dst.high1(), 0, src2.high1(), OpcodeMap::M0F, src1.0, true, Prefix::NP);
    em.u8(0x58);
    em.u8(modrm(0b11, dst.low3(), src2.low3()));
}

/// The bytes of [`vmovd_load`].
#[verifier::opaque]
pub open spec fn enc_vmovd_load(
    dst: Ymm,
    base: Reg,
    index: Option<(Reg, Scale)>,
    disp: i32,
) -> Seq<u8> {
    vex_bytes(dst.0 / 8, index_high(index), base.num() / 8, OpcodeMap::M0F, 0, false, Prefix::P66)
        + seq![0x6Eu8] + mem_bytes(dst.0 % 8, base, index, disp)
}

/// `vmovd xmm, [base + index*scale + disp32]`: load 4 bytes into the low lane
/// of an XMM register.
///
/// Encoding: VEX.128.66.0F.W0 6E /r
pub fn vmovd_load(em: &mut Emitter, dst: Ymm, base: Reg, index: Option<(Reg, Scale)>, disp: i32)
    requires
        mem_ok(base, index),
    ensures
        final(em)@ == old(em)@ + enc_vmovd_load(dst, base, index, disp),
{
    proof {
        reveal(enc_vmovd_load);
    }
    emit_vex(
        em,
        dst.high1(),
        high_of_index(index),
        base.high1(),
        OpcodeMap::M0F,
        0,
        false,
        Prefix::P66,
    );
    em.u8(0x6E);
    emit_modrm_sib_disp32(em, dst.low3(), base, index, disp);
}

/// The bytes of [`vmovd_load_reg`].
#[verifier::opaque]
pub open spec fn enc_vmovd_load_reg(dst: Ymm, src: Reg) -> Seq<u8> {
    vex_bytes(dst.0 / 8, 0, src.num() / 8, OpcodeMap::M0F, 0, false, Prefix::P66)
        + seq![0x6Eu8, modrm_byte(0b11, dst.0, src.num())]
}

/// `vmovd xmm_dst, r32_src`: register-to-xmm 4-byte move.
///
/// Encoding: VEX.128.66.0F.W0 6E /r (register form)
pub fn vmovd_load_reg(em: &mut Emitter, dst: Ymm, src: Reg)
    ensures
        final(em)@ == old(em)@ + enc_vmovd_load_reg(dst, src),
{
    proof {
        reveal(enc_vmovd_load_reg);
    }
    emit_vex(em, dst.high1(), 0, src.high1(), OpcodeMap::M0F, 0, false, Prefix::P66);
    em.u8(0x6E);
    em.u8(modrm(0b11, dst.low3(), src.low3()));
}

/// The bytes of [`vcvtph2ps_xmm`].
#[verifier::opaque]
pub open spec fn enc_vcvtph2ps_xmm(dst: Ymm, src: Ymm) -> Seq<u8> {
    vex_bytes(dst.0 / 8, 0, src.0 / 8, OpcodeMap::M0F38, 0, false, Prefix::P66)
        + seq![0x13u8, modrm_byte(0b11, dst.0, src.0)]
}

/// `vcvtph2ps xmm_dst, xmm_src`: convert the lower 4 fp16 lanes of `src` to
/// 4 fp32 lanes of `dst`.
///
/// Encoding: VEX.128.66.0F38.W0 13 /r
pub fn vcvtph2ps_xmm(em: &mut Emitter, dst: Ymm, src: Ymm)
    ensures
        final(em)@ == old(em)@ + enc_vcvtph2ps_xmm(dst, src),
{
    proof {
        reveal(enc_vcvtph2ps_xmm);
    }
    emit_vex(em, dst.high1(), 0, src.high1(), OpcodeMap::M0F38, 0, false, Prefix::P66);
    em.u8(0x13);
    em.u8(modrm(0b11, dst.low3(), src.low3()));
}

/// The bytes of [`vpmovsxbd_load`].
#[verifier::opaque]
pub open spec fn enc_vpmovsxbd_load(
    dst: Ymm,
    base: Reg,
    index: Option<(Reg, Scale)>,
    disp: i32,
) -> Seq<u8> {
    vex_bytes(dst.0 / 8, index_high(index), base.num() / 8, OpcodeMap::M0F38, 0, true, Prefix::P66)
        + seq![0x21u8] + mem_bytes(dst.0 % 8, base, index, disp)
}

/// `vpmovsxbd ymm, [base + index*scale + disp32]`: sign-extend 8 i8 values
/// from memory into 8 i32 lanes of `dst`.
///
/// Encoding: VEX.256.66.0F38.W0 21 /r
pub fn vpmovsxbd_load(em: &mut Emitter, dst: Ymm, base: Reg, index: Option<(Reg, Scale)>, disp: i32)
    requires
        mem_ok(base, index),
    ensures
        final(em)@ == old(em)@ + enc_vpmovsxbd_load(dst, base, index, disp),
{
    proof {
        reveal(enc_vpmovsxbd_load);
    }
    emit_vex(
        em,
        dst.high1(),
        high_of_index(index),
        base.high1(),
        OpcodeMap::M0F38,
        0,
        true,
        Prefix::P66,
    );
    em.u8(0x21);
    emit_modrm_sib_disp32(em, dst.low3(), base, index, disp);
}

/// The bytes of [`vcvtdq2ps`].
#[verifier::opaque]
pub open spec fn enc_vcvtdq2ps(dst: Ymm, src: Ymm) -> Seq<u8> {
    vex_bytes(dst.0 / 8, 0, src.0 / 8, OpcodeMap::M0F, 0, true, Prefix::NP)
        + seq![0x5Bu8, modrm_byte(0b11, dst.0, src.0)]
}

/// `vcvtdq2ps ymm_dst, ymm_src`: convert 8 i32 lanes to 8 fp32 lanes.
///
/// Encoding: VEX.256.0F.WIG 5B /r
pub fn vcvtdq2ps(em: &mut Emitter, dst: Ymm, src: Ymm)
    ensures
        final(em)@ == old(em)@ + enc_vcvtdq2ps(dst, src),
{
    proof {
        reveal(enc_vcvtdq2ps);
    }
    emit_vex(em, dst.high1(), 0, src.high1(), OpcodeMap::M0F, 0, true, Prefix::NP);
    em.u8(0x5B);
    em.u8(modrm(0b11, dst.low3(), src.low3()));
}

/// The bytes of [`vbroadcastss_xmm`].
#[verifier::opaque]
pub open spec fn enc_vbroadcastss_xmm(dst: Ymm, src: Ymm) -> Seq<u8> {
    vex_bytes(dst.0 / 8, 0, src.0 / 8, OpcodeMap::M0F38, 0, true, Prefix::P66)
        + seq![0x18u8, modrm_byte(0b11, dst.0, src.0)]
}

/// `vbroadcastss ymm_dst, xmm_src`: broadcast the lowest fp32 lane of `src`
/// to all 8 lanes of `dst`.
///
/// Encoding: VEX.256.66.0F38.W0 18 /r (register form)
pub fn vbroadcastss_xmm(em: &mut Emitter, dst: Ymm, src: Ymm)
    ensures
        final(em)@ == old(em)@ + enc_vbroadcastss_xmm(dst, src),
{
    proof {
        reveal(enc_vbroadcastss_xmm);
    }
    emit_vex(em, dst.high1(), 0, src.high1(), OpcodeMap::M0F38, 0, true, Prefix::P66);
    em.u8(0x18);
    em.u8(modrm(0b11, dst.low3(), src.low3()));
}

/// The bytes of [`vcvtsi2ss_xmm_r32`].
#[verifier::opaque]
pub open spec fn enc_vcvtsi2ss_xmm_r32(dst: Ymm, src1: Ymm, src2: Reg) -> Seq<u8> {
    vex_bytes(dst.0 / 8, 0, src2.num() / 8, OpcodeMap::M0F, src1.0, false, Prefix::PF3)
        + seq![0x2Au8, modrm_byte(0b11, dst.0, src2.num())]
}

/// `vcvtsi2ss xmm_dst, xmm_src1, r32_src2`: convert the i32 in `src2` to fp32 in
/// the low lane of `dst`. The upper lanes inherit from `src1`.
///
/// Encoding: VEX.NDS.LIG.F3.0F.W0 2A /r
pub fn vcvtsi2ss_xmm_r32(em: &mut Emitter, dst: Ymm, src1: Ymm, src2: Reg)
    ensures
        final(em)@ == old(em)@ + enc_vcvtsi2ss_xmm_r32(dst, src1, src2),
{
    proof {
        reveal(enc_vcvtsi2ss_xmm_r32);
    }
    emit_vex(em, dst.high1(), 0, src2.high1(), OpcodeMap::M0F, src1.0, false, Prefix::PF3);
    em.u8(0x2A);
    em.u8(modrm(0b11, dst.low3(), src2.low3()));
}

/// The bytes of [`vhaddps_ymm`].
#[verifier::opaque]
pub open spec fn enc_vhaddps_ymm(dst: Ymm, src1: Ymm, src2: Ymm) -> Seq<u8> {
    vex_bytes(dst.0 / 8, 0, src2.0 / 8, OpcodeMap::M0F, src1.0, true, Prefix::PF2)
        + seq![0x7Cu8, modrm_byte(0b11, dst.0, src2.0)]
}

/// `vhaddps ymm_dst, ymm_src1, ymm_src2`: horizontal add of packed floats.
///
/// Encoding: VEX.NDS.256.F2.0F.WIG 7C /r
pub fn vhaddps_ymm(em: &mut Emitter, dst: Ymm, src1: Ymm, src2: Ymm)
    ensures
        final(em)@ == old(em)@ + enc_vhaddps_ymm(dst, src1, src2),
{
    proof {
        reveal(enc_vhaddps_ymm);
    }
    emit_vex(em, dst.high1(), 0, src2.high1(), OpcodeMap::M0F, src1.0, true, Prefix::PF2);
    em.u8(0x7C);
    em.u8(modrm(0b11, dst.low3(), src2.low3()));
}

/// The bytes of [`vextractf128_xmm`].
#[verifier::opaque]
pub open spec fn enc_vextractf128_xmm(dst: Ymm, src: Ymm, imm: u8) -> Seq<u8> {
    vex_bytes(src.0 / 8, 0, dst.0 / 8, OpcodeMap::M0F3A, 0, true, Prefix::P66)
        + seq![0x19u8, modrm_byte(0b11, src.0, dst.0), imm]
}

/// `vextractf128 xmm_dst, ymm_src, imm8`: copy lane `imm8` (0 = lower,
/// 1 = upper) of a 256-bit `ymm` into an xmm register.
///
/// Encoding: VEX.256.66.0F3A.W0 19 /r ib
/// Operand mapping: ModR/M.reg = src (ymm), ModR/M.rm = dst (xmm).
pub fn vextractf128_xmm(em: &mut Emitter, dst: Ymm, src: Ymm, imm: u8)
    ensures
        final(em)@ == old(em)@ + enc_vextractf128_xmm(dst, src, imm),
{
    proof {
        reveal(enc_vextractf128_xmm);
    }
    emit_vex(em, src.high1(), 0, dst.high1(), OpcodeMap::M0F3A, 0, true, Prefix::P66);
    em.u8(0x19);
    em.u8(modrm(0b11, src.low3(), dst.low3()));
    em.u8(imm);
}

/// The bytes of [`vsqrtss_xmm`].
#[verifier::opaque]
pub open spec fn enc_vsqrtss_xmm(dst: Ymm, src1: Ymm, src2: Ymm) -> Seq<u8> {
    vex_bytes(dst.0 / 8, 0, src2.0 / 8, OpcodeMap::M0F, src1.0, false, Prefix::PF3)
        + seq![0x51u8, modrm_byte(0b11, dst.0, src2.0)]
}

/// `vsqrtss xmm_dst, xmm_src1, xmm_src2`: scalar fp32 sqrt (low lane only).
///
/// Encoding: VEX.NDS.LIG.F3.0F.WIG 51 /r
pub fn vsqrtss_xmm(em: &mut Emitter, dst: Ymm, src1: Ymm, src2: Ymm)
    ensures
        final(em)@ == old(em)@ + enc_vsqrtss_xmm(dst, src1, src2),
{
    proof {
        reveal(enc_vsqrtss_xmm);
    }
    emit_vex(em, dst.high1(), 0, src2.high1(), OpcodeMap::M0F, src1.0, false, Prefix::PF3);
    em.u8(0x51);
    em.u8(modrm(0b11, dst.low3(), src2.low3()));
}

/// The bytes of [`vdivss_xmm`].
#[verifier::opaque]
pub open spec fn enc_vdivss_xmm(dst: Ymm, src1: Ymm, src2: Ymm) -> Seq<u8> {
    vex_bytes(dst.0 / 8, 0, src2.0 / 8, OpcodeMap::M0F, src1.0, false, Prefix::PF3)
        + seq![0x5Eu8, modrm_byte(0b11, dst.0, src2.0)]
}

/// `vdivss xmm_dst, xmm_src1, xmm_src2`: scalar fp32 divide (low lane).
///
/// Encoding: VEX.NDS.LIG.F3.0F.WIG 5E /r
pub fn vdivss_xmm(em: &mut Emitter, dst: Ymm, src1: Ymm, src2: Ymm)
    ensures
        final(em)@ == old(em)@ + enc_vdivss_xmm(dst, src1, src2),
{
    proof {
        reveal(enc_vdivss_xmm);
    }
    emit_vex(em, dst.high1(), 0, src2.high1(), OpcodeMap::M0F, src1.0, false, Prefix::PF3);
    em.u8(0x5E);
    em.u8(modrm(0b11, dst.low3(), src2.low3()));
}

/// The bytes of [`vaddss_xmm`].
#[verifier::opaque]
pub open spec fn enc_vaddss_xmm(dst: Ymm, src1: Ymm, src2: Ymm) -> Seq<u8> {
    vex_bytes(dst.0 / 8, 0, src2.0 / 8, OpcodeMap::M0F, src1.0, false, Prefix::PF3)
        + seq![0x58u8, modrm_byte(0b11, dst.0, src2.0)]
}

/// `vaddss xmm_dst, xmm_src1, xmm_src2`: scalar fp32 add (low lane).
///
/// Encoding: VEX.NDS.LIG.F3.0F.WIG 58 /r
pub fn vaddss_xmm(em: &mut Emitter, dst: Ymm, src1: Ymm, src2: Ymm)
    ensures
        final(em)@ == old(em)@ + enc_vaddss_xmm(dst, src1, src2),
{
    proof {
        reveal(enc_vaddss_xmm);
    }
    emit_vex(em, dst.high1(), 0, src2.high1(), OpcodeMap::M0F, src1.0, false, Prefix::PF3);
    em.u8(0x58);
    em.u8(modrm(0b11, dst.low3(), src2.low3()));
}

/// The bytes of [`vmulss_xmm`].
#[verifier::opaque]
pub open spec fn enc_vmulss_xmm(dst: Ymm, src1: Ymm, src2: Ymm) -> Seq<u8> {
    vex_bytes(dst.0 / 8, 0, src2.0 / 8, OpcodeMap::M0F, src1.0, false, Prefix::PF3)
        + seq![0x59u8, modrm_byte(0b11, dst.0, src2.0)]
}

/// `vmulss xmm_dst, xmm_src1, xmm_src2`: scalar fp32 multiply (low lane only).
///
/// Encoding: VEX.NDS.LIG.F3.0F.WIG 59 /r
pub fn vmulss_xmm(em: &mut Emitter, dst: Ymm, src1: Ymm, src2: Ymm)
    ensures
        final(em)@ == old(em)@ + enc_vmulss_xmm(dst, src1, src2),
{
    proof {
        reveal(enc_vmulss_xmm);
    }
    emit_vex(em, dst.high1(), 0, src2.high1(), OpcodeMap::M0F, src1.0, false, Prefix::PF3);
    em.u8(0x59);
    em.u8(modrm(0b11, dst.low3(), src2.low3()));
}

// ---- AVX2 integer operations ----------------------------------------------

/// The bytes of [`vmovdqu_load`].
#[verifier::opaque]
pub open spec fn enc_vmovdqu_load(
    dst: Ymm,
    base: Reg,
    index: Option<(Reg, Scale)>,
    disp: i32,
) -> Seq<u8> {
    vex_bytes(dst.0 / 8, index_high(index), base.num() / 8, OpcodeMap::M0F, 0, true, Prefix::PF3)
        + seq![0x6Fu8] + mem_bytes(dst.0 % 8, base, index, disp)
}

/// `vmovdqu ymm, [base + index*scale + disp32]`: 256-bit unaligned integer
/// load.
///
/// Encoding: VEX.256.F3.0F.WIG 6F /r
pub fn vmovdqu_load(em: &mut Emitter, dst: Ymm, base: Reg, index: Option<(Reg, Scale)>, disp: i32)
    requires
        mem_ok(base, index),
    ensures
        final(em)@ == old(em)@ + enc_vmovdqu_load(dst, base, index, disp),
{
    proof {
        reveal(enc_vmovdqu_load);
    }
    emit_vex(
        em,
        dst.high1(),
        high_of_index(index),
        base.high1(),
        OpcodeMap::M0F,
        0,
        true,
        Prefix::PF3,
    );
    em.u8(0x6F);
    emit_modrm_sib_disp32(em, dst.low3(), base, index, disp);
}

/// The bytes of [`vpsignb_reg`].
#[verifier::opaque]
pub open spec fn enc_vpsignb_reg(dst: Ymm, src1: Ymm, src2: Ymm) -> Seq<u8> {
    vex_bytes(dst.0 / 8, 0, src2.0 / 8, OpcodeMap::M0F38, src1.0, true, Prefix::P66)
        + seq![0x08u8, modrm_byte(0b11, dst.0, src2.0)]
}

/// `vpsignb ymm_dst, ymm_src1, ymm_src2`, for each byte lane: `-src1` where
/// `src2` is negative, 0 where it is zero, `src1` otherwise.
///
/// Encoding: VEX.NDS.256.66.0F38.WIG 08 /r
pub fn vpsignb_reg(em: &mut Emitter, dst: Ymm, src1: Ymm, src2: Ymm)
    ensures
        final(em)@ == old(em)@ + enc_vpsignb_reg(dst, src1, src2),
{
    proof {
        reveal(enc_vpsignb_reg);
    }
    emit_vex(em, dst.high1(), 0, src2.high1(), OpcodeMap::M0F38, src1.0, true, Prefix::P66);
    em.u8(0x08);
    em.u8(modrm(0b11, dst.low3(), src2.low3()));
}

/// The bytes of [`vpmaddubsw_reg`].
#[verifier::opaque]
pub open spec fn enc_vpmaddubsw_reg(dst: Ymm, src1: Ymm, src2: Ymm) -> Seq<u8> {
    vex_bytes(dst.0 / 8, 0, src2.0 / 8, OpcodeMap::M0F38, src1.0, true, Prefix::P66)
        + seq![0x04u8, modrm_byte(0b11, dst.0, src2.0)]
}

/// `vpmaddubsw ymm_dst, ymm_src1, ymm_src2`: multiply 32 (u8, i8) pairs and
/// sum adjacent pairs into 16 saturated i16 lanes. `src1` is treated as
/// unsigned bytes, `src2` as signed.
///
/// Encoding: VEX.NDS.256.66.0F38.WIG 04 /r
pub fn vpmaddubsw_reg(em: &mut Emitter, dst: Ymm, src1: Ymm, src2: Ymm)
    ensures
        final(em)@ == old(em)@ + enc_vpmaddubsw_reg(dst, src1, src2),
{
    proof {
        reveal(enc_vpmaddubsw_reg);
    }
    emit_vex(em, dst.high1(), 0, src2.high1(), OpcodeMap::M0F38, src1.0, true, Prefix::P66);
    em.u8(0x04);
    em.u8(modrm(0b11, dst.low3(), src2.low3()));
}

/// The bytes of [`vpmaddwd_reg`].
#[verifier::opaque]
pub open spec fn enc_vpmaddwd_reg(dst: Ymm, src1: Ymm, src2: Ymm) -> Seq<u8> {
    vex_bytes(dst.0 / 8, 0, src2.0 / 8, OpcodeMap::M0F, src1.0, true, Prefix::P66)
        + seq![0xF5u8, modrm_byte(0b11, dst.0, src2.0)]
}

/// `vpmaddwd ymm_dst, ymm_src1, ymm_src2`: multiply 16 i16 pairs and sum
/// adjacent pairs into 8 i32 lanes.
///
/// Encoding: VEX.NDS.256.66.0F.WIG F5 /r
pub fn vpmaddwd_reg(em: &mut Emitter, dst: Ymm, src1: Ymm, src2: Ymm)
    ensures
        final(em)@ == old(em)@ + enc_vpmaddwd_reg(dst, src1, src2),
{
    proof {
        reveal(enc_vpmaddwd_reg);
    }
    emit_vex(em, dst.high1(), 0, src2.high1(), OpcodeMap::M0F, src1.0, true, Prefix::P66);
    em.u8(0xF5);
    em.u8(modrm(0b11, dst.low3(), src2.low3()));
}

/// The bytes of [`vpaddd_reg`].
#[verifier::opaque]
pub open spec fn enc_vpaddd_reg(dst: Ymm, src1: Ymm, src2: Ymm) -> Seq<u8> {
    vex_bytes(dst.0 / 8, 0, src2.0 / 8, OpcodeMap::M0F, src1.0, true, Prefix::P66)
        + seq![0xFEu8, modrm_byte(0b11, dst.0, src2.0)]
}

/// `vpaddd ymm_dst, ymm_src1, ymm_src2`: element-wise i32 add (8 lanes).
///
/// Encoding: VEX.NDS.256.66.0F.WIG FE /r
pub fn vpaddd_reg(em: &mut Emitter, dst: Ymm, src1: Ymm, src2: Ymm)
    ensures
        final(em)@ == old(em)@ + enc_vpaddd_reg(dst, src1, src2),
{
    proof {
        reveal(enc_vpaddd_reg);
    }
    emit_vex(em, dst.high1(), 0, src2.high1(), OpcodeMap::M0F, src1.0, true, Prefix::P66);
    em.u8(0xFE);
    em.u8(modrm(0b11, dst.low3(), src2.low3()));
}

/// The bytes of [`vpcmpeqd_reg`].
#[verifier::opaque]
pub open spec fn enc_vpcmpeqd_reg(dst: Ymm, src1: Ymm, src2: Ymm) -> Seq<u8> {
    vex_bytes(dst.0 / 8, 0, src2.0 / 8, OpcodeMap::M0F, src1.0, true, Prefix::P66)
        + seq![0x76u8, modrm_byte(0b11, dst.0, src2.0)]
}

/// `vpcmpeqd ymm_dst, ymm_src1, ymm_src2`: compare i32 lanes for equality,
/// setting each result lane to all ones or all zeros.
///
/// Encoding: VEX.NDS.256.66.0F.WIG 76 /r
pub fn vpcmpeqd_reg(em: &mut Emitter, dst: Ymm, src1: Ymm, src2: Ymm)
    ensures
        final(em)@ == old(em)@ + enc_vpcmpeqd_reg(dst, src1, src2),
{
    proof {
        reveal(enc_vpcmpeqd_reg);
    }
    emit_vex(em, dst.high1(), 0, src2.high1(), OpcodeMap::M0F, src1.0, true, Prefix::P66);
    em.u8(0x76);
    em.u8(modrm(0b11, dst.low3(), src2.low3()));
}

/// The bytes of [`vpsrlw_imm8`].
#[verifier::opaque]
pub open spec fn enc_vpsrlw_imm8(dst: Ymm, src: Ymm, imm: u8) -> Seq<u8> {
    vex_bytes(0, 0, src.0 / 8, OpcodeMap::M0F, dst.0, true, Prefix::P66)
        + seq![0x71u8, modrm_byte(0b11, 2, src.0), imm]
}

/// `vpsrlw ymm_dst, ymm_src, imm8`: logical shift right each i16 lane by imm
/// bits. The destination is encoded in vvvv; ModR/M.reg holds the opcode
/// extension.
///
/// Encoding: VEX.NDD.256.66.0F.WIG 71 /2 ib
pub fn vpsrlw_imm8(em: &mut Emitter, dst: Ymm, src: Ymm, imm: u8)
    ensures
        final(em)@ == old(em)@ + enc_vpsrlw_imm8(dst, src, imm),
{
    proof {
        reveal(enc_vpsrlw_imm8);
    }
    emit_vex(em, 0, 0, src.high1(), OpcodeMap::M0F, dst.0, true, Prefix::P66);
    em.u8(0x71);
    em.u8(modrm(0b11, 2, src.low3()));
    em.u8(imm);
}

// ---- VNNI: 4-wide u8 x i8 dot products accumulated in i32 lanes -------------

/// The bytes of [`vpdpbusd_vex_reg`].
#[verifier::opaque]
pub open spec fn enc_vpdpbusd_vex_reg(acc: Ymm, a: Ymm, b: Ymm) -> Seq<u8> {
    vex_bytes(acc.0 / 8, 0, b.0 / 8, OpcodeMap::M0F38, a.0, true, Prefix::P66)
        + seq![0x50u8, modrm_byte(0b11, acc.0, b.0)]
}

/// `vpdpbusd ymm_acc, ymm_a, ymm_b` in the AVX-VNNI form.
///
/// Encoding: VEX.256.66.0F38.W0 50 /r
pub fn vpdpbusd_vex_reg(em: &mut Emitter, acc: Ymm, a: Ymm, b: Ymm)
    ensures
        final(em)@ == old(em)@ + enc_vpdpbusd_vex_reg(acc, a, b),
{
    proof {
        reveal(enc_vpdpbusd_vex_reg);
    }
    emit_vex(em, acc.high1(), 0, b.high1(), OpcodeMap::M0F38, a.0, true, Prefix::P66);
    em.u8(0x50);
    em.u8(modrm(0b11, acc.low3(), b.low3()));
}

/// The bytes of [`vpdpbusd_evex_reg`].
#[verifier::opaque]
pub open spec fn enc_vpdpbusd_evex_reg(acc: Ymm, a: Ymm, b: Ymm) -> Seq<u8> {
    evex_bytes(acc.0, b.0 / 16, b.0 / 8, OpcodeMap::M0F38, a.0, 1, Prefix::P66)
        + seq![0x50u8, modrm_byte(0b11, acc.0, b.0)]
}

/// `vpdpbusd ymm_acc, ymm_a, ymm_b` in the AVX-512 VNNI form.
///
/// Encoding: EVEX.256.66.0F38.W0 50 /r
pub fn vpdpbusd_evex_reg(em: &mut Emitter, acc: Ymm, a: Ymm, b: Ymm)
    ensures
        final(em)@ == old(em)@ + enc_vpdpbusd_evex_reg(acc, a, b),
{
    proof {
        reveal(enc_vpdpbusd_evex_reg);
    }
    emit_evex(em, acc.0, b.0 / 16, b.0 / 8, OpcodeMap::M0F38, a.0, 1, Prefix::P66);
    em.u8(0x50);
    em.u8(modrm(0b11, acc.0, b.0));
}

// ---- AVX-512 (512-bit) operations -------------------------------------------

/// The bytes of [`vxorps_zmm_zero`].
#[verifier::opaque]
pub open spec fn enc_vxorps_zmm_zero(dst: Zmm) -> Seq<u8> {
    evex_bytes(dst.0, dst.0 / 16, dst.0 / 8, OpcodeMap::M0F, dst.0, 2, Prefix::NP)
        + seq![0x57u8, modrm_byte(0b11, dst.0, dst.0)]
}

/// `vxorps zmm_dst, zmm_dst, zmm_dst`: clears the register.
///
/// Encoding: EVEX.512.0F.W0 57 /r
pub fn vxorps_zmm_zero(em: &mut Emitter, dst: Zmm)
    ensures
        final(em)@ == old(em)@ + enc_vxorps_zmm_zero(dst),
{
    proof {
        reveal(enc_vxorps_zmm_zero);
    }
    emit_evex(em, dst.0, dst.0 / 16, dst.0 / 8, OpcodeMap::M0F, dst.0, 2, Prefix::NP);
    em.u8(0x57);
    em.u8(modrm(0b11, dst.0, dst.0));
}

/// The bytes of [`vaddps_zmm_reg`].
#[verifier::opaque]
pub open spec fn enc_vaddps_zmm_reg(dst: Zmm, src1: Zmm, src2: Zmm) -> Seq<u8> {
    evex_bytes(dst.0, src2.0 / 16, src2.0 / 8, OpcodeMap::M0F, src1.0, 2, Prefix::NP)
        + seq![0x58u8, modrm_byte(0b11, dst.0, src2.0)]
}

/// `vaddps zmm_dst, zmm_src1, zmm_src2`.
///
/// Encoding: EVEX.512.0F.W0 58 /r
pub fn vaddps_zmm_reg(em: &mut Emitter, dst: Zmm, src1: Zmm, src2: Zmm)
    ensures
        final(em)@ == old(em)@ + enc_vaddps_zmm_reg(dst, src1, src2),
{
    proof {
        reveal(enc_vaddps_zmm_reg);
    }
    emit_evex(em, dst.0, src2.0 / 16, src2.0 / 8, OpcodeMap::M0F, src1.0, 2, Prefix::NP);
    em.u8(0x58);
    em.u8(modrm(0b11, dst.0, src2.0));
}

/// The bytes of [`vmulps_zmm_reg`].
#[verifier::opaque]
pub open spec fn enc_vmulps_zmm_reg(dst: Zmm, src1: Zmm, src2: Zmm) -> Seq<u8> {
    evex_bytes(dst.0, src2.0 / 16, src2.0 / 8, OpcodeMap::M0F, src1.0, 2, Prefix::NP)
        + seq![0x59u8, modrm_byte(0b11, dst.0, src2.0)]
}

/// `vmulps zmm_dst, zmm_src1, zmm_src2`.
///
/// Encoding: EVEX.512.0F.W0 59 /r
pub fn vmulps_zmm_reg(em: &mut Emitter, dst: Zmm, src1: Zmm, src2: Zmm)
    ensures
        final(em)@ == old(em)@ + enc_vmulps_zmm_reg(dst, src1, src2),
{
    proof {
        reveal(enc_vmulps_zmm_reg);
    }
    emit_evex(em, dst.0, src2.0 / 16, src2.0 / 8, OpcodeMap::M0F, src1.0, 2, Prefix::NP);
    em.u8(0x59);
    em.u8(modrm(0b11, dst.0, src2.0));
}

/// The bytes of [`vcvtdq2ps_zmm`].
#[verifier::opaque]
pub open spec fn enc_vcvtdq2ps_zmm(dst: Zmm, src: Zmm) -> Seq<u8> {
    evex_bytes(dst.0, src.0 / 16, src.0 / 8, OpcodeMap::M0F, 0, 2, Prefix::NP)
        + seq![0x5Bu8, modrm_byte(0b11, dst.0, src.0)]
}

/// `vcvtdq2ps zmm_dst, zmm_src`: convert 16 i32 lanes to 16 fp32 lanes.
///
/// Encoding: EVEX.512.0F.W0 5B /r
pub fn vcvtdq2ps_zmm(em: &mut Emitter, dst: Zmm, src: Zmm)
    ensures
        final(em)@ == old(em)@ + enc_vcvtdq2ps_zmm(dst, src),
{
    proof {
        reveal(enc_vcvtdq2ps_zmm);
    }
    emit_evex(em, dst.0, src.0 / 16, src.0 / 8, OpcodeMap::M0F, 0, 2, Prefix::NP);
    em.u8(0x5B);
    em.u8(modrm(0b11, dst.0, src.0));
}

/// The bytes of [`vbroadcastss_zmm_xmm`].
#[verifier::opaque]
pub open spec fn enc_vbroadcastss_zmm_xmm(dst: Zmm, src: Zmm) -> Seq<u8> {
    evex_bytes(dst.0, src.0 / 16, src.0 / 8, OpcodeMap::M0F38, 0, 2, Prefix::P66)
        + seq![0x18u8, modrm_byte(0b11, dst.0, src.0)]
}

/// `vbroadcastss zmm_dst, xmm_src`: broadcast the lowest fp32 lane of `src`
/// to all 16 lanes of `dst`.
///
/// Encoding: EVEX.512.66.0F38.W0 18 /r (register form)
pub fn vbroadcastss_zmm_xmm(em: &mut Emitter, dst: Zmm, src: Zmm)
    ensures
        final(em)@ == old(em)@ + enc_vbroadcastss_zmm_xmm(dst, src),
{
    proof {
        reveal(enc_vbroadcastss_zmm_xmm);
    }
    emit_evex(em, dst.0, src.0 / 16, src.0 / 8, OpcodeMap::M0F38, 0, 2, Prefix::P66);
    em.u8(0x18);
    em.u8(modrm(0b11, dst.0, src.0));
}

/// The bytes of [`vpmovsxbd_zmm_load`].
#[verifier::opaque]
pub open spec fn enc_vpmovsxbd_zmm_load(
    dst: Zmm,
    base: Reg,
    index: Option<(Reg, Scale)>,
    disp: i32,
) -> Seq<u8> {
    evex_bytes(dst.0, index_high(index), base.num() / 8, OpcodeMap::M0F38, 0, 2, Prefix::P66)
        + seq![0x21u8] + mem_bytes(dst.0 % 8, base, index, disp)
}

/// `vpmovsxbd zmm, [base + index*scale + disp32]`: sign-extend 16 i8 values
/// from memory into 16 i32 lanes of `dst`.
///
/// Encoding: EVEX.512.66.0F38.WIG 21 /r
pub fn vpmovsxbd_zmm_load(
    em: &mut Emitter,
    dst: Zmm,
    base: Reg,
    index: Option<(Reg, Scale)>,
    disp: i32,
)
    requires
        mem_ok(base, index),
    ensures
        final(em)@ == old(em)@ + enc_vpmovsxbd_zmm_load(dst, base, index, disp),
{
    proof {
        reveal(enc_vpmovsxbd_zmm_load);
    }
    emit_evex(
        em,
        dst.0,
        high_of_index(index),
        base.high1(),
        OpcodeMap::M0F38,
        0,
        2,
        Prefix::P66,
    );
    em.u8(0x21);
    emit_modrm_sib_disp32(em, dst.0 % 8, base, index, disp);
}

/// The bytes of [`vfmadd231ps_zmm_mem`].
#[verifier::opaque]
pub open spec fn enc_vfmadd231ps_zmm_mem(
    acc: Zmm,
    a: Zmm,
    base: Reg,
    index: Option<(Reg, Scale)>,
    disp: i32,
) -> Seq<u8> {
    evex_bytes(acc.0, index_high(index), base.num() / 8, OpcodeMap::M0F38, a.0, 2, Prefix::P66)
        + seq![0xB8u8] + mem_bytes(acc.0 % 8, base, index, disp)
}

/// `vfmadd231ps zmm_acc, zmm_a, [base + index*scale + disp32]`.
///
/// Encoding: EVEX.512.66.0F38.W0 B8 /r
pub fn vfmadd231ps_zmm_mem(
    em: &mut Emitter,
    acc: Zmm,
    a: Zmm,
    base: Reg,
    index: Option<(Reg, Scale)>,
    disp: i32,
)
    requires
        mem_ok(base, index),
    ensures
        final(em)@ == old(em)@ + enc_vfmadd231ps_zmm_mem(acc, a, base, index, disp),
{
    proof {
        reveal(enc_vfmadd231ps_zmm_mem);
    }
    emit_evex(
        em,
        acc.0,
        high_of_index(index),
        base.high1(),
        OpcodeMap::M0F38,
        a.0,
        2,
        Prefix::P66,
    );
    em.u8(0xB8);
    emit_modrm_sib_disp32(em, acc.0 % 8, base, index, disp);
}

/// The bytes of [`vextractf32x8_zmm`].
#[verifier::opaque]
pub open spec fn enc_vextractf32x8_zmm(dst: Ymm, src: Zmm, imm: u8) -> Seq<u8> {
    evex_bytes(src.0, dst.0 / 16, dst.0 / 8, OpcodeMap::M0F3A, 0, 2, Prefix::P66)
        + seq![0x1Bu8, modrm_byte(0b11, src.0, dst.0), imm]
}

/// `vextractf32x8 ymm_dst, zmm_src, imm8`: copy the lower (0) or upper (1) 8
/// fp32 lanes of a 512-bit register into a ymm register.
///
/// Encoding: EVEX.512.66.0F3A.W0 1B /r ib
pub fn vextractf32x8_zmm(em: &mut Emitter, dst: Ymm, src: Zmm, imm: u8)
    ensures
        final(em)@ == old(em)@ + enc_vextractf32x8_zmm(dst, src, imm),
{
    proof {
        reveal(enc_vextractf32x8_zmm);
    }
    emit_evex(em, src.0, dst.0 / 16, dst.0 / 8, OpcodeMap::M0F3A, 0, 2, Prefix::P66);
    em.u8(0x1B);
    em.u8(modrm(0b11, src.0, dst.0));
    em.u8(imm);
}

} // verus!
