//! x86_64 instruction encoder. Only the subset Lumen actually emits.
//!
//! Encoding background (Intel SDM Vol. 2):
//!
//! ```text
//! [prefixes] [REX] [opcode] [ModR/M] [SIB] [displacement] [immediate]
//! ```
//!
//! - REX = 0100 W R X B
//!   - W=1  : 64-bit operand size
//!   - R    : extends ModR/M.reg to 4 bits  (high bit of `reg`)
//!   - X    : extends SIB.index             (high bit of `index`)
//!   - B    : extends ModR/M.rm or SIB.base (high bit of `rm`/`base`)
//! - ModR/M = mod (2 bits), reg (3 bits), rm (3 bits)
//! - SIB    = scale (2 bits), index (3 bits), base (3 bits)
//!
//! Each encoder appends to the emitter exactly the bytes that the `enc_`
//! function of the same name gives for its operands.

use crate::bytes::{i32_bits, le_bytes, lemma_le_bytes_len, wrap32};
use crate::codegen::emit::{patched, Emitter};
use vstd::prelude::*;

verus! {

/// 64-bit general-purpose registers, in the order of their 4-bit register
/// numbers: the first eight encode without an extension bit, the others
/// require one.
#[derive(Copy, Clone, Debug, PartialEq, Eq, Structural)]
pub enum Reg {
    RAX,
    RCX,
    RDX,
    RBX,
    RSP,
    RBP,
    RSI,
    RDI,
    R8,
    R9,
    R10,
    R11,
    R12,
    R13,
    R14,
    R15,
}

impl Reg {
    /// The 4-bit register number.
    pub open spec fn num(self) -> u8 {
        match self {
            Reg::RAX => 0,
            Reg::RCX => 1,
            Reg::RDX => 2,
            Reg::RBX => 3,
            Reg::RSP => 4,
            Reg::RBP => 5,
            Reg::RSI => 6,
            Reg::RDI => 7,
            Reg::R8 => 8,
            Reg::R9 => 9,
            Reg::R10 => 10,
            Reg::R11 => 11,
            Reg::R12 => 12,
            Reg::R13 => 13,
            Reg::R14 => 14,
            Reg::R15 => 15,
        }
    }

    /// The 4-bit register number.
    pub fn idx(self) -> (n: u8)
        ensures
            n == self.num(),
            n < 16,
    {
        match self {
            Reg::RAX => 0,
            Reg::RCX => 1,
            Reg::RDX => 2,
            Reg::RBX => 3,
            Reg::RSP => 4,
            Reg::RBP => 5,
            Reg::RSI => 6,
            Reg::RDI => 7,
            Reg::R8 => 8,
            Reg::R9 => 9,
            Reg::R10 => 10,
            Reg::R11 => 11,
            Reg::R12 => 12,
            Reg::R13 => 13,
            Reg::R14 => 14,
            Reg::R15 => 15,
        }
    }

    /// Low 3 bits used in ModR/M.rm or SIB.base/index.
    pub fn low3(self) -> (n: u8)
        ensures
            n == self.num() % 8,
    {
        self.idx() % 8
    }

    /// High bit, encoded in REX.B / REX.X / REX.R.
    pub fn high1(self) -> (n: u8)
        ensures
            n == self.num() / 8,
            n <= 1,
    {
        self.idx() / 8
    }
}

/// XMM registers, 0..=15.
#[derive(Copy, Clone, Debug, PartialEq, Eq, Structural)]
pub struct Xmm(pub u8);

impl Xmm {
    /// Low 3 bits of the register number.
    pub fn low3(self) -> (n: u8)
        ensures
            n == self.0 % 8,
    {
        self.0 % 8
    }

    /// The bits of the register number above the low 3.
    pub fn high1(self) -> (n: u8)
        ensures
            n == self.0 / 8,
    {
        self.0 / 8
    }
}

/// 1-byte scale field used in SIB encoding.
#[derive(Copy, Clone, Debug, PartialEq, Eq, Structural)]
pub enum Scale {
    S1,
    S2,
    S4,
    S8,
}

impl Scale {
    /// The two SIB bits that select this scale.
    pub open spec fn num(self) -> u8 {
        match self {
            Scale::S1 => 0,
            Scale::S2 => 1,
            Scale::S4 => 2,
            Scale::S8 => 3,
        }
    }

    /// What the index register is multiplied by.
    pub open spec fn factor(self) -> int {
        match self {
            Scale::S1 => 1,
            Scale::S2 => 2,
            Scale::S4 => 4,
            Scale::S8 => 8,
        }
    }

    /// The two SIB bits that select this scale.
    pub fn bits(self) -> (n: u8)
        ensures
            n == self.num(),
            n < 4,
    {
        match self {
            Scale::S1 => 0,
            Scale::S2 => 1,
            Scale::S4 => 2,
            Scale::S8 => 3,
        }
    }
}

/// Condition codes of the near conditional jump.
#[derive(Copy, Clone, Debug, PartialEq, Eq, Structural)]
pub enum Cond {
    /// `jb`
    Below,
    /// `jae`
    AboveOrEqual,
    /// `je`
    Equal,
    /// `jne`
    NotEqual,
    /// `jl` (signed)
    Less,
    /// `jge` (signed)
    GreaterOrEqual,
    /// `jle` (signed)
    LessOrEqual,
    /// `jg` (signed)
    Greater,
}

impl Cond {
    /// The condition nibble of the opcode.
    pub open spec fn num(self) -> u8 {
        match self {
            Cond::Below => 0x2,
            Cond::AboveOrEqual => 0x3,
            Cond::Equal => 0x4,
            Cond::NotEqual => 0x5,
            Cond::Less => 0xC,
            Cond::GreaterOrEqual => 0xD,
            Cond::LessOrEqual => 0xE,
            Cond::Greater => 0xF,
        }
    }

    /// The condition nibble of the opcode.
    pub fn code(self) -> (n: u8)
        ensures
            n == self.num(),
            n < 16,
    {
        match self {
            Cond::Below => 0x2,
            Cond::AboveOrEqual => 0x3,
            Cond::Equal => 0x4,
            Cond::NotEqual => 0x5,
            Cond::Less => 0xC,
            Cond::GreaterOrEqual => 0xD,
            Cond::LessOrEqual => 0xE,
            Cond::Greater => 0xF,
        }
    }
}

// ---- the fields of an instruction ----------------------------------------

/// The REX byte: `0100WRXB`.
pub open spec fn rex_byte(w: bool, r: u8, x: u8, b: u8) -> u8 {
    (0x40 + (if w {
        8int
    } else {
        0int
    }) + 4 * (r % 2) + 2 * (x % 2) + b % 2) as u8
}

/// The ModR/M byte: two bits of mode, three of `reg`, three of `rm`.
pub open spec fn modrm_byte(md: u8, reg: u8, rm: u8) -> u8 {
    (64 * (md % 4) + 8 * (reg % 8) + rm % 8) as u8
}

/// The SIB byte: two bits of scale, three of index, three of base.
pub open spec fn sib_byte(scale: Scale, index: u8, base: u8) -> u8 {
    (64 * scale.num() + 8 * (index % 8) + base % 8) as u8
}

/// The extension bit that the index register of a memory operand needs.
pub open spec fn index_high(index: Option<(Reg, Scale)>) -> u8 {
    match index {
        Some((i, _)) => i.num() / 8,
        None => 0,
    }
}

/// Whether `base` can be encoded without an index: the number of RSP and R12
/// in ModR/M.rm asks for a SIB byte instead.
pub open spec fn mem_ok(base: Reg, index: Option<(Reg, Scale)>) -> bool {
    index is Some || base.num() % 8 != 4
}

/// A signed 32-bit immediate or displacement.
pub open spec fn imm32(v: i32) -> Seq<u8> {
    le_bytes(wrap32(v as int), 4)
}

/// ModR/M, SIB where there is an index, and the 32-bit displacement of
/// `[base + index*scale + disp]`.
pub open spec fn mem_bytes(
    reg: u8,
    base: Reg,
    index: Option<(Reg, Scale)>,
    disp: i32,
) -> Seq<u8> {
    let head = match index {
        Some((i, scale)) => seq![
            modrm_byte(0b10, reg, 0b100),
            sib_byte(scale, i.num(), base.num()),
        ],
        None => seq![modrm_byte(0b10, reg, base.num())],
    };
    head + imm32(disp)
}

/// The REX prefix that an SSE instruction needs: none at all where no
/// register is in the upper bank.
pub open spec fn opt_rex(r: u8, x: u8, b: u8) -> Seq<u8> {
    if r != 0 || x != 0 || b != 0 {
        seq![rex_byte(false, r, x, b)]
    } else {
        Seq::empty()
    }
}

fn rex(w: bool, r: u8, x: u8, b: u8) -> (v: u8)
    ensures
        v == rex_byte(w, r, x, b),
{
    let w_bit: u8 = if w {
        8
    } else {
        0
    };
    0x40 + w_bit + 4 * (r % 2) + 2 * (x % 2) + b % 2
}

/// The ModR/M byte.
pub(crate) fn modrm(md: u8, reg: u8, rm: u8) -> (v: u8)
    ensures
        v == modrm_byte(md, reg, rm),
{
    64 * (md % 4) + 8 * (reg % 8) + rm % 8
}

fn sib(scale: Scale, index: u8, base: u8) -> (v: u8)
    ensures
        v == sib_byte(scale, index, base),
{
    64 * scale.bits() + 8 * (index % 8) + base % 8
}

/// The extension bit of an index register.
pub(crate) fn high_of_index(index: Option<(Reg, Scale)>) -> (n: u8)
    ensures
        n == index_high(index),
{
    match index {
        Some((i, _)) => i.high1(),
        None => 0,
    }
}

fn emit_opt_rex(em: &mut Emitter, r: u8, x: u8, b: u8)
    ensures
        final(em)@ == old(em)@ + opt_rex(r, x, b),
{
    if r != 0 || x != 0 || b != 0 {
        em.u8(rex(false, r, x, b));
    }
}

fn emit_rex_for_sse_mem(em: &mut Emitter, reg: Xmm, base: Reg, index: Option<(Reg, Scale)>)
    ensures
        final(em)@ == old(em)@ + opt_rex(reg.0 / 8, index_high(index), base.num() / 8),
{
    emit_opt_rex(em, reg.high1(), high_of_index(index), base.high1());
}

/// Emits the memory operand `[base + index*scale + disp32]`. The displacement
/// is always 32 bits wide, so that the encoding is uniform.
pub(crate) fn emit_modrm_sib_disp32(
    em: &mut Emitter,
    reg_low3: u8,
    base: Reg,
    index: Option<(Reg, Scale)>,
    disp: i32,
)
    requires
        mem_ok(base, index),
    ensures
        final(em)@ == old(em)@ + mem_bytes(reg_low3, base, index, disp),
{
    match index {
        Some((idx, scale)) => {
            em.u8(modrm(0b10, reg_low3, 0b100));
            em.u8(sib(scale, idx.low3(), base.low3()));
        },
        None => {
            em.u8(modrm(0b10, reg_low3, base.low3()));
        },
    }
    em.u32(i32_bits(disp));
}

// ---- integer instructions -------------------------------------------------

/// The bytes of [`mov_rr`].
#[verifier::opaque]
pub open spec fn enc_mov_rr(dst: Reg, src: Reg) -> Seq<u8> {
    seq![rex_byte(true, src.num() / 8, 0, dst.num() / 8), 0x89, modrm_byte(0b11, src.num(), dst.num())]
}

/// `mov dst, src` (64-bit register move).
pub fn mov_rr(em: &mut Emitter, dst: Reg, src: Reg)
    ensures
        final(em)@ == old(em)@ + enc_mov_rr(dst, src),
{
    proof {
        reveal(enc_mov_rr);
    }
    em.u8(rex(true, src.high1(), 0, dst.high1()));
    em.u8(0x89);
    em.u8(modrm(0b11, src.low3(), dst.low3()));
}

/// The bytes of [`mov_ri64`].
#[verifier::opaque]
pub open spec fn enc_mov_ri64(dst: Reg, imm: u64) -> Seq<u8> {
    seq![rex_byte(true, 0, 0, dst.num() / 8), (0xB8 + dst.num() % 8) as u8]
        + le_bytes(imm as nat, 8)
}

/// `mov dst, imm64`.
pub fn mov_ri64(em: &mut Emitter, dst: Reg, imm: u64)
    ensures
        final(em)@ == old(em)@ + enc_mov_ri64(dst, imm),
{
    proof {
        reveal(enc_mov_ri64);
    }
    em.u8(rex(true, 0, 0, dst.high1()));
    em.u8(0xB8 + dst.low3());
    em.u64(imm);
}

/// The bytes of [`mov_ri32`].
#[verifier::opaque]
pub open spec fn enc_mov_ri32(dst: Reg, imm: u32) -> Seq<u8> {
    opt_rex(0, 0, dst.num() / 8) + seq![(0xB8 + dst.num() % 8) as u8] + le_bytes(imm as nat, 4)
}

/// `mov dst32, imm32`. Useful for loading the bit pattern of a scalar constant
/// before promoting it to xmm with `vmovd`.
pub fn mov_ri32(em: &mut Emitter, dst: Reg, imm: u32)
    ensures
        final(em)@ == old(em)@ + enc_mov_ri32(dst, imm),
{
    proof {
        reveal(enc_mov_ri32);
    }
    emit_opt_rex(em, 0, 0, dst.high1());
    em.u8(0xB8 + dst.low3());
    em.u32(imm);
}

/// The bytes of [`xor_rr`].
#[verifier::opaque]
pub open spec fn enc_xor_rr(dst: Reg) -> Seq<u8> {
    seq![rex_byte(true, dst.num() / 8, 0, dst.num() / 8), 0x31, modrm_byte(0b11, dst.num(), dst.num())]
}

/// `xor dst, dst` (64-bit; sets dst = 0).
pub fn xor_rr(em: &mut Emitter, dst: Reg)
    ensures
        final(em)@ == old(em)@ + enc_xor_rr(dst),
{
    proof {
        reveal(enc_xor_rr);
    }
    em.u8(rex(true, dst.high1(), 0, dst.high1()));
    em.u8(0x31);
    em.u8(modrm(0b11, dst.low3(), dst.low3()));
}

/// The bytes of [`add_rr`].
#[verifier::opaque]
pub open spec fn enc_add_rr(dst: Reg, src: Reg) -> Seq<u8> {
    seq![rex_byte(true, src.num() / 8, 0, dst.num() / 8), 0x01, modrm_byte(0b11, src.num(), dst.num())]
}

/// `add dst, src` (64-bit).
pub fn add_rr(em: &mut Emitter, dst: Reg, src: Reg)
    ensures
        final(em)@ == old(em)@ + enc_add_rr(dst, src),
{
    proof {
        reveal(enc_add_rr);
    }
    em.u8(rex(true, src.high1(), 0, dst.high1()));
    em.u8(0x01);
    em.u8(modrm(0b11, src.low3(), dst.low3()));
}

/// The bytes of [`add_ri32`].
#[verifier::opaque]
pub open spec fn enc_add_ri32(dst: Reg, imm: i32) -> Seq<u8> {
    seq![rex_byte(true, 0, 0, dst.num() / 8), 0x81, modrm_byte(0b11, 0, dst.num())] + imm32(imm)
}

/// `add dst, imm32` (sign-extended to 64).
pub fn add_ri32(em: &mut Emitter, dst: Reg, imm: i32)
    ensures
        final(em)@ == old(em)@ + enc_add_ri32(dst, imm),
{
    proof {
        reveal(enc_add_ri32);
    }
    em.u8(rex(true, 0, 0, dst.high1()));
    em.u8(0x81);
    em.u8(modrm(0b11, 0, dst.low3()));
    em.u32(i32_bits(imm));
}

/// The bytes of [`sub_ri32`].
#[verifier::opaque]
pub open spec fn enc_sub_ri32(dst: Reg, imm: i32) -> Seq<u8> {
    seq![rex_byte(true, 0, 0, dst.num() / 8), 0x81, modrm_byte(0b11, 0b101, dst.num())] + imm32(imm)
}

/// `sub dst, imm32`.
pub fn sub_ri32(em: &mut Emitter, dst: Reg, imm: i32)
    ensures
        final(em)@ == old(em)@ + enc_sub_ri32(dst, imm),
{
    proof {
        reveal(enc_sub_ri32);
    }
    em.u8(rex(true, 0, 0, dst.high1()));
    em.u8(0x81);
    em.u8(modrm(0b11, 0b101, dst.low3()));
    em.u32(i32_bits(imm));
}

/// The bytes of [`cmp_ri32`].
#[verifier::opaque]
pub open spec fn enc_cmp_ri32(dst: Reg, imm: i32) -> Seq<u8> {
    seq![rex_byte(true, 0, 0, dst.num() / 8), 0x81, modrm_byte(0b11, 0b111, dst.num())] + imm32(imm)
}

/// `cmp dst, imm32`.
pub fn cmp_ri32(em: &mut Emitter, dst: Reg, imm: i32)
    ensures
        final(em)@ == old(em)@ + enc_cmp_ri32(dst, imm),
{
    proof {
        reveal(enc_cmp_ri32);
    }
    em.u8(rex(true, 0, 0, dst.high1()));
    em.u8(0x81);
    em.u8(modrm(0b11, 0b111, dst.low3()));
    em.u32(i32_bits(imm));
}

/// The bytes of [`imul_rri32`].
#[verifier::opaque]
pub open spec fn enc_imul_rri32(dst: Reg, src: Reg, imm: i32) -> Seq<u8> {
    seq![rex_byte(true, dst.num() / 8, 0, src.num() / 8), 0x69, modrm_byte(0b11, dst.num(), src.num())]
        + imm32(imm)
}

/// `imul dst, src, imm32`.
pub fn imul_rri32(em: &mut Emitter, dst: Reg, src: Reg, imm: i32)
    ensures
        final(em)@ == old(em)@ + enc_imul_rri32(dst, src, imm),
{
    proof {
        reveal(enc_imul_rri32);
    }
    em.u8(rex(true, dst.high1(), 0, src.high1()));
    em.u8(0x69);
    em.u8(modrm(0b11, dst.low3(), src.low3()));
    em.u32(i32_bits(imm));
}

/// The bytes of [`inc_r`].
#[verifier::opaque]
pub open spec fn enc_inc_r(dst: Reg) -> Seq<u8> {
    seq![rex_byte(true, 0, 0, dst.num() / 8), 0xFF, modrm_byte(0b11, 0, dst.num())]
}

/// `inc r64`.
pub fn inc_r(em: &mut Emitter, dst: Reg)
    ensures
        final(em)@ == old(em)@ + enc_inc_r(dst),
{
    proof {
        reveal(enc_inc_r);
    }
    em.u8(rex(true, 0, 0, dst.high1()));
    em.u8(0xFF);
    em.u8(modrm(0b11, 0, dst.low3()));
}

/// The bytes of [`push_r64`].
#[verifier::opaque]
pub open spec fn enc_push_r64(r: Reg) -> Seq<u8> {
    opt_rex(0, 0, r.num() / 8) + seq![(0x50 + r.num() % 8) as u8]
}

/// `push r64`.
pub fn push_r64(em: &mut Emitter, r: Reg)
    ensures
        final(em)@ == old(em)@ + enc_push_r64(r),
{
    proof {
        reveal(enc_push_r64);
    }
    emit_opt_rex(em, 0, 0, r.high1());
    em.u8(0x50 + r.low3());
}

/// The bytes of [`pop_r64`].
#[verifier::opaque]
pub open spec fn enc_pop_r64(r: Reg) -> Seq<u8> {
    opt_rex(0, 0, r.num() / 8) + seq![(0x58 + r.num() % 8) as u8]
}

/// `pop r64`.
pub fn pop_r64(em: &mut Emitter, r: Reg)
    ensures
        final(em)@ == old(em)@ + enc_pop_r64(r),
{
    proof {
        reveal(enc_pop_r64);
    }
    emit_opt_rex(em, 0, 0, r.high1());
    em.u8(0x58 + r.low3());
}

/// The bytes of [`ret`].
#[verifier::opaque]
pub open spec fn enc_ret() -> Seq<u8> {
    seq![0xC3u8]
}

/// `ret`.
pub fn ret(em: &mut Emitter)
    ensures
        final(em)@ == old(em)@ + enc_ret(),
{
    proof {
        reveal(enc_ret);
    }
    em.u8(0xC3);
}

/// A near conditional jump over `delta` bytes, counted from its end.
pub open spec fn enc_jcc_rel32(cond: Cond, delta: int) -> Seq<u8> {
    seq![0x0Fu8, (0x80 + cond.num()) as u8] + le_bytes(wrap32(delta), 4)
}

/// A near jump over `delta` bytes, counted from its end.
pub open spec fn enc_jmp_rel32(delta: int) -> Seq<u8> {
    seq![0xE9u8] + le_bytes(wrap32(delta), 4)
}

/// Conditional jump near, 32-bit relative displacement. Returns the offset of
/// the displacement bytes so the caller can patch it once the target is known.
pub fn jcc_rel32_placeholder(em: &mut Emitter, cond: Cond) -> (off: usize)
    ensures
        final(em)@ == old(em)@ + enc_jcc_rel32(cond, 0),
        off == old(em)@.len() + 2,
        final(em)@.len() == off + 4,
{
    em.u8(0x0F);
    em.u8(0x80 + cond.code());
    let off: usize = em.len();
    em.u32(0);
    proof {
        lemma_le_bytes_len(0, 4);
    }
    off
}

/// Unconditional jump near, 32-bit relative displacement. Returns the offset
/// of the displacement bytes.
pub fn jmp_rel32_placeholder(em: &mut Emitter) -> (off: usize)
    ensures
        final(em)@ == old(em)@ + enc_jmp_rel32(0),
        off == old(em)@.len() + 1,
        final(em)@.len() == off + 4,
{
    em.u8(0xE9);
    let off: usize = em.len();
    em.u32(0);
    proof {
        lemma_le_bytes_len(0, 4);
    }
    off
}

/// The 32-bit pattern of a difference is that of the difference of the
/// patterns.
proof fn lemma_wrap32_difference(a: int, b: int)
    ensures
        wrap32(a - b) == (if wrap32(a) >= wrap32(b) {
            wrap32(a) - wrap32(b)
        } else {
            wrap32(a) - wrap32(b) + 0x1_0000_0000
        }),
{
    let m = 0x1_0000_0000int;
    let d = wrap32(a) - wrap32(b);
    assert(a == m * (a / m) + a % m && b == m * (b / m) + b % m);
    let q = a / m - b / m;
    assert(a - b == m * q + d);
    if d >= 0 {
        assert((a - b) % m == d);
    } else {
        assert((a - b) % m == d + m);
    }
}

/// Patch a previously-emitted rel32 displacement to land at `target_offset`:
/// the displacement counts from the end of its four bytes.
pub fn patch_rel32(em: &mut Emitter, disp_offset: usize, target_offset: usize)
    requires
        disp_offset + 4 <= old(em)@.len(),
    ensures
        final(em)@ == patched(
            old(em)@,
            disp_offset as int,
            le_bytes(wrap32(target_offset - (disp_offset + 4)), 4),
        ),
{
    assert(em.buf.len() == em@.len());
    let next_ip: u32 = ((disp_offset + 4) as u64 % 0x1_0000_0000) as u32;
    let target: u32 = (target_offset as u64 % 0x1_0000_0000) as u32;
    let rel: u32 = target.wrapping_sub(next_ip);
    proof {
        lemma_wrap32_difference(target_offset as int, disp_offset + 4);
    }
    em.patch_u32(disp_offset, rel);
}

/// The bytes of [`movsx_r32_m8`].
#[verifier::opaque]
pub open spec fn enc_movsx_r32_m8(
    dst: Reg,
    base: Reg,
    index: Option<(Reg, Scale)>,
    disp: i32,
) -> Seq<u8> {
    opt_rex(dst.num() / 8, index_high(index), base.num() / 8) + seq![0x0Fu8, 0xBE] + mem_bytes(
        dst.num() % 8,
        base,
        index,
        disp,
    )
}

/// `movsx dst32, byte ptr [base + index*scale + disp32]`: sign-extend an 8-bit
/// value from memory into a 32-bit destination register.
pub fn movsx_r32_m8(em: &mut Emitter, dst: Reg, base: Reg, index: Option<(Reg, Scale)>, disp: i32)
    requires
        mem_ok(base, index),
    ensures
        final(em)@ == old(em)@ + enc_movsx_r32_m8(dst, base, index, disp),
{
    proof {
        reveal(enc_movsx_r32_m8);
    }
    emit_opt_rex(em, dst.high1(), high_of_index(index), base.high1());
    em.u8(0x0F);
    em.u8(0xBE);
    emit_modrm_sib_disp32(em, dst.low3(), base, index, disp);
}

// ---- SSE scalar single-precision instructions ------------------------------

/// The bytes of [`movss_load`].
#[verifier::opaque]
pub open spec fn enc_movss_load(
    dst: Xmm,
    base: Reg,
    index: Option<(Reg, Scale)>,
    disp: i32,
) -> Seq<u8> {
    seq![0xF3u8] + opt_rex(dst.0 / 8, index_high(index), base.num() / 8) + seq![0x0Fu8, 0x10]
        + mem_bytes(dst.0 % 8, base, index, disp)
}

/// `movss xmm, [base + index*scale + disp32]`. Pass `index = None` for no SIB.
pub fn movss_load(em: &mut Emitter, dst: Xmm, base: Reg, index: Option<(Reg, Scale)>, disp: i32)
    requires
        mem_ok(base, index),
    ensures
        final(em)@ == old(em)@ + enc_movss_load(dst, base, index, disp),
{
    proof {
        reveal(enc_movss_load);
    }
    em.u8(0xF3);
    emit_rex_for_sse_mem(em, dst, base, index);
    em.u8(0x0F);
    em.u8(0x10);
    emit_modrm_sib_disp32(em, dst.low3(), base, index, disp);
}

/// The bytes of [`movss_store`].
#[verifier::opaque]
pub open spec fn enc_movss_store(
    src: Xmm,
    base: Reg,
    index: Option<(Reg, Scale)>,
    disp: i32,
) -> Seq<u8> {
    seq![0xF3u8] + opt_rex(src.0 / 8, index_high(index), base.num() / 8) + seq![0x0Fu8, 0x11]
        + mem_bytes(src.0 % 8, base, index, disp)
}

/// `movss [base + index*scale + disp32], xmm`.
pub fn movss_store(em: &mut Emitter, src: Xmm, base: Reg, index: Option<(Reg, Scale)>, disp: i32)
    requires
        mem_ok(base, index),
    ensures
        final(em)@ == old(em)@ + enc_movss_store(src, base, index, disp),
{
    proof {
        reveal(enc_movss_store);
    }
    em.u8(0xF3);
    emit_rex_for_sse_mem(em, src, base, index);
    em.u8(0x0F);
    em.u8(0x11);
    emit_modrm_sib_disp32(em, src.low3(), base, index, disp);
}

/// The bytes of [`addss_load`].
#[verifier::opaque]
pub open spec fn enc_addss_load(
    dst: Xmm,
    base: Reg,
    index: Option<(Reg, Scale)>,
    disp: i32,
) -> Seq<u8> {
    seq![0xF3u8] + opt_rex(dst.0 / 8, index_high(index), base.num() / 8) + seq![0x0Fu8, 0x58]
        + mem_bytes(dst.0 % 8, base, index, disp)
}

/// `addss dst, [base + index*scale + disp32]`.
pub fn addss_load(em: &mut Emitter, dst: Xmm, base: Reg, index: Option<(Reg, Scale)>, disp: i32)
    requires
        mem_ok(base, index),
    ensures
        final(em)@ == old(em)@ + enc_addss_load(dst, base, index, disp),
{
    proof {
        reveal(enc_addss_load);
    }
    em.u8(0xF3);
    emit_rex_for_sse_mem(em, dst, base, index);
    em.u8(0x0F);
    em.u8(0x58);
    emit_modrm_sib_disp32(em, dst.low3(), base, index, disp);
}

/// The bytes of [`mulss_load`].
#[verifier::opaque]
pub open spec fn enc_mulss_load(
    dst: Xmm,
    base: Reg,
    index: Option<(Reg, Scale)>,
    disp: i32,
) -> Seq<u8> {
    seq![0xF3u8] + opt_rex(dst.0 / 8, index_high(index), base.num() / 8) + seq![0x0Fu8, 0x59]
        + mem_bytes(dst.0 % 8, base, index, disp)
}

/// `mulss dst, [base + index*scale + disp32]`.
pub fn mulss_load(em: &mut Emitter, dst: Xmm, base: Reg, index: Option<(Reg, Scale)>, disp: i32)
    requires
        mem_ok(base, index),
    ensures
        final(em)@ == old(em)@ + enc_mulss_load(dst, base, index, disp),
{
    proof {
        reveal(enc_mulss_load);
    }
    em.u8(0xF3);
    emit_rex_for_sse_mem(em, dst, base, index);
    em.u8(0x0F);
    em.u8(0x59);
    emit_modrm_sib_disp32(em, dst.low3(), base, index, disp);
}

/// The bytes of [`xorps_self`].
#[verifier::opaque]
pub open spec fn enc_xorps_self(dst: Xmm) -> Seq<u8> {
    opt_rex(dst.0 / 8, 0, dst.0 / 8) + seq![0x0Fu8, 0x57, modrm_byte(0b11, dst.0, dst.0)]
}

/// `xorps dst, dst`. Used to zero an XMM register.
pub fn xorps_self(em: &mut Emitter, dst: Xmm)
    ensures
        final(em)@ == old(em)@ + enc_xorps_self(dst),
{
    proof {
        reveal(enc_xorps_self);
    }
    emit_opt_rex(em, dst.high1(), 0, dst.high1());
    em.u8(0x0F);
    em.u8(0x57);
    em.u8(modrm(0b11, dst.low3(), dst.low3()));
}

/// The bytes of [`mulss_xmm`].
#[verifier::opaque]
pub open spec fn enc_mulss_xmm(dst: Xmm, src: Xmm) -> Seq<u8> {
    seq![0xF3u8]
        + opt_rex(dst.0 / 8, 0, src.0 / 8)
        + seq![0x0Fu8, 0x59, modrm_byte(0b11, dst.0, src.0)]
}

/// `mulss dst, src` (xmm-xmm).
pub fn mulss_xmm(em: &mut Emitter, dst: Xmm, src: Xmm)
    ensures
        final(em)@ == old(em)@ + enc_mulss_xmm(dst, src),
{
    proof {
        reveal(enc_mulss_xmm);
    }
    em.u8(0xF3);
    emit_opt_rex(em, dst.high1(), 0, src.high1());
    em.u8(0x0F);
    em.u8(0x59);
    em.u8(modrm(0b11, dst.low3(), src.low3()));
}

/// The bytes of [`addss_xmm`].
#[verifier::opaque]
pub open spec fn enc_addss_xmm(dst: Xmm, src: Xmm) -> Seq<u8> {
    seq![0xF3u8]
        + opt_rex(dst.0 / 8, 0, src.0 / 8)
        + seq![0x0Fu8, 0x58, modrm_byte(0b11, dst.0, src.0)]
}

/// `addss dst, src` (xmm-xmm).
pub fn addss_xmm(em: &mut Emitter, dst: Xmm, src: Xmm)
    ensures
        final(em)@ == old(em)@ + enc_addss_xmm(dst, src),
{
    proof {
        reveal(enc_addss_xmm);
    }
    em.u8(0xF3);
    emit_opt_rex(em, dst.high1(), 0, src.high1());
    em.u8(0x0F);
    em.u8(0x58);
    em.u8(modrm(0b11, dst.low3(), src.low3()));
}

} // verus!
