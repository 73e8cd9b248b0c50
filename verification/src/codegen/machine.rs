//! What structured code means: a model of the processor.
//!
//! The model has the general-purpose registers, the vector registers as lanes
//! of 32 bits, and byte-addressed memory. It leaves floating-point arithmetic
//! open: an [`Fpu`] says what its operations give.

use crate::bytes::{
    le_bytes, le_value, lemma_le_bytes_len, lemma_le_bytes_of_le_value, lemma_le_value_of_le_bytes,
    lemma_pow256_values,
};
use crate::codegen::assembler::{
    ByteInst, Code, ConvInst, FloatInst, Inst, IntInst, Mem, MemInst, SseInst, ZmmInst,
};
use crate::codegen::avx2_enc::{Ymm, Zmm};
use crate::codegen::x86_64_enc::{Reg, Scale, Xmm};
use crate::float_bits::p2;
use vstd::prelude::*;

verus! {

/// Floating-point arithmetic on bit patterns.
pub struct Fpu {
    /// The sum of two fp32 numbers.
    pub add: spec_fn(u32, u32) -> u32,
    /// The product of two fp32 numbers.
    pub mul: spec_fn(u32, u32) -> u32,
    /// The quotient of two fp32 numbers.
    pub div: spec_fn(u32, u32) -> u32,
    /// The square root of an fp32 number.
    pub sqrt: spec_fn(u32) -> u32,
    /// The product of the first two numbers plus the third, rounded once.
    pub fma: spec_fn(u32, u32, u32) -> u32,
    /// An fp16 number as fp32.
    pub widen: spec_fn(u16) -> u32,
    /// A signed 32-bit integer as fp32.
    pub from_int: spec_fn(int) -> u32,
}

/// The state of the processor.
pub struct Machine {
    /// General-purpose registers, each below `2^64`.
    pub regs: Map<Reg, int>,
    /// Vector registers: 16 lanes of 32 bits.
    pub vecs: Map<u8, Seq<u32>>,
    /// The byte at each address.
    pub mem: spec_fn(int) -> u8,
    /// Where the code has returned to.
    pub returned: Option<int>,
}

/// How many values a general-purpose register has.
pub open spec fn word_count() -> int {
    0x1_0000_0000_0000_0000
}

/// A register's value as a signed number.
pub open spec fn signed64(v: int) -> int {
    if v < 0x8000_0000_0000_0000 {
        v
    } else {
        v - word_count()
    }
}

/// A lane's value as a signed number.
pub open spec fn signed32(v: u32) -> int {
    if v < 0x8000_0000 {
        v as int
    } else {
        v - 0x1_0000_0000
    }
}

/// A byte's value as a signed number.
pub open spec fn signed8(b: u8) -> int {
    if b < 128 {
        b as int
    } else {
        b - 256
    }
}

/// A 16-bit value as a signed number.
pub open spec fn signed16(h: u16) -> int {
    if h < 0x8000 {
        h as int
    } else {
        h - 0x1_0000
    }
}

/// The low 32 bits of a number.
pub open spec fn low(v: int) -> u32 {
    (v % 0x1_0000_0000) as u32
}

// ---- memory ---------------------------------------------------------------------------

/// `n` bytes from an address on.
pub open spec fn bytes_at(mem: spec_fn(int) -> u8, at: int, n: nat) -> Seq<u8> {
    Seq::new(n, |i: int| mem(at + i))
}

/// The 32-bit word at an address.
pub open spec fn word_at(mem: spec_fn(int) -> u8, at: int) -> u32 {
    le_value(bytes_at(mem, at, 4)) as u32
}

/// Memory with some bytes written from an address on.
pub open spec fn written(mem: spec_fn(int) -> u8, at: int, bytes: Seq<u8>) -> spec_fn(int) -> u8 {
    |k: int|
        if at <= k < at + bytes.len() {
            bytes[k - at]
        } else {
            mem(k)
        }
}

/// The bytes of the first `n` lanes.
pub open spec fn lane_bytes(v: Seq<u32>, n: nat) -> Seq<u8> {
    Seq::new(4 * n, |k: int| le_bytes(v[k / 4] as nat, 4)[k % 4])
}

/// `n` words from an address on.
pub open spec fn words(mem: spec_fn(int) -> u8, at: int, n: nat) -> Seq<u32> {
    Seq::new(n, |i: int| word_at(mem, at + 4 * i))
}

impl Machine {
    /// The address of a memory operand. The stack pointer as an index means
    /// that there is none.
    pub open spec fn addr(self, m: Mem) -> int {
        let s = match m.scale {
            Scale::S1 => 1int,
            Scale::S2 => 2int,
            Scale::S4 => 4int,
            Scale::S8 => 8int,
        };
        let idx = if m.idx == Reg::RSP {
            0
        } else {
            self.regs[m.idx]
        };
        (self.regs[m.base] + idx * s + m.disp) % word_count()
    }

    /// With a register set, modulo `2^64`.
    pub open spec fn set(self, r: Reg, v: int) -> Machine {
        Machine { regs: self.regs.insert(r, v % word_count()), ..self }
    }

    /// With the first `n` lanes of a vector register set, and the others
    /// cleared.
    pub open spec fn put(self, r: u8, n: int, f: spec_fn(int) -> u32) -> Machine {
        Machine {
            vecs: self.vecs.insert(
                r,
                Seq::new(
                    16,
                    |i: int|
                        if i < n {
                            f(i)
                        } else {
                            0
                        },
                ),
            ),
            ..self
        }
    }

    /// With the lowest lane of a vector register set.
    pub open spec fn put_low(self, r: u8, v: u32) -> Machine {
        Machine { vecs: self.vecs.insert(r, self.vecs[r].update(0, v)), ..self }
    }

    /// With bytes written to memory.
    pub open spec fn store(self, at: int, bytes: Seq<u8>) -> Machine {
        Machine { mem: written(self.mem, at, bytes), ..self }
    }
}

// ---- instructions ---------------------------------------------------------------------

/// What an instruction on general-purpose registers does.
#[verifier::opaque]
pub open spec fn int_step(i: IntInst, s: Machine) -> Machine {
    match i {
        IntInst::Push(a) => {
            let sp = (s.regs[Reg::RSP] - 8) % word_count();
            s.set(Reg::RSP, sp).store(sp, le_bytes(s.regs[a] as nat, 8))
        },
        IntInst::Pop(a) => {
            let sp = s.regs[Reg::RSP];
            s.set(Reg::RSP, sp + 8).set(a, le_value(bytes_at(s.mem, sp, 8)) as int)
        },
        IntInst::Ret => {
            let sp = s.regs[Reg::RSP];
            Machine {
                returned: Some(le_value(bytes_at(s.mem, sp, 8)) as int),
                ..s.set(Reg::RSP, sp + 8)
            }
        },
        IntInst::MovRR(a, b) => s.set(a, s.regs[b]),
        IntInst::MovRI32(a, v) => s.set(a, v as int),
        IntInst::AddRR(a, b) => s.set(a, s.regs[a] + s.regs[b]),
        IntInst::AddRI(a, v) => s.set(a, s.regs[a] + v),
        IntInst::SubRI(a, v) => s.set(a, s.regs[a] - v),
        IntInst::ImulRRI(a, b, v) => s.set(a, s.regs[b] * v),
        IntInst::MovsxR32M8(a, m) => s.set(a, low(signed8((s.mem)(s.addr(m)))) as int),
    }
}

/// What an SSE instruction does. The lanes above the lowest four stay.
#[verifier::opaque]
pub open spec fn sse_step(i: SseInst, fpu: Fpu, s: Machine) -> Machine {
    match i {
        SseInst::MovssLoad(a, m) => {
            let v = s.vecs[a.0];
            Machine {
                vecs: s.vecs.insert(
                    a.0,
                    v.update(0, word_at(s.mem, s.addr(m))).update(1, 0).update(2, 0).update(3, 0),
                ),
                ..s
            }
        },
        SseInst::MovssStore(a, m) => s.store(s.addr(m), le_bytes(s.vecs[a.0][0] as nat, 4)),
        SseInst::MulssLoad(a, m) => s.put_low(
            a.0,
            (fpu.mul)(s.vecs[a.0][0], word_at(s.mem, s.addr(m))),
        ),
        SseInst::AddssXmm(a, b) => s.put_low(a.0, (fpu.add)(s.vecs[a.0][0], s.vecs[b.0][0])),
        SseInst::XorpsSelf(a) => Machine {
            vecs: s.vecs.insert(
                a.0,
                s.vecs[a.0].update(0, 0).update(1, 0).update(2, 0).update(3, 0),
            ),
            ..s
        },
    }
}

/// What an AVX instruction with a memory operand does.
#[verifier::opaque]
pub open spec fn mem_step(i: MemInst, fpu: Fpu, s: Machine) -> Machine {
    match i {
        MemInst::VmovupsLoad(a, m) => s.put(a.0, 8, |j: int| word_at(s.mem, s.addr(m) + 4 * j)),
        MemInst::VmovupsStore(a, m) => s.store(s.addr(m), lane_bytes(s.vecs[a.0], 8)),
        MemInst::Vbroadcastss(a, m) => s.put(a.0, 8, |j: int| word_at(s.mem, s.addr(m))),
        MemInst::Vfmadd231psMem(a, b, m) => s.put(
            a.0,
            8,
            |j: int|
                (fpu.fma)(s.vecs[b.0][j], word_at(s.mem, s.addr(m) + 4 * j), s.vecs[a.0][j]),
        ),
        MemInst::VmovdLoad(a, m) => s.put(a.0, 1, |j: int| word_at(s.mem, s.addr(m))),
        MemInst::VpmovsxbdLoad(a, m) => s.put(
            a.0,
            8,
            |j: int| low(signed8((s.mem)(s.addr(m) + j))),
        ),
        MemInst::VmovdquLoad(a, m) => s.put(a.0, 8, |j: int| word_at(s.mem, s.addr(m) + 4 * j)),
    }
}

/// The lowest lane from `x`, the next three from `rest`.
pub open spec fn low_lane(x: u32, rest: Seq<u32>, j: int) -> u32 {
    if j == 0 {
        x
    } else {
        rest[j]
    }
}

/// What an AVX instruction on floats in registers does.
#[verifier::opaque]
pub open spec fn float_step(i: FloatInst, fpu: Fpu, s: Machine) -> Machine {
    match i {
        FloatInst::VxorpsZero(a) => s.put(a.0, 8, |j: int| 0u32),
        FloatInst::VbroadcastssXmm(a, b) => s.put(a.0, 8, |j: int| s.vecs[b.0][0]),
        FloatInst::Vfmadd231psReg(a, b, c) => s.put(
            a.0,
            8,
            |j: int| (fpu.fma)(s.vecs[b.0][j], s.vecs[c.0][j], s.vecs[a.0][j]),
        ),
        FloatInst::VmulpsReg(a, b, c) => s.put(
            a.0,
            8,
            |j: int| (fpu.mul)(s.vecs[b.0][j], s.vecs[c.0][j]),
        ),
        FloatInst::VaddpsReg(a, b, c) => s.put(
            a.0,
            8,
            |j: int| (fpu.add)(s.vecs[b.0][j], s.vecs[c.0][j]),
        ),
        FloatInst::VhaddpsYmm(a, b, c) => s.put(
            a.0,
            8,
            |j: int|
                {
                    let from = if j % 4 < 2 {
                        s.vecs[b.0]
                    } else {
                        s.vecs[c.0]
                    };
                    let at = j / 4 * 4 + j % 2 * 2;
                    (fpu.add)(from[at], from[at + 1])
                },
        ),
        FloatInst::Vextractf128Xmm(a, b, half) => s.put(
            a.0,
            4,
            |j: int| s.vecs[b.0][half % 2 * 4 + j],
        ),
        FloatInst::VsqrtssXmm(a, b, c) => s.put(
            a.0,
            4,
            |j: int| low_lane((fpu.sqrt)(s.vecs[c.0][0]), s.vecs[b.0], j),
        ),
        FloatInst::VdivssXmm(a, b, c) => s.put(
            a.0,
            4,
            |j: int| low_lane((fpu.div)(s.vecs[b.0][0], s.vecs[c.0][0]), s.vecs[b.0], j),
        ),
        FloatInst::VaddssXmm(a, b, c) => s.put(
            a.0,
            4,
            |j: int| low_lane((fpu.add)(s.vecs[b.0][0], s.vecs[c.0][0]), s.vecs[b.0], j),
        ),
        FloatInst::VmulssXmm(a, b, c) => s.put(
            a.0,
            4,
            |j: int| low_lane((fpu.mul)(s.vecs[b.0][0], s.vecs[c.0][0]), s.vecs[b.0], j),
        ),
    }
}

/// One half of a lane.
pub open spec fn half_of(v: u32, j: int) -> u16 {
    if j == 0 {
        (v % 0x1_0000) as u16
    } else {
        (v / 0x1_0000) as u16
    }
}

/// One half of a lane, without its low `n` bits.
pub open spec fn half_shifted(v: u32, j: int, n: u8) -> int {
    half_of(v, j) as int / p2(n as nat) as int
}

/// What a conversion does.
#[verifier::opaque]
pub open spec fn conv_step(i: ConvInst, fpu: Fpu, s: Machine) -> Machine {
    match i {
        ConvInst::VmovdLoadReg(a, r) => s.put(a.0, 1, |j: int| low(s.regs[r])),
        ConvInst::Vcvtph2psXmm(a, b) => s.put(
            a.0,
            4,
            |j: int| (fpu.widen)(half_of(s.vecs[b.0][j / 2], j % 2)),
        ),
        ConvInst::Vcvtdq2ps(a, b) => s.put(
            a.0,
            8,
            |j: int| (fpu.from_int)(signed32(s.vecs[b.0][j])),
        ),
        ConvInst::Vcvtsi2ssXmmR32(a, b, r) => s.put(
            a.0,
            4,
            |j: int| low_lane((fpu.from_int)(signed32(low(s.regs[r]))), s.vecs[b.0], j),
        ),
    }
}

/// One byte of a lane.
pub open spec fn byte_of(v: u32, j: int) -> u8 {
    le_bytes(v as nat, 4)[j]
}

/// A lane made of four bytes.
pub open spec fn lane_of(f: spec_fn(int) -> u8) -> u32 {
    le_value(Seq::new(4, |j: int| f(j))) as u32
}

/// `-x` where `y` is negative, 0 where it is zero, `x` otherwise.
pub open spec fn with_sign(x: u8, y: u8) -> u8 {
    if signed8(y) < 0 {
        ((256 - x) % 256) as u8
    } else if y == 0 {
        0
    } else {
        x
    }
}

/// A number moved into the range of signed 16-bit numbers.
pub open spec fn saturated16(v: int) -> int {
    if v < -32768 {
        -32768
    } else if v > 32767 {
        32767
    } else {
        v
    }
}

/// A lane made of two 16-bit numbers.
pub open spec fn lane_of_halves(a: int, b: int) -> u32 {
    (a % 0x1_0000 + b % 0x1_0000 * 0x1_0000) as u32
}

/// The unsigned byte of one lane times the signed byte of another.
pub open spec fn byte_product(x: u32, y: u32, j: int) -> int {
    byte_of(x, j) * signed8(byte_of(y, j))
}

/// The sum of two neighbouring products of bytes, saturated.
pub open spec fn pair_sum(x: u32, y: u32, j: int) -> int {
    saturated16(byte_product(x, y, 2 * j) + byte_product(x, y, 2 * j + 1))
}

/// The sum of a lane's four products of bytes.
pub open spec fn quad_sum(x: u32, y: u32) -> int {
    byte_product(x, y, 0) + byte_product(x, y, 1) + byte_product(x, y, 2) + byte_product(x, y, 3)
}

/// What an instruction on packed integers does.
#[verifier::opaque]
pub open spec fn byte_step(i: ByteInst, s: Machine) -> Machine {
    match i {
        ByteInst::VpsignbReg(a, b, c) => s.put(
            a.0,
            8,
            |j: int|
                lane_of(|k: int| with_sign(byte_of(s.vecs[b.0][j], k), byte_of(s.vecs[c.0][j], k))),
        ),
        ByteInst::VpmaddubswReg(a, b, c) => s.put(
            a.0,
            8,
            |j: int|
                lane_of_halves(
                    pair_sum(s.vecs[b.0][j], s.vecs[c.0][j], 0),
                    pair_sum(s.vecs[b.0][j], s.vecs[c.0][j], 1),
                ),
        ),
        ByteInst::VpmaddwdReg(a, b, c) => s.put(
            a.0,
            8,
            |j: int|
                low(
                    signed16(half_of(s.vecs[b.0][j], 0)) * signed16(half_of(s.vecs[c.0][j], 0))
                        + signed16(half_of(s.vecs[b.0][j], 1)) * signed16(
                        half_of(s.vecs[c.0][j], 1),
                    ),
                ),
        ),
        ByteInst::VpcmpeqdReg(a, b, c) => s.put(
            a.0,
            8,
            |j: int|
                if s.vecs[b.0][j] == s.vecs[c.0][j] {
                    0xFFFF_FFFFu32
                } else {
                    0u32
                },
        ),
        ByteInst::VpsrlwImm8(a, b, n) => s.put(
            a.0,
            8,
            |j: int|
                lane_of_halves(
                    half_shifted(s.vecs[b.0][j], 0, n),
                    half_shifted(s.vecs[b.0][j], 1, n),
                ),
        ),
        ByteInst::VpdpbusdVexReg(a, b, c) => dot_step(a.0, b.0, c.0, s),
        ByteInst::VpdpbusdEvexReg(a, b, c) => dot_step(a.0, b.0, c.0, s),
    }
}

/// Adds to each lane the products of its bytes.
pub open spec fn dot_step(a: u8, b: u8, c: u8, s: Machine) -> Machine {
    s.put(
        a,
        8,
        |j: int| low(signed32(s.vecs[a][j]) + quad_sum(s.vecs[b][j], s.vecs[c][j])),
    )
}

/// What an AVX-512 instruction does.
#[verifier::opaque]
pub open spec fn zmm_step(i: ZmmInst, fpu: Fpu, s: Machine) -> Machine {
    match i {
        ZmmInst::VxorpsZmmZero(a) => s.put(a.0, 16, |j: int| 0u32),
        ZmmInst::VaddpsZmmReg(a, b, c) => s.put(
            a.0,
            16,
            |j: int| (fpu.add)(s.vecs[b.0][j], s.vecs[c.0][j]),
        ),
        ZmmInst::VmulpsZmmReg(a, b, c) => s.put(
            a.0,
            16,
            |j: int| (fpu.mul)(s.vecs[b.0][j], s.vecs[c.0][j]),
        ),
        ZmmInst::Vcvtdq2psZmm(a, b) => s.put(
            a.0,
            16,
            |j: int| (fpu.from_int)(signed32(s.vecs[b.0][j])),
        ),
        ZmmInst::VbroadcastssZmmXmm(a, b) => s.put(a.0, 16, |j: int| s.vecs[b.0][0]),
        ZmmInst::VpmovsxbdZmmLoad(a, m) => s.put(
            a.0,
            16,
            |j: int| low(signed8((s.mem)(s.addr(m) + j))),
        ),
        ZmmInst::Vfmadd231psZmmMem(a, b, m) => s.put(
            a.0,
            16,
            |j: int|
                (fpu.fma)(s.vecs[b.0][j], word_at(s.mem, s.addr(m) + 4 * j), s.vecs[a.0][j]),
        ),
        ZmmInst::Vextractf32x8Zmm(a, b, half) => s.put(
            a.0,
            8,
            |j: int| s.vecs[b.0][half % 2 * 8 + j],
        ),
    }
}

/// What an instruction does.
#[verifier::opaque]
pub open spec fn step(i: Inst, fpu: Fpu, s: Machine) -> Machine {
    match i {
        Inst::Int(i) => int_step(i, s),
        Inst::Sse(i) => sse_step(i, fpu, s),
        Inst::Mem(i) => mem_step(i, fpu, s),
        Inst::Float(i) => float_step(i, fpu, s),
        Inst::Conv(i) => conv_step(i, fpu, s),
        Inst::Byte(i) => byte_step(i, s),
        Inst::Zmm(i) => zmm_step(i, fpu, s),
    }
}


// ---- instructions one by one -----------------------------------------------------------

/// What `mov_rr` does.
pub(crate) proof fn lemma_mov_rr(a: Reg, b: Reg, fpu: Fpu, s: Machine)
    ensures
        step(Inst::Int(IntInst::MovRR(a, b)), fpu, s) == s.set(a, s.regs[b]),
{
    reveal(step);
    reveal(int_step);
}

/// What `mov_ri` does.
pub(crate) proof fn lemma_mov_ri(a: Reg, v: u32, fpu: Fpu, s: Machine)
    ensures
        step(Inst::Int(IntInst::MovRI32(a, v)), fpu, s) == s.set(a, v as int),
{
    reveal(step);
    reveal(int_step);
}

/// What `add_rr` does.
pub(crate) proof fn lemma_add_rr(a: Reg, b: Reg, fpu: Fpu, s: Machine)
    ensures
        step(Inst::Int(IntInst::AddRR(a, b)), fpu, s) == s.set(a, s.regs[a] + s.regs[b]),
{
    reveal(step);
    reveal(int_step);
}

/// What `add_ri` does.
pub(crate) proof fn lemma_add_ri(a: Reg, v: i32, fpu: Fpu, s: Machine)
    ensures
        step(Inst::Int(IntInst::AddRI(a, v)), fpu, s) == s.set(a, s.regs[a] + v),
{
    reveal(step);
    reveal(int_step);
}

/// What `sub_ri` does.
pub(crate) proof fn lemma_sub_ri(a: Reg, v: i32, fpu: Fpu, s: Machine)
    ensures
        step(Inst::Int(IntInst::SubRI(a, v)), fpu, s) == s.set(a, s.regs[a] - v),
{
    reveal(step);
    reveal(int_step);
}

/// What `imul` does.
pub(crate) proof fn lemma_imul(a: Reg, b: Reg, v: i32, fpu: Fpu, s: Machine)
    ensures
        step(Inst::Int(IntInst::ImulRRI(a, b, v)), fpu, s) == s.set(a, s.regs[b] * v),
{
    reveal(step);
    reveal(int_step);
}

/// What `push` does.
pub(crate) proof fn lemma_push(a: Reg, fpu: Fpu, s: Machine)
    ensures
        step(Inst::Int(IntInst::Push(a)), fpu, s) == s.set(
            Reg::RSP,
            (s.regs[Reg::RSP] - 8) % word_count(),
        ).store(
            (s.regs[Reg::RSP] - 8) % word_count(),
            le_bytes(s.regs[a] as nat, 8),
        ),
{
    reveal(step);
    reveal(int_step);
}

/// What `pop` does.
pub(crate) proof fn lemma_pop(a: Reg, fpu: Fpu, s: Machine)
    ensures
        step(Inst::Int(IntInst::Pop(a)), fpu, s) == s.set(Reg::RSP, s.regs[Reg::RSP] + 8).set(
            a,
            le_value(bytes_at(s.mem, s.regs[Reg::RSP], 8)) as int,
        ),
{
    reveal(step);
    reveal(int_step);
}

/// What `ret` does.
pub(crate) proof fn lemma_ret(fpu: Fpu, s: Machine)
    ensures
        step(Inst::Int(IntInst::Ret), fpu, s) == (Machine {
            returned: Some(le_value(bytes_at(s.mem, s.regs[Reg::RSP], 8)) as int),
            ..s.set(Reg::RSP, s.regs[Reg::RSP] + 8)
        }),
{
    reveal(step);
    reveal(int_step);
}

/// What `movss_load` does.
pub(crate) proof fn lemma_movss_load(a: Xmm, m: Mem, fpu: Fpu, s: Machine)
    ensures
        step(Inst::Sse(SseInst::MovssLoad(a, m)), fpu, s) == (Machine {
            vecs: s.vecs.insert(
                a.0,
                s.vecs[a.0].update(0, word_at(s.mem, s.addr(m))).update(1, 0).update(2, 0).update(3, 0),
            ),
            ..s
        }),
{
    reveal(step);
    reveal(sse_step);
}

/// What `movss_store` does.
pub(crate) proof fn lemma_movss_store(a: Xmm, m: Mem, fpu: Fpu, s: Machine)
    ensures
        step(Inst::Sse(SseInst::MovssStore(a, m)), fpu, s) == s.store(
            s.addr(m),
            le_bytes(s.vecs[a.0][0] as nat, 4),
        ),
{
    reveal(step);
    reveal(sse_step);
}

/// What `mulss_load` does.
pub(crate) proof fn lemma_mulss_load(a: Xmm, m: Mem, fpu: Fpu, s: Machine)
    ensures
        step(Inst::Sse(SseInst::MulssLoad(a, m)), fpu, s) == s.put_low(
            a.0,
            (fpu.mul)(s.vecs[a.0][0], word_at(s.mem, s.addr(m))),
        ),
{
    reveal(step);
    reveal(sse_step);
}

/// What `addss` does.
pub(crate) proof fn lemma_addss(a: Xmm, b: Xmm, fpu: Fpu, s: Machine)
    ensures
        step(Inst::Sse(SseInst::AddssXmm(a, b)), fpu, s) == s.put_low(
            a.0,
            (fpu.add)(s.vecs[a.0][0], s.vecs[b.0][0]),
        ),
{
    reveal(step);
    reveal(sse_step);
}

/// What `xorps_self` does.
pub(crate) proof fn lemma_xorps_self(a: Xmm, fpu: Fpu, s: Machine)
    ensures
        step(Inst::Sse(SseInst::XorpsSelf(a)), fpu, s) == (Machine {
            vecs: s.vecs.insert(
                a.0,
                s.vecs[a.0].update(0, 0).update(1, 0).update(2, 0).update(3, 0),
            ),
            ..s
        }),
{
    reveal(step);
    reveal(sse_step);
}

/// What `vmovups_store` does.
pub(crate) proof fn lemma_vmovups_store(a: Ymm, m: Mem, fpu: Fpu, s: Machine)
    ensures
        step(Inst::Mem(MemInst::VmovupsStore(a, m)), fpu, s) == s.store(
            s.addr(m),
            lane_bytes(s.vecs[a.0], 8),
        ),
{
    reveal(step);
    reveal(mem_step);
}

/// What `vbroadcastss` does.
pub(crate) proof fn lemma_vbroadcastss(a: Ymm, m: Mem, fpu: Fpu, s: Machine)
    ensures
        step(Inst::Mem(MemInst::Vbroadcastss(a, m)), fpu, s) == s.put(
            a.0,
            8,
            |j: int| word_at(s.mem, s.addr(m)),
        ),
{
    reveal(step);
    reveal(mem_step);
}

/// What `vfmadd_mem` does.
pub(crate) proof fn lemma_vfmadd_mem(a: Ymm, b: Ymm, m: Mem, fpu: Fpu, s: Machine)
    ensures
        step(Inst::Mem(MemInst::Vfmadd231psMem(a, b, m)), fpu, s) == s.put(
            a.0,
            8,
            |j: int|
                (fpu.fma)(s.vecs[b.0][j], word_at(s.mem, s.addr(m) + 4 * j), s.vecs[a.0][j]),
        ),
{
    reveal(step);
    reveal(mem_step);
}

/// What `vxorps` does.
pub(crate) proof fn lemma_vxorps(a: Ymm, fpu: Fpu, s: Machine)
    ensures
        step(Inst::Float(FloatInst::VxorpsZero(a)), fpu, s) == s.put(
            a.0,
            8,
            |j: int| 0u32,
        ),
{
    reveal(step);
    reveal(float_step);
}

/// What `vmovups_load` does.
pub(crate) proof fn lemma_vmovups_load(a: Ymm, m: Mem, fpu: Fpu, s: Machine)
    ensures
        step(Inst::Mem(MemInst::VmovupsLoad(a, m)), fpu, s) == s.put(
            a.0,
            8,
            |j: int| word_at(s.mem, s.addr(m) + 4 * j),
        ),
{
    reveal(step);
    reveal(mem_step);
}

/// What `vfmadd_reg` does.
pub(crate) proof fn lemma_vfmadd_reg(a: Ymm, b: Ymm, c: Ymm, fpu: Fpu, s: Machine)
    ensures
        step(Inst::Float(FloatInst::Vfmadd231psReg(a, b, c)), fpu, s) == s.put(
            a.0,
            8,
            |j: int| (fpu.fma)(s.vecs[b.0][j], s.vecs[c.0][j], s.vecs[a.0][j]),
        ),
{
    reveal(step);
    reveal(float_step);
}

/// What `vmulps` does.
pub(crate) proof fn lemma_vmulps(a: Ymm, b: Ymm, c: Ymm, fpu: Fpu, s: Machine)
    ensures
        step(Inst::Float(FloatInst::VmulpsReg(a, b, c)), fpu, s) == s.put(
            a.0,
            8,
            |j: int| (fpu.mul)(s.vecs[b.0][j], s.vecs[c.0][j]),
        ),
{
    reveal(step);
    reveal(float_step);
}

/// What `vaddps` does.
pub(crate) proof fn lemma_vaddps(a: Ymm, b: Ymm, c: Ymm, fpu: Fpu, s: Machine)
    ensures
        step(Inst::Float(FloatInst::VaddpsReg(a, b, c)), fpu, s) == s.put(
            a.0,
            8,
            |j: int| (fpu.add)(s.vecs[b.0][j], s.vecs[c.0][j]),
        ),
{
    reveal(step);
    reveal(float_step);
}

/// What `vbroadcastss_xmm` does.
pub(crate) proof fn lemma_vbroadcastss_xmm(a: Ymm, b: Ymm, fpu: Fpu, s: Machine)
    ensures
        step(Inst::Float(FloatInst::VbroadcastssXmm(a, b)), fpu, s) == s.put(
            a.0,
            8,
            |j: int| s.vecs[b.0][0],
        ),
{
    reveal(step);
    reveal(float_step);
}

/// What `vmovd_load` does.
pub(crate) proof fn lemma_vmovd_load(a: Ymm, m: Mem, fpu: Fpu, s: Machine)
    ensures
        step(Inst::Mem(MemInst::VmovdLoad(a, m)), fpu, s) == s.put(
            a.0,
            1,
            |j: int| word_at(s.mem, s.addr(m)),
        ),
{
    reveal(step);
    reveal(mem_step);
}

/// What `vpmovsxbd` does.
pub(crate) proof fn lemma_vpmovsxbd(a: Ymm, m: Mem, fpu: Fpu, s: Machine)
    ensures
        step(Inst::Mem(MemInst::VpmovsxbdLoad(a, m)), fpu, s) == s.put(
            a.0,
            8,
            |j: int| low(signed8((s.mem)(s.addr(m) + j))),
        ),
{
    reveal(step);
    reveal(mem_step);
}

/// What `vcvtph2ps` does.
pub(crate) proof fn lemma_vcvtph2ps(a: Ymm, b: Ymm, fpu: Fpu, s: Machine)
    ensures
        step(Inst::Conv(ConvInst::Vcvtph2psXmm(a, b)), fpu, s) == s.put(
            a.0,
            4,
            |j: int| (fpu.widen)(half_of(s.vecs[b.0][j / 2], j % 2)),
        ),
{
    reveal(step);
    reveal(conv_step);
}

/// What `vcvtdq2ps` does.
pub(crate) proof fn lemma_vcvtdq2ps(a: Ymm, b: Ymm, fpu: Fpu, s: Machine)
    ensures
        step(Inst::Conv(ConvInst::Vcvtdq2ps(a, b)), fpu, s) == s.put(
            a.0,
            8,
            |j: int| (fpu.from_int)(signed32(s.vecs[b.0][j])),
        ),
{
    reveal(step);
    reveal(conv_step);
}

/// What `movsx` does.
pub(crate) proof fn lemma_movsx(a: Reg, m: Mem, fpu: Fpu, s: Machine)
    ensures
        step(Inst::Int(IntInst::MovsxR32M8(a, m)), fpu, s) == s.set(
            a,
            low(signed8((s.mem)(s.addr(m)))) as int,
        ),
{
    reveal(step);
    reveal(int_step);
}

/// What `vhaddps` does.
pub(crate) proof fn lemma_vhaddps(a: Ymm, b: Ymm, c: Ymm, fpu: Fpu, s: Machine)
    ensures
        step(Inst::Float(FloatInst::VhaddpsYmm(a, b, c)), fpu, s) == s.put(
            a.0,
            8,
            |j: int| {
                let from = if j % 4 < 2 {
                    s.vecs[b.0]
                } else {
                    s.vecs[c.0]
                };
                let at = j / 4 * 4 + j % 2 * 2;
                (fpu.add)(from[at], from[at + 1])
            },
        ),
{
    reveal(step);
    reveal(float_step);
}

/// What `vextractf128` does.
pub(crate) proof fn lemma_vextractf128(a: Ymm, b: Ymm, half: u8, fpu: Fpu, s: Machine)
    ensures
        step(Inst::Float(FloatInst::Vextractf128Xmm(a, b, half)), fpu, s) == s.put(
            a.0,
            4,
            |j: int| s.vecs[b.0][half % 2 * 4 + j],
        ),
{
    reveal(step);
    reveal(float_step);
}

/// What `vsqrtss` does.
pub(crate) proof fn lemma_vsqrtss(a: Ymm, b: Ymm, c: Ymm, fpu: Fpu, s: Machine)
    ensures
        step(Inst::Float(FloatInst::VsqrtssXmm(a, b, c)), fpu, s) == s.put(
            a.0,
            4,
            |j: int| low_lane((fpu.sqrt)(s.vecs[c.0][0]), s.vecs[b.0], j),
        ),
{
    reveal(step);
    reveal(float_step);
}

/// What `vdivss` does.
pub(crate) proof fn lemma_vdivss(a: Ymm, b: Ymm, c: Ymm, fpu: Fpu, s: Machine)
    ensures
        step(Inst::Float(FloatInst::VdivssXmm(a, b, c)), fpu, s) == s.put(
            a.0,
            4,
            |j: int| low_lane((fpu.div)(s.vecs[b.0][0], s.vecs[c.0][0]), s.vecs[b.0], j),
        ),
{
    reveal(step);
    reveal(float_step);
}

/// What `vaddss` does.
pub(crate) proof fn lemma_vaddss(a: Ymm, b: Ymm, c: Ymm, fpu: Fpu, s: Machine)
    ensures
        step(Inst::Float(FloatInst::VaddssXmm(a, b, c)), fpu, s) == s.put(
            a.0,
            4,
            |j: int| low_lane((fpu.add)(s.vecs[b.0][0], s.vecs[c.0][0]), s.vecs[b.0], j),
        ),
{
    reveal(step);
    reveal(float_step);
}

/// What `vmulss` does.
pub(crate) proof fn lemma_vmulss(a: Ymm, b: Ymm, c: Ymm, fpu: Fpu, s: Machine)
    ensures
        step(Inst::Float(FloatInst::VmulssXmm(a, b, c)), fpu, s) == s.put(
            a.0,
            4,
            |j: int| low_lane((fpu.mul)(s.vecs[b.0][0], s.vecs[c.0][0]), s.vecs[b.0], j),
        ),
{
    reveal(step);
    reveal(float_step);
}

/// What `vmovd_reg` does.
pub(crate) proof fn lemma_vmovd_reg(a: Ymm, r: Reg, fpu: Fpu, s: Machine)
    ensures
        step(Inst::Conv(ConvInst::VmovdLoadReg(a, r)), fpu, s) == s.put(
            a.0,
            1,
            |j: int| low(s.regs[r]),
        ),
{
    reveal(step);
    reveal(conv_step);
}

/// What `vcvtsi2ss` does.
pub(crate) proof fn lemma_vcvtsi2ss(a: Ymm, b: Ymm, r: Reg, fpu: Fpu, s: Machine)
    ensures
        step(Inst::Conv(ConvInst::Vcvtsi2ssXmmR32(a, b, r)), fpu, s) == s.put(
            a.0,
            4,
            |j: int| low_lane((fpu.from_int)(signed32(low(s.regs[r]))), s.vecs[b.0], j),
        ),
{
    reveal(step);
    reveal(conv_step);
}

/// What `vmovdqu_load` does.
pub(crate) proof fn lemma_vmovdqu_load(a: Ymm, m: Mem, fpu: Fpu, s: Machine)
    ensures
        step(Inst::Mem(MemInst::VmovdquLoad(a, m)), fpu, s) == s.put(
            a.0,
            8,
            |j: int| word_at(s.mem, s.addr(m) + 4 * j),
        ),
{
    reveal(step);
    reveal(mem_step);
}

/// What `vpsignb` does.
pub(crate) proof fn lemma_vpsignb(a: Ymm, b: Ymm, c: Ymm, fpu: Fpu, s: Machine)
    ensures
        step(Inst::Byte(ByteInst::VpsignbReg(a, b, c)), fpu, s) == s.put(
            a.0,
            8,
            |j: int| lane_of(
                |k: int| with_sign(byte_of(s.vecs[b.0][j], k), byte_of(s.vecs[c.0][j], k)),
            ),
        ),
{
    reveal(step);
    reveal(byte_step);
}

/// What `vpmaddubsw` does.
pub(crate) proof fn lemma_vpmaddubsw(a: Ymm, b: Ymm, c: Ymm, fpu: Fpu, s: Machine)
    ensures
        step(Inst::Byte(ByteInst::VpmaddubswReg(a, b, c)), fpu, s) == s.put(
            a.0,
            8,
            |j: int| lane_of_halves(
                pair_sum(s.vecs[b.0][j], s.vecs[c.0][j], 0),
                pair_sum(s.vecs[b.0][j], s.vecs[c.0][j], 1),
            ),
        ),
{
    reveal(step);
    reveal(byte_step);
}

/// What `vpmaddwd` does.
pub(crate) proof fn lemma_vpmaddwd(a: Ymm, b: Ymm, c: Ymm, fpu: Fpu, s: Machine)
    ensures
        step(Inst::Byte(ByteInst::VpmaddwdReg(a, b, c)), fpu, s) == s.put(
            a.0,
            8,
            |j: int| low(
                signed16(half_of(s.vecs[b.0][j], 0)) * signed16(half_of(s.vecs[c.0][j], 0))
                    + signed16(half_of(s.vecs[b.0][j], 1)) * signed16(half_of(s.vecs[c.0][j], 1)),
            ),
        ),
{
    reveal(step);
    reveal(byte_step);
}

/// What `vpdpbusd_vex` does.
pub(crate) proof fn lemma_vpdpbusd_vex(a: Ymm, b: Ymm, c: Ymm, fpu: Fpu, s: Machine)
    ensures
        step(Inst::Byte(ByteInst::VpdpbusdVexReg(a, b, c)), fpu, s) == dot_step(a.0, b.0, c.0, s),
{
    reveal(step);
    reveal(byte_step);
}

/// What `vpdpbusd_evex` does.
pub(crate) proof fn lemma_vpdpbusd_evex(a: Ymm, b: Ymm, c: Ymm, fpu: Fpu, s: Machine)
    ensures
        step(Inst::Byte(ByteInst::VpdpbusdEvexReg(a, b, c)), fpu, s) == dot_step(a.0, b.0, c.0, s),
{
    reveal(step);
    reveal(byte_step);
}

/// What `vpsrlw` does.
pub(crate) proof fn lemma_vpsrlw(a: Ymm, b: Ymm, n: u8, fpu: Fpu, s: Machine)
    ensures
        step(Inst::Byte(ByteInst::VpsrlwImm8(a, b, n)), fpu, s) == s.put(
            a.0,
            8,
            |j: int| lane_of_halves(
                half_shifted(s.vecs[b.0][j], 0, n),
                half_shifted(s.vecs[b.0][j], 1, n),
            ),
        ),
{
    reveal(step);
    reveal(byte_step);
}

/// What `all_ones` does.
pub(crate) proof fn lemma_all_ones(a: Ymm, fpu: Fpu, s: Machine)
    ensures
        step(Inst::Byte(ByteInst::VpcmpeqdReg(a, a, a)), fpu, s) == s.put(
            a.0,
            8,
            |j: int| 0xFFFF_FFFFu32,
        ),
{
    reveal(step);
    reveal(byte_step);
    let u = step(Inst::Byte(ByteInst::VpcmpeqdReg(a, a, a)), fpu, s);
    let v = s.put(a.0, 8, |j: int| 0xFFFF_FFFFu32);
    assert(u.vecs[a.0] =~= v.vecs[a.0]);
    assert(u.vecs =~= v.vecs);
    let u = step(Inst::Byte(ByteInst::VpcmpeqdReg(a, a, a)), fpu, s);
    let v = s.put(a.0, 8, |j: int| 0xFFFF_FFFFu32);
    assert(u.vecs[a.0] =~= v.vecs[a.0]);
    assert(u.vecs =~= v.vecs);
    let u = step(Inst::Byte(ByteInst::VpcmpeqdReg(a, a, a)), fpu, s);
    let v = s.put(a.0, 8, |j: int| 0xFFFF_FFFFu32);
    assert(u.vecs[a.0] =~= v.vecs[a.0]);
    assert(u.vecs =~= v.vecs);
}

/// What `zmm_zero` does.
pub(crate) proof fn lemma_zmm_zero(a: Zmm, fpu: Fpu, s: Machine)
    ensures
        step(Inst::Zmm(ZmmInst::VxorpsZmmZero(a)), fpu, s) == s.put(
            a.0,
            16,
            |j: int| 0u32,
        ),
{
    reveal(step);
    reveal(zmm_step);
}

/// What `zmm_add` does.
pub(crate) proof fn lemma_zmm_add(a: Zmm, b: Zmm, c: Zmm, fpu: Fpu, s: Machine)
    ensures
        step(Inst::Zmm(ZmmInst::VaddpsZmmReg(a, b, c)), fpu, s) == s.put(
            a.0,
            16,
            |j: int| (fpu.add)(s.vecs[b.0][j], s.vecs[c.0][j]),
        ),
{
    reveal(step);
    reveal(zmm_step);
}

/// What `zmm_mul` does.
pub(crate) proof fn lemma_zmm_mul(a: Zmm, b: Zmm, c: Zmm, fpu: Fpu, s: Machine)
    ensures
        step(Inst::Zmm(ZmmInst::VmulpsZmmReg(a, b, c)), fpu, s) == s.put(
            a.0,
            16,
            |j: int| (fpu.mul)(s.vecs[b.0][j], s.vecs[c.0][j]),
        ),
{
    reveal(step);
    reveal(zmm_step);
}

/// What `zmm_cvt` does.
pub(crate) proof fn lemma_zmm_cvt(a: Zmm, b: Zmm, fpu: Fpu, s: Machine)
    ensures
        step(Inst::Zmm(ZmmInst::Vcvtdq2psZmm(a, b)), fpu, s) == s.put(
            a.0,
            16,
            |j: int| (fpu.from_int)(signed32(s.vecs[b.0][j])),
        ),
{
    reveal(step);
    reveal(zmm_step);
}

/// What `zmm_broadcast` does.
pub(crate) proof fn lemma_zmm_broadcast(a: Zmm, b: Zmm, fpu: Fpu, s: Machine)
    ensures
        step(Inst::Zmm(ZmmInst::VbroadcastssZmmXmm(a, b)), fpu, s) == s.put(
            a.0,
            16,
            |j: int| s.vecs[b.0][0],
        ),
{
    reveal(step);
    reveal(zmm_step);
}

/// What `zmm_sext` does.
pub(crate) proof fn lemma_zmm_sext(a: Zmm, m: Mem, fpu: Fpu, s: Machine)
    ensures
        step(Inst::Zmm(ZmmInst::VpmovsxbdZmmLoad(a, m)), fpu, s) == s.put(
            a.0,
            16,
            |j: int| low(signed8((s.mem)(s.addr(m) + j))),
        ),
{
    reveal(step);
    reveal(zmm_step);
}

/// What `zmm_fma` does.
pub(crate) proof fn lemma_zmm_fma(a: Zmm, b: Zmm, m: Mem, fpu: Fpu, s: Machine)
    ensures
        step(Inst::Zmm(ZmmInst::Vfmadd231psZmmMem(a, b, m)), fpu, s) == s.put(
            a.0,
            16,
            |j: int| (fpu.fma)(
                s.vecs[b.0][j],
                word_at(s.mem, s.addr(m) + 4 * j),
                s.vecs[a.0][j],
            ),
        ),
{
    reveal(step);
    reveal(zmm_step);
}

/// What `zmm_extract` does.
pub(crate) proof fn lemma_zmm_extract(a: Ymm, b: Zmm, half: u8, fpu: Fpu, s: Machine)
    ensures
        step(Inst::Zmm(ZmmInst::Vextractf32x8Zmm(a, b, half)), fpu, s) == s.put(
            a.0,
            8,
            |j: int| s.vecs[b.0][half % 2 * 8 + j],
        ),
{
    reveal(step);
    reveal(zmm_step);
}

// ---- code -----------------------------------------------------------------------------

/// The state after code has run, where no loop turns `fuel` times or more.
#[verifier::opaque]
pub open spec fn run(code: Seq<Code>, fpu: Fpu, fuel: nat, s: Machine) -> Option<Machine>
    decreases code, 0nat,
{
    if code.len() == 0 {
        Some(s)
    } else {
        match run(code.drop_last(), fpu, fuel, s) {
            None => None,
            Some(t) => run_one(code.last(), fpu, fuel, t),
        }
    }
}

/// The state after a piece of code has run.
#[verifier::opaque]
pub open spec fn run_one(c: Code, fpu: Fpu, fuel: nat, s: Machine) -> Option<Machine>
    decreases c, 0nat,
{
    match c {
        Code::Op(i) => Some(step(i, fpu, s)),
        Code::Loop { ctr, bound, step: by, body } => turn(
            ctr,
            bound,
            by,
            body,
            fpu,
            fuel,
            fuel,
            s.set(ctr, 0),
        ),
    }
}

/// The state after a loop has made the rest of its turns, where these are
/// fewer than `left`.
#[verifier::opaque]
pub open spec fn turn(
    ctr: Reg,
    bound: i32,
    by: i32,
    body: Seq<Code>,
    fpu: Fpu,
    fuel: nat,
    left: nat,
    s: Machine,
) -> Option<Machine>
    decreases body, left + 1,
{
    if left == 0 {
        None
    } else if signed64(s.regs[ctr]) >= bound {
        Some(s)
    } else {
        match run(body, fpu, fuel, s) {
            None => None,
            Some(t) => turn(
                ctr,
                bound,
                by,
                body,
                fpu,
                fuel,
                (left - 1) as nat,
                t.set(ctr, t.regs[ctr] + by),
            ),
        }
    }
}

/// Code runs one piece after the other.
pub(crate) proof fn lemma_run_concat(a: Seq<Code>, b: Seq<Code>, fpu: Fpu, fuel: nat, s: Machine)
    ensures
        run(a + b, fpu, fuel, s) == (match run(a, fpu, fuel, s) {
            None => None,
            Some(t) => run(b, fpu, fuel, t),
        }),
    decreases b.len(),
{
    reveal_with_fuel(run, 2);
    reveal_with_fuel(run_one, 2);
    reveal_with_fuel(turn, 2);
    if b.len() == 0 {
        assert(a + b =~= a);
    } else {
        assert((a + b).drop_last() =~= a + b.drop_last());
        assert((a + b).last() == b.last());
        lemma_run_concat(a, b.drop_last(), fpu, fuel, s);
    }
}

/// A single piece of code.
pub(crate) proof fn lemma_run_single(c: Code, fpu: Fpu, fuel: nat, s: Machine)
    ensures
        run(seq![c], fpu, fuel, s) == run_one(c, fpu, fuel, s),
{
    reveal_with_fuel(run, 2);
    reveal_with_fuel(run_one, 2);
    reveal_with_fuel(turn, 2);
    assert(seq![c].drop_last() =~= Seq::empty());
    assert(run(Seq::empty(), fpu, fuel, s) == Some(s));
}

/// Code whose first piece is an instruction.
pub(crate) proof fn lemma_run_first(i: Inst, rest: Seq<Code>, fpu: Fpu, fuel: nat, s: Machine)
    ensures
        run(seq![Code::Op(i)] + rest, fpu, fuel, s) == run(rest, fpu, fuel, step(i, fpu, s)),
{
    reveal_with_fuel(run_one, 2);
    lemma_run_concat(seq![Code::Op(i)], rest, fpu, fuel, s);
    lemma_run_single(Code::Op(i), fpu, fuel, s);
}

/// Code that starts with an instruction.
pub(crate) proof fn lemma_run_op(code: Seq<Code>, fpu: Fpu, fuel: nat, s: Machine)
    requires
        code.len() > 0,
        code[0] is Op,
    ensures
        run(code, fpu, fuel, s) == run(code.drop_first(), fpu, fuel, step(code[0]->Op_0, fpu, s)),
{
    lemma_run_first(code[0]->Op_0, code.drop_first(), fpu, fuel, s);
    assert(seq![code[0]] + code.drop_first() =~= code);
}

/// No code leaves the state as it is.
pub(crate) proof fn lemma_run_none(code: Seq<Code>, fpu: Fpu, fuel: nat, s: Machine)
    requires
        code.len() == 0,
    ensures
        run(code, fpu, fuel, s) == Some(s),
{
    reveal_with_fuel(run, 2);
}

// ---- loops ----------------------------------------------------------------------------

/// The counter's value after a loop.
pub open spec fn last_count(bound: int, by: int) -> int {
    if bound <= 0 {
        0
    } else {
        (bound + by - 1) / by * by
    }
}

/// The state after one turn of a loop's body and its counter.
pub open spec fn after_turn(
    ctr: Reg,
    by: i32,
    body: Seq<Code>,
    fpu: Fpu,
    fuel: nat,
    s: Machine,
) -> Option<Machine> {
    match run(body, fpu, fuel, s) {
        None => None,
        Some(t) => Some(t.set(ctr, t.regs[ctr] + by)),
    }
}

/// Whether a property of the counter and the state is kept by every turn.
pub open spec fn kept(
    ctr: Reg,
    bound: i32,
    by: i32,
    body: Seq<Code>,
    fpu: Fpu,
    fuel: nat,
    inv: spec_fn(int, Machine) -> bool,
) -> bool {
    &&& forall|c: int, t: Machine| #[trigger] inv(c, t) ==> t.regs[ctr] == c
    &&& forall|c: int, t: Machine| #[trigger]
        inv(c, t) && 0 <= c < bound && c % (by as int) == 0 ==> (after_turn(
            ctr,
            by,
            body,
            fpu,
            fuel,
            t,
        ) matches Some(u) && inv(c + by, u))
}

proof fn lemma_turns(
    ctr: Reg,
    bound: i32,
    by: i32,
    body: Seq<Code>,
    fpu: Fpu,
    fuel: nat,
    left: nat,
    c: int,
    s: Machine,
    inv: spec_fn(int, Machine) -> bool,
)
    requires
        kept(ctr, bound, by, body, fpu, fuel, inv),
        by > 0,
        bound >= 0,
        0 <= c < bound + by,
        c % (by as int) == 0,
        left + c > bound + by,
        inv(c, s),
    ensures
        turn(ctr, bound, by, body, fpu, fuel, left, s) matches Some(t) && inv(
            last_count(bound as int, by as int),
            t,
        ),
    decreases left,
{
    reveal_with_fuel(run, 2);
    reveal_with_fuel(run_one, 2);
    reveal_with_fuel(turn, 2);
    let d = by as int;
    let b = bound as int;
    if c >= b {
        assert(c == last_count(b, d)) by {
            if b > 0 {
                let q = c / d;
                assert(c == q * d) by (nonlinear_arith)
                    requires
                        d > 0,
                        c % d == 0,
                        q == c / d,
                ;
                assert((b + d - 1) / d == q) by (nonlinear_arith)
                    requires
                        d > 0,
                        c == q * d,
                        b <= c < b + d,
                ;
            } else {
                assert(c == 0) by (nonlinear_arith)
                    requires
                        0 <= c < d,
                        c % d == 0,
                ;
            }
        }
    } else {
        let u = after_turn(ctr, by, body, fpu, fuel, s)->0;
        assert(inv(c + by, u));
        assert((c + d) % d == 0) by (nonlinear_arith)
            requires
                d > 0,
                c % d == 0,
        ;
        lemma_turns(ctr, bound, by, body, fpu, fuel, (left - 1) as nat, c + by, u, inv);
    }
}

/// A loop that keeps a property ends, and ends with it.
pub(crate) proof fn lemma_loop(
    ctr: Reg,
    bound: i32,
    by: i32,
    body: Seq<Code>,
    fpu: Fpu,
    fuel: nat,
    s: Machine,
    inv: spec_fn(int, Machine) -> bool,
)
    requires
        kept(ctr, bound, by, body, fpu, fuel, inv),
        by > 0,
        bound >= 0,
        fuel > bound + by,
        inv(0, s.set(ctr, 0)),
    ensures
        run_one(Code::Loop { ctr, bound, step: by, body }, fpu, fuel, s) matches Some(t) && inv(
            last_count(bound as int, by as int),
            t,
        ),
{
    reveal_with_fuel(run, 2);
    reveal_with_fuel(run_one, 2);
    reveal_with_fuel(turn, 2);
    assert(0int % (by as int) == 0);
    lemma_turns(ctr, bound, by, body, fpu, fuel, fuel, 0, s.set(ctr, 0), inv);
}

// ---- reading what was written ---------------------------------------------------------

/// What was written is read back.
pub(crate) proof fn lemma_read_back(mem: spec_fn(int) -> u8, at: int, bytes: Seq<u8>)
    ensures
        bytes_at(written(mem, at, bytes), at, bytes.len()) == bytes,
{
    assert(bytes_at(written(mem, at, bytes), at, bytes.len()) =~= bytes);
}

/// A word that was written is read back.
pub(crate) proof fn lemma_word_back(mem: spec_fn(int) -> u8, at: int, v: u32)
    ensures
        word_at(written(mem, at, le_bytes(v as nat, 4)), at) == v,
{
    lemma_le_bytes_len(v as nat, 4);
    lemma_pow256_values();
    lemma_le_value_of_le_bytes(v as nat, 4);
    lemma_read_back(mem, at, le_bytes(v as nat, 4));
}

/// Lanes that were written are read back.
pub(crate) proof fn lemma_lanes_back(mem: spec_fn(int) -> u8, at: int, v: Seq<u32>, n: nat, i: int)
    requires
        0 <= i < n,
    ensures
        word_at(written(mem, at, lane_bytes(v, n)), at + 4 * i) == v[i],
{
    let m = written(mem, at, lane_bytes(v, n));
    lemma_le_bytes_len(v[i] as nat, 4);
    assert(bytes_at(m, at + 4 * i, 4) =~= le_bytes(v[i] as nat, 4)) by {
        assert forall|j: int| 0 <= j < 4 implies #[trigger] bytes_at(m, at + 4 * i, 4)[j]
            == le_bytes(v[i] as nat, 4)[j] by {
            assert((4 * i + j) / 4 == i && (4 * i + j) % 4 == j);
        }
    }
    lemma_pow256_values();
    lemma_le_value_of_le_bytes(v[i] as nat, 4);
}

/// Every word is below `2^32`, so that reading one loses nothing.
pub(crate) proof fn lemma_word_bytes(mem: spec_fn(int) -> u8, at: int)
    ensures
        le_bytes(word_at(mem, at) as nat, 4) == bytes_at(mem, at, 4),
{
    lemma_pow256_values();
    lemma_le_bytes_of_le_value(bytes_at(mem, at, 4));
}

} // verus!
