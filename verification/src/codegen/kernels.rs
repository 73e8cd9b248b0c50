//! The kernels: native code for matrix products, quantized matrix products,
//! RMS normalization and dequantization.
//!
//! Layout assumption: row-major, fp32, contiguous. Buffers are caller-owned.
//! A Q8_0 block is 34 bytes: a 2-byte fp16 scale and 32 signed bytes.
//!
//! Each kernel is given twice: as structured code, by a `_code` function, and
//! by the emitter that produces exactly that code.

use crate::codegen::assembler::{
    at, Asm, ByteInst, Code, ConvInst, FloatInst, Inst, IntInst, MemInst, SseInst, ZmmInst,
};
use crate::codegen::avx2_enc::{Ymm, Zmm};
use crate::codegen::x86_64::{Abi, VnniForm};
use crate::codegen::x86_64_enc::{Reg, Scale, Xmm};
use vstd::prelude::*;

verus! {

/// One instruction, as code.
pub open spec fn gp(i: IntInst) -> Code {
    Code::Op(Inst::Int(i))
}

/// One instruction, as code.
pub open spec fn sse(i: SseInst) -> Code {
    Code::Op(Inst::Sse(i))
}

/// One instruction, as code.
pub open spec fn vmem(i: MemInst) -> Code {
    Code::Op(Inst::Mem(i))
}

/// One instruction, as code.
pub open spec fn vps(i: FloatInst) -> Code {
    Code::Op(Inst::Float(i))
}

/// One instruction, as code.
pub open spec fn vcvt(i: ConvInst) -> Code {
    Code::Op(Inst::Conv(i))
}

/// One instruction, as code.
pub open spec fn vbyte(i: ByteInst) -> Code {
    Code::Op(Inst::Byte(i))
}

/// One instruction, as code.
pub open spec fn zmm(i: ZmmInst) -> Code {
    Code::Op(Inst::Zmm(i))
}

/// A counted loop, as code.
pub open spec fn counted(ctr: Reg, bound: i32, step: i32, body: Seq<Code>) -> Code {
    Code::Loop { ctr, bound, step, body }
}

impl Asm {
    fn gp(&mut self, i: IntInst)
        requires
            old(self).wf(),
        ensures
            final(self).wf(),
            final(self).open() == old(self).open(),
            final(self).code() == old(self).code().push(self::gp(i)),
    {
        self.op(Inst::Int(i));
    }

    fn sse(&mut self, i: SseInst)
        requires
            old(self).wf(),
        ensures
            final(self).wf(),
            final(self).open() == old(self).open(),
            final(self).code() == old(self).code().push(self::sse(i)),
    {
        self.op(Inst::Sse(i));
    }

    fn vmem(&mut self, i: MemInst)
        requires
            old(self).wf(),
        ensures
            final(self).wf(),
            final(self).open() == old(self).open(),
            final(self).code() == old(self).code().push(self::vmem(i)),
    {
        self.op(Inst::Mem(i));
    }

    fn vps(&mut self, i: FloatInst)
        requires
            old(self).wf(),
        ensures
            final(self).wf(),
            final(self).open() == old(self).open(),
            final(self).code() == old(self).code().push(self::vps(i)),
    {
        self.op(Inst::Float(i));
    }

    fn vcvt(&mut self, i: ConvInst)
        requires
            old(self).wf(),
        ensures
            final(self).wf(),
            final(self).open() == old(self).open(),
            final(self).code() == old(self).code().push(self::vcvt(i)),
    {
        self.op(Inst::Conv(i));
    }

    fn vbyte(&mut self, i: ByteInst)
        requires
            old(self).wf(),
        ensures
            final(self).wf(),
            final(self).open() == old(self).open(),
            final(self).code() == old(self).code().push(self::vbyte(i)),
    {
        self.op(Inst::Byte(i));
    }

    fn zmm(&mut self, i: ZmmInst)
        requires
            old(self).wf(),
        ensures
            final(self).wf(),
            final(self).open() == old(self).open(),
            final(self).code() == old(self).code().push(self::zmm(i)),
    {
        self.op(Inst::Zmm(i));
    }
}

/// Stack space below the saved registers: shadow space on Windows, and what
/// aligns the stack to 16 bytes.
pub open spec fn frame_extra(abi: Abi) -> i32 {
    match abi {
        Abi::WinX64 => 40,
        Abi::SysV => 8,
    }
}

fn extra_of(abi: Abi) -> (n: i32)
    ensures
        n == frame_extra(abi),
        8 <= n <= 40,
{
    match abi {
        Abi::WinX64 => 40,
        Abi::SysV => 8,
    }
}

/// Saves the callee-saved registers that the kernels use and reserves `size`
/// bytes of stack.
pub open spec fn prologue_code(size: i32) -> Seq<Code> {
    seq![
        gp(IntInst::Push(Reg::R12)),
        gp(IntInst::Push(Reg::R13)),
        gp(IntInst::Push(Reg::R14)),
        gp(IntInst::Push(Reg::R15)),
        gp(IntInst::Push(Reg::RBX)),
        gp(IntInst::SubRI(Reg::RSP, size)),
    ]
}

fn emit_prologue(a: &mut Asm, size: i32)
    requires
        old(a).wf(),
    ensures
        final(a).wf(),
        final(a).open() == old(a).open(),
        final(a).code() == old(a).code() + prologue_code(size),
{
    a.gp(IntInst::Push(Reg::R12));
    a.gp(IntInst::Push(Reg::R13));
    a.gp(IntInst::Push(Reg::R14));
    a.gp(IntInst::Push(Reg::R15));
    a.gp(IntInst::Push(Reg::RBX));
    a.gp(IntInst::SubRI(Reg::RSP, size));
}

/// Undoes [`prologue_code`] and returns.
pub open spec fn epilogue_code(size: i32) -> Seq<Code> {
    seq![
        gp(IntInst::AddRI(Reg::RSP, size)),
        gp(IntInst::Pop(Reg::RBX)),
        gp(IntInst::Pop(Reg::R15)),
        gp(IntInst::Pop(Reg::R14)),
        gp(IntInst::Pop(Reg::R13)),
        gp(IntInst::Pop(Reg::R12)),
        gp(IntInst::Ret),
    ]
}

fn emit_epilogue(a: &mut Asm, size: i32)
    requires
        old(a).wf(),
    ensures
        final(a).wf(),
        final(a).open() == old(a).open(),
        final(a).code() == old(a).code() + epilogue_code(size),
{
    a.gp(IntInst::AddRI(Reg::RSP, size));
    a.gp(IntInst::Pop(Reg::RBX));
    a.gp(IntInst::Pop(Reg::R15));
    a.gp(IntInst::Pop(Reg::R14));
    a.gp(IntInst::Pop(Reg::R13));
    a.gp(IntInst::Pop(Reg::R12));
    a.gp(IntInst::Ret);
}

/// Moves the three pointers into registers that the loops leave alone:
/// R12 and R13 are the inputs, R14 is the output.
pub open spec fn bind_code(p0: Reg, p1: Reg, p2: Reg) -> Seq<Code> {
    seq![
        gp(IntInst::MovRR(Reg::R12, p0)),
        gp(IntInst::MovRR(Reg::R13, p1)),
        gp(IntInst::MovRR(Reg::R14, p2)),
    ]
}

fn emit_bind(a: &mut Asm, p0: Reg, p1: Reg, p2: Reg)
    requires
        old(a).wf(),
    ensures
        final(a).wf(),
        final(a).open() == old(a).open(),
        final(a).code() == old(a).code() + bind_code(p0, p1, p2),
{
    a.gp(IntInst::MovRR(Reg::R12, p0));
    a.gp(IntInst::MovRR(Reg::R13, p1));
    a.gp(IntInst::MovRR(Reg::R14, p2));
}

/// `dst = row * stride + col`.
pub open spec fn index_code(dst: Reg, row: Reg, stride: i32, col: Reg) -> Seq<Code> {
    seq![
        gp(IntInst::MovRR(dst, row)),
        gp(IntInst::ImulRRI(dst, dst, stride)),
        gp(IntInst::AddRR(dst, col)),
    ]
}

fn emit_index(a: &mut Asm, dst: Reg, row: Reg, stride: i32, col: Reg)
    requires
        old(a).wf(),
    ensures
        final(a).wf(),
        final(a).open() == old(a).open(),
        final(a).code() == old(a).code() + index_code(dst, row, stride, col),
{
    a.gp(IntInst::MovRR(dst, row));
    a.gp(IntInst::ImulRRI(dst, dst, stride));
    a.gp(IntInst::AddRR(dst, col));
}

/// Clears the accumulators ymm0..ymm3.
pub open spec fn zero4_code() -> Seq<Code> {
    seq![
        vps(FloatInst::VxorpsZero(Ymm(0))),
        vps(FloatInst::VxorpsZero(Ymm(1))),
        vps(FloatInst::VxorpsZero(Ymm(2))),
        vps(FloatInst::VxorpsZero(Ymm(3))),
    ]
}

fn emit_zero4(a: &mut Asm)
    requires
        old(a).wf(),
    ensures
        final(a).wf(),
        final(a).open() == old(a).open(),
        final(a).code() == old(a).code() + zero4_code(),
{
    a.vps(FloatInst::VxorpsZero(Ymm(0)));
    a.vps(FloatInst::VxorpsZero(Ymm(1)));
    a.vps(FloatInst::VxorpsZero(Ymm(2)));
    a.vps(FloatInst::VxorpsZero(Ymm(3)));
}

/// Adds up the accumulators: `ymm0 = (ymm0 + ymm1) + (ymm2 + ymm3)`.
pub open spec fn combine4_code() -> Seq<Code> {
    seq![
        vps(FloatInst::VaddpsReg(Ymm(0), Ymm(0), Ymm(1))),
        vps(FloatInst::VaddpsReg(Ymm(2), Ymm(2), Ymm(3))),
        vps(FloatInst::VaddpsReg(Ymm(0), Ymm(0), Ymm(2))),
    ]
}

fn emit_combine4(a: &mut Asm)
    requires
        old(a).wf(),
    ensures
        final(a).wf(),
        final(a).open() == old(a).open(),
        final(a).code() == old(a).code() + combine4_code(),
{
    a.vps(FloatInst::VaddpsReg(Ymm(0), Ymm(0), Ymm(1)));
    a.vps(FloatInst::VaddpsReg(Ymm(2), Ymm(2), Ymm(3)));
    a.vps(FloatInst::VaddpsReg(Ymm(0), Ymm(0), Ymm(2)));
}

/// Horizontal sum of the 8 lanes of ymm0 into the low lane of xmm0.
pub open spec fn hsum_code() -> Seq<Code> {
    seq![
        vps(FloatInst::VhaddpsYmm(Ymm(0), Ymm(0), Ymm(0))),
        vps(FloatInst::VhaddpsYmm(Ymm(0), Ymm(0), Ymm(0))),
        vps(FloatInst::Vextractf128Xmm(Ymm(1), Ymm(0), 1)),
        vps(FloatInst::VaddssXmm(Ymm(0), Ymm(0), Ymm(1))),
    ]
}

fn emit_hsum(a: &mut Asm)
    requires
        old(a).wf(),
    ensures
        final(a).wf(),
        final(a).open() == old(a).open(),
        final(a).code() == old(a).code() + hsum_code(),
{
    a.vps(FloatInst::VhaddpsYmm(Ymm(0), Ymm(0), Ymm(0)));
    a.vps(FloatInst::VhaddpsYmm(Ymm(0), Ymm(0), Ymm(0)));
    a.vps(FloatInst::Vextractf128Xmm(Ymm(1), Ymm(0), 1));
    a.vps(FloatInst::VaddssXmm(Ymm(0), Ymm(0), Ymm(1)));
}

/// `rax = r15 * row_bytes + r11 * 34`: where block r11 of row r15 starts.
pub open spec fn q8_offset_code(row_bytes: i32) -> Seq<Code> {
    seq![
        gp(IntInst::MovRR(Reg::RAX, Reg::R15)),
        gp(IntInst::ImulRRI(Reg::RAX, Reg::RAX, row_bytes)),
        gp(IntInst::MovRR(Reg::RDX, Reg::R11)),
        gp(IntInst::ImulRRI(Reg::RDX, Reg::RDX, 34)),
        gp(IntInst::AddRR(Reg::RAX, Reg::RDX)),
    ]
}

fn emit_q8_offset(a: &mut Asm, row_bytes: i32)
    requires
        old(a).wf(),
    ensures
        final(a).wf(),
        final(a).open() == old(a).open(),
        final(a).code() == old(a).code() + q8_offset_code(row_bytes),
{
    a.gp(IntInst::MovRR(Reg::RAX, Reg::R15));
    a.gp(IntInst::ImulRRI(Reg::RAX, Reg::RAX, row_bytes));
    a.gp(IntInst::MovRR(Reg::RDX, Reg::R11));
    a.gp(IntInst::ImulRRI(Reg::RDX, Reg::RDX, 34));
    a.gp(IntInst::AddRR(Reg::RAX, Reg::RDX));
}

/// The body of the loop over terms of [`matmul_body_code`].
pub open spec fn matmul_body_terms(k: i32, n: i32) -> Seq<Code> {
    index_code(Reg::RAX, Reg::R15, k, Reg::RCX) + seq![
        sse(SseInst::MovssLoad(Xmm(1), at(Reg::R12, Reg::RAX, Scale::S4, 0))),
    ] + index_code(Reg::RDX, Reg::RCX, n, Reg::RBX) + seq![
        sse(SseInst::MulssLoad(Xmm(1), at(Reg::R13, Reg::RDX, Scale::S4, 0))),
        sse(SseInst::AddssXmm(Xmm(0), Xmm(1))),
    ]
}

/// The body of the loop over columns of [`matmul_body_code`].
pub open spec fn matmul_body_columns(k: i32, n: i32) -> Seq<Code> {
    seq![
        sse(SseInst::XorpsSelf(Xmm(0))),
    ] + seq![counted(Reg::RCX, k, 1, matmul_body_terms(k, n))]
        + index_code(Reg::RAX, Reg::R15, n, Reg::RBX)
        + seq![
        sse(SseInst::MovssStore(Xmm(0), at(Reg::R14, Reg::RAX, Scale::S4, 0))),
    ]
}

/// The body of the loop over rows of [`matmul_body_code`].
pub open spec fn matmul_body_rows(k: i32, n: i32) -> Seq<Code> {
    seq![counted(Reg::RBX, n, 1, matmul_body_columns(k, n))]
}

/// Scalar matrix product.
///
/// ```text
/// for i in 0..m:
///   for j in 0..n:
///     xmm0 = 0
///     for kk in 0..k:
///       xmm1 = lhs[i*k + kk] * rhs[kk*n + j]
///       xmm0 += xmm1
///     out[i*n + j] = xmm0
/// ```
pub open spec fn matmul_body_code(
    p_lhs: Reg,
    p_rhs: Reg,
    p_out: Reg,
    m: i32,
    k: i32,
    n: i32,
    abi: Abi,
) -> Seq<Code> {
    let extra = frame_extra(abi);
    prologue_code(extra)
        + bind_code(p_lhs, p_rhs, p_out)
        + seq![counted(Reg::R15, m, 1, matmul_body_rows(k, n))]
        + epilogue_code(extra)
}

/// Emits [`matmul_body_code`].
pub fn emit_matmul_body(
    a: &mut Asm,
    p_lhs: Reg,
    p_rhs: Reg,
    p_out: Reg,
    m: i32,
    k: i32,
    n: i32,
    abi: Abi,
)
    requires
        old(a).wf(),
        old(a).open().len() == 0,
        old(a).code().len() == 0,
    ensures
        final(a).wf(),
        final(a).open().len() == 0,
        final(a).code() == matmul_body_code(p_lhs, p_rhs, p_out, m, k, n, abi),
{
    let extra: i32 = extra_of(abi);
    emit_prologue(a, extra);
    emit_bind(a, p_lhs, p_rhs, p_out);
    let rows = a.begin(Reg::R15, m);
    let columns = a.begin(Reg::RBX, n);
    a.sse(SseInst::XorpsSelf(Xmm(0)));
    let terms = a.begin(Reg::RCX, k);
    emit_index(a, Reg::RAX, Reg::R15, k, Reg::RCX);
    a.sse(SseInst::MovssLoad(Xmm(1), at(Reg::R12, Reg::RAX, Scale::S4, 0)));
    emit_index(a, Reg::RDX, Reg::RCX, n, Reg::RBX);
    a.sse(SseInst::MulssLoad(Xmm(1), at(Reg::R13, Reg::RDX, Scale::S4, 0)));
    a.sse(SseInst::AddssXmm(Xmm(0), Xmm(1)));
    assert(a.code() =~= matmul_body_terms(k, n));
    a.end(terms, Reg::RCX, 1);
    emit_index(a, Reg::RAX, Reg::R15, n, Reg::RBX);
    a.sse(SseInst::MovssStore(Xmm(0), at(Reg::R14, Reg::RAX, Scale::S4, 0)));
    assert(a.code() =~= matmul_body_columns(k, n));
    a.end(columns, Reg::RBX, 1);
    assert(a.code() =~= matmul_body_rows(k, n));
    a.end(rows, Reg::R15, 1);
    emit_epilogue(a, extra);
    assert(a.code() =~= matmul_body_code(p_lhs, p_rhs, p_out, m, k, n, abi));
}

/// The body of the loop over terms of [`matmul_avx2_code`].
pub open spec fn matmul_avx2_terms(k: i32, n: i32) -> Seq<Code> {
    index_code(Reg::RAX, Reg::R15, k, Reg::RCX) + seq![
        vmem(MemInst::Vbroadcastss(Ymm(1), at(Reg::R12, Reg::RAX, Scale::S4, 0))),
    ] + index_code(Reg::RDX, Reg::RCX, n, Reg::RBX) + seq![
        vmem(MemInst::Vfmadd231psMem(Ymm(0), Ymm(1), at(Reg::R13, Reg::RDX, Scale::S4, 0))),
    ]
}

/// The body of the loop over columns of [`matmul_avx2_code`].
pub open spec fn matmul_avx2_columns(k: i32, n: i32) -> Seq<Code> {
    seq![
        vps(FloatInst::VxorpsZero(Ymm(0))),
    ] + seq![counted(Reg::RCX, k, 1, matmul_avx2_terms(k, n))]
        + index_code(Reg::RAX, Reg::R15, n, Reg::RBX)
        + seq![
        vmem(MemInst::VmovupsStore(Ymm(0), at(Reg::R14, Reg::RAX, Scale::S4, 0))),
    ]
}

/// The body of the loop over rows of [`matmul_avx2_code`].
pub open spec fn matmul_avx2_rows(k: i32, n: i32) -> Seq<Code> {
    seq![counted(Reg::RBX, n, 8, matmul_avx2_columns(k, n))]
}

/// AVX2 matrix product for `n % 8 == 0`: 8 columns of the output at a time in
/// one ymm accumulator.
///
/// ```text
/// for i in 0..m:
///   for j in 0..n step 8:
///     ymm0 = 0
///     for kk in 0..k:
///       ymm0 += broadcast(lhs[i*k + kk]) * rhs[kk*n + j ..+ 8]
///     out[i*n + j ..+ 8] = ymm0
/// ```
pub open spec fn matmul_avx2_code(
    p_lhs: Reg,
    p_rhs: Reg,
    p_out: Reg,
    m: i32,
    k: i32,
    n: i32,
    abi: Abi,
) -> Seq<Code> {
    let extra = frame_extra(abi);
    prologue_code(extra)
        + bind_code(p_lhs, p_rhs, p_out)
        + seq![counted(Reg::R15, m, 1, matmul_avx2_rows(k, n))]
        + epilogue_code(extra)
}

/// Emits [`matmul_avx2_code`].
pub fn emit_matmul_avx2(
    a: &mut Asm,
    p_lhs: Reg,
    p_rhs: Reg,
    p_out: Reg,
    m: i32,
    k: i32,
    n: i32,
    abi: Abi,
)
    requires
        old(a).wf(),
        old(a).open().len() == 0,
        old(a).code().len() == 0,
    ensures
        final(a).wf(),
        final(a).open().len() == 0,
        final(a).code() == matmul_avx2_code(p_lhs, p_rhs, p_out, m, k, n, abi),
{
    let extra: i32 = extra_of(abi);
    emit_prologue(a, extra);
    emit_bind(a, p_lhs, p_rhs, p_out);
    let rows = a.begin(Reg::R15, m);
    let columns = a.begin(Reg::RBX, n);
    a.vps(FloatInst::VxorpsZero(Ymm(0)));
    let terms = a.begin(Reg::RCX, k);
    emit_index(a, Reg::RAX, Reg::R15, k, Reg::RCX);
    a.vmem(MemInst::Vbroadcastss(Ymm(1), at(Reg::R12, Reg::RAX, Scale::S4, 0)));
    emit_index(a, Reg::RDX, Reg::RCX, n, Reg::RBX);
    a.vmem(MemInst::Vfmadd231psMem(Ymm(0), Ymm(1), at(Reg::R13, Reg::RDX, Scale::S4, 0)));
    assert(a.code() =~= matmul_avx2_terms(k, n));
    a.end(terms, Reg::RCX, 1);
    emit_index(a, Reg::RAX, Reg::R15, n, Reg::RBX);
    a.vmem(MemInst::VmovupsStore(Ymm(0), at(Reg::R14, Reg::RAX, Scale::S4, 0)));
    assert(a.code() =~= matmul_avx2_columns(k, n));
    a.end(columns, Reg::RBX, 8);
    assert(a.code() =~= matmul_avx2_rows(k, n));
    a.end(rows, Reg::R15, 1);
    emit_epilogue(a, extra);
    assert(a.code() =~= matmul_avx2_code(p_lhs, p_rhs, p_out, m, k, n, abi));
}

/// The body of the loop over terms of [`matmul_avx2_1xn_4acc_code`].
pub open spec fn matmul_avx2_1xn_4acc_terms(n: i32) -> Seq<Code> {
    seq![
        vmem(MemInst::Vbroadcastss(Ymm(4), at(Reg::R12, Reg::RCX, Scale::S4, 0))),
    ] + index_code(Reg::RDX, Reg::RCX, n, Reg::RBX) + seq![
        vmem(MemInst::Vfmadd231psMem(Ymm(0), Ymm(4), at(Reg::R13, Reg::RDX, Scale::S4, 0))),
        vmem(MemInst::Vfmadd231psMem(Ymm(1), Ymm(4), at(Reg::R13, Reg::RDX, Scale::S4, 32))),
        vmem(MemInst::Vfmadd231psMem(Ymm(2), Ymm(4), at(Reg::R13, Reg::RDX, Scale::S4, 64))),
        vmem(MemInst::Vfmadd231psMem(Ymm(3), Ymm(4), at(Reg::R13, Reg::RDX, Scale::S4, 96))),
    ]
}

/// The body of the loop over columns of [`matmul_avx2_1xn_4acc_code`].
pub open spec fn matmul_avx2_1xn_4acc_columns(k: i32, n: i32) -> Seq<Code> {
    zero4_code() + seq![counted(Reg::RCX, k, 1, matmul_avx2_1xn_4acc_terms(n))] + seq![
        vmem(MemInst::VmovupsStore(Ymm(0), at(Reg::R14, Reg::RBX, Scale::S4, 0))),
        vmem(MemInst::VmovupsStore(Ymm(1), at(Reg::R14, Reg::RBX, Scale::S4, 32))),
        vmem(MemInst::VmovupsStore(Ymm(2), at(Reg::R14, Reg::RBX, Scale::S4, 64))),
        vmem(MemInst::VmovupsStore(Ymm(3), at(Reg::R14, Reg::RBX, Scale::S4, 96))),
    ]
}

/// AVX2 matrix product for `m == 1` and `n % 32 == 0`: 32 output columns per
/// step in four independent accumulators.
///
/// ```text
/// for j in 0..n step 32:
///   ymm0..ymm3 = 0
///   for kk in 0..k:
///     ymm4 = broadcast lhs[kk]
///     ymm0 += ymm4 * rhs[kk*n + j      ..+ 8]
///     ymm1 += ymm4 * rhs[kk*n + j + 8  ..+ 8]
///     ymm2 += ymm4 * rhs[kk*n + j + 16 ..+ 8]
///     ymm3 += ymm4 * rhs[kk*n + j + 24 ..+ 8]
///   out[j ..+ 32] = ymm0..ymm3
/// ```
pub open spec fn matmul_avx2_1xn_4acc_code(
    p_lhs: Reg,
    p_rhs: Reg,
    p_out: Reg,
    k: i32,
    n: i32,
    abi: Abi,
) -> Seq<Code> {
    let extra = frame_extra(abi);
    prologue_code(extra)
        + bind_code(p_lhs, p_rhs, p_out)
        + seq![counted(Reg::RBX, n, 32, matmul_avx2_1xn_4acc_columns(k, n))]
        + epilogue_code(extra)
}

/// Emits [`matmul_avx2_1xn_4acc_code`].
pub fn emit_matmul_avx2_1xn_4acc(
    a: &mut Asm,
    p_lhs: Reg,
    p_rhs: Reg,
    p_out: Reg,
    k: i32,
    n: i32,
    abi: Abi,
)
    requires
        old(a).wf(),
        old(a).open().len() == 0,
        old(a).code().len() == 0,
    ensures
        final(a).wf(),
        final(a).open().len() == 0,
        final(a).code() == matmul_avx2_1xn_4acc_code(p_lhs, p_rhs, p_out, k, n, abi),
{
    let extra: i32 = extra_of(abi);
    emit_prologue(a, extra);
    emit_bind(a, p_lhs, p_rhs, p_out);
    let columns = a.begin(Reg::RBX, n);
    emit_zero4(a);
    let terms = a.begin(Reg::RCX, k);
    a.vmem(MemInst::Vbroadcastss(Ymm(4), at(Reg::R12, Reg::RCX, Scale::S4, 0)));
    emit_index(a, Reg::RDX, Reg::RCX, n, Reg::RBX);
    a.vmem(MemInst::Vfmadd231psMem(Ymm(0), Ymm(4), at(Reg::R13, Reg::RDX, Scale::S4, 0)));
    a.vmem(MemInst::Vfmadd231psMem(Ymm(1), Ymm(4), at(Reg::R13, Reg::RDX, Scale::S4, 32)));
    a.vmem(MemInst::Vfmadd231psMem(Ymm(2), Ymm(4), at(Reg::R13, Reg::RDX, Scale::S4, 64)));
    a.vmem(MemInst::Vfmadd231psMem(Ymm(3), Ymm(4), at(Reg::R13, Reg::RDX, Scale::S4, 96)));
    assert(a.code() =~= matmul_avx2_1xn_4acc_terms(n));
    a.end(terms, Reg::RCX, 1);
    a.vmem(MemInst::VmovupsStore(Ymm(0), at(Reg::R14, Reg::RBX, Scale::S4, 0)));
    a.vmem(MemInst::VmovupsStore(Ymm(1), at(Reg::R14, Reg::RBX, Scale::S4, 32)));
    a.vmem(MemInst::VmovupsStore(Ymm(2), at(Reg::R14, Reg::RBX, Scale::S4, 64)));
    a.vmem(MemInst::VmovupsStore(Ymm(3), at(Reg::R14, Reg::RBX, Scale::S4, 96)));
    assert(a.code() =~= matmul_avx2_1xn_4acc_columns(k, n));
    a.end(columns, Reg::RBX, 32);
    emit_epilogue(a, extra);
    assert(a.code() =~= matmul_avx2_1xn_4acc_code(p_lhs, p_rhs, p_out, k, n, abi));
}

/// `rax = (r15 + r) * stride + col`: a row of the tile that starts at row r15.
pub open spec fn tile_index_code(r: i32, stride: i32, col: Reg) -> Seq<Code> {
    let head = if r != 0 {
        seq![gp(IntInst::MovRR(Reg::RAX, Reg::R15)), gp(IntInst::AddRI(Reg::RAX, r))]
    } else {
        seq![gp(IntInst::MovRR(Reg::RAX, Reg::R15))]
    };
    head + seq![
        gp(IntInst::ImulRRI(Reg::RAX, Reg::RAX, stride)),
        gp(IntInst::AddRR(Reg::RAX, col)),
    ]
}

fn emit_tile_index(a: &mut Asm, r: i32, stride: i32, col: Reg)
    requires
        old(a).wf(),
    ensures
        final(a).wf(),
        final(a).open() == old(a).open(),
        final(a).code() == old(a).code() + tile_index_code(r, stride, col),
{
    a.gp(IntInst::MovRR(Reg::RAX, Reg::R15));
    if r != 0 {
        a.gp(IntInst::AddRI(Reg::RAX, r));
    }
    a.gp(IntInst::ImulRRI(Reg::RAX, Reg::RAX, stride));
    a.gp(IntInst::AddRR(Reg::RAX, col));
}

/// Row `r` of the tile: broadcast its left factor and accumulate.
pub open spec fn tile_row_step_code(r: i32, acc: Ymm, k: i32) -> Seq<Code> {
    tile_index_code(r, k, Reg::RCX) + seq![
        vmem(MemInst::Vbroadcastss(Ymm(5), at(Reg::R12, Reg::RAX, Scale::S4, 0))),
        vps(FloatInst::Vfmadd231psReg(acc, Ymm(5), Ymm(4))),
    ]
}

fn emit_tile_row_step(a: &mut Asm, r: i32, acc: Ymm, k: i32)
    requires
        old(a).wf(),
    ensures
        final(a).wf(),
        final(a).open() == old(a).open(),
        final(a).code() == old(a).code() + tile_row_step_code(r, acc, k),
{
    emit_tile_index(a, r, k, Reg::RCX);
    a.vmem(MemInst::Vbroadcastss(Ymm(5), at(Reg::R12, Reg::RAX, Scale::S4, 0)));
    a.vps(FloatInst::Vfmadd231psReg(acc, Ymm(5), Ymm(4)));
}

/// Stores row `r` of the tile.
pub open spec fn tile_row_store_code(r: i32, acc: Ymm, n: i32) -> Seq<Code> {
    tile_index_code(r, n, Reg::RBX) + seq![
        vmem(MemInst::VmovupsStore(acc, at(Reg::R14, Reg::RAX, Scale::S4, 0))),
    ]
}

fn emit_tile_row_store(a: &mut Asm, r: i32, acc: Ymm, n: i32)
    requires
        old(a).wf(),
    ensures
        final(a).wf(),
        final(a).open() == old(a).open(),
        final(a).code() == old(a).code() + tile_row_store_code(r, acc, n),
{
    emit_tile_index(a, r, n, Reg::RBX);
    a.vmem(MemInst::VmovupsStore(acc, at(Reg::R14, Reg::RAX, Scale::S4, 0)));
}

/// The body of the loop over terms of [`matmul_tile_4x8_code`].
pub open spec fn matmul_tile_4x8_terms(k: i32, n: i32) -> Seq<Code> {
    index_code(Reg::RDX, Reg::RCX, n, Reg::RBX) + seq![
        vmem(MemInst::VmovupsLoad(Ymm(4), at(Reg::R13, Reg::RDX, Scale::S4, 0))),
    ] + tile_row_step_code(0, Ymm(0), k)
        + tile_row_step_code(1, Ymm(1), k)
        + tile_row_step_code(2, Ymm(2), k)
        + tile_row_step_code(3, Ymm(3), k)
}

/// The body of the loop over columns of [`matmul_tile_4x8_code`].
pub open spec fn matmul_tile_4x8_columns(k: i32, n: i32) -> Seq<Code> {
    zero4_code()
        + seq![counted(Reg::RCX, k, 1, matmul_tile_4x8_terms(k, n))]
        + tile_row_store_code(0, Ymm(0), n)
        + tile_row_store_code(1, Ymm(1), n)
        + tile_row_store_code(2, Ymm(2), n)
        + tile_row_store_code(3, Ymm(3), n)
}

/// The body of the loop over rows of [`matmul_tile_4x8_code`].
pub open spec fn matmul_tile_4x8_rows(k: i32, n: i32) -> Seq<Code> {
    seq![counted(Reg::RBX, n, 8, matmul_tile_4x8_columns(k, n))]
}

/// AVX2 register-tile matrix product for `m % 4 == 0` and `n % 8 == 0`: four
/// independent accumulators, one per output row of the tile.
///
/// ```text
/// for i in 0..m step 4:
///   for j in 0..n step 8:
///     ymm0..ymm3 = 0
///     for kk in 0..k:
///       ymm4 = rhs[kk*n + j ..+ 8]
///       for r in 0..4: ymm[r] += broadcast(lhs[(i+r)*k + kk]) * ymm4
///     for r in 0..4: out[(i+r)*n + j ..+ 8] = ymm[r]
/// ```
pub open spec fn matmul_tile_4x8_code(
    p_lhs: Reg,
    p_rhs: Reg,
    p_out: Reg,
    m: i32,
    k: i32,
    n: i32,
    abi: Abi,
) -> Seq<Code> {
    let extra = frame_extra(abi);
    prologue_code(extra)
        + bind_code(p_lhs, p_rhs, p_out)
        + seq![counted(Reg::R15, m, 4, matmul_tile_4x8_rows(k, n))]
        + epilogue_code(extra)
}

/// Emits [`matmul_tile_4x8_code`].
pub fn emit_matmul_tile_4x8(
    a: &mut Asm,
    p_lhs: Reg,
    p_rhs: Reg,
    p_out: Reg,
    m: i32,
    k: i32,
    n: i32,
    abi: Abi,
)
    requires
        old(a).wf(),
        old(a).open().len() == 0,
        old(a).code().len() == 0,
    ensures
        final(a).wf(),
        final(a).open().len() == 0,
        final(a).code() == matmul_tile_4x8_code(p_lhs, p_rhs, p_out, m, k, n, abi),
{
    let extra: i32 = extra_of(abi);
    emit_prologue(a, extra);
    emit_bind(a, p_lhs, p_rhs, p_out);
    let rows = a.begin(Reg::R15, m);
    let columns = a.begin(Reg::RBX, n);
    emit_zero4(a);
    let terms = a.begin(Reg::RCX, k);
    emit_index(a, Reg::RDX, Reg::RCX, n, Reg::RBX);
    a.vmem(MemInst::VmovupsLoad(Ymm(4), at(Reg::R13, Reg::RDX, Scale::S4, 0)));
    emit_tile_row_step(a, 0, Ymm(0), k);
    emit_tile_row_step(a, 1, Ymm(1), k);
    emit_tile_row_step(a, 2, Ymm(2), k);
    emit_tile_row_step(a, 3, Ymm(3), k);
    assert(a.code() =~= matmul_tile_4x8_terms(k, n));
    a.end(terms, Reg::RCX, 1);
    emit_tile_row_store(a, 0, Ymm(0), n);
    emit_tile_row_store(a, 1, Ymm(1), n);
    emit_tile_row_store(a, 2, Ymm(2), n);
    emit_tile_row_store(a, 3, Ymm(3), n);
    assert(a.code() =~= matmul_tile_4x8_columns(k, n));
    a.end(columns, Reg::RBX, 8);
    assert(a.code() =~= matmul_tile_4x8_rows(k, n));
    a.end(rows, Reg::R15, 4);
    emit_epilogue(a, extra);
    assert(a.code() =~= matmul_tile_4x8_code(p_lhs, p_rhs, p_out, m, k, n, abi));
}

/// How many blocks a row of `k` elements takes.
pub open spec fn blocks_per_row(k: i32) -> i32 {
    (k / 32) as i32
}

fn row_blocks(k: i32) -> (b: i32)
    requires
        k % 32 == 0,
    ensures
        b == k / 32,
        b == blocks_per_row(k),
{
    if k >= 0 {
        k / 32
    } else {
        -((-(k + 32)) / 32) - 1
    }
}

/// How many bytes a row of `k` elements takes.
pub open spec fn bytes_per_row(k: i32) -> i32 {
    (k / 32 * 34) as i32
}

/// The body of the loop over elements of [`quant_matmul_q8_body_code`].
pub open spec fn quant_matmul_q8_body_elements(n: i32) -> Seq<Code> {
    seq![
        gp(IntInst::MovRR(Reg::R8, Reg::RAX)),
        gp(IntInst::AddRR(Reg::R8, Reg::RCX)),
        gp(IntInst::MovsxR32M8(Reg::R9, at(Reg::R12, Reg::R8, Scale::S1, 2))),
        vcvt(ConvInst::Vcvtsi2ssXmmR32(Ymm(1), Ymm(2), Reg::R9)),
        vps(FloatInst::VmulssXmm(Ymm(1), Ymm(1), Ymm(2))),
        vps(FloatInst::VbroadcastssXmm(Ymm(1), Ymm(1))),
    ] + index_code(Reg::R8, Reg::R11, 32, Reg::RCX) + seq![
        gp(IntInst::ImulRRI(Reg::R8, Reg::R8, n)),
        gp(IntInst::AddRR(Reg::R8, Reg::RBX)),
        vmem(MemInst::Vfmadd231psMem(Ymm(0), Ymm(1), at(Reg::R13, Reg::R8, Scale::S4, 0))),
    ]
}

/// The body of the loop over blocks of [`quant_matmul_q8_body_code`].
pub open spec fn quant_matmul_q8_body_blocks(n: i32, row_bytes: i32) -> Seq<Code> {
    seq![
        gp(IntInst::MovRR(Reg::RDX, Reg::R15)),
        gp(IntInst::ImulRRI(Reg::RDX, Reg::RDX, row_bytes)),
    ] + index_code(Reg::RAX, Reg::R11, 34, Reg::RDX) + seq![
        vmem(MemInst::VmovdLoad(Ymm(2), at(Reg::R12, Reg::RAX, Scale::S1, 0))),
        vcvt(ConvInst::Vcvtph2psXmm(Ymm(2), Ymm(2))),
    ] + seq![counted(Reg::RCX, 32, 1, quant_matmul_q8_body_elements(n))]
}

/// The body of the loop over columns of [`quant_matmul_q8_body_code`].
pub open spec fn quant_matmul_q8_body_columns(n: i32, k_blocks: i32, row_bytes: i32) -> Seq<Code> {
    seq![
        vps(FloatInst::VxorpsZero(Ymm(0))),
    ] + seq![counted(Reg::R11, k_blocks, 1, quant_matmul_q8_body_blocks(n, row_bytes))]
        + index_code(Reg::RAX, Reg::R15, n, Reg::RBX)
        + seq![
        vmem(MemInst::VmovupsStore(Ymm(0), at(Reg::R14, Reg::RAX, Scale::S4, 0))),
    ]
}

/// The body of the loop over rows of [`quant_matmul_q8_body_code`].
pub open spec fn quant_matmul_q8_body_rows(n: i32, k_blocks: i32, row_bytes: i32) -> Seq<Code> {
    seq![counted(Reg::RBX, n, 8, quant_matmul_q8_body_columns(n, k_blocks, row_bytes))]
}

/// Q8_0 weights times fp32 activations for `k % 32 == 0` and `n % 8 == 0`. The
/// dequantized weight matrix is never materialized.
///
/// ```text
/// for i in 0..m:
///   for j in 0..n step 8:
///     ymm0 = 0
///     for kb in 0..k/32:
///       xmm2 = fp32(scale of block kb of row i)
///       for kk in 0..32:
///         ymm1 = broadcast(fp32(byte kk of the block) * xmm2)
///         ymm0 += ymm1 * act[(kb*32 + kk)*n + j ..+ 8]
///     out[i*n + j ..+ 8] = ymm0
/// ```
pub open spec fn quant_matmul_q8_body_code(
    p_w: Reg,
    p_a: Reg,
    p_out: Reg,
    m: i32,
    k: i32,
    n: i32,
    abi: Abi,
) -> Seq<Code> {
    let extra = frame_extra(abi);
    let k_blocks = blocks_per_row(k);
    let row_bytes = bytes_per_row(k);
    prologue_code(extra)
        + bind_code(p_w, p_a, p_out)
        + seq![counted(Reg::R15, m, 1, quant_matmul_q8_body_rows(n, k_blocks, row_bytes))]
        + epilogue_code(extra)
}

/// Emits [`quant_matmul_q8_body_code`].
pub fn emit_quant_matmul_q8_body(
    a: &mut Asm,
    p_w: Reg,
    p_a: Reg,
    p_out: Reg,
    m: i32,
    k: i32,
    n: i32,
    abi: Abi,
)
    requires
        old(a).wf(),
        old(a).open().len() == 0,
        old(a).code().len() == 0,
        k % 32 == 0,
        i32::MIN <= k / 32 * 34 <= i32::MAX,
    ensures
        final(a).wf(),
        final(a).open().len() == 0,
        final(a).code() == quant_matmul_q8_body_code(p_w, p_a, p_out, m, k, n, abi),
{
    let extra: i32 = extra_of(abi);
    let k_blocks: i32 = row_blocks(k);
    let row_bytes: i32 = k_blocks * 34;
    emit_prologue(a, extra);
    emit_bind(a, p_w, p_a, p_out);
    let rows = a.begin(Reg::R15, m);
    let columns = a.begin(Reg::RBX, n);
    a.vps(FloatInst::VxorpsZero(Ymm(0)));
    let blocks = a.begin(Reg::R11, k_blocks);
    a.gp(IntInst::MovRR(Reg::RDX, Reg::R15));
    a.gp(IntInst::ImulRRI(Reg::RDX, Reg::RDX, row_bytes));
    emit_index(a, Reg::RAX, Reg::R11, 34, Reg::RDX);
    a.vmem(MemInst::VmovdLoad(Ymm(2), at(Reg::R12, Reg::RAX, Scale::S1, 0)));
    a.vcvt(ConvInst::Vcvtph2psXmm(Ymm(2), Ymm(2)));
    let elements = a.begin(Reg::RCX, 32);
    a.gp(IntInst::MovRR(Reg::R8, Reg::RAX));
    a.gp(IntInst::AddRR(Reg::R8, Reg::RCX));
    a.gp(IntInst::MovsxR32M8(Reg::R9, at(Reg::R12, Reg::R8, Scale::S1, 2)));
    a.vcvt(ConvInst::Vcvtsi2ssXmmR32(Ymm(1), Ymm(2), Reg::R9));
    a.vps(FloatInst::VmulssXmm(Ymm(1), Ymm(1), Ymm(2)));
    a.vps(FloatInst::VbroadcastssXmm(Ymm(1), Ymm(1)));
    emit_index(a, Reg::R8, Reg::R11, 32, Reg::RCX);
    a.gp(IntInst::ImulRRI(Reg::R8, Reg::R8, n));
    a.gp(IntInst::AddRR(Reg::R8, Reg::RBX));
    a.vmem(MemInst::Vfmadd231psMem(Ymm(0), Ymm(1), at(Reg::R13, Reg::R8, Scale::S4, 0)));
    assert(a.code() =~= quant_matmul_q8_body_elements(n));
    a.end(elements, Reg::RCX, 1);
    assert(a.code() =~= quant_matmul_q8_body_blocks(n, row_bytes));
    a.end(blocks, Reg::R11, 1);
    emit_index(a, Reg::RAX, Reg::R15, n, Reg::RBX);
    a.vmem(MemInst::VmovupsStore(Ymm(0), at(Reg::R14, Reg::RAX, Scale::S4, 0)));
    assert(a.code() =~= quant_matmul_q8_body_columns(n, k_blocks, row_bytes));
    a.end(columns, Reg::RBX, 8);
    assert(a.code() =~= quant_matmul_q8_body_rows(n, k_blocks, row_bytes));
    a.end(rows, Reg::R15, 1);
    emit_epilogue(a, extra);
    assert(a.code() =~= quant_matmul_q8_body_code(p_w, p_a, p_out, m, k, n, abi));
}

/// Eight elements of a block: `acc += fp32(bytes at inner) * ymm5 *
/// activations at inner`.
pub open spec fn q8_chunk_code(inner: i32, disp: i32, acc: Ymm) -> Seq<Code> {
    seq![
        vmem(MemInst::VpmovsxbdLoad(Ymm(4), at(Reg::R12, Reg::RAX, Scale::S1, inner))),
        vcvt(ConvInst::Vcvtdq2ps(Ymm(4), Ymm(4))),
        vps(FloatInst::VmulpsReg(Ymm(4), Ymm(4), Ymm(5))),
        vmem(MemInst::Vfmadd231psMem(acc, Ymm(4), at(Reg::R13, Reg::R10, Scale::S4, disp))),
    ]
}

fn emit_q8_chunk(a: &mut Asm, inner: i32, disp: i32, acc: Ymm)
    requires
        old(a).wf(),
    ensures
        final(a).wf(),
        final(a).open() == old(a).open(),
        final(a).code() == old(a).code() + q8_chunk_code(inner, disp, acc),
{
    a.vmem(MemInst::VpmovsxbdLoad(Ymm(4), at(Reg::R12, Reg::RAX, Scale::S1, inner)));
    a.vcvt(ConvInst::Vcvtdq2ps(Ymm(4), Ymm(4)));
    a.vps(FloatInst::VmulpsReg(Ymm(4), Ymm(4), Ymm(5)));
    a.vmem(MemInst::Vfmadd231psMem(acc, Ymm(4), at(Reg::R13, Reg::R10, Scale::S4, disp)));
}

/// The body of the loop over blocks of [`quant_matmul_q8_n1_body_code`].
pub open spec fn quant_matmul_q8_n1_body_blocks(row_bytes: i32) -> Seq<Code> {
    q8_offset_code(row_bytes) + seq![
        vmem(MemInst::VmovdLoad(Ymm(5), at(Reg::R12, Reg::RAX, Scale::S1, 0))),
        vcvt(ConvInst::Vcvtph2psXmm(Ymm(5), Ymm(5))),
        vps(FloatInst::VbroadcastssXmm(Ymm(5), Ymm(5))),
        gp(IntInst::MovRR(Reg::R10, Reg::R11)),
        gp(IntInst::ImulRRI(Reg::R10, Reg::R10, 32)),
    ] + q8_chunk_code(2, 0, Ymm(0))
        + q8_chunk_code(10, 32, Ymm(1))
        + q8_chunk_code(18, 64, Ymm(2))
        + q8_chunk_code(26, 96, Ymm(3))
}

/// The body of the loop over rows of [`quant_matmul_q8_n1_body_code`].
pub open spec fn quant_matmul_q8_n1_body_rows(k_blocks: i32, row_bytes: i32) -> Seq<Code> {
    zero4_code()
        + seq![counted(Reg::R11, k_blocks, 1, quant_matmul_q8_n1_body_blocks(row_bytes))]
        + combine4_code()
        + hsum_code()
        + seq![
        sse(SseInst::MovssStore(Xmm(0), at(Reg::R14, Reg::R15, Scale::S4, 0))),
    ]
}

/// Q8_0 weights times an fp32 vector, `n == 1`: four independent accumulators,
/// one per 8-element chunk of a block.
///
/// ```text
/// for i in 0..m:
///   ymm0..ymm3 = 0
///   for kb in 0..k/32:
///     ymm5 = broadcast(fp32(scale of block kb of row i))
///     for c in 0..4:
///       ymm[c] += fp32(bytes 8c ..+ 8) * ymm5 * act[kb*32 + 8c ..+ 8]
///   out[i] = sum of all lanes
/// ```
///
/// Only ymm0..ymm5 are used: the others are callee-saved on Windows.
pub open spec fn quant_matmul_q8_n1_body_code(
    p_w: Reg,
    p_a: Reg,
    p_out: Reg,
    m: i32,
    k: i32,
    abi: Abi,
) -> Seq<Code> {
    let extra = frame_extra(abi);
    let k_blocks = blocks_per_row(k);
    let row_bytes = bytes_per_row(k);
    prologue_code(extra)
        + bind_code(p_w, p_a, p_out)
        + seq![counted(Reg::R15, m, 1, quant_matmul_q8_n1_body_rows(k_blocks, row_bytes))]
        + epilogue_code(extra)
}

/// Emits [`quant_matmul_q8_n1_body_code`].
pub fn emit_quant_matmul_q8_n1_body(
    a: &mut Asm,
    p_w: Reg,
    p_a: Reg,
    p_out: Reg,
    m: i32,
    k: i32,
    abi: Abi,
)
    requires
        old(a).wf(),
        old(a).open().len() == 0,
        old(a).code().len() == 0,
        k % 32 == 0,
        i32::MIN <= k / 32 * 34 <= i32::MAX,
    ensures
        final(a).wf(),
        final(a).open().len() == 0,
        final(a).code() == quant_matmul_q8_n1_body_code(p_w, p_a, p_out, m, k, abi),
{
    let extra: i32 = extra_of(abi);
    let k_blocks: i32 = row_blocks(k);
    let row_bytes: i32 = k_blocks * 34;
    emit_prologue(a, extra);
    emit_bind(a, p_w, p_a, p_out);
    let rows = a.begin(Reg::R15, m);
    emit_zero4(a);
    let blocks = a.begin(Reg::R11, k_blocks);
    emit_q8_offset(a, row_bytes);
    a.vmem(MemInst::VmovdLoad(Ymm(5), at(Reg::R12, Reg::RAX, Scale::S1, 0)));
    a.vcvt(ConvInst::Vcvtph2psXmm(Ymm(5), Ymm(5)));
    a.vps(FloatInst::VbroadcastssXmm(Ymm(5), Ymm(5)));
    a.gp(IntInst::MovRR(Reg::R10, Reg::R11));
    a.gp(IntInst::ImulRRI(Reg::R10, Reg::R10, 32));
    emit_q8_chunk(a, 2, 0, Ymm(0));
    emit_q8_chunk(a, 10, 32, Ymm(1));
    emit_q8_chunk(a, 18, 64, Ymm(2));
    emit_q8_chunk(a, 26, 96, Ymm(3));
    assert(a.code() =~= quant_matmul_q8_n1_body_blocks(row_bytes));
    a.end(blocks, Reg::R11, 1);
    emit_combine4(a);
    emit_hsum(a);
    a.sse(SseInst::MovssStore(Xmm(0), at(Reg::R14, Reg::R15, Scale::S4, 0)));
    assert(a.code() =~= quant_matmul_q8_n1_body_rows(k_blocks, row_bytes));
    a.end(rows, Reg::R15, 1);
    emit_epilogue(a, extra);
    assert(a.code() =~= quant_matmul_q8_n1_body_code(p_w, p_a, p_out, m, k, abi));
}

/// The body of the loop over blocks of [`quant_matmul_q8_n1_body_zmm_code`].
pub open spec fn quant_matmul_q8_n1_body_zmm_blocks(row_bytes: i32) -> Seq<Code> {
    q8_offset_code(row_bytes) + seq![
        gp(IntInst::MovRR(Reg::R10, Reg::R11)),
        gp(IntInst::ImulRRI(Reg::R10, Reg::R10, 32)),
        vmem(MemInst::VmovdLoad(Ymm(2), at(Reg::R12, Reg::RAX, Scale::S1, 0))),
        vcvt(ConvInst::Vcvtph2psXmm(Ymm(2), Ymm(2))),
        zmm(ZmmInst::VbroadcastssZmmXmm(Zmm(2), Zmm(2))),
        zmm(ZmmInst::VpmovsxbdZmmLoad(Zmm(3), at(Reg::R12, Reg::RAX, Scale::S1, 2))),
        zmm(ZmmInst::Vcvtdq2psZmm(Zmm(3), Zmm(3))),
        zmm(ZmmInst::VmulpsZmmReg(Zmm(3), Zmm(3), Zmm(2))),
        zmm(ZmmInst::Vfmadd231psZmmMem(Zmm(0), Zmm(3), at(Reg::R13, Reg::R10, Scale::S4, 0))),
        zmm(ZmmInst::VpmovsxbdZmmLoad(Zmm(3), at(Reg::R12, Reg::RAX, Scale::S1, 18))),
        zmm(ZmmInst::Vcvtdq2psZmm(Zmm(3), Zmm(3))),
        zmm(ZmmInst::VmulpsZmmReg(Zmm(3), Zmm(3), Zmm(2))),
        zmm(ZmmInst::Vfmadd231psZmmMem(Zmm(1), Zmm(3), at(Reg::R13, Reg::R10, Scale::S4, 64))),
    ]
}

/// The body of the loop over rows of [`quant_matmul_q8_n1_body_zmm_code`].
pub open spec fn quant_matmul_q8_n1_body_zmm_rows(k_blocks: i32, row_bytes: i32) -> Seq<Code> {
    seq![
        zmm(ZmmInst::VxorpsZmmZero(Zmm(0))),
        zmm(ZmmInst::VxorpsZmmZero(Zmm(1))),
    ] + seq![counted(Reg::R11, k_blocks, 1, quant_matmul_q8_n1_body_zmm_blocks(row_bytes))] + seq![
        zmm(ZmmInst::VaddpsZmmReg(Zmm(0), Zmm(0), Zmm(1))),
        zmm(ZmmInst::Vextractf32x8Zmm(Ymm(1), Zmm(0), 1)),
        vps(FloatInst::VaddpsReg(Ymm(0), Ymm(0), Ymm(1))),
    ] + hsum_code() + seq![
        sse(SseInst::MovssStore(Xmm(0), at(Reg::R14, Reg::R15, Scale::S4, 0))),
    ]
}

/// AVX-512 variant of [`quant_matmul_q8_n1_body_code`]: a block is processed as
/// two 16-lane chunks with one accumulator each. Needs AVX-512F and AVX-512BW.
pub open spec fn quant_matmul_q8_n1_body_zmm_code(
    p_w: Reg,
    p_a: Reg,
    p_out: Reg,
    m: i32,
    k: i32,
    abi: Abi,
) -> Seq<Code> {
    let extra = frame_extra(abi);
    let k_blocks = blocks_per_row(k);
    let row_bytes = bytes_per_row(k);
    prologue_code(extra)
        + bind_code(p_w, p_a, p_out)
        + seq![counted(Reg::R15, m, 1, quant_matmul_q8_n1_body_zmm_rows(k_blocks, row_bytes))]
        + epilogue_code(extra)
}

/// Emits [`quant_matmul_q8_n1_body_zmm_code`].
pub fn emit_quant_matmul_q8_n1_body_zmm(
    a: &mut Asm,
    p_w: Reg,
    p_a: Reg,
    p_out: Reg,
    m: i32,
    k: i32,
    abi: Abi,
)
    requires
        old(a).wf(),
        old(a).open().len() == 0,
        old(a).code().len() == 0,
        k % 32 == 0,
        i32::MIN <= k / 32 * 34 <= i32::MAX,
    ensures
        final(a).wf(),
        final(a).open().len() == 0,
        final(a).code() == quant_matmul_q8_n1_body_zmm_code(p_w, p_a, p_out, m, k, abi),
{
    let extra: i32 = extra_of(abi);
    let k_blocks: i32 = row_blocks(k);
    let row_bytes: i32 = k_blocks * 34;
    emit_prologue(a, extra);
    emit_bind(a, p_w, p_a, p_out);
    let rows = a.begin(Reg::R15, m);
    a.zmm(ZmmInst::VxorpsZmmZero(Zmm(0)));
    a.zmm(ZmmInst::VxorpsZmmZero(Zmm(1)));
    let blocks = a.begin(Reg::R11, k_blocks);
    emit_q8_offset(a, row_bytes);
    a.gp(IntInst::MovRR(Reg::R10, Reg::R11));
    a.gp(IntInst::ImulRRI(Reg::R10, Reg::R10, 32));
    a.vmem(MemInst::VmovdLoad(Ymm(2), at(Reg::R12, Reg::RAX, Scale::S1, 0)));
    a.vcvt(ConvInst::Vcvtph2psXmm(Ymm(2), Ymm(2)));
    a.zmm(ZmmInst::VbroadcastssZmmXmm(Zmm(2), Zmm(2)));
    a.zmm(ZmmInst::VpmovsxbdZmmLoad(Zmm(3), at(Reg::R12, Reg::RAX, Scale::S1, 2)));
    a.zmm(ZmmInst::Vcvtdq2psZmm(Zmm(3), Zmm(3)));
    a.zmm(ZmmInst::VmulpsZmmReg(Zmm(3), Zmm(3), Zmm(2)));
    a.zmm(ZmmInst::Vfmadd231psZmmMem(Zmm(0), Zmm(3), at(Reg::R13, Reg::R10, Scale::S4, 0)));
    a.zmm(ZmmInst::VpmovsxbdZmmLoad(Zmm(3), at(Reg::R12, Reg::RAX, Scale::S1, 18)));
    a.zmm(ZmmInst::Vcvtdq2psZmm(Zmm(3), Zmm(3)));
    a.zmm(ZmmInst::VmulpsZmmReg(Zmm(3), Zmm(3), Zmm(2)));
    a.zmm(ZmmInst::Vfmadd231psZmmMem(Zmm(1), Zmm(3), at(Reg::R13, Reg::R10, Scale::S4, 64)));
    assert(a.code() =~= quant_matmul_q8_n1_body_zmm_blocks(row_bytes));
    a.end(blocks, Reg::R11, 1);
    a.zmm(ZmmInst::VaddpsZmmReg(Zmm(0), Zmm(0), Zmm(1)));
    a.zmm(ZmmInst::Vextractf32x8Zmm(Ymm(1), Zmm(0), 1));
    a.vps(FloatInst::VaddpsReg(Ymm(0), Ymm(0), Ymm(1)));
    emit_hsum(a);
    a.sse(SseInst::MovssStore(Xmm(0), at(Reg::R14, Reg::R15, Scale::S4, 0)));
    assert(a.code() =~= quant_matmul_q8_n1_body_zmm_rows(k_blocks, row_bytes));
    a.end(rows, Reg::R15, 1);
    emit_epilogue(a, extra);
    assert(a.code() =~= quant_matmul_q8_n1_body_zmm_code(p_w, p_a, p_out, m, k, abi));
}

/// `ymm4 = broadcast(fp32(weight scale) * fp32(activation scale))` for the
/// blocks at rax and r10.
pub open spec fn block_scales_code() -> Seq<Code> {
    seq![
        vmem(MemInst::VmovdLoad(Ymm(1), at(Reg::R12, Reg::RAX, Scale::S1, 0))),
        vcvt(ConvInst::Vcvtph2psXmm(Ymm(1), Ymm(1))),
        vmem(MemInst::VmovdLoad(Ymm(2), at(Reg::R13, Reg::R10, Scale::S1, 0))),
        vcvt(ConvInst::Vcvtph2psXmm(Ymm(2), Ymm(2))),
        vps(FloatInst::VmulssXmm(Ymm(1), Ymm(1), Ymm(2))),
        vps(FloatInst::VbroadcastssXmm(Ymm(4), Ymm(1))),
    ]
}

fn emit_block_scales(a: &mut Asm)
    requires
        old(a).wf(),
    ensures
        final(a).wf(),
        final(a).open() == old(a).open(),
        final(a).code() == old(a).code() + block_scales_code(),
{
    a.vmem(MemInst::VmovdLoad(Ymm(1), at(Reg::R12, Reg::RAX, Scale::S1, 0)));
    a.vcvt(ConvInst::Vcvtph2psXmm(Ymm(1), Ymm(1)));
    a.vmem(MemInst::VmovdLoad(Ymm(2), at(Reg::R13, Reg::R10, Scale::S1, 0)));
    a.vcvt(ConvInst::Vcvtph2psXmm(Ymm(2), Ymm(2)));
    a.vps(FloatInst::VmulssXmm(Ymm(1), Ymm(1), Ymm(2)));
    a.vps(FloatInst::VbroadcastssXmm(Ymm(4), Ymm(1)));
}

/// Loads the 32 weight bytes and the 32 activation bytes of a block, then
/// `ymm3 = |w|` and `ymm2 = a * sign(w)`, byte by byte.
pub open spec fn block_bytes_code() -> Seq<Code> {
    seq![
        vmem(MemInst::VmovdquLoad(Ymm(1), at(Reg::R12, Reg::RAX, Scale::S1, 2))),
        vmem(MemInst::VmovdquLoad(Ymm(2), at(Reg::R13, Reg::R10, Scale::S1, 2))),
        vbyte(ByteInst::VpsignbReg(Ymm(3), Ymm(1), Ymm(1))),
        vbyte(ByteInst::VpsignbReg(Ymm(2), Ymm(2), Ymm(1))),
    ]
}

fn emit_block_bytes(a: &mut Asm)
    requires
        old(a).wf(),
    ensures
        final(a).wf(),
        final(a).open() == old(a).open(),
        final(a).code() == old(a).code() + block_bytes_code(),
{
    a.vmem(MemInst::VmovdquLoad(Ymm(1), at(Reg::R12, Reg::RAX, Scale::S1, 2)));
    a.vmem(MemInst::VmovdquLoad(Ymm(2), at(Reg::R13, Reg::R10, Scale::S1, 2)));
    a.vbyte(ByteInst::VpsignbReg(Ymm(3), Ymm(1), Ymm(1)));
    a.vbyte(ByteInst::VpsignbReg(Ymm(2), Ymm(2), Ymm(1)));
}

/// The body of the loop over blocks of [`quant_matmul_q8q8_n1_body_code`].
pub open spec fn quant_matmul_q8q8_n1_body_blocks(row_bytes: i32) -> Seq<Code> {
    q8_offset_code(row_bytes) + seq![
        gp(IntInst::MovRR(Reg::R10, Reg::R11)),
        gp(IntInst::ImulRRI(Reg::R10, Reg::R10, 34)),
    ] + block_bytes_code() + seq![
        vbyte(ByteInst::VpmaddubswReg(Ymm(3), Ymm(3), Ymm(2))),
        vbyte(ByteInst::VpmaddwdReg(Ymm(3), Ymm(3), Ymm(5))),
        vcvt(ConvInst::Vcvtdq2ps(Ymm(3), Ymm(3))),
    ] + block_scales_code() + seq![
        vps(FloatInst::Vfmadd231psReg(Ymm(0), Ymm(3), Ymm(4))),
    ]
}

/// The body of the loop over rows of [`quant_matmul_q8q8_n1_body_code`].
pub open spec fn quant_matmul_q8q8_n1_body_rows(k_blocks: i32, row_bytes: i32) -> Seq<Code> {
    seq![
        vps(FloatInst::VxorpsZero(Ymm(0))),
    ] + seq![counted(Reg::R11, k_blocks, 1, quant_matmul_q8q8_n1_body_blocks(row_bytes))]
        + hsum_code()
        + seq![
        sse(SseInst::MovssStore(Xmm(0), at(Reg::R14, Reg::R15, Scale::S4, 0))),
    ]
}

/// Q8_0 weights times a Q8_0 vector, `n == 1`: the dot product of a block runs
/// on integers.
///
/// ```text
/// ymm5 = sixteen 16-bit ones
/// for i in 0..m:
///   ymm0 = 0
///   for kb in 0..k/32:
///     ymm3 = |w|; ymm2 = a * sign(w)          ; bytes
///     ymm3 = pairwise products, summed in 16 bits, then in 32 bits
///     ymm0 += fp32(ymm3) * broadcast(scale of w * scale of a)
///   out[i] = sum of all lanes
/// ```
pub open spec fn quant_matmul_q8q8_n1_body_code(
    p_w: Reg,
    p_a: Reg,
    p_out: Reg,
    m: i32,
    k: i32,
    abi: Abi,
) -> Seq<Code> {
    let extra = frame_extra(abi);
    let k_blocks = blocks_per_row(k);
    let row_bytes = bytes_per_row(k);
    prologue_code(extra) + bind_code(p_w, p_a, p_out) + seq![
        vbyte(ByteInst::VpcmpeqdReg(Ymm(5), Ymm(5), Ymm(5))),
        vbyte(ByteInst::VpsrlwImm8(Ymm(5), Ymm(5), 15)),
    ] + seq![counted(Reg::R15, m, 1, quant_matmul_q8q8_n1_body_rows(k_blocks, row_bytes))]
        + epilogue_code(extra)
}

/// Emits [`quant_matmul_q8q8_n1_body_code`].
pub fn emit_quant_matmul_q8q8_n1_body(
    a: &mut Asm,
    p_w: Reg,
    p_a: Reg,
    p_out: Reg,
    m: i32,
    k: i32,
    abi: Abi,
)
    requires
        old(a).wf(),
        old(a).open().len() == 0,
        old(a).code().len() == 0,
        k % 32 == 0,
        i32::MIN <= k / 32 * 34 <= i32::MAX,
    ensures
        final(a).wf(),
        final(a).open().len() == 0,
        final(a).code() == quant_matmul_q8q8_n1_body_code(p_w, p_a, p_out, m, k, abi),
{
    let extra: i32 = extra_of(abi);
    let k_blocks: i32 = row_blocks(k);
    let row_bytes: i32 = k_blocks * 34;
    emit_prologue(a, extra);
    emit_bind(a, p_w, p_a, p_out);
    a.vbyte(ByteInst::VpcmpeqdReg(Ymm(5), Ymm(5), Ymm(5)));
    a.vbyte(ByteInst::VpsrlwImm8(Ymm(5), Ymm(5), 15));
    let rows = a.begin(Reg::R15, m);
    a.vps(FloatInst::VxorpsZero(Ymm(0)));
    let blocks = a.begin(Reg::R11, k_blocks);
    emit_q8_offset(a, row_bytes);
    a.gp(IntInst::MovRR(Reg::R10, Reg::R11));
    a.gp(IntInst::ImulRRI(Reg::R10, Reg::R10, 34));
    emit_block_bytes(a);
    a.vbyte(ByteInst::VpmaddubswReg(Ymm(3), Ymm(3), Ymm(2)));
    a.vbyte(ByteInst::VpmaddwdReg(Ymm(3), Ymm(3), Ymm(5)));
    a.vcvt(ConvInst::Vcvtdq2ps(Ymm(3), Ymm(3)));
    emit_block_scales(a);
    a.vps(FloatInst::Vfmadd231psReg(Ymm(0), Ymm(3), Ymm(4)));
    assert(a.code() =~= quant_matmul_q8q8_n1_body_blocks(row_bytes));
    a.end(blocks, Reg::R11, 1);
    emit_hsum(a);
    a.sse(SseInst::MovssStore(Xmm(0), at(Reg::R14, Reg::R15, Scale::S4, 0)));
    assert(a.code() =~= quant_matmul_q8q8_n1_body_rows(k_blocks, row_bytes));
    a.end(rows, Reg::R15, 1);
    emit_epilogue(a, extra);
    assert(a.code() =~= quant_matmul_q8q8_n1_body_code(p_w, p_a, p_out, m, k, abi));
}

/// `vpdpbusd acc, x, y` in the given form.
pub open spec fn dot_code(form: VnniForm, acc: Ymm, x: Ymm, y: Ymm) -> Seq<Code> {
    match form {
        VnniForm::Vex256 => seq![vbyte(ByteInst::VpdpbusdVexReg(acc, x, y))],
        VnniForm::Evex256 => seq![vbyte(ByteInst::VpdpbusdEvexReg(acc, x, y))],
    }
}

impl VnniForm {
    fn emit(self, a: &mut Asm, acc: Ymm, x: Ymm, y: Ymm)
        requires
            old(a).wf(),
        ensures
            final(a).wf(),
            final(a).open() == old(a).open(),
            final(a).code() == old(a).code() + dot_code(self, acc, x, y),
    {
        match self {
            VnniForm::Vex256 => a.vbyte(ByteInst::VpdpbusdVexReg(acc, x, y)),
            VnniForm::Evex256 => a.vbyte(ByteInst::VpdpbusdEvexReg(acc, x, y)),
        }
    }
}

fn emit_dot(a: &mut Asm, form: VnniForm, acc: Ymm, x: Ymm, y: Ymm)
    requires
        old(a).wf(),
    ensures
        final(a).wf(),
        final(a).open() == old(a).open(),
        final(a).code() == old(a).code() + dot_code(form, acc, x, y),
{
    form.emit(a, acc, x, y);
}

/// The body of the loop over blocks of [`quant_matmul_q8q8_n1_body_vnni_code`].
pub open spec fn quant_matmul_q8q8_n1_body_vnni_blocks(
    form: VnniForm,
    row_bytes: i32,
) -> Seq<Code> {
    q8_offset_code(row_bytes) + seq![
        gp(IntInst::MovRR(Reg::R10, Reg::R11)),
        gp(IntInst::ImulRRI(Reg::R10, Reg::R10, 34)),
    ] + block_bytes_code() + seq![
        vps(FloatInst::VxorpsZero(Ymm(5))),
    ] + dot_code(form, Ymm(5), Ymm(3), Ymm(2)) + seq![
        vcvt(ConvInst::Vcvtdq2ps(Ymm(5), Ymm(5))),
    ] + block_scales_code() + seq![
        vps(FloatInst::Vfmadd231psReg(Ymm(0), Ymm(5), Ymm(4))),
    ]
}

/// The body of the loop over rows of [`quant_matmul_q8q8_n1_body_vnni_code`].
pub open spec fn quant_matmul_q8q8_n1_body_vnni_rows(
    form: VnniForm,
    k_blocks: i32,
    row_bytes: i32,
) -> Seq<Code> {
    seq![
        vps(FloatInst::VxorpsZero(Ymm(0))),
    ] + seq![counted(Reg::R11, k_blocks, 1, quant_matmul_q8q8_n1_body_vnni_blocks(form, row_bytes))]
        + hsum_code()
        + seq![
        sse(SseInst::MovssStore(Xmm(0), at(Reg::R14, Reg::R15, Scale::S4, 0))),
    ]
}

/// VNNI variant of [`quant_matmul_q8q8_n1_body_code`]: one `vpdpbusd` computes
/// the integer dot product of a block.
pub open spec fn quant_matmul_q8q8_n1_body_vnni_code(
    p_w: Reg,
    p_a: Reg,
    p_out: Reg,
    m: i32,
    k: i32,
    abi: Abi,
    form: VnniForm,
) -> Seq<Code> {
    let extra = frame_extra(abi);
    let k_blocks = blocks_per_row(k);
    let row_bytes = bytes_per_row(k);
    prologue_code(extra)
        + bind_code(p_w, p_a, p_out)
        + seq![counted(Reg::R15, m, 1, quant_matmul_q8q8_n1_body_vnni_rows(form, k_blocks, row_bytes))]
        + epilogue_code(extra)
}

/// Emits [`quant_matmul_q8q8_n1_body_vnni_code`].
pub fn emit_quant_matmul_q8q8_n1_body_vnni(
    a: &mut Asm,
    p_w: Reg,
    p_a: Reg,
    p_out: Reg,
    m: i32,
    k: i32,
    abi: Abi,
    form: VnniForm,
)
    requires
        old(a).wf(),
        old(a).open().len() == 0,
        old(a).code().len() == 0,
        k % 32 == 0,
        i32::MIN <= k / 32 * 34 <= i32::MAX,
    ensures
        final(a).wf(),
        final(a).open().len() == 0,
        final(a).code() == quant_matmul_q8q8_n1_body_vnni_code(p_w, p_a, p_out, m, k, abi, form),
{
    let extra: i32 = extra_of(abi);
    let k_blocks: i32 = row_blocks(k);
    let row_bytes: i32 = k_blocks * 34;
    emit_prologue(a, extra);
    emit_bind(a, p_w, p_a, p_out);
    let rows = a.begin(Reg::R15, m);
    a.vps(FloatInst::VxorpsZero(Ymm(0)));
    let blocks = a.begin(Reg::R11, k_blocks);
    emit_q8_offset(a, row_bytes);
    a.gp(IntInst::MovRR(Reg::R10, Reg::R11));
    a.gp(IntInst::ImulRRI(Reg::R10, Reg::R10, 34));
    emit_block_bytes(a);
    a.vps(FloatInst::VxorpsZero(Ymm(5)));
    emit_dot(a, form, Ymm(5), Ymm(3), Ymm(2));
    a.vcvt(ConvInst::Vcvtdq2ps(Ymm(5), Ymm(5)));
    emit_block_scales(a);
    a.vps(FloatInst::Vfmadd231psReg(Ymm(0), Ymm(5), Ymm(4)));
    assert(a.code() =~= quant_matmul_q8q8_n1_body_vnni_blocks(form, row_bytes));
    a.end(blocks, Reg::R11, 1);
    emit_hsum(a);
    a.sse(SseInst::MovssStore(Xmm(0), at(Reg::R14, Reg::R15, Scale::S4, 0)));
    assert(a.code() =~= quant_matmul_q8q8_n1_body_vnni_rows(form, k_blocks, row_bytes));
    a.end(rows, Reg::R15, 1);
    emit_epilogue(a, extra);
    assert(a.code() =~= quant_matmul_q8q8_n1_body_vnni_code(p_w, p_a, p_out, m, k, abi, form));
}

/// One of four unrolled blocks, `block` bytes after the first: `acc +=
/// fp32(integer dot product) * broadcast(scale of w * scale of a)`.
pub open spec fn vnni_block_code(form: VnniForm, block: i32, quants: i32, acc: Ymm) -> Seq<Code> {
    seq![
        vmem(MemInst::VmovdquLoad(Ymm(4), at(Reg::R12, Reg::RAX, Scale::S1, quants))),
        vmem(MemInst::VmovdquLoad(Ymm(5), at(Reg::R13, Reg::R10, Scale::S1, quants))),
        vbyte(ByteInst::VpsignbReg(Ymm(5), Ymm(5), Ymm(4))),
        vbyte(ByteInst::VpsignbReg(Ymm(4), Ymm(4), Ymm(4))),
        vps(FloatInst::VxorpsZero(Ymm(6))),
    ] + dot_code(form, Ymm(6), Ymm(4), Ymm(5)) + seq![
        vcvt(ConvInst::Vcvtdq2ps(Ymm(6), Ymm(6))),
        vmem(MemInst::VmovdLoad(Ymm(4), at(Reg::R12, Reg::RAX, Scale::S1, block))),
        vcvt(ConvInst::Vcvtph2psXmm(Ymm(4), Ymm(4))),
        vmem(MemInst::VmovdLoad(Ymm(5), at(Reg::R13, Reg::R10, Scale::S1, block))),
        vcvt(ConvInst::Vcvtph2psXmm(Ymm(5), Ymm(5))),
        vps(FloatInst::VmulssXmm(Ymm(4), Ymm(4), Ymm(5))),
        vps(FloatInst::VbroadcastssXmm(Ymm(4), Ymm(4))),
        vps(FloatInst::Vfmadd231psReg(acc, Ymm(6), Ymm(4))),
    ]
}

fn emit_vnni_block(a: &mut Asm, form: VnniForm, block: i32, quants: i32, acc: Ymm)
    requires
        old(a).wf(),
    ensures
        final(a).wf(),
        final(a).open() == old(a).open(),
        final(a).code() == old(a).code() + vnni_block_code(form, block, quants, acc),
{
    a.vmem(MemInst::VmovdquLoad(Ymm(4), at(Reg::R12, Reg::RAX, Scale::S1, quants)));
    a.vmem(MemInst::VmovdquLoad(Ymm(5), at(Reg::R13, Reg::R10, Scale::S1, quants)));
    a.vbyte(ByteInst::VpsignbReg(Ymm(5), Ymm(5), Ymm(4)));
    a.vbyte(ByteInst::VpsignbReg(Ymm(4), Ymm(4), Ymm(4)));
    a.vps(FloatInst::VxorpsZero(Ymm(6)));
    emit_dot(a, form, Ymm(6), Ymm(4), Ymm(5));
    a.vcvt(ConvInst::Vcvtdq2ps(Ymm(6), Ymm(6)));
    a.vmem(MemInst::VmovdLoad(Ymm(4), at(Reg::R12, Reg::RAX, Scale::S1, block)));
    a.vcvt(ConvInst::Vcvtph2psXmm(Ymm(4), Ymm(4)));
    a.vmem(MemInst::VmovdLoad(Ymm(5), at(Reg::R13, Reg::R10, Scale::S1, block)));
    a.vcvt(ConvInst::Vcvtph2psXmm(Ymm(5), Ymm(5)));
    a.vps(FloatInst::VmulssXmm(Ymm(4), Ymm(4), Ymm(5)));
    a.vps(FloatInst::VbroadcastssXmm(Ymm(4), Ymm(4)));
    a.vps(FloatInst::Vfmadd231psReg(acc, Ymm(6), Ymm(4)));
}

/// The body of the loop over blocks of [`quant_matmul_q8q8_n1_body_vnni_4acc_code`].
pub open spec fn quant_matmul_q8q8_n1_body_vnni_4acc_blocks(
    form: VnniForm,
    row_bytes: i32,
) -> Seq<Code> {
    q8_offset_code(row_bytes) + seq![
        gp(IntInst::MovRR(Reg::R10, Reg::R11)),
        gp(IntInst::ImulRRI(Reg::R10, Reg::R10, 34)),
    ] + vnni_block_code(form, 0, 2, Ymm(0))
        + vnni_block_code(form, 34, 36, Ymm(1))
        + vnni_block_code(form, 68, 70, Ymm(2))
        + vnni_block_code(form, 102, 104, Ymm(3))
}

/// The body of the loop over rows of [`quant_matmul_q8q8_n1_body_vnni_4acc_code`].
pub open spec fn quant_matmul_q8q8_n1_body_vnni_4acc_rows(
    form: VnniForm,
    k_blocks: i32,
    row_bytes: i32,
) -> Seq<Code> {
    zero4_code()
        + seq![counted(Reg::R11, k_blocks, 4, quant_matmul_q8q8_n1_body_vnni_4acc_blocks(form, row_bytes))]
        + combine4_code()
        + hsum_code()
        + seq![
        sse(SseInst::MovssStore(Xmm(0), at(Reg::R14, Reg::R15, Scale::S4, 0))),
    ]
}

/// VNNI variant with the block loop unrolled by four, for `k/32 % 4 == 0`: each
/// of the four blocks has its own accumulator. ymm6 is callee-saved on Windows,
/// so it is kept on the stack.
pub open spec fn quant_matmul_q8q8_n1_body_vnni_4acc_code(
    p_w: Reg,
    p_a: Reg,
    p_out: Reg,
    m: i32,
    k: i32,
    abi: Abi,
    form: VnniForm,
) -> Seq<Code> {
    let extra = frame_extra(abi);
    let k_blocks = blocks_per_row(k);
    let row_bytes = bytes_per_row(k);
    let size = (extra + 32) as i32;
    prologue_code(size) + seq![
        vmem(MemInst::VmovupsStore(Ymm(6), at(Reg::RSP, Reg::RSP, Scale::S1, extra))),
    ] + bind_code(p_w, p_a, p_out)
        + seq![counted(Reg::R15, m, 1, quant_matmul_q8q8_n1_body_vnni_4acc_rows(form, k_blocks, row_bytes))]
        + seq![
        vmem(MemInst::VmovupsLoad(Ymm(6), at(Reg::RSP, Reg::RSP, Scale::S1, extra))),
    ] + epilogue_code(size)
}

/// Emits [`quant_matmul_q8q8_n1_body_vnni_4acc_code`].
pub fn emit_quant_matmul_q8q8_n1_body_vnni_4acc(
    a: &mut Asm,
    p_w: Reg,
    p_a: Reg,
    p_out: Reg,
    m: i32,
    k: i32,
    abi: Abi,
    form: VnniForm,
)
    requires
        old(a).wf(),
        old(a).open().len() == 0,
        old(a).code().len() == 0,
        k % 32 == 0,
        i32::MIN <= k / 32 * 34 <= i32::MAX,
    ensures
        final(a).wf(),
        final(a).open().len() == 0,
        final(a).code() == quant_matmul_q8q8_n1_body_vnni_4acc_code(p_w, p_a, p_out, m, k, abi, form),
{
    let extra: i32 = extra_of(abi);
    let k_blocks: i32 = row_blocks(k);
    let row_bytes: i32 = k_blocks * 34;
    let size: i32 = extra + 32;
    emit_prologue(a, size);
    a.vmem(MemInst::VmovupsStore(Ymm(6), at(Reg::RSP, Reg::RSP, Scale::S1, extra)));
    emit_bind(a, p_w, p_a, p_out);
    let rows = a.begin(Reg::R15, m);
    emit_zero4(a);
    let blocks = a.begin(Reg::R11, k_blocks);
    emit_q8_offset(a, row_bytes);
    a.gp(IntInst::MovRR(Reg::R10, Reg::R11));
    a.gp(IntInst::ImulRRI(Reg::R10, Reg::R10, 34));
    emit_vnni_block(a, form, 0, 2, Ymm(0));
    emit_vnni_block(a, form, 34, 36, Ymm(1));
    emit_vnni_block(a, form, 68, 70, Ymm(2));
    emit_vnni_block(a, form, 102, 104, Ymm(3));
    assert(a.code() =~= quant_matmul_q8q8_n1_body_vnni_4acc_blocks(form, row_bytes));
    a.end(blocks, Reg::R11, 4);
    emit_combine4(a);
    emit_hsum(a);
    a.sse(SseInst::MovssStore(Xmm(0), at(Reg::R14, Reg::R15, Scale::S4, 0)));
    assert(a.code() =~= quant_matmul_q8q8_n1_body_vnni_4acc_rows(form, k_blocks, row_bytes));
    a.end(rows, Reg::R15, 1);
    a.vmem(MemInst::VmovupsLoad(Ymm(6), at(Reg::RSP, Reg::RSP, Scale::S1, extra)));
    emit_epilogue(a, size);
    assert(a.code() =~= quant_matmul_q8q8_n1_body_vnni_4acc_code(p_w, p_a, p_out, m, k, abi, form));
}

/// `ymm2 = broadcast(1 / sqrt(xmm0 * inv_h + eps))`; the constants are the bit
/// patterns of fp32 numbers.
pub open spec fn inverse_rms_code(inv_h: u32, eps: u32) -> Seq<Code> {
    seq![
        gp(IntInst::MovRI32(Reg::RAX, inv_h)),
        vcvt(ConvInst::VmovdLoadReg(Ymm(1), Reg::RAX)),
        vps(FloatInst::VmulssXmm(Ymm(0), Ymm(0), Ymm(1))),
        gp(IntInst::MovRI32(Reg::RAX, eps)),
        vcvt(ConvInst::VmovdLoadReg(Ymm(1), Reg::RAX)),
        vps(FloatInst::VaddssXmm(Ymm(0), Ymm(0), Ymm(1))),
        vps(FloatInst::VsqrtssXmm(Ymm(0), Ymm(0), Ymm(0))),
        gp(IntInst::MovRI32(Reg::RAX, 0x3F80_0000)),
        vcvt(ConvInst::VmovdLoadReg(Ymm(1), Reg::RAX)),
        vps(FloatInst::VdivssXmm(Ymm(0), Ymm(1), Ymm(0))),
        vps(FloatInst::VbroadcastssXmm(Ymm(2), Ymm(0))),
    ]
}

fn emit_inverse_rms(a: &mut Asm, inv_h: u32, eps: u32)
    requires
        old(a).wf(),
    ensures
        final(a).wf(),
        final(a).open() == old(a).open(),
        final(a).code() == old(a).code() + inverse_rms_code(inv_h, eps),
{
    a.gp(IntInst::MovRI32(Reg::RAX, inv_h));
    a.vcvt(ConvInst::VmovdLoadReg(Ymm(1), Reg::RAX));
    a.vps(FloatInst::VmulssXmm(Ymm(0), Ymm(0), Ymm(1)));
    a.gp(IntInst::MovRI32(Reg::RAX, eps));
    a.vcvt(ConvInst::VmovdLoadReg(Ymm(1), Reg::RAX));
    a.vps(FloatInst::VaddssXmm(Ymm(0), Ymm(0), Ymm(1)));
    a.vps(FloatInst::VsqrtssXmm(Ymm(0), Ymm(0), Ymm(0)));
    a.gp(IntInst::MovRI32(Reg::RAX, 0x3F80_0000));
    a.vcvt(ConvInst::VmovdLoadReg(Ymm(1), Reg::RAX));
    a.vps(FloatInst::VdivssXmm(Ymm(0), Ymm(1), Ymm(0)));
    a.vps(FloatInst::VbroadcastssXmm(Ymm(2), Ymm(0)));
}

/// Saves R12, R13 and R14 and reserves `size` bytes of stack.
pub open spec fn rms_prologue_code(size: i32) -> Seq<Code> {
    seq![
        gp(IntInst::Push(Reg::R12)),
        gp(IntInst::Push(Reg::R13)),
        gp(IntInst::Push(Reg::R14)),
        gp(IntInst::SubRI(Reg::RSP, size)),
    ]
}

fn emit_rms_prologue(a: &mut Asm, size: i32)
    requires
        old(a).wf(),
    ensures
        final(a).wf(),
        final(a).open() == old(a).open(),
        final(a).code() == old(a).code() + rms_prologue_code(size),
{
    a.gp(IntInst::Push(Reg::R12));
    a.gp(IntInst::Push(Reg::R13));
    a.gp(IntInst::Push(Reg::R14));
    a.gp(IntInst::SubRI(Reg::RSP, size));
}

/// Undoes [`rms_prologue_code`] and returns.
pub open spec fn rms_epilogue_code(size: i32) -> Seq<Code> {
    seq![
        gp(IntInst::AddRI(Reg::RSP, size)),
        gp(IntInst::Pop(Reg::R14)),
        gp(IntInst::Pop(Reg::R13)),
        gp(IntInst::Pop(Reg::R12)),
        gp(IntInst::Ret),
    ]
}

fn emit_rms_epilogue(a: &mut Asm, size: i32)
    requires
        old(a).wf(),
    ensures
        final(a).wf(),
        final(a).open() == old(a).open(),
        final(a).code() == old(a).code() + rms_epilogue_code(size),
{
    a.gp(IntInst::AddRI(Reg::RSP, size));
    a.gp(IntInst::Pop(Reg::R14));
    a.gp(IntInst::Pop(Reg::R13));
    a.gp(IntInst::Pop(Reg::R12));
    a.gp(IntInst::Ret);
}

/// The body of the loop over squares of [`rms_norm_body_code`].
pub open spec fn rms_norm_body_squares() -> Seq<Code> {
    seq![
        vmem(MemInst::VmovupsLoad(Ymm(1), at(Reg::R12, Reg::RCX, Scale::S4, 0))),
        vps(FloatInst::Vfmadd231psReg(Ymm(0), Ymm(1), Ymm(1))),
    ]
}

/// The body of the loop over lanes of [`rms_norm_body_code`].
pub open spec fn rms_norm_body_lanes() -> Seq<Code> {
    seq![
        vmem(MemInst::VmovupsLoad(Ymm(0), at(Reg::R12, Reg::RCX, Scale::S4, 0))),
        vmem(MemInst::VmovupsLoad(Ymm(1), at(Reg::R13, Reg::RCX, Scale::S4, 0))),
        vps(FloatInst::VmulpsReg(Ymm(0), Ymm(0), Ymm(2))),
        vps(FloatInst::VmulpsReg(Ymm(0), Ymm(0), Ymm(1))),
        vmem(MemInst::VmovupsStore(Ymm(0), at(Reg::R14, Reg::RCX, Scale::S4, 0))),
    ]
}

/// RMS normalization of `h` elements, `h % 8 == 0`. `inv_h` and `eps` are the bit
/// patterns of the fp32 numbers `1/h` and `eps`.
///
/// ```text
/// ymm0 = sum of x[i]^2, in 8 lanes
/// xmm0 = 1 / sqrt(sum of lanes * inv_h + eps)
/// ymm2 = broadcast(xmm0)
/// out[i] = x[i] * ymm2 * weight[i]
/// ```
pub open spec fn rms_norm_body_code(
    p_x: Reg,
    p_w: Reg,
    p_out: Reg,
    h: i32,
    inv_h: u32,
    eps: u32,
    abi: Abi,
) -> Seq<Code> {
    let extra = frame_extra(abi);
    rms_prologue_code(extra) + bind_code(p_x, p_w, p_out) + seq![
        vps(FloatInst::VxorpsZero(Ymm(0))),
    ] + seq![counted(Reg::RCX, h, 8, rms_norm_body_squares())]
        + hsum_code()
        + inverse_rms_code(inv_h, eps)
        + seq![counted(Reg::RCX, h, 8, rms_norm_body_lanes())]
        + rms_epilogue_code(extra)
}

/// Emits [`rms_norm_body_code`].
pub fn emit_rms_norm_body(
    a: &mut Asm,
    p_x: Reg,
    p_w: Reg,
    p_out: Reg,
    h: i32,
    inv_h: u32,
    eps: u32,
    abi: Abi,
)
    requires
        old(a).wf(),
        old(a).open().len() == 0,
        old(a).code().len() == 0,
    ensures
        final(a).wf(),
        final(a).open().len() == 0,
        final(a).code() == rms_norm_body_code(p_x, p_w, p_out, h, inv_h, eps, abi),
{
    let extra: i32 = extra_of(abi);
    emit_rms_prologue(a, extra);
    emit_bind(a, p_x, p_w, p_out);
    a.vps(FloatInst::VxorpsZero(Ymm(0)));
    let squares = a.begin(Reg::RCX, h);
    a.vmem(MemInst::VmovupsLoad(Ymm(1), at(Reg::R12, Reg::RCX, Scale::S4, 0)));
    a.vps(FloatInst::Vfmadd231psReg(Ymm(0), Ymm(1), Ymm(1)));
    assert(a.code() =~= rms_norm_body_squares());
    a.end(squares, Reg::RCX, 8);
    emit_hsum(a);
    emit_inverse_rms(a, inv_h, eps);
    let lanes = a.begin(Reg::RCX, h);
    a.vmem(MemInst::VmovupsLoad(Ymm(0), at(Reg::R12, Reg::RCX, Scale::S4, 0)));
    a.vmem(MemInst::VmovupsLoad(Ymm(1), at(Reg::R13, Reg::RCX, Scale::S4, 0)));
    a.vps(FloatInst::VmulpsReg(Ymm(0), Ymm(0), Ymm(2)));
    a.vps(FloatInst::VmulpsReg(Ymm(0), Ymm(0), Ymm(1)));
    a.vmem(MemInst::VmovupsStore(Ymm(0), at(Reg::R14, Reg::RCX, Scale::S4, 0)));
    assert(a.code() =~= rms_norm_body_lanes());
    a.end(lanes, Reg::RCX, 8);
    emit_rms_epilogue(a, extra);
    assert(a.code() =~= rms_norm_body_code(p_x, p_w, p_out, h, inv_h, eps, abi));
}

/// Eight elements of a block: `out = fp32(bytes at quants) * ymm0`.
pub open spec fn dequant_group_code(quants: i32, dest: i32) -> Seq<Code> {
    seq![
        vmem(MemInst::VpmovsxbdLoad(Ymm(1), at(Reg::R12, Reg::RAX, Scale::S1, quants))),
        vcvt(ConvInst::Vcvtdq2ps(Ymm(1), Ymm(1))),
        vps(FloatInst::VmulpsReg(Ymm(1), Ymm(1), Ymm(0))),
        vmem(MemInst::VmovupsStore(Ymm(1), at(Reg::R13, Reg::RCX, Scale::S1, dest))),
    ]
}

fn emit_dequant_group(a: &mut Asm, quants: i32, dest: i32)
    requires
        old(a).wf(),
    ensures
        final(a).wf(),
        final(a).open() == old(a).open(),
        final(a).code() == old(a).code() + dequant_group_code(quants, dest),
{
    a.vmem(MemInst::VpmovsxbdLoad(Ymm(1), at(Reg::R12, Reg::RAX, Scale::S1, quants)));
    a.vcvt(ConvInst::Vcvtdq2ps(Ymm(1), Ymm(1)));
    a.vps(FloatInst::VmulpsReg(Ymm(1), Ymm(1), Ymm(0)));
    a.vmem(MemInst::VmovupsStore(Ymm(1), at(Reg::R13, Reg::RCX, Scale::S1, dest)));
}

/// The body of the loop over blocks of [`dequant_q8_body_code`].
pub open spec fn dequant_q8_body_blocks() -> Seq<Code> {
    seq![
        gp(IntInst::MovRR(Reg::RAX, Reg::RBX)),
        gp(IntInst::ImulRRI(Reg::RAX, Reg::RAX, 34)),
        vmem(MemInst::VmovdLoad(Ymm(1), at(Reg::R12, Reg::RAX, Scale::S1, 0))),
        vcvt(ConvInst::Vcvtph2psXmm(Ymm(1), Ymm(1))),
        vps(FloatInst::VbroadcastssXmm(Ymm(0), Ymm(1))),
        gp(IntInst::MovRR(Reg::RCX, Reg::RBX)),
        gp(IntInst::ImulRRI(Reg::RCX, Reg::RCX, 128)),
    ] + dequant_group_code(2, 0)
        + dequant_group_code(10, 32)
        + dequant_group_code(18, 64)
        + dequant_group_code(26, 96)
}

/// Dequantizes `num_blocks` Q8_0 blocks into fp32.
///
/// ```text
/// for i in 0..num_blocks:
///   ymm0 = broadcast(fp32(scale of block i))
///   for g in 0..4:
///     out[i*32 + 8g ..+ 8] = fp32(bytes 8g ..+ 8) * ymm0
/// ```
pub open spec fn dequant_q8_body_code(
    p_src: Reg,
    p_dst: Reg,
    num_blocks: i32,
    abi: Abi,
) -> Seq<Code> {
    let extra = frame_extra(abi);
    seq![
        gp(IntInst::Push(Reg::R12)),
        gp(IntInst::Push(Reg::R13)),
        gp(IntInst::Push(Reg::RBX)),
        gp(IntInst::SubRI(Reg::RSP, extra)),
        gp(IntInst::MovRR(Reg::R12, p_src)),
        gp(IntInst::MovRR(Reg::R13, p_dst)),
    ] + seq![counted(Reg::RBX, num_blocks, 1, dequant_q8_body_blocks())] + seq![
        gp(IntInst::AddRI(Reg::RSP, extra)),
        gp(IntInst::Pop(Reg::RBX)),
        gp(IntInst::Pop(Reg::R13)),
        gp(IntInst::Pop(Reg::R12)),
        gp(IntInst::Ret),
    ]
}

/// Emits [`dequant_q8_body_code`].
pub fn emit_dequant_q8_body(a: &mut Asm, p_src: Reg, p_dst: Reg, num_blocks: i32, abi: Abi)
    requires
        old(a).wf(),
        old(a).open().len() == 0,
        old(a).code().len() == 0,
    ensures
        final(a).wf(),
        final(a).open().len() == 0,
        final(a).code() == dequant_q8_body_code(p_src, p_dst, num_blocks, abi),
{
    let extra: i32 = extra_of(abi);
    a.gp(IntInst::Push(Reg::R12));
    a.gp(IntInst::Push(Reg::R13));
    a.gp(IntInst::Push(Reg::RBX));
    a.gp(IntInst::SubRI(Reg::RSP, extra));
    a.gp(IntInst::MovRR(Reg::R12, p_src));
    a.gp(IntInst::MovRR(Reg::R13, p_dst));
    let blocks = a.begin(Reg::RBX, num_blocks);
    a.gp(IntInst::MovRR(Reg::RAX, Reg::RBX));
    a.gp(IntInst::ImulRRI(Reg::RAX, Reg::RAX, 34));
    a.vmem(MemInst::VmovdLoad(Ymm(1), at(Reg::R12, Reg::RAX, Scale::S1, 0)));
    a.vcvt(ConvInst::Vcvtph2psXmm(Ymm(1), Ymm(1)));
    a.vps(FloatInst::VbroadcastssXmm(Ymm(0), Ymm(1)));
    a.gp(IntInst::MovRR(Reg::RCX, Reg::RBX));
    a.gp(IntInst::ImulRRI(Reg::RCX, Reg::RCX, 128));
    emit_dequant_group(a, 2, 0);
    emit_dequant_group(a, 10, 32);
    emit_dequant_group(a, 18, 64);
    emit_dequant_group(a, 26, 96);
    assert(a.code() =~= dequant_q8_body_blocks());
    a.end(blocks, Reg::RBX, 1);
    a.gp(IntInst::AddRI(Reg::RSP, extra));
    a.gp(IntInst::Pop(Reg::RBX));
    a.gp(IntInst::Pop(Reg::R13));
    a.gp(IntInst::Pop(Reg::R12));
    a.gp(IntInst::Ret);
    assert(a.code() =~= dequant_q8_body_code(p_src, p_dst, num_blocks, abi));
}

} // verus!
