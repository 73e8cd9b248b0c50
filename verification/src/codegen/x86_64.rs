//! x86_64 backend. Emits native machine code for Lumen IR.
//!
//! Calling convention support:
//!   - Windows x64: RCX=p0, RDX=p1, R8=p2.
//!   - System V x86_64 (Linux / macOS): RDI=p0, RSI=p1, RDX=p2.
//!
//! The last pointer is the caller-supplied result buffer.

use crate::codegen::assembler::{assemble, Asm, Code};
use crate::codegen::backend::{
    Backend, Capabilities, CodegenError, CodegenFault, CodegenOpts, Lowering, MachineCode,
};
use crate::codegen::kernels::{
    dequant_q8_body_code, emit_dequant_q8_body, emit_matmul_avx2, emit_matmul_avx2_1xn_4acc,
    emit_matmul_body, emit_matmul_tile_4x8, emit_quant_matmul_q8_body, emit_quant_matmul_q8_n1_body,
    emit_quant_matmul_q8_n1_body_zmm, emit_quant_matmul_q8q8_n1_body,
    emit_quant_matmul_q8q8_n1_body_vnni, emit_quant_matmul_q8q8_n1_body_vnni_4acc,
    emit_rms_norm_body, matmul_avx2_1xn_4acc_code, matmul_avx2_code, matmul_body_code,
    matmul_tile_4x8_code, quant_matmul_q8_body_code, quant_matmul_q8_n1_body_code,
    quant_matmul_q8_n1_body_zmm_code, quant_matmul_q8q8_n1_body_code,
    quant_matmul_q8q8_n1_body_vnni_4acc_code, quant_matmul_q8q8_n1_body_vnni_code,
    rms_norm_body_code,
};
use crate::codegen::x86_64_enc::Reg;
use crate::float_bits::{recip_bits, recip_f32_bits};
use crate::ir::module::{id_at, make_id, Function, IrModule, Value, ValueId};
use crate::ir::op::Op;
use crate::ir::ty::{DType, Dim, Shape, TensorType, TensorTypeView};
use crate::text::push_text;
use vstd::prelude::*;

verus! {

/// Which VNNI encoding to use for `vpdpbusd`. Selected by the caller based
/// on runtime CPU feature detection.
#[derive(Copy, Clone, Debug, PartialEq, Eq, Structural)]
pub enum VnniForm {
    /// AVX-VNNI. 5-byte VEX form.
    Vex256,
    /// AVX-512 VNNI. 6-byte EVEX form, works on any AVX-512 capable CPU even
    /// if the `avxvnni` CPUID bit is clear.
    Evex256,
}

/// Calling convention.
#[derive(Copy, Clone, Debug, PartialEq, Eq, Structural)]
pub enum Abi {
    /// rcx, rdx, r8, r9
    WinX64,
    /// rdi, rsi, rdx, rcx
    SysV,
}

/// The register that holds parameter `index`.
pub open spec fn param_register(abi: Abi, index: int) -> Reg {
    match abi {
        Abi::WinX64 => if index == 0 {
            Reg::RCX
        } else if index == 1 {
            Reg::RDX
        } else if index == 2 {
            Reg::R8
        } else {
            Reg::R9
        },
        Abi::SysV => if index == 0 {
            Reg::RDI
        } else if index == 1 {
            Reg::RSI
        } else if index == 2 {
            Reg::RDX
        } else {
            Reg::RCX
        },
    }
}

/// `std::path::is_separator` on a backslash: whether it separates the parts of
/// a path on the platform that the library was built for, which it does on
/// Windows. Nothing is claimed of the result, which depends on the platform.
#[verifier::external_body]
fn backslash_is_separator() -> (b: bool) {
    std::path::is_separator('\\')
}

impl Abi {
    /// The calling convention of Windows, or that of the other systems.
    pub fn for_platform(windows: bool) -> (abi: Self)
        ensures
            abi == (if windows {
                Abi::WinX64
            } else {
                Abi::SysV
            }),
    {
        if windows {
            Abi::WinX64
        } else {
            Abi::SysV
        }
    }

    /// The calling convention of the platform that the library was built for.
    pub fn detect_host() -> (abi: Self) {
        Self::for_platform(backslash_is_separator())
    }

    /// The register that holds parameter `index`.
    pub fn param_reg(self, index: u32) -> (r: Reg)
        requires
            index < 4,
        ensures
            r == param_register(self, index as int),
    {
        match self {
            Abi::WinX64 => match index {
                0 => Reg::RCX,
                1 => Reg::RDX,
                2 => Reg::R8,
                _ => Reg::R9,
            },
            Abi::SysV => match index {
                0 => Reg::RDI,
                1 => Reg::RSI,
                2 => Reg::RDX,
                _ => Reg::RCX,
            },
        }
    }
}

/// The x86_64 backend.
pub struct X86_64 {
    pub abi: Abi,
    /// If true, the backend may select AVX2/FMA paths when shapes allow. Set to
    /// false to force scalar code.
    pub avx2: bool,
}

impl X86_64 {
    /// The backend for this machine.
    pub fn host() -> (b: Self)
        ensures
            b.avx2,
    {
        Self { abi: Abi::detect_host(), avx2: true }
    }

    /// The backend for this machine, without vector instructions.
    pub fn scalar_only() -> (b: Self)
        ensures
            !b.avx2,
    {
        Self { abi: Abi::detect_host(), avx2: false }
    }

    /// The backend for the given calling convention.
    pub fn with_abi(abi: Abi) -> (b: Self)
        ensures
            b.abi == abi,
            b.avx2,
    {
        Self { abi, avx2: true }
    }
}

// ---- recognizing a function -------------------------------------------------

/// The operations that decide which kernel a function is.
#[derive(Copy, Clone, Debug, PartialEq, Eq, Structural)]
pub enum OpKind {
    RmsNorm,
    Dequantize,
    MatMul,
}

/// Whether `op` is of the given kind.
pub open spec fn is_kind(op: Op, kind: OpKind) -> bool {
    match kind {
        OpKind::RmsNorm => op is RmsNorm,
        OpKind::Dequantize => op is Dequantize,
        OpKind::MatMul => op is MatMul,
    }
}

fn op_is(op: &Op, kind: OpKind) -> (b: bool)
    ensures
        b == is_kind(*op, kind),
{
    match (op, kind) {
        (Op::RmsNorm { .. }, OpKind::RmsNorm) => true,
        (Op::Dequantize { .. }, OpKind::Dequantize) => true,
        (Op::MatMul { .. }, OpKind::MatMul) => true,
        _ => false,
    }
}

/// The positions of the values of the given kind, in order.
pub open spec fn positions(values: Seq<Value>, kind: OpKind) -> Seq<int>
    decreases values.len(),
{
    if values.len() == 0 {
        Seq::empty()
    } else {
        let before = positions(values.drop_last(), kind);
        if is_kind(values.last().op, kind) {
            before.push(values.len() - 1)
        } else {
            before
        }
    }
}

/// The positions found are positions of values of the kind.
proof fn lemma_positions(values: Seq<Value>, kind: OpKind)
    ensures
        forall|i: int|
            0 <= i < positions(values, kind).len() ==> 0 <= #[trigger] positions(values, kind)[i]
                < values.len() && is_kind(values[positions(values, kind)[i]].op, kind),
    decreases values.len(),
{
    if values.len() > 0 {
        lemma_positions(values.drop_last(), kind);
    }
}

fn find_ops(values: &Vec<Value>, kind: OpKind) -> (found: Vec<usize>)
    ensures
        found@.len() == positions(values@, kind).len(),
        forall|i: int|
            0 <= i < found@.len() ==> (#[trigger] found@[i]) as int == positions(values@, kind)[i],
        forall|i: int|
            0 <= i < found@.len() ==> (#[trigger] found@[i]) < values@.len() && is_kind(
                values@[found@[i] as int].op,
                kind,
            ),
{
    let mut found: Vec<usize> = Vec::new();
    let mut i: usize = 0;
    while i < values.len()
        invariant
            i <= values@.len(),
            found@.len() == positions(values@.subrange(0, i as int), kind).len(),
            forall|j: int|
                0 <= j < found@.len() ==> (#[trigger] found@[j]) as int == positions(
                    values@.subrange(0, i as int),
                    kind,
                )[j],
        decreases values@.len() - i,
    {
        proof {
            let s = values@.subrange(0, i + 1);
            assert(s.drop_last() =~= values@.subrange(0, i as int));
            assert(s.last() == values@[i as int]);
        }
        if op_is(&values[i].op, kind) {
            found.push(i);
        }
        i = i + 1;
    }
    proof {
        assert(values@.subrange(0, i as int) =~= values@);
        lemma_positions(values@, kind);
    }
    found
}

// ---- failures ---------------------------------------------------------------

/// The module is refused as holding an unsupported operation.
pub open spec fn unsupported(s: Seq<char>) -> FunctionLowering {
    FunctionLowering::Fails(CodegenFault::UnsupportedOp(s))
}

/// The module is refused for its shapes.
pub open spec fn bad_shape(s: Seq<char>) -> FunctionLowering {
    FunctionLowering::Fails(CodegenFault::ShapeError(s))
}

/// What compiling a function comes to.
pub enum FunctionLowering {
    Emits(Seq<Code>),
    Fails(CodegenFault),
    Undefined,
}

fn unsupported_op(s: &str) -> (r: Result<(), CodegenError>)
    ensures
        r matches Err(e) && e@ == CodegenFault::UnsupportedOp(s@),
{
    Err(CodegenError::UnsupportedOp(s.to_string()))
}

fn shape_error(s: &str) -> (r: Result<(), CodegenError>)
    ensures
        r matches Err(e) && e@ == CodegenFault::ShapeError(s@),
{
    Err(CodegenError::ShapeError(s.to_string()))
}

/// What emitting a function into an empty assembler does.
pub open spec fn function_result(
    l: FunctionLowering,
    r: Result<(), CodegenError>,
    a: &Asm,
) -> bool {
    match l {
        FunctionLowering::Emits(code) => r is Ok && a.wf() && a.open().len() == 0 && a.code()
            == code,
        FunctionLowering::Fails(e) => r matches Err(err) && err@ == e,
        FunctionLowering::Undefined => false,
    }
}

/// The two dimensions of a static rank-2 shape, or what is wrong with it.
pub open spec fn two_dims(t: TensorTypeView) -> Result<(u32, u32), CodegenFault> {
    if t.dims.len() != 2 {
        Err(CodegenFault::UnsupportedOp("matmul operand not rank-2"@))
    } else {
        match (t.dims[0], t.dims[1]) {
            (Dim::Static(a), Dim::Static(b)) => Ok((a, b)),
            _ => Err(CodegenFault::ShapeError("dynamic dims not supported"@)),
        }
    }
}

fn static_2d(t: &TensorType) -> (r: Result<(u32, u32), CodegenError>)
    ensures
        match two_dims(t@) {
            Ok(p) => r == Ok::<(u32, u32), CodegenError>(p),
            Err(e) => r matches Err(err) && err@ == e,
        },
{
    if t.shape.0.len() != 2 {
        return Err(CodegenError::UnsupportedOp("matmul operand not rank-2".to_string()));
    }
    match (t.shape.0[0], t.shape.0[1]) {
        (Dim::Static(a), Dim::Static(b)) => Ok((a, b)),
        _ => Err(CodegenError::ShapeError("dynamic dims not supported".to_string())),
    }
}

/// The index of a parameter.
pub open spec fn param_of(op: Op) -> Option<u32> {
    match op {
        Op::Param { index } => Some(index),
        _ => None,
    }
}

fn expect_param(op: &Op) -> (r: Option<u32>)
    ensures
        r == param_of(*op),
{
    match op {
        Op::Param { index } => Some(*index),
        _ => None,
    }
}

/// A dimension fits in the signed 32-bit immediates of the generated code. A
/// larger one wraps: the code takes it for a negative number.
pub open spec fn fits(d: u32) -> bool {
    d <= 0x7FFF_FFFF
}

// ---- matrix product -----------------------------------------------------------

/// What the values of a plain matrix-product function are.
pub enum Scan {
    /// The last product and the last return, where there are any.
    Plain { matmul: Option<int>, ret: Option<ValueId> },
    /// The first operation that is neither product, return nor parameter.
    Other(Op),
}

/// Walks over the values in order.
pub open spec fn scan(values: Seq<Value>) -> Scan
    decreases values.len(),
{
    if values.len() == 0 {
        Scan::Plain { matmul: None, ret: None }
    } else {
        match scan(values.drop_last()) {
            Scan::Other(op) => Scan::Other(op),
            Scan::Plain { matmul, ret } => match values.last().op {
                Op::MatMul { .. } => Scan::Plain { matmul: Some(values.len() - 1), ret },
                Op::Return { value } => Scan::Plain { matmul, ret: Some(value) },
                Op::Param { .. } => Scan::Plain { matmul, ret },
                op => Scan::Other(op),
            },
        }
    }
}

/// An operation that stopped a scan stops every longer one.
proof fn lemma_scan_other(values: Seq<Value>, i: int)
    requires
        0 <= i <= values.len(),
        scan(values.subrange(0, i)) is Other,
    ensures
        scan(values) == scan(values.subrange(0, i)),
    decreases values.len(),
{
    if i < values.len() {
        let shorter = values.drop_last();
        assert(shorter.subrange(0, i) =~= values.subrange(0, i));
        lemma_scan_other(shorter, i);
    } else {
        assert(values.subrange(0, i) =~= values);
    }
}

/// The kernel for a product of the given shape: a 4x8 register tile where both
/// `m` and `n` divide, four accumulators for one row of many columns, one
/// accumulator where only `n` divides, scalar code otherwise.
pub open spec fn matmul_kernel(
    lhs: Reg,
    rhs: Reg,
    out: Reg,
    m: u32,
    k: u32,
    n: u32,
    abi: Abi,
    avx2: bool,
) -> Seq<Code> {
    if avx2 && m % 4 == 0 && n % 8 == 0 {
        matmul_tile_4x8_code(lhs, rhs, out, m as i32, k as i32, n as i32, abi)
    } else if avx2 && m == 1 && n % 32 == 0 {
        matmul_avx2_1xn_4acc_code(lhs, rhs, out, k as i32, n as i32, abi)
    } else if avx2 && n % 8 == 0 {
        matmul_avx2_code(lhs, rhs, out, m as i32, k as i32, n as i32, abi)
    } else {
        matmul_body_code(lhs, rhs, out, m as i32, k as i32, n as i32, abi)
    }
}

/// What a function that returns the product at `mm` comes to.
pub open spec fn product_lowering(f: Function, mm: int, abi: Abi, avx2: bool) -> FunctionLowering {
    let lhs = f.values@[mm].op->MatMul_lhs.0 as int;
    let rhs = f.values@[mm].op->MatMul_rhs.0 as int;
    let len = f.values@.len();
    let params = f.params@.len() as int;
    if lhs >= len {
        FunctionLowering::Undefined
    } else {
        match two_dims(f.values@[lhs].ty@) {
            Err(e) => FunctionLowering::Fails(e),
            Ok((m, k)) => if rhs >= len {
                FunctionLowering::Undefined
            } else {
                match two_dims(f.values@[rhs].ty@) {
                    Err(e) => FunctionLowering::Fails(e),
                    Ok((_, n)) => if f.values@[lhs].ty.dtype != DType::F32
                        || f.values@[rhs].ty.dtype != DType::F32 {
                        unsupported("Phase 2.B: only f32 matmul is supported"@)
                    } else {
                        match (param_of(f.values@[lhs].op), param_of(f.values@[rhs].op)) {
                            (Some(l), Some(r)) => if l >= 4 || r >= 4 || params >= 4 {
                                FunctionLowering::Undefined
                            } else {
                                FunctionLowering::Emits(
                                    matmul_kernel(
                                        param_register(abi, l as int),
                                        param_register(abi, r as int),
                                        param_register(abi, params),
                                        m,
                                        k,
                                        n,
                                        abi,
                                        avx2,
                                    ),
                                )
                            },
                            _ => unsupported(
                                "Phase 2.B: matmul operands must be raw function parameters"@,
                            ),
                        }
                    },
                }
            },
        }
    }
}

/// What a function without dequantization and normalization comes to.
pub open spec fn matmul_lowering(
    f: Function,
    abi: Abi,
    avx2: bool,
) -> FunctionLowering {
    match scan(f.values@) {
        Scan::Other(op) => unsupported(
            "x86_64 Phase 2.B: op "@ + op.debug() + " not supported"@,
        ),
        Scan::Plain { matmul: None, .. } => unsupported("Phase 2.B requires a matmul function"@),
        Scan::Plain { matmul: Some(mm), ret: None } => unsupported("missing return"@),
        Scan::Plain { matmul: Some(mm), ret: Some(r) } => if r.0 as int != mm {
            unsupported("Phase 2.B: return must come directly from matmul"@)
        } else {
            product_lowering(f, mm, abi, avx2)
        },
    }
}

fn emit_matmul_kernel(
    a: &mut Asm,
    lhs: Reg,
    rhs: Reg,
    out: Reg,
    m: u32,
    k: u32,
    n: u32,
    abi: Abi,
    avx2: bool,
)
    requires
        old(a).wf(),
        old(a).open().len() == 0,
        old(a).code().len() == 0,
    ensures
        final(a).wf(),
        final(a).open().len() == 0,
        final(a).code() == matmul_kernel(lhs, rhs, out, m, k, n, abi, avx2),
{
    if avx2 && m % 4 == 0 && n % 8 == 0 {
        emit_matmul_tile_4x8(a, lhs, rhs, out, m as i32, k as i32, n as i32, abi);
    } else if avx2 && m == 1 && n % 32 == 0 {
        emit_matmul_avx2_1xn_4acc(a, lhs, rhs, out, k as i32, n as i32, abi);
    } else if avx2 && n % 8 == 0 {
        emit_matmul_avx2(a, lhs, rhs, out, m as i32, k as i32, n as i32, abi);
    } else {
        emit_matmul_body(a, lhs, rhs, out, m as i32, k as i32, n as i32, abi);
    }
}

fn emit_product(a: &mut Asm, f: &Function, mm: usize, abi: Abi, avx2: bool) -> (r: Result<
    (),
    CodegenError,
>)
    requires
        old(a).wf(),
        old(a).open().len() == 0,
        old(a).code().len() == 0,
        mm < f.values@.len(),
        f.values@[mm as int].op is MatMul,
        !(product_lowering(*f, mm as int, abi, avx2) is Undefined),
    ensures
        function_result(product_lowering(*f, mm as int, abi, avx2), r, final(a)),
{
    let (lhs, rhs) = match &f.values[mm].op {
        Op::MatMul { lhs, rhs } => (lhs.0 as usize, rhs.0 as usize),
        _ => (0, 0),
    };
    let (m, k) = match static_2d(&f.values[lhs].ty) {
        Ok(p) => p,
        Err(e) => {
            return Err(e);
        },
    };
    let n: u32 = match static_2d(&f.values[rhs].ty) {
        Ok(p) => p.1,
        Err(e) => {
            return Err(e);
        },
    };
    if f.values[lhs].ty.dtype != DType::F32 || f.values[rhs].ty.dtype != DType::F32 {
        return unsupported_op("Phase 2.B: only f32 matmul is supported");
    }
    match (expect_param(&f.values[lhs].op), expect_param(&f.values[rhs].op)) {
        (Some(l), Some(r)) => {
            let p_lhs = abi.param_reg(l);
            let p_rhs = abi.param_reg(r);
            let p_out = abi.param_reg(f.params.len() as u32);
            emit_matmul_kernel(a, p_lhs, p_rhs, p_out, m, k, n, abi, avx2);
            Ok(())
        },
        _ => unsupported_op("Phase 2.B: matmul operands must be raw function parameters"),
    }
}

fn emit_function_matmul(
    a: &mut Asm,
    f: &Function,
    abi: Abi,
    avx2: bool,
) -> (r: Result<(), CodegenError>)
    requires
        old(a).wf(),
        old(a).open().len() == 0,
        old(a).code().len() == 0,
        !(matmul_lowering(*f, abi, avx2) is Undefined),
    ensures
        function_result(matmul_lowering(*f, abi, avx2), r, final(a)),
{
    let mut matmul: Option<usize> = None;
    let mut ret: Option<ValueId> = None;
    let mut i: usize = 0;
    while i < f.values.len()
        invariant
            i <= f.values@.len(),
            scan(f.values@.subrange(0, i as int)) == (Scan::Plain {
                matmul: match matmul {
                    Some(x) => Some(x as int),
                    None => None,
                },
                ret,
            }),
            matmul matches Some(x) ==> x < i && f.values@[x as int].op is MatMul,
        decreases f.values@.len() - i,
    {
        proof {
            let s = f.values@.subrange(0, i + 1);
            assert(s.drop_last() =~= f.values@.subrange(0, i as int));
            assert(s.last() == f.values@[i as int]);
        }
        match &f.values[i].op {
            Op::MatMul { .. } => {
                matmul = Some(i);
            },
            Op::Return { value } => {
                ret = Some(*value);
            },
            Op::Param { .. } => {},
            op => {
                proof {
                    lemma_scan_other(f.values@, i + 1);
                }
                let mut s: String = "x86_64 Phase 2.B: op ".to_string();
                let d = op.debug_text();
                push_text(&mut s, d.as_str());
                push_text(&mut s, " not supported");
                return Err(CodegenError::UnsupportedOp(s));
            },
        }
        i = i + 1;
    }
    assert(f.values@.subrange(0, i as int) =~= f.values@);
    match (matmul, ret) {
        (None, _) => unsupported_op("Phase 2.B requires a matmul function"),
        (Some(_), None) => unsupported_op("missing return"),
        (Some(mm), Some(r)) => {
            if r.0 as usize != mm {
                return unsupported_op("Phase 2.B: return must come directly from matmul");
            }
            emit_product(a, f, mm, abi, avx2)
        },
    }
}

// ---- RMS normalization ----------------------------------------------------------

/// One over `h`, with `h` taken for a signed number.
pub open spec fn signed_recip(h: u32) -> u32 {
    if fits(h) {
        recip_bits(h as nat) as u32
    } else {
        (0x8000_0000 + recip_bits((0x1_0000_0000 - h) as nat)) as u32
    }
}

fn signed_recip_bits(h: u32) -> (r: u32)
    ensures
        r == signed_recip(h),
{
    if h <= 0x7FFF_FFFF {
        recip_f32_bits(h)
    } else {
        0x8000_0000 + recip_f32_bits(0xFFFF_FFFF - h + 1)
    }
}

/// What a function that normalizes comes to.
pub open spec fn rms_norm_lowering(f: Function, abi: Abi) -> FunctionLowering {
    let at = positions(f.values@, OpKind::RmsNorm)[0];
    let x = f.values@[at].op->RmsNorm_x.0 as int;
    let w = f.values@[at].op->RmsNorm_weight.0 as int;
    let eps = f.values@[at].op->RmsNorm_eps;
    let len = f.values@.len();
    let params = f.params@.len() as int;
    if x >= len || w >= len {
        FunctionLowering::Undefined
    } else {
        let x_ty = f.values@[x].ty@;
        let w_ty = f.values@[w].ty@;
        if x_ty.dtype != DType::F32 || w_ty.dtype != DType::F32 {
            unsupported("Phase 6.C.2: rms_norm only supports f32 inputs"@)
        } else if x_ty.dims.len() != 1 || w_ty.dims.len() != 1 {
            unsupported("Phase 6.C.2: rms_norm requires 1-D input and weight"@)
        } else {
            match x_ty.dims[0] {
                Dim::Dynamic(_) => bad_shape("dynamic dims not supported"@),
                Dim::Static(h) => if h % 8 != 0 {
                    bad_shape("Phase 6.C.2: H must be a multiple of 8"@)
                } else {
                    match param_of(f.values@[x].op) {
                        None => unsupported("rms_norm x must be Param"@),
                        Some(px) => match param_of(f.values@[w].op) {
                            None => unsupported("rms_norm weight must be Param"@),
                            Some(pw) => if px >= 4 || pw >= 4 || params >= 4 {
                                FunctionLowering::Undefined
                            } else {
                                FunctionLowering::Emits(
                                    rms_norm_body_code(
                                        param_register(abi, px as int),
                                        param_register(abi, pw as int),
                                        param_register(abi, params),
                                        h as i32,
                                        signed_recip(h),
                                        eps,
                                        abi,
                                    ),
                                )
                            },
                        },
                    }
                },
            }
        }
    }
}

/// Emits `y = (x * inv_rms) * weight` for 1-D inputs whose length is a multiple
/// of 8.
fn emit_function_rms_norm(a: &mut Asm, f: &Function, at: usize, abi: Abi) -> (r: Result<
    (),
    CodegenError,
>)
    requires
        old(a).wf(),
        old(a).open().len() == 0,
        old(a).code().len() == 0,
        positions(f.values@, OpKind::RmsNorm).len() > 0,
        at as int == positions(f.values@, OpKind::RmsNorm)[0],
        at < f.values@.len(),
        f.values@[at as int].op is RmsNorm,
        !(rms_norm_lowering(*f, abi) is Undefined),
    ensures
        function_result(rms_norm_lowering(*f, abi), r, final(a)),
{
    let (x, w, eps) = match &f.values[at].op {
        Op::RmsNorm { x, weight, eps } => (x.0 as usize, weight.0 as usize, *eps),
        _ => (0, 0, 0),
    };
    let x_ty = &f.values[x].ty;
    let w_ty = &f.values[w].ty;
    if x_ty.dtype != DType::F32 || w_ty.dtype != DType::F32 {
        return unsupported_op("Phase 6.C.2: rms_norm only supports f32 inputs");
    }
    if x_ty.shape.0.len() != 1 || w_ty.shape.0.len() != 1 {
        return unsupported_op("Phase 6.C.2: rms_norm requires 1-D input and weight");
    }
    let h: u32 = match x_ty.shape.0[0] {
        Dim::Static(v) => v,
        Dim::Dynamic(_) => {
            return shape_error("dynamic dims not supported");
        },
    };
    if h % 8 != 0 {
        return shape_error("Phase 6.C.2: H must be a multiple of 8");
    }
    let px: u32 = match expect_param(&f.values[x].op) {
        Some(p) => p,
        None => {
            return unsupported_op("rms_norm x must be Param");
        },
    };
    let pw: u32 = match expect_param(&f.values[w].op) {
        Some(p) => p,
        None => {
            return unsupported_op("rms_norm weight must be Param");
        },
    };
    let p_x = abi.param_reg(px);
    let p_w = abi.param_reg(pw);
    let p_out = abi.param_reg(f.params.len() as u32);
    emit_rms_norm_body(a, p_x, p_w, p_out, h as i32, signed_recip_bits(h), eps, abi);
    Ok(())
}

// ---- dequantization -------------------------------------------------------------

/// The product of the dimensions, a dynamic one counting as 0; nothing where a
/// partial product does not fit in 32 bits.
pub open spec fn element_product(dims: Seq<Dim>) -> Option<nat>
    decreases dims.len(),
{
    if dims.len() == 0 {
        Some(1)
    } else {
        match element_product(dims.drop_last()) {
            None => None,
            Some(p) => {
                let d = match dims.last() {
                    Dim::Static(v) => v as nat,
                    Dim::Dynamic(_) => 0,
                };
                if p * d <= u32::MAX {
                    Some(p * d)
                } else {
                    None
                }
            },
        }
    }
}

/// A product that does not fit does not fit with more dimensions.
proof fn lemma_element_product_none(dims: Seq<Dim>, i: int)
    requires
        0 <= i <= dims.len(),
        element_product(dims.subrange(0, i)) is None,
    ensures
        element_product(dims) is None,
    decreases dims.len(),
{
    if i < dims.len() {
        assert(dims.drop_last().subrange(0, i) =~= dims.subrange(0, i));
        lemma_element_product_none(dims.drop_last(), i);
    } else {
        assert(dims.subrange(0, i) =~= dims);
    }
}

fn count_elements(shape: &Shape) -> (n: u32)
    requires
        element_product(shape@) is Some,
    ensures
        n as nat == element_product(shape@)->0,
{
    let mut n: u32 = 1;
    let mut i: usize = 0;
    while i < shape.0.len()
        invariant
            i <= shape@.len(),
            element_product(shape@) is Some,
            element_product(shape@.subrange(0, i as int)) == Some(n as nat),
        decreases shape@.len() - i,
    {
        let d: u32 = match shape.0[i] {
            Dim::Static(v) => v,
            Dim::Dynamic(_) => 0,
        };
        proof {
            let s = shape@.subrange(0, i + 1);
            assert(s.drop_last() =~= shape@.subrange(0, i as int));
            assert(s.last() == shape@[i as int]);
            if n * d > u32::MAX {
                lemma_element_product_none(shape@, i + 1);
            }
        }
        n = n * d;
        i = i + 1;
    }
    assert(shape@.subrange(0, i as int) =~= shape@);
    n
}

/// What a function that only dequantizes comes to.
pub open spec fn dequant_lowering(f: Function, abi: Abi) -> FunctionLowering {
    let at = positions(f.values@, OpKind::Dequantize)[0];
    let x = f.values@[at].op->Dequantize_x.0 as int;
    let params = f.params@.len() as int;
    if x >= f.values@.len() {
        FunctionLowering::Undefined
    } else {
        let src = f.values@[x].ty@;
        if src.dtype != DType::Q8_0 {
            unsupported("x86_64 Phase 5.B: only Q8_0 dequantize is supported"@)
        } else if f.values@[at].ty.dtype != DType::F32 {
            unsupported("Q8_0 dequant must produce f32 output"@)
        } else {
            match param_of(f.values@[x].op) {
                None => unsupported("Phase 5.B: dequantize operand must be a Param"@),
                Some(p) => match element_product(src.dims) {
                    None => FunctionLowering::Undefined,
                    Some(n) => if n % 32 != 0 {
                        bad_shape("Q8_0 dequant requires element count divisible by 32"@)
                    } else if p >= 4 || params >= 4 {
                        FunctionLowering::Undefined
                    } else {
                        FunctionLowering::Emits(
                            dequant_q8_body_code(
                                param_register(abi, p as int),
                                param_register(abi, params),
                                (n / 32) as i32,
                                abi,
                            ),
                        )
                    },
                },
            }
        }
    }
}

/// Emits a Q8_0 dequantize function.
fn emit_function_dequant(a: &mut Asm, f: &Function, at: usize, abi: Abi) -> (r: Result<
    (),
    CodegenError,
>)
    requires
        old(a).wf(),
        old(a).open().len() == 0,
        old(a).code().len() == 0,
        positions(f.values@, OpKind::Dequantize).len() > 0,
        at as int == positions(f.values@, OpKind::Dequantize)[0],
        at < f.values@.len(),
        f.values@[at as int].op is Dequantize,
        !(dequant_lowering(*f, abi) is Undefined),
    ensures
        function_result(dequant_lowering(*f, abi), r, final(a)),
{
    let x: usize = match &f.values[at].op {
        Op::Dequantize { x } => x.0 as usize,
        _ => 0,
    };
    if f.values[x].ty.dtype != DType::Q8_0 {
        return unsupported_op("x86_64 Phase 5.B: only Q8_0 dequantize is supported");
    }
    if f.values[at].ty.dtype != DType::F32 {
        return unsupported_op("Q8_0 dequant must produce f32 output");
    }
    let p: u32 = match expect_param(&f.values[x].op) {
        Some(p) => p,
        None => {
            return unsupported_op("Phase 5.B: dequantize operand must be a Param");
        },
    };
    let n: u32 = count_elements(&f.values[x].ty.shape);
    if n % 32 != 0 {
        return shape_error("Q8_0 dequant requires element count divisible by 32");
    }
    let p_src = abi.param_reg(p);
    let p_dst = abi.param_reg(f.params.len() as u32);
    emit_dequant_q8_body(a, p_src, p_dst, (n / 32) as i32, abi);
    Ok(())
}

// ---- fused quantized matrix product ----------------------------------------------

/// The byte count of a row of `k` elements, with `k` taken for a signed number,
/// fits in a 32-bit immediate.
pub open spec fn row_fits(k: u32) -> bool {
    i32::MIN <= (k as i32) / 32 * 34 <= i32::MAX
}

/// Whole blocks stay whole where a row length wraps.
proof fn lemma_wrapped_rows(k: u32)
    requires
        k % 32 == 0,
    ensures
        (k as i32) % 32 == 0,
{
    assert((k as i32) % 32 == 0) by (bit_vector)
        requires
            k % 32 == 0,
    ;
}

/// The kernel for Q8_0 weights times Q8_0 activations.
pub open spec fn q8q8_kernel(
    w: Reg,
    act: Reg,
    out: Reg,
    m: u32,
    k: u32,
    abi: Abi,
    vnni: Option<VnniForm>,
) -> Seq<Code> {
    match vnni {
        Some(form) => if k / 32 % 4 == 0 {
            quant_matmul_q8q8_n1_body_vnni_4acc_code(w, act, out, m as i32, k as i32, abi, form)
        } else {
            quant_matmul_q8q8_n1_body_vnni_code(w, act, out, m as i32, k as i32, abi, form)
        },
        None => quant_matmul_q8q8_n1_body_code(w, act, out, m as i32, k as i32, abi),
    }
}

/// The kernel for Q8_0 weights times fp32 activations.
pub open spec fn q8_kernel(
    w: Reg,
    act: Reg,
    out: Reg,
    m: u32,
    k: u32,
    n: u32,
    abi: Abi,
    use_avx512: bool,
) -> Seq<Code> {
    if n == 1 {
        if use_avx512 {
            quant_matmul_q8_n1_body_zmm_code(w, act, out, m as i32, k as i32, abi)
        } else {
            quant_matmul_q8_n1_body_code(w, act, out, m as i32, k as i32, abi)
        }
    } else {
        quant_matmul_q8_body_code(w, act, out, m as i32, k as i32, n as i32, abi)
    }
}

/// What a product of two dequantized operands comes to; `w` and `a` are the
/// positions of the quantized operands.
pub open spec fn q8q8_lowering(
    f: Function,
    w: int,
    a: int,
    abi: Abi,
    vnni: Option<VnniForm>,
) -> FunctionLowering {
    let params = f.params@.len() as int;
    if w >= f.values@.len() || a >= f.values@.len() {
        FunctionLowering::Undefined
    } else {
        let w_ty = f.values@[w].ty@;
        let a_ty = f.values@[a].ty@;
        if w_ty.dtype != DType::Q8_0 || a_ty.dtype != DType::Q8_0 {
            unsupported("Phase 7.M: Q8×Q8 path requires both operands Q8_0"@)
        } else {
            match two_dims(w_ty) {
                Err(e) => FunctionLowering::Fails(e),
                Ok((m, k)) => match two_dims(a_ty) {
                    Err(e) => FunctionLowering::Fails(e),
                    Ok((k_a, n)) => if k != k_a {
                        bad_shape("Phase 7.M: matmul inner-dim mismatch"@)
                    } else if k % 32 != 0 {
                        bad_shape("Phase 7.M: K must be a multiple of 32 (Q8_0 block size)"@)
                    } else if n != 1 {
                        bad_shape("Phase 7.M: only N=1 (decode) Q8×Q8 kernel implemented"@)
                    } else {
                        match param_of(f.values@[w].op) {
                            None => unsupported("Q8×Q8 weight source must be Param"@),
                            Some(pw) => match param_of(f.values@[a].op) {
                                None => unsupported("Q8×Q8 activation source must be Param"@),
                                Some(pa) => if pw >= 4 || pa >= 4 || params >= 4
                                    || !row_fits(k) {
                                    FunctionLowering::Undefined
                                } else {
                                    FunctionLowering::Emits(
                                        q8q8_kernel(
                                            param_register(abi, pw as int),
                                            param_register(abi, pa as int),
                                            param_register(abi, params),
                                            m,
                                            k,
                                            abi,
                                            vnni,
                                        ),
                                    )
                                },
                            },
                        }
                    },
                },
            }
        }
    }
}

/// What a product of a dequantized and a plain operand comes to; `w` is the
/// position of the quantized operand, `a` that of the other one.
pub open spec fn q8_lowering(
    f: Function,
    w: int,
    a: int,
    abi: Abi,
    use_avx512: bool,
) -> FunctionLowering {
    let params = f.params@.len() as int;
    if w >= f.values@.len() || a >= f.values@.len() {
        FunctionLowering::Undefined
    } else {
        let w_ty = f.values@[w].ty@;
        let a_ty = f.values@[a].ty@;
        if w_ty.dtype != DType::Q8_0 {
            unsupported("Phase 5.C: only Q8_0 weights supported"@)
        } else if a_ty.dtype != DType::F32 {
            unsupported("Phase 5.C: activations must be f32"@)
        } else {
            match two_dims(w_ty) {
                Err(e) => FunctionLowering::Fails(e),
                Ok((m, k)) => match two_dims(a_ty) {
                    Err(e) => FunctionLowering::Fails(e),
                    Ok((k_a, n)) => if k != k_a {
                        bad_shape("Phase 5.C: matmul inner-dim mismatch"@)
                    } else if k % 32 != 0 {
                        bad_shape("Phase 5.C: K must be a multiple of 32 (Q8_0 block size)"@)
                    } else if n != 1 && n % 8 != 0 {
                        bad_shape("Phase 5.C: N must be 1 (decode) or a multiple of 8 (prefill)"@)
                    } else {
                        match param_of(f.values@[w].op) {
                            None => unsupported("dequant source must be Param"@),
                            Some(pw) => match param_of(f.values@[a].op) {
                                None => unsupported("matmul RHS must be Param"@),
                                Some(pa) => if pw >= 4 || pa >= 4 || params >= 4
                                    || !row_fits(k) {
                                    FunctionLowering::Undefined
                                } else {
                                    FunctionLowering::Emits(
                                        q8_kernel(
                                            param_register(abi, pw as int),
                                            param_register(abi, pa as int),
                                            param_register(abi, params),
                                            m,
                                            k,
                                            n,
                                            abi,
                                            use_avx512,
                                        ),
                                    )
                                },
                            },
                        }
                    },
                },
            }
        }
    }
}

/// What a function that dequantizes and multiplies comes to: both operands
/// dequantized, or only the left one.
pub open spec fn quant_matmul_lowering(
    f: Function,
    abi: Abi,
    vnni: Option<VnniForm>,
    use_avx512: bool,
) -> FunctionLowering {
    let dq = positions(f.values@, OpKind::Dequantize);
    let mm = positions(f.values@, OpKind::MatMul)[0];
    let lhs = f.values@[mm].op->MatMul_lhs;
    let rhs = f.values@[mm].op->MatMul_rhs;
    if dq.len() == 2 && lhs == id_at(dq[0]) && rhs == id_at(dq[1]) {
        q8q8_lowering(
            f,
            f.values@[dq[0]].op->Dequantize_x.0 as int,
            f.values@[dq[1]].op->Dequantize_x.0 as int,
            abi,
            vnni,
        )
    } else if lhs != id_at(dq[0]) {
        unsupported("Phase 5.C: matmul LHS must be the Dequantize result"@)
    } else {
        q8_lowering(f, f.values@[dq[0]].op->Dequantize_x.0 as int, rhs.0 as int, abi, use_avx512)
    }
}

fn emit_q8q8(
    a: &mut Asm,
    f: &Function,
    w: usize,
    act: usize,
    abi: Abi,
    vnni: Option<VnniForm>,
) -> (r:
    Result<(), CodegenError>)
    requires
        old(a).wf(),
        old(a).open().len() == 0,
        old(a).code().len() == 0,
        !(q8q8_lowering(*f, w as int, act as int, abi, vnni) is Undefined),
    ensures
        function_result(q8q8_lowering(*f, w as int, act as int, abi, vnni), r, final(a)),
{
    if f.values[w].ty.dtype != DType::Q8_0 || f.values[act].ty.dtype != DType::Q8_0 {
        return unsupported_op("Phase 7.M: Q8×Q8 path requires both operands Q8_0");
    }
    let (m, k) = match static_2d(&f.values[w].ty) {
        Ok(p) => p,
        Err(e) => {
            return Err(e);
        },
    };
    let (k_a, n) = match static_2d(&f.values[act].ty) {
        Ok(p) => p,
        Err(e) => {
            return Err(e);
        },
    };
    if k != k_a {
        return shape_error("Phase 7.M: matmul inner-dim mismatch");
    }
    if k % 32 != 0 {
        return shape_error("Phase 7.M: K must be a multiple of 32 (Q8_0 block size)");
    }
    if n != 1 {
        return shape_error("Phase 7.M: only N=1 (decode) Q8×Q8 kernel implemented");
    }
    let pw: u32 = match expect_param(&f.values[w].op) {
        Some(p) => p,
        None => {
            return unsupported_op("Q8×Q8 weight source must be Param");
        },
    };
    let pa: u32 = match expect_param(&f.values[act].op) {
        Some(p) => p,
        None => {
            return unsupported_op("Q8×Q8 activation source must be Param");
        },
    };
    let p_w = abi.param_reg(pw);
    let p_a = abi.param_reg(pa);
    let p_out = abi.param_reg(f.params.len() as u32);
    proof {
        lemma_wrapped_rows(k);
    }
    match vnni {
        Some(form) => {
            if k / 32 % 4 == 0 {
                emit_quant_matmul_q8q8_n1_body_vnni_4acc(
                    a,
                    p_w,
                    p_a,
                    p_out,
                    m as i32,
                    k as i32,
                    abi,
                    form,
                );
            } else {
                emit_quant_matmul_q8q8_n1_body_vnni(
                    a,
                    p_w,
                    p_a,
                    p_out,
                    m as i32,
                    k as i32,
                    abi,
                    form,
                );
            }
        },
        None => {
            emit_quant_matmul_q8q8_n1_body(a, p_w, p_a, p_out, m as i32, k as i32, abi);
        },
    }
    Ok(())
}

fn emit_q8(
    a: &mut Asm,
    f: &Function,
    w: usize,
    act: usize,
    abi: Abi,
    use_avx512: bool,
) -> (r: Result<
    (),
    CodegenError,
>)
    requires
        old(a).wf(),
        old(a).open().len() == 0,
        old(a).code().len() == 0,
        !(q8_lowering(*f, w as int, act as int, abi, use_avx512) is Undefined),
    ensures
        function_result(q8_lowering(*f, w as int, act as int, abi, use_avx512), r, final(a)),
{
    if f.values[w].ty.dtype != DType::Q8_0 {
        return unsupported_op("Phase 5.C: only Q8_0 weights supported");
    }
    if f.values[act].ty.dtype != DType::F32 {
        return unsupported_op("Phase 5.C: activations must be f32");
    }
    let (m, k) = match static_2d(&f.values[w].ty) {
        Ok(p) => p,
        Err(e) => {
            return Err(e);
        },
    };
    let (k_a, n) = match static_2d(&f.values[act].ty) {
        Ok(p) => p,
        Err(e) => {
            return Err(e);
        },
    };
    if k != k_a {
        return shape_error("Phase 5.C: matmul inner-dim mismatch");
    }
    if k % 32 != 0 {
        return shape_error("Phase 5.C: K must be a multiple of 32 (Q8_0 block size)");
    }
    if n != 1 && n % 8 != 0 {
        return shape_error("Phase 5.C: N must be 1 (decode) or a multiple of 8 (prefill)");
    }
    let pw: u32 = match expect_param(&f.values[w].op) {
        Some(p) => p,
        None => {
            return unsupported_op("dequant source must be Param");
        },
    };
    let pa: u32 = match expect_param(&f.values[act].op) {
        Some(p) => p,
        None => {
            return unsupported_op("matmul RHS must be Param");
        },
    };
    let p_w = abi.param_reg(pw);
    let p_a = abi.param_reg(pa);
    let p_out = abi.param_reg(f.params.len() as u32);
    proof {
        lemma_wrapped_rows(k);
    }
    if n == 1 {
        if use_avx512 {
            emit_quant_matmul_q8_n1_body_zmm(a, p_w, p_a, p_out, m as i32, k as i32, abi);
        } else {
            emit_quant_matmul_q8_n1_body(a, p_w, p_a, p_out, m as i32, k as i32, abi);
        }
    } else {
        emit_quant_matmul_q8_body(a, p_w, p_a, p_out, m as i32, k as i32, n as i32, abi);
    }
    Ok(())
}

/// Emits a fused quantized product. The dequantized weight matrix is never
/// materialized.
fn emit_function_quant_matmul_q8(
    a: &mut Asm,
    f: &Function,
    dq: &Vec<usize>,
    mm: usize,
    abi: Abi,
    vnni: Option<VnniForm>,
    use_avx512: bool,
) -> (r: Result<(), CodegenError>)
    requires
        old(a).wf(),
        old(a).open().len() == 0,
        old(a).code().len() == 0,
        dq@.len() > 0,
        dq@.len() == positions(f.values@, OpKind::Dequantize).len(),
        forall|i: int|
            0 <= i < dq@.len() ==> (#[trigger] dq@[i]) as int == positions(
                f.values@,
                OpKind::Dequantize,
            )[i],
        forall|i: int|
            0 <= i < dq@.len() ==> (#[trigger] dq@[i]) < f.values@.len()
                && f.values@[dq@[i] as int].op is Dequantize,
        positions(f.values@, OpKind::MatMul).len() > 0,
        mm as int == positions(f.values@, OpKind::MatMul)[0],
        mm < f.values@.len(),
        f.values@[mm as int].op is MatMul,
        !(quant_matmul_lowering(*f, abi, vnni, use_avx512) is Undefined),
    ensures
        function_result(quant_matmul_lowering(*f, abi, vnni, use_avx512), r, final(a)),
{
    let (lhs, rhs) = match &f.values[mm].op {
        Op::MatMul { lhs, rhs } => (*lhs, *rhs),
        _ => (ValueId(0), ValueId(0)),
    };
    let first: usize = dq[0];
    let w: usize = match &f.values[first].op {
        Op::Dequantize { x } => x.0 as usize,
        _ => 0,
    };
    if dq.len() == 2 && lhs == make_id(first) && rhs == make_id(dq[1]) {
        let second: usize = dq[1];
        let act: usize = match &f.values[second].op {
            Op::Dequantize { x } => x.0 as usize,
            _ => 0,
        };
        return emit_q8q8(a, f, w, act, abi, vnni);
    }
    if lhs != make_id(first) {
        return unsupported_op("Phase 5.C: matmul LHS must be the Dequantize result");
    }
    emit_q8(a, f, w, rhs.0 as usize, abi, use_avx512)
}

// ---- dispatch -------------------------------------------------------------------

/// What compiling a function comes to. Four patterns are recognized:
/// - RMS norm:     `Param, Param, RmsNorm, Return`
/// - quant matmul: `Param(q8_0), Param, Dequantize, MatMul, Return`
/// - dequant:      `Param, Dequantize, Return`
/// - matmul:       `Param, Param, MatMul, Return`
pub open spec fn function_lowering(
    f: Function,
    abi: Abi,
    avx2: bool,
    vnni: Option<VnniForm>,
    use_avx512: bool,
) -> FunctionLowering {
    if positions(f.values@, OpKind::RmsNorm).len() > 0 {
        rms_norm_lowering(f, abi)
    } else if positions(f.values@, OpKind::Dequantize).len() > 0 {
        if positions(f.values@, OpKind::MatMul).len() > 0 {
            quant_matmul_lowering(f, abi, vnni, use_avx512)
        } else {
            dequant_lowering(f, abi)
        }
    } else {
        matmul_lowering(f, abi, avx2)
    }
}

/// Emits one function.
pub fn emit_function(
    a: &mut Asm,
    f: &Function,
    abi: Abi,
    avx2: bool,
    vnni: Option<VnniForm>,
    use_avx512: bool,
) -> (r: Result<(), CodegenError>)
    requires
        old(a).wf(),
        old(a).open().len() == 0,
        old(a).code().len() == 0,
        !(function_lowering(*f, abi, avx2, vnni, use_avx512) is Undefined),
    ensures
        function_result(
            function_lowering(*f, abi, avx2, vnni, use_avx512),
            r,
            final(a),
        ),
{
    let rms = find_ops(&f.values, OpKind::RmsNorm);
    if rms.len() > 0 {
        return emit_function_rms_norm(a, f, rms[0], abi);
    }
    let dq = find_ops(&f.values, OpKind::Dequantize);
    if dq.len() > 0 {
        let mm = find_ops(&f.values, OpKind::MatMul);
        if mm.len() > 0 {
            return emit_function_quant_matmul_q8(a, f, &dq, mm[0], abi, vnni, use_avx512);
        }
        return emit_function_dequant(a, f, dq[0], abi);
    }
    emit_function_matmul(a, f, abi, avx2)
}

/// What compiling the first function of a module comes to.
pub open spec fn module_lowering(
    ir: &IrModule,
    abi: Abi,
    avx2: bool,
    vnni: Option<VnniForm>,
    use_avx512: bool,
) -> Lowering {
    if ir.functions@.len() == 0 {
        Lowering::Fails(CodegenFault::UnsupportedOp("module has no functions"@))
    } else {
        match function_lowering(ir.functions@[0], abi, avx2, vnni, use_avx512) {
            FunctionLowering::Emits(code) => Lowering::Emits(assemble(code)),
            FunctionLowering::Fails(e) => Lowering::Fails(e),
            FunctionLowering::Undefined => Lowering::Undefined,
        }
    }
}

impl Backend for X86_64 {
    open spec fn lowering(&self, ir: &IrModule, opts: &CodegenOpts) -> Lowering {
        module_lowering(
            ir,
            self.abi,
            self.avx2,
            opts.vnni,
            opts.use_avx512,
        )
    }

    fn name(&self) -> (s: &'static str)
        ensures
            s@ == "x86_64"@,
    {
        "x86_64"
    }

    fn capabilities(&self) -> (c: Capabilities)
        ensures
            c == (Capabilities {
                avx2: false,
                avx512f: false,
                neon: false,
                cuda: false,
                cores: 0,
                l1d_bytes: 0,
            }),
    {
        Capabilities::default()
    }

    fn lower(&self, ir: &IrModule, opts: &CodegenOpts) -> (r: Result<MachineCode, CodegenError>) {
        if ir.functions.len() == 0 {
            return Err(CodegenError::UnsupportedOp("module has no functions".to_string()));
        }
        let mut a = Asm::new();
        match emit_function(
            &mut a,
            &ir.functions[0],
            self.abi,
            self.avx2,
            opts.vnni,
            opts.use_avx512,
        ) {
            Ok(()) => Ok(MachineCode { bytes: a.finish(), entry_offset: 0 }),
            Err(e) => Err(e),
        }
    }
}

} // verus!
