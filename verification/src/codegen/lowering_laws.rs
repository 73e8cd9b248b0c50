//! Which code a function is compiled to, by what it computes.

use crate::codegen::backend::CodegenFault;
use crate::codegen::kernels::{
    dequant_q8_body_code, quant_matmul_q8_body_code, quant_matmul_q8_n1_body_code,
    quant_matmul_q8_n1_body_zmm_code, quant_matmul_q8q8_n1_body_code,
    quant_matmul_q8q8_n1_body_vnni_4acc_code, quant_matmul_q8q8_n1_body_vnni_code,
    rms_norm_body_code,
};
use crate::codegen::x86_64::{
    element_product, function_lowering, param_register, positions, q8_lowering, q8q8_lowering,
    quant_matmul_lowering, row_fits, signed_recip, two_dims, Abi, FunctionLowering, OpKind, VnniForm,
};
use crate::codegen::x86_64_enc::Reg;
use crate::ir::module::{id_at, Function, ValueId};
use crate::ir::op::Op;
use crate::ir::ty::{DType, Dim, TensorTypeView};
use vstd::prelude::*;

verus! {

/// The registers that the two calling conventions pass pointers in.
pub proof fn lemma_calling_conventions()
    ensures
        param_register(Abi::SysV, 0) == Reg::RDI,
        param_register(Abi::SysV, 1) == Reg::RSI,
        param_register(Abi::SysV, 2) == Reg::RDX,
        param_register(Abi::SysV, 3) == Reg::RCX,
        param_register(Abi::WinX64, 0) == Reg::RCX,
        param_register(Abi::WinX64, 1) == Reg::RDX,
        param_register(Abi::WinX64, 2) == Reg::R8,
        param_register(Abi::WinX64, 3) == Reg::R9,
{
}

/// A matrix type.
pub open spec fn is_matrix(t: TensorTypeView, dtype: DType, rows: u32, cols: u32) -> bool {
    &&& t.dtype == dtype
    &&& t.dims.len() == 2
    &&& t.dims[0] == Dim::Static(rows)
    &&& t.dims[1] == Dim::Static(cols)
}

/// A function that normalizes a vector is compiled to the kernel for that, with the
/// pointers to the vector and the weights in the registers of their parameters and
/// the pointer to the result in the register after the parameters. The vector's size
/// must be a multiple of eight.
pub proof fn lemma_normalizing_function(
    f: Function,
    abi: Abi,
    avx2: bool,
    vnni: Option<VnniForm>,
    wide: bool,
    h: u32,
    eps: u32,
)
    requires
        f.params@.len() == 2,
        f.values@.len() == 4,
        f.values@[0].op == (Op::Param { index: 0 }),
        f.values@[1].op == (Op::Param { index: 1 }),
        f.values@[2].op == (Op::RmsNorm { x: ValueId(0), weight: ValueId(1), eps }),
        f.values@[3].op == (Op::Return { value: ValueId(2) }),
        f.values@[0].ty@.dtype == DType::F32,
        f.values@[1].ty@.dtype == DType::F32,
        f.values@[0].ty@.dims.len() == 1,
        f.values@[1].ty@.dims.len() == 1,
        f.values@[0].ty@.dims[0] == Dim::Static(h),
    ensures
        h % 8 == 0 ==> function_lowering(f, abi, avx2, vnni, wide) == FunctionLowering::Emits(
            rms_norm_body_code(
                if abi == Abi::SysV {
                    Reg::RDI
                } else {
                    Reg::RCX
                },
                if abi == Abi::SysV {
                    Reg::RSI
                } else {
                    Reg::RDX
                },
                if abi == Abi::SysV {
                    Reg::RDX
                } else {
                    Reg::R8
                },
                h as i32,
                signed_recip(h),
                eps,
                abi,
            ),
        ),
        h % 8 != 0 ==> (function_lowering(f, abi, avx2, vnni, wide) matches FunctionLowering::Fails(
            e,
        ) && e is ShapeError),
{
    reveal_with_fuel(positions, 5);
    let vs = f.values@;
    assert(positions(vs, OpKind::RmsNorm) =~= seq![2int]);
}

/// A function that dequantizes its parameter is compiled to the kernel for that, by
/// as many blocks as the parameter has. Its numbers must fill whole blocks.
pub proof fn lemma_dequantizing_function(
    f: Function,
    abi: Abi,
    avx2: bool,
    vnni: Option<VnniForm>,
    wide: bool,
    n: nat,
)
    requires
        f.params@.len() == 1,
        f.values@.len() == 3,
        f.values@[0].op == (Op::Param { index: 0 }),
        f.values@[1].op == (Op::Dequantize { x: ValueId(0) }),
        f.values@[2].op == (Op::Return { value: ValueId(1) }),
        f.values@[0].ty@.dtype == DType::Q8_0,
        f.values@[1].ty@.dtype == DType::F32,
        element_product(f.values@[0].ty@.dims) == Some(n),
    ensures
        n % 32 == 0 ==> function_lowering(f, abi, avx2, vnni, wide) == FunctionLowering::Emits(
            dequant_q8_body_code(
                if abi == Abi::SysV {
                    Reg::RDI
                } else {
                    Reg::RCX
                },
                if abi == Abi::SysV {
                    Reg::RSI
                } else {
                    Reg::RDX
                },
                (n / 32) as i32,
                abi,
            ),
        ),
        n % 32 != 0 ==> (function_lowering(f, abi, avx2, vnni, wide) matches FunctionLowering::Fails(
            e,
        ) && e is ShapeError),
{
    reveal_with_fuel(positions, 4);
    let vs = f.values@;
    assert(positions(vs, OpKind::RmsNorm).len() == 0);
    assert(positions(vs, OpKind::Dequantize) =~= seq![1int]);
    assert(positions(vs, OpKind::MatMul).len() == 0);
}

/// The numbers of a type are as many as its dimensions multiply to; one that is not
/// known counts as none.
pub proof fn lemma_numbers_of_type(dims: Seq<Dim>, d: u32)
    ensures
        element_product(Seq::empty()) == Some(1nat),
        element_product(dims) matches Some(n) ==> (n * d <= u32::MAX ==> element_product(
            dims.push(Dim::Static(d)),
        ) == Some((n * d) as nat)),
        element_product(dims) matches Some(n) ==> element_product(dims.push(Dim::Dynamic(d)))
            == Some(0nat),
{
    assert(dims.push(Dim::Static(d)).drop_last() =~= dims);
    assert(dims.push(Dim::Dynamic(d)).drop_last() =~= dims);
}

/// A function that multiplies a dequantized matrix with an fp32 matrix is compiled
/// to the kernel for one column or for columns by eight, and to none for other
/// numbers of columns. The inner dimension must fill whole blocks.
pub proof fn lemma_dequantized_product(
    f: Function,
    abi: Abi,
    avx2: bool,
    vnni: Option<VnniForm>,
    wide: bool,
    m: u32,
    k: u32,
    n: u32,
)
    requires
        f.params@.len() == 2,
        f.values@.len() == 5,
        f.values@[0].op == (Op::Param { index: 0 }),
        f.values@[1].op == (Op::Param { index: 1 }),
        f.values@[2].op == (Op::Dequantize { x: ValueId(0) }),
        f.values@[3].op == (Op::MatMul { lhs: ValueId(2), rhs: ValueId(1) }),
        f.values@[4].op == (Op::Return { value: ValueId(3) }),
        is_matrix(f.values@[0].ty@, DType::Q8_0, m, k),
        is_matrix(f.values@[1].ty@, DType::F32, k, n),
        row_fits(k),
    ensures
        ({
            let (w, a, out) = if abi == Abi::SysV {
                (Reg::RDI, Reg::RSI, Reg::RDX)
            } else {
                (Reg::RCX, Reg::RDX, Reg::R8)
            };
            let got = function_lowering(f, abi, avx2, vnni, wide);
            let (mm, kk, nn) = (m as i32, k as i32, n as i32);
            &&& k % 32 != 0 || (n != 1 && n % 8 != 0) ==> (got matches FunctionLowering::Fails(e)
                && e is ShapeError)
            &&& k % 32 == 0 && n == 1 && wide ==> got == FunctionLowering::Emits(
                quant_matmul_q8_n1_body_zmm_code(w, a, out, mm, kk, abi),
            )
            &&& k % 32 == 0 && n == 1 && !wide ==> got == FunctionLowering::Emits(
                quant_matmul_q8_n1_body_code(w, a, out, mm, kk, abi),
            )
            &&& k % 32 == 0 && n != 1 && n % 8 == 0 ==> got == FunctionLowering::Emits(
                quant_matmul_q8_body_code(w, a, out, mm, kk, nn, abi),
            )
        }),
{
    reveal_with_fuel(positions, 6);
    let vs = f.values@;
    assert(positions(vs, OpKind::RmsNorm).len() == 0);
    assert(positions(vs, OpKind::Dequantize) =~= seq![2int]);
    assert(positions(vs, OpKind::MatMul) =~= seq![3int]);
    assert(id_at(2) == ValueId(2));
    assert(two_dims(vs[0].ty@) == Ok::<(u32, u32), CodegenFault>((m, k)));
    assert(two_dims(vs[1].ty@) == Ok::<(u32, u32), CodegenFault>((k, n)));
    assert(quant_matmul_lowering(f, abi, vnni, wide) == q8_lowering(f, 0, 1, abi, wide));
}

/// A function that multiplies a dequantized matrix with a dequantized vector is
/// compiled to a kernel on the blocks of both: with dot products where the processor
/// has them, by four blocks where there are as many, and without otherwise.
pub proof fn lemma_quantized_product(
    f: Function,
    abi: Abi,
    avx2: bool,
    vnni: Option<VnniForm>,
    wide: bool,
    m: u32,
    k: u32,
)
    requires
        f.params@.len() == 2,
        f.values@.len() == 6,
        f.values@[0].op == (Op::Param { index: 0 }),
        f.values@[1].op == (Op::Param { index: 1 }),
        f.values@[2].op == (Op::Dequantize { x: ValueId(0) }),
        f.values@[3].op == (Op::Dequantize { x: ValueId(1) }),
        f.values@[4].op == (Op::MatMul { lhs: ValueId(2), rhs: ValueId(3) }),
        f.values@[5].op == (Op::Return { value: ValueId(4) }),
        is_matrix(f.values@[0].ty@, DType::Q8_0, m, k),
        is_matrix(f.values@[1].ty@, DType::Q8_0, k, 1),
        row_fits(k),
    ensures
        ({
            let (w, a, out) = if abi == Abi::SysV {
                (Reg::RDI, Reg::RSI, Reg::RDX)
            } else {
                (Reg::RCX, Reg::RDX, Reg::R8)
            };
            let got = function_lowering(f, abi, avx2, vnni, wide);
            let (mm, kk) = (m as i32, k as i32);
            &&& k % 32 != 0 ==> (got matches FunctionLowering::Fails(e) && e is ShapeError)
            &&& k % 32 == 0 && vnni is None ==> got == FunctionLowering::Emits(
                quant_matmul_q8q8_n1_body_code(w, a, out, mm, kk, abi),
            )
            &&& k % 128 == 0 && vnni is Some ==> got == FunctionLowering::Emits(
                quant_matmul_q8q8_n1_body_vnni_4acc_code(w, a, out, mm, kk, abi, vnni->0),
            )
            &&& k % 32 == 0 && k % 128 != 0 && vnni is Some ==> got == FunctionLowering::Emits(
                quant_matmul_q8q8_n1_body_vnni_code(w, a, out, mm, kk, abi, vnni->0),
            )
        }),
{
    reveal_with_fuel(positions, 7);
    let vs = f.values@;
    assert(positions(vs, OpKind::RmsNorm).len() == 0);
    assert(positions(vs, OpKind::Dequantize) =~= seq![2int, 3int]);
    assert(positions(vs, OpKind::MatMul) =~= seq![4int]);
    assert(id_at(2) == ValueId(2) && id_at(3) == ValueId(3));
    assert(two_dims(vs[0].ty@) == Ok::<(u32, u32), CodegenFault>((m, k)));
    assert(two_dims(vs[1].ty@) == Ok::<(u32, u32), CodegenFault>((k, 1)));
    assert(quant_matmul_lowering(f, abi, vnni, wide) == q8q8_lowering(f, 0, 1, abi, vnni));
}

} // verus!
