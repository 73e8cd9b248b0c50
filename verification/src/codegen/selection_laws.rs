//! Whatever kernel is selected for a product, it computes that product.

use crate::codegen::assembler::assemble;
use crate::codegen::backend::{Backend, CodegenFault, CodegenOpts, Lowering};
use crate::codegen::block_laws::weights;
use crate::codegen::decode_laws::{
    decoded, decoded_wide, lemma_quant_matmul_q8_n1, lemma_quant_matmul_q8_n1_zmm,
};
use crate::codegen::flat_laws::{leads, lemma_bytes_run};
use crate::codegen::frame_laws::{left, restored};
use crate::codegen::integer_laws::{
    integer_product, lemma_quant_matmul_q8q8_n1, lemma_quant_matmul_q8q8_n1_vnni, signs_fit,
};
use crate::codegen::kernels::{
    matmul_avx2_1xn_4acc_code, matmul_avx2_code, matmul_body_code, matmul_tile_4x8_code,
};
use crate::codegen::machine::{run, words, Fpu, Machine};
use crate::codegen::matmul_laws::{
    called, fused_product, lemma_matmul_avx2, lemma_matmul_body, product,
};
use crate::codegen::prefill_laws::lemma_quant_matmul_q8;
use crate::codegen::size_laws::{
    lemma_matmul_kernel_size, lemma_q8_kernel_size, lemma_q8q8_kernel_size,
};
use crate::codegen::tile_laws::{lemma_matmul_1xn_4acc, lemma_matmul_tile_4x8};
use crate::codegen::unrolled_laws::{
    called_with_slot, lemma_quant_matmul_q8q8_n1_vnni_4acc, unrolled_product,
};
use crate::codegen::x86_64::{
    fits, function_lowering, matmul_kernel, param_of, param_register, positions, product_lowering,
    q8_kernel, q8q8_kernel, row_fits, scan, two_dims, Abi, FunctionLowering, OpKind, Scan, VnniForm,
    X86_64,
};
use crate::codegen::x86_64_enc::Reg;
use crate::ir::module::{Function, IrModule, ValueId};
use crate::ir::op::Op;
use crate::ir::ty::{DType, Dim, TensorTypeView};
use vstd::prelude::*;

verus! {

/// The product of two matrices as the selected kernel computes it: with fused
/// steps where it works on vectors, with separate ones otherwise.
pub open spec fn selected_product(
    fpu: Fpu,
    a: Seq<u32>,
    b: Seq<u32>,
    m: nat,
    k: nat,
    n: nat,
    avx2: bool,
) -> Seq<u32> {
    if avx2 && n % 8 == 0 {
        fused_product(fpu, a, b, m, k, n)
    } else {
        product(fpu, a, b, m, k, n)
    }
}

/// The kernel that is selected for two fp32 matrices computes their product,
/// whatever their sizes.
pub proof fn lemma_matmul_kernel(
    fpu: Fpu,
    fuel: nat,
    s: Machine,
    lhs: Reg,
    rhs: Reg,
    out: Reg,
    m: u32,
    k: u32,
    n: u32,
    abi: Abi,
    avx2: bool,
)
    requires
        fits(m),
        fits(k),
        fits(n),
        fuel > m + 4,
        fuel > k + 1,
        fuel > n + 32,
        called(s, lhs, 4 * (m * k), rhs, 4 * (k * n), out, 4 * (m * n), abi),
    ensures
        run(matmul_kernel(lhs, rhs, out, m, k, n, abi, avx2), fpu, fuel, s) matches Some(t) && {
            &&& left(s, t, s.regs[out], s.regs[out] + 4 * (m * n))
            &&& words(t.mem, s.regs[out], (m * n) as nat) == selected_product(
                fpu,
                words(s.mem, s.regs[lhs], (m * k) as nat),
                words(s.mem, s.regs[rhs], (k * n) as nat),
                m as nat,
                k as nat,
                n as nat,
                avx2,
            )
        },
{
    let (mi, ki, ni) = (m as i32, k as i32, n as i32);
    assert(mi == m && ki == k && ni == n);
    if avx2 && m % 4 == 0 && n % 8 == 0 {
        lemma_matmul_tile_4x8(fpu, fuel, s, lhs, rhs, out, mi, ki, ni, abi);
    } else if avx2 && m == 1 && n % 32 == 0 {
        lemma_matmul_1xn_4acc(fpu, fuel, s, lhs, rhs, out, ki, ni, abi);
    } else if avx2 && n % 8 == 0 {
        lemma_matmul_avx2(fpu, fuel, s, lhs, rhs, out, mi, ki, ni, abi);
    } else {
        lemma_matmul_body(fpu, fuel, s, lhs, rhs, out, mi, ki, ni, abi);
    }
}

/// The kernel that is selected for a Q8_0 matrix and an fp32 vector or matrix
/// computes their product: with the sums that the vector kernels take, or as
/// the product with the dequantized matrix.
pub proof fn lemma_q8_kernel(
    fpu: Fpu,
    fuel: nat,
    s: Machine,
    w: Reg,
    a: Reg,
    out: Reg,
    m: u32,
    k: u32,
    n: u32,
    abi: Abi,
    use_avx512: bool,
)
    requires
        fits(m),
        fits(k),
        row_fits(k),
        fits(n),
        k % 32 == 0,
        n == 1 || n % 8 == 0,
        fuel > m + 1,
        fuel > 33,
        fuel > k / 32 + 1,
        fuel > n + 8,
        called(s, w, 34 * (m * (k / 32)), a, 4 * (k * n), out, 4 * (m * n), abi),
    ensures
        run(q8_kernel(w, a, out, m, k, n, abi, use_avx512), fpu, fuel, s) matches Some(t) && {
            &&& left(s, t, s.regs[out], s.regs[out] + 4 * (m * n))
            &&& words(t.mem, s.regs[out], (m * n) as nat) == if n != 1 {
                fused_product(
                    fpu,
                    weights(fpu, s.mem, s.regs[w], (m * k) as nat),
                    words(s.mem, s.regs[a], (k * n) as nat),
                    m as nat,
                    k as nat,
                    n as nat,
                )
            } else if use_avx512 {
                Seq::new(
                    m as nat,
                    |i: int| decoded_wide(fpu, s.mem, s.regs[w], s.regs[a], i, (k / 32) as nat),
                )
            } else {
                Seq::new(
                    m as nat,
                    |i: int| decoded(fpu, s.mem, s.regs[w], s.regs[a], i, (k / 32) as nat),
                )
            }
        },
{
    let (mi, ki, ni) = (m as i32, k as i32, n as i32);
    assert(mi == m && ki == k && ni == n);
    if n == 1 {
        assert(m * n == m && k * n == k);
        if use_avx512 {
            lemma_quant_matmul_q8_n1_zmm(fpu, fuel, s, w, a, out, mi, ki, abi);
        } else {
            lemma_quant_matmul_q8_n1(fpu, fuel, s, w, a, out, mi, ki, abi);
        }
    } else {
        lemma_quant_matmul_q8(fpu, fuel, s, w, a, out, mi, ki, ni, abi);
    }
}

/// The kernel that is selected for a Q8_0 matrix and a Q8_0 vector computes
/// their product, where no sign is lost: with one sum per lane, or with one per
/// lane and quarter of the blocks.
pub proof fn lemma_q8q8_kernel(
    fpu: Fpu,
    fuel: nat,
    s: Machine,
    w: Reg,
    a: Reg,
    out: Reg,
    m: u32,
    k: u32,
    abi: Abi,
    vnni: Option<VnniForm>,
)
    requires
        fits(m),
        fits(k),
        row_fits(k),
        k % 32 == 0,
        fuel > m + 1,
        fuel > k / 32 + 4,
        called_with_slot(s, w, 34 * (m * (k / 32)), a, 34 * (k / 32), out, 4 * m, abi),
        signs_fit(s.mem, s.regs[w], s.regs[a], m as int, k as int / 32),
    ensures
        run(q8q8_kernel(w, a, out, m, k, abi, vnni), fpu, fuel, s) matches Some(t) && {
            &&& restored(s, t, 72, s.regs[out], s.regs[out] + 4 * m)
            &&& forall|q: u8| q >= 7 ==> #[trigger] t.vecs[q] == s.vecs[q]
            &&& forall|l: int| 0 <= l < 8 ==> #[trigger] t.vecs[6][l] == s.vecs[6][l]
            &&& words(t.mem, s.regs[out], m as nat) == if vnni is Some && k / 32 % 4 == 0 {
                Seq::new(
                    m as nat,
                    |i: int|
                        unrolled_product(fpu, s.mem, s.regs[w], s.regs[a], i, (k / 32) as nat),
                )
            } else {
                Seq::new(
                    m as nat,
                    |i: int|
                        integer_product(fpu, s.mem, s.regs[w], s.regs[a], i, (k / 32) as nat),
                )
            }
        },
{
    let (mi, ki) = (m as i32, k as i32);
    assert(mi == m && ki == k);
    match vnni {
        Some(form) => {
            if k / 32 % 4 == 0 {
                assert(k % 128 == 0);
                lemma_quant_matmul_q8q8_n1_vnni_4acc(
                    fpu,
                    fuel,
                    s,
                    w,
                    a,
                    out,
                    mi,
                    ki,
                    abi,
                    form,
                );
            } else {
                lemma_quant_matmul_q8q8_n1_vnni(fpu, fuel, s, w, a, out, mi, ki, abi, form);
            }
        },
        None => {
            lemma_quant_matmul_q8q8_n1(fpu, fuel, s, w, a, out, mi, ki, abi);
        },
    }
}

/// The code for a function that returns the product of two parameters, called
/// with the parameters and the output in their registers, writes the product.
pub proof fn lemma_matmul_function(
    fpu: Fpu,
    fuel: nat,
    s: Machine,
    f: Function,
    mm: int,
    abi: Abi,
    avx2: bool,
)
    requires
        product_lowering(f, mm, abi, avx2) is Emits,
        f.values@[mm].op is MatMul,
        ({
            let l = f.values@[f.values@[mm].op->MatMul_lhs.0 as int];
            let r = f.values@[f.values@[mm].op->MatMul_rhs.0 as int];
            let (m, k) = two_dims(l.ty@)->Ok_0;
            let (_, n) = two_dims(r.ty@)->Ok_0;
            &&& fits(m) && fits(k) && fits(n)
            &&& fuel > m + 4
            &&& fuel > k + 1
            &&& fuel > n + 32
            &&& called(
                s,
                param_register(abi, param_of(l.op)->0 as int),
                4 * (m * k),
                param_register(abi, param_of(r.op)->0 as int),
                4 * (k * n),
                param_register(abi, f.params@.len() as int),
                4 * (m * n),
                abi,
            )
        }),
    ensures
        ({
            let l = f.values@[f.values@[mm].op->MatMul_lhs.0 as int];
            let r = f.values@[f.values@[mm].op->MatMul_rhs.0 as int];
            let (m, k) = two_dims(l.ty@)->Ok_0;
            let (_, n) = two_dims(r.ty@)->Ok_0;
            let out = s.regs[param_register(abi, f.params@.len() as int)];
            run(product_lowering(f, mm, abi, avx2)->Emits_0, fpu, fuel, s) matches Some(t) && {
                &&& left(s, t, out, out + 4 * (m * n))
                &&& words(t.mem, out, (m * n) as nat) == selected_product(
                    fpu,
                    words(
                        s.mem,
                        s.regs[param_register(abi, param_of(l.op)->0 as int)],
                        (m * k) as nat,
                    ),
                    words(
                        s.mem,
                        s.regs[param_register(abi, param_of(r.op)->0 as int)],
                        (k * n) as nat,
                    ),
                    m as nat,
                    k as nat,
                    n as nat,
                    avx2,
                )
            }
        }),
{
    let l = f.values@[f.values@[mm].op->MatMul_lhs.0 as int];
    let r = f.values@[f.values@[mm].op->MatMul_rhs.0 as int];
    let (m, k) = two_dims(l.ty@)->Ok_0;
    let (_, n) = two_dims(r.ty@)->Ok_0;
    lemma_matmul_kernel(
        fpu,
        fuel,
        s,
        param_register(abi, param_of(l.op)->0 as int),
        param_register(abi, param_of(r.op)->0 as int),
        param_register(abi, f.params@.len() as int),
        m,
        k,
        n,
        abi,
        avx2,
    );
}

/// The machine code for a product of fp32 matrices computes it: a processor
/// that starts at its first byte gets to its end with the product in place.
pub proof fn lemma_matmul_machine_code(
    fpu: Fpu,
    fuel: nat,
    s: Machine,
    lhs: Reg,
    rhs: Reg,
    out: Reg,
    m: u32,
    k: u32,
    n: u32,
    abi: Abi,
    avx2: bool,
) -> (t: Machine)
    requires
        fits(m),
        fits(k),
        fits(n),
        fuel > m + 4,
        fuel > k + 1,
        fuel > n + 32,
        called(s, lhs, 4 * (m * k), rhs, 4 * (k * n), out, 4 * (m * n), abi),
    ensures
        ({
            let bytes = assemble(matmul_kernel(lhs, rhs, out, m, k, n, abi, avx2));
            leads(bytes, fpu, 0, s, bytes.len() as int, t)
        }),
        left(s, t, s.regs[out], s.regs[out] + 4 * (m * n)),
        words(t.mem, s.regs[out], (m * n) as nat) == selected_product(
            fpu,
            words(s.mem, s.regs[lhs], (m * k) as nat),
            words(s.mem, s.regs[rhs], (k * n) as nat),
            m as nat,
            k as nat,
            n as nat,
            avx2,
        ),
{
    let code = matmul_kernel(lhs, rhs, out, m, k, n, abi, avx2);
    let bytes = assemble(code);
    lemma_matmul_kernel(fpu, fuel, s, lhs, rhs, out, m, k, n, abi, avx2);
    lemma_matmul_kernel_size(lhs, rhs, out, m, k, n, abi, avx2);
    assert(bytes.subrange(0, bytes.len() as int) =~= bytes);
    lemma_bytes_run(bytes, 0, code, fpu, fuel, s);
    run(code, fpu, fuel, s)->0
}

/// The machine code for a Q8_0 matrix and an fp32 vector or matrix, entered at
/// its first byte, computes their product.
pub proof fn lemma_q8_machine_code(
    fpu: Fpu,
    fuel: nat,
    s: Machine,
    w: Reg,
    a: Reg,
    out: Reg,
    m: u32,
    k: u32,
    n: u32,
    abi: Abi,
) -> (t: Machine)
    requires
        fits(m),
        fits(k),
        row_fits(k),
        fits(n),
        k % 32 == 0,
        n == 1 || n % 8 == 0,
        fuel > m + 1,
        fuel > 33,
        fuel > k / 32 + 1,
        fuel > n + 8,
        called(s, w, 34 * (m * (k / 32)), a, 4 * (k * n), out, 4 * (m * n), abi),
    ensures
        ({
            let bytes = assemble(q8_kernel(w, a, out, m, k, n, abi, false));
            leads(bytes, fpu, 0, s, bytes.len() as int, t)
        }),
        left(s, t, s.regs[out], s.regs[out] + 4 * (m * n)),
        words(t.mem, s.regs[out], (m * n) as nat) == if n != 1 {
            fused_product(
                fpu,
                weights(fpu, s.mem, s.regs[w], (m * k) as nat),
                words(s.mem, s.regs[a], (k * n) as nat),
                m as nat,
                k as nat,
                n as nat,
            )
        } else {
            Seq::new(
                m as nat,
                |i: int| decoded(fpu, s.mem, s.regs[w], s.regs[a], i, (k / 32) as nat),
            )
        },
{
    let code = q8_kernel(w, a, out, m, k, n, abi, false);
    let bytes = assemble(code);
    lemma_q8_kernel(fpu, fuel, s, w, a, out, m, k, n, abi, false);
    lemma_q8_kernel_size(w, a, out, m, k, n, abi, false);
    assert(bytes.subrange(0, bytes.len() as int) =~= bytes);
    lemma_bytes_run(bytes, 0, code, fpu, fuel, s);
    run(code, fpu, fuel, s)->0
}

/// The machine code for a Q8_0 matrix and a Q8_0 vector, entered at its first
/// byte, computes their product, where no sign is lost.
pub proof fn lemma_q8q8_machine_code(
    fpu: Fpu,
    fuel: nat,
    s: Machine,
    w: Reg,
    a: Reg,
    out: Reg,
    m: u32,
    k: u32,
    abi: Abi,
) -> (t: Machine)
    requires
        fits(m),
        fits(k),
        row_fits(k),
        k % 32 == 0,
        fuel > m + 1,
        fuel > k / 32 + 4,
        called_with_slot(s, w, 34 * (m * (k / 32)), a, 34 * (k / 32), out, 4 * m, abi),
        signs_fit(s.mem, s.regs[w], s.regs[a], m as int, k as int / 32),
    ensures
        ({
            let bytes = assemble(q8q8_kernel(w, a, out, m, k, abi, None));
            leads(bytes, fpu, 0, s, bytes.len() as int, t)
        }),
        restored(s, t, 72, s.regs[out], s.regs[out] + 4 * m),
        words(t.mem, s.regs[out], m as nat) == Seq::new(
            m as nat,
            |i: int| integer_product(fpu, s.mem, s.regs[w], s.regs[a], i, (k / 32) as nat),
        ),
{
    let code = q8q8_kernel(w, a, out, m, k, abi, None);
    let bytes = assemble(code);
    lemma_q8q8_kernel(fpu, fuel, s, w, a, out, m, k, abi, None);
    lemma_q8q8_kernel_size(w, a, out, m, k, abi, None);
    assert(bytes.subrange(0, bytes.len() as int) =~= bytes);
    lemma_bytes_run(bytes, 0, code, fpu, fuel, s);
    run(code, fpu, fuel, s)->0
}

// ---- which kernel is selected ---------------------------------------------------------

/// A function `(f32[m, k], f32[k, n])` that returns the product of its
/// parameters.
pub open spec fn product_function(f: Function, m: u32, k: u32, n: u32) -> bool {
    let vs = f.values@;
    &&& f.params@.len() == 2
    &&& vs.len() == 4
    &&& vs[0].op == (Op::Param { index: 0 })
    &&& vs[0].ty@ == (TensorTypeView {
        dtype: DType::F32,
        dims: seq![Dim::Static(m), Dim::Static(k)],
    })
    &&& vs[1].op == (Op::Param { index: 1 })
    &&& vs[1].ty@ == (TensorTypeView {
        dtype: DType::F32,
        dims: seq![Dim::Static(k), Dim::Static(n)],
    })
    &&& vs[2].op == (Op::MatMul { lhs: ValueId(0), rhs: ValueId(1) })
    &&& vs[3].op == (Op::Return { value: ValueId(2) })
}

/// What `emit_function` emits for a product of fp32 matrices. With AVX2 it is a
/// 4x8 register tile where `m` is a multiple of 4 and `n` of 8, four accumulators
/// for a single row where `n` is a multiple of 32, and one accumulator where `n`
/// is only a multiple of 8. Otherwise it is scalar code. The parameters and the
/// output are in the registers of the calling convention.
pub proof fn lemma_matmul_function_selection(
    f: Function,
    m: u32,
    k: u32,
    n: u32,
    abi: Abi,
    avx2: bool,
    vnni: Option<VnniForm>,
    use_avx512: bool,
)
    requires
        product_function(f, m, k, n),
    ensures
        ({
            let a = param_register(abi, 0);
            let b = param_register(abi, 1);
            let out = param_register(abi, 2);
            let (mi, ki, ni) = (m as i32, k as i32, n as i32);
            function_lowering(f, abi, avx2, vnni, use_avx512) == FunctionLowering::Emits(
                if avx2 && m % 4 == 0 && n % 8 == 0 {
                    matmul_tile_4x8_code(a, b, out, mi, ki, ni, abi)
                } else if avx2 && m == 1 && n % 32 == 0 {
                    matmul_avx2_1xn_4acc_code(a, b, out, ki, ni, abi)
                } else if avx2 && n % 8 == 0 {
                    matmul_avx2_code(a, b, out, mi, ki, ni, abi)
                } else {
                    matmul_body_code(a, b, out, mi, ki, ni, abi)
                },
            )
        }),
{
    reveal_with_fuel(positions, 5);
    reveal_with_fuel(scan, 5);
    let vs = f.values@;
    assert(positions(vs, OpKind::RmsNorm).len() == 0);
    assert(positions(vs, OpKind::Dequantize).len() == 0);
    assert(scan(vs) == (Scan::Plain { matmul: Some(2), ret: Some(ValueId(2)) }));
    assert(two_dims(vs[0].ty@) == Ok::<(u32, u32), CodegenFault>((m, k)));
    assert(two_dims(vs[1].ty@) == Ok::<(u32, u32), CodegenFault>((k, n)));
}

/// A module whose first function returns the product of two fp32 matrices
/// compiles to the bytes of the code that is emitted for it.
pub proof fn lemma_matmul_selection(
    backend: X86_64,
    ir: IrModule,
    opts: CodegenOpts,
    m: u32,
    k: u32,
    n: u32,
)
    requires
        ir.functions@.len() > 0,
        product_function(ir.functions@[0], m, k, n),
    ensures
        ({
            let abi = backend.abi;
            let a = param_register(abi, 0);
            let b = param_register(abi, 1);
            let out = param_register(abi, 2);
            let (mi, ki, ni) = (m as i32, k as i32, n as i32);
            backend.lowering(&ir, &opts) == Lowering::Emits(
                assemble(
                    if backend.avx2 && m % 4 == 0 && n % 8 == 0 {
                        matmul_tile_4x8_code(a, b, out, mi, ki, ni, abi)
                    } else if backend.avx2 && m == 1 && n % 32 == 0 {
                        matmul_avx2_1xn_4acc_code(a, b, out, ki, ni, abi)
                    } else if backend.avx2 && n % 8 == 0 {
                        matmul_avx2_code(a, b, out, mi, ki, ni, abi)
                    } else {
                        matmul_body_code(a, b, out, mi, ki, ni, abi)
                    },
                ),
            )
        }),
{
    lemma_matmul_function_selection(
        ir.functions@[0],
        m,
        k,
        n,
        backend.abi,
        backend.avx2,
        opts.vnni,
        opts.use_avx512,
    );
}

} // verus!
