//! What the cached kernels compute when they are called.

use crate::codegen::block_laws::weights;
use crate::codegen::decode_laws::decoded;
use crate::codegen::flat_laws::leads;
use crate::codegen::frame_laws::{left, restored};
use crate::codegen::integer_laws::{integer_product, signs_fit};
use crate::codegen::machine::{words, Fpu, Machine};
use crate::codegen::matmul_laws::{called, fused_product};
use crate::codegen::selection_laws::{
    lemma_matmul_machine_code, lemma_q8_machine_code, lemma_q8q8_machine_code, selected_product,
};
use crate::codegen::unrolled_laws::called_with_slot;
use crate::codegen::x86_64::{fits, param_register, row_fits, Abi};
use crate::jit::matmul_cache::{f32_kernel, q8_f32_kernel, q8_q8_kernel};
use vstd::prelude::*;

verus! {

/// The fp32 kernel for a shape, entered at its first byte with the operands and
/// the output in the argument registers, writes the product of the operands and
/// returns with everything else as the caller left it.
pub proof fn lemma_f32_kernel_multiplies(
    fpu: Fpu,
    fuel: nat,
    s: Machine,
    abi: Abi,
    avx2: bool,
    m: u32,
    k: u32,
    n: u32,
) -> (t: Machine)
    requires
        fits(m),
        fits(k),
        fits(n),
        fuel > m + 4,
        fuel > k + 1,
        fuel > n + 32,
        called(
            s,
            param_register(abi, 0),
            4 * (m * k),
            param_register(abi, 1),
            4 * (k * n),
            param_register(abi, 2),
            4 * (m * n),
            abi,
        ),
    ensures
        ({
            let bytes = f32_kernel(abi, avx2, m, k, n);
            let out = s.regs[param_register(abi, 2)];
            &&& leads(bytes, fpu, 0, s, bytes.len() as int, t)
            &&& left(s, t, out, out + 4 * (m * n))
            &&& words(t.mem, out, (m * n) as nat) == selected_product(
                fpu,
                words(s.mem, s.regs[param_register(abi, 0)], (m * k) as nat),
                words(s.mem, s.regs[param_register(abi, 1)], (k * n) as nat),
                m as nat,
                k as nat,
                n as nat,
                avx2,
            )
        }),
{
    lemma_matmul_machine_code(
        fpu,
        fuel,
        s,
        param_register(abi, 0),
        param_register(abi, 1),
        param_register(abi, 2),
        m,
        k,
        n,
        abi,
        avx2,
    )
}

/// The fused kernel of Q8_0 weights and fp32 activations, called likewise,
/// writes the product of the dequantized weights and the activations: one
/// column as the vector kernel sums it, several as the fused product.
pub proof fn lemma_q8_kernel_multiplies(
    fpu: Fpu,
    fuel: nat,
    s: Machine,
    abi: Abi,
    m: u32,
    k: u32,
    n: u32,
) -> (t: Machine)
    requires
        fits(m),
        fits(k),
        row_fits(k),
        fits(n),
        k % 32 == 0,
        n == 1 || n % 8 == 0,
        fuel > m + 1,
        fuel > 33,
        fuel > k / 32 + 1,
        fuel > n + 8,
        called(
            s,
            param_register(abi, 0),
            34 * (m * (k / 32)),
            param_register(abi, 1),
            4 * (k * n),
            param_register(abi, 2),
            4 * (m * n),
            abi,
        ),
    ensures
        ({
            let bytes = q8_f32_kernel(abi, m, k, n);
            let w = s.regs[param_register(abi, 0)];
            let a = s.regs[param_register(abi, 1)];
            let out = s.regs[param_register(abi, 2)];
            &&& leads(bytes, fpu, 0, s, bytes.len() as int, t)
            &&& left(s, t, out, out + 4 * (m * n))
            &&& words(t.mem, out, (m * n) as nat) == if n != 1 {
                fused_product(
                    fpu,
                    weights(fpu, s.mem, w, (m * k) as nat),
                    words(s.mem, a, (k * n) as nat),
                    m as nat,
                    k as nat,
                    n as nat,
                )
            } else {
                Seq::new(m as nat, |i: int| decoded(fpu, s.mem, w, a, i, (k / 32) as nat))
            }
        }),
{
    lemma_q8_machine_code(
        fpu,
        fuel,
        s,
        param_register(abi, 0),
        param_register(abi, 1),
        param_register(abi, 2),
        m,
        k,
        n,
        abi,
    )
}

/// The fused kernel of Q8_0 weights and a Q8_0 vector, called likewise, writes
/// their product, where no sign is lost.
pub proof fn lemma_q8q8_kernel_multiplies(
    fpu: Fpu,
    fuel: nat,
    s: Machine,
    abi: Abi,
    m: u32,
    k: u32,
) -> (t: Machine)
    requires
        fits(m),
        fits(k),
        row_fits(k),
        k % 32 == 0,
        fuel > m + 1,
        fuel > k / 32 + 4,
        called_with_slot(
            s,
            param_register(abi, 0),
            34 * (m * (k / 32)),
            param_register(abi, 1),
            34 * (k / 32),
            param_register(abi, 2),
            4 * m,
            abi,
        ),
        signs_fit(
            s.mem,
            s.regs[param_register(abi, 0)],
            s.regs[param_register(abi, 1)],
            m as int,
            k as int / 32,
        ),
    ensures
        ({
            let bytes = q8_q8_kernel(abi, m, k);
            let w = s.regs[param_register(abi, 0)];
            let a = s.regs[param_register(abi, 1)];
            let out = s.regs[param_register(abi, 2)];
            &&& leads(bytes, fpu, 0, s, bytes.len() as int, t)
            &&& restored(s, t, 72, out, out + 4 * m)
            &&& words(t.mem, out, m as nat) == Seq::new(
                m as nat,
                |i: int| integer_product(fpu, s.mem, w, a, i, (k / 32) as nat),
            )
        }),
{
    lemma_q8q8_machine_code(
        fpu,
        fuel,
        s,
        param_register(abi, 0),
        param_register(abi, 1),
        param_register(abi, 2),
        m,
        k,
        abi,
    )
}

} // verus!
