//! IR opcodes. Kept small on purpose.

use crate::float_text::{f32_debug, push_f32_debug};
use crate::ir::module::ValueId;
use crate::ir::ty::DType;
use crate::text::{
    comma_list, decimal, push_comma_list, push_decimal, push_numeral, push_signed, push_text,
    signed_decimal,
};
use vstd::prelude::*;

verus! {

/// One IR operation.
#[derive(Clone, Debug)]
pub enum Op {
    // -- Function I/O --
    /// The `index`-th function parameter. Result type taken from the owning
    /// function's signature.
    Param { index: u32 },
    // -- Memory / constants --
    LoadWeight { name: String },
    LoadInput { index: u32 },
    /// The element type lives on the result value.
    Constant { bits: u128 },
    // -- Linear algebra --
    MatMul { lhs: ValueId, rhs: ValueId },
    Add { lhs: ValueId, rhs: ValueId },
    Mul { lhs: ValueId, rhs: ValueId },
    // -- Activations --
    Silu { x: ValueId },
    Gelu { x: ValueId },
    Softmax { x: ValueId, axis: i32 },
    // -- Normalization --
    /// `eps` is the bit pattern of an fp32 number.
    RmsNorm { x: ValueId, weight: ValueId, eps: u32 },
    // -- Attention helpers --
    /// `base` is the bit pattern of an fp32 number.
    Rope { x: ValueId, positions: ValueId, base: u32 },
    /// View/reshape without copying.
    Reshape { x: ValueId, new_shape: Vec<u32> },
    Transpose { x: ValueId, perm: Vec<u32> },
    // -- Quantization --
    Dequantize { x: ValueId },
    Quantize { x: ValueId, target: DType },
    // -- Control --
    Return { value: ValueId },
}

/// The text of a string in double quotes, with escapes, as std's `Debug`
/// gives it.
pub uninterp spec fn quoted_text(s: Seq<char>) -> Seq<char>;

/// std's `Debug` for `str`: the string in double quotes, with special
/// characters escaped. The contract only names the result, as
/// [`quoted_text`]; which characters are escaped is left unsaid.
#[verifier::external_body]
pub(crate) fn quoted(s: &str) -> (q: String)
    ensures
        q@ == quoted_text(s@),
{
    format!("{:?}", s)
}

/// `ValueId(n)`.
pub open spec fn id_debug(id: ValueId) -> Seq<char> {
    "ValueId("@ + decimal(id.0 as nat) + ")"@
}

fn push_id_debug(out: &mut String, id: ValueId)
    ensures
        final(out)@ == old(out)@ + id_debug(id),
{
    push_text(out, "ValueId(");
    push_decimal(out, id.0 as u64);
    push_text(out, ")");
}

/// The name of an element type, as it is written in code.
pub open spec fn dtype_debug(d: DType) -> Seq<char> {
    match d {
        DType::F16 => "F16"@,
        DType::F32 => "F32"@,
        DType::I32 => "I32"@,
        DType::Q4_0 => "Q4_0"@,
        DType::Q8_0 => "Q8_0"@,
    }
}

/// The name of an element type, as it is written in code.
pub(crate) fn dtype_name(d: DType) -> (s: &'static str)
    ensures
        s@ == dtype_debug(d),
{
    match d {
        DType::F16 => "F16",
        DType::F32 => "F32",
        DType::I32 => "I32",
        DType::Q4_0 => "Q4_0",
        DType::Q8_0 => "Q8_0",
    }
}

impl Op {
    /// The operation with its operands, for diagnostics.
    pub open spec fn debug(self) -> Seq<char> {
        match self {
            Op::Param { index } => "Param { index: "@ + decimal(index as nat) + " }"@,
            Op::LoadWeight { name } => "LoadWeight { name: "@ + quoted_text(name@) + " }"@,
            Op::LoadInput { index } => "LoadInput { index: "@ + decimal(index as nat) + " }"@,
            Op::Constant { bits } => "Constant { bits: "@ + decimal(bits as nat) + " }"@,
            Op::MatMul { lhs, rhs } => "MatMul { lhs: "@ + id_debug(lhs) + ", rhs: "@ + id_debug(rhs)
                + " }"@,
            Op::Add { lhs, rhs } => "Add { lhs: "@ + id_debug(lhs) + ", rhs: "@ + id_debug(rhs)
                + " }"@,
            Op::Mul { lhs, rhs } => "Mul { lhs: "@ + id_debug(lhs) + ", rhs: "@ + id_debug(rhs)
                + " }"@,
            Op::Silu { x } => "Silu { x: "@ + id_debug(x) + " }"@,
            Op::Gelu { x } => "Gelu { x: "@ + id_debug(x) + " }"@,
            Op::Softmax { x, axis } => "Softmax { x: "@ + id_debug(x) + ", axis: "@
                + signed_decimal(axis as int) + " }"@,
            Op::RmsNorm { x, weight, eps } => "RmsNorm { x: "@ + id_debug(x) + ", weight: "@
                + id_debug(weight) + ", eps: "@ + f32_debug(eps) + " }"@,
            Op::Rope { x, positions, base } => "Rope { x: "@ + id_debug(x) + ", positions: "@
                + id_debug(positions) + ", base: "@ + f32_debug(base) + " }"@,
            Op::Reshape { x, new_shape } => "Reshape { x: "@ + id_debug(x) + ", new_shape: ["@
                + comma_list(new_shape@) + "] }"@,
            Op::Transpose { x, perm } => "Transpose { x: "@ + id_debug(x) + ", perm: ["@
                + comma_list(perm@) + "] }"@,
            Op::Dequantize { x } => "Dequantize { x: "@ + id_debug(x) + " }"@,
            Op::Quantize { x, target } => "Quantize { x: "@ + id_debug(x) + ", target: "@
                + dtype_debug(target) + " }"@,
            Op::Return { value } => "Return { value: "@ + id_debug(value) + " }"@,
        }
    }

    /// The operation with its operands, for diagnostics.
    pub fn debug_text(&self) -> (s: String)
        ensures
            s@ == self.debug(),
    {
        let mut s: String;
        match self {
            Op::Param { index } => {
                s = "Param { index: ".to_string();
                push_decimal(&mut s, *index as u64);
            },
            Op::LoadWeight { name } => {
                s = "LoadWeight { name: ".to_string();
                let q = quoted(name.as_str());
                push_text(&mut s, q.as_str());
            },
            Op::LoadInput { index } => {
                s = "LoadInput { index: ".to_string();
                push_decimal(&mut s, *index as u64);
            },
            Op::Constant { bits } => {
                s = "Constant { bits: ".to_string();
                push_numeral(&mut s, *bits, 10);
            },
            Op::MatMul { lhs, rhs } => {
                s = "MatMul { lhs: ".to_string();
                push_id_debug(&mut s, *lhs);
                push_text(&mut s, ", rhs: ");
                push_id_debug(&mut s, *rhs);
            },
            Op::Add { lhs, rhs } => {
                s = "Add { lhs: ".to_string();
                push_id_debug(&mut s, *lhs);
                push_text(&mut s, ", rhs: ");
                push_id_debug(&mut s, *rhs);
            },
            Op::Mul { lhs, rhs } => {
                s = "Mul { lhs: ".to_string();
                push_id_debug(&mut s, *lhs);
                push_text(&mut s, ", rhs: ");
                push_id_debug(&mut s, *rhs);
            },
            Op::Silu { x } => {
                s = "Silu { x: ".to_string();
                push_id_debug(&mut s, *x);
            },
            Op::Gelu { x } => {
                s = "Gelu { x: ".to_string();
                push_id_debug(&mut s, *x);
            },
            Op::Softmax { x, axis } => {
                s = "Softmax { x: ".to_string();
                push_id_debug(&mut s, *x);
                push_text(&mut s, ", axis: ");
                push_signed(&mut s, *axis);
            },
            Op::RmsNorm { x, weight, eps } => {
                s = "RmsNorm { x: ".to_string();
                push_id_debug(&mut s, *x);
                push_text(&mut s, ", weight: ");
                push_id_debug(&mut s, *weight);
                push_text(&mut s, ", eps: ");
                push_f32_debug(&mut s, *eps);
            },
            Op::Rope { x, positions, base } => {
                s = "Rope { x: ".to_string();
                push_id_debug(&mut s, *x);
                push_text(&mut s, ", positions: ");
                push_id_debug(&mut s, *positions);
                push_text(&mut s, ", base: ");
                push_f32_debug(&mut s, *base);
            },
            Op::Reshape { x, new_shape } => {
                s = "Reshape { x: ".to_string();
                push_id_debug(&mut s, *x);
                push_text(&mut s, ", new_shape: [");
                push_comma_list(&mut s, new_shape);
                push_text(&mut s, "] }");
                return s;
            },
            Op::Transpose { x, perm } => {
                s = "Transpose { x: ".to_string();
                push_id_debug(&mut s, *x);
                push_text(&mut s, ", perm: [");
                push_comma_list(&mut s, perm);
                push_text(&mut s, "] }");
                return s;
            },
            Op::Dequantize { x } => {
                s = "Dequantize { x: ".to_string();
                push_id_debug(&mut s, *x);
            },
            Op::Quantize { x, target } => {
                s = "Quantize { x: ".to_string();
                push_id_debug(&mut s, *x);
                push_text(&mut s, ", target: ");
                push_text(&mut s, dtype_name(*target));
            },
            Op::Return { value } => {
                s = "Return { value: ".to_string();
                push_id_debug(&mut s, *value);
            },
        }
        push_text(&mut s, " }");
        s
    }
}

} // verus!
