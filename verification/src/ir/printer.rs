//! Text printer. Inspired by LLVM IR / MLIR.
//!
//! Example output:
//!
//! ```text
//! fn @matmul(%0: tensor<f32, [64, 128]>, %1: tensor<f32, [128, 32]>) -> tensor<f32, [64, 32]> {
//!   %2 = matmul %0, %1 : tensor<f32, [64, 32]>
//!   return %2
//! }
//! ```

use crate::float_text::{f32_display, push_f32};
use crate::ir::module::{Block, Function, IrModule, Value, ValueId};
use crate::ir::op::{dtype_debug, dtype_name, Op};
use crate::ir::ty::{DType, Dim, Shape, TensorType, TensorTypeView};
use crate::text::{
    comma_list, decimal, numeral, push_comma_list, push_decimal, push_numeral, push_signed, push_text,
    signed_decimal,
};
use vstd::prelude::*;

verus! {

// ---- types -----------------------------------------------------------------------

/// The name of an element type.
pub open spec fn dtype_text(d: DType) -> Seq<char> {
    match d {
        DType::F16 => "f16"@,
        DType::F32 => "f32"@,
        DType::I32 => "i32"@,
        DType::Q4_0 => "q4_0"@,
        DType::Q8_0 => "q8_0"@,
    }
}

/// The name of an element type.
pub fn dtype_str(d: DType) -> (s: &'static str)
    ensures
        s@ == dtype_text(d),
{
    match d {
        DType::F16 => "f16",
        DType::F32 => "f32",
        DType::I32 => "i32",
        DType::Q4_0 => "q4_0",
        DType::Q8_0 => "q8_0",
    }
}

/// One dimension: its size, or a question mark and its id.
pub open spec fn dim_text(d: Dim) -> Seq<char> {
    match d {
        Dim::Static(v) => decimal(v as nat),
        Dim::Dynamic(id) => "?"@ + decimal(id as nat),
    }
}

/// The dimensions, separated by a comma and a space.
pub open spec fn dims_text(dims: Seq<Dim>) -> Seq<char>
    decreases dims.len(),
{
    if dims.len() == 0 {
        Seq::empty()
    } else if dims.len() == 1 {
        dim_text(dims[0])
    } else {
        dims_text(dims.drop_last()) + ", "@ + dim_text(dims.last())
    }
}

/// `tensor<dtype, [dims]>`.
pub open spec fn type_text(t: TensorTypeView) -> Seq<char> {
    "tensor<"@ + dtype_text(t.dtype) + ", ["@ + dims_text(t.dims) + "]>"@
}

fn push_dim(out: &mut String, d: Dim)
    ensures
        final(out)@ == old(out)@ + dim_text(d),
{
    match d {
        Dim::Static(v) => push_decimal(out, v as u64),
        Dim::Dynamic(id) => {
            push_text(out, "?");
            push_decimal(out, id as u64);
        },
    }
}

fn push_dims(out: &mut String, shape: &Shape)
    ensures
        final(out)@ == old(out)@ + dims_text(shape@),
{
    let mut i: usize = 0;
    while i < shape.0.len()
        invariant
            i <= shape@.len(),
            out@ == old(out)@ + dims_text(shape@.subrange(0, i as int)),
        decreases shape@.len() - i,
    {
        if i > 0 {
            push_text(out, ", ");
        }
        push_dim(out, shape.0[i]);
        i = i + 1;
        proof {
            let s = shape@.subrange(0, i as int);
            assert(s.drop_last() =~= shape@.subrange(0, i - 1));
        }
    }
    assert(shape@.subrange(0, i as int) =~= shape@);
}

/// The type as it is written in source code.
pub fn format_type(t: &TensorType) -> (s: String)
    ensures
        s@ == type_text(t@),
{
    let mut s: String = "tensor<".to_string();
    push_text(&mut s, dtype_str(t.dtype));
    push_text(&mut s, ", [");
    push_dims(&mut s, &t.shape);
    push_text(&mut s, "]>");
    s
}

fn push_type(out: &mut String, t: &TensorType)
    ensures
        final(out)@ == old(out)@ + type_text(t@),
{
    let s = format_type(t);
    push_text(out, s.as_str());
}

/// One dimension, as a value of the library.
pub open spec fn dim_debug(d: Dim) -> Seq<char> {
    match d {
        Dim::Static(v) => "Static("@ + decimal(v as nat) + ")"@,
        Dim::Dynamic(v) => "Dynamic("@ + decimal(v as nat) + ")"@,
    }
}

/// The dimensions, as values of the library.
pub open spec fn dims_debug(dims: Seq<Dim>) -> Seq<char>
    decreases dims.len(),
{
    if dims.len() == 0 {
        Seq::empty()
    } else if dims.len() == 1 {
        dim_debug(dims[0])
    } else {
        dims_debug(dims.drop_last()) + ", "@ + dim_debug(dims.last())
    }
}

/// The type, as a value of the library.
pub open spec fn type_debug(t: TensorTypeView) -> Seq<char> {
    "TensorType { dtype: "@ + dtype_debug(t.dtype) + ", shape: Shape(["@ + dims_debug(t.dims)
        + "]) }"@
}

fn push_dim_debug(out: &mut String, d: Dim)
    ensures
        final(out)@ == old(out)@ + dim_debug(d),
{
    match d {
        Dim::Static(v) => {
            push_text(out, "Static(");
            push_decimal(out, v as u64);
            push_text(out, ")");
        },
        Dim::Dynamic(v) => {
            push_text(out, "Dynamic(");
            push_decimal(out, v as u64);
            push_text(out, ")");
        },
    }
}

fn push_dims_debug(out: &mut String, shape: &Shape)
    ensures
        final(out)@ == old(out)@ + dims_debug(shape@),
{
    let mut i: usize = 0;
    while i < shape.0.len()
        invariant
            i <= shape@.len(),
            out@ == old(out)@ + dims_debug(shape@.subrange(0, i as int)),
        decreases shape@.len() - i,
    {
        if i > 0 {
            push_text(out, ", ");
        }
        push_dim_debug(out, shape.0[i]);
        i = i + 1;
        proof {
            let s = shape@.subrange(0, i as int);
            assert(s.drop_last() =~= shape@.subrange(0, i - 1));
        }
    }
    assert(shape@.subrange(0, i as int) =~= shape@);
}

/// Appends the type, as a value of the library.
pub(crate) fn push_type_debug(out: &mut String, t: &TensorType)
    ensures
        final(out)@ == old(out)@ + type_debug(t@),
{
    let mut s: String = "TensorType { dtype: ".to_string();
    push_text(&mut s, dtype_name(t.dtype));
    push_text(&mut s, ", shape: Shape([");
    push_dims_debug(&mut s, &t.shape);
    push_text(&mut s, "]) }");
    push_text(out, s.as_str());
}

// ---- values ----------------------------------------------------------------------

/// `%n`.
pub open spec fn val_text(id: ValueId) -> Seq<char> {
    "%"@ + decimal(id.0 as nat)
}

fn push_val(out: &mut String, id: ValueId)
    ensures
        final(out)@ == old(out)@ + val_text(id),
{
    push_text(out, "%");
    push_decimal(out, id.0 as u64);
}

/// `%id = name operands : type`, where only some operations show their type.
pub open spec fn value_text(id: ValueId, ty: TensorTypeView, op: Op) -> Seq<char> {
    match op {
        Op::Return { value } => "return "@ + val_text(value),
        Op::Param { index } => val_text(id) + " = param "@ + decimal(index as nat) + " : "@
            + type_text(ty),
        Op::LoadWeight { name } => val_text(id) + " = load_weight @\""@ + name@ + "\" : "@
            + type_text(ty),
        Op::LoadInput { index } => val_text(id) + " = load_input "@ + decimal(index as nat) + " : "@
            + type_text(ty),
        Op::Constant { bits } => val_text(id) + " = const 0x"@ + numeral(bits as nat, 16) + " : "@
            + type_text(ty),
        Op::MatMul { lhs, rhs } => val_text(id) + " = matmul "@ + val_text(lhs) + ", "@ + val_text(
            rhs,
        ) + " : "@ + type_text(ty),
        Op::Add { lhs, rhs } => val_text(id) + " = add "@ + val_text(lhs) + ", "@ + val_text(rhs)
            + " : "@ + type_text(ty),
        Op::Mul { lhs, rhs } => val_text(id) + " = mul "@ + val_text(lhs) + ", "@ + val_text(rhs)
            + " : "@ + type_text(ty),
        Op::Silu { x } => val_text(id) + " = silu "@ + val_text(x),
        Op::Gelu { x } => val_text(id) + " = gelu "@ + val_text(x),
        Op::Softmax { x, axis } => val_text(id) + " = softmax "@ + val_text(x) + ", axis="@
            + signed_decimal(axis as int),
        Op::RmsNorm { x, weight, eps } => val_text(id) + " = rms_norm "@ + val_text(x) + ", "@
            + val_text(weight) + ", eps="@ + f32_display(eps),
        Op::Rope { x, positions, base } => val_text(id) + " = rope "@ + val_text(x) + ", "@
            + val_text(positions) + ", base="@ + f32_display(base),
        Op::Reshape { x, new_shape } => val_text(id) + " = reshape "@ + val_text(x) + " to ["@
            + comma_list(new_shape@) + "]"@,
        Op::Transpose { x, perm } => val_text(id) + " = transpose "@ + val_text(x) + " perm=["@
            + comma_list(perm@) + "]"@,
        Op::Dequantize { x } => val_text(id) + " = dequantize "@ + val_text(x) + " : "@ + type_text(
            ty,
        ),
        Op::Quantize { x, target } => val_text(id) + " = quantize "@ + val_text(x) + " to "@
            + dtype_text(target) + " : "@ + type_text(ty),
    }
}

fn id_then(id: ValueId, s: &str) -> (out: String)
    ensures
        out@ == val_text(id) + s@,
{
    let mut out: String = "%".to_string();
    push_decimal(&mut out, id.0 as u64);
    push_text(&mut out, s);
    out
}

fn print_value(out: &mut String, id: ValueId, ty: &TensorType, op: &Op)
    ensures
        final(out)@ == old(out)@ + value_text(id, ty@, *op),
{
    let mut s: String;
    match op {
        Op::Return { value } => {
            s = "return ".to_string();
            push_val(&mut s, *value);
        },
        Op::Param { index } => {
            s = id_then(id, " = param ");
            push_decimal(&mut s, *index as u64);
            push_text(&mut s, " : ");
            push_type(&mut s, ty);
        },
        Op::LoadWeight { name } => {
            s = id_then(id, " = load_weight @\"");
            push_text(&mut s, name.as_str());
            push_text(&mut s, "\" : ");
            push_type(&mut s, ty);
        },
        Op::LoadInput { index } => {
            s = id_then(id, " = load_input ");
            push_decimal(&mut s, *index as u64);
            push_text(&mut s, " : ");
            push_type(&mut s, ty);
        },
        Op::Constant { bits } => {
            s = id_then(id, " = const 0x");
            push_numeral(&mut s, *bits, 16);
            push_text(&mut s, " : ");
            push_type(&mut s, ty);
        },
        Op::MatMul { lhs, rhs } => {
            s = id_then(id, " = matmul ");
            push_val(&mut s, *lhs);
            push_text(&mut s, ", ");
            push_val(&mut s, *rhs);
            push_text(&mut s, " : ");
            push_type(&mut s, ty);
        },
        Op::Add { lhs, rhs } => {
            s = id_then(id, " = add ");
            push_val(&mut s, *lhs);
            push_text(&mut s, ", ");
            push_val(&mut s, *rhs);
            push_text(&mut s, " : ");
            push_type(&mut s, ty);
        },
        Op::Mul { lhs, rhs } => {
            s = id_then(id, " = mul ");
            push_val(&mut s, *lhs);
            push_text(&mut s, ", ");
            push_val(&mut s, *rhs);
            push_text(&mut s, " : ");
            push_type(&mut s, ty);
        },
        Op::Silu { x } => {
            s = id_then(id, " = silu ");
            push_val(&mut s, *x);
        },
        Op::Gelu { x } => {
            s = id_then(id, " = gelu ");
            push_val(&mut s, *x);
        },
        Op::Softmax { x, axis } => {
            s = id_then(id, " = softmax ");
            push_val(&mut s, *x);
            push_text(&mut s, ", axis=");
            push_signed(&mut s, *axis);
        },
        Op::RmsNorm { x, weight, eps } => {
            s = id_then(id, " = rms_norm ");
            push_val(&mut s, *x);
            push_text(&mut s, ", ");
            push_val(&mut s, *weight);
            push_text(&mut s, ", eps=");
            push_f32(&mut s, *eps);
        },
        Op::Rope { x, positions, base } => {
            s = id_then(id, " = rope ");
            push_val(&mut s, *x);
            push_text(&mut s, ", ");
            push_val(&mut s, *positions);
            push_text(&mut s, ", base=");
            push_f32(&mut s, *base);
        },
        Op::Reshape { x, new_shape } => {
            s = id_then(id, " = reshape ");
            push_val(&mut s, *x);
            push_text(&mut s, " to [");
            push_comma_list(&mut s, new_shape);
            push_text(&mut s, "]");
        },
        Op::Transpose { x, perm } => {
            s = id_then(id, " = transpose ");
            push_val(&mut s, *x);
            push_text(&mut s, " perm=[");
            push_comma_list(&mut s, perm);
            push_text(&mut s, "]");
        },
        Op::Dequantize { x } => {
            s = id_then(id, " = dequantize ");
            push_val(&mut s, *x);
            push_text(&mut s, " : ");
            push_type(&mut s, ty);
        },
        Op::Quantize { x, target } => {
            s = id_then(id, " = quantize ");
            push_val(&mut s, *x);
            push_text(&mut s, " to ");
            push_text(&mut s, dtype_str(*target));
            push_text(&mut s, " : ");
            push_type(&mut s, ty);
        },
    }
    push_text(out, s.as_str());
}

// ---- functions -------------------------------------------------------------------

/// The parameters of the signature: `%id: type`, separated by a comma and a
/// space.
pub open spec fn params_text(values: Seq<Value>, params: Seq<ValueId>) -> Seq<char>
    decreases params.len(),
{
    if params.len() == 0 {
        Seq::empty()
    } else {
        let id = params.last();
        let before = params_text(values, params.drop_last());
        let sep = if params.len() > 1 {
            before + ", "@
        } else {
            before
        };
        sep + val_text(id) + ": "@ + type_text(values[id.0 as int].ty@)
    }
}

/// The lines of a block, one per value; parameters are in the signature
/// already.
pub open spec fn lines_text(values: Seq<Value>, ids: Seq<ValueId>) -> Seq<char>
    decreases ids.len(),
{
    if ids.len() == 0 {
        Seq::empty()
    } else {
        let before = lines_text(values, ids.drop_last());
        let id = ids.last();
        let v = values[id.0 as int];
        if v.op is Param {
            before
        } else {
            before + "  "@ + value_text(id, v.ty@, v.op) + "\n"@
        }
    }
}

/// The lines of the blocks, in order.
pub open spec fn blocks_text(values: Seq<Value>, blocks: Seq<Block>) -> Seq<char>
    decreases blocks.len(),
{
    if blocks.len() == 0 {
        Seq::empty()
    } else {
        blocks_text(values, blocks.drop_last()) + lines_text(
            values,
            blocks.last().values@,
        )
    }
}

/// The text of a function.
pub open spec fn function_text(f: Function) -> Seq<char> {
    "fn @"@ + f.name@ + "("@ + params_text(f.values@, f.param_values@) + ") -> "@ + type_text(f.ret@)
        + " {\n"@ + blocks_text(f.values@, f.blocks@) + "}\n"@
}

/// The text of the functions, with an empty line between two of them.
pub open spec fn functions_text(functions: Seq<Function>) -> Seq<char>
    decreases functions.len(),
{
    if functions.len() == 0 {
        Seq::empty()
    } else {
        let before = functions_text(functions.drop_last());
        let sep = if functions.len() > 1 {
            before + "\n"@
        } else {
            before
        };
        sep + function_text(functions.last())
    }
}

/// Every id that the printer looks up is a value of the function.
pub open spec fn printable(f: Function) -> bool {
    &&& forall|i: int|
        0 <= i < f.param_values@.len() ==> (#[trigger] f.param_values@[i]).0 < f.values@.len()
    &&& forall|b: int, i: int|
        0 <= b < f.blocks@.len() && 0 <= i < f.blocks@[b].values@.len() ==> (
        #[trigger] f.blocks@[b].values@[i]).0 < f.values@.len()
}

fn print_params(out: &mut String, f: &Function)
    requires
        printable(*f),
    ensures
        final(out)@ == old(out)@ + params_text(f.values@, f.param_values@),
{
    let mut i: usize = 0;
    while i < f.param_values.len()
        invariant
            i <= f.param_values@.len(),
            printable(*f),
            out@ == old(out)@ + params_text(f.values@, f.param_values@.subrange(0, i as int)),
        decreases f.param_values@.len() - i,
    {
        if i > 0 {
            push_text(out, ", ");
        }
        let id = f.param_values[i];
        push_val(out, id);
        push_text(out, ": ");
        push_type(out, &f.values[id.0 as usize].ty);
        i = i + 1;
        proof {
            let s = f.param_values@.subrange(0, i as int);
            assert(s.drop_last() =~= f.param_values@.subrange(0, i - 1));
            assert(s.last() == id);
            assert(out@ =~= old(out)@ + params_text(f.values@, s));
        }
    }
    assert(f.param_values@.subrange(0, i as int) =~= f.param_values@);
}

fn print_lines(out: &mut String, f: &Function, b: usize)
    requires
        printable(*f),
        b < f.blocks@.len(),
    ensures
        final(out)@ == old(out)@ + lines_text(f.values@, f.blocks@[b as int].values@),
{
    let ids = &f.blocks[b].values;
    let mut i: usize = 0;
    while i < ids.len()
        invariant
            i <= ids@.len(),
            b < f.blocks@.len(),
            ids@ == f.blocks@[b as int].values@,
            printable(*f),
            out@ == old(out)@ + lines_text(f.values@, ids@.subrange(0, i as int)),
        decreases ids@.len() - i,
    {
        let id = ids[i];
        assert(f.blocks@[b as int].values@[i as int].0 < f.values@.len());
        let ghost before = out@;
        let v = &f.values[id.0 as usize];
        match v.op {
            Op::Param { .. } => {},
            _ => {
                push_text(out, "  ");
                print_value(out, id, &v.ty, &v.op);
                push_text(out, "\n");
            },
        }
        i = i + 1;
        proof {
            let s = ids@.subrange(0, i as int);
            assert(s.drop_last() =~= ids@.subrange(0, i - 1));
            assert(s.last() == id);
            assert(out@ =~= old(out)@ + lines_text(f.values@, s));
        }
    }
    assert(ids@.subrange(0, i as int) =~= ids@);
}

/// Appends the text of a function.
pub fn print_function(out: &mut String, f: &Function)
    requires
        printable(*f),
    ensures
        final(out)@ == old(out)@ + function_text(*f),
{
    let mut s: String = "fn @".to_string();
    push_text(&mut s, f.name.as_str());
    push_text(&mut s, "(");
    print_params(&mut s, f);
    push_text(&mut s, ") -> ");
    push_type(&mut s, &f.ret);
    push_text(&mut s, " {\n");
    let ghost head = s@;
    let mut b: usize = 0;
    assert(head =~= head + blocks_text(f.values@, f.blocks@.subrange(0, 0)));
    while b < f.blocks.len()
        invariant
            b <= f.blocks@.len(),
            printable(*f),
            s@ == head + blocks_text(f.values@, f.blocks@.subrange(0, b as int)),
        decreases f.blocks@.len() - b,
    {
        print_lines(&mut s, f, b);
        b = b + 1;
        proof {
            let bs = f.blocks@.subrange(0, b as int);
            assert(bs.drop_last() =~= f.blocks@.subrange(0, b - 1));
            assert(s@ =~= head + blocks_text(f.values@, bs));
        }
    }
    assert(f.blocks@.subrange(0, b as int) =~= f.blocks@);
    push_text(&mut s, "}\n");
    push_text(out, s.as_str());
}

/// The text of a module.
pub fn print_module(m: &IrModule) -> (out: String)
    requires
        forall|i: int| 0 <= i < m.functions@.len() ==> #[trigger] printable(m.functions@[i]),
    ensures
        out@ == functions_text(m.functions@),
{
    let mut out: String = String::new();
    let mut i: usize = 0;
    while i < m.functions.len()
        invariant
            i <= m.functions@.len(),
            forall|j: int| 0 <= j < m.functions@.len() ==> #[trigger] printable(m.functions@[j]),
            out@ == functions_text(m.functions@.subrange(0, i as int)),
        decreases m.functions@.len() - i,
    {
        if i > 0 {
            push_text(&mut out, "\n");
        }
        print_function(&mut out, &m.functions[i]);
        i = i + 1;
        proof {
            let s = m.functions@.subrange(0, i as int);
            assert(s.drop_last() =~= m.functions@.subrange(0, i - 1));
        }
    }
    assert(m.functions@.subrange(0, i as int) =~= m.functions@);
    out
}

} // verus!
