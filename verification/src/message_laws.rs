//! The messages of the library's errors.

use crate::codegen::backend::CodegenFault;
use crate::dsl::ast::{BinOp, DimKind, ExprKindView, ExprView, FunctionView, ScalarType};
use crate::dsl::diagnostic::{DiagnosticView, Severity};
use crate::dsl::span::Span;
use crate::dsl::typeck::{
    dim_text, dims_text, find, infer, lookup, matmul_type, same_type, scalar_text,
    ty_text, Env, TyView,
};
use crate::ir::lower::LowerFault;
use crate::ir::op::quoted_text;
use crate::ir::printer::{dim_debug, dims_debug, type_debug};
use crate::ir::ty::{DType, Dim, TensorTypeView};
use crate::ir::verify::VerifyFault;
use crate::jit::exec::ExecError;
use crate::jit::matmul_cache::JitError;
use crate::model::gguf::{kv_type_name, GgufError};
use crate::model::tokenizer::TokFault;
use crate::text::decimal;
use vstd::prelude::*;

verus! {

/// The name of an element type in messages.
pub open spec fn element_name(d: DType) -> Seq<char> {
    match d {
        DType::F16 => "F16"@,
        DType::F32 => "F32"@,
        DType::I32 => "I32"@,
        DType::Q4_0 => "Q4_0"@,
        DType::Q8_0 => "Q8_0"@,
    }
}

/// Types in messages: the element type, and the dimensions in order.
pub proof fn lemma_types_in_messages(t: TensorTypeView, dims: Seq<Dim>, d: Dim, n: u32)
    ensures
        type_debug(t) == "TensorType { dtype: "@ + element_name(t.dtype) + ", shape: Shape(["@
            + dims_debug(t.dims) + "]) }"@,
        dims_debug(Seq::empty()) == Seq::<char>::empty(),
        dims_debug(seq![d]) == dim_debug(d),
        dims.len() > 0 ==> dims_debug(dims.push(d)) == dims_debug(dims) + ", "@ + dim_debug(d),
        dim_debug(Dim::Static(n)) == "Static("@ + decimal(n as nat) + ")"@,
        dim_debug(Dim::Dynamic(n)) == "Dynamic("@ + decimal(n as nat) + ")"@,
{
    assert(dims.push(d).drop_last() =~= dims);
}

/// What is said of a function that does not verify.
pub proof fn lemma_verify_messages(
    f: Seq<char>,
    v: u32,
    a: DType,
    b: DType,
    m: u32,
    n: u32,
    s: TensorTypeView,
    t: TensorTypeView,
)
    ensures
        VerifyFault::UndefinedValue(f, v).text() == "function `"@ + f + "`: undefined value %"@
            + decimal(v as nat),
        VerifyFault::UseBeforeDef(f, v).text() == "function `"@ + f + "`: value %"@ + decimal(
            v as nat,
        ) + " used before defined"@,
        VerifyFault::NoReturn(f).text() == "function `"@ + f + "` has no terminator (return)"@,
        VerifyFault::MultipleReturns(f).text() == "function `"@ + f + "` has multiple terminators"@,
        VerifyFault::MatMulRank(f, v).text() == "function `"@ + f + "`: matmul %"@ + decimal(
            v as nat,
        ) + " requires rank-2 tensors"@,
        VerifyFault::MatMulDType(f, v, a, b).text() == "function `"@ + f + "`: matmul %"@ + decimal(
            v as nat,
        ) + " dtype mismatch ("@ + element_name(a) + " vs "@ + element_name(b) + ")"@,
        VerifyFault::MatMulInner(f, v, m, n).text() == "function `"@ + f + "`: matmul %"@ + decimal(
            v as nat,
        ) + " inner dim mismatch ("@ + decimal(m as nat) + " vs "@ + decimal(n as nat) + ")"@,
        VerifyFault::BinTypeMismatch(f, v, s, t).text() == "function `"@ + f + "`: binary op %"@
            + decimal(v as nat) + " type mismatch ("@ + type_debug(s) + " vs "@ + type_debug(t)
            + ")"@,
        VerifyFault::ReturnTypeMismatch(f, s, t).text() == "function `"@ + f
            + "`: declared return type "@ + type_debug(s) + " but returns "@ + type_debug(t),
{
}

/// What is said of a function that cannot be lowered.
pub proof fn lemma_lower_messages(s: Seq<char>, n: u64)
    ensures
        LowerFault::UnknownIdent(s).text() == "unknown identifier `"@ + s + "`"@,
        LowerFault::Unsupported(s).text() == "cannot lower "@ + s,
        LowerFault::DynamicDim.text() == "cannot lower a dynamic dimension"@,
        LowerFault::DimTooLarge(n).text() == "dimension "@ + decimal(n as nat)
            + " does not fit in 32 bits"@,
        LowerFault::MatMulRank.text() == "`@` requires rank-2 tensors"@,
{
}

/// What is said of token ids that have no text.
pub proof fn lemma_token_messages(id: u32, n: nat, s: Seq<char>)
    ensures
        TokFault::InvalidTokenId(id, n as int).text() == "token id "@ + decimal(id as nat)
            + " is out of range (vocab size "@ + decimal(n) + ")"@,
        TokFault::BadUtf8(s).text() == "decoded bytes are not valid UTF-8: "@ + s,
{
}

/// What is said of code that cannot be generated or set up.
pub proof fn lemma_codegen_messages(s: Seq<char>, e: JitError)
    ensures
        CodegenFault::UnsupportedOp(s).text() == "unsupported op: "@ + s,
        CodegenFault::ShapeError(s).text() == "shape constraint violated: "@ + s,
        CodegenFault::NotImplemented.text() == "backend not implemented yet"@,
        CodegenFault::UnsupportedOp(s).debug() == "UnsupportedOp("@ + quoted_text(s) + ")"@,
        CodegenFault::ShapeError(s).debug() == "ShapeError("@ + quoted_text(s) + ")"@,
        CodegenFault::NotImplemented.debug() == "NotImplemented"@,
        ExecError::NotImplemented.text() == "executable memory allocation not implemented yet"@,
        e matches JitError::Codegen(t) ==> e.text() == "codegen failed: "@ + t@,
        e matches JitError::Exec(x) ==> e.text() == "exec region setup failed: "@ + x.text(),
{
}

/// What is said of a file that cannot be read.
pub proof fn lemma_file_messages(e: GgufError)
    ensures
        e matches GgufError::Truncated { needed, at, available } ==> e.text()
            == "truncated file: needed "@ + decimal(needed as nat) + " bytes at offset "@ + decimal(
            at as nat,
        ) + ", got "@ + decimal(available as nat),
        e matches GgufError::BadMagic(m) ==> e.text() == "bad magic — expected `GGUF`, got "@ + ("["@
            + decimal(m@[0] as nat) + ", "@ + decimal(m@[1] as nat) + ", "@ + decimal(m@[2] as nat)
            + ", "@ + decimal(m@[3] as nat) + "]"@),
        e matches GgufError::UnsupportedVersion(v) ==> e.text() == "unsupported version "@ + decimal(
            v as nat,
        ) + " (this build supports v3)"@,
        e matches GgufError::BadKvType(v) ==> e.text() == "bad KV type tag "@ + decimal(v as nat),
        e matches GgufError::UnsupportedTensorType(v) ==> e.text() == "unsupported tensor type tag "@
            + decimal(v as nat),
        e matches GgufError::BadString(at) ==> e.text() == "invalid utf-8 in GGUF string at offset "@
            + decimal(at as nat),
        e matches GgufError::BadAlignment ==> e.text() == "alignment of the data section is zero"@,
        e matches GgufError::NoSuchTensor(s) ==> e.text() == "tensor `"@ + s@ + "` not found"@,
        e matches GgufError::NoSuchKey(s) ==> e.text() == "metadata key `"@ + s@ + "` not found"@,
        e matches GgufError::WrongKvKind { key, expected } ==> e.text() == "metadata key `"@ + key@
            + "` has the wrong type (expected "@ + kv_type_name(expected) + ")"@,
{
}

/// An error with a message, at a place.
pub open spec fn says(d: DiagnosticView, message: Seq<char>, span: Span) -> bool {
    d.severity == Severity::Error && d.message == message && d.span == Some(span)
}

/// Source types in messages, as they are written.
pub proof fn lemma_source_types_in_messages(t: TyView, dims: Seq<DimKind>, d: DimKind, n: u64)
    ensures
        scalar_text(ScalarType::F16) == "f16"@,
        scalar_text(ScalarType::F32) == "f32"@,
        scalar_text(ScalarType::I32) == "i32"@,
        scalar_text(ScalarType::Q4_0) == "q4_0"@,
        scalar_text(ScalarType::Q8_0) == "q8_0"@,
        !t.tensor ==> ty_text(t) == scalar_text(t.elem),
        t.tensor ==> ty_text(t) == "tensor<"@ + scalar_text(t.elem) + ", ["@ + dims_text(t.dims)
            + "]>"@,
        dims_text(Seq::empty()) == Seq::<char>::empty(),
        dims_text(seq![d]) == dim_text(d),
        dims.len() > 0 ==> dims_text(dims.push(d)) == dims_text(dims) + ", "@ + dim_text(d),
        dim_text(DimKind::Static(n)) == decimal(n as nat),
        dim_text(DimKind::Dynamic) == "?"@,
        BinOp::Add.text() == "+"@,
        BinOp::Sub.text() == "-"@,
        BinOp::Mul.text() == "*"@,
        BinOp::Div.text() == "/"@,
        BinOp::MatMul.text() == "@"@,
{
    assert(dims.push(d).drop_last() =~= dims);
}

/// What is said of operands whose types do not go together. For `@` the first of
/// rank, element type and inner dimension that does not fit is named.
pub proof fn lemma_operand_messages(op: BinOp, a: TyView, b: TyView, span: Span)
    ensures
        a != b ==> (same_type(op, a, b, span) matches Err(d) && says(
            d,
            "type mismatch in `"@ + op.text() + "`: "@ + ty_text(a) + " vs "@ + ty_text(b),
            span,
        )),
        ({
            let matrices = a.tensor && b.tensor && a.dims.len() == 2 && b.dims.len() == 2;
            let inner = match (a.dims[1], b.dims[0]) {
                (DimKind::Static(m), DimKind::Static(n)) => m == n,
                _ => true,
            };
            &&& !matrices ==> (matmul_type(a, b, span) matches Err(d) && says(
                d,
                "`@` requires rank-2 tensors, found "@ + ty_text(a) + " and "@ + ty_text(b),
                span,
            ))
            &&& matrices && a.elem != b.elem ==> (matmul_type(a, b, span) matches Err(d) && says(
                d,
                "`@` element type mismatch: "@ + scalar_text(a.elem) + " vs "@ + scalar_text(b.elem),
                span,
            ))
            &&& matrices && a.elem == b.elem && !inner ==> (matmul_type(a, b, span) matches Err(d)
                && says(
                d,
                "`@` inner dimension mismatch: "@ + dim_text(a.dims[1]) + " vs "@ + dim_text(
                    b.dims[0],
                ),
                span,
            ))
        }),
{
}

/// What is said of names that are not there, and of calls with too few or too many
/// arguments.
pub proof fn lemma_name_messages(fs: Seq<FunctionView>, env: Env, e: ExprView)
    ensures
        e.kind matches ExprKindView::Ident(name) ==> (lookup(env, name) is None ==> (infer(
            fs,
            env,
            e,
        ) matches Err(d) && says(d, "unknown identifier `"@ + name + "`"@, e.span))),
        e.kind matches ExprKindView::Call { callee, args } ==> (find(fs, callee.name) is None ==> (
        infer(fs, env, e) matches Err(d) && says(
            d,
            "unknown function `"@ + callee.name + "`"@,
            callee.span,
        ))),
        e.kind matches ExprKindView::Call { callee, args } ==> (find(fs, callee.name) matches Some(f)
            ==> (args.len() != f.params.len() ==> (infer(fs, env, e) matches Err(d) && says(
            d,
            "`"@ + callee.name + "` takes "@ + decimal(f.params.len()) + " arguments, found "@
                + decimal(args.len()),
            e.span,
        )))),
{
}

} // verus!
