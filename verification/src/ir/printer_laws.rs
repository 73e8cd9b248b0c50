//! The printed text tells what it shows.

use crate::float_text::{f32_debug, f32_display};
use crate::ir::module::{Block, Function, Value, ValueId};
use crate::ir::op::{quoted_text, Op};
use crate::ir::printer::{
    blocks_text, dim_text, dims_text, dtype_text, function_text, functions_text, lines_text,
    params_text, type_text, val_text, value_text,
};
use crate::ir::ty::{DType, Dim, TensorTypeView};
use crate::text::{comma_list, decimal, numeral, signed_decimal};
use crate::text_laws::{
    lemma_decimal_digits, lemma_numeral, lemma_take_list, lemma_take_number,
    lemma_take_signed, lemma_take_text, no_digit,
};
use vstd::prelude::*;

verus! {

// ---- types ----------------------------------------------------------------------------

/// The names of the element types.
pub proof fn lemma_dtype_names(d: DType)
    ensures
        dtype_text(DType::F16) == seq!['f', '1', '6'],
        dtype_text(DType::F32) == seq!['f', '3', '2'],
        dtype_text(DType::I32) == seq!['i', '3', '2'],
        dtype_text(DType::Q4_0) == seq!['q', '4', '_', '0'],
        dtype_text(DType::Q8_0) == seq!['q', '8', '_', '0'],
        forall|i: int| 0 <= i < dtype_text(d).len() ==> #[trigger] dtype_text(d)[i] != '"',
{
    reveal_strlit("f16");
    reveal_strlit("f32");
    reveal_strlit("i32");
    reveal_strlit("q4_0");
    reveal_strlit("q8_0");
    assert("f16"@ =~= seq!['f', '1', '6']);
    assert("f32"@ =~= seq!['f', '3', '2']);
    assert("i32"@ =~= seq!['i', '3', '2']);
    assert("q4_0"@ =~= seq!['q', '4', '_', '0']);
    assert("q8_0"@ =~= seq!['q', '8', '_', '0']);
}

proof fn lemma_take_dtype(a: DType, x: Seq<char>, b: DType, y: Seq<char>)
    requires
        dtype_text(a) + x == dtype_text(b) + y,
    ensures
        a == b,
        x == y,
{
    lemma_dtype_names(a);
    lemma_dtype_names(b);
    let (s, t) = (dtype_text(a) + x, dtype_text(b) + y);
    assert(s[0] == dtype_text(a)[0] && s[1] == dtype_text(a)[1]);
    assert(t[0] == dtype_text(b)[0] && t[1] == dtype_text(b)[1]);
    lemma_take_text(dtype_text(a), x, y);
}

/// A dimension at the start of a text can be read off it.
proof fn lemma_take_dim(a: Dim, x: Seq<char>, b: Dim, y: Seq<char>)
    requires
        dim_text(a) + x == dim_text(b) + y,
        no_digit(x),
        no_digit(y),
    ensures
        a == b,
        x == y,
{
    reveal_strlit("?");
    let (s, t) = (dim_text(a) + x, dim_text(b) + y);
    let value = |d: Dim|
        match d {
            Dim::Static(v) => v as nat,
            Dim::Dynamic(v) => v as nat,
        };
    lemma_decimal_digits(value(a));
    lemma_decimal_digits(value(b));
    if a is Static {
        assert(s[0] == decimal(value(a))[0]);
    } else {
        assert(s[0] == '?');
        assert(s =~= "?"@ + (decimal(value(a)) + x));
    }
    if b is Static {
        assert(t[0] == decimal(value(b))[0]);
    } else {
        assert(t[0] == '?');
        assert(t =~= "?"@ + (decimal(value(b)) + y));
    }
    if a is Dynamic {
        lemma_take_text("?"@, decimal(value(a)) + x, decimal(value(b)) + y);
    }
    lemma_take_number(value(a), x, value(b), y);
}

proof fn lemma_dims_first(dims: Seq<Dim>)
    requires
        dims.len() > 0,
    ensures
        dims_text(dims) == dim_text(dims[0]) + if dims.len() == 1 {
            Seq::empty()
        } else {
            ", "@ + dims_text(dims.drop_first())
        },
    decreases dims.len(),
{
    if dims.len() == 1 {
        assert(dim_text(dims[0]) + Seq::empty() =~= dim_text(dims[0]));
    } else {
        let before = dims.drop_last();
        lemma_dims_first(before);
        let rest = dims.drop_first();
        assert(rest.drop_last() =~= before.drop_first());
        if dims.len() > 2 {
            assert(dims_text(rest) == dims_text(rest.drop_last()) + ", "@ + dim_text(rest.last()));
        }
        assert(dims_text(dims) =~= dim_text(dims[0]) + (", "@ + dims_text(rest)));
    }
}

/// Dimensions up to the closing bracket can be read off a text.
proof fn lemma_take_dims(a: Seq<Dim>, x: Seq<char>, b: Seq<Dim>, y: Seq<char>)
    requires
        dims_text(a) + seq![']'] + x == dims_text(b) + seq![']'] + y,
    ensures
        a == b,
        x == y,
    decreases a.len(),
{
    reveal_strlit(", ");
    reveal_strlit("?");
    let close = seq![']'];
    let s = dims_text(a) + close + x;
    let t = dims_text(b) + close + y;
    if a.len() > 0 {
        lemma_dims_first(a);
        lemma_dim_start(a[0]);
        assert(s[0] == dim_text(a[0])[0]);
    } else {
        assert(s[0] == ']');
    }
    if b.len() > 0 {
        lemma_dims_first(b);
        lemma_dim_start(b[0]);
        assert(t[0] == dim_text(b[0])[0]);
    } else {
        assert(t[0] == ']');
    }
    if a.len() == 0 {
        assert(s =~= close + x);
        assert(t =~= close + y);
        lemma_take_text(close, x, y);
        assert(a =~= b);
    } else {
        let (ra, rb) = (
            if a.len() == 1 {
                close + x
            } else {
                ", "@ + (dims_text(a.drop_first()) + close + x)
            },
            if b.len() == 1 {
                close + y
            } else {
                ", "@ + (dims_text(b.drop_first()) + close + y)
            },
        );
        assert(s =~= dim_text(a[0]) + ra);
        assert(t =~= dim_text(b[0]) + rb);
        lemma_take_dim(a[0], ra, b[0], rb);
        assert(a.len() == 1 ==> ra[0] == ']');
        assert(b.len() == 1 ==> rb[0] == ']');
        assert(a.len() > 1 ==> ra[0] == ',');
        assert(b.len() > 1 ==> rb[0] == ',');
        if a.len() == 1 {
            lemma_take_text(close, x, y);
            assert(a =~= b);
        } else {
            lemma_take_text(
                ", "@,
                dims_text(a.drop_first()) + close + x,
                dims_text(b.drop_first()) + close + y,
            );
            lemma_take_dims(a.drop_first(), x, b.drop_first(), y);
            assert(a =~= seq![a[0]] + a.drop_first());
            assert(b =~= seq![b[0]] + b.drop_first());
        }
    }
}

proof fn lemma_dim_start(d: Dim)
    ensures
        dim_text(d).len() > 0,
        dim_text(d)[0] == '?' || '0' <= dim_text(d)[0] <= '9',
        forall|i: int| 0 <= i < dim_text(d).len() ==> #[trigger] dim_text(d)[i] != '"',
{
    reveal_strlit("?");
    let v = match d {
        Dim::Static(v) => v as nat,
        Dim::Dynamic(v) => v as nat,
    };
    lemma_decimal_digits(v);
}

/// A type at the start of a text can be read off it: its text tells the element
/// type and every dimension.
pub proof fn lemma_take_type(a: TensorTypeView, x: Seq<char>, b: TensorTypeView, y: Seq<char>)
    requires
        type_text(a) + x == type_text(b) + y,
    ensures
        a == b,
        x == y,
{
    reveal_strlit("]>");
    let close = seq![']'];
    let (xa, xb) = (seq!['>'] + x, seq!['>'] + y);
    let (da, db) = (dims_text(a.dims) + close + xa, dims_text(b.dims) + close + xb);
    assert(type_text(a) + x =~= "tensor<"@ + (dtype_text(a.dtype) + (", ["@ + da)));
    assert(type_text(b) + y =~= "tensor<"@ + (dtype_text(b.dtype) + (", ["@ + db)));
    lemma_take_text(
        "tensor<"@,
        dtype_text(a.dtype) + (", ["@ + da),
        dtype_text(b.dtype) + (", ["@ + db),
    );
    lemma_take_dtype(a.dtype, ", ["@ + da, b.dtype, ", ["@ + db);
    lemma_take_text(", ["@, da, db);
    lemma_take_dims(a.dims, xa, b.dims, xb);
    lemma_take_text(seq!['>'], x, y);
}

/// How a type is written.
pub proof fn lemma_type_written(d: DType, first: Dim, more: Seq<Dim>)
    ensures
        type_text(TensorTypeView { dtype: d, dims: Seq::empty() }) == "tensor<"@ + dtype_text(d)
            + ", []>"@,
        type_text(TensorTypeView { dtype: d, dims: seq![first] + more }) == "tensor<"@ + dtype_text(
            d,
        ) + ", ["@ + dim_text(first) + (if more.len() == 0 {
            Seq::empty()
        } else {
            ", "@ + dims_text(more)
        }) + "]>"@,
        forall|v: u32| #[trigger] dim_text(Dim::Static(v)) == decimal(v as nat),
        forall|v: u32| #[trigger] dim_text(Dim::Dynamic(v)) == seq!['?'] + decimal(v as nat),
{
    reveal_strlit(", []>");
    reveal_strlit(", [");
    reveal_strlit("]>");
    reveal_strlit("?");
    assert("?"@ =~= seq!['?']);
    let none = Seq::<Dim>::empty();
    assert(type_text(TensorTypeView { dtype: d, dims: none }) =~= "tensor<"@ + dtype_text(d)
        + ", []>"@);
    let dims = seq![first] + more;
    lemma_dims_first(dims);
    assert(dims.drop_first() =~= more);
    assert(type_text(TensorTypeView { dtype: d, dims }) =~= "tensor<"@ + dtype_text(d) + ", ["@
        + dim_text(first) + (if more.len() == 0 {
        Seq::empty()
    } else {
        ", "@ + dims_text(more)
    }) + "]>"@);
}

proof fn lemma_no_quote_in_dims(dims: Seq<Dim>)
    ensures
        forall|i: int| 0 <= i < dims_text(dims).len() ==> #[trigger] dims_text(dims)[i] != '"',
    decreases dims.len(),
{
    reveal_strlit(", ");
    if dims.len() == 1 {
        lemma_dim_start(dims[0]);
    } else if dims.len() > 1 {
        let before = dims.drop_last();
        lemma_no_quote_in_dims(before);
        lemma_dim_start(dims.last());
        let s = dims_text(dims);
        assert forall|i: int| 0 <= i < s.len() implies #[trigger] s[i] != '"' by {
            let n = dims_text(before).len() as int;
            if i < n {
                assert(s[i] == dims_text(before)[i]);
            } else if i < n + 2 {
                assert(s[i] == ", "@[i - n]);
            } else {
                assert(s[i] == dim_text(dims.last())[i - n - 2]);
            }
        }
    }
}

proof fn lemma_no_quote_in_type(t: TensorTypeView)
    ensures
        forall|i: int| 0 <= i < type_text(t).len() ==> #[trigger] type_text(t)[i] != '"',
{
    reveal_strlit("tensor<");
    reveal_strlit(", [");
    reveal_strlit("]>");
    lemma_dtype_names(t.dtype);
    lemma_no_quote_in_dims(t.dims);
    let s = type_text(t);
    let d = dtype_text(t.dtype);
    let m = dims_text(t.dims);
    assert forall|i: int| 0 <= i < s.len() implies #[trigger] s[i] != '"' by {
        let (n, k) = (d.len() as int, m.len() as int);
        if i < 7 {
            assert(s[i] == "tensor<"@[i]);
        } else if i < 7 + n {
            assert(s[i] == d[i - 7]);
        } else if i < 10 + n {
            assert(s[i] == ", ["@[i - 7 - n]);
        } else if i < 10 + n + k {
            assert(s[i] == m[i - 10 - n]);
        } else {
            assert(s[i] == "]>"@[i - 10 - n - k]);
        }
    }
}

// ---- lines ----------------------------------------------------------------------------

/// The mnemonic of an operation.
pub open spec fn mnemonic(op: Op) -> Seq<char> {
    match op {
        Op::Param { .. } => "param"@,
        Op::LoadWeight { .. } => "load_weight"@,
        Op::LoadInput { .. } => "load_input"@,
        Op::Constant { .. } => "const"@,
        Op::MatMul { .. } => "matmul"@,
        Op::Add { .. } => "add"@,
        Op::Mul { .. } => "mul"@,
        Op::Silu { .. } => "silu"@,
        Op::Gelu { .. } => "gelu"@,
        Op::Softmax { .. } => "softmax"@,
        Op::RmsNorm { .. } => "rms_norm"@,
        Op::Rope { .. } => "rope"@,
        Op::Reshape { .. } => "reshape"@,
        Op::Transpose { .. } => "transpose"@,
        Op::Dequantize { .. } => "dequantize"@,
        Op::Quantize { .. } => "quantize"@,
        Op::Return { .. } => "return"@,
    }
}

/// What follows the mnemonic.
pub open spec fn operands(ty: TensorTypeView, op: Op) -> Seq<char> {
    match op {
        Op::Param { index } => decimal(index as nat) + (" : "@ + type_text(ty)),
        Op::LoadWeight { name } => "@\""@ + (name@ + seq!['"'] + (" : "@ + type_text(ty))),
        Op::LoadInput { index } => decimal(index as nat) + (" : "@ + type_text(ty)),
        Op::Constant { bits } => "0x"@ + (numeral(bits as nat, 16) + (" : "@ + type_text(ty))),
        Op::MatMul { lhs, rhs } => two_operands(ty, lhs, rhs),
        Op::Add { lhs, rhs } => two_operands(ty, lhs, rhs),
        Op::Mul { lhs, rhs } => two_operands(ty, lhs, rhs),
        Op::Silu { x } => val_text(x),
        Op::Gelu { x } => val_text(x),
        Op::Softmax { x, axis } => val_text(x) + (", axis="@ + signed_decimal(axis as int)),
        Op::RmsNorm { x, weight, eps } => val_text(x) + (", "@ + (val_text(weight) + (", eps="@
            + f32_display(eps)))),
        Op::Rope { x, positions, base } => val_text(x) + (", "@ + (val_text(positions) + (
        ", base="@ + f32_display(base)))),
        Op::Reshape { x, new_shape } => val_text(x) + (" to ["@ + (comma_list(new_shape@) + "]"@)),
        Op::Transpose { x, perm } => val_text(x) + (" perm=["@ + (comma_list(perm@) + "]"@)),
        Op::Dequantize { x } => val_text(x) + (" : "@ + type_text(ty)),
        Op::Quantize { x, target } => val_text(x) + (" to "@ + (dtype_text(target) + (" : "@
            + type_text(ty)))),
        Op::Return { value } => val_text(value),
    }
}

/// Two operands and the type.
pub open spec fn two_operands(ty: TensorTypeView, lhs: ValueId, rhs: ValueId) -> Seq<char> {
    val_text(lhs) + (", "@ + (val_text(rhs) + (" : "@ + type_text(ty))))
}

/// The mnemonics have no blank, and no two operations have the same.
proof fn lemma_mnemonics(a: Op, b: Op)
    ensures
        forall|i: int| 0 <= i < mnemonic(a).len() ==> #[trigger] mnemonic(a)[i] != ' ',
        mnemonic(a).len() > 0,
        mnemonic(a) == mnemonic(b) ==> same_kind(a, b),
{
    reveal_strlit("param");
    reveal_strlit("load_weight");
    reveal_strlit("load_input");
    reveal_strlit("const");
    reveal_strlit("matmul");
    reveal_strlit("add");
    reveal_strlit("mul");
    reveal_strlit("silu");
    reveal_strlit("gelu");
    reveal_strlit("softmax");
    reveal_strlit("rms_norm");
    reveal_strlit("rope");
    reveal_strlit("reshape");
    reveal_strlit("transpose");
    reveal_strlit("dequantize");
    reveal_strlit("quantize");
    reveal_strlit("return");
    if mnemonic(a) == mnemonic(b) {
        assert(mnemonic(a)[0] == mnemonic(b)[0]);
        assert(mnemonic(a).len() == mnemonic(b).len());
    }
}

/// The two operations are of the same kind.
pub open spec fn same_kind(a: Op, b: Op) -> bool {
    match (a, b) {
        (Op::Param { .. }, Op::Param { .. }) => true,
        (Op::LoadWeight { .. }, Op::LoadWeight { .. }) => true,
        (Op::LoadInput { .. }, Op::LoadInput { .. }) => true,
        (Op::Constant { .. }, Op::Constant { .. }) => true,
        (Op::MatMul { .. }, Op::MatMul { .. }) => true,
        (Op::Add { .. }, Op::Add { .. }) => true,
        (Op::Mul { .. }, Op::Mul { .. }) => true,
        (Op::Silu { .. }, Op::Silu { .. }) => true,
        (Op::Gelu { .. }, Op::Gelu { .. }) => true,
        (Op::Softmax { .. }, Op::Softmax { .. }) => true,
        (Op::RmsNorm { .. }, Op::RmsNorm { .. }) => true,
        (Op::Rope { .. }, Op::Rope { .. }) => true,
        (Op::Reshape { .. }, Op::Reshape { .. }) => true,
        (Op::Transpose { .. }, Op::Transpose { .. }) => true,
        (Op::Dequantize { .. }, Op::Dequantize { .. }) => true,
        (Op::Quantize { .. }, Op::Quantize { .. }) => true,
        (Op::Return { .. }, Op::Return { .. }) => true,
        _ => false,
    }
}

/// A line starts with the id of the value, an equals sign and the mnemonic of the
/// operation. That of a return has no id.
pub proof fn lemma_line_starts(id: ValueId, ty: TensorTypeView, op: Op) -> (rest: Seq<char>)
    ensures
        op is Return ==> value_text(id, ty, op) == "return "@ + rest,
        !(op is Return) ==> value_text(id, ty, op) == seq!['%'] + decimal(id.0 as nat) + " = "@
            + mnemonic(op) + " "@ + rest,
        rest == operands(ty, op),
{
    lemma_heads();
    let rest = operands(ty, op);
    let head = val_text(id);
    reveal_strlit("%");
    assert("%"@ =~= seq!['%']);
    assert(head == seq!['%'] + decimal(id.0 as nat));
    lemma_value_parts(id, ty, op);
    if !(op is Return) {
        match op {
            Op::LoadWeight { name } => {
                let (x, y) = ("@\""@, name@ + seq!['"'] + (" : "@ + type_text(ty)));
                let z = " = "@ + "load_weight"@ + " "@;
                lemma_assoc(name@, seq!['"'], " : "@ + type_text(ty));
                lemma_assoc(seq!['"'], " : "@, type_text(ty));
                lemma_assoc(z, x, y);
                lemma_head_parts(head, "load_weight"@, rest);
            },
            Op::Constant { bits } => {
                let z = " = "@ + "const"@ + " "@;
                lemma_assoc(z, "0x"@, numeral(bits as nat, 16) + (" : "@ + type_text(ty)));
                lemma_head_parts(head, "const"@, rest);
            },
            _ => {
                lemma_head_parts(head, mnemonic(op), rest);
            },
        }
    }
    rest
}

proof fn lemma_assoc(a: Seq<char>, b: Seq<char>, c: Seq<char>)
    ensures
        a + b + c == a + (b + c),
{
    assert(a + b + c =~= a + (b + c));
}

proof fn lemma_head_parts(head: Seq<char>, m: Seq<char>, rest: Seq<char>)
    ensures
        head + ((" = "@ + m + " "@) + rest) == head + " = "@ + m + " "@ + rest,
{
    assert(head + ((" = "@ + m + " "@) + rest) =~= head + " = "@ + m + " "@ + rest);
}

/// The text between the id and the operands.
spec fn line_head(op: Op) -> Seq<char> {
    match op {
        Op::LoadWeight { .. } => " = load_weight @\""@,
        Op::Constant { .. } => " = const 0x"@,
        _ => " = "@ + mnemonic(op) + " "@,
    }
}

/// The operands behind that text.
spec fn line_tail(ty: TensorTypeView, op: Op) -> Seq<char> {
    match op {
        Op::LoadWeight { name } => name@ + ("\" : "@ + type_text(ty)),
        Op::Constant { bits } => numeral(bits as nat, 16) + (" : "@ + type_text(ty)),
        _ => operands(ty, op),
    }
}

proof fn lemma_value_parts(id: ValueId, ty: TensorTypeView, op: Op)
    ensures
        op is Return ==> value_text(id, ty, op) == "return "@ + operands(ty, op),
        !(op is Return) ==> value_text(id, ty, op) == val_text(id) + (line_head(op) + line_tail(
            ty,
            op,
        )),
{
    lemma_heads();
    let h = val_text(id);
    let t = type_text(ty);
    let l = line_head(op);
    match op {
        Op::Return { value } => {},
        Op::LoadWeight { name } => {
            lemma_four(h, l, name@, "\" : "@, t);
        },
        Op::Constant { bits } => {
            lemma_four(h, l, numeral(bits as nat, 16), " : "@, t);
        },
        Op::Param { index } => {
            lemma_four(h, l, decimal(index as nat), " : "@, t);
        },
        Op::LoadInput { index } => {
            lemma_four(h, l, decimal(index as nat), " : "@, t);
        },
        Op::Dequantize { x } => {
            lemma_four(h, l, val_text(x), " : "@, t);
        },
        Op::MatMul { lhs, rhs } => {
            lemma_six(h, l, val_text(lhs), ", "@, val_text(rhs), " : "@, t);
        },
        Op::Add { lhs, rhs } => {
            lemma_six(h, l, val_text(lhs), ", "@, val_text(rhs), " : "@, t);
        },
        Op::Mul { lhs, rhs } => {
            lemma_six(h, l, val_text(lhs), ", "@, val_text(rhs), " : "@, t);
        },
        Op::Silu { x } => {
            lemma_assoc(h, l, val_text(x));
        },
        Op::Gelu { x } => {
            lemma_assoc(h, l, val_text(x));
        },
        Op::Softmax { x, axis } => {
            lemma_four(h, l, val_text(x), ", axis="@, signed_decimal(axis as int));
        },
        Op::RmsNorm { x, weight, eps } => {
            lemma_six(h, l, val_text(x), ", "@, val_text(weight), ", eps="@, f32_display(eps));
        },
        Op::Rope { x, positions, base } => {
            lemma_six(h, l, val_text(x), ", "@, val_text(positions), ", base="@, f32_display(base));
        },
        Op::Reshape { x, new_shape } => {
            lemma_five(h, l, val_text(x), " to ["@, comma_list(new_shape@), "]"@);
        },
        Op::Transpose { x, perm } => {
            lemma_five(h, l, val_text(x), " perm=["@, comma_list(perm@), "]"@);
        },
        Op::Quantize { x, target } => {
            lemma_six(h, l, val_text(x), " to "@, dtype_text(target), " : "@, t);
        },
    }
}

proof fn lemma_four(h: Seq<char>, l: Seq<char>, a: Seq<char>, b: Seq<char>, c: Seq<char>)
    ensures
        h + l + a + b + c == h + (l + (a + (b + c))),
{
    assert(h + l + a + b + c =~= h + (l + (a + (b + c))));
}

proof fn lemma_five(
    h: Seq<char>,
    l: Seq<char>,
    a: Seq<char>,
    b: Seq<char>,
    c: Seq<char>,
    d: Seq<char>,
)
    ensures
        h + l + a + b + c + d == h + (l + (a + (b + (c + d)))),
{
    lemma_four(h, l, a, b, c);
    assert(h + (l + (a + (b + c))) + d =~= h + (l + (a + (b + (c + d)))));
}

proof fn lemma_six(
    h: Seq<char>,
    l: Seq<char>,
    a: Seq<char>,
    b: Seq<char>,
    c: Seq<char>,
    d: Seq<char>,
    e: Seq<char>,
)
    ensures
        h + l + a + b + c + d + e == h + (l + (a + (b + (c + (d + e))))),
{
    lemma_five(h, l, a, b, c, d);
    assert(h + (l + (a + (b + (c + d)))) + e =~= h + (l + (a + (b + (c + (d + e))))));
}

/// The texts that the lines start with.
proof fn lemma_heads()
    ensures
        " = param "@ == " = "@ + "param"@ + " "@,
        " = load_input "@ == " = "@ + "load_input"@ + " "@,
        " = matmul "@ == " = "@ + "matmul"@ + " "@,
        " = add "@ == " = "@ + "add"@ + " "@,
        " = mul "@ == " = "@ + "mul"@ + " "@,
        " = silu "@ == " = "@ + "silu"@ + " "@,
        " = gelu "@ == " = "@ + "gelu"@ + " "@,
        " = softmax "@ == " = "@ + "softmax"@ + " "@,
        " = rms_norm "@ == " = "@ + "rms_norm"@ + " "@,
        " = rope "@ == " = "@ + "rope"@ + " "@,
        " = reshape "@ == " = "@ + "reshape"@ + " "@,
        " = transpose "@ == " = "@ + "transpose"@ + " "@,
        " = dequantize "@ == " = "@ + "dequantize"@ + " "@,
        " = quantize "@ == " = "@ + "quantize"@ + " "@,
        " = load_weight @\""@ == " = "@ + "load_weight"@ + " "@ + "@\""@,
        " = const 0x"@ == " = "@ + "const"@ + " "@ + "0x"@,
        "\" : "@ == seq!['"'] + " : "@,
{
    reveal_strlit(" = ");
    reveal_strlit(" ");
    reveal_strlit(" = param ");
    reveal_strlit("param");
    assert(" = param "@ =~= " = "@ + "param"@ + " "@);
    reveal_strlit(" = load_input ");
    reveal_strlit("load_input");
    assert(" = load_input "@ =~= " = "@ + "load_input"@ + " "@);
    reveal_strlit(" = matmul ");
    reveal_strlit("matmul");
    assert(" = matmul "@ =~= " = "@ + "matmul"@ + " "@);
    reveal_strlit(" = add ");
    reveal_strlit("add");
    assert(" = add "@ =~= " = "@ + "add"@ + " "@);
    reveal_strlit(" = mul ");
    reveal_strlit("mul");
    assert(" = mul "@ =~= " = "@ + "mul"@ + " "@);
    reveal_strlit(" = silu ");
    reveal_strlit("silu");
    assert(" = silu "@ =~= " = "@ + "silu"@ + " "@);
    reveal_strlit(" = gelu ");
    reveal_strlit("gelu");
    assert(" = gelu "@ =~= " = "@ + "gelu"@ + " "@);
    reveal_strlit(" = softmax ");
    reveal_strlit("softmax");
    assert(" = softmax "@ =~= " = "@ + "softmax"@ + " "@);
    reveal_strlit(" = rms_norm ");
    reveal_strlit("rms_norm");
    assert(" = rms_norm "@ =~= " = "@ + "rms_norm"@ + " "@);
    reveal_strlit(" = rope ");
    reveal_strlit("rope");
    assert(" = rope "@ =~= " = "@ + "rope"@ + " "@);
    reveal_strlit(" = reshape ");
    reveal_strlit("reshape");
    assert(" = reshape "@ =~= " = "@ + "reshape"@ + " "@);
    reveal_strlit(" = transpose ");
    reveal_strlit("transpose");
    assert(" = transpose "@ =~= " = "@ + "transpose"@ + " "@);
    reveal_strlit(" = dequantize ");
    reveal_strlit("dequantize");
    assert(" = dequantize "@ =~= " = "@ + "dequantize"@ + " "@);
    reveal_strlit(" = quantize ");
    reveal_strlit("quantize");
    assert(" = quantize "@ =~= " = "@ + "quantize"@ + " "@);
    reveal_strlit(" = load_weight @\"");
    reveal_strlit("load_weight");
    reveal_strlit("@\"");
    assert(" = load_weight @\""@ =~= " = "@ + "load_weight"@ + " "@ + "@\""@);
    reveal_strlit(" = const 0x");
    reveal_strlit("const");
    reveal_strlit("0x");
    assert(" = const 0x"@ =~= " = "@ + "const"@ + " "@ + "0x"@);
    reveal_strlit("\" : ");
    reveal_strlit(" : ");
    assert("\" : "@ =~= seq!['"'] + " : "@);
}

/// What a line shows of two operations is the same: their kind, their operands,
/// and the texts of their fp32 constants.
pub open spec fn same_shown(a: Op, b: Op) -> bool {
    match (a, b) {
        (Op::Param { index: i }, Op::Param { index: j }) => i == j,
        (Op::LoadWeight { name: m }, Op::LoadWeight { name: n }) => m@ == n@,
        (Op::LoadInput { index: i }, Op::LoadInput { index: j }) => i == j,
        (Op::Constant { bits: i }, Op::Constant { bits: j }) => i == j,
        (Op::MatMul { lhs: l1, rhs: r1 }, Op::MatMul { lhs: l2, rhs: r2 }) => l1 == l2 && r1 == r2,
        (Op::Add { lhs: l1, rhs: r1 }, Op::Add { lhs: l2, rhs: r2 }) => l1 == l2 && r1 == r2,
        (Op::Mul { lhs: l1, rhs: r1 }, Op::Mul { lhs: l2, rhs: r2 }) => l1 == l2 && r1 == r2,
        (Op::Silu { x: x1 }, Op::Silu { x: x2 }) => x1 == x2,
        (Op::Gelu { x: x1 }, Op::Gelu { x: x2 }) => x1 == x2,
        (Op::Softmax { x: x1, axis: i }, Op::Softmax { x: x2, axis: j }) => x1 == x2 && i == j,
        (
            Op::RmsNorm { x: x1, weight: w1, eps: e1 },
            Op::RmsNorm { x: x2, weight: w2, eps: e2 },
        ) => x1 == x2 && w1 == w2 && f32_display(e1) == f32_display(e2),
        (
            Op::Rope { x: x1, positions: p1, base: b1 },
            Op::Rope { x: x2, positions: p2, base: b2 },
        ) => x1 == x2 && p1 == p2 && f32_display(b1) == f32_display(b2),
        (Op::Reshape { x: x1, new_shape: s1 }, Op::Reshape { x: x2, new_shape: s2 }) => x1 == x2
            && s1@ == s2@,
        (Op::Transpose { x: x1, perm: s1 }, Op::Transpose { x: x2, perm: s2 }) => x1 == x2 && s1@
            == s2@,
        (Op::Dequantize { x: x1 }, Op::Dequantize { x: x2 }) => x1 == x2,
        (Op::Quantize { x: x1, target: t1 }, Op::Quantize { x: x2, target: t2 }) => x1 == x2 && t1
            == t2,
        (Op::Return { value: v1 }, Op::Return { value: v2 }) => v1 == v2,
        _ => false,
    }
}

/// Whether the line of an operation shows its type.
pub open spec fn shows_type(op: Op) -> bool {
    op is Param || op is LoadWeight || op is LoadInput || op is Constant || op is MatMul
        || op is Add || op is Mul || op is Dequantize || op is Quantize
}

proof fn lemma_take_val(a: ValueId, x: Seq<char>, b: ValueId, y: Seq<char>)
    requires
        val_text(a) + x == val_text(b) + y,
        no_digit(x),
        no_digit(y),
    ensures
        a == b,
        x == y,
{
    let (p, q) = (decimal(a.0 as nat) + x, decimal(b.0 as nat) + y);
    assert(val_text(a) + x =~= "%"@ + p);
    assert(val_text(b) + y =~= "%"@ + q);
    lemma_take_text("%"@, p, q);
    lemma_take_number(a.0 as nat, x, b.0 as nat, y);
}

/// A word up to a blank can be read off a text.
proof fn lemma_take_word(a: Seq<char>, x: Seq<char>, b: Seq<char>, y: Seq<char>)
    requires
        a + seq![' '] + x == b + seq![' '] + y,
        forall|i: int| 0 <= i < a.len() ==> #[trigger] a[i] != ' ',
        forall|i: int| 0 <= i < b.len() ==> #[trigger] b[i] != ' ',
    ensures
        a == b,
        x == y,
{
    let (s, t) = (a + seq![' '] + x, b + seq![' '] + y);
    let (n, m) = (a.len() as int, b.len() as int);
    assert(s[n] == ' ' && t[m] == ' ');
    if n < m {
        assert(t[n] == b[n]);
    } else if m < n {
        assert(s[m] == a[m]);
    }
    assert(a =~= s.subrange(0, n));
    assert(b =~= t.subrange(0, n));
    lemma_take_text(a + seq![' '], x, y);
}

/// A hexadecimal number up to a blank can be read off a text.
proof fn lemma_take_hex(a: nat, x: Seq<char>, b: nat, y: Seq<char>)
    requires
        numeral(a, 16) + x == numeral(b, 16) + y,
        x.len() > 0 && x[0] == ' ',
        y.len() > 0 && y[0] == ' ',
    ensures
        a == b,
        x == y,
{
    lemma_numeral(a, 16);
    lemma_numeral(b, 16);
    let (s, t) = (numeral(a, 16), numeral(b, 16));
    let (x1, y1) = (x.drop_first(), y.drop_first());
    assert(s + seq![' '] + x1 =~= s + x);
    assert(t + seq![' '] + y1 =~= t + y);
    lemma_take_word(s, x1, t, y1);
    assert(x =~= seq![' '] + x1);
    assert(y =~= seq![' '] + y1);
}

/// What stands after the last quote of a text can be read off its end.
proof fn lemma_take_quoted(a: Seq<char>, x: Seq<char>, b: Seq<char>, y: Seq<char>)
    requires
        a + seq!['"'] + x == b + seq!['"'] + y,
        forall|i: int| 0 <= i < x.len() ==> #[trigger] x[i] != '"',
        forall|i: int| 0 <= i < y.len() ==> #[trigger] y[i] != '"',
    ensures
        a == b,
        x == y,
{
    let (s, t) = (a + seq!['"'] + x, b + seq!['"'] + y);
    let (n, m) = (a.len() as int, b.len() as int);
    assert(s == t);
    assert(s.len() == n + 1 + x.len() && t.len() == m + 1 + y.len());
    assert(s[n] == '"' && t[m] == '"');
    if n < m {
        assert(s[m] == x[m - n - 1]);
    } else if m < n {
        assert(t[n] == y[n - m - 1]);
    }
    assert(a =~= s.subrange(0, n));
    assert(b =~= t.subrange(0, n));
    lemma_take_text(a + seq!['"'], x, y);
}

proof fn lemma_take_shown_type(a: TensorTypeView, b: TensorTypeView)
    requires
        " : "@ + type_text(a) == " : "@ + type_text(b),
    ensures
        a == b,
{
    lemma_take_text(" : "@, type_text(a), type_text(b));
    let none = Seq::<char>::empty();
    assert(type_text(a) + none =~= type_text(a));
    assert(type_text(b) + none =~= type_text(b));
    lemma_take_type(a, none, b, none);
}

/// The line of a value tells the value: where two lines are the same, so are the
/// operations, their operands, the ids (but for a return, which has none), and
/// the types that they show.
pub proof fn lemma_line_tells(
    id1: ValueId,
    ty1: TensorTypeView,
    op1: Op,
    id2: ValueId,
    ty2: TensorTypeView,
    op2: Op,
)
    requires
        value_text(id1, ty1, op1) == value_text(id2, ty2, op2),
    ensures
        same_shown(op1, op2),
        !(op1 is Return) ==> id1 == id2,
        shows_type(op1) ==> ty1 == ty2,
{
    let r1 = lemma_line_starts(id1, ty1, op1);
    let r2 = lemma_line_starts(id2, ty2, op2);
    let (s, t) = (value_text(id1, ty1, op1), value_text(id2, ty2, op2));
    reveal_strlit("return ");
    reveal_strlit(" = ");
    reveal_strlit(" ");
    assert(" "@ =~= seq![' ']);
    if op1 is Return {
        assert(s[0] == 'r');
    } else {
        assert(s[0] == '%');
    }
    if op2 is Return {
        assert(t[0] == 'r');
    } else {
        assert(t[0] == '%');
    }
    if op1 is Return {
        lemma_take_text("return "@, r1, r2);
    } else {
        let (m1, m2) = (mnemonic(op1), mnemonic(op2));
        let (w1, w2) = (m1 + seq![' '] + r1, m2 + seq![' '] + r2);
        let (n1, n2) = (
            decimal(id1.0 as nat) + (" = "@ + w1),
            decimal(id2.0 as nat) + (" = "@ + w2),
        );
        lemma_line_split(seq!['%'], decimal(id1.0 as nat), " = "@, m1, seq![' '], r1);
        lemma_line_split(seq!['%'], decimal(id2.0 as nat), " = "@, m2, seq![' '], r2);
        lemma_take_text(seq!['%'], n1, n2);
        lemma_take_number(id1.0 as nat, " = "@ + w1, id2.0 as nat, " = "@ + w2);
        lemma_take_text(" = "@, w1, w2);
        lemma_mnemonics(op1, op2);
        lemma_mnemonics(op2, op1);
        lemma_take_word(m1, r1, m2, r2);
    }
    lemma_operands_tell(ty1, op1, ty2, op2);
}

proof fn lemma_line_split(
    p: Seq<char>,
    d: Seq<char>,
    e: Seq<char>,
    m: Seq<char>,
    b: Seq<char>,
    r: Seq<char>,
)
    ensures
        p + d + e + m + b + r == p + (d + (e + (m + b + r))),
{
    assert(p + d + e + m + b + r =~= p + (d + (e + (m + b + r))));
}

proof fn lemma_operands_tell(ty1: TensorTypeView, op1: Op, ty2: TensorTypeView, op2: Op)
    requires
        same_kind(op1, op2),
        operands(ty1, op1) == operands(ty2, op2),
    ensures
        same_shown(op1, op2),
        shows_type(op1) ==> ty1 == ty2,
{
    reveal_strlit(" : ");
    reveal_strlit(", ");
    reveal_strlit(", axis=");
    reveal_strlit(", eps=");
    reveal_strlit(", base=");
    reveal_strlit(" to [");
    reveal_strlit(" perm=[");
    reveal_strlit(" to ");
    reveal_strlit("]");
    let none = Seq::<char>::empty();
    let (e1, e2) = (" : "@ + type_text(ty1), " : "@ + type_text(ty2));
    match (op1, op2) {
        (Op::Param { index: i }, Op::Param { index: j }) => {
            lemma_take_number(i as nat, e1, j as nat, e2);
            lemma_take_shown_type(ty1, ty2);
        },
        (Op::LoadInput { index: i }, Op::LoadInput { index: j }) => {
            lemma_take_number(i as nat, e1, j as nat, e2);
            lemma_take_shown_type(ty1, ty2);
        },
        (Op::LoadWeight { name: m }, Op::LoadWeight { name: n }) => {
            lemma_take_text("@\""@, m@ + seq!['"'] + e1, n@ + seq!['"'] + e2);
            lemma_no_quote_in_type(ty1);
            lemma_no_quote_in_type(ty2);
            assert forall|i: int| 0 <= i < e1.len() implies #[trigger] e1[i] != '"' by {
                if i >= 3 {
                    assert(e1[i] == type_text(ty1)[i - 3]);
                }
            }
            assert forall|i: int| 0 <= i < e2.len() implies #[trigger] e2[i] != '"' by {
                if i >= 3 {
                    assert(e2[i] == type_text(ty2)[i - 3]);
                }
            }
            lemma_take_quoted(m@, e1, n@, e2);
            lemma_take_shown_type(ty1, ty2);
        },
        (Op::Constant { bits: i }, Op::Constant { bits: j }) => {
            lemma_take_text("0x"@, numeral(i as nat, 16) + e1, numeral(j as nat, 16) + e2);
            lemma_take_hex(i as nat, e1, j as nat, e2);
            lemma_take_shown_type(ty1, ty2);
        },
        (Op::MatMul { lhs: l1, rhs: r1 }, Op::MatMul { lhs: l2, rhs: r2 }) => {
            lemma_two_operands_tell(ty1, l1, r1, ty2, l2, r2);
        },
        (Op::Add { lhs: l1, rhs: r1 }, Op::Add { lhs: l2, rhs: r2 }) => {
            lemma_two_operands_tell(ty1, l1, r1, ty2, l2, r2);
        },
        (Op::Mul { lhs: l1, rhs: r1 }, Op::Mul { lhs: l2, rhs: r2 }) => {
            lemma_two_operands_tell(ty1, l1, r1, ty2, l2, r2);
        },
        (Op::Silu { x: a }, Op::Silu { x: b }) => {
            lemma_val_tells(a, b);
        },
        (Op::Gelu { x: a }, Op::Gelu { x: b }) => {
            lemma_val_tells(a, b);
        },
        (Op::Return { value: a }, Op::Return { value: b }) => {
            lemma_val_tells(a, b);
        },
        (Op::Softmax { x: a, axis: i }, Op::Softmax { x: b, axis: j }) => {
            let (u, v) = (signed_decimal(i as int), signed_decimal(j as int));
            lemma_take_val(a, ", axis="@ + u, b, ", axis="@ + v);
            lemma_take_text(", axis="@, u, v);
            assert(u + none =~= u);
            assert(v + none =~= v);
            lemma_take_signed(i as int, none, j as int, none);
        },
        (
            Op::RmsNorm { x: a, weight: w1, eps: f1 },
            Op::RmsNorm { x: b, weight: w2, eps: f2 },
        ) => {
            lemma_constant_tells(a, w1, ", eps="@, f1, b, w2, f2);
        },
        (Op::Rope { x: a, positions: w1, base: f1 }, Op::Rope { x: b, positions: w2, base: f2 }) => {
            lemma_constant_tells(a, w1, ", base="@, f1, b, w2, f2);
        },
        (Op::Reshape { x: a, new_shape: s1 }, Op::Reshape { x: b, new_shape: s2 }) => {
            lemma_list_tells(a, " to ["@, s1@, b, s2@);
        },
        (Op::Transpose { x: a, perm: s1 }, Op::Transpose { x: b, perm: s2 }) => {
            lemma_list_tells(a, " perm=["@, s1@, b, s2@);
        },
        (Op::Dequantize { x: a }, Op::Dequantize { x: b }) => {
            lemma_take_val(a, e1, b, e2);
            lemma_take_shown_type(ty1, ty2);
        },
        (Op::Quantize { x: a, target: t1 }, Op::Quantize { x: b, target: t2 }) => {
            lemma_take_val(a, " to "@ + (dtype_text(t1) + e1), b, " to "@ + (dtype_text(t2) + e2));
            lemma_take_text(" to "@, dtype_text(t1) + e1, dtype_text(t2) + e2);
            lemma_take_dtype(t1, e1, t2, e2);
            lemma_take_shown_type(ty1, ty2);
        },
        _ => {},
    }
}

proof fn lemma_val_tells(a: ValueId, b: ValueId)
    requires
        val_text(a) == val_text(b),
    ensures
        a == b,
{
    let none = Seq::<char>::empty();
    assert(val_text(a) + none =~= val_text(a));
    assert(val_text(b) + none =~= val_text(b));
    lemma_take_val(a, none, b, none);
}

proof fn lemma_two_operands_tell(
    ty1: TensorTypeView,
    l1: ValueId,
    r1: ValueId,
    ty2: TensorTypeView,
    l2: ValueId,
    r2: ValueId,
)
    requires
        two_operands(ty1, l1, r1) == two_operands(ty2, l2, r2),
    ensures
        l1 == l2,
        r1 == r2,
        ty1 == ty2,
{
    reveal_strlit(" : ");
    reveal_strlit(", ");
    let (e1, e2) = (" : "@ + type_text(ty1), " : "@ + type_text(ty2));
    let (u, v) = (val_text(r1) + e1, val_text(r2) + e2);
    lemma_take_val(l1, ", "@ + u, l2, ", "@ + v);
    lemma_take_text(", "@, u, v);
    lemma_take_val(r1, e1, r2, e2);
    lemma_take_shown_type(ty1, ty2);
}

proof fn lemma_constant_tells(
    a: ValueId,
    w1: ValueId,
    key: Seq<char>,
    f1: u32,
    b: ValueId,
    w2: ValueId,
    f2: u32,
)
    requires
        key.len() > 0 && key[0] == ',',
        val_text(a) + (", "@ + (val_text(w1) + (key + f32_display(f1)))) == val_text(b) + (", "@ + (
        val_text(w2) + (key + f32_display(f2)))),
    ensures
        a == b,
        w1 == w2,
        f32_display(f1) == f32_display(f2),
{
    reveal_strlit(", ");
    let (e1, e2) = (key + f32_display(f1), key + f32_display(f2));
    let (u, v) = (val_text(w1) + e1, val_text(w2) + e2);
    lemma_take_val(a, ", "@ + u, b, ", "@ + v);
    lemma_take_text(", "@, u, v);
    lemma_take_val(w1, e1, w2, e2);
    lemma_take_text(key, f32_display(f1), f32_display(f2));
}

proof fn lemma_list_tells(a: ValueId, key: Seq<char>, s1: Seq<u32>, b: ValueId, s2: Seq<u32>)
    requires
        key.len() > 0 && key[0] == ' ',
        val_text(a) + (key + (comma_list(s1) + "]"@)) == val_text(b) + (key + (comma_list(s2)
            + "]"@)),
    ensures
        a == b,
        s1 == s2,
{
    reveal_strlit("]");
    assert("]"@ =~= seq![']']);
    let (u, v) = (comma_list(s1) + "]"@, comma_list(s2) + "]"@);
    lemma_take_val(a, key + u, b, key + v);
    lemma_take_text(key, u, v);
    let none = Seq::<char>::empty();
    assert(comma_list(s1) + seq![']'] + none =~= u);
    assert(comma_list(s2) + seq![']'] + none =~= v);
    lemma_take_list(s1, none, s2, none);
}

// ---- functions ------------------------------------------------------------------------

/// How the text of a module grows. A value adds an indented line to its block,
/// unless it is a parameter, which stands in the signature. Blocks and functions
/// follow each other, with an empty line between two functions.
pub proof fn lemma_text_grows(
    values: Seq<Value>,
    ids: Seq<ValueId>,
    id: ValueId,
    blocks: Seq<Block>,
    block: Block,
    functions: Seq<Function>,
    f: Function,
)
    ensures
        lines_text(values, Seq::empty()) == Seq::<char>::empty(),
        values[id.0 as int].op is Param ==> lines_text(values, ids.push(id)) == lines_text(
            values,
            ids,
        ),
        !(values[id.0 as int].op is Param) ==> lines_text(values, ids.push(id)) == lines_text(
            values,
            ids,
        ) + seq![' ', ' '] + value_text(id, values[id.0 as int].ty@, values[id.0 as int].op) + seq![
            '\n',
        ],
        blocks_text(values, Seq::empty()) == Seq::<char>::empty(),
        blocks_text(values, blocks.push(block)) == blocks_text(values, blocks) + lines_text(
            values,
            block.values@,
        ),
        params_text(values, Seq::empty()) == Seq::<char>::empty(),
        params_text(values, ids.push(id)) == params_text(values, ids) + (if ids.len() > 0 {
            seq![',', ' ']
        } else {
            Seq::empty()
        }) + seq!['%'] + decimal(id.0 as nat) + seq![':', ' '] + type_text(
            values[id.0 as int].ty@,
        ),
        functions_text(Seq::empty()) == Seq::<char>::empty(),
        functions_text(functions.push(f)) == functions_text(functions) + (if functions.len() > 0 {
            seq!['\n']
        } else {
            Seq::empty()
        }) + function_text(f),
        function_text(f) == "fn @"@ + f.name@ + seq!['('] + params_text(
            f.values@,
            f.param_values@,
        ) + ") -> "@ + type_text(f.ret@) + " {\n"@ + blocks_text(f.values@, f.blocks@) + "}\n"@,
{
    reveal_strlit("  ");
    reveal_strlit("\n");
    reveal_strlit(", ");
    reveal_strlit(": ");
    reveal_strlit("%");
    reveal_strlit("(");
    assert("  "@ =~= seq![' ', ' ']);
    assert("\n"@ =~= seq!['\n']);
    assert(", "@ =~= seq![',', ' ']);
    assert(": "@ =~= seq![':', ' ']);
    assert("%"@ =~= seq!['%']);
    assert("("@ =~= seq!['(']);
    assert(ids.push(id).drop_last() =~= ids);
    assert(blocks.push(block).drop_last() =~= blocks);
    assert(functions.push(f).drop_last() =~= functions);
    let before = params_text(values, ids);
    let sep = if ids.len() > 0 {
        before + ", "@
    } else {
        before
    };
    assert(sep =~= before + (if ids.len() > 0 {
        seq![',', ' ']
    } else {
        Seq::empty()
    }));
    lemma_assoc(sep, seq!['%'], decimal(id.0 as nat));
    let fb = functions_text(functions);
    assert(fb + Seq::empty() =~= fb);
}

// ---- operations as they are reported ------------------------------------------------------

/// A value as it is reported.
pub open spec fn reported_id(id: ValueId) -> Seq<char> {
    "ValueId("@ + decimal(id.0 as nat) + ")"@
}

/// The name and the fields that an operation is reported with.
pub proof fn lemma_reported(op: Op)
    ensures
        op matches Op::Param { index } ==> op.debug() == "Param { index: "@ + decimal(index as nat)
            + " }"@,
        op matches Op::LoadInput { index } ==> op.debug() == "LoadInput { index: "@ + decimal(
            index as nat,
        ) + " }"@,
        op matches Op::Constant { bits } ==> op.debug() == "Constant { bits: "@ + decimal(
            bits as nat,
        ) + " }"@,
        op matches Op::LoadWeight { name } ==> op.debug() == "LoadWeight { name: "@ + quoted_text(
            name@,
        ) + " }"@,
        op matches Op::MatMul { lhs, rhs } ==> op.debug() == "MatMul { lhs: "@ + reported_id(lhs)
            + ", rhs: "@ + reported_id(rhs) + " }"@,
        op matches Op::Add { lhs, rhs } ==> op.debug() == "Add { lhs: "@ + reported_id(lhs)
            + ", rhs: "@ + reported_id(rhs) + " }"@,
        op matches Op::Mul { lhs, rhs } ==> op.debug() == "Mul { lhs: "@ + reported_id(lhs)
            + ", rhs: "@ + reported_id(rhs) + " }"@,
        op matches Op::Silu { x } ==> op.debug() == "Silu { x: "@ + reported_id(x) + " }"@,
        op matches Op::Gelu { x } ==> op.debug() == "Gelu { x: "@ + reported_id(x) + " }"@,
        op matches Op::Softmax { x, axis } ==> op.debug() == "Softmax { x: "@ + reported_id(x)
            + ", axis: "@ + signed_decimal(axis as int) + " }"@,
        op matches Op::RmsNorm { x, weight, eps } ==> op.debug() == "RmsNorm { x: "@ + reported_id(x)
            + ", weight: "@ + reported_id(weight) + ", eps: "@ + f32_debug(eps) + " }"@,
        op matches Op::Rope { x, positions, base } ==> op.debug() == "Rope { x: "@ + reported_id(x)
            + ", positions: "@ + reported_id(positions) + ", base: "@ + f32_debug(base) + " }"@,
        op matches Op::Reshape { x, new_shape } ==> op.debug() == "Reshape { x: "@ + reported_id(x)
            + ", new_shape: ["@ + comma_list(new_shape@) + "] }"@,
        op matches Op::Transpose { x, perm } ==> op.debug() == "Transpose { x: "@ + reported_id(x)
            + ", perm: ["@ + comma_list(perm@) + "] }"@,
        op matches Op::Dequantize { x } ==> op.debug() == "Dequantize { x: "@ + reported_id(x)
            + " }"@,
        op matches Op::Quantize { x, target } ==> op.debug() == "Quantize { x: "@ + reported_id(x)
            + ", target: "@ + (match target {
            DType::F16 => "F16"@,
            DType::F32 => "F32"@,
            DType::I32 => "I32"@,
            DType::Q4_0 => "Q4_0"@,
            DType::Q8_0 => "Q8_0"@,
        }) + " }"@,
        op matches Op::Return { value } ==> op.debug() == "Return { value: "@ + reported_id(value)
            + " }"@,
{
}

/// A thousand numbers of a type take as many bytes as their blocks do: four or two
/// for each number, or 18 or 34 for every 32 of them.
pub proof fn lemma_bytes_of_a_thousand()
    ensures
        DType::F32.millibytes() == 4 * 1000,
        DType::I32.millibytes() == 4 * 1000,
        DType::F16.millibytes() == 2 * 1000,
        DType::Q4_0.millibytes() == 18int * 1000 / 32,
        DType::Q8_0.millibytes() == 34int * 1000 / 32,
{
}

} // verus!
