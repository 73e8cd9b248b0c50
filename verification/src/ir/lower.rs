//! Lowering: from the syntax tree to IR.
//!
//! Each function becomes one block of values: the parameters first, and after
//! them the operations in the order in which they are evaluated.

use crate::dsl::ast::{
    param_views, stmt_views, BinOp, DimKind, Expr, ExprKind, ExprKindView, ExprView, FunctionView,
    Item, Module, ParamView, ScalarType, Stmt, StmtKind, StmtKindView, StmtView, Type, TypeKind,
};
use crate::dsl::ast::Function as AstFunction;
use crate::dsl::typeck::{ty_of, TyView};
use crate::ir::module::{first_ids, id_at, make_id, Function, IrModule, Value, ValueId};
use crate::ir::op::Op;
use crate::ir::ty::{DType, Dim, Shape, TensorType, TensorTypeView};
use crate::ir::verify::blocks_in_range;
use crate::text::{decimal, push_decimal, push_text};
use vstd::prelude::*;

verus! {

/// Why a module cannot be lowered.
#[derive(Debug)]
pub enum LowerError {
    UnknownIdent(String),
    /// Something that the IR has no operation for.
    Unsupported(String),
    DynamicDim,
    DimTooLarge(u64),
    MatMulRank,
}

/// What a [`LowerError`] says.
pub enum LowerFault {
    UnknownIdent(Seq<char>),
    Unsupported(Seq<char>),
    DynamicDim,
    DimTooLarge(u64),
    MatMulRank,
}

impl View for LowerError {
    type V = LowerFault;

    open spec fn view(&self) -> LowerFault {
        match self {
            LowerError::UnknownIdent(s) => LowerFault::UnknownIdent(s@),
            LowerError::Unsupported(s) => LowerFault::Unsupported(s@),
            LowerError::DynamicDim => LowerFault::DynamicDim,
            LowerError::DimTooLarge(n) => LowerFault::DimTooLarge(*n),
            LowerError::MatMulRank => LowerFault::MatMulRank,
        }
    }
}

impl LowerFault {
    /// The message shown to the user.
    pub open spec fn text(self) -> Seq<char> {
        match self {
            LowerFault::UnknownIdent(s) => "unknown identifier `"@ + s + "`"@,
            LowerFault::Unsupported(s) => "cannot lower "@ + s,
            LowerFault::DynamicDim => "cannot lower a dynamic dimension"@,
            LowerFault::DimTooLarge(n) => "dimension "@ + decimal(n as nat)
                + " does not fit in 32 bits"@,
            LowerFault::MatMulRank => "`@` requires rank-2 tensors"@,
        }
    }
}

impl LowerError {
    /// The message shown to the user.
    pub fn message(&self) -> (m: String)
        ensures
            m@ == self@.text(),
    {
        match self {
            LowerError::UnknownIdent(s) => {
                let mut m: String = "unknown identifier `".to_string();
                push_text(&mut m, s.as_str());
                push_text(&mut m, "`");
                m
            },
            LowerError::Unsupported(s) => {
                let mut m: String = "cannot lower ".to_string();
                push_text(&mut m, s.as_str());
                m
            },
            LowerError::DynamicDim => "cannot lower a dynamic dimension".to_string(),
            LowerError::DimTooLarge(n) => {
                let mut m: String = "dimension ".to_string();
                push_decimal(&mut m, *n);
                push_text(&mut m, " does not fit in 32 bits");
                m
            },
            LowerError::MatMulRank => "`@` requires rank-2 tensors".to_string(),
        }
    }
}

// ---- types ----------------------------------------------------------------------------

/// The element type of a scalar type.
pub open spec fn dtype_of(s: ScalarType) -> DType {
    match s {
        ScalarType::F16 => DType::F16,
        ScalarType::F32 => DType::F32,
        ScalarType::I32 => DType::I32,
        ScalarType::Q4_0 => DType::Q4_0,
        ScalarType::Q8_0 => DType::Q8_0,
    }
}

/// A dimension, where it is known and fits in 32 bits.
pub open spec fn lower_dim(d: DimKind) -> Result<Dim, LowerFault> {
    match d {
        DimKind::Dynamic => Err(LowerFault::DynamicDim),
        DimKind::Static(n) => if n > u32::MAX {
            Err(LowerFault::DimTooLarge(n))
        } else {
            Ok(Dim::Static(n as u32))
        },
    }
}

/// The dimensions, or what is wrong with the first bad one.
pub open spec fn lower_dims(dims: Seq<DimKind>) -> Result<Seq<Dim>, LowerFault>
    decreases dims.len(),
{
    if dims.len() == 0 {
        Ok(Seq::empty())
    } else {
        match lower_dims(dims.drop_last()) {
            Err(x) => Err(x),
            Ok(head) => match lower_dim(dims.last()) {
                Err(x) => Err(x),
                Ok(d) => Ok(head.push(d)),
            },
        }
    }
}

/// The tensor type of a type: a scalar is a tensor of rank zero.
pub open spec fn lower_ty(t: TyView) -> Result<TensorTypeView, LowerFault> {
    match lower_dims(t.dims) {
        Err(x) => Err(x),
        Ok(dims) => Ok(TensorTypeView { dtype: dtype_of(t.elem), dims }),
    }
}

/// The tensor types of the first `n` parameters.
pub open spec fn lower_params(params: Seq<ParamView>, n: nat) -> Result<
    Seq<TensorTypeView>,
    LowerFault,
>
    decreases n,
{
    if n == 0 || n > params.len() {
        Ok(Seq::empty())
    } else {
        match lower_params(params, (n - 1) as nat) {
            Err(x) => Err(x),
            Ok(head) => match lower_ty(ty_of(params[n - 1].ty)) {
                Err(x) => Err(x),
                Ok(t) => Ok(head.push(t)),
            },
        }
    }
}

// ---- values ---------------------------------------------------------------------------

/// Operations with the types of their results.
pub type Values = Seq<(Op, TensorTypeView)>;

/// The names in scope with the values they stand for, the latest last.
pub type Names = Seq<(Seq<char>, ValueId)>;

/// The value of a name: that of its latest binding.
pub open spec fn value_of(names: Names, name: Seq<char>) -> Option<ValueId>
    decreases names.len(),
{
    if names.len() == 0 {
        None
    } else if names.last().0 == name {
        Some(names.last().1)
    } else {
        value_of(names.drop_last(), name)
    }
}

/// The type of a value.
pub open spec fn type_at(vals: Values, id: ValueId) -> TensorTypeView {
    vals[id.0 as int].1
}

/// The type of a return: it has no result.
pub open spec fn no_type() -> TensorTypeView {
    TensorTypeView { dtype: DType::F32, dims: Seq::empty() }
}

/// What an operator adds to the values, its operands being there.
pub open spec fn lower_binary(vals: Values, op: BinOp, l: ValueId, r: ValueId) -> Result<
    (Values, ValueId),
    LowerFault,
> {
    let lt = type_at(vals, l);
    let rt = type_at(vals, r);
    let id = id_at(vals.len() as int);
    match op {
        BinOp::Add => Ok((vals.push((Op::Add { lhs: l, rhs: r }, lt)), id)),
        BinOp::Mul => Ok((vals.push((Op::Mul { lhs: l, rhs: r }, lt)), id)),
        BinOp::MatMul => if lt.dims.len() != 2 || rt.dims.len() != 2 {
            Err(LowerFault::MatMulRank)
        } else {
            Ok(
                (
                    vals.push(
                        (
                            Op::MatMul { lhs: l, rhs: r },
                            TensorTypeView { dtype: lt.dtype, dims: seq![lt.dims[0], rt.dims[1]] },
                        ),
                    ),
                    id,
                ),
            )
        },
        _ => Err(LowerFault::Unsupported("operator `"@ + op.text() + "`"@)),
    }
}

/// The values after an expression is evaluated, and the value of it.
pub open spec fn lower_expr(names: Names, vals: Values, e: ExprView) -> Result<
    (Values, ValueId),
    LowerFault,
>
    decreases e,
{
    match e.kind {
        ExprKindView::Ident(name) => match value_of(names, name) {
            Some(id) => Ok((vals, id)),
            None => Err(LowerFault::UnknownIdent(name)),
        },
        ExprKindView::IntLit(_) => Err(LowerFault::Unsupported("an integer literal"@)),
        ExprKindView::FloatLit(_) => Err(LowerFault::Unsupported("a float literal"@)),
        ExprKindView::Unary { .. } => Err(LowerFault::Unsupported("unary `-`"@)),
        ExprKindView::Call { callee, .. } => Err(
            LowerFault::Unsupported("a call to `"@ + callee.name + "`"@),
        ),
        ExprKindView::BinOp { op, lhs, rhs } => match lower_expr(names, vals, *lhs) {
            Err(x) => Err(x),
            Ok((mid, l)) => match lower_expr(names, mid, *rhs) {
                Err(x) => Err(x),
                Ok((after, r)) => lower_binary(after, op, l, r),
            },
        },
    }
}

/// The names and values after a statement.
pub open spec fn lower_stmt(names: Names, vals: Values, st: StmtView) -> Result<
    (Names, Values),
    LowerFault,
> {
    match st.kind {
        StmtKindView::Let { name, value } => match lower_expr(names, vals, value) {
            Err(x) => Err(x),
            Ok((after, id)) => Ok((names.push((name.name, id)), after)),
        },
        StmtKindView::Return(e) => match lower_expr(names, vals, e) {
            Err(x) => Err(x),
            Ok((after, id)) => Ok((names, after.push((Op::Return { value: id }, no_type())))),
        },
        StmtKindView::Expr(e) => match lower_expr(names, vals, e) {
            Err(x) => Err(x),
            Ok((after, _)) => Ok((names, after)),
        },
    }
}

/// The names and values after the first `n` statements.
pub open spec fn lower_stmts(names: Names, vals: Values, stmts: Seq<StmtView>, n: nat) -> Result<
    (Names, Values),
    LowerFault,
>
    decreases n,
{
    if n == 0 || n > stmts.len() {
        Ok((names, vals))
    } else {
        match lower_stmts(names, vals, stmts, (n - 1) as nat) {
            Err(x) => Err(x),
            Ok((mid, some)) => lower_stmt(mid, some, stmts[n - 1]),
        }
    }
}

/// The parameters as names in scope.
pub open spec fn param_names(params: Seq<ParamView>) -> Names {
    Seq::new(params.len(), |i: int| (params[i].name.name, id_at(i)))
}

/// The parameters as values.
pub open spec fn param_ops(types: Seq<TensorTypeView>) -> Values {
    Seq::new(types.len(), |i: int| (Op::Param { index: id_at(i).0 }, types[i]))
}

/// What an IR function says.
pub struct IrFunctionView {
    pub name: Seq<char>,
    pub params: Seq<TensorTypeView>,
    pub ret: TensorTypeView,
    pub values: Values,
}

/// The IR of a function.
pub open spec fn lower_function(f: FunctionView) -> Result<IrFunctionView, LowerFault> {
    match lower_params(f.params, f.params.len()) {
        Err(x) => Err(x),
        Ok(params) => match lower_ty(ty_of(f.ret)) {
            Err(x) => Err(x),
            Ok(ret) => match lower_stmts(
                param_names(f.params),
                param_ops(params),
                f.stmts,
                f.stmts.len(),
            ) {
                Err(x) => Err(x),
                Ok((_, values)) => Ok(IrFunctionView { name: f.name.name, params, ret, values }),
            },
        },
    }
}

/// The IR of the first `n` functions, or what is wrong with the first bad one.
pub open spec fn lower_functions(fs: Seq<FunctionView>, n: nat) -> Result<
    Seq<IrFunctionView>,
    LowerFault,
>
    decreases n,
{
    if n == 0 || n > fs.len() {
        Ok(Seq::empty())
    } else {
        match lower_functions(fs, (n - 1) as nat) {
            Err(x) => Err(x),
            Ok(head) => match lower_function(fs[n - 1]) {
                Err(x) => Err(x),
                Ok(f) => Ok(head.push(f)),
            },
        }
    }
}

/// The IR of a module.
pub open spec fn lower_module(fs: Seq<FunctionView>) -> Result<Seq<IrFunctionView>, LowerFault> {
    lower_functions(fs, fs.len())
}

/// The types of a list.
pub open spec fn type_views(s: Seq<TensorType>) -> Seq<TensorTypeView> {
    Seq::new(s.len(), |i: int| s[i]@)
}

/// The operations and types of a list of values.
pub open spec fn value_views(s: Seq<Value>) -> Values {
    Seq::new(s.len(), |i: int| (s[i].op, s[i].ty@))
}

/// What a function says.
pub open spec fn ir_view(f: Function) -> IrFunctionView {
    IrFunctionView {
        name: f.name@,
        params: type_views(f.params@),
        ret: f.ret@,
        values: value_views(f.values@),
    }
}

/// What the functions say.
pub open spec fn ir_views(s: Seq<Function>) -> Seq<IrFunctionView> {
    Seq::new(s.len(), |i: int| ir_view(s[i]))
}

/// A function with one block, which holds all values in order.
pub open spec fn straight(f: Function) -> bool {
    &&& f.blocks@.len() == 1
    &&& f.blocks@[0].values@ == first_ids(f.values@.len())
    &&& f.param_values@ == first_ids(f.params@.len())
}

// ---- code -----------------------------------------------------------------------------

fn to_dtype(s: ScalarType) -> (d: DType)
    ensures
        d == dtype_of(s),
{
    match s {
        ScalarType::F16 => DType::F16,
        ScalarType::F32 => DType::F32,
        ScalarType::I32 => DType::I32,
        ScalarType::Q4_0 => DType::Q4_0,
        ScalarType::Q8_0 => DType::Q8_0,
    }
}

proof fn lemma_first_bad_dim(dims: Seq<DimKind>, i: int)
    requires
        0 <= i <= dims.len(),
        lower_dims(dims.subrange(0, i)) is Err,
    ensures
        lower_dims(dims) == lower_dims(dims.subrange(0, i)),
    decreases dims.len(),
{
    if i == dims.len() {
        assert(dims.subrange(0, i) =~= dims);
    } else {
        assert(dims.drop_last().subrange(0, i) =~= dims.subrange(0, i));
        lemma_first_bad_dim(dims.drop_last(), i);
    }
}

fn to_type(t: &Type) -> (r: Result<TensorType, LowerError>)
    ensures
        match lower_ty(ty_of(t@)) {
            Ok(x) => r matches Ok(y) && y@ == x,
            Err(x) => r matches Err(y) && y@ == x,
        },
{
    match &t.kind {
        TypeKind::Scalar(s) => {
            let r = TensorType { dtype: to_dtype(*s), shape: Shape(Vec::new()) };
            assert(r@.dims =~= Seq::empty());
            Ok(r)
        },
        TypeKind::Tensor { elem, shape } => {
            let ghost kinds = ty_of(t@).dims;
            let mut dims: Vec<Dim> = Vec::new();
            let mut i: usize = 0;
            assert(kinds.subrange(0, 0) =~= Seq::empty());
            assert(dims@ =~= Seq::empty());
            while i < shape.dims.len()
                invariant
                    i <= shape.dims@.len(),
                    kinds.len() == shape.dims@.len(),
                    forall|j: int| 0 <= j < kinds.len() ==> kinds[j] == shape.dims@[j].kind,
                    kinds == ty_of(t@).dims,
                    lower_dims(kinds.subrange(0, i as int)) == Ok::<Seq<Dim>, LowerFault>(dims@),
                decreases shape.dims@.len() - i,
            {
                let ghost next = kinds.subrange(0, i + 1);
                proof {
                    assert(next.drop_last() =~= kinds.subrange(0, i as int));
                    assert(next.last() == shape.dims@[i as int].kind);
                }
                match shape.dims[i].kind {
                    DimKind::Dynamic => {
                        proof {
                            lemma_first_bad_dim(kinds, i + 1);
                        }
                        return Err(LowerError::DynamicDim);
                    },
                    DimKind::Static(n) => {
                        if n > 0xffff_ffff {
                            proof {
                                lemma_first_bad_dim(kinds, i + 1);
                            }
                            return Err(LowerError::DimTooLarge(n));
                        }
                        dims.push(Dim::Static(n as u32));
                    },
                }
                i = i + 1;
            }
            assert(kinds.subrange(0, i as int) =~= kinds);
            Ok(TensorType { dtype: to_dtype(*elem), shape: Shape(dims) })
        },
    }
}

/// The names in scope.
spec fn names_view(names: Seq<(String, ValueId)>) -> Names {
    Seq::new(names.len(), |i: int| (names[i].0@, names[i].1))
}

/// Every name stands for one of the first `n` values.
spec fn in_range(names: Seq<(String, ValueId)>, n: nat) -> bool {
    forall|i: int| 0 <= i < names.len() ==> (#[trigger] names[i]).1.0 < n
}

fn find_value(names: &Vec<(String, ValueId)>, name: &String) -> (r: Option<ValueId>)
    ensures
        r == value_of(names_view(names@), name@),
        forall|n: nat| in_range(names@, n) ==> (r matches Some(id) ==> id.0 < n),
{
    let ghost views = names_view(names@);
    let mut i: usize = names.len();
    assert(views.subrange(0, i as int) =~= views);
    while i > 0
        invariant
            i <= names@.len(),
            views == names_view(names@),
            value_of(views, name@) == value_of(views.subrange(0, i as int), name@),
        decreases i,
    {
        proof {
            assert(views.subrange(0, i as int).drop_last() =~= views.subrange(0, i - 1));
        }
        if names[i - 1].0 == *name {
            return Some(names[i - 1].1);
        }
        i = i - 1;
    }
    None
}

/// Nothing but the values has changed, and there are no fewer of those.
spec fn grown(before: Function, after: Function) -> bool {
    &&& after.name == before.name
    &&& after.params == before.params
    &&& after.ret == before.ret
    &&& straight(after)
    &&& after.values@.len() >= before.values@.len()
}

fn add_value(f: &mut Function, op: Op, ty: TensorType) -> (id: ValueId)
    requires
        straight(*old(f)),
    ensures
        id == id_at(old(f).values@.len() as int),
        id.0 < final(f).values@.len(),
        grown(*old(f), *final(f)),
        value_views(final(f).values@) == value_views(old(f).values@).push((op, ty@)),
{
    let ghost n = f.values@.len();
    let ghost before = value_views(f.values@);
    let ghost view = (op, ty@);
    let id = f.push(Value { op, ty });
    proof {
        assert(first_ids(n + 1) =~= first_ids(n).push(id_at(n as int)));
        assert(value_views(f.values@) =~= before.push(view));
    }
    id
}

fn add_binary(f: &mut Function, op: BinOp, l: ValueId, r: ValueId) -> (x: Result<
    ValueId,
    LowerError,
>)
    requires
        straight(*old(f)),
        l.0 < old(f).values@.len(),
        r.0 < old(f).values@.len(),
    ensures
        match lower_binary(value_views(old(f).values@), op, l, r) {
            Ok((vals, id)) => x == Ok::<ValueId, LowerError>(id) && id.0 < final(f).values@.len()
                && grown(*old(f), *final(f)) && value_views(final(f).values@) == vals,
            Err(e) => x matches Err(y) && y@ == e,
        },
{
    let ghost vals = value_views(f.values@);
    let lt = f.values[l.0 as usize].ty.clone();
    let rt = f.values[r.0 as usize].ty.clone();
    match op {
        BinOp::Add => Ok(add_value(f, Op::Add { lhs: l, rhs: r }, lt)),
        BinOp::Mul => Ok(add_value(f, Op::Mul { lhs: l, rhs: r }, lt)),
        BinOp::MatMul => {
            if lt.shape.0.len() != 2 || rt.shape.0.len() != 2 {
                return Err(LowerError::MatMulRank);
            }
            let mut dims: Vec<Dim> = Vec::new();
            dims.push(lt.shape.0[0]);
            dims.push(rt.shape.0[1]);
            let ty = TensorType { dtype: lt.dtype, shape: Shape(dims) };
            assert(ty@.dims =~= seq![lt@.dims[0], rt@.dims[1]]);
            Ok(add_value(f, Op::MatMul { lhs: l, rhs: r }, ty))
        },
        _ => {
            let mut m: String = "operator `".to_string();
            push_text(&mut m, op.symbol());
            push_text(&mut m, "`");
            Err(LowerError::Unsupported(m))
        },
    }
}

fn eval(f: &mut Function, names: &Vec<(String, ValueId)>, e: &Expr) -> (x: Result<
    ValueId,
    LowerError,
>)
    requires
        straight(*old(f)),
        in_range(names@, old(f).values@.len()),
    ensures
        match lower_expr(names_view(names@), value_views(old(f).values@), e@) {
            Ok((vals, id)) => x == Ok::<ValueId, LowerError>(id) && id.0 < final(f).values@.len()
                && grown(*old(f), *final(f)) && value_views(final(f).values@) == vals,
            Err(d) => x matches Err(y) && y@ == d,
        },
    decreases e,
{
    match &e.kind {
        ExprKind::Ident(name) => match find_value(names, name) {
            Some(id) => Ok(id),
            None => Err(LowerError::UnknownIdent(name.clone())),
        },
        ExprKind::IntLit(_) => Err(LowerError::Unsupported("an integer literal".to_string())),
        ExprKind::FloatLit(_) => Err(LowerError::Unsupported("a float literal".to_string())),
        ExprKind::Unary { op: _, expr: _ } => Err(
            LowerError::Unsupported("unary `-`".to_string()),
        ),
        ExprKind::Call { callee, args: _ } => {
            let mut m: String = "a call to `".to_string();
            push_text(&mut m, callee.name.as_str());
            push_text(&mut m, "`");
            Err(LowerError::Unsupported(m))
        },
        ExprKind::BinOp { op, lhs, rhs } => {
            let l = match eval(f, names, lhs) {
                Ok(id) => id,
                Err(d) => {
                    return Err(d);
                },
            };
            let r = match eval(f, names, rhs) {
                Ok(id) => id,
                Err(d) => {
                    return Err(d);
                },
            };
            add_binary(f, *op, l, r)
        },
    }
}

fn run_stmt(f: &mut Function, names: &mut Vec<(String, ValueId)>, st: &Stmt) -> (x: Result<
    (),
    LowerError,
>)
    requires
        straight(*old(f)),
        in_range(old(names)@, old(f).values@.len()),
    ensures
        match lower_stmt(names_view(old(names)@), value_views(old(f).values@), st@) {
            Ok((after, vals)) => x is Ok && names_view(final(names)@) == after && in_range(
                final(names)@,
                final(f).values@.len(),
            ) && grown(*old(f), *final(f)) && value_views(final(f).values@) == vals,
            Err(d) => x matches Err(y) && y@ == d,
        },
{
    let ghost before = names_view(names@);
    match &st.kind {
        StmtKind::Let { name, value } => match eval(f, names, value) {
            Err(d) => Err(d),
            Ok(id) => {
                names.push((name.name.clone(), id));
                assert(names_view(names@) =~= before.push((name.name@, id)));
                Ok(())
            },
        },
        StmtKind::Return(e) => match eval(f, names, e) {
            Err(d) => Err(d),
            Ok(id) => {
                let ty = TensorType { dtype: DType::F32, shape: Shape(Vec::new()) };
                assert(ty@.dims =~= Seq::empty());
                let _ = add_value(f, Op::Return { value: id }, ty);
                Ok(())
            },
        },
        StmtKind::Expr(e) => match eval(f, names, e) {
            Err(d) => Err(d),
            Ok(_) => Ok(()),
        },
    }
}

proof fn lemma_first_bad_stmt(names: Names, vals: Values, stmts: Seq<StmtView>, i: nat, n: nat)
    requires
        i <= n <= stmts.len(),
        lower_stmts(names, vals, stmts, i) is Err,
    ensures
        lower_stmts(names, vals, stmts, n) == lower_stmts(names, vals, stmts, i),
    decreases n,
{
    if i < n {
        lemma_first_bad_stmt(names, vals, stmts, i, (n - 1) as nat);
    }
}

proof fn lemma_first_bad_param(params: Seq<ParamView>, i: nat, n: nat)
    requires
        i <= n <= params.len(),
        lower_params(params, i) is Err,
    ensures
        lower_params(params, n) == lower_params(params, i),
    decreases n,
{
    if i < n {
        lemma_first_bad_param(params, i, (n - 1) as nat);
    }
}

proof fn lemma_first_bad_function(fs: Seq<FunctionView>, i: nat, n: nat)
    requires
        i <= n <= fs.len(),
        lower_functions(fs, i) is Err,
    ensures
        lower_functions(fs, n) == lower_functions(fs, i),
    decreases n,
{
    if i < n {
        lemma_first_bad_function(fs, i, (n - 1) as nat);
    }
}

fn param_types(f: &AstFunction) -> (r: Result<Vec<TensorType>, LowerError>)
    ensures
        match lower_params(f@.params, f@.params.len()) {
            Ok(types) => r matches Ok(v) && type_views(v@) == types,
            Err(x) => r matches Err(y) && y@ == x,
        },
{
    let ghost params = f@.params;
    let mut types: Vec<TensorType> = Vec::new();
    let mut i: usize = 0;
    assert(type_views(types@) =~= Seq::empty());
    while i < f.params.len()
        invariant
            i <= f.params@.len(),
            params == f@.params,
            params == param_views(f.params@),
            lower_params(params, i as nat) == Ok::<Seq<TensorTypeView>, LowerFault>(
                type_views(types@),
            ),
        decreases f.params@.len() - i,
    {
        let ghost before = type_views(types@);
        assert(params[i as int] == f.params@[i as int]@);
        match to_type(&f.params[i].ty) {
            Err(d) => {
                proof {
                    lemma_first_bad_param(params, (i + 1) as nat, params.len());
                }
                return Err(d);
            },
            Ok(t) => {
                let ghost view = t@;
                types.push(t);
                assert(type_views(types@) =~= before.push(view));
            },
        }
        i = i + 1;
    }
    Ok(types)
}

fn lower_one(f: &AstFunction) -> (r: Result<Function, LowerError>)
    ensures
        match lower_function(f@) {
            Ok(view) => r matches Ok(g) && ir_view(g) == view && straight(g),
            Err(x) => r matches Err(y) && y@ == x,
        },
{
    let params = match param_types(f) {
        Ok(p) => p,
        Err(d) => {
            return Err(d);
        },
    };
    let ret = match to_type(&f.ret) {
        Ok(t) => t,
        Err(d) => {
            return Err(d);
        },
    };
    let ghost types = type_views(params@);
    let ghost ret_view = ret@;
    proof {
        lemma_param_count(f@.params, f@.params.len());
    }
    let mut g = Function::new(f.name.name.as_str(), params, ret);
    let ghost start_names = param_names(f@.params);
    let ghost start_vals = param_ops(types);
    let ghost stmts = f@.stmts;
    assert(value_views(g.values@) =~= start_vals);
    let mut names: Vec<(String, ValueId)> = Vec::new();
    let mut i: usize = 0;
    while i < f.params.len()
        invariant
            i <= f.params@.len(),
            f.params@.len() == g.values@.len(),
            start_names == param_names(f@.params),
            names_view(names@) == start_names.subrange(0, i as int),
            in_range(names@, g.values@.len()),
        decreases f.params@.len() - i,
    {
        let ghost before = names_view(names@);
        names.push((f.params[i].name.name.clone(), make_id(i)));
        proof {
            assert(f@.params[i as int] == f.params@[i as int]@);
            assert(names_view(names@) =~= before.push(
                (f.params@[i as int].name.name@, id_at(i as int)),
            ));
            assert(start_names.subrange(0, i + 1) =~= start_names.subrange(0, i as int).push(
                start_names[i as int],
            ));
        }
        i = i + 1;
    }
    assert(start_names.subrange(0, i as int) =~= start_names);
    let mut j: usize = 0;
    while j < f.body.stmts.len()
        invariant
            j <= f.body.stmts@.len(),
            stmts == f@.stmts,
            stmts == stmt_views(f.body.stmts@),
            start_names == param_names(f@.params),
            start_vals == param_ops(types),
            lower_params(f@.params, f@.params.len()) == Ok::<Seq<TensorTypeView>, LowerFault>(
                types,
            ),
            lower_ty(ty_of(f@.ret)) == Ok::<TensorTypeView, LowerFault>(ret_view),
            straight(g),
            g.name@ == f.name.name@,
            type_views(g.params@) == types,
            g.ret@ == ret_view,
            in_range(names@, g.values@.len()),
            lower_stmts(start_names, start_vals, stmts, j as nat) == Ok::<
                (Names, Values),
                LowerFault,
            >((names_view(names@), value_views(g.values@))),
        decreases f.body.stmts@.len() - j,
    {
        assert(stmts[j as int] == f.body.stmts@[j as int]@);
        match run_stmt(&mut g, &mut names, &f.body.stmts[j]) {
            Ok(()) => {},
            Err(d) => {
                proof {
                    lemma_first_bad_stmt(
                        start_names,
                        start_vals,
                        stmts,
                        (j + 1) as nat,
                        stmts.len(),
                    );
                }
                return Err(d);
            },
        }
        j = j + 1;
    }
    Ok(g)
}

proof fn lemma_param_count(params: Seq<ParamView>, n: nat)
    requires
        n <= params.len(),
    ensures
        lower_params(params, n) matches Ok(types) ==> types.len() == n,
    decreases n,
{
    if n > 0 {
        lemma_param_count(params, (n - 1) as nat);
    }
}

/// Lowers a module, function by function.
pub fn lower(ast: &Module) -> (r: Result<IrModule, LowerError>)
    ensures
        match lower_module(ast@) {
            Ok(views) => r matches Ok(m) && ir_views(m.functions@) == views && (forall|i: int|
                0 <= i < m.functions@.len() ==> straight(#[trigger] m.functions@[i])) && (
            forall|i: int|
                0 <= i < m.functions@.len() ==> #[trigger] blocks_in_range(m.functions@[i])),
            Err(x) => r matches Err(y) && y@ == x,
        },
{
    let mut functions: Vec<Function> = Vec::new();
    let mut i: usize = 0;
    assert(ir_views(functions@) =~= Seq::empty());
    while i < ast.items.len()
        invariant
            i <= ast.items@.len(),
            lower_functions(ast@, i as nat) == Ok::<Seq<IrFunctionView>, LowerFault>(
                ir_views(functions@),
            ),
            forall|j: int| 0 <= j < functions@.len() ==> straight(#[trigger] functions@[j]),
            forall|j: int| 0 <= j < functions@.len() ==> #[trigger] blocks_in_range(functions@[j]),
        decreases ast.items@.len() - i,
    {
        let ghost before = ir_views(functions@);
        match &ast.items[i] {
            Item::Function(f) => {
                assert(ast@[i as int] == f@);
                match lower_one(f) {
                    Err(d) => {
                        proof {
                            lemma_first_bad_function(ast@, (i + 1) as nat, ast@.len());
                        }
                        return Err(d);
                    },
                    Ok(g) => {
                        let ghost view = ir_view(g);
                        functions.push(g);
                        assert(ir_views(functions@) =~= before.push(view));
                    },
                }
            },
        }
        i = i + 1;
    }
    Ok(IrModule { functions })
}

} // verus!
