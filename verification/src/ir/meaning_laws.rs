//! Lowering keeps what a function computes.
//!
//! Both sides are given a meaning over any kind of number: the source by its
//! names and operators, the IR by its values. Lowering carries one to the other.

use crate::dsl::ast::{
    BinOp, DimKind, ExprKindView, ExprView, FunctionView, ParamView, ScalarType, StmtKindView, StmtView,
};
use crate::dsl::typeck::{ty_of, TyView};
use crate::ir::lower::{
    lower_binary, lower_dims, lower_expr, lower_function, lower_params, lower_stmt, lower_stmts,
    lower_ty, param_names, param_ops, type_at, value_of, LowerFault, Names, Values,
};
use crate::ir::op::Op;
use crate::ir::ty::{DType, Dim, TensorTypeView};
use vstd::prelude::*;

verus! {

// ---- types ----------------------------------------------------------------------------

/// Every dimension is known and fits the IR.
pub open spec fn sized_dims(dims: Seq<DimKind>) -> bool {
    forall|i: int|
        0 <= i < dims.len() ==> ((#[trigger] dims[i]) matches DimKind::Static(n) && n <= 0xFFFF_FFFF)
}

/// `low` is the type `t`: the same element type, and the same dimensions in order.
pub open spec fn same_ty(t: TyView, low: TensorTypeView) -> bool {
    &&& t.elem == ScalarType::F16 ==> low.dtype == DType::F16
    &&& t.elem == ScalarType::F32 ==> low.dtype == DType::F32
    &&& t.elem == ScalarType::I32 ==> low.dtype == DType::I32
    &&& t.elem == ScalarType::Q4_0 ==> low.dtype == DType::Q4_0
    &&& t.elem == ScalarType::Q8_0 ==> low.dtype == DType::Q8_0
    &&& low.dims.len() == t.dims.len()
    &&& forall|i: int|
        0 <= i < t.dims.len() ==> ((#[trigger] t.dims[i]) matches DimKind::Static(n) && low.dims[i]
            == Dim::Static(n as u32))
}

/// A type is lowered exactly where all its dimensions are known and fit, and is
/// the same type on the other side.
pub proof fn lemma_type_kept(t: TyView)
    ensures
        lower_ty(t) is Ok <==> sized_dims(t.dims),
        lower_ty(t) matches Ok(low) ==> same_ty(t, low),
{
    lemma_dims_kept(t.dims);
}

proof fn lemma_dims_kept(dims: Seq<DimKind>)
    ensures
        lower_dims(dims) is Ok <==> sized_dims(dims),
        lower_dims(dims) matches Ok(low) ==> low.len() == dims.len() && forall|i: int|
            0 <= i < dims.len() ==> ((#[trigger] dims[i]) matches DimKind::Static(n) && low[i]
                == Dim::Static(n as u32)),
    decreases dims.len(),
{
    if dims.len() > 0 {
        let head = dims.drop_last();
        lemma_dims_kept(head);
        assert(dims[dims.len() - 1] == dims.last());
        if sized_dims(dims) {
            assert forall|i: int| 0 <= i < head.len() implies ((#[trigger] head[i]) matches DimKind::Static(
                n,
            ) && n <= 0xFFFF_FFFF) by {
                assert(head[i] == dims[i]);
            }
        }
        if lower_dims(dims) is Ok {
            let low = lower_dims(dims)->Ok_0;
            assert forall|i: int| 0 <= i < dims.len() implies ((#[trigger] dims[i]) matches DimKind::Static(
                n,
            ) && n <= 0xFFFF_FFFF && low[i] == Dim::Static(n as u32)) by {
                if i < head.len() {
                    assert(head[i] == dims[i]);
                }
            }
        }
    }
}

proof fn lemma_param_types(params: Seq<ParamView>, n: nat)
    requires
        n <= params.len(),
        lower_params(params, n) is Ok,
    ensures
        lower_params(params, n)->Ok_0.len() == n,
        forall|i: int|
            0 <= i < n ==> lower_ty(ty_of((#[trigger] params[i]).ty)) == Ok::<
                TensorTypeView,
                LowerFault,
            >(lower_params(params, n)->Ok_0[i]),
    decreases n,
{
    if n > 0 {
        lemma_param_types(params, (n - 1) as nat);
    }
}

/// A lowered function keeps its name, and its parameters and its result keep their
/// types, in order.
pub proof fn lemma_signature_kept(function: FunctionView)
    requires
        lower_function(function) is Ok,
    ensures
        ({
            let low = lower_function(function)->Ok_0;
            &&& low.name == function.name.name
            &&& low.params.len() == function.params.len()
            &&& same_ty(ty_of(function.ret), low.ret)
            &&& forall|i: int|
                0 <= i < function.params.len() ==> same_ty(
                    ty_of((#[trigger] function.params[i]).ty),
                    low.params[i],
                )
        }),
{
    let low = lower_function(function)->Ok_0;
    lemma_param_types(function.params, function.params.len());
    lemma_type_kept(ty_of(function.ret));
    assert forall|i: int| 0 <= i < function.params.len() implies same_ty(
        ty_of((#[trigger] function.params[i]).ty),
        low.params[i],
    ) by {
        lemma_type_kept(ty_of(function.params[i].ty));
    }
}

/// A name is bound where it is among the names.
proof fn lemma_named(names: Names, name: Seq<char>)
    ensures
        value_of(names, name) is Some <==> exists|i: int|
            0 <= i < names.len() && (#[trigger] names[i]).0 == name,
    decreases names.len(),
{
    if names.len() > 0 {
        let head = names.drop_last();
        lemma_named(head, name);
        assert(names[names.len() - 1] == names.last());
        if exists|i: int| 0 <= i < head.len() && (#[trigger] head[i]).0 == name {
            let i = choose|i: int| 0 <= i < head.len() && (#[trigger] head[i]).0 == name;
            assert(names[i].0 == name);
        }
        if exists|i: int| 0 <= i < names.len() && (#[trigger] names[i]).0 == name {
            let i = choose|i: int| 0 <= i < names.len() && (#[trigger] names[i]).0 == name;
            if i < head.len() {
                assert(head[i].0 == name);
            }
        }
    }
}

/// Which expressions have a value: a name that is bound; `+` and `*` of two that
/// have one; `@` of two that have one, both of rank two. Literals, negation, calls,
/// `-` and `/` have none. A name adds no value, an operator adds its own last, of
/// the type of its left operand, or for `@` with its rows and the right one's
/// columns.
pub proof fn lemma_what_lowers(names: Names, vals: Values, e: ExprView)
    ensures
        e.kind matches ExprKindView::Ident(name) ==> (lower_expr(names, vals, e) is Ok <==> exists|
            i: int,
        |
            0 <= i < names.len() && (#[trigger] names[i]).0 == name),
        e.kind is IntLit || e.kind is FloatLit || e.kind is Unary || e.kind is Call ==> lower_expr(
            names,
            vals,
            e,
        ) is Err,
        e.kind matches ExprKindView::BinOp { op, lhs, rhs } ==> {
            let left = lower_expr(names, vals, *lhs);
            let right = lower_expr(names, left->Ok_0.0, *rhs);
            let (after, l, r) = (right->Ok_0.0, left->Ok_0.1, right->Ok_0.1);
            let (lt, rt) = (type_at(after, l), type_at(after, r));
            &&& lower_expr(names, vals, e) is Ok <==> left is Ok && right is Ok && (op == BinOp::Add
                || op == BinOp::Mul || (op == BinOp::MatMul && lt.dims.len() == 2 && rt.dims.len()
                == 2))
            &&& lower_expr(names, vals, e) matches Ok((last, id)) ==> {
                &&& last.len() == after.len() + 1
                &&& last.drop_last() == after
                &&& op == BinOp::MatMul ==> last.last().1.dtype == lt.dtype && last.last().1.dims
                    == seq![lt.dims[0], rt.dims[1]]
                &&& op != BinOp::MatMul ==> last.last().1 == lt
            }
        },
{
    match e.kind {
        ExprKindView::Ident(name) => {
            lemma_named(names, name);
        },
        ExprKindView::BinOp { op, lhs, rhs } => {
            if lower_expr(names, vals, e) is Ok {
                let left = lower_expr(names, vals, *lhs);
                let after = lower_expr(names, left->Ok_0.0, *rhs)->Ok_0.0;
                let last = lower_expr(names, vals, e)->Ok_0.0;
                assert(last.drop_last() =~= after);
            }
        },
        _ => {},
    }
}

// ---- what a function means ------------------------------------------------------------

/// The names in scope with what they stand for, the latest last.
pub type Scope<T> = Seq<(Seq<char>, T)>;

/// What a name stands for: the binding that came last.
pub open spec fn bound<T>(scope: Scope<T>, name: Seq<char>) -> Option<T>
    decreases scope.len(),
{
    if scope.len() == 0 {
        None
    } else if scope.last().0 == name {
        Some(scope.last().1)
    } else {
        bound(scope.drop_last(), name)
    }
}

/// What an expression comes to, where `f` says what the operators do. Only names,
/// `+`, `*` and `@` have a value in the IR.
pub open spec fn worth<T>(f: spec_fn(BinOp, T, T) -> T, scope: Scope<T>, e: ExprView) -> Option<T>
    decreases e,
{
    match e.kind {
        ExprKindView::Ident(name) => bound(scope, name),
        ExprKindView::BinOp { op, lhs, rhs } => match (
            worth(f, scope, *lhs),
            worth(f, scope, *rhs),
        ) {
            (Some(a), Some(b)) => if op == BinOp::Add || op == BinOp::Mul || op == BinOp::MatMul {
                Some(f(op, a, b))
            } else {
                None
            },
            _ => None,
        },
        _ => None,
    }
}

/// The names in scope after the first `n` statements: each `let` binds one more.
pub open spec fn scope_after<T>(
    f: spec_fn(BinOp, T, T) -> T,
    scope: Scope<T>,
    stmts: Seq<StmtView>,
    n: nat,
) -> Scope<T>
    decreases n,
{
    if n == 0 || n > stmts.len() {
        scope
    } else {
        let before = scope_after(f, scope, stmts, (n - 1) as nat);
        match stmts[n - 1].kind {
            StmtKindView::Let { name, value } => match worth(f, before, value) {
                Some(v) => before.push((name.name, v)),
                None => before,
            },
            _ => before,
        }
    }
}

/// What a function gives back for its arguments, where its last statement is a
/// return.
pub open spec fn given<T>(
    f: spec_fn(BinOp, T, T) -> T,
    function: FunctionView,
    args: Seq<T>,
) -> Option<T> {
    let scope = Seq::new(args.len(), |i: int| (function.params[i].name.name, args[i]));
    match function.stmts.last().kind {
        StmtKindView::Return(e) => worth(
            f,
            scope_after(f, scope, function.stmts, (function.stmts.len() - 1) as nat),
            e,
        ),
        _ => None,
    }
}

// ---- what a value means ---------------------------------------------------------------

/// Two numbers, put together by an operator.
pub open spec fn joined<T>(
    f: spec_fn(BinOp, T, T) -> T,
    op: BinOp,
    a: Option<T>,
    b: Option<T>,
) -> Option<T> {
    match (a, b) {
        (Some(x), Some(y)) => Some(f(op, x, y)),
        _ => None,
    }
}

/// What value `i` of the IR holds for the arguments.
pub open spec fn held<T>(f: spec_fn(BinOp, T, T) -> T, args: Seq<T>, vals: Values, i: int) -> Option<
    T,
>
    decreases i,
{
    if i < 0 || i >= vals.len() {
        None
    } else {
        match vals[i].0 {
            Op::Param { index } => if index < args.len() {
                Some(args[index as int])
            } else {
                None
            },
            Op::Add { lhs, rhs } => if lhs.0 < i && rhs.0 < i {
                joined(
                    f,
                    BinOp::Add,
                    held(f, args, vals, lhs.0 as int),
                    held(f, args, vals, rhs.0 as int),
                )
            } else {
                None
            },
            Op::Mul { lhs, rhs } => if lhs.0 < i && rhs.0 < i {
                joined(
                    f,
                    BinOp::Mul,
                    held(f, args, vals, lhs.0 as int),
                    held(f, args, vals, rhs.0 as int),
                )
            } else {
                None
            },
            Op::MatMul { lhs, rhs } => if lhs.0 < i && rhs.0 < i {
                joined(
                    f,
                    BinOp::MatMul,
                    held(f, args, vals, lhs.0 as int),
                    held(f, args, vals, rhs.0 as int),
                )
            } else {
                None
            },
            _ => None,
        }
    }
}

/// More values: the first ones are the same.
spec fn extends(vals: Values, after: Values) -> bool {
    &&& vals.len() <= after.len()
    &&& forall|i: int| 0 <= i < vals.len() ==> #[trigger] after[i] == vals[i]
}

/// A value holds the same where more values follow.
proof fn lemma_held_extends<T>(
    f: spec_fn(BinOp, T, T) -> T,
    args: Seq<T>,
    vals: Values,
    after: Values,
    i: int,
)
    requires
        extends(vals, after),
        0 <= i < vals.len(),
    ensures
        held(f, args, after, i) == held(f, args, vals, i),
    decreases i,
{
    assert(after[i] == vals[i]);
    match vals[i].0 {
        Op::Add { lhs, rhs } => {
            if lhs.0 < i && rhs.0 < i {
                lemma_held_extends(f, args, vals, after, lhs.0 as int);
                lemma_held_extends(f, args, vals, after, rhs.0 as int);
            }
        },
        Op::Mul { lhs, rhs } => {
            if lhs.0 < i && rhs.0 < i {
                lemma_held_extends(f, args, vals, after, lhs.0 as int);
                lemma_held_extends(f, args, vals, after, rhs.0 as int);
            }
        },
        Op::MatMul { lhs, rhs } => {
            if lhs.0 < i && rhs.0 < i {
                lemma_held_extends(f, args, vals, after, lhs.0 as int);
                lemma_held_extends(f, args, vals, after, rhs.0 as int);
            }
        },
        _ => {},
    }
}

// ---- one to the other -----------------------------------------------------------------

/// The name at `k` is that of a value that holds what the name stands for.
spec fn stands_for<T>(
    f: spec_fn(BinOp, T, T) -> T,
    args: Seq<T>,
    scope: Scope<T>,
    names: Names,
    vals: Values,
    k: int,
) -> bool {
    &&& names[k].0 == scope[k].0
    &&& (names[k].1).0 < vals.len()
    &&& held(f, args, vals, (names[k].1).0 as int) == Some(scope[k].1)
}

/// Each name is that of a value that holds what the name stands for.
spec fn in_step<T>(
    f: spec_fn(BinOp, T, T) -> T,
    args: Seq<T>,
    scope: Scope<T>,
    names: Names,
    vals: Values,
) -> bool {
    &&& names.len() == scope.len()
    &&& forall|k: int| 0 <= k < names.len() ==> #[trigger] stands_for(f, args, scope, names, vals, k)
}

proof fn lemma_in_step_extends<T>(
    f: spec_fn(BinOp, T, T) -> T,
    args: Seq<T>,
    scope: Scope<T>,
    names: Names,
    vals: Values,
    after: Values,
)
    requires
        in_step(f, args, scope, names, vals),
        extends(vals, after),
    ensures
        in_step(f, args, scope, names, after),
{
    assert forall|k: int| 0 <= k < names.len() implies #[trigger] stands_for(
        f,
        args,
        scope,
        names,
        after,
        k,
    ) by {
        assert(stands_for(f, args, scope, names, vals, k));
        lemma_held_extends(f, args, vals, after, (names[k].1).0 as int);
    }
}

proof fn lemma_name<T>(
    f: spec_fn(BinOp, T, T) -> T,
    args: Seq<T>,
    scope: Scope<T>,
    names: Names,
    vals: Values,
    name: Seq<char>,
)
    requires
        in_step(f, args, scope, names, vals),
        value_of(names, name) is Some,
    ensures
        (value_of(names, name)->0).0 < vals.len(),
        bound(scope, name) is Some,
        held(f, args, vals, (value_of(names, name)->0).0 as int) == bound(scope, name),
    decreases names.len(),
{
    let n = names.len() - 1;
    assert(stands_for(f, args, scope, names, vals, n));
    if names.last().0 != name {
        let s = scope.drop_last();
        let m = names.drop_last();
        assert forall|k: int| 0 <= k < m.len() implies #[trigger] stands_for(f, args, s, m, vals, k) by {
            assert(stands_for(f, args, scope, names, vals, k));
        }
        lemma_name(f, args, s, m, vals, name);
    }
}

/// Lowering an expression only adds values.
proof fn lemma_expr_extends(names: Names, vals: Values, e: ExprView)
    requires
        lower_expr(names, vals, e) is Ok,
    ensures
        extends(vals, lower_expr(names, vals, e)->Ok_0.0),
    decreases e,
{
    match e.kind {
        ExprKindView::BinOp { op, lhs, rhs } => {
            let (mid, l) = lower_expr(names, vals, *lhs)->Ok_0;
            let (after, r) = lower_expr(names, mid, *rhs)->Ok_0;
            lemma_expr_extends(names, vals, *lhs);
            lemma_expr_extends(names, mid, *rhs);
            let last = lower_binary(after, op, l, r)->Ok_0.0;
            assert(extends(after, last));
            assert forall|i: int| 0 <= i < vals.len() implies #[trigger] last[i] == vals[i] by {
                assert(mid[i] == vals[i]);
                assert(after[i] == mid[i]);
            }
        },
        _ => {},
    }
}

/// An expression is lowered to a value that holds what the expression comes to:
/// each name is the value of its latest binding, and each operator is its own
/// operation on its left and its right operand. There are no more values than ids.
pub proof fn lemma_expression_kept<T>(
    f: spec_fn(BinOp, T, T) -> T,
    args: Seq<T>,
    scope: Scope<T>,
    names: Names,
    vals: Values,
    e: ExprView,
)
    requires
        names.len() == scope.len(),
        forall|k: int|
            0 <= k < names.len() ==> (#[trigger] names[k]).0 == scope[k].0 && (names[k].1).0
                < vals.len() && held(f, args, vals, (names[k].1).0 as int) == Some(scope[k].1),
        lower_expr(names, vals, e) is Ok,
        lower_expr(names, vals, e)->Ok_0.0.len() <= 0x1_0000_0000,
    ensures
        ({
            let (after, id) = lower_expr(names, vals, e)->Ok_0;
            &&& worth(f, scope, e) is Some
            &&& held(f, args, after, id.0 as int) == worth(f, scope, e)
        }),
{
    assert forall|k: int| 0 <= k < names.len() implies #[trigger] stands_for(
        f,
        args,
        scope,
        names,
        vals,
        k,
    ) by {
        assert(names[k].0 == scope[k].0);
    }
    lemma_expression(f, args, scope, names, vals, e);
}

proof fn lemma_expression<T>(
    f: spec_fn(BinOp, T, T) -> T,
    args: Seq<T>,
    scope: Scope<T>,
    names: Names,
    vals: Values,
    e: ExprView,
)
    requires
        in_step(f, args, scope, names, vals),
        lower_expr(names, vals, e) is Ok,
        lower_expr(names, vals, e)->Ok_0.0.len() <= 0x1_0000_0000,
    ensures
        ({
            let (after, id) = lower_expr(names, vals, e)->Ok_0;
            &&& extends(vals, after)
            &&& id.0 < after.len()
            &&& worth(f, scope, e) is Some
            &&& held(f, args, after, id.0 as int) == worth(f, scope, e)
        }),
    decreases e,
{
    match e.kind {
        ExprKindView::Ident(name) => {
            lemma_name(f, args, scope, names, vals, name);
        },
        ExprKindView::BinOp { op, lhs, rhs } => {
            let (mid, l) = lower_expr(names, vals, *lhs)->Ok_0;
            let (after, r) = lower_expr(names, mid, *rhs)->Ok_0;
            let (last, id) = lower_binary(after, op, l, r)->Ok_0;
            lemma_expr_extends(names, mid, *rhs);
            lemma_expression(f, args, scope, names, vals, *lhs);
            lemma_in_step_extends(f, args, scope, names, vals, mid);
            lemma_expression(f, args, scope, names, mid, *rhs);
            lemma_held_extends(f, args, mid, after, l.0 as int);
            assert(extends(after, last));
            lemma_held_extends(f, args, after, last, l.0 as int);
            lemma_held_extends(f, args, after, last, r.0 as int);
            lemma_expr_extends(names, vals, e);
            assert(id.0 == after.len());
            assert(held(f, args, last, id.0 as int) == joined(
                f,
                op,
                held(f, args, last, l.0 as int),
                held(f, args, last, r.0 as int),
            ));
        },
        _ => {},
    }
}

/// Lowering statements only adds values.
proof fn lemma_stmts_extend(names: Names, vals: Values, stmts: Seq<StmtView>, n: nat)
    requires
        lower_stmts(names, vals, stmts, n) is Ok,
        n <= stmts.len(),
    ensures
        extends(vals, lower_stmts(names, vals, stmts, n)->Ok_0.1),
        n > 0 ==> lower_stmts(names, vals, stmts, (n - 1) as nat) is Ok && lower_stmts(
            names,
            vals,
            stmts,
            (n - 1) as nat,
        )->Ok_0.1.len() <= lower_stmts(names, vals, stmts, n)->Ok_0.1.len(),
    decreases n,
{
    if n > 0 {
        let (mid, some) = lower_stmts(names, vals, stmts, (n - 1) as nat)->Ok_0;
        lemma_stmts_extend(names, vals, stmts, (n - 1) as nat);
        let last = lower_stmt(mid, some, stmts[n - 1])->Ok_0.1;
        match stmts[n - 1].kind {
            StmtKindView::Let { name, value } => {
                lemma_expr_extends(mid, some, value);
            },
            StmtKindView::Return(e) => {
                lemma_expr_extends(mid, some, e);
            },
            StmtKindView::Expr(e) => {
                lemma_expr_extends(mid, some, e);
            },
        }
        assert forall|i: int| 0 <= i < vals.len() implies #[trigger] last[i] == vals[i] by {
            assert(some[i] == vals[i]);
        }
    }
}

proof fn lemma_statements<T>(
    f: spec_fn(BinOp, T, T) -> T,
    args: Seq<T>,
    scope: Scope<T>,
    names: Names,
    vals: Values,
    stmts: Seq<StmtView>,
    n: nat,
)
    requires
        in_step(f, args, scope, names, vals),
        n <= stmts.len(),
        lower_stmts(names, vals, stmts, n) is Ok,
        lower_stmts(names, vals, stmts, n)->Ok_0.1.len() <= 0x1_0000_0000,
    ensures
        in_step(
            f,
            args,
            scope_after(f, scope, stmts, n),
            lower_stmts(names, vals, stmts, n)->Ok_0.0,
            lower_stmts(names, vals, stmts, n)->Ok_0.1,
        ),
    decreases n,
{
    if n > 0 {
        lemma_stmts_extend(names, vals, stmts, n);
        lemma_statements(f, args, scope, names, vals, stmts, (n - 1) as nat);
        let (mid, some) = lower_stmts(names, vals, stmts, (n - 1) as nat)->Ok_0;
        let before = scope_after(f, scope, stmts, (n - 1) as nat);
        let (m, last) = lower_stmt(mid, some, stmts[n - 1])->Ok_0;
        match stmts[n - 1].kind {
            StmtKindView::Let { name, value } => {
                lemma_expression(f, args, before, mid, some, value);
                lemma_in_step_extends(f, args, before, mid, some, last);
                let s = scope_after(f, scope, stmts, n);
                assert forall|k: int| 0 <= k < m.len() implies #[trigger] stands_for(
                    f,
                    args,
                    s,
                    m,
                    last,
                    k,
                ) by {
                    if k < mid.len() {
                        assert(stands_for(f, args, before, mid, last, k));
                    }
                }
            },
            StmtKindView::Return(e) => {
                lemma_expression(f, args, before, mid, some, e);
                let after = lower_expr(mid, some, e)->Ok_0.0;
                lemma_in_step_extends(f, args, before, mid, some, after);
                lemma_in_step_extends(f, args, before, mid, after, last);
            },
            StmtKindView::Expr(e) => {
                lemma_expression(f, args, before, mid, some, e);
                lemma_in_step_extends(f, args, before, mid, some, last);
            },
        }
    }
}

/// Lowering keeps what a function computes. Whatever `+`, `*` and `@` do, and
/// whatever the arguments are, the last value of the lowered function returns a
/// value that holds what the source gives back. There are no more values than ids.
pub proof fn lemma_function_kept<T>(
    f: spec_fn(BinOp, T, T) -> T,
    function: FunctionView,
    args: Seq<T>,
)
    requires
        args.len() == function.params.len(),
        function.stmts.len() > 0,
        function.stmts.last().kind is Return,
        lower_function(function) is Ok,
        lower_function(function)->Ok_0.values.len() <= 0x1_0000_0000,
    ensures
        ({
            let values = lower_function(function)->Ok_0.values;
            &&& given(f, function, args) is Some
            &&& values.last().0 matches Op::Return { value } && held(
                f,
                args,
                values,
                value.0 as int,
            ) == given(f, function, args)
        }),
{
    let types = lower_params(function.params, function.params.len())->Ok_0;
    lemma_param_types(function.params, function.params.len());
    let scope = Seq::new(args.len(), |i: int| (function.params[i].name.name, args[i]));
    let names = param_names(function.params);
    let vals = param_ops(types);
    let stmts = function.stmts;
    let n = (stmts.len() - 1) as nat;
    let values = lower_function(function)->Ok_0.values;
    lemma_stmts_extend(names, vals, stmts, stmts.len());
    assert forall|k: int| 0 <= k < names.len() implies #[trigger] stands_for(
        f,
        args,
        scope,
        names,
        vals,
        k,
    ) by {
        assert(vals[k].0 == Op::Param { index: k as u32 });
        assert((names[k].1).0 == k);
    }
    lemma_statements(f, args, scope, names, vals, stmts, n);
    let (mid, some) = lower_stmts(names, vals, stmts, n)->Ok_0;
    match stmts.last().kind {
        StmtKindView::Return(e) => {
            let (after, id) = lower_expr(mid, some, e)->Ok_0;
            lemma_expression(f, args, scope_after(f, scope, stmts, n), mid, some, e);
            assert(values == after.push(values.last()));
            lemma_held_extends(f, args, after, values, id.0 as int);
        },
        _ => {},
    }
}

} // verus!
