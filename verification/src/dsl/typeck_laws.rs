//! The typing rules, one by one.

use crate::dsl::ast::{
    BinOp, DimKind, ExprKindView, ExprView, FunctionView, ParamView, ScalarType, StmtKindView,
    StmtView, TypeKindView, TypeView,
};
use crate::dsl::typeck::{
    check_function, check_functions, check_module, check_stmt, check_stmts, find, infer, infer_args,
    lookup, param_env, ty_of, Env, TyView,
};
use vstd::prelude::*;

verus! {

/// The type is one of plain numbers.
pub open spec fn is_number(t: TyView, elem: ScalarType) -> bool {
    t.elem == elem && !t.tensor && t.dims.len() == 0
}

/// A type that is written down is the one it names: a scalar, or a tensor of its
/// element type with its dimensions in order.
pub proof fn lemma_written_type(t: TypeView)
    ensures
        t.kind matches TypeKindView::Scalar(s) ==> is_number(ty_of(t), s),
        t.kind matches TypeKindView::Tensor { elem, dims, .. } ==> {
            &&& ty_of(t).tensor
            &&& ty_of(t).elem == elem
            &&& ty_of(t).dims.len() == dims.len()
            &&& forall|i: int| 0 <= i < dims.len() ==> ty_of(t).dims[i] == (#[trigger] dims[i]).kind
        },
{
}

/// A name has the type of its latest binding.
pub proof fn lemma_name_type(fs: Seq<FunctionView>, env: Env, e: ExprView, name: Seq<char>, i: int)
    requires
        e.kind == ExprKindView::Ident(name),
        0 <= i < env.len(),
        env[i].0 == name,
        forall|j: int| i < j < env.len() ==> (#[trigger] env[j]).0 != name,
    ensures
        infer(fs, env, e) matches Ok(t) && t == env[i].1,
{
    lemma_lookup_at(env, name, i);
}

proof fn lemma_lookup_at(env: Env, name: Seq<char>, i: int)
    requires
        0 <= i < env.len(),
        env[i].0 == name,
        forall|j: int| i < j < env.len() ==> (#[trigger] env[j]).0 != name,
    ensures
        lookup(env, name) == Some(env[i].1),
    decreases env.len(),
{
    let n = env.len() - 1;
    if i < n {
        assert(env[n].0 != name);
        let head = env.drop_last();
        assert forall|j: int| i < j < head.len() implies (#[trigger] head[j]).0 != name by {
            assert(env[j].0 != name);
        }
        lemma_lookup_at(head, name, i);
    }
}

/// A name that is not bound has no type.
pub proof fn lemma_no_name(fs: Seq<FunctionView>, env: Env, e: ExprView, name: Seq<char>)
    requires
        e.kind == ExprKindView::Ident(name),
        forall|j: int| 0 <= j < env.len() ==> (#[trigger] env[j]).0 != name,
    ensures
        infer(fs, env, e) is Err,
{
    lemma_no_lookup(env, name);
}

proof fn lemma_no_lookup(env: Env, name: Seq<char>)
    requires
        forall|j: int| 0 <= j < env.len() ==> (#[trigger] env[j]).0 != name,
    ensures
        lookup(env, name) is None,
    decreases env.len(),
{
    if env.len() > 0 {
        let head = env.drop_last();
        assert(env[env.len() - 1].0 != name);
        assert forall|j: int| 0 <= j < head.len() implies (#[trigger] head[j]).0 != name by {
            assert(env[j].0 != name);
        }
        lemma_no_lookup(head, name);
    }
}

/// Two dimensions can be the same: they are, or one of them is not known.
pub open spec fn may_agree(a: DimKind, b: DimKind) -> bool {
    a == b || a == DimKind::Dynamic || b == DimKind::Dynamic
}

/// An integer literal is an `i32` and a float literal an `f32`. Negation keeps the
/// type. `+`, `-`, `*` and `/` take two operands of one type and give that type.
/// `@` takes two matrices of one element type, the first with as many columns as
/// the second has rows, and gives the rows of the first and the columns of the
/// second. Nothing else of these kinds has a type.
pub proof fn lemma_expression_types(fs: Seq<FunctionView>, env: Env, e: ExprView)
    ensures
        e.kind is IntLit ==> (infer(fs, env, e) matches Ok(t) && is_number(t, ScalarType::I32)),
        e.kind is FloatLit ==> (infer(fs, env, e) matches Ok(t) && is_number(t, ScalarType::F32)),
        e.kind matches ExprKindView::Unary { expr, .. } ==> infer(fs, env, e) == infer(
            fs,
            env,
            *expr,
        ),
        e.kind matches ExprKindView::BinOp { op, lhs, rhs } ==> {
            let (a, b) = (infer(fs, env, *lhs), infer(fs, env, *rhs));
            &&& a is Err || b is Err ==> infer(fs, env, e) is Err
            &&& op != BinOp::MatMul && a is Ok && b is Ok ==> (infer(fs, env, e) is Ok <==> a->Ok_0
                == b->Ok_0)
            &&& op != BinOp::MatMul ==> (infer(fs, env, e) matches Ok(t) ==> t == a->Ok_0)
            &&& op == BinOp::MatMul && a is Ok && b is Ok ==> {
                let (x, y) = (a->Ok_0, b->Ok_0);
                &&& infer(fs, env, e) is Ok <==> x.tensor && y.tensor && x.dims.len() == 2
                    && y.dims.len() == 2 && x.elem == y.elem && may_agree(x.dims[1], y.dims[0])
                &&& infer(fs, env, e) matches Ok(t) ==> {
                    &&& t.tensor
                    &&& t.elem == x.elem
                    &&& t.dims.len() == 2
                    &&& t.dims[0] == x.dims[0]
                    &&& t.dims[1] == y.dims[1]
                }
            }
        },
{
}

/// A call has the result type of the first function of its name, where it gives
/// each parameter one argument of its type, in order; otherwise it has no type.
pub proof fn lemma_call_type(fs: Seq<FunctionView>, env: Env, e: ExprView, i: int)
    requires
        e.kind is Call,
        0 <= i < fs.len(),
        fs[i].name.name == e.kind->callee.name,
        forall|j: int| 0 <= j < i ==> (#[trigger] fs[j]).name.name != e.kind->callee.name,
    ensures
        ({
            let args = e.kind->args;
            let params = fs[i].params;
            &&& infer(fs, env, e) is Ok <==> args.len() == params.len() && forall|k: int|
                0 <= k < args.len() ==> (infer(fs, env, #[trigger] args[k]) matches Ok(t) && t
                    == ty_of(params[k].ty))
            &&& infer(fs, env, e) matches Ok(t) ==> t == ty_of(fs[i].ret)
        }),
{
    let args = e.kind->args;
    lemma_find_at(fs, e.kind->callee.name, i);
    if args.len() == fs[i].params.len() {
        lemma_arguments(fs, env, args, fs[i].params, args.len());
    }
}

proof fn lemma_find_at(fs: Seq<FunctionView>, name: Seq<char>, i: int)
    requires
        0 <= i < fs.len(),
        fs[i].name.name == name,
        forall|j: int| 0 <= j < i ==> (#[trigger] fs[j]).name.name != name,
    ensures
        find(fs, name) == Some(fs[i]),
    decreases i,
{
    if i > 0 {
        assert(fs[0].name.name != name);
        let rest = fs.drop_first();
        assert forall|j: int| 0 <= j < i - 1 implies (#[trigger] rest[j]).name.name != name by {
            assert(fs[j + 1].name.name != name);
        }
        lemma_find_at(rest, name, i - 1);
    }
}

proof fn lemma_arguments(
    fs: Seq<FunctionView>,
    env: Env,
    args: Seq<ExprView>,
    params: Seq<ParamView>,
    n: nat,
)
    requires
        n <= args.len(),
    ensures
        infer_args(fs, env, args, params, n) is None <==> forall|k: int|
            0 <= k < n ==> (infer(fs, env, #[trigger] args[k]) matches Ok(t) && t == ty_of(
                params[k].ty,
            )),
    decreases n,
{
    if n > 0 {
        lemma_arguments(fs, env, args, params, (n - 1) as nat);
        let last = args[n - 1];
        if infer_args(fs, env, args, params, n) is None {
            assert forall|k: int| 0 <= k < n implies (infer(fs, env, #[trigger] args[k]) matches Ok(t)
                && t == ty_of(params[k].ty)) by {}
        } else if infer_args(fs, env, args, params, (n - 1) as nat) is None {
            assert(!(infer(fs, env, last) matches Ok(t) && t == ty_of(params[n - 1].ty)));
        }
    }
}

/// A call of a name that no function has, has no type.
pub proof fn lemma_no_function(fs: Seq<FunctionView>, env: Env, e: ExprView)
    requires
        e.kind is Call,
        forall|j: int| 0 <= j < fs.len() ==> (#[trigger] fs[j]).name.name != e.kind->callee.name,
    ensures
        infer(fs, env, e) is Err,
{
    lemma_find_none(fs, e.kind->callee.name);
}

proof fn lemma_find_none(fs: Seq<FunctionView>, name: Seq<char>)
    requires
        forall|j: int| 0 <= j < fs.len() ==> (#[trigger] fs[j]).name.name != name,
    ensures
        find(fs, name) is None,
    decreases fs.len(),
{
    if fs.len() > 0 {
        assert(fs[0].name.name != name);
        let rest = fs.drop_first();
        assert forall|j: int| 0 <= j < rest.len() implies (#[trigger] rest[j]).name.name != name by {
            assert(fs[j + 1].name.name != name);
        }
        lemma_find_none(rest, name);
    }
}

/// The names in scope after the first `n` statements: each `let` binds one more.
pub open spec fn types_after(fs: Seq<FunctionView>, env: Env, stmts: Seq<StmtView>, n: nat) -> Env
    decreases n,
{
    if n == 0 || n > stmts.len() {
        env
    } else {
        let before = types_after(fs, env, stmts, (n - 1) as nat);
        match stmts[n - 1].kind {
            StmtKindView::Let { name, value } => before.push(
                (name.name, infer(fs, before, value)->Ok_0),
            ),
            _ => before,
        }
    }
}

/// A statement's expression has a type, and that of a return is the result type.
pub open spec fn fits(fs: Seq<FunctionView>, env: Env, st: StmtView, ret: TyView) -> bool {
    match st.kind {
        StmtKindView::Let { value, .. } => infer(fs, env, value) is Ok,
        StmtKindView::Expr(e) => infer(fs, env, e) is Ok,
        StmtKindView::Return(e) => infer(fs, env, e) matches Ok(t) && t == ret,
    }
}

/// A function type-checks exactly where each of its statements fits with the
/// parameters and the names bound before it in scope.
pub proof fn lemma_function_types(fs: Seq<FunctionView>, f: FunctionView, env: Env)
    requires
        env.len() == f.params.len(),
        forall|k: int|
            0 <= k < env.len() ==> (#[trigger] env[k]).0 == f.params[k].name.name && env[k].1
                == ty_of(f.params[k].ty),
    ensures
        check_function(fs, f) is None <==> forall|n: nat|
            n < f.stmts.len() ==> fits(
                fs,
                #[trigger] types_after(fs, env, f.stmts, n),
                f.stmts[n as int],
                ty_of(f.ret),
            ),
{
    assert(param_env(f.params) =~= env);
    lemma_statement_types(fs, ty_of(f.ret), env, f.stmts, f.stmts.len());
}

proof fn lemma_statement_types(
    fs: Seq<FunctionView>,
    ret: TyView,
    env: Env,
    stmts: Seq<StmtView>,
    n: nat,
)
    requires
        n <= stmts.len(),
    ensures
        check_stmts(fs, ret, env, stmts, n) is Ok <==> forall|k: nat|
            k < n ==> fits(fs, #[trigger] types_after(fs, env, stmts, k), stmts[k as int], ret),
        check_stmts(fs, ret, env, stmts, n) matches Ok(after) ==> after == types_after(
            fs,
            env,
            stmts,
            n,
        ),
    decreases n,
{
    if n > 0 {
        let m = (n - 1) as nat;
        lemma_statement_types(fs, ret, env, stmts, m);
        let before = types_after(fs, env, stmts, m);
        if check_stmts(fs, ret, env, stmts, m) is Ok {
            assert(check_stmt(fs, ret, before, stmts[m as int]) is Ok <==> fits(
                fs,
                before,
                stmts[m as int],
                ret,
            ));
            if check_stmts(fs, ret, env, stmts, n) is Ok {
                assert forall|k: nat| k < n implies fits(
                    fs,
                    #[trigger] types_after(fs, env, stmts, k),
                    stmts[k as int],
                    ret,
                ) by {}
            }
        }
    }
}

/// How many of the first `n` functions do not type-check.
pub open spec fn ill_typed(fs: Seq<FunctionView>, n: nat) -> nat
    decreases n,
{
    if n == 0 || n > fs.len() {
        0
    } else {
        ill_typed(fs, (n - 1) as nat) + if check_function(fs, fs[n - 1]) is None {
            0nat
        } else {
            1nat
        }
    }
}

/// Each function that does not type-check is reported once, in order, and nothing
/// else is.
pub proof fn lemma_module_types(fs: Seq<FunctionView>)
    ensures
        check_module(fs).len() == ill_typed(fs, fs.len()),
        check_module(fs).len() == 0 <==> forall|i: int|
            0 <= i < fs.len() ==> check_function(fs, #[trigger] fs[i]) is None,
        forall|i: int|
            0 <= i < fs.len() ==> (check_function(fs, #[trigger] fs[i]) matches Some(d) ==> check_module(
                fs,
            )[ill_typed(fs, i as nat) as int] == d),
{
    lemma_report_count(fs, fs.len());
    assert forall|i: int| 0 <= i < fs.len() implies (check_function(fs, #[trigger] fs[i]) matches Some(
        d,
    ) ==> check_module(fs)[ill_typed(fs, i as nat) as int] == d) by {
        if check_function(fs, fs[i]) is Some {
            lemma_report_at(fs, fs.len(), i);
        }
    }
}

proof fn lemma_report_count(fs: Seq<FunctionView>, n: nat)
    requires
        n <= fs.len(),
    ensures
        check_functions(fs, n).len() == ill_typed(fs, n),
        check_functions(fs, n).len() == 0 <==> forall|i: int|
            0 <= i < n ==> check_function(fs, #[trigger] fs[i]) is None,
    decreases n,
{
    if n > 0 {
        lemma_report_count(fs, (n - 1) as nat);
        assert(check_function(fs, fs[n - 1]) is None || check_functions(fs, n).len() > 0);
    }
}

proof fn lemma_report_at(fs: Seq<FunctionView>, n: nat, i: int)
    requires
        0 <= i < n <= fs.len(),
        check_function(fs, fs[i]) is Some,
    ensures
        ill_typed(fs, i as nat) < check_functions(fs, n).len(),
        check_functions(fs, n)[ill_typed(fs, i as nat) as int] == check_function(fs, fs[i])->0,
    decreases n,
{
    lemma_report_count(fs, (n - 1) as nat);
    if i < n - 1 {
        lemma_report_at(fs, (n - 1) as nat, i);
    }
}

} // verus!
