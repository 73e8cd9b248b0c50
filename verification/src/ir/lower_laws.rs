//! What type-checks and lowers is well-formed IR.

use crate::dsl::ast::{BinOp, DimKind, ExprKindView, ExprView, FunctionView, ParamView, StmtKindView, StmtView};
use crate::dsl::typeck::{
    check_function, check_functions, check_module, check_stmt, check_stmts, infer, lookup,
    matmul_type, param_env, same_type, ty_of, Env, TyView,
};
use crate::ir::lower::{
    ir_view, ir_views, lower_binary, lower_dim, lower_dims, lower_expr, lower_function,
    lower_functions, lower_module, lower_params, lower_stmt, lower_stmts, lower_ty, no_type,
    param_names, param_ops, straight, type_at, value_of, value_views, IrFunctionView, LowerFault,
    Names, Values,
};
use crate::ir::module::{first_ids, id_at, Block, Function, ValueId};
use crate::ir::op::Op;
use crate::ir::ty::{Dim, TensorTypeView};
use crate::ir::verify::{
    block_order, ends_in_return, function_faults, module_faults, operand_faults, operands_of, order_faults,
    returned, type_faults, VerifyFault,
};
use vstd::prelude::*;

verus! {

/// How many of the statements are returns.
pub open spec fn return_count(stmts: Seq<StmtView>) -> nat
    decreases stmts.len(),
{
    if stmts.len() == 0 {
        0
    } else {
        return_count(stmts.drop_last()) + (if stmts.last().kind is Return {
            1nat
        } else {
            0nat
        })
    }
}

/// The statements end with their only return.
pub open spec fn returns_at_end(stmts: Seq<StmtView>) -> bool {
    return_count(stmts) == 1 && stmts.last().kind is Return
}

// ---- types ----------------------------------------------------------------------------

/// Lowered dimensions, one by one.
proof fn lemma_lowered_dims(dims: Seq<DimKind>)
    requires
        lower_dims(dims) is Ok,
    ensures
        lower_dims(dims)->Ok_0.len() == dims.len(),
        forall|i: int|
            0 <= i < dims.len() ==> lower_dim(#[trigger] dims[i]) == Ok::<Dim, LowerFault>(
                lower_dims(dims)->Ok_0[i],
            ),
    decreases dims.len(),
{
    if dims.len() > 0 {
        lemma_lowered_dims(dims.drop_last());
        let s = lower_dims(dims)->Ok_0;
        assert forall|i: int| 0 <= i < dims.len() implies lower_dim(#[trigger] dims[i]) == Ok::<
            Dim,
            LowerFault,
        >(s[i]) by {
            if i < dims.len() - 1 {
                assert(dims.drop_last()[i] == dims[i]);
            }
        }
    }
}

/// Two dimensions, lowered.
proof fn lemma_two_dims(a: DimKind, b: DimKind, x: Dim, y: Dim)
    requires
        lower_dim(a) == Ok::<Dim, LowerFault>(x),
        lower_dim(b) == Ok::<Dim, LowerFault>(y),
    ensures
        lower_dims(seq![a, b]) == Ok::<Seq<Dim>, LowerFault>(seq![x, y]),
{
    let s = seq![a, b];
    assert(s.drop_last() =~= seq![a]);
    assert(seq![a].drop_last() =~= Seq::empty());
    reveal_with_fuel(lower_dims, 4);
    assert(lower_dims(seq![a]) == Ok::<Seq<Dim>, LowerFault>(Seq::empty().push(x)));
    assert(Seq::empty().push(x).push(y) =~= seq![x, y]);
}

// ---- values ---------------------------------------------------------------------------

/// Value `i` reads only values before it, of fitting types.
spec fn sound_at(vals: Values, i: int) -> bool {
    match vals[i].0 {
        Op::Param { .. } => true,
        Op::Return { value } => value.0 < i,
        Op::Add { lhs, rhs } => lhs.0 < i && rhs.0 < i && type_at(vals, lhs) == type_at(vals, rhs),
        Op::Mul { lhs, rhs } => lhs.0 < i && rhs.0 < i && type_at(vals, lhs) == type_at(vals, rhs),
        Op::MatMul { lhs, rhs } => {
            let l = type_at(vals, lhs);
            let r = type_at(vals, rhs);
            &&& lhs.0 < i
            &&& rhs.0 < i
            &&& l.dims.len() == 2
            &&& r.dims.len() == 2
            &&& l.dtype == r.dtype
            &&& l.dims[1] == r.dims[0]
        },
        _ => false,
    }
}

spec fn sound(vals: Values) -> bool {
    forall|i: int| 0 <= i < vals.len() ==> #[trigger] sound_at(vals, i)
}

/// The values of the returns, in order.
spec fn return_ids(vals: Values) -> Seq<ValueId>
    decreases vals.len(),
{
    if vals.len() == 0 {
        Seq::empty()
    } else {
        match vals.last().0 {
            Op::Return { value } => return_ids(vals.drop_last()).push(value),
            _ => return_ids(vals.drop_last()),
        }
    }
}

/// One more value keeps the others sound.
proof fn lemma_push_sound(vals: Values, v: (Op, TensorTypeView))
    requires
        sound(vals),
        sound_at(vals.push(v), vals.len() as int),
    ensures
        sound(vals.push(v)),
        vals.push(v).drop_last() == vals,
{
    let w = vals.push(v);
    assert(w.drop_last() =~= vals);
    assert forall|i: int| 0 <= i < w.len() implies #[trigger] sound_at(w, i) by {
        if i < vals.len() {
            assert(sound_at(vals, i));
            assert(w[i] == vals[i]);
        }
    }
}

/// The names in scope have values of their types.
spec fn agree(env: Env, names: Names, vals: Values) -> bool {
    &&& env.len() == names.len()
    &&& forall|i: int|
        0 <= i < env.len() ==> {
            &&& (#[trigger] env[i]).0 == names[i].0
            &&& (names[i].1).0 < vals.len()
            &&& lower_ty(env[i].1) == Ok::<TensorTypeView, LowerFault>(type_at(vals, names[i].1))
        }
}

/// A name has the value of its type.
proof fn lemma_lookup(env: Env, names: Names, vals: Values, name: Seq<char>)
    requires
        agree(env, names, vals),
        lookup(env, name) is Some,
    ensures
        value_of(names, name) is Some,
        (value_of(names, name)->0).0 < vals.len(),
        lower_ty(lookup(env, name)->0) == Ok::<TensorTypeView, LowerFault>(
            type_at(vals, value_of(names, name)->0),
        ),
    decreases env.len(),
{
    let n = env.len() - 1;
    if env.len() > 0 {
        assert(env[n].0 == names[n].0);
        if env.last().0 != name {
            let e = env.drop_last();
            let m = names.drop_last();
            assert forall|i: int| 0 <= i < e.len() implies {
                &&& (#[trigger] e[i]).0 == m[i].0
                &&& (m[i].1).0 < vals.len()
                &&& lower_ty(e[i].1) == Ok::<TensorTypeView, LowerFault>(type_at(vals, m[i].1))
            } by {
                assert(env[i].0 == names[i].0);
            }
            lemma_lookup(e, m, vals, name);
        }
    }
}

/// More values: the first ones are the same.
spec fn extends(vals: Values, after: Values) -> bool {
    &&& vals.len() <= after.len()
    &&& forall|i: int| 0 <= i < vals.len() ==> #[trigger] after[i] == vals[i]
}

proof fn lemma_agree_extends(env: Env, names: Names, vals: Values, after: Values)
    requires
        agree(env, names, vals),
        extends(vals, after),
    ensures
        agree(env, names, after),
{
    assert forall|i: int| 0 <= i < env.len() implies {
        &&& (#[trigger] env[i]).0 == names[i].0
        &&& (names[i].1).0 < after.len()
        &&& lower_ty(env[i].1) == Ok::<TensorTypeView, LowerFault>(type_at(after, names[i].1))
    } by {
        assert(after[(names[i].1).0 as int] == vals[(names[i].1).0 as int]);
    }
}

/// What lowering an expression of type `t` gives.
spec fn lowered(vals: Values, after: Values, id: ValueId, t: TyView) -> bool {
    &&& sound(after)
    &&& extends(vals, after)
    &&& id.0 < after.len()
    &&& lower_ty(t) == Ok::<TensorTypeView, LowerFault>(type_at(after, id))
    &&& return_ids(after) == return_ids(vals)
}

proof fn lemma_binary(
    vals: Values,
    op: BinOp,
    l: ValueId,
    r: ValueId,
    a: TyView,
    b: TyView,
    span: crate::dsl::span::Span,
)
    requires
        sound(vals),
        vals.len() < 0x1_0000_0000,
        l.0 < vals.len(),
        r.0 < vals.len(),
        lower_ty(a) == Ok::<TensorTypeView, LowerFault>(type_at(vals, l)),
        lower_ty(b) == Ok::<TensorTypeView, LowerFault>(type_at(vals, r)),
        lower_binary(vals, op, l, r) is Ok,
        if op == BinOp::MatMul {
            matmul_type(a, b, span) is Ok
        } else {
            same_type(op, a, b, span) is Ok
        },
    ensures
        ({
            let (after, id) = lower_binary(vals, op, l, r)->Ok_0;
            let t = if op == BinOp::MatMul {
                matmul_type(a, b, span)->Ok_0
            } else {
                same_type(op, a, b, span)->Ok_0
            };
            lowered(vals, after, id, t)
        }),
{
    let (after, id) = lower_binary(vals, op, l, r)->Ok_0;
    let v = after.last();
    assert(id.0 == vals.len());
    if op == BinOp::MatMul {
        lemma_lowered_dims(a.dims);
        lemma_lowered_dims(b.dims);
        let lt = type_at(vals, l);
        let rt = type_at(vals, r);
        assert(lower_dim(a.dims[1]) == Ok::<Dim, LowerFault>(lt.dims[1]));
        assert(lower_dim(b.dims[0]) == Ok::<Dim, LowerFault>(rt.dims[0]));
        assert(lower_dim(a.dims[0]) == Ok::<Dim, LowerFault>(lt.dims[0]));
        assert(lower_dim(b.dims[1]) == Ok::<Dim, LowerFault>(rt.dims[1]));
        lemma_two_dims(a.dims[0], b.dims[1], lt.dims[0], rt.dims[1]);
    }
    assert(sound_at(vals.push(v), vals.len() as int));
    lemma_push_sound(vals, v);
}

/// An expression that type-checks is lowered to a value of its type. The values
/// are fewer than there are ids.
proof fn lemma_expr(
    fs: Seq<FunctionView>,
    env: Env,
    names: Names,
    vals: Values,
    e: ExprView,
)
    requires
        agree(env, names, vals),
        sound(vals),
        infer(fs, env, e) is Ok,
        lower_expr(names, vals, e) is Ok,
        lower_expr(names, vals, e)->Ok_0.0.len() <= 0x1_0000_0000,
    ensures
        lowered(
            vals,
            lower_expr(names, vals, e)->Ok_0.0,
            lower_expr(names, vals, e)->Ok_0.1,
            infer(fs, env, e)->Ok_0,
        ),
    decreases e,
{
    match e.kind {
        ExprKindView::Ident(name) => {
            lemma_lookup(env, names, vals, name);
        },
        ExprKindView::BinOp { op, lhs, rhs } => {
            let (mid, l) = lower_expr(names, vals, *lhs)->Ok_0;
            let (after, r) = lower_expr(names, mid, *rhs)->Ok_0;
            let (last, id) = lower_binary(after, op, l, r)->Ok_0;
            assert(last.len() == after.len() + 1);
            lemma_grows(names, mid, *rhs);
            lemma_expr(fs, env, names, vals, *lhs);
            lemma_agree_extends(env, names, vals, mid);
            lemma_expr(fs, env, names, mid, *rhs);
            let a = infer(fs, env, *lhs)->Ok_0;
            let b = infer(fs, env, *rhs)->Ok_0;
            assert(after[l.0 as int] == mid[l.0 as int]);
            lemma_binary(after, op, l, r, a, b, e.span);
        },
        _ => {},
    }
}

/// Lowering an expression only adds values.
proof fn lemma_grows(names: Names, vals: Values, e: ExprView)
    requires
        lower_expr(names, vals, e) is Ok,
    ensures
        lower_expr(names, vals, e)->Ok_0.0.len() >= vals.len(),
    decreases e,
{
    match e.kind {
        ExprKindView::BinOp { op, lhs, rhs } => {
            let mid = lower_expr(names, vals, *lhs)->Ok_0.0;
            lemma_grows(names, vals, *lhs);
            lemma_grows(names, mid, *rhs);
        },
        _ => {},
    }
}

// ---- statements -----------------------------------------------------------------------

/// What holds after some statements: the names agree, the values are sound, and
/// every return is of the declared type.
spec fn so_far(env: Env, names: Names, vals: Values, ret: TyView, count: nat) -> bool {
    &&& agree(env, names, vals)
    &&& sound(vals)
    &&& return_ids(vals).len() == count
    &&& forall|i: int|
        0 <= i < return_ids(vals).len() ==> (#[trigger] return_ids(vals)[i]).0 < vals.len()
            && lower_ty(ret) == Ok::<TensorTypeView, LowerFault>(
            type_at(vals, return_ids(vals)[i]),
        )
}

proof fn lemma_stmt(
    fs: Seq<FunctionView>,
    ret: TyView,
    env: Env,
    names: Names,
    vals: Values,
    st: StmtView,
    count: nat,
)
    requires
        so_far(env, names, vals, ret, count),
        check_stmt(fs, ret, env, st) is Ok,
        lower_stmt(names, vals, st) is Ok,
        lower_stmt(names, vals, st)->Ok_0.1.len() <= 0x1_0000_0000,
    ensures
        so_far(
            check_stmt(fs, ret, env, st)->Ok_0,
            lower_stmt(names, vals, st)->Ok_0.0,
            lower_stmt(names, vals, st)->Ok_0.1,
            ret,
            count + if st.kind is Return {
                1nat
            } else {
                0nat
            },
        ),
{
    let e = match st.kind {
        StmtKindView::Let { name, value } => value,
        StmtKindView::Return(e) => e,
        StmtKindView::Expr(e) => e,
    };
    let (after, id) = lower_expr(names, vals, e)->Ok_0;
    lemma_expr(fs, env, names, vals, e);
    lemma_agree_extends(env, names, vals, after);
    let t = infer(fs, env, e)->Ok_0;
    let (names1, vals1) = lower_stmt(names, vals, st)->Ok_0;
    let env1 = check_stmt(fs, ret, env, st)->Ok_0;
    assert forall|i: int| 0 <= i < return_ids(after).len() implies (#[trigger] return_ids(after)[i]).0
        < after.len() && lower_ty(ret) == Ok::<TensorTypeView, LowerFault>(
        type_at(after, return_ids(after)[i]),
    ) by {
        let r = return_ids(vals)[i];
        assert(after[r.0 as int] == vals[r.0 as int]);
    }
    match st.kind {
        StmtKindView::Let { name, value } => {
            assert forall|i: int| 0 <= i < env1.len() implies {
                &&& (#[trigger] env1[i]).0 == names1[i].0
                &&& (names1[i].1).0 < vals1.len()
                &&& lower_ty(env1[i].1) == Ok::<TensorTypeView, LowerFault>(
                    type_at(vals1, names1[i].1),
                )
            } by {
                if i < env.len() {
                    assert(env[i].0 == names[i].0);
                }
            }
        },
        StmtKindView::Return(_) => {
            let v = (Op::Return { value: id }, no_type());
            assert(vals1 == after.push(v));
            assert(sound_at(vals1, after.len() as int));
            lemma_push_sound(after, v);
            assert(extends(after, vals1));
            lemma_agree_extends(env, names, after, vals1);
            assert(return_ids(vals1) == return_ids(after).push(id));
            assert forall|i: int| 0 <= i < return_ids(vals1).len() implies (
            #[trigger] return_ids(vals1)[i]).0 < vals1.len() && lower_ty(ret) == Ok::<
                TensorTypeView,
                LowerFault,
            >(type_at(vals1, return_ids(vals1)[i])) by {
                if i < return_ids(after).len() {
                    let r = return_ids(after)[i];
                    assert(vals1[r.0 as int] == after[r.0 as int]);
                }
            }
        },
        StmtKindView::Expr(_) => {},
    }
}

proof fn lemma_stmts(
    fs: Seq<FunctionView>,
    ret: TyView,
    env: Env,
    names: Names,
    vals: Values,
    stmts: Seq<StmtView>,
    n: nat,
)
    requires
        n <= stmts.len(),
        so_far(env, names, vals, ret, 0),
        check_stmts(fs, ret, env, stmts, n) is Ok,
        lower_stmts(names, vals, stmts, n) is Ok,
        lower_stmts(names, vals, stmts, n)->Ok_0.1.len() <= 0x1_0000_0000,
    ensures
        so_far(
            check_stmts(fs, ret, env, stmts, n)->Ok_0,
            lower_stmts(names, vals, stmts, n)->Ok_0.0,
            lower_stmts(names, vals, stmts, n)->Ok_0.1,
            ret,
            return_count(stmts.subrange(0, n as int)),
        ),
    decreases n,
{
    let part = stmts.subrange(0, n as int);
    if n == 0 {
        assert(part =~= Seq::empty());
    } else {
        let m = (n - 1) as nat;
        let (names1, vals1) = lower_stmts(names, vals, stmts, m)->Ok_0;
        lemma_stmt_grows(names1, vals1, stmts[n - 1]);
        lemma_stmts(fs, ret, env, names, vals, stmts, m);
        let env1 = check_stmts(fs, ret, env, stmts, m)->Ok_0;
        assert(part.drop_last() =~= stmts.subrange(0, m as int));
        assert(part.last() == stmts[n - 1]);
        lemma_stmt(
            fs,
            ret,
            env1,
            names1,
            vals1,
            stmts[n - 1],
            return_count(stmts.subrange(0, m as int)),
        );
    }
}

/// Lowering a statement only adds values.
proof fn lemma_stmt_grows(names: Names, vals: Values, st: StmtView)
    requires
        lower_stmt(names, vals, st) is Ok,
    ensures
        lower_stmt(names, vals, st)->Ok_0.1.len() >= vals.len(),
{
    let e = match st.kind {
        StmtKindView::Let { name, value } => value,
        StmtKindView::Return(e) => e,
        StmtKindView::Expr(e) => e,
    };
    lemma_grows(names, vals, e);
}

// ---- functions ------------------------------------------------------------------------

/// Lowered parameters, one by one.
proof fn lemma_params(params: Seq<ParamView>, n: nat)
    requires
        n <= params.len(),
        lower_params(params, n) is Ok,
    ensures
        lower_params(params, n)->Ok_0.len() == n,
        forall|i: int|
            0 <= i < n ==> lower_ty(ty_of((#[trigger] params[i]).ty)) == Ok::<
                TensorTypeView,
                LowerFault,
            >(lower_params(params, n)->Ok_0[i]),
    decreases n,
{
    if n > 0 {
        lemma_params(params, (n - 1) as nat);
    }
}

/// The values of parameters only.
proof fn lemma_param_ops(types: Seq<TensorTypeView>)
    ensures
        sound(param_ops(types)),
        return_ids(param_ops(types)) == Seq::<ValueId>::empty(),
    decreases types.len(),
{
    let vals = param_ops(types);
    assert forall|i: int| 0 <= i < vals.len() implies #[trigger] sound_at(vals, i) by {}
    if types.len() > 0 {
        lemma_param_ops(types.drop_last());
        assert(vals.drop_last() =~= param_ops(types.drop_last()));
    }
}

/// The values of a function that type-checks.
proof fn lemma_function_values(fs: Seq<FunctionView>, f: FunctionView)
    requires
        check_function(fs, f) is None,
        lower_function(f) is Ok,
        lower_function(f)->Ok_0.values.len() <= 0x1_0000_0000,
    ensures
        ({
            let g = lower_function(f)->Ok_0;
            let ids = return_ids(g.values);
            &&& sound(g.values)
            &&& ids.len() == return_count(f.stmts)
            &&& f.stmts.len() > 0 && f.stmts.last().kind is Return ==> g.values.len() > 0
                && g.values.last().0 is Return
            &&& forall|i: int|
                0 <= i < ids.len() ==> (#[trigger] ids[i]).0 < g.values.len() && type_at(
                    g.values,
                    ids[i],
                ) == g.ret
        }),
{
    let params = lower_params(f.params, f.params.len())->Ok_0;
    let ret = ty_of(f.ret);
    let env = param_env(f.params);
    let names = param_names(f.params);
    let vals = param_ops(params);
    lemma_params(f.params, f.params.len());
    lemma_param_ops(params);
    lemma_stmts_grow(names, vals, f.stmts, f.stmts.len());
    assert forall|i: int| 0 <= i < env.len() implies {
        &&& (#[trigger] env[i]).0 == names[i].0
        &&& (names[i].1).0 < vals.len()
        &&& lower_ty(env[i].1) == Ok::<TensorTypeView, LowerFault>(type_at(vals, names[i].1))
    } by {
        assert(lower_ty(ty_of(f.params[i].ty)) == Ok::<TensorTypeView, LowerFault>(params[i]));
        assert(id_at(i).0 == i);
    }
    lemma_stmts(fs, ret, env, names, vals, f.stmts, f.stmts.len());
    assert(f.stmts.subrange(0, f.stmts.len() as int) =~= f.stmts);
}

/// Lowering statements only adds values.
proof fn lemma_stmts_grow(names: Names, vals: Values, stmts: Seq<StmtView>, n: nat)
    requires
        n <= stmts.len(),
        lower_stmts(names, vals, stmts, n) is Ok,
    ensures
        lower_stmts(names, vals, stmts, n)->Ok_0.1.len() >= vals.len(),
    decreases n,
{
    if n > 0 {
        let m = (n - 1) as nat;
        let (names1, vals1) = lower_stmts(names, vals, stmts, m)->Ok_0;
        lemma_stmts_grow(names, vals, stmts, m);
        lemma_stmt_grows(names1, vals1, stmts[n - 1]);
    }
}

// ---- faults ---------------------------------------------------------------------------

/// Operands that are among the first `n` values are no fault.
proof fn lemma_no_operand_faults(f: Function, operands: Seq<ValueId>, n: nat)
    requires
        n <= f.values@.len(),
        n <= 0x1_0000_0000,
        forall|i: int| 0 <= i < operands.len() ==> (#[trigger] operands[i]).0 < n,
    ensures
        operand_faults(f, operands, first_ids(n)) == Seq::<VerifyFault>::empty(),
    decreases operands.len(),
{
    if operands.len() > 0 {
        let o = operands.last();
        lemma_no_operand_faults(f, operands.drop_last(), n);
        assert(first_ids(n)[o.0 as int] == o);
    }
}

/// The first `n` values of a function with sound values have no fault.
proof fn lemma_no_order_faults(f: Function, n: nat)
    requires
        n <= f.values@.len() <= 0x1_0000_0000,
        sound(value_views(f.values@)),
    ensures
        order_faults(f, first_ids(n)) == Seq::<VerifyFault>::empty(),
        returned(f, first_ids(n)) == return_ids(value_views(f.values@).subrange(0, n as int)),
    decreases n,
{
    let vals = value_views(f.values@);
    let part = vals.subrange(0, n as int);
    if n == 0 {
        assert(part =~= Seq::empty());
    } else {
        let m = (n - 1) as nat;
        lemma_no_order_faults(f, m);
        assert(first_ids(n).drop_last() =~= first_ids(m));
        assert(part.drop_last() =~= vals.subrange(0, m as int));
        let id = first_ids(n).last();
        assert(id == id_at(m as int) && id.0 == m);
        let op = f.values@[m as int].op;
        assert(vals[m as int].0 == op);
        assert(sound_at(vals, m as int));
        assert forall|i: int| 0 <= i < operands_of(op).len() implies (#[trigger] operands_of(op)[i]).0
            < m by {}
        lemma_no_operand_faults(f, operands_of(op), m);
        assert(type_faults(f, id) =~= Seq::empty());
    }
}

/// A function that type-checks, lowers and ends with its only return is
/// well-formed: the verifier finds no fault in its IR. Its values must be fewer than there are
/// ids.
pub proof fn lemma_lowered_function_verifies(fs: Seq<FunctionView>, f: FunctionView, g: Function)
    requires
        check_function(fs, f) is None,
        lower_function(f) == Ok::<IrFunctionView, LowerFault>(ir_view(g)),
        straight(g),
        returns_at_end(f.stmts),
        g.values@.len() <= 0x1_0000_0000,
    ensures
        function_faults(g) == Seq::<VerifyFault>::empty(),
{
    let n = g.values@.len();
    let vals = value_views(g.values@);
    lemma_function_values(fs, f);
    lemma_no_order_faults(g, n);
    assert(vals.subrange(0, n as int) =~= vals);
    let order = block_order(g.blocks@);
    assert(g.blocks@.drop_last() =~= Seq::<Block>::empty());
    assert(block_order(g.blocks@.drop_last()) =~= Seq::empty());
    assert(order =~= first_ids(n));
    let rets = returned(g, order);
    assert(rets == return_ids(vals));
    assert(rets[0] == return_ids(vals)[0]);
    assert(order.last() == id_at(n - 1) && order.last().0 == n - 1);
    assert(vals.last() == vals[n - 1]);
    assert(ends_in_return(g, order));
    assert(function_faults(g) =~= Seq::empty());
}

/// A module that type-checks, lowers and whose functions end with their only
/// return is well-formed: the verifier finds no fault in its IR.
pub proof fn lemma_lowered_module_verifies(fs: Seq<FunctionView>, functions: Seq<Function>)
    requires
        check_module(fs).len() == 0,
        lower_module(fs) == Ok::<Seq<IrFunctionView>, LowerFault>(ir_views(functions)),
        forall|i: int|
            0 <= i < functions.len() ==> straight(#[trigger] functions[i])
                && functions[i].values@.len() <= 0x1_0000_0000,
        forall|i: int| 0 <= i < fs.len() ==> returns_at_end((#[trigger] fs[i]).stmts),
    ensures
        module_faults(functions) == Seq::<VerifyFault>::empty(),
{
    lemma_lowered_functions(fs, fs.len());
    assert forall|i: int| 0 <= i < functions.len() implies function_faults(
        #[trigger] functions[i],
    ).len() == 0 by {
        lemma_checked(fs, fs.len(), i);
        assert(lower_function(fs[i]) == Ok::<IrFunctionView, LowerFault>(ir_views(functions)[i]));
        lemma_lowered_function_verifies(fs, fs[i], functions[i]);
    }
    lemma_no_module_faults(functions);
}

/// Functions without faults make a module without faults.
proof fn lemma_no_module_faults(functions: Seq<Function>)
    requires
        forall|i: int|
            0 <= i < functions.len() ==> function_faults(#[trigger] functions[i]).len() == 0,
    ensures
        module_faults(functions) == Seq::<VerifyFault>::empty(),
    decreases functions.len(),
{
    if functions.len() > 0 {
        lemma_no_module_faults(functions.drop_last());
        assert(function_faults(functions[functions.len() - 1]).len() == 0);
        assert(module_faults(functions) =~= Seq::empty());
    }
}

/// Lowered functions, one by one.
proof fn lemma_lowered_functions(fs: Seq<FunctionView>, n: nat)
    requires
        n <= fs.len(),
        lower_functions(fs, n) is Ok,
    ensures
        lower_functions(fs, n)->Ok_0.len() == n,
        forall|i: int|
            0 <= i < n ==> lower_function(#[trigger] fs[i]) == Ok::<IrFunctionView, LowerFault>(
                lower_functions(fs, n)->Ok_0[i],
            ),
    decreases n,
{
    if n > 0 {
        lemma_lowered_functions(fs, (n - 1) as nat);
    }
}

/// Each function of a module without errors type-checks.
proof fn lemma_checked(fs: Seq<FunctionView>, n: nat, i: int)
    requires
        n <= fs.len(),
        check_functions(fs, n).len() == 0,
        0 <= i < n,
    ensures
        check_function(fs, fs[i]) is None,
    decreases n,
{
    if i < n - 1 {
        lemma_checked(fs, (n - 1) as nat, i);
    }
}

} // verus!
