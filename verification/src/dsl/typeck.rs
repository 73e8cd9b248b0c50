//! Type checker. Shapes are part of types: a matrix product requires
//! `a.shape[1] == b.shape[0]` and has the shape `[a.shape[0], b.shape[1]]`.

use crate::dsl::ast::{
    expr_views, lemma_call_view, param_views, stmt_views, BinOp, DimKind, Expr, ExprKind,
    ExprKindView, ExprView, Function, FunctionView, Item, Module, Param, ParamView, ScalarType,
    Stmt, StmtKind, StmtKindView, StmtView, Type, TypeKind, TypeKindView, TypeView,
};
use crate::dsl::diagnostic::{diagnostics, error_at, Diagnostic, DiagnosticView};
use crate::dsl::span::Span;
use crate::text::{decimal, push_decimal, push_text};
use vstd::prelude::*;

verus! {

/// The type of a value: a scalar, or a tensor with its dimensions.
#[derive(Debug)]
pub struct Ty {
    pub elem: ScalarType,
    pub tensor: bool,
    pub dims: Vec<DimKind>,
}

/// What a [`Ty`] says.
#[verifier::ext_equal]
pub struct TyView {
    pub elem: ScalarType,
    pub tensor: bool,
    pub dims: Seq<DimKind>,
}

impl View for Ty {
    type V = TyView;

    open spec fn view(&self) -> TyView {
        TyView { elem: self.elem, tensor: self.tensor, dims: self.dims@ }
    }
}

impl Clone for Ty {
    fn clone(&self) -> (t: Self)
        ensures
            t@ == self@,
    {
        let mut dims: Vec<DimKind> = Vec::new();
        let mut i: usize = 0;
        while i < self.dims.len()
            invariant
                i <= self.dims@.len(),
                dims@ == self.dims@.subrange(0, i as int),
            decreases self.dims@.len() - i,
        {
            dims.push(self.dims[i]);
            i = i + 1;
            assert(self.dims@.subrange(0, i as int) =~= self.dims@.subrange(0, i - 1).push(
                self.dims@[i - 1],
            ));
        }
        assert(self.dims@.subrange(0, i as int) =~= self.dims@);
        Ty { elem: self.elem, tensor: self.tensor, dims }
    }
}

/// A scalar type.
pub open spec fn scalar(elem: ScalarType) -> TyView {
    TyView { elem, tensor: false, dims: Seq::empty() }
}

/// The type that is written down.
pub open spec fn ty_of(t: TypeView) -> TyView {
    match t.kind {
        TypeKindView::Scalar(s) => scalar(s),
        TypeKindView::Tensor { elem, dims, .. } => TyView {
            elem,
            tensor: true,
            dims: Seq::new(dims.len(), |i: int| dims[i].kind),
        },
    }
}

/// The keyword of a scalar type.
pub open spec fn scalar_text(s: ScalarType) -> Seq<char> {
    match s {
        ScalarType::F16 => "f16"@,
        ScalarType::F32 => "f32"@,
        ScalarType::I32 => "i32"@,
        ScalarType::Q4_0 => "q4_0"@,
        ScalarType::Q8_0 => "q8_0"@,
    }
}

/// A dimension as it is written.
pub open spec fn dim_text(d: DimKind) -> Seq<char> {
    match d {
        DimKind::Static(n) => decimal(n as nat),
        DimKind::Dynamic => "?"@,
    }
}

/// Dimensions, separated by a comma and a space.
pub open spec fn dims_text(dims: Seq<DimKind>) -> Seq<char>
    decreases dims.len(),
{
    if dims.len() == 0 {
        Seq::empty()
    } else if dims.len() == 1 {
        dim_text(dims[0])
    } else {
        dims_text(dims.drop_last()) + ", "@ + dim_text(dims.last())
    }
}

/// A type as it is written.
pub open spec fn ty_text(t: TyView) -> Seq<char> {
    if t.tensor {
        "tensor<"@ + scalar_text(t.elem) + ", ["@ + dims_text(t.dims) + "]>"@
    } else {
        scalar_text(t.elem)
    }
}

// ---- the rules ------------------------------------------------------------------------

/// The names in scope with their types, the latest last.
pub type Env = Seq<(Seq<char>, TyView)>;

/// The type of a name: that of its latest binding.
pub open spec fn lookup(env: Env, name: Seq<char>) -> Option<TyView>
    decreases env.len(),
{
    if env.len() == 0 {
        None
    } else if env.last().0 == name {
        Some(env.last().1)
    } else {
        lookup(env.drop_last(), name)
    }
}

/// The first function of a name.
pub open spec fn find(fs: Seq<FunctionView>, name: Seq<char>) -> Option<FunctionView>
    decreases fs.len(),
{
    if fs.len() == 0 {
        None
    } else if fs[0].name.name == name {
        Some(fs[0])
    } else {
        find(fs.drop_first(), name)
    }
}

/// Whether two dimensions cannot be the same.
pub open spec fn dims_differ(a: DimKind, b: DimKind) -> bool {
    match (a, b) {
        (DimKind::Static(x), DimKind::Static(y)) => x != y,
        _ => false,
    }
}

/// The type of a matrix product.
pub open spec fn matmul_type(a: TyView, b: TyView, span: Span) -> Result<TyView, DiagnosticView> {
    if !a.tensor || !b.tensor || a.dims.len() != 2 || b.dims.len() != 2 {
        Err(
            error_at(
                "`@` requires rank-2 tensors, found "@ + ty_text(a) + " and "@ + ty_text(b),
                span,
            ),
        )
    } else if a.elem != b.elem {
        Err(
            error_at(
                "`@` element type mismatch: "@ + scalar_text(a.elem) + " vs "@ + scalar_text(b.elem),
                span,
            ),
        )
    } else if dims_differ(a.dims[1], b.dims[0]) {
        Err(
            error_at(
                "`@` inner dimension mismatch: "@ + dim_text(a.dims[1]) + " vs "@ + dim_text(
                    b.dims[0],
                ),
                span,
            ),
        )
    } else {
        Ok(TyView { elem: a.elem, tensor: true, dims: seq![a.dims[0], b.dims[1]] })
    }
}

/// The type of an element-wise operation.
pub open spec fn same_type(op: BinOp, a: TyView, b: TyView, span: Span) -> Result<
    TyView,
    DiagnosticView,
> {
    if a == b {
        Ok(a)
    } else {
        Err(
            error_at(
                "type mismatch in `"@ + op.text() + "`: "@ + ty_text(a) + " vs "@ + ty_text(b),
                span,
            ),
        )
    }
}

/// The type of an expression.
pub open spec fn infer(fs: Seq<FunctionView>, env: Env, e: ExprView) -> Result<
    TyView,
    DiagnosticView,
>
    decreases e, 0nat,
{
    match e.kind {
        ExprKindView::Ident(name) => match lookup(env, name) {
            Some(t) => Ok(t),
            None => Err(error_at("unknown identifier `"@ + name + "`"@, e.span)),
        },
        ExprKindView::IntLit(_) => Ok(scalar(ScalarType::I32)),
        ExprKindView::FloatLit(_) => Ok(scalar(ScalarType::F32)),
        ExprKindView::Unary { op, expr } => infer(fs, env, *expr),
        ExprKindView::BinOp { op, lhs, rhs } => match infer(fs, env, *lhs) {
            Err(d) => Err(d),
            Ok(a) => match infer(fs, env, *rhs) {
                Err(d) => Err(d),
                Ok(b) => if op == BinOp::MatMul {
                    matmul_type(a, b, e.span)
                } else {
                    same_type(op, a, b, e.span)
                },
            },
        },
        ExprKindView::Call { callee, args } => match find(fs, callee.name) {
            None => Err(error_at("unknown function `"@ + callee.name + "`"@, callee.span)),
            Some(f) => if args.len() != f.params.len() {
                Err(
                    error_at(
                        "`"@ + callee.name + "` takes "@ + decimal(f.params.len())
                            + " arguments, found "@ + decimal(args.len()),
                        e.span,
                    ),
                )
            } else {
                match infer_args(fs, env, args, f.params, args.len()) {
                    Some(d) => Err(d),
                    None => Ok(ty_of(f.ret)),
                }
            },
        },
    }
}

/// What is wrong with the first `n` arguments of a call.
pub open spec fn infer_args(
    fs: Seq<FunctionView>,
    env: Env,
    args: Seq<ExprView>,
    params: Seq<ParamView>,
    n: nat,
) -> Option<DiagnosticView>
    decreases args, n,
{
    if n == 0 || n > args.len() {
        None
    } else {
        match infer_args(fs, env, args, params, (n - 1) as nat) {
            Some(d) => Some(d),
            None => match infer(fs, env, args[n - 1]) {
                Err(d) => Some(d),
                Ok(t) => if t == ty_of(params[n - 1].ty) {
                    None
                } else {
                    Some(
                        error_at(
                            "argument type mismatch: expected "@ + ty_text(
                                ty_of(params[n - 1].ty),
                            ) + ", found "@ + ty_text(t),
                            args[n - 1].span,
                        ),
                    )
                },
            },
        }
    }
}

/// A statement's effect: the names in scope after it, or what is wrong.
pub open spec fn check_stmt(fs: Seq<FunctionView>, ret: TyView, env: Env, st: StmtView) -> Result<
    Env,
    DiagnosticView,
> {
    match st.kind {
        StmtKindView::Let { name, value } => match infer(fs, env, value) {
            Err(d) => Err(d),
            Ok(t) => Ok(env.push((name.name, t))),
        },
        StmtKindView::Return(e) => match infer(fs, env, e) {
            Err(d) => Err(d),
            Ok(t) => if t == ret {
                Ok(env)
            } else {
                Err(
                    error_at(
                        "return type mismatch: expected "@ + ty_text(ret) + ", found "@ + ty_text(t),
                        e.span,
                    ),
                )
            },
        },
        StmtKindView::Expr(e) => match infer(fs, env, e) {
            Err(d) => Err(d),
            Ok(_) => Ok(env),
        },
    }
}

/// The names in scope after the first `n` statements, or what is wrong with the
/// first bad one.
pub open spec fn check_stmts(
    fs: Seq<FunctionView>,
    ret: TyView,
    env: Env,
    stmts: Seq<StmtView>,
    n: nat,
) -> Result<Env, DiagnosticView>
    decreases n,
{
    if n == 0 || n > stmts.len() {
        Ok(env)
    } else {
        match check_stmts(fs, ret, env, stmts, (n - 1) as nat) {
            Err(d) => Err(d),
            Ok(mid) => check_stmt(fs, ret, mid, stmts[n - 1]),
        }
    }
}

/// The parameters of a function, as names in scope.
pub open spec fn param_env(params: Seq<ParamView>) -> Env {
    Seq::new(params.len(), |i: int| (params[i].name.name, ty_of(params[i].ty)))
}

/// What is wrong with a function.
pub open spec fn check_function(fs: Seq<FunctionView>, f: FunctionView) -> Option<DiagnosticView> {
    match check_stmts(fs, ty_of(f.ret), param_env(f.params), f.stmts, f.stmts.len()) {
        Ok(_) => None,
        Err(d) => Some(d),
    }
}

/// What is wrong with the first `n` functions: for each bad one, its first
/// error.
pub open spec fn check_functions(fs: Seq<FunctionView>, n: nat) -> Seq<DiagnosticView>
    decreases n,
{
    if n == 0 || n > fs.len() {
        Seq::empty()
    } else {
        match check_function(fs, fs[n - 1]) {
            None => check_functions(fs, (n - 1) as nat),
            Some(d) => check_functions(fs, (n - 1) as nat).push(d),
        }
    }
}

/// What is wrong with a module.
pub open spec fn check_module(fs: Seq<FunctionView>) -> Seq<DiagnosticView> {
    check_functions(fs, fs.len())
}

// ---- texts ----------------------------------------------------------------------------

fn scalar_name(s: ScalarType) -> (r: &'static str)
    ensures
        r@ == scalar_text(s),
{
    match s {
        ScalarType::F16 => "f16",
        ScalarType::F32 => "f32",
        ScalarType::I32 => "i32",
        ScalarType::Q4_0 => "q4_0",
        ScalarType::Q8_0 => "q8_0",
    }
}

fn push_dim(out: &mut String, d: DimKind)
    ensures
        final(out)@ == old(out)@ + dim_text(d),
{
    match d {
        DimKind::Static(n) => {
            push_decimal(out, n);
        },
        DimKind::Dynamic => {
            push_text(out, "?");
        },
    }
}

fn push_dims(out: &mut String, dims: &Vec<DimKind>)
    ensures
        final(out)@ == old(out)@ + dims_text(dims@),
{
    let mut i: usize = 0;
    assert(dims@.subrange(0, 0) =~= Seq::empty());
    while i < dims.len()
        invariant
            i <= dims@.len(),
            out@ == old(out)@ + dims_text(dims@.subrange(0, i as int)),
        decreases dims@.len() - i,
    {
        let ghost before = out@;
        if i > 0 {
            push_text(out, ", ");
        }
        push_dim(out, dims[i]);
        i = i + 1;
        proof {
            let s = dims@.subrange(0, i as int);
            assert(s.drop_last() =~= dims@.subrange(0, i - 1));
            assert(out@ =~= old(out)@ + dims_text(s));
        }
    }
    assert(dims@.subrange(0, i as int) =~= dims@);
}

fn push_ty(out: &mut String, t: &Ty)
    ensures
        final(out)@ == old(out)@ + ty_text(t@),
{
    let ghost before = out@;
    if t.tensor {
        push_text(out, "tensor<");
        push_text(out, scalar_name(t.elem));
        push_text(out, ", [");
        push_dims(out, &t.dims);
        push_text(out, "]>");
        assert(out@ =~= before + ty_text(t@));
    } else {
        push_text(out, scalar_name(t.elem));
    }
}

// ---- the checker ----------------------------------------------------------------------

/// The names in scope.
spec fn env_view(env: Seq<(String, Ty)>) -> Env {
    Seq::new(env.len(), |i: int| (env[i].0@, env[i].1@))
}

fn scalar_ty(elem: ScalarType) -> (t: Ty)
    ensures
        t@ == scalar(elem),
{
    let t = Ty { elem, tensor: false, dims: Vec::new() };
    assert(t@ =~= scalar(elem));
    t
}

fn written(t: &Type) -> (r: Ty)
    ensures
        r@ == ty_of(t@),
{
    match &t.kind {
        TypeKind::Scalar(s) => scalar_ty(*s),
        TypeKind::Tensor { elem, shape } => {
            let mut dims: Vec<DimKind> = Vec::new();
            let mut i: usize = 0;
            while i < shape.dims.len()
                invariant
                    i <= shape.dims@.len(),
                    dims@.len() == i,
                    forall|j: int| 0 <= j < i ==> dims@[j] == shape.dims@[j].kind,
                decreases shape.dims@.len() - i,
            {
                dims.push(shape.dims[i].kind);
                i = i + 1;
            }
            let r = Ty { elem: *elem, tensor: true, dims };
            assert(r@ =~= ty_of(t@));
            r
        },
    }
}

fn same(a: &Ty, b: &Ty) -> (r: bool)
    ensures
        r == (a@ == b@),
{
    if a.elem != b.elem || a.tensor != b.tensor || a.dims.len() != b.dims.len() {
        return false;
    }
    let mut i: usize = 0;
    while i < a.dims.len()
        invariant
            i <= a.dims@.len(),
            a.dims@.len() == b.dims@.len(),
            forall|j: int| 0 <= j < i ==> a.dims@[j] == b.dims@[j],
        decreases a.dims@.len() - i,
    {
        if a.dims[i] != b.dims[i] {
            return false;
        }
        i = i + 1;
    }
    assert(a@ =~= b@);
    true
}

fn lookup_name(env: &Vec<(String, Ty)>, name: &String) -> (r: Option<usize>)
    ensures
        match r {
            Some(i) => i < env@.len() && lookup(env_view(env@), name@) == Some(env@[i as int].1@),
            None => lookup(env_view(env@), name@) is None,
        },
{
    let ghost views = env_view(env@);
    let mut i: usize = env.len();
    assert(views.subrange(0, i as int) =~= views);
    while i > 0
        invariant
            i <= env@.len(),
            views == env_view(env@),
            lookup(views, name@) == lookup(views.subrange(0, i as int), name@),
        decreases i,
    {
        proof {
            assert(views.subrange(0, i as int).drop_last() =~= views.subrange(0, i - 1));
        }
        if env[i - 1].0 == *name {
            return Some(i - 1);
        }
        i = i - 1;
    }
    None
}

fn find_function(m: &Module, name: &String) -> (r: Option<usize>)
    ensures
        match r {
            Some(i) => i < m.items@.len() && find(m@, name@) == Some(m.items@[i as int]@),
            None => find(m@, name@) is None,
        },
{
    let ghost fs = m@;
    let mut i: usize = 0;
    assert(fs.subrange(0, fs.len() as int) =~= fs);
    while i < m.items.len()
        invariant
            i <= m.items@.len(),
            fs == m@,
            find(fs, name@) == find(fs.subrange(i as int, fs.len() as int), name@),
        decreases m.items@.len() - i,
    {
        let ghost rest = fs.subrange(i as int, fs.len() as int);
        match &m.items[i] {
            Item::Function(f) => {
                assert(rest[0] == f@);
                if f.name.name == *name {
                    return Some(i);
                }
            },
        }
        proof {
            assert(rest.drop_first() =~= fs.subrange(i + 1, fs.len() as int));
        }
        i = i + 1;
    }
    None
}

fn differ(a: DimKind, b: DimKind) -> (r: bool)
    ensures
        r == dims_differ(a, b),
{
    match (a, b) {
        (DimKind::Static(x), DimKind::Static(y)) => x != y,
        _ => false,
    }
}

fn product_type(a: &Ty, b: &Ty, span: Span) -> (r: Result<Ty, Diagnostic>)
    ensures
        match matmul_type(a@, b@, span) {
            Ok(t) => r matches Ok(x) && x@ == t,
            Err(d) => r matches Err(e) && e@ == d,
        },
{
    if !a.tensor || !b.tensor || a.dims.len() != 2 || b.dims.len() != 2 {
        let mut m: String = "`@` requires rank-2 tensors, found ".to_string();
        push_ty(&mut m, a);
        push_text(&mut m, " and ");
        push_ty(&mut m, b);
        return Err(Diagnostic::error(m.as_str(), span));
    }
    if a.elem != b.elem {
        let mut m: String = "`@` element type mismatch: ".to_string();
        push_text(&mut m, scalar_name(a.elem));
        push_text(&mut m, " vs ");
        push_text(&mut m, scalar_name(b.elem));
        return Err(Diagnostic::error(m.as_str(), span));
    }
    if differ(a.dims[1], b.dims[0]) {
        let mut m: String = "`@` inner dimension mismatch: ".to_string();
        push_dim(&mut m, a.dims[1]);
        push_text(&mut m, " vs ");
        push_dim(&mut m, b.dims[0]);
        return Err(Diagnostic::error(m.as_str(), span));
    }
    let mut dims: Vec<DimKind> = Vec::new();
    dims.push(a.dims[0]);
    dims.push(b.dims[1]);
    let t = Ty { elem: a.elem, tensor: true, dims };
    assert(t@.dims =~= seq![a.dims@[0], b.dims@[1]]);
    Ok(t)
}

fn elementwise_type(op: BinOp, a: Ty, b: &Ty, span: Span) -> (r: Result<Ty, Diagnostic>)
    ensures
        match same_type(op, a@, b@, span) {
            Ok(t) => r matches Ok(x) && x@ == t,
            Err(d) => r matches Err(e) && e@ == d,
        },
{
    if same(&a, b) {
        Ok(a)
    } else {
        let mut m: String = "type mismatch in `".to_string();
        push_text(&mut m, op.symbol());
        push_text(&mut m, "`: ");
        push_ty(&mut m, &a);
        push_text(&mut m, " vs ");
        push_ty(&mut m, b);
        Err(Diagnostic::error(m.as_str(), span))
    }
}

fn unknown(what: &str, name: &String, span: Span) -> (d: Diagnostic)
    ensures
        d@ == error_at(what@ + name@ + "`"@, span),
{
    let mut m: String = what.to_string();
    push_text(&mut m, name.as_str());
    push_text(&mut m, "`");
    Diagnostic::error(m.as_str(), span)
}

fn type_of(m: &Module, env: &Vec<(String, Ty)>, e: &Expr) -> (r: Result<Ty, Diagnostic>)
    ensures
        match infer(m@, env_view(env@), e@) {
            Ok(t) => r matches Ok(x) && x@ == t,
            Err(d) => r matches Err(x) && x@ == d,
        },
    decreases e, 0nat,
{
    match &e.kind {
        ExprKind::Ident(name) => match lookup_name(env, name) {
            Some(i) => {
                let t = &env[i].1;
                Ok(t.clone())
            },
            None => Err(unknown("unknown identifier `", name, e.span)),
        },
        ExprKind::IntLit(_) => Ok(scalar_ty(ScalarType::I32)),
        ExprKind::FloatLit(_) => Ok(scalar_ty(ScalarType::F32)),
        ExprKind::Unary { op: _, expr } => type_of(m, env, expr),
        ExprKind::BinOp { op, lhs, rhs } => {
            let a = match type_of(m, env, lhs) {
                Ok(t) => t,
                Err(d) => {
                    return Err(d);
                },
            };
            let b = match type_of(m, env, rhs) {
                Ok(t) => t,
                Err(d) => {
                    return Err(d);
                },
            };
            if *op == BinOp::MatMul {
                product_type(&a, &b, e.span)
            } else {
                elementwise_type(*op, a, &b, e.span)
            }
        },
        ExprKind::Call { callee, args } => {
            proof {
                lemma_call_view(*e);
            }
            match find_function(m, &callee.name) {
                None => Err(unknown("unknown function `", &callee.name, callee.span)),
                Some(i) => match &m.items[i] {
                    Item::Function(f) => {
                        if args.len() != f.params.len() {
                            let mut text: String = "`".to_string();
                            push_text(&mut text, callee.name.as_str());
                            push_text(&mut text, "` takes ");
                            push_decimal(&mut text, f.params.len() as u64);
                            push_text(&mut text, " arguments, found ");
                            push_decimal(&mut text, args.len() as u64);
                            return Err(Diagnostic::error(text.as_str(), e.span));
                        }
                        match bad_argument(m, env, args, &f.params, args.len()) {
                            Some(d) => Err(d),
                            None => Ok(written(&f.ret)),
                        }
                    },
                },
            }
        },
    }
}

fn bad_argument(
    m: &Module,
    env: &Vec<(String, Ty)>,
    args: &Vec<Expr>,
    params: &Vec<Param>,
    n: usize,
) -> (r: Option<Diagnostic>)
    requires
        n <= args@.len(),
        args@.len() == params@.len(),
    ensures
        match infer_args(m@, env_view(env@), expr_views(args@), param_views(params@), n as nat) {
            Some(d) => r matches Some(x) && x@ == d,
            None => r is None,
        },
    decreases args, n as nat,
{
    if n == 0 {
        return None;
    }
    match bad_argument(m, env, args, params, n - 1) {
        Some(d) => {
            return Some(d);
        },
        None => {},
    }
    match type_of(m, env, &args[n - 1]) {
        Err(d) => Some(d),
        Ok(t) => {
            let want = written(&params[n - 1].ty);
            if same(&t, &want) {
                None
            } else {
                let mut text: String = "argument type mismatch: expected ".to_string();
                push_ty(&mut text, &want);
                push_text(&mut text, ", found ");
                push_ty(&mut text, &t);
                Some(Diagnostic::error(text.as_str(), args[n - 1].span))
            }
        },
    }
}

fn step(m: &Module, ret: &Ty, env: &mut Vec<(String, Ty)>, st: &Stmt) -> (r: Result<
    (),
    Diagnostic,
>)
    ensures
        match check_stmt(m@, ret@, env_view(old(env)@), st@) {
            Ok(after) => r is Ok && env_view(final(env)@) == after,
            Err(d) => r matches Err(e) && e@ == d,
        },
{
    let ghost before = env_view(env@);
    match &st.kind {
        StmtKind::Let { name, value } => match type_of(m, env, value) {
            Err(d) => Err(d),
            Ok(t) => {
                let ghost view = t@;
                env.push((name.name.clone(), t));
                assert(env_view(env@) =~= before.push((name.name@, view)));
                Ok(())
            },
        },
        StmtKind::Return(e) => match type_of(m, env, e) {
            Err(d) => Err(d),
            Ok(t) => if same(&t, ret) {
                Ok(())
            } else {
                let mut text: String = "return type mismatch: expected ".to_string();
                push_ty(&mut text, ret);
                push_text(&mut text, ", found ");
                push_ty(&mut text, &t);
                Err(Diagnostic::error(text.as_str(), e.span))
            },
        },
        StmtKind::Expr(e) => match type_of(m, env, e) {
            Err(d) => Err(d),
            Ok(_) => Ok(()),
        },
    }
}

proof fn lemma_first_bad(
    fs: Seq<FunctionView>,
    ret: TyView,
    env: Env,
    stmts: Seq<StmtView>,
    i: nat,
    n: nat,
)
    requires
        i <= n <= stmts.len(),
        check_stmts(fs, ret, env, stmts, i) is Err,
    ensures
        check_stmts(fs, ret, env, stmts, n) == check_stmts(fs, ret, env, stmts, i),
    decreases n,
{
    if i < n {
        lemma_first_bad(fs, ret, env, stmts, i, (n - 1) as nat);
    }
}

fn bad_function(m: &Module, f: &Function) -> (r: Option<Diagnostic>)
    ensures
        match check_function(m@, f@) {
            Some(d) => r matches Some(x) && x@ == d,
            None => r is None,
        },
{
    let ret = written(&f.ret);
    let ghost params = param_views(f.params@);
    let ghost start = param_env(params);
    let ghost stmts = stmt_views(f.body.stmts@);
    let mut env: Vec<(String, Ty)> = Vec::new();
    let mut i: usize = 0;
    while i < f.params.len()
        invariant
            i <= f.params@.len(),
            params == param_views(f.params@),
            start == param_env(params),
            env_view(env@) == start.subrange(0, i as int),
        decreases f.params@.len() - i,
    {
        let ghost before = env_view(env@);
        let t = written(&f.params[i].ty);
        let ghost view = t@;
        env.push((f.params[i].name.name.clone(), t));
        proof {
            assert(params[i as int] == f.params@[i as int]@);
            assert(env_view(env@) =~= before.push((f.params@[i as int].name.name@, view)));
            assert(start.subrange(0, i + 1) =~= start.subrange(0, i as int).push(start[i as int]));
        }
        i = i + 1;
    }
    assert(start.subrange(0, i as int) =~= start);
    let mut j: usize = 0;
    while j < f.body.stmts.len()
        invariant
            j <= f.body.stmts@.len(),
            stmts == stmt_views(f.body.stmts@),
            start == param_env(param_views(f.params@)),
            ret@ == ty_of(f.ret@),
            check_stmts(m@, ret@, start, stmts, j as nat) == Ok::<Env, DiagnosticView>(
                env_view(env@),
            ),
        decreases f.body.stmts@.len() - j,
    {
        match step(m, &ret, &mut env, &f.body.stmts[j]) {
            Ok(()) => {},
            Err(d) => {
                proof {
                    lemma_first_bad(m@, ret@, start, stmts, (j + 1) as nat, stmts.len());
                }
                return Some(d);
            },
        }
        j = j + 1;
    }
    None
}

/// Checks the types of a module.
pub struct TypeChecker;

impl TypeChecker {
    /// Whether every function is well-typed, or what is wrong: for each bad
    /// function its first error, in order.
    pub fn check(module: &Module) -> (r: Result<(), Vec<Diagnostic>>)
        ensures
            r is Ok <==> check_module(module@).len() == 0,
            r matches Err(errors) ==> diagnostics(errors@) == check_module(module@),
    {
        let mut errors: Vec<Diagnostic> = Vec::new();
        let mut i: usize = 0;
        while i < module.items.len()
            invariant
                i <= module.items@.len(),
                diagnostics(errors@) == check_functions(module@, i as nat),
            decreases module.items@.len() - i,
        {
            let ghost before = diagnostics(errors@);
            match &module.items[i] {
                Item::Function(f) => {
                    assert(module@[i as int] == f@);
                    match bad_function(module, f) {
                        Some(d) => {
                            let ghost view = d@;
                            errors.push(d);
                            assert(diagnostics(errors@) =~= before.push(view));
                        },
                        None => {},
                    }
                },
            }
            i = i + 1;
        }
        assert(diagnostics(errors@).len() == errors@.len());
        if errors.len() == 0 {
            Ok(())
        } else {
            Err(errors)
        }
    }
}

} // verus!
