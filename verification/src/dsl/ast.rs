//! Abstract syntax tree. Shapes are part of types. Every node carries a span.
//!
//! Each type that owns text or a list has a view: the same tree over
//! mathematical sequences, which contracts speak of.

use crate::dsl::span::Span;
use vstd::prelude::*;

verus! {

/// A source file.
#[derive(Debug)]
pub struct Module {
    pub items: Vec<Item>,
}

/// A top-level item.
#[derive(Debug)]
pub enum Item {
    Function(Function),
}

#[derive(Debug)]
pub struct Function {
    pub name: Ident,
    pub params: Vec<Param>,
    pub ret: Type,
    pub body: Block,
    pub span: Span,
}

#[derive(Clone, Debug)]
pub struct Param {
    pub name: Ident,
    pub ty: Type,
    pub span: Span,
}

#[derive(Clone, Debug)]
pub struct Ident {
    pub name: String,
    pub span: Span,
}

#[derive(Clone, Debug)]
pub struct Type {
    pub kind: TypeKind,
    pub span: Span,
}

#[derive(Clone, Debug)]
pub enum TypeKind {
    Scalar(ScalarType),
    /// Tensor with element type and shape.
    Tensor { elem: ScalarType, shape: Shape },
}

#[derive(Copy, Clone, Debug, PartialEq, Eq, Structural)]
pub enum ScalarType {
    F16,
    F32,
    I32,
    Q4_0,
    Q8_0,
}

#[derive(Clone, Debug)]
pub struct Shape {
    pub dims: Vec<Dim>,
    pub span: Span,
}

#[derive(Copy, Clone, Debug, PartialEq, Eq, Structural)]
pub struct Dim {
    pub kind: DimKind,
    pub span: Span,
}

#[derive(Copy, Clone, Debug, PartialEq, Eq, Structural)]
pub enum DimKind {
    Static(u64),
    /// Resolved when the kernel is specialized.
    Dynamic,
}

#[derive(Debug)]
pub struct Block {
    pub stmts: Vec<Stmt>,
    pub span: Span,
}

#[derive(Debug)]
pub struct Stmt {
    pub kind: StmtKind,
    pub span: Span,
}

#[derive(Debug)]
pub enum StmtKind {
    Let { name: Ident, value: Expr },
    Return(Expr),
    Expr(Expr),
}

#[derive(Debug)]
pub struct Expr {
    pub kind: ExprKind,
    pub span: Span,
}

#[derive(Debug)]
pub enum ExprKind {
    Ident(String),
    IntLit(i64),
    /// A floating-point literal, as it is written.
    FloatLit(String),
    Unary { op: UnaryOp, expr: Box<Expr> },
    BinOp { op: BinOp, lhs: Box<Expr>, rhs: Box<Expr> },
    Call { callee: Ident, args: Vec<Expr> },
}

#[derive(Copy, Clone, Debug, PartialEq, Eq, Structural)]
pub enum UnaryOp {
    Neg,
}

#[derive(Copy, Clone, Debug, PartialEq, Eq, Structural)]
pub enum BinOp {
    Add,
    Sub,
    Mul,
    Div,
    /// `@`
    MatMul,
}

impl BinOp {
    /// How the operator is written.
    pub open spec fn text(self) -> Seq<char> {
        match self {
            BinOp::Add => "+"@,
            BinOp::Sub => "-"@,
            BinOp::Mul => "*"@,
            BinOp::Div => "/"@,
            BinOp::MatMul => "@"@,
        }
    }

    /// How the operator is written.
    pub fn symbol(self) -> (s: &'static str)
        ensures
            s@ == self.text(),
    {
        match self {
            BinOp::Add => "+",
            BinOp::Sub => "-",
            BinOp::Mul => "*",
            BinOp::Div => "/",
            BinOp::MatMul => "@",
        }
    }
}

impl Default for Module {
    fn default() -> (m: Self)
        ensures
            m.items@ == Seq::<Item>::empty(),
    {
        Module { items: Vec::new() }
    }
}

impl Default for Block {
    fn default() -> (b: Self)
        ensures
            b.stmts@ == Seq::<Stmt>::empty(),
            b.span == (Span { start: 0, end: 0 }),
    {
        Block { stmts: Vec::new(), span: Span::default() }
    }
}

// ---- views --------------------------------------------------------------------------

pub struct IdentView {
    pub name: Seq<char>,
    pub span: Span,
}

pub enum TypeKindView {
    Scalar(ScalarType),
    Tensor { elem: ScalarType, dims: Seq<Dim>, shape_span: Span },
}

pub struct TypeView {
    pub kind: TypeKindView,
    pub span: Span,
}

pub struct ParamView {
    pub name: IdentView,
    pub ty: TypeView,
    pub span: Span,
}

pub enum ExprKindView {
    Ident(Seq<char>),
    IntLit(i64),
    FloatLit(Seq<char>),
    Unary { op: UnaryOp, expr: Box<ExprView> },
    BinOp { op: BinOp, lhs: Box<ExprView>, rhs: Box<ExprView> },
    Call { callee: IdentView, args: Seq<ExprView> },
}

pub struct ExprView {
    pub kind: ExprKindView,
    pub span: Span,
}

pub enum StmtKindView {
    Let { name: IdentView, value: ExprView },
    Return(ExprView),
    Expr(ExprView),
}

pub struct StmtView {
    pub kind: StmtKindView,
    pub span: Span,
}

pub struct FunctionView {
    pub name: IdentView,
    pub params: Seq<ParamView>,
    pub ret: TypeView,
    pub stmts: Seq<StmtView>,
    pub body_span: Span,
    pub span: Span,
}

impl View for Ident {
    type V = IdentView;

    open spec fn view(&self) -> IdentView {
        IdentView { name: self.name@, span: self.span }
    }
}

impl View for Type {
    type V = TypeView;

    open spec fn view(&self) -> TypeView {
        TypeView {
            kind: match self.kind {
                TypeKind::Scalar(s) => TypeKindView::Scalar(s),
                TypeKind::Tensor { elem, shape } => TypeKindView::Tensor {
                    elem,
                    dims: shape.dims@,
                    shape_span: shape.span,
                },
            },
            span: self.span,
        }
    }
}

impl View for Param {
    type V = ParamView;

    open spec fn view(&self) -> ParamView {
        ParamView { name: self.name@, ty: self.ty@, span: self.span }
    }
}

/// The view of an expression.
pub open spec fn expr_view(e: Expr) -> ExprView
    decreases e, 0nat,
{
    ExprView {
        kind: match e.kind {
            ExprKind::Ident(s) => ExprKindView::Ident(s@),
            ExprKind::IntLit(v) => ExprKindView::IntLit(v),
            ExprKind::FloatLit(s) => ExprKindView::FloatLit(s@),
            ExprKind::Unary { op, expr } => ExprKindView::Unary {
                op,
                expr: Box::new(expr_view(*expr)),
            },
            ExprKind::BinOp { op, lhs, rhs } => ExprKindView::BinOp {
                op,
                lhs: Box::new(expr_view(*lhs)),
                rhs: Box::new(expr_view(*rhs)),
            },
            ExprKind::Call { callee, args } => ExprKindView::Call {
                callee: callee@,
                args: first_views(args, args@.len()),
            },
        },
        span: e.span,
    }
}

/// The views of the first `n` expressions of a list.
pub open spec fn first_views(v: Vec<Expr>, n: nat) -> Seq<ExprView>
    decreases v, n,
{
    if n == 0 || n > v@.len() {
        Seq::empty()
    } else {
        first_views(v, (n - 1) as nat).push(expr_view(v@[n - 1]))
    }
}

/// The views of a list of expressions.
pub open spec fn expr_views(s: Seq<Expr>) -> Seq<ExprView> {
    Seq::new(s.len(), |i: int| expr_view(s[i]))
}

pub(crate) proof fn lemma_first_views(v: Vec<Expr>, n: nat)
    requires
        n <= v@.len(),
    ensures
        first_views(v, n) == expr_views(v@.subrange(0, n as int)),
    decreases n,
{
    if n > 0 {
        lemma_first_views(v, (n - 1) as nat);
        assert(expr_views(v@.subrange(0, n as int)) =~= expr_views(
            v@.subrange(0, n - 1),
        ).push(expr_view(v@[n - 1])));
    } else {
        assert(expr_views(v@.subrange(0, 0)) =~= Seq::empty());
    }
}

/// The view of a call is made of the views of its arguments.
pub(crate) proof fn lemma_call_view(e: Expr)
    ensures
        e.kind matches ExprKind::Call { callee, args } ==> expr_view(e).kind
            == (ExprKindView::Call { callee: callee@, args: expr_views(args@) }),
{
    if let ExprKind::Call { callee, args } = e.kind {
        lemma_first_views(args, args@.len());
        assert(args@.subrange(0, args@.len() as int) =~= args@);
    }
}

impl View for Expr {
    type V = ExprView;

    open spec fn view(&self) -> ExprView {
        expr_view(*self)
    }
}

impl View for Stmt {
    type V = StmtView;

    open spec fn view(&self) -> StmtView {
        StmtView {
            kind: match self.kind {
                StmtKind::Let { name, value } => StmtKindView::Let { name: name@, value: value@ },
                StmtKind::Return(e) => StmtKindView::Return(e@),
                StmtKind::Expr(e) => StmtKindView::Expr(e@),
            },
            span: self.span,
        }
    }
}

/// The views of a list of parameters.
pub open spec fn param_views(s: Seq<Param>) -> Seq<ParamView> {
    Seq::new(s.len(), |i: int| s[i]@)
}

/// The views of a list of statements.
pub open spec fn stmt_views(s: Seq<Stmt>) -> Seq<StmtView> {
    Seq::new(s.len(), |i: int| s[i]@)
}

impl View for Function {
    type V = FunctionView;

    open spec fn view(&self) -> FunctionView {
        FunctionView {
            name: self.name@,
            params: param_views(self.params@),
            ret: self.ret@,
            stmts: stmt_views(self.body.stmts@),
            body_span: self.body.span,
            span: self.span,
        }
    }
}

impl View for Item {
    type V = FunctionView;

    open spec fn view(&self) -> FunctionView {
        match self {
            Item::Function(f) => f@,
        }
    }
}

impl View for Module {
    type V = Seq<FunctionView>;

    open spec fn view(&self) -> Seq<FunctionView> {
        Seq::new(self.items@.len(), |i: int| self.items@[i]@)
    }
}

} // verus!
