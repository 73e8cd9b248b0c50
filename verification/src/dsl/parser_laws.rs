//! How tokens become a syntax tree.

use crate::dsl::ast::{
    BinOp, Dim, DimKind, ExprKindView, ExprView, FunctionView, IdentView, ParamView, ScalarType,
    StmtKindView, StmtView, TypeKindView, TypeView, UnaryOp,
};
use crate::dsl::diagnostic::Severity;
use crate::dsl::lexer::{lex, Token, TokenKind};
use crate::dsl::parser::{
    args_from, binary, dims_from, expr_at, function_at, functions_from, kind_at, numeral_value,
    operators_from, params_from, parse_module, prefix_at, span_at, span_text, stmt_at, stmt_kind_at,
    stmts_from, type_at, Parse,
};
use crate::dsl::span::Span;
use crate::text::{decimal, digit_char, numeral};
use crate::text_laws::lemma_decimal_digits;
use vstd::prelude::*;

verus! {

// ---- operators ------------------------------------------------------------------------

/// The operator that a token stands for between two operands.
pub open spec fn infix(k: TokenKind, op: BinOp) -> bool {
    match op {
        BinOp::Add => k == TokenKind::Plus,
        BinOp::Sub => k == TokenKind::Minus,
        BinOp::Mul => k == TokenKind::Star,
        BinOp::Div => k == TokenKind::Slash,
        BinOp::MatMul => k == TokenKind::At,
    }
}

/// Products, quotients and matrix products bind more strongly than sums and
/// differences.
pub open spec fn strong(op: BinOp) -> bool {
    op is Mul || op is Div || op is MatMul
}

/// The token at `pos` is no operator.
pub open spec fn no_operator(t: Seq<Token>, pos: int) -> bool {
    let k = kind_at(t, pos);
    k != TokenKind::Plus && k != TokenKind::Minus && k != TokenKind::Star && k != TokenKind::Slash
        && k != TokenKind::At
}

/// The expression is made of an operator and two others, in this order.
pub open spec fn joins(e: ExprView, op: BinOp, lhs: ExprView, rhs: ExprView) -> bool {
    &&& e.kind matches ExprKindView::BinOp { op: o, lhs: l, rhs: r } && o == op && *l == lhs && *r
        == rhs
    &&& e.span == lhs.span.hull(rhs.span)
}

/// An operand stands from one token up to another.
pub open spec fn operand(t: Seq<Token>, s: Seq<char>, pos: int, end: int, e: ExprView) -> bool {
    &&& prefix_at(t, s, pos) == Parse::Done(e, end)
    &&& 0 <= pos < end <= t.len()
}

proof fn lemma_starts(t: Seq<Token>, s: Seq<char>, pos: int, end: int, a: ExprView, min: u8)
    requires
        operand(t, s, pos, end, a),
    ensures
        expr_at(t, s, pos, min) == operators_from(t, s, a, end, min),
{
}

proof fn lemma_stops(t: Seq<Token>, s: Seq<char>, a: ExprView, pos: int, min: u8)
    requires
        no_operator(t, pos) || exists|op: BinOp| #[trigger]
            infix(kind_at(t, pos), op) && min > (if strong(op) {
                2u8
            } else {
                1u8
            }),
    ensures
        operators_from(t, s, a, pos, min) == Parse::Done(a, pos),
{
}

proof fn lemma_goes_on(
    t: Seq<Token>,
    s: Seq<char>,
    a: ExprView,
    pos: int,
    min: u8,
    op: BinOp,
    b: ExprView,
    end: int,
)
    requires
        0 <= pos < end <= t.len(),
        infix(kind_at(t, pos), op),
        min <= (if strong(op) {
            2u8
        } else {
            1u8
        }),
        expr_at(
            t,
            s,
            pos + 1,
            if strong(op) {
                3
            } else {
                2
            },
        ) == Parse::Done(b, end),
    ensures
        operators_from(t, s, a, pos, min) == operators_from(t, s, binary(op, a, b), end, min),
        joins(binary(op, a, b), op, a, b),
{
}

/// One operand is an expression, and so are two with an operator between them.
pub proof fn lemma_two_operands(
    t: Seq<Token>,
    s: Seq<char>,
    p0: int,
    a: ExprView,
    p1: int,
    op: BinOp,
    b: ExprView,
    p2: int,
) -> (e: ExprView)
    requires
        operand(t, s, p0, p1, a),
        infix(kind_at(t, p1), op),
        operand(t, s, p1 + 1, p2, b),
        no_operator(t, p2),
    ensures
        expr_at(t, s, p0, 0) == Parse::Done(e, p2),
        joins(e, op, a, b),
        expr_at(t, s, p1 + 1, 0) == Parse::Done(b, p2),
{
    let e = binary(op, a, b);
    let next: u8 = if strong(op) {
        3
    } else {
        2
    };
    lemma_starts(t, s, p0, p1, a, 0);
    lemma_starts(t, s, p1 + 1, p2, b, next);
    lemma_stops(t, s, b, p2, next);
    lemma_goes_on(t, s, a, p1, 0, op, b, p2);
    lemma_stops(t, s, e, p2, 0);
    lemma_starts(t, s, p1 + 1, p2, b, 0);
    lemma_stops(t, s, b, p2, 0);
    e
}

/// Of two operators, the stronger one takes the operand between them; of two that
/// are equally strong, the left one does.
pub proof fn lemma_three_operands(
    t: Seq<Token>,
    s: Seq<char>,
    p0: int,
    a: ExprView,
    p1: int,
    op1: BinOp,
    b: ExprView,
    p2: int,
    op2: BinOp,
    c: ExprView,
    p3: int,
) -> (r: (ExprView, ExprView))
    requires
        operand(t, s, p0, p1, a),
        infix(kind_at(t, p1), op1),
        operand(t, s, p1 + 1, p2, b),
        infix(kind_at(t, p2), op2),
        operand(t, s, p2 + 1, p3, c),
        no_operator(t, p3),
    ensures
        expr_at(t, s, p0, 0) == Parse::Done(r.0, p3),
        strong(op2) && !strong(op1) ==> joins(r.0, op1, a, r.1) && joins(r.1, op2, b, c),
        strong(op1) || !strong(op2) ==> joins(r.0, op2, r.1, c) && joins(r.1, op1, a, b),
{
    let n1: u8 = if strong(op1) {
        3
    } else {
        2
    };
    let n2: u8 = if strong(op2) {
        3
    } else {
        2
    };
    lemma_starts(t, s, p0, p1, a, 0);
    lemma_starts(t, s, p1 + 1, p2, b, n1);
    lemma_starts(t, s, p2 + 1, p3, c, n2);
    lemma_stops(t, s, c, p3, n2);
    if strong(op2) && !strong(op1) {
        let bc = binary(op2, b, c);
        lemma_goes_on(t, s, b, p2, n1, op2, c, p3);
        lemma_stops(t, s, bc, p3, n1);
        let e = binary(op1, a, bc);
        lemma_goes_on(t, s, a, p1, 0, op1, bc, p3);
        lemma_stops(t, s, e, p3, 0);
        (e, bc)
    } else {
        lemma_stops(t, s, b, p2, n1);
        let ab = binary(op1, a, b);
        lemma_goes_on(t, s, a, p1, 0, op1, b, p2);
        let e = binary(op2, ab, c);
        lemma_goes_on(t, s, ab, p2, 0, op2, c, p3);
        lemma_stops(t, s, e, p3, 0);
        (e, ab)
    }
}

// ---- operands -------------------------------------------------------------------------

/// The value of a numeral is the number that it is the numeral of; zeros in front
/// make no difference.
pub proof fn lemma_numeral_value(n: nat, zeros: nat)
    ensures
        numeral_value(decimal(n)) == n,
        numeral_value(Seq::new(zeros, |i: int| '0') + decimal(n)) == n,
    decreases n,
{
    let z = Seq::new(zeros, |i: int| '0');
    let d = decimal(n);
    let w = z + d;
    lemma_decimal_digits(n);
    if n < 10 {
        assert(d == seq![digit_char(n as int)]);
        assert(w.last() == d.last());
        assert(d.drop_last() =~= Seq::empty());
        assert(numeral_value(Seq::<char>::empty()) == 0);
        assert(w.drop_last() =~= z);
        lemma_zeros(zeros);
    } else {
        let q = n / 10;
        lemma_numeral_value(q, zeros);
        assert(d == numeral(q, 10).push(digit_char((n % 10) as int)));
        assert(w.last() == d.last());
        assert(d.drop_last() =~= decimal(q));
        assert(w.drop_last() =~= z + decimal(q));
    }
}

proof fn lemma_zeros(n: nat)
    ensures
        numeral_value(Seq::new(n, |i: int| '0')) == 0,
    decreases n,
{
    let z = Seq::new(n, |i: int| '0');
    if n > 0 {
        assert(z.drop_last() =~= Seq::new((n - 1) as nat, |i: int| '0'));
        lemma_zeros((n - 1) as nat);
    }
}

/// What an operand is, by its first token.
pub proof fn lemma_operands(t: Seq<Token>, s: Seq<char>, pos: int)
    requires
        0 <= pos < t.len(),
    ensures
        ({
            let k = kind_at(t, pos);
            let here = t[pos].span;
            let text = span_text(s, here);
            let after_name = kind_at(t, pos + 1);
            &&& forall|n: nat|
                k == TokenKind::Int && text == #[trigger] decimal(n) && n <= i64::MAX
                    ==> prefix_at(t, s, pos) == Parse::Done(
                    ExprView { kind: ExprKindView::IntLit(n as i64), span: here },
                    pos + 1,
                )
            &&& forall|n: nat|
                k == TokenKind::Int && text == #[trigger] decimal(n) && n > i64::MAX ==> prefix_at(
                    t,
                    s,
                    pos,
                ) is Fail
            &&& k == TokenKind::Float ==> prefix_at(t, s, pos) == Parse::Done(
                ExprView { kind: ExprKindView::FloatLit(text), span: here },
                pos + 1,
            )
            &&& k == TokenKind::Ident && after_name != TokenKind::LParen ==> prefix_at(t, s, pos)
                == Parse::Done(ExprView { kind: ExprKindView::Ident(text), span: here }, pos + 1)
            &&& k == TokenKind::Ident && after_name == TokenKind::LParen ==> (args_from(
                t,
                s,
                pos + 2,
            ) matches Parse::Done(args, end) ==> prefix_at(t, s, pos) == Parse::Done(
                ExprView {
                    kind: ExprKindView::Call { callee: IdentView { name: text, span: here }, args },
                    span: here.hull(span_at(t, end - 1)),
                },
                end,
            ))
            &&& k == TokenKind::Minus ==> (prefix_at(t, s, pos + 1) matches Parse::Done(e, end)
                ==> prefix_at(t, s, pos) == Parse::Done(
                ExprView {
                    kind: ExprKindView::Unary { op: UnaryOp::Neg, expr: Box::new(e) },
                    span: here.hull(e.span),
                },
                end,
            ))
            &&& k == TokenKind::LParen ==> (expr_at(t, s, pos + 1, 0) matches Parse::Done(e, end)
                ==> kind_at(t, end) == TokenKind::RParen ==> prefix_at(t, s, pos) == Parse::Done(
                ExprView { kind: e.kind, span: here.hull(span_at(t, end)) },
                end + 1,
            ))
            &&& k != TokenKind::Int && k != TokenKind::Float && k != TokenKind::Ident && k
                != TokenKind::Minus && k != TokenKind::LParen ==> prefix_at(t, s, pos) is Fail
        }),
{
    reveal_with_fuel(prefix_at, 2);
    assert forall|n: nat| span_text(s, t[pos].span) == #[trigger] decimal(n) implies numeral_value(
        span_text(s, t[pos].span),
    ) == n by {
        lemma_numeral_value(n, 0);
    }
}

/// Arguments are separated by commas, and a comma may stand behind the last one.
pub proof fn lemma_arguments(t: Seq<Token>, s: Seq<char>, pos: int, e: ExprView, end: int)
    requires
        0 <= pos <= t.len(),
    ensures
        kind_at(t, pos) == TokenKind::RParen ==> args_from(t, s, pos) == Parse::Done(
            Seq::<ExprView>::empty(),
            pos + 1,
        ),
        kind_at(t, pos) != TokenKind::RParen && expr_at(t, s, pos, 0) == Parse::Done(e, end) && pos
            < end <= t.len() ==> {
            &&& kind_at(t, end) == TokenKind::RParen ==> args_from(t, s, pos) == Parse::Done(
                seq![e],
                end + 1,
            )
            &&& kind_at(t, end) == TokenKind::Comma ==> (args_from(t, s, end + 1) matches Parse::Done(
                rest,
                last,
            ) ==> args_from(t, s, pos) == Parse::Done(seq![e] + rest, last))
        },
{
    reveal_with_fuel(args_from, 2);
}

// ---- types, statements, functions -----------------------------------------------------

/// The scalar type of a keyword.
pub open spec fn keyword_of(k: TokenKind, e: ScalarType) -> bool {
    match e {
        ScalarType::F32 => k == TokenKind::TyF32,
        ScalarType::F16 => k == TokenKind::TyF16,
        ScalarType::I32 => k == TokenKind::TyI32,
        ScalarType::Q4_0 => k == TokenKind::TyQ4_0,
        ScalarType::Q8_0 => k == TokenKind::TyQ8_0,
    }
}

/// A type is the keyword of a scalar type, or `tensor<elem, [dims]>`.
pub proof fn lemma_types(t: Seq<Token>, s: Seq<char>, pos: int, e: ScalarType)
    requires
        0 <= pos < t.len(),
    ensures
        keyword_of(t[pos].kind, e) ==> type_at(t, s, pos) == Parse::Done(
            TypeView { kind: TypeKindView::Scalar(e), span: t[pos].span },
            pos + 1,
        ),
        kind_at(t, pos) == TokenKind::KwTensor && kind_at(t, pos + 1) == TokenKind::LAngle
            && keyword_of(kind_at(t, pos + 2), e) && kind_at(t, pos + 3) == TokenKind::Comma
            && kind_at(t, pos + 4) == TokenKind::LBracket ==> (dims_from(t, s, pos + 5) matches Parse::Done(
            dims,
            end,
        ) ==> kind_at(t, end) == TokenKind::RAngle ==> (type_at(t, s, pos) matches Parse::Done(
            ty,
            after,
        ) && after == end + 1 && (ty.kind matches TypeKindView::Tensor { elem, dims: d, .. } && elem
            == e && d == dims) && ty.span == span_at(t, pos).hull(span_at(t, end)))),
{
}

/// The dimensions of a type are whole numbers, separated by commas.
pub proof fn lemma_dimensions(t: Seq<Token>, s: Seq<char>, pos: int, n: u64)
    requires
        0 <= pos < t.len(),
    ensures
        kind_at(t, pos) == TokenKind::RBracket ==> dims_from(t, s, pos) == Parse::Done(
            Seq::<Dim>::empty(),
            pos + 1,
        ),
        kind_at(t, pos) == TokenKind::Int && span_text(s, t[pos].span) == decimal(n as nat) ==> {
            let d = Dim { kind: DimKind::Static(n), span: t[pos].span };
            &&& kind_at(t, pos + 1) == TokenKind::RBracket ==> dims_from(t, s, pos) == Parse::Done(
                seq![d],
                pos + 2,
            )
            &&& kind_at(t, pos + 1) == TokenKind::Comma ==> (dims_from(t, s, pos + 2) matches Parse::Done(
                rest,
                end,
            ) ==> dims_from(t, s, pos) == Parse::Done(seq![d] + rest, end))
        },
{
    reveal_with_fuel(dims_from, 2);
    lemma_numeral_value(n as nat, 0);
}

/// A statement binds a name, returns an expression, or is one; a semicolon ends
/// it.
pub proof fn lemma_statements(t: Seq<Token>, s: Seq<char>, pos: int, e: ExprView, end: int)
    requires
        0 <= pos < t.len(),
        kind_at(t, end) == TokenKind::Semicolon,
    ensures
        ({
            let span = span_at(t, pos).hull(span_at(t, end));
            &&& kind_at(t, pos) == TokenKind::KwLet && kind_at(t, pos + 1) == TokenKind::Ident
                && kind_at(t, pos + 2) == TokenKind::Eq && expr_at(t, s, pos + 3, 0)
                == Parse::Done(e, end) ==> stmt_at(t, s, pos) == Parse::Done(
                StmtView {
                    kind: StmtKindView::Let {
                        name: IdentView {
                            name: span_text(s, span_at(t, pos + 1)),
                            span: span_at(t, pos + 1),
                        },
                        value: e,
                    },
                    span,
                },
                end + 1,
            )
            &&& kind_at(t, pos) == TokenKind::KwReturn && expr_at(t, s, pos + 1, 0) == Parse::Done(
                e,
                end,
            ) ==> stmt_at(t, s, pos) == Parse::Done(
                StmtView { kind: StmtKindView::Return(e), span },
                end + 1,
            )
            &&& kind_at(t, pos) != TokenKind::KwLet && kind_at(t, pos) != TokenKind::KwReturn
                && expr_at(t, s, pos, 0) == Parse::Done(e, end) ==> stmt_at(t, s, pos)
                == Parse::Done(StmtView { kind: StmtKindView::Expr(e), span }, end + 1)
        }),
{
}

/// A function is `fn name(params) -> type { statements }`.
pub proof fn lemma_functions(
    t: Seq<Token>,
    s: Seq<char>,
    pos: int,
    params: Seq<ParamView>,
    p1: int,
    ret: TypeView,
    p2: int,
    stmts: Seq<StmtView>,
    p3: int,
)
    requires
        0 <= pos < t.len(),
        kind_at(t, pos) == TokenKind::KwFn,
        kind_at(t, pos + 1) == TokenKind::Ident,
        kind_at(t, pos + 2) == TokenKind::LParen,
        params_from(t, s, pos + 3) == Parse::Done(params, p1),
        kind_at(t, p1) == TokenKind::Arrow,
        type_at(t, s, p1 + 1) == Parse::Done(ret, p2),
        kind_at(t, p2) == TokenKind::LBrace,
        stmts_from(t, s, p2 + 1) == Parse::Done(stmts, p3),
    ensures
        function_at(t, s, pos) matches Parse::Done(f, end) && {
            &&& end == p3
            &&& f.name.name == span_text(s, span_at(t, pos + 1))
            &&& f.params == params
            &&& f.ret == ret
            &&& f.stmts == stmts
            &&& f.span == span_at(t, pos).hull(span_at(t, p3 - 1))
        },
{
}

/// Parameters are names with types, separated by commas; statements follow each
/// other up to the closing brace, and functions up to the end of the text.
pub proof fn lemma_sequences(
    t: Seq<Token>,
    s: Seq<char>,
    pos: int,
    ty: TypeView,
    st: StmtView,
    f: FunctionView,
    end: int,
)
    requires
        0 <= pos < end < t.len(),
    ensures
        kind_at(t, pos) == TokenKind::RParen ==> params_from(t, s, pos) == Parse::Done(
            Seq::<ParamView>::empty(),
            pos + 1,
        ),
        kind_at(t, pos) == TokenKind::Ident && kind_at(t, pos + 1) == TokenKind::Colon && type_at(
            t,
            s,
            pos + 2,
        ) == Parse::Done(ty, end) ==> {
            let p = ParamView {
                name: IdentView { name: span_text(s, t[pos].span), span: t[pos].span },
                ty,
                span: t[pos].span.hull(ty.span),
            };
            &&& kind_at(t, end) == TokenKind::RParen ==> params_from(t, s, pos) == Parse::Done(
                seq![p],
                end + 1,
            )
            &&& kind_at(t, end) == TokenKind::Comma ==> (params_from(t, s, end + 1) matches Parse::Done(
                rest,
                last,
            ) ==> params_from(t, s, pos) == Parse::Done(seq![p] + rest, last))
        },
        kind_at(t, pos) == TokenKind::RBrace ==> stmts_from(t, s, pos) == Parse::Done(
            Seq::<StmtView>::empty(),
            pos + 1,
        ),
        kind_at(t, pos) != TokenKind::RBrace && stmt_at(t, s, pos) == Parse::Done(st, end) ==> (
        stmts_from(t, s, end) matches Parse::Done(rest, last) ==> stmts_from(t, s, pos)
            == Parse::Done(seq![st] + rest, last)),
        kind_at(t, pos) == TokenKind::Eof ==> functions_from(t, s, pos) == Parse::Done(
            Seq::<FunctionView>::empty(),
            pos,
        ),
        kind_at(t, pos) != TokenKind::Eof && function_at(t, s, pos) == Parse::Done(f, end) ==> (
        functions_from(t, s, end) matches Parse::Done(rest, last) ==> functions_from(t, s, pos)
            == Parse::Done(seq![f] + rest, last)),
{
    reveal_with_fuel(params_from, 2);
    reveal_with_fuel(stmts_from, 2);
    reveal_with_fuel(functions_from, 2);
}

/// A text that is split without errors is parsed token by token; the errors of
/// splitting it are its errors otherwise.
pub proof fn lemma_whole_text(s: Seq<char>, fs: Seq<FunctionView>, end: int)
    ensures
        lex(s, 0).1.len() > 0 ==> parse_module(s) == Err::<
            Seq<FunctionView>,
            Seq<crate::dsl::diagnostic::DiagnosticView>,
        >(lex(s, 0).1),
        lex(s, 0).1.len() == 0 && functions_from(lex(s, 0).0, s, 0) == Parse::Done(fs, end)
            ==> parse_module(s) == Ok::<
            Seq<FunctionView>,
            Seq<crate::dsl::diagnostic::DiagnosticView>,
        >(fs),
{
}

/// The span of two things covers both and nothing outside of them.
pub proof fn lemma_hull(a: Span, b: Span)
    ensures
        a.hull(b).start <= a.start && a.hull(b).start <= b.start,
        a.hull(b).end >= a.end && a.hull(b).end >= b.end,
        a.hull(b).start == a.start || a.hull(b).start == b.start,
        a.hull(b).end == a.end || a.hull(b).end == b.end,
{
}

// ---- what is refused ------------------------------------------------------------------

/// Parsing fails at the token at `pos`, where `what` is expected.
pub open spec fn misses<T>(p: Parse<T>, t: Seq<Token>, pos: int, what: Seq<char>) -> bool {
    p matches Parse::Fail(d) && d.severity == Severity::Error && d.message == "expected "@ + what
        && d.span == Some(span_at(t, pos))
}

/// A function without one of its marks is refused at the first that is missing.
pub proof fn lemma_function_refused(t: Seq<Token>, s: Seq<char>, pos: int)
    ensures
        kind_at(t, pos) != TokenKind::KwFn ==> misses(function_at(t, s, pos), t, pos, "`fn`"@),
        kind_at(t, pos) == TokenKind::KwFn ==> {
            &&& kind_at(t, pos + 1) != TokenKind::Ident ==> misses(
                function_at(t, s, pos),
                t,
                pos + 1,
                "a function name"@,
            )
            &&& kind_at(t, pos + 1) == TokenKind::Ident && kind_at(t, pos + 2) != TokenKind::LParen
                ==> misses(function_at(t, s, pos), t, pos + 2, "`(`"@)
            &&& kind_at(t, pos + 1) == TokenKind::Ident && kind_at(t, pos + 2) == TokenKind::LParen
                ==> match params_from(t, s, pos + 3) {
                Parse::Fail(d) => function_at(t, s, pos) == Parse::<FunctionView>::Fail(d),
                Parse::Done(_, p) => {
                    &&& kind_at(t, p) != TokenKind::Arrow ==> misses(
                        function_at(t, s, pos),
                        t,
                        p,
                        "`->`"@,
                    )
                    &&& kind_at(t, p) == TokenKind::Arrow ==> match type_at(t, s, p + 1) {
                        Parse::Fail(d) => function_at(t, s, pos) == Parse::<FunctionView>::Fail(d),
                        Parse::Done(_, q) => kind_at(t, q) != TokenKind::LBrace ==> misses(
                            function_at(t, s, pos),
                            t,
                            q,
                            "`{`"@,
                        ),
                    }
                },
            }
        },
{
}

/// A statement without its semicolon, and a binding without its name or its `=`, are
/// refused.
pub proof fn lemma_statement_refused(t: Seq<Token>, s: Seq<char>, pos: int)
    ensures
        kind_at(t, pos) == TokenKind::KwLet ==> {
            &&& kind_at(t, pos + 1) != TokenKind::Ident ==> misses(
                stmt_at(t, s, pos),
                t,
                pos + 1,
                "a name"@,
            )
            &&& kind_at(t, pos + 1) == TokenKind::Ident && kind_at(t, pos + 2) != TokenKind::Eq
                ==> misses(stmt_at(t, s, pos), t, pos + 2, "`=`"@)
        },
        stmt_kind_at(t, s, pos) matches Parse::Done(_, p) ==> (kind_at(t, p) != TokenKind::Semicolon
            ==> misses(stmt_at(t, s, pos), t, p, "`;`"@)),
        stmt_kind_at(t, s, pos) matches Parse::Fail(d) ==> stmt_at(t, s, pos) == Parse::<
            StmtView,
        >::Fail(d),
{
}

/// A parameter without its name or its colon is refused, and so are parameters and
/// arguments that no comma parts.
pub proof fn lemma_list_refused(t: Seq<Token>, s: Seq<char>, pos: int)
    ensures
        kind_at(t, pos) != TokenKind::RParen && kind_at(t, pos) != TokenKind::Ident ==> misses(
            params_from(t, s, pos),
            t,
            pos,
            "a parameter name"@,
        ),
        kind_at(t, pos) == TokenKind::Ident && kind_at(t, pos + 1) != TokenKind::Colon ==> misses(
            params_from(t, s, pos),
            t,
            pos + 1,
            "`:`"@,
        ),
        kind_at(t, pos) == TokenKind::Ident && kind_at(t, pos + 1) == TokenKind::Colon ==> (type_at(
            t,
            s,
            pos + 2,
        ) matches Parse::Done(_, p) ==> (pos < p <= t.len() && kind_at(t, p) != TokenKind::Comma
            && kind_at(t, p) != TokenKind::RParen ==> misses(
            params_from(t, s, pos),
            t,
            p,
            "`,` or `)`"@,
        ))),
        kind_at(t, pos) != TokenKind::RParen ==> (expr_at(t, s, pos, 0) matches Parse::Done(_, p)
            ==> (pos < p <= t.len() && kind_at(t, p) != TokenKind::Comma && kind_at(t, p)
            != TokenKind::RParen ==> misses(args_from(t, s, pos), t, p, "`,` or `)`"@))),
{
}

/// A type that is no keyword of one is refused, and so is a tensor type without one
/// of its marks.
pub proof fn lemma_type_refused(t: Seq<Token>, s: Seq<char>, pos: int)
    ensures
        ({
            let k = kind_at(t, pos);
            k != TokenKind::TyF32 && k != TokenKind::TyF16 && k != TokenKind::TyI32 && k
                != TokenKind::TyQ4_0 && k != TokenKind::TyQ8_0 && k != TokenKind::KwTensor
                ==> misses(type_at(t, s, pos), t, pos, "a type"@)
        }),
        kind_at(t, pos) == TokenKind::KwTensor ==> {
            let e = kind_at(t, pos + 2);
            let elem = e == TokenKind::TyF32 || e == TokenKind::TyF16 || e == TokenKind::TyI32 || e
                == TokenKind::TyQ4_0 || e == TokenKind::TyQ8_0;
            let open = kind_at(t, pos + 1) == TokenKind::LAngle;
            let comma = kind_at(t, pos + 3) == TokenKind::Comma;
            &&& !open ==> misses(type_at(t, s, pos), t, pos + 1, "`<`"@)
            &&& open && !elem ==> misses(type_at(t, s, pos), t, pos + 2, "an element type"@)
            &&& open && elem && !comma ==> misses(type_at(t, s, pos), t, pos + 3, "`,`"@)
            &&& open && elem && comma && kind_at(t, pos + 4) != TokenKind::LBracket ==> misses(
                type_at(t, s, pos),
                t,
                pos + 4,
                "`[`"@,
            )
        },
        kind_at(t, pos) != TokenKind::RBracket && kind_at(t, pos) != TokenKind::Int ==> misses(
            dims_from(t, s, pos),
            t,
            pos,
            "a dimension"@,
        ),
{
}

/// An expression starts with a name, a number, a minus or a parenthesis, which must be
/// closed.
pub proof fn lemma_expression_refused(t: Seq<Token>, s: Seq<char>, pos: int, min: u8)
    ensures
        ({
            let k = kind_at(t, pos);
            k != TokenKind::Ident && k != TokenKind::Int && k != TokenKind::Float && k
                != TokenKind::Minus && k != TokenKind::LParen ==> misses(
                expr_at(t, s, pos, min),
                t,
                pos,
                "an expression"@,
            )
        }),
        kind_at(t, pos) == TokenKind::LParen ==> (expr_at(t, s, pos + 1, 0) matches Parse::Done(_, p)
            ==> (kind_at(t, p) != TokenKind::RParen ==> misses(
            expr_at(t, s, pos, min),
            t,
            p,
            "`)`"@,
        ))),
{
    reveal_with_fuel(expr_at, 2);
}

} // verus!
