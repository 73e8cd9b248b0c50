//! Pratt parser.
//!
//! ```text
//!   module   := function*
//!   function := "fn" IDENT "(" [param ("," param)* [","]] ")" "->" type block
//!   param    := IDENT ":" type
//!   type     := scalar | "tensor" "<" scalar "," "[" [INT ("," INT)* [","]] "]" ">"
//!   block    := "{" stmt* "}"
//!   stmt     := "let" IDENT "=" expr ";" | "return" expr ";" | expr ";"
//!   expr     := prefix (op prefix)*         "+" "-" bind looser than "*" "/" "@"
//!   prefix   := INT | FLOAT | IDENT | IDENT "(" [expr ("," expr)* [","]] ")"
//!             | "-" prefix | "(" expr ")"
//! ```
//!
//! Operators of the same strength associate to the left.

use crate::dsl::ast::{
    expr_views, lemma_call_view, param_views, stmt_views, BinOp, Block, Dim, DimKind, Expr,
    ExprKind, ExprKindView, ExprView, Function, FunctionView, Ident, IdentView, Item, Module,
    Param, ParamView, ScalarType, Shape, Stmt, StmtKind, StmtKindView, StmtView, Type, TypeKind,
    TypeKindView, TypeView, UnaryOp,
};
use crate::dsl::diagnostic::{diagnostics, error_at, Diagnostic, DiagnosticView};
use crate::dsl::lexer::{is_digit, lemma_offset_mono, lex, offset, span_of, Lexer, Token, TokenKind};
use crate::dsl::span::Span;
use crate::text::{
    char_len, char_width, lemma_utf8_len_prefix, push_chars, push_text, to_chars, utf8_len,
};
use vstd::prelude::*;
use vstd::string::StringSliceAdditionalSpecFns;

verus! {

// ---- the text of a span ------------------------------------------------------------------

/// How many characters lie within the first `off` bytes of a text.
pub open spec fn chars_within(s: Seq<char>, off: nat) -> nat
    decreases s.len(),
{
    if s.len() == 0 || utf8_len(s) <= off {
        s.len()
    } else {
        chars_within(s.drop_last(), off)
    }
}

/// The characters that a span covers.
pub open spec fn span_text(s: Seq<char>, span: Span) -> Seq<char> {
    let a = chars_within(s, span.start as nat);
    let b = chars_within(s, span.end as nat);
    if a <= b {
        s.subrange(a as int, b as int)
    } else {
        Seq::empty()
    }
}

proof fn lemma_chars_within(s: Seq<char>, i: int, off: nat)
    requires
        0 <= i <= s.len(),
        utf8_len(s.subrange(0, i)) <= off,
        i < s.len() ==> utf8_len(s.subrange(0, i + 1)) > off,
    ensures
        chars_within(s, off) == i,
    decreases s.len(),
{
    if i == s.len() {
        assert(s.subrange(0, i) =~= s);
    } else {
        let t = s.drop_last();
        lemma_utf8_len_prefix(s, i + 1);
        assert(t.subrange(0, i) =~= s.subrange(0, i));
        if i < t.len() {
            assert(t.subrange(0, i + 1) =~= s.subrange(0, i + 1));
        }
        lemma_chars_within(t, i, off);
    }
}

/// The text of the span of some characters is those characters.
pub proof fn lemma_span_text(s: Seq<char>, i: int, j: int)
    requires
        0 <= i <= j <= s.len(),
        utf8_len(s) <= u32::MAX,
    ensures
        span_text(s, span_of(s, i, j)) == s.subrange(i, j),
{
    lemma_offset_mono(s, i, j);
    lemma_chars_at(s, i);
    lemma_chars_at(s, j);
}

proof fn lemma_chars_at(s: Seq<char>, i: int)
    requires
        0 <= i <= s.len(),
        utf8_len(s) <= u32::MAX,
    ensures
        chars_within(s, offset(s, i) as nat) == i,
{
    lemma_offset_mono(s, i, i);
    if i < s.len() {
        let p = s.subrange(0, i + 1);
        assert(p.drop_last() =~= s.subrange(0, i));
        assert(char_len(p.last()) >= 1);
    }
    lemma_chars_within(s, i, offset(s, i) as nat);
}

fn count_within(chars: &Vec<char>, off: u32) -> (n: usize)
    requires
        utf8_len(chars@) <= u32::MAX,
    ensures
        n == chars_within(chars@, off as nat),
        n <= chars@.len(),
{
    let mut i: usize = 0;
    let mut at: u32 = 0;
    assert(chars@.subrange(0, 0) =~= Seq::empty());
    while i < chars.len()
        invariant
            i <= chars@.len(),
            utf8_len(chars@) <= u32::MAX,
            at as nat == utf8_len(chars@.subrange(0, i as int)),
            at <= off,
        decreases chars@.len() - i,
    {
        let w: u32 = char_width(chars[i]);
        proof {
            let p = chars@.subrange(0, i + 1);
            assert(p.drop_last() =~= chars@.subrange(0, i as int));
            lemma_utf8_len_prefix(chars@, i + 1);
        }
        if at + w > off {
            proof {
                lemma_chars_within(chars@, i as int, off as nat);
            }
            return i;
        }
        at = at + w;
        i = i + 1;
    }
    proof {
        lemma_chars_within(chars@, i as int, off as nat);
    }
    i
}

fn text_of(chars: &Vec<char>, span: Span) -> (t: String)
    requires
        utf8_len(chars@) <= u32::MAX,
    ensures
        t@ == span_text(chars@, span),
{
    let a: usize = count_within(chars, span.start);
    let b: usize = count_within(chars, span.end);
    let mut t: String = "".to_string();
    proof {
        reveal_strlit("");
        assert(t@ =~= Seq::empty());
    }
    if a <= b {
        push_chars(&mut t, chars, a, b);
    }
    assert(t@ =~= span_text(chars@, span));
    t
}

/// The value of a digit.
pub open spec fn digit_value(c: char) -> nat {
    if is_digit(c) {
        (c as u32 - 48) as nat
    } else {
        0
    }
}

/// The value of a decimal numeral.
pub open spec fn numeral_value(s: Seq<char>) -> nat
    decreases s.len(),
{
    if s.len() == 0 {
        0
    } else {
        10 * numeral_value(s.drop_last()) + digit_value(s.last())
    }
}

/// The value of a numeral, where 64 bits hold it.
fn value_of(text: &str) -> (r: Option<u64>)
    ensures
        match r {
            Some(v) => v as nat == numeral_value(text@),
            None => numeral_value(text@) > u64::MAX,
        },
{
    let chars = to_chars(text);
    let mut r: Option<u64> = Some(0);
    let mut i: usize = 0;
    while i < chars.len()
        invariant
            i <= chars@.len(),
            match r {
                Some(v) => v as nat == numeral_value(chars@.subrange(0, i as int)),
                None => numeral_value(chars@.subrange(0, i as int)) > u64::MAX,
            },
        decreases chars@.len() - i,
    {
        let c = chars[i];
        let d: u64 = if '0' <= c && c <= '9' {
            (c as u32 - 48) as u64
        } else {
            0
        };
        proof {
            let p = chars@.subrange(0, i + 1);
            assert(p.drop_last() =~= chars@.subrange(0, i as int));
            assert(p.last() == c);
            assert(d == digit_value(c));
        }
        r = match r {
            Some(v) => if v > (u64::MAX - d) / 10 {
                None
            } else {
                Some(10 * v + d)
            },
            None => None,
        };
        i = i + 1;
    }
    assert(chars@.subrange(0, i as int) =~= chars@);
    r
}

// ---- the grammar ---------------------------------------------------------------------------

/// The outcome of parsing something: what it is and the token after it, or what
/// is wrong.
pub enum Parse<T> {
    Done(T, int),
    Fail(DiagnosticView),
}

/// Items before those that parsing gave.
pub open spec fn after<T>(done: Seq<T>, r: Parse<Seq<T>>) -> Parse<Seq<T>> {
    match r {
        Parse::Done(rest, end) => Parse::Done(done + rest, end),
        Parse::Fail(d) => Parse::Fail(d),
    }
}

/// The kind of the token at a position; behind the last one there is nothing.
pub open spec fn kind_at(t: Seq<Token>, pos: int) -> TokenKind {
    if 0 <= pos < t.len() {
        t[pos].kind
    } else {
        TokenKind::Eof
    }
}

/// The span of the token at a position.
pub open spec fn span_at(t: Seq<Token>, pos: int) -> Span {
    if 0 <= pos < t.len() {
        t[pos].span
    } else {
        Span { start: 0, end: 0 }
    }
}

/// The error where something else is expected at a position.
pub open spec fn expected(t: Seq<Token>, pos: int, what: Seq<char>) -> DiagnosticView {
    error_at("expected "@ + what, span_at(t, pos))
}

/// The error for a numeral that is too large.
pub open spec fn too_large(t: Seq<Token>, pos: int) -> DiagnosticView {
    error_at("integer literal is too large"@, span_at(t, pos))
}

/// The scalar type that a keyword names.
pub open spec fn scalar_of(k: TokenKind) -> Option<ScalarType> {
    match k {
        TokenKind::TyF32 => Some(ScalarType::F32),
        TokenKind::TyF16 => Some(ScalarType::F16),
        TokenKind::TyI32 => Some(ScalarType::I32),
        TokenKind::TyQ4_0 => Some(ScalarType::Q4_0),
        TokenKind::TyQ8_0 => Some(ScalarType::Q8_0),
        _ => None,
    }
}

/// The operator that a token is, and how strongly it binds.
pub open spec fn operator(k: TokenKind) -> Option<(BinOp, u8)> {
    match k {
        TokenKind::Plus => Some((BinOp::Add, 1)),
        TokenKind::Minus => Some((BinOp::Sub, 1)),
        TokenKind::Star => Some((BinOp::Mul, 2)),
        TokenKind::Slash => Some((BinOp::Div, 2)),
        TokenKind::At => Some((BinOp::MatMul, 2)),
        _ => None,
    }
}

/// The dimensions from `pos` on, up to the closing bracket.
pub open spec fn dims_from(t: Seq<Token>, s: Seq<char>, pos: int) -> Parse<Seq<Dim>>
    decreases t.len() - pos,
{
    if kind_at(t, pos) == TokenKind::RBracket {
        Parse::Done(Seq::empty(), pos + 1)
    } else if kind_at(t, pos) != TokenKind::Int {
        Parse::Fail(expected(t, pos, "a dimension"@))
    } else if numeral_value(span_text(s, span_at(t, pos))) > u64::MAX {
        Parse::Fail(too_large(t, pos))
    } else {
        let d = Dim {
            kind: DimKind::Static(numeral_value(span_text(s, span_at(t, pos))) as u64),
            span: span_at(t, pos),
        };
        if kind_at(t, pos + 1) == TokenKind::Comma {
            after(seq![d], dims_from(t, s, pos + 2))
        } else if kind_at(t, pos + 1) == TokenKind::RBracket {
            Parse::Done(seq![d], pos + 2)
        } else {
            Parse::Fail(expected(t, pos + 1, "`,` or `]`"@))
        }
    }
}

/// What follows the keyword of a tensor type at `pos`.
pub open spec fn tensor_at(t: Seq<Token>, s: Seq<char>, pos: int) -> Parse<TypeView> {
    if kind_at(t, pos + 1) != TokenKind::LAngle {
        Parse::Fail(expected(t, pos + 1, "`<`"@))
    } else if scalar_of(kind_at(t, pos + 2)) is None {
        Parse::Fail(expected(t, pos + 2, "an element type"@))
    } else if kind_at(t, pos + 3) != TokenKind::Comma {
        Parse::Fail(expected(t, pos + 3, "`,`"@))
    } else if kind_at(t, pos + 4) != TokenKind::LBracket {
        Parse::Fail(expected(t, pos + 4, "`[`"@))
    } else {
        match dims_from(t, s, pos + 5) {
            Parse::Fail(d) => Parse::Fail(d),
            Parse::Done(dims, p) => if kind_at(t, p) != TokenKind::RAngle {
                Parse::Fail(expected(t, p, "`>`"@))
            } else {
                Parse::Done(
                    TypeView {
                        kind: TypeKindView::Tensor {
                            elem: scalar_of(kind_at(t, pos + 2))->0,
                            dims,
                            shape_span: span_at(t, pos + 4).hull(span_at(t, p - 1)),
                        },
                        span: span_at(t, pos).hull(span_at(t, p)),
                    },
                    p + 1,
                )
            },
        }
    }
}

/// The type at `pos`.
pub open spec fn type_at(t: Seq<Token>, s: Seq<char>, pos: int) -> Parse<TypeView> {
    match scalar_of(kind_at(t, pos)) {
        Some(k) => Parse::Done(
            TypeView { kind: TypeKindView::Scalar(k), span: span_at(t, pos) },
            pos + 1,
        ),
        None => if kind_at(t, pos) == TokenKind::KwTensor {
            tensor_at(t, s, pos)
        } else {
            Parse::Fail(expected(t, pos, "a type"@))
        },
    }
}

/// The identifier at `pos`.
pub open spec fn ident_at(t: Seq<Token>, s: Seq<char>, pos: int) -> IdentView {
    IdentView { name: span_text(s, span_at(t, pos)), span: span_at(t, pos) }
}

/// The parameters from `pos` on, up to the closing parenthesis.
pub open spec fn params_from(t: Seq<Token>, s: Seq<char>, pos: int) -> Parse<Seq<ParamView>>
    decreases t.len() - pos,
{
    if kind_at(t, pos) == TokenKind::RParen {
        Parse::Done(Seq::empty(), pos + 1)
    } else if kind_at(t, pos) != TokenKind::Ident {
        Parse::Fail(expected(t, pos, "a parameter name"@))
    } else if kind_at(t, pos + 1) != TokenKind::Colon {
        Parse::Fail(expected(t, pos + 1, "`:`"@))
    } else {
        match type_at(t, s, pos + 2) {
            Parse::Fail(d) => Parse::Fail(d),
            Parse::Done(ty, p) => {
                let param = ParamView {
                    name: ident_at(t, s, pos),
                    ty,
                    span: span_at(t, pos).hull(ty.span),
                };
                if p <= pos || p > t.len() {
                    Parse::Fail(expected(t, pos, "a parameter"@))
                } else if kind_at(t, p) == TokenKind::Comma {
                    after(seq![param], params_from(t, s, p + 1))
                } else if kind_at(t, p) == TokenKind::RParen {
                    Parse::Done(seq![param], p + 1)
                } else {
                    Parse::Fail(expected(t, p, "`,` or `)`"@))
                }
            },
        }
    }
}

/// The expression at `pos`, of operators that bind at least as strongly as
/// `min`.
pub open spec fn expr_at(t: Seq<Token>, s: Seq<char>, pos: int, min: u8) -> Parse<ExprView>
    decreases t.len() - pos, 2nat,
{
    match prefix_at(t, s, pos) {
        Parse::Fail(d) => Parse::Fail(d),
        Parse::Done(lhs, p) => if p <= pos || p > t.len() {
            Parse::Fail(expected(t, pos, "an expression"@))
        } else {
            operators_from(t, s, lhs, p, min)
        },
    }
}

/// `lhs` and the operators that follow it at `pos`.
pub open spec fn operators_from(
    t: Seq<Token>,
    s: Seq<char>,
    lhs: ExprView,
    pos: int,
    min: u8,
) -> Parse<ExprView>
    decreases t.len() - pos, 3nat,
{
    match operator(kind_at(t, pos)) {
        None => Parse::Done(lhs, pos),
        Some((op, power)) => if power < min {
            Parse::Done(lhs, pos)
        } else {
            match expr_at(t, s, pos + 1, (power + 1) as u8) {
                Parse::Fail(d) => Parse::Fail(d),
                Parse::Done(rhs, p) => if p <= pos || p > t.len() {
                    Parse::Fail(expected(t, pos, "an expression"@))
                } else {
                    operators_from(t, s, binary(op, lhs, rhs), p, min)
                },
            }
        },
    }
}

/// Two operands and their operator.
pub open spec fn binary(op: BinOp, lhs: ExprView, rhs: ExprView) -> ExprView {
    ExprView {
        kind: ExprKindView::BinOp { op, lhs: Box::new(lhs), rhs: Box::new(rhs) },
        span: lhs.span.hull(rhs.span),
    }
}

/// The operand at `pos`.
pub open spec fn prefix_at(t: Seq<Token>, s: Seq<char>, pos: int) -> Parse<ExprView>
    decreases t.len() - pos, 1nat,
{
    let text = span_text(s, span_at(t, pos));
    let span = span_at(t, pos);
    match kind_at(t, pos) {
        TokenKind::Int => if numeral_value(text) > i64::MAX {
            Parse::Fail(too_large(t, pos))
        } else {
            Parse::Done(
                ExprView { kind: ExprKindView::IntLit(numeral_value(text) as i64), span },
                pos + 1,
            )
        },
        TokenKind::Float => Parse::Done(
            ExprView { kind: ExprKindView::FloatLit(text), span },
            pos + 1,
        ),
        TokenKind::Ident => if kind_at(t, pos + 1) == TokenKind::LParen {
            match args_from(t, s, pos + 2) {
                Parse::Fail(d) => Parse::Fail(d),
                Parse::Done(args, p) => Parse::Done(
                    ExprView {
                        kind: ExprKindView::Call { callee: ident_at(t, s, pos), args },
                        span: span.hull(span_at(t, p - 1)),
                    },
                    p,
                ),
            }
        } else {
            Parse::Done(ExprView { kind: ExprKindView::Ident(text), span }, pos + 1)
        },
        TokenKind::Minus => match prefix_at(t, s, pos + 1) {
            Parse::Fail(d) => Parse::Fail(d),
            Parse::Done(e, p) => Parse::Done(
                ExprView {
                    kind: ExprKindView::Unary { op: UnaryOp::Neg, expr: Box::new(e) },
                    span: span.hull(e.span),
                },
                p,
            ),
        },
        TokenKind::LParen => match expr_at(t, s, pos + 1, 0) {
            Parse::Fail(d) => Parse::Fail(d),
            Parse::Done(e, p) => if kind_at(t, p) != TokenKind::RParen {
                Parse::Fail(expected(t, p, "`)`"@))
            } else {
                Parse::Done(ExprView { kind: e.kind, span: span.hull(span_at(t, p)) }, p + 1)
            },
        },
        _ => Parse::Fail(expected(t, pos, "an expression"@)),
    }
}

/// The arguments from `pos` on, up to the closing parenthesis.
pub open spec fn args_from(t: Seq<Token>, s: Seq<char>, pos: int) -> Parse<Seq<ExprView>>
    decreases t.len() - pos, 4nat,
{
    if kind_at(t, pos) == TokenKind::RParen {
        Parse::Done(Seq::empty(), pos + 1)
    } else {
        match expr_at(t, s, pos, 0) {
            Parse::Fail(d) => Parse::Fail(d),
            Parse::Done(e, p) => if p <= pos || p > t.len() {
                Parse::Fail(expected(t, pos, "an expression"@))
            } else if kind_at(t, p) == TokenKind::Comma {
                after(seq![e], args_from(t, s, p + 1))
            } else if kind_at(t, p) == TokenKind::RParen {
                Parse::Done(seq![e], p + 1)
            } else {
                Parse::Fail(expected(t, p, "`,` or `)`"@))
            },
        }
    }
}

/// What follows the keyword of a `let` statement at `pos`.
pub open spec fn let_at(t: Seq<Token>, s: Seq<char>, pos: int) -> Parse<StmtKindView> {
    if kind_at(t, pos + 1) != TokenKind::Ident {
        Parse::Fail(expected(t, pos + 1, "a name"@))
    } else if kind_at(t, pos + 2) != TokenKind::Eq {
        Parse::Fail(expected(t, pos + 2, "`=`"@))
    } else {
        match expr_at(t, s, pos + 3, 0) {
            Parse::Fail(d) => Parse::Fail(d),
            Parse::Done(value, p) => Parse::Done(
                StmtKindView::Let { name: ident_at(t, s, pos + 1), value },
                p,
            ),
        }
    }
}

/// The statement at `pos`, without its semicolon.
pub open spec fn stmt_kind_at(t: Seq<Token>, s: Seq<char>, pos: int) -> Parse<StmtKindView> {
    match kind_at(t, pos) {
        TokenKind::KwLet => let_at(t, s, pos),
        TokenKind::KwReturn => match expr_at(t, s, pos + 1, 0) {
            Parse::Fail(d) => Parse::Fail(d),
            Parse::Done(e, p) => Parse::Done(StmtKindView::Return(e), p),
        },
        _ => match expr_at(t, s, pos, 0) {
            Parse::Fail(d) => Parse::Fail(d),
            Parse::Done(e, p) => Parse::Done(StmtKindView::Expr(e), p),
        },
    }
}

/// The statement at `pos`.
pub open spec fn stmt_at(t: Seq<Token>, s: Seq<char>, pos: int) -> Parse<StmtView> {
    match stmt_kind_at(t, s, pos) {
        Parse::Fail(d) => Parse::Fail(d),
        Parse::Done(kind, p) => if kind_at(t, p) != TokenKind::Semicolon {
            Parse::Fail(expected(t, p, "`;`"@))
        } else {
            Parse::Done(StmtView { kind, span: span_at(t, pos).hull(span_at(t, p)) }, p + 1)
        },
    }
}

/// The statements from `pos` on, up to the closing brace.
pub open spec fn stmts_from(t: Seq<Token>, s: Seq<char>, pos: int) -> Parse<Seq<StmtView>>
    decreases t.len() - pos,
{
    if kind_at(t, pos) == TokenKind::RBrace {
        Parse::Done(Seq::empty(), pos + 1)
    } else {
        match stmt_at(t, s, pos) {
            Parse::Fail(d) => Parse::Fail(d),
            Parse::Done(st, p) => if p <= pos || p > t.len() {
                Parse::Fail(expected(t, pos, "a statement"@))
            } else {
                after(seq![st], stmts_from(t, s, p))
            },
        }
    }
}

/// What follows the arrow at `p1` of the function at `pos`.
pub open spec fn function_rest(
    t: Seq<Token>,
    s: Seq<char>,
    pos: int,
    params: Seq<ParamView>,
    p1: int,
) -> Parse<FunctionView> {
    match type_at(t, s, p1 + 1) {
        Parse::Fail(d) => Parse::Fail(d),
        Parse::Done(ret, p2) => if kind_at(t, p2) != TokenKind::LBrace {
            Parse::Fail(expected(t, p2, "`{`"@))
        } else {
            match stmts_from(t, s, p2 + 1) {
                Parse::Fail(d) => Parse::Fail(d),
                Parse::Done(stmts, p3) => Parse::Done(
                    FunctionView {
                        name: ident_at(t, s, pos + 1),
                        params,
                        ret,
                        stmts,
                        body_span: span_at(t, p2).hull(span_at(t, p3 - 1)),
                        span: span_at(t, pos).hull(span_at(t, p3 - 1)),
                    },
                    p3,
                ),
            }
        },
    }
}

/// The function at `pos`.
pub open spec fn function_at(t: Seq<Token>, s: Seq<char>, pos: int) -> Parse<FunctionView> {
    if kind_at(t, pos) != TokenKind::KwFn {
        Parse::Fail(expected(t, pos, "`fn`"@))
    } else if kind_at(t, pos + 1) != TokenKind::Ident {
        Parse::Fail(expected(t, pos + 1, "a function name"@))
    } else if kind_at(t, pos + 2) != TokenKind::LParen {
        Parse::Fail(expected(t, pos + 2, "`(`"@))
    } else {
        match params_from(t, s, pos + 3) {
            Parse::Fail(d) => Parse::Fail(d),
            Parse::Done(params, p1) => if kind_at(t, p1) != TokenKind::Arrow {
                Parse::Fail(expected(t, p1, "`->`"@))
            } else {
                function_rest(t, s, pos, params, p1)
            },
        }
    }
}

/// The functions from `pos` on, up to the end of the text.
pub open spec fn functions_from(t: Seq<Token>, s: Seq<char>, pos: int) -> Parse<Seq<FunctionView>>
    decreases t.len() - pos,
{
    if kind_at(t, pos) == TokenKind::Eof {
        Parse::Done(Seq::empty(), pos)
    } else {
        match function_at(t, s, pos) {
            Parse::Fail(d) => Parse::Fail(d),
            Parse::Done(f, p) => if p <= pos || p > t.len() {
                Parse::Fail(expected(t, pos, "a function"@))
            } else {
                after(seq![f], functions_from(t, s, p))
            },
        }
    }
}

/// What parsing a source text comes to.
pub open spec fn parse_module(s: Seq<char>) -> Result<Seq<FunctionView>, Seq<DiagnosticView>> {
    let (t, errors) = lex(s, 0);
    if errors.len() > 0 {
        Err(errors)
    } else {
        match functions_from(t, s, 0) {
            Parse::Done(list, _) => Ok(list),
            Parse::Fail(d) => Err(seq![d]),
        }
    }
}

// ---- the parser ------------------------------------------------------------------------

/// A source text and its tokens.
struct Tokens {
    tokens: Vec<Token>,
    chars: Vec<char>,
}

impl Tokens {
    spec fn t(&self) -> Seq<Token> {
        self.tokens@
    }

    spec fn s(&self) -> Seq<char> {
        self.chars@
    }

    spec fn wf(&self) -> bool {
        &&& utf8_len(self.chars@) <= u32::MAX
        &&& self.tokens@.len() <= usize::MAX
    }

    /// The token `k` places after `pos`.
    fn kind(&self, pos: usize, k: usize) -> (r: TokenKind)
        ensures
            r == kind_at(self.t(), pos + k),
    {
        if pos < self.tokens.len() && k < self.tokens.len() - pos {
            self.tokens[pos + k].kind
        } else {
            TokenKind::Eof
        }
    }

    fn span(&self, pos: usize, k: usize) -> (r: Span)
        ensures
            r == span_at(self.t(), pos + k),
    {
        if pos < self.tokens.len() && k < self.tokens.len() - pos {
            self.tokens[pos + k].span
        } else {
            Span { start: 0, end: 0 }
        }
    }

    fn fail(&self, pos: usize, k: usize, what: &str) -> (d: Diagnostic)
        ensures
            d@ == expected(self.t(), pos + k, what@),
    {
        let mut m: String = "expected ".to_string();
        push_text(&mut m, what);
        Diagnostic::error(m.as_str(), self.span(pos, k))
    }

    fn overflow(&self, pos: usize) -> (d: Diagnostic)
        ensures
            d@ == too_large(self.t(), pos as int),
    {
        Diagnostic::error("integer literal is too large", self.span(pos, 0))
    }

    fn text(&self, pos: usize, k: usize) -> (r: String)
        requires
            self.wf(),
        ensures
            r@ == span_text(self.s(), span_at(self.t(), pos + k)),
    {
        text_of(&self.chars, self.span(pos, k))
    }

    fn ident(&self, pos: usize, k: usize) -> (r: Ident)
        requires
            self.wf(),
        ensures
            r@ == ident_at(self.t(), self.s(), pos + k),
    {
        Ident { name: self.text(pos, k), span: self.span(pos, k) }
    }

    fn dims(&self, start: usize) -> (r: Result<(Vec<Dim>, usize), Diagnostic>)
        requires
            self.wf(),
            start <= self.t().len(),
        ensures
            match dims_from(self.t(), self.s(), start as int) {
                Parse::Done(d, p) => r matches Ok((v, n)) && v@ == d && n == p && start < n
                    <= self.t().len(),
                Parse::Fail(d) => r matches Err(e) && e@ == d,
            },
    {
        let ghost t = self.t();
        let ghost s = self.s();
        let ghost whole = dims_from(t, s, start as int);
        let mut out: Vec<Dim> = Vec::new();
        let mut pos: usize = start;
        proof {
            if let Parse::Done(rest, end) = whole {
                assert(out@ + rest =~= rest);
            }
        }
        loop
            invariant
                self.wf(),
                t == self.t(),
                s == self.s(),
                whole == dims_from(t, s, start as int),
                start <= pos <= t.len(),
                after(out@, dims_from(t, s, pos as int)) == whole,
            decreases t.len() - pos,
        {
            if self.kind(pos, 0) == TokenKind::RBracket {
                assert(out@ + Seq::<Dim>::empty() =~= out@);
                return Ok((out, pos + 1));
            }
            if self.kind(pos, 0) != TokenKind::Int {
                return Err(self.fail(pos, 0, "a dimension"));
            }
            let text = self.text(pos, 0);
            let v: u64 = match value_of(text.as_str()) {
                Some(v) => v,
                None => {
                    return Err(self.overflow(pos));
                },
            };
            let d = Dim { kind: DimKind::Static(v), span: self.span(pos, 0) };
            let next = self.kind(pos, 1);
            if next == TokenKind::Comma {
                let ghost before = out@;
                out.push(d);
                proof {
                    if let Parse::Done(rest, end) = dims_from(t, s, pos + 2) {
                        assert(before + (seq![d] + rest) =~= out@ + rest);
                    }
                }
                pos = pos + 2;
            } else if next == TokenKind::RBracket {
                let ghost before = out@;
                out.push(d);
                assert(before + seq![d] =~= out@);
                return Ok((out, pos + 2));
            } else {
                return Err(self.fail(pos, 1, "`,` or `]`"));
            }
        }
    }

    fn tensor(&self, pos: usize) -> (r: Result<(Type, usize), Diagnostic>)
        requires
            self.wf(),
            pos < self.t().len(),
        ensures
            match tensor_at(self.t(), self.s(), pos as int) {
                Parse::Done(v, p) => r matches Ok((x, n)) && x@ == v && n == p && pos < n
                    <= self.t().len(),
                Parse::Fail(d) => r matches Err(e) && e@ == d,
            },
    {
        if self.kind(pos, 1) != TokenKind::LAngle {
            return Err(self.fail(pos, 1, "`<`"));
        }
        let elem = match scalar_kind(self.kind(pos, 2)) {
            Some(k) => k,
            None => {
                return Err(self.fail(pos, 2, "an element type"));
            },
        };
        if self.kind(pos, 3) != TokenKind::Comma {
            return Err(self.fail(pos, 3, "`,`"));
        }
        if self.kind(pos, 4) != TokenKind::LBracket {
            return Err(self.fail(pos, 4, "`[`"));
        }
        match self.dims(pos + 5) {
            Err(e) => Err(e),
            Ok((dims, p)) => {
                if self.kind(p, 0) != TokenKind::RAngle {
                    return Err(self.fail(p, 0, "`>`"));
                }
                let shape = Shape {
                    dims,
                    span: self.span(pos, 4).merge(self.span(p - 1, 0)),
                };
                let span = self.span(pos, 0).merge(self.span(p, 0));
                Ok((Type { kind: TypeKind::Tensor { elem, shape }, span }, p + 1))
            },
        }
    }

    fn ty(&self, pos: usize) -> (r: Result<(Type, usize), Diagnostic>)
        requires
            self.wf(),
            pos <= self.t().len(),
        ensures
            match type_at(self.t(), self.s(), pos as int) {
                Parse::Done(v, p) => r matches Ok((x, n)) && x@ == v && n == p && pos < n
                    <= self.t().len(),
                Parse::Fail(d) => r matches Err(e) && e@ == d,
            },
    {
        match scalar_kind(self.kind(pos, 0)) {
            Some(k) => Ok((Type { kind: TypeKind::Scalar(k), span: self.span(pos, 0) }, pos + 1)),
            None => if self.kind(pos, 0) == TokenKind::KwTensor {
                self.tensor(pos)
            } else {
                Err(self.fail(pos, 0, "a type"))
            },
        }
    }

    fn params(&self, start: usize) -> (r: Result<(Vec<Param>, usize), Diagnostic>)
        requires
            self.wf(),
            start <= self.t().len(),
        ensures
            match params_from(self.t(), self.s(), start as int) {
                Parse::Done(d, p) => r matches Ok((v, n)) && param_views(v@) == d && n == p
                    && start < n <= self.t().len(),
                Parse::Fail(d) => r matches Err(e) && e@ == d,
            },
    {
        let ghost t = self.t();
        let ghost s = self.s();
        let ghost whole = params_from(t, s, start as int);
        let mut out: Vec<Param> = Vec::new();
        let mut pos: usize = start;
        proof {
            if let Parse::Done(rest, end) = whole {
                assert(param_views(out@) + rest =~= rest);
            }
        }
        loop
            invariant
                self.wf(),
                t == self.t(),
                s == self.s(),
                whole == params_from(t, s, start as int),
                start <= pos <= t.len(),
                after(param_views(out@), params_from(t, s, pos as int)) == whole,
            decreases t.len() - pos,
        {
            if self.kind(pos, 0) == TokenKind::RParen {
                assert(param_views(out@) + Seq::<ParamView>::empty() =~= param_views(out@));
                return Ok((out, pos + 1));
            }
            if self.kind(pos, 0) != TokenKind::Ident {
                return Err(self.fail(pos, 0, "a parameter name"));
            }
            if self.kind(pos, 1) != TokenKind::Colon {
                return Err(self.fail(pos, 1, "`:`"));
            }
            let (ty, p) = match self.ty(pos + 2) {
                Ok(x) => x,
                Err(e) => {
                    return Err(e);
                },
            };
            let span = self.span(pos, 0).merge(ty.span);
            let param = Param { name: self.ident(pos, 0), ty, span };
            let ghost before = param_views(out@);
            let ghost view = param@;
            let next = self.kind(p, 0);
            if next == TokenKind::Comma {
                out.push(param);
                proof {
                    assert(param_views(out@) =~= before.push(view));
                    if let Parse::Done(rest, end) = params_from(t, s, p + 1) {
                        assert(before + (seq![view] + rest) =~= param_views(out@) + rest);
                    }
                }
                pos = p + 1;
            } else if next == TokenKind::RParen {
                out.push(param);
                assert(param_views(out@) =~= before + seq![view]);
                return Ok((out, p + 1));
            } else {
                return Err(self.fail(p, 0, "`,` or `)`"));
            }
        }
    }

    fn expr(&self, pos: usize, min: u8) -> (r: Result<(Expr, usize), Diagnostic>)
        requires
            self.wf(),
            pos <= self.t().len(),
        ensures
            match expr_at(self.t(), self.s(), pos as int, min) {
                Parse::Done(v, p) => r matches Ok((x, n)) && x@ == v && n == p && pos < n
                    <= self.t().len(),
                Parse::Fail(d) => r matches Err(e) && e@ == d,
            },
        decreases self.t().len() - pos, 2nat,
    {
        let ghost t = self.t();
        let ghost s = self.s();
        let ghost whole = expr_at(t, s, pos as int, min);
        let (first, after_first) = match self.prefix(pos) {
            Ok(x) => x,
            Err(e) => {
                return Err(e);
            },
        };
        let mut lhs: Expr = first;
        let mut p: usize = after_first;
        loop
            invariant
                self.wf(),
                t == self.t(),
                s == self.s(),
                whole == expr_at(t, s, pos as int, min),
                pos < p <= t.len(),
                operators_from(t, s, lhs@, p as int, min) == whole,
            decreases t.len() - p,
        {
            let (op, power) = match operator_of(self.kind(p, 0)) {
                Some(x) => x,
                None => {
                    return Ok((lhs, p));
                },
            };
            if power < min {
                return Ok((lhs, p));
            }
            let (rhs, q) = match self.expr(p + 1, power + 1) {
                Ok(x) => x,
                Err(e) => {
                    return Err(e);
                },
            };
            let span = lhs.span.merge(rhs.span);
            lhs = Expr {
                kind: ExprKind::BinOp { op, lhs: Box::new(lhs), rhs: Box::new(rhs) },
                span,
            };
            p = q;
        }
    }

    fn prefix(&self, pos: usize) -> (r: Result<(Expr, usize), Diagnostic>)
        requires
            self.wf(),
            pos <= self.t().len(),
        ensures
            match prefix_at(self.t(), self.s(), pos as int) {
                Parse::Done(v, p) => r matches Ok((x, n)) && x@ == v && n == p && pos < n
                    <= self.t().len(),
                Parse::Fail(d) => r matches Err(e) && e@ == d,
            },
        decreases self.t().len() - pos, 1nat,
    {
        let span = self.span(pos, 0);
        match self.kind(pos, 0) {
            TokenKind::Int => {
                let text = self.text(pos, 0);
                match value_of(text.as_str()) {
                    Some(v) => if v <= i64::MAX as u64 {
                        Ok((Expr { kind: ExprKind::IntLit(v as i64), span }, pos + 1))
                    } else {
                        Err(self.overflow(pos))
                    },
                    None => Err(self.overflow(pos)),
                }
            },
            TokenKind::Float => {
                let text = self.text(pos, 0);
                Ok((Expr { kind: ExprKind::FloatLit(text), span }, pos + 1))
            },
            TokenKind::Ident => if self.kind(pos, 1) == TokenKind::LParen {
                match self.args(pos + 2) {
                    Err(e) => Err(e),
                    Ok((args, p)) => {
                        let whole = span.merge(self.span(p - 1, 0));
                        let e = Expr {
                            kind: ExprKind::Call { callee: self.ident(pos, 0), args },
                            span: whole,
                        };
                        proof {
                            lemma_call_view(e);
                        }
                        Ok((e, p))
                    },
                }
            } else {
                let text = self.text(pos, 0);
                Ok((Expr { kind: ExprKind::Ident(text), span }, pos + 1))
            },
            TokenKind::Minus => match self.prefix(pos + 1) {
                Err(e) => Err(e),
                Ok((e, p)) => {
                    let whole = span.merge(e.span);
                    Ok(
                        (
                            Expr {
                                kind: ExprKind::Unary { op: UnaryOp::Neg, expr: Box::new(e) },
                                span: whole,
                            },
                            p,
                        ),
                    )
                },
            },
            TokenKind::LParen => match self.expr(pos + 1, 0) {
                Err(e) => Err(e),
                Ok((e, p)) => {
                    if self.kind(p, 0) != TokenKind::RParen {
                        return Err(self.fail(p, 0, "`)`"));
                    }
                    let whole = span.merge(self.span(p, 0));
                    let x = Expr { kind: e.kind, span: whole };
                    Ok((x, p + 1))
                },
            },
            _ => Err(self.fail(pos, 0, "an expression")),
        }
    }

    fn args(&self, start: usize) -> (r: Result<(Vec<Expr>, usize), Diagnostic>)
        requires
            self.wf(),
            start <= self.t().len(),
        ensures
            match args_from(self.t(), self.s(), start as int) {
                Parse::Done(d, p) => r matches Ok((v, n)) && expr_views(v@) == d && n == p
                    && start < n <= self.t().len(),
                Parse::Fail(d) => r matches Err(e) && e@ == d,
            },
        decreases self.t().len() - start, 4nat,
    {
        let ghost t = self.t();
        let ghost s = self.s();
        let ghost whole = args_from(t, s, start as int);
        let mut out: Vec<Expr> = Vec::new();
        let mut pos: usize = start;
        proof {
            if let Parse::Done(rest, end) = whole {
                assert(expr_views(out@) + rest =~= rest);
            }
        }
        loop
            invariant
                self.wf(),
                t == self.t(),
                s == self.s(),
                whole == args_from(t, s, start as int),
                start <= pos <= t.len(),
                after(expr_views(out@), args_from(t, s, pos as int)) == whole,
            decreases t.len() - pos,
        {
            if self.kind(pos, 0) == TokenKind::RParen {
                assert(expr_views(out@) + Seq::<ExprView>::empty() =~= expr_views(out@));
                return Ok((out, pos + 1));
            }
            let (e, p) = match self.expr(pos, 0) {
                Ok(x) => x,
                Err(e) => {
                    return Err(e);
                },
            };
            let ghost before = expr_views(out@);
            let ghost view = e@;
            let next = self.kind(p, 0);
            if next == TokenKind::Comma {
                out.push(e);
                proof {
                    assert(expr_views(out@) =~= before.push(view));
                    if let Parse::Done(rest, end) = args_from(t, s, p + 1) {
                        assert(before + (seq![view] + rest) =~= expr_views(out@) + rest);
                    }
                }
                pos = p + 1;
            } else if next == TokenKind::RParen {
                out.push(e);
                assert(expr_views(out@) =~= before + seq![view]);
                return Ok((out, p + 1));
            } else {
                return Err(self.fail(p, 0, "`,` or `)`"));
            }
        }
    }

    fn stmt_kind(&self, pos: usize) -> (r: Result<(StmtKind, usize), Diagnostic>)
        requires
            self.wf(),
            pos <= self.t().len(),
        ensures
            match stmt_kind_at(self.t(), self.s(), pos as int) {
                Parse::Done(v, p) => r matches Ok((x, n)) && stmt_kind_view(x) == v && n == p
                    && pos < n <= self.t().len(),
                Parse::Fail(d) => r matches Err(e) && e@ == d,
            },
    {
        match self.kind(pos, 0) {
            TokenKind::KwLet => {
                if self.kind(pos, 1) != TokenKind::Ident {
                    return Err(self.fail(pos, 1, "a name"));
                }
                if self.kind(pos, 2) != TokenKind::Eq {
                    return Err(self.fail(pos, 2, "`=`"));
                }
                match self.expr(pos + 3, 0) {
                    Err(e) => Err(e),
                    Ok((value, p)) => Ok((StmtKind::Let { name: self.ident(pos, 1), value }, p)),
                }
            },
            TokenKind::KwReturn => match self.expr(pos + 1, 0) {
                Err(e) => Err(e),
                Ok((e, p)) => Ok((StmtKind::Return(e), p)),
            },
            _ => match self.expr(pos, 0) {
                Err(e) => Err(e),
                Ok((e, p)) => Ok((StmtKind::Expr(e), p)),
            },
        }
    }

    fn stmts(&self, start: usize) -> (r: Result<(Vec<Stmt>, usize), Diagnostic>)
        requires
            self.wf(),
            start <= self.t().len(),
        ensures
            match stmts_from(self.t(), self.s(), start as int) {
                Parse::Done(d, p) => r matches Ok((v, n)) && stmt_views(v@) == d && n == p
                    && start < n <= self.t().len(),
                Parse::Fail(d) => r matches Err(e) && e@ == d,
            },
    {
        let ghost t = self.t();
        let ghost s = self.s();
        let ghost whole = stmts_from(t, s, start as int);
        let mut out: Vec<Stmt> = Vec::new();
        let mut pos: usize = start;
        proof {
            if let Parse::Done(rest, end) = whole {
                assert(stmt_views(out@) + rest =~= rest);
            }
        }
        loop
            invariant
                self.wf(),
                t == self.t(),
                s == self.s(),
                whole == stmts_from(t, s, start as int),
                start <= pos <= t.len(),
                after(stmt_views(out@), stmts_from(t, s, pos as int)) == whole,
            decreases t.len() - pos,
        {
            if self.kind(pos, 0) == TokenKind::RBrace {
                assert(stmt_views(out@) + Seq::<StmtView>::empty() =~= stmt_views(out@));
                return Ok((out, pos + 1));
            }
            let (kind, p) = match self.stmt_kind(pos) {
                Ok(x) => x,
                Err(e) => {
                    return Err(e);
                },
            };
            if self.kind(p, 0) != TokenKind::Semicolon {
                return Err(self.fail(p, 0, "`;`"));
            }
            let span = self.span(pos, 0).merge(self.span(p, 0));
            let st = Stmt { kind, span };
            let ghost before = stmt_views(out@);
            let ghost view = st@;
            out.push(st);
            proof {
                assert(stmt_views(out@) =~= before.push(view));
                if let Parse::Done(rest, end) = stmts_from(t, s, p + 1) {
                    assert(before + (seq![view] + rest) =~= stmt_views(out@) + rest);
                }
            }
            pos = p + 1;
        }
    }

    fn function(&self, pos: usize) -> (r: Result<(Function, usize), Diagnostic>)
        requires
            self.wf(),
            pos <= self.t().len(),
        ensures
            match function_at(self.t(), self.s(), pos as int) {
                Parse::Done(v, p) => r matches Ok((x, n)) && x@ == v && n == p && pos < n
                    <= self.t().len(),
                Parse::Fail(d) => r matches Err(e) && e@ == d,
            },
    {
        if self.kind(pos, 0) != TokenKind::KwFn {
            return Err(self.fail(pos, 0, "`fn`"));
        }
        if self.kind(pos, 1) != TokenKind::Ident {
            return Err(self.fail(pos, 1, "a function name"));
        }
        if self.kind(pos, 2) != TokenKind::LParen {
            return Err(self.fail(pos, 2, "`(`"));
        }
        let (params, p1) = match self.params(pos + 3) {
            Ok(x) => x,
            Err(e) => {
                return Err(e);
            },
        };
        if self.kind(p1, 0) != TokenKind::Arrow {
            return Err(self.fail(p1, 0, "`->`"));
        }
        let (ret, p2) = match self.ty(p1 + 1) {
            Ok(x) => x,
            Err(e) => {
                return Err(e);
            },
        };
        if self.kind(p2, 0) != TokenKind::LBrace {
            return Err(self.fail(p2, 0, "`{`"));
        }
        let (stmts, p3) = match self.stmts(p2 + 1) {
            Ok(x) => x,
            Err(e) => {
                return Err(e);
            },
        };
        let last = self.span(p3 - 1, 0);
        let f = Function {
            name: self.ident(pos, 1),
            params,
            ret,
            body: Block { stmts, span: self.span(p2, 0).merge(last) },
            span: self.span(pos, 0).merge(last),
        };
        Ok((f, p3))
    }

    fn module(&self) -> (r: Result<Module, Diagnostic>)
        requires
            self.wf(),
        ensures
            match functions_from(self.t(), self.s(), 0) {
                Parse::Done(v, p) => r matches Ok(m) && m@ == v,
                Parse::Fail(d) => r matches Err(e) && e@ == d,
            },
    {
        let ghost t = self.t();
        let ghost s = self.s();
        let ghost whole = functions_from(t, s, 0);
        let mut m: Module = Module { items: Vec::new() };
        let mut pos: usize = 0;
        proof {
            if let Parse::Done(rest, end) = whole {
                assert(m@ + rest =~= rest);
            }
        }
        loop
            invariant
                self.wf(),
                t == self.t(),
                s == self.s(),
                whole == functions_from(t, s, 0),
                pos <= t.len(),
                after(m@, functions_from(t, s, pos as int)) == whole,
            decreases t.len() - pos,
        {
            if self.kind(pos, 0) == TokenKind::Eof {
                assert(m@ + Seq::<FunctionView>::empty() =~= m@);
                return Ok(m);
            }
            let (f, p) = match self.function(pos) {
                Ok(x) => x,
                Err(e) => {
                    return Err(e);
                },
            };
            let ghost before = m@;
            let ghost view = f@;
            m.items.push(Item::Function(f));
            proof {
                assert(m@ =~= before.push(view));
                if let Parse::Done(rest, end) = functions_from(t, s, p as int) {
                    assert(before + (seq![view] + rest) =~= m@ + rest);
                }
            }
            pos = p;
        }
    }
}

/// The view of a statement's kind.
pub open spec fn stmt_kind_view(k: StmtKind) -> StmtKindView {
    match k {
        StmtKind::Let { name, value } => StmtKindView::Let { name: name@, value: value@ },
        StmtKind::Return(e) => StmtKindView::Return(e@),
        StmtKind::Expr(e) => StmtKindView::Expr(e@),
    }
}

fn scalar_kind(k: TokenKind) -> (r: Option<ScalarType>)
    ensures
        r == scalar_of(k),
{
    match k {
        TokenKind::TyF32 => Some(ScalarType::F32),
        TokenKind::TyF16 => Some(ScalarType::F16),
        TokenKind::TyI32 => Some(ScalarType::I32),
        TokenKind::TyQ4_0 => Some(ScalarType::Q4_0),
        TokenKind::TyQ8_0 => Some(ScalarType::Q8_0),
        _ => None,
    }
}

fn operator_of(k: TokenKind) -> (r: Option<(BinOp, u8)>)
    ensures
        r == operator(k),
{
    match k {
        TokenKind::Plus => Some((BinOp::Add, 1)),
        TokenKind::Minus => Some((BinOp::Sub, 1)),
        TokenKind::Star => Some((BinOp::Mul, 2)),
        TokenKind::Slash => Some((BinOp::Div, 2)),
        TokenKind::At => Some((BinOp::MatMul, 2)),
        _ => None,
    }
}

/// Turns source text into a syntax tree.
pub struct Parser;

impl Parser {
    /// The syntax tree of a source text of at most 4 GiB, or what is wrong with
    /// it.
    pub fn parse(source: &str) -> (r: Result<Module, Vec<Diagnostic>>)
        requires
            source.spec_bytes().len() <= u32::MAX,
        ensures
            match parse_module(source@) {
                Ok(list) => r matches Ok(m) && m@ == list,
                Err(errors) => r matches Err(e) && diagnostics(e@) == errors,
            },
    {
        let lexer = Lexer::new(source);
        let tokens = match lexer.tokenize() {
            Ok(t) => t,
            Err(e) => {
                return Err(e);
            },
        };
        let chars = to_chars(source);
        proof {
            crate::text::lemma_utf8_len(source@);
        }
        let ts = Tokens { tokens, chars };
        assert(ts.tokens.len() <= usize::MAX);
        match ts.module() {
            Ok(m) => Ok(m),
            Err(d) => {
                let ghost view = d@;
                let mut list: Vec<Diagnostic> = Vec::new();
                list.push(d);
                assert(diagnostics(list@) =~= seq![view]);
                Err(list)
            },
        }
    }
}

} // verus!
