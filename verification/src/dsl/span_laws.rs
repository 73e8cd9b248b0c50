//! Every error that compiling a source text gives points into that text.

use crate::dsl::ast::{BinOp, ExprKindView, ExprView, FunctionView, StmtKindView, StmtView};
use crate::dsl::compiled;
use crate::dsl::diagnostic::{renderable, DiagnosticView};
use crate::dsl::lexer::{
    lemma_lexeme_end, lemma_offset_mono, lemma_token_start, lex, lexeme, offset, span_of,
    token_start, Lexeme, Token, TokenKind,
};
use crate::dsl::parser::{
    args_from, binary, dims_from, expr_at, function_at, functions_from, kind_at, operator,
    operators_from, params_from, parse_module, prefix_at, span_at, stmt_at, stmt_kind_at,
    stmts_from, type_at, Parse,
};
use crate::dsl::span::Span;
use crate::dsl::typeck::{
    check_functions, check_stmts, infer, infer_args, param_env, ty_of, Env, TyView,
};
use crate::text::{lemma_utf8_len, lemma_utf8_len_prefix, utf8_len};
use vstd::prelude::*;
use vstd::string::StringSliceAdditionalSpecFns;
use vstd::utf8::{
    encode_utf8, encode_utf8_first_scalar, encode_utf8_valid_utf8, is_char_boundary,
    pop_first_scalar,
};

verus! {

/// The span starts at a character of the text or at its end, and ends within
/// the text.
pub open spec fn placed(s: Seq<char>, span: Span) -> bool {
    &&& exists|i: int| 0 <= i <= s.len() && span.start == #[trigger] offset(s, i)
    &&& span.start <= span.end <= utf8_len(s)
}

/// The error has a place in the text.
pub open spec fn points_into(s: Seq<char>, d: DiagnosticView) -> bool {
    d.span matches Some(span) && placed(s, span)
}

proof fn lemma_boundary(s: Seq<char>, i: int)
    requires
        0 <= i <= s.len(),
    ensures
        is_char_boundary(encode_utf8(s), encode_utf8(s.subrange(0, i)).len() as int),
    decreases i,
{
    let bytes = encode_utf8(s);
    encode_utf8_valid_utf8(s);
    if i == 0 {
        assert(s.subrange(0, 0) =~= Seq::empty());
    } else {
        let rest = s.drop_first();
        let head = s.subrange(0, i);
        encode_utf8_first_scalar(s);
        assert(pop_first_scalar(bytes) =~= encode_utf8(rest));
        lemma_boundary(rest, i - 1);
        assert(head.drop_first() =~= rest.subrange(0, i - 1));
        assert(head[0] == s[0]);
        lemma_utf8_len(head);
        lemma_utf8_len(s);
        lemma_utf8_len_prefix(s, i);
    }
}

/// A placed span can be shown.
pub proof fn lemma_placed_renderable(source: &str, span: Span)
    requires
        source.spec_bytes().len() < u32::MAX,
        placed(source@, span),
    ensures
        renderable(source, Some(span)),
{
    let s = source@;
    let i = choose|i: int| 0 <= i <= s.len() && span.start == #[trigger] offset(s, i);
    lemma_utf8_len(s);
    lemma_offset_mono(s, i, s.len() as int);
    lemma_utf8_len(s.subrange(0, i));
    lemma_boundary(s, i);
}

// ---- tokens ---------------------------------------------------------------------------

proof fn lemma_span_of(s: Seq<char>, i: int, j: int)
    requires
        0 <= i <= j <= s.len(),
        utf8_len(s) <= u32::MAX,
    ensures
        placed(s, span_of(s, i, j)),
{
    lemma_offset_mono(s, i, j);
    assert(span_of(s, i, j).start == offset(s, i));
}

/// Tokens and lexical errors are placed.
proof fn lemma_lexed(s: Seq<char>, i: int)
    requires
        0 <= i <= s.len(),
        utf8_len(s) <= u32::MAX,
    ensures
        forall|j: int| 0 <= j < lex(s, i).0.len() ==> placed(s, (#[trigger] lex(s, i).0[j]).span),
        forall|j: int| 0 <= j < lex(s, i).1.len() ==> points_into(s, #[trigger] lex(s, i).1[j]),
    decreases s.len() - i,
{
    lemma_token_start(s, i);
    let at = token_start(s, i);
    if at >= s.len() {
        lemma_span_of(s, at, at);
    } else {
        lemma_lexeme_end(s, at);
        match lexeme(s, at) {
            Lexeme::Is(kind, end) => {
                lemma_lexed(s, end);
                lemma_span_of(s, at, end);
                let t = lex(s, i).0;
                let rest = lex(s, end).0;
                assert forall|j: int| 0 <= j < t.len() implies placed(
                    s,
                    (#[trigger] t[j]).span,
                ) by {
                    if j > 0 {
                        assert(t[j] == rest[j - 1]);
                    }
                }
            },
            Lexeme::Bad => {
                lemma_lexed(s, at + 1);
                lemma_span_of(s, at, at + 1);
                let e = lex(s, i).1;
                let rest = lex(s, at + 1).1;
                assert forall|j: int| 0 <= j < e.len() implies points_into(s, #[trigger] e[j]) by {
                    if j > 0 {
                        assert(e[j] == rest[j - 1]);
                    }
                }
            },
        }
    }
}

/// Every token is placed.
spec fn tokens_placed(s: Seq<char>, t: Seq<Token>) -> bool {
    forall|pos: int| placed(s, #[trigger] span_at(t, pos))
}

proof fn lemma_tokens_placed(s: Seq<char>)
    requires
        utf8_len(s) <= u32::MAX,
    ensures
        tokens_placed(s, lex(s, 0).0),
{
    let t = lex(s, 0).0;
    lemma_lexed(s, 0);
    assert forall|pos: int| placed(s, #[trigger] span_at(t, pos)) by {
        if 0 <= pos < t.len() {
            assert(placed(s, t[pos].span));
        } else {
            assert(s.subrange(0, 0) =~= Seq::empty());
            assert(offset(s, 0) == 0);
        }
    }
}

/// The hull of placed spans is placed.
proof fn lemma_hull(s: Seq<char>, a: Span, b: Span)
    requires
        placed(s, a),
        placed(s, b),
    ensures
        placed(s, a.hull(b)),
{
    let i = choose|i: int| 0 <= i <= s.len() && a.start == #[trigger] offset(s, i);
    let j = choose|j: int| 0 <= j <= s.len() && b.start == #[trigger] offset(s, j);
    let h = a.hull(b);
    assert(h.start == offset(s, i) || h.start == offset(s, j));
}

// ---- expressions ----------------------------------------------------------------------

/// The spans of an expression and of its parts are placed.
pub open spec fn expr_placed(s: Seq<char>, e: ExprView) -> bool
    decreases e,
{
    &&& placed(s, e.span)
    &&& match e.kind {
        ExprKindView::Unary { op, expr } => expr_placed(s, *expr),
        ExprKindView::BinOp { op, lhs, rhs } => expr_placed(s, *lhs) && expr_placed(s, *rhs),
        ExprKindView::Call { callee, args } => placed(s, callee.span) && (forall|i: int|
            0 <= i < args.len() ==> expr_placed(s, #[trigger] args[i])),
        _ => true,
    }
}

/// What parsing an expression gives is placed.
spec fn expr_outcome(s: Seq<char>, r: Parse<ExprView>) -> bool {
    match r {
        Parse::Done(e, _) => expr_placed(s, e),
        Parse::Fail(d) => points_into(s, d),
    }
}

spec fn args_outcome(s: Seq<char>, r: Parse<Seq<ExprView>>) -> bool {
    match r {
        Parse::Done(args, _) => forall|i: int|
            0 <= i < args.len() ==> expr_placed(s, #[trigger] args[i]),
        Parse::Fail(d) => points_into(s, d),
    }
}

proof fn lemma_expr_at(t: Seq<Token>, s: Seq<char>, pos: int, min: u8)
    requires
        tokens_placed(s, t),
    ensures
        expr_outcome(s, expr_at(t, s, pos, min)),
    decreases t.len() - pos, 2nat,
{
    lemma_prefix_at(t, s, pos);
    assert(placed(s, span_at(t, pos)));
    match prefix_at(t, s, pos) {
        Parse::Done(lhs, p) => {
            if pos < p <= t.len() {
                lemma_operators_from(t, s, lhs, p, min);
            }
        },
        Parse::Fail(d) => {},
    }
}

proof fn lemma_operators_from(t: Seq<Token>, s: Seq<char>, lhs: ExprView, pos: int, min: u8)
    requires
        tokens_placed(s, t),
        expr_placed(s, lhs),
    ensures
        expr_outcome(s, operators_from(t, s, lhs, pos, min)),
    decreases t.len() - pos, 3nat,
{
    assert(placed(s, span_at(t, pos)));
    match operator(kind_at(t, pos)) {
        None => {},
        Some((op, power)) => {
            if power >= min {
                lemma_expr_at(t, s, pos + 1, (power + 1) as u8);
                match expr_at(t, s, pos + 1, (power + 1) as u8) {
                    Parse::Fail(d) => {},
                    Parse::Done(rhs, p) => {
                        if pos < p <= t.len() {
                            lemma_hull(s, lhs.span, rhs.span);
                            lemma_operators_from(t, s, binary(op, lhs, rhs), p, min);
                        }
                    },
                }
            }
        },
    }
}

proof fn lemma_prefix_at(t: Seq<Token>, s: Seq<char>, pos: int)
    requires
        tokens_placed(s, t),
    ensures
        expr_outcome(s, prefix_at(t, s, pos)),
    decreases t.len() - pos, 1nat,
{
    let span = span_at(t, pos);
    assert(placed(s, span));
    match kind_at(t, pos) {
        TokenKind::Ident => {
            if kind_at(t, pos + 1) == TokenKind::LParen {
                lemma_args_from(t, s, pos + 2);
                match args_from(t, s, pos + 2) {
                    Parse::Done(args, p) => {
                        assert(placed(s, span_at(t, p - 1)));
                        lemma_hull(s, span, span_at(t, p - 1));
                    },
                    Parse::Fail(d) => {},
                }
            }
        },
        TokenKind::Minus => {
            lemma_prefix_at(t, s, pos + 1);
            match prefix_at(t, s, pos + 1) {
                Parse::Done(e, p) => {
                    lemma_hull(s, span, e.span);
                },
                Parse::Fail(d) => {},
            }
        },
        TokenKind::LParen => {
            lemma_expr_at(t, s, pos + 1, 0);
            match expr_at(t, s, pos + 1, 0) {
                Parse::Done(e, p) => {
                    assert(placed(s, span_at(t, p)));
                    lemma_hull(s, span, span_at(t, p));
                },
                Parse::Fail(d) => {},
            }
        },
        _ => {},
    }
}

proof fn lemma_args_from(t: Seq<Token>, s: Seq<char>, pos: int)
    requires
        tokens_placed(s, t),
    ensures
        args_outcome(s, args_from(t, s, pos)),
    decreases t.len() - pos, 4nat,
{
    assert(placed(s, span_at(t, pos)));
    if kind_at(t, pos) != TokenKind::RParen {
        lemma_expr_at(t, s, pos, 0);
        match expr_at(t, s, pos, 0) {
            Parse::Done(e, p) => {
                assert(placed(s, span_at(t, p)));
                if pos < p <= t.len() && kind_at(t, p) == TokenKind::Comma {
                    lemma_args_from(t, s, p + 1);
                    match args_from(t, s, p + 1) {
                        Parse::Done(rest, end) => {
                            let all = seq![e] + rest;
                            assert forall|i: int| 0 <= i < all.len() implies expr_placed(
                                s,
                                #[trigger] all[i],
                            ) by {
                                if i > 0 {
                                    assert(all[i] == rest[i - 1]);
                                }
                            }
                        },
                        Parse::Fail(d) => {},
                    }
                }
            },
            Parse::Fail(d) => {},
        }
    }
}

// ---- statements and functions ---------------------------------------------------------

/// The expression of a statement.
pub open spec fn stmt_expr(k: StmtKindView) -> ExprView {
    match k {
        StmtKindView::Let { name, value } => value,
        StmtKindView::Return(e) => e,
        StmtKindView::Expr(e) => e,
    }
}

/// The expressions of statements are placed.
pub open spec fn stmts_placed(s: Seq<char>, stmts: Seq<StmtView>) -> bool {
    forall|i: int| 0 <= i < stmts.len() ==> expr_placed(s, stmt_expr((#[trigger] stmts[i]).kind))
}

proof fn lemma_stmt_at(t: Seq<Token>, s: Seq<char>, pos: int)
    requires
        tokens_placed(s, t),
    ensures
        match stmt_at(t, s, pos) {
            Parse::Done(st, _) => expr_placed(s, stmt_expr(st.kind)),
            Parse::Fail(d) => points_into(s, d),
        },
{
    assert(placed(s, span_at(t, pos)));
    assert(placed(s, span_at(t, pos + 1)));
    assert(placed(s, span_at(t, pos + 2)));
    lemma_expr_at(t, s, pos, 0);
    lemma_expr_at(t, s, pos + 1, 0);
    lemma_expr_at(t, s, pos + 3, 0);
    match stmt_kind_at(t, s, pos) {
        Parse::Done(kind, p) => {
            assert(placed(s, span_at(t, p)));
        },
        Parse::Fail(d) => {},
    }
}

proof fn lemma_stmts_from(t: Seq<Token>, s: Seq<char>, pos: int)
    requires
        tokens_placed(s, t),
    ensures
        match stmts_from(t, s, pos) {
            Parse::Done(stmts, _) => stmts_placed(s, stmts),
            Parse::Fail(d) => points_into(s, d),
        },
    decreases t.len() - pos,
{
    assert(placed(s, span_at(t, pos)));
    if kind_at(t, pos) != TokenKind::RBrace {
        lemma_stmt_at(t, s, pos);
        match stmt_at(t, s, pos) {
            Parse::Done(st, p) => {
                if pos < p <= t.len() {
                    lemma_stmts_from(t, s, p);
                    match stmts_from(t, s, p) {
                        Parse::Done(rest, end) => {
                            let all = seq![st] + rest;
                            assert forall|i: int| 0 <= i < all.len() implies expr_placed(
                                s,
                                stmt_expr((#[trigger] all[i]).kind),
                            ) by {
                                if i > 0 {
                                    assert(all[i] == rest[i - 1]);
                                }
                            }
                        },
                        Parse::Fail(d) => {},
                    }
                }
            },
            Parse::Fail(d) => {},
        }
    }
}

proof fn lemma_dims_from(t: Seq<Token>, s: Seq<char>, pos: int)
    requires
        tokens_placed(s, t),
    ensures
        dims_from(t, s, pos) matches Parse::Fail(d) ==> points_into(s, d),
    decreases t.len() - pos,
{
    assert(placed(s, span_at(t, pos)));
    assert(placed(s, span_at(t, pos + 1)));
    if kind_at(t, pos) == TokenKind::Int && kind_at(t, pos + 1) == TokenKind::Comma {
        lemma_dims_from(t, s, pos + 2);
    }
}

proof fn lemma_type_at(t: Seq<Token>, s: Seq<char>, pos: int)
    requires
        tokens_placed(s, t),
    ensures
        type_at(t, s, pos) matches Parse::Fail(d) ==> points_into(s, d),
{
    assert(placed(s, span_at(t, pos)));
    assert(placed(s, span_at(t, pos + 1)));
    assert(placed(s, span_at(t, pos + 2)));
    assert(placed(s, span_at(t, pos + 3)));
    assert(placed(s, span_at(t, pos + 4)));
    lemma_dims_from(t, s, pos + 5);
    match dims_from(t, s, pos + 5) {
        Parse::Done(dims, p) => {
            assert(placed(s, span_at(t, p)));
        },
        Parse::Fail(d) => {},
    }
}

proof fn lemma_params_from(t: Seq<Token>, s: Seq<char>, pos: int)
    requires
        tokens_placed(s, t),
    ensures
        params_from(t, s, pos) matches Parse::Fail(d) ==> points_into(s, d),
    decreases t.len() - pos,
{
    assert(placed(s, span_at(t, pos)));
    assert(placed(s, span_at(t, pos + 1)));
    lemma_type_at(t, s, pos + 2);
    match type_at(t, s, pos + 2) {
        Parse::Done(ty, p) => {
            assert(placed(s, span_at(t, p)));
            if pos < p && kind_at(t, p) == TokenKind::Comma {
                lemma_params_from(t, s, p + 1);
            }
        },
        Parse::Fail(d) => {},
    }
}

proof fn lemma_function_at(t: Seq<Token>, s: Seq<char>, pos: int)
    requires
        tokens_placed(s, t),
    ensures
        match function_at(t, s, pos) {
            Parse::Done(f, _) => stmts_placed(s, f.stmts),
            Parse::Fail(d) => points_into(s, d),
        },
{
    assert(placed(s, span_at(t, pos)));
    assert(placed(s, span_at(t, pos + 1)));
    assert(placed(s, span_at(t, pos + 2)));
    lemma_params_from(t, s, pos + 3);
    match params_from(t, s, pos + 3) {
        Parse::Done(params, p1) => {
            assert(placed(s, span_at(t, p1)));
            lemma_type_at(t, s, p1 + 1);
            match type_at(t, s, p1 + 1) {
                Parse::Done(ret, p2) => {
                    assert(placed(s, span_at(t, p2)));
                    lemma_stmts_from(t, s, p2 + 1);
                },
                Parse::Fail(d) => {},
            }
        },
        Parse::Fail(d) => {},
    }
}

/// The expressions of functions are placed.
pub open spec fn functions_placed(s: Seq<char>, fs: Seq<FunctionView>) -> bool {
    forall|i: int| 0 <= i < fs.len() ==> stmts_placed(s, (#[trigger] fs[i]).stmts)
}

proof fn lemma_functions_from(t: Seq<Token>, s: Seq<char>, pos: int)
    requires
        tokens_placed(s, t),
    ensures
        match functions_from(t, s, pos) {
            Parse::Done(fs, _) => functions_placed(s, fs),
            Parse::Fail(d) => points_into(s, d),
        },
    decreases t.len() - pos,
{
    assert(placed(s, span_at(t, pos)));
    if kind_at(t, pos) != TokenKind::Eof {
        lemma_function_at(t, s, pos);
        match function_at(t, s, pos) {
            Parse::Done(f, p) => {
                if pos < p <= t.len() {
                    lemma_functions_from(t, s, p);
                    match functions_from(t, s, p) {
                        Parse::Done(rest, end) => {
                            let all = seq![f] + rest;
                            assert forall|i: int| 0 <= i < all.len() implies stmts_placed(
                                s,
                                (#[trigger] all[i]).stmts,
                            ) by {
                                if i > 0 {
                                    assert(all[i] == rest[i - 1]);
                                }
                            }
                        },
                        Parse::Fail(d) => {},
                    }
                }
            },
            Parse::Fail(d) => {},
        }
    }
}

// ---- type errors ----------------------------------------------------------------------

proof fn lemma_infer(s: Seq<char>, fs: Seq<FunctionView>, env: Env, e: ExprView)
    requires
        expr_placed(s, e),
    ensures
        infer(fs, env, e) matches Err(d) ==> points_into(s, d),
    decreases e, 0nat,
{
    match e.kind {
        ExprKindView::Unary { op, expr } => {
            lemma_infer(s, fs, env, *expr);
        },
        ExprKindView::BinOp { op, lhs, rhs } => {
            lemma_infer(s, fs, env, *lhs);
            lemma_infer(s, fs, env, *rhs);
        },
        ExprKindView::Call { callee, args } => {
            match crate::dsl::typeck::find(fs, callee.name) {
                None => {},
                Some(f) => {
                    if args.len() == f.params.len() {
                        lemma_infer_args(s, fs, env, args, f.params, args.len());
                    }
                },
            }
        },
        _ => {},
    }
}

proof fn lemma_infer_args(
    s: Seq<char>,
    fs: Seq<FunctionView>,
    env: Env,
    args: Seq<ExprView>,
    params: Seq<crate::dsl::ast::ParamView>,
    n: nat,
)
    requires
        n <= args.len(),
        forall|i: int| 0 <= i < args.len() ==> expr_placed(s, #[trigger] args[i]),
    ensures
        infer_args(fs, env, args, params, n) matches Some(d) ==> points_into(s, d),
    decreases args, n,
{
    if n > 0 {
        lemma_infer_args(s, fs, env, args, params, (n - 1) as nat);
        assert(expr_placed(s, args[n - 1]));
        lemma_infer(s, fs, env, args[n - 1]);
    }
}

proof fn lemma_check_stmts(
    s: Seq<char>,
    fs: Seq<FunctionView>,
    ret: TyView,
    env: Env,
    stmts: Seq<StmtView>,
    n: nat,
)
    requires
        n <= stmts.len(),
        stmts_placed(s, stmts),
    ensures
        check_stmts(fs, ret, env, stmts, n) matches Err(d) ==> points_into(s, d),
    decreases n,
{
    if n > 0 {
        lemma_check_stmts(s, fs, ret, env, stmts, (n - 1) as nat);
        match check_stmts(fs, ret, env, stmts, (n - 1) as nat) {
            Ok(mid) => {
                let st = stmts[n - 1];
                assert(expr_placed(s, stmt_expr(st.kind)));
                lemma_infer(s, fs, mid, stmt_expr(st.kind));
            },
            Err(d) => {},
        }
    }
}

proof fn lemma_check_functions(s: Seq<char>, fs: Seq<FunctionView>, n: nat)
    requires
        n <= fs.len(),
        functions_placed(s, fs),
    ensures
        forall|i: int|
            0 <= i < check_functions(fs, n).len() ==> points_into(
                s,
                #[trigger] check_functions(fs, n)[i],
            ),
    decreases n,
{
    if n > 0 {
        lemma_check_functions(s, fs, (n - 1) as nat);
        let f = fs[n - 1];
        assert(stmts_placed(s, f.stmts));
        lemma_check_stmts(s, fs, ty_of(f.ret), param_env(f.params), f.stmts, f.stmts.len());
        let all = check_functions(fs, n);
        let before = check_functions(fs, (n - 1) as nat);
        assert forall|i: int| 0 <= i < all.len() implies points_into(s, #[trigger] all[i]) by {
            if i < before.len() {
                assert(all[i] == before[i]);
            }
        }
    }
}

/// Every error of a source text, lexical, of syntax or of types, points into
/// that text.
pub proof fn lemma_errors_point_into_source(s: Seq<char>)
    requires
        utf8_len(s) <= u32::MAX,
    ensures
        compiled(s) matches Err(errors) ==> forall|i: int|
            0 <= i < errors.len() ==> points_into(s, #[trigger] errors[i]),
        parse_module(s) matches Err(errors) ==> forall|i: int|
            0 <= i < errors.len() ==> points_into(s, #[trigger] errors[i]),
{
    let t = lex(s, 0).0;
    lemma_lexed(s, 0);
    lemma_tokens_placed(s);
    lemma_functions_from(t, s, 0);
    match parse_module(s) {
        Ok(fs) => {
            lemma_check_functions(s, fs, fs.len());
        },
        Err(errors) => {},
    }
}

/// Every error of a source text of less than 4 GiB can be shown.
pub proof fn lemma_errors_renderable(source: &str)
    requires
        source.spec_bytes().len() < u32::MAX,
    ensures
        compiled(source@) matches Err(errors) ==> forall|i: int|
            0 <= i < errors.len() ==> renderable(source, (#[trigger] errors[i]).span),
        parse_module(source@) matches Err(errors) ==> forall|i: int|
            0 <= i < errors.len() ==> renderable(source, (#[trigger] errors[i]).span),
{
    let s = source@;
    lemma_utf8_len(s);
    lemma_errors_point_into_source(s);
    if let Err(errors) = compiled(s) {
        assert forall|i: int| 0 <= i < errors.len() implies renderable(
            source,
            (#[trigger] errors[i]).span,
        ) by {
            assert(points_into(s, errors[i]));
            lemma_placed_renderable(source, errors[i].span->0);
        }
    }
    if let Err(errors) = parse_module(s) {
        assert forall|i: int| 0 <= i < errors.len() implies renderable(
            source,
            (#[trigger] errors[i]).span,
        ) by {
            assert(points_into(s, errors[i]));
            lemma_placed_renderable(source, errors[i].span->0);
        }
    }
}

} // verus!
