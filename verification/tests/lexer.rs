//! Tokens of source texts.

use lumen::dsl::lexer::{Lexer, TokenKind};

fn kinds(src: &str) -> Vec<TokenKind> {
    Lexer::new(src)
        .tokenize()
        .unwrap()
        .into_iter()
        .map(|t| t.kind)
        .collect()
}

#[test]
fn empty() {
    assert_eq!(kinds(""), vec![TokenKind::Eof]);
}

#[test]
fn keywords_and_idents() {
    let toks = kinds("fn matmul let x return");
    assert_eq!(
        toks,
        vec![
            TokenKind::KwFn,
            TokenKind::Ident,
            TokenKind::KwLet,
            TokenKind::Ident,
            TokenKind::KwReturn,
            TokenKind::Eof,
        ]
    );
}

#[test]
fn types() {
    let toks = kinds("tensor<f32, [64, 128]>");
    assert_eq!(
        toks,
        vec![
            TokenKind::KwTensor,
            TokenKind::LAngle,
            TokenKind::TyF32,
            TokenKind::Comma,
            TokenKind::LBracket,
            TokenKind::Int,
            TokenKind::Comma,
            TokenKind::Int,
            TokenKind::RBracket,
            TokenKind::RAngle,
            TokenKind::Eof,
        ]
    );
}

#[test]
fn punctuation_and_ops() {
    assert_eq!(
        kinds("a @ b -> c"),
        vec![
            TokenKind::Ident,
            TokenKind::At,
            TokenKind::Ident,
            TokenKind::Arrow,
            TokenKind::Ident,
            TokenKind::Eof,
        ]
    );
}

#[test]
fn comments() {
    assert_eq!(
        kinds("// line\nfn /* block */ x"),
        vec![TokenKind::KwFn, TokenKind::Ident, TokenKind::Eof]
    );
}

#[test]
fn numbers() {
    // `2.` (trailing dot without a fractional digit) intentionally stays as
    // `Int(2)` so that future syntax can use `.` as a separate token. We
    // don't exercise that case here to keep the test deterministic.
    assert_eq!(
        kinds("1 2.5 3e-4 42"),
        vec![
            TokenKind::Int,
            TokenKind::Float,
            TokenKind::Float,
            TokenKind::Int,
            TokenKind::Eof,
        ]
    );
}

#[test]
fn korean_identifier() {
    let toks = kinds("행렬곱");
    assert_eq!(toks, vec![TokenKind::Ident, TokenKind::Eof]);
}

#[test]
fn quantized_keywords() {
    assert_eq!(
        kinds("q4_0 q8_0"),
        vec![TokenKind::TyQ4_0, TokenKind::TyQ8_0, TokenKind::Eof]
    );
}

#[test]
fn letters_of_any_script_start_a_name() {
    assert_eq!(
        kinds("\u{E9}t\u{E9}1 \u{3B1}_"),
        vec![
            TokenKind::Ident,
            TokenKind::Ident,
            TokenKind::Eof,
        ]
    );
    assert!(Lexer::new("\u{2192}").tokenize().is_err());
    assert!(Lexer::new("#").tokenize().is_err());
}
