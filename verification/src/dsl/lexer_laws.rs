//! What a text is split into, token by token.
//!
//! Each law takes the first token off a text: the tokens of the text are that
//! token and the tokens of the rest, moved by the bytes that were taken off.

use crate::dsl::diagnostic::{DiagnosticView, Severity};
use crate::dsl::lexer::{
    alphabetic, block_end, char_at, digits_end, exponent_end, fraction_end, ident_end,
    is_ident_continue, is_space, lemma_lexeme_end, lemma_offset_mono,
    lemma_token_start, lex, lexeme, line_end, number_end, offset, punctuation, span_of,
    token_start, word_kind, Lexeme, Token, TokenKind,
};
use crate::dsl::span::Span;
use crate::text::{lemma_encode_concat, lemma_utf8_len};
use vstd::prelude::*;
use vstd::utf8::encode_utf8;

verus! {

// ---- what the laws say ----------------------------------------------------------------

/// A token that stands `n` bytes later.
pub open spec fn moved(t: Token, n: nat) -> Token {
    Token {
        kind: t.kind,
        span: Span { start: (t.span.start + n) as u32, end: (t.span.end + n) as u32 },
    }
}

/// An error that stands `n` bytes later.
pub open spec fn moved_error(d: DiagnosticView, n: nat) -> DiagnosticView {
    DiagnosticView {
        span: match d.span {
            Some(s) => Some(Span { start: (s.start + n) as u32, end: (s.end + n) as u32 }),
            None => None,
        },
        ..d
    }
}

/// Tokens and errors that stand `n` bytes later.
pub open spec fn all_moved(r: (Seq<Token>, Seq<DiagnosticView>), n: nat) -> (
    Seq<Token>,
    Seq<DiagnosticView>,
) {
    (
        r.0.map_values(|t: Token| moved(t, n)),
        r.1.map_values(|d: DiagnosticView| moved_error(d, n)),
    )
}

/// The text is split into a token of `kind` over the text `first`, and what
/// `rest` is split into.
pub open spec fn starts_with(first: Seq<char>, kind: TokenKind, rest: Seq<char>) -> bool {
    let n = encode_utf8(first).len();
    let after = all_moved(lex(rest, 0), n);
    lex(first + rest, 0) == (
        seq![Token { kind, span: Span { start: 0, end: n as u32 } }] + after.0,
        after.1,
    )
}

/// The text is split into what `rest` is split into: `first` is skipped.
pub open spec fn skips(first: Seq<char>, rest: Seq<char>) -> bool {
    lex(first + rest, 0) == all_moved(lex(rest, 0), encode_utf8(first).len())
}

/// The bytes of the text can be counted in 32 bits.
pub open spec fn fits(s: Seq<char>) -> bool {
    encode_utf8(s).len() <= u32::MAX
}

/// A letter, as names are written: an ASCII letter of either case, an underscore,
/// or a letter beyond ASCII.
pub open spec fn letter(c: char) -> bool {
    ||| 'a' <= c <= 'z'
    ||| 'A' <= c <= 'Z'
    ||| c == '_'
    ||| c as u32 > 0x7F && alphabetic(c)
}

/// Letters and ASCII digits, the first of them a letter.
pub open spec fn name(w: Seq<char>) -> bool {
    &&& w.len() > 0
    &&& letter(w[0])
    &&& forall|i: int| 0 <= i < w.len() ==> letter(#[trigger] w[i]) || '0' <= w[i] <= '9'
}

/// One or more ASCII digits.
pub open spec fn digits(w: Seq<char>) -> bool {
    &&& w.len() > 0
    &&& forall|i: int| 0 <= i < w.len() ==> '0' <= (#[trigger] w[i]) <= '9'
}

/// The text goes on with an ASCII digit.
pub open spec fn digit_next(s: Seq<char>, i: int) -> bool {
    0 <= i < s.len() && '0' <= s[i] <= '9'
}

// ---- texts that are moved -------------------------------------------------------------

proof fn lemma_moved_offset(p: Seq<char>, r: Seq<char>, i: int)
    requires
        fits(p + r),
        0 <= i <= r.len(),
    ensures
        offset(p + r, p.len() + i) == offset(r, i) + encode_utf8(p).len(),
        offset(r, i) + encode_utf8(p).len() <= u32::MAX,
{
    let w = p + r;
    let a = r.subrange(0, i);
    assert(w.subrange(0, p.len() + i) =~= p + a);
    lemma_encode_concat(p, a);
    lemma_encode_concat(p, r);
    lemma_utf8_len(p + a);
    lemma_utf8_len(a);
    lemma_utf8_len(r);
    lemma_utf8_len(w);
    lemma_offset_mono(r, 0, i);
    lemma_offset_mono(w, 0, p.len() + i);
}

proof fn lemma_moved_line_end(p: Seq<char>, r: Seq<char>, i: int)
    requires
        0 <= i,
    ensures
        line_end(p + r, p.len() + i) == p.len() + line_end(r, i),
    decreases r.len() - i,
{
    if i < r.len() && r[i] != '\n' {
        assert((p + r)[p.len() + i] == r[i]);
        lemma_moved_line_end(p, r, i + 1);
    } else if i < r.len() {
        assert((p + r)[p.len() + i] == r[i]);
    }
}

proof fn lemma_moved_block_end(p: Seq<char>, r: Seq<char>, i: int)
    requires
        0 <= i,
    ensures
        block_end(p + r, p.len() + i) == p.len() + block_end(r, i),
    decreases r.len() - i,
{
    if i < r.len() {
        assert((p + r)[p.len() + i] == r[i]);
        if i + 1 < r.len() {
            assert((p + r)[p.len() + i + 1] == r[i + 1]);
        }
        if !(r[i] == '*' && char_at(r, i + 1, '/')) {
            lemma_moved_block_end(p, r, i + 1);
        }
    }
}

proof fn lemma_moved_digits_end(p: Seq<char>, r: Seq<char>, i: int)
    requires
        0 <= i,
    ensures
        digits_end(p + r, p.len() + i) == p.len() + digits_end(r, i),
        i <= digits_end(r, i),
    decreases r.len() - i,
{
    if i < r.len() {
        assert((p + r)[p.len() + i] == r[i]);
        if digit_next(r, i) {
            lemma_moved_digits_end(p, r, i + 1);
        }
    }
}

proof fn lemma_moved_ident_end(p: Seq<char>, r: Seq<char>, i: int)
    requires
        0 <= i,
    ensures
        ident_end(p + r, p.len() + i) == p.len() + ident_end(r, i),
        i <= ident_end(r, i),
        i <= r.len() ==> ident_end(r, i) <= r.len(),
    decreases r.len() - i,
{
    if i < r.len() {
        assert((p + r)[p.len() + i] == r[i]);
        if is_ident_continue(r[i]) {
            lemma_moved_ident_end(p, r, i + 1);
        }
    }
}

proof fn lemma_moved_char(p: Seq<char>, r: Seq<char>, i: int, c: char)
    requires
        0 <= i,
    ensures
        char_at(p + r, p.len() + i, c) == char_at(r, i, c),
{
    if i < r.len() {
        assert((p + r)[p.len() + i] == r[i]);
    }
}

proof fn lemma_moved_start(p: Seq<char>, r: Seq<char>, i: int)
    requires
        0 <= i,
    ensures
        token_start(p + r, p.len() + i) == p.len() + token_start(r, i),
    decreases r.len() - i,
{
    if i < r.len() {
        assert((p + r)[p.len() + i] == r[i]);
        lemma_moved_char(p, r, i + 1, '/');
        lemma_moved_char(p, r, i + 1, '*');
        if is_space(r[i]) {
            lemma_moved_start(p, r, i + 1);
        } else if r[i] == '/' && char_at(r, i + 1, '/') {
            lemma_moved_line_end(p, r, i);
            lemma_line_end_after(r, i + 1);
            lemma_moved_start(p, r, line_end(r, i));
        } else if r[i] == '/' && char_at(r, i + 1, '*') {
            lemma_moved_block_end(p, r, i + 2);
            lemma_block_end_after(r, i + 2);
            lemma_moved_start(p, r, block_end(r, i + 2));
        }
    }
}

proof fn lemma_line_end_after(s: Seq<char>, i: int)
    ensures
        i <= line_end(s, i),
        i <= s.len() ==> line_end(s, i) <= s.len(),
    decreases s.len() - i,
{
    if i < s.len() && s[i] != '\n' {
        lemma_line_end_after(s, i + 1);
    }
}

proof fn lemma_block_end_after(s: Seq<char>, i: int)
    ensures
        i <= block_end(s, i),
        i <= s.len() ==> block_end(s, i) <= s.len(),
    decreases s.len() - i,
{
    if i < s.len() && !(s[i] == '*' && char_at(s, i + 1, '/')) {
        lemma_block_end_after(s, i + 1);
    }
}

proof fn lemma_moved_number(p: Seq<char>, r: Seq<char>, i: int)
    requires
        0 <= i < r.len(),
    ensures
        number_end(p + r, p.len() + i) == p.len() + number_end(r, i),
        digits_end(p + r, p.len() + i) == p.len() + digits_end(r, i),
{
    let w = p + r;
    let n = p.len();
    lemma_moved_digits_end(p, r, i);
    let d = digits_end(r, i);
    lemma_moved_char(p, r, d, '.');
    lemma_moved_digits_end(p, r, d + 1);
    if d + 1 < r.len() {
        assert(w[n + d + 1] == r[d + 1]);
    }
    assert(fraction_end(w, n + d) == n + fraction_end(r, d));
    let f = fraction_end(r, d);
    lemma_moved_char(p, r, f, 'e');
    lemma_moved_char(p, r, f, 'E');
    lemma_moved_char(p, r, f + 1, '+');
    lemma_moved_char(p, r, f + 1, '-');
    lemma_moved_digits_end(p, r, f + 1);
    lemma_moved_digits_end(p, r, f + 2);
    assert(exponent_end(w, n + f) == n + exponent_end(r, f));
}

proof fn lemma_moved_lexeme(p: Seq<char>, r: Seq<char>, i: int)
    requires
        0 <= i < r.len(),
    ensures
        lexeme(p + r, p.len() + i) == match lexeme(r, i) {
            Lexeme::Is(kind, end) => Lexeme::Is(kind, p.len() + end),
            Lexeme::Bad => Lexeme::Bad,
        },
{
    let w = p + r;
    let n = p.len();
    assert(w[n + i] == r[i]);
    lemma_moved_char(p, r, i + 1, '>');
    lemma_moved_number(p, r, i);
    lemma_moved_ident_end(p, r, i);
    let end = ident_end(r, i);
    assert(w.subrange(n + i, n + end) =~= r.subrange(i, end));
}

/// What a text is split into from a place on does not depend on what stands
/// before, but for where it stands.
pub proof fn lemma_split_moves(p: Seq<char>, r: Seq<char>, i: int)
    requires
        0 <= i <= r.len(),
        fits(p + r),
    ensures
        lex(p + r, p.len() + i) == all_moved(lex(r, i), encode_utf8(p).len()),
    decreases r.len() - i,
{
    let w = p + r;
    let n = p.len();
    let b = encode_utf8(p).len();
    lemma_moved_start(p, r, i);
    lemma_token_start(r, i);
    let at = token_start(r, i);
    lemma_moved_offset(p, r, at);
    let want = all_moved(lex(r, i), b);
    if at < r.len() {
        lemma_moved_lexeme(p, r, at);
        lemma_lexeme_end(r, at);
        assert(w[n + at] == r[at]);
        match lexeme(r, at) {
            Lexeme::Is(kind, end) => {
                lemma_split_moves(p, r, end);
                lemma_moved_offset(p, r, end);
                let rest = lex(r, end);
                let t = Token { kind, span: span_of(r, at, end) };
                assert(lex(r, i).0 =~= seq![t] + rest.0);
                assert(want.0 =~= seq![moved(t, b)] + all_moved(rest, b).0);
                assert(lex(w, n + i).0 =~= want.0);
            },
            Lexeme::Bad => {
                lemma_split_moves(p, r, at + 1);
                lemma_moved_offset(p, r, at + 1);
                let rest = lex(r, at + 1);
                assert(lex(w, n + i).1 =~= want.1);
            },
        }
    } else {
        assert(lex(w, n + i).0 =~= want.0);
        assert(lex(w, n + i).1 =~= want.1);
    }
}

/// A text that starts with a token that ends after `first`.
proof fn lemma_token_then(first: Seq<char>, kind: TokenKind, rest: Seq<char>)
    requires
        first.len() > 0,
        fits(first + rest),
        token_start(first + rest, 0) == 0,
        lexeme(first + rest, 0) == Lexeme::Is(kind, first.len() as int),
    ensures
        starts_with(first, kind, rest),
{
    let w = first + rest;
    lemma_split_moves(first, rest, 0);
    lemma_moved_offset(first, rest, 0);
    assert(w.subrange(0, 0) =~= Seq::empty());
    assert(rest.subrange(0, 0) =~= Seq::empty());
    let after = all_moved(lex(rest, 0), encode_utf8(first).len());
    assert(lex(w, 0).0 =~= seq![Token { kind, span: span_of(w, 0, first.len() as int) }] + after.0);
}

/// A text of which `first` is skipped.
proof fn lemma_skip_then(first: Seq<char>, rest: Seq<char>)
    requires
        fits(first + rest),
        token_start(first + rest, 0) == token_start(first + rest, first.len() as int),
    ensures
        skips(first, rest),
{
    lemma_split_moves(first, rest, 0);
    lemma_token_start(first + rest, 0);
}

// ---- what is skipped ------------------------------------------------------------------

/// An empty text is its end and nothing else.
pub proof fn lemma_empty_text()
    ensures
        lex(Seq::empty(), 0) == (
            seq![Token { kind: TokenKind::Eof, span: Span { start: 0, end: 0 } }],
            Seq::<DiagnosticView>::empty(),
        ),
{
    let s = Seq::<char>::empty();
    assert(s.subrange(0, 0) =~= s);
}

/// Blanks, tabs, carriage returns and newlines are skipped.
pub proof fn lemma_space_then(c: char, rest: Seq<char>)
    requires
        c == ' ' || c == '\t' || c == '\r' || c == '\n',
        fits(seq![c] + rest),
    ensures
        skips(seq![c], rest),
{
    lemma_skip_then(seq![c], rest);
}

/// A comment from `//` up to the end of its line is skipped.
pub proof fn lemma_line_comment_then(body: Seq<char>, rest: Seq<char>)
    requires
        forall|i: int| 0 <= i < body.len() ==> #[trigger] body[i] != '\n',
        rest.len() > 0 ==> rest[0] == '\n',
        fits(seq!['/', '/'] + body + rest),
    ensures
        skips(seq!['/', '/'] + body, rest),
{
    let first = seq!['/', '/'] + body;
    let w = first + rest;
    assert forall|i: int| 0 <= i < first.len() implies #[trigger] w[i] != '\n' by {
        if i >= 2 {
            assert(w[i] == body[i - 2]);
        }
    }
    lemma_line_ends(w, 0, first.len() as int);
    lemma_skip_then(first, rest);
}

proof fn lemma_line_ends(s: Seq<char>, i: int, end: int)
    requires
        0 <= i <= end <= s.len(),
        forall|j: int| i <= j < end ==> #[trigger] s[j] != '\n',
        end < s.len() ==> s[end] == '\n',
    ensures
        line_end(s, i) == end,
    decreases end - i,
{
    if i < end {
        lemma_line_ends(s, i + 1, end);
    }
}

/// A comment from `/*` up to the next `*/` is skipped. It does not nest.
pub proof fn lemma_block_comment_then(body: Seq<char>, rest: Seq<char>)
    requires
        forall|i: int|
            0 <= i < body.len() - 1 ==> !(#[trigger] body[i] == '*' && body[i + 1] == '/'),
        fits(seq!['/', '*'] + body + seq!['*', '/'] + rest),
    ensures
        skips(seq!['/', '*'] + body + seq!['*', '/'], rest),
{
    let first = seq!['/', '*'] + body + seq!['*', '/'];
    let w = first + rest;
    let n = body.len() as int;
    assert(w[n + 2] == '*' && w[n + 3] == '/');
    assert forall|j: int| 2 <= j < n + 2 implies !(#[trigger] w[j] == '*' && char_at(
        w,
        j + 1,
        '/',
    )) by {
        assert(w[j] == body[j - 2]);
        if j + 1 < n + 2 {
            assert(w[j + 1] == body[j - 1]);
            assert(!(body[j - 2] == '*' && body[j - 2 + 1] == '/'));
        }
    }
    lemma_block_ends(w, 2, n + 2);
    lemma_skip_then(first, rest);
}

proof fn lemma_block_ends(s: Seq<char>, i: int, end: int)
    requires
        0 <= i <= end < s.len() - 1,
        forall|j: int| i <= j < end ==> !(#[trigger] s[j] == '*' && char_at(s, j + 1, '/')),
        s[end] == '*',
        s[end + 1] == '/',
    ensures
        block_end(s, i) == end + 2,
    decreases end - i,
{
    if i < end {
        assert(!(s[i] == '*' && char_at(s, i + 1, '/')));
        lemma_block_ends(s, i + 1, end);
    }
}

// ---- tokens ---------------------------------------------------------------------------

/// A name is one token, up to where it cannot go on: a keyword where it is one,
/// an identifier otherwise. Upper and lower case, underscores and letters beyond
/// ASCII can stand anywhere in it, ASCII digits anywhere but at its start.
pub proof fn lemma_name_then(w: Seq<char>, rest: Seq<char>)
    requires
        name(w),
        rest.len() > 0 ==> !letter(rest[0]) && !digit_next(rest, 0),
        fits(w + rest),
    ensures
        w == "fn"@ ==> starts_with(w, TokenKind::KwFn, rest),
        w == "let"@ ==> starts_with(w, TokenKind::KwLet, rest),
        w == "return"@ ==> starts_with(w, TokenKind::KwReturn, rest),
        w == "if"@ ==> starts_with(w, TokenKind::KwIf, rest),
        w == "else"@ ==> starts_with(w, TokenKind::KwElse, rest),
        w == "tensor"@ ==> starts_with(w, TokenKind::KwTensor, rest),
        w == "f32"@ ==> starts_with(w, TokenKind::TyF32, rest),
        w == "f16"@ ==> starts_with(w, TokenKind::TyF16, rest),
        w == "i32"@ ==> starts_with(w, TokenKind::TyI32, rest),
        w == "q4_0"@ ==> starts_with(w, TokenKind::TyQ4_0, rest),
        w == "q8_0"@ ==> starts_with(w, TokenKind::TyQ8_0, rest),
        w != "fn"@ && w != "let"@ && w != "return"@ && w != "if"@ && w != "else"@ && w
            != "tensor"@ && w != "f32"@ && w != "f16"@ && w != "i32"@ && w != "q4_0"@ && w
            != "q8_0"@ ==> starts_with(w, TokenKind::Ident, rest),
{
    let s = w + rest;
    lemma_word_ends(w, rest, 0);
    assert(s[0] == w[0]);
    assert(s.subrange(0, w.len() as int) =~= w);
    assert(lexeme(s, 0) == Lexeme::Is(word_kind(w), w.len() as int));
    lemma_token_then(w, word_kind(w), rest);
    reveal_strlit("fn");
    reveal_strlit("let");
    reveal_strlit("return");
    reveal_strlit("if");
    reveal_strlit("else");
    reveal_strlit("tensor");
    reveal_strlit("f32");
    reveal_strlit("f16");
    reveal_strlit("i32");
    reveal_strlit("q4_0");
    reveal_strlit("q8_0");
    lemma_words(w);
}

/// The keywords, each with its own kind, and every other word, which is a name.
pub proof fn lemma_words(s: Seq<char>)
    ensures
        s != "fn"@ && s != "let"@ && s != "return"@ && s != "if"@ && s != "else"@ && s != "tensor"@
            && s != "f32"@ && s != "f16"@ && s != "i32"@ && s != "q4_0"@ && s != "q8_0"@
            ==> word_kind(s) == TokenKind::Ident,
        word_kind("fn"@) == TokenKind::KwFn,
        word_kind("let"@) == TokenKind::KwLet,
        word_kind("return"@) == TokenKind::KwReturn,
        word_kind("if"@) == TokenKind::KwIf,
        word_kind("else"@) == TokenKind::KwElse,
        word_kind("tensor"@) == TokenKind::KwTensor,
        word_kind("f32"@) == TokenKind::TyF32,
        word_kind("f16"@) == TokenKind::TyF16,
        word_kind("i32"@) == TokenKind::TyI32,
        word_kind("q4_0"@) == TokenKind::TyQ4_0,
        word_kind("q8_0"@) == TokenKind::TyQ8_0,
{
    reveal_strlit("fn");
    reveal_strlit("let");
    reveal_strlit("return");
    reveal_strlit("if");
    reveal_strlit("else");
    reveal_strlit("tensor");
    reveal_strlit("f32");
    reveal_strlit("f16");
    reveal_strlit("i32");
    reveal_strlit("q4_0");
    reveal_strlit("q8_0");
    assert("fn"@[0] == 'f' && "if"@[0] == 'i');
    assert("f32"@[1] == '3' && "f16"@[1] == '1' && "let"@[0] == 'l' && "i32"@[0] == 'i'
        && "f32"@[0] == 'f' && "f16"@[0] == 'f');
    assert("else"@[0] == 'e' && "q4_0"@[1] == '4' && "q8_0"@[1] == '8' && "q4_0"@[0] == 'q'
        && "q8_0"@[0] == 'q');
    assert("return"@[0] == 'r' && "tensor"@[0] == 't');
    assert("i32"@.len() == 3 && "if"@.len() == 2 && "fn"@.len() == 2);
    assert("i32"@ != "f32"@ && "i32"@ != "f16"@ && "i32"@ != "let"@);
}

proof fn lemma_word_ends(w: Seq<char>, rest: Seq<char>, i: int)
    requires
        name(w),
        rest.len() > 0 ==> !letter(rest[0]) && !digit_next(rest, 0),
        0 <= i <= w.len(),
    ensures
        ident_end(w + rest, i) == w.len(),
    decreases w.len() - i,
{
    let s = w + rest;
    if i < w.len() {
        assert(s[i] == w[i]);
        lemma_word_ends(w, rest, i + 1);
    } else if rest.len() > 0 {
        assert(s[i] == rest[0]);
    }
}

proof fn lemma_run_ends(s: Seq<char>, i: int, end: int)
    requires
        0 <= i <= end <= s.len(),
        forall|j: int| i <= j < end ==> '0' <= (#[trigger] s[j]) <= '9',
        !digit_next(s, end),
    ensures
        digits_end(s, i) == end,
    decreases end - i,
{
    if i < end {
        lemma_run_ends(s, i + 1, end);
    }
}

/// Digits are one whole number, up to where no digit follows. What follows starts
/// neither a fraction nor an exponent.
pub proof fn lemma_int_then(w: Seq<char>, rest: Seq<char>)
    requires
        digits(w),
        !digit_next(rest, 0),
        rest.len() > 0 ==> rest[0] != 'e' && rest[0] != 'E',
        !(rest.len() > 0 && rest[0] == '.' && digit_next(rest, 1)),
        fits(w + rest),
    ensures
        starts_with(w, TokenKind::Int, rest),
{
    let s = w + rest;
    let n = w.len() as int;
    assert forall|j: int| 0 <= j < n implies '0' <= (#[trigger] s[j]) <= '9' by {
        assert(s[j] == w[j]);
    }
    if rest.len() > 0 {
        assert(s[n] == rest[0]);
    }
    if rest.len() > 1 {
        assert(s[n + 1] == rest[1]);
    }
    lemma_run_ends(s, 0, n);
    assert(number_end(s, 0) == n);
    assert(s[0] == w[0]);
    lemma_token_then(w, TokenKind::Int, rest);
}

/// Digits, a dot and digits are one floating-point number.
pub proof fn lemma_fraction_then(a: Seq<char>, b: Seq<char>, rest: Seq<char>)
    requires
        digits(a),
        digits(b),
        !digit_next(rest, 0),
        rest.len() > 0 ==> rest[0] != 'e' && rest[0] != 'E',
        fits(a + seq!['.'] + b + rest),
    ensures
        starts_with(a + seq!['.'] + b, TokenKind::Float, rest),
{
    let w = a + seq!['.'] + b;
    let s = w + rest;
    let (n, m) = (a.len() as int, w.len() as int);
    assert forall|j: int| 0 <= j < n implies '0' <= (#[trigger] s[j]) <= '9' by {
        assert(s[j] == a[j]);
    }
    assert forall|j: int| n + 1 <= j < m implies '0' <= (#[trigger] s[j]) <= '9' by {
        assert(s[j] == b[j - n - 1]);
    }
    assert(s[n] == '.');
    assert(s[n + 1] == b[0]);
    if rest.len() > 0 {
        assert(s[m] == rest[0]);
    }
    lemma_run_ends(s, 0, n);
    lemma_run_ends(s, n + 1, m);
    assert(number_end(s, 0) == m);
    assert(s[0] == a[0]);
    lemma_token_then(w, TokenKind::Float, rest);
}

/// Digits, an `e` of either case and digits, with or without a sign, are one
/// floating-point number; so they are with a fraction before the `e`.
pub proof fn lemma_exponent_then(
    a: Seq<char>,
    fraction: Seq<char>,
    e: char,
    sign: Seq<char>,
    b: Seq<char>,
    rest: Seq<char>,
)
    requires
        digits(a),
        fraction.len() == 0 || (fraction.len() > 1 && fraction[0] == '.' && digits(
            fraction.drop_first(),
        )),
        e == 'e' || e == 'E',
        sign.len() == 0 || sign == seq!['+'] || sign == seq!['-'],
        digits(b),
        !digit_next(rest, 0),
        fits(a + fraction + seq![e] + sign + b + rest),
    ensures
        starts_with(a + fraction + seq![e] + sign + b, TokenKind::Float, rest),
{
    let w = a + fraction + seq![e] + sign + b;
    let s = w + rest;
    let n = a.len() as int;
    let f = n + fraction.len();
    let k = f + 1 + sign.len();
    let m = w.len() as int;
    assert forall|j: int| 0 <= j < n implies '0' <= (#[trigger] s[j]) <= '9' by {
        assert(s[j] == a[j]);
    }
    assert forall|j: int| n + 1 <= j < f implies '0' <= (#[trigger] s[j]) <= '9' by {
        assert(s[j] == fraction.drop_first()[j - n - 1]);
    }
    assert forall|j: int| k <= j < m implies '0' <= (#[trigger] s[j]) <= '9' by {
        assert(s[j] == b[j - k]);
    }
    assert(s[f] == e);
    assert(s[k] == b[0]);
    if sign.len() > 0 {
        assert(s[f + 1] == sign[0]);
    }
    if fraction.len() > 0 {
        assert(s[n] == fraction[0]);
        assert(s[n + 1] == fraction.drop_first()[0]);
    }
    if rest.len() > 0 {
        assert(s[m] == rest[0]);
    }
    lemma_run_ends(s, 0, n);
    if fraction.len() > 0 {
        lemma_run_ends(s, n + 1, f);
    }
    assert(fraction_end(s, n) == f);
    lemma_run_ends(s, k, m);
    assert(exponent_end(s, f) == m);
    assert(s[0] == a[0]);
    lemma_token_then(w, TokenKind::Float, rest);
}

/// Every mark is a token of its own. A minus that `>` follows is part of an arrow,
/// and a slash that a slash or a star follows starts a comment.
pub proof fn lemma_mark_then(c: char, rest: Seq<char>)
    requires
        fits(seq![c] + rest),
        c == '-' ==> !(rest.len() > 0 && rest[0] == '>'),
        c == '/' ==> !(rest.len() > 0 && (rest[0] == '/' || rest[0] == '*')),
    ensures
        c == '(' ==> starts_with(seq![c], TokenKind::LParen, rest),
        c == ')' ==> starts_with(seq![c], TokenKind::RParen, rest),
        c == '{' ==> starts_with(seq![c], TokenKind::LBrace, rest),
        c == '}' ==> starts_with(seq![c], TokenKind::RBrace, rest),
        c == '[' ==> starts_with(seq![c], TokenKind::LBracket, rest),
        c == ']' ==> starts_with(seq![c], TokenKind::RBracket, rest),
        c == '<' ==> starts_with(seq![c], TokenKind::LAngle, rest),
        c == '>' ==> starts_with(seq![c], TokenKind::RAngle, rest),
        c == ',' ==> starts_with(seq![c], TokenKind::Comma, rest),
        c == ';' ==> starts_with(seq![c], TokenKind::Semicolon, rest),
        c == ':' ==> starts_with(seq![c], TokenKind::Colon, rest),
        c == '=' ==> starts_with(seq![c], TokenKind::Eq, rest),
        c == '+' ==> starts_with(seq![c], TokenKind::Plus, rest),
        c == '-' ==> starts_with(seq![c], TokenKind::Minus, rest),
        c == '*' ==> starts_with(seq![c], TokenKind::Star, rest),
        c == '/' ==> starts_with(seq![c], TokenKind::Slash, rest),
        c == '@' ==> starts_with(seq![c], TokenKind::At, rest),
{
    let s = seq![c] + rest;
    assert(s[0] == c);
    if rest.len() > 0 {
        assert(s[1] == rest[0]);
    }
    if punctuation(c) is Some {
        lemma_token_then(seq![c], punctuation(c)->0, rest);
    }
}

/// `->` is one token.
pub proof fn lemma_arrow_then(rest: Seq<char>)
    requires
        fits(seq!['-', '>'] + rest),
    ensures
        starts_with(seq!['-', '>'], TokenKind::Arrow, rest),
{
    let s = seq!['-', '>'] + rest;
    assert(s[0] == '-' && s[1] == '>');
    lemma_token_then(seq!['-', '>'], TokenKind::Arrow, rest);
}

/// A character that starts no token is an error that names it, and the rest is
/// split as if it were not there.
pub proof fn lemma_stray_then(c: char, rest: Seq<char>)
    requires
        fits(seq![c] + rest),
        !letter(c),
        !('0' <= c <= '9'),
        c != ' ' && c != '\t' && c != '\r' && c != '\n',
        c != '(' && c != ')' && c != '{' && c != '}' && c != '[' && c != ']' && c != '<' && c
            != '>' && c != ',' && c != ';' && c != ':' && c != '=' && c != '+' && c != '-' && c
            != '*' && c != '/' && c != '@',
    ensures
        ({
            let n = encode_utf8(seq![c]).len();
            let after = all_moved(lex(rest, 0), n);
            lex(seq![c] + rest, 0) == (
                after.0,
                seq![
                    DiagnosticView {
                        severity: Severity::Error,
                        message: "unexpected character `"@ + seq![c] + "`"@,
                        span: Some(Span { start: 0, end: n as u32 }),
                    },
                ] + after.1,
            )
        }),
{
    let first = seq![c];
    let s = first + rest;
    assert(s[0] == c);
    lemma_split_moves(first, rest, 0);
    lemma_moved_offset(first, rest, 0);
    assert(s.subrange(0, 0) =~= Seq::empty());
    assert(rest.subrange(0, 0) =~= Seq::empty());
    assert(lexeme(s, 0) == Lexeme::Bad);
}

/// A name alone is an identifier over the whole text, and the end of the text.
pub proof fn lemma_name_alone(w: Seq<char>)
    requires
        name(w),
        w != "fn"@ && w != "let"@ && w != "return"@ && w != "if"@ && w != "else"@ && w
            != "tensor"@ && w != "f32"@ && w != "f16"@ && w != "i32"@ && w != "q4_0"@ && w
            != "q8_0"@,
        fits(w),
    ensures
        ({
            let n = encode_utf8(w).len() as u32;
            lex(w, 0) == (
                seq![
                    Token { kind: TokenKind::Ident, span: Span { start: 0, end: n } },
                    Token { kind: TokenKind::Eof, span: Span { start: n, end: n } },
                ],
                Seq::<DiagnosticView>::empty(),
            )
        }),
{
    let none = Seq::<char>::empty();
    assert(w + none =~= w);
    lemma_name_then(w, none);
    lemma_empty_text();
    let n = encode_utf8(w).len();
    let after = all_moved(lex(none, 0), n);
    assert(after.0 =~= seq![
        Token { kind: TokenKind::Eof, span: Span { start: n as u32, end: n as u32 } },
    ]);
    assert(after.1 =~= Seq::<DiagnosticView>::empty());
    assert(lex(w, 0).0 =~= seq![
        Token { kind: TokenKind::Ident, span: Span { start: 0, end: n as u32 } },
        Token { kind: TokenKind::Eof, span: Span { start: n as u32, end: n as u32 } },
    ]);
}

/// A comment from `/*` that is not ended takes the rest of the text.
pub proof fn lemma_open_comment(body: Seq<char>)
    requires
        forall|i: int|
            0 <= i < body.len() - 1 ==> !(#[trigger] body[i] == '*' && body[i + 1] == '/'),
        fits(seq!['/', '*'] + body),
    ensures
        ({
            let end = encode_utf8(seq!['/', '*'] + body).len() as u32;
            lex(seq!['/', '*'] + body, 0) == (
                seq![Token { kind: TokenKind::Eof, span: Span { start: end, end } }],
                Seq::<DiagnosticView>::empty(),
            )
        }),
{
    let w = seq!['/', '*'] + body;
    lemma_block_open(w, 2);
    lemma_token_start(w, 0);
    assert(token_start(w, 0) >= w.len()) by {
        assert(w[0] == '/' && w[1] == '*');
        reveal_with_fuel(token_start, 2);
    }
    lemma_utf8_len(w);
    assert(w.subrange(0, w.len() as int) =~= w);
}

proof fn lemma_block_open(s: Seq<char>, i: int)
    requires
        2 <= i <= s.len(),
        forall|j: int| 2 <= j < s.len() - 1 ==> !(#[trigger] s[j] == '*' && s[j + 1] == '/'),
    ensures
        block_end(s, i) == s.len(),
    decreases s.len() - i,
{
    if i < s.len() {
        lemma_block_open(s, i + 1);
    }
}

} // verus!
