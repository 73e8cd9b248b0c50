//! Lexer. Tokens carry [`Span`]s, never owned strings.
//!
//! Identifier policy: ASCII letters / underscore + any non-ASCII alphabetic
//! (so Korean identifiers like `행렬곱` parse). Numerics are limited to ASCII.

use crate::dsl::diagnostic::{diagnostics, error_at, Diagnostic, DiagnosticView};
use crate::dsl::span::Span;
use crate::text::{
    char_width, chars_are, lemma_utf8_len, lemma_utf8_len_prefix, push_text, to_chars, utf8_len,
};
use vstd::prelude::*;
use vstd::string::StringSliceAdditionalSpecFns;

verus! {

/// What a token is.
#[derive(Copy, Clone, Debug, PartialEq, Eq, Structural)]
pub enum TokenKind {
    // Literals
    Ident,
    Int,
    Float,
    // Keywords
    KwFn,
    KwLet,
    KwReturn,
    KwIf,
    KwElse,
    KwTensor,
    // Scalar type keywords
    TyF32,
    TyF16,
    TyI32,
    TyQ4_0,
    TyQ8_0,
    // Punctuation
    LParen,
    RParen,
    LBrace,
    RBrace,
    LBracket,
    RBracket,
    LAngle,
    RAngle,
    Comma,
    Semicolon,
    Colon,
    /// `->`
    Arrow,
    Eq,
    // Operators
    Plus,
    Minus,
    Star,
    Slash,
    /// `@` (matrix product)
    At,
    // End
    Eof,
}

/// The keyword that a word is, or an identifier.
pub open spec fn word_kind(s: Seq<char>) -> TokenKind {
    if s == "fn"@ {
        TokenKind::KwFn
    } else if s == "let"@ {
        TokenKind::KwLet
    } else if s == "return"@ {
        TokenKind::KwReturn
    } else if s == "if"@ {
        TokenKind::KwIf
    } else if s == "else"@ {
        TokenKind::KwElse
    } else if s == "tensor"@ {
        TokenKind::KwTensor
    } else if s == "f32"@ {
        TokenKind::TyF32
    } else if s == "f16"@ {
        TokenKind::TyF16
    } else if s == "i32"@ {
        TokenKind::TyI32
    } else if s == "q4_0"@ {
        TokenKind::TyQ4_0
    } else if s == "q8_0"@ {
        TokenKind::TyQ8_0
    } else {
        TokenKind::Ident
    }
}

fn kind_of_word(v: &Vec<char>, from: usize, to: usize) -> (k: TokenKind)
    requires
        from <= to <= v@.len(),
    ensures
        k == word_kind(v@.subrange(from as int, to as int)),
{
    if chars_are(v, from, to, "fn") {
        TokenKind::KwFn
    } else if chars_are(v, from, to, "let") {
        TokenKind::KwLet
    } else if chars_are(v, from, to, "return") {
        TokenKind::KwReturn
    } else if chars_are(v, from, to, "if") {
        TokenKind::KwIf
    } else if chars_are(v, from, to, "else") {
        TokenKind::KwElse
    } else if chars_are(v, from, to, "tensor") {
        TokenKind::KwTensor
    } else if chars_are(v, from, to, "f32") {
        TokenKind::TyF32
    } else if chars_are(v, from, to, "f16") {
        TokenKind::TyF16
    } else if chars_are(v, from, to, "i32") {
        TokenKind::TyI32
    } else if chars_are(v, from, to, "q4_0") {
        TokenKind::TyQ4_0
    } else if chars_are(v, from, to, "q8_0") {
        TokenKind::TyQ8_0
    } else {
        TokenKind::Ident
    }
}

impl TokenKind {
    /// The keyword that a word is, or an identifier.
    pub fn from_ident(s: &str) -> (k: TokenKind)
        ensures
            k == word_kind(s@),
    {
        let v = to_chars(s);
        let n: usize = v.len();
        assert(v@.subrange(0, n as int) =~= v@);
        kind_of_word(&v, 0, n)
    }
}

/// A token and where it stands.
#[derive(Copy, Clone, Debug, PartialEq, Eq, Structural)]
pub struct Token {
    pub kind: TokenKind,
    pub span: Span,
}

// ---- the grammar of tokens -------------------------------------------------------

/// The Unicode property `Alphabetic`, as std knows it.
pub uninterp spec fn alphabetic(c: char) -> bool;

/// `char::is_alphabetic` of std tells whether a character has the `Alphabetic`
/// property. The contract only names the answer.
pub assume_specification[ char::is_alphabetic ](c: char) -> (b: bool)
    ensures
        b == alphabetic(c),
;

/// An ASCII digit.
pub open spec fn is_digit(c: char) -> bool {
    '0' <= c <= '9'
}

/// What an identifier can start with.
pub open spec fn is_ident_start(c: char) -> bool {
    c == '_' || 'a' <= c <= 'z' || 'A' <= c <= 'Z' || (c as u32 >= 0x80 && alphabetic(c))
}

/// What an identifier can go on with.
pub open spec fn is_ident_continue(c: char) -> bool {
    is_ident_start(c) || is_digit(c)
}

/// White space between tokens.
pub open spec fn is_space(c: char) -> bool {
    c == ' ' || c == '\t' || c == '\r' || c == '\n'
}

/// Whether the character at `i` is `c`.
pub open spec fn char_at(s: Seq<char>, i: int, c: char) -> bool {
    0 <= i < s.len() && s[i] == c
}

/// The end of a line comment: the next newline, or the end of the text.
pub open spec fn line_end(s: Seq<char>, i: int) -> int
    decreases s.len() - i,
{
    if i >= s.len() {
        i
    } else if s[i] == '\n' {
        i
    } else {
        line_end(s, i + 1)
    }
}

/// The end of a block comment: after the next `*/`, or the end of the text.
pub open spec fn block_end(s: Seq<char>, i: int) -> int
    decreases s.len() - i,
{
    if i >= s.len() {
        i
    } else if s[i] == '*' && char_at(s, i + 1, '/') {
        i + 2
    } else {
        block_end(s, i + 1)
    }
}

/// Where the next token starts: white space and comments are skipped.
pub open spec fn token_start(s: Seq<char>, i: int) -> int
    decreases s.len() - i,
    via token_start_decreases
{
    if i >= s.len() {
        i
    } else if is_space(s[i]) {
        token_start(s, i + 1)
    } else if s[i] == '/' && char_at(s, i + 1, '/') {
        token_start(s, line_end(s, i))
    } else if s[i] == '/' && char_at(s, i + 1, '*') {
        token_start(s, block_end(s, i + 2))
    } else {
        i
    }
}

#[via_fn]
proof fn token_start_decreases(s: Seq<char>, i: int) {
    if i < s.len() {
        lemma_line_end(s, i + 1);
        lemma_block_end(s, i + 2);
    }
}

proof fn lemma_line_end(s: Seq<char>, i: int)
    ensures
        i <= line_end(s, i),
        i <= s.len() ==> line_end(s, i) <= s.len(),
    decreases s.len() - i,
{
    if i < s.len() && s[i] != '\n' {
        lemma_line_end(s, i + 1);
    }
}

proof fn lemma_block_end(s: Seq<char>, i: int)
    ensures
        i <= block_end(s, i),
        i <= s.len() ==> block_end(s, i) <= s.len(),
    decreases s.len() - i,
{
    if i < s.len() && !(s[i] == '*' && char_at(s, i + 1, '/')) {
        lemma_block_end(s, i + 1);
    }
}

/// The end of a run of digits.
pub open spec fn digits_end(s: Seq<char>, i: int) -> int
    decreases s.len() - i,
{
    if i < s.len() && 0 <= i && is_digit(s[i]) {
        digits_end(s, i + 1)
    } else {
        i
    }
}

/// The end of an identifier.
pub open spec fn ident_end(s: Seq<char>, i: int) -> int
    decreases s.len() - i,
{
    if i < s.len() && 0 <= i && is_ident_continue(s[i]) {
        ident_end(s, i + 1)
    } else {
        i
    }
}

/// After the integral part of a number that ends at `i`: a dot and digits,
/// where a digit follows the dot.
pub open spec fn fraction_end(s: Seq<char>, i: int) -> int {
    if char_at(s, i, '.') && 0 <= i + 1 < s.len() && is_digit(s[i + 1]) {
        digits_end(s, i + 1)
    } else {
        i
    }
}

/// After the fraction of a number that ends at `i`: an `e`, an optional sign
/// and digits.
pub open spec fn exponent_end(s: Seq<char>, i: int) -> int {
    if char_at(s, i, 'e') || char_at(s, i, 'E') {
        let j = if char_at(s, i + 1, '+') || char_at(s, i + 1, '-') {
            i + 2
        } else {
            i + 1
        };
        digits_end(s, j)
    } else {
        i
    }
}

/// The end of the number that starts at `i`.
pub open spec fn number_end(s: Seq<char>, i: int) -> int {
    exponent_end(s, fraction_end(s, digits_end(s, i)))
}

/// A number with a fraction or an exponent is a float.
pub open spec fn number_kind(s: Seq<char>, i: int) -> TokenKind {
    if number_end(s, i) > digits_end(s, i) {
        TokenKind::Float
    } else {
        TokenKind::Int
    }
}

/// The kind of a token of one character.
pub open spec fn punctuation(c: char) -> Option<TokenKind> {
    if c == '(' {
        Some(TokenKind::LParen)
    } else if c == ')' {
        Some(TokenKind::RParen)
    } else if c == '{' {
        Some(TokenKind::LBrace)
    } else if c == '}' {
        Some(TokenKind::RBrace)
    } else if c == '[' {
        Some(TokenKind::LBracket)
    } else if c == ']' {
        Some(TokenKind::RBracket)
    } else if c == '<' {
        Some(TokenKind::LAngle)
    } else if c == '>' {
        Some(TokenKind::RAngle)
    } else if c == ',' {
        Some(TokenKind::Comma)
    } else if c == ';' {
        Some(TokenKind::Semicolon)
    } else if c == ':' {
        Some(TokenKind::Colon)
    } else if c == '=' {
        Some(TokenKind::Eq)
    } else if c == '+' {
        Some(TokenKind::Plus)
    } else if c == '-' {
        Some(TokenKind::Minus)
    } else if c == '*' {
        Some(TokenKind::Star)
    } else if c == '/' {
        Some(TokenKind::Slash)
    } else if c == '@' {
        Some(TokenKind::At)
    } else {
        None
    }
}

/// What stands at a place where a token starts.
pub enum Lexeme {
    /// A token of the given kind, up to the given position.
    Is(TokenKind, int),
    /// A character that starts no token.
    Bad,
}

/// The token that starts at `i`.
pub open spec fn lexeme(s: Seq<char>, i: int) -> Lexeme {
    let c = s[i];
    if c == '-' && char_at(s, i + 1, '>') {
        Lexeme::Is(TokenKind::Arrow, i + 2)
    } else if punctuation(c) is Some {
        Lexeme::Is(punctuation(c)->0, i + 1)
    } else if is_digit(c) {
        Lexeme::Is(number_kind(s, i), number_end(s, i))
    } else if is_ident_start(c) {
        let end = ident_end(s, i);
        Lexeme::Is(word_kind(s.subrange(i, end)), end)
    } else {
        Lexeme::Bad
    }
}

/// The byte offset of the character at `i`.
pub open spec fn offset(s: Seq<char>, i: int) -> u32 {
    utf8_len(s.subrange(0, i)) as u32
}

/// The span of the characters from `i` up to `j`.
pub open spec fn span_of(s: Seq<char>, i: int, j: int) -> Span {
    Span { start: offset(s, i), end: offset(s, j) }
}

/// The error for a character that starts no token.
pub open spec fn bad_character(s: Seq<char>, i: int) -> DiagnosticView {
    error_at("unexpected character `"@ + seq![s[i]] + "`"@, span_of(s, i, i + 1))
}

/// The tokens and the errors from position `i` on.
pub open spec fn lex(s: Seq<char>, i: int) -> (Seq<Token>, Seq<DiagnosticView>)
    decreases s.len() - i,
    via lex_decreases
{
    let at = token_start(s, i);
    if i < 0 || at >= s.len() {
        (seq![Token { kind: TokenKind::Eof, span: span_of(s, at, at) }], Seq::empty())
    } else {
        match lexeme(s, at) {
            Lexeme::Is(kind, end) => {
                let rest = lex(s, end);
                (seq![Token { kind, span: span_of(s, at, end) }] + rest.0, rest.1)
            },
            Lexeme::Bad => {
                let rest = lex(s, at + 1);
                (rest.0, seq![bad_character(s, at)] + rest.1)
            },
        }
    }
}

#[via_fn]
proof fn lex_decreases(s: Seq<char>, i: int) {
    let at = token_start(s, i);
    lemma_token_start(s, i);
    if 0 <= i && at < s.len() {
        lemma_lexeme_end(s, at);
    }
}

/// The next token starts at or after the current position, within the text.
pub(crate) proof fn lemma_token_start(s: Seq<char>, i: int)
    ensures
        i <= token_start(s, i),
        i <= s.len() ==> token_start(s, i) <= s.len(),
    decreases s.len() - i,
{
    if i < s.len() {
        if is_space(s[i]) {
            lemma_token_start(s, i + 1);
        } else if s[i] == '/' && char_at(s, i + 1, '/') {
            lemma_line_end(s, i + 1);
            lemma_token_start(s, line_end(s, i));
        } else if s[i] == '/' && char_at(s, i + 1, '*') {
            lemma_block_end(s, i + 2);
            lemma_token_start(s, block_end(s, i + 2));
        }
    }
}

proof fn lemma_digits_end(s: Seq<char>, i: int)
    ensures
        i <= digits_end(s, i),
        i <= s.len() ==> digits_end(s, i) <= s.len(),
        0 <= i < s.len() && is_digit(s[i]) ==> i < digits_end(s, i),
    decreases s.len() - i,
{
    if 0 <= i < s.len() && is_digit(s[i]) {
        lemma_digits_end(s, i + 1);
    }
}

proof fn lemma_ident_end(s: Seq<char>, i: int)
    ensures
        i <= ident_end(s, i),
        i <= s.len() ==> ident_end(s, i) <= s.len(),
        0 <= i < s.len() && is_ident_continue(s[i]) ==> i < ident_end(s, i),
    decreases s.len() - i,
{
    if 0 <= i < s.len() && is_ident_continue(s[i]) {
        lemma_ident_end(s, i + 1);
    }
}

/// The parts of a number follow each other within the text.
proof fn lemma_number_end(s: Seq<char>, i: int)
    requires
        0 <= i < s.len(),
        is_digit(s[i]),
    ensures
        i < digits_end(s, i) <= fraction_end(s, digits_end(s, i)) <= number_end(s, i) <= s.len(),
{
    lemma_digits_end(s, i);
    let d = digits_end(s, i);
    lemma_digits_end(s, d + 1);
    let f = fraction_end(s, d);
    lemma_digits_end(s, f + 1);
    lemma_digits_end(s, f + 2);
}

/// A token has at least one character and ends within the text.
pub(crate) proof fn lemma_lexeme_end(s: Seq<char>, i: int)
    requires
        0 <= i < s.len(),
    ensures
        lexeme(s, i) matches Lexeme::Is(_, end) ==> i < end <= s.len(),
{
    if is_digit(s[i]) {
        lemma_number_end(s, i);
    }
    lemma_ident_end(s, i);
}

// ---- the lexer -------------------------------------------------------------------

/// Splits a source text into tokens.
pub struct Lexer<'src> {
    source: &'src str,
    chars: Vec<char>,
    index: usize,
    pos: u32,
}

impl<'src> Lexer<'src> {
    /// The text being split.
    pub closed spec fn text(&self) -> Seq<char> {
        self.chars@
    }

    /// How many characters have been consumed.
    pub closed spec fn at(&self) -> int {
        self.index as int
    }

    /// The byte position belongs to the character position.
    pub closed spec fn wf(&self) -> bool {
        &&& self.chars@ == self.source@
        &&& self.index <= self.chars@.len()
        &&& self.pos as nat == utf8_len(self.chars@.subrange(0, self.index as int))
        &&& utf8_len(self.chars@) <= u32::MAX
    }

    /// A lexer at the start of a text of at most 4 GiB.
    pub fn new(source: &'src str) -> (l: Self)
        requires
            source.spec_bytes().len() <= u32::MAX,
        ensures
            l.wf(),
            l.text() == source@,
            l.at() == 0,
    {
        let chars = to_chars(source);
        proof {
            lemma_utf8_len(source@);
            assert(chars@.subrange(0, 0) =~= Seq::empty());
        }
        Self { source, chars, index: 0, pos: 0 }
    }

    /// The text being split.
    pub fn source(&self) -> (s: &'src str)
        requires
            self.wf(),
        ensures
            s@ == self.text(),
    {
        self.source
    }

    fn advance(&mut self)
        requires
            old(self).wf(),
            old(self).at() < old(self).text().len(),
        ensures
            final(self).wf(),
            final(self).text() == old(self).text(),
            final(self).at() == old(self).at() + 1,
    {
        proof {
            let s = self.chars@;
            let i = self.index as int;
            assert(s.subrange(0, i + 1).drop_last() =~= s.subrange(0, i));
            lemma_utf8_len_prefix(s, i + 1);
        }
        self.pos = self.pos + char_width(self.chars[self.index]);
        self.index = self.index + 1;
    }

    fn peek_is(&self, ahead: usize, c: char) -> (b: bool)
        requires
            self.wf(),
            ahead <= 1,
        ensures
            b == char_at(self.text(), self.at() + ahead, c),
    {
        let n: usize = self.chars.len();
        if n - self.index > ahead {
            self.chars[self.index + ahead] == c
        } else {
            false
        }
    }

    fn skip_trivia(&mut self)
        requires
            old(self).wf(),
        ensures
            final(self).wf(),
            final(self).text() == old(self).text(),
            final(self).at() == token_start(old(self).text(), old(self).at()),
    {
        let ghost s = self.text();
        let ghost i0 = self.at();
        loop
            invariant
                self.wf(),
                self.text() == s,
                token_start(s, self.at()) == token_start(s, i0),
            ensures
                self.wf(),
                self.text() == s,
                self.at() == token_start(s, i0),
            decreases s.len() - self.at(),
        {
            if self.index >= self.chars.len() {
                break;
            }
            let c = self.chars[self.index];
            if c == ' ' || c == '\t' || c == '\r' || c == '\n' {
                self.advance();
            } else if c == '/' && self.peek_is(1, '/') {
                let ghost from = self.at();
                proof {
                    lemma_line_end(s, from + 1);
                }
                while self.index < self.chars.len() && self.chars[self.index] != '\n'
                    invariant
                        self.wf(),
                        self.text() == s,
                        from <= self.at() <= line_end(s, from) <= s.len(),
                        line_end(s, self.at()) == line_end(s, from),
                    decreases s.len() - self.at(),
                {
                    self.advance();
                    proof {
                        lemma_line_end(s, self.at());
                    }
                }
            } else if c == '/' && self.peek_is(1, '*') {
                let ghost from = self.at();
                self.advance();
                self.advance();
                proof {
                    lemma_block_end(s, from + 2);
                }
                let mut open = true;
                while open && self.index < self.chars.len()
                    invariant
                        self.wf(),
                        self.text() == s,
                        from + 2 <= self.at() <= block_end(s, from + 2) <= s.len(),
                        open ==> block_end(s, self.at()) == block_end(s, from + 2),
                        !open ==> self.at() == block_end(s, from + 2),
                    decreases s.len() - self.at() + (if open {
                        1int
                    } else {
                        0int
                    }),
                {
                    if self.chars[self.index] == '*' && self.peek_is(1, '/') {
                        self.advance();
                        self.advance();
                        open = false;
                    } else {
                        self.advance();
                        proof {
                            lemma_block_end(s, self.at());
                        }
                    }
                }
            } else {
                break;
            }
        }
    }

    fn skip_digits(&mut self)
        requires
            old(self).wf(),
        ensures
            final(self).wf(),
            final(self).text() == old(self).text(),
            final(self).at() == digits_end(old(self).text(), old(self).at()),
    {
        let ghost s = self.text();
        let ghost i0 = self.at();
        while self.index < self.chars.len() && is_ascii_digit(self.chars[self.index])
            invariant
                self.wf(),
                self.text() == s,
                digits_end(s, self.at()) == digits_end(s, i0),
            decreases s.len() - self.at(),
        {
            self.advance();
        }
    }

    fn lex_number(&mut self) -> (k: TokenKind)
        requires
            old(self).wf(),
            old(self).at() < old(self).text().len(),
            is_digit(old(self).text()[old(self).at()]),
        ensures
            final(self).wf(),
            final(self).text() == old(self).text(),
            final(self).at() == number_end(old(self).text(), old(self).at()),
            k == number_kind(old(self).text(), old(self).at()),
    {
        let ghost s = self.text();
        let ghost i0 = self.at();
        proof {
            lemma_number_end(s, i0);
        }
        self.skip_digits();
        let mut is_float = false;
        if self.peek_is(0, '.') && self.chars.len() - self.index > 1 && is_ascii_digit(
            self.chars[self.index + 1],
        ) {
            is_float = true;
            let ghost d = self.at();
            proof {
                lemma_digits_end(s, d + 1);
            }
            self.advance();
            self.skip_digits();
        }
        if self.peek_is(0, 'e') || self.peek_is(0, 'E') {
            is_float = true;
            let ghost f = self.at();
            proof {
                lemma_digits_end(s, f + 1);
                lemma_digits_end(s, f + 2);
            }
            self.advance();
            if self.peek_is(0, '+') || self.peek_is(0, '-') {
                self.advance();
            }
            self.skip_digits();
        }
        if is_float {
            TokenKind::Float
        } else {
            TokenKind::Int
        }
    }

    fn lex_ident(&mut self) -> (k: TokenKind)
        requires
            old(self).wf(),
            old(self).at() < old(self).text().len(),
        ensures
            final(self).wf(),
            final(self).text() == old(self).text(),
            final(self).at() == ident_end(old(self).text(), old(self).at()),
            k == word_kind(old(self).text().subrange(old(self).at(), final(self).at())),
    {
        let ghost s = self.text();
        let start: usize = self.index;
        while self.index < self.chars.len() && ident_continue(self.chars[self.index])
            invariant
                self.wf(),
                self.text() == s,
                start <= self.at(),
                ident_end(s, self.at()) == ident_end(s, start as int),
            decreases s.len() - self.at(),
        {
            self.advance();
        }
        kind_of_word(&self.chars, start, self.index)
    }

    fn next_token(&mut self) -> (r: Result<Token, Diagnostic>)
        requires
            old(self).wf(),
        ensures
            final(self).wf(),
            final(self).text() == old(self).text(),
            ({
                let s = old(self).text();
                let at = token_start(s, old(self).at());
                if at >= s.len() {
                    &&& final(self).at() == at
                    &&& r == Ok::<Token, Diagnostic>(
                        Token { kind: TokenKind::Eof, span: span_of(s, at, at) },
                    )
                } else {
                    match lexeme(s, at) {
                        Lexeme::Is(kind, end) => {
                            &&& final(self).at() == end
                            &&& kind != TokenKind::Eof
                            &&& r == Ok::<Token, Diagnostic>(
                                Token { kind, span: span_of(s, at, end) },
                            )
                        },
                        Lexeme::Bad => {
                            &&& final(self).at() == at + 1
                            &&& r matches Err(d) && d@ == bad_character(s, at)
                        },
                    }
                }
            }),
    {
        let ghost s = self.text();
        proof {
            lemma_token_start(s, self.at());
        }
        self.skip_trivia();
        let start: u32 = self.pos;
        let ghost at = self.at();
        if self.index >= self.chars.len() {
            return Ok(Token { kind: TokenKind::Eof, span: Span::new(start, start) });
        }
        proof {
            lemma_lexeme_end(s, at);
        }
        let c = self.chars[self.index];
        let kind: TokenKind;
        if c == '-' && self.peek_is(1, '>') {
            self.advance();
            self.advance();
            kind = TokenKind::Arrow;
        } else if let Some(k) = punctuation_kind(c) {
            self.advance();
            kind = k;
        } else if is_ascii_digit(c) {
            kind = self.lex_number();
        } else if ident_start(c) {
            kind = self.lex_ident();
        } else {
            self.advance();
            let mut m: String = "unexpected character `".to_string();
            m.push(c);
            push_text(&mut m, "`");
            assert(m@ =~= "unexpected character `"@ + seq![c] + "`"@);
            return Err(Diagnostic::error(m.as_str(), Span::new(start, self.pos)));
        }
        Ok(Token { kind, span: Span::new(start, self.pos) })
    }

    /// Tokenize the entire source. Returns either the token stream (with a
    /// trailing `Eof`) or accumulated diagnostics.
    pub fn tokenize(self) -> (r: Result<Vec<Token>, Vec<Diagnostic>>)
        requires
            self.wf(),
        ensures
            r is Ok <==> lex(self.text(), self.at()).1.len() == 0,
            r matches Ok(tokens) ==> tokens@ == lex(self.text(), self.at()).0,
            r matches Err(errors) ==> diagnostics(errors@) == lex(self.text(), self.at()).1,
    {
        let mut this = self;
        let ghost s = this.text();
        let ghost whole = lex(s, this.at());
        let mut tokens: Vec<Token> = Vec::new();
        let mut errors: Vec<Diagnostic> = Vec::new();
        proof {
            assert(tokens@ + whole.0 =~= whole.0);
            assert(diagnostics(errors@) + whole.1 =~= whole.1);
        }
        loop
            invariant_except_break
                this.wf(),
                this.text() == s,
                0 <= this.at() <= s.len(),
                tokens@ + lex(s, this.at()).0 == whole.0,
                diagnostics(errors@) + lex(s, this.at()).1 == whole.1,
            ensures
                tokens@ == whole.0,
                diagnostics(errors@) == whole.1,
            decreases s.len() - this.at(),
        {
            let ghost i = this.at();
            let ghost at = token_start(s, i);
            let ghost old_tokens = tokens@;
            let ghost old_errors = diagnostics(errors@);
            proof {
                lemma_token_start(s, i);
                if at < s.len() {
                    lemma_lexeme_end(s, at);
                }
            }
            match this.next_token() {
                Ok(tok) => {
                    tokens.push(tok);
                    if tok.kind == TokenKind::Eof {
                        proof {
                            assert(tokens@ =~= old_tokens + lex(s, i).0);
                            assert(diagnostics(errors@) =~= old_errors + lex(s, i).1);
                        }
                        break;
                    }
                    proof {
                        assert(tokens@ + lex(s, this.at()).0 =~= old_tokens + lex(s, i).0);
                    }
                },
                Err(d) => {
                    errors.push(d);
                    proof {
                        assert(diagnostics(errors@) + lex(s, this.at()).1 =~= old_errors + lex(
                            s,
                            i,
                        ).1);
                    }
                },
            }
        }
        if errors.len() == 0 {
            assert(whole.1.len() == 0);
            Ok(tokens)
        } else {
            assert(diagnostics(errors@).len() == errors@.len());
            Err(errors)
        }
    }
}

fn punctuation_kind(c: char) -> (k: Option<TokenKind>)
    ensures
        k == punctuation(c),
{
    match c {
        '(' => Some(TokenKind::LParen),
        ')' => Some(TokenKind::RParen),
        '{' => Some(TokenKind::LBrace),
        '}' => Some(TokenKind::RBrace),
        '[' => Some(TokenKind::LBracket),
        ']' => Some(TokenKind::RBracket),
        '<' => Some(TokenKind::LAngle),
        '>' => Some(TokenKind::RAngle),
        ',' => Some(TokenKind::Comma),
        ';' => Some(TokenKind::Semicolon),
        ':' => Some(TokenKind::Colon),
        '=' => Some(TokenKind::Eq),
        '+' => Some(TokenKind::Plus),
        '-' => Some(TokenKind::Minus),
        '*' => Some(TokenKind::Star),
        '/' => Some(TokenKind::Slash),
        '@' => Some(TokenKind::At),
        _ => None,
    }
}

fn is_ascii_digit(c: char) -> (b: bool)
    ensures
        b == is_digit(c),
{
    '0' <= c && c <= '9'
}

fn ident_start(c: char) -> (b: bool)
    ensures
        b == is_ident_start(c),
{
    c == '_' || ('a' <= c && c <= 'z') || ('A' <= c && c <= 'Z') || (c as u32 >= 0x80
        && c.is_alphabetic())
}

fn ident_continue(c: char) -> (b: bool)
    ensures
        b == is_ident_continue(c),
{
    ident_start(c) || is_ascii_digit(c)
}

// ---- laws ------------------------------------------------------------------------

/// The tokens of a text stand one after the other: each span ends where or
/// before the next one starts, all of them within the text, and the last token
/// is the only `Eof`.
pub proof fn lemma_tokens_ordered(s: Seq<char>, i: int)
    requires
        0 <= i <= s.len(),
        utf8_len(s) <= u32::MAX,
    ensures
        ({
            let t = lex(s, i).0;
            &&& t.len() > 0
            &&& t.last().kind == TokenKind::Eof
            &&& forall|j: int| 0 <= j < t.len() - 1 ==> (#[trigger] t[j]).kind != TokenKind::Eof
            &&& forall|j: int|
                0 <= j < t.len() ==> offset(s, i) <= (#[trigger] t[j]).span.start <= t[j].span.end
                    <= utf8_len(s)
            &&& forall|j: int, k: int|
                0 <= j < k < t.len() ==> (#[trigger] t[j]).span.end <= (#[trigger] t[k]).span.start
        }),
    decreases s.len() - i,
{
    lemma_token_start(s, i);
    let at = token_start(s, i);
    lemma_offset_mono(s, i, at);
    let t = lex(s, i).0;
    if at < s.len() {
        lemma_lexeme_end(s, at);
        match lexeme(s, at) {
            Lexeme::Is(kind, end) => {
                lemma_tokens_ordered(s, end);
                lemma_offset_mono(s, at, end);
                let rest = lex(s, end).0;
                let first = Token { kind, span: span_of(s, at, end) };
                assert(t =~= seq![first] + rest);
                assert forall|j: int| 0 <= j < t.len() - 1 implies (#[trigger] t[j]).kind
                    != TokenKind::Eof by {
                    if j > 0 {
                        assert(t[j] == rest[j - 1]);
                    }
                }
                assert forall|j: int| 0 <= j < t.len() implies offset(s, i) <= (
                #[trigger] t[j]).span.start <= t[j].span.end <= utf8_len(s) by {
                    if j > 0 {
                        assert(t[j] == rest[j - 1]);
                    }
                }
                assert forall|j: int, k: int| 0 <= j < k < t.len() implies (
                #[trigger] t[j]).span.end <= (#[trigger] t[k]).span.start by {
                    assert(t[k] == rest[k - 1]);
                    if j > 0 {
                        assert(t[j] == rest[j - 1]);
                    }
                }
            },
            Lexeme::Bad => {
                lemma_tokens_ordered(s, at + 1);
                lemma_offset_mono(s, at, at + 1);
            },
        }
    }
}

/// Byte offsets grow with the position and stay within the text.
pub(crate) proof fn lemma_offset_mono(s: Seq<char>, i: int, j: int)
    requires
        0 <= i <= j <= s.len(),
        utf8_len(s) <= u32::MAX,
    ensures
        offset(s, i) <= offset(s, j) <= utf8_len(s),
        offset(s, j) as nat == utf8_len(s.subrange(0, j)),
        offset(s, i) as nat == utf8_len(s.subrange(0, i)),
{
    lemma_utf8_len_prefix(s, j);
    lemma_utf8_len_prefix(s, i);
    lemma_utf8_len_prefix(s.subrange(0, j), i);
    assert(s.subrange(0, j).subrange(0, i) =~= s.subrange(0, i));
}

} // verus!
