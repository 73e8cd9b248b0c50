//! Byte-level BPE tokenizer compatible with Qwen2 / Llama-family vocabs.
//!
//! ## Algorithm (encode)
//!
//! 1. Treat the input string as a sequence of single-byte tokens (UTF-8).
//! 2. Repeatedly look at every adjacent pair `(left, right)` in the current
//!    token sequence. Of the pairs that have a merge rank in the table, replace
//!    the one with the **lowest** rank (earliest learned) by the merged token.
//!    Repeat until no mergeable pair exists.
//! 3. Map the final tokens to their vocab IDs.
//!
//! ## Decode
//!
//! Each token id maps back to its byte sequence. The bytes are concatenated and
//! decoded as UTF-8. Bytes that are not UTF-8 are an error, which leaves it to
//! the caller how to show them: the raw bytes are those of
//! [`Tokenizer::decode_bytes`].

use crate::bytes::{le_bytes, lemma_le_bytes_len, lemma_le_value_of_le_bytes, lemma_pow256_values, push_le};
use crate::model::byte_map::ByteMap;
use crate::model::gguf::{
    last_value, string_array, texts, Content, GgufError, GgufFault, GgufFile, KvValue, KvView,
};
use crate::text::{
    chars_are, decimal, push_decimal, push_text, string_from_utf8, to_chars, utf8_error_text,
};
use vstd::prelude::*;
use vstd::slice::{slice_subrange, slice_to_vec};
use vstd::string::StringSliceAdditionalSpecFns;
use vstd::utf8::{char_u32_cast, decode_utf8, encode_utf8, is_scalar, valid_utf8};

verus! {

/// Why token ids could not be decoded.
#[derive(Debug)]
pub enum TokError {
    /// The id, and the size of the vocabulary.
    InvalidTokenId(u32, usize),
    BadUtf8(String),
}

/// What a [`TokError`] says.
pub enum TokFault {
    InvalidTokenId(u32, int),
    BadUtf8(Seq<char>),
}

impl View for TokError {
    type V = TokFault;

    open spec fn view(&self) -> TokFault {
        match self {
            TokError::InvalidTokenId(id, n) => TokFault::InvalidTokenId(*id, *n as int),
            TokError::BadUtf8(s) => TokFault::BadUtf8(s@),
        }
    }
}

impl TokFault {
    /// The message shown to the user.
    pub open spec fn text(self) -> Seq<char> {
        match self {
            TokFault::InvalidTokenId(id, n) => "token id "@ + decimal(id as nat)
                + " is out of range (vocab size "@ + decimal(n as nat) + ")"@,
            TokFault::BadUtf8(s) => "decoded bytes are not valid UTF-8: "@ + s,
        }
    }
}

impl TokError {
    /// The message shown to the user.
    pub fn message(&self) -> (m: String)
        ensures
            m@ == self@.text(),
    {
        let mut m: String;
        match self {
            TokError::InvalidTokenId(id, n) => {
                m = "token id ".to_string();
                push_decimal(&mut m, *id as u64);
                push_text(&mut m, " is out of range (vocab size ");
                push_decimal(&mut m, *n as u64);
                push_text(&mut m, ")");
            },
            TokError::BadUtf8(s) => {
                m = "decoded bytes are not valid UTF-8: ".to_string();
                push_text(&mut m, s.as_str());
            },
        }
        m
    }
}

/// One token in the vocabulary, represented by its raw bytes.
#[derive(Debug, PartialEq, Eq, Hash)]
pub struct TokenBytes(pub Vec<u8>);

impl View for TokenBytes {
    type V = Seq<u8>;

    open spec fn view(&self) -> Seq<u8> {
        self.0@
    }
}

impl Clone for TokenBytes {
    fn clone(&self) -> (t: Self)
        ensures
            t@ == self@,
    {
        TokenBytes(slice_to_vec(self.0.as_slice()))
    }
}

impl TokenBytes {
    /// The UTF-8 bytes of a text.
    pub fn from_text(s: &str) -> (t: Self)
        ensures
            t@ == s.spec_bytes(),
    {
        Self(slice_to_vec(s.as_bytes()))
    }
}

// ---- the byte-to-character table ---------------------------------------------------

/// Whether a byte stands for itself: the printable ASCII characters and the
/// printable ones of the Latin-1 supplement.
pub open spec fn is_direct(b: int) -> bool {
    33 <= b <= 126 || 161 <= b <= 172 || 174 <= b <= 255
}

/// The code point that a byte is mapped to: itself, or the next one from
/// U+0100 on.
pub open spec fn mapped_code(b: int) -> int {
    if is_direct(b) {
        b
    } else if b <= 32 {
        0x100 + b
    } else if b <= 160 {
        0x100 + 33 + (b - 127)
    } else {
        0x143
    }
}

/// The character that a byte is mapped to.
pub open spec fn mapped_char(b: u8) -> char {
    mapped_code(b as int) as char
}

/// The byte that is mapped to a character.
pub open spec fn unmapped(c: char) -> Option<u8> {
    let v = c as u32 as int;
    if is_direct(v) {
        Some(v as u8)
    } else if 0x100 <= v <= 0x120 {
        Some((v - 0x100) as u8)
    } else if 0x121 <= v <= 0x142 {
        Some((v - 0x121 + 127) as u8)
    } else if v == 0x143 {
        Some(173)
    } else {
        None
    }
}

/// The mapping loses nothing: every byte has a character of its own, and every
/// character that has a byte is the one that this byte is mapped to.
pub proof fn lemma_mapping_bijective(b: u8, c: char)
    ensures
        unmapped(mapped_char(b)) == Some(b),
        unmapped(c) matches Some(x) ==> mapped_char(x) == c,
{
}

/// The visible characters of ASCII and of the Latin-1 supplement stand for
/// themselves. The other 68 bytes are mapped, in increasing order, to the code
/// points from U+0100 to U+0143.
pub proof fn lemma_mapping_in_order(a: u8, b: u8)
    ensures
        0x21 <= b <= 0x7E || 0xA1 <= b <= 0xAC || 0xAE <= b ==> mapped_char(b) as u32 == b,
        b <= 0x20 || 0x7F <= b <= 0xA0 || b == 0xAD ==> 0x100 <= mapped_char(b) as u32 <= 0x143,
        a < b && mapped_char(a) as u32 >= 0x100 && mapped_char(b) as u32 >= 0x100 ==> (mapped_char(
            a,
        ) as u32) < mapped_char(b) as u32,
{
}

/// Every code point from U+0100 to U+0143 is that of a byte.
pub proof fn lemma_mapping_without_gap(v: u32) -> (b: u8)
    requires
        0x100 <= v <= 0x143,
    ensures
        mapped_char(b) as u32 == v,
{
    if v <= 0x120 {
        (v - 0x100) as u8
    } else if v <= 0x142 {
        (v - 0x121 + 0x7F) as u8
    } else {
        0xAD
    }
}

/// How many of the bytes below `b` do not stand for themselves.
pub open spec fn hidden_below(b: nat) -> nat
    decreases b,
{
    if b == 0 {
        0
    } else if 0x21 <= b - 1 <= 0x7E || 0xA1 <= b - 1 <= 0xAC || 0xAE <= b - 1 {
        hidden_below((b - 1) as nat)
    } else {
        hidden_below((b - 1) as nat) + 1
    }
}

/// A byte that does not stand for itself is mapped to U+0100, plus as many as
/// there are smaller bytes that do not.
pub proof fn lemma_mapping_counts(b: u8)
    ensures
        b <= 0x20 || 0x7F <= b <= 0xA0 || b == 0xAD ==> mapped_char(b) as u32 == 0x100
            + hidden_below(b as nat),
{
    lemma_hidden_below(b as nat);
}

proof fn lemma_hidden_below(b: nat)
    ensures
        b <= 0x21 ==> hidden_below(b) == b,
        0x21 <= b <= 0x7F ==> hidden_below(b) == 0x21,
        0x7F <= b <= 0xA1 ==> hidden_below(b) == 0x21 + (b - 0x7F),
        0xA1 <= b <= 0xAD ==> hidden_below(b) == 0x43,
        0xAE <= b <= 0x100 ==> hidden_below(b) == 0x44,
    decreases b,
{
    if b > 0 {
        lemma_hidden_below((b - 1) as nat);
    }
}

/// `char::from_u32` of std gives the character with a code point, where there
/// is one.
pub assume_specification[ char::from_u32 ](i: u32) -> (r: Option<char>)
    ensures
        match r {
            Some(c) => c as u32 == i,
            None => !is_scalar(i),
        },
;

fn map_byte(b: u8) -> (c: char)
    ensures
        c == mapped_char(b),
{
    let v: u32 = b as u32;
    let code: u32 = if (33 <= v && v <= 126) || (161 <= v && v <= 172) || 174 <= v {
        v
    } else if v <= 32 {
        0x100 + v
    } else if v <= 160 {
        0x100 + 33 + (v - 127)
    } else {
        0x143
    };
    match char::from_u32(code) {
        Some(c) => {
            proof {
                char_u32_cast(c, code);
            }
            c
        },
        None => '\0',
    }
}

/// The 256-element table mapping each raw byte to the Unicode character
/// GPT-2 / Qwen2 / many other byte-level BPE tokenizers use in their vocab.
pub fn gpt2_byte_to_unicode() -> (t: [char; 256])
    ensures
        forall|b: int| 0 <= b < 256 ==> #[trigger] t@[b] == mapped_char(b as u8),
        forall|b: int|
            0 <= b < 256 ==> #[trigger] t@[b] as u32 == if 0x21 <= b <= 0x7E || 0xA1 <= b <= 0xAC
                || 0xAE <= b {
                b
            } else {
                0x100 + hidden_below(b as nat) as int
            },
{
    let mut out: [char; 256] = ['\0';256];
    let mut i: usize = 0;
    while i < 256
        invariant
            i <= 256,
            forall|b: int| 0 <= b < i ==> #[trigger] out@[b] == mapped_char(b as u8),
        decreases 256 - i,
    {
        out[i] = map_byte(i as u8);
        i = i + 1;
    }
    proof {
        assert forall|b: int| 0 <= b < 256 implies #[trigger] out@[b] as u32 == if 0x21 <= b <= 0x7E
            || 0xA1 <= b <= 0xAC || 0xAE <= b {
            b
        } else {
            0x100 + hidden_below(b as nat) as int
        } by {
            lemma_mapping_in_order(b as u8, b as u8);
            lemma_mapping_counts(b as u8);
        }
    }
    out
}

/// Inverse of [`gpt2_byte_to_unicode`]: a table of the code points up to
/// U+0143.
#[derive(Debug)]
pub struct UnicodeToByte {
    table: Vec<Option<u8>>,
}

impl UnicodeToByte {
    /// The table holds the byte of each code point in it, and all code points
    /// that have one are in it.
    pub closed spec fn wf(&self) -> bool {
        &&& self.table@.len() == 0x144
        &&& forall|v: int|
            0 <= v < 0x144 ==> #[trigger] self.table@[v] == unmapped(v as char)
    }

    /// The byte that is mapped to a character.
    pub fn get(&self, c: char) -> (b: Option<u8>)
        requires
            self.wf(),
        ensures
            b == unmapped(c),
    {
        let v: usize = c as u32 as usize;
        if v < self.table.len() {
            assert(self.table@[v as int] == unmapped(v as char));
            self.table[v]
        } else {
            None
        }
    }
}

/// Inverse of [`gpt2_byte_to_unicode`].
pub fn gpt2_unicode_to_byte() -> (t: UnicodeToByte)
    ensures
        t.wf(),
{
    let mut table: Vec<Option<u8>> = Vec::new();
    while table.len() < 0x144
        invariant
            table@.len() <= 0x144,
            forall|v: int| 0 <= v < table@.len() ==> #[trigger] table@[v] == unmapped(v as char),
        decreases 0x144 - table@.len(),
    {
        let v: usize = table.len();
        let b: Option<u8> = if (33 <= v && v <= 126) || (161 <= v && v <= 172) || (174 <= v && v
            <= 255) {
            Some(v as u8)
        } else if v < 0x100 {
            None
        } else if v <= 0x120 {
            Some((v - 0x100) as u8)
        } else if v <= 0x142 {
            Some((v - 0x121 + 127) as u8)
        } else {
            Some(173)
        };
        table.push(b);
    }
    UnicodeToByte { table }
}

/// Pre-tokenization / decoding mode applied around the BPE algorithm.
#[derive(Clone, Copy, Debug, PartialEq, Eq, Structural)]
pub enum BpeMode {
    /// Raw bytes: input UTF-8 bytes are matched against vocab bytes directly.
    Raw,
    /// GPT-2 byte-level: each raw byte is mapped to a printable Unicode char
    /// via [`gpt2_byte_to_unicode`], the resulting string's UTF-8 bytes are
    /// fed to BPE, and decoding inverts the mapping back to raw bytes.
    Gpt2,
}

// ---- the algorithm ----------------------------------------------------------------

/// Token byte strings.
pub open spec fn token_views(list: Seq<TokenBytes>) -> Seq<Seq<u8>> {
    list.map_values(|t: TokenBytes| t@)
}

/// Merge pairs.
pub open spec fn merge_views(list: Seq<(TokenBytes, TokenBytes)>) -> Seq<(Seq<u8>, Seq<u8>)> {
    list.map_values(|p: (TokenBytes, TokenBytes)| (p.0@, p.1@))
}

/// The last position of an item.
pub open spec fn last_position<T>(list: Seq<T>, x: T) -> Option<int>
    decreases list.len(),
{
    if list.len() == 0 {
        None
    } else if list.last() == x {
        Some(list.len() - 1)
    } else {
        last_position(list.drop_last(), x)
    }
}

/// A position as a 32-bit number.
pub open spec fn low32(i: int) -> u32 {
    (i % 0x1_0000_0000) as u32
}

/// The id of a token.
pub open spec fn token_id(vocab: Seq<Seq<u8>>, t: Seq<u8>) -> Option<u32> {
    match last_position(vocab, t) {
        Some(i) => Some(low32(i)),
        None => None,
    }
}

/// The rank of a pair; lower ranks merge first.
pub open spec fn rank_of(merges: Seq<(Seq<u8>, Seq<u8>)>, l: Seq<u8>, r: Seq<u8>) -> Option<u32> {
    match last_position(merges, (l, r)) {
        Some(i) => Some(low32(i)),
        None => None,
    }
}

/// The first of the pairs `(i, i + 1)`, `i < n`, with the lowest rank, and that
/// rank.
pub open spec fn best_pair(
    tokens: Seq<Seq<u8>>,
    merges: Seq<(Seq<u8>, Seq<u8>)>,
    n: nat,
) -> Option<(int, u32)>
    decreases n,
{
    if n == 0 {
        None
    } else {
        let before = best_pair(tokens, merges, (n - 1) as nat);
        match rank_of(merges, tokens[n - 1], tokens[n as int]) {
            None => before,
            Some(r) => match before {
                Some((i, b)) => if r < b {
                    Some((n - 1, r))
                } else {
                    Some((i, b))
                },
                None => Some((n - 1, r)),
            },
        }
    }
}

/// How many pairs of neighbours there are.
pub open spec fn pair_count(tokens: Seq<Seq<u8>>) -> nat {
    if tokens.len() == 0 {
        0
    } else {
        (tokens.len() - 1) as nat
    }
}

/// The tokens with those at `i` and `i + 1` made one.
pub open spec fn merged_at(tokens: Seq<Seq<u8>>, i: int) -> Seq<Seq<u8>> {
    tokens.update(i, tokens[i] + tokens[i + 1]).remove(i + 1)
}

/// The best pair is a pair.
pub proof fn lemma_best_pair(tokens: Seq<Seq<u8>>, merges: Seq<(Seq<u8>, Seq<u8>)>, n: nat)
    ensures
        best_pair(tokens, merges, n) matches Some((i, r)) ==> 0 <= i < n && rank_of(
            merges,
            tokens[i],
            tokens[i + 1],
        ) == Some(r),
        forall|j: int|
            0 <= j < n ==> match #[trigger] rank_of(merges, tokens[j], tokens[j + 1]) {
                Some(r) => best_pair(tokens, merges, n) matches Some((i, b)) && b <= r,
                None => true,
            },
    decreases n,
{
    if n > 0 {
        lemma_best_pair(tokens, merges, (n - 1) as nat);
    }
}

/// The tokens after all merges.
pub open spec fn bpe(tokens: Seq<Seq<u8>>, merges: Seq<(Seq<u8>, Seq<u8>)>) -> Seq<Seq<u8>>
    decreases tokens.len(),
    via bpe_decreases
{
    match best_pair(tokens, merges, pair_count(tokens)) {
        None => tokens,
        Some((i, _)) => bpe(merged_at(tokens, i), merges),
    }
}

#[via_fn]
proof fn bpe_decreases(tokens: Seq<Seq<u8>>, merges: Seq<(Seq<u8>, Seq<u8>)>) {
    lemma_best_pair(tokens, merges, pair_count(tokens));
}

/// The token of one input byte.
pub open spec fn byte_token(mode: BpeMode, b: u8) -> Seq<u8> {
    match mode {
        BpeMode::Raw => seq![b],
        BpeMode::Gpt2 => encode_utf8(seq![mapped_char(b)]),
    }
}

/// The tokens of the input bytes, before any merge.
pub open spec fn byte_tokens(mode: BpeMode, bytes: Seq<u8>) -> Seq<Seq<u8>> {
    Seq::new(bytes.len(), |i: int| byte_token(mode, bytes[i]))
}

/// The tokens of a text.
pub open spec fn text_tokens(
    mode: BpeMode,
    merges: Seq<(Seq<u8>, Seq<u8>)>,
    text: Seq<char>,
) -> Seq<Seq<u8>> {
    bpe(byte_tokens(mode, encode_utf8(text)), merges)
}

/// Every token is in the vocabulary.
pub open spec fn all_known(vocab: Seq<Seq<u8>>, tokens: Seq<Seq<u8>>) -> bool {
    forall|i: int| 0 <= i < tokens.len() ==> token_id(vocab, #[trigger] tokens[i]) is Some
}

/// The ids of tokens.
pub open spec fn ids_of(vocab: Seq<Seq<u8>>, tokens: Seq<Seq<u8>>) -> Seq<u32> {
    tokens.map_values(|t: Seq<u8>| token_id(vocab, t)->0)
}

/// The bytes of tokens, one after the other.
pub open spec fn concat(tokens: Seq<Seq<u8>>) -> Seq<u8>
    decreases tokens.len(),
{
    if tokens.len() == 0 {
        Seq::empty()
    } else {
        concat(tokens.drop_last()) + tokens.last()
    }
}

/// The bytes of the tokens with the given ids; the first id that is not in the
/// vocabulary is an error.
pub open spec fn bytes_of_ids(vocab: Seq<Seq<u8>>, ids: Seq<u32>) -> Result<Seq<u8>, TokFault>
    decreases ids.len(),
{
    if ids.len() == 0 {
        Ok(Seq::empty())
    } else {
        match bytes_of_ids(vocab, ids.drop_last()) {
            Err(e) => Err(e),
            Ok(b) => if ids.last() < vocab.len() {
                Ok(b + vocab[ids.last() as int])
            } else {
                Err(TokFault::InvalidTokenId(ids.last(), vocab.len() as int))
            },
        }
    }
}

/// How std's `Debug` shows a character.
pub uninterp spec fn char_debug_text(c: char) -> Seq<char>;

/// std's `Debug` for `char`: the character in single quotes, escaped where it is
/// special. The contract only names the result.
#[verifier::external_body]
fn char_debug(c: char) -> (s: String)
    ensures
        s@ == char_debug_text(c),
{
    format!("{:?}", c)
}

/// The error for a character that no byte is mapped to.
pub open spec fn unmapped_error(c: char) -> TokFault {
    TokFault::BadUtf8("unmapped char "@ + char_debug_text(c) + " in decode"@)
}

/// The bytes that are mapped to the characters.
pub open spec fn unmap_all(chars: Seq<char>) -> Result<Seq<u8>, TokFault>
    decreases chars.len(),
{
    if chars.len() == 0 {
        Ok(Seq::empty())
    } else {
        match unmap_all(chars.drop_last()) {
            Err(e) => Err(e),
            Ok(b) => match unmapped(chars.last()) {
                Some(x) => Ok(b.push(x)),
                None => Err(unmapped_error(chars.last())),
            },
        }
    }
}

/// The text with the given UTF-8 bytes.
pub open spec fn text_of_bytes(bytes: Seq<u8>) -> Result<Seq<char>, TokFault> {
    if valid_utf8(bytes) {
        Ok(decode_utf8(bytes))
    } else {
        Err(TokFault::BadUtf8(utf8_error_text(bytes)))
    }
}

/// The text that token ids stand for.
pub open spec fn text_of_ids(mode: BpeMode, vocab: Seq<Seq<u8>>, ids: Seq<u32>) -> Result<
    Seq<char>,
    TokFault,
> {
    match bytes_of_ids(vocab, ids) {
        Err(e) => Err(e),
        Ok(bytes) => match mode {
            BpeMode::Raw => text_of_bytes(bytes),
            BpeMode::Gpt2 => match text_of_bytes(bytes) {
                Err(e) => Err(e),
                Ok(chars) => match unmap_all(chars) {
                    Err(e) => Err(e),
                    Ok(raw) => text_of_bytes(raw),
                },
            },
        },
    }
}

/// A pair of byte strings as one.
pub open spec fn pair_key(l: Seq<u8>, r: Seq<u8>) -> Seq<u8> {
    le_bytes(l.len(), 8) + l + r
}

/// Different pairs have different keys.
proof fn lemma_pair_key_injective(l1: Seq<u8>, r1: Seq<u8>, l2: Seq<u8>, r2: Seq<u8>)
    requires
        pair_key(l1, r1) == pair_key(l2, r2),
        l1.len() < 0x1_0000_0000_0000_0000,
        l2.len() < 0x1_0000_0000_0000_0000,
    ensures
        l1 == l2,
        r1 == r2,
{
    let k1 = pair_key(l1, r1);
    let k2 = pair_key(l2, r2);
    let n1 = le_bytes(l1.len(), 8);
    let n2 = le_bytes(l2.len(), 8);
    lemma_le_bytes_len(l1.len(), 8);
    lemma_le_bytes_len(l2.len(), 8);
    lemma_pow256_values();
    assert(k1.subrange(0, 8) =~= n1);
    assert(k2.subrange(0, 8) =~= n2);
    lemma_le_value_of_le_bytes(l1.len(), 8);
    lemma_le_value_of_le_bytes(l2.len(), 8);
    assert(l1.len() == l2.len());
    assert(k1.subrange(8, 8 + l1.len() as int) =~= l1);
    assert(k2.subrange(8, 8 + l2.len() as int) =~= l2);
    assert(k1.subrange(8 + l1.len() as int, k1.len() as int) =~= r1);
    assert(k2.subrange(8 + l2.len() as int, k2.len() as int) =~= r2);
}

fn make_pair_key(l: &Vec<u8>, r: &Vec<u8>) -> (k: Vec<u8>)
    ensures
        k@ == pair_key(l@, r@),
{
    let mut k: Vec<u8> = Vec::new();
    push_le(&mut k, l.len() as u64, 8);
    push_bytes(&mut k, l);
    push_bytes(&mut k, r);
    k
}

fn push_bytes(out: &mut Vec<u8>, b: &Vec<u8>)
    ensures
        final(out)@ == old(out)@ + b@,
{
    let mut i: usize = 0;
    while i < b.len()
        invariant
            i <= b@.len(),
            out@ == old(out)@ + b@.subrange(0, i as int),
        decreases b@.len() - i,
    {
        out.push(b[i]);
        i = i + 1;
        assert(b@.subrange(0, i as int) =~= b@.subrange(0, i - 1).push(b@[i - 1]));
    }
    assert(b@.subrange(0, i as int) =~= b@);
}

fn low_bits(i: usize) -> (v: u32)
    ensures
        v == low32(i as int),
{
    (i as u64 % 0x1_0000_0000) as u32
}

// ---- the tokenizer ----------------------------------------------------------------

/// A byte-pair tokenizer.
#[derive(Debug)]
pub struct Tokenizer {
    /// Token id to bytes.
    id_to_bytes: Vec<TokenBytes>,
    /// The merges, in the order in which they were learned.
    merges: Vec<(TokenBytes, TokenBytes)>,
    /// Bytes to token id.
    bytes_to_id: ByteMap<u32>,
    /// Key of `(left_bytes, right_bytes)` to rank.
    merge_rank: ByteMap<u32>,
    mode: BpeMode,
    unicode_to_byte: UnicodeToByte,
}

impl Tokenizer {
    /// The vocabulary.
    pub closed spec fn vocab(&self) -> Seq<Seq<u8>> {
        token_views(self.id_to_bytes@)
    }

    /// The merges, in the order in which they were learned.
    pub closed spec fn merges(&self) -> Seq<(Seq<u8>, Seq<u8>)> {
        merge_views(self.merges@)
    }

    /// The text-preprocessing mode.
    pub closed spec fn bpe_mode(&self) -> BpeMode {
        self.mode
    }

    /// The maps say what the vocabulary and the merges say.
    pub closed spec fn wf(&self) -> bool {
        &&& self.bytes_to_id.wf()
        &&& self.merge_rank.wf()
        &&& self.unicode_to_byte.wf()
        &&& forall|t: Seq<u8>| #[trigger]
            self.bytes_to_id.value(t) == token_id(self.vocab(), t)
        &&& forall|l: Seq<u8>, r: Seq<u8>|
            l.len() < 0x1_0000_0000_0000_0000 ==> #[trigger] self.merge_rank.value(pair_key(l, r))
                == rank_of(self.merges(), l, r)
    }

    /// Build a tokenizer on raw bytes.
    ///
    /// - `vocab` is the ordered list of token byte strings. Position `i` becomes
    ///   token id `i`.
    /// - `merges` is the ordered list of `(left, right)` pairs in the order
    ///   they were learned. The first one has rank 0 (highest priority).
    pub fn new(vocab: Vec<TokenBytes>, merges: Vec<(TokenBytes, TokenBytes)>) -> (t: Self)
        ensures
            t.wf(),
            t.vocab() == token_views(vocab@),
            t.merges() == merge_views(merges@),
            t.bpe_mode() == BpeMode::Raw,
    {
        Self::with_mode(vocab, merges, BpeMode::Raw)
    }

    /// Build a tokenizer with the given mode.
    pub fn with_mode(
        vocab: Vec<TokenBytes>,
        merges: Vec<(TokenBytes, TokenBytes)>,
        mode: BpeMode,
    ) -> (t: Self)
        ensures
            t.wf(),
            t.vocab() == token_views(vocab@),
            t.merges() == merge_views(merges@),
            t.bpe_mode() == mode,
    {
        let ghost vv = token_views(vocab@);
        let ghost mv = merge_views(merges@);
        let mut bytes_to_id: ByteMap<u32> = ByteMap::with_capacity(vocab.len());
        let mut i: usize = 0;
        while i < vocab.len()
            invariant
                i <= vocab@.len(),
                vv == token_views(vocab@),
                bytes_to_id.wf(),
                forall|t: Seq<u8>| #[trigger]
                    bytes_to_id.value(t) == token_id(vv.subrange(0, i as int), t),
            decreases vocab@.len() - i,
        {
            bytes_to_id.insert(vocab[i].clone().0, low_bits(i));
            i = i + 1;
            proof {
                let s = vv.subrange(0, i as int);
                assert(s.drop_last() =~= vv.subrange(0, i - 1));
                assert(s.last() == vocab@[i - 1]@);
            }
        }
        assert(vv.subrange(0, i as int) =~= vv);
        let mut merge_rank: ByteMap<u32> = ByteMap::with_capacity(merges.len());
        let mut j: usize = 0;
        while j < merges.len()
            invariant
                j <= merges@.len(),
                mv == merge_views(merges@),
                merge_rank.wf(),
                forall|l: Seq<u8>, r: Seq<u8>|
                    l.len() < 0x1_0000_0000_0000_0000 ==> #[trigger] merge_rank.value(
                        pair_key(l, r),
                    ) == rank_of(mv.subrange(0, j as int), l, r),
            decreases merges@.len() - j,
        {
            let ghost before = merge_rank;
            let key = make_pair_key(&merges[j].0.0, &merges[j].1.0);
            let ghost kl = merges@[j as int].0@;
            let ghost kr = merges@[j as int].1@;
            merge_rank.insert(key, low_bits(j));
            j = j + 1;
            proof {
                let s = mv.subrange(0, j as int);
                assert(s.drop_last() =~= mv.subrange(0, j - 1));
                assert(s.last() == (kl, kr));
                assert(merges@[j - 1].0.0.len() == kl.len());
                assert forall|l: Seq<u8>, r: Seq<u8>|
                    l.len() < 0x1_0000_0000_0000_0000 implies #[trigger] merge_rank.value(
                    pair_key(l, r),
                ) == rank_of(s, l, r) by {
                    if pair_key(l, r) == pair_key(kl, kr) {
                        lemma_pair_key_injective(l, r, kl, kr);
                    } else {
                        assert((l, r) != (kl, kr));
                        assert(before.value(pair_key(l, r)) == rank_of(
                            mv.subrange(0, j - 1),
                            l,
                            r,
                        ));
                    }
                }
            }
        }
        assert(mv.subrange(0, j as int) =~= mv);
        Self {
            id_to_bytes: vocab,
            merges,
            bytes_to_id,
            merge_rank,
            mode,
            unicode_to_byte: gpt2_unicode_to_byte(),
        }
    }

    /// The text-preprocessing mode.
    pub fn mode(&self) -> (m: BpeMode)
        ensures
            m == self.bpe_mode(),
    {
        self.mode
    }

    /// How many tokens the vocabulary has.
    pub fn vocab_size(&self) -> (n: usize)
        ensures
            n == self.vocab().len(),
    {
        self.id_to_bytes.len()
    }

    fn initial_tokens(&self, text: &str) -> (tokens: Vec<TokenBytes>)
        ensures
            token_views(tokens@) == byte_tokens(self.bpe_mode(), text.spec_bytes()),
    {
        let bytes = text.as_bytes();
        let table = gpt2_byte_to_unicode();
        let mut tokens: Vec<TokenBytes> = Vec::new();
        let mut i: usize = 0;
        while i < bytes.len()
            invariant
                i <= bytes@.len(),
                bytes@ == text.spec_bytes(),
                forall|b: int| 0 <= b < 256 ==> #[trigger] table@[b] == mapped_char(b as u8),
                tokens@.len() == i,
                forall|j: int|
                    0 <= j < i ==> (#[trigger] tokens@[j])@ == byte_token(self.mode, bytes@[j]),
            decreases bytes@.len() - i,
        {
            let b: u8 = bytes[i];
            match self.mode {
                BpeMode::Raw => {
                    tokens.push(TokenBytes(vec![b]));
                },
                BpeMode::Gpt2 => {
                    let mut s: String = String::new();
                    assert(table@[b as int] == mapped_char(b));
                    s.push(table[b as usize]);
                    assert(s@ =~= seq![mapped_char(b)]);
                    tokens.push(TokenBytes::from_text(s.as_str()));
                },
            }
            i = i + 1;
        }
        assert(token_views(tokens@) =~= byte_tokens(self.bpe_mode(), text.spec_bytes()));
        tokens
    }

    fn find_best(&self, tokens: &Vec<TokenBytes>) -> (best: Option<usize>)
        requires
            self.wf(),
        ensures
            match best_pair(
                token_views(tokens@),
                self.merges(),
                pair_count(token_views(tokens@)),
            ) {
                Some((i, _)) => best matches Some(b) && b as int == i && 0 <= i < tokens@.len() - 1,
                None => best is None,
            },
    {
        let ghost tv = token_views(tokens@);
        let mut best: Option<(usize, u32)> = None;
        let n: usize = if tokens.len() == 0 {
            0
        } else {
            tokens.len() - 1
        };
        let mut i: usize = 0;
        while i < n
            invariant
                self.wf(),
                i <= n,
                n == pair_count(tv),
                tv == token_views(tokens@),
                match best_pair(tv, self.merges(), i as nat) {
                    Some((j, r)) => best matches Some(b) && b.0 as int == j && b.1 == r && 0 <= j < i,
                    None => best is None,
                },
            decreases n - i,
        {
            let key = make_pair_key(&tokens[i].0, &tokens[i + 1].0);
            proof {
                assert(tokens@[i as int].0.len() == tv[i as int].len());
                assert(key@ == pair_key(tv[i as int], tv[i + 1]));
                assert(self.merge_rank.value(pair_key(tv[i as int], tv[i + 1])) == rank_of(
                    self.merges(),
                    tv[i as int],
                    tv[i + 1],
                ));
            }
            match self.merge_rank.get(key.as_slice()) {
                Some(rank) => {
                    let better = match best {
                        Some((_, r)) => *rank < r,
                        None => true,
                    };
                    if better {
                        best = Some((i, *rank));
                    }
                },
                None => {},
            }
            i = i + 1;
        }
        match best {
            Some((i, _)) => Some(i),
            None => None,
        }
    }

    /// Encode `text` into a sequence of token ids.
    pub fn encode(&self, text: &str) -> (ids: Vec<u32>)
        requires
            self.wf(),
            all_known(self.vocab(), text_tokens(self.bpe_mode(), self.merges(), text@)),
        ensures
            ids@ == ids_of(self.vocab(), text_tokens(self.bpe_mode(), self.merges(), text@)),
    {
        let mut tokens = self.initial_tokens(text);
        let ghost result = text_tokens(self.bpe_mode(), self.merges(), text@);
        loop
            invariant_except_break
                self.wf(),
                bpe(token_views(tokens@), self.merges()) == result,
            ensures
                token_views(tokens@) == result,
            decreases tokens@.len(),
        {
            let ghost tv = token_views(tokens@);
            assert(tokens.len() == tv.len());
            match self.find_best(&tokens) {
                None => {
                    break;
                },
                Some(i) => {
                    let mut merged: Vec<u8> = slice_to_vec(tokens[i].0.as_slice());
                    push_bytes(&mut merged, &tokens[i + 1].0);
                    tokens[i] = TokenBytes(merged);
                    tokens.remove(i + 1);
                    assert(token_views(tokens@) =~= merged_at(tv, i as int));
                },
            }
        }
        let mut ids: Vec<u32> = Vec::new();
        let mut k: usize = 0;
        while k < tokens.len()
            invariant
                k <= tokens@.len(),
                self.wf(),
                token_views(tokens@) == result,
                all_known(self.vocab(), result),
                ids@ == ids_of(self.vocab(), result.subrange(0, k as int)),
            decreases tokens@.len() - k,
        {
            proof {
                assert(result[k as int] == tokens@[k as int]@);
                assert(token_id(self.vocab(), result[k as int]) is Some);
            }
            match self.bytes_to_id.get(tokens[k].0.as_slice()) {
                Some(id) => ids.push(*id),
                None => {},
            }
            k = k + 1;
            assert(ids_of(self.vocab(), result.subrange(0, k as int)) =~= ids_of(
                self.vocab(),
                result.subrange(0, k - 1),
            ).push(token_id(self.vocab(), result[k - 1])->0));
        }
        assert(result.subrange(0, k as int) =~= result);
        ids
    }

    /// Decode token ids back to a UTF-8 string.
    pub fn decode(&self, ids: &[u32]) -> (r: Result<String, TokError>)
        requires
            self.wf(),
        ensures
            match text_of_ids(self.bpe_mode(), self.vocab(), ids@) {
                Ok(t) => r matches Ok(s) && s@ == t,
                Err(f) => r matches Err(e) && e@ == f,
            },
    {
        let bytes = match self.decode_bytes(ids) {
            Ok(b) => b,
            Err(e) => {
                return Err(e);
            },
        };
        let text = match string_from_utf8(bytes) {
            Ok(s) => s,
            Err(m) => {
                return Err(TokError::BadUtf8(m));
            },
        };
        match self.mode {
            BpeMode::Raw => Ok(text),
            BpeMode::Gpt2 => {
                let chars = to_chars(text.as_str());
                let mut raw: Vec<u8> = Vec::new();
                let mut i: usize = 0;
                while i < chars.len()
                    invariant
                        i <= chars@.len(),
                        self.wf(),
                        unmap_all(chars@.subrange(0, i as int)) == Ok::<Seq<u8>, TokFault>(raw@),
                        text_of_ids(self.bpe_mode(), self.vocab(), ids@) == (match unmap_all(
                            chars@,
                        ) {
                            Err(e) => Err(e),
                            Ok(b) => text_of_bytes(b),
                        }),
                    decreases chars@.len() - i,
                {
                    let c = chars[i];
                    proof {
                        let s = chars@.subrange(0, i + 1);
                        assert(s.drop_last() =~= chars@.subrange(0, i as int));
                        assert(s.last() == c);
                    }
                    match self.unicode_to_byte.get(c) {
                        Some(b) => raw.push(b),
                        None => {
                            let mut m: String = "unmapped char ".to_string();
                            let d = char_debug(c);
                            push_text(&mut m, d.as_str());
                            push_text(&mut m, " in decode");
                            proof {
                                lemma_unmap_stops(chars@, i + 1);
                            }
                            return Err(TokError::BadUtf8(m));
                        },
                    }
                    i = i + 1;
                }
                assert(chars@.subrange(0, i as int) =~= chars@);
                match string_from_utf8(raw) {
                    Ok(s) => Ok(s),
                    Err(m) => Err(TokError::BadUtf8(m)),
                }
            },
        }
    }

    /// Decode token ids to raw bytes (no UTF-8 validation).
    pub fn decode_bytes(&self, ids: &[u32]) -> (r: Result<Vec<u8>, TokError>)
        ensures
            match bytes_of_ids(self.vocab(), ids@) {
                Ok(b) => r matches Ok(v) && v@ == b,
                Err(f) => r matches Err(e) && e@ == f,
            },
    {
        let mut out: Vec<u8> = Vec::new();
        let mut i: usize = 0;
        while i < ids.len()
            invariant
                i <= ids@.len(),
                bytes_of_ids(self.vocab(), ids@.subrange(0, i as int)) == Ok::<Seq<u8>, TokFault>(
                    out@,
                ),
            decreases ids@.len() - i,
        {
            let id: u32 = ids[i];
            proof {
                let s = ids@.subrange(0, i + 1);
                assert(s.drop_last() =~= ids@.subrange(0, i as int));
                assert(s.last() == id);
            }
            if (id as usize) < self.id_to_bytes.len() {
                push_bytes(&mut out, &self.id_to_bytes[id as usize].0);
            } else {
                proof {
                    lemma_bytes_of_ids_stops(self.vocab(), ids@, i + 1);
                }
                return Err(TokError::InvalidTokenId(id, self.id_to_bytes.len()));
            }
            i = i + 1;
        }
        assert(ids@.subrange(0, i as int) =~= ids@);
        Ok(out)
    }

    /// Borrow the bytes of one token (useful for logging / debugging).
    pub fn token_bytes(&self, id: u32) -> (r: Option<&[u8]>)
        ensures
            match r {
                Some(b) => id < self.vocab().len() && b@ == self.vocab()[id as int],
                None => id >= self.vocab().len(),
            },
    {
        if (id as usize) < self.id_to_bytes.len() {
            Some(self.id_to_bytes[id as usize].0.as_slice())
        } else {
            None
        }
    }
}

proof fn lemma_unmap_stops(chars: Seq<char>, i: int)
    requires
        0 <= i <= chars.len(),
        unmap_all(chars.subrange(0, i)) is Err,
    ensures
        unmap_all(chars) == unmap_all(chars.subrange(0, i)),
    decreases chars.len(),
{
    if i < chars.len() {
        assert(chars.drop_last().subrange(0, i) =~= chars.subrange(0, i));
        lemma_unmap_stops(chars.drop_last(), i);
    } else {
        assert(chars.subrange(0, i) =~= chars);
    }
}

proof fn lemma_bytes_of_ids_stops(vocab: Seq<Seq<u8>>, ids: Seq<u32>, i: int)
    requires
        0 <= i <= ids.len(),
        bytes_of_ids(vocab, ids.subrange(0, i)) is Err,
    ensures
        bytes_of_ids(vocab, ids) == bytes_of_ids(vocab, ids.subrange(0, i)),
    decreases ids.len(),
{
    if i < ids.len() {
        assert(ids.drop_last().subrange(0, i) =~= ids.subrange(0, i));
        lemma_bytes_of_ids_stops(vocab, ids.drop_last(), i);
    } else {
        assert(ids.subrange(0, i) =~= ids);
    }
}

// ---- loading ----------------------------------------------------------------------

/// The position of the first space at or after `i`, or the end.
pub open spec fn space_at(b: Seq<u8>, i: int) -> int
    decreases b.len() - i,
{
    if i >= b.len() {
        b.len() as int
    } else if b[i] == 0x20 {
        i
    } else {
        space_at(b, i + 1)
    }
}

/// A merge is written `left right`: it is split at the first space, and is no
/// merge without one.
pub open spec fn merge_of(b: Seq<u8>) -> Option<(Seq<u8>, Seq<u8>)> {
    let sep = space_at(b, 0);
    if sep < b.len() {
        Some((b.subrange(0, sep), b.subrange(sep + 1, b.len() as int)))
    } else {
        None
    }
}

/// The merges that are written in a list of texts.
pub open spec fn merges_of(list: Seq<Seq<char>>) -> Seq<(Seq<u8>, Seq<u8>)>
    decreases list.len(),
{
    if list.len() == 0 {
        Seq::empty()
    } else {
        let before = merges_of(list.drop_last());
        match merge_of(encode_utf8(list.last())) {
            Some(m) => before.push(m),
            None => before,
        }
    }
}

/// The UTF-8 bytes of the texts of a list.
pub open spec fn encoded(list: Seq<Seq<char>>) -> Seq<Seq<u8>> {
    list.map_values(|t: Seq<char>| encode_utf8(t))
}

/// The merges of a file; none where it has no such key.
pub open spec fn file_merges(c: Content) -> Result<Seq<(Seq<u8>, Seq<u8>)>, GgufFault> {
    match string_array(c, "tokenizer.ggml.merges"@) {
        Ok(list) => Ok(merges_of(list)),
        Err(GgufFault::NoSuchKey(_)) => Ok(Seq::empty()),
        Err(e) => Err(e),
    }
}

/// The mode of a file: byte-level for the model `gpt2`, raw otherwise.
pub open spec fn file_mode(c: Content) -> BpeMode {
    match last_value(c.pairs, "tokenizer.ggml.model"@) {
        Some(KvView::Text(t)) => if t == "gpt2"@ {
            BpeMode::Gpt2
        } else {
            BpeMode::Raw
        },
        _ => BpeMode::Raw,
    }
}

fn split_merge(b: &[u8]) -> (m: Option<(TokenBytes, TokenBytes)>)
    ensures
        match merge_of(b@) {
            Some((l, r)) => m matches Some(p) && p.0@ == l && p.1@ == r,
            None => m is None,
        },
{
    let mut sep: usize = 0;
    while sep < b.len() && b[sep] != 0x20
        invariant
            sep <= b@.len(),
            space_at(b@, 0) == space_at(b@, sep as int),
        decreases b@.len() - sep,
    {
        sep = sep + 1;
    }
    if sep < b.len() {
        let l = TokenBytes(slice_to_vec(slice_subrange(b, 0, sep)));
        let r = TokenBytes(slice_to_vec(slice_subrange(b, sep + 1, b.len())));
        Some((l, r))
    } else {
        None
    }
}

impl Tokenizer {
    /// Build a tokenizer from a parsed GGUF file.
    ///
    /// Reads `tokenizer.ggml.tokens` (required) and `tokenizer.ggml.merges`
    /// (optional: empty if absent, e.g. for unigram tokenizers). Token bytes
    /// are taken verbatim from the GGUF strings.
    pub fn from_gguf(file: &GgufFile) -> (r: Result<Self, GgufError>)
        requires
            file.wf(),
        ensures
            match string_array(file.content(), "tokenizer.ggml.tokens"@) {
                Err(f) => r matches Err(e) && e@ == f,
                Ok(list) => match file_merges(file.content()) {
                    Err(f) => r matches Err(e) && e@ == f,
                    Ok(merges) => r matches Ok(t) && t.wf() && t.vocab() == encoded(list)
                        && t.merges() == merges && t.bpe_mode() == file_mode(file.content()),
                },
            },
    {
        let tokens = match file.metadata_string_array("tokenizer.ggml.tokens") {
            Ok(v) => v,
            Err(e) => {
                return Err(e);
            },
        };
        let ghost list = texts(tokens@);
        let mut vocab: Vec<TokenBytes> = Vec::new();
        let mut i: usize = 0;
        while i < tokens.len()
            invariant
                i <= tokens@.len(),
                list == texts(tokens@),
                vocab@.len() == i,
                forall|j: int| 0 <= j < i ==> (#[trigger] vocab@[j])@ == encode_utf8(list[j]),
            decreases tokens@.len() - i,
        {
            vocab.push(TokenBytes::from_text(tokens[i].as_str()));
            i = i + 1;
        }
        assert(token_views(vocab@) =~= encoded(list));
        let merge_strs: Vec<String> = match file.metadata_string_array("tokenizer.ggml.merges") {
            Ok(v) => v,
            Err(GgufError::NoSuchKey(_)) => Vec::new(),
            Err(e) => {
                return Err(e);
            },
        };
        let ghost mlist = texts(merge_strs@);
        let mut merges: Vec<(TokenBytes, TokenBytes)> = Vec::new();
        let mut k: usize = 0;
        assert(merge_views(merges@) =~= merges_of(mlist.subrange(0, 0)));
        while k < merge_strs.len()
            invariant
                k <= merge_strs@.len(),
                mlist == texts(merge_strs@),
                merge_views(merges@) == merges_of(mlist.subrange(0, k as int)),
            decreases merge_strs@.len() - k,
        {
            let ghost before = merge_views(merges@);
            match split_merge(merge_strs[k].as_str().as_bytes()) {
                Some(p) => {
                    merges.push(p);
                    assert(merge_views(merges@) =~= before.push((p.0@, p.1@)));
                },
                None => {},
            }
            k = k + 1;
            proof {
                let s = mlist.subrange(0, k as int);
                assert(s.drop_last() =~= mlist.subrange(0, k - 1));
                assert(s.last() == merge_strs@[k - 1]@);
            }
        }
        assert(mlist.subrange(0, k as int) =~= mlist);
        let mode = match file.metadata().get("tokenizer.ggml.model") {
            Some(KvValue::String(s)) => {
                let chars = to_chars(s.as_str());
                let n: usize = chars.len();
                assert(chars@.subrange(0, n as int) =~= chars@);
                if chars_are(&chars, 0, n, "gpt2") {
                    BpeMode::Gpt2
                } else {
                    BpeMode::Raw
                }
            },
            _ => BpeMode::Raw,
        };
        Ok(Self::with_mode(vocab, merges, mode))
    }
}

} // verus!
