//! What merging, numbering and decoding tokens do, step by step.

use crate::model::gguf::{string_array, Content, GgufFault, KvView};
use crate::model::gguf_laws::{absent, lemma_last_value, stands};
use crate::model::tokenizer::{
    best_pair, bpe, byte_tokens, bytes_of_ids, file_merges, file_mode, hidden_below, ids_of,
    last_position, lemma_best_pair, lemma_mapping_bijective, lemma_mapping_counts,
    lemma_mapping_in_order, mapped_char, merge_of, merged_at,
    merges_of, pair_count, rank_of, space_at, text_of_ids, text_tokens, token_id, unmap_all, unmapped,
    BpeMode, TokFault,
};
use crate::model::tokenizer_laws::{lemma_unmap_mapped, mapped_text};
use vstd::prelude::*;
use vstd::utf8::{encode_utf8, encode_utf8_decode_utf8, encode_utf8_valid_utf8, valid_utf8};

verus! {

/// `k` is where `x` stands last in the list.
pub open spec fn stands_last<T>(list: Seq<T>, x: T, k: int) -> bool {
    &&& 0 <= k < list.len()
    &&& list[k] == x
    &&& forall|j: int| k < j < list.len() ==> #[trigger] list[j] != x
}

proof fn lemma_position<T>(list: Seq<T>, x: T)
    ensures
        last_position(list, x) matches Some(k) ==> stands_last(list, x, k),
        forall|k: int| #[trigger] stands_last(list, x, k) ==> last_position(list, x) == Some(k),
        last_position(list, x) is None ==> !list.contains(x),
    decreases list.len(),
{
    if list.len() > 0 {
        let head = list.drop_last();
        lemma_position(head, x);
        assert(list[list.len() - 1] == list.last());
        if list.last() != x {
            assert forall|k: int| #[trigger] stands_last(list, x, k) implies last_position(list, x)
                == Some(k) by {
                assert forall|j: int| k < j < head.len() implies #[trigger] head[j] != x by {
                    assert(list[j] != x);
                }
                assert(head[k] == x);
                assert(stands_last(head, x, k));
            }
            if last_position(list, x) is Some {
                let k = last_position(list, x)->0;
                assert forall|j: int| k < j < list.len() implies #[trigger] list[j] != x by {
                    if j < head.len() {
                        assert(head[j] != x);
                    }
                }
            } else {
                assert forall|j: int| 0 <= j < list.len() implies #[trigger] list[j] != x by {
                    if j < head.len() {
                        assert(head[j] != x);
                    }
                }
            }
        }
    }
}

/// The rank of a pair is its place in the list of merges, and the id of a token its
/// place in the vocabulary, the last where there are several. What is not in the
/// list has none.
pub proof fn lemma_numbered_by_place(
    merges: Seq<(Seq<u8>, Seq<u8>)>,
    vocab: Seq<Seq<u8>>,
    l: Seq<u8>,
    r: Seq<u8>,
    t: Seq<u8>,
    k: int,
)
    requires
        merges.len() <= 0x1_0000_0000,
        vocab.len() <= 0x1_0000_0000,
    ensures
        stands_last(merges, (l, r), k) ==> rank_of(merges, l, r) == Some(k as u32),
        !merges.contains((l, r)) ==> rank_of(merges, l, r) is None,
        stands_last(vocab, t, k) ==> token_id(vocab, t) == Some(k as u32),
        !vocab.contains(t) ==> token_id(vocab, t) is None,
{
    lemma_position(merges, (l, r));
    lemma_position(vocab, t);
}

/// Each token is given the number of its place in the vocabulary, in order.
pub proof fn lemma_ids_by_place(vocab: Seq<Seq<u8>>, tokens: Seq<Seq<u8>>, i: int, k: int)
    requires
        vocab.len() <= 0x1_0000_0000,
        0 <= i < tokens.len(),
        stands_last(vocab, tokens[i], k),
    ensures
        ids_of(vocab, tokens).len() == tokens.len(),
        ids_of(vocab, tokens)[i] == k,
{
    lemma_position(vocab, tokens[i]);
}

/// The merge at place `k` of the list is that of the tokens at `i` and `i + 1`.
pub open spec fn merges_here(
    tokens: Seq<Seq<u8>>,
    merges: Seq<(Seq<u8>, Seq<u8>)>,
    i: int,
    k: int,
) -> bool {
    0 <= i < tokens.len() - 1 && stands_last(merges, (tokens[i], tokens[i + 1]), k)
}

/// Merging goes on with the merge that comes first in the list, at the first pair
/// of tokens that it fits: the two become one, and the others stay as they are.
pub proof fn lemma_first_merge(
    tokens: Seq<Seq<u8>>,
    merges: Seq<(Seq<u8>, Seq<u8>)>,
    i: int,
    k: int,
)
    requires
        merges.len() <= 0x1_0000_0000,
        merges_here(tokens, merges, i, k),
        forall|j: int, m: int| #[trigger]
            merges_here(tokens, merges, j, m) ==> k < m || (k == m && i <= j),
    ensures
        bpe(tokens, merges) == bpe(
            tokens.take(i) + seq![tokens[i] + tokens[i + 1]] + tokens.skip(i + 2),
            merges,
        ),
{
    let n = pair_count(tokens);
    lemma_best_pair(tokens, merges, n);
    lemma_position(merges, (tokens[i], tokens[i + 1]));
    assert(rank_of(merges, tokens[i], tokens[i + 1]) == Some(k as u32));
    let (b, r) = best_pair(tokens, merges, n)->0;
    lemma_position(merges, (tokens[b], tokens[b + 1]));
    let m = last_position(merges, (tokens[b], tokens[b + 1]))->0;
    assert(merges_here(tokens, merges, b, m));
    assert(m == k);
    lemma_best_is_first(tokens, merges, n, i);
    assert(b == i);
    let to = tokens.take(i) + seq![tokens[i] + tokens[i + 1]] + tokens.skip(i + 2);
    assert(merged_at(tokens, i) =~= to);
}

/// The best pair is no later than one of its rank.
proof fn lemma_best_is_first(
    tokens: Seq<Seq<u8>>,
    merges: Seq<(Seq<u8>, Seq<u8>)>,
    n: nat,
    i: int,
)
    requires
        0 <= i < n,
        best_pair(tokens, merges, n) matches Some((b, r)) && rank_of(
            merges,
            tokens[i],
            tokens[i + 1],
        ) == Some(r),
    ensures
        best_pair(tokens, merges, n) matches Some((b, r)) && b <= i,
    decreases n,
{
    lemma_best_pair(tokens, merges, (n - 1) as nat);
    if i < n - 1 {
        let before = best_pair(tokens, merges, (n - 1) as nat);
        assert(rank_of(merges, tokens[i], tokens[i + 1]) is Some);
        assert(before is Some);
        lemma_best_is_first(tokens, merges, (n - 1) as nat, i);
    } else {
        lemma_best_pair(tokens, merges, n);
    }
}

/// Where no pair of neighbours is a merge, the tokens stay as they are.
pub proof fn lemma_nothing_to_merge(tokens: Seq<Seq<u8>>, merges: Seq<(Seq<u8>, Seq<u8>)>)
    requires
        forall|j: int|
            0 <= j < tokens.len() - 1 ==> !merges.contains((#[trigger] tokens[j], tokens[j + 1])),
    ensures
        bpe(tokens, merges) == tokens,
{
    let n = pair_count(tokens);
    lemma_best_pair(tokens, merges, n);
    match best_pair(tokens, merges, n) {
        None => {},
        Some((b, _)) => {
            lemma_position(merges, (tokens[b], tokens[b + 1]));
            assert(!merges.contains((tokens[b], tokens[b + 1])));
            assert(merges.contains((tokens[b], tokens[b + 1])));
        },
    }
}

/// `c` is the character of the byte `b`: a visible character is itself, and the
/// others are those from U+0100 on, in order.
pub open spec fn shows(c: char, b: u8) -> bool {
    c as int == if 0x21 <= b <= 0x7E || 0xA1 <= b <= 0xAC || 0xAE <= b <= 0xFF {
        b as int
    } else {
        0x100 + hidden_below(b as nat) as int
    }
}

/// A text is merged from the tokens of its UTF-8 bytes: each byte is one, as it is
/// or as the UTF-8 of the character that shows it.
pub proof fn lemma_starts_from_bytes(
    mode: BpeMode,
    merges: Seq<(Seq<u8>, Seq<u8>)>,
    text: Seq<char>,
    tokens: Seq<Seq<u8>>,
    chars: Seq<char>,
)
    requires
        tokens.len() == encode_utf8(text).len(),
        chars.len() == tokens.len(),
        forall|i: int| 0 <= i < chars.len() ==> shows(#[trigger] chars[i], encode_utf8(text)[i]),
        forall|i: int|
            0 <= i < tokens.len() ==> #[trigger] tokens[i] == (match mode {
                BpeMode::Raw => seq![encode_utf8(text)[i]],
                BpeMode::Gpt2 => encode_utf8(seq![chars[i]]),
            }),
    ensures
        text_tokens(mode, merges, text) == bpe(tokens, merges),
{
    let bytes = encode_utf8(text);
    assert forall|i: int| 0 <= i < tokens.len() implies #[trigger] tokens[i] == byte_tokens(
        mode,
        bytes,
    )[i] by {
        lemma_mapping_counts(bytes[i]);
        lemma_mapping_in_order(bytes[i], bytes[i]);
        assert(shows(chars[i], bytes[i]));
        assert(chars[i] == mapped_char(bytes[i]));
    }
    assert(tokens =~= byte_tokens(mode, bytes));
}

// ---- decoding -------------------------------------------------------------------------

/// Ids stand for the bytes of their tokens one after the other. The first id past
/// the vocabulary is the error.
pub proof fn lemma_bytes_one_by_one(vocab: Seq<Seq<u8>>, ids: Seq<u32>, id: u32)
    ensures
        bytes_of_ids(vocab, Seq::empty()) == Ok::<Seq<u8>, TokFault>(Seq::empty()),
        bytes_of_ids(vocab, ids) matches Ok(b) ==> bytes_of_ids(vocab, ids.push(id)) == (if id
            < vocab.len() {
            Ok::<Seq<u8>, TokFault>(b + vocab[id as int])
        } else {
            Err(TokFault::InvalidTokenId(id, vocab.len() as int))
        }),
        bytes_of_ids(vocab, ids) matches Err(e) ==> bytes_of_ids(vocab, ids.push(id)) == Err::<
            Seq<u8>,
            TokFault,
        >(e),
{
    assert(ids.push(id).drop_last() =~= ids);
}

/// Raw ids whose bytes are the UTF-8 of a text stand for the text. Ids of the other
/// mode do so where their bytes are the UTF-8 of the characters that show the UTF-8
/// of the text.
pub proof fn lemma_bytes_to_text(vocab: Seq<Seq<u8>>, ids: Seq<u32>, text: Seq<char>, chars: Seq<char>)
    requires
        chars.len() == encode_utf8(text).len(),
        forall|i: int| 0 <= i < chars.len() ==> shows(#[trigger] chars[i], encode_utf8(text)[i]),
    ensures
        bytes_of_ids(vocab, ids) == Ok::<Seq<u8>, TokFault>(encode_utf8(text)) ==> text_of_ids(
            BpeMode::Raw,
            vocab,
            ids,
        ) == Ok::<Seq<char>, TokFault>(text),
        bytes_of_ids(vocab, ids) == Ok::<Seq<u8>, TokFault>(encode_utf8(chars)) ==> text_of_ids(
            BpeMode::Gpt2,
            vocab,
            ids,
        ) == Ok::<Seq<char>, TokFault>(text),
        bytes_of_ids(vocab, ids) matches Ok(b) ==> !valid_utf8(b) ==> text_of_ids(
            BpeMode::Raw,
            vocab,
            ids,
        ) is Err && text_of_ids(BpeMode::Gpt2, vocab, ids) is Err,
        bytes_of_ids(vocab, ids) matches Err(e) ==> text_of_ids(BpeMode::Raw, vocab, ids) == Err::<
            Seq<char>,
            TokFault,
        >(e) && text_of_ids(BpeMode::Gpt2, vocab, ids) == Err::<Seq<char>, TokFault>(e),
{
    let bytes = encode_utf8(text);
    encode_utf8_valid_utf8(text);
    encode_utf8_decode_utf8(text);
    encode_utf8_valid_utf8(chars);
    encode_utf8_decode_utf8(chars);
    assert forall|i: int| 0 <= i < chars.len() implies #[trigger] chars[i] == mapped_char(
        bytes[i],
    ) by {
        assert(shows(chars[i], bytes[i]));
        lemma_mapping_counts(bytes[i]);
        lemma_mapping_in_order(bytes[i], bytes[i]);
    }
    assert(chars =~= mapped_text(bytes));
    lemma_unmap_mapped(bytes);
}

/// A character past those that show a byte is an error.
pub proof fn lemma_unmapped_character(chars: Seq<char>, i: int)
    requires
        0 <= i < chars.len(),
        forall|b: u8| !#[trigger] shows(chars[i], b),
    ensures
        unmap_all(chars) is Err,
    decreases chars.len(),
{
    if i < chars.len() - 1 {
        assert(chars.drop_last()[i] == chars[i]);
        lemma_unmapped_character(chars.drop_last(), i);
    } else if unmap_all(chars) is Ok {
        let b = unmapped(chars.last())->0;
        lemma_mapping_bijective(b, chars.last());
        lemma_mapping_counts(b);
        lemma_mapping_in_order(b, b);
        assert(shows(chars[i], b));
    }
}

// ---- files ----------------------------------------------------------------------------

proof fn lemma_space(b: Seq<u8>, i: int, sep: int)
    requires
        0 <= i <= sep <= b.len(),
        forall|j: int| i <= j < sep ==> #[trigger] b[j] != 0x20,
        sep < b.len() ==> b[sep] == 0x20,
    ensures
        space_at(b, i) == sep,
    decreases sep - i,
{
    if i < sep {
        assert(b[i] != 0x20);
        lemma_space(b, i + 1, sep);
    }
}

/// A merge is written as its two halves with a space between them, the first half
/// without a space. What has no space is no merge.
pub proof fn lemma_written_merge(l: Seq<u8>, r: Seq<u8>)
    requires
        forall|j: int| 0 <= j < l.len() ==> #[trigger] l[j] != 0x20,
    ensures
        merge_of(l + seq![0x20u8] + r) == Some((l, r)),
        merge_of(l) is None,
{
    let b = l + seq![0x20u8] + r;
    lemma_space(b, 0, l.len() as int);
    lemma_space(l, 0, l.len() as int);
    assert(b.subrange(0, l.len() as int) =~= l);
    assert(b.subrange(l.len() as int + 1, b.len() as int) =~= r);
}

/// The merges of a list are those of its texts in order; texts that are no merge
/// are passed over.
pub proof fn lemma_merges_in_order(list: Seq<Seq<char>>, text: Seq<char>)
    ensures
        merges_of(Seq::empty()) == Seq::<(Seq<u8>, Seq<u8>)>::empty(),
        merges_of(list.push(text)) == match merge_of(encode_utf8(text)) {
            Some(m) => merges_of(list).push(m),
            None => merges_of(list),
        },
{
    assert(list.push(text).drop_last() =~= list);
}

/// A file whose model is `gpt2` maps its bytes; every other takes them as they are.
pub proof fn lemma_mode_of_file(c: Content, model: KvView)
    ensures
        stands(c.pairs, "tokenizer.ggml.model"@, KvView::Text("gpt2"@)) ==> file_mode(c)
            == BpeMode::Gpt2,
        stands(c.pairs, "tokenizer.ggml.model"@, model) && model != KvView::Text("gpt2"@)
            ==> file_mode(c) == BpeMode::Raw,
        absent(c.pairs, "tokenizer.ggml.model"@) ==> file_mode(c) == BpeMode::Raw,
{
    lemma_last_value(c.pairs, "tokenizer.ggml.model"@);
}

/// The merges of a file are those of the texts under `tokenizer.ggml.merges`, and
/// none where there is no such key.
pub proof fn lemma_merges_of_file(c: Content)
    ensures
        absent(c.pairs, "tokenizer.ggml.merges"@) ==> file_merges(c) == Ok::<
            Seq<(Seq<u8>, Seq<u8>)>,
            GgufFault,
        >(Seq::empty()),
        string_array(c, "tokenizer.ggml.merges"@) matches Ok(list) ==> file_merges(c) == Ok::<
            Seq<(Seq<u8>, Seq<u8>)>,
            GgufFault,
        >(merges_of(list)),
{
    lemma_last_value(c.pairs, "tokenizer.ggml.merges"@);
}

} // verus!
