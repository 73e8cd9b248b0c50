//! What encoding and decoding promise of each other.

use crate::model::tokenizer::{
    all_known, best_pair, bpe, byte_token, byte_tokens, bytes_of_ids, concat, ids_of,
    last_position, lemma_best_pair, lemma_mapping_bijective, low32, mapped_char, merged_at,
    pair_count, rank_of, text_of_ids, text_tokens, token_id, unmap_all, BpeMode, TokFault,
};
use crate::text::lemma_encode_concat;
use vstd::prelude::*;
use vstd::utf8::{encode_utf8, encode_utf8_decode_utf8, encode_utf8_valid_utf8};

verus! {

proof fn lemma_concat_push(a: Seq<Seq<u8>>, t: Seq<u8>)
    ensures
        concat(a.push(t)) == concat(a) + t,
{
    assert(a.push(t).drop_last() =~= a);
}

proof fn lemma_concat_append(a: Seq<Seq<u8>>, b: Seq<Seq<u8>>)
    ensures
        concat(a + b) == concat(a) + concat(b),
    decreases b.len(),
{
    if b.len() == 0 {
        assert(a + b =~= a);
        assert(concat(a) + concat(b) =~= concat(a));
    } else {
        assert((a + b).drop_last() =~= a + b.drop_last());
        lemma_concat_append(a, b.drop_last());
        assert(concat(a + b) =~= concat(a) + concat(b));
    }
}

/// Merging two neighbours keeps the bytes.
pub proof fn lemma_merge_keeps_bytes(tokens: Seq<Seq<u8>>, i: int)
    requires
        0 <= i < tokens.len() - 1,
    ensures
        concat(merged_at(tokens, i)) == concat(tokens),
{
    let head = tokens.subrange(0, i);
    let tail = tokens.subrange(i + 2, tokens.len() as int);
    let m = tokens[i] + tokens[i + 1];
    assert(merged_at(tokens, i) =~= head.push(m) + tail);
    assert(tokens =~= head.push(tokens[i]).push(tokens[i + 1]) + tail);
    lemma_concat_append(head.push(m), tail);
    lemma_concat_append(head.push(tokens[i]).push(tokens[i + 1]), tail);
    lemma_concat_push(head, m);
    lemma_concat_push(head, tokens[i]);
    lemma_concat_push(head.push(tokens[i]), tokens[i + 1]);
    assert(concat(head) + tokens[i] + tokens[i + 1] =~= concat(head) + m);
}

/// All merges together keep the bytes.
pub proof fn lemma_bpe_keeps_bytes(tokens: Seq<Seq<u8>>, merges: Seq<(Seq<u8>, Seq<u8>)>)
    ensures
        concat(bpe(tokens, merges)) == concat(tokens),
    decreases tokens.len(),
{
    lemma_best_pair(tokens, merges, pair_count(tokens));
    match best_pair(tokens, merges, pair_count(tokens)) {
        None => {},
        Some((i, _)) => {
            lemma_merge_keeps_bytes(tokens, i);
            lemma_bpe_keeps_bytes(merged_at(tokens, i), merges);
        },
    }
}

/// When encoding is done, no pair of neighbours can be merged any more.
pub proof fn lemma_bpe_is_complete(
    tokens: Seq<Seq<u8>>,
    merges: Seq<(Seq<u8>, Seq<u8>)>,
    j: int,
)
    requires
        0 <= j < bpe(tokens, merges).len() - 1,
    ensures
        rank_of(merges, bpe(tokens, merges)[j], bpe(tokens, merges)[j + 1]) is None,
    decreases tokens.len(),
{
    lemma_best_pair(tokens, merges, pair_count(tokens));
    match best_pair(tokens, merges, pair_count(tokens)) {
        None => {},
        Some((i, _)) => {
            lemma_bpe_is_complete(merged_at(tokens, i), merges, j);
        },
    }
}

proof fn lemma_last_position<T>(list: Seq<T>, x: T)
    ensures
        last_position(list, x) matches Some(i) ==> 0 <= i < list.len() && list[i] == x,
        list.contains(x) ==> last_position(list, x) is Some,
    decreases list.len(),
{
    if list.len() > 0 {
        lemma_last_position(list.drop_last(), x);
        if list.contains(x) && list.last() != x {
            let k = choose|k: int| 0 <= k < list.len() && list[k] == x;
            assert(list.drop_last()[k] == x);
        }
    }
}

/// The ids of known tokens decode to the bytes of these tokens.
pub proof fn lemma_ids_give_bytes(vocab: Seq<Seq<u8>>, tokens: Seq<Seq<u8>>)
    requires
        vocab.len() <= 0x1_0000_0000,
        all_known(vocab, tokens),
    ensures
        bytes_of_ids(vocab, ids_of(vocab, tokens)) == Ok::<Seq<u8>, TokFault>(concat(tokens)),
    decreases tokens.len(),
{
    let ids = ids_of(vocab, tokens);
    if tokens.len() > 0 {
        let before = tokens.drop_last();
        assert(ids.drop_last() =~= ids_of(vocab, before));
        assert forall|i: int| 0 <= i < before.len() implies token_id(
            vocab,
            #[trigger] before[i],
        ) is Some by {
            assert(token_id(vocab, tokens[i]) is Some);
        }
        lemma_ids_give_bytes(vocab, before);
        let t = tokens.last();
        assert(token_id(vocab, tokens[tokens.len() - 1]) is Some);
        lemma_last_position(vocab, t);
        let i = last_position(vocab, t)->0;
        assert(low32(i) as int == i);
        assert(ids.last() == low32(i));
    }
}

proof fn lemma_raw_concat(bytes: Seq<u8>)
    ensures
        concat(byte_tokens(BpeMode::Raw, bytes)) == bytes,
    decreases bytes.len(),
{
    let t = byte_tokens(BpeMode::Raw, bytes);
    if bytes.len() > 0 {
        lemma_raw_concat(bytes.drop_last());
        assert(t.drop_last() =~= byte_tokens(BpeMode::Raw, bytes.drop_last()));
        assert(concat(t) =~= bytes);
    } else {
        assert(concat(t) =~= bytes);
    }
}

/// The characters that bytes are mapped to.
pub open spec fn mapped_text(bytes: Seq<u8>) -> Seq<char> {
    bytes.map_values(|b: u8| mapped_char(b))
}

proof fn lemma_gpt2_concat(bytes: Seq<u8>)
    ensures
        concat(byte_tokens(BpeMode::Gpt2, bytes)) == encode_utf8(mapped_text(bytes)),
        unmap_all(mapped_text(bytes)) == Ok::<Seq<u8>, TokFault>(bytes),
    decreases bytes.len(),
{
    let t = byte_tokens(BpeMode::Gpt2, bytes);
    let m = mapped_text(bytes);
    if bytes.len() > 0 {
        let last = bytes.last();
        let before = bytes.drop_last();
        lemma_gpt2_concat(before);
        assert(t.drop_last() =~= byte_tokens(BpeMode::Gpt2, before));
        assert(m.drop_last() =~= mapped_text(before));
        assert(m =~= mapped_text(before) + seq![mapped_char(last)]);
        lemma_encode_concat(mapped_text(before), seq![mapped_char(last)]);
        lemma_mapping_bijective(last, mapped_char(last));
        assert(before.push(last) =~= bytes);
    } else {
        assert(m =~= Seq::empty());
        assert(concat(t) =~= encode_utf8(m));
        assert(bytes =~= Seq::empty());
    }
}

/// The characters that bytes are mapped to give the bytes back.
pub(crate) proof fn lemma_unmap_mapped(bytes: Seq<u8>)
    ensures
        unmap_all(mapped_text(bytes)) == Ok::<Seq<u8>, TokFault>(bytes),
{
    lemma_gpt2_concat(bytes);
}

/// Decoding what was encoded gives the text back, in both modes and whatever
/// the merges are.
pub proof fn lemma_decode_encode(
    mode: BpeMode,
    vocab: Seq<Seq<u8>>,
    merges: Seq<(Seq<u8>, Seq<u8>)>,
    text: Seq<char>,
)
    requires
        vocab.len() <= 0x1_0000_0000,
        all_known(vocab, text_tokens(mode, merges, text)),
    ensures
        text_of_ids(mode, vocab, ids_of(vocab, text_tokens(mode, merges, text))) == Ok::<
            Seq<char>,
            TokFault,
        >(text),
{
    let bytes = encode_utf8(text);
    let tokens = text_tokens(mode, merges, text);
    lemma_ids_give_bytes(vocab, tokens);
    lemma_bpe_keeps_bytes(byte_tokens(mode, bytes), merges);
    encode_utf8_valid_utf8(text);
    encode_utf8_decode_utf8(text);
    match mode {
        BpeMode::Raw => {
            lemma_raw_concat(bytes);
        },
        BpeMode::Gpt2 => {
            lemma_gpt2_concat(bytes);
            encode_utf8_valid_utf8(mapped_text(bytes));
            encode_utf8_decode_utf8(mapped_text(bytes));
        },
    }
}

/// The vocabulary holds the token of every byte and the result of every merge.
pub open spec fn closed_vocab(
    mode: BpeMode,
    vocab: Seq<Seq<u8>>,
    merges: Seq<(Seq<u8>, Seq<u8>)>,
) -> bool {
    &&& forall|b: u8| vocab.contains(#[trigger] byte_token(mode, b))
    &&& forall|i: int|
        0 <= i < merges.len() ==> vocab.contains((#[trigger] merges[i]).0 + merges[i].1)
}

proof fn lemma_bpe_known(
    vocab: Seq<Seq<u8>>,
    merges: Seq<(Seq<u8>, Seq<u8>)>,
    tokens: Seq<Seq<u8>>,
)
    requires
        forall|i: int|
            0 <= i < merges.len() ==> vocab.contains((#[trigger] merges[i]).0 + merges[i].1),
        all_known(vocab, tokens),
    ensures
        all_known(vocab, bpe(tokens, merges)),
    decreases tokens.len(),
{
    lemma_best_pair(tokens, merges, pair_count(tokens));
    match best_pair(tokens, merges, pair_count(tokens)) {
        None => {},
        Some((i, r)) => {
            let m = tokens[i] + tokens[i + 1];
            lemma_last_position(merges, (tokens[i], tokens[i + 1]));
            let k = last_position(merges, (tokens[i], tokens[i + 1]))->0;
            assert(vocab.contains(merges[k].0 + merges[k].1));
            lemma_last_position(vocab, m);
            let next = merged_at(tokens, i);
            assert forall|j: int| 0 <= j < next.len() implies token_id(
                vocab,
                #[trigger] next[j],
            ) is Some by {
                if j < i {
                    assert(next[j] == tokens[j]);
                } else if j > i {
                    assert(next[j] == tokens[j + 1]);
                }
            }
            lemma_bpe_known(vocab, merges, next);
        },
    }
}

/// With a closed vocabulary every text can be encoded.
pub proof fn lemma_closed_vocab_encodes(
    mode: BpeMode,
    vocab: Seq<Seq<u8>>,
    merges: Seq<(Seq<u8>, Seq<u8>)>,
    text: Seq<char>,
)
    requires
        closed_vocab(mode, vocab, merges),
    ensures
        all_known(vocab, text_tokens(mode, merges, text)),
{
    let bytes = encode_utf8(text);
    let start = byte_tokens(mode, bytes);
    assert forall|i: int| 0 <= i < start.len() implies token_id(
        vocab,
        #[trigger] start[i],
    ) is Some by {
        assert(vocab.contains(byte_token(mode, bytes[i])));
        lemma_last_position(vocab, start[i]);
    }
    lemma_bpe_known(vocab, merges, start);
}

} // verus!
