//! Encoding and decoding of text.

use lumen::model::tokenizer::{gpt2_byte_to_unicode, BpeMode, TokError, TokenBytes, Tokenizer};

fn build_byte_vocab(extra: &[&[u8]]) -> Vec<TokenBytes> {
    let mut v: Vec<TokenBytes> = (0u16..256).map(|b| TokenBytes(vec![b as u8])).collect();
    for &e in extra {
        v.push(TokenBytes(e.to_vec()));
    }
    v
}

#[test]
fn empty_input_returns_empty() {
    let tok = Tokenizer::new(build_byte_vocab(&[]), vec![]);
    assert!(tok.encode("").is_empty());
    assert_eq!(tok.decode(&[]).unwrap(), "");
}

#[test]
fn no_merges_passes_through_as_bytes() {
    let tok = Tokenizer::new(build_byte_vocab(&[]), vec![]);
    let ids = tok.encode("abc");
    assert_eq!(ids, vec![b'a' as u32, b'b' as u32, b'c' as u32]);
    assert_eq!(tok.decode(&ids).unwrap(), "abc");
}

#[test]
fn single_merge_collapses_pair() {
    // Vocab: 0..=255 bytes + token "ab" at id 256.
    // Merge: (a, b) → "ab" (rank 0).
    let vocab = build_byte_vocab(&[b"ab"]);
    let merges = vec![(TokenBytes(vec![b'a']), TokenBytes(vec![b'b']))];
    let tok = Tokenizer::new(vocab, merges);
    let ids = tok.encode("ab");
    assert_eq!(ids, vec![256]);
    assert_eq!(tok.decode(&ids).unwrap(), "ab");
}

#[test]
fn rank_chooses_earliest_learned_merge() {
    // Vocab adds "ab" (256), "bc" (257).
    // Merges: rank 0 = (a, b), rank 1 = (b, c).
    // Encoding "abc": rank-0 merge wins → ["ab", "c"] → [256, 99].
    let vocab = build_byte_vocab(&[b"ab", b"bc"]);
    let merges = vec![
        (TokenBytes(vec![b'a']), TokenBytes(vec![b'b'])),
        (TokenBytes(vec![b'b']), TokenBytes(vec![b'c'])),
    ];
    let tok = Tokenizer::new(vocab, merges);
    let ids = tok.encode("abc");
    assert_eq!(ids, vec![256, b'c' as u32]);
    assert_eq!(tok.decode(&ids).unwrap(), "abc");
}

#[test]
fn chained_merges_compose() {
    // "ab", "abc". Merges: (a,b)=0, (ab,c)=1. Encoding "abc" → [257].
    let vocab = build_byte_vocab(&[b"ab", b"abc"]);
    let merges = vec![
        (TokenBytes(vec![b'a']), TokenBytes(vec![b'b'])),
        (TokenBytes(b"ab".to_vec()), TokenBytes(vec![b'c'])),
    ];
    let tok = Tokenizer::new(vocab, merges);
    let ids = tok.encode("abc");
    assert_eq!(ids, vec![257]);
    assert_eq!(tok.decode(&ids).unwrap(), "abc");
}

#[test]
fn korean_round_trip_no_merges() {
    // "안녕" is 6 bytes in UTF-8 (3 each). With no merges we get 6 token ids,
    // and decode reconstructs the original string.
    let tok = Tokenizer::new(build_byte_vocab(&[]), vec![]);
    let s = "안녕";
    let ids = tok.encode(s);
    assert_eq!(ids.len(), s.len());
    assert_eq!(tok.decode(&ids).unwrap(), s);
}

#[test]
fn korean_with_one_merge_uses_byte_pair() {
    // Real Qwen-style: 한글 글자 자체가 multi-byte merge가 되어 vocab에 들어감.
    // 여기서는 "안"의 3바이트를 하나의 토큰으로 학습한 시나리오.
    let an_bytes = "안".as_bytes().to_vec();
    let an_prefix = TokenBytes(an_bytes[..2].to_vec()); // first 2 bytes
    let an_last = TokenBytes(vec![an_bytes[2]]);
    let an_full = TokenBytes(an_bytes.clone());

    let pre1 = TokenBytes(vec![an_bytes[0]]);
    let pre2 = TokenBytes(vec![an_bytes[1]]);
    let vocab = build_byte_vocab(&[&an_bytes[..2], &an_bytes]);
    let merges = vec![
        (pre1, pre2),         // bytes[0] + bytes[1] = prefix (id 256)
        (an_prefix, an_last), // prefix + bytes[2] = full "안" (id 257)
    ];
    let tok = Tokenizer::new(vocab, merges);
    let ids = tok.encode("안");
    assert_eq!(ids, vec![257]);
    assert_eq!(tok.decode(&ids).unwrap(), "안");
    // The full-token bytes match the original UTF-8.
    assert_eq!(tok.token_bytes(257).unwrap(), an_full.0.as_slice());
}

#[test]
fn decode_rejects_unknown_id() {
    let tok = Tokenizer::new(build_byte_vocab(&[]), vec![]);
    let err = tok.decode(&[9999]).unwrap_err();
    assert!(matches!(err, TokError::InvalidTokenId(9999, _)));
}

// ---- GPT-2 byte mapping tests -----------------------------------------

#[test]
fn gpt2_byte_to_unicode_has_known_anchors() {
    let m = gpt2_byte_to_unicode();
    // Space (0x20) is in the "needs remap" range, classic Ġ at U+0120.
    assert_eq!(m[0x20], '\u{120}');
    // Printable ASCII '!' (0x21) maps to itself.
    assert_eq!(m[0x21], '!');
    // Newline (0x0A) → U+010A (the 11th remapped codepoint).
    assert_eq!(m[0x0A], '\u{10A}');
    // Latin-1 'ÿ' (0xFF) maps to itself.
    assert_eq!(m[0xFF], '\u{FF}');
}

#[test]
fn gpt2_mode_round_trips_ascii_with_correct_token_bytes() {
    // GPT-2 vocab layout: each of the 256 byte-mapped chars is a single
    // token at the start. For printable ASCII this is the same byte;
    // for the remapped range it's the multi-byte UTF-8 of a U+01XX char.
    let byte_unicode = gpt2_byte_to_unicode();
    let mut vocab: Vec<TokenBytes> = byte_unicode
        .iter()
        .map(|&c| TokenBytes(c.to_string().into_bytes()))
        .collect();
    // Add merged "hi" — both 'h' and 'i' are printable ASCII so their
    // mapped form equals themselves.
    vocab.push(TokenBytes("hi".as_bytes().to_vec()));
    let merges = vec![(TokenBytes(vec![b'h']), TokenBytes(vec![b'i']))];

    let tok = Tokenizer::with_mode(vocab, merges, BpeMode::Gpt2);
    let ids = tok.encode("hi");
    assert_eq!(ids, vec![256]);
    assert_eq!(tok.decode(&ids).unwrap(), "hi");
}

#[test]
fn gpt2_mode_handles_space_as_g_dot() {
    // Build a GPT-2-style vocab where every byte-mapped char is one token.
    let byte_unicode = gpt2_byte_to_unicode();
    let vocab: Vec<TokenBytes> = byte_unicode
        .iter()
        .map(|&c| TokenBytes(c.to_string().into_bytes()))
        .collect();
    let tok = Tokenizer::with_mode(vocab, vec![], BpeMode::Gpt2);

    // " " (0x20) maps to 'Ġ' (U+0120), the 33rd remapped codepoint, whose
    // id is 32 + the count of bytes already mapped before it in the
    // remap pass. We don't hard-code the id — just check the round-trip.
    let ids = tok.encode(" ");
    assert_eq!(ids.len(), 1);
    assert_eq!(tok.decode(&ids).unwrap(), " ");
}

#[test]
fn decode_names_what_it_cannot_map() {
    // A GPT-2 token with a character that stands for no byte.
    let vocab = vec![TokenBytes("\u{D55C}".as_bytes().to_vec())];
    let tok = Tokenizer::with_mode(vocab, vec![], BpeMode::Gpt2);
    let err = tok.decode(&[0]).unwrap_err();
    assert!(err.message().contains("unmapped char '\u{D55C}' in decode"), "{}", err.message());
}

#[test]
fn decode_rejects_invalid_utf8() {
    let vocab = vec![TokenBytes(vec![0xFF])];
    let tok = Tokenizer::new(vocab, vec![]);
    let err = tok.decode(&[0]).unwrap_err();
    assert!(err.message().contains("invalid utf-8"), "{}", err.message());
    assert_eq!(tok.decode_bytes(&[0, 0]).unwrap(), vec![0xFF, 0xFF]);
    assert_eq!(tok.token_bytes(0), Some(&[0xFF][..]));
    assert_eq!(tok.token_bytes(1), None);
}

#[test]
fn every_byte_has_its_own_character() {
    let map = gpt2_byte_to_unicode();
    for i in 0..256 {
        for j in 0..i {
            assert_ne!(map[i], map[j]);
        }
    }
    assert_eq!(map[0], '\u{100}');
}
