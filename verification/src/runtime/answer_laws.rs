//! A token through the model step by step, and what makes a token the next one.

use crate::float_bits::{f32_units, lemma_p2_mono, lemma_units, lemma_units_monotone};
use crate::runtime::forward::{Buffer, Mode, Path};
use crate::runtime::generate::{choice, f32_greater, greedy, is_argmax, lemma_argmax};
use crate::runtime::kvcache::LayerRows;
use crate::runtime::layer::{nothing_held, Pass};
use crate::runtime::stack::Stack;
use vstd::prelude::*;

verus! {

// ---- which number is greater ----------------------------------------------------------

/// The number of an fp32 pattern in units of `2^-149`, with its sign.
pub open spec fn signed_units(b: u32) -> int {
    if b >= 0x8000_0000 {
        -(f32_units(b) as int)
    } else {
        f32_units(b) as int
    }
}

/// A finite number is greater than another where its value is. Infinity is greater
/// than every number but itself, and every number but itself is greater than its
/// negative. A NaN, a pattern whose magnitude is past infinity, is neither greater
/// nor less than anything.
pub proof fn lemma_greater_by_value(x: u32, y: u32)
    ensures
        x % 0x8000_0000 < 0x7F80_0000 && y % 0x8000_0000 < 0x7F80_0000 ==> (f32_greater(x, y)
            <==> signed_units(x) > signed_units(y)),
        x == 0x7F80_0000 && y % 0x8000_0000 <= 0x7F80_0000 ==> (f32_greater(x, y) <==> y != x),
        y == 0x7F80_0000 ==> !f32_greater(x, y),
        y == 0xFF80_0000 && x % 0x8000_0000 <= 0x7F80_0000 ==> (f32_greater(x, y) <==> y != x),
        x == 0xFF80_0000 ==> !f32_greater(x, y),
        x % 0x8000_0000 > 0x7F80_0000 || y % 0x8000_0000 > 0x7F80_0000 ==> !f32_greater(x, y),
{
    let gx = (x % 0x8000_0000) as nat;
    let gy = (y % 0x8000_0000) as nat;
    if gx <= gy {
        lemma_units_monotone(gx, gy, 24);
    } else {
        lemma_units_monotone(gy, gx, 24);
    }
    lemma_units_monotone(0, gx, 24);
    lemma_units_monotone(0, gy, 24);
    lemma_units(0, 24);
    lemma_p2_mono(0, 24);
}

// ---- a token through the model --------------------------------------------------------

/// One token through the model, where `rows` are what the layers are given: the
/// first is the row of the token in the embeddings, and each other is what the
/// layer before made of its row, at the token's position, with its own cache. The
/// logits are those of the last row. Each layer leaves its own cache.
pub proof fn lemma_token_steps<T>(
    st: Stack<T>,
    mode: Mode,
    token: u32,
    position: u32,
    caches: Seq<LayerRows<T>>,
    rows: Seq<Seq<T>>,
)
    requires
        rows.len() == st.layers.len() + 1,
        rows[0].len() == st.hidden,
        forall|i: int|
            0 <= i < st.hidden ==> #[trigger] rows[0][i] == (st.number)(
                st.embeddings[token * st.hidden + i],
            ),
        forall|k: int|
            0 <= k < st.layers.len() ==> rows[k + 1] == (#[trigger] st.layers[k]).pass(
                mode,
                rows[k],
                seq![position],
                Pass { held: nothing_held(), cache: caches[k] },
            ).held[Buffer::Resid],
        st.layers.len() <= caches.len(),
    ensures
        ({
            let small = st.hidden / 32 <= 64;
            let path = match mode {
                Mode::Prefill => Path::Naive,
                Mode::Decode => Path::Naive,
                Mode::DecodeJit { has_vnni } => if st.q8_head {
                    if has_vnni && small {
                        Path::Q8Q8Kernel
                    } else {
                        Path::Q8Kernel
                    }
                } else {
                    if has_vnni && small {
                        Path::RoundedF32Kernel
                    } else {
                        Path::F32Kernel
                    }
                },
            };
            st.logits(mode, token, position, caches) == (st.head)(path, (st.last)(rows.last()))
        }),
        ({
            let after = st.caches_after(mode, token, position, caches);
            &&& after.len() == caches.len()
            &&& forall|k: int|
                st.layers.len() <= k < caches.len() ==> #[trigger] after[k] == caches[k]
            &&& forall|k: int|
                0 <= k < st.layers.len() ==> #[trigger] after[k] == st.layers[k].pass(
                    mode,
                    rows[k],
                    seq![position],
                    Pass { held: nothing_held(), cache: caches[k] },
                ).cache
        }),
{
    assert(rows[0] =~= st.embedded(token));
    assert forall|k: int| 0 <= k <= st.layers.len() implies #[trigger] rows[k] == st.below(
        mode,
        token,
        position,
        caches,
        k as nat,
    ) by {
        lemma_rows(st, mode, token, position, caches, rows, k as nat);
    }
    assert(rows.last() == rows[st.layers.len() as int]);
}

proof fn lemma_rows<T>(
    st: Stack<T>,
    mode: Mode,
    token: u32,
    position: u32,
    caches: Seq<LayerRows<T>>,
    rows: Seq<Seq<T>>,
    n: nat,
)
    requires
        n <= st.layers.len(),
        rows.len() == st.layers.len() + 1,
        rows[0] == st.embedded(token),
        forall|k: int|
            0 <= k < st.layers.len() ==> rows[k + 1] == (#[trigger] st.layers[k]).pass(
                mode,
                rows[k],
                seq![position],
                Pass { held: nothing_held(), cache: caches[k] },
            ).held[Buffer::Resid],
    ensures
        rows[n as int] == st.below(mode, token, position, caches, n),
    decreases n,
{
    if n > 0 {
        lemma_rows(st, mode, token, position, caches, rows, (n - 1) as nat);
        let l = st.layers[n - 1];
        assert(rows[(n - 1) + 1] == l.pass(
            mode,
            rows[n - 1],
            seq![position],
            Pass { held: nothing_held(), cache: caches[n - 1] },
        ).held[Buffer::Resid]);
    }
}

/// A token after others stands at the position of how many there are, and meets
/// the caches that the others left; its logits are the answer to them all.
pub proof fn lemma_one_more_token<T>(
    st: Stack<T>,
    mode: Mode,
    tokens: Seq<u32>,
    token: u32,
    caches: Seq<LayerRows<T>>,
)
    requires
        tokens.len() <= 0xFFFF_FFFF,
    ensures
        st.fed(mode, Seq::empty(), caches) == caches,
        st.fed(mode, tokens.push(token), caches) == st.caches_after(
            mode,
            token,
            tokens.len() as u32,
            st.fed(mode, tokens, caches),
        ),
        st.answer(mode, tokens.push(token), caches) == st.logits(
            mode,
            token,
            tokens.len() as u32,
            st.fed(mode, tokens, caches),
        ),
{
    assert(tokens.push(token).drop_last() =~= tokens);
}

// ---- the next token -------------------------------------------------------------------

/// `t` is the first of the greatest numbers of `v`.
pub open spec fn first_greatest(v: Seq<u32>, t: u32) -> bool {
    &&& t < v.len()
    &&& forall|j: int| 0 <= j < v.len() ==> !f32_greater(#[trigger] v[j], v[t as int])
    &&& forall|j: int|
        0 <= j < t && (#[trigger] v[j]) % 0x8000_0000 <= 0x7F80_0000 ==> f32_greater(v[t as int], v[j])
}

/// Each token of the text that follows is the likeliest one after the tokens and
/// the text so far, the first of them where there are several. A model gives its
/// logits for some tokens, no more than there are token numbers, and none of them
/// is a NaN at the first place.
pub proof fn lemma_text_is_likeliest<T>(
    st: Stack<T>,
    mode: Mode,
    tokens: Seq<u32>,
    caches: Seq<LayerRows<T>>,
    left: nat,
    eos: Option<u32>,
    k: int,
)
    requires
        0 <= k < st.continuation(mode, tokens, caches, left, eos).len(),
        ({
            let text = st.continuation(mode, tokens, caches, left, eos);
            let logits = st.answer(mode, tokens + text.take(k), caches);
            0 < logits.len() <= 0x1_0000_0000 && logits[0] % 0x8000_0000 <= 0x7F80_0000
        }),
    ensures
        ({
            let text = st.continuation(mode, tokens, caches, left, eos);
            first_greatest(st.answer(mode, tokens + text.take(k), caches), text[k])
        }),
    decreases left,
{
    let text = st.continuation(mode, tokens, caches, left, eos);
    let logits = st.answer(mode, tokens + text.take(k), caches);
    let t = choice(st.answer(mode, tokens, caches));
    if k == 0 {
        assert(tokens + text.take(0) =~= tokens);
        lemma_argmax(logits);
        assert(text[0] == t);
        assert(is_argmax(logits, t as int));
    } else {
        let rest = st.continuation(mode, tokens.push(t), caches, (left - 1) as nat, eos);
        assert(text == seq![t] + rest);
        assert(tokens + text.take(k) =~= tokens.push(t) + rest.take(k - 1));
        lemma_text_is_likeliest(st, mode, tokens.push(t), caches, (left - 1) as nat, eos, k - 1);
        assert(text[k] == rest[k - 1]);
    }
}

/// Each token that greedy decoding gives is the likeliest one by the logits of the
/// token that was fed before it, the first of them where there are several.
pub proof fn lemma_greedy_is_likeliest(
    logits: spec_fn(nat) -> Seq<u32>,
    fed: nat,
    left: nat,
    eos: Option<u32>,
    k: nat,
)
    requires
        k < greedy(logits, fed, left, eos).len(),
        0 < logits(fed + k).len() <= 0x1_0000_0000,
        logits(fed + k)[0] % 0x8000_0000 <= 0x7F80_0000,
    ensures
        first_greatest(logits(fed + k), greedy(logits, fed, left, eos)[k as int]),
    decreases left,
{
    let text = greedy(logits, fed, left, eos);
    let t = choice(logits(fed));
    if k == 0 {
        lemma_argmax(logits(fed));
        assert(text[0] == t);
        assert(is_argmax(logits(fed), t as int));
    } else {
        let rest = greedy(logits, fed + 1, (left - 1) as nat, eos);
        assert(text == seq![t] + rest);
        lemma_greedy_is_likeliest(logits, fed + 1, (left - 1) as nat, eos, (k - 1) as nat);
        assert(text[k as int] == rest[k - 1]);
    }
}

} // verus!
