//! What a whole model computes, for any arithmetic: one token through every
//! layer, and the text that follows from always taking the likeliest token.

use crate::runtime::forward::{buckets_of, layer_plan, path_of, Buffer, Mode, Path, Weight};
use crate::runtime::generate::{choice, lemma_choice_in_range, low32};
use crate::runtime::kvcache::LayerRows;
use crate::runtime::layer::{nothing_held, Layer, Pass};
use crate::runtime::layer_laws::{
    lemma_decode_adds_a_row, lemma_kernels_keep_the_pass, lemma_room_makes_no_difference,
    multiplies_as, with_room,
};
use crate::runtime::timer::Bucket;
use vstd::prelude::*;

verus! {

/// A model: its layers, and the arithmetic before and after them.
#[verifier::reject_recursive_types(T)]
pub struct Stack<T> {
    pub layers: Seq<Layer<T>>,
    pub hidden: nat,
    /// The embedding rows of the tokens, as bit patterns.
    pub embeddings: Seq<u32>,
    /// The number that a bit pattern stands for.
    pub number: spec_fn(u32) -> T,
    /// A row, normalized after the last layer.
    pub last: spec_fn(Seq<T>) -> Seq<T>,
    /// The logits of a row, as bit patterns, by the path of the product.
    pub head: spec_fn(Path, Seq<T>) -> Seq<u32>,
    /// Whether the weights of the head are quantized.
    pub q8_head: bool,
}

impl<T> Stack<T> {
    /// The sizes of every layer fit the machine.
    pub open spec fn ok(self) -> bool {
        forall|i: int| 0 <= i < self.layers.len() ==> (#[trigger] self.layers[i]).ok()
    }

    /// There are caches for every layer, with room for `n` more tokens.
    pub open spec fn room(self, caches: Seq<LayerRows<T>>, n: nat) -> bool {
        &&& self.layers.len() <= caches.len()
        &&& forall|i: int|
            0 <= i < self.layers.len() ==> {
                &&& (#[trigger] caches[i]).kv_dim == self.layers[i].cfg.kv_size()
                &&& caches[i].len + n <= caches[i].max_seq
            }
    }

    /// What a token is to the first layer.
    pub open spec fn embedded(self, token: u32) -> Seq<T> {
        Seq::new(
            self.hidden,
            |i: int| (self.number)(self.embeddings[token * self.hidden + i]),
        )
    }

    /// What layer `n` is given when a token comes in.
    pub open spec fn below(
        self,
        mode: Mode,
        token: u32,
        position: u32,
        caches: Seq<LayerRows<T>>,
        n: nat,
    ) -> Seq<T>
        decreases n,
    {
        if n == 0 {
            self.embedded(token)
        } else {
            self.layers[n - 1].pass(
                mode,
                self.below(mode, token, position, caches, (n - 1) as nat),
                seq![position],
                Pass { held: nothing_held(), cache: caches[n - 1] },
            ).held[Buffer::Resid]
        }
    }

    /// What layer `i` makes of a token.
    pub open spec fn at(
        self,
        mode: Mode,
        token: u32,
        position: u32,
        caches: Seq<LayerRows<T>>,
        i: int,
    ) -> Pass<T> {
        self.layers[i].pass(
            mode,
            self.below(mode, token, position, caches, i as nat),
            seq![position],
            Pass { held: nothing_held(), cache: caches[i] },
        )
    }

    /// The caches after a token.
    pub open spec fn caches_after(
        self,
        mode: Mode,
        token: u32,
        position: u32,
        caches: Seq<LayerRows<T>>,
    ) -> Seq<LayerRows<T>> {
        Seq::new(
            caches.len(),
            |i: int|
                if i < self.layers.len() {
                    self.at(mode, token, position, caches, i).cache
                } else {
                    caches[i]
                },
        )
    }

    /// The logits of what follows a token.
    pub open spec fn logits(
        self,
        mode: Mode,
        token: u32,
        position: u32,
        caches: Seq<LayerRows<T>>,
    ) -> Seq<u32> {
        (self.head)(
            path_of(mode, self.q8_head, self.hidden),
            (self.last)(self.below(mode, token, position, caches, self.layers.len())),
        )
    }

    /// The caches after tokens at the positions from 0.
    pub open spec fn fed(
        self,
        mode: Mode,
        tokens: Seq<u32>,
        caches: Seq<LayerRows<T>>,
    ) -> Seq<LayerRows<T>>
        decreases tokens.len(),
    {
        if tokens.len() == 0 {
            caches
        } else {
            self.caches_after(
                mode,
                tokens.last(),
                low32((tokens.len() - 1) as nat),
                self.fed(mode, tokens.drop_last(), caches),
            )
        }
    }

    /// The logits of what follows tokens at the positions from 0.
    pub open spec fn answer(
        self,
        mode: Mode,
        tokens: Seq<u32>,
        caches: Seq<LayerRows<T>>,
    ) -> Seq<u32> {
        self.logits(
            mode,
            tokens.last(),
            low32((tokens.len() - 1) as nat),
            self.fed(mode, tokens.drop_last(), caches),
        )
    }

    /// The text that follows tokens: the likeliest token each time, up to and
    /// with the end of the text, `left` tokens at most.
    pub open spec fn continuation(
        self,
        mode: Mode,
        tokens: Seq<u32>,
        caches: Seq<LayerRows<T>>,
        left: nat,
        eos: Option<u32>,
    ) -> Seq<u32>
        decreases left,
    {
        if left == 0 {
            Seq::empty()
        } else {
            let t = choice(self.answer(mode, tokens, caches));
            if eos == Some(t) {
                seq![t]
            } else {
                seq![t] + self.continuation(
                    mode,
                    tokens.push(t),
                    caches,
                    (left - 1) as nat,
                    eos,
                )
            }
        }
    }

    /// Where the times of the first `n` layers are counted, in order.
    pub open spec fn layer_buckets(self, mode: Mode, n: nat) -> Seq<Bucket>
        decreases n,
    {
        if n == 0 {
            Seq::empty()
        } else {
            let l = self.layers[n - 1];
            self.layer_buckets(mode, (n - 1) as nat) + buckets_of(layer_plan(l.cfg, l.kinds, mode))
        }
    }

    /// Where the times of a token are counted, in order.
    pub open spec fn token_buckets(self, mode: Mode) -> Seq<Bucket> {
        seq![Bucket::Embed] + self.layer_buckets(mode, self.layers.len()) + seq![Bucket::FinalRms]
            + seq![Bucket::LmHeadMatmul]
    }

    /// Where the times of `n` tokens are counted, in order.
    pub open spec fn text_buckets(self, mode: Mode, n: nat) -> Seq<Bucket>
        decreases n,
    {
        if n == 0 {
            Seq::empty()
        } else {
            self.text_buckets(mode, (n - 1) as nat) + self.token_buckets(mode)
        }
    }

    /// Products give the same along every path.
    pub open spec fn paths_agree(self) -> bool {
        &&& forall|i: int, w: Weight, path: Path, r: Seq<T>|
            0 <= i < self.layers.len() ==> #[trigger] (self.layers[i].math.product)(w, path, r) == (
            self.layers[i].math.product)(w, Path::Naive, r)
        &&& forall|path: Path, r: Seq<T>| #[trigger]
            (self.head)(path, r) == (self.head)(Path::Naive, r)
    }
}

// ---- laws -----------------------------------------------------------------------------

/// A token takes one place in the cache of every layer.
pub proof fn lemma_token_takes_a_place<T>(
    st: Stack<T>,
    mode: Mode,
    token: u32,
    position: u32,
    caches: Seq<LayerRows<T>>,
    n: nat,
)
    requires
        st.ok(),
        !(mode is Prefill),
        st.room(caches, n),
        n > 0,
    ensures
        st.room(st.caches_after(mode, token, position, caches), (n - 1) as nat),
        forall|i: int|
            0 <= i < st.layers.len() ==> (#[trigger] st.caches_after(
                mode,
                token,
                position,
                caches,
            )[i]).len == caches[i].len + 1,
{
    let after = st.caches_after(mode, token, position, caches);
    assert forall|i: int| 0 <= i < st.layers.len() implies {
        &&& (#[trigger] after[i]).kv_dim == caches[i].kv_dim
        &&& after[i].max_seq == caches[i].max_seq
        &&& after[i].len == caches[i].len + 1
    } by {
        assert(st.layers[i].ok());
        lemma_decode_adds_a_row(
            st.layers[i],
            mode,
            st.below(mode, token, position, caches, i as nat),
            position,
            Pass { held: nothing_held(), cache: caches[i] },
        );
    }
}

/// Where native kernels multiply as the plain loops do, a token through the
/// model with kernels gives the logits and the caches that it gives without.
pub proof fn lemma_kernels_keep_the_answer<T>(
    st: Stack<T>,
    has_vnni: bool,
    token: u32,
    position: u32,
    caches: Seq<LayerRows<T>>,
)
    requires
        st.paths_agree(),
    ensures
        st.logits(Mode::DecodeJit { has_vnni }, token, position, caches) == st.logits(
            Mode::Decode,
            token,
            position,
            caches,
        ),
        st.caches_after(Mode::DecodeJit { has_vnni }, token, position, caches) == st.caches_after(
            Mode::Decode,
            token,
            position,
            caches,
        ),
{
    lemma_native_after(st, st, has_vnni, token, position, caches);
}

/// Where native kernels multiply as the plain loops do, the text that is
/// generated with kernels is the text that is generated without.
pub proof fn lemma_kernels_keep_the_text<T>(
    st: Stack<T>,
    has_vnni: bool,
    tokens: Seq<u32>,
    caches: Seq<LayerRows<T>>,
    left: nat,
    eos: Option<u32>,
)
    requires
        st.paths_agree(),
    ensures
        st.continuation(Mode::DecodeJit { has_vnni }, tokens, caches, left, eos)
            == st.continuation(Mode::Decode, tokens, caches, left, eos),
{
    lemma_native_text(st, st, has_vnni, tokens, caches, left, eos);
}

/// No more tokens are generated than were asked for, and only the last of them
/// can be the end of the text. Where there are fewer, it is.
pub proof fn lemma_text_ends<T>(
    st: Stack<T>,
    mode: Mode,
    tokens: Seq<u32>,
    caches: Seq<LayerRows<T>>,
    left: nat,
    eos: Option<u32>,
)
    ensures
        ({
            let c = st.continuation(mode, tokens, caches, left, eos);
            &&& c.len() <= left
            &&& forall|i: int| 0 <= i < c.len() - 1 ==> eos != Some(#[trigger] c[i])
            &&& c.len() < left ==> c.len() > 0 && eos == Some(c.last())
        }),
    decreases left,
{
    if left > 0 {
        let c = st.continuation(mode, tokens, caches, left, eos);
        let t = choice(st.answer(mode, tokens, caches));
        lemma_text_ends(st, mode, tokens.push(t), caches, (left - 1) as nat, eos);
        if eos != Some(t) {
            let rest = st.continuation(mode, tokens.push(t), caches, (left - 1) as nat, eos);
            assert forall|i: int| 0 <= i < c.len() - 1 implies eos != Some(#[trigger] c[i]) by {
                if i > 0 {
                    assert(c[i] == rest[i - 1]);
                }
            }
            if c.len() < left {
                assert(c.last() == rest.last());
            }
        }
    }
}

/// A text that has not ended goes on where it was left: to generate some tokens
/// and then some more, after what there is then, is to generate them at once.
pub proof fn lemma_text_goes_on<T>(
    st: Stack<T>,
    mode: Mode,
    tokens: Seq<u32>,
    caches: Seq<LayerRows<T>>,
    some: nat,
    more: nat,
    eos: Option<u32>,
)
    ensures
        ({
            let c = st.continuation(mode, tokens, caches, some, eos);
            let all = st.continuation(mode, tokens, caches, some + more, eos);
            if c.len() > 0 && eos == Some(c.last()) {
                all == c
            } else {
                all == c + st.continuation(mode, tokens + c, caches, more, eos)
            }
        }),
    decreases some,
{
    let c = st.continuation(mode, tokens, caches, some, eos);
    if some == 0 {
        assert(tokens + c =~= tokens);
        assert(c + st.continuation(mode, tokens, caches, more, eos) =~= st.continuation(
            mode,
            tokens,
            caches,
            more,
            eos,
        ));
    } else {
        let t = choice(st.answer(mode, tokens, caches));
        if eos != Some(t) {
            let next = tokens.push(t);
            lemma_text_goes_on(st, mode, next, caches, (some - 1) as nat, more, eos);
            let rest = st.continuation(mode, next, caches, (some - 1) as nat, eos);
            assert(c =~= seq![t] + rest);
            assert(tokens + c =~= next + rest);
            if rest.len() > 0 {
                assert(c.last() == rest.last());
            } else {
                assert(c.last() == t);
            }
            let tail = st.continuation(mode, next + rest, caches, more, eos);
            assert(seq![t] + (rest + tail) =~= (seq![t] + rest) + tail);
        } else {
            assert(c =~= seq![t]);
            assert(c.last() == t);
        }
    }
}

/// Where every row has logits for a vocabulary of `vocab` tokens, only tokens of
/// the vocabulary are generated.
pub proof fn lemma_text_in_vocabulary<T>(
    st: Stack<T>,
    mode: Mode,
    tokens: Seq<u32>,
    caches: Seq<LayerRows<T>>,
    left: nat,
    eos: Option<u32>,
    vocab: nat,
)
    requires
        vocab > 0,
        forall|path: Path, r: Seq<T>| (#[trigger] (st.head)(path, r)).len() == vocab,
    ensures
        forall|i: int|
            0 <= i < st.continuation(mode, tokens, caches, left, eos).len() ==> (
            #[trigger] st.continuation(mode, tokens, caches, left, eos)[i]) < vocab,
    decreases left,
{
    if left > 0 {
        let logits = st.answer(mode, tokens, caches);
        let t = choice(logits);
        lemma_choice_in_range(logits);
        lemma_text_in_vocabulary(st, mode, tokens.push(t), caches, (left - 1) as nat, eos, vocab);
        let c = st.continuation(mode, tokens, caches, left, eos);
        let rest = st.continuation(mode, tokens.push(t), caches, (left - 1) as nat, eos);
        assert forall|i: int| 0 <= i < c.len() implies (#[trigger] c[i]) < vocab by {
            if i > 0 {
                assert(c[i] == rest[i - 1]);
            }
        }
    }
}

/// The same rows in caches with room for `max_seq`.
pub open spec fn all_with_room<T>(caches: Seq<LayerRows<T>>, max_seq: nat) -> Seq<LayerRows<T>> {
    Seq::new(caches.len(), |i: int| with_room(caches[i], max_seq))
}

proof fn lemma_room_below<T>(
    st: Stack<T>,
    mode: Mode,
    token: u32,
    position: u32,
    caches: Seq<LayerRows<T>>,
    max_seq: nat,
    n: nat,
)
    requires
        n <= st.layers.len() <= caches.len(),
    ensures
        st.below(mode, token, position, all_with_room(caches, max_seq), n) == st.below(
            mode,
            token,
            position,
            caches,
            n,
        ),
    decreases n,
{
    if n > 0 {
        let m = (n - 1) as nat;
        lemma_room_below(st, mode, token, position, caches, max_seq, m);
        lemma_room_makes_no_difference(
            st.layers[m as int],
            mode,
            st.below(mode, token, position, caches, m),
            seq![position],
            Pass { held: nothing_held(), cache: caches[m as int] },
            max_seq,
        );
    }
}

proof fn lemma_room_after<T>(
    st: Stack<T>,
    mode: Mode,
    token: u32,
    position: u32,
    caches: Seq<LayerRows<T>>,
    max_seq: nat,
)
    requires
        st.layers.len() <= caches.len(),
    ensures
        st.caches_after(mode, token, position, all_with_room(caches, max_seq)) == all_with_room(
            st.caches_after(mode, token, position, caches),
            max_seq,
        ),
{
    let a = st.caches_after(mode, token, position, all_with_room(caches, max_seq));
    let b = all_with_room(st.caches_after(mode, token, position, caches), max_seq);
    assert forall|i: int| 0 <= i < caches.len() implies a[i] == b[i] by {
        if i < st.layers.len() {
            lemma_room_below(st, mode, token, position, caches, max_seq, i as nat);
            lemma_room_makes_no_difference(
                st.layers[i],
                mode,
                st.below(mode, token, position, caches, i as nat),
                seq![position],
                Pass { held: nothing_held(), cache: caches[i] },
                max_seq,
            );
        }
    }
    assert(a =~= b);
}

proof fn lemma_room_fed<T>(
    st: Stack<T>,
    mode: Mode,
    tokens: Seq<u32>,
    caches: Seq<LayerRows<T>>,
    max_seq: nat,
)
    requires
        st.layers.len() <= caches.len(),
    ensures
        st.fed(mode, tokens, caches).len() == caches.len(),
        st.fed(mode, tokens, all_with_room(caches, max_seq)) == all_with_room(
            st.fed(mode, tokens, caches),
            max_seq,
        ),
    decreases tokens.len(),
{
    if tokens.len() > 0 {
        lemma_room_fed(st, mode, tokens.drop_last(), caches, max_seq);
        lemma_room_after(
            st,
            mode,
            tokens.last(),
            low32((tokens.len() - 1) as nat),
            st.fed(mode, tokens.drop_last(), caches),
            max_seq,
        );
    }
}

/// How much room there is in the caches makes no difference to the text.
pub proof fn lemma_room_keeps_the_text<T>(
    st: Stack<T>,
    mode: Mode,
    tokens: Seq<u32>,
    caches: Seq<LayerRows<T>>,
    max_seq: nat,
    left: nat,
    eos: Option<u32>,
)
    requires
        st.layers.len() <= caches.len(),
    ensures
        st.continuation(mode, tokens, all_with_room(caches, max_seq), left, eos)
            == st.continuation(mode, tokens, caches, left, eos),
    decreases left,
{
    if left > 0 {
        lemma_room_fed(st, mode, tokens.drop_last(), caches, max_seq);
        lemma_room_below(
            st,
            mode,
            tokens.last(),
            low32((tokens.len() - 1) as nat),
            st.fed(mode, tokens.drop_last(), caches),
            max_seq,
            st.layers.len(),
        );
        let t = choice(st.answer(mode, tokens, caches));
        lemma_room_keeps_the_text(
            st,
            mode,
            tokens.push(t),
            caches,
            max_seq,
            (left - 1) as nat,
            eos,
        );
    }
}

/// To ask for fewer tokens is to get the start of the same text.
pub proof fn lemma_text_starts_alike<T>(
    st: Stack<T>,
    mode: Mode,
    tokens: Seq<u32>,
    caches: Seq<LayerRows<T>>,
    some: nat,
    all: nat,
    eos: Option<u32>,
)
    requires
        some <= all,
    ensures
        ({
            let a = st.continuation(mode, tokens, caches, all, eos);
            let n = if some <= a.len() {
                some as int
            } else {
                a.len() as int
            };
            st.continuation(mode, tokens, caches, some, eos) == a.take(n)
        }),
{
    let a = st.continuation(mode, tokens, caches, all, eos);
    let c = st.continuation(mode, tokens, caches, some, eos);
    lemma_text_goes_on(st, mode, tokens, caches, some, (all - some) as nat, eos);
    lemma_text_ends(st, mode, tokens, caches, some, eos);
    let n = if some <= a.len() {
        some as int
    } else {
        a.len() as int
    };
    assert(c =~= a.take(n));
}

/// The native stack has the layers of the plain one, and multiplies along every
/// path as the plain one does in its loops; the rest of the arithmetic is the
/// same.
pub open spec fn stack_multiplies_as<T>(native: Stack<T>, plain: Stack<T>) -> bool {
    &&& native.layers.len() == plain.layers.len()
    &&& forall|i: int|
        0 <= i < plain.layers.len() ==> {
            &&& (#[trigger] native.layers[i]).cfg == plain.layers[i].cfg
            &&& native.layers[i].kinds == plain.layers[i].kinds
            &&& multiplies_as(native.layers[i].math, plain.layers[i].math)
        }
    &&& native.hidden == plain.hidden
    &&& native.embeddings == plain.embeddings
    &&& native.number == plain.number
    &&& native.last == plain.last
    &&& forall|path: Path, r: Seq<T>| #[trigger]
        (native.head)(path, r) == (plain.head)(Path::Naive, r)
}

proof fn lemma_native_below<T>(
    plain: Stack<T>,
    native: Stack<T>,
    has_vnni: bool,
    token: u32,
    position: u32,
    caches: Seq<LayerRows<T>>,
    n: nat,
)
    requires
        stack_multiplies_as(native, plain),
        n <= plain.layers.len(),
    ensures
        native.below(Mode::DecodeJit { has_vnni }, token, position, caches, n) == plain.below(
            Mode::Decode,
            token,
            position,
            caches,
            n,
        ),
    decreases n,
{
    if n == 0 {
        assert(native.embedded(token) =~= plain.embedded(token));
    } else {
        let m = (n - 1) as nat;
        lemma_native_below(plain, native, has_vnni, token, position, caches, m);
        assert(native.layers[m as int].cfg == plain.layers[m as int].cfg);
        lemma_kernels_keep_the_pass(
            plain.layers[m as int],
            native.layers[m as int],
            has_vnni,
            plain.below(Mode::Decode, token, position, caches, m),
            seq![position],
            Pass { held: nothing_held(), cache: caches[m as int] },
        );
    }
}

proof fn lemma_native_after<T>(
    plain: Stack<T>,
    native: Stack<T>,
    has_vnni: bool,
    token: u32,
    position: u32,
    caches: Seq<LayerRows<T>>,
)
    requires
        stack_multiplies_as(native, plain),
    ensures
        native.caches_after(Mode::DecodeJit { has_vnni }, token, position, caches)
            == plain.caches_after(Mode::Decode, token, position, caches),
        native.logits(Mode::DecodeJit { has_vnni }, token, position, caches) == plain.logits(
            Mode::Decode,
            token,
            position,
            caches,
        ),
{
    let a = native.caches_after(Mode::DecodeJit { has_vnni }, token, position, caches);
    let b = plain.caches_after(Mode::Decode, token, position, caches);
    assert forall|i: int| 0 <= i < caches.len() implies a[i] == b[i] by {
        if i < plain.layers.len() {
            lemma_native_below(plain, native, has_vnni, token, position, caches, i as nat);
            assert(native.layers[i].cfg == plain.layers[i].cfg);
            lemma_kernels_keep_the_pass(
                plain.layers[i],
                native.layers[i],
                has_vnni,
                plain.below(Mode::Decode, token, position, caches, i as nat),
                seq![position],
                Pass { held: nothing_held(), cache: caches[i] },
            );
        }
    }
    assert(a =~= b);
    lemma_native_below(plain, native, has_vnni, token, position, caches, plain.layers.len());
}

proof fn lemma_native_fed<T>(
    plain: Stack<T>,
    native: Stack<T>,
    has_vnni: bool,
    tokens: Seq<u32>,
    caches: Seq<LayerRows<T>>,
)
    requires
        stack_multiplies_as(native, plain),
    ensures
        native.fed(Mode::DecodeJit { has_vnni }, tokens, caches) == plain.fed(
            Mode::Decode,
            tokens,
            caches,
        ),
    decreases tokens.len(),
{
    if tokens.len() > 0 {
        lemma_native_fed(plain, native, has_vnni, tokens.drop_last(), caches);
        lemma_native_after(
            plain,
            native,
            has_vnni,
            tokens.last(),
            low32((tokens.len() - 1) as nat),
            plain.fed(Mode::Decode, tokens.drop_last(), caches),
        );
    }
}

/// A model that is run with native kernels generates the text of one that is run
/// with plain loops, where the kernels of the one multiply as the loops of the
/// other.
pub proof fn lemma_native_text<T>(
    plain: Stack<T>,
    native: Stack<T>,
    has_vnni: bool,
    tokens: Seq<u32>,
    caches: Seq<LayerRows<T>>,
    left: nat,
    eos: Option<u32>,
)
    requires
        stack_multiplies_as(native, plain),
    ensures
        native.continuation(Mode::DecodeJit { has_vnni }, tokens, caches, left, eos)
            == plain.continuation(Mode::Decode, tokens, caches, left, eos),
    decreases left,
{
    if left > 0 {
        lemma_native_fed(plain, native, has_vnni, tokens.drop_last(), caches);
        lemma_native_after(
            plain,
            native,
            has_vnni,
            tokens.last(),
            low32((tokens.len() - 1) as nat),
            plain.fed(Mode::Decode, tokens.drop_last(), caches),
        );
        let t = choice(plain.answer(Mode::Decode, tokens, caches));
        lemma_native_text(
            plain,
            native,
            has_vnni,
            tokens.push(t),
            caches,
            (left - 1) as nat,
            eos,
        );
    }
}

} // verus!
