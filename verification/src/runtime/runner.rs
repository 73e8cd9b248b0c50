//! A model with its arithmetic: one token through every layer, and greedy
//! generation.

use crate::runtime::forward::{
    buckets_of, kinds_of, kinds_view, layer_plan, lm_head_projection, path_of, Mode, Path, Weight,
};
use crate::runtime::generate::{choice, lemma_choice_in_range, Generation, Progress, Step};
use crate::runtime::kvcache::{KvCache, LayerKvCache, LayerRows};
use crate::runtime::layer_laws::multiplies_as;
use crate::runtime::model::{Model, ModelConfig};
use crate::runtime::numerics::Numerics;
use crate::runtime::pass::sizes_ok;
use crate::runtime::stack::{
    all_with_room, lemma_native_text, lemma_room_keeps_the_text, lemma_text_ends,
    lemma_text_starts_alike, lemma_token_takes_a_place, stack_multiplies_as, Stack,
};
use crate::runtime::timer::{
    lemma_timed_after, lemma_timed_nothing, lemma_timed_once, timed, timed_anew, Bucket, StepTimer,
};
use vstd::prelude::*;

verus! {

/// A model and the arithmetic that it is run with.
pub struct Runner<'a, T, N, P, B, R, S, H, M, A, G, E, F, K> {
    pub model: &'a Model,
    /// The arithmetic of each layer.
    pub layers: Vec<Numerics<T, N, P, B, R, S, H, M, A, G>>,
    /// The number that a bit pattern stands for.
    pub number: E,
    /// A row, normalized after the last layer.
    pub last: F,
    /// The logits of a row, as bit patterns, by the path of the product.
    pub head: K,
}

/// What the caches hold.
pub open spec fn rows_of<T>(caches: Seq<LayerKvCache<T>>) -> Seq<LayerRows<T>> {
    Seq::new(caches.len(), |i: int| caches[i]@)
}

/// Caches for `n_layers` layers, without rows.
pub open spec fn fresh<T>(n_layers: nat, max_seq: nat, kv_dim: nat) -> Seq<LayerRows<T>> {
    Seq::new(n_layers, |i: int| LayerRows::<T>::empty(max_seq, kv_dim))
}

/// How many tokens the model is fed for a text: all of them, but for the end.
pub open spec fn fed_for(prompt: nat, out: Seq<u32>, eos: Option<u32>) -> nat {
    if out.len() > 0 && eos == Some(out.last()) {
        (prompt + out.len() - 1) as nat
    } else {
        prompt + out.len()
    }
}

/// What holds of every text: no more tokens than were asked for, all of them
/// tokens of the vocabulary, and the end of the text, if at all, as the last
/// one. Where there are fewer, the text has come to its end.
pub open spec fn proper(out: Seq<u32>, max_new: nat, config: ModelConfig) -> bool {
    let eos = config.eos_token_id;
    &&& out.len() <= max_new
    &&& forall|i: int| 0 <= i < out.len() ==> (#[trigger] out[i]) < config.vocab_size
    &&& forall|i: int| 0 <= i < out.len() - 1 ==> eos != Some(#[trigger] out[i])
    &&& out.len() < max_new ==> out.len() > 0 && eos == Some(out.last())
}

/// A generation has come to `g`: the caches and the logits are those of what was
/// fed, and what was generated is the start of what the model goes on with.
spec fn under_way<T>(
    st: Stack<T>,
    mode: Mode,
    empty: Seq<LayerRows<T>>,
    g: Progress,
    logits: Seq<u32>,
    caches: Seq<LayerRows<T>>,
) -> bool {
    let tokens = g.prompt + g.out;
    let goal = st.continuation(mode, g.prompt, empty, g.max_new, g.eos);
    let left = (g.max_new - g.out.len()) as nat;
    &&& g.ok()
    &&& g.fed <= tokens.len()
    &&& caches == st.fed(mode, tokens.take(g.fed as int), empty)
    &&& g.fed > 0 ==> logits == st.answer(mode, tokens.take(g.fed as int), empty)
    &&& g.done ==> g.fed >= g.prompt.len() && g.out == goal
    &&& g.fed >= g.prompt.len() ==> g.fed == fed_for(g.prompt.len(), g.out, g.eos)
    &&& g.fed >= g.prompt.len() && !g.done ==> g.out + st.continuation(
        mode,
        tokens,
        empty,
        left,
        g.eos,
    ) == goal
}

/// A generation starts with nothing fed.
proof fn lemma_starts<T>(
    st: Stack<T>,
    mode: Mode,
    empty: Seq<LayerRows<T>>,
    prompt: Seq<u32>,
    max_new: nat,
    eos: Option<u32>,
)
    requires
        prompt.len() > 0,
    ensures
        under_way(st, mode, empty, Progress::start(prompt, max_new, eos), seq![], empty),
{
}

/// A step of a generation that ends it, or asks for the next token to be fed.
proof fn lemma_goes_on<T>(
    st: Stack<T>,
    mode: Mode,
    empty: Seq<LayerRows<T>>,
    g: Progress,
    logits: Seq<u32>,
    caches: Seq<LayerRows<T>>,
)
    requires
        under_way(st, mode, empty, g, logits, caches),
        !g.done,
    ensures
        ({
            let (h, step) = g.after(choice(logits));
            match step {
                Step::Feed { token, position } => {
                    &&& !h.done
                    &&& h.fed == g.fed + 1
                    &&& g.fed < g.prompt.len() ==> token == g.prompt[g.fed as int]
                    &&& g.fed >= g.prompt.len() ==> token == choice(logits)
                    &&& under_way(
                        st,
                        mode,
                        empty,
                        h,
                        st.logits(mode, token, position, caches),
                        st.caches_after(mode, token, position, caches),
                    )
                },
                Step::Done => h.done && h.fed == g.fed && under_way(
                    st,
                    mode,
                    empty,
                    h,
                    logits,
                    caches,
                ),
            }
        }),
{
    let (h, step) = g.after(choice(logits));
    let tokens = g.prompt + g.out;
    let later = h.prompt + h.out;
    let t = choice(logits);
    assert(later.take(g.fed as int) =~= tokens.take(g.fed as int));
    match step {
        Step::Feed { token, position } => {
            let all = later.take(h.fed as int);
            assert(all.drop_last() =~= later.take(g.fed as int));
            assert(all.last() == token);
        },
        Step::Done => {},
    }
    if g.fed >= g.prompt.len() {
        assert(tokens.take(g.fed as int) =~= tokens);
        if g.out.len() < g.max_new {
            let left = (g.max_new - g.out.len()) as nat;
            assert(h.out =~= g.out + seq![t]);
            if g.eos != Some(t) {
                assert(later =~= tokens.push(t));
                let rest = st.continuation(mode, later, empty, (left - 1) as nat, g.eos);
                assert(g.out + (seq![t] + rest) =~= h.out + rest);
            }
        } else {
            assert(g.out + Seq::<u32>::empty() =~= g.out);
        }
    } else if h.fed == h.prompt.len() {
        assert(later =~= g.prompt);
        let goal = st.continuation(mode, g.prompt, empty, g.max_new, g.eos);
        assert(h.out + goal =~= goal);
    }
}

impl<'a, T, N, P, B, R, S, H, M, A, G, E, F, K> Runner<
    'a,
    T,
    N,
    P,
    B,
    R,
    S,
    H,
    M,
    A,
    G,
    E,
    F,
    K,
> where
    T: Copy + Default,
    N: Fn(bool, &[T]) -> Vec<T>,
    P: Fn(Weight, Path, &[T]) -> Vec<T>,
    B: Fn(Weight, &[T]) -> Vec<T>,
    R: Fn(u32, usize, T, T) -> (T, T),
    S: Fn(&[T], &[T]) -> T,
    H: Fn(&[T]) -> Vec<T>,
    M: Fn(&[T], &[T]) -> T,
    A: Fn(T, T) -> T,
    G: Fn(T, T) -> T,
    E: Fn(u32) -> T,
    F: Fn(&[T]) -> Vec<T>,
    K: Fn(Path, &[T]) -> Vec<u32>,
 {
    /// Normalizing after the last layer can give `y`.
    pub open spec fn last_gives(self, r: Seq<T>, y: Seq<T>) -> bool {
        exists|s: &[T], v: Vec<T>| s@ == r && v@ == y && #[trigger] call_ensures(self.last, (s,), v)
    }

    /// The logits can be `y`.
    pub open spec fn head_gives(self, path: Path, r: Seq<T>, y: Seq<u32>) -> bool {
        exists|s: &[T], v: Vec<u32>|
            s@ == r && v@ == y && #[trigger] call_ensures(self.head, (path, s), v)
    }

    /// What the model computes.
    pub open spec fn stack(self) -> Stack<T> {
        Stack {
            layers: Seq::new(
                self.layers@.len(),
                |i: int|
                    self.layers@[i].layer(
                        self.model.config.layer,
                        kinds_view(self.model.layers@[i]),
                    ),
            ),
            hidden: self.model.config.layer.hidden as nat,
            embeddings: self.model.token_embeddings@,
            number: |b: u32| choose|y: T| #[trigger] call_ensures(self.number, (b,), y),
            last: |r: Seq<T>| choose|y: Seq<T>| #[trigger] self.last_gives(r, y),
            head: |path: Path, r: Seq<T>|
                choose|y: Seq<u32>| #[trigger] self.head_gives(path, r, y),
            q8_head: self.model.lm_head_w is Q8,
        }
    }

    /// The functions before and after the layers take rows of the model's size,
    /// give rows of that size and logits for the vocabulary, and give the same
    /// for the same numbers.
    pub open spec fn ends_ok(self) -> bool {
        let h = self.model.config.layer.hidden;
        &&& forall|b: u32| #[trigger] call_requires(self.number, (b,))
        &&& forall|b: u32, y: T, z: T| #[trigger]
            call_ensures(self.number, (b,), y) && #[trigger] call_ensures(self.number, (b,), z)
                ==> y == z
        &&& forall|s: &[T]| s@.len() == h ==> #[trigger] call_requires(self.last, (s,))
        &&& forall|s: &[T], v: Vec<T>|
            s@.len() == h && #[trigger] call_ensures(self.last, (s,), v) ==> v@.len() == h
        &&& forall|s: &[T], t: &[T], v: Vec<T>, u: Vec<T>|
            s@ == t@ && #[trigger] call_ensures(self.last, (s,), v) && #[trigger] call_ensures(
                self.last,
                (t,),
                u,
            ) ==> v@ == u@
        &&& forall|path: Path, s: &[T]|
            s@.len() == h ==> #[trigger] call_requires(self.head, (path, s))
        &&& forall|path: Path, s: &[T], v: Vec<u32>|
            s@.len() == h && #[trigger] call_ensures(self.head, (path, s), v) ==> v@.len()
                == self.model.config.vocab_size
        &&& forall|path: Path, s: &[T], t: &[T], v: Vec<u32>, u: Vec<u32>|
            s@ == t@ && #[trigger] call_ensures(self.head, (path, s), v)
                && #[trigger] call_ensures(self.head, (path, t), u) ==> v@ == u@
    }

    /// The arithmetic fits the model.
    pub open spec fn ok(self) -> bool {
        &&& sizes_ok(self.model.config.layer, 1)
        &&& self.layers@.len() == self.model.layers@.len()
        &&& self.layers@.len() <= self.model.config.n_layers
        &&& forall|i: int|
            0 <= i < self.layers@.len() ==> (#[trigger] self.layers@[i]).ok(
                self.model.config.layer,
            )
        &&& self.ends_ok()
    }

    /// The model has an embedding for a token.
    pub open spec fn knows(self, token: u32) -> bool {
        (token + 1) * self.model.config.layer.hidden <= self.model.token_embeddings@.len()
    }

    /// The model has a cache for every layer, and room for `n` more tokens.
    pub open spec fn ready(self, caches: KvCache<T>, n: nat) -> bool {
        &&& caches.wf()
        &&& caches@.len() == self.model.config.n_layers
        &&& self.stack().room(rows_of(caches@), n)
    }

    proof fn lemma_stack_ok(self)
        requires
            self.ok(),
        ensures
            self.stack().ok(),
    {
        let st = self.stack();
        assert forall|i: int| 0 <= i < st.layers.len() implies (#[trigger] st.layers[i]).ok() by {
            assert(st.layers[i].cfg == self.model.config.layer);
        }
    }

    /// What a token is to the first layer.
    fn embed(&self, token: u32) -> (x: Vec<T>)
        requires
            self.ok(),
            self.knows(token),
        ensures
            x@ == self.stack().embedded(token),
            x@.len() == self.model.config.layer.hidden,
    {
        let bits = self.model.embed_token(token);
        let ghost st = self.stack();
        proof {
            let (t, h) = (token as int, self.model.config.layer.hidden as int);
            assert((t + 1) * h == t * h + h && t * h >= 0) by (nonlinear_arith)
                requires
                    t >= 0,
                    h >= 0,
            ;
            assert(bits@ =~= self.model.token_embeddings@.subrange(t * h, t * h + h));
        }
        let mut x: Vec<T> = Vec::new();
        let mut i: usize = 0;
        while i < bits.len()
            invariant
                i <= bits@.len(),
                i == x@.len(),
                self.ok(),
                st == self.stack(),
                forall|j: int| 0 <= j < i ==> #[trigger] x@[j] == (st.number)(bits@[j]),
            decreases bits@.len() - i,
        {
            let y = (self.number)(bits[i]);
            assert(y == (st.number)(bits@[i as int]));
            x.push(y);
            i = i + 1;
        }
        assert(x@ =~= st.embedded(token));
        x
    }

    /// A row, normalized after the last layer.
    fn last_row(&self, x: &[T]) -> (y: Vec<T>)
        requires
            self.ok(),
            x@.len() == self.model.config.layer.hidden,
        ensures
            y@ == (self.stack().last)(x@),
            y@.len() == self.model.config.layer.hidden,
    {
        let y = (self.last)(x);
        proof {
            assert(self.last_gives(x@, y@));
            let z = (self.stack().last)(x@);
            assert(self.last_gives(x@, z));
        }
        y
    }

    /// The logits of a row.
    fn logits_of(&self, mode: Mode, x: &[T]) -> (y: Vec<u32>)
        requires
            self.ok(),
            x@.len() == self.model.config.layer.hidden,
        ensures
            ({
                let st = self.stack();
                y@ == (st.head)(path_of(mode, st.q8_head, st.hidden), x@)
            }),
            y@.len() == self.model.config.vocab_size,
    {
        let c = &self.model.config;
        let p = lm_head_projection(c.hidden(), c.vocab_size, &self.model.lm_head_w, mode);
        let y = (self.head)(p.path, x);
        proof {
            assert(self.head_gives(p.path, x@, y@));
            let z = (self.stack().head)(p.path, x@);
            assert(self.head_gives(p.path, x@, z));
        }
        y
    }

    /// One token through every layer.
    fn decode(&self, mode: Mode, token: u32, position: u32, cache: &mut KvCache<T>) -> (y: Vec<u32>)
        requires
            self.ok(),
            self.knows(token),
            self.ready(*old(cache), 1),
            !(mode is Prefill),
        ensures
            y@ == self.stack().logits(mode, token, position, rows_of(old(cache)@)),
            y@.len() == self.model.config.vocab_size,
            final(cache).wf(),
            rows_of(final(cache)@) == self.stack().caches_after(
                mode,
                token,
                position,
                rows_of(old(cache)@),
            ),
    {
        let ghost st = self.stack();
        let ghost before = rows_of(cache@);
        let at = [position];
        assert(at@ =~= seq![position]);
        let mut x = self.embed(token);
        let mut i: usize = 0;
        while i < self.layers.len()
            invariant
                i <= self.layers@.len(),
                self.ok(),
                st == self.stack(),
                !(mode is Prefill),
                at@ == seq![position],
                cache.wf(),
                cache@.len() == before.len(),
                st.room(before, 1),
                forall|j: int|
                    0 <= j < i ==> (#[trigger] cache@[j])@ == st.at(
                        mode,
                        token,
                        position,
                        before,
                        j,
                    ).cache,
                forall|j: int| i <= j < before.len() ==> (#[trigger] cache@[j])@ == before[j],
                x@ == st.below(mode, token, position, before, i as nat),
                x@.len() == self.model.config.layer.hidden,
            decreases self.layers@.len() - i,
        {
            let ghost caches = cache@;
            let kinds = kinds_of(&self.model.layers[i]);
            assert(caches[i as int].wf() && caches[i as int]@ == before[i as int]);
            let c = cache.layer_mut(i);
            x = self.layers[i].run(&self.model.config.layer, kinds, mode, x.as_slice(), &at, c);
            assert(st.layers[i as int] == self.layers@[i as int].layer(
                self.model.config.layer,
                kinds,
            ));
            assert forall|j: int| 0 <= j < before.len() implies (#[trigger] cache@[j]).wf() by {
                if j != i {
                    assert(cache@[j] == caches[j]);
                }
            }
            assert forall|j: int| 0 <= j < before.len() && j != i implies #[trigger] cache@[j]
                == caches[j] by {}
            i = i + 1;
        }
        let x_norm = self.last_row(x.as_slice());
        assert(rows_of(cache@) =~= st.caches_after(mode, token, position, before));
        self.logits_of(mode, x_norm.as_slice())
    }

    /// One token through every layer, to logits over the vocabulary.
    pub fn forward_decode(&self, token: u32, position: u32, cache: &mut KvCache<T>) -> (y: Vec<u32>)
        requires
            self.ok(),
            self.knows(token),
            self.ready(*old(cache), 1),
        ensures
            y@ == self.stack().logits(Mode::Decode, token, position, rows_of(old(cache)@)),
            y@.len() == self.model.config.vocab_size,
            final(cache).wf(),
            rows_of(final(cache)@) == self.stack().caches_after(
                Mode::Decode,
                token,
                position,
                rows_of(old(cache)@),
            ),
    {
        self.decode(Mode::Decode, token, position, cache)
    }

    /// The same, with native kernels for the products.
    pub fn forward_decode_jit(
        &self,
        token: u32,
        position: u32,
        cache: &mut KvCache<T>,
        has_vnni: bool,
    ) -> (y: Vec<u32>)
        requires
            self.ok(),
            self.knows(token),
            self.ready(*old(cache), 1),
        ensures
            ({
                let mode = Mode::DecodeJit { has_vnni };
                &&& y@ == self.stack().logits(mode, token, position, rows_of(old(cache)@))
                &&& rows_of(final(cache)@) == self.stack().caches_after(
                    mode,
                    token,
                    position,
                    rows_of(old(cache)@),
                )
            }),
            y@.len() == self.model.config.vocab_size,
            final(cache).wf(),
    {
        self.decode(Mode::DecodeJit { has_vnni }, token, position, cache)
    }

    /// The same, with the time of each step counted where it belongs. `clock`
    /// tells the nanoseconds since some moment; what it says makes no difference
    /// to what is computed.
    pub fn forward_decode_jit_timed<C: Fn() -> u64>(
        &self,
        token: u32,
        position: u32,
        cache: &mut KvCache<T>,
        has_vnni: bool,
        clock: &C,
        timer: &mut StepTimer,
    ) -> (y: Vec<u32>)
        requires
            self.ok(),
            self.knows(token),
            self.ready(*old(cache), 1),
            call_requires(clock, ()),
        ensures
            ({
                let mode = Mode::DecodeJit { has_vnni };
                &&& y@ == self.stack().logits(mode, token, position, rows_of(old(cache)@))
                &&& rows_of(final(cache)@) == self.stack().caches_after(
                    mode,
                    token,
                    position,
                    rows_of(old(cache)@),
                )
                &&& exists|r: Seq<u64>| #[trigger]
                    timed(*clock, r, self.stack().token_buckets(mode), *old(timer), *final(timer))
            }),
            y@.len() == self.model.config.vocab_size,
            final(cache).wf(),
    {
        let mode = Mode::DecodeJit { has_vnni };
        let ghost st = self.stack();
        let ghost before = rows_of(cache@);
        let ghost first = *timer;
        let start: u64 = clock();
        let mut x = self.embed(token);
        let end: u64 = clock();
        timer.count(Bucket::Embed, start, end);
        let ghost mut readings: Seq<u64> = seq![start, end];
        proof {
            lemma_timed_once(*clock, start, end, Bucket::Embed, first, *timer);
            assert(seq![Bucket::Embed] + st.layer_buckets(mode, 0) =~= seq![Bucket::Embed]);
        }
        let mut i: usize = 0;
        while i < self.layers.len()
            invariant
                i <= self.layers@.len(),
                self.ok(),
                st == self.stack(),
                mode == (Mode::DecodeJit { has_vnni }),
                call_requires(clock, ()),
                cache.wf(),
                cache@.len() == before.len(),
                st.room(before, 1),
                forall|j: int|
                    0 <= j < i ==> (#[trigger] cache@[j])@ == st.at(
                        mode,
                        token,
                        position,
                        before,
                        j,
                    ).cache,
                forall|j: int| i <= j < before.len() ==> (#[trigger] cache@[j])@ == before[j],
                x@ == st.below(mode, token, position, before, i as nat),
                x@.len() == self.model.config.layer.hidden,
                timed(
                    *clock,
                    readings,
                    seq![Bucket::Embed] + st.layer_buckets(mode, i as nat),
                    first,
                    *timer,
                ),
            decreases self.layers@.len() - i,
        {
            let ghost caches = cache@;
            let ghost counted = *timer;
            let kinds = kinds_of(&self.model.layers[i]);
            assert(caches[i as int].wf() && caches[i as int]@ == before[i as int]);
            let c = cache.layer_mut(i);
            x = self.layers[i].forward_layer_decode_jit_timed(
                x.as_slice(),
                position,
                c,
                &self.model.config.layer,
                kinds,
                has_vnni,
                clock,
                timer,
            );
            assert(st.layers[i as int] == self.layers@[i as int].layer(
                self.model.config.layer,
                kinds,
            ));
            assert forall|j: int| 0 <= j < before.len() implies (#[trigger] cache@[j]).wf() by {
                if j != i {
                    assert(cache@[j] == caches[j]);
                }
            }
            assert forall|j: int| 0 <= j < before.len() && j != i implies #[trigger] cache@[j]
                == caches[j] by {}
            proof {
                let b = buckets_of(layer_plan(self.model.config.layer, kinds, mode));
                let r = choose|r: Seq<u64>| #[trigger] timed(*clock, r, b, counted, *timer);
                let done = seq![Bucket::Embed] + st.layer_buckets(mode, i as nat);
                lemma_timed_after(*clock, readings, r, done, b, first, counted, *timer);
                readings = readings + r;
                assert(done + b =~= seq![Bucket::Embed] + st.layer_buckets(mode, (i + 1) as nat));
            }
            i = i + 1;
        }
        assert(rows_of(cache@) =~= st.caches_after(mode, token, position, before));
        let ghost mut done = seq![Bucket::Embed] + st.layer_buckets(mode, st.layers.len());
        let ghost layers_done = *timer;
        let start: u64 = clock();
        let x_norm = self.last_row(x.as_slice());
        let end: u64 = clock();
        timer.count(Bucket::FinalRms, start, end);
        proof {
            let (b, q) = (seq![Bucket::FinalRms], seq![start, end]);
            lemma_timed_once(*clock, start, end, Bucket::FinalRms, layers_done, *timer);
            lemma_timed_after(*clock, readings, q, done, b, first, layers_done, *timer);
            readings = readings + q;
            done = done + b;
        }
        let ghost norm_done = *timer;
        let start: u64 = clock();
        let logits = self.logits_of(mode, x_norm.as_slice());
        let end: u64 = clock();
        timer.count(Bucket::LmHeadMatmul, start, end);
        proof {
            let (b, q) = (seq![Bucket::LmHeadMatmul], seq![start, end]);
            lemma_timed_once(*clock, start, end, Bucket::LmHeadMatmul, norm_done, *timer);
            lemma_timed_after(*clock, readings, q, done, b, first, norm_done, *timer);
            assert(timed(*clock, readings + q, st.token_buckets(mode), first, *timer));
        }
        logits
    }

    /// The model can take any token that it can choose, and there is memory for
    /// the text.
    pub open spec fn can_generate(self, prompt: Seq<u32>, max_new: nat) -> bool {
        let c = self.model.config;
        &&& self.ok()
        &&& prompt.len() > 0
        &&& prompt.len() + max_new <= c.max_seq
        &&& (prompt.len() + max_new) * c.layer.kv_size() <= usize::MAX
        &&& forall|i: int| 0 <= i < prompt.len() ==> self.knows(#[trigger] prompt[i])
        &&& max_new > 0 ==> c.vocab_size > 0 && c.vocab_size * c.layer.hidden
            <= self.model.token_embeddings@.len()
    }

    /// The text that follows `prompt`, in the model's own words.
    pub open spec fn text(self, mode: Mode, prompt: Seq<u32>, max_new: nat) -> Seq<u32> {
        let c = self.model.config;
        self.stack().continuation(
            mode,
            prompt,
            fresh(c.n_layers as nat, prompt.len() + max_new, c.layer.kv_size()),
            max_new,
            c.eos_token_id,
        )
    }

    /// Generate up to `max_new` tokens.
    fn generate(&self, mode: Mode, prompt: &[u32], max_new: usize) -> (out: Vec<u32>)
        requires
            self.can_generate(prompt@, max_new as nat),
            !(mode is Prefill),
        ensures
            out@ == self.text(mode, prompt@, max_new as nat),
            proper(out@, max_new as nat, self.model.config),
    {
        let c = &self.model.config;
        let needed: usize = prompt.len() + max_new;
        let ghost st = self.stack();
        let ghost empty = fresh::<T>(c.n_layers as nat, needed as nat, c.layer.kv_size());
        let mut cache: KvCache<T> = KvCache::new(c.n_layers, needed, c.layer.kv_dim());
        let mut g = Generation::new(copy_of(prompt), max_new, c.eos_token_id);
        let mut logits: Vec<u32> = Vec::new();
        proof {
            self.lemma_stack_ok();
            assert(rows_of(cache@) =~= empty);
            lemma_starts(st, mode, empty, prompt@, max_new as nat, c.eos_token_id);
            assert(logits@ =~= seq![]);
        }
        let mut over: bool = false;
        while !over
            invariant
                self.can_generate(prompt@, max_new as nat),
                c == self.model.config,
                st == self.stack(),
                st.ok(),
                !(mode is Prefill),
                g.wf(),
                g@.prompt == prompt@,
                g@.max_new == max_new,
                g@.eos == c.eos_token_id,
                over == g@.done,
                cache@.len() == c.n_layers,
                cache.wf(),
                under_way(st, mode, empty, g@, logits@, rows_of(cache@)),
                g@.fed > 0 ==> logits@.len() == c.vocab_size,
                forall|i: int| 0 <= i < g@.out.len() ==> (#[trigger] g@.out[i]) < c.vocab_size,
                st.room(rows_of(cache@), (prompt@.len() + max_new - g@.fed) as nat),
            decreases
                    2 * (prompt@.len() + max_new - g@.fed) + (if g@.done {
                        0int
                    } else {
                        1int
                    }),
        {
            let ghost p = g@;
            let ghost caches = rows_of(cache@);
            proof {
                lemma_goes_on(st, mode, empty, p, logits@, caches);
                self.lemma_known(p, logits@, prompt@, max_new as nat);
            }
            let step = g.step(logits.as_slice());
            match step {
                Step::Feed { token, position } => {
                    proof {
                        lemma_token_takes_a_place(
                            st,
                            mode,
                            token,
                            position,
                            caches,
                            (prompt@.len() + max_new - p.fed) as nat,
                        );
                    }
                    logits = self.decode(mode, token, position, &mut cache);
                },
                Step::Done => {
                    over = true;
                },
            }
        }
        proof {
            lemma_text_ends(st, mode, prompt@, empty, max_new as nat, c.eos_token_id);
        }
        g.into_tokens()
    }

    /// The token that is fed next is one that the model knows, and what is
    /// generated is of the vocabulary.
    proof fn lemma_known(self, p: Progress, logits: Seq<u32>, prompt: Seq<u32>, max_new: nat)
        requires
            self.can_generate(prompt, max_new),
            p.prompt == prompt,
            p.max_new == max_new,
            p.ok(),
            !p.done,
            p.fed > 0 ==> logits.len() == self.model.config.vocab_size,
            forall|i: int|
                0 <= i < p.out.len() ==> (#[trigger] p.out[i]) < self.model.config.vocab_size,
        ensures
            ({
                let (q, step) = p.after(choice(logits));
                &&& step matches Step::Feed { token, .. } ==> self.knows(token) && p.fed
                    < prompt.len() + max_new
                &&& forall|i: int|
                    0 <= i < q.out.len() ==> (#[trigger] q.out[i]) < self.model.config.vocab_size
            }),
    {
        let c = self.model.config;
        if p.fed >= prompt.len() && p.out.len() < max_new {
            lemma_choice_in_range(logits);
            let t = choice(logits) as int;
            let (v, h) = (c.vocab_size as int, c.layer.hidden as int);
            assert((t + 1) * h <= v * h) by (nonlinear_arith)
                requires
                    t + 1 <= v,
                    h >= 0,
            ;
        }
    }

    /// Generate up to `max_new` tokens after `prompt`, by taking the likeliest
    /// one each time. Generation stops early at the end of the text. The tokens
    /// of the prompt are not returned.
    pub fn generate_greedy(&self, prompt: &[u32], max_new: usize) -> (out: Vec<u32>)
        requires
            self.can_generate(prompt@, max_new as nat),
        ensures
            out@ == self.text(Mode::Decode, prompt@, max_new as nat),
            proper(out@, max_new as nat, self.model.config),
    {
        self.generate(Mode::Decode, prompt, max_new)
    }

    /// The same, with native kernels for the products.
    pub fn generate_greedy_jit(
        &self,
        prompt: &[u32],
        max_new: usize,
        has_vnni: bool,
    ) -> (out: Vec<u32>)
        requires
            self.can_generate(prompt@, max_new as nat),
        ensures
            out@ == self.text(Mode::DecodeJit { has_vnni }, prompt@, max_new as nat),
            proper(out@, max_new as nat, self.model.config),
    {
        self.generate(Mode::DecodeJit { has_vnni }, prompt, max_new)
    }

    /// The same, with the time of each step counted where it belongs. `clock`
    /// tells the nanoseconds since some moment; what it says makes no difference
    /// to the tokens.
    pub fn generate_greedy_jit_timed<C: Fn() -> u64>(
        &self,
        prompt: &[u32],
        max_new: usize,
        has_vnni: bool,
        clock: &C,
    ) -> (out: (Vec<u32>, StepTimer))
        requires
            self.can_generate(prompt@, max_new as nat),
            call_requires(clock, ()),
        ensures
            ({
                let mode = Mode::DecodeJit { has_vnni };
                let n = fed_for(prompt@.len(), out.0@, self.model.config.eos_token_id);
                &&& out.0@ == self.text(mode, prompt@, max_new as nat)
                &&& proper(out.0@, max_new as nat, self.model.config)
                &&& timed_anew(*clock, self.stack().text_buckets(mode, n), out.1)
            }),
    {
        let mode = Mode::DecodeJit { has_vnni };
        let c = &self.model.config;
        let needed: usize = prompt.len() + max_new;
        let ghost st = self.stack();
        let ghost empty = fresh::<T>(c.n_layers as nat, needed as nat, c.layer.kv_size());
        let mut cache: KvCache<T> = KvCache::new(c.n_layers, needed, c.layer.kv_dim());
        let mut g = Generation::new(copy_of(prompt), max_new, c.eos_token_id);
        let mut logits: Vec<u32> = Vec::new();
        let mut timer = StepTimer::new();
        let ghost first = timer;
        let ghost mut readings: Seq<u64> = seq![];
        proof {
            self.lemma_stack_ok();
            assert(rows_of(cache@) =~= empty);
            lemma_starts(st, mode, empty, prompt@, max_new as nat, c.eos_token_id);
            assert(logits@ =~= seq![]);
            lemma_timed_nothing(*clock, first);
            assert(st.text_buckets(mode, 0) =~= seq![]);
        }
        let mut over: bool = false;
        while !over
            invariant
                self.can_generate(prompt@, max_new as nat),
                c == self.model.config,
                st == self.stack(),
                st.ok(),
                mode == (Mode::DecodeJit { has_vnni }),
                call_requires(clock, ()),
                g.wf(),
                g@.prompt == prompt@,
                g@.max_new == max_new,
                g@.eos == c.eos_token_id,
                over == g@.done,
                cache@.len() == c.n_layers,
                cache.wf(),
                under_way(st, mode, empty, g@, logits@, rows_of(cache@)),
                g@.fed > 0 ==> logits@.len() == c.vocab_size,
                forall|i: int| 0 <= i < g@.out.len() ==> (#[trigger] g@.out[i]) < c.vocab_size,
                st.room(rows_of(cache@), (prompt@.len() + max_new - g@.fed) as nat),
                timed(*clock, readings, st.text_buckets(mode, g@.fed), first, timer),
            decreases
                    2 * (prompt@.len() + max_new - g@.fed) + (if g@.done {
                        0int
                    } else {
                        1int
                    }),
        {
            let ghost p = g@;
            let ghost caches = rows_of(cache@);
            let ghost counted = timer;
            proof {
                lemma_goes_on(st, mode, empty, p, logits@, caches);
                self.lemma_known(p, logits@, prompt@, max_new as nat);
            }
            let step = g.step(logits.as_slice());
            match step {
                Step::Feed { token, position } => {
                    proof {
                        lemma_token_takes_a_place(
                            st,
                            mode,
                            token,
                            position,
                            caches,
                            (prompt@.len() + max_new - p.fed) as nat,
                        );
                    }
                    logits = self.forward_decode_jit_timed(
                        token,
                        position,
                        &mut cache,
                        has_vnni,
                        clock,
                        &mut timer,
                    );
                    proof {
                        let b = st.token_buckets(mode);
                        let r = choose|r: Seq<u64>| #[trigger] timed(*clock, r, b, counted, timer);
                        let done = st.text_buckets(mode, p.fed);
                        lemma_timed_after(*clock, readings, r, done, b, first, counted, timer);
                        readings = readings + r;
                    }
                },
                Step::Done => {
                    over = true;
                },
            }
        }
        let tokens = g.into_tokens();
        proof {
            lemma_text_ends(st, mode, prompt@, empty, max_new as nat, c.eos_token_id);
            let n = fed_for(prompt@.len(), tokens@, c.eos_token_id);
            assert(timed(*clock, readings, st.text_buckets(mode, n), first, timer));
            assert(timed_anew(*clock, st.text_buckets(mode, n), timer));
        }
        (tokens, timer)
    }

    /// What is generated is the text that follows the prompt in the model's own stack,
    /// with an empty cache for every layer, and ends at the model's end of the text or
    /// at `max_new` tokens. The stack has the layers, the embeddings and the sizes of
    /// the model.
    pub proof fn lemma_text_of_model(
        self,
        mode: Mode,
        prompt: Seq<u32>,
        max_new: nat,
        caches: Seq<LayerRows<T>>,
        i: int,
    )
        requires
            caches.len() == self.model.config.n_layers,
            forall|j: int|
                0 <= j < caches.len() ==> {
                    let c = #[trigger] caches[j];
                    &&& c.k.len() == 0 && c.v.len() == 0 && c.len == 0
                    &&& c.kv_dim == self.model.config.layer.n_kv_heads
                        * self.model.config.layer.head_dim
                    &&& c.max_seq == prompt.len() + max_new
                },
        ensures
            self.text(mode, prompt, max_new) == self.stack().continuation(
                mode,
                prompt,
                caches,
                max_new,
                self.model.config.eos_token_id,
            ),
            self.stack().layers.len() == self.layers@.len(),
            self.stack().hidden == self.model.config.layer.hidden,
            self.stack().embeddings == self.model.token_embeddings@,
            self.stack().q8_head == (self.model.lm_head_w is Q8),
            0 <= i < self.layers@.len() ==> self.stack().layers[i] == self.layers@[i].layer(
                self.model.config.layer,
                kinds_view(self.model.layers@[i]),
            ),
    {
        let c = self.model.config;
        let empty = fresh::<T>(c.n_layers as nat, prompt.len() + max_new, c.layer.kv_size());
        assert(c.layer.n_kv_heads * c.layer.head_dim >= 0) by (nonlinear_arith);
        assert forall|j: int| 0 <= j < caches.len() implies #[trigger] caches[j] == empty[j] by {
            assert(caches[j].k =~= empty[j].k && caches[j].v =~= empty[j].v);
        }
        assert(caches =~= empty);
    }

    /// To ask for fewer tokens is to get the start of the same text.
    pub proof fn lemma_fewer_tokens(self, mode: Mode, prompt: Seq<u32>, some: nat, all: nat)
        requires
            self.layers@.len() <= self.model.config.n_layers,
            some <= all,
        ensures
            ({
                let text = self.text(mode, prompt, all);
                let n = if some <= text.len() {
                    some as int
                } else {
                    text.len() as int
                };
                self.text(mode, prompt, some) == text.take(n)
            }),
    {
        let st = self.stack();
        let c = self.model.config;
        let (layers, kv) = (c.n_layers as nat, c.layer.kv_size());
        let small = fresh::<T>(layers, prompt.len() + some, kv);
        let large = fresh::<T>(layers, prompt.len() + all, kv);
        assert(all_with_room(small, prompt.len() + all) =~= large);
        lemma_room_keeps_the_text(
            st,
            mode,
            prompt,
            small,
            prompt.len() + all,
            some,
            c.eos_token_id,
        );
        lemma_text_starts_alike(st, mode, prompt, large, some, all, c.eos_token_id);
    }

    /// The arithmetic of `self`, on a model whose weights are transposed for
    /// native kernels, multiplies along every path as that of `plain` does in
    /// its loops; the rest of the arithmetic is the same.
    pub open spec fn multiplies_like(self, plain: Self) -> bool {
        &&& self.layers@.len() == plain.layers@.len()
        &&& forall|i: int|
            0 <= i < plain.layers@.len() ==> multiplies_as(
                (#[trigger] self.layers@[i]).math(),
                plain.layers@[i].math(),
            )
        &&& self.stack().number == plain.stack().number
        &&& self.stack().last == plain.stack().last
        &&& forall|path: Path, r: Seq<T>| #[trigger]
            (self.stack().head)(path, r) == (plain.stack().head)(Path::Naive, r)
    }

    /// A model whose weights were transposed for native kernels generates, with
    /// them, the text that it generated before with plain loops, where the
    /// kernels on the transposed weights multiply as the loops on the weights
    /// before.
    pub proof fn lemma_transposed_model_keeps_the_text(
        self,
        plain: Self,
        has_vnni: bool,
        prompt: Seq<u32>,
        max_new: nat,
    )
        requires
            self.model.transposed_from(*plain.model),
            plain.layers@.len() == plain.model.layers@.len(),
            self.multiplies_like(plain),
        ensures
            self.text(Mode::DecodeJit { has_vnni }, prompt, max_new) == plain.text(
                Mode::Decode,
                prompt,
                max_new,
            ),
    {
        let (a, b) = (plain.stack(), self.stack());
        let c = plain.model.config;
        assert forall|i: int| 0 <= i < a.layers.len() implies {
            &&& (#[trigger] b.layers[i]).cfg == a.layers[i].cfg
            &&& b.layers[i].kinds == a.layers[i].kinds
            &&& multiplies_as(b.layers[i].math, a.layers[i].math)
        } by {
            assert(self.model.layers@[i].transposed_from(plain.model.layers@[i], c.layer));
            assert(multiplies_as(self.layers@[i].math(), plain.layers@[i].math()));
        }
        assert(stack_multiplies_as(b, a));
        lemma_native_text(
            a,
            b,
            has_vnni,
            prompt,
            fresh(c.n_layers as nat, prompt.len() + max_new, c.layer.kv_size()),
            max_new,
            c.eos_token_id,
        );
    }
}

fn copy_of(x: &[u32]) -> (y: Vec<u32>)
    ensures
        y@ == x@,
{
    let mut y: Vec<u32> = Vec::new();
    let mut i: usize = 0;
    while i < x.len()
        invariant
            i <= x@.len(),
            y@ == x@.take(i as int),
        decreases x@.len() - i,
    {
        y.push(x[i]);
        i = i + 1;
        assert(y@ =~= x@.take(i as int));
    }
    assert(x@.take(x@.len() as int) =~= x@);
    y
}

} // verus!
