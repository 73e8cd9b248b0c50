//! Runs the steps of a layer's forward pass.

use crate::runtime::attention::heads_share_evenly;
use crate::runtime::forward::{
    attention_plan, bias_plan, bucket_of, bucket_spec, buckets_of, dims_of, ffn_plan, layer_plan,
    layer_steps, qkv_plan, route, route_spec, step_if, Buffer, LayerKinds, LayerStep, Mode, Path,
    Weight,
};
use crate::runtime::kvcache::{LayerKvCache, LayerRows};
use crate::runtime::layer::{
    after_step, after_steps, nothing_held, turned_rows, Arithmetic, Layer, Pass,
};
use crate::runtime::model::LayerConfig;
use crate::runtime::numerics::Numerics;
use crate::runtime::timer::{
    lemma_timed_after, lemma_timed_nothing, lemma_timed_once, timed, StepTimer,
};
use vstd::prelude::*;

verus! {

/// What the steps of a layer hand on to each other.
pub struct Buffers<T> {
    norm: Vec<T>,
    q: Vec<T>,
    k: Vec<T>,
    v: Vec<T>,
    attn: Vec<T>,
    attn_out: Vec<T>,
    resid: Vec<T>,
    gate: Vec<T>,
    up: Vec<T>,
    ffn_out: Vec<T>,
}

impl<T> View for Buffers<T> {
    type V = Map<Buffer, Seq<T>>;

    closed spec fn view(&self) -> Map<Buffer, Seq<T>> {
        Map::new(
            |b: Buffer| true,
            |b: Buffer|
                match b {
                    Buffer::Norm => self.norm@,
                    Buffer::Q => self.q@,
                    Buffer::K => self.k@,
                    Buffer::V => self.v@,
                    Buffer::Attn => self.attn@,
                    Buffer::AttnOut => self.attn_out@,
                    Buffer::Resid => self.resid@,
                    Buffer::Gate => self.gate@,
                    Buffer::Up => self.up@,
                    Buffer::FfnOut => self.ffn_out@,
                },
        )
    }
}

impl<T> Buffers<T> {
    /// Buffers that hold nothing.
    pub fn new() -> (b: Self)
        ensures
            b@ == nothing_held::<T>(),
    {
        let b = Buffers {
            norm: Vec::new(),
            q: Vec::new(),
            k: Vec::new(),
            v: Vec::new(),
            attn: Vec::new(),
            attn_out: Vec::new(),
            resid: Vec::new(),
            gate: Vec::new(),
            up: Vec::new(),
            ffn_out: Vec::new(),
        };
        assert(b@ =~= nothing_held::<T>());
        b
    }

    /// What a buffer holds.
    pub fn get(&self, b: Buffer) -> (s: &[T])
        ensures
            s@ == self@[b],
    {
        match b {
            Buffer::Norm => self.norm.as_slice(),
            Buffer::Q => self.q.as_slice(),
            Buffer::K => self.k.as_slice(),
            Buffer::V => self.v.as_slice(),
            Buffer::Attn => self.attn.as_slice(),
            Buffer::AttnOut => self.attn_out.as_slice(),
            Buffer::Resid => self.resid.as_slice(),
            Buffer::Gate => self.gate.as_slice(),
            Buffer::Up => self.up.as_slice(),
            Buffer::FfnOut => self.ffn_out.as_slice(),
        }
    }

    /// Lets a buffer hold other numbers.
    pub fn put(&mut self, b: Buffer, v: Vec<T>)
        ensures
            final(self)@ == old(self)@.insert(b, v@),
    {
        let ghost want = self@.insert(b, v@);
        match b {
            Buffer::Norm => {
                self.norm = v;
            },
            Buffer::Q => {
                self.q = v;
            },
            Buffer::K => {
                self.k = v;
            },
            Buffer::V => {
                self.v = v;
            },
            Buffer::Attn => {
                self.attn = v;
            },
            Buffer::AttnOut => {
                self.attn_out = v;
            },
            Buffer::Resid => {
                self.resid = v;
            },
            Buffer::Gate => {
                self.gate = v;
            },
            Buffer::Up => {
                self.up = v;
            },
            Buffer::FfnOut => {
                self.ffn_out = v;
            },
        }
        assert(self@ =~= want);
    }
}

/// The sizes of a layer fit the machine and each other.
pub open spec fn sizes_ok(cfg: LayerConfig, n: nat) -> bool {
    &&& cfg.q_size() <= usize::MAX
    &&& cfg.kv_size() <= usize::MAX
    &&& n * cfg.n_heads <= usize::MAX
    &&& n * cfg.n_kv_heads <= usize::MAX
    &&& heads_share_evenly(cfg)
    &&& cfg.head_dim % 2 == 0
}

/// A step of a pass over `n` tokens finds what it needs.
pub open spec fn step_ok<T>(
    cfg: LayerConfig,
    n: nat,
    cached: bool,
    s: Pass<T>,
    step: LayerStep,
) -> bool {
    let h = n * cfg.hidden as nat;
    let b = s.held;
    match step {
        LayerStep::AttnNorm => true,
        LayerStep::Project(p) => {
            &&& (p.d_in as nat, p.d_out as nat) == dims_of(cfg, p.weight)
            &&& route_spec(p.weight) matches Some(r) && b[r.0].len() == n * p.d_in
        },
        LayerStep::AddBias(w) => {
            &&& w is Q || w is K || w is V
            &&& route_spec(w) matches Some(r) && b[r.1].len() == n * dims_of(cfg, w).1
        },
        LayerStep::Rope => {
            &&& b[Buffer::Q].len() == n * cfg.q_size()
            &&& b[Buffer::K].len() == n * cfg.kv_size()
        },
        LayerStep::Append => {
            &&& b[Buffer::K].len() == cfg.kv_size()
            &&& b[Buffer::V].len() == cfg.kv_size()
            &&& s.cache.kv_dim == cfg.kv_size()
            &&& s.cache.len < s.cache.max_seq
        },
        LayerStep::Attend => {
            &&& b[Buffer::Q].len() == n * cfg.q_size()
            &&& if cached {
                &&& s.cache.kv_dim == cfg.kv_size()
                &&& s.cache.len >= n
            } else {
                &&& b[Buffer::K].len() == n * cfg.kv_size()
                &&& b[Buffer::V].len() == n * cfg.kv_size()
            }
        },
        LayerStep::AttnResidual => b[Buffer::AttnOut].len() == h,
        LayerStep::FfnNorm => b[Buffer::Resid].len() == h,
        LayerStep::SiluMul => {
            &&& b[Buffer::Gate].len() == n * cfg.ffn_hidden
            &&& b[Buffer::Up].len() == n * cfg.ffn_hidden
        },
        LayerStep::FfnResidual => b[Buffer::Resid].len() == h && b[Buffer::FfnOut].len() == h,
    }
}

/// Each of the steps finds what it needs.
pub open spec fn steps_ok<T>(
    m: Arithmetic<T>,
    cfg: LayerConfig,
    x: Seq<T>,
    positions: Seq<u32>,
    cached: bool,
    s: Pass<T>,
    steps: Seq<LayerStep>,
) -> bool
    decreases steps.len(),
{
    steps.len() > 0 ==> {
        &&& step_ok(cfg, positions.len(), cached, s, steps[0])
        &&& steps_ok(
            m,
            cfg,
            x,
            positions,
            cached,
            after_step(m, cfg, x, positions, cached, s, steps[0]),
            steps.drop_first(),
        )
    }
}

impl<T, N, P, B, R, S, H, M, A, G> Numerics<T, N, P, B, R, S, H, M, A, G> where
    T: Copy + Default,
    N: Fn(bool, &[T]) -> Vec<T>,
    P: Fn(Weight, Path, &[T]) -> Vec<T>,
    B: Fn(Weight, &[T]) -> Vec<T>,
    R: Fn(u32, usize, T, T) -> (T, T),
    S: Fn(&[T], &[T]) -> T,
    H: Fn(&[T]) -> Vec<T>,
    M: Fn(&[T], &[T]) -> T,
    A: Fn(T, T) -> T,
    G: Fn(T, T) -> T,
 {
    /// Runs one step of a pass over the tokens `x`. `cached` says whether the
    /// keys and values come from the cache.
    pub fn run_step(
        &self,
        cfg: &LayerConfig,
        x: &[T],
        positions: &[u32],
        cached: bool,
        cache: &mut LayerKvCache<T>,
        b: &mut Buffers<T>,
        step: LayerStep,
    )
        requires
            self.ok(*cfg),
            sizes_ok(*cfg, positions@.len()),
            x@.len() == positions@.len() * cfg.hidden,
            old(cache).wf(),
            step_ok(
                *cfg,
                positions@.len(),
                cached,
                Pass { held: old(b)@, cache: old(cache)@ },
                step,
            ),
        ensures
            final(cache).wf(),
            (Pass { held: final(b)@, cache: final(cache)@ }) == after_step(
                self.math(),
                *cfg,
                x@,
                positions@,
                cached,
                Pass { held: old(b)@, cache: old(cache)@ },
                step,
            ),
    {
        let n: usize = positions.len();
        match step {
            LayerStep::AttnNorm => {
                let y = self.norm_rows(cfg, false, n, x);
                b.put(Buffer::Norm, y);
            },
            LayerStep::Project(p) => {
                if let Some((from, to)) = route(p.weight) {
                    let y = self.product_rows(cfg, &p, n, b.get(from));
                    b.put(to, y);
                }
            },
            LayerStep::AddBias(w) => {
                if let Some((_, to)) = route(w) {
                    let d: usize = match w {
                        Weight::Q => cfg.q_dim(),
                        _ => cfg.kv_dim(),
                    };
                    let y = self.bias_rows(cfg, w, d, n, b.get(to));
                    b.put(to, y);
                }
            },
            LayerStep::Rope => {
                self.turn_buffer(cfg, positions, cfg.n_heads, Buffer::Q, b);
                self.turn_buffer(cfg, positions, cfg.n_kv_heads, Buffer::K, b);
            },
            LayerStep::Append => {
                cache.append(b.get(Buffer::K), b.get(Buffer::V));
            },
            LayerStep::Attend => {
                proof {
                    cache.lemma_rows_ok();
                }
                let y = if cached {
                    let before: usize = cache.len() - n;
                    self.attend(
                        cfg,
                        b.get(Buffer::Q),
                        cache.k_filled(),
                        cache.v_filled(),
                        before,
                        n,
                    )
                } else {
                    self.multi_head_attention(
                        b.get(Buffer::Q),
                        b.get(Buffer::K),
                        b.get(Buffer::V),
                        n,
                        cfg,
                    )
                };
                b.put(Buffer::Attn, y);
            },
            LayerStep::AttnResidual => {
                let y = self.sum_rows(cfg, n, x, b.get(Buffer::AttnOut));
                b.put(Buffer::Resid, y);
            },
            LayerStep::FfnNorm => {
                let y = self.norm_rows(cfg, true, n, b.get(Buffer::Resid));
                b.put(Buffer::Norm, y);
            },
            LayerStep::SiluMul => {
                let y = self.gate_rows(cfg, n, b.get(Buffer::Gate), b.get(Buffer::Up));
                b.put(Buffer::Gate, y);
            },
            LayerStep::FfnResidual => {
                let y = self.sum_rows(cfg, n, b.get(Buffer::Resid), b.get(Buffer::FfnOut));
                b.put(Buffer::Resid, y);
            },
        }
    }

    /// Turns the rows of a buffer.
    fn turn_buffer(
        &self,
        cfg: &LayerConfig,
        positions: &[u32],
        n_heads: usize,
        at: Buffer,
        b: &mut Buffers<T>,
    )
        requires
            self.ok(*cfg),
            cfg.head_dim % 2 == 0,
            positions@.len() * n_heads <= usize::MAX,
            old(b)@[at].len() == positions@.len() * (n_heads * cfg.head_dim),
        ensures
            final(b)@ == old(b)@.insert(
                at,
                turned_rows(
                    self.math(),
                    cfg.head_dim as nat,
                    positions@,
                    n_heads as nat * cfg.head_dim as nat,
                    old(b)@[at],
                ),
            ),
    {
        let mut x: Vec<T> = copied(b.get(at));
        self.rope_in_place(cfg, &mut x, positions, n_heads, cfg.head_dim);
        b.put(at, x);
    }
}

fn copied<T: Copy>(s: &[T]) -> (v: Vec<T>)
    ensures
        v@ == s@,
{
    let mut v: Vec<T> = Vec::new();
    let mut i: usize = 0;
    while i < s.len()
        invariant
            i <= s@.len(),
            v@ == s@.subrange(0, i as int),
        decreases s@.len() - i,
    {
        v.push(s[i]);
        i = i + 1;
        assert(v@ =~= s@.subrange(0, i as int));
    }
    assert(v@ =~= s@);
    v
}

// ---- whole passes ---------------------------------------------------------------------

proof fn lemma_steps_concat<T>(
    m: Arithmetic<T>,
    cfg: LayerConfig,
    x: Seq<T>,
    positions: Seq<u32>,
    cached: bool,
    s: Pass<T>,
    a: Seq<LayerStep>,
    b: Seq<LayerStep>,
)
    requires
        steps_ok(m, cfg, x, positions, cached, s, a),
        steps_ok(
            m,
            cfg,
            x,
            positions,
            cached,
            after_steps(m, cfg, x, positions, cached, s, a),
            b,
        ),
    ensures
        steps_ok(m, cfg, x, positions, cached, s, a + b),
        after_steps(m, cfg, x, positions, cached, s, a + b) == after_steps(
            m,
            cfg,
            x,
            positions,
            cached,
            after_steps(m, cfg, x, positions, cached, s, a),
            b,
        ),
    decreases a.len(),
{
    if a.len() == 0 {
        assert(a + b =~= b);
    } else {
        assert((a + b).drop_first() =~= a.drop_first() + b);
        let y = after_step(m, cfg, x, positions, cached, s, a[0]);
        lemma_steps_concat(m, cfg, x, positions, cached, y, a.drop_first(), b);
    }
}

/// Queries, keys and values have their sizes.
spec fn qkv_sized<T>(cfg: LayerConfig, n: nat, s: Pass<T>) -> bool {
    &&& s.held[Buffer::Q].len() == n * cfg.q_size()
    &&& s.held[Buffer::K].len() == n * cfg.kv_size()
    &&& s.held[Buffer::V].len() == n * cfg.kv_size()
}

proof fn lemma_bias_ok<T>(
    m: Arithmetic<T>,
    cfg: LayerConfig,
    x: Seq<T>,
    positions: Seq<u32>,
    cached: bool,
    s: Pass<T>,
    there: bool,
    w: Weight,
)
    requires
        qkv_sized(cfg, positions.len(), s),
        w is Q || w is K || w is V,
    ensures
        ({
            let b = step_if(there, LayerStep::AddBias(w));
            let y = after_steps(m, cfg, x, positions, cached, s, b);
            &&& steps_ok(m, cfg, x, positions, cached, s, b)
            &&& qkv_sized(cfg, positions.len(), y)
            &&& y.cache == s.cache
        }),
{
    reveal_with_fuel(after_steps, 3);
    reveal_with_fuel(steps_ok, 3);
}

impl<T> Layer<T> {
    /// The steps of a pass find what they need: in a pass with a cache, one
    /// token and room for it.
    proof fn lemma_plan_ok(self, mode: Mode, x: Seq<T>, positions: Seq<u32>, s: Pass<T>)
        requires
            self.cfg.q_size() <= usize::MAX,
            self.cfg.kv_size() <= usize::MAX,
            !(mode is Prefill) ==> {
                &&& positions.len() == 1
                &&& s.cache.kv_dim == self.cfg.kv_size()
                &&& s.cache.len < s.cache.max_seq
            },
        ensures
            steps_ok(
                self.math,
                self.cfg,
                x,
                positions,
                !(mode is Prefill),
                s,
                layer_plan(self.cfg, self.kinds, mode),
            ),
            ({
                let y = self.pass(mode, x, positions, s);
                y.held[Buffer::Resid].len() == positions.len() * self.cfg.hidden
            }),
    {
        let (m, cfg) = (self.math, self.cfg);
        let n = positions.len();
        let cached = !(mode is Prefill);
        let p1 = qkv_plan(cfg, self.kinds, mode);
        let b1 = step_if(self.kinds.b_q, LayerStep::AddBias(Weight::Q));
        let b2 = step_if(self.kinds.b_k, LayerStep::AddBias(Weight::K));
        let b3 = step_if(self.kinds.b_v, LayerStep::AddBias(Weight::V));
        let p3 = attention_plan(mode);
        let p4 = ffn_plan(cfg, self.kinds, mode);
        let s1 = after_steps(m, cfg, x, positions, cached, s, p1);
        self.lemma_qkv_ok(mode, x, positions, cached, s);
        let t1 = after_steps(m, cfg, x, positions, cached, s1, b1);
        lemma_bias_ok(m, cfg, x, positions, cached, s1, self.kinds.b_q, Weight::Q);
        let t2 = after_steps(m, cfg, x, positions, cached, t1, b2);
        lemma_bias_ok(m, cfg, x, positions, cached, t1, self.kinds.b_k, Weight::K);
        let s2 = after_steps(m, cfg, x, positions, cached, t2, b3);
        lemma_bias_ok(m, cfg, x, positions, cached, t2, self.kinds.b_v, Weight::V);
        lemma_steps_concat(m, cfg, x, positions, cached, s1, b1, b2);
        lemma_steps_concat(m, cfg, x, positions, cached, s1, b1 + b2, b3);
        let s3 = after_steps(m, cfg, x, positions, cached, s2, p3);
        self.lemma_attention_ok(mode, x, positions, s2);
        self.lemma_ffn_ok(mode, x, positions, cached, s3);
        lemma_steps_concat(m, cfg, x, positions, cached, s, p1, bias_plan(self.kinds));
        lemma_steps_concat(m, cfg, x, positions, cached, s, p1 + bias_plan(self.kinds), p3);
        lemma_steps_concat(m, cfg, x, positions, cached, s, p1 + bias_plan(self.kinds) + p3, p4);
    }

    proof fn lemma_qkv_ok(
        self,
        mode: Mode,
        x: Seq<T>,
        positions: Seq<u32>,
        cached: bool,
        s: Pass<T>,
    )
        requires
            self.cfg.q_size() <= usize::MAX,
            self.cfg.kv_size() <= usize::MAX,
        ensures
            ({
                let plan = qkv_plan(self.cfg, self.kinds, mode);
                let y = after_steps(self.math, self.cfg, x, positions, cached, s, plan);
                &&& steps_ok(self.math, self.cfg, x, positions, cached, s, plan)
                &&& qkv_sized(self.cfg, positions.len(), y)
                &&& y.cache == s.cache
            }),
    {
        reveal_with_fuel(after_steps, 6);
        reveal_with_fuel(steps_ok, 6);
    }

    proof fn lemma_attention_ok(self, mode: Mode, x: Seq<T>, positions: Seq<u32>, s: Pass<T>)
        requires
            qkv_sized(self.cfg, positions.len(), s),
            !(mode is Prefill) ==> {
                &&& positions.len() == 1
                &&& s.cache.kv_dim == self.cfg.kv_size()
                &&& s.cache.len < s.cache.max_seq
            },
        ensures
            ({
                let plan = attention_plan(mode);
                let cached = !(mode is Prefill);
                let y = after_steps(self.math, self.cfg, x, positions, cached, s, plan);
                &&& steps_ok(self.math, self.cfg, x, positions, cached, s, plan)
                &&& y.held[Buffer::Attn].len() == positions.len() * self.cfg.q_size()
            }),
    {
        let (m, cfg) = (self.math, self.cfg);
        let cached = !(mode is Prefill);
        let a = seq![LayerStep::Rope];
        let b = step_if(cached, LayerStep::Append);
        let c = seq![LayerStep::Attend];
        reveal_with_fuel(after_steps, 3);
        reveal_with_fuel(steps_ok, 3);
        let s1 = after_step(m, cfg, x, positions, cached, s, LayerStep::Rope);
        assert(after_steps(m, cfg, x, positions, cached, s, a) == s1);
        assert(qkv_sized(cfg, positions.len(), s1));
        let s2 = after_steps(m, cfg, x, positions, cached, s1, b);
        if cached {
            let kvd = cfg.kv_size();
            assert(positions.len() * kvd == kvd) by (nonlinear_arith)
                requires
                    positions.len() == 1,
            ;
            assert(s2 == after_step(m, cfg, x, positions, cached, s1, LayerStep::Append));
        }
        assert(steps_ok(m, cfg, x, positions, cached, s1, b));
        assert(steps_ok(m, cfg, x, positions, cached, s2, c));
        lemma_steps_concat(m, cfg, x, positions, cached, s, a, b);
        lemma_steps_concat(m, cfg, x, positions, cached, s, a + b, c);
    }

    proof fn lemma_ffn_ok(
        self,
        mode: Mode,
        x: Seq<T>,
        positions: Seq<u32>,
        cached: bool,
        s: Pass<T>,
    )
        requires
            self.cfg.q_size() <= usize::MAX,
            self.cfg.kv_size() <= usize::MAX,
            s.held[Buffer::Attn].len() == positions.len() * self.cfg.q_size(),
        ensures
            ({
                let plan = ffn_plan(self.cfg, self.kinds, mode);
                let y = after_steps(self.math, self.cfg, x, positions, cached, s, plan);
                &&& steps_ok(self.math, self.cfg, x, positions, cached, s, plan)
                &&& y.held[Buffer::Resid].len() == positions.len() * self.cfg.hidden
            }),
    {
        reveal_with_fuel(after_steps, 10);
        reveal_with_fuel(steps_ok, 10);
    }
}

impl<T, N, P, B, R, S, H, M, A, G> Numerics<T, N, P, B, R, S, H, M, A, G> where
    T: Copy + Default,
    N: Fn(bool, &[T]) -> Vec<T>,
    P: Fn(Weight, Path, &[T]) -> Vec<T>,
    B: Fn(Weight, &[T]) -> Vec<T>,
    R: Fn(u32, usize, T, T) -> (T, T),
    S: Fn(&[T], &[T]) -> T,
    H: Fn(&[T]) -> Vec<T>,
    M: Fn(&[T], &[T]) -> T,
    A: Fn(T, T) -> T,
    G: Fn(T, T) -> T,
 {
    /// The layer that these functions are the arithmetic of.
    pub open spec fn layer(self, cfg: LayerConfig, kinds: LayerKinds) -> Layer<T> {
        Layer { cfg, kinds, math: self.math() }
    }

    /// Runs the steps of a pass, one after the other.
    pub(crate) fn run(
        &self,
        cfg: &LayerConfig,
        kinds: LayerKinds,
        mode: Mode,
        x: &[T],
        positions: &[u32],
        cache: &mut LayerKvCache<T>,
    ) -> (out: Vec<T>)
        requires
            self.ok(*cfg),
            sizes_ok(*cfg, positions@.len()),
            x@.len() == positions@.len() * cfg.hidden,
            old(cache).wf(),
            !(mode is Prefill) ==> {
                &&& positions@.len() == 1
                &&& old(cache)@.kv_dim == cfg.kv_size()
                &&& old(cache)@.len < old(cache)@.max_seq
            },
        ensures
            final(cache).wf(),
            ({
                let s = Pass { held: nothing_held(), cache: old(cache)@ };
                let y = self.layer(*cfg, kinds).pass(mode, x@, positions@, s);
                &&& out@ == y.held[Buffer::Resid]
                &&& final(cache)@ == y.cache
            }),
            out@.len() == positions@.len() * cfg.hidden,
    {
        let cached: bool = match mode {
            Mode::Prefill => false,
            Mode::Decode => true,
            Mode::DecodeJit { has_vnni: _ } => true,
        };
        let ghost l = self.layer(*cfg, kinds);
        let ghost m = self.math();
        let ghost first = Pass { held: nothing_held(), cache: cache@ };
        let ghost last = l.pass(mode, x@, positions@, first);
        let mut b: Buffers<T> = Buffers::new();
        proof {
            l.lemma_plan_ok(mode, x@, positions@, first);
        }
        let steps = layer_steps(cfg, kinds, mode);
        let mut i: usize = 0;
        assert(steps@.subrange(0, steps@.len() as int) =~= steps@);
        while i < steps.len()
            invariant
                i <= steps@.len(),
                self.ok(*cfg),
                m == self.math(),
                sizes_ok(*cfg, positions@.len()),
                x@.len() == positions@.len() * cfg.hidden,
                cache.wf(),
                steps_ok(
                    m,
                    *cfg,
                    x@,
                    positions@,
                    cached,
                    Pass { held: b@, cache: cache@ },
                    steps@.subrange(i as int, steps@.len() as int),
                ),
                last == after_steps(
                    m,
                    *cfg,
                    x@,
                    positions@,
                    cached,
                    Pass { held: b@, cache: cache@ },
                    steps@.subrange(i as int, steps@.len() as int),
                ),
            decreases steps@.len() - i,
        {
            proof {
                let rest = steps@.subrange(i as int, steps@.len() as int);
                assert(rest[0] == steps@[i as int]);
                assert(rest.drop_first() =~= steps@.subrange(i + 1, steps@.len() as int));
            }
            self.run_step(cfg, x, positions, cached, cache, &mut b, steps[i]);
            i = i + 1;
        }
        assert(last == Pass { held: b@, cache: cache@ });
        copied(b.get(Buffer::Resid))
    }

    /// One layer's forward pass on all tokens at once.
    pub fn forward_layer(
        &self,
        x: &[T],
        positions: &[u32],
        cfg: &LayerConfig,
        kinds: LayerKinds,
    ) -> (out: Vec<T>)
        requires
            self.ok(*cfg),
            sizes_ok(*cfg, positions@.len()),
            x@.len() == positions@.len() * cfg.hidden,
        ensures
            out@ == self.layer(*cfg, kinds).forward(
                x@,
                positions@,
                Pass {
                    held: nothing_held(),
                    cache: LayerRows::<T>::empty(0, cfg.kv_size()),
                },
            ),
            out@.len() == x@.len(),
    {
        let mut none: LayerKvCache<T> = LayerKvCache::new(0, cfg.kv_dim());
        self.run(cfg, kinds, Mode::Prefill, x, positions, &mut none)
    }

    /// One layer's forward pass on one token, with the keys and values of those
    /// before it in the cache. The token's own are appended.
    pub fn forward_layer_decode(
        &self,
        x_t: &[T],
        position: u32,
        cache: &mut LayerKvCache<T>,
        cfg: &LayerConfig,
        kinds: LayerKinds,
    ) -> (out: Vec<T>)
        requires
            self.ok(*cfg),
            sizes_ok(*cfg, 1),
            x_t@.len() == cfg.hidden,
            old(cache).wf(),
            old(cache)@.kv_dim == cfg.kv_size(),
            old(cache)@.len < old(cache)@.max_seq,
        ensures
            final(cache).wf(),
            ({
                let s = Pass { held: nothing_held(), cache: old(cache)@ };
                let y = self.layer(*cfg, kinds).pass(Mode::Decode, x_t@, seq![position], s);
                &&& out@ == y.held[Buffer::Resid]
                &&& final(cache)@ == y.cache
            }),
            out@.len() == cfg.hidden,
    {
        let at = [position];
        assert(at@ =~= seq![position]);
        self.run(cfg, kinds, Mode::Decode, x_t, &at, cache)
    }

    /// The same, with native kernels for the products.
    pub fn forward_layer_decode_jit(
        &self,
        x_t: &[T],
        position: u32,
        cache: &mut LayerKvCache<T>,
        cfg: &LayerConfig,
        kinds: LayerKinds,
        has_vnni: bool,
    ) -> (out: Vec<T>)
        requires
            self.ok(*cfg),
            sizes_ok(*cfg, 1),
            x_t@.len() == cfg.hidden,
            old(cache).wf(),
            old(cache)@.kv_dim == cfg.kv_size(),
            old(cache)@.len < old(cache)@.max_seq,
        ensures
            final(cache).wf(),
            ({
                let s = Pass { held: nothing_held(), cache: old(cache)@ };
                let mode = Mode::DecodeJit { has_vnni };
                let y = self.layer(*cfg, kinds).pass(mode, x_t@, seq![position], s);
                &&& out@ == y.held[Buffer::Resid]
                &&& final(cache)@ == y.cache
            }),
            out@.len() == cfg.hidden,
    {
        let at = [position];
        assert(at@ =~= seq![position]);
        self.run(cfg, kinds, Mode::DecodeJit { has_vnni }, x_t, &at, cache)
    }

    /// The same, with the time of each step counted where it belongs. `clock`
    /// tells the nanoseconds since some moment, and is read before and after
    /// each step. What it says makes no difference to what is computed. A step
    /// is not counted where the clock ran backwards or its time does not fit.
    pub fn forward_layer_decode_jit_timed<C: Fn() -> u64>(
        &self,
        x_t: &[T],
        position: u32,
        cache: &mut LayerKvCache<T>,
        cfg: &LayerConfig,
        kinds: LayerKinds,
        has_vnni: bool,
        clock: &C,
        timer: &mut StepTimer,
    ) -> (out: Vec<T>)
        requires
            self.ok(*cfg),
            sizes_ok(*cfg, 1),
            x_t@.len() == cfg.hidden,
            old(cache).wf(),
            old(cache)@.kv_dim == cfg.kv_size(),
            old(cache)@.len < old(cache)@.max_seq,
            call_requires(clock, ()),
        ensures
            final(cache).wf(),
            ({
                let s = Pass { held: nothing_held(), cache: old(cache)@ };
                let mode = Mode::DecodeJit { has_vnni };
                let y = self.layer(*cfg, kinds).pass(mode, x_t@, seq![position], s);
                &&& out@ == y.held[Buffer::Resid]
                &&& final(cache)@ == y.cache
            }),
            out@.len() == cfg.hidden,
            exists|r: Seq<u64>| #[trigger]
                timed(
                    *clock,
                    r,
                    buckets_of(layer_plan(*cfg, kinds, Mode::DecodeJit { has_vnni })),
                    *old(timer),
                    *final(timer),
                ),
    {
        let mode = Mode::DecodeJit { has_vnni };
        let positions = [position];
        assert(positions@ =~= seq![position]);
        let ghost l = self.layer(*cfg, kinds);
        let ghost m = self.math();
        let ghost first = Pass { held: nothing_held(), cache: cache@ };
        let ghost last = l.pass(mode, x_t@, positions@, first);
        let ghost start = *timer;
        let ghost mut readings: Seq<u64> = seq![];
        proof {
            lemma_timed_nothing(*clock, start);
            assert(buckets_of(layer_plan(*cfg, kinds, mode)).take(0) =~= seq![]);
        }
        let mut b: Buffers<T> = Buffers::new();
        proof {
            l.lemma_plan_ok(mode, x_t@, positions@, first);
        }
        let steps = layer_steps(cfg, kinds, mode);
        let mut i: usize = 0;
        assert(steps@.subrange(0, steps@.len() as int) =~= steps@);
        while i < steps.len()
            invariant
                i <= steps@.len(),
                steps@ == layer_plan(*cfg, kinds, mode),
                self.ok(*cfg),
                m == self.math(),
                sizes_ok(*cfg, 1),
                positions@.len() == 1,
                x_t@.len() == cfg.hidden,
                cache.wf(),
                call_requires(clock, ()),
                timed(*clock, readings, buckets_of(steps@).take(i as int), start, *timer),
                steps_ok(
                    m,
                    *cfg,
                    x_t@,
                    positions@,
                    true,
                    Pass { held: b@, cache: cache@ },
                    steps@.subrange(i as int, steps@.len() as int),
                ),
                last == after_steps(
                    m,
                    *cfg,
                    x_t@,
                    positions@,
                    true,
                    Pass { held: b@, cache: cache@ },
                    steps@.subrange(i as int, steps@.len() as int),
                ),
            decreases steps@.len() - i,
        {
            proof {
                let rest = steps@.subrange(i as int, steps@.len() as int);
                assert(rest[0] == steps@[i as int]);
                assert(rest.drop_first() =~= steps@.subrange(i + 1, steps@.len() as int));
            }
            let step = steps[i];
            let before: u64 = clock();
            self.run_step(cfg, x_t, &positions, true, cache, &mut b, step);
            let after: u64 = clock();
            let ghost counted = *timer;
            let ghost buckets = buckets_of(steps@);
            timer.count(bucket_of(step), before, after);
            proof {
                lemma_timed_once(*clock, before, after, bucket_spec(step), counted, *timer);
                lemma_timed_after(
                    *clock,
                    readings,
                    seq![before, after],
                    buckets.take(i as int),
                    seq![bucket_spec(step)],
                    start,
                    counted,
                    *timer,
                );
                readings = readings + seq![before, after];
                assert(buckets.take(i as int) + seq![bucket_spec(step)] =~= buckets.take(i + 1));
            }
            i = i + 1;
        }
        assert(buckets_of(steps@).take(steps@.len() as int) =~= buckets_of(steps@));
        assert(timed(*clock, readings, buckets_of(steps@), start, *timer));
        assert(last == Pass { held: b@, cache: cache@ });
        copied(b.get(Buffer::Resid))
    }
}

} // verus!
