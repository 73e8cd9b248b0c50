//! What a layer's forward pass computes, and the pass itself.
//!
//! The numbers are of any type, and the arithmetic on them is the caller's: it
//! comes as functions on rows and on numbers. Which numbers meet, in which
//! order, and where the results go is decided here.

use crate::runtime::attention::{heads_share_evenly, queries};
use crate::runtime::forward::{
    dims_of, layer_plan, route_spec, Buffer, LayerKinds, LayerStep, Mode, Path, Projection, Weight,
};
use crate::runtime::kvcache::LayerRows;
use crate::runtime::model::LayerConfig;
use vstd::arithmetic::div_mod::lemma_fundamental_div_mod_converse;
use vstd::prelude::*;

verus! {

/// The arithmetic that the steps of a layer use.
#[verifier::reject_recursive_types(T)]
pub struct Arithmetic<T> {
    /// A row, normalized before attention or (`true`) before the feed-forward
    /// part.
    pub norm: spec_fn(bool, Seq<T>) -> Seq<T>,
    /// The product of a row and a weight, along a path.
    pub product: spec_fn(Weight, Path, Seq<T>) -> Seq<T>,
    /// A row, with a bias.
    pub bias: spec_fn(Weight, Seq<T>) -> Seq<T>,
    /// Two numbers rotated by the angle of a position and a place in the head.
    pub rotate: spec_fn(u32, int, T, T) -> (T, T),
    /// How well a query and a key agree.
    pub score: spec_fn(Seq<T>, Seq<T>) -> T,
    /// The softmax of scores.
    pub shares: spec_fn(Seq<T>) -> Seq<T>,
    /// The sum of numbers, weighted by shares.
    pub mix: spec_fn(Seq<T>, Seq<T>) -> T,
    pub plus: spec_fn(T, T) -> T,
    /// `SiLU(gate) * up`.
    pub gated: spec_fn(T, T) -> T,
}

/// What a pass holds between its steps.
#[verifier::reject_recursive_types(T)]
pub struct Pass<T> {
    pub held: Map<Buffer, Seq<T>>,
    pub cache: LayerRows<T>,
}

impl<T> Pass<T> {
    /// The pass, where a buffer holds other numbers.
    pub open spec fn put(self, b: Buffer, s: Seq<T>) -> Pass<T> {
        Pass { held: self.held.insert(b, s), ..self }
    }
}

/// No buffer holds anything.
pub open spec fn nothing_held<T>() -> Map<Buffer, Seq<T>> {
    Map::new(|b: Buffer| true, |b: Buffer| Seq::empty())
}

/// Row `t` of a buffer with rows of `d` numbers.
pub open spec fn row<T>(b: Seq<T>, t: int, d: nat) -> Seq<T> {
    b.subrange(t * d, (t + 1) * d)
}

/// `n` rows of `d` numbers, given by row and column.
pub open spec fn rowwise<T>(n: nat, d: nat, f: spec_fn(int, int) -> T) -> Seq<T> {
    Seq::new(n * d, |p: int| f(p / d as int, p % (d as int)))
}

/// A number of a row after the rotation of its heads: `i` turns with
/// `i + head_dim / 2`.
pub open spec fn turned<T>(m: Arithmetic<T>, head_dim: nat, pos: u32, r: Seq<T>, o: int) -> T {
    let half = head_dim as int / 2;
    let i = o % (head_dim as int);
    if i < half {
        (m.rotate)(pos, i, r[o], r[o + half]).0
    } else {
        (m.rotate)(pos, i - half, r[o - half], r[o]).1
    }
}

/// Number `d` of what a query gives: the values it sees, weighed by how well
/// the keys agree with it.
pub open spec fn head_number<T>(
    m: Arithmetic<T>,
    cfg: LayerConfig,
    q: Seq<T>,
    k: Seq<T>,
    v: Seq<T>,
    visible: nat,
    kv_head_at: nat,
    d: int,
) -> T {
    let kvd = cfg.kv_size();
    let hd = cfg.head_dim as nat;
    (m.mix)(
        (m.shares)(
            Seq::new(
                visible,
                |i: int|
                    (m.score)(q, k.subrange(i * kvd + kv_head_at, i * kvd + kv_head_at + hd)),
            ),
        ),
        Seq::new(visible, |i: int| v[i * kvd + kv_head_at + d]),
    )
}

/// What the queries of `n` tokens give, one after the other.
pub open spec fn attended<T>(
    m: Arithmetic<T>,
    cfg: LayerConfig,
    q: Seq<T>,
    k: Seq<T>,
    v: Seq<T>,
    t0: nat,
    n: nat,
) -> Seq<T> {
    let hd = cfg.head_dim as int;
    Seq::new(
        n * cfg.q_size(),
        |p: int|
            {
                let (at, visible, kv_head_at) = queries(cfg, t0, n)[p / hd];
                head_number(
                    m,
                    cfg,
                    q.subrange(at as int, at + hd),
                    k,
                    v,
                    visible,
                    kv_head_at,
                    p % hd,
                )
            },
    )
}

/// The normalized rows of a buffer.
pub open spec fn normed<T>(m: Arithmetic<T>, ffn: bool, n: nat, d: nat, b: Seq<T>) -> Seq<T> {
    rowwise(n, d, |t: int, o: int| (m.norm)(ffn, row(b, t, d))[o])
}

/// The rows of a buffer, multiplied with a weight.
pub open spec fn multiplied<T>(m: Arithmetic<T>, n: nat, p: Projection, b: Seq<T>) -> Seq<T> {
    rowwise(
        n,
        p.d_out as nat,
        |t: int, o: int| (m.product)(p.weight, p.path, row(b, t, p.d_in as nat))[o],
    )
}

/// The rows of a buffer, with a bias.
pub open spec fn biased<T>(m: Arithmetic<T>, w: Weight, n: nat, d: nat, b: Seq<T>) -> Seq<T> {
    rowwise(n, d, |t: int, o: int| (m.bias)(w, row(b, t, d))[o])
}

/// The rows of a buffer, each turned by its position.
pub open spec fn turned_rows<T>(
    m: Arithmetic<T>,
    head_dim: nat,
    positions: Seq<u32>,
    d: nat,
    b: Seq<T>,
) -> Seq<T> {
    rowwise(
        positions.len(),
        d,
        |t: int, o: int| turned(m, head_dim, positions[t], row(b, t, d), o),
    )
}

/// The rows of two buffers, the one gated and multiplied with the other.
pub open spec fn gated<T>(m: Arithmetic<T>, n: nat, d: nat, a: Seq<T>, b: Seq<T>) -> Seq<T> {
    rowwise(n, d, |t: int, o: int| (m.gated)(row(a, t, d)[o], row(b, t, d)[o]))
}

/// The sum of two buffers.
pub open spec fn summed<T>(m: Arithmetic<T>, n: nat, d: nat, a: Seq<T>, b: Seq<T>) -> Seq<T> {
    rowwise(n, d, |t: int, o: int| (m.plus)(row(a, t, d)[o], row(b, t, d)[o]))
}

/// What a step of a pass over `positions.len()` tokens does. `cached` says
/// whether the keys and values come from the cache.
pub open spec fn after_step<T>(
    m: Arithmetic<T>,
    cfg: LayerConfig,
    x: Seq<T>,
    positions: Seq<u32>,
    cached: bool,
    s: Pass<T>,
    step: LayerStep,
) -> Pass<T> {
    let n = positions.len();
    let h = cfg.hidden as nat;
    let hd = cfg.head_dim as nat;
    let ff = cfg.ffn_hidden as nat;
    let b = s.held;
    match step {
        LayerStep::AttnNorm => s.put(Buffer::Norm, normed(m, false, n, h, x)),
        LayerStep::Project(p) => match route_spec(p.weight) {
            Some((from, to)) => s.put(to, multiplied(m, n, p, b[from])),
            None => s,
        },
        LayerStep::AddBias(w) => match route_spec(w) {
            Some((_, to)) => s.put(to, biased(m, w, n, dims_of(cfg, w).1, b[to])),
            None => s,
        },
        LayerStep::Rope => s.put(
            Buffer::Q,
            turned_rows(m, hd, positions, cfg.q_size(), b[Buffer::Q]),
        ).put(Buffer::K, turned_rows(m, hd, positions, cfg.kv_size(), b[Buffer::K])),
        LayerStep::Append => Pass { cache: s.cache.appended(b[Buffer::K], b[Buffer::V]), ..s },
        LayerStep::Attend => s.put(
            Buffer::Attn,
            if cached {
                let before = (s.cache.len - n) as nat;
                attended(m, cfg, b[Buffer::Q], s.cache.k, s.cache.v, before, n)
            } else {
                attended(m, cfg, b[Buffer::Q], b[Buffer::K], b[Buffer::V], 0, n)
            },
        ),
        LayerStep::AttnResidual => s.put(Buffer::Resid, summed(m, n, h, x, b[Buffer::AttnOut])),
        LayerStep::FfnNorm => s.put(Buffer::Norm, normed(m, true, n, h, b[Buffer::Resid])),
        LayerStep::SiluMul => s.put(
            Buffer::Gate,
            gated(m, n, ff, b[Buffer::Gate], b[Buffer::Up]),
        ),
        LayerStep::FfnResidual => s.put(
            Buffer::Resid,
            summed(m, n, h, b[Buffer::Resid], b[Buffer::FfnOut]),
        ),
    }
}

/// What steps do, in order.
pub open spec fn after_steps<T>(
    m: Arithmetic<T>,
    cfg: LayerConfig,
    x: Seq<T>,
    positions: Seq<u32>,
    cached: bool,
    s: Pass<T>,
    steps: Seq<LayerStep>,
) -> Pass<T>
    decreases steps.len(),
{
    if steps.len() == 0 {
        s
    } else {
        after_steps(
            m,
            cfg,
            x,
            positions,
            cached,
            after_step(m, cfg, x, positions, cached, s, steps[0]),
            steps.drop_first(),
        )
    }
}

/// A layer: its sizes, its kinds of weights and its arithmetic.
#[verifier::reject_recursive_types(T)]
pub struct Layer<T> {
    pub cfg: LayerConfig,
    pub kinds: LayerKinds,
    pub math: Arithmetic<T>,
}

impl<T> Layer<T> {
    /// The sizes fit the machine, and the heads share their keys evenly.
    pub open spec fn ok(self) -> bool {
        &&& self.cfg.q_size() <= usize::MAX
        &&& self.cfg.kv_size() <= usize::MAX
        &&& heads_share_evenly(self.cfg)
    }

    /// A whole pass, from a cache and whatever the buffers held.
    pub open spec fn pass(
        self,
        mode: Mode,
        x: Seq<T>,
        positions: Seq<u32>,
        s: Pass<T>,
    ) -> Pass<T> {
        after_steps(
            self.math,
            self.cfg,
            x,
            positions,
            !(mode is Prefill),
            s,
            layer_plan(self.cfg, self.kinds, mode),
        )
    }

    /// What the tokens `x` give, taken all at once.
    pub open spec fn forward(self, x: Seq<T>, positions: Seq<u32>, s: Pass<T>) -> Seq<T> {
        self.pass(Mode::Prefill, x, positions, s).held[Buffer::Resid]
    }

    /// The pass over token `n - 1` after the tokens before it were taken one by
    /// one, from a cache.
    pub open spec fn decoded(
        self,
        x: Seq<T>,
        positions: Seq<u32>,
        cache: LayerRows<T>,
        n: nat,
    ) -> Pass<T>
        decreases n,
    {
        if n == 0 {
            Pass { held: nothing_held(), cache }
        } else {
            let t = n - 1;
            self.pass(
                Mode::Decode,
                row(x, t, self.cfg.hidden as nat),
                seq![positions[t]],
                Pass {
                    held: nothing_held(),
                    cache: self.decoded(x, positions, cache, t as nat).cache,
                },
            )
        }
    }
}

// ---- rows -----------------------------------------------------------------------------

/// A buffer holds `n` rows of `d` numbers, those that `f` says.
pub open spec fn holds_rows<T>(b: Seq<T>, n: nat, d: nat, f: spec_fn(int) -> Seq<T>) -> bool {
    &&& b.len() == n * d
    &&& forall|t: int| 0 <= t < n ==> #[trigger] row(b, t, d) == f(t)
}

pub(crate) proof fn lemma_place(n: nat, d: nat, t: int, o: int)
    requires
        0 <= t < n,
        0 <= o < d,
    ensures
        0 <= t * d + o < n * d,
        (t * d + o) / d as int == t,
        (t * d + o) % (d as int) == o,
        (t + 1) * d == t * d + d,
        (t + 1) * d <= n * d,
{
    assert((t + 1) * d == t * d + d) by (nonlinear_arith);
    assert((t + 1) * d <= n * d) by (nonlinear_arith)
        requires
            t + 1 <= n,
    ;
    assert(t * d >= 0) by (nonlinear_arith)
        requires
            t >= 0,
    ;
    lemma_fundamental_div_mod_converse(t * d + o, d as int, t, o);
}

pub(crate) proof fn lemma_row_bounds(n: nat, d: nat, t: int)
    requires
        0 <= t < n,
    ensures
        0 <= t * d <= (t + 1) * d <= n * d,
        (t + 1) * d == t * d + d,
{
    assert((t + 1) * d == t * d + d) by (nonlinear_arith);
    assert((t + 1) * d <= n * d) by (nonlinear_arith)
        requires
            t + 1 <= n,
    ;
    assert(t * d >= 0) by (nonlinear_arith)
        requires
            t >= 0,
    ;
}

/// The rows of numbers given by row and column.
pub(crate) proof fn lemma_rowwise<T>(n: nat, d: nat, f: spec_fn(int, int) -> T)
    ensures
        holds_rows(rowwise(n, d, f), n, d, |t: int| Seq::new(d, |o: int| f(t, o))),
{
    let b = rowwise(n, d, f);
    let g = |t: int| Seq::new(d, |o: int| f(t, o));
    assert forall|t: int| 0 <= t < n implies #[trigger] row(b, t, d) == g(t) by {
        lemma_row_bounds(n, d, t);
        assert forall|o: int| 0 <= o < d implies row(b, t, d)[o] == g(t)[o] by {
            lemma_place(n, d, t, o);
        }
        assert(row(b, t, d) =~= g(t));
    }
}

/// A row of a buffer has `d` numbers.
pub(crate) proof fn lemma_row_len<T>(b: Seq<T>, n: nat, d: nat, t: int)
    requires
        b.len() == n * d,
        0 <= t < n,
    ensures
        row(b, t, d).len() == d,
{
    lemma_row_bounds(n, d, t);
}

} // verus!
