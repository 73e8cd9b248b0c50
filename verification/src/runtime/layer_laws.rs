//! A layer's forward pass, token by token and all at once.
//!
//! The numbers and the arithmetic on them are parameters: what is stated holds
//! whatever they are.

use crate::runtime::attention::{
    all_rotated, heads_share_evenly, kv_head, lemma_heads_grouped, lemma_pair_fits, queries, query,
};
use crate::runtime::forward::{
    attention_plan, bias_plan, dims_of, ffn_plan, is_q8, layer_plan, lemma_kernels_keep_the_steps,
    path_of, product_with, qkv_plan, route_spec, step_if, what, whats, Buffer, LayerStep, Mode,
    Path, Projection, Weight,
};
use crate::runtime::kvcache::LayerRows;
use crate::runtime::layer::{
    after_step, after_steps, attended, biased, gated, head_number, lemma_place, lemma_row_bounds,
    lemma_row_len, lemma_rowwise, multiplied, normed, nothing_held, row, rowwise, summed, turned,
    turned_rows, Arithmetic, Layer, Pass,
};
use vstd::arithmetic::div_mod::{lemma_fundamental_div_mod, lemma_fundamental_div_mod_converse};
use vstd::prelude::*;

verus! {

// ---- one token ------------------------------------------------------------------------

impl<T> Layer<T> {
    /// A row, normalized.
    pub open spec fn normed_row(self, ffn: bool, r: Seq<T>) -> Seq<T> {
        Seq::new(self.cfg.hidden as nat, |o: int| (self.math.norm)(ffn, r)[o])
    }

    /// A row, multiplied with a weight.
    pub open spec fn product_row(self, mode: Mode, w: Weight, r: Seq<T>) -> Seq<T> {
        let (d_in, d_out) = dims_of(self.cfg, w);
        let path = path_of(mode, is_q8(self.kinds, w), d_in);
        Seq::new(d_out, |o: int| (self.math.product)(w, path, r)[o])
    }

    /// A row, with a bias where there is one.
    pub open spec fn bias_row(self, there: bool, w: Weight, r: Seq<T>) -> Seq<T> {
        if there {
            Seq::new(dims_of(self.cfg, w).1, |o: int| (self.math.bias)(w, r)[o])
        } else {
            r
        }
    }

    /// A row of `d` numbers, turned by its position.
    pub open spec fn turned_row(self, pos: u32, d: nat, r: Seq<T>) -> Seq<T> {
        Seq::new(d, |o: int| turned(self.math, self.cfg.head_dim as nat, pos, r, o))
    }

    /// The query of a token, before it is turned.
    pub open spec fn q_flat(self, mode: Mode, x: Seq<T>) -> Seq<T> {
        self.bias_row(
            self.kinds.b_q,
            Weight::Q,
            self.product_row(mode, Weight::Q, self.normed_row(false, x)),
        )
    }

    /// The key of a token, before it is turned.
    pub open spec fn k_flat(self, mode: Mode, x: Seq<T>) -> Seq<T> {
        self.bias_row(
            self.kinds.b_k,
            Weight::K,
            self.product_row(mode, Weight::K, self.normed_row(false, x)),
        )
    }

    /// The query of a token.
    pub open spec fn q_row(self, mode: Mode, pos: u32, x: Seq<T>) -> Seq<T> {
        self.turned_row(pos, self.cfg.q_size(), self.q_flat(mode, x))
    }

    /// The key of a token.
    pub open spec fn k_row(self, mode: Mode, pos: u32, x: Seq<T>) -> Seq<T> {
        self.turned_row(pos, self.cfg.kv_size(), self.k_flat(mode, x))
    }

    /// The value of a token.
    pub open spec fn v_row(self, mode: Mode, x: Seq<T>) -> Seq<T> {
        self.bias_row(
            self.kinds.b_v,
            Weight::V,
            self.product_row(mode, Weight::V, self.normed_row(false, x)),
        )
    }

    /// What the heads of a token give that sees `visible` tokens.
    pub open spec fn heads_row(self, q: Seq<T>, k: Seq<T>, v: Seq<T>, visible: nat) -> Seq<T> {
        let hd = self.cfg.head_dim as int;
        Seq::new(
            self.cfg.q_size(),
            |o: int|
                head_number(
                    self.math,
                    self.cfg,
                    q.subrange(o / hd * hd, o / hd * hd + hd),
                    k,
                    v,
                    visible,
                    kv_head(self.cfg, (o / hd) as nat) * self.cfg.head_dim as nat,
                    o % hd,
                ),
        )
    }

    /// The sum of two rows.
    pub open spec fn sum_row(self, a: Seq<T>, b: Seq<T>) -> Seq<T> {
        Seq::new(self.cfg.hidden as nat, |o: int| (self.math.plus)(a[o], b[o]))
    }

    /// A token after the attention part, given what its heads give.
    pub open spec fn resid_row(self, mode: Mode, x: Seq<T>, heads: Seq<T>) -> Seq<T> {
        self.sum_row(x, self.product_row(mode, Weight::O, heads))
    }

    /// What the feed-forward part adds to a token.
    pub open spec fn ffn_row(self, mode: Mode, resid: Seq<T>) -> Seq<T> {
        let r = self.normed_row(true, resid);
        let gate = self.product_row(mode, Weight::Gate, r);
        let up = self.product_row(mode, Weight::Up, r);
        self.product_row(
            mode,
            Weight::Down,
            Seq::new(self.cfg.ffn_hidden as nat, |o: int| (self.math.gated)(gate[o], up[o])),
        )
    }

    /// What a token becomes, given what its heads give.
    pub open spec fn out_row(self, mode: Mode, x: Seq<T>, heads: Seq<T>) -> Seq<T> {
        let resid = self.resid_row(mode, x, heads);
        self.sum_row(resid, self.ffn_row(mode, resid))
    }
}

// ---- steps, row by row ----------------------------------------------------------------

impl<T> Layer<T> {
    spec fn run(
        self,
        x: Seq<T>,
        positions: Seq<u32>,
        cached: bool,
        s: Pass<T>,
        steps: Seq<LayerStep>,
    ) -> Pass<T> {
        after_steps(self.math, self.cfg, x, positions, cached, s, steps)
    }

    spec fn step(
        self,
        x: Seq<T>,
        positions: Seq<u32>,
        cached: bool,
        s: Pass<T>,
        step: LayerStep,
    ) -> Pass<T> {
        after_step(self.math, self.cfg, x, positions, cached, s, step)
    }

    proof fn lemma_concat(
        self,
        x: Seq<T>,
        positions: Seq<u32>,
        cached: bool,
        s: Pass<T>,
        a: Seq<LayerStep>,
        b: Seq<LayerStep>,
    )
        ensures
            self.run(x, positions, cached, s, a + b) == self.run(
                x,
                positions,
                cached,
                self.run(x, positions, cached, s, a),
                b,
            ),
        decreases a.len(),
    {
        if a.len() == 0 {
            assert(a + b =~= b);
        } else {
            assert((a + b).drop_first() =~= a.drop_first() + b);
            let y = self.step(x, positions, cached, s, a[0]);
            self.lemma_concat(x, positions, cached, y, a.drop_first(), b);
        }
    }

    proof fn lemma_normed(self, ffn: bool, n: nat, b: Seq<T>, t: int)
        requires
            0 <= t < n,
        ensures
            row(normed(self.math, ffn, n, self.cfg.hidden as nat, b), t, self.cfg.hidden as nat)
                == self.normed_row(ffn, row(b, t, self.cfg.hidden as nat)),
    {
        let d = self.cfg.hidden as nat;
        let f = |t: int, o: int| (self.math.norm)(ffn, row(b, t, d))[o];
        lemma_rowwise(n, d, f);
        assert(normed(self.math, ffn, n, d, b) =~= rowwise(n, d, f));
        assert(row(rowwise(n, d, f), t, d) =~= self.normed_row(ffn, row(b, t, d)));
    }

    proof fn lemma_multiplied(self, mode: Mode, w: Weight, n: nat, b: Seq<T>, t: int)
        requires
            0 <= t < n,
            self.cfg.q_size() <= usize::MAX,
            self.cfg.kv_size() <= usize::MAX,
            w !is LmHead,
        ensures
            product_with(self.cfg, self.kinds, mode, w) matches LayerStep::Project(p) && row(
                multiplied(self.math, n, p, b),
                t,
                dims_of(self.cfg, w).1,
            ) == self.product_row(mode, w, row(b, t, dims_of(self.cfg, w).0)),
    {
        let (d_in, d) = dims_of(self.cfg, w);
        let p = product_with(self.cfg, self.kinds, mode, w)->Project_0;
        let f = |t: int, o: int| (self.math.product)(p.weight, p.path, row(b, t, p.d_in as nat))[o];
        lemma_rowwise(n, d, f);
        assert(multiplied(self.math, n, p, b) =~= rowwise(n, d, f));
        assert(row(rowwise(n, d, f), t, d) =~= self.product_row(mode, w, row(b, t, d_in)));
    }

    proof fn lemma_biased(self, w: Weight, n: nat, b: Seq<T>, t: int)
        requires
            0 <= t < n,
        ensures
            row(biased(self.math, w, n, dims_of(self.cfg, w).1, b), t, dims_of(self.cfg, w).1)
                == self.bias_row(true, w, row(b, t, dims_of(self.cfg, w).1)),
    {
        let d = dims_of(self.cfg, w).1;
        let f = |t: int, o: int| (self.math.bias)(w, row(b, t, d))[o];
        lemma_rowwise(n, d, f);
        assert(biased(self.math, w, n, d, b) =~= rowwise(n, d, f));
        assert(row(rowwise(n, d, f), t, d) =~= self.bias_row(true, w, row(b, t, d)));
    }

    pub(crate) proof fn lemma_turned(self, positions: Seq<u32>, d: nat, b: Seq<T>, t: int)
        requires
            0 <= t < positions.len(),
        ensures
            row(turned_rows(self.math, self.cfg.head_dim as nat, positions, d, b), t, d)
                == self.turned_row(positions[t], d, row(b, t, d)),
    {
        let n = positions.len();
        let hd = self.cfg.head_dim as nat;
        let f = |t: int, o: int| turned(self.math, hd, positions[t], row(b, t, d), o);
        lemma_rowwise(n, d, f);
        assert(turned_rows(self.math, hd, positions, d, b) =~= rowwise(n, d, f));
        assert(row(rowwise(n, d, f), t, d) =~= self.turned_row(positions[t], d, row(b, t, d)));
    }

    proof fn lemma_summed(self, n: nat, a: Seq<T>, b: Seq<T>, t: int)
        requires
            0 <= t < n,
        ensures
            row(summed(self.math, n, self.cfg.hidden as nat, a, b), t, self.cfg.hidden as nat)
                == self.sum_row(
                row(a, t, self.cfg.hidden as nat),
                row(b, t, self.cfg.hidden as nat),
            ),
    {
        let d = self.cfg.hidden as nat;
        let f = |t: int, o: int| (self.math.plus)(row(a, t, d)[o], row(b, t, d)[o]);
        lemma_rowwise(n, d, f);
        assert(summed(self.math, n, d, a, b) =~= rowwise(n, d, f));
        assert(row(rowwise(n, d, f), t, d) =~= self.sum_row(row(a, t, d), row(b, t, d)));
    }

    proof fn lemma_gated(self, n: nat, a: Seq<T>, b: Seq<T>, t: int)
        requires
            0 <= t < n,
        ensures
            ({
                let d = self.cfg.ffn_hidden as nat;
                let (g, u) = (row(a, t, d), row(b, t, d));
                row(gated(self.math, n, d, a, b), t, d) == Seq::new(
                    d,
                    |o: int| (self.math.gated)(g[o], u[o]),
                )
            }),
    {
        let d = self.cfg.ffn_hidden as nat;
        let f = |t: int, o: int| (self.math.gated)(row(a, t, d)[o], row(b, t, d)[o]);
        lemma_rowwise(n, d, f);
        assert(gated(self.math, n, d, a, b) =~= rowwise(n, d, f));
        let (g, u) = (row(a, t, d), row(b, t, d));
        assert(row(rowwise(n, d, f), t, d) =~= Seq::new(
            d,
            |o: int| (self.math.gated)(g[o], u[o]),
        ));
    }
}

impl<T> Layer<T> {
    /// What the heads of token `t` give.
    pub(crate) proof fn lemma_attended(self, q: Seq<T>, k: Seq<T>, v: Seq<T>, t0: nat, n: nat, t: int)
        requires
            0 <= t < n,
            q.len() == n * self.cfg.q_size(),
        ensures
            row(attended(self.math, self.cfg, q, k, v, t0, n), t, self.cfg.q_size())
                == self.heads_row(row(q, t, self.cfg.q_size()), k, v, (t0 + t + 1) as nat),
    {
        let b = attended(self.math, self.cfg, q, k, v, t0, n);
        let qd = self.cfg.q_size();
        let qr = row(q, t, qd);
        let r = self.heads_row(qr, k, v, (t0 + t + 1) as nat);
        lemma_row_bounds(n, qd, t);
        assert forall|o: int| 0 <= o < qd implies #[trigger] row(b, t, qd)[o] == r[o] by {
            let hd = self.cfg.head_dim as int;
            let h = self.cfg.n_heads as int;
            let at = t * qd;
            let p = at + o;
            lemma_place(n, qd, t, o);
            assert(row(b, t, qd)[o] == b[p]);
            lemma_head_place(h as nat, hd as nat, t, o);
            let head = o / hd;
            let j = t * h + head;
            lemma_place(n, h as nat, t, head);
            assert(queries(self.cfg, t0, n)[j] == query(self.cfg, t0, t as nat, head as nat));
            assert(q.subrange(at + head * hd, at + head * hd + hd) =~= qr.subrange(
                head * hd,
                head * hd + hd,
            ));
        }
        assert(row(b, t, qd) =~= r);
    }

    /// The products for queries, keys and values.
    proof fn lemma_qkv(
        self,
        mode: Mode,
        x: Seq<T>,
        positions: Seq<u32>,
        cached: bool,
        s: Pass<T>,
        t: int,
    )
        requires
            self.cfg.q_size() <= usize::MAX,
            self.cfg.kv_size() <= usize::MAX,
            0 <= t < positions.len(),
        ensures
            ({
                let n = positions.len();
                let y = self.run(x, positions, cached, s, qkv_plan(self.cfg, self.kinds, mode));
                let r = self.normed_row(false, row(x, t, self.cfg.hidden as nat));
                let b = y.held;
                &&& y.cache == s.cache
                &&& b[Buffer::Q].len() == n * self.cfg.q_size()
                &&& b[Buffer::K].len() == n * self.cfg.kv_size()
                &&& b[Buffer::V].len() == n * self.cfg.kv_size()
                &&& row(b[Buffer::Q], t, self.cfg.q_size()) == self.product_row(mode, Weight::Q, r)
                &&& row(b[Buffer::K], t, self.cfg.kv_size()) == self.product_row(mode, Weight::K, r)
                &&& row(b[Buffer::V], t, self.cfg.kv_size()) == self.product_row(mode, Weight::V, r)
            }),
    {
        let n = positions.len();
        let plan = qkv_plan(self.cfg, self.kinds, mode);
        reveal_with_fuel(after_steps, 6);
        let s1 = self.step(x, positions, cached, s, plan[0]);
        let s2 = self.step(x, positions, cached, s1, plan[1]);
        let s3 = self.step(x, positions, cached, s2, plan[2]);
        let s4 = self.step(x, positions, cached, s3, plan[3]);
        assert(self.run(x, positions, cached, s, plan) == s4);
        let norm = s1.held[Buffer::Norm];
        self.lemma_normed(false, n, x, t);
        self.lemma_multiplied(mode, Weight::Q, n, norm, t);
        self.lemma_multiplied(mode, Weight::K, n, norm, t);
        self.lemma_multiplied(mode, Weight::V, n, norm, t);
    }

    /// One bias.
    proof fn lemma_bias_step(
        self,
        x: Seq<T>,
        positions: Seq<u32>,
        cached: bool,
        s: Pass<T>,
        there: bool,
        w: Weight,
        to: Buffer,
        t: int,
    )
        requires
            0 <= t < positions.len(),
            route_spec(w) matches Some(r) && r.1 == to,
            s.held[to].len() == positions.len() * dims_of(self.cfg, w).1,
        ensures
            ({
                let d = dims_of(self.cfg, w).1;
                let y = self.run(
                    x,
                    positions,
                    cached,
                    s,
                    step_if(there, LayerStep::AddBias(w)),
                );
                &&& y.cache == s.cache
                &&& y.held[to].len() == positions.len() * d
                &&& row(y.held[to], t, d) == self.bias_row(there, w, row(s.held[to], t, d))
                &&& forall|b: Buffer| b != to ==> #[trigger] y.held[b] == s.held[b]
            }),
    {
        reveal_with_fuel(after_steps, 3);
        if there {
            self.lemma_biased(w, positions.len(), s.held[to], t);
        }
    }

    /// The biases.
    proof fn lemma_biases(
        self,
        x: Seq<T>,
        positions: Seq<u32>,
        cached: bool,
        s: Pass<T>,
        t: int,
    )
        requires
            0 <= t < positions.len(),
            s.held[Buffer::Q].len() == positions.len() * self.cfg.q_size(),
            s.held[Buffer::K].len() == positions.len() * self.cfg.kv_size(),
            s.held[Buffer::V].len() == positions.len() * self.cfg.kv_size(),
        ensures
            ({
                let n = positions.len();
                let y = self.run(x, positions, cached, s, bias_plan(self.kinds));
                let (qd, kvd) = (self.cfg.q_size(), self.cfg.kv_size());
                let b = y.held;
                &&& y.cache == s.cache
                &&& b[Buffer::Q].len() == n * qd
                &&& b[Buffer::K].len() == n * kvd
                &&& b[Buffer::V].len() == n * kvd
                &&& row(b[Buffer::Q], t, qd) == self.bias_row(
                    self.kinds.b_q,
                    Weight::Q,
                    row(s.held[Buffer::Q], t, qd),
                )
                &&& row(b[Buffer::K], t, kvd) == self.bias_row(
                    self.kinds.b_k,
                    Weight::K,
                    row(s.held[Buffer::K], t, kvd),
                )
                &&& row(b[Buffer::V], t, kvd) == self.bias_row(
                    self.kinds.b_v,
                    Weight::V,
                    row(s.held[Buffer::V], t, kvd),
                )
            }),
    {
        let b1 = step_if(self.kinds.b_q, LayerStep::AddBias(Weight::Q));
        let b2 = step_if(self.kinds.b_k, LayerStep::AddBias(Weight::K));
        let b3 = step_if(self.kinds.b_v, LayerStep::AddBias(Weight::V));
        self.lemma_concat(x, positions, cached, s, b1 + b2, b3);
        self.lemma_concat(x, positions, cached, s, b1, b2);
        let s1 = self.run(x, positions, cached, s, b1);
        self.lemma_bias_step(x, positions, cached, s, self.kinds.b_q, Weight::Q, Buffer::Q, t);
        let s2 = self.run(x, positions, cached, s1, b2);
        self.lemma_bias_step(x, positions, cached, s1, self.kinds.b_k, Weight::K, Buffer::K, t);
        self.lemma_bias_step(x, positions, cached, s2, self.kinds.b_v, Weight::V, Buffer::V, t);
    }

    /// The keys and values that are attended to after a pass.
    pub(crate) open spec fn seen(mode: Mode, y: Pass<T>) -> (Seq<T>, Seq<T>) {
        if mode is Prefill {
            (y.held[Buffer::K], y.held[Buffer::V])
        } else {
            (y.cache.k, y.cache.v)
        }
    }

    /// From the rotation to the attention.
    proof fn lemma_attention(
        self,
        mode: Mode,
        x: Seq<T>,
        positions: Seq<u32>,
        s: Pass<T>,
        t: int,
    )
        requires
            0 <= t < positions.len(),
            !(mode is Prefill) ==> positions.len() == 1,
        ensures
            ({
                let n = positions.len();
                let y = self.run(
                    x,
                    positions,
                    !(mode is Prefill),
                    s,
                    attention_plan(mode),
                );
                let (qd, kvd) = (self.cfg.q_size(), self.cfg.kv_size());
                let b = y.held;
                let (k, v) = Self::seen(mode, y);
                let before = if mode is Prefill {
                    0nat
                } else {
                    s.cache.len
                };
                &&& y.cache == if mode is Prefill {
                    s.cache
                } else {
                    s.cache.appended(b[Buffer::K], b[Buffer::V])
                }
                &&& b[Buffer::V] == s.held[Buffer::V]
                &&& b[Buffer::K].len() == n * kvd
                &&& row(b[Buffer::K], t, kvd) == self.turned_row(
                    positions[t],
                    kvd,
                    row(s.held[Buffer::K], t, kvd),
                )
                &&& row(b[Buffer::Attn], t, qd) == self.heads_row(
                    self.turned_row(positions[t], qd, row(s.held[Buffer::Q], t, qd)),
                    k,
                    v,
                    (before + t + 1) as nat,
                )
            }),
    {
        let n = positions.len();
        let cached = !(mode is Prefill);
        let (qd, kvd) = (self.cfg.q_size(), self.cfg.kv_size());
        let a = seq![LayerStep::Rope];
        let b = step_if(cached, LayerStep::Append);
        let c = seq![LayerStep::Attend];
        self.lemma_concat(x, positions, cached, s, a + b, c);
        self.lemma_concat(x, positions, cached, s, a, b);
        reveal_with_fuel(after_steps, 3);
        let s1 = self.step(x, positions, cached, s, LayerStep::Rope);
        assert(self.run(x, positions, cached, s, a) == s1);
        let s2 = self.run(x, positions, cached, s1, b);
        let s3 = self.step(x, positions, cached, s2, LayerStep::Attend);
        assert(self.run(x, positions, cached, s2, c) == s3);
        self.lemma_turned(positions, qd, s.held[Buffer::Q], t);
        self.lemma_turned(positions, kvd, s.held[Buffer::K], t);
        let q = s1.held[Buffer::Q];
        assert(q == turned_rows(
            self.math,
            self.cfg.head_dim as nat,
            positions,
            qd,
            s.held[Buffer::Q],
        ));
        if cached {
            self.lemma_attended(q, s2.cache.k, s2.cache.v, s.cache.len, n, t);
        } else {
            self.lemma_attended(q, s2.held[Buffer::K], s2.held[Buffer::V], 0, n, t);
        }
    }

    /// What follows the attention.
    proof fn lemma_ffn(
        self,
        mode: Mode,
        x: Seq<T>,
        positions: Seq<u32>,
        cached: bool,
        s: Pass<T>,
        t: int,
    )
        requires
            self.cfg.q_size() <= usize::MAX,
            self.cfg.kv_size() <= usize::MAX,
            0 <= t < positions.len(),
        ensures
            ({
                let n = positions.len();
                let h = self.cfg.hidden as nat;
                let y = self.run(x, positions, cached, s, ffn_plan(self.cfg, self.kinds, mode));
                &&& y.cache == s.cache
                &&& y.held[Buffer::K] == s.held[Buffer::K]
                &&& y.held[Buffer::V] == s.held[Buffer::V]
                &&& y.held[Buffer::Resid].len() == n * h
                &&& row(y.held[Buffer::Resid], t, h) == self.out_row(
                    mode,
                    row(x, t, h),
                    row(s.held[Buffer::Attn], t, self.cfg.q_size()),
                )
            }),
    {
        let n = positions.len();
        let h = self.cfg.hidden as nat;
        let plan = ffn_plan(self.cfg, self.kinds, mode);
        reveal_with_fuel(after_steps, 10);
        let s1 = self.step(x, positions, cached, s, plan[0]);
        let s2 = self.step(x, positions, cached, s1, plan[1]);
        let s3 = self.step(x, positions, cached, s2, plan[2]);
        let s4 = self.step(x, positions, cached, s3, plan[3]);
        let s5 = self.step(x, positions, cached, s4, plan[4]);
        let s6 = self.step(x, positions, cached, s5, plan[5]);
        let s7 = self.step(x, positions, cached, s6, plan[6]);
        let s8 = self.step(x, positions, cached, s7, plan[7]);
        assert(self.run(x, positions, cached, s, plan) == s8);
        self.lemma_multiplied(mode, Weight::O, n, s.held[Buffer::Attn], t);
        self.lemma_summed(n, x, s1.held[Buffer::AttnOut], t);
        self.lemma_normed(true, n, s2.held[Buffer::Resid], t);
        self.lemma_multiplied(mode, Weight::Gate, n, s3.held[Buffer::Norm], t);
        self.lemma_multiplied(mode, Weight::Up, n, s4.held[Buffer::Norm], t);
        self.lemma_gated(n, s5.held[Buffer::Gate], s5.held[Buffer::Up], t);
        self.lemma_multiplied(mode, Weight::Down, n, s6.held[Buffer::Gate], t);
        self.lemma_summed(n, s7.held[Buffer::Resid], s7.held[Buffer::FfnOut], t);
    }
}

/// Where a number of a row stands among the heads.
proof fn lemma_head_place(h: nat, hd: nat, t: int, o: int)
    requires
        0 <= o < h * hd,
        0 <= t,
    ensures
        hd > 0,
        h > 0,
        0 <= o / hd as int,
        o / (hd as int) < h,
        (t * (h * hd) + o) / hd as int == t * h + o / hd as int,
        (t * (h * hd) + o) % (hd as int) == o % (hd as int),
        0 <= o / hd as int * hd,
        o / hd as int * hd + hd <= h * hd,
        0 <= o % (hd as int) < hd,
{
    assert(hd > 0 && h > 0) by (nonlinear_arith)
        requires
            0 <= o < h * hd,
    ;
    let d = hd as int;
    let head = o / d;
    let r = o % d;
    lemma_fundamental_div_mod(o, d);
    assert(0 <= head < h) by (nonlinear_arith)
        requires
            o == d * head + r,
            0 <= r < d,
            0 <= o < h * d,
    ;
    assert(t * (h * d) + o == d * (t * h + head) + r) by (nonlinear_arith)
        requires
            o == d * head + r,
    ;
    lemma_fundamental_div_mod_converse(t * (h * d) + o, d, t * h + head, r);
    assert(0 <= head * d && head * d + d <= h * d) by (nonlinear_arith)
        requires
            0 <= head,
            head + 1 <= h,
            d > 0,
    ;
}

// ---- whole passes ---------------------------------------------------------------------

impl<T> Layer<T> {
    /// What a pass makes of token `t`.
    pub(crate) proof fn lemma_pass(self, mode: Mode, x: Seq<T>, positions: Seq<u32>, s: Pass<T>, t: int)
        requires
            self.cfg.q_size() <= usize::MAX,
            self.cfg.kv_size() <= usize::MAX,
            0 <= t < positions.len(),
            !(mode is Prefill) ==> positions.len() == 1,
        ensures
            ({
                let n = positions.len();
                let y = self.pass(mode, x, positions, s);
                let (h, kvd) = (self.cfg.hidden as nat, self.cfg.kv_size());
                let b = y.held;
                let xr = row(x, t, h);
                let (k, v) = Self::seen(mode, y);
                let before = if mode is Prefill {
                    0nat
                } else {
                    s.cache.len
                };
                &&& y.cache == if mode is Prefill {
                    s.cache
                } else {
                    s.cache.appended(b[Buffer::K], b[Buffer::V])
                }
                &&& b[Buffer::K].len() == n * kvd
                &&& b[Buffer::V].len() == n * kvd
                &&& b[Buffer::Resid].len() == n * h
                &&& row(b[Buffer::K], t, kvd) == self.k_row(mode, positions[t], xr)
                &&& row(b[Buffer::V], t, kvd) == self.v_row(mode, xr)
                &&& row(b[Buffer::Resid], t, h) == self.out_row(
                    mode,
                    xr,
                    self.heads_row(
                        self.q_row(mode, positions[t], xr),
                        k,
                        v,
                        (before + t + 1) as nat,
                    ),
                )
            }),
    {
        let cached = !(mode is Prefill);
        let p1 = qkv_plan(self.cfg, self.kinds, mode);
        let p2 = bias_plan(self.kinds);
        let p3 = attention_plan(mode);
        let p4 = ffn_plan(self.cfg, self.kinds, mode);
        self.lemma_concat(x, positions, cached, s, p1 + p2 + p3, p4);
        self.lemma_concat(x, positions, cached, s, p1 + p2, p3);
        self.lemma_concat(x, positions, cached, s, p1, p2);
        let s1 = self.run(x, positions, cached, s, p1);
        self.lemma_qkv(mode, x, positions, cached, s, t);
        let s2 = self.run(x, positions, cached, s1, p2);
        self.lemma_biases(x, positions, cached, s1, t);
        let s3 = self.run(x, positions, cached, s2, p3);
        self.lemma_attention(mode, x, positions, s2, t);
        self.lemma_ffn(mode, x, positions, cached, s3, t);
    }

    /// The heads of a token read no further than the rows that it sees.
    proof fn lemma_heads_read(
        self,
        q: Seq<T>,
        k: Seq<T>,
        v: Seq<T>,
        k2: Seq<T>,
        v2: Seq<T>,
        visible: nat,
    )
        requires
            heads_share_evenly(self.cfg),
            ({
                let n = (visible * self.cfg.kv_size()) as int;
                &&& n <= k.len() && n <= v.len() && n <= k2.len() && n <= v2.len()
                &&& k.subrange(0, n) == k2.subrange(0, n)
                &&& v.subrange(0, n) == v2.subrange(0, n)
            }),
        ensures
            self.heads_row(q, k, v, visible) == self.heads_row(q, k2, v2, visible),
    {
        let cfg = self.cfg;
        let kvd = cfg.kv_size();
        let hd = cfg.head_dim as nat;
        let n = (visible * kvd) as int;
        let a = self.heads_row(q, k, v, visible);
        let b = self.heads_row(q, k2, v2, visible);
        assert forall|o: int| 0 <= o < cfg.q_size() implies a[o] == b[o] by {
            lemma_head_place(cfg.n_heads as nat, hd, 0, o);
            let head = o / hd as int;
            let d = o % (hd as int);
            let kv = kv_head(cfg, head as nat);
            lemma_heads_grouped(cfg, head as nat, kv);
            let at = (kv * hd) as int;
            assert(at + hd <= kvd) by (nonlinear_arith)
                requires
                    at == kv * hd,
                    kv + 1 <= cfg.n_kv_heads,
                    kvd == cfg.n_kv_heads * hd,
            ;
            assert(at >= 0);
            let qr = q.subrange(head * hd, head * hd + hd);
            let keys = Seq::new(
                visible,
                |i: int| (self.math.score)(qr, k.subrange(i * kvd + at, i * kvd + at + hd)),
            );
            let keys2 = Seq::new(
                visible,
                |i: int| (self.math.score)(qr, k2.subrange(i * kvd + at, i * kvd + at + hd)),
            );
            let values = Seq::new(visible, |i: int| v[i * kvd + at + d]);
            let values2 = Seq::new(visible, |i: int| v2[i * kvd + at + d]);
            assert forall|i: int|
                #![trigger keys[i]]
                #![trigger values[i]]
                0 <= i < visible implies keys[i] == keys2[i] && values[i] == values2[i] by {
                lemma_row_bounds(visible, kvd, i);
                let from = i * kvd + at;
                assert(k.subrange(from, from + hd) =~= k.subrange(0, n).subrange(from, from + hd));
                assert(k2.subrange(from, from + hd) =~= k2.subrange(0, n).subrange(
                    from,
                    from + hd,
                ));
                assert(v[from + d] == v.subrange(0, n)[from + d]);
                assert(v2[from + d] == v2.subrange(0, n)[from + d]);
            }
            assert(keys =~= keys2);
            assert(values =~= values2);
            assert(a[o] == (self.math.mix)((self.math.shares)(keys), values));
            assert(b[o] == (self.math.mix)((self.math.shares)(keys2), values2));
        }
        assert(a =~= b);
    }

    /// Passes over all tokens and over one take the same paths.
    proof fn lemma_same_paths(self, pos: u32, x: Seq<T>, heads: Seq<T>)
        ensures
            self.k_row(Mode::Decode, pos, x) == self.k_row(Mode::Prefill, pos, x),
            self.v_row(Mode::Decode, x) == self.v_row(Mode::Prefill, x),
            self.q_row(Mode::Decode, pos, x) == self.q_row(Mode::Prefill, pos, x),
            self.out_row(Mode::Decode, x, heads) == self.out_row(Mode::Prefill, x, heads),
    {
        assert forall|w: Weight, r: Seq<T>| #[trigger]
            self.product_row(Mode::Decode, w, r) == self.product_row(Mode::Prefill, w, r) by {
            assert(self.product_row(Mode::Decode, w, r) =~= self.product_row(Mode::Prefill, w, r));
        }
    }

    /// After `n` tokens the cache holds their keys and values.
    proof fn lemma_cache_after(
        self,
        x: Seq<T>,
        positions: Seq<u32>,
        all: Pass<T>,
        empty: LayerRows<T>,
        n: nat,
    )
        requires
            self.ok(),
            x.len() == positions.len() * self.cfg.hidden,
            empty.k.len() == 0,
            empty.v.len() == 0,
            empty.len == 0,
            n <= positions.len(),
        ensures
            ({
                let y = self.pass(Mode::Prefill, x, positions, all).held;
                let c = self.decoded(x, positions, empty, n).cache;
                let d = (n * self.cfg.kv_size()) as int;
                &&& c.len == n
                &&& 0 <= d
                &&& n > 0 ==> d <= y[Buffer::K].len() && d <= y[Buffer::V].len()
                &&& n > 0 ==> c.k == y[Buffer::K].subrange(0, d)
                &&& n > 0 ==> c.v == y[Buffer::V].subrange(0, d)
                &&& c.k.len() == d && c.v.len() == d
            }),
        decreases n,
    {
        let kvd = self.cfg.kv_size();
        let h = self.cfg.hidden as nat;
        if n == 0 {
            assert(0 * kvd == 0);
        } else {
            let t = n - 1;
            self.lemma_cache_after(x, positions, all, empty, t as nat);
            let y = self.pass(Mode::Prefill, x, positions, all).held;
            self.lemma_pass(Mode::Prefill, x, positions, all, t);
            let before = Pass {
                held: nothing_held(),
                cache: self.decoded(x, positions, empty, t as nat).cache,
            };
            let xr = row(x, t, h);
            let one = seq![positions[t]];
            self.lemma_pass(Mode::Decode, xr, one, before, 0);
            let b = self.pass(Mode::Decode, xr, one, before).held;
            lemma_row_len(x, positions.len(), h, t);
            assert(row(xr, 0, h) =~= xr);
            assert(row(b[Buffer::K], 0, kvd) =~= b[Buffer::K]);
            assert(row(b[Buffer::V], 0, kvd) =~= b[Buffer::V]);
            self.lemma_same_paths(positions[t], xr, xr);
            lemma_row_bounds(positions.len(), kvd, t);
            let (k, v) = (y[Buffer::K], y[Buffer::V]);
            assert(b[Buffer::K] == row(k, t, kvd));
            assert(b[Buffer::V] == row(v, t, kvd));
            let c = self.decoded(x, positions, empty, n).cache;
            assert(c.k =~= k.subrange(0, (n * kvd) as int));
            assert(c.v =~= v.subrange(0, (n * kvd) as int));
        }
    }
}

// ---- laws -----------------------------------------------------------------------------

/// What makes token-by-token generation correct: whatever the arithmetic, a
/// token that is decoded after those before it, with their keys and values in
/// the cache, becomes what it becomes when all tokens are taken at once. The
/// cache then holds a row for each token so far.
pub proof fn lemma_decode_matches_prefill<T>(
    l: Layer<T>,
    x: Seq<T>,
    positions: Seq<u32>,
    all: Pass<T>,
    empty: LayerRows<T>,
    t: int,
)
    requires
        l.ok(),
        x.len() == positions.len() * l.cfg.hidden,
        empty.k.len() == 0,
        empty.v.len() == 0,
        empty.len == 0,
        0 <= t < positions.len(),
    ensures
        ({
            let one = l.decoded(x, positions, empty, (t + 1) as nat);
            &&& one.held[Buffer::Resid] == row(
                l.forward(x, positions, all),
                t,
                l.cfg.hidden as nat,
            )
            &&& one.cache.len == t + 1
        }),
{
    let h = l.cfg.hidden as nat;
    let kvd = l.cfg.kv_size();
    let y = l.pass(Mode::Prefill, x, positions, all);
    l.lemma_pass(Mode::Prefill, x, positions, all, t);
    let before = Pass {
        held: nothing_held(),
        cache: l.decoded(x, positions, empty, t as nat).cache,
    };
    let xr = row(x, t, h);
    let one = seq![positions[t]];
    l.lemma_pass(Mode::Decode, xr, one, before, 0);
    l.lemma_cache_after(x, positions, all, empty, t as nat);
    l.lemma_cache_after(x, positions, all, empty, (t + 1) as nat);
    let z = l.pass(Mode::Decode, xr, one, before);
    assert(z == l.decoded(x, positions, empty, (t + 1) as nat));
    lemma_row_len(x, positions.len(), h, t);
    assert(row(xr, 0, h) =~= xr);
    assert(row(z.held[Buffer::Resid], 0, h) =~= z.held[Buffer::Resid]);
    let q = l.q_row(Mode::Prefill, positions[t], xr);
    let n = ((t + 1) as nat * kvd) as int;
    let (k, v) = (y.held[Buffer::K], y.held[Buffer::V]);
    assert(z.cache.k =~= z.cache.k.subrange(0, n));
    assert(z.cache.v =~= z.cache.v.subrange(0, n));
    l.lemma_heads_read(q, k, v, z.cache.k, z.cache.v, (t + 1) as nat);
    l.lemma_same_paths(positions[t], xr, l.heads_row(q, k, v, (t + 1) as nat));
}

/// A token does not see what comes after it: whatever the arithmetic, the first
/// `n` tokens become the same whether or not more tokens follow.
pub proof fn lemma_attention_is_causal<T>(
    l: Layer<T>,
    x: Seq<T>,
    positions: Seq<u32>,
    all: Pass<T>,
    some: Pass<T>,
    n: nat,
    t: int,
)
    requires
        l.ok(),
        x.len() == positions.len() * l.cfg.hidden,
        0 <= t < n <= positions.len(),
    ensures
        ({
            let h = l.cfg.hidden as nat;
            row(l.forward(x, positions, all), t, h) == row(
                l.forward(x.subrange(0, (n * h) as int), positions.subrange(0, n as int), some),
                t,
                h,
            )
        }),
{
    let h = l.cfg.hidden as nat;
    let kvd = l.cfg.kv_size();
    let m = positions.len();
    lemma_row_bounds(m, h, n - 1);
    let x2 = x.subrange(0, (n * h) as int);
    let p2 = positions.subrange(0, n as int);
    let y = l.pass(Mode::Prefill, x, positions, all).held;
    let y2 = l.pass(Mode::Prefill, x2, p2, some).held;
    l.lemma_pass(Mode::Prefill, x, positions, all, t);
    l.lemma_pass(Mode::Prefill, x2, p2, some, t);
    let last = ((t + 1) as nat * kvd) as int;
    lemma_row_bounds(m, kvd, t);
    lemma_row_bounds(n, kvd, t);
    lemma_row_bounds(n, h, t);
    assert(row(x2, t, h) =~= row(x, t, h));
    lemma_same_prefix(l, x, positions, all, some, n, (t + 1) as nat);
    l.lemma_heads_read(
        l.q_row(Mode::Prefill, positions[t], row(x, t, h)),
        y[Buffer::K],
        y[Buffer::V],
        y2[Buffer::K],
        y2[Buffer::V],
        (t + 1) as nat,
    );
}

/// The keys and values of the first `c` tokens are the same.
proof fn lemma_same_prefix<T>(
    l: Layer<T>,
    x: Seq<T>,
    positions: Seq<u32>,
    all: Pass<T>,
    some: Pass<T>,
    n: nat,
    c: nat,
)
    requires
        l.ok(),
        x.len() == positions.len() * l.cfg.hidden,
        0 < n <= positions.len(),
        c <= n,
    ensures
        ({
            let x2 = x.subrange(0, (n * l.cfg.hidden as nat) as int);
            let y = l.pass(Mode::Prefill, x, positions, all).held;
            let y2 = l.pass(Mode::Prefill, x2, positions.subrange(0, n as int), some).held;
            let d = (c * l.cfg.kv_size()) as int;
            &&& d <= y[Buffer::K].len() && d <= y[Buffer::V].len()
            &&& d <= y2[Buffer::K].len() && d <= y2[Buffer::V].len()
            &&& y[Buffer::K].subrange(0, d) == y2[Buffer::K].subrange(0, d)
            &&& y[Buffer::V].subrange(0, d) == y2[Buffer::V].subrange(0, d)
        }),
    decreases c,
{
    let h = l.cfg.hidden as nat;
    let kvd = l.cfg.kv_size();
    let m = positions.len();
    let x2 = x.subrange(0, (n * h) as int);
    let p2 = positions.subrange(0, n as int);
    let y = l.pass(Mode::Prefill, x, positions, all).held;
    let y2 = l.pass(Mode::Prefill, x2, p2, some).held;
    lemma_row_bounds(m, h, n - 1);
    if c == 0 {
        assert(0 * kvd == 0);
        assert(y[Buffer::K].subrange(0, 0) =~= y2[Buffer::K].subrange(0, 0));
        assert(y[Buffer::V].subrange(0, 0) =~= y2[Buffer::V].subrange(0, 0));
    } else {
        let t = c - 1;
        lemma_same_prefix(l, x, positions, all, some, n, t as nat);
        l.lemma_pass(Mode::Prefill, x, positions, all, t);
        l.lemma_pass(Mode::Prefill, x2, p2, some, t);
        lemma_row_bounds(m, kvd, t);
        lemma_row_bounds(n, kvd, t);
        lemma_row_bounds(n, h, t);
        assert(row(x2, t, h) =~= row(x, t, h));
        let from = t * kvd;
        let d = (c * kvd) as int;
        lemma_grow(y[Buffer::K], y2[Buffer::K], from, d);
        lemma_grow(y[Buffer::V], y2[Buffer::V], from, d);
    }
}

proof fn lemma_grow<T>(a: Seq<T>, b: Seq<T>, from: int, to: int)
    requires
        0 <= from <= to <= a.len(),
        to <= b.len(),
        a.subrange(0, from) == b.subrange(0, from),
        a.subrange(from, to) == b.subrange(from, to),
    ensures
        a.subrange(0, to) == b.subrange(0, to),
{
    assert(a.subrange(0, to) =~= a.subrange(0, from) + a.subrange(from, to));
    assert(b.subrange(0, to) =~= b.subrange(0, from) + b.subrange(from, to));
}

/// A pass over one token adds a row to the cache, and leaves the rows before it
/// as they are.
pub proof fn lemma_decode_adds_a_row<T>(
    l: Layer<T>,
    mode: Mode,
    x: Seq<T>,
    position: u32,
    s: Pass<T>,
)
    requires
        l.ok(),
        !(mode is Prefill),
    ensures
        ({
            let y = l.pass(mode, x, seq![position], s).cache;
            &&& y.len == s.cache.len + 1
            &&& y.kv_dim == s.cache.kv_dim
            &&& y.max_seq == s.cache.max_seq
            &&& y.k.len() == s.cache.k.len() + l.cfg.kv_size()
            &&& y.v.len() == s.cache.v.len() + l.cfg.kv_size()
            &&& y.k.take(s.cache.k.len() as int) == s.cache.k
            &&& y.v.take(s.cache.v.len() as int) == s.cache.v
        }),
{
    l.lemma_pass(mode, x, seq![position], s, 0);
    let y = l.pass(mode, x, seq![position], s).cache;
    assert(y.k.take(s.cache.k.len() as int) =~= s.cache.k);
    assert(y.v.take(s.cache.v.len() as int) =~= s.cache.v);
}

/// Where native kernels multiply as the plain loops do, a pass with kernels is
/// the plain pass.
pub proof fn lemma_kernels_keep_the_result<T>(
    l: Layer<T>,
    has_vnni: bool,
    x: Seq<T>,
    positions: Seq<u32>,
    s: Pass<T>,
)
    requires
        forall|w: Weight, path: Path, r: Seq<T>| #[trigger]
            (l.math.product)(w, path, r) == (l.math.product)(w, Path::Naive, r),
    ensures
        l.pass(Mode::DecodeJit { has_vnni }, x, positions, s) == l.pass(
            Mode::Decode,
            x,
            positions,
            s,
        ),
{
    let plan = layer_plan(l.cfg, l.kinds, Mode::DecodeJit { has_vnni });
    lemma_kernels_keep_the_steps(l.cfg, l.kinds, has_vnni);
    lemma_whats_run(l, x, positions, s, plan);
}

proof fn lemma_whats_run<T>(
    l: Layer<T>,
    x: Seq<T>,
    positions: Seq<u32>,
    s: Pass<T>,
    steps: Seq<LayerStep>,
)
    requires
        forall|w: Weight, path: Path, r: Seq<T>| #[trigger]
            (l.math.product)(w, path, r) == (l.math.product)(w, Path::Naive, r),
    ensures
        after_steps(l.math, l.cfg, x, positions, true, s, whats(steps)) == after_steps(
            l.math,
            l.cfg,
            x,
            positions,
            true,
            s,
            steps,
        ),
    decreases steps.len(),
{
    if steps.len() > 0 {
        let step = steps[0];
        assert(whats(steps).drop_first() =~= whats(steps.drop_first()));
        let a = after_step(l.math, l.cfg, x, positions, true, s, step);
        let b = after_step(l.math, l.cfg, x, positions, true, s, what(step));
        if let LayerStep::Project(p) = step {
            if let Some((from, to)) = route_spec(p.weight) {
                let n = positions.len();
                let q = Projection { path: Path::Naive, ..p };
                assert(multiplied(l.math, n, p, s.held[from]) =~= multiplied(
                    l.math,
                    n,
                    q,
                    s.held[from],
                ));
            }
        }
        assert(a == b);
        lemma_whats_run(l, x, positions, a, steps.drop_first());
    }
}

/// The products of `b` along every path are the plain ones of `a`, and the rest
/// of the arithmetic is the same.
pub open spec fn multiplies_as<T>(b: Arithmetic<T>, a: Arithmetic<T>) -> bool {
    &&& b == (Arithmetic { product: b.product, ..a })
    &&& forall|w: Weight, path: Path, r: Seq<T>| #[trigger]
        (b.product)(w, path, r) == (a.product)(w, Path::Naive, r)
}

/// A pass with native kernels, in the one arithmetic, is the plain pass in the
/// other, where the kernels multiply as the plain loops do there.
pub proof fn lemma_kernels_keep_the_pass<T>(
    plain: Layer<T>,
    native: Layer<T>,
    has_vnni: bool,
    x: Seq<T>,
    positions: Seq<u32>,
    s: Pass<T>,
)
    requires
        native.cfg == plain.cfg,
        native.kinds == plain.kinds,
        multiplies_as(native.math, plain.math),
    ensures
        native.pass(Mode::DecodeJit { has_vnni }, x, positions, s) == plain.pass(
            Mode::Decode,
            x,
            positions,
            s,
        ),
{
    lemma_kernels_keep_the_result(native, has_vnni, x, positions, s);
    let plan = layer_plan(plain.cfg, plain.kinds, Mode::Decode);
    lemma_kernels_keep_the_steps(plain.cfg, plain.kinds, has_vnni);
    lemma_plain_steps(plain, native, x, positions, s, plan);
}

proof fn lemma_plain_step<T>(
    plain: Layer<T>,
    native: Layer<T>,
    x: Seq<T>,
    positions: Seq<u32>,
    s: Pass<T>,
    step: LayerStep,
)
    requires
        native.cfg == plain.cfg,
        multiplies_as(native.math, plain.math),
        what(step) == step,
    ensures
        after_step(native.math, native.cfg, x, positions, true, s, step) == after_step(
            plain.math,
            plain.cfg,
            x,
            positions,
            true,
            s,
            step,
        ),
{
    let (m, k, cfg) = (plain.math, native.math, plain.cfg);
    let n = positions.len();
    let h = cfg.hidden as nat;
    let hd = cfg.head_dim as nat;
    let ff = cfg.ffn_hidden as nat;
    let b = s.held;
    match step {
        LayerStep::AttnNorm => {
            assert(normed(k, false, n, h, x) =~= normed(m, false, n, h, x));
        },
        LayerStep::Project(p) => {
            if let Some((from, to)) = route_spec(p.weight) {
                assert(multiplied(k, n, p, b[from]) =~= multiplied(m, n, p, b[from]));
            }
        },
        LayerStep::AddBias(w) => {
            if let Some((_, to)) = route_spec(w) {
                let d = dims_of(cfg, w).1;
                assert(biased(k, w, n, d, b[to]) =~= biased(m, w, n, d, b[to]));
            }
        },
        LayerStep::Rope => {
            let (q, kv) = (b[Buffer::Q], b[Buffer::K]);
            assert(turned_rows(k, hd, positions, cfg.q_size(), q) =~= turned_rows(
                m,
                hd,
                positions,
                cfg.q_size(),
                q,
            ));
            assert(turned_rows(k, hd, positions, cfg.kv_size(), kv) =~= turned_rows(
                m,
                hd,
                positions,
                cfg.kv_size(),
                kv,
            ));
        },
        LayerStep::Append => {},
        LayerStep::Attend => {
            let before = (s.cache.len - n) as nat;
            let (q, ck, cv) = (b[Buffer::Q], s.cache.k, s.cache.v);
            assert(attended(k, cfg, q, ck, cv, before, n) =~= attended(
                m,
                cfg,
                q,
                ck,
                cv,
                before,
                n,
            ));
        },
        LayerStep::AttnResidual => {
            let y = b[Buffer::AttnOut];
            assert(summed(k, n, h, x, y) =~= summed(m, n, h, x, y));
        },
        LayerStep::FfnNorm => {
            let y = b[Buffer::Resid];
            assert(normed(k, true, n, h, y) =~= normed(m, true, n, h, y));
        },
        LayerStep::SiluMul => {
            let (g, u) = (b[Buffer::Gate], b[Buffer::Up]);
            assert(gated(k, n, ff, g, u) =~= gated(m, n, ff, g, u));
        },
        LayerStep::FfnResidual => {
            let (y, z) = (b[Buffer::Resid], b[Buffer::FfnOut]);
            assert(summed(k, n, h, y, z) =~= summed(m, n, h, y, z));
        },
    }
}

proof fn lemma_plain_steps<T>(
    plain: Layer<T>,
    native: Layer<T>,
    x: Seq<T>,
    positions: Seq<u32>,
    s: Pass<T>,
    steps: Seq<LayerStep>,
)
    requires
        native.cfg == plain.cfg,
        multiplies_as(native.math, plain.math),
        forall|i: int| 0 <= i < steps.len() ==> what(#[trigger] steps[i]) == steps[i],
    ensures
        after_steps(native.math, native.cfg, x, positions, true, s, steps) == after_steps(
            plain.math,
            plain.cfg,
            x,
            positions,
            true,
            s,
            steps,
        ),
    decreases steps.len(),
{
    if steps.len() > 0 {
        assert(what(steps[0]) == steps[0]);
        let a = after_step(native.math, native.cfg, x, positions, true, s, steps[0]);
        let b = after_step(plain.math, plain.cfg, x, positions, true, s, steps[0]);
        lemma_plain_step(plain, native, x, positions, s, steps[0]);
        assert(a == b);
        lemma_plain_steps(plain, native, x, positions, a, steps.drop_first());
    }
}

/// The same rows in a cache with room for `max_seq`.
pub open spec fn with_room<T>(rows: LayerRows<T>, max_seq: nat) -> LayerRows<T> {
    LayerRows { max_seq, ..rows }
}

/// How much room there is in the cache makes no difference to a pass.
pub proof fn lemma_room_makes_no_difference<T>(
    l: Layer<T>,
    mode: Mode,
    x: Seq<T>,
    positions: Seq<u32>,
    s: Pass<T>,
    max_seq: nat,
)
    ensures
        ({
            let a = l.pass(mode, x, positions, s);
            let b = l.pass(
                mode,
                x,
                positions,
                Pass { cache: with_room(s.cache, max_seq), ..s },
            );
            &&& b.held == a.held
            &&& b.cache == with_room(a.cache, max_seq)
        }),
{
    lemma_room_in_steps(
        l,
        x,
        positions,
        !(mode is Prefill),
        s,
        max_seq,
        layer_plan(l.cfg, l.kinds, mode),
    );
}

proof fn lemma_room_in_steps<T>(
    l: Layer<T>,
    x: Seq<T>,
    positions: Seq<u32>,
    cached: bool,
    s: Pass<T>,
    max_seq: nat,
    steps: Seq<LayerStep>,
)
    ensures
        ({
            let r = Pass { cache: with_room(s.cache, max_seq), ..s };
            let a = after_steps(l.math, l.cfg, x, positions, cached, s, steps);
            let b = after_steps(l.math, l.cfg, x, positions, cached, r, steps);
            &&& b.held == a.held
            &&& b.cache == with_room(a.cache, max_seq)
        }),
    decreases steps.len(),
{
    if steps.len() > 0 {
        let r = Pass { cache: with_room(s.cache, max_seq), ..s };
        let a = after_step(l.math, l.cfg, x, positions, cached, s, steps[0]);
        let b = after_step(l.math, l.cfg, x, positions, cached, r, steps[0]);
        assert(b == Pass { cache: with_room(a.cache, max_seq), ..a });
        lemma_room_in_steps(l, x, positions, cached, a, max_seq, steps.drop_first());
    }
}

/// The rotation of a buffer is the rotation of its pairs: the two numbers of
/// each pair become what the rotation makes of them, by the angle of their
/// token and place.
pub proof fn lemma_pairs_turn<T>(
    m: Arithmetic<T>,
    n_heads: nat,
    head_dim: nat,
    positions: Seq<u32>,
    b: Seq<T>,
    j: int,
)
    requires
        head_dim % 2 == 0,
        b.len() == positions.len() * (n_heads * head_dim),
        0 <= j < all_rotated(positions.len(), n_heads, head_dim).len(),
    ensures
        ({
            let (first, second, turn) = all_rotated(positions.len(), n_heads, head_dim)[j];
            let half = head_dim as int / 2;
            let c = turned_rows(m, head_dim, positions, n_heads * head_dim, b);
            let pos = positions[turn as int / half];
            &&& 0 <= turn as int / half < positions.len()
            &&& first < second < b.len()
            &&& (c[first as int], c[second as int]) == (m.rotate)(
                pos,
                turn as int % half,
                b[first as int],
                b[second as int],
            )
        }),
{
    let n = positions.len();
    let d = n_heads * head_dim;
    let half = head_dim as int / 2;
    assert(n * (n_heads * head_dim) == n * n_heads * head_dim) by (nonlinear_arith);
    lemma_pair_fits(n, n_heads, head_dim, j as nat);
    let r = j / half;
    let i = j % half;
    let t = r / n_heads as int;
    let head = r % n_heads as int;
    let o = head * head_dim + i;
    assert(0 <= head * head_dim && head * head_dim + head_dim <= d) by (nonlinear_arith)
        requires
            0 <= head,
            head + 1 <= n_heads,
            d == n_heads * head_dim,
    ;
    lemma_place(n, d, t, o);
    lemma_place(n, d, t, o + half);
    lemma_fundamental_div_mod_converse(t * half + i, half, t, i);
    lemma_fundamental_div_mod_converse(o, head_dim as int, head, i);
    lemma_fundamental_div_mod_converse(o + half, head_dim as int, head, i + half);
    let x = row(b, t, d);
    assert(x[o] == b[t * d + o]);
    assert(x[o + half] == b[t * d + o + half]);
}

} // verus!
