//! The arithmetic of a layer as functions, and what is done with it row by row.

use crate::runtime::attention::{
    all_parts, all_rotated, attention_rows, heads_share_evenly, lemma_causal, lemma_pair_fits,
    lemma_query_fits, lemma_rotated_once, pair_parts, queries, rope_pairs, AttentionRow,
};
use crate::runtime::forward::{dims_of, Path, Projection, Weight};
use crate::runtime::layer::{
    attended, biased, gated, head_number, lemma_place, lemma_row_bounds, multiplied, normed, row,
    rowwise, summed, turned_rows, Arithmetic,
};
use crate::runtime::layer_laws::lemma_pairs_turn;
use crate::runtime::model::LayerConfig;
use crate::runtime::number_laws::lemma_attention_at;
use std::marker::PhantomData;
use vstd::arithmetic::div_mod::{
    lemma_fundamental_div_mod, lemma_fundamental_div_mod_converse, lemma_multiply_divide_lt,
};
use vstd::arithmetic::mul::lemma_mul_is_commutative;
use vstd::prelude::*;
use vstd::slice::slice_subrange;

verus! {

/// The arithmetic that the steps of a layer use, on numbers of type `T`.
pub struct Numerics<T, N, P, B, R, S, H, M, A, G> {
    /// A row, normalized before attention or (`true`) before the feed-forward
    /// part.
    pub norm: N,
    /// The product of a row and a weight, along a path.
    pub product: P,
    /// A row, with a bias.
    pub bias: B,
    /// Two numbers rotated by the angle of a position and a place in the head.
    pub rotate: R,
    /// How well a query and a key agree.
    pub score: S,
    /// The softmax of scores.
    pub shares: H,
    /// The sum of numbers, weighted by shares.
    pub mix: M,
    pub plus: A,
    /// `SiLU(gate) * up`.
    pub gated: G,
    pub numbers: PhantomData<T>,
}

impl<T, N, P, B, R, S, H, M, A, G> Numerics<T, N, P, B, R, S, H, M, A, G> where
    T: Copy,
    N: Fn(bool, &[T]) -> Vec<T>,
    P: Fn(Weight, Path, &[T]) -> Vec<T>,
    B: Fn(Weight, &[T]) -> Vec<T>,
    R: Fn(u32, usize, T, T) -> (T, T),
    S: Fn(&[T], &[T]) -> T,
    H: Fn(&[T]) -> Vec<T>,
    M: Fn(&[T], &[T]) -> T,
    A: Fn(T, T) -> T,
    G: Fn(T, T) -> T,
 {
    /// Normalizing can give `y`.
    pub open spec fn norm_gives(self, ffn: bool, r: Seq<T>, y: Seq<T>) -> bool {
        exists|s: &[T], v: Vec<T>|
            s@ == r && v@ == y && #[trigger] call_ensures(self.norm, (ffn, s), v)
    }

    /// The product can be `y`.
    pub open spec fn product_gives(self, w: Weight, path: Path, r: Seq<T>, y: Seq<T>) -> bool {
        exists|s: &[T], v: Vec<T>|
            s@ == r && v@ == y && #[trigger] call_ensures(self.product, (w, path, s), v)
    }

    /// Adding a bias can give `y`.
    pub open spec fn bias_gives(self, w: Weight, r: Seq<T>, y: Seq<T>) -> bool {
        exists|s: &[T], v: Vec<T>|
            s@ == r && v@ == y && #[trigger] call_ensures(self.bias, (w, s), v)
    }

    /// The score can be `y`.
    pub open spec fn score_gives(self, a: Seq<T>, b: Seq<T>, y: T) -> bool {
        exists|s: &[T], t: &[T]|
            s@ == a && t@ == b && #[trigger] call_ensures(self.score, (s, t), y)
    }

    /// The shares can be `y`.
    pub open spec fn shares_give(self, a: Seq<T>, y: Seq<T>) -> bool {
        exists|s: &[T], v: Vec<T>| s@ == a && v@ == y && #[trigger] call_ensures(self.shares, (s,), v)
    }

    /// The weighted sum can be `y`.
    pub open spec fn mix_gives(self, a: Seq<T>, b: Seq<T>, y: T) -> bool {
        exists|s: &[T], t: &[T]| s@ == a && t@ == b && #[trigger] call_ensures(self.mix, (s, t), y)
    }

    /// What the functions compute.
    pub open spec fn math(self) -> Arithmetic<T> {
        Arithmetic {
            norm: |ffn: bool, r: Seq<T>| choose|y: Seq<T>| #[trigger] self.norm_gives(ffn, r, y),
            product: |w: Weight, path: Path, r: Seq<T>|
                choose|y: Seq<T>| #[trigger] self.product_gives(w, path, r, y),
            bias: |w: Weight, r: Seq<T>| choose|y: Seq<T>| #[trigger] self.bias_gives(w, r, y),
            rotate: |pos: u32, i: int, a: T, b: T|
                choose|y: (T, T)| #[trigger] call_ensures(self.rotate, (pos, i as usize, a, b), y),
            score: |a: Seq<T>, b: Seq<T>| choose|y: T| #[trigger] self.score_gives(a, b, y),
            shares: |a: Seq<T>| choose|y: Seq<T>| #[trigger] self.shares_give(a, y),
            mix: |a: Seq<T>, b: Seq<T>| choose|y: T| #[trigger] self.mix_gives(a, b, y),
            plus: |a: T, b: T| choose|y: T| #[trigger] call_ensures(self.plus, (a, b), y),
            gated: |a: T, b: T| choose|y: T| #[trigger] call_ensures(self.gated, (a, b), y),
        }
    }

    /// The functions on rows take rows of the sizes of the layer, give rows of
    /// the sizes of the layer, and give the same for the same numbers.
    pub open spec fn rows_ok(self, cfg: LayerConfig) -> bool {
        &&& forall|ffn: bool, s: &[T]|
            s@.len() == cfg.hidden ==> #[trigger] call_requires(self.norm, (ffn, s))
        &&& forall|ffn: bool, s: &[T], v: Vec<T>|
            s@.len() == cfg.hidden && #[trigger] call_ensures(self.norm, (ffn, s), v)
                ==> v@.len() == cfg.hidden
        &&& forall|ffn: bool, s: &[T], t: &[T], v: Vec<T>, u: Vec<T>|
            s@ == t@ && #[trigger] call_ensures(self.norm, (ffn, s), v)
                && #[trigger] call_ensures(self.norm, (ffn, t), u) ==> v@ == u@
        &&& forall|w: Weight, path: Path, s: &[T]|
            w !is LmHead && s@.len() == dims_of(cfg, w).0 ==> #[trigger] call_requires(
                self.product,
                (w, path, s),
            )
        &&& forall|w: Weight, path: Path, s: &[T], v: Vec<T>|
            w !is LmHead && s@.len() == dims_of(cfg, w).0 && #[trigger] call_ensures(
                self.product,
                (w, path, s),
                v,
            ) ==> v@.len() == dims_of(cfg, w).1
        &&& forall|w: Weight, path: Path, s: &[T], t: &[T], v: Vec<T>, u: Vec<T>|
            s@ == t@ && #[trigger] call_ensures(self.product, (w, path, s), v)
                && #[trigger] call_ensures(self.product, (w, path, t), u) ==> v@ == u@
        &&& forall|w: Weight, s: &[T]|
            (w is Q || w is K || w is V) && s@.len() == dims_of(cfg, w).1
                ==> #[trigger] call_requires(self.bias, (w, s))
        &&& forall|w: Weight, s: &[T], v: Vec<T>|
            (w is Q || w is K || w is V) && s@.len() == dims_of(cfg, w).1
                && #[trigger] call_ensures(self.bias, (w, s), v) ==> v@.len() == dims_of(cfg, w).1
        &&& forall|w: Weight, s: &[T], t: &[T], v: Vec<T>, u: Vec<T>|
            s@ == t@ && #[trigger] call_ensures(self.bias, (w, s), v) && #[trigger] call_ensures(
                self.bias,
                (w, t),
                u,
            ) ==> v@ == u@
    }

    /// The same of the functions that attention uses.
    pub open spec fn attention_ok(self) -> bool {
        &&& forall|s: &[T], t: &[T]|
            s@.len() == t@.len() ==> #[trigger] call_requires(self.score, (s, t))
        &&& forall|s: &[T], t: &[T], s2: &[T], t2: &[T], y: T, z: T|
            s@ == s2@ && t@ == t2@ && #[trigger] call_ensures(self.score, (s, t), y)
                && #[trigger] call_ensures(self.score, (s2, t2), z) ==> y == z
        &&& forall|s: &[T]| s@.len() > 0 ==> #[trigger] call_requires(self.shares, (s,))
        &&& forall|s: &[T], v: Vec<T>|
            #[trigger] call_ensures(self.shares, (s,), v) ==> v@.len() == s@.len()
        &&& forall|s: &[T], t: &[T], v: Vec<T>, u: Vec<T>|
            s@ == t@ && #[trigger] call_ensures(self.shares, (s,), v) && #[trigger] call_ensures(
                self.shares,
                (t,),
                u,
            ) ==> v@ == u@
        &&& forall|s: &[T], t: &[T]|
            s@.len() == t@.len() ==> #[trigger] call_requires(self.mix, (s, t))
        &&& forall|s: &[T], t: &[T], s2: &[T], t2: &[T], y: T, z: T|
            s@ == s2@ && t@ == t2@ && #[trigger] call_ensures(self.mix, (s, t), y)
                && #[trigger] call_ensures(self.mix, (s2, t2), z) ==> y == z
    }

    /// The same of the functions on single numbers.
    pub open spec fn numbers_ok(self) -> bool {
        &&& forall|pos: u32, i: usize, a: T, b: T| #[trigger]
            call_requires(self.rotate, (pos, i, a, b))
        &&& forall|pos: u32, i: usize, a: T, b: T, y: (T, T), z: (T, T)| #[trigger]
            call_ensures(self.rotate, (pos, i, a, b), y) && #[trigger] call_ensures(
                self.rotate,
                (pos, i, a, b),
                z,
            ) ==> y == z
        &&& forall|a: T, b: T| #[trigger] call_requires(self.plus, (a, b))
        &&& forall|a: T, b: T, y: T, z: T| #[trigger]
            call_ensures(self.plus, (a, b), y) && #[trigger] call_ensures(self.plus, (a, b), z)
                ==> y == z
        &&& forall|a: T, b: T| #[trigger] call_requires(self.gated, (a, b))
        &&& forall|a: T, b: T, y: T, z: T| #[trigger]
            call_ensures(self.gated, (a, b), y) && #[trigger] call_ensures(self.gated, (a, b), z)
                ==> y == z
    }

    /// The functions fit the layer.
    pub open spec fn ok(self, cfg: LayerConfig) -> bool {
        &&& self.rows_ok(cfg)
        &&& self.attention_ok()
        &&& self.numbers_ok()
    }

    fn norm_row(&self, cfg: &LayerConfig, ffn: bool, r: &[T]) -> (y: Vec<T>)
        requires
            self.ok(*cfg),
            r@.len() == cfg.hidden,
        ensures
            y@ == (self.math().norm)(ffn, r@),
            y@.len() == cfg.hidden,
    {
        let y = (self.norm)(ffn, r);
        proof {
            assert(self.norm_gives(ffn, r@, y@));
            let z = (self.math().norm)(ffn, r@);
            assert(self.norm_gives(ffn, r@, z));
        }
        y
    }

    fn product_row(&self, cfg: &LayerConfig, w: Weight, path: Path, r: &[T]) -> (y: Vec<T>)
        requires
            self.ok(*cfg),
            w !is LmHead,
            r@.len() == dims_of(*cfg, w).0,
        ensures
            y@ == (self.math().product)(w, path, r@),
            y@.len() == dims_of(*cfg, w).1,
    {
        let y = (self.product)(w, path, r);
        proof {
            assert(self.product_gives(w, path, r@, y@));
            let z = (self.math().product)(w, path, r@);
            assert(self.product_gives(w, path, r@, z));
        }
        y
    }

    fn bias_row(&self, cfg: &LayerConfig, w: Weight, r: &[T]) -> (y: Vec<T>)
        requires
            self.ok(*cfg),
            w is Q || w is K || w is V,
            r@.len() == dims_of(*cfg, w).1,
        ensures
            y@ == (self.math().bias)(w, r@),
            y@.len() == dims_of(*cfg, w).1,
    {
        let y = (self.bias)(w, r);
        proof {
            assert(self.bias_gives(w, r@, y@));
            let z = (self.math().bias)(w, r@);
            assert(self.bias_gives(w, r@, z));
        }
        y
    }

    fn turn(&self, cfg: &LayerConfig, pos: u32, i: usize, a: T, b: T) -> (y: (T, T))
        requires
            self.ok(*cfg),
        ensures
            y == (self.math().rotate)(pos, i as int, a, b),
    {
        (self.rotate)(pos, i, a, b)
    }

    fn score_of(&self, cfg: &LayerConfig, q: &[T], k: &[T]) -> (y: T)
        requires
            self.ok(*cfg),
            q@.len() == k@.len(),
        ensures
            y == (self.math().score)(q@, k@),
    {
        let y = (self.score)(q, k);
        proof {
            assert(self.score_gives(q@, k@, y));
            let z = (self.math().score)(q@, k@);
            assert(self.score_gives(q@, k@, z));
        }
        y
    }

    fn shares_of(&self, cfg: &LayerConfig, scores: &[T]) -> (y: Vec<T>)
        requires
            self.ok(*cfg),
            scores@.len() > 0,
        ensures
            y@ == (self.math().shares)(scores@),
            y@.len() == scores@.len(),
    {
        let y = (self.shares)(scores);
        proof {
            assert(self.shares_give(scores@, y@));
            let z = (self.math().shares)(scores@);
            assert(self.shares_give(scores@, z));
        }
        y
    }

    fn mix_of(&self, cfg: &LayerConfig, shares: &[T], column: &[T]) -> (y: T)
        requires
            self.ok(*cfg),
            shares@.len() == column@.len(),
        ensures
            y == (self.math().mix)(shares@, column@),
    {
        let y = (self.mix)(shares, column);
        proof {
            assert(self.mix_gives(shares@, column@, y));
            let z = (self.math().mix)(shares@, column@);
            assert(self.mix_gives(shares@, column@, z));
        }
        y
    }

    /// The normalized rows of a buffer.
    pub fn norm_rows(&self, cfg: &LayerConfig, ffn: bool, n: usize, x: &[T]) -> (out: Vec<T>)
        requires
            self.ok(*cfg),
            x@.len() == n * cfg.hidden,
        ensures
            out@ == normed(self.math(), ffn, n as nat, cfg.hidden as nat, x@),
    {
        let d: usize = cfg.hidden;
        let ghost m = self.math();
        let ghost f = |t: int, o: int| (m.norm)(ffn, row(x@, t, d as nat))[o];
        let ghost total: usize = x.len();
        let mut out: Vec<T> = Vec::new();
        let mut t: usize = 0;
        assert(out@ =~= rowwise(0, d as nat, f));
        while t < n
            invariant
                t <= n,
                d == cfg.hidden,
                self.ok(*cfg),
                m == self.math(),
                x@.len() == n * d == total,
                f == (|t: int, o: int| (m.norm)(ffn, row(x@, t, d as nat))[o]),
                out@ == rowwise(t as nat, d as nat, f),
            decreases n - t,
        {
            proof {
                lemma_row_bounds(n as nat, d as nat, t as int);
                lemma_next_row(t as nat, d as nat, f);
            }
            let r = slice_subrange(x, t * d, t * d + d);
            let y = self.norm_row(cfg, ffn, r);
            assert(y@ =~= Seq::new(d as nat, |o: int| f(t as int, o)));
            append(&mut out, &y);
            t = t + 1;
        }
        assert(out@ =~= normed(m, ffn, n as nat, d as nat, x@));
        out
    }

    /// The rows of a buffer, multiplied with a weight.
    pub fn product_rows(&self, cfg: &LayerConfig, p: &Projection, n: usize, x: &[T]) -> (out: Vec<
        T,
    >)
        requires
            self.ok(*cfg),
            p.weight !is LmHead,
            (p.d_in as nat, p.d_out as nat) == dims_of(*cfg, p.weight),
            x@.len() == n * p.d_in,
        ensures
            out@ == multiplied(self.math(), n as nat, *p, x@),
    {
        let d: usize = p.d_in;
        let e: usize = p.d_out;
        let ghost m = self.math();
        let ghost f = |t: int, o: int| (m.product)(p.weight, p.path, row(x@, t, d as nat))[o];
        let ghost total: usize = x.len();
        let mut out: Vec<T> = Vec::new();
        let mut t: usize = 0;
        assert(out@ =~= rowwise(0, e as nat, f));
        while t < n
            invariant
                t <= n,
                d == p.d_in,
                e == p.d_out,
                self.ok(*cfg),
                p.weight !is LmHead,
                (p.d_in as nat, p.d_out as nat) == dims_of(*cfg, p.weight),
                m == self.math(),
                x@.len() == n * d == total,
                f == (|t: int, o: int| (m.product)(p.weight, p.path, row(x@, t, d as nat))[o]),
                out@ == rowwise(t as nat, e as nat, f),
            decreases n - t,
        {
            proof {
                lemma_row_bounds(n as nat, d as nat, t as int);
                lemma_next_row(t as nat, e as nat, f);
            }
            let r = slice_subrange(x, t * d, t * d + d);
            let y = self.product_row(cfg, p.weight, p.path, r);
            assert(y@ =~= Seq::new(e as nat, |o: int| f(t as int, o)));
            append(&mut out, &y);
            t = t + 1;
        }
        assert(out@ =~= multiplied(m, n as nat, *p, x@));
        out
    }

    /// The rows of a buffer of `d` columns, with a bias.
    pub fn bias_rows(&self, cfg: &LayerConfig, w: Weight, d: usize, n: usize, x: &[T]) -> (out: Vec<
        T,
    >)
        requires
            self.ok(*cfg),
            w is Q || w is K || w is V,
            d as nat == dims_of(*cfg, w).1,
            x@.len() == n * d,
        ensures
            out@ == biased(self.math(), w, n as nat, d as nat, x@),
    {
        let ghost m = self.math();
        let ghost f = |t: int, o: int| (m.bias)(w, row(x@, t, d as nat))[o];
        let ghost total: usize = x.len();
        let mut out: Vec<T> = Vec::new();
        let mut t: usize = 0;
        assert(out@ =~= rowwise(0, d as nat, f));
        while t < n
            invariant
                t <= n,
                self.ok(*cfg),
                w is Q || w is K || w is V,
                d as nat == dims_of(*cfg, w).1,
                m == self.math(),
                x@.len() == n * d == total,
                f == (|t: int, o: int| (m.bias)(w, row(x@, t, d as nat))[o]),
                out@ == rowwise(t as nat, d as nat, f),
            decreases n - t,
        {
            proof {
                lemma_row_bounds(n as nat, d as nat, t as int);
                lemma_next_row(t as nat, d as nat, f);
            }
            let r = slice_subrange(x, t * d, t * d + d);
            let y = self.bias_row(cfg, w, r);
            assert(y@ =~= Seq::new(d as nat, |o: int| f(t as int, o)));
            append(&mut out, &y);
            t = t + 1;
        }
        assert(out@ =~= biased(m, w, n as nat, d as nat, x@));
        out
    }

    /// The sum of two buffers of `n` rows.
    pub fn sum_rows(&self, cfg: &LayerConfig, n: usize, a: &[T], b: &[T]) -> (out: Vec<T>)
        requires
            self.ok(*cfg),
            a@.len() == n * cfg.hidden,
            b@.len() == n * cfg.hidden,
        ensures
            out@ == summed(self.math(), n as nat, cfg.hidden as nat, a@, b@),
    {
        let ghost m = self.math();
        let ghost d = cfg.hidden as nat;
        let mut out: Vec<T> = Vec::new();
        let mut i: usize = 0;
        while i < a.len()
            invariant
                i <= a@.len(),
                a@.len() == b@.len(),
                self.ok(*cfg),
                m == self.math(),
                out@.len() == i,
                forall|j: int| 0 <= j < i ==> #[trigger] out@[j] == (m.plus)(a@[j], b@[j]),
            decreases a@.len() - i,
        {
            let y = (self.plus)(a[i], b[i]);
            out.push(y);
            i = i + 1;
        }
        proof {
            let want = summed(m, n as nat, d, a@, b@);
            assert forall|p: int| 0 <= p < out@.len() implies out@[p] == want[p] by {
                lemma_column(n as nat, d, p);
                let t = p / d as int;
                let o = p % (d as int);
                assert(row(a@, t, d)[o] == a@[p]);
                assert(row(b@, t, d)[o] == b@[p]);
            }
            assert(out@ =~= want);
        }
        out
    }

    /// One buffer of `n` rows, gated and multiplied with another.
    pub fn gate_rows(&self, cfg: &LayerConfig, n: usize, a: &[T], b: &[T]) -> (out: Vec<T>)
        requires
            self.ok(*cfg),
            a@.len() == n * cfg.ffn_hidden,
            b@.len() == n * cfg.ffn_hidden,
        ensures
            out@ == gated(self.math(), n as nat, cfg.ffn_hidden as nat, a@, b@),
    {
        let ghost m = self.math();
        let ghost d = cfg.ffn_hidden as nat;
        let mut out: Vec<T> = Vec::new();
        let mut i: usize = 0;
        while i < a.len()
            invariant
                i <= a@.len(),
                a@.len() == b@.len(),
                self.ok(*cfg),
                m == self.math(),
                out@.len() == i,
                forall|j: int| 0 <= j < i ==> #[trigger] out@[j] == (m.gated)(a@[j], b@[j]),
            decreases a@.len() - i,
        {
            let y = (self.gated)(a[i], b[i]);
            out.push(y);
            i = i + 1;
        }
        proof {
            let want = gated(m, n as nat, d, a@, b@);
            assert forall|p: int| 0 <= p < out@.len() implies out@[p] == want[p] by {
                lemma_column(n as nat, d, p);
                let t = p / d as int;
                let o = p % (d as int);
                assert(row(a@, t, d)[o] == a@[p]);
                assert(row(b@, t, d)[o] == b@[p]);
            }
            assert(out@ =~= want);
        }
        out
    }

    /// Rotates the heads of each token, in place: `i` turns with
    /// `i + head_dim / 2`, by the angle of the token's position.
    pub fn rope_in_place(
        &self,
        cfg: &LayerConfig,
        x: &mut Vec<T>,
        positions: &[u32],
        n_heads: usize,
        head_dim: usize,
    )
        requires
            self.ok(*cfg),
            head_dim % 2 == 0,
            positions@.len() * n_heads <= usize::MAX,
            old(x)@.len() == positions@.len() * (n_heads * head_dim),
        ensures
            final(x)@ == turned_rows(
                self.math(),
                head_dim as nat,
                positions@,
                n_heads as nat * head_dim as nat,
                old(x)@,
            ),
    {
        let ghost m = self.math();
        let ghost start = x@;
        let ghost (h, hd) = (n_heads as nat, head_dim as nat);
        let ghost want = turned_rows(m, hd, positions@, h * hd, start);
        let seq: usize = positions.len();
        let half: usize = head_dim / 2;
        let ghost total: usize = x.len();
        assert(seq * (h * hd) == seq * h * hd) by (nonlinear_arith);
        let pairs = rope_pairs(seq, n_heads, head_dim);
        assert(pair_parts(pairs@).len() == pairs@.len());
        let mut j: usize = 0;
        while j < pairs.len()
            invariant
                j <= pairs@.len(),
                self.ok(*cfg),
                m == self.math(),
                h == n_heads,
                hd == head_dim,
                hd % 2 == 0,
                half == head_dim / 2,
                seq == positions@.len(),
                start.len() == seq * (h * hd) == seq * h * hd,
                x@.len() == start.len(),
                want == turned_rows(m, hd, positions@, h * hd, start),
                pair_parts(pairs@) == all_rotated(seq as nat, h, hd),
                pair_parts(pairs@).len() == pairs@.len(),
                forall|k: int|
                    0 <= k < pairs@.len() ==> (#[trigger] pairs@[k]).first < start.len()
                        && pairs@[k].second < start.len() ==> if k < j {
                        x@[pairs@[k].first as int] == want[pairs@[k].first as int]
                            && x@[pairs@[k].second as int] == want[pairs@[k].second as int]
                    } else {
                        x@[pairs@[k].first as int] == start[pairs@[k].first as int]
                            && x@[pairs@[k].second as int] == start[pairs@[k].second as int]
                    },
            decreases pairs@.len() - j,
        {
            let pair = pairs[j];
            proof {
                assert(pair_parts(pairs@)[j as int] == pair.parts());
                lemma_pair_fits(seq as nat, h, hd, j as nat);
                lemma_pairs_turn(m, h, hd, positions@, start, j as int);
                let a = lemma_rotated_once(seq as nat, h, hd, pairs@, pair.first as int);
                let b = lemma_rotated_once(seq as nat, h, hd, pairs@, pair.second as int);
                assert(a == j && b == j);
            }
            let (a, b) = self.turn(
                cfg,
                positions[pair.turn / half],
                pair.turn % half,
                x[pair.first],
                x[pair.second],
            );
            x.set(pair.first, a);
            x.set(pair.second, b);
            j = j + 1;
        }
        proof {
            assert forall|p: int| 0 <= p < x@.len() implies x@[p] == want[p] by {
                let k = lemma_rotated_once(seq as nat, h, hd, pairs@, p);
                assert(pair_parts(pairs@)[k] == pairs@[k].parts());
                lemma_pairs_turn(m, h, hd, positions@, start, k);
            }
            assert(x@ =~= want);
        }
    }

    /// What one query gives.
    fn head(&self, cfg: &LayerConfig, r: &AttentionRow, q: &[T], k: &[T], v: &[T]) -> (y: Vec<T>)
        requires
            self.ok(*cfg),
            cfg.kv_size() <= usize::MAX,
            r.visible > 0,
            r.at + cfg.head_dim <= q@.len(),
            k@.len() == v@.len(),
            forall|i: nat|
                i < r.visible ==> #[trigger] r.seen_at(*cfg, i) + cfg.head_dim <= k@.len(),
        ensures
            y@ == head_numbers(
                self.math(),
                *cfg,
                q@.subrange(r.at as int, r.at + cfg.head_dim),
                k@,
                v@,
                r.visible as nat,
                r.kv_head_at as nat,
            ),
    {
        let hd: usize = cfg.head_dim;
        let ghost m = self.math();
        let ghost kvd = cfg.kv_size();
        assert(q.len() == q@.len());
        let query = slice_subrange(q, r.at, r.at + hd);
        let ghost agree = Seq::new(
            r.visible as nat,
            |i: int|
                (m.score)(
                    query@,
                    k@.subrange(i * kvd + r.kv_head_at, i * kvd + r.kv_head_at + hd),
                ),
        );
        let mut scores: Vec<T> = Vec::new();
        let mut i: usize = 0;
        let ghost all: usize = k.len();
        while i < r.visible
            invariant
                i <= r.visible,
                self.ok(*cfg),
                m == self.math(),
                hd == cfg.head_dim,
                kvd == cfg.kv_size(),
                kvd <= usize::MAX,
                query@.len() == hd,
                all == k@.len(),
                forall|i: nat|
                    i < r.visible ==> #[trigger] r.seen_at(*cfg, i) + cfg.head_dim <= k@.len(),
                agree == Seq::new(
                    r.visible as nat,
                    |i: int|
                        (m.score)(
                            query@,
                            k@.subrange(i * kvd + r.kv_head_at, i * kvd + r.kv_head_at + hd),
                        ),
                ),
                scores@ == agree.subrange(0, i as int),
            decreases r.visible - i,
        {
            assert(r.seen_at(*cfg, i as nat) + hd <= all);
            let at: usize = r.key_at(cfg, i);
            let y = self.score_of(cfg, query, slice_subrange(k, at, at + hd));
            scores.push(y);
            i = i + 1;
            assert(scores@ =~= agree.subrange(0, i as int));
        }
        assert(scores@ =~= agree);
        let shares = self.shares_of(cfg, scores.as_slice());
        let mut out: Vec<T> = Vec::new();
        let mut d: usize = 0;
        while d < hd
            invariant
                d <= hd,
                self.ok(*cfg),
                m == self.math(),
                hd == cfg.head_dim,
                kvd == cfg.kv_size(),
                kvd <= usize::MAX,
                k@.len() == v@.len(),
                all == k@.len(),
                shares@ == (m.shares)(agree),
                shares@.len() == r.visible,
                forall|i: nat|
                    i < r.visible ==> #[trigger] r.seen_at(*cfg, i) + cfg.head_dim <= k@.len(),
                out@.len() == d,
                forall|e: int|
                    0 <= e < d ==> #[trigger] out@[e] == (m.mix)(
                        (m.shares)(agree),
                        seen_column(*cfg, v@, r.visible as nat, r.kv_head_at as nat, e),
                    ),
            decreases hd - d,
        {
            let column = column(cfg, r, v, d);
            let y = self.mix_of(cfg, shares.as_slice(), column.as_slice());
            out.push(y);
            d = d + 1;
        }
        assert(out@ =~= head_numbers(
            m,
            *cfg,
            query@,
            k@,
            v@,
            r.visible as nat,
            r.kv_head_at as nat,
        ));
        out
    }

    /// Self-attention with grouped heads and causal masking. The keys and
    /// values of `t0 + seq` tokens are given, and the queries of the last `seq`
    /// of them.
    pub fn attend(
        &self,
        cfg: &LayerConfig,
        q: &[T],
        k: &[T],
        v: &[T],
        t0: usize,
        seq: usize,
    ) -> (out: Vec<T>)
        requires
            self.ok(*cfg),
            heads_share_evenly(*cfg),
            cfg.q_size() <= usize::MAX,
            cfg.kv_size() <= usize::MAX,
            t0 + seq <= usize::MAX,
            seq * cfg.n_heads <= usize::MAX,
            q@.len() == seq * cfg.q_size(),
            k@.len() == (t0 + seq) * cfg.kv_size(),
            v@.len() == (t0 + seq) * cfg.kv_size(),
        ensures
            out@ == attended(self.math(), *cfg, q@, k@, v@, t0 as nat, seq as nat),
            out@.len() == seq * (cfg.n_heads * cfg.head_dim),
            forall|p: int|
                0 <= p < out@.len() ==> #[trigger] out@[p] == ({
                    let m = self.math();
                    let (h, kvh, hd) = (
                        cfg.n_heads as int,
                        cfg.n_kv_heads as int,
                        cfg.head_dim as int,
                    );
                    let kv = p / hd % h / (h / kvh);
                    let at = p / hd * hd;
                    let seen = (t0 + p / (h * hd) + 1) as nat;
                    (m.mix)(
                        (m.shares)(
                            Seq::new(
                                seen,
                                |i: int|
                                    (m.score)(
                                        q@.subrange(at, at + hd),
                                        k@.subrange(
                                            i * (kvh * hd) + kv * hd,
                                            i * (kvh * hd) + kv * hd + hd,
                                        ),
                                    ),
                            ),
                        ),
                        Seq::new(seen, |i: int| v@[i * (kvh * hd) + kv * hd + p % hd]),
                    )
                }),
    {
        let ghost m = self.math();
        let ghost hd = cfg.head_dim as nat;
        let ghost all = queries(*cfg, t0 as nat, seq as nat);
        let ghost want = attended(m, *cfg, q@, k@, v@, t0 as nat, seq as nat);
        let ghost total: usize = q.len();
        let rows = attention_rows(cfg, t0, seq);
        assert(all_parts(rows@).len() == rows@.len());
        let mut out: Vec<T> = Vec::new();
        let mut j: usize = 0;
        assert(0 * hd == 0);
        assert(out@ =~= want.subrange(0, 0));
        while j < rows.len()
            invariant
                j <= rows@.len(),
                self.ok(*cfg),
                heads_share_evenly(*cfg),
                cfg.kv_size() <= usize::MAX,
                m == self.math(),
                hd == cfg.head_dim,
                q@.len() == seq * cfg.q_size() == total,
                k@.len() == (t0 + seq) * cfg.kv_size(),
                v@.len() == (t0 + seq) * cfg.kv_size(),
                all == queries(*cfg, t0 as nat, seq as nat),
                all_parts(rows@) == all,
                rows@.len() == seq * cfg.n_heads,
                want == attended(m, *cfg, q@, k@, v@, t0 as nat, seq as nat),
                0 <= j * hd <= want.len(),
                out@ == want.subrange(0, j * hd),
            decreases rows@.len() - j,
        {
            let r = rows[j];
            proof {
                assert(all_parts(rows@)[j as int] == r.parts());
                lemma_head_bounds(*cfg, t0 as nat, seq as nat, rows@, j as int);
            }
            let y = self.head(cfg, &r, q, k, v);
            append(&mut out, &y);
            proof {
                lemma_head_block(m, *cfg, q@, k@, v@, t0 as nat, seq as nat, j as int);
                assert((j + 1) * hd == j * hd + hd) by (nonlinear_arith);
                assert(want.subrange(0, (j + 1) * hd) =~= want.subrange(0, j * hd)
                    + want.subrange(j * hd, j * hd + hd));
            }
            j = j + 1;
        }
        assert(seq * cfg.n_heads * hd == seq * cfg.q_size()) by (nonlinear_arith)
            requires
                cfg.q_size() == cfg.n_heads * hd,
        ;
        assert(out@ =~= want);
        proof {
            assert forall|p: int| 0 <= p < out@.len() implies #[trigger] out@[p] == ({
                let (h, kvh, hd) = (cfg.n_heads as int, cfg.n_kv_heads as int, cfg.head_dim as int);
                let kv = p / hd % h / (h / kvh);
                let at = p / hd * hd;
                let seen = (t0 + p / (h * hd) + 1) as nat;
                (m.mix)(
                    (m.shares)(
                        Seq::new(
                            seen,
                            |i: int|
                                (m.score)(
                                    q@.subrange(at, at + hd),
                                    k@.subrange(
                                        i * (kvh * hd) + kv * hd,
                                        i * (kvh * hd) + kv * hd + hd,
                                    ),
                                ),
                        ),
                    ),
                    Seq::new(seen, |i: int| v@[i * (kvh * hd) + kv * hd + p % hd]),
                )
            }) by {
                lemma_attention_at(m, *cfg, q@, k@, v@, t0 as nat, seq as nat, p);
            }
        }
        out
    }

    /// Self-attention with grouped heads and causal masking, of `seq` tokens.
    pub fn multi_head_attention(
        &self,
        q: &[T],
        k: &[T],
        v: &[T],
        seq: usize,
        cfg: &LayerConfig,
    ) -> (out: Vec<T>)
        requires
            self.ok(*cfg),
            heads_share_evenly(*cfg),
            cfg.q_size() <= usize::MAX,
            cfg.kv_size() <= usize::MAX,
            seq * cfg.n_heads <= usize::MAX,
            q@.len() == seq * cfg.q_size(),
            k@.len() == seq * cfg.kv_size(),
            v@.len() == seq * cfg.kv_size(),
        ensures
            out@ == attended(self.math(), *cfg, q@, k@, v@, 0, seq as nat),
            out@.len() == seq * (cfg.n_heads * cfg.head_dim),
            forall|p: int|
                0 <= p < out@.len() ==> #[trigger] out@[p] == ({
                    let m = self.math();
                    let (h, kvh, hd) = (
                        cfg.n_heads as int,
                        cfg.n_kv_heads as int,
                        cfg.head_dim as int,
                    );
                    let kv = p / hd % h / (h / kvh);
                    let at = p / hd * hd;
                    let seen = (p / (h * hd) + 1) as nat;
                    (m.mix)(
                        (m.shares)(
                            Seq::new(
                                seen,
                                |i: int|
                                    (m.score)(
                                        q@.subrange(at, at + hd),
                                        k@.subrange(
                                            i * (kvh * hd) + kv * hd,
                                            i * (kvh * hd) + kv * hd + hd,
                                        ),
                                    ),
                            ),
                        ),
                        Seq::new(seen, |i: int| v@[i * (kvh * hd) + kv * hd + p % hd]),
                    )
                }),
    {
        self.attend(cfg, q, k, v, 0, seq)
    }
}

/// Number `d` of each of the values that a query sees.
pub open spec fn seen_column<T>(
    cfg: LayerConfig,
    v: Seq<T>,
    visible: nat,
    kv_head_at: nat,
    d: int,
) -> Seq<T> {
    Seq::new(visible, |i: int| v[i * cfg.kv_size() + kv_head_at + d])
}

/// What a query gives.
pub open spec fn head_numbers<T>(
    m: Arithmetic<T>,
    cfg: LayerConfig,
    q: Seq<T>,
    k: Seq<T>,
    v: Seq<T>,
    visible: nat,
    kv_head_at: nat,
) -> Seq<T> {
    Seq::new(
        cfg.head_dim as nat,
        |d: int| head_number(m, cfg, q, k, v, visible, kv_head_at, d),
    )
}

/// A query and what it sees lie within their buffers.
proof fn lemma_head_bounds(
    cfg: LayerConfig,
    t0: nat,
    seq: nat,
    rows: Seq<AttentionRow>,
    j: int,
)
    requires
        heads_share_evenly(cfg),
        all_parts(rows) == queries(cfg, t0, seq),
        0 <= j < rows.len(),
        rows.len() == seq * cfg.n_heads,
    ensures
        rows[j].visible > 0,
        rows[j].at == j * cfg.head_dim,
        j * cfg.head_dim + cfg.head_dim <= seq * cfg.q_size(),
        forall|i: nat|
            i < rows[j].visible ==> #[trigger] rows[j].seen_at(cfg, i) + cfg.head_dim <= (t0 + seq)
                * cfg.kv_size(),
{
    let h = cfg.n_heads as nat;
    assert(all_parts(rows)[j] == rows[j].parts());
    assert(h > 0) by (nonlinear_arith)
        requires
            0 <= j < seq * h,
    ;
    lemma_query_fits(cfg, seq, j as nat, 1);
    let t = j as nat / h;
    assert forall|i: nat| i < rows[j].visible implies #[trigger] rows[j].seen_at(cfg, i)
        + cfg.head_dim <= (t0 + seq) * cfg.kv_size() by {
        lemma_causal(cfg, t0, seq, rows, j, i);
        let kvd = cfg.kv_size();
        assert((t0 + t + 1) * kvd <= (t0 + seq) * kvd) by (nonlinear_arith)
            requires
                t + 1 <= seq,
        ;
    }
}

/// What query `j` gives stands at its place.
proof fn lemma_head_block<T>(
    m: Arithmetic<T>,
    cfg: LayerConfig,
    q: Seq<T>,
    k: Seq<T>,
    v: Seq<T>,
    t0: nat,
    seq: nat,
    j: int,
)
    requires
        0 <= j < seq * cfg.n_heads,
    ensures
        ({
            let hd = cfg.head_dim as int;
            let (at, visible, kv_head_at) = queries(cfg, t0, seq)[j];
            let want = attended(m, cfg, q, k, v, t0, seq);
            &&& 0 <= j * hd
            &&& j * hd + hd <= want.len()
            &&& want.subrange(j * hd, j * hd + hd) == head_numbers(
                m,
                cfg,
                q.subrange(at as int, at + hd),
                k,
                v,
                visible,
                kv_head_at,
            )
        }),
{
    let hd = cfg.head_dim as int;
    let h = cfg.n_heads as nat;
    assert(h > 0) by (nonlinear_arith)
        requires
            0 <= j < seq * h,
    ;
    lemma_query_fits(cfg, seq, j as nat, 1);
    let (at, visible, kv_head_at) = queries(cfg, t0, seq)[j];
    let want = attended(m, cfg, q, k, v, t0, seq);
    let block = head_numbers(m, cfg, q.subrange(at as int, at + hd), k, v, visible, kv_head_at);
    assert(j * hd >= 0) by (nonlinear_arith)
        requires
            0 <= j,
            0 <= hd,
    ;
    assert forall|d: int| 0 <= d < hd implies want.subrange(j * hd, j * hd + hd)[d] == block[d] by {
        lemma_fundamental_div_mod_converse(j * hd + d, hd, j, d);
    }
    assert(want.subrange(j * hd, j * hd + hd) =~= block);
}

/// Number `d` of each value that a query sees.
fn column<T: Copy>(cfg: &LayerConfig, r: &AttentionRow, v: &[T], d: usize) -> (c: Vec<T>)
    requires
        cfg.kv_size() <= usize::MAX,
        d < cfg.head_dim,
        forall|i: nat|
            i < r.visible ==> #[trigger] r.seen_at(*cfg, i) + cfg.head_dim <= v@.len(),
    ensures
        c@ == seen_column(*cfg, v@, r.visible as nat, r.kv_head_at as nat, d as int),
{
    let ghost want = seen_column(*cfg, v@, r.visible as nat, r.kv_head_at as nat, d as int);
    let ghost all: usize = v.len();
    let mut c: Vec<T> = Vec::new();
    let mut i: usize = 0;
    while i < r.visible
        invariant
            i <= r.visible,
            cfg.kv_size() <= usize::MAX,
            d < cfg.head_dim,
            all == v@.len(),
            forall|i: nat|
                i < r.visible ==> #[trigger] r.seen_at(*cfg, i) + cfg.head_dim <= v@.len(),
            want == seen_column(*cfg, v@, r.visible as nat, r.kv_head_at as nat, d as int),
            c@ == want.subrange(0, i as int),
        decreases r.visible - i,
    {
        assert(r.seen_at(*cfg, i as nat) + cfg.head_dim <= all);
        let at: usize = r.key_at(cfg, i);
        c.push(v[at + d]);
        i = i + 1;
        assert(c@ =~= want.subrange(0, i as int));
    }
    assert(c@ =~= want);
    c
}

fn append<T: Copy>(out: &mut Vec<T>, y: &Vec<T>)
    ensures
        final(out)@ == old(out)@ + y@,
{
    let ghost start = out@;
    let mut i: usize = 0;
    while i < y.len()
        invariant
            i <= y@.len(),
            out@ == start + y@.subrange(0, i as int),
        decreases y@.len() - i,
    {
        out.push(y[i]);
        i = i + 1;
        assert(out@ =~= start + y@.subrange(0, i as int));
    }
    assert(out@ =~= start + y@);
}

/// One row more.
proof fn lemma_next_row<T>(n: nat, d: nat, f: spec_fn(int, int) -> T)
    ensures
        rowwise(n + 1, d, f) == rowwise(n, d, f) + Seq::new(d, |o: int| f(n as int, o)),
{
    let a = rowwise(n, d, f);
    let b = rowwise(n + 1, d, f);
    lemma_row_bounds(n + 1, d, n as int);
    assert forall|p: int| 0 <= p < b.len() implies b[p] == (a + Seq::new(
        d,
        |o: int| f(n as int, o),
    ))[p] by {
        if p >= n * d {
            lemma_place(n + 1, d, n as int, p - n * d);
        }
    }
    assert(b =~= a + Seq::new(d, |o: int| f(n as int, o)));
}

/// Row and column of an element.
proof fn lemma_column(n: nat, d: nat, p: int)
    requires
        0 <= p < n * d,
    ensures
        d > 0,
        0 <= p / d as int,
        p / (d as int) < n,
        0 <= p % (d as int) < d,
        p == p / d as int * d + p % (d as int),
        (p / d as int + 1) * d == p / d as int * d + d,
        (p / d as int + 1) * d <= n * d,
{
    assert(d > 0) by (nonlinear_arith)
        requires
            0 <= p < n * d,
    ;
    lemma_fundamental_div_mod(p, d as int);
    lemma_mul_is_commutative(n as int, d as int);
    lemma_multiply_divide_lt(p, d as int, n as int);
    let t = p / d as int;
    assert(t >= 0) by (nonlinear_arith)
        requires
            p == d * t + p % (d as int),
            0 <= p,
            p % (d as int) < d,
            d > 0,
    ;
    lemma_mul_is_commutative(t, d as int);
    lemma_row_bounds(n, d, t);
}

} // verus!
