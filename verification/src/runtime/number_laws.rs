//! Which numbers meet in a layer, place by place.
//!
//! Buffers are row-major. The places are written out: `token * row + head *
//! head_dim + i`.

use crate::runtime::attention::{heads_share_evenly, queries, query};
use crate::runtime::forward::{path_of, Buffer, Mode, Path, Weight};
use crate::runtime::layer::{
    attended, head_number, lemma_place, lemma_row_bounds, row, turned, turned_rows, Arithmetic,
    Layer, Pass,
};
use crate::runtime::model::{transposed, LayerConfig};
use vstd::arithmetic::div_mod::{
    lemma_div_by_self, lemma_fundamental_div_mod, lemma_fundamental_div_mod_converse,
};
use vstd::prelude::*;

verus! {

/// A place of a row of heads lies within the row.
pub(crate) proof fn lemma_in_row(n: nat, h: nat, hd: nat, t: int, head: int, d: int)
    requires
        0 <= t < n,
        0 <= head < h,
        0 <= d < hd,
    ensures
        0 <= head * hd,
        head * hd + hd <= h * hd,
        0 <= t * (h * hd),
        t * (h * hd) + h * hd <= n * (h * hd),
        (t * (h * hd) + head * hd + d) / hd as int == t * h + head,
        (t * (h * hd) + head * hd + d) % (hd as int) == d,
        0 <= t * h + head < n * h,
        (t * h + head) / h as int == t,
        (t * h + head) % (h as int) == head,
{
    assert(0 <= head * hd && head * hd + hd <= h * hd) by (nonlinear_arith)
        requires
            0 <= head,
            head + 1 <= h,
    ;
    lemma_row_bounds(n, h * hd, t);
    let p = t * (h * hd) + head * hd + d;
    assert(p == (t * h + head) * hd + d) by (nonlinear_arith)
        requires
            p == t * (h * hd) + head * hd + d,
    ;
    lemma_fundamental_div_mod_converse(p, hd as int, t * h + head, d);
    lemma_place(n, h, t, head);
}

/// What attention gives, number by number. Number `d` of query head `head` of
/// token `t` is the mix of numbers `d` of the values of the tokens up to `t`,
/// by the shares of how well their keys agree with the query. Keys and values
/// are those of key/value head `head / (n_heads / n_kv_heads)`.
pub proof fn lemma_attention_numbers<T>(
    m: Arithmetic<T>,
    cfg: LayerConfig,
    q: Seq<T>,
    k: Seq<T>,
    v: Seq<T>,
    t0: nat,
    n: nat,
    t: int,
    head: int,
    d: int,
)
    requires
        0 <= t < n,
        0 <= head < cfg.n_heads,
        0 <= d < cfg.head_dim,
        heads_share_evenly(cfg),
    ensures
        ({
            let (h, kvh, hd) = (cfg.n_heads as int, cfg.n_kv_heads as int, cfg.head_dim as int);
            let kv = head / (h / kvh);
            let at = t * (h * hd) + head * hd;
            let seen = (t0 + t + 1) as nat;
            let scores = Seq::new(
                seen,
                |i: int|
                    (m.score)(
                        q.subrange(at, at + hd),
                        k.subrange(i * (kvh * hd) + kv * hd, i * (kvh * hd) + kv * hd + hd),
                    ),
            );
            let out = attended(m, cfg, q, k, v, t0, n);
            &&& out.len() == n * (h * hd)
            &&& 0 <= at + d < out.len()
            &&& out[at + d] == (m.mix)(
                (m.shares)(scores),
                Seq::new(seen, |i: int| v[i * (kvh * hd) + kv * hd + d]),
            )
        }),
{
    let (h, kvh, hd) = (cfg.n_heads as int, cfg.n_kv_heads as int, cfg.head_dim as int);
    let kv = head / (h / kvh);
    let at = t * (h * hd) + head * hd;
    let seen = (t0 + t + 1) as nat;
    lemma_in_row(n, h as nat, hd as nat, t, head, d);
    let j = t * h + head;
    assert(queries(cfg, t0, n)[j] == query(cfg, t0, t as nat, head as nat));
    let scores = Seq::new(
        seen,
        |i: int|
            (m.score)(
                q.subrange(at, at + hd),
                k.subrange(i * (kvh * hd) + kv * hd, i * (kvh * hd) + kv * hd + hd),
            ),
    );
    let values = Seq::new(seen, |i: int| v[i * (kvh * hd) + kv * hd + d]);
    let (qa, visible, kv_at) = queries(cfg, t0, n)[j];
    assert(qa == at && visible == seen && kv_at == kv * hd);
    let kvd = cfg.kv_size();
    let scores2 = Seq::new(
        visible,
        |i: int|
            (m.score)(
                q.subrange(qa as int, qa + hd),
                k.subrange(i * kvd + kv_at, i * kvd + kv_at + cfg.head_dim as nat),
            ),
    );
    assert(scores2 =~= scores);
    let values2 = Seq::new(visible, |i: int| v[i * kvd + kv_at + d]);
    assert(values2 =~= values);
    assert(head_number(m, cfg, q.subrange(qa as int, qa + hd), k, v, visible, kv_at, d) == (m.mix)(
        (m.shares)(scores2),
        values2,
    ));
}

/// What attention gives at a place `p` of its output: token, head and number are
/// read off the place.
pub(crate) proof fn lemma_attention_at<T>(
    m: Arithmetic<T>,
    cfg: LayerConfig,
    q: Seq<T>,
    k: Seq<T>,
    v: Seq<T>,
    t0: nat,
    n: nat,
    p: int,
)
    requires
        heads_share_evenly(cfg),
        0 <= p < n * (cfg.n_heads * cfg.head_dim),
    ensures
        ({
            let (h, kvh, hd) = (cfg.n_heads as int, cfg.n_kv_heads as int, cfg.head_dim as int);
            let kv = p / hd % h / (h / kvh);
            let at = p / hd * hd;
            let seen = (t0 + p / (h * hd) + 1) as nat;
            attended(m, cfg, q, k, v, t0, n)[p] == (m.mix)(
                (m.shares)(
                    Seq::new(
                        seen,
                        |i: int|
                            (m.score)(
                                q.subrange(at, at + hd),
                                k.subrange(
                                    i * (kvh * hd) + kv * hd,
                                    i * (kvh * hd) + kv * hd + hd,
                                ),
                            ),
                    ),
                ),
                Seq::new(seen, |i: int| v[i * (kvh * hd) + kv * hd + p % hd]),
            )
        }),
{
    let (h, hd) = (cfg.n_heads as nat, cfg.head_dim as nat);
    let qd = h * hd;
    assert(h > 0 && hd > 0) by (nonlinear_arith)
        requires
            0 <= p < n * (h * hd),
    ;
    assert(qd > 0) by (nonlinear_arith)
        requires
            qd == h * hd,
            h > 0,
            hd > 0,
    ;
    let t = p / qd as int;
    let o = p % (qd as int);
    lemma_fundamental_div_mod(p, qd as int);
    assert(0 <= t < n && p == t * qd + o) by (nonlinear_arith)
        requires
            p == qd * t + o,
            0 <= o < qd,
            0 <= p < n * qd,
    ;
    let head = o / hd as int;
    let d = o % (hd as int);
    lemma_fundamental_div_mod(o, hd as int);
    assert(0 <= head < h && o == head * hd + d) by (nonlinear_arith)
        requires
            o == hd * head + d,
            0 <= d < hd,
            0 <= o < h * hd,
    ;
    lemma_in_row(n, h, hd, t, head, d);
    assert((t * h + head) * hd == t * (h * hd) + head * hd) by (nonlinear_arith);
    lemma_attention_numbers(m, cfg, q, k, v, t0, n, t, head, d);
}

/// The columns of one head: number `d` of head `head` of each of `n` tokens with
/// `h` heads.
pub open spec fn head_columns<T>(b: Seq<T>, n: nat, h: int, hd: int, head: int) -> Seq<T> {
    Seq::new(
        n * hd as nat,
        |p: int| b[(p / hd) * (h * hd) + head * hd + p % hd],
    )
}

/// Every query head works alone, with one key/value head: what it gives is what
/// attention gives of a layer that has only this query head and the key/value
/// head that it shares.
pub proof fn lemma_heads_work_alone<T>(
    m: Arithmetic<T>,
    cfg: LayerConfig,
    alone: LayerConfig,
    q: Seq<T>,
    k: Seq<T>,
    v: Seq<T>,
    t0: nat,
    n: nat,
    t: int,
    kv: int,
    share: int,
    d: int,
)
    requires
        heads_share_evenly(cfg),
        alone.n_heads == 1,
        alone.n_kv_heads == 1,
        alone.head_dim == cfg.head_dim,
        q.len() == n * (cfg.n_heads * cfg.head_dim),
        k.len() == (t0 + n) * (cfg.n_kv_heads * cfg.head_dim),
        v.len() == (t0 + n) * (cfg.n_kv_heads * cfg.head_dim),
        0 <= t < n,
        0 <= kv < cfg.n_kv_heads,
        0 <= share < cfg.n_heads as int / cfg.n_kv_heads as int,
        0 <= d < cfg.head_dim,
    ensures
        ({
            let (h, kvh, hd) = (cfg.n_heads as int, cfg.n_kv_heads as int, cfg.head_dim as int);
            let head = kv * (h / kvh) + share;
            &&& 0 <= head < h
            &&& attended(m, cfg, q, k, v, t0, n)[t * (h * hd) + head * hd + d] == attended(
                m,
                alone,
                head_columns(q, n, h, hd, head),
                head_columns(k, t0 + n, kvh, hd, kv),
                head_columns(v, t0 + n, kvh, hd, kv),
                t0,
                n,
            )[t * hd + d]
        }),
{
    let (h, kvh, hd) = (cfg.n_heads as int, cfg.n_kv_heads as int, cfg.head_dim as int);
    let g = h / kvh;
    let head = kv * g + share;
    lemma_fundamental_div_mod(h, kvh);
    assert(0 <= head < h) by (nonlinear_arith)
        requires
            head == kv * g + share,
            0 <= share < g,
            0 <= kv,
            kv + 1 <= kvh,
            h == kvh * g + 0,
    ;
    lemma_fundamental_div_mod_converse(head, g, kv, share);
    lemma_attention_numbers(m, cfg, q, k, v, t0, n, t, head, d);
    let (q1, k1, v1) = (
        head_columns(q, n, h, hd, head),
        head_columns(k, t0 + n, kvh, hd, kv),
        head_columns(v, t0 + n, kvh, hd, kv),
    );
    lemma_div_by_self(1);
    assert(heads_share_evenly(alone));
    lemma_attention_numbers(m, alone, q1, k1, v1, t0, n, t, 0, d);
    assert(1 * hd == hd && 0 * hd == 0 && 0int / 1 == 0);
    let at = t * (h * hd) + head * hd;
    let seen = (t0 + t + 1) as nat;
    lemma_in_row(n, h as nat, hd as nat, t, head, d);
    lemma_row_bounds(n, hd as nat, t);
    let query = q.subrange(at, at + hd);
    let query1 = q1.subrange(t * hd, t * hd + hd);
    assert forall|e: int| 0 <= e < hd implies query[e] == query1[e] by {
        lemma_place(n, hd as nat, t, e);
        assert(q1[t * hd + e] == q[t * (h * hd) + head * hd + e]);
    }
    assert(query1.len() == hd);
    assert(query.len() == hd);
    assert(query =~= query1);
    assert forall|i: int| 0 <= i < seen implies #[trigger] k.subrange(
        i * (kvh * hd) + kv * hd,
        i * (kvh * hd) + kv * hd + hd,
    ) == k1.subrange(i * hd, i * hd + hd) by {
        let from = i * (kvh * hd) + kv * hd;
        lemma_in_row(t0 + n, kvh as nat, hd as nat, i, kv, d);
        lemma_row_bounds(t0 + n, hd as nat, i);
        let (x, y) = (k.subrange(from, from + hd), k1.subrange(i * hd, i * hd + hd));
        assert forall|e: int| 0 <= e < hd implies x[e] == y[e] by {
            lemma_place(t0 + n, hd as nat, i, e);
            assert(k1[i * hd + e] == k[i * (kvh * hd) + kv * hd + e]);
        }
        assert(x =~= y);
    }
    let scores = Seq::new(
        seen,
        |i: int|
            (m.score)(
                query,
                k.subrange(i * (kvh * hd) + kv * hd, i * (kvh * hd) + kv * hd + hd),
            ),
    );
    let scores1 = Seq::new(
        seen,
        |i: int|
            (m.score)(
                q1.subrange(t * (1 * hd) + 0 * hd, t * (1 * hd) + 0 * hd + hd),
                k1.subrange(i * (1 * hd) + 0 * hd, i * (1 * hd) + 0 * hd + hd),
            ),
    );
    assert(scores =~= scores1);
    let values = Seq::new(seen, |i: int| v[i * (kvh * hd) + kv * hd + d]);
    let values1 = Seq::new(seen, |i: int| v1[i * (1 * hd) + 0 * hd + d]);
    assert forall|i: int| 0 <= i < seen implies values[i] == values1[i] by {
        lemma_place(t0 + n, hd as nat, i, d);
    }
    assert(values =~= values1);
}

/// What the rotation gives, number by number. Numbers `i` and `i + head_dim / 2`
/// of a head of token `t` turn together, by the angle of the token's position
/// and `i`.
pub proof fn lemma_rotation_numbers<T>(
    m: Arithmetic<T>,
    n_heads: nat,
    head_dim: nat,
    positions: Seq<u32>,
    b: Seq<T>,
    t: int,
    head: int,
    i: int,
)
    requires
        head_dim % 2 == 0,
        0 <= t < positions.len(),
        0 <= head < n_heads,
        0 <= i < head_dim as int / 2,
        b.len() == positions.len() * (n_heads * head_dim),
    ensures
        ({
            let at = t * (n_heads * head_dim) + head * head_dim + i;
            let far = at + head_dim as int / 2;
            let out = turned_rows(m, head_dim, positions, n_heads * head_dim, b);
            &&& out.len() == b.len()
            &&& 0 <= at < far < b.len()
            &&& (out[at], out[far]) == (m.rotate)(positions[t], i, b[at], b[far])
        }),
{
    let n = positions.len();
    let d = n_heads * head_dim;
    let half = head_dim as int / 2;
    lemma_in_row(n, n_heads, head_dim, t, head, i);
    lemma_in_row(n, n_heads, head_dim, t, head, i + half);
    let o = head * head_dim + i;
    lemma_place(n, d, t, o);
    lemma_place(n, d, t, o + half);
    lemma_fundamental_div_mod_converse(o, head_dim as int, head, i);
    lemma_fundamental_div_mod_converse(o + half, head_dim as int, head, i + half);
    let x = row(b, t, d);
    assert(x[o] == b[t * d + o]);
    assert(x[o + half] == b[t * d + o + half]);
    let out = turned_rows(m, head_dim, positions, d, b);
    assert(out[t * d + o] == turned(m, head_dim, positions[t], x, o));
    assert(out[t * d + o + half] == turned(m, head_dim, positions[t], x, o + half));
}

/// A transposed matrix holds in row `k` and column `o` what the matrix holds in
/// row `o` and column `k`.
pub proof fn lemma_transposed_numbers<T>(s: Seq<T>, rows: nat, cols: nat, o: int, k: int)
    requires
        0 <= o < rows,
        0 <= k < cols,
    ensures
        transposed(s, rows, cols).len() == rows * cols,
        0 <= k * rows + o < rows * cols,
        transposed(s, rows, cols)[k * rows + o] == s[o * cols + k],
{
    lemma_place(cols, rows, k, o);
    assert(cols * rows == rows * cols) by (nonlinear_arith);
}

/// The arithmetic gives rows of the sizes of the layer.
pub open spec fn sized<T>(m: Arithmetic<T>, cfg: LayerConfig) -> bool {
    let (h, ff) = (cfg.hidden as nat, cfg.ffn_hidden as nat);
    let qd = cfg.n_heads as nat * cfg.head_dim as nat;
    let kvd = cfg.n_kv_heads as nat * cfg.head_dim as nat;
    &&& forall|ffn: bool, r: Seq<T>| r.len() == h ==> (#[trigger] (m.norm)(ffn, r)).len() == h
    &&& forall|w: Weight, p: Path, r: Seq<T>|
        (#[trigger] (m.product)(w, p, r)).len() == match w {
            Weight::Q => qd,
            Weight::K => kvd,
            Weight::V => kvd,
            Weight::O => h,
            Weight::Gate => ff,
            Weight::Up => ff,
            Weight::Down => h,
            Weight::LmHead => (m.product)(w, p, r).len(),
        }
    &&& forall|w: Weight, r: Seq<T>| (#[trigger] (m.bias)(w, r)).len() == r.len()
}

/// What a layer makes of a token, from its input to its output:
///
/// - the input is normalized and multiplied with the weights of queries, keys
///   and values, and each product gets its bias where there is one;
/// - query and key are turned by the token's position;
/// - the heads attend to the tokens up to this one: to those of the pass, or to
///   those in the cache, which gets the token's key and value first;
/// - what they give is multiplied with the output weight and added to the input;
/// - the sum is normalized and multiplied with the two inner weights, the first
///   product is put through SiLU and multiplied with the second, and the product of
///   that with the last weight is added to the sum.
///
/// Without native kernels every product is plain. With them a quantized weight
/// goes to a kernel for quantized weights and another one to a kernel for fp32
/// weights; the activation is quantized where VNNI is there and a row has at
/// most 64 blocks.
pub proof fn lemma_layer_numbers<T>(
    l: Layer<T>,
    mode: Mode,
    x: Seq<T>,
    positions: Seq<u32>,
    s: Pass<T>,
    t: int,
)
    requires
        l.ok(),
        sized(l.math, l.cfg),
        x.len() == positions.len() * l.cfg.hidden,
        0 <= t < positions.len(),
        !(mode is Prefill) ==> positions.len() == 1,
    ensures
        ({
            let (m, c, kinds) = (l.math, l.cfg, l.kinds);
            let (h, hd, ff) = (c.hidden as nat, c.head_dim as nat, c.ffn_hidden as nat);
            let qd = c.n_heads as nat * hd;
            let kvd = c.n_kv_heads as nat * hd;
            let path = |q8: bool, d_in: nat|
                match mode {
                    Mode::Prefill => Path::Naive,
                    Mode::Decode => Path::Naive,
                    Mode::DecodeJit { has_vnni: true } => if d_in / 32 <= 64 {
                        if q8 {
                            Path::Q8Q8Kernel
                        } else {
                            Path::RoundedF32Kernel
                        }
                    } else {
                        if q8 {
                            Path::Q8Kernel
                        } else {
                            Path::F32Kernel
                        }
                    },
                    Mode::DecodeJit { has_vnni: false } => if q8 {
                        Path::Q8Kernel
                    } else {
                        Path::F32Kernel
                    },
                };
            let y = l.pass(mode, x, positions, s);
            let xt = x.subrange(t * h, t * h + h);
            let a = (m.norm)(false, xt);
            let q0 = (m.product)(Weight::Q, path(kinds.wq, h), a);
            let k0 = (m.product)(Weight::K, path(kinds.wk, h), a);
            let v0 = (m.product)(Weight::V, path(kinds.wv, h), a);
            let q1 = if kinds.b_q {
                (m.bias)(Weight::Q, q0)
            } else {
                q0
            };
            let k1 = if kinds.b_k {
                (m.bias)(Weight::K, k0)
            } else {
                k0
            };
            let v1 = if kinds.b_v {
                (m.bias)(Weight::V, v0)
            } else {
                v0
            };
            let here = seq![positions[t]];
            let (keys, values, before) = if mode is Prefill {
                (y.held[Buffer::K], y.held[Buffer::V], t as nat)
            } else {
                (y.cache.k, y.cache.v, s.cache.len)
            };
            let heads = attended(m, c, turned_rows(m, hd, here, qd, q1), keys, values, before, 1);
            let o = (m.product)(Weight::O, path(kinds.wo, qd), heads);
            let sum = Seq::new(h, |i: int| (m.plus)(xt[i], o[i]));
            let f = (m.norm)(true, sum);
            let gate = (m.product)(Weight::Gate, path(kinds.w_gate, h), f);
            let up = (m.product)(Weight::Up, path(kinds.w_up, h), f);
            let gu = Seq::new(ff, |i: int| (m.gated)(gate[i], up[i]));
            let down = (m.product)(Weight::Down, path(kinds.w_down, ff), gu);
            &&& y.held[Buffer::K].len() == positions.len() * kvd
            &&& y.held[Buffer::V].len() == positions.len() * kvd
            &&& y.held[Buffer::Resid].len() == positions.len() * h
            &&& y.held[Buffer::K].subrange(t * kvd, t * kvd + kvd) == turned_rows(
                m,
                hd,
                here,
                kvd,
                k1,
            )
            &&& y.held[Buffer::V].subrange(t * kvd, t * kvd + kvd) == v1
            &&& mode is Prefill ==> y.cache == s.cache
            &&& !(mode is Prefill) ==> y.cache.k == s.cache.k + y.held[Buffer::K]
            &&& !(mode is Prefill) ==> y.cache.v == s.cache.v + y.held[Buffer::V]
            &&& !(mode is Prefill) ==> y.cache.len == s.cache.len + 1
            &&& y.held[Buffer::Resid].subrange(t * h, t * h + h) == Seq::new(
                h,
                |i: int| (m.plus)(sum[i], down[i]),
            )
        }),
{
    let (m, c) = (l.math, l.cfg);
    let (h, hd) = (c.hidden as nat, c.head_dim as nat);
    let qd = c.n_heads as nat * hd;
    let kvd = c.n_kv_heads as nat * hd;
    assert(qd == c.q_size() && kvd == c.kv_size());
    let y = l.pass(mode, x, positions, s);
    let n = positions.len();
    l.lemma_pass(mode, x, positions, s, t);
    lemma_row_bounds(n, h, t);
    lemma_row_bounds(n, kvd, t);
    let xt = x.subrange(t * h, t * h + h);
    assert(row(x, t, h) == xt);
    lemma_products(l, mode, xt);
    let here = seq![positions[t]];
    let q1 = l.q_flat(mode, xt);
    let k1 = l.k_flat(mode, xt);
    lemma_turned_alone(l, positions[t], qd, q1);
    lemma_turned_alone(l, positions[t], kvd, k1);
    let q2 = turned_rows(m, hd, here, qd, q1);
    let (keys, values) = Layer::<T>::seen(mode, y);
    let before = if mode is Prefill {
        t as nat
    } else {
        s.cache.len
    };
    lemma_heads_alone(l, q2, keys, values, before);
    let heads = attended(m, c, q2, keys, values, before, 1);
    lemma_rest(l, mode, xt, heads);
}

/// The queries, keys and values of a token before they are turned.
proof fn lemma_products<T>(l: Layer<T>, mode: Mode, xt: Seq<T>)
    requires
        sized(l.math, l.cfg),
        xt.len() == l.cfg.hidden,
    ensures
        ({
            let (m, kinds, h) = (l.math, l.kinds, l.cfg.hidden as nat);
            let a = (m.norm)(false, xt);
            let q0 = (m.product)(Weight::Q, path_of(mode, kinds.wq, h), a);
            let k0 = (m.product)(Weight::K, path_of(mode, kinds.wk, h), a);
            let v0 = (m.product)(Weight::V, path_of(mode, kinds.wv, h), a);
            &&& l.q_flat(mode, xt) == if kinds.b_q {
                (m.bias)(Weight::Q, q0)
            } else {
                q0
            }
            &&& l.k_flat(mode, xt) == if kinds.b_k {
                (m.bias)(Weight::K, k0)
            } else {
                k0
            }
            &&& l.v_row(mode, xt) == if kinds.b_v {
                (m.bias)(Weight::V, v0)
            } else {
                v0
            }
            &&& l.q_flat(mode, xt).len() == l.cfg.q_size()
            &&& l.k_flat(mode, xt).len() == l.cfg.kv_size()
        }),
{
    let (m, kinds, h) = (l.math, l.kinds, l.cfg.hidden as nat);
    let a = (m.norm)(false, xt);
    assert(l.normed_row(false, xt) =~= a);
    let q0 = (m.product)(Weight::Q, path_of(mode, kinds.wq, h), a);
    let k0 = (m.product)(Weight::K, path_of(mode, kinds.wk, h), a);
    let v0 = (m.product)(Weight::V, path_of(mode, kinds.wv, h), a);
    assert(l.product_row(mode, Weight::Q, a) =~= q0);
    assert(l.product_row(mode, Weight::K, a) =~= k0);
    assert(l.product_row(mode, Weight::V, a) =~= v0);
    assert(l.bias_row(true, Weight::Q, q0) =~= (m.bias)(Weight::Q, q0));
    assert(l.bias_row(true, Weight::K, k0) =~= (m.bias)(Weight::K, k0));
    assert(l.bias_row(true, Weight::V, v0) =~= (m.bias)(Weight::V, v0));
}

/// A single row, turned.
proof fn lemma_turned_alone<T>(l: Layer<T>, pos: u32, d: nat, r: Seq<T>)
    requires
        r.len() == d,
    ensures
        turned_rows(l.math, l.cfg.head_dim as nat, seq![pos], d, r) == l.turned_row(pos, d, r),
{
    let out = turned_rows(l.math, l.cfg.head_dim as nat, seq![pos], d, r);
    l.lemma_turned(seq![pos], d, r, 0);
    assert(0 * d == 0 && 1 * d == d);
    assert(row(r, 0, d) =~= r);
    assert(out.len() == d);
    assert(row(out, 0, d) =~= out);
}

/// What the heads of a single token give.
proof fn lemma_heads_alone<T>(l: Layer<T>, q: Seq<T>, k: Seq<T>, v: Seq<T>, before: nat)
    requires
        q.len() == l.cfg.q_size(),
    ensures
        attended(l.math, l.cfg, q, k, v, before, 1) == l.heads_row(q, k, v, before + 1),
{
    let d = l.cfg.q_size();
    let out = attended(l.math, l.cfg, q, k, v, before, 1);
    assert(0 * d == 0 && 1 * d == d);
    l.lemma_attended(q, k, v, before, 1, 0);
    assert(row(q, 0, d) =~= q);
    assert(out.len() == d);
    assert(row(out, 0, d) =~= out);
}

/// What follows the heads.
proof fn lemma_rest<T>(l: Layer<T>, mode: Mode, xt: Seq<T>, heads: Seq<T>)
    requires
        sized(l.math, l.cfg),
    ensures
        ({
            let (m, kinds, h) = (l.math, l.kinds, l.cfg.hidden as nat);
            let (qd, ff) = (l.cfg.q_size(), l.cfg.ffn_hidden as nat);
            let o = (m.product)(Weight::O, path_of(mode, kinds.wo, qd), heads);
            let sum = Seq::new(h, |i: int| (m.plus)(xt[i], o[i]));
            let f = (m.norm)(true, sum);
            let gate = (m.product)(Weight::Gate, path_of(mode, kinds.w_gate, h), f);
            let up = (m.product)(Weight::Up, path_of(mode, kinds.w_up, h), f);
            let gu = Seq::new(ff, |i: int| (m.gated)(gate[i], up[i]));
            let down = (m.product)(Weight::Down, path_of(mode, kinds.w_down, ff), gu);
            l.out_row(mode, xt, heads) == Seq::new(h, |i: int| (m.plus)(sum[i], down[i]))
        }),
{
    let (m, kinds, h) = (l.math, l.kinds, l.cfg.hidden as nat);
    let (qd, ff) = (l.cfg.q_size(), l.cfg.ffn_hidden as nat);
    let o = (m.product)(Weight::O, path_of(mode, kinds.wo, qd), heads);
    assert(l.product_row(mode, Weight::O, heads) =~= o);
    let sum = Seq::new(h, |i: int| (m.plus)(xt[i], o[i]));
    assert(l.resid_row(mode, xt, heads) =~= sum);
    let f = (m.norm)(true, sum);
    assert(l.normed_row(true, sum) =~= f);
    let gate = (m.product)(Weight::Gate, path_of(mode, kinds.w_gate, h), f);
    let up = (m.product)(Weight::Up, path_of(mode, kinds.w_up, h), f);
    assert(l.product_row(mode, Weight::Gate, f) =~= gate);
    assert(l.product_row(mode, Weight::Up, f) =~= up);
    let gu = Seq::new(ff, |i: int| (m.gated)(gate[i], up[i]));
    let down = (m.product)(Weight::Down, path_of(mode, kinds.w_down, ff), gu);
    assert(l.product_row(mode, Weight::Down, gu) =~= down);
    assert(l.out_row(mode, xt, heads) =~= Seq::new(h, |i: int| (m.plus)(sum[i], down[i])));
}

} // verus!
