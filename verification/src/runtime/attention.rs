//! Which elements attention and the rotary embedding work on.
//!
//! Buffers are row-major: `[tokens, heads, head_dim]`. Several query heads may
//! share a key/value head, and a token sees itself and what came before it.
//! The arithmetic on the elements is the caller's.

use crate::runtime::model::LayerConfig;
use vstd::arithmetic::div_mod::{
    lemma_div_by_self, lemma_div_is_ordered, lemma_fundamental_div_mod, lemma_fundamental_div_mod_converse,
    lemma_multiply_divide_lt,
};
use vstd::arithmetic::mul::{lemma_mul_inequality, lemma_mul_is_commutative};
use vstd::prelude::*;

verus! {

/// One query: a head of a token.
#[derive(Copy, Clone, Debug, PartialEq, Eq, Structural)]
pub struct AttentionRow {
    /// Where its `head_dim` elements start, in the queries and in the output.
    pub at: usize,
    /// How many tokens it sees.
    pub visible: usize,
    /// Where the elements of its key/value head start, within a token's row.
    pub kv_head_at: usize,
}

/// How many query heads share each key/value head.
pub open spec fn group(cfg: LayerConfig) -> nat {
    cfg.n_heads as nat / cfg.n_kv_heads as nat
}

/// The key/value head of a query head.
pub open spec fn kv_head(cfg: LayerConfig, head: nat) -> nat {
    head / group(cfg)
}

/// There is a key/value head for each query head to share.
pub open spec fn heads_share(cfg: LayerConfig) -> bool {
    &&& cfg.n_kv_heads > 0
    &&& cfg.n_heads > 0 ==> cfg.n_heads >= cfg.n_kv_heads
}

/// The key/value heads are shared evenly.
pub open spec fn heads_share_evenly(cfg: LayerConfig) -> bool {
    &&& heads_share(cfg)
    &&& cfg.n_heads as nat % cfg.n_kv_heads as nat == 0
}

/// The query of a head of token `t0 + t`, where `t0` tokens came before the
/// first of the queries.
pub open spec fn query(cfg: LayerConfig, t0: nat, t: nat, head: nat) -> (nat, nat, nat) {
    (
        t * cfg.q_size() + head * cfg.head_dim as nat,
        t0 + t + 1,
        kv_head(cfg, head) * cfg.head_dim as nat,
    )
}

impl AttentionRow {
    /// Its three numbers.
    pub open spec fn parts(self) -> (nat, nat, nat) {
        (self.at as nat, self.visible as nat, self.kv_head_at as nat)
    }

    /// Where the elements of key (or value) `i` start, in the buffer of all
    /// keys (or values).
    pub open spec fn seen_at(self, cfg: LayerConfig, i: nat) -> nat {
        i * cfg.kv_size() + self.kv_head_at as nat
    }

    /// Where the elements of key (or value) `i` start, in the buffer of all
    /// keys (or values).
    pub fn key_at(&self, cfg: &LayerConfig, i: usize) -> (at: usize)
        requires
            self.seen_at(*cfg, i as nat) <= usize::MAX,
            cfg.kv_size() <= usize::MAX,
        ensures
            at as nat == self.seen_at(*cfg, i as nat),
    {
        i * cfg.kv_dim() + self.kv_head_at
    }
}

/// The queries of `seq` tokens, head by head and token by token, where `t0`
/// tokens came before them.
pub open spec fn queries(cfg: LayerConfig, t0: nat, seq: nat) -> Seq<(nat, nat, nat)> {
    Seq::new(
        seq * cfg.n_heads as nat,
        |j: int| query(cfg, t0, j as nat / cfg.n_heads as nat, j as nat % cfg.n_heads as nat),
    )
}

/// The numbers of rows.
pub open spec fn all_parts(rows: Seq<AttentionRow>) -> Seq<(nat, nat, nat)> {
    rows.map_values(|r: AttentionRow| r.parts())
}

/// The queries of `seq` tokens, head by head and token by token, where `t0`
/// tokens came before them.
pub fn attention_rows(cfg: &LayerConfig, t0: usize, seq: usize) -> (rows: Vec<AttentionRow>)
    requires
        heads_share(*cfg),
        t0 + seq <= usize::MAX,
        seq * cfg.n_heads <= usize::MAX,
        seq * cfg.q_size() <= usize::MAX,
        cfg.q_size() <= usize::MAX,
    ensures
        all_parts(rows@) == queries(*cfg, t0 as nat, seq as nat),
{
    let h: usize = cfg.n_heads;
    let hd: usize = cfg.head_dim;
    let n: usize = seq * h;
    let mut rows: Vec<AttentionRow> = Vec::new();
    if n == 0 {
        assert(all_parts(rows@) =~= queries(*cfg, t0 as nat, seq as nat));
        return rows;
    }
    assert(h > 0 && seq > 0) by (nonlinear_arith)
        requires
            seq * h != 0,
    ;
    let g: usize = cfg.heads_per_kv();
    assert(g >= 1) by {
        lemma_div_is_ordered(cfg.n_kv_heads as int, h as int, cfg.n_kv_heads as int);
        lemma_div_by_self(cfg.n_kv_heads as int);
    }
    let mut j: usize = 0;
    while j < n
        invariant
            j <= n == seq * h,
            h == cfg.n_heads,
            hd == cfg.head_dim,
            h > 0,
            g >= 1,
            g as nat == group(*cfg),
            t0 + seq <= usize::MAX,
            seq * cfg.q_size() <= usize::MAX,
            cfg.q_size() <= usize::MAX,
            all_parts(rows@) == queries(*cfg, t0 as nat, seq as nat).subrange(0, j as int),
        decreases n - j,
    {
        let t: usize = j / h;
        let head: usize = j % h;
        proof {
            lemma_query_fits(*cfg, seq as nat, j as nat, g as nat);
        }
        rows.push(
            AttentionRow { at: j * hd, visible: t0 + t + 1, kv_head_at: (head / g) * hd },
        );
        proof {
            let all = queries(*cfg, t0 as nat, seq as nat);
            assert(all.subrange(0, j + 1) =~= all.subrange(0, j as int).push(all[j as int]));
            assert(rows@.last().parts() == all[j as int]);
            assert(all_parts(rows@) =~= all.subrange(0, j + 1));
        }
        j = j + 1;
    }
    assert(all_parts(rows@) =~= queries(*cfg, t0 as nat, seq as nat));
    rows
}

/// The numbers of a query fit the machine.
pub(crate) proof fn lemma_query_fits(cfg: LayerConfig, seq: nat, j: nat, g: nat)
    requires
        j < seq * cfg.n_heads as nat,
        cfg.n_heads > 0,
        g >= 1,
    ensures
        j / (cfg.n_heads as nat) < seq,
        j % (cfg.n_heads as nat) < cfg.n_heads,
        j * cfg.head_dim as nat == (j / cfg.n_heads as nat) * cfg.q_size() + (j
            % cfg.n_heads as nat) * cfg.head_dim as nat,
        j * cfg.head_dim as nat + cfg.head_dim as nat <= seq * cfg.q_size(),
        (j % cfg.n_heads as nat) / g <= j % cfg.n_heads as nat,
        ((j % cfg.n_heads as nat) / g) * cfg.head_dim as nat <= cfg.q_size(),
{
    let h = cfg.n_heads as int;
    let hd = cfg.head_dim as int;
    let t = j as int / h;
    let head = j as int % h;
    lemma_fundamental_div_mod(j as int, h);
    lemma_mul_is_commutative(seq as int, h);
    lemma_multiply_divide_lt(j as int, h, seq as int);
    assert(j * hd == t * (h * hd) + head * hd) by (nonlinear_arith)
        requires
            j as int == h * t + head,
    ;
    assert(j * hd + hd <= seq * (h * hd)) by (nonlinear_arith)
        requires
            j + 1 <= seq * h,
            hd >= 0,
    ;
    assert(head / (g as int) <= head) by (nonlinear_arith)
        requires
            head >= 0,
            g >= 1,
    ;
    assert(head / (g as int) >= 0) by (nonlinear_arith)
        requires
            head >= 0,
            g >= 1,
    ;
    lemma_mul_inequality(head / (g as int), h, hd);
}

/// Two elements of a head that are rotated together.
#[derive(Copy, Clone, Debug, PartialEq, Eq, Structural)]
pub struct RopePair {
    pub first: usize,
    pub second: usize,
    /// Which angle: `half` of them for each token.
    pub turn: usize,
}

impl RopePair {
    /// Its three numbers.
    pub open spec fn parts(self) -> (nat, nat, nat) {
        (self.first as nat, self.second as nat, self.turn as nat)
    }
}

/// Elements `i` and `i + head_dim / 2` of a head of token `t`, with the angle
/// of the token and `i`.
pub open spec fn rotated(
    n_heads: nat,
    head_dim: nat,
    t: nat,
    head: nat,
    i: nat,
) -> (nat, nat, nat) {
    let at = t * (n_heads * head_dim) + head * head_dim;
    (at + i, at + i + head_dim / 2, t * (head_dim / 2) + i)
}

/// The pairs of `seq` tokens.
pub open spec fn all_rotated(seq: nat, n_heads: nat, head_dim: nat) -> Seq<(nat, nat, nat)> {
    let half = head_dim / 2;
    Seq::new(
        seq * n_heads * half,
        |j: int|
            rotated(
                n_heads,
                head_dim,
                j as nat / half / n_heads,
                j as nat / half % n_heads,
                j as nat % half,
            ),
    )
}

/// The numbers of pairs.
pub open spec fn pair_parts(pairs: Seq<RopePair>) -> Seq<(nat, nat, nat)> {
    pairs.map_values(|p: RopePair| p.parts())
}

/// The pairs of `seq` tokens.
pub fn rope_pairs(seq: usize, n_heads: usize, head_dim: usize) -> (pairs: Vec<RopePair>)
    requires
        head_dim % 2 == 0,
        seq * n_heads <= usize::MAX,
        seq * n_heads * head_dim <= usize::MAX,
    ensures
        pair_parts(pairs@) == all_rotated(seq as nat, n_heads as nat, head_dim as nat),
{
    let half: usize = head_dim / 2;
    let rows: usize = seq * n_heads;
    let mut pairs: Vec<RopePair> = Vec::new();
    assert(rows * half <= rows * head_dim) by (nonlinear_arith)
        requires
            half <= head_dim,
    ;
    let n: usize = rows * half;
    let ghost all = all_rotated(seq as nat, n_heads as nat, head_dim as nat);
    let mut j: usize = 0;
    while j < n
        invariant
            j <= n == rows * half,
            rows == seq * n_heads,
            half == head_dim / 2,
            head_dim % 2 == 0,
            rows * head_dim <= usize::MAX,
            all == all_rotated(seq as nat, n_heads as nat, head_dim as nat),
            all.len() == n,
            pair_parts(pairs@) == all.subrange(0, j as int),
        decreases n - j,
    {
        proof {
            lemma_pair_fits(seq as nat, n_heads as nat, head_dim as nat, j as nat);
        }
        let row: usize = j / half;
        let i: usize = j % half;
        let t: usize = row / n_heads;
        let first: usize = row * head_dim + i;
        pairs.push(RopePair { first, second: first + half, turn: t * half + i });
        proof {
            assert(all.subrange(0, j + 1) =~= all.subrange(0, j as int).push(all[j as int]));
            assert(pairs@.last().parts() == all[j as int]);
            assert(pair_parts(pairs@) =~= all.subrange(0, j + 1));
        }
        j = j + 1;
    }
    assert(pair_parts(pairs@) =~= all);
    pairs
}

/// The numbers of a pair fit the machine.
pub(crate) proof fn lemma_pair_fits(seq: nat, n_heads: nat, head_dim: nat, j: nat)
    requires
        head_dim % 2 == 0,
        j < seq * n_heads * (head_dim / 2),
    ensures
        head_dim > 0,
        n_heads > 0,
        ({
            let half = head_dim / 2;
            let row = j / half;
            &&& row < seq * n_heads
            &&& j % half < half
            &&& row / n_heads < seq
            &&& row % n_heads < n_heads
            &&& row * head_dim == (row / n_heads) * (n_heads * head_dim) + (row % n_heads)
                * head_dim
            &&& row * head_dim + j % half + half < seq * n_heads * head_dim
            &&& (row / n_heads) * half + j % half < seq * n_heads * head_dim
        }),
{
    let half = (head_dim / 2) as int;
    let rows = (seq * n_heads) as int;
    assert(half > 0 && n_heads > 0) by (nonlinear_arith)
        requires
            j < seq * n_heads * half,
            half >= 0,
    ;
    let row = j as int / half;
    let i = j as int % half;
    lemma_fundamental_div_mod(j as int, half);
    lemma_multiply_divide_lt(j as int, half, rows);
    lemma_fundamental_div_mod(row, n_heads as int);
    lemma_mul_is_commutative(seq as int, n_heads as int);
    lemma_multiply_divide_lt(row, n_heads as int, seq as int);
    let t = row / n_heads as int;
    let head = row % n_heads as int;
    assert(row * head_dim == t * (n_heads * head_dim) + head * head_dim) by (nonlinear_arith)
        requires
            row == n_heads * t + head,
    ;
    assert(row * head_dim + head_dim <= rows * head_dim) by (nonlinear_arith)
        requires
            row + 1 <= rows,
    ;
    assert(t <= row) by (nonlinear_arith)
        requires
            row == n_heads * t + head,
            n_heads >= 1,
            head >= 0,
            t >= 0,
    ;
    assert(t * half <= row * head_dim) by (nonlinear_arith)
        requires
            0 <= t <= row,
            0 <= half <= head_dim,
    ;
}

// ---- laws -----------------------------------------------------------------------------

/// Where the heads are shared evenly, each query head has a key/value head, and
/// the query heads of one stand next to each other.
pub proof fn lemma_heads_grouped(cfg: LayerConfig, head: nat, kv: nat)
    requires
        heads_share_evenly(cfg),
        head < cfg.n_heads,
    ensures
        kv_head(cfg, head) < cfg.n_kv_heads,
        kv_head(cfg, head) == kv <==> kv * group(cfg) <= head < (kv + 1) * group(cfg),
{
    let g = group(cfg) as int;
    let k = cfg.n_kv_heads as int;
    lemma_fundamental_div_mod(cfg.n_heads as int, k);
    assert(g > 0) by (nonlinear_arith)
        requires
            cfg.n_heads as int == k * g,
            cfg.n_heads > 0,
            k > 0,
    ;
    lemma_mul_is_commutative(k, g);
    lemma_multiply_divide_lt(head as int, g, k);
    lemma_fundamental_div_mod(head as int, g);
    let q = head as int / g;
    let r = head as int % g;
    assert(q == kv <==> kv * g <= head < (kv + 1) * g) by (nonlinear_arith)
        requires
            head as int == g * q + r,
            0 <= r < g,
            kv >= 0,
    ;
}

/// A query reads the keys and values of its own token and of those before it,
/// and of no later one: however many tokens follow, what it reads stays within
/// the rows of the first `t0 + t + 1`, and it reads a row of each of them.
pub proof fn lemma_causal(
    cfg: LayerConfig,
    t0: nat,
    seq: nat,
    rows: Seq<AttentionRow>,
    j: int,
    i: nat,
)
    requires
        heads_share_evenly(cfg),
        all_parts(rows) == queries(cfg, t0, seq),
        0 <= j < rows.len(),
    ensures
        ({
            let t = j as nat / cfg.n_heads as nat;
            let seen = rows[j].seen_at(cfg, i);
            &&& t < seq
            &&& i < rows[j].visible <==> i <= t0 + t
            &&& i * cfg.kv_size() <= seen
            &&& seen + cfg.head_dim <= (i + 1) * cfg.kv_size()
            &&& i < rows[j].visible ==> seen + cfg.head_dim <= (t0 + t + 1) * cfg.kv_size()
        }),
{
    let h = cfg.n_heads as nat;
    let hd = cfg.head_dim as nat;
    assert(all_parts(rows)[j] == rows[j].parts());
    assert(all_parts(rows).len() == seq * h);
    assert(h > 0) by (nonlinear_arith)
        requires
            0 <= j < seq * h,
    ;
    lemma_query_fits(cfg, seq, j as nat, 1);
    let t = j as nat / h;
    let head = j as nat % h;
    let kv = kv_head(cfg, head);
    lemma_heads_grouped(cfg, head, kv);
    let k = cfg.n_kv_heads as nat;
    assert(kv * hd + hd <= k * hd) by (nonlinear_arith)
        requires
            kv + 1 <= k,
    ;
    assert((i + 1) * (k * hd) == i * (k * hd) + k * hd) by (nonlinear_arith);
    if i <= t0 + t {
        assert((i + 1) * (k * hd) <= (t0 + t + 1) * (k * hd)) by (nonlinear_arith)
            requires
                i <= t0 + t,
        ;
    }
}

/// Each element of the output belongs to exactly one query.
pub proof fn lemma_output_partitioned(
    cfg: LayerConfig,
    t0: nat,
    seq: nat,
    rows: Seq<AttentionRow>,
    p: int,
)
    requires
        all_parts(rows) == queries(cfg, t0, seq),
        0 <= p < seq * cfg.q_size(),
    ensures
        ({
            let j = p / cfg.head_dim as int;
            &&& 0 <= j < rows.len()
            &&& forall|k: int|
                0 <= k < rows.len() ==> (#[trigger] rows[k].at <= p < rows[k].at
                    + cfg.head_dim <==> k == j)
        }),
{
    let h = cfg.n_heads as nat;
    let hd = cfg.head_dim as nat;
    assert(all_parts(rows).len() == seq * h);
    assert(h > 0 && hd > 0) by (nonlinear_arith)
        requires
            0 <= p < seq * (h * hd),
    ;
    let j = p / hd as int;
    lemma_fundamental_div_mod(p, hd as int);
    assert(seq * (h * hd) == hd * (seq * h)) by (nonlinear_arith);
    lemma_multiply_divide_lt(p, hd as int, (seq * h) as int);
    assert(j >= 0) by (nonlinear_arith)
        requires
            p == hd * j + p % (hd as int),
            0 <= p,
            p % (hd as int) < hd,
            hd > 0,
    ;
    assert forall|k: int| 0 <= k < rows.len() implies (#[trigger] rows[k].at <= p < rows[k].at
        + cfg.head_dim <==> k == j) by {
        assert(all_parts(rows)[k] == rows[k].parts());
        lemma_query_fits(cfg, seq, k as nat, 1);
        let r = p % (hd as int);
        assert(k * hd <= p < k * hd + hd <==> k == j) by (nonlinear_arith)
            requires
                p == hd * j + r,
                0 <= r < hd,
        ;
    }
}

/// A token that is decoded alone, with the rows of those before it in a cache,
/// sees what it sees when all tokens are taken at once: the queries of token
/// `n` are the same, but for where they stand.
pub proof fn lemma_decoded_sees_the_same(cfg: LayerConfig, n: nat, seq: nat, head: int)
    requires
        n < seq,
        0 <= head < cfg.n_heads,
    ensures
        ({
            let one = queries(cfg, n, 1);
            let all = queries(cfg, 0, seq);
            let j = n * cfg.n_heads + head;
            &&& head < one.len()
            &&& 0 <= j < all.len()
            &&& all[j].0 == n * cfg.q_size() + one[head].0
            &&& all[j].1 == one[head].1
            &&& all[j].2 == one[head].2
        }),
{
    let h = cfg.n_heads as int;
    let j = n * h + head;
    lemma_fundamental_div_mod_converse(j, h, n as int, head);
    lemma_fundamental_div_mod_converse(head, h, 0, head);
    assert(j < seq * h) by (nonlinear_arith)
        requires
            j == n * h + head,
            head < h,
            n + 1 <= seq,
            h > 0,
    ;
    assert(0 <= j) by (nonlinear_arith)
        requires
            j == n * h + head,
            0 <= head,
            h > 0,
    ;
    assert(0 * cfg.q_size() == 0);
}

/// Each element is rotated once: it is the first or the second of exactly one
/// pair, and not both.
pub proof fn lemma_rotated_once(
    seq: nat,
    n_heads: nat,
    head_dim: nat,
    pairs: Seq<RopePair>,
    p: int,
) -> (j: int)
    requires
        head_dim % 2 == 0,
        pair_parts(pairs) == all_rotated(seq, n_heads, head_dim),
        0 <= p < seq * n_heads * head_dim,
    ensures
        0 <= j < pairs.len(),
        (pairs[j].first == p) != (pairs[j].second == p),
        forall|k: int|
            0 <= k < pairs.len() && k != j ==> (#[trigger] pairs[k]).first != p && pairs[k].second
                != p,
{
    let half = head_dim / 2;
    let rows = seq * n_heads;
    assert(pair_parts(pairs).len() == rows * half);
    assert(head_dim > 0) by (nonlinear_arith)
        requires
            0 <= p < rows * head_dim,
    ;
    let row = p / head_dim as int;
    let r = p % (head_dim as int);
    lemma_fundamental_div_mod(p, head_dim as int);
    lemma_mul_is_commutative(rows as int, head_dim as int);
    lemma_multiply_divide_lt(p, head_dim as int, rows as int);
    assert(row >= 0) by (nonlinear_arith)
        requires
            p == head_dim * row + r,
            0 <= p,
            r < head_dim,
            head_dim > 0,
    ;
    let i = if r < half {
        r
    } else {
        r - half
    };
    let j = row * half + i;
    assert(j < rows * half && 0 <= j) by (nonlinear_arith)
        requires
            j == row * half + i,
            0 <= i < half,
            row + 1 <= rows,
            row >= 0,
    ;
    lemma_fundamental_div_mod_converse(j, half as int, row, i);
    assert forall|k: int| 0 <= k < pairs.len() implies ((#[trigger] pairs[k]).first == p
        || pairs[k].second == p) == (k == j) && pairs[k].second == pairs[k].first + half by {
        assert(pair_parts(pairs)[k] == pairs[k].parts());
        lemma_pair_fits(seq, n_heads, head_dim, k as nat);
        let row2 = k / half as int;
        let i2 = k % (half as int);
        lemma_fundamental_div_mod(k, half as int);
        assert(pairs[k].first == row2 * head_dim + i2);
        lemma_mul_is_commutative(head_dim as int, row2);
        lemma_mul_is_commutative(head_dim as int, row);
        lemma_mul_is_commutative(half as int, row2);
        if pairs[k].first == p {
            lemma_fundamental_div_mod_converse(p, head_dim as int, row2, i2);
        }
        if pairs[k].second == p {
            lemma_fundamental_div_mod_converse(p, head_dim as int, row2, i2 + half);
        }
    }
    j
}

} // verus!
