//! Which numbers belong together: the places of queries, keys and pairs, the rows
//! of a chunk, and the numbers of a matrix, written out.

use crate::runtime::attention::{
    all_parts, all_rotated, heads_share, pair_parts, queries, query, rotated, AttentionRow, RopePair,
};
use crate::runtime::dispatch::{chunk_rows_of, row_split, RowSplit};
use crate::runtime::model::{transposed, LayerConfig, LayerWeights, Model, WeightView};
use crate::runtime::number_laws::lemma_transposed_numbers;
use crate::runtime::quant::dequantized;
use crate::runtime::tensor::shape_product;
use vstd::prelude::*;

verus! {

/// Query `j` is that of head `j % n_heads` of token `j / n_heads`. It stands at its
/// place in the row of its token, sees every token up to its own, and reads the
/// key/value head that its group of heads shares.
pub proof fn lemma_rows_written_out(
    cfg: LayerConfig,
    t0: nat,
    seq: nat,
    rows: Seq<AttentionRow>,
    j: int,
)
    requires
        heads_share(cfg),
        all_parts(rows) == queries(cfg, t0, seq),
        0 <= j < seq * cfg.n_heads,
    ensures
        rows.len() == seq * cfg.n_heads,
        ({
            let (n, hd) = (cfg.n_heads as int, cfg.head_dim as int);
            let heads_per_kv = cfg.n_heads as int / cfg.n_kv_heads as int;
            &&& rows[j].at == (j / n) * (n * hd) + (j % n) * hd
            &&& rows[j].visible == t0 + j / n + 1
            &&& rows[j].kv_head_at == (j % n) / heads_per_kv * hd
        }),
{
    let (n, hd) = (cfg.n_heads as int, cfg.head_dim as int);
    assert(n > 0) by (nonlinear_arith)
        requires
            0 <= j < seq * n,
            n >= 0,
    ;
    assert(n * hd >= 0) by (nonlinear_arith)
        requires
            n >= 0,
            hd >= 0,
    ;
    assert(cfg.q_size() == n * hd);
    assert(j / n >= 0) by (nonlinear_arith)
        requires
            j >= 0,
            n > 0,
    ;
    assert(j as nat / cfg.n_heads as nat == j / n);
    assert(j as nat % cfg.n_heads as nat == j % n);
    assert(all_parts(rows).len() == rows.len());
    assert(all_parts(rows)[j] == rows[j].parts());
    assert(queries(cfg, t0, seq)[j] == query(
        cfg,
        t0,
        j as nat / cfg.n_heads as nat,
        j as nat % cfg.n_heads as nat,
    ));
}

/// Pair `j` is pair `j % half` of a head of a token, where `half` is half the size
/// of a head. Its two numbers are half a head apart, and it is turned by the angle of
/// its token and its place in the head.
pub proof fn lemma_pairs_written_out(
    seq: nat,
    n_heads: nat,
    head_dim: nat,
    pairs: Seq<RopePair>,
    j: int,
)
    requires
        pair_parts(pairs) == all_rotated(seq, n_heads, head_dim),
        0 <= j < seq * n_heads * (head_dim / 2),
    ensures
        pairs.len() == seq * n_heads * (head_dim / 2),
        ({
            let half = head_dim as int / 2;
            let (t, head, i) = (j / half / (n_heads as int), j / half % (n_heads as int), j % half);
            &&& pairs[j].first == t * (n_heads * head_dim) + head * head_dim + i
            &&& pairs[j].second == pairs[j].first + half
            &&& pairs[j].turn == t * half + i
        }),
{
    let half = head_dim / 2;
    let (h, n) = (half as int, n_heads as int);
    assert(h > 0 && n > 0) by (nonlinear_arith)
        requires
            0 <= j < seq * n * h,
            n >= 0,
            h >= 0,
    ;
    assert(j / h >= 0) by (nonlinear_arith)
        requires
            j >= 0,
            h > 0,
    ;
    assert(j / h / n >= 0) by (nonlinear_arith)
        requires
            j / h >= 0,
            n > 0,
    ;
    assert(j as nat / half == j / h);
    assert(j as nat / half / n_heads == j / h / n);
    assert(j as nat / half % n_heads == j / h % n);
    assert(pair_parts(pairs).len() == pairs.len());
    assert(pair_parts(pairs)[j] == pairs[j].parts());
    assert(all_rotated(seq, n_heads, head_dim)[j] == rotated(
        n_heads,
        head_dim,
        j as nat / half / n_heads,
        j as nat / half % n_heads,
        j as nat % half,
    ));
}

/// Rows are split among threads where there are several and the matrix has at
/// least a hundred thousand blocks. The chunks are as small as can be for as many
/// chunks as threads.
pub proof fn lemma_split_when(d_in: nat, d_out: nat, n_threads: nat)
    requires
        d_out <= usize::MAX,
    ensures
        row_split(d_in, d_out, n_threads) is Parallel <==> n_threads > 1 && d_out * (d_in / 32)
            >= 100_000,
        row_split(d_in, d_out, n_threads) matches RowSplit::Parallel { chunk_rows, .. } ==> (
        chunk_rows - 1) * n_threads < d_out <= chunk_rows * n_threads,
{
    if n_threads > 1 && d_out * (d_in / 32) >= 100_000 {
        assert(d_out > 0) by (nonlinear_arith)
            requires
                d_out * (d_in / 32) >= 100_000,
        ;
        let c = ((d_out + n_threads - 1) as nat / n_threads) as int;
        let s = (d_out + n_threads - 1) as int;
        vstd::arithmetic::div_mod::lemma_fundamental_div_mod(s, n_threads as int);
        assert(0 <= s % (n_threads as int) < n_threads);
        assert((c - 1) * n_threads < d_out <= c * n_threads) by (nonlinear_arith)
            requires
                s == n_threads * c + s % (n_threads as int),
                0 <= s % (n_threads as int) < n_threads,
                s == d_out + n_threads - 1,
        ;
        assert(0 < c <= d_out) by (nonlinear_arith)
            requires
                (c - 1) * n_threads < d_out,
                d_out <= c * n_threads,
                n_threads > 1,
                d_out > 0,
        ;
    }
}

/// Chunk `i` starts after `i` whole chunks and has the rows that are left, a whole
/// chunk at most.
pub proof fn lemma_chunk_rows(d_out: nat, chunk_rows: nat, i: nat)
    requires
        i * chunk_rows <= d_out,
    ensures
        chunk_rows_of(d_out, chunk_rows, i).0 == i * chunk_rows,
        (i + 1) * chunk_rows <= d_out ==> chunk_rows_of(d_out, chunk_rows, i).1 == chunk_rows,
        (i + 1) * chunk_rows > d_out ==> chunk_rows_of(d_out, chunk_rows, i).1 == d_out - i
            * chunk_rows,
{
    assert((i + 1) * chunk_rows == i * chunk_rows + chunk_rows) by (nonlinear_arith);
}

/// The numbers of a weight: its own where it holds numbers, and those of its blocks,
/// each a byte times the scale of its block, where it holds blocks.
pub proof fn lemma_weight_numbers(w: WeightView, i: int)
    requires
        0 <= i < w.count(),
    ensures
        w.numbers().len() == w.count(),
        w matches WeightView::F32(v) ==> w.count() == v.len() && w.numbers()[i] == v[i],
        w matches WeightView::Q8(b) ==> w.count() == 32 * b.len() && w.numbers()[i] == dequantized(
            b[i / 32].qs@[i % 32] as int,
            b[i / 32].d,
        ),
{
}

/// A weight as the kernels read it: blocks as they are, and numbers column by
/// column, where the weight has `d_out` rows and `d_in` columns.
pub open spec fn turned_over(w: WeightView, t: WeightView, d_out: int, d_in: int) -> bool {
    match (w, t) {
        (WeightView::F32(a), WeightView::F32(b)) => {
            &&& b.len() == a.len()
            &&& forall|r: int, c: int|
                0 <= r < d_out && 0 <= c < d_in ==> #[trigger] b[c * d_out + r] == a[r * d_in + c]
        },
        (WeightView::Q8(a), WeightView::Q8(b)) => a == b,
        _ => false,
    }
}

proof fn lemma_for_kernel(w: WeightView, d_out: nat, d_in: nat)
    requires
        w is F32 ==> w.count() == d_out * d_in,
    ensures
        turned_over(w, w.for_kernel(d_out, d_in), d_out as int, d_in as int),
{
    if let WeightView::F32(a) = w {
        let b = transposed(a, d_out, d_in);
        assert forall|r: int, c: int|
            0 <= r < d_out && 0 <= c < d_in implies #[trigger] b[c * d_out + r] == a[r * d_in + c] by {
            lemma_transposed_numbers(a, d_out, d_in, r, c);
        }
    }
}

/// What preparing a layer for the kernels does to each of its weights: the rows of
/// the projections are as many as their results have numbers, and the norms and the
/// biases stay.
pub proof fn lemma_layer_turned_over(now: LayerWeights, before: LayerWeights, cfg: LayerConfig)
    requires
        before.sized(cfg),
        now.transposed_from(before, cfg),
    ensures
        ({
            let (h, ff, hd) = (cfg.hidden as int, cfg.ffn_hidden as int, cfg.head_dim as int);
            let (q, kv) = (cfg.n_heads * hd, cfg.n_kv_heads * hd);
            &&& turned_over(before.wq@, now.wq@, q, h)
            &&& turned_over(before.wk@, now.wk@, kv, h)
            &&& turned_over(before.wv@, now.wv@, kv, h)
            &&& turned_over(before.wo@, now.wo@, h, q)
            &&& turned_over(before.w_gate@, now.w_gate@, ff, h)
            &&& turned_over(before.w_up@, now.w_up@, ff, h)
            &&& turned_over(before.w_down@, now.w_down@, h, ff)
        }),
        now.attn_norm_w == before.attn_norm_w,
        now.ffn_norm_w == before.ffn_norm_w,
        now.b_q == before.b_q,
        now.b_k == before.b_k,
        now.b_v == before.b_v,
{
    let (h, ff) = (cfg.hidden as nat, cfg.ffn_hidden as nat);
    lemma_for_kernel(before.wq@, cfg.q_size(), h);
    lemma_for_kernel(before.wk@, cfg.kv_size(), h);
    lemma_for_kernel(before.wv@, cfg.kv_size(), h);
    lemma_for_kernel(before.wo@, h, cfg.q_size());
    lemma_for_kernel(before.w_gate@, ff, h);
    lemma_for_kernel(before.w_up@, ff, h);
    lemma_for_kernel(before.w_down@, h, ff);
}

/// What preparing a model for the kernels leaves: every layer is prepared, the head
/// is turned over, and the rest stays.
pub proof fn lemma_model_turned_over(now: Model, before: Model, i: int)
    requires
        before.sized(),
        now.transposed_from(before),
    ensures
        now.config == before.config,
        now.token_embeddings == before.token_embeddings,
        now.final_norm_w == before.final_norm_w,
        now.layers@.len() == before.layers@.len(),
        0 <= i < before.layers@.len() ==> now.layers@[i].transposed_from(
            before.layers@[i],
            before.config.layer,
        ),
        turned_over(
            before.lm_head_w@,
            now.lm_head_w@,
            before.config.vocab_size as int,
            before.config.layer.hidden as int,
        ),
{
    lemma_for_kernel(
        before.lm_head_w@,
        before.config.vocab_size as nat,
        before.config.layer.hidden as nat,
    );
}

/// A tensor has one number for each choice of a place along every dimension: the
/// product of its dimensions, as long as that fits.
pub proof fn lemma_elements(shape: Seq<u32>, d: u32)
    ensures
        shape_product(Seq::empty()) == Some(1nat),
        shape_product(shape) matches Some(n) ==> (n * d <= u64::MAX ==> shape_product(shape.push(d))
            == Some((n * d) as nat)),
        shape_product(shape) matches Some(n) ==> (n * d > u64::MAX ==> shape_product(
            shape.push(d),
        ) is None),
        shape_product(shape) is None ==> shape_product(shape.push(d)) is None,
{
    assert(shape.push(d).drop_last() =~= shape);
}

} // verus!
