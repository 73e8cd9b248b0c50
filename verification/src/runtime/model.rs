//! Transformer hyperparameters and weights.
//!
//! Floating-point numbers are fp32 bit patterns: the library lays weights out,
//! transposes and dequantizes them, and leaves the arithmetic of a forward pass
//! to the caller.

use crate::runtime::quant::{dequantize_q8_0, dequantized, BlockQ8_0, QK};
use vstd::prelude::*;

verus! {

/// Architecture hyperparameters for one Llama-family transformer.
#[derive(Clone, Copy, Debug)]
pub struct LayerConfig {
    /// Model dimension.
    pub hidden: usize,
    /// Query heads.
    pub n_heads: usize,
    /// Key/value heads (GQA: `n_kv_heads <= n_heads`).
    pub n_kv_heads: usize,
    pub head_dim: usize,
    pub ffn_hidden: usize,
    /// fp32 bits.
    pub rms_norm_eps: u32,
    /// fp32 bits.
    pub rope_base: u32,
}

impl LayerConfig {
    /// Elements of all query heads of a token.
    pub open spec fn q_size(self) -> nat {
        (self.n_heads * self.head_dim) as nat
    }

    /// Elements of all key heads of a token.
    pub open spec fn kv_size(self) -> nat {
        (self.n_kv_heads * self.head_dim) as nat
    }

    /// Elements of all query heads of a token.
    pub fn q_dim(&self) -> (n: usize)
        requires
            self.q_size() <= usize::MAX,
        ensures
            n == self.q_size(),
    {
        self.n_heads * self.head_dim
    }

    /// Elements of all key heads of a token.
    pub fn kv_dim(&self) -> (n: usize)
        requires
            self.kv_size() <= usize::MAX,
        ensures
            n == self.kv_size(),
    {
        self.n_kv_heads * self.head_dim
    }

    /// Number of query heads that share each key/value head.
    pub fn heads_per_kv(&self) -> (n: usize)
        requires
            self.n_kv_heads > 0,
        ensures
            n == self.n_heads / self.n_kv_heads,
    {
        self.n_heads / self.n_kv_heads
    }
}

/// The elements of a `[rows, cols]` row-major matrix, read as `[cols, rows]`.
pub open spec fn transposed<T>(s: Seq<T>, rows: nat, cols: nat) -> Seq<T> {
    Seq::new(rows * cols, |i: int| s[(i % rows as int) * cols + i / rows as int])
}

/// Transpose a `[d_out, d_in]` row-major matrix into `[d_in, d_out]`
/// row-major, returning a fresh allocation. Used to convert ggml-convention
/// weights into a layout the matmul kernels can consume directly.
pub fn transpose_2d<T: Copy>(src: &[T], d_out: usize, d_in: usize) -> (out: Vec<T>)
    requires
        src@.len() == d_out * d_in,
    ensures
        out@ == transposed(src@, d_out as nat, d_in as nat),
{
    let total: usize = src.len();
    let ghost rows = d_out as nat;
    let ghost cols = d_in as nat;
    let mut out: Vec<T> = Vec::new();
    let mut k: usize = 0;
    proof {
        assert(0 * rows == 0) by (nonlinear_arith);
    }
    while k < d_in
        invariant
            k <= d_in,
            rows == d_out,
            cols == d_in,
            total == src@.len(),
            src@.len() == d_out * d_in,
            out@.len() == k * rows,
            forall|i: int|
                0 <= i < out@.len() ==> #[trigger] out@[i] == src@[(i % rows as int) * cols + i
                    / rows as int],
        decreases d_in - k,
    {
        let mut o: usize = 0;
        while o < d_out
            invariant
                k < d_in,
                o <= d_out,
                rows == d_out,
                cols == d_in,
                total == src@.len(),
                src@.len() == d_out * d_in,
                out@.len() == k * rows + o,
                forall|i: int|
                    0 <= i < out@.len() ==> #[trigger] out@[i] == src@[(i % rows as int) * cols + i
                        / rows as int],
            decreases d_out - o,
        {
            proof {
                lemma_cell(o as int, k as int, rows as int, cols as int);
                lemma_position(o as int, k as int, rows as int);
            }
            out.push(src[o * d_in + k]);
            o = o + 1;
        }
        k = k + 1;
        proof {
            let kk = (k - 1) as nat;
            assert((kk + 1) * rows == kk * rows + rows) by (nonlinear_arith);
        }
    }
    proof {
        assert(cols * rows == rows * cols) by (nonlinear_arith);
        assert(out@ =~= transposed(src@, rows, cols));
    }
    out
}

/// Row `o`, column `k` of a `[rows, cols]` matrix is in the matrix.
proof fn lemma_cell(o: int, k: int, rows: int, cols: int)
    requires
        0 <= o < rows,
        0 <= k < cols,
    ensures
        0 <= o * cols <= o * cols + k < rows * cols,
{
    assert(o * cols + k < rows * cols && o * cols >= 0) by (nonlinear_arith)
        requires
            0 <= o,
            o + 1 <= rows,
            0 <= k < cols,
    ;
}

/// The row and the column of a position.
proof fn lemma_position(o: int, k: int, rows: int)
    requires
        0 <= o < rows,
        0 <= k,
    ensures
        (k * rows + o) % rows == o,
        (k * rows + o) / rows == k,
{
    vstd::arithmetic::div_mod::lemma_fundamental_div_mod_converse(k * rows + o, rows, k, o);
}

/// Transposing twice gives the matrix back.
pub proof fn lemma_transpose_involution<T>(s: Seq<T>, rows: nat, cols: nat)
    requires
        s.len() == rows * cols,
    ensures
        transposed(transposed(s, rows, cols), cols, rows) == s,
{
    let t = transposed(s, rows, cols);
    assert(cols * rows == rows * cols) by (nonlinear_arith);
    assert forall|i: int| 0 <= i < s.len() implies #[trigger] transposed(t, cols, rows)[i]
        == s[i] by {
        let r = rows as int;
        let c = cols as int;
        assert(c > 0) by (nonlinear_arith)
            requires
                0 <= i < r * c,
                r >= 0,
                c >= 0,
        ;
        let o = i / c;
        let k = i % c;
        vstd::arithmetic::div_mod::lemma_fundamental_div_mod(i, c);
        assert(i == o * c + k && 0 <= k < c && 0 <= o) by (nonlinear_arith)
            requires
                i == c * (i / c) + i % c,
                o == i / c,
                k == i % c,
                c > 0,
                i >= 0,
        ;
        assert(o < r) by (nonlinear_arith)
            requires
                o * c + k < r * c,
                k >= 0,
                c > 0,
        ;
        // transposed(t, cols, rows)[i] == t[k * rows + o] == s[o * cols + k]
        assert(transposed(t, cols, rows)[i] == t[k * r + o]);
        lemma_cell(k, o, c, r);
        lemma_position(o, k, r);
        assert(t[k * r + o] == s[o * c + k]);
    }
    assert(transposed(t, cols, rows) =~= s);
}

/// Storage for one large projection weight.
///
/// A forward pass without native kernels sees `[d_out, d_in]` row-major. The
/// F32 kernels need `[d_in, d_out]`, so [`LayerWeights::transpose_in_place`]
/// flips the F32 variant. The Q8 variant is consumed in its native layout and
/// never needs transposing.
#[derive(Debug)]
pub enum WeightStorage {
    /// F32 weights (bit patterns). Layout is `[d_out, d_in]` until
    /// `transpose_in_place` runs, then `[d_in, d_out]`.
    F32(Vec<u32>),
    /// Q8_0 weights packed as native ggml `[d_out, d_in]` blocks (one block
    /// covers 32 contiguous d_in elements within a row).
    Q8(Vec<BlockQ8_0>),
}

/// What a [`WeightStorage`] holds.
pub enum WeightView {
    F32(Seq<u32>),
    Q8(Seq<BlockQ8_0>),
}

impl View for WeightStorage {
    type V = WeightView;

    open spec fn view(&self) -> WeightView {
        match self {
            WeightStorage::F32(v) => WeightView::F32(v@),
            WeightStorage::Q8(b) => WeightView::Q8(b@),
        }
    }
}

impl WeightView {
    /// How many numbers the weight stands for.
    pub open spec fn count(self) -> nat {
        match self {
            WeightView::F32(v) => v.len(),
            WeightView::Q8(b) => b.len() * 32,
        }
    }

    /// The numbers that the weight stands for, as fp32 patterns.
    pub open spec fn numbers(self) -> Seq<nat> {
        match self {
            WeightView::F32(v) => Seq::new(v.len(), |i: int| v[i] as nat),
            WeightView::Q8(b) => Seq::new(
                b.len() * 32,
                |i: int| dequantized(b[i / 32].qs@[i % 32] as int, b[i / 32].d),
            ),
        }
    }

    /// The weight in the layout of the F32 kernels.
    pub open spec fn for_kernel(self, d_out: nat, d_in: nat) -> WeightView {
        match self {
            WeightView::F32(v) => WeightView::F32(transposed(v, d_out, d_in)),
            WeightView::Q8(b) => WeightView::Q8(b),
        }
    }
}

/// The numbers of a weight: borrowed where they are stored as such.
pub enum Native<'a> {
    Borrowed(&'a Vec<u32>),
    Owned(Vec<u32>),
}

impl<'a> Native<'a> {
    /// The numbers.
    pub open spec fn bits(&self) -> Seq<u32> {
        match self {
            Native::Borrowed(v) => v@,
            Native::Owned(v) => v@,
        }
    }

    /// The numbers.
    pub fn as_slice(&self) -> (s: &[u32])
        ensures
            s@ == self.bits(),
    {
        match self {
            Native::Borrowed(v) => v.as_slice(),
            Native::Owned(v) => v.as_slice(),
        }
    }
}

impl WeightStorage {
    /// How many numbers this weight stands for.
    pub fn nelem(&self) -> (n: usize)
        requires
            self@.count() <= usize::MAX,
        ensures
            n == self@.count(),
    {
        match self {
            WeightStorage::F32(v) => v.len(),
            WeightStorage::Q8(blocks) => blocks.len() * QK,
        }
    }

    /// The weight as F32 in `[d_out, d_in]` layout. Borrows the F32 case;
    /// allocates and dequantizes for Q8.
    pub fn as_f32_native(&self, d_out: usize, d_in: usize) -> (r: Native<'_>)
        requires
            self@.count() == d_out * d_in,
            d_out * d_in <= usize::MAX,
        ensures
            r.bits().len() == d_out * d_in,
            forall|i: int|
                0 <= i < r.bits().len() ==> #[trigger] r.bits()[i] as nat == self@.numbers()[i],
            r is Borrowed == self is F32,
    {
        match self {
            WeightStorage::F32(v) => Native::Borrowed(v),
            WeightStorage::Q8(blocks) => {
                let n: usize = d_out * d_in;
                let mut out: Vec<u32> = Vec::new();
                let mut i: usize = 0;
                while i < n
                    invariant
                        i <= n,
                        out@.len() == i,
                    decreases n - i,
                {
                    out.push(0);
                    i = i + 1;
                }
                dequantize_q8_0(blocks.as_slice(), out.as_mut_slice());
                assert forall|i: int| 0 <= i < out@.len() implies #[trigger] out@[i] as nat
                    == self@.numbers()[i] by {
                    let b = i / 32;
                    let j = i % 32;
                    assert(i == 32 * b + j);
                    assert(out@[32 * b + j] as nat == dequantized(
                        blocks@[b].qs@[j] as int,
                        blocks@[b].d,
                    ));
                }
                Native::Owned(out)
            },
        }
    }
}

/// Transpose the F32 case in place. Q8 stays as it is: its native layout
/// already matches what the fused kernel wants.
fn transpose_storage_in_place(w: &mut WeightStorage, d_out: usize, d_in: usize)
    requires
        old(w)@ is F32 ==> old(w)@.count() == d_out * d_in,
    ensures
        final(w)@ == old(w)@.for_kernel(d_out as nat, d_in as nat),
{
    if let WeightStorage::F32(v) = w {
        let t = transpose_2d(v.as_slice(), d_out, d_in);
        *w = WeightStorage::F32(t);
    }
}

/// All the learned weights one transformer layer needs.
///
/// For a weight that turns an input of dimension `d_in` into an output of
/// dimension `d_out`, the natural ggml layout is `[d_out, d_in]`, row-major.
#[derive(Debug)]
pub struct LayerWeights {
    /// `[hidden]`
    pub attn_norm_w: Vec<u32>,
    /// `[q_dim, hidden]`
    pub wq: WeightStorage,
    /// `[kv_dim, hidden]`
    pub wk: WeightStorage,
    /// `[kv_dim, hidden]`
    pub wv: WeightStorage,
    /// `[hidden, q_dim]`
    pub wo: WeightStorage,
    /// `[hidden]`
    pub ffn_norm_w: Vec<u32>,
    /// `[ffn_hidden, hidden]`
    pub w_gate: WeightStorage,
    /// `[ffn_hidden, hidden]`
    pub w_up: WeightStorage,
    /// `[hidden, ffn_hidden]`
    pub w_down: WeightStorage,
    /// Qwen2-style attention biases (Llama2/Llama3 have none): `[q_dim]`
    pub b_q: Option<Vec<u32>>,
    /// `[kv_dim]`
    pub b_k: Option<Vec<u32>>,
    /// `[kv_dim]`
    pub b_v: Option<Vec<u32>>,
}

/// An F32 weight has as many numbers as its dimensions say.
pub open spec fn sized(w: WeightView, d_out: nat, d_in: nat) -> bool {
    w is F32 ==> w.count() == d_out * d_in
}

impl LayerWeights {
    /// Every F32 weight has the size that the configuration says, and the
    /// dimensions are machine numbers.
    pub open spec fn sized(&self, cfg: LayerConfig) -> bool {
        let h = cfg.hidden as nat;
        let ff = cfg.ffn_hidden as nat;
        &&& cfg.q_size() <= usize::MAX
        &&& cfg.kv_size() <= usize::MAX
        &&& sized(self.wq@, cfg.q_size(), h)
        &&& sized(self.wk@, cfg.kv_size(), h)
        &&& sized(self.wv@, cfg.kv_size(), h)
        &&& sized(self.wo@, h, cfg.q_size())
        &&& sized(self.w_gate@, ff, h)
        &&& sized(self.w_up@, ff, h)
        &&& sized(self.w_down@, h, ff)
    }

    /// `self` is `before` with every F32 weight in the layout of the kernels.
    pub open spec fn transposed_from(&self, before: LayerWeights, cfg: LayerConfig) -> bool {
        let h = cfg.hidden as nat;
        let ff = cfg.ffn_hidden as nat;
        &&& self.wq@ == before.wq@.for_kernel(cfg.q_size(), h)
        &&& self.wk@ == before.wk@.for_kernel(cfg.kv_size(), h)
        &&& self.wv@ == before.wv@.for_kernel(cfg.kv_size(), h)
        &&& self.wo@ == before.wo@.for_kernel(h, cfg.q_size())
        &&& self.w_gate@ == before.w_gate@.for_kernel(ff, h)
        &&& self.w_up@ == before.w_up@.for_kernel(ff, h)
        &&& self.w_down@ == before.w_down@.for_kernel(h, ff)
        &&& self.attn_norm_w == before.attn_norm_w
        &&& self.ffn_norm_w == before.ffn_norm_w
        &&& self.b_q == before.b_q
        &&& self.b_k == before.b_k
        &&& self.b_v == before.b_v
    }

    /// Transpose every F32 weight matrix from `[d_out, d_in]` (ggml
    /// convention) into `[d_in, d_out]` (the layout the matmul kernels expect
    /// for their `B` operand). Q8 weights are left untouched.
    pub fn transpose_in_place(&mut self, cfg: &LayerConfig)
        requires
            old(self).sized(*cfg),
        ensures
            final(self).transposed_from(*old(self), *cfg),
    {
        let h: usize = cfg.hidden;
        let qd: usize = cfg.q_dim();
        let kvd: usize = cfg.kv_dim();
        let ff: usize = cfg.ffn_hidden;
        transpose_storage_in_place(&mut self.wq, qd, h);
        transpose_storage_in_place(&mut self.wk, kvd, h);
        transpose_storage_in_place(&mut self.wv, kvd, h);
        transpose_storage_in_place(&mut self.wo, h, qd);
        transpose_storage_in_place(&mut self.w_gate, ff, h);
        transpose_storage_in_place(&mut self.w_up, ff, h);
        transpose_storage_in_place(&mut self.w_down, h, ff);
    }
}

/// Top-level model hyperparameters: a `LayerConfig` plus vocab and depth.
#[derive(Clone, Copy, Debug)]
pub struct ModelConfig {
    pub layer: LayerConfig,
    pub vocab_size: usize,
    pub n_layers: usize,
    pub max_seq: usize,
    pub eos_token_id: Option<u32>,
}

impl ModelConfig {
    /// Model dimension.
    pub fn hidden(&self) -> (n: usize)
        ensures
            n == self.layer.hidden,
    {
        self.layer.hidden
    }
}

/// A full transformer ready to generate.
///
/// Weight layout, all row-major:
/// - `token_embeddings`: `[vocab_size, hidden]`
/// - `lm_head_w`: `[vocab_size, hidden]`
/// - `final_norm_w`: `[hidden]`
/// - `layers[i]`: standard `LayerWeights`
#[derive(Debug)]
pub struct Model {
    pub config: ModelConfig,
    pub token_embeddings: Vec<u32>,
    pub layers: Vec<LayerWeights>,
    pub final_norm_w: Vec<u32>,
    pub lm_head_w: WeightStorage,
}

impl Model {
    /// Every F32 weight has the size that the configuration says.
    pub open spec fn sized(&self) -> bool {
        &&& forall|i: int|
            0 <= i < self.layers@.len() ==> (#[trigger] self.layers@[i]).sized(self.config.layer)
        &&& sized(
            self.lm_head_w@,
            self.config.vocab_size as nat,
            self.config.layer.hidden as nat,
        )
    }

    /// One token's embedding row.
    pub fn embed_token(&self, token: u32) -> (row: Vec<u32>)
        requires
            (token + 1) * self.config.layer.hidden <= self.token_embeddings@.len(),
        ensures
            row@ == self.token_embeddings@.subrange(
                token * self.config.layer.hidden,
                (token + 1) * self.config.layer.hidden,
            ),
    {
        let h: usize = self.config.hidden();
        let total: usize = self.token_embeddings.len();
        proof {
            let t = token as int;
            let hh = h as int;
            assert((t + 1) * hh == t * hh + hh && t * hh >= 0) by (nonlinear_arith)
                requires
                    t >= 0,
                    hh >= 0,
            ;
            assert(hh > 0 ==> t <= t * hh) by (nonlinear_arith)
                requires
                    t >= 0,
            ;
        }
        let mut row: Vec<u32> = Vec::new();
        let mut i: usize = 0;
        while i < h
            invariant
                i <= h,
                h == self.config.layer.hidden,
                total == self.token_embeddings@.len(),
                (token + 1) * h <= total,
                (token + 1) * h == token * h + h,
                token * h >= 0,
                h > 0 ==> token <= token * h,
                row@ == self.token_embeddings@.subrange(token * h, token * h + i),
            decreases h - i,
        {
            let at: usize = token as usize * h + i;
            row.push(self.token_embeddings[at]);
            i = i + 1;
            assert(self.token_embeddings@.subrange(token * h, token * h + i)
                =~= self.token_embeddings@.subrange(token * h, token * h + i - 1).push(
                self.token_embeddings@[token * h + i - 1],
            ));
        }
        row
    }

    /// This is `before` with every F32 weight matrix transposed.
    pub open spec fn transposed_from(&self, before: Model) -> bool {
        let c = before.config;
        &&& self.config == c
        &&& self.token_embeddings == before.token_embeddings
        &&& self.final_norm_w == before.final_norm_w
        &&& self.layers@.len() == before.layers@.len()
        &&& forall|i: int|
            0 <= i < before.layers@.len() ==> (#[trigger] self.layers@[i]).transposed_from(
                before.layers@[i],
                c.layer,
            )
        &&& self.lm_head_w@ == before.lm_head_w@.for_kernel(
            c.vocab_size as nat,
            c.layer.hidden as nat,
        )
    }

    /// Transpose every F32 weight matrix in the model so that the matmul
    /// kernels can consume them. Q8 weights are left native.
    pub fn transpose_for_jit(&mut self)
        requires
            old(self).sized(),
        ensures
            final(self).transposed_from(*old(self)),
    {
        let cfg: LayerConfig = self.config.layer;
        let mut i: usize = 0;
        while i < self.layers.len()
            invariant
                i <= self.layers@.len(),
                self.layers@.len() == old(self).layers@.len(),
                cfg == old(self).config.layer,
                self.config == old(self).config,
                self.token_embeddings == old(self).token_embeddings,
                self.final_norm_w == old(self).final_norm_w,
                self.lm_head_w == old(self).lm_head_w,
                old(self).sized(),
                forall|j: int|
                    0 <= j < i ==> (#[trigger] self.layers@[j]).transposed_from(
                        old(self).layers@[j],
                        cfg,
                    ),
                forall|j: int| i <= j < self.layers@.len() ==> self.layers@[j]
                    == old(self).layers@[j],
            decreases self.layers@.len() - i,
        {
            self.layers[i].transpose_in_place(&cfg);
            i = i + 1;
        }
        let vocab: usize = self.config.vocab_size;
        let h: usize = self.config.hidden();
        transpose_storage_in_place(&mut self.lm_head_w, vocab, h);
    }
}

} // verus!
