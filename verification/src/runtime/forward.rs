//! The steps of a transformer layer's forward pass, in order.
//!
//! "Hybrid": the heavy products are meant to come from native kernels, while
//! the small per-element operations use plain code. This module decides which
//! steps a pass takes, which kernel each product goes to, and how large every
//! buffer is. The arithmetic itself is the caller's.

use crate::runtime::dispatch::use_vnni_for_matmul;
use crate::runtime::model::{LayerConfig, LayerWeights, WeightStorage};
use crate::runtime::timer::Bucket;
use vstd::prelude::*;

verus! {

/// One of the large weights.
#[derive(Copy, Clone, Debug, PartialEq, Eq, Structural)]
pub enum Weight {
    Q,
    K,
    V,
    O,
    Gate,
    Up,
    Down,
    LmHead,
}

/// How a product with a weight is computed.
#[derive(Copy, Clone, Debug, PartialEq, Eq, Structural)]
pub enum Path {
    /// Plain loops over the weight as F32, `[d_out, d_in]`.
    Naive,
    /// The F32 kernel, over a transposed weight.
    F32Kernel,
    /// The fused Q8 x F32 kernel, over blocks in their native layout.
    Q8Kernel,
    /// The activation is quantized and read back, then the F32 kernel runs.
    RoundedF32Kernel,
    /// The activation is quantized, then the fused Q8 x Q8 kernel runs.
    Q8Q8Kernel,
}

/// A product with a weight.
#[derive(Copy, Clone, Debug, PartialEq, Eq, Structural)]
pub struct Projection {
    pub weight: Weight,
    pub d_in: usize,
    pub d_out: usize,
    pub path: Path,
}

/// A step of a layer's forward pass.
#[derive(Copy, Clone, Debug, PartialEq, Eq, Structural)]
pub enum LayerStep {
    /// RMSNorm of the input.
    AttnNorm,
    Project(Projection),
    /// Adds the bias of Q, K or V to each row.
    AddBias(Weight),
    /// Rotates Q and K by their positions.
    Rope,
    /// Appends the K and V rows to the cache.
    Append,
    Attend,
    /// Adds the input to the attention output.
    AttnResidual,
    /// RMSNorm of the sum.
    FfnNorm,
    /// `SiLU(gate) * up`.
    SiluMul,
    /// Adds the sum to the output of the feed-forward part.
    FfnResidual,
}

/// Which forward pass is taken.
#[derive(Copy, Clone, Debug, PartialEq, Eq, Structural)]
pub enum Mode {
    /// All tokens at once, without a cache.
    Prefill,
    /// One token, with a cache.
    Decode,
    /// One token, with a cache and native kernels.
    DecodeJit { has_vnni: bool },
}

/// What a layer's steps hand on to each other.
#[derive(Copy, Clone, Debug, PartialEq, Eq, Structural)]
pub enum Buffer {
    /// The normalized input of the attention part, then of the feed-forward part.
    Norm,
    Q,
    K,
    V,
    /// What the heads give.
    Attn,
    /// What the attention part gives.
    AttnOut,
    /// The sum of input and output, of the attention part and then of the layer.
    Resid,
    Gate,
    Up,
    /// What the feed-forward part gives.
    FfnOut,
}

/// What a weight of a layer is multiplied with, and where the product goes.
pub open spec fn route_spec(w: Weight) -> Option<(Buffer, Buffer)> {
    match w {
        Weight::Q => Some((Buffer::Norm, Buffer::Q)),
        Weight::K => Some((Buffer::Norm, Buffer::K)),
        Weight::V => Some((Buffer::Norm, Buffer::V)),
        Weight::O => Some((Buffer::Attn, Buffer::AttnOut)),
        Weight::Gate => Some((Buffer::Norm, Buffer::Gate)),
        Weight::Up => Some((Buffer::Norm, Buffer::Up)),
        Weight::Down => Some((Buffer::Gate, Buffer::FfnOut)),
        Weight::LmHead => None,
    }
}

/// What a weight of a layer is multiplied with, and where the product goes;
/// nothing for the weight that belongs to no layer.
pub fn route(w: Weight) -> (r: Option<(Buffer, Buffer)>)
    ensures
        r == route_spec(w),
{
    match w {
        Weight::Q => Some((Buffer::Norm, Buffer::Q)),
        Weight::K => Some((Buffer::Norm, Buffer::K)),
        Weight::V => Some((Buffer::Norm, Buffer::V)),
        Weight::O => Some((Buffer::Attn, Buffer::AttnOut)),
        Weight::Gate => Some((Buffer::Norm, Buffer::Gate)),
        Weight::Up => Some((Buffer::Norm, Buffer::Up)),
        Weight::Down => Some((Buffer::Gate, Buffer::FfnOut)),
        Weight::LmHead => None,
    }
}

/// What the steps of a layer depend on besides its sizes: which weights are
/// quantized, and which biases there are.
#[derive(Copy, Clone, Debug, PartialEq, Eq, Structural)]
pub struct LayerKinds {
    pub wq: bool,
    pub wk: bool,
    pub wv: bool,
    pub wo: bool,
    pub w_gate: bool,
    pub w_up: bool,
    pub w_down: bool,
    pub b_q: bool,
    pub b_k: bool,
    pub b_v: bool,
}

/// The path of a product with an inner dimension `d_in`.
pub open spec fn path_of(mode: Mode, q8: bool, d_in: nat) -> Path {
    match mode {
        Mode::Prefill => Path::Naive,
        Mode::Decode => Path::Naive,
        Mode::DecodeJit { has_vnni } => if has_vnni && d_in / 32 <= 64 {
            if q8 {
                Path::Q8Q8Kernel
            } else {
                Path::RoundedF32Kernel
            }
        } else {
            if q8 {
                Path::Q8Kernel
            } else {
                Path::F32Kernel
            }
        },
    }
}

/// The path of a product with an inner dimension `d_in`.
pub fn choose_path(mode: Mode, q8: bool, d_in: usize) -> (p: Path)
    ensures
        p == path_of(mode, q8, d_in as nat),
{
    match mode {
        Mode::Prefill => Path::Naive,
        Mode::Decode => Path::Naive,
        Mode::DecodeJit { has_vnni } => if use_vnni_for_matmul(has_vnni, d_in) {
            if q8 {
                Path::Q8Q8Kernel
            } else {
                Path::RoundedF32Kernel
            }
        } else {
            if q8 {
                Path::Q8Kernel
            } else {
                Path::F32Kernel
            }
        },
    }
}

/// Inner and outer dimension of a weight of a layer.
pub open spec fn dims_of(cfg: LayerConfig, w: Weight) -> (nat, nat) {
    match w {
        Weight::Q => (cfg.hidden as nat, cfg.q_size()),
        Weight::K => (cfg.hidden as nat, cfg.kv_size()),
        Weight::V => (cfg.hidden as nat, cfg.kv_size()),
        Weight::O => (cfg.q_size(), cfg.hidden as nat),
        Weight::Gate => (cfg.hidden as nat, cfg.ffn_hidden as nat),
        Weight::Up => (cfg.hidden as nat, cfg.ffn_hidden as nat),
        Weight::Down => (cfg.ffn_hidden as nat, cfg.hidden as nat),
        Weight::LmHead => (cfg.hidden as nat, 0),
    }
}

/// Whether a weight of a layer is quantized.
pub open spec fn is_q8(kinds: LayerKinds, w: Weight) -> bool {
    match w {
        Weight::Q => kinds.wq,
        Weight::K => kinds.wk,
        Weight::V => kinds.wv,
        Weight::O => kinds.wo,
        Weight::Gate => kinds.w_gate,
        Weight::Up => kinds.w_up,
        Weight::Down => kinds.w_down,
        Weight::LmHead => false,
    }
}

/// The product with a weight of a layer.
pub open spec fn product_with(
    cfg: LayerConfig,
    kinds: LayerKinds,
    mode: Mode,
    w: Weight,
) -> LayerStep {
    let (d_in, d_out) = dims_of(cfg, w);
    LayerStep::Project(
        Projection {
            weight: w,
            d_in: d_in as usize,
            d_out: d_out as usize,
            path: path_of(mode, is_q8(kinds, w), d_in),
        },
    )
}

/// One step, or none.
pub open spec fn step_if(b: bool, s: LayerStep) -> Seq<LayerStep> {
    if b {
        seq![s]
    } else {
        Seq::empty()
    }
}

/// The products that give queries, keys and values.
pub open spec fn qkv_plan(cfg: LayerConfig, kinds: LayerKinds, mode: Mode) -> Seq<LayerStep> {
    seq![
        LayerStep::AttnNorm,
        product_with(cfg, kinds, mode, Weight::Q),
        product_with(cfg, kinds, mode, Weight::K),
        product_with(cfg, kinds, mode, Weight::V),
    ]
}

/// The biases that there are.
pub open spec fn bias_plan(kinds: LayerKinds) -> Seq<LayerStep> {
    step_if(kinds.b_q, LayerStep::AddBias(Weight::Q)) + step_if(
        kinds.b_k,
        LayerStep::AddBias(Weight::K),
    ) + step_if(kinds.b_v, LayerStep::AddBias(Weight::V))
}

/// From the rotation to the attention.
pub open spec fn attention_plan(mode: Mode) -> Seq<LayerStep> {
    seq![LayerStep::Rope] + step_if(!(mode is Prefill), LayerStep::Append) + seq![
        LayerStep::Attend,
    ]
}

/// What follows the attention.
pub open spec fn ffn_plan(cfg: LayerConfig, kinds: LayerKinds, mode: Mode) -> Seq<LayerStep> {
    seq![
        product_with(cfg, kinds, mode, Weight::O),
        LayerStep::AttnResidual,
        LayerStep::FfnNorm,
        product_with(cfg, kinds, mode, Weight::Gate),
        product_with(cfg, kinds, mode, Weight::Up),
        LayerStep::SiluMul,
        product_with(cfg, kinds, mode, Weight::Down),
        LayerStep::FfnResidual,
    ]
}

/// The steps of a layer's forward pass.
pub open spec fn layer_plan(cfg: LayerConfig, kinds: LayerKinds, mode: Mode) -> Seq<LayerStep> {
    qkv_plan(cfg, kinds, mode) + bias_plan(kinds) + attention_plan(mode) + ffn_plan(
        cfg,
        kinds,
        mode,
    )
}

/// Whether a weight is quantized.
fn quantized(w: &WeightStorage) -> (b: bool)
    ensures
        b == (w is Q8),
{
    match w {
        WeightStorage::F32(_) => false,
        WeightStorage::Q8(_) => true,
    }
}

/// What the steps of a layer depend on.
pub open spec fn kinds_view(l: LayerWeights) -> LayerKinds {
    LayerKinds {
        wq: l.wq is Q8,
        wk: l.wk is Q8,
        wv: l.wv is Q8,
        wo: l.wo is Q8,
        w_gate: l.w_gate is Q8,
        w_up: l.w_up is Q8,
        w_down: l.w_down is Q8,
        b_q: l.b_q is Some,
        b_k: l.b_k is Some,
        b_v: l.b_v is Some,
    }
}

/// What the steps of a layer depend on.
pub fn kinds_of(l: &LayerWeights) -> (k: LayerKinds)
    ensures
        k == kinds_view(*l),
{
    LayerKinds {
        wq: quantized(&l.wq),
        wk: quantized(&l.wk),
        wv: quantized(&l.wv),
        wo: quantized(&l.wo),
        w_gate: quantized(&l.w_gate),
        w_up: quantized(&l.w_up),
        w_down: quantized(&l.w_down),
        b_q: l.b_q.is_some(),
        b_k: l.b_k.is_some(),
        b_v: l.b_v.is_some(),
    }
}

/// A weight of a layer.
pub open spec fn weight_spec(l: &LayerWeights, w: Weight) -> Option<&WeightStorage> {
    match w {
        Weight::Q => Some(&l.wq),
        Weight::K => Some(&l.wk),
        Weight::V => Some(&l.wv),
        Weight::O => Some(&l.wo),
        Weight::Gate => Some(&l.w_gate),
        Weight::Up => Some(&l.w_up),
        Weight::Down => Some(&l.w_down),
        Weight::LmHead => None,
    }
}

/// A weight of a layer; nothing for the weight that belongs to no layer.
pub fn weight_of(l: &LayerWeights, w: Weight) -> (r: Option<&WeightStorage>)
    ensures
        r == weight_spec(l, w),
        r matches Some(s) ==> (s is Q8) == is_q8(kinds_view(*l), w),
{
    match w {
        Weight::Q => Some(&l.wq),
        Weight::K => Some(&l.wk),
        Weight::V => Some(&l.wv),
        Weight::O => Some(&l.wo),
        Weight::Gate => Some(&l.w_gate),
        Weight::Up => Some(&l.w_up),
        Weight::Down => Some(&l.w_down),
        Weight::LmHead => None,
    }
}

/// The product with a weight of a layer.
fn projection(w: Weight, d_in: usize, d_out: usize, mode: Mode, q8: bool) -> (s: LayerStep)
    ensures
        s == LayerStep::Project(
            Projection { weight: w, d_in, d_out, path: path_of(mode, q8, d_in as nat) },
        ),
{
    LayerStep::Project(Projection { weight: w, d_in, d_out, path: choose_path(mode, q8, d_in) })
}

/// The steps of a layer's forward pass.
pub fn layer_steps(cfg: &LayerConfig, kinds: LayerKinds, mode: Mode) -> (steps: Vec<LayerStep>)
    requires
        cfg.q_size() <= usize::MAX,
        cfg.kv_size() <= usize::MAX,
    ensures
        steps@ == layer_plan(*cfg, kinds, mode),
{
    let mut steps: Vec<LayerStep> = Vec::new();
    push_qkv(&mut steps, cfg, kinds, mode);
    push_biases(&mut steps, kinds);
    push_attention(&mut steps, mode);
    push_ffn(&mut steps, cfg, kinds, mode);
    steps
}

fn push_qkv(steps: &mut Vec<LayerStep>, cfg: &LayerConfig, kinds: LayerKinds, mode: Mode)
    requires
        cfg.q_size() <= usize::MAX,
        cfg.kv_size() <= usize::MAX,
        old(steps)@.len() == 0,
    ensures
        final(steps)@ == qkv_plan(*cfg, kinds, mode),
{
    let h: usize = cfg.hidden;
    let qd: usize = cfg.q_dim();
    let kvd: usize = cfg.kv_dim();
    steps.push(LayerStep::AttnNorm);
    steps.push(projection(Weight::Q, h, qd, mode, kinds.wq));
    steps.push(projection(Weight::K, h, kvd, mode, kinds.wk));
    steps.push(projection(Weight::V, h, kvd, mode, kinds.wv));
    assert(steps@ =~= qkv_plan(*cfg, kinds, mode));
}

fn push_biases(steps: &mut Vec<LayerStep>, kinds: LayerKinds)
    ensures
        final(steps)@ == old(steps)@ + bias_plan(kinds),
{
    let ghost start = steps@;
    if kinds.b_q {
        steps.push(LayerStep::AddBias(Weight::Q));
    }
    if kinds.b_k {
        steps.push(LayerStep::AddBias(Weight::K));
    }
    if kinds.b_v {
        steps.push(LayerStep::AddBias(Weight::V));
    }
    assert(steps@ =~= start + bias_plan(kinds));
}

fn push_attention(steps: &mut Vec<LayerStep>, mode: Mode)
    ensures
        final(steps)@ == old(steps)@ + attention_plan(mode),
{
    let ghost start = steps@;
    steps.push(LayerStep::Rope);
    match mode {
        Mode::Prefill => {},
        Mode::Decode => {
            steps.push(LayerStep::Append);
        },
        Mode::DecodeJit { has_vnni: _ } => {
            steps.push(LayerStep::Append);
        },
    }
    steps.push(LayerStep::Attend);
    assert(steps@ =~= start + attention_plan(mode));
}

fn push_ffn(steps: &mut Vec<LayerStep>, cfg: &LayerConfig, kinds: LayerKinds, mode: Mode)
    requires
        cfg.q_size() <= usize::MAX,
    ensures
        final(steps)@ == old(steps)@ + ffn_plan(*cfg, kinds, mode),
{
    let h: usize = cfg.hidden;
    let qd: usize = cfg.q_dim();
    let ff: usize = cfg.ffn_hidden;
    let ghost start = steps@;
    steps.push(projection(Weight::O, qd, h, mode, kinds.wo));
    steps.push(LayerStep::AttnResidual);
    steps.push(LayerStep::FfnNorm);
    steps.push(projection(Weight::Gate, h, ff, mode, kinds.w_gate));
    steps.push(projection(Weight::Up, h, ff, mode, kinds.w_up));
    steps.push(LayerStep::SiluMul);
    steps.push(projection(Weight::Down, ff, h, mode, kinds.w_down));
    steps.push(LayerStep::FfnResidual);
    assert(steps@ =~= start + ffn_plan(*cfg, kinds, mode));
}

/// The product that gives the logits.
pub fn lm_head_projection(
    hidden: usize,
    vocab_size: usize,
    lm_head_w: &WeightStorage,
    mode: Mode,
) -> (p: Projection)
    ensures
        p == (Projection {
            weight: Weight::LmHead,
            d_in: hidden,
            d_out: vocab_size,
            path: path_of(mode, lm_head_w is Q8, hidden as nat),
        }),
{
    let q8: bool = quantized(lm_head_w);
    Projection {
        weight: Weight::LmHead,
        d_in: hidden,
        d_out: vocab_size,
        path: choose_path(mode, q8, hidden),
    }
}

/// Where the time of a step is counted.
pub open spec fn bucket_spec(s: LayerStep) -> Bucket {
    match s {
        LayerStep::AttnNorm => Bucket::AttnRms,
        LayerStep::Project(p) => match p.weight {
            Weight::Q => Bucket::QkvMatmul,
            Weight::K => Bucket::QkvMatmul,
            Weight::V => Bucket::QkvMatmul,
            Weight::O => Bucket::WoMatmul,
            Weight::Gate => Bucket::GateUpMatmul,
            Weight::Up => Bucket::GateUpMatmul,
            Weight::Down => Bucket::DownMatmul,
            Weight::LmHead => Bucket::LmHeadMatmul,
        },
        LayerStep::AddBias(_) => Bucket::QkvBias,
        LayerStep::Rope => Bucket::Rope,
        LayerStep::Append => Bucket::KvAppend,
        LayerStep::Attend => Bucket::Attention,
        LayerStep::AttnResidual => Bucket::AttnResidual,
        LayerStep::FfnNorm => Bucket::FfnRms,
        LayerStep::SiluMul => Bucket::SiluMul,
        LayerStep::FfnResidual => Bucket::FfnResidual,
    }
}

/// Where the time of a step is counted.
pub fn bucket_of(s: LayerStep) -> (b: Bucket)
    ensures
        b == bucket_spec(s),
{
    match s {
        LayerStep::AttnNorm => Bucket::AttnRms,
        LayerStep::Project(p) => match p.weight {
            Weight::Q => Bucket::QkvMatmul,
            Weight::K => Bucket::QkvMatmul,
            Weight::V => Bucket::QkvMatmul,
            Weight::O => Bucket::WoMatmul,
            Weight::Gate => Bucket::GateUpMatmul,
            Weight::Up => Bucket::GateUpMatmul,
            Weight::Down => Bucket::DownMatmul,
            Weight::LmHead => Bucket::LmHeadMatmul,
        },
        LayerStep::AddBias(_) => Bucket::QkvBias,
        LayerStep::Rope => Bucket::Rope,
        LayerStep::Append => Bucket::KvAppend,
        LayerStep::Attend => Bucket::Attention,
        LayerStep::AttnResidual => Bucket::AttnResidual,
        LayerStep::FfnNorm => Bucket::FfnRms,
        LayerStep::SiluMul => Bucket::SiluMul,
        LayerStep::FfnResidual => Bucket::FfnResidual,
    }
}

/// Where the times of steps are counted, in order.
pub open spec fn buckets_of(steps: Seq<LayerStep>) -> Seq<Bucket> {
    Seq::new(steps.len(), |i: int| bucket_spec(steps[i]))
}

// ---- laws -----------------------------------------------------------------------------

/// A step without the choice of a kernel.
pub open spec fn what(s: LayerStep) -> LayerStep {
    match s {
        LayerStep::Project(p) => LayerStep::Project(Projection { path: Path::Naive, ..p }),
        _ => s,
    }
}

/// Steps without the choice of a kernel.
pub open spec fn whats(steps: Seq<LayerStep>) -> Seq<LayerStep> {
    Seq::new(steps.len(), |i: int| what(steps[i]))
}

/// Native kernels change how a layer is computed, not what: step by step, the
/// pass with kernels does what the plain pass does.
pub proof fn lemma_kernels_keep_the_steps(cfg: LayerConfig, kinds: LayerKinds, has_vnni: bool)
    ensures
        whats(layer_plan(cfg, kinds, Mode::DecodeJit { has_vnni })) == layer_plan(
            cfg,
            kinds,
            Mode::Decode,
        ),
{
    let a = layer_plan(cfg, kinds, Mode::DecodeJit { has_vnni });
    let b = layer_plan(cfg, kinds, Mode::Decode);
    assert(whats(a) =~= b);
}

/// Decoding with a cache takes the steps of a pass over all tokens, and one
/// more: the new rows go to the cache right before they are attended to.
pub proof fn lemma_decode_is_prefill_with_cache(cfg: LayerConfig, kinds: LayerKinds) -> (at: int)
    ensures
        ({
            let all = layer_plan(cfg, kinds, Mode::Prefill);
            let one = layer_plan(cfg, kinds, Mode::Decode);
            &&& 0 < at < all.len()
            &&& all[at] == LayerStep::Attend
            &&& one == all.insert(at, LayerStep::Append)
        }),
{
    let all = layer_plan(cfg, kinds, Mode::Prefill);
    let one = layer_plan(cfg, kinds, Mode::Decode);
    let n = |b: bool|
        if b {
            1int
        } else {
            0
        };
    let at = 5 + n(kinds.b_q) + n(kinds.b_k) + n(kinds.b_v);
    assert(one =~= all.insert(at, LayerStep::Append));
    at
}

/// How many elements the buffers of a pass hold.
pub struct Sizes {
    pub norm: nat,
    pub q: nat,
    pub k: nat,
    pub v: nat,
    pub attn: nat,
    pub attn_out: nat,
    pub resid: nat,
    pub gate: nat,
    pub up: nat,
    pub ffn_out: nat,
}

/// How many elements a buffer holds.
pub open spec fn size_of(z: Sizes, b: Buffer) -> nat {
    match b {
        Buffer::Norm => z.norm,
        Buffer::Q => z.q,
        Buffer::K => z.k,
        Buffer::V => z.v,
        Buffer::Attn => z.attn,
        Buffer::AttnOut => z.attn_out,
        Buffer::Resid => z.resid,
        Buffer::Gate => z.gate,
        Buffer::Up => z.up,
        Buffer::FfnOut => z.ffn_out,
    }
}

/// The sizes, where a buffer holds `n` elements.
pub open spec fn resized(z: Sizes, b: Buffer, n: nat) -> Sizes {
    match b {
        Buffer::Norm => Sizes { norm: n, ..z },
        Buffer::Q => Sizes { q: n, ..z },
        Buffer::K => Sizes { k: n, ..z },
        Buffer::V => Sizes { v: n, ..z },
        Buffer::Attn => Sizes { attn: n, ..z },
        Buffer::AttnOut => Sizes { attn_out: n, ..z },
        Buffer::Resid => Sizes { resid: n, ..z },
        Buffer::Gate => Sizes { gate: n, ..z },
        Buffer::Up => Sizes { up: n, ..z },
        Buffer::FfnOut => Sizes { ffn_out: n, ..z },
    }
}

/// The buffers after a step on `rows` rows, or nothing where a buffer that the
/// step reads does not have the size that the step is for.
pub open spec fn sizes_after(z: Sizes, cfg: LayerConfig, rows: nat, s: LayerStep) -> Option<Sizes> {
    let h = rows * cfg.hidden as nat;
    match s {
        LayerStep::AttnNorm => Some(Sizes { norm: h, ..z }),
        LayerStep::Project(p) => {
            let read = rows * p.d_in as nat;
            let made = rows * p.d_out as nat;
            match route_spec(p.weight) {
                Some((from, to)) => if size_of(z, from) == read {
                    Some(resized(z, to, made))
                } else {
                    None
                },
                None => None,
            }
        },
        LayerStep::AddBias(w) => match w {
            Weight::Q => if z.q == rows * cfg.q_size() {
                Some(z)
            } else {
                None
            },
            Weight::K => if z.k == rows * cfg.kv_size() {
                Some(z)
            } else {
                None
            },
            Weight::V => if z.v == rows * cfg.kv_size() {
                Some(z)
            } else {
                None
            },
            _ => None,
        },
        LayerStep::Rope => if z.q == rows * cfg.q_size() && z.k == rows * cfg.kv_size() {
            Some(z)
        } else {
            None
        },
        LayerStep::Append => if z.k == rows * cfg.kv_size() && z.v == rows * cfg.kv_size() {
            Some(z)
        } else {
            None
        },
        LayerStep::Attend => if z.q == rows * cfg.q_size() && z.k == rows * cfg.kv_size() && z.v
            == rows * cfg.kv_size() {
            Some(Sizes { attn: rows * cfg.q_size(), ..z })
        } else {
            None
        },
        LayerStep::AttnResidual => if z.attn_out == h {
            Some(Sizes { resid: h, ..z })
        } else {
            None
        },
        LayerStep::FfnNorm => if z.resid == h {
            Some(Sizes { norm: h, ..z })
        } else {
            None
        },
        LayerStep::SiluMul => if z.gate == z.up {
            Some(z)
        } else {
            None
        },
        LayerStep::FfnResidual => if z.ffn_out == h && z.resid == h {
            Some(z)
        } else {
            None
        },
    }
}

/// The buffers after steps.
pub open spec fn sizes_through(
    z: Sizes,
    cfg: LayerConfig,
    rows: nat,
    steps: Seq<LayerStep>,
) -> Option<Sizes>
    decreases steps.len(),
{
    if steps.len() == 0 {
        Some(z)
    } else {
        match sizes_after(z, cfg, rows, steps[0]) {
            None => None,
            Some(y) => sizes_through(y, cfg, rows, steps.drop_first()),
        }
    }
}

proof fn lemma_sizes_concat(
    z: Sizes,
    cfg: LayerConfig,
    rows: nat,
    a: Seq<LayerStep>,
    b: Seq<LayerStep>,
)
    ensures
        sizes_through(z, cfg, rows, a + b) == (match sizes_through(z, cfg, rows, a) {
            None => None,
            Some(y) => sizes_through(y, cfg, rows, b),
        }),
    decreases a.len(),
{
    if a.len() == 0 {
        assert(a + b =~= b);
    } else {
        assert((a + b).drop_first() =~= a.drop_first() + b);
        match sizes_after(z, cfg, rows, a[0]) {
            None => {},
            Some(y) => {
                lemma_sizes_concat(y, cfg, rows, a.drop_first(), b);
            },
        }
    }
}

/// Every step finds buffers of the size it is for, and the pass ends with as
/// many elements as it began with: whatever the buffers held before, the
/// output of a layer fits the input of the next.
pub proof fn lemma_sizes_agree(
    z: Sizes,
    cfg: LayerConfig,
    kinds: LayerKinds,
    mode: Mode,
    rows: nat,
)
    requires
        cfg.q_size() <= usize::MAX,
        cfg.kv_size() <= usize::MAX,
    ensures
        sizes_through(z, cfg, rows, layer_plan(cfg, kinds, mode)) matches Some(y) && y.resid
            == rows * cfg.hidden as nat && y.ffn_out == rows * cfg.hidden as nat,
{
    let a = qkv_plan(cfg, kinds, mode);
    let b = bias_plan(kinds);
    let c = attention_plan(mode);
    let d = ffn_plan(cfg, kinds, mode);
    lemma_sizes_concat(z, cfg, rows, a + b + c, d);
    lemma_sizes_concat(z, cfg, rows, a + b, c);
    lemma_sizes_concat(z, cfg, rows, a, b);
    let y1 = lemma_sizes_qkv(z, cfg, kinds, mode, rows);
    lemma_sizes_bias(y1, cfg, kinds, rows);
    let y2 = lemma_sizes_attention(y1, cfg, mode, rows);
    lemma_sizes_ffn(y2, cfg, kinds, mode, rows);
}

proof fn lemma_sizes_qkv(
    z: Sizes,
    cfg: LayerConfig,
    kinds: LayerKinds,
    mode: Mode,
    rows: nat,
) -> (y: Sizes)
    requires
        cfg.q_size() <= usize::MAX,
        cfg.kv_size() <= usize::MAX,
    ensures
        sizes_through(z, cfg, rows, qkv_plan(cfg, kinds, mode)) == Some(y),
        y.q == rows * cfg.q_size(),
        y.k == rows * cfg.kv_size(),
        y.v == rows * cfg.kv_size(),
{
    reveal_with_fuel(sizes_through, 6);
    sizes_through(z, cfg, rows, qkv_plan(cfg, kinds, mode))->0
}

proof fn lemma_sizes_bias(z: Sizes, cfg: LayerConfig, kinds: LayerKinds, rows: nat)
    requires
        z.q == rows * cfg.q_size(),
        z.k == rows * cfg.kv_size(),
        z.v == rows * cfg.kv_size(),
    ensures
        sizes_through(z, cfg, rows, bias_plan(kinds)) == Some(z),
{
    let b1 = step_if(kinds.b_q, LayerStep::AddBias(Weight::Q));
    let b2 = step_if(kinds.b_k, LayerStep::AddBias(Weight::K));
    let b3 = step_if(kinds.b_v, LayerStep::AddBias(Weight::V));
    lemma_sizes_concat(z, cfg, rows, b1 + b2, b3);
    lemma_sizes_concat(z, cfg, rows, b1, b2);
    reveal_with_fuel(sizes_through, 3);
}

proof fn lemma_sizes_attention(z: Sizes, cfg: LayerConfig, mode: Mode, rows: nat) -> (y: Sizes)
    requires
        z.q == rows * cfg.q_size(),
        z.k == rows * cfg.kv_size(),
        z.v == rows * cfg.kv_size(),
    ensures
        sizes_through(z, cfg, rows, attention_plan(mode)) == Some(y),
        y.attn == rows * cfg.q_size(),
{
    let a = seq![LayerStep::Rope];
    let b = step_if(!(mode is Prefill), LayerStep::Append);
    let c = seq![LayerStep::Attend];
    lemma_sizes_concat(z, cfg, rows, a + b, c);
    lemma_sizes_concat(z, cfg, rows, a, b);
    reveal_with_fuel(sizes_through, 3);
    Sizes { attn: rows * cfg.q_size(), ..z }
}

proof fn lemma_sizes_ffn(z: Sizes, cfg: LayerConfig, kinds: LayerKinds, mode: Mode, rows: nat)
    requires
        cfg.q_size() <= usize::MAX,
        z.attn == rows * cfg.q_size(),
    ensures
        sizes_through(z, cfg, rows, ffn_plan(cfg, kinds, mode)) matches Some(y) && y.resid == rows
            * cfg.hidden as nat && y.ffn_out == rows * cfg.hidden as nat,
{
    reveal_with_fuel(sizes_through, 10);
}

} // verus!
