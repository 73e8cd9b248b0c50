//! The steps of a layer, with the weights that they take and where their time is
//! counted.

use crate::runtime::forward::{
    bucket_spec, buckets_of, kinds_view, layer_plan, path_of, route_spec, weight_spec, Buffer,
    LayerKinds, LayerStep, Mode, Path, Projection, Weight,
};
use crate::runtime::model::{LayerConfig, LayerWeights};
use crate::runtime::timer::Bucket;
use vstd::prelude::*;

verus! {

/// Each product takes its own weight of the layer.
pub proof fn lemma_weights_taken(l: LayerWeights)
    ensures
        weight_spec(&l, Weight::Q) == Some(&l.wq),
        weight_spec(&l, Weight::K) == Some(&l.wk),
        weight_spec(&l, Weight::V) == Some(&l.wv),
        weight_spec(&l, Weight::O) == Some(&l.wo),
        weight_spec(&l, Weight::Gate) == Some(&l.w_gate),
        weight_spec(&l, Weight::Up) == Some(&l.w_up),
        weight_spec(&l, Weight::Down) == Some(&l.w_down),
        weight_spec(&l, Weight::LmHead) is None,
        kinds_view(l).wq == (l.wq is Q8),
        kinds_view(l).wk == (l.wk is Q8),
        kinds_view(l).wv == (l.wv is Q8),
        kinds_view(l).wo == (l.wo is Q8),
        kinds_view(l).w_gate == (l.w_gate is Q8),
        kinds_view(l).w_up == (l.w_up is Q8),
        kinds_view(l).w_down == (l.w_down is Q8),
        kinds_view(l).b_q == (l.b_q is Some),
        kinds_view(l).b_k == (l.b_k is Some),
        kinds_view(l).b_v == (l.b_v is Some),
{
}

/// What each product reads and where its result goes.
pub proof fn lemma_products_routed()
    ensures
        route_spec(Weight::Q) == Some((Buffer::Norm, Buffer::Q)),
        route_spec(Weight::K) == Some((Buffer::Norm, Buffer::K)),
        route_spec(Weight::V) == Some((Buffer::Norm, Buffer::V)),
        route_spec(Weight::O) == Some((Buffer::Attn, Buffer::AttnOut)),
        route_spec(Weight::Gate) == Some((Buffer::Norm, Buffer::Gate)),
        route_spec(Weight::Up) == Some((Buffer::Norm, Buffer::Up)),
        route_spec(Weight::Down) == Some((Buffer::Gate, Buffer::FfnOut)),
        route_spec(Weight::LmHead) is None,
{
}

/// Which code computes a product. Without native kernels it is the plain loop. With
/// them a quantized weight has its kernel and another one the kernel for plain
/// numbers; where the processor has dot products of bytes and a row has at most 64
/// blocks, the other operand is rounded first.
pub proof fn lemma_paths(q8: bool, d_in: nat, has_vnni: bool)
    ensures
        path_of(Mode::Prefill, q8, d_in) == Path::Naive,
        path_of(Mode::Decode, q8, d_in) == Path::Naive,
        has_vnni && d_in / 32 <= 64 && q8 ==> path_of(Mode::DecodeJit { has_vnni }, q8, d_in)
            == Path::Q8Q8Kernel,
        has_vnni && d_in / 32 <= 64 && !q8 ==> path_of(Mode::DecodeJit { has_vnni }, q8, d_in)
            == Path::RoundedF32Kernel,
        !(has_vnni && d_in / 32 <= 64) && q8 ==> path_of(Mode::DecodeJit { has_vnni }, q8, d_in)
            == Path::Q8Kernel,
        !(has_vnni && d_in / 32 <= 64) && !q8 ==> path_of(Mode::DecodeJit { has_vnni }, q8, d_in)
            == Path::F32Kernel,
{
}

/// The steps of a layer in order.
pub proof fn lemma_steps_of_layer(cfg: LayerConfig, kinds: LayerKinds, mode: Mode)
    requires
        cfg.q_size() <= usize::MAX,
        cfg.kv_size() <= usize::MAX,
    ensures
        ({
            let (h, ff) = (cfg.hidden as int, cfg.ffn_hidden as int);
            let (q, kv) = (cfg.n_heads * cfg.head_dim, cfg.n_kv_heads * cfg.head_dim);
            let product = |weight: Weight, d_in: int, d_out: int, q8: bool|
                LayerStep::Project(
                    Projection {
                        weight,
                        d_in: d_in as usize,
                        d_out: d_out as usize,
                        path: path_of(mode, q8, d_in as nat),
                    },
                );
            let maybe = |there: bool, s: LayerStep|
                if there {
                    seq![s]
                } else {
                    Seq::<LayerStep>::empty()
                };
            layer_plan(cfg, kinds, mode) == seq![
                LayerStep::AttnNorm,
                product(Weight::Q, h, q, kinds.wq),
                product(Weight::K, h, kv, kinds.wk),
                product(Weight::V, h, kv, kinds.wv),
            ] + (maybe(kinds.b_q, LayerStep::AddBias(Weight::Q)) + maybe(
                kinds.b_k,
                LayerStep::AddBias(Weight::K),
            ) + maybe(kinds.b_v, LayerStep::AddBias(Weight::V))) + (seq![LayerStep::Rope] + maybe(
                !(mode is Prefill),
                LayerStep::Append,
            ) + seq![LayerStep::Attend]) + seq![
                product(Weight::O, q, h, kinds.wo),
                LayerStep::AttnResidual,
                LayerStep::FfnNorm,
                product(Weight::Gate, h, ff, kinds.w_gate),
                product(Weight::Up, h, ff, kinds.w_up),
                LayerStep::SiluMul,
                product(Weight::Down, ff, h, kinds.w_down),
                LayerStep::FfnResidual,
            ]
        }),
{
    assert(cfg.n_heads * cfg.head_dim >= 0) by (nonlinear_arith);
    assert(cfg.n_kv_heads * cfg.head_dim >= 0) by (nonlinear_arith);
}

/// The part of the work that the time of a step counts for.
pub proof fn lemma_steps_timed(p: Projection, w: Weight, steps: Seq<LayerStep>)
    ensures
        bucket_spec(LayerStep::AttnNorm) == Bucket::AttnRms,
        bucket_spec(LayerStep::AddBias(w)) == Bucket::QkvBias,
        bucket_spec(LayerStep::Rope) == Bucket::Rope,
        bucket_spec(LayerStep::Append) == Bucket::KvAppend,
        bucket_spec(LayerStep::Attend) == Bucket::Attention,
        bucket_spec(LayerStep::AttnResidual) == Bucket::AttnResidual,
        bucket_spec(LayerStep::FfnNorm) == Bucket::FfnRms,
        bucket_spec(LayerStep::SiluMul) == Bucket::SiluMul,
        bucket_spec(LayerStep::FfnResidual) == Bucket::FfnResidual,
        p.weight == Weight::Q || p.weight == Weight::K || p.weight == Weight::V ==> bucket_spec(
            LayerStep::Project(p),
        ) == Bucket::QkvMatmul,
        p.weight == Weight::O ==> bucket_spec(LayerStep::Project(p)) == Bucket::WoMatmul,
        p.weight == Weight::Gate || p.weight == Weight::Up ==> bucket_spec(LayerStep::Project(p))
            == Bucket::GateUpMatmul,
        p.weight == Weight::Down ==> bucket_spec(LayerStep::Project(p)) == Bucket::DownMatmul,
        p.weight == Weight::LmHead ==> bucket_spec(LayerStep::Project(p)) == Bucket::LmHeadMatmul,
        buckets_of(steps).len() == steps.len(),
        forall|i: int| 0 <= i < steps.len() ==> #[trigger] buckets_of(steps)[i] == bucket_spec(
            steps[i],
        ),
{
}

} // verus!
