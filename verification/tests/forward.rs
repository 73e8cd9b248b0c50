//! The forward pass: the steps, the places and the decisions are the library's,
//! the arithmetic is done here.

use std::cell::Cell;
use std::marker::PhantomData;

use lumen::model::{config_from_gguf, model_from_gguf, GgmlType, GgufFile, KvType};
use lumen::runtime::attention::{attention_rows, rope_pairs};
use lumen::runtime::forward::{
    kinds_of, layer_steps, route, weight_of, Buffer, Mode, Path, Weight,
};
use lumen::runtime::generate::argmax;
use lumen::runtime::kvcache::{KvCache, LayerKvCache};
use lumen::runtime::model::{LayerConfig, LayerWeights, Model, ModelConfig, WeightStorage};
use lumen::runtime::numerics::Numerics;
use lumen::runtime::pass::Buffers;
use lumen::runtime::runner::Runner;
use lumen::runtime::timer::{Bucket, StepTimer};

// ----- arithmetic ------------------------------------------------------------

fn floats(bits: &[u32]) -> Vec<f32> {
    bits.iter().map(|b| f32::from_bits(*b)).collect()
}

fn approx_eq(a: f32, b: f32, tol: f32) -> bool {
    (a - b).abs() < tol
}

fn rms_norm(x: &[f32], weight: &[u32], eps: u32) -> Vec<f32> {
    let weight = floats(weight);
    let mut out = Vec::new();
    for row in x.chunks_exact(weight.len()) {
        let sum: f32 = row.iter().map(|v| v * v).sum();
        let inv = 1.0 / (sum / row.len() as f32 + f32::from_bits(eps)).sqrt();
        out.extend(row.iter().zip(&weight).map(|(v, w)| v * inv * w));
    }
    out
}

/// The product of a row with a weight.
type Multiply = fn(&WeightStorage, &[f32]) -> Vec<f32>;

/// The arithmetic of a layer.
fn numerics<'a>(
    layer: &'a LayerWeights,
    cfg: &'a LayerConfig,
    multiply: Multiply,
) -> Numerics<
    f32,
    impl Fn(bool, &[f32]) -> Vec<f32> + 'a,
    impl Fn(Weight, Path, &[f32]) -> Vec<f32> + 'a,
    impl Fn(Weight, &[f32]) -> Vec<f32> + 'a,
    impl Fn(u32, usize, f32, f32) -> (f32, f32) + 'a,
    impl Fn(&[f32], &[f32]) -> f32 + 'a,
    impl Fn(&[f32]) -> Vec<f32> + 'a,
    impl Fn(&[f32], &[f32]) -> f32 + 'a,
    impl Fn(f32, f32) -> f32 + 'a,
    impl Fn(f32, f32) -> f32 + 'a,
> {
    Numerics {
        norm: move |ffn: bool, x: &[f32]| {
            let w = if ffn { &layer.ffn_norm_w } else { &layer.attn_norm_w };
            rms_norm(x, w, cfg.rms_norm_eps)
        },
        product: move |weight: Weight, _: Path, x: &[f32]| {
            multiply(weight_of(layer, weight).unwrap(), x)
        },
        bias: move |w: Weight, x: &[f32]| {
            let bias = match w {
                Weight::Q => &layer.b_q,
                Weight::K => &layer.b_k,
                _ => &layer.b_v,
            };
            let bias = floats(bias.as_ref().unwrap());
            x.iter().zip(&bias).map(|(a, b)| a + b).collect()
        },
        rotate: move |pos: u32, i: usize, a: f32, b: f32| {
            let base = f32::from_bits(cfg.rope_base);
            let turn = pos as f32 * base.powf(-(2.0 * i as f32) / cfg.head_dim as f32);
            let (s, c) = turn.sin_cos();
            (a * c - b * s, a * s + b * c)
        },
        score: move |q: &[f32], k: &[f32]| {
            q.iter().zip(k).map(|(a, b)| a * b).sum::<f32>() / (cfg.head_dim as f32).sqrt()
        },
        shares: |scores: &[f32]| {
            let max = scores.iter().fold(f32::NEG_INFINITY, |m, &v| if v > m { v } else { m });
            let raised: Vec<f32> = scores.iter().map(|v| (v - max).exp()).collect();
            let sum: f32 = raised.iter().sum();
            raised.iter().map(|v| v / sum).collect()
        },
        mix: |shares: &[f32], x: &[f32]| shares.iter().zip(x).map(|(w, x)| w * x).sum(),
        plus: |a: f32, b: f32| a + b,
        gated: |g: f32, u: f32| g / (1.0 + (-g).exp()) * u,
        numbers: PhantomData,
    }
}

fn multiply(w: &WeightStorage, x: &[f32]) -> Vec<f32> {
    let d_out = w.nelem() / x.len();
    let w = floats(w.as_f32_native(d_out, x.len()).as_slice());
    w.chunks_exact(x.len()).map(|col| x.iter().zip(col).map(|(a, b)| a * b).sum()).collect()
}

/// The same, with the weight transposed.
fn multiply_transposed(w: &WeightStorage, x: &[f32]) -> Vec<f32> {
    let w = floats(f32_weight(w));
    let d_out = w.len() / x.len();
    (0..d_out).map(|o| x.iter().enumerate().map(|(k, a)| a * w[k * d_out + o]).sum()).collect()
}

fn forward_layer(
    x: &[f32],
    seq: usize,
    layer: &LayerWeights,
    positions: &[u32],
    cfg: &LayerConfig,
) -> Vec<f32> {
    assert_eq!(positions.len(), seq);
    numerics(layer, cfg, multiply).forward_layer(x, positions, cfg, kinds_of(layer))
}

fn forward_layer_decode(
    x: &[f32],
    position: u32,
    layer: &LayerWeights,
    cache: &mut LayerKvCache<f32>,
    cfg: &LayerConfig,
) -> Vec<f32> {
    numerics(layer, cfg, multiply).forward_layer_decode(x, position, cache, cfg, kinds_of(layer))
}

/// Rotates heads alone, with the arithmetic of some layer.
fn rope_in_place(x: &mut Vec<f32>, positions: &[u32], n_heads: usize, head_dim: usize, base: f32) {
    let cfg = LayerConfig {
        hidden: n_heads * head_dim,
        n_heads,
        n_kv_heads: n_heads,
        head_dim,
        ffn_hidden: 1,
        rms_norm_eps: 0,
        rope_base: base.to_bits(),
    };
    let layer = random_weights(&cfg, 1);
    numerics(&layer, &cfg, multiply).rope_in_place(&cfg, x, positions, n_heads, head_dim);
}

/// A model with its arithmetic.
fn runner<'a>(
    model: &'a Model,
    multiply: Multiply,
) -> Runner<
    'a,
    f32,
    impl Fn(bool, &[f32]) -> Vec<f32> + 'a,
    impl Fn(Weight, Path, &[f32]) -> Vec<f32> + 'a,
    impl Fn(Weight, &[f32]) -> Vec<f32> + 'a,
    impl Fn(u32, usize, f32, f32) -> (f32, f32) + 'a,
    impl Fn(&[f32], &[f32]) -> f32 + 'a,
    impl Fn(&[f32]) -> Vec<f32> + 'a,
    impl Fn(&[f32], &[f32]) -> f32 + 'a,
    impl Fn(f32, f32) -> f32 + 'a,
    impl Fn(f32, f32) -> f32 + 'a,
    impl Fn(u32) -> f32 + 'a,
    impl Fn(&[f32]) -> Vec<f32> + 'a,
    impl Fn(Path, &[f32]) -> Vec<u32> + 'a,
> {
    let cfg = &model.config.layer;
    Runner {
        model,
        layers: model.layers.iter().map(|l| numerics(l, cfg, multiply)).collect(),
        number: |b: u32| f32::from_bits(b),
        last: move |x: &[f32]| rms_norm(x, &model.final_norm_w, cfg.rms_norm_eps),
        head: move |_: Path, x: &[f32]| {
            multiply(&model.lm_head_w, x).iter().map(|v| v.to_bits()).collect()
        },
    }
}

fn generate_greedy(model: &Model, prompt: &[u32], max_new: usize) -> Vec<u32> {
    runner(model, multiply).generate_greedy(prompt, max_new)
}

// ----- layers ----------------------------------------------------------------

fn toy_cfg() -> LayerConfig {
    LayerConfig {
        hidden: 8,
        n_heads: 2,
        n_kv_heads: 1, // GQA: 2 Q heads share 1 KV head
        head_dim: 4,
        ffn_hidden: 16,
        rms_norm_eps: 1e-5f32.to_bits(),
        rope_base: 10000.0f32.to_bits(),
    }
}

fn random_weights(cfg: &LayerConfig, seed: u64) -> LayerWeights {
    // Tiny xorshift PRNG.
    let mut s = seed | 1;
    let mut next = || -> u32 {
        s ^= s << 13;
        s ^= s >> 7;
        s ^= s << 17;
        ((s as i32 as f32) * 1e-10).to_bits()
    };
    let h = cfg.hidden;
    let qd = cfg.q_dim();
    let kvd = cfg.kv_dim();
    let ff = cfg.ffn_hidden;
    let mut mk = |n: usize| WeightStorage::F32((0..n).map(|_| next()).collect());
    LayerWeights {
        attn_norm_w: vec![1.0f32.to_bits(); h],
        wq: mk(qd * h),
        wk: mk(kvd * h),
        wv: mk(kvd * h),
        wo: mk(h * qd),
        ffn_norm_w: vec![1.0f32.to_bits(); h],
        w_gate: mk(ff * h),
        w_up: mk(ff * h),
        w_down: mk(h * ff),
        b_q: None,
        b_k: None,
        b_v: None,
    }
}

#[test]
fn single_token_forward_keeps_shape() {
    let cfg = toy_cfg();
    let layer = random_weights(&cfg, 42);
    let x = vec![0.5f32; cfg.hidden];
    let positions = vec![0u32];
    let out = forward_layer(&x, 1, &layer, &positions, &cfg);
    assert_eq!(out.len(), cfg.hidden);
    for v in &out {
        assert!(v.is_finite(), "non-finite output: {}", v);
    }
}

#[test]
fn multi_token_prefill_shape_and_finite() {
    let cfg = toy_cfg();
    let layer = random_weights(&cfg, 7);
    let seq = 4;
    let x: Vec<f32> = (0..seq * cfg.hidden).map(|i| (i as f32) * 0.01 - 0.1).collect();
    let positions: Vec<u32> = (0..seq as u32).collect();
    let out = forward_layer(&x, seq, &layer, &positions, &cfg);
    assert_eq!(out.len(), seq * cfg.hidden);
    for v in &out {
        assert!(v.is_finite());
    }
}

/// Token 0 alone and token 0 of two give the same row.
#[test]
fn attention_is_causal() {
    let cfg = toy_cfg();
    let layer = random_weights(&cfg, 9);

    let x_one = vec![0.3f32; cfg.hidden];
    let out_one = forward_layer(&x_one, 1, &layer, &[0], &cfg);

    let mut x_two = vec![0.3f32; cfg.hidden];
    x_two.extend(vec![0.7f32; cfg.hidden]); // a different second token
    let out_two = forward_layer(&x_two, 2, &layer, &[0, 1], &cfg);

    for i in 0..cfg.hidden {
        let a = out_one[i];
        let b = out_two[i];
        assert!((a - b).abs() < 1e-4, "index {}: one token {}, row 0 of two {}", i, a, b);
    }
}

/// The last of three tokens taken at once, and decoded after the other two.
#[test]
fn decode_matches_prefill() {
    let cfg = toy_cfg();
    let layer = random_weights(&cfg, 13);
    let h = cfg.hidden;

    let x0 = vec![0.3f32; h];
    let x1 = vec![0.7f32; h];
    let x2 = vec![-0.4f32; h];

    let mut all = Vec::with_capacity(3 * h);
    all.extend_from_slice(&x0);
    all.extend_from_slice(&x1);
    all.extend_from_slice(&x2);
    let prefill_out = forward_layer(&all, 3, &layer, &[0, 1, 2], &cfg);
    let last_row_prefill = &prefill_out[2 * h..3 * h];

    let mut cache = LayerKvCache::new(8, cfg.kv_dim());
    let _ = forward_layer_decode(&x0, 0, &layer, &mut cache, &cfg);
    let _ = forward_layer_decode(&x1, 1, &layer, &mut cache, &cfg);
    let decode_out = forward_layer_decode(&x2, 2, &layer, &mut cache, &cfg);

    for i in 0..h {
        let a = last_row_prefill[i];
        let b = decode_out[i];
        assert!((a - b).abs() < 1e-4, "index {}: prefill {}, decode {}", i, a, b);
    }
    // The cache holds 3 K/V rows.
    assert_eq!(cache.len(), 3);
}

#[test]
fn gqa_with_single_group_works() {
    let mut cfg = toy_cfg();
    cfg.n_kv_heads = cfg.n_heads;
    assert_eq!(cfg.heads_per_kv(), 1);
    let layer = random_weights(&cfg, 11);
    let x = vec![0.2f32; cfg.hidden * 2];
    let out = forward_layer(&x, 2, &layer, &[0, 1], &cfg);
    assert_eq!(out.len(), 2 * cfg.hidden);
    for v in &out {
        assert!(v.is_finite());
    }
}

/// With kernels, and step by step, a pass is the plain pass.
#[test]
fn every_way_of_decoding_agrees() {
    let cfg = toy_cfg();
    let layer = random_weights(&cfg, 21);
    let n = numerics(&layer, &cfg, multiply);
    let kinds = kinds_of(&layer);
    let mut caches: Vec<LayerKvCache<f32>> =
        (0..3).map(|_| LayerKvCache::new(4, cfg.kv_dim())).collect();
    for t in 0..3u32 {
        let x: Vec<f32> = (0..cfg.hidden).map(|i| (i as f32 - t as f32) * 0.1).collect();
        let plain = n.forward_layer_decode(&x, t, &mut caches[0], &cfg, kinds);
        let jit = n.forward_layer_decode_jit(&x, t, &mut caches[1], &cfg, kinds, true);
        let mut b = Buffers::new();
        for step in layer_steps(&cfg, kinds, Mode::Decode) {
            n.run_step(&cfg, &x, &[t], true, &mut caches[2], &mut b, step);
        }
        assert_eq!(plain, jit);
        assert_eq!(plain, b.get(Buffer::Resid));
    }
    assert_eq!(caches[0].k_filled(), caches[2].k_filled());
    assert_eq!(caches[1].v_filled(), caches[2].v_filled());
}

/// Under the clock a pass gives what it gives without, and each step is counted
/// in its own bucket.
#[test]
fn a_timed_pass_counts_its_steps() {
    let cfg = toy_cfg();
    let layer = random_weights(&cfg, 21);
    let n = numerics(&layer, &cfg, multiply);
    let kinds = kinds_of(&layer);
    let mut plain = LayerKvCache::new(4, cfg.kv_dim());
    let mut timed = LayerKvCache::new(4, cfg.kv_dim());
    let mut timer = StepTimer::new();
    timer.add(Bucket::Rope, 5);
    timer.add(Bucket::Attention, u64::MAX - 2);
    let now = Cell::new(0u64);
    let clock = || {
        now.set(now.get() + 10);
        now.get()
    };
    let x: Vec<f32> = (0..cfg.hidden).map(|i| i as f32 * 0.1).collect();
    let a = n.forward_layer_decode_jit(&x, 0, &mut plain, &cfg, kinds, false);
    let b = n.forward_layer_decode_jit_timed(
        &x, 0, &mut timed, &cfg, kinds, false, &clock, &mut timer,
    );
    assert_eq!(a, b);
    assert_eq!(plain.k_filled(), timed.k_filled());

    let biases = [kinds.b_q, kinds.b_k, kinds.b_v].iter().filter(|b| **b).count() as u64;
    assert_eq!(timer.spent(Bucket::AttnRms), 10);
    assert_eq!(timer.spent(Bucket::QkvMatmul), 30);
    assert_eq!(timer.spent(Bucket::QkvBias), 10 * biases);
    assert_eq!(timer.spent(Bucket::Rope), 15);
    assert_eq!(timer.spent(Bucket::KvAppend), 10);
    assert_eq!(timer.spent(Bucket::Attention), u64::MAX - 2);
    assert_eq!(timer.spent(Bucket::WoMatmul), 10);
    assert_eq!(timer.spent(Bucket::GateUpMatmul), 20);
    assert_eq!(timer.spent(Bucket::DownMatmul), 10);
    assert_eq!(timer.spent(Bucket::Embed), 0);
    assert_eq!(timer.spent(Bucket::LmHeadMatmul), 0);
}

/// The attention of one head on known numbers.
#[test]
fn attention_weighs_the_values() {
    let cfg = LayerConfig { hidden: 2, n_heads: 1, n_kv_heads: 1, head_dim: 2, ..toy_cfg() };
    let layer = random_weights(&cfg, 1);
    let n = numerics(&layer, &cfg, multiply);
    // The second query agrees equally with both keys.
    let q = [1.0, 0.0, 0.0, 0.0];
    let k = [5.0, 5.0, -5.0, 2.0];
    let v = [2.0, 4.0, 6.0, 0.0];
    let out = n.multi_head_attention(&q, &k, &v, 2, &cfg);
    assert_eq!(out, vec![2.0, 4.0, 4.0, 2.0]);
    assert_eq!(n.attend(&cfg, &q[2..], &k, &v, 1, 1), vec![4.0, 2.0]);
}

#[test]
fn a_bias_is_added_to_each_row() {
    let cfg = toy_cfg();
    let mut layer = random_weights(&cfg, 5);
    let x = vec![0.2f32; cfg.hidden];
    let plain = forward_layer(&x, 1, &layer, &[0], &cfg);
    layer.b_q = Some(vec![1.0f32.to_bits(); cfg.q_dim()]);
    // One token attends to itself alone, whatever its query.
    assert_eq!(forward_layer(&x, 1, &layer, &[0], &cfg), plain);
    layer.b_v = Some(vec![1.0f32.to_bits(); cfg.kv_dim()]);
    assert_ne!(forward_layer(&x, 1, &layer, &[0], &cfg), plain);
}

// ----- places ----------------------------------------------------------------

#[test]
fn queries_see_what_came_before() {
    let cfg = LayerConfig {
        hidden: 8,
        n_heads: 4,
        n_kv_heads: 2,
        head_dim: 3,
        ffn_hidden: 1,
        rms_norm_eps: 0,
        rope_base: 0,
    };
    let rows = attention_rows(&cfg, 5, 2);
    let got: Vec<(usize, usize, usize)> =
        rows.iter().map(|r| (r.at, r.visible, r.kv_head_at)).collect();
    let want = vec![
        (0, 6, 0),
        (3, 6, 0),
        (6, 6, 3),
        (9, 6, 3),
        (12, 7, 0),
        (15, 7, 0),
        (18, 7, 3),
        (21, 7, 3),
    ];
    assert_eq!(got, want);
    assert_eq!(rows[6].key_at(&cfg, 0), 3);
    assert_eq!(rows[6].key_at(&cfg, 6), 39);
    // Decoded alone, the last token sees the same.
    let one = attention_rows(&cfg, 6, 1);
    for (a, b) in one.iter().zip(&rows[4..]) {
        assert_eq!((a.at + 12, a.visible, a.kv_head_at), (b.at, b.visible, b.kv_head_at));
    }
    assert!(attention_rows(&cfg, 5, 0).is_empty());
}

#[test]
fn every_element_is_rotated_once() {
    let pairs = rope_pairs(2, 3, 4);
    assert_eq!(pairs.len(), 12);
    assert_eq!((pairs[0].first, pairs[0].second, pairs[0].turn), (0, 2, 0));
    assert_eq!((pairs[3].first, pairs[3].second, pairs[3].turn), (5, 7, 1));
    assert_eq!((pairs[11].first, pairs[11].second, pairs[11].turn), (21, 23, 3));
    let mut seen = vec![0; 24];
    for p in &pairs {
        seen[p.first] += 1;
        seen[p.second] += 1;
    }
    assert_eq!(seen, vec![1; 24]);
    assert!(rope_pairs(2, 3, 0).is_empty());
}

#[test]
fn products_go_where_they_belong() {
    assert_eq!(route(Weight::Down), Some((Buffer::Gate, Buffer::FfnOut)));
    assert_eq!(route(Weight::O), Some((Buffer::Attn, Buffer::AttnOut)));
    assert_eq!(route(Weight::LmHead), None);
    let layer = random_weights(&toy_cfg(), 3);
    assert!(weight_of(&layer, Weight::LmHead).is_none());
    assert_eq!(weight_of(&layer, Weight::K).unwrap().nelem(), 32);
    assert_eq!(weight_of(&layer, Weight::Down).unwrap().nelem(), 128);
}

// ----- rotation --------------------------------------------------------------

#[test]
fn rope_at_position_zero_is_identity() {
    // 1 seq, 1 head, head_dim 4.
    let mut x = vec![1.0, 2.0, 3.0, 4.0];
    let original = x.clone();
    rope_in_place(&mut x, &[0], 1, 4, 10000.0);
    for (g, w) in x.iter().zip(original.iter()) {
        assert!(approx_eq(*g, *w, 1e-6));
    }
}

#[test]
fn rope_explicit_rotation_two_dim_head() {
    let a = 1.0f32;
    let b = 2.0f32;
    let mut x = vec![a, b];
    rope_in_place(&mut x, &[1], 1, 2, 10000.0);
    let (s, c) = 1.0f32.sin_cos();
    assert!(approx_eq(x[0], a * c - b * s, 1e-5));
    assert!(approx_eq(x[1], a * s + b * c, 1e-5));
}

/// Rotation preserves the L2 norm of each (lower, upper) pair.
#[test]
fn rope_preserves_pair_norm() {
    // 1 seq, 1 head, head_dim 8: 4 pairs.
    let head_dim = 8;
    let mut x: Vec<f32> = (0..head_dim).map(|i| (i as f32) * 0.5 - 1.0).collect();
    let original = x.clone();
    rope_in_place(&mut x, &[5], 1, head_dim, 10000.0);
    let half = head_dim / 2;
    for i in 0..half {
        let a0 = original[i];
        let b0 = original[i + half];
        let a1 = x[i];
        let b1 = x[i + half];
        let n0 = a0 * a0 + b0 * b0;
        let n1 = a1 * a1 + b1 * b1;
        assert!(approx_eq(n0, n1, 1e-4), "pair {}: norm changed {} -> {}", i, n0, n1);
    }
}

// ----- generation ------------------------------------------------------------

fn toy_model(seed: u64, vocab: usize, n_layers: usize) -> Model {
    let layer_cfg = toy_cfg();
    let mut s = seed | 1;
    let mut next = || -> u32 {
        s ^= s << 13;
        s ^= s >> 7;
        s ^= s << 17;
        ((s as i32 as f32) * 1e-10).to_bits()
    };
    let h = layer_cfg.hidden;
    Model {
        token_embeddings: (0..vocab * h).map(|_| next()).collect(),
        layers: (0..n_layers).map(|i| random_weights(&layer_cfg, seed + i as u64)).collect(),
        final_norm_w: vec![1.0f32.to_bits(); h],
        lm_head_w: WeightStorage::F32((0..vocab * h).map(|_| next()).collect()),
        config: ModelConfig {
            layer: layer_cfg,
            vocab_size: vocab,
            n_layers,
            max_seq: 32,
            eos_token_id: None,
        },
    }
}

#[test]
fn generate_produces_expected_length() {
    let model = toy_model(31, 64, 2);
    let out = generate_greedy(&model, &[5, 10, 15], 7);
    assert_eq!(out.len(), 7);
    for &t in &out {
        assert!((t as usize) < model.config.vocab_size);
    }
}

#[test]
fn generate_is_deterministic() {
    let model = toy_model(73, 64, 2);
    let a = generate_greedy(&model, &[1, 2, 3], 8);
    let b = generate_greedy(&model, &[1, 2, 3], 8);
    assert_eq!(a, b);
}

/// The generated sequence varies when the prompt varies.
#[test]
fn generate_responds_to_prompt() {
    let model = toy_model(101, 64, 2);
    let a = generate_greedy(&model, &[5], 5);
    let b = generate_greedy(&model, &[42], 5);
    assert_ne!(a, b);
}

#[test]
fn eos_stops_generation_early() {
    let mut model = toy_model(7, 64, 2);
    // Probe which token would come first for prompt = [0]; force it as EOS.
    let probe = generate_greedy(&model, &[0], 1);
    model.config.eos_token_id = Some(probe[0]);
    let out = generate_greedy(&model, &[0], 20);
    // Stops at the first generated token (the one that equals EOS).
    assert_eq!(out.len(), 1);
    assert_eq!(out[0], probe[0]);
}

/// The logits choose what is fed next, and each layer has a cache of its own.
#[test]
fn generation_feeds_the_model_token_by_token() {
    let model = toy_model(19, 64, 2);
    let r = runner(&model, multiply);
    let prompt = [3u32, 1, 4];
    let mut cache = KvCache::new(2, 8, model.config.layer.kv_dim());
    let mut logits = Vec::new();
    for (i, t) in prompt.iter().enumerate() {
        logits = r.forward_decode(*t, i as u32, &mut cache);
    }
    assert_eq!(logits.len(), 64);
    let mut want = Vec::new();
    for i in 0..4 {
        let t = argmax(&logits) as u32;
        want.push(t);
        logits = r.forward_decode(t, 3 + i, &mut cache);
    }
    assert_eq!(r.generate_greedy(&prompt, 4), want);
    assert_eq!(cache.layer_mut(0).len(), 7);
    assert_eq!(cache.layer_mut(1).len(), 7);
}

/// With kernels, and under the clock, the text is the same.
#[test]
fn every_way_of_generating_agrees() {
    let mut model = toy_model(23, 64, 2);
    let tick = Cell::new(0u64);
    let clock = || {
        tick.set(tick.get() + 1);
        tick.get()
    };
    let (plain, jit, timed, timer) = {
        let r = runner(&model, multiply);
        let plain = r.generate_greedy(&[2, 7], 5);
        let jit = r.generate_greedy_jit(&[2, 7], 5, true);
        let (timed, timer) = r.generate_greedy_jit_timed(&[2, 7], 5, true, &clock);
        (plain, jit, timed, timer)
    };
    assert_eq!(plain, jit);
    assert_eq!(plain, timed);
    // Seven tokens are fed, each through two layers.
    assert_eq!(timer.spent(Bucket::Embed), 7);
    assert_eq!(timer.spent(Bucket::QkvMatmul), 7 * 2 * 3);
    assert_eq!(timer.spent(Bucket::LmHeadMatmul), 7);

    // The end of the text is not fed.
    let stop = plain[1];
    let n = plain.iter().position(|t| *t == stop).unwrap() + 1;
    model.config.eos_token_id = Some(stop);
    let r = runner(&model, multiply);
    let (text, timer) = r.generate_greedy_jit_timed(&[2, 7], 5, true, &clock);
    assert_eq!(text, plain[..n].to_vec());
    assert_eq!(timer.spent(Bucket::Embed), 2 + n as u64 - 1);
}

/// A model that was transposed goes on as it did before, with products on the
/// transposed weights.
#[test]
fn a_transposed_model_generates_the_same_text() {
    let plain = runner(&toy_model(29, 64, 2), multiply).generate_greedy(&[6, 1], 6);
    let mut model = toy_model(29, 64, 2);
    model.transpose_for_jit();
    let r = runner(&model, multiply_transposed);
    assert_eq!(r.generate_greedy_jit(&[6, 1], 6, false), plain);
    assert_eq!(r.generate_greedy_jit(&[6, 1], 6, true), plain);
}

/// To ask for fewer tokens is to get the start of the same text, and every token
/// is one of the vocabulary.
#[test]
fn fewer_tokens_are_the_start_of_the_text() {
    let model = toy_model(53, 64, 2);
    let all = generate_greedy(&model, &[4, 2], 8);
    assert_eq!(all.len(), 8);
    assert!(all.iter().all(|t| (*t as usize) < 64));
    for n in 0..8 {
        assert_eq!(generate_greedy(&model, &[4, 2], n), all[..n].to_vec());
    }
}

/// To generate some tokens and then some more is to generate them at once.
#[test]
fn a_text_goes_on_where_it_was_left() {
    let model = toy_model(47, 64, 2);
    let all = generate_greedy(&model, &[9, 8], 6);
    let some = generate_greedy(&model, &[9, 8], 2);
    assert_eq!(some, all[..2].to_vec());
    let more = generate_greedy(&model, &[9, 8, some[0], some[1]], 4);
    assert_eq!(more, all[2..].to_vec());
}

// ----- models in files -------------------------------------------------------

fn f32_weight(w: &WeightStorage) -> &Vec<u32> {
    match w {
        WeightStorage::F32(v) => v,
        WeightStorage::Q8(_) => panic!("quantized"),
    }
}

fn w_string(buf: &mut Vec<u8>, s: &str) {
    buf.extend_from_slice(&(s.len() as u64).to_le_bytes());
    buf.extend_from_slice(s.as_bytes());
}

fn w_kv_u32(buf: &mut Vec<u8>, key: &str, v: u32) {
    w_string(buf, key);
    buf.extend_from_slice(&(KvType::U32 as u32).to_le_bytes());
    buf.extend_from_slice(&v.to_le_bytes());
}

fn w_kv_f32(buf: &mut Vec<u8>, key: &str, v: f32) {
    w_string(buf, key);
    buf.extend_from_slice(&(KvType::F32 as u32).to_le_bytes());
    buf.extend_from_slice(&v.to_le_bytes());
}

fn w_kv_string(buf: &mut Vec<u8>, key: &str, v: &str) {
    w_string(buf, key);
    buf.extend_from_slice(&(KvType::String as u32).to_le_bytes());
    w_string(buf, v);
}

fn w_tensor_info(buf: &mut Vec<u8>, name: &str, dtype: GgmlType, dims: &[u64], offset: u64) {
    w_string(buf, name);
    buf.extend_from_slice(&(dims.len() as u32).to_le_bytes());
    for d in dims {
        buf.extend_from_slice(&d.to_le_bytes());
    }
    buf.extend_from_slice(&dtype.tag().to_le_bytes());
    buf.extend_from_slice(&offset.to_le_bytes());
}

/// Serialize a small F32 model into a GGUF buffer.
fn write_toy_gguf(arch: &str, model: &Model, with_output: bool) -> Vec<u8> {
    let cfg = &model.config;
    let lcfg = &cfg.layer;
    let h = lcfg.hidden as u64;
    let qd = (lcfg.n_heads * lcfg.head_dim) as u64;
    let kvd = (lcfg.n_kv_heads * lcfg.head_dim) as u64;
    let ff = lcfg.ffn_hidden as u64;
    let vocab = cfg.vocab_size as u64;

    // The tensors in a stable order with their shapes and contents.
    let mut tensors: Vec<(String, Vec<u64>, Vec<u32>)> = Vec::new();
    tensors.push(("token_embd.weight".into(), vec![h, vocab], model.token_embeddings.clone()));
    tensors.push(("output_norm.weight".into(), vec![h], model.final_norm_w.clone()));
    if with_output {
        let out = f32_weight(&model.lm_head_w).clone();
        tensors.push(("output.weight".into(), vec![h, vocab], out));
    }
    for (i, layer) in model.layers.iter().enumerate() {
        let p = format!("blk.{}", i);
        let mut add = |name: &str, dims: Vec<u64>, v: &Vec<u32>| {
            tensors.push((format!("{}.{}", p, name), dims, v.clone()));
        };
        add("attn_norm.weight", vec![h], &layer.attn_norm_w);
        add("attn_q.weight", vec![h, qd], f32_weight(&layer.wq));
        add("attn_k.weight", vec![h, kvd], f32_weight(&layer.wk));
        add("attn_v.weight", vec![h, kvd], f32_weight(&layer.wv));
        add("attn_output.weight", vec![qd, h], f32_weight(&layer.wo));
        add("ffn_norm.weight", vec![h], &layer.ffn_norm_w);
        add("ffn_gate.weight", vec![h, ff], f32_weight(&layer.w_gate));
        add("ffn_up.weight", vec![h, ff], f32_weight(&layer.w_up));
        add("ffn_down.weight", vec![ff, h], f32_weight(&layer.w_down));
        if let Some(b) = &layer.b_q {
            add("attn_q.bias", vec![qd], b);
        }
    }

    let mut buf = Vec::new();
    buf.extend_from_slice(b"GGUF");
    buf.extend_from_slice(&3u32.to_le_bytes()); // version
    buf.extend_from_slice(&(tensors.len() as u64).to_le_bytes()); // n_tensors
    buf.extend_from_slice(&9u64.to_le_bytes()); // n_kv

    w_kv_u32(&mut buf, "general.alignment", 32);
    w_kv_string(&mut buf, "general.architecture", arch);
    w_kv_u32(&mut buf, &format!("{}.embedding_length", arch), lcfg.hidden as u32);
    w_kv_u32(&mut buf, &format!("{}.block_count", arch), cfg.n_layers as u32);
    w_kv_u32(&mut buf, &format!("{}.attention.head_count", arch), lcfg.n_heads as u32);
    w_kv_u32(&mut buf, &format!("{}.attention.head_count_kv", arch), lcfg.n_kv_heads as u32);
    w_kv_u32(&mut buf, &format!("{}.feed_forward_length", arch), lcfg.ffn_hidden as u32);
    w_kv_u32(&mut buf, &format!("{}.context_length", arch), cfg.max_seq as u32);
    w_kv_f32(
        &mut buf,
        &format!("{}.attention.layer_norm_rms_epsilon", arch),
        f32::from_bits(lcfg.rms_norm_eps),
    );

    // Offsets are assigned one after the other in the data section.
    let mut running: u64 = 0;
    for (name, dims, payload) in &tensors {
        w_tensor_info(&mut buf, name, GgmlType::F32, dims, running);
        running += (payload.len() * 4) as u64;
    }

    // Pad to alignment 32.
    let pad = (32 - (buf.len() % 32)) % 32;
    buf.resize(buf.len() + pad, 0);
    for (_, _, payload) in &tensors {
        for v in payload {
            buf.extend_from_slice(&v.to_le_bytes());
        }
    }
    buf
}

fn small_random_model(seed: u64) -> Model {
    let mut s = seed | 1;
    let mut next = || -> u32 {
        s ^= s << 13;
        s ^= s >> 7;
        s ^= s << 17;
        ((s as i32 as f32) * 1e-10).to_bits()
    };
    let lcfg = LayerConfig {
        hidden: 8,
        n_heads: 2,
        n_kv_heads: 1,
        head_dim: 4,
        ffn_hidden: 16,
        rms_norm_eps: 1e-5f32.to_bits(),
        rope_base: 10000.0f32.to_bits(),
    };
    let (vocab, n_layers) = (32, 2);
    let h = lcfg.hidden;
    let qd = 8;
    let kvd = 4;
    let ff = lcfg.ffn_hidden;
    let mut mk = |n: usize| -> Vec<u32> { (0..n).map(|_| next()).collect() };
    let ones = vec![1.0f32.to_bits(); h];
    let mut layers = Vec::new();
    for _ in 0..n_layers {
        layers.push(LayerWeights {
            attn_norm_w: ones.clone(),
            wq: WeightStorage::F32(mk(qd * h)),
            wk: WeightStorage::F32(mk(kvd * h)),
            wv: WeightStorage::F32(mk(kvd * h)),
            wo: WeightStorage::F32(mk(h * qd)),
            ffn_norm_w: ones.clone(),
            w_gate: WeightStorage::F32(mk(ff * h)),
            w_up: WeightStorage::F32(mk(ff * h)),
            w_down: WeightStorage::F32(mk(h * ff)),
            b_q: None,
            b_k: None,
            b_v: None,
        });
    }
    Model {
        token_embeddings: mk(vocab * h),
        layers,
        final_norm_w: ones,
        lm_head_w: WeightStorage::F32(mk(vocab * h)),
        config: ModelConfig {
            layer: lcfg,
            vocab_size: vocab,
            n_layers,
            max_seq: 32,
            eos_token_id: None,
        },
    }
}

/// What a model file holds is what is loaded, bit for bit.
#[test]
fn random_model_round_trips_via_gguf_and_generates_same_tokens() {
    let arch = "lumen.toy";
    let original = small_random_model(2026);

    let bytes = write_toy_gguf(arch, &original, true);
    let file = GgufFile::from_bytes(bytes).expect("parse gguf");

    let parsed_cfg = config_from_gguf(&file, arch).expect("config");
    assert_eq!(parsed_cfg.hidden(), original.config.hidden());
    assert_eq!(parsed_cfg.n_layers, original.config.n_layers);
    assert_eq!(parsed_cfg.vocab_size, original.config.vocab_size);
    assert_eq!(parsed_cfg.layer.head_dim, 4);
    assert_eq!(f32::from_bits(parsed_cfg.layer.rms_norm_eps), 1e-5);
    assert_eq!(f32::from_bits(parsed_cfg.layer.rope_base), 10000.0);

    let loaded = model_from_gguf(&file, arch).expect("model");

    // Everything round-trips bit-exact for f32.
    assert_eq!(loaded.token_embeddings, original.token_embeddings);
    assert_eq!(loaded.layers.len(), original.layers.len());
    assert_eq!(f32_weight(&loaded.lm_head_w), f32_weight(&original.lm_head_w));
    for (a, b) in loaded.layers.iter().zip(original.layers.iter()) {
        assert_eq!(f32_weight(&a.wq), f32_weight(&b.wq));
        assert_eq!(f32_weight(&a.wk), f32_weight(&b.wk));
        assert_eq!(f32_weight(&a.wv), f32_weight(&b.wv));
        assert_eq!(f32_weight(&a.wo), f32_weight(&b.wo));
        assert_eq!(f32_weight(&a.w_gate), f32_weight(&b.w_gate));
        assert_eq!(f32_weight(&a.w_up), f32_weight(&b.w_up));
        assert_eq!(f32_weight(&a.w_down), f32_weight(&b.w_down));
        assert_eq!(a.attn_norm_w, b.attn_norm_w);
        assert!(a.b_q.is_none());
    }
    assert_eq!(loaded.embed_token(3), original.token_embeddings[24..32]);

    // Generate from both: they agree.
    let prompt = [3u32, 7, 12];
    let a = generate_greedy(&original, &prompt, 5);
    let b = generate_greedy(&loaded, &prompt, 5);
    assert_eq!(a, b, "the file changed the generated sequence");
}

#[test]
fn without_an_output_tensor_the_embedding_is_used() {
    let mut original = small_random_model(7);
    original.layers[1].b_q = Some(vec![1.5f32.to_bits(); 8]);
    let file = GgufFile::from_bytes(write_toy_gguf("toy", &original, false)).unwrap();
    let loaded = model_from_gguf(&file, "toy").expect("model");
    assert_eq!(f32_weight(&loaded.lm_head_w), &original.token_embeddings);
    assert_eq!(loaded.layers[0].b_q, None);
    assert_eq!(loaded.layers[1].b_q, original.layers[1].b_q);
}
