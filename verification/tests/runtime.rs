//! Generation, scheduling and bookkeeping.

use std::sync::Arc;

use lumen::ir::DType;
use lumen::jit::cache::{CacheKey, CodeCache};
use lumen::jit::{JitError, MatmulJitCache};
use lumen::runtime::dispatch::{
    chunk, q8_row_bytes, split_rows, use_vnni_for_matmul, RowSplit,
};
use lumen::runtime::forward::{
    bucket_of, choose_path, layer_steps, LayerKinds, LayerStep, Mode, Path,
};
use lumen::runtime::generate::{argmax, Generation, Step};
use lumen::runtime::model::{transpose_2d, LayerConfig};
use lumen::runtime::tensor::{Tensor, TensorBuffer};
use lumen::runtime::threadpool::{worker_count, ParallelLoop};
use lumen::runtime::timer::{Bucket, StepTimer};

fn bits(v: &[f32]) -> Vec<u32> {
    v.iter().map(|x| x.to_bits()).collect()
}

// ----- generation ------------------------------------------------------------

#[test]
fn argmax_is_the_first_greatest() {
    assert_eq!(argmax(&bits(&[1.0, 3.0, -5.0, 3.0])), 1);
    assert_eq!(argmax(&bits(&[-2.0, -1.0, -3.0])), 1);
    assert_eq!(argmax(&bits(&[0.0, -0.0])), 0);
    assert_eq!(argmax(&bits(&[-0.0, 0.0])), 0);
    assert_eq!(argmax(&bits(&[1.0, f32::NAN, 2.0])), 2);
    assert_eq!(argmax(&bits(&[f32::NAN, 2.0])), 0);
    assert_eq!(argmax(&bits(&[f32::NEG_INFINITY, f32::INFINITY])), 1);
}

/// A model whose next token is the sum of what was fed, modulo its vocabulary.
fn run(prompt: &[u32], max_new: usize, eos: Option<u32>) -> (Vec<u32>, Vec<(u32, u32)>) {
    let mut g = Generation::new(prompt.to_vec(), max_new, eos);
    let mut fed = Vec::new();
    let mut logits = vec![0u32; 10];
    let mut sum = 0;
    loop {
        match g.step(&logits) {
            Step::Feed { token, position } => {
                fed.push((token, position));
                sum += token;
                logits = vec![0; 10];
                logits[(sum % 10) as usize] = 1.0f32.to_bits();
            }
            Step::Done => break,
        }
    }
    assert_eq!(g.step(&logits), Step::Done);
    (g.tokens().to_vec(), fed)
}

#[test]
fn generation_feeds_the_prompt_and_then_its_own_tokens() {
    let (out, fed) = run(&[1, 2], 4, None);
    assert_eq!(out, vec![3, 6, 2, 4]);
    assert_eq!(fed, vec![(1, 0), (2, 1), (3, 2), (6, 3), (2, 4), (4, 5)]);
}

#[test]
fn generation_stops_at_the_end_token() {
    let (out, fed) = run(&[1, 2], 4, Some(6));
    assert_eq!(out, vec![3, 6]);
    assert_eq!(fed, vec![(1, 0), (2, 1), (3, 2)]);
    assert_eq!(run(&[1, 2], 4, Some(3)).0, vec![3]);
    assert_eq!(run(&[1, 2], 0, None).0, Vec::<u32>::new());
}

// ----- scheduling ------------------------------------------------------------

#[test]
fn every_task_is_claimed_once() {
    for round in 0..5 {
        let mut l = ParallelLoop::new(20, 3);
        let mut seen = vec![0; 20];
        while let Some(i) = l.claim() {
            seen[i] += 1;
        }
        assert_eq!(seen, vec![1; 20], "round {}", round);
        assert!(!l.report());
        assert!(!l.report());
        assert!(!l.is_over());
        assert!(l.report());
        assert!(l.is_over());
    }
    assert_eq!(ParallelLoop::new(0, 2).claim(), None);
}

/// Runs a loop to its end: the workers claim tasks in turn, and each reports
/// once it finds none left.
fn parallel_for(n_tasks: usize, n_workers: usize, mut f: impl FnMut(usize)) {
    let mut l = ParallelLoop::new(n_tasks, n_workers);
    let mut busy = n_workers;
    while !l.is_over() {
        match l.claim() {
            Some(i) => f(i),
            None => {
                busy -= 1;
                assert_eq!(l.report(), busy == 0);
            }
        }
    }
    assert_eq!(busy, 0);
}

#[test]
fn parallel_for_runs_every_task_exactly_once() {
    let mut counters = vec![0; 50];
    parallel_for(counters.len(), 4, |i| counters[i] += 1);
    for (i, c) in counters.iter().enumerate() {
        assert_eq!(*c, 1, "task {} ran wrong count", i);
    }
}

#[test]
fn parallel_for_zero_tasks_is_noop() {
    parallel_for(0, 2, |_| panic!("should not run"));
}

#[test]
fn parallel_for_can_run_back_to_back() {
    for round in 0..5 {
        let mut sum = 0;
        parallel_for(20, 3, |i| sum += i);
        assert_eq!(sum, (0..20).sum::<usize>(), "round {}", round);
    }
}

#[test]
fn workers_default_to_at_most_eight() {
    assert_eq!(worker_count(Some(3), 16), 3);
    assert_eq!(worker_count(Some(0), 4), 4);
    assert_eq!(worker_count(None, 16), 8);
    assert_eq!(worker_count(None, 2), 2);
}

#[test]
fn rows_are_split_without_gaps() {
    assert_eq!(split_rows(32, 8, 8), RowSplit::Serial);
    for (d_in, d_out, threads) in [(896, 4864, 8), (896, 151936, 8), (4864, 896, 3)] {
        match split_rows(d_in, d_out, threads) {
            RowSplit::Serial => panic!("({}, {}) is serial", d_in, d_out),
            RowSplit::Parallel { chunk_rows, n_chunks, last_rows } => {
                let mut next = 0;
                for i in 0..n_chunks {
                    let (start, rows) = chunk(d_out, chunk_rows, i);
                    assert_eq!(start, next);
                    assert_eq!(rows, if i + 1 == n_chunks { last_rows } else { chunk_rows });
                    next += rows;
                }
                assert_eq!(next, d_out);
            }
        }
    }
    assert_eq!(q8_row_bytes(896), 28 * 34);
}

#[test]
fn vnni_is_for_short_rows() {
    assert!(use_vnni_for_matmul(true, 2048));
    assert!(!use_vnni_for_matmul(true, 2080));
    assert!(!use_vnni_for_matmul(false, 32));
}

#[test]
fn the_plan_of_a_layer() {
    let cfg = LayerConfig {
        hidden: 64,
        n_heads: 4,
        n_kv_heads: 2,
        head_dim: 16,
        ffn_hidden: 128,
        rms_norm_eps: 0,
        rope_base: 0,
    };
    let kinds = LayerKinds {
        wq: true,
        wk: true,
        wv: true,
        wo: true,
        w_gate: true,
        w_up: true,
        w_down: false,
        b_q: true,
        b_k: false,
        b_v: false,
    };
    let prefill = layer_steps(&cfg, kinds, Mode::Prefill);
    assert_eq!(prefill[0], LayerStep::AttnNorm);
    assert_eq!(prefill.iter().filter(|s| matches!(s, LayerStep::AddBias(_))).count(), 1);
    let jit = layer_steps(&cfg, kinds, Mode::DecodeJit { has_vnni: false });
    let paths: Vec<Path> = jit
        .iter()
        .filter_map(|s| match s {
            LayerStep::Project(p) => Some(p.path),
            _ => None,
        })
        .collect();
    assert_eq!(paths.len(), 7);
    assert_eq!(paths[6], Path::F32Kernel);
    assert_eq!(choose_path(Mode::Decode, true, 64), Path::Naive);
    assert_eq!(bucket_of(LayerStep::AttnNorm), Bucket::AttnRms);
}

// ----- bookkeeping -----------------------------------------------------------

#[test]
fn times_are_summed_and_reported() {
    let mut t = StepTimer::new();
    t.add(Bucket::Rope, 1_500);
    t.add(Bucket::Embed, 2_000_000);
    t.add(Bucket::Rope, 500);
    assert_eq!(t.total(), 2_002_000);
    let rows = t.rows();
    assert_eq!(rows.len(), 16);
    assert_eq!((rows[0].name, rows[0].nanos), ("embed", 2_000_000));
    assert_eq!((rows[1].name, rows[1].nanos), ("layer/rope", 2_000));
    let shares = vec!["1.0".to_string(); 16];
    let report = t.report("decode", &shares);
    assert!(report.starts_with("decode (total 2.002ms):\n"), "{}", report);
    assert!(report.contains("                   embed         2ms    1.0%\n"), "{}", report);
}

#[test]
fn a_tensor_counts_its_elements() {
    let t = Tensor {
        buffer: Arc::new(TensorBuffer { bytes: vec![] }),
        dtype: DType::F32,
        shape: vec![2, 3, 4],
        stride: vec![12, 4, 1],
        offset: 0,
    };
    assert_eq!((t.numel(), t.rank()), (24, 3));
    assert_eq!(t.clone().numel(), 24);
}

#[test]
fn transposition_swaps_rows_and_columns() {
    let m = vec![1, 2, 3, 4, 5, 6];
    let once = transpose_2d(&m, 2, 3);
    assert_eq!(once, vec![1, 4, 2, 5, 3, 6]);
    assert_eq!(transpose_2d(&once, 3, 2), m);
}

#[test]
fn a_code_cache_returns_what_was_put() {
    let mut c = CodeCache::new();
    assert!(c.is_empty());
    let key = |ir_hash: u64| CacheKey { ir_hash, shape: vec![1, 2], backend: "x86_64" };
    c.insert(key(1), 7);
    assert!(!c.is_empty());
    assert_eq!(c.len(), 1);
    c.insert(key(2), 8);
    c.insert(key(1), 9);
    assert_eq!(c.len(), 2);
    assert_eq!(c.get(&key(1)), Some(9));
    assert_eq!(c.get(&key(2)), Some(8));
    assert_eq!(c.get(&key(3)), None);
}

#[test]
fn a_dimension_beyond_the_immediates_wraps() {
    let mut cache = MatmulJitCache::new();
    let region = cache.get_or_compile(0x8000_0001, 1, 1).expect("compile");
    // cmp r15, -0x7FFFFFFF
    let compare = [0x49, 0x81, 0xFF, 0x01, 0x00, 0x00, 0x80];
    assert!(region.bytes().windows(7).any(|w| w == compare));
}

#[test]
fn a_kernel_that_does_not_exist_is_an_error() {
    let mut cache = MatmulJitCache::new();
    match cache.get_or_compile_q8(4, 33, 1) {
        Ok(_) => panic!("compiled"),
        Err(e) => {
            assert!(matches!(e, JitError::Codegen(_)));
            assert!(!e.message().is_empty());
        }
    }
    assert_eq!(cache.q8_len(), 0);
    assert!(cache.is_empty());
}
