//! Tensors out of GGUF files, and listings of files.

use lumen::model::inspect::{inspect, sorted_positions};
use lumen::model::loader::tensor_to_f32;
use lumen::model::{config_from_gguf, GgmlType, GgufError, GgufFile, KvType, KvValue};
use lumen::runtime::quant::{
    dequantize_q4_0, dequantize_q8_0, q8_from_bytes, q8_to_bytes, quantize_q8_0, BlockQ4_0,
    BlockQ8_0, QK,
};
use lumen::runtime::f32_to_f16_bits;

// ----- minimal GGUF writer ---------------------------------------------------

fn w_string(buf: &mut Vec<u8>, s: &str) {
    buf.extend_from_slice(&(s.len() as u64).to_le_bytes());
    buf.extend_from_slice(s.as_bytes());
}

fn w_kv_u32(buf: &mut Vec<u8>, key: &str, v: u32) {
    w_string(buf, key);
    buf.extend_from_slice(&(KvType::U32 as u32).to_le_bytes());
    buf.extend_from_slice(&v.to_le_bytes());
}

fn w_tensor_info(buf: &mut Vec<u8>, name: &str, dtype: GgmlType, dims: &[u64], offset: u64) {
    w_string(buf, name);
    buf.extend_from_slice(&(dims.len() as u32).to_le_bytes());
    for d in dims {
        buf.extend_from_slice(&d.to_le_bytes());
    }
    buf.extend_from_slice(&dtype.tag().to_le_bytes());
    buf.extend_from_slice(&offset.to_le_bytes());
}

fn write_single_tensor_gguf(name: &str, dtype: GgmlType, dims: &[u64], payload: &[u8]) -> Vec<u8> {
    let mut buf = Vec::new();
    buf.extend_from_slice(b"GGUF");
    buf.extend_from_slice(&3u32.to_le_bytes()); // version
    buf.extend_from_slice(&1u64.to_le_bytes()); // n_tensors
    buf.extend_from_slice(&1u64.to_le_bytes()); // n_kv

    w_kv_u32(&mut buf, "general.alignment", 32);
    w_tensor_info(&mut buf, name, dtype, dims, 0);

    // Pad to alignment 32
    let pad = (32 - (buf.len() % 32)) % 32;
    buf.resize(buf.len() + pad, 0);
    buf.extend_from_slice(payload);
    buf
}

fn floats(bits: &[u32]) -> Vec<f32> {
    bits.iter().map(|b| f32::from_bits(*b)).collect()
}

fn patterns(v: &[f32]) -> Vec<u32> {
    v.iter().map(|x| x.to_bits()).collect()
}

// ----- tensors ---------------------------------------------------------------

#[test]
fn round_trip_gguf_q8_tensor() {
    // 128 elements = 4 Q8_0 blocks. Shape [4, 32].
    let n_elems = 128usize;
    let src: Vec<f32> = (0..n_elems)
        .map(|i| ((i % 17) as f32) * 0.05 - 0.5)
        .collect();
    let mut blocks = vec![BlockQ8_0 { d: 0, qs: [0; 32] }; n_elems / QK];
    quantize_q8_0(&patterns(&src), &mut blocks);

    let bytes = write_single_tensor_gguf(
        "blk.0.weight",
        GgmlType::Q8_0,
        &[4, 32],
        &q8_to_bytes(&blocks),
    );

    // Parse back.
    let file = GgufFile::from_bytes(bytes).expect("parse gguf");
    let info = file.tensor("blk.0.weight").expect("tensor info");
    assert_eq!(info.dtype, GgmlType::Q8_0);
    assert_eq!(info.dims, vec![4, 32]);
    assert_eq!(info.byte_size(), (n_elems as u64 / QK as u64) * 34);

    // Get raw tensor bytes and read them as Q8_0 blocks.
    let data = file.tensor_data("blk.0.weight").expect("tensor data");
    assert_eq!(data.len(), info.byte_size() as usize);
    let parsed_blocks = q8_from_bytes(data);

    // Dequantize both sides and compare.
    let mut got = vec![0u32; n_elems];
    dequantize_q8_0(&parsed_blocks, &mut got);
    let mut want = vec![0u32; n_elems];
    dequantize_q8_0(&blocks, &mut want);

    for (i, (g, w)) in floats(&got).iter().zip(floats(&want).iter()).enumerate() {
        assert!((g - w).abs() < 1e-6, "idx {}: parsed {} != original {}", i, g, w);
    }
}

#[test]
fn f16_tensor_round_trips_to_f32() {
    let original: Vec<f32> = (0..16).map(|i| ((i as f32) * 0.1) - 0.5).collect();
    let payload: Vec<u8> = original
        .iter()
        .flat_map(|&v| f32_to_f16_bits(v.to_bits()).to_le_bytes())
        .collect();
    let bytes = write_single_tensor_gguf("w", GgmlType::F16, &[16], &payload);
    let file = GgufFile::from_bytes(bytes).unwrap();
    let got = floats(&tensor_to_f32(&file, "w").unwrap());
    assert_eq!(got.len(), 16);
    for (g, w) in got.iter().zip(original.iter()) {
        // fp16 has ~3 decimal digits of precision.
        assert!((g - w).abs() < 1e-3, "fp16 round-trip diverged: {} vs {}", g, w);
    }
}

#[test]
fn q8_0_tensor_round_trips_via_loader_helper() {
    let original: Vec<f32> = (0..32).map(|i| ((i as f32) * 0.03) - 0.5).collect();
    let mut blocks = vec![BlockQ8_0 { d: 0, qs: [0; 32] }; 1];
    quantize_q8_0(&patterns(&original), &mut blocks);
    let payload = q8_to_bytes(&blocks);
    let bytes = write_single_tensor_gguf("w", GgmlType::Q8_0, &[32], &payload);
    let file = GgufFile::from_bytes(bytes).unwrap();
    let got = tensor_to_f32(&file, "w").unwrap();
    assert_eq!(got.len(), 32);
    // Same input: bit-identical to the direct call.
    let mut want = vec![0u32; 32];
    dequantize_q8_0(&blocks, &mut want);
    assert_eq!(got, want);
}

#[test]
fn q4_0_tensor_dequantizes_via_loader_helper() {
    let block = BlockQ4_0 {
        d: f32_to_f16_bits(0.25f32.to_bits()),
        qs: {
            // Each byte: low nibble in [0..16], high nibble in [0..16].
            // (n - 8) * 0.25 = decoded value.
            let mut q = [0u8; 16];
            for (i, slot) in q.iter_mut().enumerate() {
                let lo = (i as u8) & 0x0F;
                let hi = ((i as u8) + 1) & 0x0F;
                *slot = lo | (hi << 4);
            }
            q
        },
    };
    let mut payload: Vec<u8> = block.d.to_le_bytes().to_vec();
    payload.extend_from_slice(&block.qs);
    let bytes = write_single_tensor_gguf("w", GgmlType::Q4_0, &[32], &payload);
    let file = GgufFile::from_bytes(bytes).unwrap();
    let got = tensor_to_f32(&file, "w").unwrap();

    let mut want = vec![0u32; 32];
    dequantize_q4_0(std::slice::from_ref(&block), &mut want);
    assert_eq!(got, want);
    assert_eq!(floats(&got)[..3], [-2.0, -1.75, -1.5]);
}

#[test]
fn a_missing_tensor_is_an_error() {
    let bytes = write_single_tensor_gguf("w", GgmlType::F32, &[1], &[0; 4]);
    let file = GgufFile::from_bytes(bytes).unwrap();
    assert!(matches!(tensor_to_f32(&file, "v"), Err(GgufError::NoSuchTensor(n)) if n == "v"));
    assert!(config_from_gguf(&file, "llama").is_err());
}

// ----- listings --------------------------------------------------------------

#[test]
fn a_listing_shows_metadata_in_order_and_tensors() {
    let long = "x".repeat(81);
    let entries = vec![
        ("b".to_string(), KvValue::I64(i64::MIN)),
        ("a.z".to_string(), KvValue::F32(1.5f32.to_bits())),
        ("a".to_string(), KvValue::Bool(true)),
        ("c".to_string(), KvValue::String(long)),
        ("\u{D55C}".to_string(), KvValue::Array(KvType::U8, vec![1, 2, 3])),
        ("d".to_string(), KvValue::String("hi".to_string())),
        ("e".to_string(), KvValue::F64(1e-7f64.to_bits())),
    ];
    assert_eq!(sorted_positions(&entries), vec![2, 1, 0, 3, 5, 6, 4]);
    let bytes = write_single_tensor_gguf("w", GgmlType::Q8_0, &[2, 32], &[0; 68]);
    let file = GgufFile::from_bytes(bytes).unwrap();
    let text = inspect("m.gguf", 32, &entries, file.tensors());
    let want = format!(
        "=== m.gguf ===\nalignment: 32\ntensors:   1\nkv pairs:  7\n\n--- metadata ---\n  a = bool true\n  a.z = f32 1.5\n  b = i64 -9223372036854775808\n  c = string len=81 \"{}...\"\n  d = string \"hi\"\n  e = f64 0.0000001\n  \u{D55C} = array<U8> 3 bytes\n\n--- tensors ---\n  w{} Q8_0 [2, 32] -> 68 bytes\n",
        "x".repeat(77),
        " ".repeat(49)
    );
    assert_eq!(text, want);
}
