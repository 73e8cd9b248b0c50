//! Reading of GGUF files.

use lumen::model::gguf::TensorInfo;
use lumen::model::{GgmlType, GgufError, GgufFile, KvType, KvValue};

/// Build a minimal valid GGUF v3 buffer by hand for round-trip testing.
fn build_toy_gguf() -> Vec<u8> {
    let mut buf = Vec::new();
    buf.extend_from_slice(b"GGUF");
    buf.extend_from_slice(&3u32.to_le_bytes()); // version
    buf.extend_from_slice(&1u64.to_le_bytes()); // n_tensors
    buf.extend_from_slice(&2u64.to_le_bytes()); // n_kv

    // KV 1: "general.architecture" → "lumen.test"
    write_string(&mut buf, "general.architecture");
    buf.extend_from_slice(&(KvType::String as u32).to_le_bytes());
    write_string(&mut buf, "lumen.test");

    // KV 2: "general.alignment" → u32 32
    write_string(&mut buf, "general.alignment");
    buf.extend_from_slice(&(KvType::U32 as u32).to_le_bytes());
    buf.extend_from_slice(&32u32.to_le_bytes());

    // Tensor info: "weight" shape=[4, 8] dtype=F32 offset=0
    write_string(&mut buf, "weight");
    buf.extend_from_slice(&2u32.to_le_bytes()); // n_dims
    buf.extend_from_slice(&4u64.to_le_bytes()); // dim 0
    buf.extend_from_slice(&8u64.to_le_bytes()); // dim 1
    buf.extend_from_slice(&GgmlType::F32.tag().to_le_bytes());
    buf.extend_from_slice(&0u64.to_le_bytes()); // offset

    // Pad to alignment 32.
    let pad = (32 - (buf.len() % 32)) % 32;
    buf.resize(buf.len() + pad, 0);

    // Tensor data: 4 × 8 = 32 floats.
    for i in 0..32u32 {
        buf.extend_from_slice(&(i as f32).to_le_bytes());
    }
    buf
}

fn write_string(buf: &mut Vec<u8>, s: &str) {
    let bytes = s.as_bytes();
    buf.extend_from_slice(&(bytes.len() as u64).to_le_bytes());
    buf.extend_from_slice(bytes);
}

#[test]
fn parses_toy_header_and_metadata() {
    let buf = build_toy_gguf();
    let f = GgufFile::from_bytes(buf).expect("parse");
    assert_eq!(f.tensors().len(), 1);
    assert_eq!(f.alignment(), 32);
    let arch = f.metadata().get("general.architecture");
    assert!(matches!(arch, Some(KvValue::String(s)) if s == "lumen.test"));
}

#[test]
fn tensor_metadata_is_correct() {
    let buf = build_toy_gguf();
    let f = GgufFile::from_bytes(buf).expect("parse");
    let info = f.tensor("weight").expect("weight");
    assert_eq!(info.dims, vec![4, 8]);
    assert_eq!(info.dtype, GgmlType::F32);
    assert_eq!(info.byte_size(), 4 * 8 * 4);
}

#[test]
fn tensor_data_round_trip() {
    let buf = build_toy_gguf();
    let f = GgufFile::from_bytes(buf).expect("parse");
    let data = f.tensor_data("weight").expect("data");
    assert_eq!(data.len(), 32 * 4);
    for (i, chunk) in data.chunks_exact(4).enumerate() {
        let v = f32::from_le_bytes(chunk.try_into().unwrap());
        assert_eq!(v, i as f32);
    }
}

#[test]
fn rejects_bad_magic() {
    let mut buf = build_toy_gguf();
    buf[0] = b'X';
    let err = GgufFile::from_bytes(buf).unwrap_err();
    assert!(matches!(err, GgufError::BadMagic(_)));
}

#[test]
fn rejects_wrong_version() {
    let buf = build_toy_gguf();
    let mut buf = buf;
    buf[4..8].copy_from_slice(&99u32.to_le_bytes());
    let err = GgufFile::from_bytes(buf).unwrap_err();
    assert!(matches!(err, GgufError::UnsupportedVersion(99)));
}

fn header(n_tensors: u64, n_kv: u64) -> Vec<u8> {
    let mut buf = Vec::new();
    buf.extend_from_slice(b"GGUF");
    buf.extend_from_slice(&3u32.to_le_bytes());
    buf.extend_from_slice(&n_tensors.to_le_bytes());
    buf.extend_from_slice(&n_kv.to_le_bytes());
    buf
}

#[test]
fn every_prefix_of_a_header_is_truncated() {
    let buf = build_toy_gguf();
    for n in 0..24 {
        let err = GgufFile::from_bytes(buf[..n].to_vec()).unwrap_err();
        assert!(matches!(err, GgufError::Truncated { .. }), "{}", n);
    }
    let err = GgufFile::from_bytes(buf[..2].to_vec()).unwrap_err();
    assert_eq!(err.message(), "truncated file: needed 4 bytes at offset 0, got 2");
}

#[test]
fn rejects_bad_type_tags() {
    let mut buf = header(0, 1);
    write_string(&mut buf, "k");
    buf.extend_from_slice(&13u32.to_le_bytes());
    let err = GgufFile::from_bytes(buf).unwrap_err();
    assert_eq!(err.message(), "bad KV type tag 13");

    let mut buf = header(1, 0);
    write_string(&mut buf, "w");
    buf.extend_from_slice(&1u32.to_le_bytes());
    buf.extend_from_slice(&1u64.to_le_bytes());
    buf.extend_from_slice(&99u32.to_le_bytes());
    buf.extend_from_slice(&0u64.to_le_bytes());
    let err = GgufFile::from_bytes(buf).unwrap_err();
    assert_eq!(err.message(), "unsupported tensor type tag 99");
}

#[test]
fn rejects_an_array_of_arrays() {
    for n in [0u64, 1] {
        let mut buf = header(0, 1);
        write_string(&mut buf, "k");
        buf.extend_from_slice(&9u32.to_le_bytes());
        buf.extend_from_slice(&9u32.to_le_bytes());
        buf.extend_from_slice(&n.to_le_bytes());
        buf.extend_from_slice(&[0; 64]);
        let err = GgufFile::from_bytes(buf).unwrap_err();
        assert!(matches!(err, GgufError::BadKvType(9)), "{}", n);
    }
}

#[test]
fn storage_units_have_their_sizes() {
    let sizes = [
        (GgmlType::F32, 4, 1),
        (GgmlType::F16, 2, 1),
        (GgmlType::Q4_0, 18, 32),
        (GgmlType::Q4_1, 20, 32),
        (GgmlType::Q5_0, 22, 32),
        (GgmlType::Q5_1, 24, 32),
        (GgmlType::Q8_0, 34, 32),
        (GgmlType::Q8_1, 36, 32),
    ];
    for (t, bytes, elements) in sizes {
        assert_eq!((t.type_size(), t.block_size()), (bytes, elements), "{:?}", t);
        let info = TensorInfo { name: "w".to_string(), dims: vec![64, 3], dtype: t, offset: 0 };
        assert_eq!(info.byte_size(), 192 * bytes / elements);
    }
}

#[test]
fn rejects_a_string_that_is_not_utf8() {
    let mut buf = header(0, 1);
    buf.extend_from_slice(&1u64.to_le_bytes());
    buf.push(0xFF);
    buf.extend_from_slice(&[0; 16]);
    let err = GgufFile::from_bytes(buf).unwrap_err();
    assert!(matches!(err, GgufError::BadString(_)));
}

#[test]
fn rejects_an_alignment_of_zero() {
    let mut buf = header(0, 1);
    write_string(&mut buf, "general.alignment");
    buf.extend_from_slice(&(KvType::U32 as u32).to_le_bytes());
    buf.extend_from_slice(&0u32.to_le_bytes());
    let err = GgufFile::from_bytes(buf).unwrap_err();
    assert!(matches!(err, GgufError::BadAlignment));
}

#[test]
fn what_is_missing_is_named() {
    let f = GgufFile::from_bytes(build_toy_gguf()).expect("parse");
    assert_eq!(f.tensor_data("v").unwrap_err().message(), "tensor `v` not found");
    assert_eq!(f.metadata_string_array("k").unwrap_err().message(), "metadata key `k` not found");
    let err = f.metadata_string_array("general.alignment").unwrap_err();
    assert!(matches!(err, GgufError::WrongKvKind { expected: KvType::Array, .. }));

    // The data section is cut short.
    let mut buf = build_toy_gguf();
    buf.truncate(buf.len() - 1);
    let f = GgufFile::from_bytes(buf).expect("parse");
    assert!(matches!(f.tensor_data("weight"), Err(GgufError::Truncated { .. })));
}

#[test]
fn a_repeated_key_keeps_its_place_and_takes_the_last_value() {
    let mut buf = Vec::new();
    buf.extend_from_slice(b"GGUF");
    buf.extend_from_slice(&3u32.to_le_bytes());
    buf.extend_from_slice(&0u64.to_le_bytes());
    buf.extend_from_slice(&3u64.to_le_bytes());
    for (key, v) in [("a", 1u32), ("b", 2), ("a", 3)] {
        write_string(&mut buf, key);
        buf.extend_from_slice(&(KvType::U32 as u32).to_le_bytes());
        buf.extend_from_slice(&v.to_le_bytes());
    }
    buf.resize(buf.len() + 32 - buf.len() % 32, 0);
    let f = GgufFile::from_bytes(buf).expect("parse");
    let entries = f.metadata().entries();
    let keys: Vec<&str> = entries.iter().map(|(k, _)| k.as_str()).collect();
    assert_eq!(keys, vec!["a", "b"]);
    assert!(matches!(entries[0].1, KvValue::U32(3)));
    assert!(matches!(f.metadata().get("a"), Some(KvValue::U32(3))));
    assert!(f.metadata().get("c").is_none());
}
