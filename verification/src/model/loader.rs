//! Build a [`Model`] from a parsed GGUF file.
//!
//! Tensor naming follows the ggml / llama.cpp convention:
//!
//! ```text
//!   token_embd.weight              [vocab, hidden]
//!   output_norm.weight             [hidden]
//!   output.weight                  [vocab, hidden]  (lm_head; may be tied)
//!   blk.{i}.attn_norm.weight       [hidden]
//!   blk.{i}.attn_q.weight          [q_dim,  hidden]
//!   blk.{i}.attn_k.weight          [kv_dim, hidden]
//!   blk.{i}.attn_v.weight          [kv_dim, hidden]
//!   blk.{i}.attn_output.weight     [hidden, q_dim]
//!   blk.{i}.ffn_norm.weight        [hidden]
//!   blk.{i}.ffn_gate.weight        [ffn_hidden, hidden]
//!   blk.{i}.ffn_up.weight          [ffn_hidden, hidden]
//!   blk.{i}.ffn_down.weight        [hidden, ffn_hidden]
//!   blk.{i}.attn_q.bias            [q_dim]   (optional)
//!   blk.{i}.attn_k.bias            [kv_dim]  (optional)
//!   blk.{i}.attn_v.bias            [kv_dim]  (optional)
//! ```
//!
//! Architecture metadata keys use a `{arch}.` prefix. F32, F16, Q8_0 and Q4_0
//! tensors are decoded to fp32; all weights are stored as fp32 patterns.

use crate::bytes::{
    i32_bits, le_bytes, le_value, lemma_le_value_of_le_bytes, lemma_pow256_values, read_le,
};
use crate::float_ops::{f16_bits_to_f32, f64_narrowed, f64_to_f32_bits, widened};
use crate::model::gguf::{
    dims_product, ggml_tag, last_tensor, last_value, payload_bytes, tensor_payload, Content,
    GgmlType, GgufError, GgufFault, GgufFile, KvType, KvValue, KvView, TensorView,
};
use crate::runtime::model::{LayerConfig, LayerWeights, Model, ModelConfig, WeightStorage};
use crate::runtime::quant::{
    byte_of, dequantize_q4_0, dequantize_q8_0, dequantized, high_nibble, low_nibble, q4_bytes,
    q4_element, q4_from_bytes, q8_bytes, q8_from_bytes, BlockQ4_0, BlockQ8_0,
};
use crate::text::{decimal, push_decimal, push_text};
use vstd::prelude::*;

verus! {

// ---- tensors ------------------------------------------------------------------------

/// A byte as a signed number, in two's complement.
pub open spec fn signed_byte(b: u8) -> int {
    if b < 128 {
        b as int
    } else {
        b - 256
    }
}

/// The fp16 scale at a position.
pub open spec fn scale_at(s: Seq<u8>, at: int) -> u16 {
    le_value(s.subrange(at, at + 2)) as u16
}

/// The numbers that the bytes of a tensor stand for, as fp32 patterns.
pub open spec fn decode(dtype: GgmlType, s: Seq<u8>) -> Result<Seq<u32>, GgufFault> {
    match dtype {
        GgmlType::F32 => Ok(
            Seq::new(s.len() / 4, |i: int| le_value(s.subrange(4 * i, 4 * i + 4)) as u32),
        ),
        GgmlType::F16 => Ok(Seq::new(s.len() / 2, |i: int| widened(scale_at(s, 2 * i)) as u32)),
        GgmlType::Q8_0 => Ok(
            Seq::new(
                s.len() / 34 * 32,
                |i: int|
                    dequantized(
                        signed_byte(s[34 * (i / 32) + 2 + i % 32]),
                        scale_at(s, 34 * (i / 32)),
                    ) as u32,
            ),
        ),
        GgmlType::Q4_0 => Ok(
            Seq::new(
                s.len() / 18 * 32,
                |i: int|
                    dequantized(
                        if i % 32 < 16 {
                            low_nibble(s[18 * (i / 32) + 2 + i % 32])
                        } else {
                            high_nibble(s[18 * (i / 32) + 2 + i % 32 - 16])
                        },
                        scale_at(s, 18 * (i / 32)),
                    ) as u32,
            ),
        ),
        other => Err(GgufFault::UnsupportedTensorType(ggml_tag(other))),
    }
}

/// The elements of a quantized tensor fill whole blocks, and can be counted.
pub open spec fn whole_blocks(t: TensorView) -> bool {
    (t.dtype is Q8_0 || t.dtype is Q4_0) ==> {
        &&& dims_product(t.dims) matches Some(n) && n % 32 == 0 && n <= usize::MAX
        &&& payload_bytes(t) is Some
    }
}

/// What can be wrong with reading tensors.
pub enum LoadFault {
    Fault(GgufFault),
    /// The elements of a quantized tensor do not fill whole blocks.
    Undefined,
}

/// Reading comes to something.
pub open spec fn defined<T>(r: Result<T, LoadFault>) -> bool {
    !(r matches Err(LoadFault::Undefined))
}

/// The numbers of a tensor of a file.
pub open spec fn tensor_numbers(raw: Seq<u8>, c: Content, name: Seq<char>) -> Result<
    Seq<u32>,
    LoadFault,
> {
    match last_tensor(c.tensors, name) {
        None => Err(LoadFault::Fault(GgufFault::NoSuchTensor(name))),
        Some(t) => match tensor_payload(raw, c.data_offset, t) {
            Err(e) => Err(LoadFault::Fault(e)),
            Ok(s) => if whole_blocks(t) {
                match decode(t.dtype, s) {
                    Ok(v) => Ok(v),
                    Err(e) => Err(LoadFault::Fault(e)),
                }
            } else {
                Err(LoadFault::Undefined)
            },
        },
    }
}

/// The payload of a tensor that fills whole blocks is whole blocks.
proof fn lemma_payload_blocks(t: TensorView)
    requires
        whole_blocks(t),
    ensures
        t.dtype is Q8_0 ==> payload_bytes(t)->0 % 34 == 0,
        t.dtype is Q4_0 ==> payload_bytes(t)->0 % 18 == 0 && payload_bytes(t)->0 / 18 * 32
            <= usize::MAX,
{
    if t.dtype is Q8_0 || t.dtype is Q4_0 {
        let n = dims_product(t.dims)->0;
        let q = n / 32;
        assert(n * 34 / 32 == q * 34);
        assert(n * 18 / 32 == q * 18);
    }
}

fn decode_f32(bytes: &[u8]) -> (out: Vec<u32>)
    ensures
        decode(GgmlType::F32, bytes@) == Ok::<Seq<u32>, GgufFault>(out@),
{
    let n: usize = bytes.len() / 4;
    let mut out: Vec<u32> = Vec::new();
    let mut i: usize = 0;
    while i < n
        invariant
            i <= n,
            n * 4 <= bytes@.len() <= usize::MAX,
            out@.len() == i,
            forall|j: int|
                0 <= j < i ==> #[trigger] out@[j] == le_value(
                    bytes@.subrange(4 * j, 4 * j + 4),
                ) as u32,
        decreases n - i,
    {
        let v: u64 = read_le(bytes, 4 * i, 4);
        proof {
            crate::bytes::lemma_le_bytes_of_le_value(bytes@.subrange(4 * i, 4 * i + 4));
            lemma_pow256_values();
        }
        out.push(v as u32);
        i = i + 1;
    }
    assert(out@ =~= decode(GgmlType::F32, bytes@)->Ok_0);
    out
}

fn decode_f16(bytes: &[u8]) -> (out: Vec<u32>)
    ensures
        decode(GgmlType::F16, bytes@) == Ok::<Seq<u32>, GgufFault>(out@),
{
    let n: usize = bytes.len() / 2;
    let mut out: Vec<u32> = Vec::new();
    let mut i: usize = 0;
    while i < n
        invariant
            i <= n,
            n * 2 <= bytes@.len() <= usize::MAX,
            out@.len() == i,
            forall|j: int|
                0 <= j < i ==> #[trigger] out@[j] == widened(scale_at(bytes@, 2 * j)) as u32,
        decreases n - i,
    {
        let v: u64 = read_le(bytes, 2 * i, 2);
        proof {
            crate::bytes::lemma_le_bytes_of_le_value(bytes@.subrange(2 * i, 2 * i + 2));
            lemma_pow256_values();
        }
        out.push(f16_bits_to_f32(v as u16));
        i = i + 1;
    }
    assert(out@ =~= decode(GgmlType::F16, bytes@)->Ok_0);
    out
}

fn zeros(n: usize) -> (out: Vec<u32>)
    ensures
        out@.len() == n,
{
    let mut out: Vec<u32> = Vec::new();
    let mut i: usize = 0;
    while i < n
        invariant
            i <= n,
            out@.len() == i,
        decreases n - i,
    {
        out.push(0);
        i = i + 1;
    }
    out
}

/// The scale and the values of a block, from its bytes.
proof fn lemma_q8_fields(b: BlockQ8_0, s: Seq<u8>, at: int)
    requires
        0 <= at,
        at + 34 <= s.len(),
        q8_bytes(b) == s.subrange(at, at + 34),
    ensures
        b.d == scale_at(s, at),
        forall|j: int| 0 <= j < 32 ==> #[trigger] b.qs@[j] as int == signed_byte(s[at + 2 + j]),
{
    let w = s.subrange(at, at + 34);
    crate::bytes::lemma_le_bytes_len(b.d as nat, 2);
    lemma_pow256_values();
    lemma_le_value_of_le_bytes(b.d as nat, 2);
    assert(q8_bytes(b).subrange(0, 2) =~= le_bytes(b.d as nat, 2));
    assert(w.subrange(0, 2) =~= s.subrange(at, at + 2));
    assert forall|j: int| 0 <= j < 32 implies #[trigger] b.qs@[j] as int == signed_byte(
        s[at + 2 + j],
    ) by {
        assert(q8_bytes(b)[2 + j] == byte_of(b.qs@[j]));
        assert(w[2 + j] == s[at + 2 + j]);
    }
}

proof fn lemma_q4_fields(b: BlockQ4_0, s: Seq<u8>, at: int)
    requires
        0 <= at,
        at + 18 <= s.len(),
        q4_bytes(b) == s.subrange(at, at + 18),
    ensures
        b.d == scale_at(s, at),
        forall|j: int| 0 <= j < 16 ==> #[trigger] b.qs@[j] == s[at + 2 + j],
{
    let w = s.subrange(at, at + 18);
    crate::bytes::lemma_le_bytes_len(b.d as nat, 2);
    lemma_pow256_values();
    lemma_le_value_of_le_bytes(b.d as nat, 2);
    assert(q4_bytes(b).subrange(0, 2) =~= le_bytes(b.d as nat, 2));
    assert(w.subrange(0, 2) =~= s.subrange(at, at + 2));
    assert forall|j: int| 0 <= j < 16 implies #[trigger] b.qs@[j] == s[at + 2 + j] by {
        assert(q4_bytes(b)[2 + j] == b.qs@[j]);
        assert(w[2 + j] == s[at + 2 + j]);
    }
}

fn decode_q8(bytes: &[u8]) -> (out: Vec<u32>)
    requires
        bytes@.len() % 34 == 0,
    ensures
        decode(GgmlType::Q8_0, bytes@) == Ok::<Seq<u32>, GgufFault>(out@),
{
    let total: usize = bytes.len();
    let blocks = q8_from_bytes(bytes);
    let mut out: Vec<u32> = zeros(blocks.len() * 32);
    dequantize_q8_0(blocks.as_slice(), out.as_mut_slice());
    proof {
        let want = decode(GgmlType::Q8_0, bytes@)->Ok_0;
        assert forall|i: int| 0 <= i < out@.len() implies #[trigger] out@[i] == want[i] by {
            let b = i / 32;
            let j = i % 32;
            assert(i == 32 * b + j);
            assert(out@[32 * b + j] as nat == dequantized(blocks@[b].qs@[j] as int, blocks@[b].d));
            lemma_q8_fields(blocks@[b], bytes@, 34 * b);
        }
        assert(out@ =~= want);
    }
    out
}

fn decode_q4(bytes: &[u8]) -> (out: Vec<u32>)
    requires
        bytes@.len() % 18 == 0,
        bytes@.len() / 18 * 32 <= usize::MAX,
    ensures
        decode(GgmlType::Q4_0, bytes@) == Ok::<Seq<u32>, GgufFault>(out@),
{
    let blocks = q4_from_bytes(bytes);
    let mut out: Vec<u32> = zeros(blocks.len() * 32);
    dequantize_q4_0(blocks.as_slice(), out.as_mut_slice());
    proof {
        let want = decode(GgmlType::Q4_0, bytes@)->Ok_0;
        assert forall|i: int| 0 <= i < out@.len() implies #[trigger] out@[i] == want[i] by {
            let b = i / 32;
            let j = i % 32;
            assert(i == 32 * b + j);
            assert(out@[32 * b + j] as nat == dequantized(q4_element(blocks@[b], j), blocks@[b].d));
            lemma_q4_fields(blocks@[b], bytes@, 18 * b);
        }
        assert(out@ =~= want);
    }
    out
}

/// Decode a GGUF-stored tensor's raw bytes into fp32 patterns.
///
/// Handles F32 (as it stands), F16, Q8_0 (34 bytes per 32 elements) and Q4_0
/// (18 bytes per 32 elements, nibble-packed). Any other type is refused.
pub fn tensor_to_f32(file: &GgufFile, name: &str) -> (r: Result<Vec<u32>, GgufError>)
    requires
        file.wf(),
        defined(tensor_numbers(file.raw(), file.content(), name@)),
    ensures
        match tensor_numbers(file.raw(), file.content(), name@) {
            Ok(s) => r matches Ok(v) && v@ == s,
            Err(f) => r matches Err(e) && f == LoadFault::Fault(e@),
        },
{
    let info = match file.tensor(name) {
        Some(i) => i,
        None => {
            return Err(GgufError::NoSuchTensor(name.to_string()));
        },
    };
    let bytes = match file.tensor_data(name) {
        Ok(b) => b,
        Err(e) => {
            return Err(e);
        },
    };
    proof {
        lemma_payload_blocks(info@);
    }
    match info.dtype {
        GgmlType::F32 => Ok(decode_f32(bytes)),
        GgmlType::F16 => Ok(decode_f16(bytes)),
        GgmlType::Q8_0 => Ok(decode_q8(bytes)),
        GgmlType::Q4_0 => Ok(decode_q4(bytes)),
        other => Err(GgufError::UnsupportedTensorType(other.tag())),
    }
}

// ---- configuration --------------------------------------------------------------------

/// The low 32 bits of an unsigned number.
pub open spec fn low_word(v: u64) -> u32 {
    (v % 0x1_0000_0000) as u32
}

/// A whole number under a key.
pub open spec fn number_under(c: Content, key: Seq<char>) -> Result<u32, GgufFault> {
    match last_value(c.pairs, key) {
        Some(KvView::U32(v)) => Ok(v),
        Some(KvView::U64(v)) => Ok(low_word(v)),
        Some(KvView::I32(v)) => Ok((v as int % 0x1_0000_0000) as u32),
        Some(_) => Err(GgufFault::WrongKvKind { key, expected: KvType::U32 }),
        None => Err(GgufFault::NoSuchKey(key)),
    }
}

/// An fp32 pattern under a key.
pub open spec fn float_under(c: Content, key: Seq<char>) -> Result<u32, GgufFault> {
    match last_value(c.pairs, key) {
        Some(KvView::F32(v)) => Ok(v),
        Some(KvView::F64(v)) => Ok(f64_narrowed(v) as u32),
        Some(_) => Err(GgufFault::WrongKvKind { key, expected: KvType::F32 }),
        None => Err(GgufFault::NoSuchKey(key)),
    }
}

fn get_u32(file: &GgufFile, key: &str) -> (r: Result<u32, GgufError>)
    requires
        file.wf(),
    ensures
        match number_under(file.content(), key@) {
            Ok(v) => r == Ok::<u32, GgufError>(v),
            Err(f) => r matches Err(e) && e@ == f,
        },
{
    match file.metadata().get(key) {
        Some(KvValue::U32(v)) => Ok(*v),
        Some(KvValue::U64(v)) => Ok((*v % 0x1_0000_0000) as u32),
        Some(KvValue::I32(v)) => Ok(i32_bits(*v)),
        Some(_) => Err(GgufError::WrongKvKind { key: key.to_string(), expected: KvType::U32 }),
        None => Err(GgufError::NoSuchKey(key.to_string())),
    }
}

fn get_f32(file: &GgufFile, key: &str) -> (r: Result<u32, GgufError>)
    requires
        file.wf(),
    ensures
        match float_under(file.content(), key@) {
            Ok(v) => r == Ok::<u32, GgufError>(v),
            Err(f) => r matches Err(e) && e@ == f,
        },
{
    match file.metadata().get(key) {
        Some(KvValue::F32(v)) => Ok(*v),
        Some(KvValue::F64(v)) => Ok(f64_to_f32_bits(*v)),
        Some(_) => Err(GgufError::WrongKvKind { key: key.to_string(), expected: KvType::F32 }),
        None => Err(GgufError::NoSuchKey(key.to_string())),
    }
}

/// The fp32 pattern of 10000.
pub const DEFAULT_ROPE_BASE: u32 = 0x461C_4000;

/// What reading the configuration comes to.
pub enum ConfigOutcome {
    Good(ModelConfig),
    Bad(GgufFault),
    /// The heads do not divide the model dimension, or the embedding has no
    /// second dimension that is a machine number.
    Undefined,
}

/// The sizes of a model: dimension, layers, heads, feed-forward dimension and
/// context, in the order in which they are read.
pub open spec fn sizes_of(
    c: Content,
    arch: Seq<char>,
) -> Result<(u32, u32, u32, u32, u32), GgufFault> {
    match number_under(c, arch + ".embedding_length"@) {
        Err(e) => Err(e),
        Ok(hidden) => match number_under(c, arch + ".block_count"@) {
            Err(e) => Err(e),
            Ok(n_layers) => match number_under(c, arch + ".attention.head_count"@) {
                Err(e) => Err(e),
                Ok(n_heads) => match number_under(c, arch + ".feed_forward_length"@) {
                    Err(e) => Err(e),
                    Ok(ffn) => match number_under(c, arch + ".context_length"@) {
                        Err(e) => Err(e),
                        Ok(max_seq) => Ok((hidden, n_layers, n_heads, ffn, max_seq)),
                    },
                },
            },
        },
    }
}

/// The number of key/value heads: as many as there are heads, unless the file
/// says otherwise.
pub open spec fn kv_heads_of(c: Content, arch: Seq<char>, n_heads: u32) -> u32 {
    match number_under(c, arch + ".attention.head_count_kv"@) {
        Ok(v) => v,
        Err(_) => n_heads,
    }
}

/// The base of the rotation: 10000, unless the file says otherwise.
pub open spec fn rope_base_of(c: Content, arch: Seq<char>) -> u32 {
    match float_under(c, arch + ".rope.freq_base"@) {
        Ok(v) => v,
        Err(_) => DEFAULT_ROPE_BASE,
    }
}

/// The token that ends a text, if the file names one.
pub open spec fn eos_of(c: Content) -> Option<u32> {
    match number_under(c, "tokenizer.ggml.eos_token_id"@) {
        Ok(v) => Some(v),
        Err(_) => None,
    }
}

/// The configuration of a model.
pub open spec fn config_of(c: Content, arch: Seq<char>) -> ConfigOutcome {
    match sizes_of(c, arch) {
        Err(e) => ConfigOutcome::Bad(e),
        Ok((hidden, n_layers, n_heads, ffn, max_seq)) => match float_under(
            c,
            arch + ".attention.layer_norm_rms_epsilon"@,
        ) {
            Err(e) => ConfigOutcome::Bad(e),
            Ok(eps) => if n_heads == 0 || hidden % n_heads != 0 {
                ConfigOutcome::Undefined
            } else {
                match last_tensor(c.tensors, "token_embd.weight"@) {
                    None => ConfigOutcome::Bad(GgufFault::NoSuchTensor("token_embd.weight"@)),
                    Some(t) => if t.dims.len() < 2 || t.dims[1] > usize::MAX {
                        ConfigOutcome::Undefined
                    } else {
                        ConfigOutcome::Good(
                            ModelConfig {
                                layer: LayerConfig {
                                    hidden: hidden as usize,
                                    n_heads: n_heads as usize,
                                    n_kv_heads: kv_heads_of(c, arch, n_heads) as usize,
                                    head_dim: (hidden / n_heads) as usize,
                                    ffn_hidden: ffn as usize,
                                    rms_norm_eps: eps,
                                    rope_base: rope_base_of(c, arch),
                                },
                                vocab_size: t.dims[1] as usize,
                                n_layers: n_layers as usize,
                                max_seq: max_seq as usize,
                                eos_token_id: eos_of(c),
                            },
                        )
                    },
                }
            },
        },
    }
}

fn key_of(arch: &str, rest: &str) -> (s: String)
    ensures
        s@ == arch@ + rest@,
{
    let mut s: String = arch.to_string();
    push_text(&mut s, rest);
    s
}

/// The number under `{arch}{rest}`.
fn arch_u32(file: &GgufFile, arch: &str, rest: &str) -> (r: Result<u32, GgufError>)
    requires
        file.wf(),
    ensures
        match number_under(file.content(), arch@ + rest@) {
            Ok(v) => r == Ok::<u32, GgufError>(v),
            Err(f) => r matches Err(e) && e@ == f,
        },
{
    let k = key_of(arch, rest);
    get_u32(file, k.as_str())
}

fn read_sizes(file: &GgufFile, arch: &str) -> (r: Result<(u32, u32, u32, u32, u32), GgufError>)
    requires
        file.wf(),
    ensures
        match sizes_of(file.content(), arch@) {
            Ok(v) => r == Ok::<(u32, u32, u32, u32, u32), GgufError>(v),
            Err(f) => r matches Err(e) && e@ == f,
        },
{
    let hidden: u32 = match arch_u32(file, arch, ".embedding_length") {
        Ok(v) => v,
        Err(e) => {
            return Err(e);
        },
    };
    let n_layers: u32 = match arch_u32(file, arch, ".block_count") {
        Ok(v) => v,
        Err(e) => {
            return Err(e);
        },
    };
    let n_heads: u32 = match arch_u32(file, arch, ".attention.head_count") {
        Ok(v) => v,
        Err(e) => {
            return Err(e);
        },
    };
    let ffn: u32 = match arch_u32(file, arch, ".feed_forward_length") {
        Ok(v) => v,
        Err(e) => {
            return Err(e);
        },
    };
    let max_seq: u32 = match arch_u32(file, arch, ".context_length") {
        Ok(v) => v,
        Err(e) => {
            return Err(e);
        },
    };
    Ok((hidden, n_layers, n_heads, ffn, max_seq))
}

/// Read architecture hyperparameters from GGUF metadata. `arch` is the prefix
/// used by this model (e.g. "llama", "qwen2"). The vocabulary size is the
/// second dimension of the token embedding.
pub fn config_from_gguf(file: &GgufFile, arch: &str) -> (r: Result<ModelConfig, GgufError>)
    requires
        file.wf(),
        !(config_of(file.content(), arch@) is Undefined),
    ensures
        match config_of(file.content(), arch@) {
            ConfigOutcome::Good(cfg) => r == Ok::<ModelConfig, GgufError>(cfg),
            ConfigOutcome::Bad(f) => r matches Err(e) && e@ == f,
            ConfigOutcome::Undefined => false,
        },
{
    let (hidden, n_layers, n_heads, ffn, max_seq) = match read_sizes(file, arch) {
        Ok(v) => v,
        Err(e) => {
            return Err(e);
        },
    };
    let n_kv_heads: u32 = match arch_u32(file, arch, ".attention.head_count_kv") {
        Ok(v) => v,
        Err(_) => n_heads,
    };
    let eps_key = key_of(arch, ".attention.layer_norm_rms_epsilon");
    let rms_norm_eps: u32 = match get_f32(file, eps_key.as_str()) {
        Ok(v) => v,
        Err(e) => {
            return Err(e);
        },
    };
    let base_key = key_of(arch, ".rope.freq_base");
    let rope_base: u32 = match get_f32(file, base_key.as_str()) {
        Ok(v) => v,
        Err(_) => DEFAULT_ROPE_BASE,
    };
    let head_dim: u32 = hidden / n_heads;
    let info = match file.tensor("token_embd.weight") {
        Some(t) => t,
        None => {
            return Err(GgufError::NoSuchTensor("token_embd.weight".to_string()));
        },
    };
    let vocab_size: usize = info.dims[1] as usize;
    let eos: Option<u32> = match get_u32(file, "tokenizer.ggml.eos_token_id") {
        Ok(v) => Some(v),
        Err(_) => None,
    };
    Ok(
        ModelConfig {
            layer: LayerConfig {
                hidden: hidden as usize,
                n_heads: n_heads as usize,
                n_kv_heads: n_kv_heads as usize,
                head_dim: head_dim as usize,
                ffn_hidden: ffn as usize,
                rms_norm_eps,
                rope_base,
            },
            vocab_size,
            n_layers: n_layers as usize,
            max_seq: max_seq as usize,
            eos_token_id: eos,
        },
    )
}

// ---- weights --------------------------------------------------------------------------

/// The weights of a layer, as numbers.
pub struct LayerNumbers {
    pub attn_norm_w: Seq<u32>,
    pub wq: Seq<u32>,
    pub wk: Seq<u32>,
    pub wv: Seq<u32>,
    pub wo: Seq<u32>,
    pub ffn_norm_w: Seq<u32>,
    pub w_gate: Seq<u32>,
    pub w_up: Seq<u32>,
    pub w_down: Seq<u32>,
    pub b_q: Option<Seq<u32>>,
    pub b_k: Option<Seq<u32>>,
    pub b_v: Option<Seq<u32>>,
}

/// The name of a tensor of layer `i`.
pub open spec fn layer_name(i: nat, rest: Seq<char>) -> Seq<char> {
    "blk."@ + decimal(i) + rest
}

/// The numbers of a tensor that may be missing.
pub open spec fn optional_numbers(raw: Seq<u8>, c: Content, name: Seq<char>) -> Result<
    Option<Seq<u32>>,
    LoadFault,
> {
    match tensor_numbers(raw, c, name) {
        Ok(s) => Ok(Some(s)),
        Err(LoadFault::Fault(GgufFault::NoSuchTensor(_))) => Ok(None),
        Err(e) => Err(e),
    }
}

/// The tensors with the given names, or what is wrong with the first of them
/// that cannot be read.
pub open spec fn all_numbers(raw: Seq<u8>, c: Content, names: Seq<Seq<char>>) -> Result<
    Seq<Seq<u32>>,
    LoadFault,
>
    decreases names.len(),
{
    if names.len() == 0 {
        Ok(Seq::empty())
    } else {
        match all_numbers(raw, c, names.drop_last()) {
            Err(e) => Err(e),
            Ok(list) => match tensor_numbers(raw, c, names.last()) {
                Err(e) => Err(e),
                Ok(s) => Ok(list.push(s)),
            },
        }
    }
}

/// The names of the tensors that every layer has.
pub open spec fn layer_names(i: nat) -> Seq<Seq<char>> {
    seq![
        layer_name(i, ".attn_norm.weight"@),
        layer_name(i, ".attn_q.weight"@),
        layer_name(i, ".attn_k.weight"@),
        layer_name(i, ".attn_v.weight"@),
        layer_name(i, ".attn_output.weight"@),
        layer_name(i, ".ffn_norm.weight"@),
        layer_name(i, ".ffn_gate.weight"@),
        layer_name(i, ".ffn_up.weight"@),
        layer_name(i, ".ffn_down.weight"@),
    ]
}

/// The weights of layer `i`.
#[verifier::opaque]
pub open spec fn layer_of(raw: Seq<u8>, c: Content, i: nat) -> Result<LayerNumbers, LoadFault> {
    match all_numbers(raw, c, layer_names(i)) {
        Err(e) => Err(e),
        Ok(w) => match optional_numbers(raw, c, layer_name(i, ".attn_q.bias"@)) {
            Err(e) => Err(e),
            Ok(b_q) => match optional_numbers(raw, c, layer_name(i, ".attn_k.bias"@)) {
                Err(e) => Err(e),
                Ok(b_k) => match optional_numbers(raw, c, layer_name(i, ".attn_v.bias"@)) {
                    Err(e) => Err(e),
                    Ok(b_v) => Ok(
                        LayerNumbers {
                            attn_norm_w: w[0],
                            wq: w[1],
                            wk: w[2],
                            wv: w[3],
                            wo: w[4],
                            ffn_norm_w: w[5],
                            w_gate: w[6],
                            w_up: w[7],
                            w_down: w[8],
                            b_q,
                            b_k,
                            b_v,
                        },
                    ),
                },
            },
        },
    }
}

/// The weights of the first `n` layers.
pub open spec fn layers_of(raw: Seq<u8>, c: Content, n: nat) -> Result<Seq<LayerNumbers>, LoadFault>
    decreases n,
{
    if n == 0 {
        Ok(Seq::empty())
    } else {
        match layers_of(raw, c, (n - 1) as nat) {
            Err(e) => Err(e),
            Ok(list) => match layer_of(raw, c, (n - 1) as nat) {
                Err(e) => Err(e),
                Ok(l) => Ok(list.push(l)),
            },
        }
    }
}

/// The optional vector says what the optional numbers say.
pub open spec fn same_option(v: Option<Vec<u32>>, s: Option<Seq<u32>>) -> bool {
    match (v, s) {
        (Some(a), Some(b)) => a@ == b,
        (None, None) => true,
        _ => false,
    }
}

/// The weight holds the numbers.
pub open spec fn is_f32(w: WeightStorage, s: Seq<u32>) -> bool {
    w matches WeightStorage::F32(v) && v@ == s
}

/// The layer holds the numbers.
pub open spec fn layer_is(l: LayerWeights, n: LayerNumbers) -> bool {
    &&& l.attn_norm_w@ == n.attn_norm_w
    &&& is_f32(l.wq, n.wq)
    &&& is_f32(l.wk, n.wk)
    &&& is_f32(l.wv, n.wv)
    &&& is_f32(l.wo, n.wo)
    &&& l.ffn_norm_w@ == n.ffn_norm_w
    &&& is_f32(l.w_gate, n.w_gate)
    &&& is_f32(l.w_up, n.w_up)
    &&& is_f32(l.w_down, n.w_down)
    &&& same_option(l.b_q, n.b_q)
    &&& same_option(l.b_k, n.b_k)
    &&& same_option(l.b_v, n.b_v)
}

/// The projection onto the vocabulary: the tensor `output.weight`, or the token
/// embedding where there is none.
pub open spec fn head_numbers(raw: Seq<u8>, c: Content, embeddings: Seq<u32>) -> Result<
    Seq<u32>,
    LoadFault,
> {
    match tensor_numbers(raw, c, "output.weight"@) {
        Ok(s) => Ok(s),
        Err(LoadFault::Fault(GgufFault::NoSuchTensor(_))) => Ok(embeddings),
        Err(e) => Err(e),
    }
}

/// A model, as numbers.
pub struct ModelNumbers {
    pub config: ModelConfig,
    pub token_embeddings: Seq<u32>,
    pub layers: Seq<LayerNumbers>,
    pub final_norm_w: Seq<u32>,
    pub lm_head_w: Seq<u32>,
}

/// What reading a model comes to.
pub enum ModelOutcome {
    Good(ModelNumbers),
    Bad(GgufFault),
    Undefined,
}

/// What a fault of a tensor makes of the model.
pub open spec fn no_model(e: LoadFault) -> ModelOutcome {
    match e {
        LoadFault::Fault(f) => ModelOutcome::Bad(f),
        LoadFault::Undefined => ModelOutcome::Undefined,
    }
}

/// The model of a file.
pub open spec fn model_of(raw: Seq<u8>, c: Content, arch: Seq<char>) -> ModelOutcome {
    match config_of(c, arch) {
        ConfigOutcome::Undefined => ModelOutcome::Undefined,
        ConfigOutcome::Bad(e) => ModelOutcome::Bad(e),
        ConfigOutcome::Good(config) => match tensor_numbers(raw, c, "token_embd.weight"@) {
            Err(e) => no_model(e),
            Ok(token_embeddings) => match tensor_numbers(raw, c, "output_norm.weight"@) {
                Err(e) => no_model(e),
                Ok(final_norm_w) => match head_numbers(raw, c, token_embeddings) {
                    Err(e) => no_model(e),
                    Ok(lm_head_w) => match layers_of(raw, c, config.n_layers as nat) {
                        Err(e) => no_model(e),
                        Ok(layers) => ModelOutcome::Good(
                            ModelNumbers {
                                config,
                                token_embeddings,
                                layers,
                                final_norm_w,
                                lm_head_w,
                            },
                        ),
                    },
                },
            },
        },
    }
}

/// The model holds the numbers.
pub open spec fn model_is(m: Model, n: ModelNumbers) -> bool {
    &&& m.config == n.config
    &&& m.token_embeddings@ == n.token_embeddings
    &&& m.final_norm_w@ == n.final_norm_w
    &&& is_f32(m.lm_head_w, n.lm_head_w)
    &&& m.layers@.len() == n.layers.len()
    &&& forall|i: int| 0 <= i < n.layers.len() ==> layer_is(#[trigger] m.layers@[i], n.layers[i])
}

fn name_of(i: usize, rest: &str) -> (s: String)
    ensures
        s@ == layer_name(i as nat, rest@),
{
    let mut s: String = "blk.".to_string();
    push_decimal(&mut s, i as u64);
    push_text(&mut s, rest);
    s
}

fn layer_tensor(file: &GgufFile, i: usize, rest: &str) -> (r: Result<Vec<u32>, GgufError>)
    requires
        file.wf(),
        defined(tensor_numbers(file.raw(), file.content(), layer_name(i as nat, rest@))),
    ensures
        match tensor_numbers(file.raw(), file.content(), layer_name(i as nat, rest@)) {
            Ok(s) => r matches Ok(v) && v@ == s,
            Err(f) => r matches Err(e) && f == LoadFault::Fault(e@),
        },
{
    let n = name_of(i, rest);
    tensor_to_f32(file, n.as_str())
}

fn optional_tensor(file: &GgufFile, i: usize, rest: &str) -> (r: Result<
    Option<Vec<u32>>,
    GgufError,
>)
    requires
        file.wf(),
        defined(optional_numbers(file.raw(), file.content(), layer_name(i as nat, rest@))),
    ensures
        match optional_numbers(file.raw(), file.content(), layer_name(i as nat, rest@)) {
            Ok(s) => r matches Ok(v) && same_option(v, s),
            Err(f) => r matches Err(e) && f == LoadFault::Fault(e@),
        },
{
    match layer_tensor(file, i, rest) {
        Ok(v) => Ok(Some(v)),
        Err(GgufError::NoSuchTensor(_)) => Ok(None),
        Err(e) => Err(e),
    }
}

/// What lists of numbers say.
pub open spec fn number_lists(list: Seq<Vec<u32>>) -> Seq<Seq<u32>> {
    Seq::new(list.len(), |i: int| list[i]@)
}

/// The tensors that every layer has, of layer `i`.
fn layer_tensors(file: &GgufFile, i: usize) -> (r: Result<Vec<Vec<u32>>, GgufError>)
    requires
        file.wf(),
        defined(all_numbers(file.raw(), file.content(), layer_names(i as nat))),
    ensures
        match all_numbers(file.raw(), file.content(), layer_names(i as nat)) {
            Ok(s) => r matches Ok(v) && number_lists(v@) == s,
            Err(f) => r matches Err(e) && f == LoadFault::Fault(e@),
        },
{
    let rests = [
        ".attn_norm.weight",
        ".attn_q.weight",
        ".attn_k.weight",
        ".attn_v.weight",
        ".attn_output.weight",
        ".ffn_norm.weight",
        ".ffn_gate.weight",
        ".ffn_up.weight",
        ".ffn_down.weight",
    ];
    let ghost names = layer_names(i as nat);
    let ghost raw = file.raw();
    let ghost c = file.content();
    let mut out: Vec<Vec<u32>> = Vec::new();
    let mut j: usize = 0;
    assert(names.subrange(0, 0) =~= Seq::empty());
    assert(number_lists(out@) =~= Seq::empty());
    while j < 9
        invariant
            j <= 9,
            file.wf(),
            defined(all_numbers(raw, c, names)),
            raw == file.raw(),
            c == file.content(),
            names == layer_names(i as nat),
            names.len() == 9,
            forall|k: int|
                0 <= k < 9 ==> #[trigger] names[k] == layer_name(i as nat, rests@[k]@),
            all_numbers(raw, c, names.subrange(0, j as int)) == Ok::<Seq<Seq<u32>>, LoadFault>(
                number_lists(out@),
            ),
        decreases 9 - j,
    {
        proof {
            let s = names.subrange(0, j + 1);
            assert(s.drop_last() =~= names.subrange(0, j as int));
            assert(s.last() == names[j as int]);
            if !defined(tensor_numbers(raw, c, names[j as int])) {
                lemma_first_failure(raw, c, names, j + 1);
            }
        }
        match layer_tensor(file, i, rests[j]) {
            Ok(v) => {
                let ghost before = number_lists(out@);
                let ghost vv = v@;
                out.push(v);
                assert(number_lists(out@) =~= before.push(vv));
            },
            Err(e) => {
                proof {
                    lemma_first_failure(raw, c, names, j + 1);
                }
                return Err(e);
            },
        }
        j = j + 1;
    }
    assert(names.subrange(0, j as int) =~= names);
    Ok(out)
}

/// What is wrong with some names is wrong with more of them.
proof fn lemma_first_failure(raw: Seq<u8>, c: Content, names: Seq<Seq<char>>, j: int)
    requires
        0 <= j <= names.len(),
        all_numbers(raw, c, names.subrange(0, j)) is Err,
    ensures
        all_numbers(raw, c, names) == all_numbers(raw, c, names.subrange(0, j)),
    decreases names.len(),
{
    if j == names.len() {
        assert(names.subrange(0, j) =~= names);
    } else {
        assert(names.drop_last().subrange(0, j) =~= names.subrange(0, j));
        lemma_first_failure(raw, c, names.drop_last(), j);
    }
}

/// A list of as many tensors as there are names.
proof fn lemma_all_numbers_len(raw: Seq<u8>, c: Content, names: Seq<Seq<char>>)
    ensures
        all_numbers(raw, c, names) matches Ok(list) ==> list.len() == names.len(),
    decreases names.len(),
{
    if names.len() > 0 {
        lemma_all_numbers_len(raw, c, names.drop_last());
    }
}

/// The last list, taken off.
fn take_last(list: &mut Vec<Vec<u32>>) -> (v: Vec<u32>)
    requires
        old(list)@.len() > 0,
    ensures
        v@ == number_lists(old(list)@).last(),
        number_lists(final(list)@) == number_lists(old(list)@).drop_last(),
        final(list)@.len() == old(list)@.len() - 1,
{
    let ghost before = list@;
    let v = match list.pop() {
        Some(v) => v,
        None => Vec::new(),
    };
    assert(number_lists(list@) =~= number_lists(before).drop_last());
    v
}

/// The weights of layer `i`.
fn load_layer(file: &GgufFile, i: usize) -> (r: Result<LayerWeights, GgufError>)
    requires
        file.wf(),
        defined(layer_of(file.raw(), file.content(), i as nat)),
    ensures
        match layer_of(file.raw(), file.content(), i as nat) {
            Ok(n) => r matches Ok(l) && layer_is(l, n),
            Err(f) => r matches Err(e) && f == LoadFault::Fault(e@),
        },
{
    proof {
        reveal(layer_of);
    }
    let mut w = match layer_tensors(file, i) {
        Ok(w) => w,
        Err(e) => {
            return Err(e);
        },
    };
    proof {
        lemma_all_numbers_len(file.raw(), file.content(), layer_names(i as nat));
        assert(number_lists(w@).len() == w@.len());
    }
    let b_q = match optional_tensor(file, i, ".attn_q.bias") {
        Ok(b) => b,
        Err(e) => {
            return Err(e);
        },
    };
    let b_k = match optional_tensor(file, i, ".attn_k.bias") {
        Ok(b) => b,
        Err(e) => {
            return Err(e);
        },
    };
    let b_v = match optional_tensor(file, i, ".attn_v.bias") {
        Ok(b) => b,
        Err(e) => {
            return Err(e);
        },
    };
    let w_down = take_last(&mut w);
    let w_up = take_last(&mut w);
    let w_gate = take_last(&mut w);
    let ffn_norm_w = take_last(&mut w);
    let wo = take_last(&mut w);
    let wv = take_last(&mut w);
    let wk = take_last(&mut w);
    let wq = take_last(&mut w);
    let attn_norm_w = take_last(&mut w);
    Ok(
        LayerWeights {
            attn_norm_w,
            wq: WeightStorage::F32(wq),
            wk: WeightStorage::F32(wk),
            wv: WeightStorage::F32(wv),
            wo: WeightStorage::F32(wo),
            ffn_norm_w,
            w_gate: WeightStorage::F32(w_gate),
            w_up: WeightStorage::F32(w_up),
            w_down: WeightStorage::F32(w_down),
            b_q,
            b_k,
            b_v,
        },
    )
}

/// What is wrong with some layers is wrong with more of them.
proof fn lemma_first_bad_layer(raw: Seq<u8>, c: Content, i: nat, n: nat)
    requires
        i <= n,
        layers_of(raw, c, i) is Err,
    ensures
        layers_of(raw, c, n) == layers_of(raw, c, i),
    decreases n,
{
    if i < n {
        lemma_first_bad_layer(raw, c, i, (n - 1) as nat);
    }
}

/// The weights of the first `n` layers.
fn load_layers(file: &GgufFile, n: usize) -> (r: Result<Vec<LayerWeights>, GgufError>)
    requires
        file.wf(),
        defined(layers_of(file.raw(), file.content(), n as nat)),
    ensures
        match layers_of(file.raw(), file.content(), n as nat) {
            Ok(list) => r matches Ok(v) && v@.len() == list.len() && forall|i: int|
                0 <= i < list.len() ==> layer_is(#[trigger] v@[i], list[i]),
            Err(f) => r matches Err(e) && f == LoadFault::Fault(e@),
        },
{
    let ghost raw = file.raw();
    let ghost c = file.content();
    let mut out: Vec<LayerWeights> = Vec::new();
    let mut i: usize = 0;
    while i < n
        invariant
            i <= n,
            file.wf(),
            defined(layers_of(raw, c, n as nat)),
            raw == file.raw(),
            c == file.content(),
            layers_of(raw, c, i as nat) matches Ok(list) && list.len() == out@.len() && forall|
                j: int,
            |
                0 <= j < list.len() ==> layer_is(#[trigger] out@[j], list[j]),
        decreases n - i,
    {
        proof {
            if !defined(layer_of(raw, c, i as nat)) {
                lemma_first_bad_layer(raw, c, (i + 1) as nat, n as nat);
            }
        }
        match load_layer(file, i) {
            Ok(l) => {
                out.push(l);
            },
            Err(e) => {
                proof {
                    lemma_first_bad_layer(raw, c, (i + 1) as nat, n as nat);
                }
                return Err(e);
            },
        }
        i = i + 1;
    }
    Ok(out)
}

/// Construct a [`Model`] from a parsed GGUF file using the standard ggml tensor
/// names. Where there is no `output.weight`, the output projection is the token
/// embedding.
pub fn model_from_gguf(file: &GgufFile, arch: &str) -> (r: Result<Model, GgufError>)
    requires
        file.wf(),
        !(model_of(file.raw(), file.content(), arch@) is Undefined),
    ensures
        match model_of(file.raw(), file.content(), arch@) {
            ModelOutcome::Good(n) => r matches Ok(m) && model_is(m, n),
            ModelOutcome::Bad(f) => r matches Err(e) && e@ == f,
            ModelOutcome::Undefined => false,
        },
{
    let config = match config_from_gguf(file, arch) {
        Ok(c) => c,
        Err(e) => {
            return Err(e);
        },
    };
    let token_embeddings = match tensor_to_f32(file, "token_embd.weight") {
        Ok(v) => v,
        Err(e) => {
            return Err(e);
        },
    };
    let final_norm_w = match tensor_to_f32(file, "output_norm.weight") {
        Ok(v) => v,
        Err(e) => {
            return Err(e);
        },
    };
    let lm_head_w = match tensor_to_f32(file, "output.weight") {
        Ok(v) => v,
        Err(GgufError::NoSuchTensor(_)) => token_embeddings.clone(),
        Err(e) => {
            return Err(e);
        },
    };
    let layers = match load_layers(file, config.n_layers) {
        Ok(v) => v,
        Err(e) => {
            return Err(e);
        },
    };
    Ok(
        Model {
            config,
            token_embeddings,
            layers,
            final_norm_w,
            lm_head_w: WeightStorage::F32(lm_head_w),
        },
    )
}

} // verus!
