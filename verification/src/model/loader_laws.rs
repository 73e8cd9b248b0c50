//! What a loaded model has from its file.

use crate::bytes::{le_value, lemma_le_bytes_of_le_value, lemma_pow256_values};
use crate::float_bits::{
    f16_mag, f16_neg, f16_units, f32_mag, f32_neg, f32_units, lemma_p2_add,
    lemma_p2_values, p2, units, F16_INF,
};
use crate::float_ops::{f64_narrowed, widened};
use crate::model::gguf::{
    alignment_of, dims_product, last_tensor, Content, GgmlType, GgufFault, KvType, KvView,
};
use crate::model::gguf_laws::{absent, lemma_last_tensor, lemma_last_value, stands};
use crate::model::loader::{
    all_numbers, config_of, decode, float_under, layer_names, layer_of, layers_of, model_of,
    number_under, optional_numbers, scale_at, signed_byte, tensor_numbers, ConfigOutcome,
    LayerNumbers, LoadFault, ModelOutcome,
};
use crate::runtime::model::ModelConfig;
use crate::runtime::quant::{dequantized, lemma_dequantized_exact};
use crate::text::decimal;
use vstd::prelude::*;

verus! {

// ---- configuration --------------------------------------------------------------------

/// A configuration that is written as metadata is read back, field by field: the
/// sizes as whole numbers under their keys, epsilon and rotation base as fp32
/// numbers, the vocabulary size as the second dimension of the token embedding,
/// and the end of the text where there is one.
pub proof fn lemma_config_reads_back(c: Content, arch: Seq<char>, cfg: ModelConfig, i: int)
    requires
        cfg.layer.n_heads > 0,
        cfg.layer.hidden == cfg.layer.n_heads * cfg.layer.head_dim,
        cfg.layer.hidden <= u32::MAX,
        cfg.layer.n_heads <= u32::MAX,
        cfg.layer.n_kv_heads <= u32::MAX,
        cfg.layer.ffn_hidden <= u32::MAX,
        cfg.n_layers <= u32::MAX,
        cfg.max_seq <= u32::MAX,
        stands(c.pairs, arch + ".embedding_length"@, KvView::U32(cfg.layer.hidden as u32)),
        stands(c.pairs, arch + ".block_count"@, KvView::U32(cfg.n_layers as u32)),
        stands(c.pairs, arch + ".attention.head_count"@, KvView::U32(cfg.layer.n_heads as u32)),
        stands(
            c.pairs,
            arch + ".attention.head_count_kv"@,
            KvView::U32(cfg.layer.n_kv_heads as u32),
        ),
        stands(c.pairs, arch + ".feed_forward_length"@, KvView::U32(cfg.layer.ffn_hidden as u32)),
        stands(c.pairs, arch + ".context_length"@, KvView::U32(cfg.max_seq as u32)),
        stands(
            c.pairs,
            arch + ".attention.layer_norm_rms_epsilon"@,
            KvView::F32(cfg.layer.rms_norm_eps),
        ),
        stands(c.pairs, arch + ".rope.freq_base"@, KvView::F32(cfg.layer.rope_base)),
        match cfg.eos_token_id {
            Some(e) => stands(c.pairs, "tokenizer.ggml.eos_token_id"@, KvView::U32(e)),
            None => absent(c.pairs, "tokenizer.ggml.eos_token_id"@),
        },
        0 <= i < c.tensors.len(),
        c.tensors[i].name == "token_embd.weight"@,
        forall|j: int|
            i < j < c.tensors.len() ==> (#[trigger] c.tensors[j]).name != "token_embd.weight"@,
        c.tensors[i].dims.len() >= 2,
        c.tensors[i].dims[1] == cfg.vocab_size,
    ensures
        config_of(c, arch) == ConfigOutcome::Good(cfg),
{
    lemma_last_value(c.pairs, arch + ".embedding_length"@);
    lemma_last_value(c.pairs, arch + ".block_count"@);
    lemma_last_value(c.pairs, arch + ".attention.head_count"@);
    lemma_last_value(c.pairs, arch + ".attention.head_count_kv"@);
    lemma_last_value(c.pairs, arch + ".feed_forward_length"@);
    lemma_last_value(c.pairs, arch + ".context_length"@);
    lemma_last_value(c.pairs, arch + ".attention.layer_norm_rms_epsilon"@);
    lemma_last_value(c.pairs, arch + ".rope.freq_base"@);
    lemma_last_value(c.pairs, "tokenizer.ggml.eos_token_id"@);
    lemma_last_tensor(c.tensors, "token_embd.weight"@, i);
    let (h, n, d) = (
        cfg.layer.hidden as int,
        cfg.layer.n_heads as int,
        cfg.layer.head_dim as int,
    );
    assert(h == d * n + 0) by (nonlinear_arith)
        requires
            h == n * d,
    ;
    vstd::arithmetic::div_mod::lemma_fundamental_div_mod_converse(h, n, d, 0);
}

/// The base of the rotation and the number of key/value heads are those of the
/// file, whatever kind of number it gives. Without such a number the base is
/// 10000, and there are as many key/value heads as heads.
pub proof fn lemma_optional_settings(c: Content, arch: Seq<char>, cfg: ModelConfig)
    requires
        config_of(c, arch) == ConfigOutcome::Good(cfg),
    ensures
        forall|b: u32| #[trigger]
            stands(c.pairs, arch + ".rope.freq_base"@, KvView::F32(b)) ==> cfg.layer.rope_base == b,
        forall|b: u64| #[trigger]
            stands(c.pairs, arch + ".rope.freq_base"@, KvView::F64(b)) ==> cfg.layer.rope_base
                == f64_narrowed(b) as u32,
        absent(c.pairs, arch + ".rope.freq_base"@) ==> !f32_neg(cfg.layer.rope_base) && f32_units(
            cfg.layer.rope_base,
        ) == 10000 * p2(149),
        forall|v: u32| #[trigger]
            stands(c.pairs, arch + ".attention.head_count_kv"@, KvView::U32(v))
                ==> cfg.layer.n_kv_heads == v,
        absent(c.pairs, arch + ".attention.head_count_kv"@) ==> cfg.layer.n_kv_heads
            == cfg.layer.n_heads,
        forall|v: u32| #[trigger]
            stands(c.pairs, "tokenizer.ggml.eos_token_id"@, KvView::U32(v)) ==> cfg.eos_token_id
                == Some(v),
        absent(c.pairs, "tokenizer.ggml.eos_token_id"@) ==> cfg.eos_token_id is None,
{
    lemma_last_value(c.pairs, arch + ".rope.freq_base"@);
    lemma_last_value(c.pairs, arch + ".attention.head_count_kv"@);
    lemma_last_value(c.pairs, "tokenizer.ggml.eos_token_id"@);
    let b = 0x461C_4000u32;
    assert(f32_units(b) == 10000 * p2(149)) by {
        lemma_p2_values();
        lemma_p2_add(139, 10);
        assert(f32_mag(b) == 0x461C_4000);
        let g = 0x461C_4000nat;
        let half = p2(23);
        assert(half == 0x80_0000);
        assert(g / half == 140 && g % half == 0x1C_4000);
        assert(units(0x461C_4000, 24) == (0x1C_4000 + 0x80_0000) * p2(139));
        let x = p2(139);
        assert((0x1C_4000 + 0x80_0000) * x == 10000 * (x * 1024)) by (nonlinear_arith);
    }
}

/// A configuration needs its sizes: where one is read, each of them stands in the
/// file, and the heads fill the model dimension.
pub proof fn lemma_config_needs(c: Content, arch: Seq<char>, cfg: ModelConfig)
    requires
        config_of(c, arch) == ConfigOutcome::Good(cfg),
    ensures
        !absent(c.pairs, arch + ".embedding_length"@),
        !absent(c.pairs, arch + ".block_count"@),
        !absent(c.pairs, arch + ".attention.head_count"@),
        !absent(c.pairs, arch + ".feed_forward_length"@),
        !absent(c.pairs, arch + ".context_length"@),
        !absent(c.pairs, arch + ".attention.layer_norm_rms_epsilon"@),
        forall|v: u32| #[trigger]
            stands(c.pairs, arch + ".embedding_length"@, KvView::U32(v)) ==> cfg.layer.hidden == v,
        forall|v: u32| #[trigger]
            stands(c.pairs, arch + ".block_count"@, KvView::U32(v)) ==> cfg.n_layers == v,
        forall|v: u32| #[trigger]
            stands(c.pairs, arch + ".attention.head_count"@, KvView::U32(v)) ==> cfg.layer.n_heads
                == v,
        forall|v: u32| #[trigger]
            stands(c.pairs, arch + ".feed_forward_length"@, KvView::U32(v))
                ==> cfg.layer.ffn_hidden == v,
        forall|v: u32| #[trigger]
            stands(c.pairs, arch + ".context_length"@, KvView::U32(v)) ==> cfg.max_seq == v,
        forall|b: u32| #[trigger]
            stands(c.pairs, arch + ".attention.layer_norm_rms_epsilon"@, KvView::F32(b))
                ==> cfg.layer.rms_norm_eps == b,
        cfg.layer.n_heads * cfg.layer.head_dim == cfg.layer.hidden,
        forall|i: int|
            0 <= i < c.tensors.len() && (#[trigger] c.tensors[i]).name == "token_embd.weight"@ && (
            forall|j: int|
                i < j < c.tensors.len() ==> (#[trigger] c.tensors[j]).name
                    != "token_embd.weight"@) ==> cfg.vocab_size == c.tensors[i].dims[1],
{
    lemma_last_value(c.pairs, arch + ".embedding_length"@);
    lemma_last_value(c.pairs, arch + ".block_count"@);
    lemma_last_value(c.pairs, arch + ".attention.head_count"@);
    lemma_last_value(c.pairs, arch + ".feed_forward_length"@);
    lemma_last_value(c.pairs, arch + ".context_length"@);
    lemma_last_value(c.pairs, arch + ".attention.layer_norm_rms_epsilon"@);
    let (h, n) = (cfg.layer.hidden as int, cfg.layer.n_heads as int);
    vstd::arithmetic::div_mod::lemma_fundamental_div_mod(h, n);
    assert forall|i: int|
        0 <= i < c.tensors.len() && (#[trigger] c.tensors[i]).name == "token_embd.weight"@ && (
        forall|j: int|
            i < j < c.tensors.len() ==> (#[trigger] c.tensors[j]).name
                != "token_embd.weight"@) implies cfg.vocab_size == c.tensors[i].dims[1] by {
        lemma_last_tensor(c.tensors, "token_embd.weight"@, i);
    }
}

/// What a whole number under a key is: a 32-bit one as it stands, a longer one by
/// its low 32 bits, a negative one in two's complement. Anything else is not one.
pub proof fn lemma_numbers_under(c: Content, key: Seq<char>)
    ensures
        forall|v: u32| #[trigger]
            stands(c.pairs, key, KvView::U32(v)) ==> number_under(c, key) == Ok::<u32, GgufFault>(v),
        forall|v: u64| #[trigger]
            stands(c.pairs, key, KvView::U64(v)) ==> number_under(c, key) == Ok::<u32, GgufFault>(
                (v % 0x1_0000_0000) as u32,
            ),
        forall|v: i32| #[trigger]
            stands(c.pairs, key, KvView::I32(v)) ==> (number_under(c, key) matches Ok(w) && w
                == if v >= 0 {
                v as int
            } else {
                v + 0x1_0000_0000
            }),
        forall|b: u32| #[trigger]
            stands(c.pairs, key, KvView::F32(b)) ==> number_under(c, key) == Err::<u32, GgufFault>(
                GgufFault::WrongKvKind { key, expected: KvType::U32 },
            ),
        absent(c.pairs, key) ==> number_under(c, key) == Err::<u32, GgufFault>(
            GgufFault::NoSuchKey(key),
        ),
        forall|b: u32| #[trigger]
            stands(c.pairs, key, KvView::F32(b)) ==> float_under(c, key) == Ok::<u32, GgufFault>(b),
        forall|v: u32| #[trigger]
            stands(c.pairs, key, KvView::U32(v)) ==> float_under(c, key) == Err::<u32, GgufFault>(
                GgufFault::WrongKvKind { key, expected: KvType::F32 },
            ),
        absent(c.pairs, key) ==> float_under(c, key) == Err::<u32, GgufFault>(
            GgufFault::NoSuchKey(key),
        ),
{
    lemma_last_value(c.pairs, key);
}

/// The data section is aligned as the file says, or to 32 bytes.
pub proof fn lemma_alignment(pairs: Seq<(Seq<char>, KvView)>)
    ensures
        forall|v: u32| #[trigger]
            stands(pairs, "general.alignment"@, KvView::U32(v)) ==> alignment_of(pairs) == v,
        absent(pairs, "general.alignment"@) ==> alignment_of(pairs) == 32,
{
    lemma_last_value(pairs, "general.alignment"@);
}

// ---- weights --------------------------------------------------------------------------

/// Every weight of a model that is read is the tensor of its name. The projection
/// onto the vocabulary is `output.weight`, or the token embedding where there is
/// no such tensor; a bias is there where its tensor is.
pub proof fn lemma_model_tensors(raw: Seq<u8>, c: Content, arch: Seq<char>, i: nat)
    requires
        model_of(raw, c, arch) matches ModelOutcome::Good(n) && i < n.config.n_layers,
    ensures
        ({
            let n = model_of(raw, c, arch)->Good_0;
            let blk = "blk."@ + decimal(i);
            let is = |rest: Seq<char>, s: Seq<u32>| tensor_numbers(raw, c, blk + rest) == Ok::<
                Seq<u32>,
                LoadFault,
            >(s);
            let may_be = |rest: Seq<char>, b: Option<Seq<u32>>|
                match b {
                    Some(s) => tensor_numbers(raw, c, blk + rest) == Ok::<Seq<u32>, LoadFault>(s),
                    None => last_tensor(c.tensors, blk + rest) is None,
                };
            let l = n.layers[i as int];
            &&& config_of(c, arch) == ConfigOutcome::Good(n.config)
            &&& n.layers.len() == n.config.n_layers
            &&& is(".attn_norm.weight"@, l.attn_norm_w)
            &&& is(".attn_q.weight"@, l.wq)
            &&& is(".attn_k.weight"@, l.wk)
            &&& is(".attn_v.weight"@, l.wv)
            &&& is(".attn_output.weight"@, l.wo)
            &&& is(".ffn_norm.weight"@, l.ffn_norm_w)
            &&& is(".ffn_gate.weight"@, l.w_gate)
            &&& is(".ffn_up.weight"@, l.w_up)
            &&& is(".ffn_down.weight"@, l.w_down)
            &&& may_be(".attn_q.bias"@, l.b_q)
            &&& may_be(".attn_k.bias"@, l.b_k)
            &&& may_be(".attn_v.bias"@, l.b_v)
            &&& tensor_numbers(raw, c, "token_embd.weight"@) == Ok::<Seq<u32>, LoadFault>(
                n.token_embeddings,
            )
            &&& tensor_numbers(raw, c, "output_norm.weight"@) == Ok::<Seq<u32>, LoadFault>(
                n.final_norm_w,
            )
            &&& if last_tensor(c.tensors, "output.weight"@) is None {
                n.lm_head_w == n.token_embeddings
            } else {
                tensor_numbers(raw, c, "output.weight"@) == Ok::<Seq<u32>, LoadFault>(n.lm_head_w)
            }
        }),
{
    let n = model_of(raw, c, arch)->Good_0;
    lemma_layer_at(raw, c, n.config.n_layers as nat, i);
    lemma_layer_tensors(raw, c, i);
    lemma_missing(raw, c, "output.weight"@);
    let blk = "blk."@ + decimal(i);
    lemma_missing(raw, c, blk + ".attn_q.bias"@);
    lemma_missing(raw, c, blk + ".attn_k.bias"@);
    lemma_missing(raw, c, blk + ".attn_v.bias"@);
}

/// A tensor is missing exactly where no tensor has the name.
proof fn lemma_missing(raw: Seq<u8>, c: Content, name: Seq<char>)
    ensures
        (tensor_numbers(raw, c, name) matches Err(LoadFault::Fault(GgufFault::NoSuchTensor(_))))
            <==> last_tensor(c.tensors, name) is None,
{
}

/// Layer `i` of the first `n`.
proof fn lemma_layer_at(raw: Seq<u8>, c: Content, n: nat, i: nat)
    requires
        i < n,
        layers_of(raw, c, n) is Ok,
    ensures
        layers_of(raw, c, n)->Ok_0.len() == n,
        layer_of(raw, c, i) == Ok::<LayerNumbers, LoadFault>(layers_of(raw, c, n)->Ok_0[i as int]),
    decreases n,
{
    let before = (n - 1) as nat;
    if i < before {
        lemma_layer_at(raw, c, before, i);
    } else if before > 0 {
        lemma_layer_at(raw, c, before, (before - 1) as nat);
    }
}

/// The tensors of a layer.
proof fn lemma_layer_tensors(raw: Seq<u8>, c: Content, i: nat)
    requires
        layer_of(raw, c, i) is Ok,
    ensures
        ({
            let l = layer_of(raw, c, i)->Ok_0;
            let blk = "blk."@ + decimal(i);
            let is = |rest: Seq<char>, s: Seq<u32>| tensor_numbers(raw, c, blk + rest) == Ok::<
                Seq<u32>,
                LoadFault,
            >(s);
            &&& is(".attn_norm.weight"@, l.attn_norm_w)
            &&& is(".attn_q.weight"@, l.wq)
            &&& is(".attn_k.weight"@, l.wk)
            &&& is(".attn_v.weight"@, l.wv)
            &&& is(".attn_output.weight"@, l.wo)
            &&& is(".ffn_norm.weight"@, l.ffn_norm_w)
            &&& is(".ffn_gate.weight"@, l.w_gate)
            &&& is(".ffn_up.weight"@, l.w_up)
            &&& is(".ffn_down.weight"@, l.w_down)
            &&& optional_numbers(raw, c, blk + ".attn_q.bias"@) == Ok::<
                Option<Seq<u32>>,
                LoadFault,
            >(l.b_q)
            &&& optional_numbers(raw, c, blk + ".attn_k.bias"@) == Ok::<
                Option<Seq<u32>>,
                LoadFault,
            >(l.b_k)
            &&& optional_numbers(raw, c, blk + ".attn_v.bias"@) == Ok::<
                Option<Seq<u32>>,
                LoadFault,
            >(l.b_v)
        }),
{
    reveal(layer_of);
    let names = layer_names(i);
    assert forall|k: int| 0 <= k < names.len() implies tensor_numbers(raw, c, #[trigger] names[k])
        == Ok::<Seq<u32>, LoadFault>(all_numbers(raw, c, names)->Ok_0[k]) by {
        lemma_numbers_at(raw, c, names, k);
    }
    assert(names[0] == names[0] && names[1] == names[1] && names[2] == names[2]);
    assert(names[3] == names[3] && names[4] == names[4] && names[5] == names[5]);
    assert(names[6] == names[6] && names[7] == names[7] && names[8] == names[8]);
}

/// The tensor of name `k`.
proof fn lemma_numbers_at(raw: Seq<u8>, c: Content, names: Seq<Seq<char>>, k: int)
    requires
        0 <= k < names.len(),
        all_numbers(raw, c, names) is Ok,
    ensures
        all_numbers(raw, c, names)->Ok_0.len() == names.len(),
        tensor_numbers(raw, c, names[k]) == Ok::<Seq<u32>, LoadFault>(
            all_numbers(raw, c, names)->Ok_0[k],
        ),
    decreases names.len(),
{
    let before = names.drop_last();
    if k < before.len() {
        lemma_numbers_at(raw, c, before, k);
    } else if before.len() > 0 {
        lemma_numbers_at(raw, c, before, before.len() - 1);
    }
}

/// Where the bytes of a tensor stand: at its offset in the data section.
pub proof fn lemma_tensor_bytes(raw: Seq<u8>, c: Content, i: int, n: nat)
    requires
        0 <= i < c.tensors.len(),
        forall|j: int|
            i < j < c.tensors.len() ==> (#[trigger] c.tensors[j]).name != c.tensors[i].name,
        dims_product(c.tensors[i].dims) == Some(n),
        c.tensors[i].dtype is F32 || c.tensors[i].dtype is F16,
        0 <= c.data_offset,
        c.data_offset + c.tensors[i].offset + 4 * n <= raw.len() <= u64::MAX,
    ensures
        ({
            let t = c.tensors[i];
            let at = c.data_offset + t.offset;
            let size = if t.dtype is F32 {
                4 * n
            } else {
                2 * n
            };
            tensor_numbers(raw, c, t.name) == Ok::<Seq<u32>, LoadFault>(
                decode(t.dtype, raw.subrange(at, (at + size) as int))->Ok_0,
            )
        }),
{
    lemma_last_tensor(c.tensors, c.tensors[i].name, i);
}

/// Numbers that are stored as fp32 are read as they stand, lowest byte first.
pub proof fn lemma_f32_numbers(s: Seq<u8>, i: int)
    requires
        0 <= i,
        4 * i + 4 <= s.len(),
    ensures
        decode(GgmlType::F32, s) matches Ok(v) && v.len() == s.len() / 4 && v[i] == s[4 * i] + 0x100
            * s[4 * i + 1] + 0x1_0000 * s[4 * i + 2] + 0x100_0000 * s[4 * i + 3],
{
    let w = s.subrange(4 * i, 4 * i + 4);
    lemma_le_bytes_of_le_value(w);
    lemma_pow256_values();
    reveal_with_fuel(le_value, 5);
    assert(w.drop_first() =~= s.subrange(4 * i + 1, 4 * i + 4));
    assert(w.drop_first().drop_first() =~= s.subrange(4 * i + 2, 4 * i + 4));
    assert(w.drop_first().drop_first().drop_first() =~= s.subrange(4 * i + 3, 4 * i + 4));
}

/// Numbers that are stored as fp16, lowest byte first, are read as the fp32
/// numbers of the same value.
pub proof fn lemma_f16_numbers(s: Seq<u8>, i: int)
    requires
        0 <= i,
        2 * i + 2 <= s.len(),
    ensures
        decode(GgmlType::F16, s) matches Ok(v) && v.len() == s.len() / 2 && ({
            let h = (s[2 * i] + 0x100 * s[2 * i + 1]) as u16;
            f16_mag(h) < F16_INF ==> f32_units(v[i]) == f16_units(h) * p2(125) && f32_neg(v[i])
                == f16_neg(h)
        }),
{
    lemma_scale(s, 2 * i);
    let h = scale_at(s, 2 * i);
    assert(1 * f16_units(h) == f16_units(h));
    assert(f16_mag(h) < F16_INF ==> widened(h) == dequantized(1, h));
    lemma_fits(1, h);
}

/// The two bytes of an fp16 number.
proof fn lemma_scale(s: Seq<u8>, at: int)
    requires
        0 <= at,
        at + 2 <= s.len(),
    ensures
        scale_at(s, at) == s[at] + 0x100 * s[at + 1],
{
    let w = s.subrange(at, at + 2);
    reveal_with_fuel(le_value, 3);
    assert(w.drop_first() =~= s.subrange(at + 1, at + 2));
}

/// Numbers in Q8_0 blocks: element `j` of block `b` is the signed byte behind the
/// block's scale, times the scale.
pub proof fn lemma_q8_numbers(s: Seq<u8>, b: int, j: int)
    requires
        0 <= b,
        34 * b + 34 <= s.len(),
        0 <= j < 32,
    ensures
        decode(GgmlType::Q8_0, s) matches Ok(v) && v.len() == s.len() / 34 * 32 && ({
            let d = (s[34 * b] + 0x100 * s[34 * b + 1]) as u16;
            let byte = s[34 * b + 2 + j];
            let q = if byte >= 0x80 {
                byte - 0x100
            } else {
                byte as int
            };
            let r = v[32 * b + j];
            f16_mag(d) < F16_INF ==> {
                &&& f32_units(r) == (if q < 0 {
                    -q
                } else {
                    q
                }) * f16_units(d) * p2(125)
                &&& f32_neg(r) == ((q < 0) != f16_neg(d))
            }
        }),
{
    lemma_scale(s, 34 * b);
    let d = scale_at(s, 34 * b);
    let i = 32 * b + j;
    assert(i / 32 == b && i % 32 == j);
    let q = signed_byte(s[34 * b + 2 + j]);
    lemma_fits(q, d);
}

/// Numbers in Q4_0 blocks: the first 16 elements of a block are the low halves of
/// the bytes behind its scale and the others the high ones, each less 8, times
/// the scale.
pub proof fn lemma_q4_numbers(s: Seq<u8>, b: int, j: int)
    requires
        0 <= b,
        18 * b + 18 <= s.len(),
        0 <= j < 32,
    ensures
        decode(GgmlType::Q4_0, s) matches Ok(v) && v.len() == s.len() / 18 * 32 && ({
            let d = (s[18 * b] + 0x100 * s[18 * b + 1]) as u16;
            let q = if j < 16 {
                s[18 * b + 2 + j] % 16 - 8
            } else {
                s[18 * b + 2 + (j - 16)] / 16 - 8
            };
            let r = v[32 * b + j];
            f16_mag(d) < F16_INF ==> {
                &&& f32_units(r) == (if q < 0 {
                    -q
                } else {
                    q
                }) * f16_units(d) * p2(125)
                &&& f32_neg(r) == ((q < 0) != f16_neg(d))
            }
        }),
{
    lemma_scale(s, 18 * b);
    let d = scale_at(s, 18 * b);
    let i = 32 * b + j;
    assert(i / 32 == b && i % 32 == j);
    let q = if j < 16 {
        s[18 * b + 2 + j] % 16 - 8
    } else {
        s[18 * b + 2 + (j - 16)] / 16 - 8
    };
    lemma_fits(q, d);
}

/// A dequantized number is a pattern, and the product of its parts.
proof fn lemma_fits(q: int, d: u16)
    requires
        -128 <= q <= 127,
    ensures
        f16_mag(d) < F16_INF ==> {
            let r = dequantized(q, d) as u32;
            &&& f32_units(r) == (if q < 0 {
                -q
            } else {
                q
            }) * f16_units(d) * p2(125)
            &&& f32_neg(r) == ((q < 0) != f16_neg(d))
        },
{
    if f16_mag(d) < F16_INF {
        assert(dequantized(q, d) <= 0xFFFF_FFFF);
        lemma_dequantized_exact(q, d, dequantized(q, d) as u32);
    }
}

} // verus!
