//! Which files are refused, and with what reason.

use crate::bytes::le_value;
use crate::model::gguf::{
    fixed_value, ggml_type_of, kv_type_of, padding, parse_bytes, parse_element,
    parse_file, parse_pair, parse_string, parse_uint, parse_value, GgmlType, GgufFault, KvType,
    KvView, Parsed,
};
use vstd::prelude::*;
use vstd::utf8::{decode_utf8, valid_utf8};

verus! {

/// A file starts with the four letters of its format and the version 3. A file that
/// ends before is cut short, and another start or version is refused for it.
pub proof fn lemma_start_of_file(s: Seq<u8>)
    ensures
        s.len() < 4 ==> (parse_file(s) matches Parsed::Bad(e) && e == (GgufFault::Truncated {
            needed: 4,
            at: 0,
            available: s.len() as int,
        })),
        s.len() >= 4 && s.take(4) != seq![0x47u8, 0x47, 0x55, 0x46] ==> (parse_file(
            s,
        ) matches Parsed::Bad(e) && e == GgufFault::BadMagic(s.take(4))),
        4 <= s.len() < 8 && s.take(4) == seq![0x47u8, 0x47, 0x55, 0x46] ==> (parse_file(
            s,
        ) matches Parsed::Bad(e) && e == (GgufFault::Truncated {
            needed: 4,
            at: 4,
            available: s.len() - 4,
        })),
        ({
            let version = le_value(s.subrange(4, 8));
            s.len() >= 8 && s.take(4) == seq![0x47u8, 0x47, 0x55, 0x46] && version != 3 ==> (
            parse_file(s) matches Parsed::Bad(e) && e == GgufFault::UnsupportedVersion(
                version as u32,
            ))
        }),
{
    if s.len() >= 4 {
        assert(s.subrange(0, 4) =~= s.take(4));
    }
}

/// Bytes that a file does not have are missed, with how many are there.
pub proof fn lemma_cut_short(s: Seq<u8>, pos: int, n: int)
    requires
        0 <= pos <= s.len(),
        0 <= n,
    ensures
        pos + n > s.len() ==> (parse_bytes(s, pos, n) matches Parsed::Bad(e) && e == (
        GgufFault::Truncated { needed: n, at: pos, available: s.len() - pos })),
        pos + n <= s.len() ==> parse_bytes(s, pos, n) == Parsed::Good(
            s.subrange(pos, pos + n),
            pos + n,
        ),
        pos + n <= s.len() ==> parse_uint(s, pos, n) == Parsed::Good(
            le_value(s.subrange(pos, pos + n)),
            pos + n,
        ),
{
}

/// A string is its length in eight bytes and as many bytes of UTF-8; other bytes are
/// refused, with the place where they start.
pub proof fn lemma_string_refused(s: Seq<u8>, pos: int, n: nat)
    requires
        0 <= pos,
        pos + 8 + n <= s.len(),
        le_value(s.subrange(pos, pos + 8)) == n,
    ensures
        ({
            let text = s.subrange(pos + 8, pos + 8 + n);
            &&& valid_utf8(text) ==> parse_string(s, pos) == Parsed::Good(
                decode_utf8(text),
                pos + 8 + n,
            )
            &&& !valid_utf8(text) ==> parse_string(s, pos) == Parsed::<Seq<char>>::Bad(
                GgufFault::BadString(pos + 8),
            )
        }),
{
}

/// The tags of the value types and of the tensor types. Other tags have none.
pub proof fn lemma_tags(v: u32)
    ensures
        kv_type_of(0) == Some(KvType::U8),
        kv_type_of(1) == Some(KvType::I8),
        kv_type_of(2) == Some(KvType::U16),
        kv_type_of(3) == Some(KvType::I16),
        kv_type_of(4) == Some(KvType::U32),
        kv_type_of(5) == Some(KvType::I32),
        kv_type_of(6) == Some(KvType::F32),
        kv_type_of(7) == Some(KvType::Bool),
        kv_type_of(8) == Some(KvType::String),
        kv_type_of(9) == Some(KvType::Array),
        kv_type_of(10) == Some(KvType::U64),
        kv_type_of(11) == Some(KvType::I64),
        kv_type_of(12) == Some(KvType::F64),
        v > 12 ==> kv_type_of(v) is None,
        ggml_type_of(0) == Some(GgmlType::F32),
        ggml_type_of(1) == Some(GgmlType::F16),
        ggml_type_of(2) == Some(GgmlType::Q4_0),
        ggml_type_of(3) == Some(GgmlType::Q4_1),
        ggml_type_of(6) == Some(GgmlType::Q5_0),
        ggml_type_of(7) == Some(GgmlType::Q5_1),
        ggml_type_of(8) == Some(GgmlType::Q8_0),
        ggml_type_of(9) == Some(GgmlType::Q8_1),
        v == 4 || v == 5 || v > 9 ==> ggml_type_of(v) is None,
{
}

/// A pair whose value has no known type is refused, and so is a list of lists.
pub proof fn lemma_type_refused(s: Seq<u8>, pos: int, at: int, key: Seq<char>, tag: nat)
    requires
        parse_string(s, pos) == Parsed::Good(key, at),
        0 <= at,
        at + 4 <= s.len(),
        le_value(s.subrange(at, at + 4)) == tag,
        12 < tag <= u32::MAX,
    ensures
        parse_pair(s, pos) == Parsed::<(Seq<char>, KvView)>::Bad(GgufFault::BadKvType(tag as u32)),
        parse_element(s, at, KvType::Array) == Parsed::<()>::Bad(GgufFault::BadKvType(9)),
        parse_value(s, at, KvType::Array) == Parsed::<KvView>::Bad(GgufFault::BadKvType(tag as u32)),
{
}

/// A truth value is false where its byte is zero, and true otherwise.
pub proof fn lemma_truth_values(v: nat)
    ensures
        fixed_value(KvType::Bool, v) == KvView::Bool(v != 0),
{
}

/// The data section starts at the first multiple of the alignment after the table.
pub proof fn lemma_least_padding(pos: int, align: int)
    requires
        0 <= pos,
        0 < align,
    ensures
        0 <= padding(pos, align) < align,
        (pos + padding(pos, align)) % align == 0,
{
    let (q, r) = (pos / align, pos % align);
    vstd::arithmetic::div_mod::lemma_fundamental_div_mod(pos, align);
    assert(0 <= r < align);
    if r == 0 {
        assert(padding(pos, align) == align % align);
        vstd::arithmetic::div_mod::lemma_mod_self_0(align);
    } else {
        vstd::arithmetic::div_mod::lemma_small_mod((align - r) as nat, align as nat);
        assert(padding(pos, align) == align - r);
        assert(pos + (align - r) == (q + 1) * align + 0) by (nonlinear_arith)
            requires
                pos == align * q + r,
        ;
        vstd::arithmetic::div_mod::lemma_fundamental_div_mod_converse(
            pos + (align - r),
            align,
            q + 1,
            0,
        );
    }
}

} // verus!
