//! What a listing shows of a model file, and how large its tensors are.

use crate::float_text::{f32_display, f64_display};
use crate::model::gguf::{
    dims_product, kv_type_name, payload_bytes, unit_bytes, GgmlType, KvType, KvValue, KvView, TensorView,
};
use crate::model::inspect::{
    cut, entry_lines, key_order, keys_of, left_aligned, lex_less, listing, number_list, preview,
    tensor_lines,
};
use crate::text::{decimal, signed_decimal, utf8_len};
use vstd::prelude::*;

verus! {

// ---- sizes ----------------------------------------------------------------------------

/// A tensor has as many numbers as its dimensions multiply to, as long as that fits.
pub proof fn lemma_dims_multiply(dims: Seq<u64>, d: u64)
    ensures
        dims_product(Seq::empty()) == Some(1nat),
        dims_product(dims) matches Some(n) ==> (n * d <= u64::MAX ==> dims_product(dims.push(d))
            == Some((n * d) as nat)),
        dims_product(dims) matches Some(n) ==> (n * d > u64::MAX ==> dims_product(
            dims.push(d),
        ) is None),
        dims_product(dims) is None ==> dims_product(dims.push(d)) is None,
{
    assert(dims.push(d).drop_last() =~= dims);
}

/// How many bytes the numbers of a tensor take: four or two for each where they are
/// plain, and a fixed number for every 32 of them where they are in blocks.
pub proof fn lemma_tensor_size(t: TensorView, n: nat)
    requires
        dims_product(t.dims) == Some(n),
        36 * n <= u64::MAX,
    ensures
        t.dtype == GgmlType::F32 ==> payload_bytes(t) == Some(4 * n),
        t.dtype == GgmlType::F16 ==> payload_bytes(t) == Some(2 * n),
        t.dtype == GgmlType::Q4_0 ==> payload_bytes(t) == Some(18 * n / 32),
        t.dtype == GgmlType::Q4_1 ==> payload_bytes(t) == Some(20 * n / 32),
        t.dtype == GgmlType::Q5_0 ==> payload_bytes(t) == Some(22 * n / 32),
        t.dtype == GgmlType::Q5_1 ==> payload_bytes(t) == Some(24 * n / 32),
        t.dtype == GgmlType::Q8_0 ==> payload_bytes(t) == Some(34 * n / 32),
        t.dtype == GgmlType::Q8_1 ==> payload_bytes(t) == Some(36 * n / 32),
{
    let u = unit_bytes(t.dtype) as nat;
    lemma_times(n, u);
}

proof fn lemma_times(n: nat, u: nat)
    ensures
        n * u == u * n,
        u == 2 ==> n * u == 2 * n,
        u == 4 ==> n * u == 4 * n,
        u == 18 ==> n * u == 18 * n,
        u == 20 ==> n * u == 20 * n,
        u == 22 ==> n * u == 22 * n,
        u == 24 ==> n * u == 24 * n,
        u == 34 ==> n * u == 34 * n,
        u == 36 ==> n * u == 36 * n,
{
    assert(n * u == u * n) by (nonlinear_arith);
}

// ---- order ----------------------------------------------------------------------------

/// Of two texts that start alike, the one with the lesser character next comes
/// first; one that ends there comes before one that goes on.
pub proof fn lemma_dictionary_order(head: Seq<char>, a: Seq<char>, b: Seq<char>)
    ensures
        a.len() > 0 && b.len() > 0 && a[0] < b[0] ==> lex_less(head + a, head + b) && !lex_less(
            head + b,
            head + a,
        ),
        b.len() > 0 ==> lex_less(head, head + b),
        !lex_less(head + b, head),
    decreases head.len(),
{
    if head.len() > 0 {
        let rest = head.drop_first();
        lemma_dictionary_order(rest, a, b);
        assert((head + a).drop_first() =~= rest + a);
        assert((head + b).drop_first() =~= rest + b);
    } else {
        assert(head + a =~= a);
        assert(head + b =~= b);
    }
}

// ---- texts ----------------------------------------------------------------------------

/// A value is shown with its type before it. A text of more than 80 bytes is shown
/// with its length and its first 77 bytes, and a list with its size alone.
pub proof fn lemma_value_shown(v: KvView)
    ensures
        v matches KvView::U8(x) ==> preview(v) == "u8 "@ + decimal(x as nat),
        v matches KvView::I8(x) ==> preview(v) == "i8 "@ + signed_decimal(x as int),
        v matches KvView::U16(x) ==> preview(v) == "u16 "@ + decimal(x as nat),
        v matches KvView::I16(x) ==> preview(v) == "i16 "@ + signed_decimal(x as int),
        v matches KvView::U32(x) ==> preview(v) == "u32 "@ + decimal(x as nat),
        v matches KvView::I32(x) ==> preview(v) == "i32 "@ + signed_decimal(x as int),
        v matches KvView::U64(x) ==> preview(v) == "u64 "@ + decimal(x as nat),
        v matches KvView::I64(x) ==> preview(v) == "i64 "@ + signed_decimal(x as int),
        v matches KvView::F32(b) ==> preview(v) == "f32 "@ + f32_display(b),
        v matches KvView::F64(b) ==> preview(v) == "f64 "@ + f64_display(b),
        v == KvView::Bool(true) ==> preview(v) == "bool "@ + "true"@,
        v == KvView::Bool(false) ==> preview(v) == "bool "@ + "false"@,
        v matches KvView::Text(s) ==> (utf8_len(s) <= 80 ==> preview(v) == "string \""@ + s + "\""@),
        v matches KvView::Text(s) ==> (utf8_len(s) > 80 ==> preview(v) == "string len="@ + decimal(
            utf8_len(s),
        ) + " \""@ + cut(s) + "...\""@),
        v matches KvView::Array(t, raw) ==> preview(v) == "array<"@ + kv_type_name(t) + "> "@
            + decimal(raw.len()) + " bytes"@,
{
}

/// What is shown of a long text is its beginning, as much as takes 77 bytes.
pub proof fn lemma_cut(s: Seq<char>)
    requires
        exists|i: int| 0 <= i <= s.len() && #[trigger] utf8_len(s.subrange(0, i)) == 77,
    ensures
        utf8_len(cut(s)) == 77,
        cut(s).len() <= s.len(),
        cut(s) == s.subrange(0, cut(s).len() as int),
{
}

/// The types that a list can have, by name.
pub proof fn lemma_list_types()
    ensures
        kv_type_name(KvType::U8) == "U8"@,
        kv_type_name(KvType::I8) == "I8"@,
        kv_type_name(KvType::U16) == "U16"@,
        kv_type_name(KvType::I16) == "I16"@,
        kv_type_name(KvType::U32) == "U32"@,
        kv_type_name(KvType::I32) == "I32"@,
        kv_type_name(KvType::F32) == "F32"@,
        kv_type_name(KvType::Bool) == "Bool"@,
        kv_type_name(KvType::String) == "String"@,
        kv_type_name(KvType::Array) == "Array"@,
        kv_type_name(KvType::U64) == "U64"@,
        kv_type_name(KvType::I64) == "I64"@,
        kv_type_name(KvType::F64) == "F64"@,
{
}

/// The pairs are shown in order, one to a line.
pub proof fn lemma_pair_line(entries: Seq<(String, KvValue)>, list: Seq<usize>, i: usize)
    ensures
        entry_lines(entries, Seq::empty()) == Seq::<char>::empty(),
        entry_lines(entries, list.push(i)) == entry_lines(entries, list) + "  "@
            + entries[i as int].0@ + " = "@ + preview(entries[i as int].1@) + "\n"@,
{
    assert(list.push(i).drop_last() =~= list);
}

/// The name that a tensor's type is shown under.
pub open spec fn shown_type(t: GgmlType) -> Seq<char> {
    match t {
        GgmlType::F32 => "F32"@,
        GgmlType::F16 => "F16"@,
        GgmlType::Q4_0 => "Q4_0"@,
        GgmlType::Q4_1 => "Q4_1"@,
        GgmlType::Q5_0 => "Q5_0"@,
        GgmlType::Q5_1 => "Q5_1"@,
        GgmlType::Q8_0 => "Q8_0"@,
        GgmlType::Q8_1 => "Q8_1"@,
    }
}

/// The tensors are shown in order, one to a line: the name in a field of 50, the
/// type, the dimensions, and how many bytes there are.
pub proof fn lemma_tensor_shown(tensors: Seq<TensorView>, t: TensorView)
    requires
        payload_bytes(t) is Some,
    ensures
        tensor_lines(Seq::empty()) == Seq::<char>::empty(),
        tensor_lines(tensors.push(t)) == tensor_lines(tensors) + ("  "@ + left_aligned(t.name, 50)
            + " "@ + shown_type(t.dtype) + " ["@ + number_list(t.dims) + "] -> "@ + decimal(
            payload_bytes(t)->0,
        ) + " bytes\n"@),
{
    assert(tensors.push(t).drop_last() =~= tensors);
}

/// A text at the left end of a field: spaces follow it up to the width.
pub proof fn lemma_left_aligned(s: Seq<char>, width: nat)
    ensures
        left_aligned(s, width).len() == (if s.len() < width {
            width
        } else {
            s.len()
        }),
        left_aligned(s, width).take(s.len() as int) == s,
        forall|i: int|
            s.len() <= i < left_aligned(s, width).len() ==> #[trigger] left_aligned(s, width)[i] == ' ',
{
    assert(left_aligned(s, width).take(s.len() as int) =~= s);
}

/// Numbers stand in order, a comma and a space between them.
pub proof fn lemma_numbers_listed(s: Seq<u64>, n: u64)
    ensures
        number_list(Seq::empty()) == Seq::<char>::empty(),
        number_list(seq![n]) == decimal(n as nat),
        s.len() > 0 ==> number_list(s.push(n)) == number_list(s) + ", "@ + decimal(n as nat),
{
    assert(s.push(n).drop_last() =~= s);
}

/// The whole listing: the path, the alignment and the two counts, the pairs in the
/// order of their keys, and the tensors as they come.
pub proof fn lemma_listing(
    path: Seq<char>,
    alignment: u64,
    entries: Seq<(String, KvValue)>,
    tensors: Seq<TensorView>,
)
    ensures
        listing(path, alignment, entries, tensors) == "=== "@ + path + " ===\nalignment: "@
            + decimal(alignment as nat) + "\ntensors:   "@ + decimal(tensors.len())
            + "\nkv pairs:  "@ + decimal(entries.len()) + "\n\n--- metadata ---\n"@ + entry_lines(
            entries,
            key_order(keys_of(entries), entries.len()),
        ) + "\n--- tensors ---\n"@ + tensor_lines(tensors),
        keys_of(entries).len() == entries.len(),
        forall|i: int| 0 <= i < entries.len() ==> #[trigger] keys_of(entries)[i] == entries[i].0@,
{
}

} // verus!
