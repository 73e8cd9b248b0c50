//! A readable listing of what a model file holds.

use crate::float_text::{f32_display, f64_display, push_f32, push_f64};
use crate::model::gguf::{
    kv_type_name, payload_bytes, tensor_views, GgmlType, KvValue, KvView, TensorInfo, TensorView,
};
use crate::text::{
    char_width, decimal, lemma_utf8_len, push_chars, push_decimal, push_repeated, push_text, signed_decimal,
    to_chars, utf8_len,
};
use vstd::prelude::*;
use vstd::string::StringSliceAdditionalSpecFns;

verus! {

// ---- keys in order --------------------------------------------------------------------

/// Whether `a` stands before `b` in a dictionary.
pub open spec fn lex_less(a: Seq<char>, b: Seq<char>) -> bool
    decreases a.len(),
{
    if b.len() == 0 {
        false
    } else if a.len() == 0 {
        true
    } else if a[0] != b[0] {
        a[0] < b[0]
    } else {
        lex_less(a.drop_first(), b.drop_first())
    }
}

/// The position `x` put behind every position whose key does not stand after
/// its key.
pub open spec fn place(keys: Seq<Seq<char>>, list: Seq<usize>, x: usize) -> Seq<usize>
    decreases list.len(),
{
    if list.len() == 0 || !lex_less(keys[x as int], keys[list.last() as int]) {
        list.push(x)
    } else {
        place(keys, list.drop_last(), x).push(list.last())
    }
}

/// The first `n` positions in the order of their keys.
pub open spec fn key_order(keys: Seq<Seq<char>>, n: nat) -> Seq<usize>
    decreases n,
{
    if n == 0 {
        Seq::empty()
    } else {
        place(keys, key_order(keys, (n - 1) as nat), (n - 1) as usize)
    }
}

/// Whether no key stands before one that is listed earlier.
pub open spec fn in_order(keys: Seq<Seq<char>>, list: Seq<usize>) -> bool {
    forall|i: int, j: int|
        0 <= i < j < list.len() ==> !lex_less(keys[#[trigger] list[j] as int], keys[#[trigger] list[i]
            as int])
}

proof fn lemma_less_transitive(a: Seq<char>, b: Seq<char>, c: Seq<char>)
    requires
        !lex_less(b, a),
        !lex_less(c, b),
    ensures
        !lex_less(c, a),
    decreases a.len() + b.len() + c.len(),
{
    if a.len() > 0 && c.len() > 0 && b.len() > 0 && a[0] == b[0] && b[0] == c[0] {
        lemma_less_transitive(a.drop_first(), b.drop_first(), c.drop_first());
    }
}

proof fn lemma_less_one_way(a: Seq<char>, b: Seq<char>)
    requires
        lex_less(a, b),
    ensures
        !lex_less(b, a),
    decreases a.len(),
{
    if a.len() > 0 && b.len() > 0 && a[0] == b[0] {
        lemma_less_one_way(a.drop_first(), b.drop_first());
    }
}

proof fn lemma_place(keys: Seq<Seq<char>>, list: Seq<usize>, x: usize)
    requires
        in_order(keys, list),
    ensures
        in_order(keys, place(keys, list, x)),
        place(keys, list, x).to_multiset() == list.to_multiset().insert(x),
        place(keys, list, x).len() == list.len() + 1,
        forall|k: Seq<char>|
            !lex_less(k, keys[x as int]) && (list.len() > 0 ==> !lex_less(
                k,
                keys[list.last() as int],
            )) ==> #[trigger] none_after(keys, place(keys, list, x), k),
    decreases list.len(),
{
    broadcast use vstd::seq_lib::group_to_multiset_ensures;

    let placed = place(keys, list, x);
    if list.len() > 0 && lex_less(keys[x as int], keys[list.last() as int]) {
        let rest = list.drop_last();
        let last = list.last();
        lemma_place(keys, rest, x);
        assert(rest.push(last) =~= list);
        lemma_less_one_way(keys[x as int], keys[last as int]);
        assert(none_after(keys, place(keys, rest, x), keys[last as int]));
        assert(list.to_multiset() =~= rest.to_multiset().insert(last));
        assert(placed.to_multiset() =~= list.to_multiset().insert(x));
        assert forall|k: Seq<char>|
            !lex_less(k, keys[x as int]) && !lex_less(
                k,
                keys[last as int],
            ) implies #[trigger] none_after(keys, placed, k) by {
            assert forall|i: int| 0 <= i < placed.len() implies !lex_less(
                k,
                keys[#[trigger] placed[i] as int],
            ) by {
                if i < rest.len() + 1 {
                    assert(placed[i] == place(keys, rest, x)[i]);
                    lemma_less_transitive(
                        keys[placed[i] as int],
                        keys[last as int],
                        k,
                    );
                }
            }
        }
    } else {
        assert forall|k: Seq<char>|
            !lex_less(k, keys[x as int]) && (list.len() > 0 ==> !lex_less(
                k,
                keys[list.last() as int],
            )) implies #[trigger] none_after(keys, placed, k) by {
            assert forall|i: int| 0 <= i < placed.len() implies !lex_less(
                k,
                keys[#[trigger] placed[i] as int],
            ) by {
                if i < list.len() - 1 {
                    assert(!lex_less(keys[list.last() as int], keys[list[i] as int]));
                    lemma_less_transitive(keys[list[i] as int], keys[list.last() as int], k);
                }
            }
        }
        assert(none_after(keys, list.push(x), keys[x as int])) by {
            lemma_less_irreflexive(keys[x as int]);
        }
        assert forall|i: int, j: int| 0 <= i < j < placed.len() implies !lex_less(
            keys[#[trigger] placed[j] as int],
            keys[#[trigger] placed[i] as int],
        ) by {
            if j == list.len() {
                assert(!lex_less(keys[x as int], keys[placed[i] as int]));
            }
        }
    }
}

proof fn lemma_less_irreflexive(a: Seq<char>)
    ensures
        !lex_less(a, a),
    decreases a.len(),
{
    if a.len() > 0 {
        lemma_less_irreflexive(a.drop_first());
    }
}

/// Whether `k` stands before none of the keys.
spec fn none_after(keys: Seq<Seq<char>>, list: Seq<usize>, k: Seq<char>) -> bool {
    forall|i: int| 0 <= i < list.len() ==> !lex_less(k, keys[#[trigger] list[i] as int])
}

/// The positions are listed in the order of their keys, each once.
pub proof fn lemma_key_order(keys: Seq<Seq<char>>, n: nat)
    requires
        n <= keys.len(),
        n <= usize::MAX,
    ensures
        in_order(keys, key_order(keys, n)),
        key_order(keys, n).to_multiset() == Seq::new(n, |i: int| i as usize).to_multiset(),
        key_order(keys, n).len() == n,
    decreases n,
{
    broadcast use vstd::seq_lib::group_to_multiset_ensures;

    if n > 0 {
        let m = (n - 1) as nat;
        lemma_key_order(keys, m);
        lemma_place(keys, key_order(keys, m), m as usize);
        assert(Seq::new(n, |i: int| i as usize) =~= Seq::new(m, |i: int| i as usize).push(
            m as usize,
        ));
    } else {
        assert(Seq::new(0, |i: int| i as usize) =~= Seq::<usize>::empty());
    }
}

proof fn lemma_place_members(keys: Seq<Seq<char>>, list: Seq<usize>, x: usize, n: nat)
    requires
        forall|i: int| 0 <= i < list.len() ==> #[trigger] list[i] < n,
        x < n,
    ensures
        forall|i: int| 0 <= i < place(keys, list, x).len() ==> #[trigger] place(keys, list, x)[i] < n,
    decreases list.len(),
{
    if list.len() > 0 && lex_less(keys[x as int], keys[list.last() as int]) {
        let rest = place(keys, list.drop_last(), x);
        lemma_place_members(keys, list.drop_last(), x, n);
        assert(list[list.len() - 1] < n);
        assert forall|i: int| 0 <= i < place(keys, list, x).len() implies #[trigger] place(
            keys,
            list,
            x,
        )[i] < n by {
            if i < rest.len() {
                assert(rest[i] < n);
            }
        }
    }
}

proof fn lemma_order_members(keys: Seq<Seq<char>>, n: nat)
    requires
        n <= usize::MAX,
    ensures
        forall|i: int| 0 <= i < key_order(keys, n).len() ==> #[trigger] key_order(keys, n)[i] < n,
    decreases n,
{
    if n > 0 {
        lemma_order_members(keys, (n - 1) as nat);
        lemma_place_members(keys, key_order(keys, (n - 1) as nat), (n - 1) as usize, n);
    }
}

fn less(a: &Vec<char>, b: &Vec<char>) -> (r: bool)
    ensures
        r == lex_less(a@, b@),
{
    let mut i: usize = 0;
    assert(a@.subrange(0, a@.len() as int) =~= a@);
    assert(b@.subrange(0, b@.len() as int) =~= b@);
    while i < a.len() && i < b.len() && a[i] == b[i]
        invariant
            i <= a@.len(),
            i <= b@.len(),
            lex_less(a@, b@) == lex_less(
                a@.subrange(i as int, a@.len() as int),
                b@.subrange(i as int, b@.len() as int),
            ),
        decreases a@.len() - i,
    {
        proof {
            assert(a@.subrange(i as int, a@.len() as int).drop_first() =~= a@.subrange(
                i + 1,
                a@.len() as int,
            ));
            assert(b@.subrange(i as int, b@.len() as int).drop_first() =~= b@.subrange(
                i + 1,
                b@.len() as int,
            ));
        }
        i = i + 1;
    }
    if i == b.len() {
        false
    } else if i == a.len() {
        true
    } else {
        a[i] < b[i]
    }
}

/// The keys of a list of entries.
pub open spec fn keys_of(entries: Seq<(String, KvValue)>) -> Seq<Seq<char>> {
    Seq::new(entries.len(), |i: int| entries[i].0@)
}

fn place_key(entries: &Vec<(String, KvValue)>, list: &mut Vec<usize>, x: usize)
    requires
        x < entries@.len(),
        forall|i: int| 0 <= i < old(list)@.len() ==> #[trigger] old(list)@[i] < entries@.len(),
    ensures
        final(list)@ == place(keys_of(entries@), old(list)@, x),
    decreases old(list)@.len(),
{
    let n: usize = list.len();
    let ghost before = list@;
    if n == 0 {
        list.push(x);
        return;
    }
    let last: usize = list[n - 1];
    let kx = to_chars(entries[x].0.as_str());
    let kl = to_chars(entries[last].0.as_str());
    if !less(&kx, &kl) {
        list.push(x);
    } else {
        list.pop();
        assert(list@ =~= before.drop_last());
        place_key(entries, list, x);
        list.push(last);
    }
}

/// The positions of the entries in the order of their keys.
pub fn sorted_positions(entries: &Vec<(String, KvValue)>) -> (list: Vec<usize>)
    ensures
        list@ == key_order(keys_of(entries@), entries@.len()),
        forall|i: int| 0 <= i < list@.len() ==> #[trigger] list@[i] < entries@.len(),
{
    let mut list: Vec<usize> = Vec::new();
    let mut i: usize = 0;
    while i < entries.len()
        invariant
            i <= entries@.len(),
            list@ == key_order(keys_of(entries@), i as nat),
        decreases entries@.len() - i,
    {
        proof {
            lemma_order_members(keys_of(entries@), i as nat);
        }
        place_key(entries, &mut list, i);
        i = i + 1;
    }
    proof {
        lemma_order_members(keys_of(entries@), i as nat);
    }
    list
}

// ---- values ---------------------------------------------------------------------------

/// A text longer than 80 bytes is cut after 77; some characters must fill
/// exactly those.
pub open spec fn can_cut(v: KvView) -> bool {
    v matches KvView::Text(s) ==> utf8_len(s) > 80 ==> exists|i: int|
        0 <= i <= s.len() && #[trigger] utf8_len(s.subrange(0, i)) == 77
}

/// The characters that fill the first 77 bytes.
pub open spec fn cut(s: Seq<char>) -> Seq<char> {
    let i = choose|i: int| 0 <= i <= s.len() && #[trigger] utf8_len(s.subrange(0, i)) == 77;
    s.subrange(0, i)
}

/// A value with its type.
pub open spec fn preview(v: KvView) -> Seq<char> {
    match v {
        KvView::U8(x) => "u8 "@ + decimal(x as nat),
        KvView::I8(x) => "i8 "@ + signed_decimal(x as int),
        KvView::U16(x) => "u16 "@ + decimal(x as nat),
        KvView::I16(x) => "i16 "@ + signed_decimal(x as int),
        KvView::U32(x) => "u32 "@ + decimal(x as nat),
        KvView::I32(x) => "i32 "@ + signed_decimal(x as int),
        KvView::F32(b) => "f32 "@ + f32_display(b),
        KvView::U64(x) => "u64 "@ + decimal(x as nat),
        KvView::I64(x) => "i64 "@ + signed_decimal(x as int),
        KvView::F64(b) => "f64 "@ + f64_display(b),
        KvView::Bool(x) => "bool "@ + (if x {
            "true"@
        } else {
            "false"@
        }),
        KvView::Text(s) => if utf8_len(s) > 80 {
            "string len="@ + decimal(utf8_len(s)) + " \""@ + cut(s) + "...\""@
        } else {
            "string \""@ + s + "\""@
        },
        KvView::Array(t, raw) => "array<"@ + kv_type_name(t) + "> "@ + decimal(raw.len())
            + " bytes"@,
    }
}

fn push_int(out: &mut String, v: i64)
    ensures
        final(out)@ == old(out)@ + signed_decimal(v as int),
{
    if v < 0 {
        let ghost start = out@;
        push_repeated(out, '-', 1);
        let m: u64 = (-(v + 1)) as u64 + 1;
        push_decimal(out, m);
        assert(Seq::new(1, |i: int| '-') =~= seq!['-']);
        assert(out@ =~= start + signed_decimal(v as int));
    } else {
        push_decimal(out, v as u64);
    }
}

proof fn lemma_cut_unique(s: Seq<char>, i: int, j: int)
    requires
        0 <= i < j <= s.len(),
    ensures
        utf8_len(s.subrange(0, i)) < utf8_len(s.subrange(0, j)),
    decreases j,
{
    let t = s.subrange(0, j);
    assert(t.drop_last() =~= s.subrange(0, j - 1));
    if i < j - 1 {
        lemma_cut_unique(s, i, j - 1);
    }
}

fn push_string(out: &mut String, s: &String)
    requires
        can_cut(KvView::Text(s@)),
    ensures
        final(out)@ == old(out)@ + preview(KvView::Text(s@)),
{
    let ghost start = out@;
    let chars = to_chars(s.as_str());
    let len: usize = s.as_str().as_bytes().len();
    proof {
        lemma_utf8_len(s@);
    }
    if len > 80 {
        push_text(out, "string len=");
        push_decimal(out, len as u64);
        push_text(out, " \"");
        let ghost want = choose|i: int|
            0 <= i <= s@.len() && #[trigger] utf8_len(s@.subrange(0, i)) == 77;
        let mut i: usize = 0;
        let mut bytes: usize = 0;
        let total: usize = chars.len();
        assert(s@.subrange(0, 0) =~= Seq::empty());
        while bytes < 77
            invariant
                chars@ == s@,
                0 <= want <= s@.len(),
                total == s@.len(),
                utf8_len(s@.subrange(0, want)) == 77,
                i <= want,
                bytes == utf8_len(s@.subrange(0, i as int)),
                bytes <= 77,
            decreases want - i,
        {
            proof {
                if i == want {
                    assert(false);
                }
                lemma_cut_unique(s@, i as int, i + 1);
                if i + 1 < want {
                    lemma_cut_unique(s@, i + 1, want);
                }
                let t = s@.subrange(0, i + 1);
                assert(t.drop_last() =~= s@.subrange(0, i as int));
                assert(t.last() == chars@[i as int]);
            }
            let c: char = chars[i];
            let n: usize = char_width(c) as usize;
            bytes = bytes + n;
            i = i + 1;
        }
        proof {
            if i < want {
                lemma_cut_unique(s@, i as int, want);
            }
        }
        push_chars(out, &chars, 0, i);
        push_text(out, "...\"");
        assert(out@ =~= start + preview(KvView::Text(s@)));
    } else {
        push_text(out, "string \"");
        push_text(out, s.as_str());
        push_text(out, "\"");
        assert(out@ =~= start + preview(KvView::Text(s@)));
    }
}

fn push_preview(out: &mut String, v: &KvValue)
    requires
        can_cut(v@),
    ensures
        final(out)@ == old(out)@ + preview(v@),
{
    let ghost start = out@;
    match v {
        KvValue::U8(x) => {
            push_text(out, "u8 ");
            push_decimal(out, *x as u64);
        },
        KvValue::I8(x) => {
            push_text(out, "i8 ");
            push_int(out, *x as i64);
        },
        KvValue::U16(x) => {
            push_text(out, "u16 ");
            push_decimal(out, *x as u64);
        },
        KvValue::I16(x) => {
            push_text(out, "i16 ");
            push_int(out, *x as i64);
        },
        KvValue::U32(x) => {
            push_text(out, "u32 ");
            push_decimal(out, *x as u64);
        },
        KvValue::I32(x) => {
            push_text(out, "i32 ");
            push_int(out, *x as i64);
        },
        KvValue::F32(b) => {
            push_text(out, "f32 ");
            push_f32(out, *b);
        },
        KvValue::U64(x) => {
            push_text(out, "u64 ");
            push_decimal(out, *x);
        },
        KvValue::I64(x) => {
            push_text(out, "i64 ");
            push_int(out, *x);
        },
        KvValue::F64(b) => {
            push_text(out, "f64 ");
            push_f64(out, *b);
        },
        KvValue::Bool(x) => {
            push_text(out, "bool ");
            push_text(
                out,
                if *x {
                    "true"
                } else {
                    "false"
                },
            );
        },
        KvValue::String(s) => {
            push_string(out, s);
        },
        KvValue::Array(t, raw) => {
            push_text(out, "array<");
            push_text(out, t.name());
            push_text(out, "> ");
            push_decimal(out, raw.len() as u64);
            push_text(out, " bytes");
        },
    }
    assert(out@ =~= start + preview(v@));
}

// ---- tensors --------------------------------------------------------------------------

/// The name of a tensor type.
pub open spec fn ggml_name(t: GgmlType) -> Seq<char> {
    match t {
        GgmlType::F32 => "F32"@,
        GgmlType::F16 => "F16"@,
        GgmlType::Q4_0 => "Q4_0"@,
        GgmlType::Q4_1 => "Q4_1"@,
        GgmlType::Q5_0 => "Q5_0"@,
        GgmlType::Q5_1 => "Q5_1"@,
        GgmlType::Q8_0 => "Q8_0"@,
        GgmlType::Q8_1 => "Q8_1"@,
    }
}

fn name_of_type(t: GgmlType) -> (s: &'static str)
    ensures
        s@ == ggml_name(t),
{
    match t {
        GgmlType::F32 => "F32",
        GgmlType::F16 => "F16",
        GgmlType::Q4_0 => "Q4_0",
        GgmlType::Q4_1 => "Q4_1",
        GgmlType::Q5_0 => "Q5_0",
        GgmlType::Q5_1 => "Q5_1",
        GgmlType::Q8_0 => "Q8_0",
        GgmlType::Q8_1 => "Q8_1",
    }
}

/// Numbers, separated by a comma and a space.
pub open spec fn number_list(s: Seq<u64>) -> Seq<char>
    decreases s.len(),
{
    if s.len() == 0 {
        Seq::empty()
    } else if s.len() == 1 {
        decimal(s[0] as nat)
    } else {
        number_list(s.drop_last()) + ", "@ + decimal(s.last() as nat)
    }
}

/// `s` with as many spaces after it as it takes to be `width` characters wide.
pub open spec fn left_aligned(s: Seq<char>, width: nat) -> Seq<char> {
    if s.len() < width {
        s + Seq::new((width - s.len()) as nat, |i: int| ' ')
    } else {
        s
    }
}

/// The line of a tensor.
pub open spec fn tensor_line(t: TensorView) -> Seq<char> {
    "  "@ + left_aligned(t.name, 50) + " "@ + ggml_name(t.dtype) + " ["@ + number_list(t.dims)
        + "] -> "@ + decimal(payload_bytes(t)->0) + " bytes\n"@
}

fn push_number_list(out: &mut String, s: &Vec<u64>)
    ensures
        final(out)@ == old(out)@ + number_list(s@),
{
    let mut i: usize = 0;
    assert(s@.subrange(0, 0) =~= Seq::empty());
    while i < s.len()
        invariant
            i <= s@.len(),
            out@ == old(out)@ + number_list(s@.subrange(0, i as int)),
        decreases s@.len() - i,
    {
        if i > 0 {
            push_text(out, ", ");
        }
        push_decimal(out, s[i]);
        i = i + 1;
        proof {
            let t = s@.subrange(0, i as int);
            assert(t.drop_last() =~= s@.subrange(0, i - 1));
            assert(out@ =~= old(out)@ + number_list(t));
        }
    }
    assert(s@.subrange(0, i as int) =~= s@);
}

fn push_tensor(out: &mut String, t: &TensorInfo)
    requires
        payload_bytes(t@) is Some,
    ensures
        final(out)@ == old(out)@ + tensor_line(t@),
{
    let ghost start = out@;
    push_text(out, "  ");
    push_text(out, t.name.as_str());
    let n: usize = to_chars(t.name.as_str()).len();
    if n < 50 {
        push_repeated(out, ' ', 50 - n);
    }
    assert(out@ =~= start + "  "@ + left_aligned(t.name@, 50));
    push_text(out, " ");
    push_text(out, name_of_type(t.dtype));
    push_text(out, " [");
    push_number_list(out, &t.dims);
    push_text(out, "] -> ");
    push_decimal(out, t.byte_size());
    push_text(out, " bytes\n");
    assert(out@ =~= start + tensor_line(t@));
}

// ---- the listing ----------------------------------------------------------------------

/// The lines of the entries at some positions.
pub open spec fn entry_lines(
    entries: Seq<(String, KvValue)>,
    list: Seq<usize>,
) -> Seq<char>
    decreases list.len(),
{
    if list.len() == 0 {
        Seq::empty()
    } else {
        let i = list.last() as int;
        entry_lines(entries, list.drop_last()) + "  "@ + entries[i].0@ + " = "@ + preview(
            entries[i].1@,
        ) + "\n"@
    }
}

/// The lines of some tensors.
pub open spec fn tensor_lines(tensors: Seq<TensorView>) -> Seq<char>
    decreases tensors.len(),
{
    if tensors.len() == 0 {
        Seq::empty()
    } else {
        tensor_lines(tensors.drop_last()) + tensor_line(tensors.last())
    }
}

/// The whole listing.
pub open spec fn listing(
    path: Seq<char>,
    alignment: u64,
    entries: Seq<(String, KvValue)>,
    tensors: Seq<TensorView>,
) -> Seq<char> {
    "=== "@ + path + " ===\nalignment: "@ + decimal(alignment as nat) + "\ntensors:   "@ + decimal(
        tensors.len(),
    ) + "\nkv pairs:  "@ + decimal(entries.len()) + "\n\n--- metadata ---\n"@ + entry_lines(
        entries,
        key_order(keys_of(entries), entries.len()),
    ) + "\n--- tensors ---\n"@ + tensor_lines(tensors)
}

fn push_entries(
    out: &mut String,
    entries: &Vec<(String, KvValue)>,
    list: &Vec<usize>,
)
    requires
        forall|i: int| 0 <= i < entries@.len() ==> can_cut((#[trigger] entries@[i]).1@),
        forall|i: int| 0 <= i < list@.len() ==> #[trigger] list@[i] < entries@.len(),
    ensures
        final(out)@ == old(out)@ + entry_lines(entries@, list@),
{
    let mut i: usize = 0;
    assert(list@.subrange(0, 0) =~= Seq::empty());
    while i < list.len()
        invariant
            i <= list@.len(),
                forall|j: int| 0 <= j < entries@.len() ==> can_cut((#[trigger] entries@[j]).1@),
            forall|j: int| 0 <= j < list@.len() ==> #[trigger] list@[j] < entries@.len(),
            out@ == old(out)@ + entry_lines(entries@, list@.subrange(0, i as int)),
        decreases list@.len() - i,
    {
        let p: usize = list[i];
        push_text(out, "  ");
        push_text(out, entries[p].0.as_str());
        push_text(out, " = ");
        push_preview(out, &entries[p].1);
        push_text(out, "\n");
        i = i + 1;
        proof {
            let t = list@.subrange(0, i as int);
            assert(t.drop_last() =~= list@.subrange(0, i - 1));
            assert(out@ =~= old(out)@ + entry_lines(entries@, t));
        }
    }
    assert(list@.subrange(0, i as int) =~= list@);
}

/// What a model file holds, as text: its metadata in the order of their keys,
/// and its tensors.
pub fn inspect(
    path: &str,
    alignment: u64,
    entries: &Vec<(String, KvValue)>,
    tensors: &Vec<TensorInfo>,
) -> (out: String)
    requires
        forall|i: int| 0 <= i < entries@.len() ==> can_cut((#[trigger] entries@[i]).1@),
        forall|i: int|
            0 <= i < tensors@.len() ==> payload_bytes((#[trigger] tensors@[i])@) is Some,
    ensures
        out@ == listing(path@, alignment, entries@, tensor_views(tensors@)),
{
    let mut out: String = "=== ".to_string();
    push_text(&mut out, path);
    push_text(&mut out, " ===\nalignment: ");
    push_decimal(&mut out, alignment);
    push_text(&mut out, "\ntensors:   ");
    push_decimal(&mut out, tensors.len() as u64);
    push_text(&mut out, "\nkv pairs:  ");
    push_decimal(&mut out, entries.len() as u64);
    push_text(&mut out, "\n\n--- metadata ---\n");
    let list = sorted_positions(entries);
    push_entries(&mut out, entries, &list);
    push_text(&mut out, "\n--- tensors ---\n");
    let ghost head = out@;
    let ghost views = tensor_views(tensors@);
    let mut i: usize = 0;
    assert(views.subrange(0, 0) =~= Seq::empty());
    while i < tensors.len()
        invariant
            i <= tensors@.len(),
            views == tensor_views(tensors@),
            forall|j: int|
                0 <= j < tensors@.len() ==> payload_bytes((#[trigger] tensors@[j])@) is Some,
            out@ == head + tensor_lines(views.subrange(0, i as int)),
        decreases tensors@.len() - i,
    {
        push_tensor(&mut out, &tensors[i]);
        i = i + 1;
        proof {
            let t = views.subrange(0, i as int);
            assert(t.drop_last() =~= views.subrange(0, i - 1));
            assert(t.last() == tensors@[i - 1]@);
            assert(out@ =~= head + tensor_lines(t));
        }
    }
    assert(views.subrange(0, i as int) =~= views);
    out
}

} // verus!
