//! The file format from the writer's side, and the law that ties it to the
//! reader: a file that is written down holds what was written.

use crate::bytes::{
    le_bytes, le_value, lemma_le_bytes_len, lemma_le_value_of_le_bytes, lemma_pow256_values, pow256,
};
use crate::model::gguf::{
    alignment_of, fixed_size, fixed_value, ggml_tag, last_tensor, last_value, padding, parse_bytes,
    parse_dims,
    parse_element, parse_elements, parse_file, parse_pair, parse_pairs, parse_string, parse_tensor,
    parse_tensors, parse_uint, parse_value, Content, KvType, KvView, Parsed, TensorView,
};
use vstd::prelude::*;
use vstd::utf8::{encode_utf8, encode_utf8_decode_utf8, encode_utf8_valid_utf8};

verus! {

/// The tag of a value type.
pub open spec fn kv_tag(t: KvType) -> nat {
    match t {
        KvType::U8 => 0,
        KvType::I8 => 1,
        KvType::U16 => 2,
        KvType::I16 => 3,
        KvType::U32 => 4,
        KvType::I32 => 5,
        KvType::F32 => 6,
        KvType::Bool => 7,
        KvType::String => 8,
        KvType::Array => 9,
        KvType::U64 => 10,
        KvType::I64 => 11,
        KvType::F64 => 12,
    }
}

/// The type of a value.
pub open spec fn type_of_value(v: KvView) -> KvType {
    match v {
        KvView::U8(_) => KvType::U8,
        KvView::I8(_) => KvType::I8,
        KvView::U16(_) => KvType::U16,
        KvView::I16(_) => KvType::I16,
        KvView::U32(_) => KvType::U32,
        KvView::I32(_) => KvType::I32,
        KvView::F32(_) => KvType::F32,
        KvView::U64(_) => KvType::U64,
        KvView::I64(_) => KvType::I64,
        KvView::F64(_) => KvType::F64,
        KvView::Bool(_) => KvType::Bool,
        KvView::Text(_) => KvType::String,
        KvView::Array(_, _) => KvType::Array,
    }
}

/// The two's-complement pattern of `v`, `full` being `2^bits`.
pub open spec fn pattern(v: int, full: int) -> nat {
    if v < 0 {
        (v + full) as nat
    } else {
        v as nat
    }
}

/// The pattern of a value of fixed size.
pub open spec fn value_pattern(v: KvView) -> nat {
    match v {
        KvView::U8(x) => x as nat,
        KvView::I8(x) => pattern(x as int, 0x100),
        KvView::U16(x) => x as nat,
        KvView::I16(x) => pattern(x as int, 0x1_0000),
        KvView::U32(x) => x as nat,
        KvView::I32(x) => pattern(x as int, 0x1_0000_0000),
        KvView::F32(x) => x as nat,
        KvView::U64(x) => x as nat,
        KvView::I64(x) => pattern(x as int, 0x1_0000_0000_0000_0000),
        KvView::F64(x) => x as nat,
        KvView::Bool(b) => if b {
            1
        } else {
            0
        },
        _ => 0,
    }
}

/// A string as it stands in a file.
pub open spec fn string_bytes(t: Seq<char>) -> Seq<u8> {
    le_bytes(encode_utf8(t).len(), 8) + encode_utf8(t)
}

/// How many elements the bytes of an array are.
pub open spec fn array_count(t: KvType, raw: Seq<u8>) -> nat {
    choose|n: nat|
        n < pow256(8) && #[trigger] parse_elements(raw, 0, t, n) == Parsed::<()>::Good(
            (),
            raw.len() as int,
        )
}

/// A value as it stands in a file.
pub open spec fn value_bytes(v: KvView) -> Seq<u8> {
    match v {
        KvView::Text(t) => string_bytes(t),
        KvView::Array(t, raw) => le_bytes(kv_tag(t), 4) + le_bytes(array_count(t, raw), 8) + raw,
        _ => le_bytes(value_pattern(v), fixed_size(type_of_value(v))->0 as nat),
    }
}

/// A pair as it stands in a file.
pub open spec fn pair_bytes(p: (Seq<char>, KvView)) -> Seq<u8> {
    string_bytes(p.0) + le_bytes(kv_tag(type_of_value(p.1)), 4) + value_bytes(p.1)
}

/// Pairs as they stand in a file.
pub open spec fn pairs_bytes(ps: Seq<(Seq<char>, KvView)>) -> Seq<u8>
    decreases ps.len(),
{
    if ps.len() == 0 {
        Seq::empty()
    } else {
        pair_bytes(ps[0]) + pairs_bytes(ps.drop_first())
    }
}

/// Dimensions as they stand in a file.
pub open spec fn dims_bytes(ds: Seq<u64>) -> Seq<u8>
    decreases ds.len(),
{
    if ds.len() == 0 {
        Seq::empty()
    } else {
        le_bytes(ds[0] as nat, 8) + dims_bytes(ds.drop_first())
    }
}

/// A tensor entry as it stands in a file.
pub open spec fn tensor_bytes(t: TensorView) -> Seq<u8> {
    string_bytes(t.name) + le_bytes(t.dims.len(), 4) + dims_bytes(t.dims) + le_bytes(
        ggml_tag(t.dtype) as nat,
        4,
    ) + le_bytes(t.offset as nat, 8)
}

/// Tensor entries as they stand in a file.
pub open spec fn tensors_bytes(ts: Seq<TensorView>) -> Seq<u8>
    decreases ts.len(),
{
    if ts.len() == 0 {
        Seq::empty()
    } else {
        tensor_bytes(ts[0]) + tensors_bytes(ts.drop_first())
    }
}

/// Everything before the padding.
pub open spec fn head_bytes(ps: Seq<(Seq<char>, KvView)>, ts: Seq<TensorView>) -> Seq<u8> {
    seq![0x47u8, 0x47, 0x55, 0x46] + le_bytes(3, 4) + le_bytes(ts.len(), 8) + le_bytes(ps.len(), 8)
        + pairs_bytes(ps) + tensors_bytes(ts)
}

/// A whole file: the head, zeros up to the alignment, and the data section.
pub open spec fn file_bytes(
    ps: Seq<(Seq<char>, KvView)>,
    ts: Seq<TensorView>,
    data: Seq<u8>,
) -> Seq<u8> {
    let head = head_bytes(ps, ts);
    let pad = padding(head.len() as int, alignment_of(ps) as int);
    head + Seq::new(pad as nat, |i: int| 0u8) + data
}

/// A string whose length can be written down.
pub open spec fn writable_string(t: Seq<char>) -> bool {
    encode_utf8(t).len() < pow256(8)
}

/// A value that can be written down: the bytes of an array are a whole number
/// of elements, which are no arrays themselves.
pub open spec fn writable_value(v: KvView) -> bool {
    match v {
        KvView::Text(t) => writable_string(t),
        KvView::Array(t, raw) => t !is Array && exists|n: nat|
            n < pow256(8) && #[trigger] parse_elements(raw, 0, t, n) == Parsed::<()>::Good(
                (),
                raw.len() as int,
            ),
        _ => true,
    }
}

/// Pairs and tensor entries that can be written down.
pub open spec fn writable(ps: Seq<(Seq<char>, KvView)>, ts: Seq<TensorView>) -> bool {
    &&& ps.len() < pow256(8)
    &&& ts.len() < pow256(8)
    &&& alignment_of(ps) != 0
    &&& forall|i: int|
        0 <= i < ps.len() ==> writable_string((#[trigger] ps[i]).0) && writable_value(ps[i].1)
    &&& forall|i: int|
        0 <= i < ts.len() ==> writable_string((#[trigger] ts[i]).name) && ts[i].dims.len() < pow256(
            4,
        )
}

/// `s` holds `part` at `pos`.
pub open spec fn holds(s: Seq<u8>, pos: int, part: Seq<u8>) -> bool {
    0 <= pos && pos + part.len() <= s.len() && s.subrange(pos, pos + part.len()) == part
}

proof fn lemma_holds_split(s: Seq<u8>, pos: int, a: Seq<u8>, b: Seq<u8>)
    requires
        holds(s, pos, a + b),
    ensures
        holds(s, pos, a),
        holds(s, pos + a.len(), b),
{
    let whole = s.subrange(pos, pos + (a + b).len());
    assert(s.subrange(pos, pos + a.len()) =~= whole.subrange(0, a.len() as int));
    assert((a + b).subrange(0, a.len() as int) =~= a);
    assert(s.subrange(pos + a.len(), pos + a.len() + b.len()) =~= whole.subrange(
        a.len() as int,
        (a + b).len() as int,
    ));
    assert((a + b).subrange(a.len() as int, (a + b).len() as int) =~= b);
}

proof fn lemma_uint(s: Seq<u8>, pos: int, v: nat, n: nat)
    requires
        holds(s, pos, le_bytes(v, n)),
        v < pow256(n),
    ensures
        parse_uint(s, pos, n as int) == Parsed::Good(v, pos + n),
{
    lemma_le_bytes_len(v, n);
    lemma_le_value_of_le_bytes(v, n);
}

proof fn lemma_string(s: Seq<u8>, pos: int, t: Seq<char>)
    requires
        holds(s, pos, string_bytes(t)),
        writable_string(t),
    ensures
        parse_string(s, pos) == Parsed::Good(t, pos + string_bytes(t).len()),
{
    let len = encode_utf8(t).len();
    lemma_le_bytes_len(len, 8);
    lemma_holds_split(s, pos, le_bytes(len, 8), encode_utf8(t));
    lemma_uint(s, pos, len, 8);
    encode_utf8_valid_utf8(t);
    encode_utf8_decode_utf8(t);
}

/// Elements that can be read alone can be read inside a longer file.
proof fn lemma_elements(s: Seq<u8>, at: int, raw: Seq<u8>, pos: int, t: KvType, n: nat, end: int)
    requires
        holds(s, at, raw),
        0 <= pos <= raw.len(),
        parse_elements(raw, pos, t, n) == Parsed::<()>::Good((), end),
    ensures
        parse_elements(s, at + pos, t, n) == Parsed::<()>::Good((), at + end),
    decreases n,
{
    if n > 0 {
        let one = parse_element(raw, pos, t);
        assert(one is Good);
        let next = one->Good_1;
        lemma_element(s, at, raw, pos, t);
        lemma_elements(s, at, raw, next, t, (n - 1) as nat, end);
    }
}

proof fn lemma_bytes_inside(s: Seq<u8>, at: int, raw: Seq<u8>, pos: int, n: int)
    requires
        holds(s, at, raw),
        0 <= pos,
        0 <= n,
        pos + n <= raw.len(),
    ensures
        parse_bytes(s, at + pos, n) == Parsed::Good(raw.subrange(pos, pos + n), at + pos + n),
{
    assert(s.subrange(at + pos, at + pos + n) =~= s.subrange(at, at + raw.len()).subrange(
        pos,
        pos + n,
    ));
}

proof fn lemma_element(s: Seq<u8>, at: int, raw: Seq<u8>, pos: int, t: KvType)
    requires
        holds(s, at, raw),
        0 <= pos <= raw.len(),
        parse_element(raw, pos, t) is Good,
    ensures
        parse_element(s, at + pos, t) == Parsed::<()>::Good(
            (),
            at + parse_element(raw, pos, t)->Good_1,
        ),
        0 <= parse_element(raw, pos, t)->Good_1 <= raw.len(),
{
    match t {
        KvType::Array => {},
        KvType::String => {
            lemma_bytes_inside(s, at, raw, pos, 8);
            let len = le_value(raw.subrange(pos, pos + 8)) as int;
            lemma_bytes_inside(s, at, raw, pos + 8, len);
        },
        _ => {
            lemma_bytes_inside(s, at, raw, pos, fixed_size(t)->0);
        },
    }
}

proof fn lemma_fixed(v: KvView)
    requires
        fixed_size(type_of_value(v)) is Some,
    ensures
        value_pattern(v) < pow256(fixed_size(type_of_value(v))->0 as nat),
        fixed_value(type_of_value(v), value_pattern(v)) == v,
{
    lemma_pow256_values();
}

proof fn lemma_value(s: Seq<u8>, pos: int, v: KvView)
    requires
        holds(s, pos, value_bytes(v)),
        writable_value(v),
    ensures
        parse_value(s, pos, type_of_value(v)) == Parsed::Good(v, pos + value_bytes(v).len()),
{
    lemma_pow256_values();
    match v {
        KvView::Text(t) => {
            lemma_string(s, pos, t);
        },
        KvView::Array(t, raw) => {
            let n = array_count(t, raw);
            assert(n < pow256(8) && parse_elements(raw, 0, t, n) == Parsed::<()>::Good(
                (),
                raw.len() as int,
            ));
            let tag = le_bytes(kv_tag(t), 4);
            let count = le_bytes(n, 8);
            lemma_le_bytes_len(kv_tag(t), 4);
            lemma_le_bytes_len(n, 8);
            lemma_holds_split(s, pos, tag + count, raw);
            lemma_holds_split(s, pos, tag, count);
            lemma_uint(s, pos, kv_tag(t), 4);
            lemma_uint(s, pos + 4, n, 8);
            lemma_elements(s, pos + 12, raw, 0, t, n, raw.len() as int);
        },
        _ => {
            let n = fixed_size(type_of_value(v))->0;
            lemma_fixed(v);
            lemma_uint(s, pos, value_pattern(v), n as nat);
            lemma_le_bytes_len(value_pattern(v), n as nat);
        },
    }
}

proof fn lemma_pair(s: Seq<u8>, pos: int, p: (Seq<char>, KvView))
    requires
        holds(s, pos, pair_bytes(p)),
        writable_string(p.0),
        writable_value(p.1),
    ensures
        parse_pair(s, pos) == Parsed::Good(p, pos + pair_bytes(p).len()),
{
    lemma_pow256_values();
    let a = string_bytes(p.0);
    let tag = kv_tag(type_of_value(p.1));
    let b = le_bytes(tag, 4);
    lemma_le_bytes_len(tag, 4);
    lemma_holds_split(s, pos, a + b, value_bytes(p.1));
    lemma_holds_split(s, pos, a, b);
    lemma_string(s, pos, p.0);
    lemma_uint(s, pos + a.len(), tag, 4);
    lemma_value(s, pos + a.len() + 4, p.1);
}

proof fn lemma_pairs(s: Seq<u8>, pos: int, ps: Seq<(Seq<char>, KvView)>)
    requires
        holds(s, pos, pairs_bytes(ps)),
        forall|i: int|
            0 <= i < ps.len() ==> writable_string((#[trigger] ps[i]).0) && writable_value(ps[i].1),
    ensures
        parse_pairs(s, pos, ps.len()) == Parsed::Good(ps, pos + pairs_bytes(ps).len()),
    decreases ps.len(),
{
    if ps.len() == 0 {
        assert(ps =~= Seq::empty());
    } else {
        let rest = ps.drop_first();
        lemma_holds_split(s, pos, pair_bytes(ps[0]), pairs_bytes(rest));
        lemma_pair(s, pos, ps[0]);
        assert forall|i: int| 0 <= i < rest.len() implies writable_string((#[trigger] rest[i]).0)
            && writable_value(rest[i].1) by {
            assert(rest[i] == ps[i + 1]);
        }
        lemma_pairs(s, pos + pair_bytes(ps[0]).len(), rest);
        assert(seq![ps[0]] + rest =~= ps);
    }
}

proof fn lemma_dims(s: Seq<u8>, pos: int, ds: Seq<u64>)
    requires
        holds(s, pos, dims_bytes(ds)),
    ensures
        parse_dims(s, pos, ds.len()) == Parsed::Good(ds, pos + dims_bytes(ds).len()),
    decreases ds.len(),
{
    if ds.len() == 0 {
        assert(ds =~= Seq::empty());
    } else {
        let rest = ds.drop_first();
        lemma_pow256_values();
        lemma_le_bytes_len(ds[0] as nat, 8);
        lemma_holds_split(s, pos, le_bytes(ds[0] as nat, 8), dims_bytes(rest));
        lemma_uint(s, pos, ds[0] as nat, 8);
        lemma_dims(s, pos + 8, rest);
        assert(seq![ds[0]] + rest =~= ds);
    }
}

proof fn lemma_tensor(s: Seq<u8>, pos: int, t: TensorView)
    requires
        holds(s, pos, tensor_bytes(t)),
        writable_string(t.name),
        t.dims.len() < pow256(4),
    ensures
        parse_tensor(s, pos) == Parsed::Good(t, pos + tensor_bytes(t).len()),
{
    lemma_pow256_values();
    let a = string_bytes(t.name);
    let b = le_bytes(t.dims.len(), 4);
    let c = dims_bytes(t.dims);
    let tag = ggml_tag(t.dtype) as nat;
    let d = le_bytes(tag, 4);
    let e = le_bytes(t.offset as nat, 8);
    lemma_le_bytes_len(t.dims.len(), 4);
    lemma_le_bytes_len(tag, 4);
    lemma_le_bytes_len(t.offset as nat, 8);
    lemma_holds_split(s, pos, a + b + c + d, e);
    lemma_holds_split(s, pos, a + b + c, d);
    lemma_holds_split(s, pos, a + b, c);
    lemma_holds_split(s, pos, a, b);
    lemma_string(s, pos, t.name);
    lemma_uint(s, pos + a.len(), t.dims.len(), 4);
    lemma_dims(s, pos + a.len() + 4, t.dims);
    lemma_uint(s, pos + a.len() + 4 + c.len(), tag, 4);
    lemma_uint(s, pos + a.len() + 4 + c.len() + 4, t.offset as nat, 8);
}

proof fn lemma_tensors(s: Seq<u8>, pos: int, ts: Seq<TensorView>)
    requires
        holds(s, pos, tensors_bytes(ts)),
        forall|i: int|
            0 <= i < ts.len() ==> writable_string((#[trigger] ts[i]).name) && ts[i].dims.len()
                < pow256(4),
    ensures
        parse_tensors(s, pos, ts.len()) == Parsed::Good(ts, pos + tensors_bytes(ts).len()),
    decreases ts.len(),
{
    if ts.len() == 0 {
        assert(ts =~= Seq::empty());
    } else {
        let rest = ts.drop_first();
        lemma_holds_split(s, pos, tensor_bytes(ts[0]), tensors_bytes(rest));
        lemma_tensor(s, pos, ts[0]);
        assert forall|i: int| 0 <= i < rest.len() implies writable_string(
            (#[trigger] rest[i]).name,
        ) && rest[i].dims.len() < pow256(4) by {
            assert(rest[i] == ts[i + 1]);
        }
        lemma_tensors(s, pos + tensor_bytes(ts[0]).len(), rest);
        assert(seq![ts[0]] + rest =~= ts);
    }
}

/// A file that is written down holds what was written: reading it gives back
/// the pairs, the tensor table and the alignment, and the data section starts
/// at a multiple of the alignment and is the data that was written.
pub proof fn lemma_file_round_trip(
    ps: Seq<(Seq<char>, KvView)>,
    ts: Seq<TensorView>,
    data: Seq<u8>,
)
    requires
        writable(ps, ts),
    ensures
        ({
            let s = file_bytes(ps, ts, data);
            let head = head_bytes(ps, ts).len() as int;
            let start = head + padding(head, alignment_of(ps) as int);
            &&& parse_file(s) == Parsed::Good(
                Content {
                    pairs: ps,
                    tensors: ts,
                    data_offset: start,
                    alignment: alignment_of(ps),
                },
                start,
            )
            &&& s.subrange(start, s.len() as int) == data
            &&& start % (alignment_of(ps) as int) == 0
        }),
{
    let s = file_bytes(ps, ts, data);
    let head = head_bytes(ps, ts);
    let align = alignment_of(ps) as int;
    let pad = padding(head.len() as int, align);
    let zeros = Seq::new(pad as nat, |i: int| 0u8);
    let pb = pairs_bytes(ps);
    let p5 = head.len() as int;
    lemma_pad_range(p5, align);
    assert(s.subrange(0, s.len() as int) =~= s);
    assert(holds(s, 0, s));
    lemma_holds_split(s, 0, head + zeros, data);
    lemma_holds_split(s, 0, head, zeros);
    lemma_head(s, ps, ts);
    lemma_steps(s, ps, ts, 24 + pb.len() as int, p5);
}

/// The steps of reading a file, one after the other.
proof fn lemma_steps(
    s: Seq<u8>,
    ps: Seq<(Seq<char>, KvView)>,
    ts: Seq<TensorView>,
    p4: int,
    p5: int,
)
    requires
        alignment_of(ps) != 0,
        holds(s, 0, seq![0x47u8, 0x47, 0x55, 0x46]),
        parse_uint(s, 4, 4) == Parsed::Good(3nat, 8),
        parse_uint(s, 8, 8) == Parsed::Good(ts.len(), 16),
        parse_uint(s, 16, 8) == Parsed::Good(ps.len(), 24),
        parse_pairs(s, 24, ps.len()) == Parsed::Good(ps, p4),
        parse_tensors(s, p4, ts.len()) == Parsed::Good(ts, p5),
        p5 >= 0,
        padding(p5, alignment_of(ps) as int) >= 0,
        p5 + padding(p5, alignment_of(ps) as int) <= s.len(),
    ensures
        parse_file(s) == ({
            let start = p5 + padding(p5, alignment_of(ps) as int);
            Parsed::Good(
                Content {
                    pairs: ps,
                    tensors: ts,
                    data_offset: start,
                    alignment: alignment_of(ps),
                },
                start,
            )
        }),
{
}

/// What the reader finds in a head that was written down.
proof fn lemma_head(s: Seq<u8>, ps: Seq<(Seq<char>, KvView)>, ts: Seq<TensorView>)
    requires
        writable(ps, ts),
        holds(s, 0, head_bytes(ps, ts)),
    ensures
        holds(s, 0, seq![0x47u8, 0x47, 0x55, 0x46]),
        parse_uint(s, 4, 4) == Parsed::Good(3nat, 8),
        parse_uint(s, 8, 8) == Parsed::Good(ts.len(), 16),
        parse_uint(s, 16, 8) == Parsed::Good(ps.len(), 24),
        parse_pairs(s, 24, ps.len()) == Parsed::Good(ps, 24int + pairs_bytes(ps).len()),
        parse_tensors(s, 24int + pairs_bytes(ps).len(), ts.len()) == Parsed::Good(
            ts,
            head_bytes(ps, ts).len() as int,
        ),
{
    lemma_pow256_values();
    let magic = seq![0x47u8, 0x47, 0x55, 0x46];
    let version = le_bytes(3, 4);
    let nt = le_bytes(ts.len(), 8);
    let nk = le_bytes(ps.len(), 8);
    let pb = pairs_bytes(ps);
    let tb = tensors_bytes(ts);
    lemma_le_bytes_len(3, 4);
    lemma_le_bytes_len(ts.len(), 8);
    lemma_le_bytes_len(ps.len(), 8);
    lemma_holds_split(s, 0, magic + version + nt + nk + pb, tb);
    lemma_holds_split(s, 0, magic + version + nt + nk, pb);
    lemma_holds_split(s, 0, magic + version + nt, nk);
    lemma_holds_split(s, 0, magic + version, nt);
    lemma_holds_split(s, 0, magic, version);
    lemma_uint(s, 4, 3, 4);
    lemma_uint(s, 8, ts.len(), 8);
    lemma_uint(s, 16, ps.len(), 8);
    lemma_pairs(s, 24, ps);
    lemma_tensors(s, 24int + pb.len(), ts);
}

proof fn lemma_pad_range(pos: int, align: int)
    requires
        pos >= 0,
        align > 0,
    ensures
        0 <= padding(pos, align) < align,
        (pos + padding(pos, align)) % align == 0,
{
    let r = pos % align;
    let q = pos / align;
    let pad = padding(pos, align);
    assert(0 <= r < align && pos == align * q + r) by (nonlinear_arith)
        requires
            r == pos % align,
            q == pos / align,
            align > 0,
    ;
    if r == 0 {
        assert((align - r) % align == 0) by (nonlinear_arith)
            requires
                r == 0,
                align > 0,
        ;
    } else {
        let d = align - r;
        assert(d % align == d) by (nonlinear_arith)
            requires
                0 < d < align,
        ;
        assert((pos + d) % align == 0) by (nonlinear_arith)
            requires
                pos + d == align * q + align,
                align > 0,
        ;
    }
}

/// A value that is no array of arrays.
pub open spec fn not_nested(v: KvView) -> bool {
    v matches KvView::Array(t, _) ==> t !is Array
}

proof fn lemma_pairs_not_nested(s: Seq<u8>, pos: int, n: nat)
    requires
        parse_pairs(s, pos, n) is Good,
    ensures
        forall|i: int|
            0 <= i < parse_pairs(s, pos, n)->Good_0.len() ==> not_nested(
                (#[trigger] parse_pairs(s, pos, n)->Good_0[i]).1,
            ),
    decreases n,
{
    if n > 0 {
        let next = parse_pair(s, pos)->Good_1;
        lemma_pairs_not_nested(s, next, (n - 1) as nat);
        let all = parse_pairs(s, pos, n)->Good_0;
        let rest = parse_pairs(s, next, (n - 1) as nat)->Good_0;
        assert forall|i: int| 0 <= i < all.len() implies not_nested((#[trigger] all[i]).1) by {
            if i > 0 {
                assert(all[i] == rest[i - 1]);
            }
        }
    }
}

/// No value of a file is an array of arrays.
pub proof fn lemma_arrays_not_nested(s: Seq<u8>)
    requires
        parse_file(s) is Good,
    ensures
        forall|i: int|
            0 <= i < parse_file(s)->Good_0.pairs.len() ==> not_nested(
                (#[trigger] parse_file(s)->Good_0.pairs[i]).1,
            ),
{
    let n = parse_uint(s, 16, 8)->Good_0;
    lemma_pairs_not_nested(s, 24, n);
}

// ---- what stands under a key ----------------------------------------------------------

/// A pair of a key and a value after which the key does not come again.
pub open spec fn stands(pairs: Seq<(Seq<char>, KvView)>, key: Seq<char>, v: KvView) -> bool {
    exists|i: int|
        0 <= i < pairs.len() && #[trigger] pairs[i] == (key, v) && forall|j: int|
            i < j < pairs.len() ==> (#[trigger] pairs[j]).0 != key
}

/// No pair has the key.
pub open spec fn absent(pairs: Seq<(Seq<char>, KvView)>, key: Seq<char>) -> bool {
    forall|i: int| 0 <= i < pairs.len() ==> (#[trigger] pairs[i]).0 != key
}

/// What is read under a key is the value of the last pair that has the key, and
/// nothing where no pair has it.
pub proof fn lemma_last_value(pairs: Seq<(Seq<char>, KvView)>, key: Seq<char>)
    ensures
        forall|v: KvView| #[trigger] stands(pairs, key, v) <==> last_value(pairs, key) == Some(v),
        absent(pairs, key) <==> last_value(pairs, key) is None,
    decreases pairs.len(),
{
    if pairs.len() > 0 {
        let before = pairs.drop_last();
        let last = pairs.len() - 1;
        lemma_last_value(before, key);
        if pairs.last().0 == key {
            assert forall|v: KvView| #[trigger] stands(pairs, key, v) <==> last_value(pairs, key)
                == Some(v) by {
                if stands(pairs, key, v) {
                    let i = choose|i: int|
                        0 <= i < pairs.len() && #[trigger] pairs[i] == (key, v) && forall|j: int|
                            i < j < pairs.len() ==> (#[trigger] pairs[j]).0 != key;
                    assert(pairs[last].0 == key);
                    assert(i == last);
                }
                if pairs.last().1 == v {
                    assert(pairs[last] == (key, v));
                }
            }
            assert(!absent(pairs, key)) by {
                assert(pairs[last].0 == key);
            }
        } else {
            assert forall|v: KvView| #[trigger] stands(pairs, key, v) <==> stands(before, key, v) by {
                if stands(pairs, key, v) {
                    let i = choose|i: int|
                        0 <= i < pairs.len() && #[trigger] pairs[i] == (key, v) && forall|j: int|
                            i < j < pairs.len() ==> (#[trigger] pairs[j]).0 != key;
                    assert(before[i] == (key, v));
                    assert forall|j: int| i < j < before.len() implies (#[trigger] before[j]).0
                        != key by {
                        assert(pairs[j].0 != key);
                    }
                }
                if stands(before, key, v) {
                    let i = choose|i: int|
                        0 <= i < before.len() && #[trigger] before[i] == (key, v) && forall|j: int|
                            i < j < before.len() ==> (#[trigger] before[j]).0 != key;
                    assert(pairs[i] == (key, v));
                    assert forall|j: int| i < j < pairs.len() implies (#[trigger] pairs[j]).0
                        != key by {
                        if j < last {
                            assert(before[j].0 != key);
                        }
                    }
                }
            }
            assert(absent(pairs, key) <==> absent(before, key)) by {
                if absent(before, key) {
                    assert forall|i: int| 0 <= i < pairs.len() implies (#[trigger] pairs[i]).0
                        != key by {
                        if i < last {
                            assert(before[i].0 != key);
                        }
                    }
                }
                if absent(pairs, key) {
                    assert forall|i: int| 0 <= i < before.len() implies (#[trigger] before[i]).0
                        != key by {
                        assert(pairs[i].0 != key);
                    }
                }
            }
        }
    }
}

/// The tensor that a name stands for is the last one with that name.
pub proof fn lemma_last_tensor(list: Seq<TensorView>, name: Seq<char>, i: int)
    requires
        0 <= i < list.len(),
        list[i].name == name,
        forall|j: int| i < j < list.len() ==> (#[trigger] list[j]).name != name,
    ensures
        last_tensor(list, name) == Some(list[i]),
    decreases list.len(),
{
    if i < list.len() - 1 {
        let before = list.drop_last();
        assert(list[list.len() - 1].name != name);
        assert(before[i] == list[i]);
        assert forall|j: int| i < j < before.len() implies (#[trigger] before[j]).name != name by {
            assert(list[j].name != name);
        }
        lemma_last_tensor(before, name, i);
    }
}

/// A name that no tensor has stands for none.
pub proof fn lemma_no_tensor(list: Seq<TensorView>, name: Seq<char>)
    requires
        forall|j: int| 0 <= j < list.len() ==> (#[trigger] list[j]).name != name,
    ensures
        last_tensor(list, name) is None,
    decreases list.len(),
{
    if list.len() > 0 {
        let before = list.drop_last();
        assert(list[list.len() - 1].name != name);
        assert forall|j: int| 0 <= j < before.len() implies (#[trigger] before[j]).name != name by {
            assert(list[j].name != name);
        }
        lemma_no_tensor(before, name);
    }
}

} // verus!
