//! GGUF v3 reader.
//!
//! ## File layout
//!
//! ```text
//! magic      : 4 bytes "GGUF"
//! version    : u32 LE   (= 3)
//! n_tensors  : u64 LE
//! n_kv       : u64 LE
//!
//! kv_pairs   : KvPair x n_kv
//!   key      : GgufString   { len: u64 LE, bytes: [u8; len] }
//!   value_t  : u32 LE       (KvType)
//!   value    : payload depending on value_t
//!
//! tensors    : TensorInfo x n_tensors
//!   name     : GgufString
//!   n_dims   : u32 LE
//!   dims     : [u64 LE; n_dims]
//!   tensor_t : u32 LE       (GgmlType)
//!   offset   : u64 LE       (byte offset from the start of the data section)
//!
//! padding    : align to `general.alignment` (default 32)
//! data       : tensor payload bytes
//! ```
//!
//! The whole file is one byte string. [`parse_file`] says what it holds.

use crate::bytes::{le_value, lemma_le_bytes_of_le_value, lemma_pow256_values, read_le};
use crate::text::{decimal, push_decimal, push_text, string_from_utf8};
use vstd::prelude::*;
use vstd::slice::{slice_subrange, slice_to_vec};
use vstd::utf8::{decode_utf8, valid_utf8};

verus! {

/// KV value type tag, exactly as the GGUF format defines.
#[derive(Copy, Clone, Debug, PartialEq, Eq, Structural)]
pub enum KvType {
    U8,
    I8,
    U16,
    I16,
    U32,
    I32,
    F32,
    Bool,
    String,
    Array,
    U64,
    I64,
    F64,
}

/// The type with the given tag.
pub open spec fn kv_type_of(v: u32) -> Option<KvType> {
    if v == 0 {
        Some(KvType::U8)
    } else if v == 1 {
        Some(KvType::I8)
    } else if v == 2 {
        Some(KvType::U16)
    } else if v == 3 {
        Some(KvType::I16)
    } else if v == 4 {
        Some(KvType::U32)
    } else if v == 5 {
        Some(KvType::I32)
    } else if v == 6 {
        Some(KvType::F32)
    } else if v == 7 {
        Some(KvType::Bool)
    } else if v == 8 {
        Some(KvType::String)
    } else if v == 9 {
        Some(KvType::Array)
    } else if v == 10 {
        Some(KvType::U64)
    } else if v == 11 {
        Some(KvType::I64)
    } else if v == 12 {
        Some(KvType::F64)
    } else {
        None
    }
}

impl KvType {
    fn from_u32(v: u32) -> (r: Result<Self, GgufError>)
        ensures
            match kv_type_of(v) {
                Some(t) => r == Ok::<KvType, GgufError>(t),
                None => r matches Err(e) && e@ == GgufFault::BadKvType(v),
            },
    {
        Ok(
            match v {
                0 => KvType::U8,
                1 => KvType::I8,
                2 => KvType::U16,
                3 => KvType::I16,
                4 => KvType::U32,
                5 => KvType::I32,
                6 => KvType::F32,
                7 => KvType::Bool,
                8 => KvType::String,
                9 => KvType::Array,
                10 => KvType::U64,
                11 => KvType::I64,
                12 => KvType::F64,
                other => {
                    return Err(GgufError::BadKvType(other));
                },
            },
        )
    }
}

/// Tensor dtype tag (the subset of ggml's enum that Lumen cares about).
#[derive(Copy, Clone, Debug, PartialEq, Eq, Structural)]
pub enum GgmlType {
    F32,
    F16,
    Q4_0,
    Q4_1,
    Q5_0,
    Q5_1,
    Q8_0,
    Q8_1,
}

/// The tag of a type.
pub open spec fn ggml_tag(t: GgmlType) -> u32 {
    match t {
        GgmlType::F32 => 0,
        GgmlType::F16 => 1,
        GgmlType::Q4_0 => 2,
        GgmlType::Q4_1 => 3,
        GgmlType::Q5_0 => 6,
        GgmlType::Q5_1 => 7,
        GgmlType::Q8_0 => 8,
        GgmlType::Q8_1 => 9,
    }
}

/// The type with the given tag.
pub open spec fn ggml_type_of(v: u32) -> Option<GgmlType> {
    if v == 0 {
        Some(GgmlType::F32)
    } else if v == 1 {
        Some(GgmlType::F16)
    } else if v == 2 {
        Some(GgmlType::Q4_0)
    } else if v == 3 {
        Some(GgmlType::Q4_1)
    } else if v == 6 {
        Some(GgmlType::Q5_0)
    } else if v == 7 {
        Some(GgmlType::Q5_1)
    } else if v == 8 {
        Some(GgmlType::Q8_0)
    } else if v == 9 {
        Some(GgmlType::Q8_1)
    } else {
        None
    }
}

/// Bytes of one storage unit: a number, or a block of a scale, for some types a
/// second number of two bytes, and the quants.
pub open spec fn unit_bytes(t: GgmlType) -> u64 {
    match t {
        GgmlType::F32 => 4,
        GgmlType::F16 => 2,
        GgmlType::Q4_0 => 18,
        GgmlType::Q4_1 => 20,
        GgmlType::Q5_0 => 22,
        GgmlType::Q5_1 => 24,
        GgmlType::Q8_0 => 34,
        GgmlType::Q8_1 => 36,
    }
}

/// Elements of one storage unit.
pub open spec fn unit_elements(t: GgmlType) -> u64 {
    match t {
        GgmlType::F32 => 1,
        GgmlType::F16 => 1,
        _ => 32,
    }
}

impl GgmlType {
    fn from_u32(v: u32) -> (r: Result<Self, GgufError>)
        ensures
            match ggml_type_of(v) {
                Some(t) => r == Ok::<GgmlType, GgufError>(t),
                None => r matches Err(e) && e@ == GgufFault::UnsupportedTensorType(v),
            },
    {
        Ok(
            match v {
                0 => GgmlType::F32,
                1 => GgmlType::F16,
                2 => GgmlType::Q4_0,
                3 => GgmlType::Q4_1,
                6 => GgmlType::Q5_0,
                7 => GgmlType::Q5_1,
                8 => GgmlType::Q8_0,
                9 => GgmlType::Q8_1,
                other => {
                    return Err(GgufError::UnsupportedTensorType(other));
                },
            },
        )
    }

    /// The tag of this type in a file.
    pub fn tag(self) -> (v: u32)
        ensures
            v == ggml_tag(self),
    {
        match self {
            GgmlType::F32 => 0,
            GgmlType::F16 => 1,
            GgmlType::Q4_0 => 2,
            GgmlType::Q4_1 => 3,
            GgmlType::Q5_0 => 6,
            GgmlType::Q5_1 => 7,
            GgmlType::Q8_0 => 8,
            GgmlType::Q8_1 => 9,
        }
    }

    /// Bytes for one storage unit (block for quantized formats, element for the
    /// scalar floats). Mirrors ggml's `ggml_type_size`.
    pub fn type_size(self) -> (n: u64)
        ensures
            n == unit_bytes(self),
            1 <= n <= 36,
    {
        match self {
            GgmlType::F32 => 4,
            GgmlType::F16 => 2,
            GgmlType::Q4_0 => 18,
            GgmlType::Q4_1 => 20,
            GgmlType::Q5_0 => 22,
            GgmlType::Q5_1 => 24,
            GgmlType::Q8_0 => 34,
            GgmlType::Q8_1 => 36,
        }
    }

    /// Elements per storage unit: 1 for unquantized scalars, 32 for blocks.
    pub fn block_size(self) -> (n: u64)
        ensures
            n == unit_elements(self),
            1 <= n <= 32,
    {
        match self {
            GgmlType::F32 | GgmlType::F16 => 1,
            _ => 32,
        }
    }
}

/// One key-value entry. Arrays are kept as their raw bytes plus the element
/// type. Floats are kept as their bit patterns.
#[derive(Clone, Debug)]
pub enum KvValue {
    U8(u8),
    I8(i8),
    U16(u16),
    I16(i16),
    U32(u32),
    I32(i32),
    /// Bit pattern of an fp32 number.
    F32(u32),
    U64(u64),
    I64(i64),
    /// Bit pattern of an fp64 number.
    F64(u64),
    Bool(bool),
    String(String),
    /// `(element_type, raw_bytes)`: the caller decodes based on element type.
    /// The element type is never `Array`: the format forbids nesting.
    Array(KvType, Vec<u8>),
}

/// What a [`KvValue`] holds.
pub enum KvView {
    U8(u8),
    I8(i8),
    U16(u16),
    I16(i16),
    U32(u32),
    I32(i32),
    F32(u32),
    U64(u64),
    I64(i64),
    F64(u64),
    Bool(bool),
    Text(Seq<char>),
    Array(KvType, Seq<u8>),
}

impl View for KvValue {
    type V = KvView;

    open spec fn view(&self) -> KvView {
        match self {
            KvValue::U8(v) => KvView::U8(*v),
            KvValue::I8(v) => KvView::I8(*v),
            KvValue::U16(v) => KvView::U16(*v),
            KvValue::I16(v) => KvView::I16(*v),
            KvValue::U32(v) => KvView::U32(*v),
            KvValue::I32(v) => KvView::I32(*v),
            KvValue::F32(v) => KvView::F32(*v),
            KvValue::U64(v) => KvView::U64(*v),
            KvValue::I64(v) => KvView::I64(*v),
            KvValue::F64(v) => KvView::F64(*v),
            KvValue::Bool(v) => KvView::Bool(*v),
            KvValue::String(s) => KvView::Text(s@),
            KvValue::Array(t, raw) => KvView::Array(*t, raw@),
        }
    }
}

/// One entry of the tensor table.
#[derive(Clone, Debug)]
pub struct TensorInfo {
    pub name: String,
    pub dims: Vec<u64>,
    pub dtype: GgmlType,
    pub offset: u64,
}

/// What a [`TensorInfo`] holds.
pub struct TensorView {
    pub name: Seq<char>,
    pub dims: Seq<u64>,
    pub dtype: GgmlType,
    pub offset: u64,
}

impl View for TensorInfo {
    type V = TensorView;

    open spec fn view(&self) -> TensorView {
        TensorView {
            name: self.name@,
            dims: self.dims@,
            dtype: self.dtype,
            offset: self.offset,
        }
    }
}

/// The product of the dimensions; nothing where a partial product does not fit
/// in 64 bits.
pub open spec fn dims_product(dims: Seq<u64>) -> Option<nat>
    decreases dims.len(),
{
    if dims.len() == 0 {
        Some(1)
    } else {
        match dims_product(dims.drop_last()) {
            None => None,
            Some(p) => if p * dims.last() <= u64::MAX {
                Some((p * dims.last()) as nat)
            } else {
                None
            },
        }
    }
}

/// The bytes that the elements take; nothing where they cannot be counted in
/// 64 bits.
pub open spec fn payload_bytes(t: TensorView) -> Option<nat> {
    match dims_product(t.dims) {
        None => None,
        Some(n) => if n * unit_bytes(t.dtype) <= u64::MAX {
            Some((n * unit_bytes(t.dtype) / unit_elements(t.dtype) as int) as nat)
        } else {
            None
        },
    }
}

/// A product that does not fit does not fit with more dimensions.
proof fn lemma_dims_product_none(dims: Seq<u64>, i: int)
    requires
        0 <= i <= dims.len(),
        dims_product(dims.subrange(0, i)) is None,
    ensures
        dims_product(dims) is None,
    decreases dims.len(),
{
    if i < dims.len() {
        assert(dims.drop_last().subrange(0, i) =~= dims.subrange(0, i));
        lemma_dims_product_none(dims.drop_last(), i);
    } else {
        assert(dims.subrange(0, i) =~= dims);
    }
}

impl TensorInfo {
    fn checked_count(&self) -> (n: Option<u64>)
        ensures
            match dims_product(self.dims@) {
                Some(p) => n == Some(p as u64) && p <= u64::MAX,
                None => n is None,
            },
    {
        let mut n: u64 = 1;
        let mut i: usize = 0;
        while i < self.dims.len()
            invariant
                i <= self.dims@.len(),
                dims_product(self.dims@.subrange(0, i as int)) == Some(n as nat),
            decreases self.dims@.len() - i,
        {
            proof {
                let s = self.dims@.subrange(0, i + 1);
                assert(s.drop_last() =~= self.dims@.subrange(0, i as int));
                assert(s.last() == self.dims@[i as int]);
            }
            match n.checked_mul(self.dims[i]) {
                Some(p) => {
                    n = p;
                },
                None => {
                    proof {
                        lemma_dims_product_none(self.dims@, i + 1);
                    }
                    return None;
                },
            }
            i = i + 1;
        }
        assert(self.dims@.subrange(0, i as int) =~= self.dims@);
        Some(n)
    }

    /// How many elements the tensor has.
    pub fn element_count(&self) -> (n: u64)
        requires
            dims_product(self.dims@) is Some,
        ensures
            n as nat == dims_product(self.dims@)->0,
    {
        match self.checked_count() {
            Some(n) => n,
            None => 0,
        }
    }

    fn checked_bytes(&self) -> (n: Option<u64>)
        ensures
            match payload_bytes(self@) {
                Some(p) => n == Some(p as u64) && p <= u64::MAX,
                None => n is None,
            },
    {
        match self.checked_count() {
            None => None,
            Some(n) => match n.checked_mul(self.dtype.type_size()) {
                None => None,
                Some(p) => {
                    let b: u64 = self.dtype.block_size();
                    assert(p / b <= p) by (nonlinear_arith)
                        requires
                            b >= 1,
                    ;
                    Some(p / b)
                },
            },
        }
    }

    /// Byte size of this tensor's payload in the GGUF data section. Mirrors ggml's
    /// `ggml_row_size`.
    pub fn byte_size(&self) -> (n: u64)
        requires
            payload_bytes(self@) is Some,
        ensures
            n as nat == payload_bytes(self@)->0,
    {
        match self.checked_bytes() {
            Some(n) => n,
            None => 0,
        }
    }
}

/// What is wrong with a file or with a request to it.
#[derive(Debug)]
pub enum GgufError {
    Truncated { needed: u64, at: u64, available: u64 },
    BadMagic([u8; 4]),
    UnsupportedVersion(u32),
    BadKvType(u32),
    UnsupportedTensorType(u32),
    BadString(u64),
    /// The data section cannot be aligned to a multiple of zero.
    BadAlignment,
    NoSuchTensor(String),
    NoSuchKey(String),
    WrongKvKind { key: String, expected: KvType },
}

/// What a [`GgufError`] says.
pub enum GgufFault {
    Truncated { needed: int, at: int, available: int },
    BadMagic(Seq<u8>),
    UnsupportedVersion(u32),
    BadKvType(u32),
    UnsupportedTensorType(u32),
    BadString(int),
    BadAlignment,
    NoSuchTensor(Seq<char>),
    NoSuchKey(Seq<char>),
    WrongKvKind { key: Seq<char>, expected: KvType },
}

impl View for GgufError {
    type V = GgufFault;

    open spec fn view(&self) -> GgufFault {
        match self {
            GgufError::Truncated { needed, at, available } => GgufFault::Truncated {
                needed: *needed as int,
                at: *at as int,
                available: *available as int,
            },
            GgufError::BadMagic(m) => GgufFault::BadMagic(m@),
            GgufError::UnsupportedVersion(v) => GgufFault::UnsupportedVersion(*v),
            GgufError::BadKvType(v) => GgufFault::BadKvType(*v),
            GgufError::UnsupportedTensorType(v) => GgufFault::UnsupportedTensorType(*v),
            GgufError::BadString(at) => GgufFault::BadString(*at as int),
            GgufError::BadAlignment => GgufFault::BadAlignment,
            GgufError::NoSuchTensor(s) => GgufFault::NoSuchTensor(s@),
            GgufError::NoSuchKey(s) => GgufFault::NoSuchKey(s@),
            GgufError::WrongKvKind { key, expected } => GgufFault::WrongKvKind {
                key: key@,
                expected: *expected,
            },
        }
    }
}

// ---- what a file holds ----------------------------------------------------------

/// The outcome of reading something: what it is and where it ends, or what is
/// wrong.
pub enum Parsed<T> {
    Good(T, int),
    Bad(GgufFault),
}

/// The fault of a file that ends before `n` bytes at `pos` are there.
pub open spec fn truncated(s: Seq<u8>, pos: int, n: int) -> GgufFault {
    GgufFault::Truncated { needed: n, at: pos, available: s.len() - pos }
}

/// `n` bytes at `pos`.
pub open spec fn parse_bytes(s: Seq<u8>, pos: int, n: int) -> Parsed<Seq<u8>> {
    if pos + n > s.len() {
        Parsed::Bad(truncated(s, pos, n))
    } else {
        Parsed::Good(s.subrange(pos, pos + n), pos + n)
    }
}

/// A little-endian number of `n` bytes at `pos`.
pub open spec fn parse_uint(s: Seq<u8>, pos: int, n: int) -> Parsed<nat> {
    match parse_bytes(s, pos, n) {
        Parsed::Bad(e) => Parsed::Bad(e),
        Parsed::Good(b, end) => Parsed::Good(le_value(b), end),
    }
}

/// A string at `pos`: its length and its UTF-8 bytes.
pub open spec fn parse_string(s: Seq<u8>, pos: int) -> Parsed<Seq<char>> {
    match parse_uint(s, pos, 8) {
        Parsed::Bad(e) => Parsed::Bad(e),
        Parsed::Good(len, start) => match parse_bytes(s, start, len as int) {
            Parsed::Bad(e) => Parsed::Bad(e),
            Parsed::Good(b, end) => if valid_utf8(b) {
                Parsed::Good(decode_utf8(b), end)
            } else {
                Parsed::Bad(GgufFault::BadString(start))
            },
        },
    }
}

/// The two's-complement number with the given pattern of `bits` bits, `half`
/// being `2^(bits - 1)`.
pub open spec fn signed(v: nat, half: int) -> int {
    if v < half {
        v as int
    } else {
        v - 2 * half
    }
}

/// How many bytes a value of fixed size takes.
pub open spec fn fixed_size(t: KvType) -> Option<int> {
    match t {
        KvType::U8 | KvType::I8 | KvType::Bool => Some(1),
        KvType::U16 | KvType::I16 => Some(2),
        KvType::U32 | KvType::I32 | KvType::F32 => Some(4),
        KvType::U64 | KvType::I64 | KvType::F64 => Some(8),
        KvType::String | KvType::Array => None,
    }
}

/// A number of the given type with the given pattern.
pub open spec fn fixed_value(t: KvType, v: nat) -> KvView {
    match t {
        KvType::U8 => KvView::U8(v as u8),
        KvType::I8 => KvView::I8(signed(v, 0x80) as i8),
        KvType::U16 => KvView::U16(v as u16),
        KvType::I16 => KvView::I16(signed(v, 0x8000) as i16),
        KvType::U32 => KvView::U32(v as u32),
        KvType::I32 => KvView::I32(signed(v, 0x8000_0000) as i32),
        KvType::F32 => KvView::F32(v as u32),
        KvType::U64 => KvView::U64(v as u64),
        KvType::I64 => KvView::I64(signed(v, 0x8000_0000_0000_0000) as i64),
        KvType::F64 => KvView::F64(v as u64),
        _ => KvView::Bool(v != 0),
    }
}

/// Where an array element at `pos` ends.
pub open spec fn parse_element(s: Seq<u8>, pos: int, t: KvType) -> Parsed<()> {
    match t {
        KvType::Array => Parsed::Bad(GgufFault::BadKvType(9)),
        KvType::String => match parse_uint(s, pos, 8) {
            Parsed::Bad(e) => Parsed::Bad(e),
            Parsed::Good(len, start) => match parse_bytes(s, start, len as int) {
                Parsed::Bad(e) => Parsed::Bad(e),
                Parsed::Good(_, end) => Parsed::Good((), end),
            },
        },
        _ => match parse_bytes(s, pos, fixed_size(t)->0) {
            Parsed::Bad(e) => Parsed::Bad(e),
            Parsed::Good(_, end) => Parsed::Good((), end),
        },
    }
}

/// Where `n` array elements from `pos` on end.
pub open spec fn parse_elements(s: Seq<u8>, pos: int, t: KvType, n: nat) -> Parsed<()>
    decreases n,
{
    if n == 0 {
        Parsed::Good((), pos)
    } else {
        match parse_element(s, pos, t) {
            Parsed::Bad(e) => Parsed::Bad(e),
            Parsed::Good(_, next) => parse_elements(s, next, t, (n - 1) as nat),
        }
    }
}

/// A value of type `t` at `pos`.
pub open spec fn parse_value(s: Seq<u8>, pos: int, t: KvType) -> Parsed<KvView> {
    match t {
        KvType::String => match parse_string(s, pos) {
            Parsed::Bad(e) => Parsed::Bad(e),
            Parsed::Good(text, end) => Parsed::Good(KvView::Text(text), end),
        },
        KvType::Array => match parse_uint(s, pos, 4) {
            Parsed::Bad(e) => Parsed::Bad(e),
            Parsed::Good(tag, p1) => match kv_type_of(tag as u32) {
                None => Parsed::Bad(GgufFault::BadKvType(tag as u32)),
                Some(KvType::Array) => Parsed::Bad(GgufFault::BadKvType(9)),
                Some(elem) => match parse_uint(s, p1, 8) {
                    Parsed::Bad(e) => Parsed::Bad(e),
                    Parsed::Good(n, start) => match parse_elements(s, start, elem, n) {
                        Parsed::Bad(e) => Parsed::Bad(e),
                        Parsed::Good(_, end) => Parsed::Good(
                            KvView::Array(elem, s.subrange(start, end)),
                            end,
                        ),
                    },
                },
            },
        },
        _ => match parse_uint(s, pos, fixed_size(t)->0) {
            Parsed::Bad(e) => Parsed::Bad(e),
            Parsed::Good(v, end) => Parsed::Good(fixed_value(t, v), end),
        },
    }
}

/// A key, a type tag and a value at `pos`.
pub open spec fn parse_pair(s: Seq<u8>, pos: int) -> Parsed<(Seq<char>, KvView)> {
    match parse_string(s, pos) {
        Parsed::Bad(e) => Parsed::Bad(e),
        Parsed::Good(key, p1) => match parse_uint(s, p1, 4) {
            Parsed::Bad(e) => Parsed::Bad(e),
            Parsed::Good(tag, p2) => match kv_type_of(tag as u32) {
                None => Parsed::Bad(GgufFault::BadKvType(tag as u32)),
                Some(t) => match parse_value(s, p2, t) {
                    Parsed::Bad(e) => Parsed::Bad(e),
                    Parsed::Good(v, end) => Parsed::Good((key, v), end),
                },
            },
        },
    }
}

/// `n` pairs from `pos` on.
pub open spec fn parse_pairs(s: Seq<u8>, pos: int, n: nat) -> Parsed<Seq<(Seq<char>, KvView)>>
    decreases n,
{
    if n == 0 {
        Parsed::Good(Seq::empty(), pos)
    } else {
        match parse_pair(s, pos) {
            Parsed::Bad(e) => Parsed::Bad(e),
            Parsed::Good(pair, next) => match parse_pairs(s, next, (n - 1) as nat) {
                Parsed::Bad(e) => Parsed::Bad(e),
                Parsed::Good(rest, end) => Parsed::Good(seq![pair] + rest, end),
            },
        }
    }
}

/// `n` dimensions from `pos` on.
pub open spec fn parse_dims(s: Seq<u8>, pos: int, n: nat) -> Parsed<Seq<u64>>
    decreases n,
{
    if n == 0 {
        Parsed::Good(Seq::empty(), pos)
    } else {
        match parse_uint(s, pos, 8) {
            Parsed::Bad(e) => Parsed::Bad(e),
            Parsed::Good(d, next) => match parse_dims(s, next, (n - 1) as nat) {
                Parsed::Bad(e) => Parsed::Bad(e),
                Parsed::Good(rest, end) => Parsed::Good(seq![d as u64] + rest, end),
            },
        }
    }
}

/// An entry of the tensor table at `pos`.
pub open spec fn parse_tensor(s: Seq<u8>, pos: int) -> Parsed<TensorView> {
    match parse_string(s, pos) {
        Parsed::Bad(e) => Parsed::Bad(e),
        Parsed::Good(name, p1) => match parse_uint(s, p1, 4) {
            Parsed::Bad(e) => Parsed::Bad(e),
            Parsed::Good(n, p2) => match parse_dims(s, p2, n) {
                Parsed::Bad(e) => Parsed::Bad(e),
                Parsed::Good(dims, p3) => match parse_uint(s, p3, 4) {
                    Parsed::Bad(e) => Parsed::Bad(e),
                    Parsed::Good(tag, p4) => match ggml_type_of(tag as u32) {
                        None => Parsed::Bad(GgufFault::UnsupportedTensorType(tag as u32)),
                        Some(dtype) => match parse_uint(s, p4, 8) {
                            Parsed::Bad(e) => Parsed::Bad(e),
                            Parsed::Good(offset, end) => Parsed::Good(
                                TensorView { name, dims, dtype, offset: offset as u64 },
                                end,
                            ),
                        },
                    },
                },
            },
        },
    }
}

/// `n` entries of the tensor table from `pos` on.
pub open spec fn parse_tensors(s: Seq<u8>, pos: int, n: nat) -> Parsed<Seq<TensorView>>
    decreases n,
{
    if n == 0 {
        Parsed::Good(Seq::empty(), pos)
    } else {
        match parse_tensor(s, pos) {
            Parsed::Bad(e) => Parsed::Bad(e),
            Parsed::Good(t, next) => match parse_tensors(s, next, (n - 1) as nat) {
                Parsed::Bad(e) => Parsed::Bad(e),
                Parsed::Good(rest, end) => Parsed::Good(seq![t] + rest, end),
            },
        }
    }
}

/// The value of a key: that of the last pair with it.
pub open spec fn last_value(pairs: Seq<(Seq<char>, KvView)>, key: Seq<char>) -> Option<KvView>
    decreases pairs.len(),
{
    if pairs.len() == 0 {
        None
    } else if pairs.last().0 == key {
        Some(pairs.last().1)
    } else {
        last_value(pairs.drop_last(), key)
    }
}

/// The alignment of the data section: `general.alignment`, or 32.
pub open spec fn alignment_of(pairs: Seq<(Seq<char>, KvView)>) -> u64 {
    match last_value(pairs, "general.alignment"@) {
        Some(KvView::U32(v)) => v as u64,
        Some(KvView::U64(v)) => v,
        _ => 32,
    }
}

/// The bytes that are missing at `pos` to the next multiple of `align`.
pub open spec fn padding(pos: int, align: int) -> int {
    (align - pos % align) % align
}

/// What a file holds.
pub struct Content {
    pub pairs: Seq<(Seq<char>, KvView)>,
    pub tensors: Seq<TensorView>,
    /// Where the data section starts.
    pub data_offset: int,
    pub alignment: u64,
}

/// The pairs, the tensor table and the data section of a file.
pub open spec fn parse_file(s: Seq<u8>) -> Parsed<Content> {
    match parse_bytes(s, 0, 4) {
        Parsed::Bad(e) => Parsed::Bad(e),
        Parsed::Good(magic, p0) => if magic != seq![0x47u8, 0x47, 0x55, 0x46] {
            Parsed::Bad(GgufFault::BadMagic(magic))
        } else {
            match parse_uint(s, p0, 4) {
                Parsed::Bad(e) => Parsed::Bad(e),
                Parsed::Good(version, p1) => if version != 3 {
                    Parsed::Bad(GgufFault::UnsupportedVersion(version as u32))
                } else {
                    parse_body(s, p1)
                },
            }
        },
    }
}

/// What follows the version.
pub open spec fn parse_body(s: Seq<u8>, p1: int) -> Parsed<Content> {
    match parse_uint(s, p1, 8) {
        Parsed::Bad(e) => Parsed::Bad(e),
        Parsed::Good(n_tensors, p2) => match parse_uint(s, p2, 8) {
            Parsed::Bad(e) => Parsed::Bad(e),
            Parsed::Good(n_kv, p3) => match parse_pairs(s, p3, n_kv) {
                Parsed::Bad(e) => Parsed::Bad(e),
                Parsed::Good(pairs, p4) => parse_rest(s, pairs, p4, n_tensors),
            },
        },
    }
}

/// What follows the key-value pairs.
pub open spec fn parse_rest(
    s: Seq<u8>,
    pairs: Seq<(Seq<char>, KvView)>,
    p4: int,
    n_tensors: nat,
) -> Parsed<Content> {
    match parse_tensors(s, p4, n_tensors) {
        Parsed::Bad(e) => Parsed::Bad(e),
        Parsed::Good(tensors, p5) => parse_padding(s, pairs, tensors, p5),
    }
}

/// What follows the tensor table.
pub open spec fn parse_padding(
    s: Seq<u8>,
    pairs: Seq<(Seq<char>, KvView)>,
    tensors: Seq<TensorView>,
    p5: int,
) -> Parsed<Content> {
    let alignment = alignment_of(pairs);
    if alignment == 0 {
        Parsed::Bad(GgufFault::BadAlignment)
    } else {
        match parse_bytes(s, p5, padding(p5, alignment as int)) {
            Parsed::Bad(e) => Parsed::Bad(e),
            Parsed::Good(_, data_offset) => Parsed::Good(
                Content { pairs, tensors, data_offset, alignment },
                data_offset,
            ),
        }
    }
}

// ---- messages --------------------------------------------------------------------

/// `[a, b, c, d]`.
pub open spec fn byte_list(b: Seq<u8>) -> Seq<char> {
    "["@ + decimal(b[0] as nat) + ", "@ + decimal(b[1] as nat) + ", "@ + decimal(b[2] as nat)
        + ", "@ + decimal(b[3] as nat) + "]"@
}

/// The name of a value type.
pub open spec fn kv_type_name(t: KvType) -> Seq<char> {
    match t {
        KvType::U8 => "U8"@,
        KvType::I8 => "I8"@,
        KvType::U16 => "U16"@,
        KvType::I16 => "I16"@,
        KvType::U32 => "U32"@,
        KvType::I32 => "I32"@,
        KvType::F32 => "F32"@,
        KvType::Bool => "Bool"@,
        KvType::String => "String"@,
        KvType::Array => "Array"@,
        KvType::U64 => "U64"@,
        KvType::I64 => "I64"@,
        KvType::F64 => "F64"@,
    }
}

impl KvType {
    /// The name of this type.
    pub fn name(self) -> (s: &'static str)
        ensures
            s@ == kv_type_name(self),
    {
        match self {
            KvType::U8 => "U8",
            KvType::I8 => "I8",
            KvType::U16 => "U16",
            KvType::I16 => "I16",
            KvType::U32 => "U32",
            KvType::I32 => "I32",
            KvType::F32 => "F32",
            KvType::Bool => "Bool",
            KvType::String => "String",
            KvType::Array => "Array",
            KvType::U64 => "U64",
            KvType::I64 => "I64",
            KvType::F64 => "F64",
        }
    }
}

impl GgufError {
    /// The message shown to the user.
    pub open spec fn text(&self) -> Seq<char> {
        match self {
            GgufError::Truncated { needed, at, available } => "truncated file: needed "@ + decimal(
                *needed as nat,
            ) + " bytes at offset "@ + decimal(*at as nat) + ", got "@ + decimal(*available as nat),
            GgufError::BadMagic(m) => "bad magic — expected `GGUF`, got "@ + byte_list(m@),
            GgufError::UnsupportedVersion(v) => "unsupported version "@ + decimal(*v as nat)
                + " (this build supports v3)"@,
            GgufError::BadKvType(v) => "bad KV type tag "@ + decimal(*v as nat),
            GgufError::UnsupportedTensorType(v) => "unsupported tensor type tag "@ + decimal(
                *v as nat,
            ),
            GgufError::BadString(at) => "invalid utf-8 in GGUF string at offset "@ + decimal(
                *at as nat,
            ),
            GgufError::BadAlignment => "alignment of the data section is zero"@,
            GgufError::NoSuchTensor(s) => "tensor `"@ + s@ + "` not found"@,
            GgufError::NoSuchKey(s) => "metadata key `"@ + s@ + "` not found"@,
            GgufError::WrongKvKind { key, expected } => "metadata key `"@ + key@
                + "` has the wrong type (expected "@ + kv_type_name(*expected) + ")"@,
        }
    }

    /// The message shown to the user.
    pub fn message(&self) -> (m: String)
        ensures
            m@ == self.text(),
    {
        let mut m: String;
        match self {
            GgufError::Truncated { needed, at, available } => {
                m = "truncated file: needed ".to_string();
                push_decimal(&mut m, *needed);
                push_text(&mut m, " bytes at offset ");
                push_decimal(&mut m, *at);
                push_text(&mut m, ", got ");
                push_decimal(&mut m, *available);
            },
            GgufError::BadMagic(b) => {
                let mut list: String = "[".to_string();
                push_decimal(&mut list, b[0] as u64);
                push_text(&mut list, ", ");
                push_decimal(&mut list, b[1] as u64);
                push_text(&mut list, ", ");
                push_decimal(&mut list, b[2] as u64);
                push_text(&mut list, ", ");
                push_decimal(&mut list, b[3] as u64);
                push_text(&mut list, "]");
                m = "bad magic — expected `GGUF`, got ".to_string();
                push_text(&mut m, list.as_str());
            },
            GgufError::UnsupportedVersion(v) => {
                m = "unsupported version ".to_string();
                push_decimal(&mut m, *v as u64);
                push_text(&mut m, " (this build supports v3)");
            },
            GgufError::BadKvType(v) => {
                m = "bad KV type tag ".to_string();
                push_decimal(&mut m, *v as u64);
            },
            GgufError::UnsupportedTensorType(v) => {
                m = "unsupported tensor type tag ".to_string();
                push_decimal(&mut m, *v as u64);
            },
            GgufError::BadString(at) => {
                m = "invalid utf-8 in GGUF string at offset ".to_string();
                push_decimal(&mut m, *at);
            },
            GgufError::BadAlignment => {
                m = "alignment of the data section is zero".to_string();
            },
            GgufError::NoSuchTensor(s) => {
                m = "tensor `".to_string();
                push_text(&mut m, s.as_str());
                push_text(&mut m, "` not found");
            },
            GgufError::NoSuchKey(s) => {
                m = "metadata key `".to_string();
                push_text(&mut m, s.as_str());
                push_text(&mut m, "` not found");
            },
            GgufError::WrongKvKind { key, expected } => {
                m = "metadata key `".to_string();
                push_text(&mut m, key.as_str());
                push_text(&mut m, "` has the wrong type (expected ");
                push_text(&mut m, expected.name());
                push_text(&mut m, ")");
            },
        }
        m
    }
}

// ---- reading ---------------------------------------------------------------------

/// A byte cursor.
struct Cursor<'a> {
    src: &'a [u8],
    pos: usize,
}

/// What reading a number comes to.
spec fn uint_read(p: Parsed<nat>, r: Result<u64, GgufError>, pos: int) -> bool {
    match p {
        Parsed::Good(v, end) => r matches Ok(x) && x as nat == v && pos == end,
        Parsed::Bad(e) => r matches Err(x) && x@ == e,
    }
}

/// A number of four bytes fits in 32 bits, and so on.
proof fn lemma_uint_bound(s: Seq<u8>, pos: int, n: int)
    requires
        0 <= pos,
        n == 1 || n == 2 || n == 4 || n == 8,
    ensures
        parse_uint(s, pos, n) matches Parsed::Good(v, end) ==> {
            &&& (n == 1 ==> v < 0x100)
            &&& (n == 2 ==> v < 0x1_0000)
            &&& (n == 4 ==> v < 0x1_0000_0000)
            &&& (n == 8 ==> v < 0x1_0000_0000_0000_0000)
            &&& end == pos + n
            &&& end <= s.len()
        },
{
    if pos + n <= s.len() {
        lemma_le_bytes_of_le_value(s.subrange(pos, pos + n));
        lemma_pow256_values();
    }
}

impl<'a> Cursor<'a> {
    spec fn wf(&self) -> bool {
        self.pos <= self.src@.len()
    }

    fn take(&mut self, n: u64) -> (r: Result<&'a [u8], GgufError>)
        requires
            old(self).wf(),
        ensures
            final(self).wf(),
            final(self).src == old(self).src,
            match parse_bytes(old(self).src@, old(self).pos as int, n as int) {
                Parsed::Good(b, end) => r matches Ok(x) && x@ == b && final(self).pos == end,
                Parsed::Bad(e) => r matches Err(x) && x@ == e,
            },
    {
        assert(self.src.len() == self.src@.len());
        let available: u64 = (self.src.len() - self.pos) as u64;
        if n > available {
            return Err(GgufError::Truncated { needed: n, at: self.pos as u64, available });
        }
        let end: usize = self.pos + n as usize;
        let s = slice_subrange(self.src, self.pos, end);
        self.pos = end;
        Ok(s)
    }

    fn skip(&mut self, n: u64) -> (r: Result<(), GgufError>)
        requires
            old(self).wf(),
        ensures
            final(self).wf(),
            final(self).src == old(self).src,
            match parse_bytes(old(self).src@, old(self).pos as int, n as int) {
                Parsed::Good(b, end) => r is Ok && final(self).pos == end,
                Parsed::Bad(e) => r matches Err(x) && x@ == e,
            },
    {
        match self.take(n) {
            Ok(_) => Ok(()),
            Err(e) => Err(e),
        }
    }

    fn uint(&mut self, n: usize) -> (r: Result<u64, GgufError>)
        requires
            old(self).wf(),
            n == 1 || n == 2 || n == 4 || n == 8,
        ensures
            final(self).wf(),
            final(self).src == old(self).src,
            uint_read(
                parse_uint(old(self).src@, old(self).pos as int, n as int),
                r,
                final(self).pos as int,
            ),
            r matches Ok(v) ==> {
                &&& (n == 1 ==> v < 0x100)
                &&& (n == 2 ==> v < 0x1_0000)
                &&& (n == 4 ==> v < 0x1_0000_0000)
            },
    {
        proof {
            lemma_uint_bound(self.src@, self.pos as int, n as int);
        }
        match self.take(n as u64) {
            Ok(s) => {
                assert(s@.subrange(0, n as int) =~= s@);
                Ok(read_le(s, 0, n))
            },
            Err(e) => Err(e),
        }
    }

    fn string(&mut self) -> (r: Result<String, GgufError>)
        requires
            old(self).wf(),
        ensures
            final(self).wf(),
            final(self).src == old(self).src,
            match parse_string(old(self).src@, old(self).pos as int) {
                Parsed::Good(t, end) => r matches Ok(x) && x@ == t && final(self).pos == end,
                Parsed::Bad(e) => r matches Err(x) && x@ == e,
            },
    {
        let len: u64 = match self.uint(8) {
            Ok(v) => v,
            Err(e) => {
                return Err(e);
            },
        };
        let start: u64 = self.pos as u64;
        let bytes = match self.take(len) {
            Ok(b) => b,
            Err(e) => {
                return Err(e);
            },
        };
        match string_from_utf8(slice_to_vec(bytes)) {
            Ok(s) => Ok(s),
            Err(_) => Err(GgufError::BadString(start)),
        }
    }

    fn tag(&mut self) -> (r: Result<KvType, GgufError>)
        requires
            old(self).wf(),
        ensures
            final(self).wf(),
            final(self).src == old(self).src,
            match parse_uint(old(self).src@, old(self).pos as int, 4) {
                Parsed::Good(v, end) => final(self).pos == end && match kv_type_of(v as u32) {
                    Some(t) => r == Ok::<KvType, GgufError>(t),
                    None => r matches Err(x) && x@ == GgufFault::BadKvType(v as u32),
                },
                Parsed::Bad(e) => r matches Err(x) && x@ == e,
            },
    {
        match self.uint(4) {
            Ok(v) => KvType::from_u32(v as u32),
            Err(e) => Err(e),
        }
    }

    fn skip_kv_payload(&mut self, t: KvType) -> (r: Result<(), GgufError>)
        requires
            old(self).wf(),
        ensures
            final(self).wf(),
            final(self).src == old(self).src,
            match parse_element(old(self).src@, old(self).pos as int, t) {
                Parsed::Good(_, end) => r is Ok && final(self).pos == end,
                Parsed::Bad(e) => r matches Err(x) && x@ == e,
            },
    {
        match t {
            KvType::U8 | KvType::I8 | KvType::Bool => self.skip(1),
            KvType::U16 | KvType::I16 => self.skip(2),
            KvType::U32 | KvType::I32 | KvType::F32 => self.skip(4),
            KvType::U64 | KvType::I64 | KvType::F64 => self.skip(8),
            KvType::String => {
                match self.uint(8) {
                    Ok(n) => self.skip(n),
                    Err(e) => Err(e),
                }
            },
            KvType::Array => Err(GgufError::BadKvType(9)),
        }
    }

    fn array(&mut self) -> (r: Result<KvValue, GgufError>)
        requires
            old(self).wf(),
        ensures
            final(self).wf(),
            final(self).src == old(self).src,
            match parse_value(old(self).src@, old(self).pos as int, KvType::Array) {
                Parsed::Good(v, end) => r matches Ok(x) && x@ == v && final(self).pos == end,
                Parsed::Bad(e) => r matches Err(x) && x@ == e,
            },
    {
        let elem = match self.tag() {
            Ok(t) => t,
            Err(e) => {
                return Err(e);
            },
        };
        if matches!(elem, KvType::Array) {
            return Err(GgufError::BadKvType(9));
        }
        let n: u64 = match self.uint(8) {
            Ok(v) => v,
            Err(e) => {
                return Err(e);
            },
        };
        let start: usize = self.pos;
        let ghost s = self.src@;
        let ghost whole = parse_elements(s, start as int, elem, n as nat);
        let mut i: u64 = 0;
        while i < n
            invariant
                i <= n,
                self.wf(),
                self.src@ == s,
                self.src == old(self).src,
                start <= self.pos,
                parse_elements(s, self.pos as int, elem, (n - i) as nat) == whole,
                parse_value(old(self).src@, old(self).pos as int, KvType::Array) == (match whole {
                    Parsed::Bad(e) => Parsed::Bad(e),
                    Parsed::Good(_, end) => Parsed::Good(
                        KvView::Array(elem, s.subrange(start as int, end)),
                        end,
                    ),
                }),
            decreases n - i,
        {
            match self.skip_kv_payload(elem) {
                Ok(()) => {},
                Err(e) => {
                    return Err(e);
                },
            }
            i = i + 1;
        }
        let raw = slice_to_vec(slice_subrange(self.src, start, self.pos));
        Ok(KvValue::Array(elem, raw))
    }

    fn kv_value(&mut self, t: KvType) -> (r: Result<KvValue, GgufError>)
        requires
            old(self).wf(),
        ensures
            final(self).wf(),
            final(self).src == old(self).src,
            match parse_value(old(self).src@, old(self).pos as int, t) {
                Parsed::Good(v, end) => r matches Ok(x) && x@ == v && final(self).pos == end,
                Parsed::Bad(e) => r matches Err(x) && x@ == e,
            },
    {
        match t {
            KvType::Array => {
                return self.array();
            },
            KvType::String => {
                return match self.string() {
                    Ok(s) => Ok(KvValue::String(s)),
                    Err(e) => Err(e),
                };
            },
            _ => {},
        }
        let n: usize = match t {
            KvType::U8 | KvType::I8 | KvType::Bool => 1,
            KvType::U16 | KvType::I16 => 2,
            KvType::U32 | KvType::I32 | KvType::F32 => 4,
            _ => 8,
        };
        let v: u64 = match self.uint(n) {
            Ok(v) => v,
            Err(e) => {
                return Err(e);
            },
        };
        Ok(
            match t {
                KvType::U8 => KvValue::U8(v as u8),
                KvType::I8 => KvValue::I8(
                    if v < 0x80 {
                        v as i8
                    } else {
                        (v as i64 - 0x100) as i8
                    },
                ),
                KvType::U16 => KvValue::U16(v as u16),
                KvType::I16 => KvValue::I16(
                    if v < 0x8000 {
                        v as i16
                    } else {
                        (v as i64 - 0x1_0000) as i16
                    },
                ),
                KvType::U32 => KvValue::U32(v as u32),
                KvType::I32 => KvValue::I32(
                    if v < 0x8000_0000 {
                        v as i32
                    } else {
                        (v as i64 - 0x1_0000_0000) as i32
                    },
                ),
                KvType::F32 => KvValue::F32(v as u32),
                KvType::U64 => KvValue::U64(v),
                KvType::I64 => KvValue::I64(
                    if v < 0x8000_0000_0000_0000 {
                        v as i64
                    } else {
                        (v as i128 - 0x1_0000_0000_0000_0000) as i64
                    },
                ),
                KvType::F64 => KvValue::F64(v),
                _ => KvValue::Bool(v != 0),
            },
        )
    }

    fn pair(&mut self) -> (r: Result<(String, KvValue), GgufError>)
        requires
            old(self).wf(),
        ensures
            final(self).wf(),
            final(self).src == old(self).src,
            match parse_pair(old(self).src@, old(self).pos as int) {
                Parsed::Good(p, end) => r matches Ok(x) && x.0@ == p.0 && x.1@ == p.1
                    && final(self).pos == end,
                Parsed::Bad(e) => r matches Err(x) && x@ == e,
            },
    {
        let key = match self.string() {
            Ok(k) => k,
            Err(e) => {
                return Err(e);
            },
        };
        let t = match self.tag() {
            Ok(t) => t,
            Err(e) => {
                return Err(e);
            },
        };
        match self.kv_value(t) {
            Ok(v) => Ok((key, v)),
            Err(e) => Err(e),
        }
    }

    fn dims(&mut self, n: u64) -> (r: Result<Vec<u64>, GgufError>)
        requires
            old(self).wf(),
        ensures
            final(self).wf(),
            final(self).src == old(self).src,
            match parse_dims(old(self).src@, old(self).pos as int, n as nat) {
                Parsed::Good(d, end) => r matches Ok(x) && x@ == d && final(self).pos == end,
                Parsed::Bad(e) => r matches Err(x) && x@ == e,
            },
    {
        let ghost s = self.src@;
        let ghost whole = parse_dims(s, self.pos as int, n as nat);
        let mut dims: Vec<u64> = Vec::new();
        let mut i: u64 = 0;
        assert(prepend(dims@, whole) == whole) by {
            lemma_prepend_nothing(whole);
        }
        while i < n
            invariant
                i <= n,
                self.wf(),
                self.src@ == s,
                self.src == old(self).src,
                whole == parse_dims(old(self).src@, old(self).pos as int, n as nat),
                prepend(dims@, parse_dims(s, self.pos as int, (n - i) as nat)) == whole,
            decreases n - i,
        {
            let ghost before = parse_dims(s, self.pos as int, (n - i) as nat);
            let ghost done = dims@;
            let d: u64 = match self.uint(8) {
                Ok(v) => v,
                Err(e) => {
                    return Err(e);
                },
            };
            dims.push(d);
            i = i + 1;
            proof {
                let rest = parse_dims(s, self.pos as int, (n - i) as nat);
                lemma_prepend_one(done, d, rest, before);
            }
        }
        proof {
            assert(dims@ + Seq::<u64>::empty() =~= dims@);
        }
        Ok(dims)
    }

    fn tensor(&mut self) -> (r: Result<TensorInfo, GgufError>)
        requires
            old(self).wf(),
        ensures
            final(self).wf(),
            final(self).src == old(self).src,
            match parse_tensor(old(self).src@, old(self).pos as int) {
                Parsed::Good(t, end) => r matches Ok(x) && x@ == t && final(self).pos == end,
                Parsed::Bad(e) => r matches Err(x) && x@ == e,
            },
    {
        let name = match self.string() {
            Ok(s) => s,
            Err(e) => {
                return Err(e);
            },
        };
        let n: u64 = match self.uint(4) {
            Ok(v) => v,
            Err(e) => {
                return Err(e);
            },
        };
        let dims = match self.dims(n) {
            Ok(d) => d,
            Err(e) => {
                return Err(e);
            },
        };
        let tag: u64 = match self.uint(4) {
            Ok(v) => v,
            Err(e) => {
                return Err(e);
            },
        };
        let dtype = match GgmlType::from_u32(tag as u32) {
            Ok(t) => t,
            Err(e) => {
                return Err(e);
            },
        };
        match self.uint(8) {
            Ok(offset) => Ok(TensorInfo { name, dims, dtype, offset }),
            Err(e) => Err(e),
        }
    }
}

/// `done` before what was read.
spec fn prepend<T>(done: Seq<T>, r: Parsed<Seq<T>>) -> Parsed<Seq<T>> {
    match r {
        Parsed::Good(rest, end) => Parsed::Good(done + rest, end),
        Parsed::Bad(e) => Parsed::Bad(e),
    }
}

proof fn lemma_prepend_nothing<T>(r: Parsed<Seq<T>>)
    ensures
        prepend(Seq::empty(), r) == r,
{
    match r {
        Parsed::Good(rest, end) => {
            assert(Seq::<T>::empty() + rest =~= rest);
        },
        Parsed::Bad(e) => {},
    }
}

proof fn lemma_prepend_one<T>(done: Seq<T>, x: T, rest: Parsed<Seq<T>>, before: Parsed<Seq<T>>)
    requires
        before == prepend(seq![x], rest),
    ensures
        prepend(done.push(x), rest) == prepend(done, before),
{
    match rest {
        Parsed::Good(r, end) => {
            assert(done.push(x) + r =~= done + (seq![x] + r));
        },
        Parsed::Bad(e) => {},
    }
}

// ---- metadata --------------------------------------------------------------------

/// The key-value pairs of a file, each key once.
#[derive(Debug)]
pub struct Metadata {
    entries: Vec<(String, KvValue)>,
}

/// The value of a key among entries.
spec fn entry_value(entries: Seq<(String, KvValue)>, key: Seq<char>) -> Option<KvView>
    decreases entries.len(),
{
    if entries.len() == 0 {
        None
    } else if entries.last().0@ == key {
        Some(entries.last().1@)
    } else {
        entry_value(entries.drop_last(), key)
    }
}

/// No key stands twice.
spec fn distinct_keys(entries: Seq<(String, KvValue)>) -> bool {
    forall|i: int, j: int|
        0 <= i < j < entries.len() ==> (#[trigger] entries[i]).0@ != (#[trigger] entries[j]).0@
}

proof fn lemma_entry_absent(entries: Seq<(String, KvValue)>, key: Seq<char>)
    requires
        forall|i: int| 0 <= i < entries.len() ==> (#[trigger] entries[i]).0@ != key,
    ensures
        entry_value(entries, key) is None,
    decreases entries.len(),
{
    if entries.len() > 0 {
        assert(entries[entries.len() - 1].0@ != key);
        assert forall|i: int| 0 <= i < entries.drop_last().len() implies (
        #[trigger] entries.drop_last()[i]).0@ != key by {
            assert(entries[i].0@ != key);
        }
        lemma_entry_absent(entries.drop_last(), key);
    }
}

proof fn lemma_entry_at(entries: Seq<(String, KvValue)>, i: int)
    requires
        distinct_keys(entries),
        0 <= i < entries.len(),
    ensures
        entry_value(entries, entries[i].0@) == Some(entries[i].1@),
    decreases entries.len(),
{
    if i < entries.len() - 1 {
        assert(entries[i].0@ != entries[entries.len() - 1].0@);
        assert forall|a: int, b: int|
            0 <= a < b < entries.drop_last().len() implies (#[trigger] entries.drop_last()[a]).0@
            != (#[trigger] entries.drop_last()[b]).0@ by {
            assert(entries[a].0@ != entries[b].0@);
        }
        lemma_entry_at(entries.drop_last(), i);
    }
}

/// Replacing the value of a key changes that key only.
proof fn lemma_entry_update(
    entries: Seq<(String, KvValue)>,
    i: int,
    e: (String, KvValue),
    key: Seq<char>,
)
    requires
        distinct_keys(entries),
        0 <= i < entries.len(),
        entries[i].0@ == e.0@,
    ensures
        distinct_keys(entries.update(i, e)),
        entry_value(entries.update(i, e), key) == (if key == e.0@ {
            Some(e.1@)
        } else {
            entry_value(entries, key)
        }),
    decreases entries.len(),
{
    let new = entries.update(i, e);
    assert forall|a: int, b: int| 0 <= a < b < new.len() implies (#[trigger] new[a]).0@ != (
    #[trigger] new[b]).0@ by {
        assert(entries[a].0@ != entries[b].0@);
    }
    if key == e.0@ {
        lemma_entry_at(new, i);
    } else if i < entries.len() - 1 {
        assert forall|a: int, b: int|
            0 <= a < b < entries.drop_last().len() implies (#[trigger] entries.drop_last()[a]).0@
            != (#[trigger] entries.drop_last()[b]).0@ by {
            assert(entries[a].0@ != entries[b].0@);
        }
        assert(new.drop_last() =~= entries.drop_last().update(i, e));
        lemma_entry_update(entries.drop_last(), i, e, key);
    } else {
        assert(new.drop_last() =~= entries.drop_last());
    }
}

/// The keys of a list of entries.
pub open spec fn keys_of(entries: Seq<(String, KvValue)>) -> Seq<Seq<char>> {
    Seq::new(entries.len(), |i: int| entries[i].0@)
}

/// The keys of pairs, each where it first stands.
pub open spec fn first_keys(pairs: Seq<(Seq<char>, KvView)>) -> Seq<Seq<char>>
    decreases pairs.len(),
{
    if pairs.len() == 0 {
        Seq::empty()
    } else {
        let before = first_keys(pairs.drop_last());
        if before.contains(pairs.last().0) {
            before
        } else {
            before.push(pairs.last().0)
        }
    }
}

impl Metadata {
    /// The value of a key.
    pub closed spec fn value(&self, key: Seq<char>) -> Option<KvView> {
        entry_value(self.entries@, key)
    }

    /// No key stands twice.
    pub closed spec fn wf(&self) -> bool {
        distinct_keys(self.entries@)
    }

    /// The entries, in the order in which their keys first stand in the file.
    pub closed spec fn list(&self) -> Seq<(String, KvValue)> {
        self.entries@
    }

    fn position(&self, key: &String) -> (r: Option<usize>)
        ensures
            match r {
                Some(i) => i < self.entries@.len() && self.entries@[i as int].0@ == key@,
                None => forall|i: int|
                    0 <= i < self.entries@.len() ==> (#[trigger] self.entries@[i]).0@ != key@,
            },
    {
        let mut i: usize = 0;
        while i < self.entries.len()
            invariant
                i <= self.entries@.len(),
                forall|j: int| 0 <= j < i ==> (#[trigger] self.entries@[j]).0@ != key@,
            decreases self.entries@.len() - i,
        {
            if self.entries[i].0 == *key {
                return Some(i);
            }
            i = i + 1;
        }
        None
    }

    fn insert(&mut self, key: String, v: KvValue)
        requires
            old(self).wf(),
        ensures
            final(self).wf(),
            forall|k: Seq<char>| #[trigger]
                final(self).value(k) == (if k == key@ {
                    Some(v@)
                } else {
                    old(self).value(k)
                }),
            keys_of(final(self).list()) == (if keys_of(old(self).list()).contains(key@) {
                keys_of(old(self).list())
            } else {
                keys_of(old(self).list()).push(key@)
            }),
    {
        let ghost before = self.entries@;
        let ghost keys = keys_of(before);
        let ghost e = (key, v);
        match self.position(&key) {
            Some(i) => {
                self.entries[i] = (key, v);
                proof {
                    assert(self.entries@ =~= before.update(i as int, e));
                    assert(keys[i as int] == key@);
                    assert(keys_of(self.entries@) =~= keys);
                    lemma_entry_update(before, i as int, e, key@);
                    assert forall|k: Seq<char>| #[trigger] self.value(k) == (if k == key@ {
                        Some(v@)
                    } else {
                        entry_value(before, k)
                    }) by {
                        lemma_entry_update(before, i as int, e, k);
                    }
                }
            },
            None => {
                self.entries.push((key, v));
                proof {
                    let new = self.entries@;
                    assert(new.drop_last() =~= before);
                    assert(keys_of(new) =~= keys.push(key@));
                    if keys.contains(key@) {
                        let j = choose|j: int| 0 <= j < keys.len() && keys[j] == key@;
                        assert(before[j].0@ == key@);
                    }
                    assert forall|a: int, b: int| 0 <= a < b < new.len() implies (
                    #[trigger] new[a]).0@ != (#[trigger] new[b]).0@ by {
                        assert(before[a].0@ != key@);
                    }
                }
            },
        }
    }

    /// The value of a key.
    pub fn get(&self, key: &str) -> (r: Option<&KvValue>)
        requires
            self.wf(),
        ensures
            match self.value(key@) {
                Some(v) => r matches Some(x) && x@ == v,
                None => r is None,
            },
    {
        let k: String = key.to_string();
        match self.position(&k) {
            Some(i) => {
                proof {
                    lemma_entry_at(self.entries@, i as int);
                }
                Some(&self.entries[i].1)
            },
            None => {
                proof {
                    lemma_entry_absent(self.entries@, key@);
                }
                None
            },
        }
    }

    /// Every key is listed once, with its value, and no other key has one.
    pub proof fn lemma_list(&self)
        requires
            self.wf(),
        ensures
            keys_of(self.list()).no_duplicates(),
            forall|i: int|
                0 <= i < self.list().len() ==> self.value((#[trigger] self.list()[i]).0@) == Some(
                    self.list()[i].1@,
                ),
            forall|k: Seq<char>|
                #[trigger] self.value(k) is Some <==> keys_of(self.list()).contains(k),
    {
        let list = self.entries@;
        let keys = keys_of(list);
        assert forall|i: int, j: int|
            0 <= i < keys.len() && 0 <= j < keys.len() && i != j implies keys[i] != keys[j] by {
            assert(list[i].0@ == keys[i] && list[j].0@ == keys[j]);
        }
        assert forall|i: int| 0 <= i < list.len() implies self.value((#[trigger] list[i]).0@)
            == Some(list[i].1@) by {
            lemma_entry_at(list, i);
        }
        assert forall|k: Seq<char>|
            #[trigger] self.value(k) is Some <==> keys.contains(k) by {
            if keys.contains(k) {
                let i = choose|i: int| 0 <= i < keys.len() && keys[i] == k;
                lemma_entry_at(list, i);
            } else {
                assert forall|i: int| 0 <= i < list.len() implies (#[trigger] list[i]).0@ != k by {
                    assert(keys[i] == list[i].0@);
                }
                lemma_entry_absent(list, k);
            }
        }
    }

    /// How many keys there are.
    pub fn len(&self) -> (n: usize)
        ensures
            n == self.list().len(),
    {
        self.entries.len()
    }

    /// The entries, in the order in which their keys first stand in the file.
    pub fn entries(&self) -> (v: &Vec<(String, KvValue)>)
        ensures
            v@ == self.list(),
    {
        &self.entries
    }
}

// ---- the file --------------------------------------------------------------------

/// A parsed GGUF file.
#[derive(Debug)]
pub struct GgufFile {
    bytes: Vec<u8>,
    metadata: Metadata,
    tensors: Vec<TensorInfo>,
    data_offset: usize,
    alignment: u64,
}

/// The tensors of a list, as views.
pub open spec fn tensor_views(list: Seq<TensorInfo>) -> Seq<TensorView> {
    list.map_values(|t: TensorInfo| t@)
}

/// The tensor with the given name: the last one of that name.
pub open spec fn last_tensor(list: Seq<TensorView>, name: Seq<char>) -> Option<TensorView>
    decreases list.len(),
{
    if list.len() == 0 {
        None
    } else if list.last().name == name {
        Some(list.last())
    } else {
        last_tensor(list.drop_last(), name)
    }
}

/// A number that 64 bits hold, or the largest that they hold in place of a
/// larger one.
pub open spec fn saturated(v: int) -> int {
    if v <= u64::MAX {
        v
    } else {
        u64::MAX as int
    }
}

/// The bytes of a tensor: `payload_bytes` of them, at its offset in the data
/// section.
pub open spec fn tensor_payload(s: Seq<u8>, data_offset: int, t: TensorView) -> Result<
    Seq<u8>,
    GgufFault,
> {
    let start = saturated(data_offset + t.offset);
    let len = match payload_bytes(t) {
        Some(n) => n as int,
        None => u64::MAX as int,
    };
    if start + len > s.len() {
        Err(
            GgufFault::Truncated {
                needed: len,
                at: start,
                available: if start <= s.len() {
                    s.len() - start
                } else {
                    0
                },
            },
        )
    } else {
        Ok(s.subrange(start, start + len))
    }
}

/// The strings that follow each other in `raw` from `pos` on.
pub open spec fn parse_strings(raw: Seq<u8>, pos: int) -> Parsed<Seq<Seq<char>>>
    decreases raw.len() - pos,
{
    if pos >= raw.len() {
        Parsed::Good(Seq::empty(), pos)
    } else {
        match parse_string(raw, pos) {
            Parsed::Bad(e) => Parsed::Bad(e),
            Parsed::Good(t, next) => if next <= pos {
                Parsed::Good(Seq::empty(), pos)
            } else {
                match parse_strings(raw, next) {
                    Parsed::Bad(e) => Parsed::Bad(e),
                    Parsed::Good(rest, end) => Parsed::Good(seq![t] + rest, end),
                }
            },
        }
    }
}

/// The texts of a list of strings.
pub open spec fn texts(list: Seq<String>) -> Seq<Seq<char>> {
    list.map_values(|s: String| s@)
}

/// The strings under a key.
pub open spec fn string_array(c: Content, key: Seq<char>) -> Result<Seq<Seq<char>>, GgufFault> {
    match last_value(c.pairs, key) {
        None => Err(GgufFault::NoSuchKey(key)),
        Some(KvView::Array(KvType::String, raw)) => match parse_strings(raw, 0) {
            Parsed::Good(list, _) => Ok(list),
            Parsed::Bad(e) => Err(e),
        },
        Some(_) => Err(GgufFault::WrongKvKind { key, expected: KvType::Array }),
    }
}

/// A string takes at least the eight bytes of its length.
proof fn lemma_string_advances(raw: Seq<u8>, pos: int)
    requires
        0 <= pos,
    ensures
        parse_string(raw, pos) matches Parsed::Good(_, next) ==> next >= pos + 8,
{
}

impl GgufFile {
    /// The bytes of the file.
    pub closed spec fn raw(&self) -> Seq<u8> {
        self.bytes@
    }

    /// What the file holds.
    pub open spec fn content(&self) -> Content {
        parse_file(self.raw())->Good_0
    }

    /// The file was parsed.
    pub closed spec fn wf(&self) -> bool {
        &&& parse_file(self.bytes@) is Good
        &&& self.metadata.wf()
        &&& forall|k: Seq<char>| #[trigger]
            self.metadata.value(k) == last_value(self.content().pairs, k)
        &&& keys_of(self.metadata.list()) == first_keys(self.content().pairs)
        &&& tensor_views(self.tensors@) == self.content().tensors
        &&& self.data_offset == self.content().data_offset
        &&& self.alignment == self.content().alignment
    }

    /// Parse an in-memory GGUF buffer.
    pub fn from_bytes(bytes: Vec<u8>) -> (r: Result<Self, GgufError>)
        ensures
            match parse_file(bytes@) {
                Parsed::Good(c, _) => r matches Ok(f) && f.wf() && f.raw() == bytes@,
                Parsed::Bad(e) => r matches Err(x) && x@ == e,
            },
    {
        let ghost s = bytes@;
        let mut p = Cursor { src: bytes.as_slice(), pos: 0 };
        let m = match p.take(4) {
            Ok(m) => m,
            Err(e) => {
                return Err(e);
            },
        };
        let magic: [u8; 4] = [m[0], m[1], m[2], m[3]];
        assert(magic@ =~= m@);
        if !(m[0] == 0x47 && m[1] == 0x47 && m[2] == 0x55 && m[3] == 0x46) {
            return Err(GgufError::BadMagic(magic));
        }
        assert(m@ =~= seq![0x47u8, 0x47, 0x55, 0x46]);
        let version: u64 = match p.uint(4) {
            Ok(v) => v,
            Err(e) => {
                return Err(e);
            },
        };
        if version != 3 {
            return Err(GgufError::UnsupportedVersion(version as u32));
        }
        let n_tensors: u64 = match p.uint(8) {
            Ok(v) => v,
            Err(e) => {
                return Err(e);
            },
        };
        let n_kv: u64 = match p.uint(8) {
            Ok(v) => v,
            Err(e) => {
                return Err(e);
            },
        };
        let mut metadata = Metadata { entries: Vec::new() };
        assert(keys_of(metadata.list()) =~= Seq::empty());
        let ghost all_pairs = parse_pairs(s, p.pos as int, n_kv as nat);
        let ghost mut pairs: Seq<(Seq<char>, KvView)> = Seq::empty();
        proof {
            lemma_prepend_nothing(all_pairs);
        }
        let mut i: u64 = 0;
        while i < n_kv
            invariant
                i <= n_kv,
                s == bytes@,
                p.wf(),
                p.src@ == s,
                metadata.wf(),
                forall|k: Seq<char>| #[trigger] metadata.value(k) == last_value(pairs, k),
                keys_of(metadata.list()) == first_keys(pairs),
                prepend(pairs, parse_pairs(s, p.pos as int, (n_kv - i) as nat)) == all_pairs,
                parse_file(s) == (match all_pairs {
                    Parsed::Bad(e) => Parsed::Bad(e),
                    Parsed::Good(ps, p4) => parse_rest(s, ps, p4, n_tensors as nat),
                }),
            decreases n_kv - i,
        {
            let ghost before = parse_pairs(s, p.pos as int, (n_kv - i) as nat);
            let ghost done = pairs;
            let (key, v) = match p.pair() {
                Ok(kv) => kv,
                Err(e) => {
                    return Err(e);
                },
            };
            let ghost pair = (key@, v@);
            metadata.insert(key, v);
            i = i + 1;
            proof {
                pairs = pairs.push(pair);
                assert(pairs.drop_last() =~= done);
                lemma_prepend_one(
                    done,
                    pair,
                    parse_pairs(s, p.pos as int, (n_kv - i) as nat),
                    before,
                );
            }
        }
        proof {
            assert(pairs + Seq::<(Seq<char>, KvView)>::empty() =~= pairs);
        }
        let mut tensors: Vec<TensorInfo> = Vec::new();
        let ghost all_tensors = parse_tensors(s, p.pos as int, n_tensors as nat);
        proof {
            assert(tensor_views(tensors@) =~= Seq::empty());
            lemma_prepend_nothing(all_tensors);
        }
        let mut j: u64 = 0;
        while j < n_tensors
            invariant
                j <= n_tensors,
                s == bytes@,
                p.wf(),
                p.src@ == s,
                prepend(
                    tensor_views(tensors@),
                    parse_tensors(s, p.pos as int, (n_tensors - j) as nat),
                ) == all_tensors,
                parse_file(s) == (match all_tensors {
                    Parsed::Bad(e) => Parsed::Bad(e),
                    Parsed::Good(ts, p5) => parse_padding(s, pairs, ts, p5),
                }),
            decreases n_tensors - j,
        {
            let ghost before = parse_tensors(s, p.pos as int, (n_tensors - j) as nat);
            let ghost done = tensor_views(tensors@);
            let t = match p.tensor() {
                Ok(t) => t,
                Err(e) => {
                    return Err(e);
                },
            };
            let ghost view = t@;
            tensors.push(t);
            j = j + 1;
            proof {
                assert(tensor_views(tensors@) =~= done.push(view));
                lemma_prepend_one(
                    done,
                    view,
                    parse_tensors(s, p.pos as int, (n_tensors - j) as nat),
                    before,
                );
            }
        }
        proof {
            assert(tensor_views(tensors@) + Seq::<TensorView>::empty() =~= tensor_views(tensors@));
        }
        let alignment: u64 = match metadata.get("general.alignment") {
            Some(KvValue::U32(v)) => *v as u64,
            Some(KvValue::U64(v)) => *v,
            _ => 32,
        };
        if alignment == 0 {
            return Err(GgufError::BadAlignment);
        }
        let here: u64 = p.pos as u64;
        let over: u64 = here % alignment;
        assert(over < alignment) by (nonlinear_arith)
            requires
                over == here % alignment,
                alignment > 0,
        ;
        let pad: u64 = if over == 0 {
            0
        } else {
            alignment - over
        };
        proof {
            lemma_padding(here as int, alignment as int);
        }
        match p.skip(pad) {
            Ok(()) => {},
            Err(e) => {
                return Err(e);
            },
        }
        let data_offset: usize = p.pos;
        Ok(Self { bytes, metadata, tensors, data_offset, alignment })
    }

    /// The key-value pairs.
    pub fn metadata(&self) -> (m: &Metadata)
        requires
            self.wf(),
        ensures
            m.wf(),
            forall|k: Seq<char>| #[trigger] m.value(k) == last_value(self.content().pairs, k),
            keys_of(m.list()) == first_keys(self.content().pairs),
    {
        &self.metadata
    }

    /// The tensor table.
    pub fn tensors(&self) -> (t: &Vec<TensorInfo>)
        requires
            self.wf(),
        ensures
            tensor_views(t@) == self.content().tensors,
    {
        &self.tensors
    }

    /// The alignment of the data section.
    pub fn alignment(&self) -> (a: u64)
        requires
            self.wf(),
        ensures
            a == self.content().alignment,
    {
        self.alignment
    }

    /// The table entry of a tensor.
    pub fn tensor(&self, name: &str) -> (r: Option<&TensorInfo>)
        requires
            self.wf(),
        ensures
            match last_tensor(self.content().tensors, name@) {
                Some(t) => r matches Some(x) && x@ == t,
                None => r is None,
            },
    {
        let wanted: String = name.to_string();
        let ghost views = tensor_views(self.tensors@);
        let mut i: usize = self.tensors.len();
        assert(views.subrange(0, i as int) =~= views);
        while i > 0
            invariant
                i <= self.tensors@.len(),
                wanted@ == name@,
                views == tensor_views(self.tensors@),
                views == self.content().tensors,
                last_tensor(views, name@) == last_tensor(views.subrange(0, i as int), name@),
            decreases i,
        {
            proof {
                assert(views.subrange(0, i as int).drop_last() =~= views.subrange(0, i - 1));
            }
            if self.tensors[i - 1].name == wanted {
                return Some(&self.tensors[i - 1]);
            }
            i = i - 1;
        }
        None
    }

    /// Borrow the raw bytes of one tensor. Length matches `info.byte_size()`.
    pub fn tensor_data(&self, name: &str) -> (r: Result<&[u8], GgufError>)
        requires
            self.wf(),
        ensures
            match last_tensor(self.content().tensors, name@) {
                None => r matches Err(e) && e@ == GgufFault::NoSuchTensor(name@),
                Some(t) => match tensor_payload(self.raw(), self.content().data_offset, t) {
                    Ok(b) => r matches Ok(x) && x@ == b && (payload_bytes(t) matches Some(n)
                        ==> x@.len() == n),
                    Err(f) => r matches Err(e) && e@ == f,
                },
            },
    {
        let info = match self.tensor(name) {
            Some(i) => i,
            None => {
                return Err(GgufError::NoSuchTensor(name.to_string()));
            },
        };
        let total: u64 = self.bytes.len() as u64;
        let start: u64 = (self.data_offset as u64).saturating_add(info.offset);
        let len: u64 = match info.checked_bytes() {
            Some(n) => n,
            None => u64::MAX,
        };
        if start > total || len > total - start {
            return Err(
                GgufError::Truncated {
                    needed: len,
                    at: start,
                    available: if start <= total {
                        total - start
                    } else {
                        0
                    },
                },
            );
        }
        Ok(slice_subrange(self.bytes.as_slice(), start as usize, (start + len) as usize))
    }

    /// The strings of a metadata array.
    pub fn metadata_string_array(&self, key: &str) -> (r: Result<Vec<String>, GgufError>)
        requires
            self.wf(),
        ensures
            match string_array(self.content(), key@) {
                Ok(list) => r matches Ok(v) && texts(v@) == list,
                Err(f) => r matches Err(e) && e@ == f,
            },
    {
        let raw = match self.metadata().get(key) {
            None => {
                return Err(GgufError::NoSuchKey(key.to_string()));
            },
            Some(KvValue::Array(KvType::String, raw)) => raw,
            Some(_) => {
                return Err(
                    GgufError::WrongKvKind { key: key.to_string(), expected: KvType::Array },
                );
            },
        };
        let ghost whole = parse_strings(raw@, 0);
        let mut out: Vec<String> = Vec::new();
        proof {
            assert(texts(out@) =~= Seq::empty());
            lemma_prepend_nothing(whole);
        }
        let mut p = Cursor { src: raw.as_slice(), pos: 0 };
        while p.pos < raw.len()
            invariant
                p.wf(),
                p.src@ == raw@,
                prepend(texts(out@), parse_strings(raw@, p.pos as int)) == whole,
                string_array(self.content(), key@) == (match whole {
                    Parsed::Good(list, _) => Ok(list),
                    Parsed::Bad(e) => Err(e),
                }),
            decreases raw@.len() - p.pos,
        {
            let ghost before = parse_strings(raw@, p.pos as int);
            let ghost done = texts(out@);
            proof {
                lemma_string_advances(raw@, p.pos as int);
            }
            let t = match p.string() {
                Ok(t) => t,
                Err(e) => {
                    return Err(e);
                },
            };
            let ghost view = t@;
            out.push(t);
            proof {
                assert(texts(out@) =~= done.push(view));
                lemma_prepend_one(done, view, parse_strings(raw@, p.pos as int), before);
            }
        }
        proof {
            assert(texts(out@) + Seq::<Seq<char>>::empty() =~= texts(out@));
        }
        Ok(out)
    }
}

proof fn lemma_padding(pos: int, align: int)
    requires
        pos >= 0,
        align > 0,
    ensures
        padding(pos, align) == (if pos % align == 0 {
            0
        } else {
            align - pos % align
        }),
{
    let r = pos % align;
    assert(0 <= r < align) by (nonlinear_arith)
        requires
            r == pos % align,
            align > 0,
    ;
    if r == 0 {
        assert((align - r) % align == 0) by (nonlinear_arith)
            requires
                r == 0,
                align > 0,
        ;
    } else {
        let d = align - r;
        assert(d % align == d) by (nonlinear_arith)
            requires
                0 < d < align,
        ;
    }
}

} // verus!
