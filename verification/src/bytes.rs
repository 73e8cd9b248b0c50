//! Little-endian byte strings: the mathematical model of every fixed-width
//! number that is written to or read from memory.

use vstd::prelude::*;

verus! {

/// `256` to the power `n`.
pub open spec fn pow256(n: nat) -> nat
    decreases n,
{
    if n == 0 {
        1
    } else {
        256 * pow256((n - 1) as nat)
    }
}

/// The `n` low bytes of `v`, least significant byte first.
pub open spec fn le_bytes(v: nat, n: nat) -> Seq<u8>
    decreases n,
{
    if n == 0 {
        Seq::empty()
    } else {
        seq![(v % 256) as u8] + le_bytes(v / 256, (n - 1) as nat)
    }
}

/// The number whose little-endian bytes are `s`.
pub open spec fn le_value(s: Seq<u8>) -> nat
    decreases s.len(),
{
    if s.len() == 0 {
        0
    } else {
        s[0] as nat + 256 * le_value(s.drop_first())
    }
}

/// The 32-bit two's-complement pattern of `v`, as a number.
pub open spec fn wrap32(v: int) -> nat {
    (v % 0x1_0000_0000) as nat
}

/// The bit pattern of a signed 32-bit number.
pub(crate) fn i32_bits(v: i32) -> (r: u32)
    ensures
        r as nat == wrap32(v as int),
{
    assert(v >= 0 ==> v as u32 == v) by (bit_vector);
    assert(v < 0 ==> v as u32 == v + 0x1_0000_0000) by (bit_vector);
    v as u32
}

/// `le_bytes(v, n)` has exactly `n` bytes.
pub broadcast proof fn lemma_le_bytes_len(v: nat, n: nat)
    ensures
        #[trigger] le_bytes(v, n).len() == n,
    decreases n,
{
    if n > 0 {
        lemma_le_bytes_len(v / 256, (n - 1) as nat);
    }
}

/// Reading back the bytes of a number gives the number: little-endian encoding
/// loses nothing as long as the number fits in `n` bytes.
pub proof fn lemma_le_value_of_le_bytes(v: nat, n: nat)
    requires
        v < pow256(n),
    ensures
        le_value(le_bytes(v, n)) == v,
    decreases n,
{
    if n > 0 {
        let rest = le_bytes(v / 256, (n - 1) as nat);
        assert(v / 256 < pow256((n - 1) as nat));
        lemma_le_value_of_le_bytes(v / 256, (n - 1) as nat);
        assert(le_bytes(v, n).drop_first() =~= rest);
    }
}

/// Encoding a value that was read from bytes gives those bytes back, and the
/// value fits in as many bytes as it was read from.
pub proof fn lemma_le_bytes_of_le_value(s: Seq<u8>)
    ensures
        le_bytes(le_value(s), s.len()) == s,
        le_value(s) < pow256(s.len()),
    decreases s.len(),
{
    if s.len() > 0 {
        let rest = s.drop_first();
        lemma_le_bytes_of_le_value(rest);
        let v = le_value(s);
        assert(v % 256 == s[0] as nat && v / 256 == le_value(rest));
        assert(le_bytes(v, s.len()) =~= s);
    }
}

/// The widths that machine integers use.
pub(crate) proof fn lemma_pow256_values()
    ensures
        pow256(1) == 0x100,
        pow256(2) == 0x1_0000,
        pow256(4) == 0x1_0000_0000,
        pow256(8) == 0x1_0000_0000_0000_0000,
{
    reveal_with_fuel(pow256, 9);
}

/// Appends the little-endian bytes of `v`, `n` of them, to `out`.
pub(crate) fn push_le(out: &mut Vec<u8>, v: u64, n: usize)
    ensures
        final(out)@ == old(out)@ + le_bytes(v as nat, n as nat),
{
    let mut rest: u64 = v;
    let mut i: usize = 0;
    let ghost start = out@;
    while i < n
        invariant
            i <= n,
            out@ + le_bytes(rest as nat, (n - i) as nat) == start + le_bytes(v as nat, n as nat),
        decreases n - i,
    {
        let ghost before = out@;
        proof {
            assert(le_bytes(rest as nat, (n - i) as nat) == seq![(rest as nat % 256) as u8]
                + le_bytes(rest as nat / 256, (n - i - 1) as nat));
        }
        out.push((rest % 256) as u8);
        proof {
            assert(out@ + le_bytes(rest as nat / 256, (n - i - 1) as nat) =~= before + le_bytes(
                rest as nat,
                (n - i) as nat,
            ));
        }
        rest = rest / 256;
        i = i + 1;
    }
    proof {
        assert(out@ + le_bytes(rest as nat, 0) =~= out@);
    }
}

/// The number held by the `n` bytes of `data` at `pos`, least significant
/// byte first.
pub(crate) fn read_le(data: &[u8], pos: usize, n: usize) -> (v: u64)
    requires
        pos + n <= data@.len(),
        n <= 8,
    ensures
        v as nat == le_value(data@.subrange(pos as int, pos + n)),
{
    let mut v: u64 = 0;
    let mut i: usize = n;
    proof {
        lemma_pow256_values();
        assert(data@.subrange(pos + n, pos + n) =~= Seq::empty());
    }
    while i > 0
        invariant
            i <= n <= 8,
            pos + n <= data.len(),
            v as nat == le_value(data@.subrange(pos + i, pos + n)),
        decreases i,
    {
        i = i - 1;
        let ghost s = data@.subrange(pos + i, pos + n);
        proof {
            assert(s.drop_first() =~= data@.subrange(pos + i + 1, pos + n));
            lemma_le_bytes_of_le_value(s);
            lemma_pow256_monotone(s.len(), 8);
            lemma_pow256_values();
        }
        v = data[pos + i] as u64 + 256 * v;
    }
    v
}

/// `pow256` does not decrease.
pub(crate) proof fn lemma_pow256_monotone(a: nat, b: nat)
    requires
        a <= b,
    ensures
        1 <= pow256(a) <= pow256(b),
    decreases b,
{
    if b > 0 && a < b {
        lemma_pow256_monotone(a, (b - 1) as nat);
    } else if b > 0 {
        lemma_pow256_monotone((b - 1) as nat, (b - 1) as nat);
    }
}

} // verus!
