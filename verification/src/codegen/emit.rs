//! Byte-level machine code emitter. Used by all CPU backends.

use crate::bytes::{le_bytes, lemma_le_bytes_len, push_le};
use vstd::prelude::*;

verus! {

/// Append-only byte buffer with patch points.
pub struct Emitter {
    pub buf: Vec<u8>,
}

impl View for Emitter {
    type V = Seq<u8>;

    open spec fn view(&self) -> Seq<u8> {
        self.buf@
    }
}

/// `s` with the bytes from `offset` on replaced by `patch`.
pub open spec fn patched(s: Seq<u8>, offset: int, patch: Seq<u8>) -> Seq<u8> {
    s.subrange(0, offset) + patch + s.subrange(offset + patch.len(), s.len() as int)
}

impl Default for Emitter {
    fn default() -> (em: Self)
        ensures
            em@ == Seq::<u8>::empty(),
    {
        Emitter { buf: Vec::new() }
    }
}

impl Emitter {
    /// An emitter with nothing emitted yet.
    pub fn new() -> (em: Self)
        ensures
            em@ == Seq::<u8>::empty(),
    {
        Self::default()
    }

    /// Appends one byte.
    pub fn u8(&mut self, b: u8)
        ensures
            final(self)@ == old(self)@.push(b),
    {
        self.buf.push(b);
    }

    /// Appends a 16-bit number, little-endian.
    pub fn u16(&mut self, v: u16)
        ensures
            final(self)@ == old(self)@ + le_bytes(v as nat, 2),
    {
        push_le(&mut self.buf, v as u64, 2);
    }

    /// Appends a 32-bit number, little-endian.
    pub fn u32(&mut self, v: u32)
        ensures
            final(self)@ == old(self)@ + le_bytes(v as nat, 4),
    {
        push_le(&mut self.buf, v as u64, 4);
    }

    /// Appends a 64-bit number, little-endian.
    pub fn u64(&mut self, v: u64)
        ensures
            final(self)@ == old(self)@ + le_bytes(v as nat, 8),
    {
        push_le(&mut self.buf, v, 8);
    }

    /// Appends a run of bytes.
    pub fn bytes(&mut self, s: &[u8])
        ensures
            final(self)@ == old(self)@ + s@,
    {
        let mut i: usize = 0;
        while i < s.len()
            invariant
                i <= s@.len(),
                self@ == old(self)@ + s@.subrange(0, i as int),
            decreases s@.len() - i,
        {
            self.buf.push(s[i]);
            i = i + 1;
            assert(s@.subrange(0, i as int) =~= s@.subrange(0, i - 1).push(s@[i - 1]));
        }
        assert(s@.subrange(0, i as int) =~= s@);
    }

    /// How many bytes have been emitted.
    pub fn len(&self) -> (n: usize)
        ensures
            n == self@.len(),
    {
        self.buf.len()
    }

    /// Whether nothing has been emitted.
    pub fn is_empty(&self) -> (b: bool)
        ensures
            b == (self@.len() == 0),
    {
        self.buf.len() == 0
    }

    /// Overwrites the four bytes at `offset` with `value`, little-endian.
    pub fn patch_u32(&mut self, offset: usize, value: u32)
        requires
            offset + 4 <= old(self)@.len(),
        ensures
            final(self)@ == patched(old(self)@, offset as int, le_bytes(value as nat, 4)),
    {
        assert(self.buf.len() == self@.len());
        let mut fresh: Vec<u8> = Vec::new();
        push_le(&mut fresh, value as u64, 4);
        proof {
            lemma_le_bytes_len(value as nat, 4);
            assert(fresh@ =~= le_bytes(value as nat, 4));
        }
        let mut i: usize = 0;
        while i < 4
            invariant
                i <= 4,
                fresh@.len() == 4,
                offset + 4 <= old(self)@.len() <= usize::MAX,
                self@ =~= patched(old(self)@, offset as int, fresh@.subrange(0, i as int)),
            decreases 4 - i,
        {
            let b = fresh[i];
            self.buf[offset + i] = b;
            i = i + 1;
        }
        assert(fresh@.subrange(0, 4) =~= fresh@);
    }
}

} // verus!
