//! Byte spans into source text. Zero allocation.

use crate::text::{lemma_utf8_len, lemma_utf8_len_prefix, to_chars};
use vstd::prelude::*;
use vstd::string::StringSliceAdditionalSpecFns;
use vstd::utf8::{
    decode_utf8, encode_utf8, encode_utf8_decode_utf8, encode_utf8_valid_utf8, is_char_boundary,
    is_char_boundary_iff_not_is_continuation_byte, is_char_boundary_start_end_of_seq, valid_utf8,
    valid_utf8_split,
};

verus! {

/// The bytes from `start` up to `end`.
#[derive(Copy, Clone, Debug, PartialEq, Eq, Hash, Structural)]
pub struct Span {
    pub start: u32,
    pub end: u32,
}

impl Default for Span {
    fn default() -> (s: Self)
        ensures
            s == (Span { start: 0, end: 0 }),
    {
        Span { start: 0, end: 0 }
    }
}

/// The 1-indexed line after the text `s`: one more than the newlines in it.
pub open spec fn line_after(s: Seq<char>) -> nat
    decreases s.len(),
{
    if s.len() == 0 {
        1
    } else if s.last() == '\n' {
        line_after(s.drop_last()) + 1
    } else {
        line_after(s.drop_last())
    }
}

/// The 1-indexed column after the text `s`: one more than the characters since
/// the last newline.
pub open spec fn column_after(s: Seq<char>) -> nat
    decreases s.len(),
{
    if s.len() == 0 || s.last() == '\n' {
        1
    } else {
        column_after(s.drop_last()) + 1
    }
}

/// The text whose UTF-8 encoding is the first `n` bytes of that of `source`.
pub open spec fn byte_prefix(source: Seq<char>, n: int) -> Seq<char> {
    decode_utf8(encode_utf8(source).subrange(0, n))
}

impl Span {
    /// The span from `start` up to `end`.
    pub fn new(start: u32, end: u32) -> (s: Self)
        ensures
            s == (Span { start, end }),
    {
        Self { start, end }
    }

    /// How many bytes the span covers.
    pub fn len(self) -> (n: u32)
        requires
            self.start <= self.end,
        ensures
            n == self.end - self.start,
    {
        self.end - self.start
    }

    /// Whether the span covers nothing.
    pub fn is_empty(self) -> (b: bool)
        ensures
            b == (self.start == self.end),
    {
        self.start == self.end
    }

    /// The smallest span around both.
    pub open spec fn hull(self, other: Span) -> Span {
        Span {
            start: if self.start <= other.start {
                self.start
            } else {
                other.start
            },
            end: if self.end >= other.end {
                self.end
            } else {
                other.end
            },
        }
    }

    /// The smallest span around both.
    pub fn merge(self, other: Span) -> (s: Span)
        ensures
            s == self.hull(other),
    {
        Span {
            start: if self.start <= other.start {
                self.start
            } else {
                other.start
            },
            end: if self.end >= other.end {
                self.end
            } else {
                other.end
            },
        }
    }

    /// The part of the source that the span covers.
    pub fn slice(self, source: &str) -> (s: &str)
        requires
            self.start <= self.end <= source.spec_bytes().len(),
            is_char_boundary(source.spec_bytes(), self.start as int),
            is_char_boundary(source.spec_bytes(), self.end as int),
        ensures
            s.spec_bytes() == source.spec_bytes().subrange(self.start as int, self.end as int),
    {
        let head = source.split_at(self.end as usize).0;
        proof {
            encode_utf8_valid_utf8(source@);
            lemma_boundary_prefix(source.spec_bytes(), self.start as int, self.end as int);
        }
        let s = head.split_at(self.start as usize).1;
        proof {
            assert(s.spec_bytes() =~= source.spec_bytes().subrange(
                self.start as int,
                self.end as int,
            ));
        }
        s
    }

    /// 1-indexed `(line, column)` of [`Span::start`], computed by scanning
    /// `source` from the beginning.
    pub fn line_col(self, source: &str) -> (r: (u32, u32))
        requires
            self.start <= source.spec_bytes().len(),
            is_char_boundary(source.spec_bytes(), self.start as int),
            self.start < u32::MAX,
        ensures
            r.0 as nat == line_after(byte_prefix(source@, self.start as int)),
            r.1 as nat == column_after(byte_prefix(source@, self.start as int)),
    {
        let prefix = source.split_at(self.start as usize).0;
        let chars = to_chars(prefix);
        proof {
            encode_utf8_decode_utf8(prefix@);
            assert(prefix@ == byte_prefix(source@, self.start as int));
            lemma_utf8_len(chars@);
            lemma_utf8_len_prefix(chars@, chars@.len() as int);
        }
        let mut line: u32 = 1;
        let mut col: u32 = 1;
        let mut i: usize = 0;
        while i < chars.len()
            invariant
                i <= chars@.len() < u32::MAX,
                line as nat == line_after(chars@.subrange(0, i as int)),
                col as nat == column_after(chars@.subrange(0, i as int)),
                line <= i + 1,
                col <= i + 1,
            decreases chars@.len() - i,
        {
            let c = chars[i];
            if c == '\n' {
                line = line + 1;
                col = 1;
            } else {
                col = col + 1;
            }
            i = i + 1;
            proof {
                let s = chars@.subrange(0, i as int);
                assert(s.drop_last() =~= chars@.subrange(0, i - 1));
            }
        }
        assert(chars@.subrange(0, i as int) =~= chars@);
        (line, col)
    }
}

/// A boundary of the whole is one of a longer prefix.
proof fn lemma_boundary_prefix(bytes: Seq<u8>, i: int, j: int)
    requires
        0 <= i <= j <= bytes.len(),
        valid_utf8(bytes),
        is_char_boundary(bytes, i),
        is_char_boundary(bytes, j),
    ensures
        is_char_boundary(bytes.subrange(0, j), i),
{
    let head = bytes.subrange(0, j);
    valid_utf8_split(bytes, j);
    if i < j {
        is_char_boundary_iff_not_is_continuation_byte(bytes, i);
        is_char_boundary_iff_not_is_continuation_byte(head, i);
    } else {
        is_char_boundary_start_end_of_seq(head);
    }
}

} // verus!
