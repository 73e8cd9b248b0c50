//! Natural numbers of any size.

use crate::float_bits::{lemma_p2_add, lemma_p2_mono, lemma_p2_values, p2};
use vstd::prelude::*;

verus! {

/// A natural number, as 32-bit digits with the lowest first.
#[derive(Debug)]
pub struct Natural {
    digits: Vec<u32>,
}

/// Digit `i` of a number, zero beyond the highest.
spec fn digit_at(s: Seq<u32>, i: nat) -> nat {
    if i < s.len() {
        s[i as int] as nat
    } else {
        0
    }
}

/// The number that the lowest `n` digits make.
spec fn low(s: Seq<u32>, n: nat) -> nat
    decreases n,
{
    if n == 0 {
        0
    } else {
        low(s, (n - 1) as nat) + digit_at(s, (n - 1) as nat) * p2(32 * (n - 1) as nat)
    }
}

/// The weight of a digit.
proof fn lemma_weight(n: nat)
    ensures
        p2(32 * (n + 1)) == 0x1_0000_0000 * p2(32 * n),
        p2(32 * n) > 0,
{
    lemma_p2_values();
    lemma_p2_add(32, 32 * n);
    lemma_p2_mono(0, 32 * n);
    assert(32 * (n + 1) == 32 + 32 * n);
}

/// The lowest digits make less than the weight of the next.
proof fn lemma_low_bound(s: Seq<u32>, n: nat)
    ensures
        low(s, n) < p2(32 * n),
    decreases n,
{
    lemma_weight(n);
    if n > 0 {
        let m = (n - 1) as nat;
        lemma_low_bound(s, m);
        lemma_weight(m);
        let (d, w) = (digit_at(s, m), p2(32 * m));
        assert(d * w <= 0xFFFF_FFFF * w) by (nonlinear_arith)
            requires
                d <= 0xFFFF_FFFF,
        ;
    }
}

/// Digits beyond the highest add nothing.
proof fn lemma_low_beyond(s: Seq<u32>, n: nat)
    requires
        n >= s.len(),
    ensures
        low(s, n) == low(s, s.len()),
    decreases n,
{
    if n > s.len() {
        lemma_low_beyond(s, (n - 1) as nat);
        assert(0 * p2(32 * (n - 1) as nat) == 0);
    }
}

/// Numbers with the same lowest digits.
proof fn lemma_low_same(s: Seq<u32>, t: Seq<u32>, n: nat)
    requires
        forall|i: nat| i < n ==> #[trigger] digit_at(s, i) == digit_at(t, i),
    ensures
        low(s, n) == low(t, n),
    decreases n,
{
    if n > 0 {
        lemma_low_same(s, t, (n - 1) as nat);
        assert(digit_at(s, (n - 1) as nat) == digit_at(t, (n - 1) as nat));
    }
}

/// A digit on top.
proof fn lemma_low_push(s: Seq<u32>, d: u32)
    ensures
        low(s.push(d), s.len() + 1) == low(s, s.len()) + d * p2(32 * s.len()),
{
    let t = s.push(d);
    assert forall|i: nat| i < s.len() implies #[trigger] digit_at(t, i) == digit_at(s, i) by {}
    lemma_low_same(t, s, s.len());
    assert(digit_at(t, s.len()) == d);
}

impl View for Natural {
    type V = nat;

    closed spec fn view(&self) -> nat {
        low(self.digits@, self.digits@.len())
    }
}

impl Natural {
    /// A small number.
    pub fn from_u64(n: u64) -> (r: Self)
        ensures
            r@ == n,
    {
        let lo: u32 = (n % 0x1_0000_0000) as u32;
        let hi: u32 = (n / 0x1_0000_0000) as u32;
        let mut digits: Vec<u32> = Vec::new();
        digits.push(lo);
        digits.push(hi);
        proof {
            lemma_p2_values();
            reveal_with_fuel(low, 3);
            let s = digits@;
            assert(digit_at(s, 0) == lo && digit_at(s, 1) == hi);
            assert(32 * 1nat == 32 && 32 * 0nat == 0);
            assert(low(s, 1) == 0 + digit_at(s, 0) * p2(0));
            assert(low(s, 2) == low(s, 1) + digit_at(s, 1) * p2(32));
        }
        Natural { digits }
    }

    /// The number times `c`.
    pub fn times(&self, c: u32) -> (r: Self)
        ensures
            r@ == self@ * c,
    {
        let ghost s = self.digits@;
        let mut digits: Vec<u32> = Vec::new();
        let mut carry: u64 = 0;
        let mut i: usize = 0;
        proof {
            assert(0 * p2(0) == 0 && 0 * c == 0);
        }
        while i < self.digits.len()
            invariant
                s == self.digits@,
                i <= s.len(),
                digits@.len() == i,
                carry <= 0xFFFF_FFFF,
                low(digits@, i as nat) + carry * p2(32 * i as nat) == low(s, i as nat) * c,
            decreases s.len() - i,
        {
            let d: u32 = self.digits[i];
            assert(d as u64 * c as u64 <= 0xFFFF_FFFF * 0xFFFF_FFFF) by (nonlinear_arith)
                requires
                    d <= 0xFFFF_FFFF,
                    c <= 0xFFFF_FFFF,
            ;
            let x: u64 = d as u64 * c as u64 + carry;
            let rest: u32 = (x % 0x1_0000_0000) as u32;
            let up: u64 = x / 0x1_0000_0000;
            proof {
                lemma_low_push(digits@, rest);
                lemma_weight(i as nat);
                let w = p2(32 * i as nat);
                let (l, k, q) = (low(s, i as nat), low(digits@, i as nat), carry as nat);
                assert(digit_at(s, i as nat) == d);
                let next = 0x1_0000_0000 * w;
                assert((k + rest * w) + up * next == (l + d * w) * c) by (nonlinear_arith)
                    requires
                        k + q * w == l * c,
                        d * c + q == 0x1_0000_0000 * up + rest,
                        next == 0x1_0000_0000 * w,
                ;
            }
            digits.push(rest);
            carry = up;
            i = i + 1;
        }
        proof {
            lemma_low_push(digits@, carry as u32);
        }
        digits.push(carry as u32);
        Natural { digits }
    }

    fn digit(&self, i: usize) -> (d: u32)
        ensures
            d == digit_at(self.digits@, i as nat),
    {
        if i < self.digits.len() {
            self.digits[i]
        } else {
            0
        }
    }

    fn longer(&self, other: &Self) -> (n: usize)
        ensures
            n >= self.digits@.len(),
            n >= other.digits@.len(),
            n == self.digits@.len() || n == other.digits@.len(),
    {
        if self.digits.len() >= other.digits.len() {
            self.digits.len()
        } else {
            other.digits.len()
        }
    }

    /// The sum of two numbers.
    pub fn plus(&self, other: &Self) -> (r: Self)
        ensures
            r@ == self@ + other@,
    {
        let ghost (s, t) = (self.digits@, other.digits@);
        let n: usize = self.longer(other);
        let mut digits: Vec<u32> = Vec::new();
        let mut carry: u64 = 0;
        let mut i: usize = 0;
        while i < n
            invariant
                s == self.digits@,
                t == other.digits@,
                i <= n,
                digits@.len() == i,
                carry <= 1,
                low(digits@, i as nat) + carry * p2(32 * i as nat) == low(s, i as nat) + low(
                    t,
                    i as nat,
                ),
            decreases n - i,
        {
            let (a, b) = (self.digit(i), other.digit(i));
            let x: u64 = a as u64 + b as u64 + carry;
            let rest: u32 = (x % 0x1_0000_0000) as u32;
            let up: u64 = x / 0x1_0000_0000;
            proof {
                lemma_low_push(digits@, rest);
                lemma_weight(i as nat);
                let w = p2(32 * i as nat);
                let next = 0x1_0000_0000 * w;
                let (l, m, k) = (low(s, i as nat), low(t, i as nat), low(digits@, i as nat));
                let q = carry as nat;
                assert((k + rest * w) + up * next == (l + a * w) + (m + b * w))
                    by (nonlinear_arith)
                    requires
                        k + q * w == l + m,
                        a + b + q == 0x1_0000_0000 * up + rest,
                        next == 0x1_0000_0000 * w,
                ;
            }
            digits.push(rest);
            carry = up;
            i = i + 1;
        }
        proof {
            lemma_low_push(digits@, carry as u32);
            lemma_low_beyond(s, n as nat);
            lemma_low_beyond(t, n as nat);
        }
        digits.push(carry as u32);
        Natural { digits }
    }

    /// The difference of two numbers, the first of which is no less.
    pub fn minus(&self, other: &Self) -> (r: Self)
        requires
            other@ <= self@,
        ensures
            r@ == self@ - other@,
    {
        let ghost (s, t) = (self.digits@, other.digits@);
        let n: usize = self.longer(other);
        let mut digits: Vec<u32> = Vec::new();
        let mut lent: u64 = 0;
        let mut i: usize = 0;
        while i < n
            invariant
                s == self.digits@,
                t == other.digits@,
                i <= n,
                digits@.len() == i,
                lent <= 1,
                low(digits@, i as nat) + low(t, i as nat) == low(s, i as nat) + lent * p2(
                    32 * i as nat,
                ),
            decreases n - i,
        {
            let (a, b) = (self.digit(i), other.digit(i));
            let need: u64 = b as u64 + lent;
            let more: u64 = if (a as u64) < need {
                1
            } else {
                0
            };
            let rest: u32 = (a as u64 + more * 0x1_0000_0000 - need) as u32;
            proof {
                lemma_low_push(digits@, rest);
                lemma_weight(i as nat);
                let w = p2(32 * i as nat);
                let next = 0x1_0000_0000 * w;
                let (l, m, k) = (low(s, i as nat), low(t, i as nat), low(digits@, i as nat));
                let q = lent as nat;
                assert((k + rest * w) + (m + b * w) == (l + a * w) + more * next)
                    by (nonlinear_arith)
                    requires
                        k + m == l + q * w,
                        rest + b + q == a + more * 0x1_0000_0000,
                        next == 0x1_0000_0000 * w,
                ;
            }
            digits.push(rest);
            lent = more;
            i = i + 1;
        }
        proof {
            lemma_low_beyond(s, n as nat);
            lemma_low_beyond(t, n as nat);
            lemma_low_bound(digits@, n as nat);
            if lent == 1 {
                assert(lent * p2(32 * n as nat) == p2(32 * n as nat));
                assert(low(digits@, n as nat) >= p2(32 * n as nat));
            } else {
                assert(0 * p2(32 * n as nat) == 0);
            }
        }
        Natural { digits }
    }

    /// Whether a number is less than another.
    pub fn less(&self, other: &Self) -> (b: bool)
        ensures
            b == (self@ < other@),
    {
        let ghost (s, t) = (self.digits@, other.digits@);
        let n: usize = self.longer(other);
        let mut i: usize = n;
        proof {
            lemma_low_beyond(s, n as nat);
            lemma_low_beyond(t, n as nat);
        }
        while i > 0
            invariant
                s == self.digits@,
                t == other.digits@,
                (self@ < other@) == (low(s, i as nat) < low(t, i as nat)),
            decreases i,
        {
            let (a, b) = (self.digit(i - 1), other.digit(i - 1));
            proof {
                let m = (i - 1) as nat;
                lemma_low_bound(s, m);
                lemma_low_bound(t, m);
                let w = p2(32 * m);
                if a < b {
                    assert(a * w + w <= b * w) by (nonlinear_arith)
                        requires
                            a + 1 <= b,
                    ;
                } else if b < a {
                    assert(b * w + w <= a * w) by (nonlinear_arith)
                        requires
                            b + 1 <= a,
                    ;
                }
            }
            if a != b {
                return a < b;
            }
            i = i - 1;
        }
        false
    }
}

} // verus!
