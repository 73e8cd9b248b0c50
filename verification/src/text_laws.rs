//! Numerals can be read back.

use crate::text::{comma_list, decimal, digit_char, numeral, signed_decimal};
use vstd::prelude::*;

verus! {

/// What a digit stands for.
pub open spec fn digit_value(c: char) -> int {
    if '0' <= c <= '9' {
        c as int - '0' as int
    } else {
        c as int - 'a' as int + 10
    }
}

/// The number that digits stand for, the first one being the most significant.
pub open spec fn number_of(s: Seq<char>, base: nat) -> int
    decreases s.len(),
{
    if s.len() == 0 {
        0
    } else {
        number_of(s.drop_last(), base) * base + digit_value(s.last())
    }
}

/// A numeral stands for its number. Its digits are those of the base, in lower
/// case, and it has no zero in front but that of zero.
pub proof fn lemma_numeral(n: nat, base: nat)
    requires
        2 <= base <= 16,
    ensures
        number_of(numeral(n, base), base) == n,
        numeral(n, base).len() > 0,
        forall|i: int|
            0 <= i < numeral(n, base).len() ==> {
                let c = #[trigger] numeral(n, base)[i];
                &&& '0' <= c <= '9' || 'a' <= c <= 'f'
                &&& digit_value(c) < base
            },
        n > 0 ==> numeral(n, base)[0] != '0',
        n == 0 ==> numeral(n, base) == seq!['0'],
    decreases n,
{
    let s = numeral(n, base);
    if n < base {
        assert(s.drop_last() =~= Seq::empty());
        assert(number_of(s.drop_last(), base) == 0);
        assert(0 * base == 0);
    } else {
        let (q, r) = (n / base, n % base);
        assert(n == q * base + r && r < base && 0 < q < n) by (nonlinear_arith)
            requires
                q == n / base,
                r == n % base,
                n >= base,
                base >= 2,
        ;
        lemma_numeral(q, base);
        let t = numeral(q, base);
        assert(s == t.push(digit_char(r as int)));
        assert(s.drop_last() =~= t);
        assert forall|i: int| 0 <= i < s.len() implies ({
            let c = #[trigger] s[i];
            &&& '0' <= c <= '9' || 'a' <= c <= 'f'
            &&& digit_value(c) < base
        }) by {
            if i < t.len() {
                assert(s[i] == t[i]);
            }
        }
    }
}

/// The characters of a decimal numeral are ASCII digits.
pub proof fn lemma_decimal_digits(n: nat)
    ensures
        decimal(n).len() > 0,
        forall|i: int| 0 <= i < decimal(n).len() ==> '0' <= (#[trigger] decimal(n)[i]) <= '9',
{
    lemma_numeral(n, 10);
    assert forall|i: int| 0 <= i < decimal(n).len() implies '0' <= (#[trigger] decimal(n)[i])
        <= '9' by {
        assert(digit_value(numeral(n, 10)[i]) < 10);
    }
}

/// The text does not go on with a digit.
pub open spec fn no_digit(s: Seq<char>) -> bool {
    s.len() > 0 ==> !('0' <= s[0] <= '9')
}

/// A number at the start of a text can be read off it.
pub proof fn lemma_take_number(a: nat, x: Seq<char>, b: nat, y: Seq<char>)
    requires
        decimal(a) + x == decimal(b) + y,
        no_digit(x),
        no_digit(y),
    ensures
        a == b,
        x == y,
{
    lemma_decimal_digits(a);
    lemma_decimal_digits(b);
    lemma_numeral(a, 10);
    lemma_numeral(b, 10);
    let (s, t) = (decimal(a), decimal(b));
    let w = s + x;
    if s.len() < t.len() {
        assert(w[s.len() as int] == t[s.len() as int]);
        assert(w[s.len() as int] == x[0]);
    } else if t.len() < s.len() {
        assert((t + y)[t.len() as int] == s[t.len() as int]);
        assert((t + y)[t.len() as int] == y[0]);
    }
    assert(s =~= w.subrange(0, s.len() as int));
    assert(t =~= w.subrange(0, s.len() as int));
    lemma_take_text(s, x, y);
}

/// What follows the same start is the same.
pub(crate) proof fn lemma_take_text(p: Seq<char>, x: Seq<char>, y: Seq<char>)
    requires
        p + x == p + y,
    ensures
        x == y,
{
    let n = p.len() as int;
    let w = p + x;
    assert(w.subrange(n, w.len() as int) =~= x);
    assert(w.subrange(n, w.len() as int) =~= y);
}

/// A signed number at the start of a text can be read off it.
pub proof fn lemma_take_signed(a: int, x: Seq<char>, b: int, y: Seq<char>)
    requires
        signed_decimal(a) + x == signed_decimal(b) + y,
        no_digit(x),
        no_digit(y),
    ensures
        a == b,
        x == y,
{
    let (p, q) = ((if a < 0 {
        -a
    } else {
        a
    }) as nat, (if b < 0 {
        -b
    } else {
        b
    }) as nat);
    lemma_decimal_digits(p);
    lemma_decimal_digits(q);
    let (s, t) = (signed_decimal(a) + x, signed_decimal(b) + y);
    if a < 0 {
        assert(s[0] == '-');
    } else {
        assert(s[0] == decimal(p)[0]);
    }
    if b < 0 {
        assert(t[0] == '-');
    } else {
        assert(t[0] == decimal(q)[0]);
    }
    if a < 0 {
        assert(s =~= seq!['-'] + (decimal(p) + x));
        assert(t =~= seq!['-'] + (decimal(q) + y));
        lemma_take_text(seq!['-'], decimal(p) + x, decimal(q) + y);
    }
    lemma_take_number(p, x, q, y);
}

/// The first number of a list stands first.
pub(crate) proof fn lemma_list_first(items: Seq<u32>)
    requires
        items.len() > 0,
    ensures
        comma_list(items) == decimal(items[0] as nat) + if items.len() == 1 {
            Seq::empty()
        } else {
            seq![',', ' '] + comma_list(items.drop_first())
        },
    decreases items.len(),
{
    if items.len() == 1 {
        assert(decimal(items[0] as nat) + Seq::empty() =~= decimal(items[0] as nat));
    } else {
        let before = items.drop_last();
        lemma_list_first(before);
        let rest = items.drop_first();
        assert(rest.drop_last() =~= before.drop_first());
        let last = decimal(items.last() as nat);
        if items.len() == 2 {
            assert(comma_list(items) =~= decimal(items[0] as nat) + (seq![',', ' '] + comma_list(
                rest,
            )));
        } else {
            assert(comma_list(rest) == comma_list(rest.drop_last()) + seq![',', ' '] + last);
            assert(comma_list(items) =~= decimal(items[0] as nat) + (seq![',', ' '] + comma_list(
                rest,
            )));
        }
    }
}

/// A list of numbers in brackets can be read off a text.
pub proof fn lemma_take_list(a: Seq<u32>, x: Seq<char>, b: Seq<u32>, y: Seq<char>)
    requires
        comma_list(a) + seq![']'] + x == comma_list(b) + seq![']'] + y,
    ensures
        a == b,
        x == y,
    decreases a.len(),
{
    let close = seq![']'];
    let s = comma_list(a) + close + x;
    let t = comma_list(b) + close + y;
    if a.len() > 0 {
        lemma_list_first(a);
        lemma_decimal_digits(a[0] as nat);
        assert(s[0] == decimal(a[0] as nat)[0]);
    } else {
        assert(s[0] == ']');
    }
    if b.len() > 0 {
        lemma_list_first(b);
        lemma_decimal_digits(b[0] as nat);
        assert(t[0] == decimal(b[0] as nat)[0]);
    } else {
        assert(t[0] == ']');
    }
    if a.len() == 0 {
        assert(s =~= close + x);
        assert(t =~= close + y);
        lemma_take_text(close, x, y);
        assert(a =~= b);
    } else {
        let more = seq![',', ' '];
        let (ra, rb) = (
            if a.len() == 1 {
                close + x
            } else {
                more + (comma_list(a.drop_first()) + close + x)
            },
            if b.len() == 1 {
                close + y
            } else {
                more + (comma_list(b.drop_first()) + close + y)
            },
        );
        assert(s =~= decimal(a[0] as nat) + ra);
        assert(t =~= decimal(b[0] as nat) + rb);
        lemma_take_number(a[0] as nat, ra, b[0] as nat, rb);
        assert(a.len() == 1 ==> ra[0] == ']');
        assert(b.len() == 1 ==> rb[0] == ']');
        assert(a.len() > 1 ==> ra[0] == ',');
        assert(b.len() > 1 ==> rb[0] == ',');
        if a.len() == 1 {
            lemma_take_text(close, x, y);
            assert(a =~= b);
        } else {
            lemma_take_text(
                more,
                comma_list(a.drop_first()) + close + x,
                comma_list(b.drop_first()) + close + y,
            );
            lemma_take_list(a.drop_first(), x, b.drop_first(), y);
            assert(a =~= seq![a[0]] + a.drop_first());
            assert(b =~= seq![b[0]] + b.drop_first());
        }
    }
}

} // verus!
