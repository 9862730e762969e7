//! Decimal index strings.
//!
//! Sequence binding discovers a sequence's length by probing indexed variable
//! names (`PREFIX:0`, `PREFIX:1`, ...).  This module defines the decimal
//! representation of an index as a specification, proves it injective, and
//! provides [`DigitContainer`], the counter that emits successive index
//! strings into a reused name buffer.

use vstd::prelude::*;
use vstd::arithmetic::div_mod::lemma_fundamental_div_mod;

verus! {

/// The numeric value of a decimal digit character, when it is one.
pub open spec fn char_digit(c: char) -> Option<u8> {
    if c == '0' {
        Some(0u8)
    } else if c == '1' {
        Some(1u8)
    } else if c == '2' {
        Some(2u8)
    } else if c == '3' {
        Some(3u8)
    } else if c == '4' {
        Some(4u8)
    } else if c == '5' {
        Some(5u8)
    } else if c == '6' {
        Some(6u8)
    } else if c == '7' {
        Some(7u8)
    } else if c == '8' {
        Some(8u8)
    } else if c == '9' {
        Some(9u8)
    } else {
        None
    }
}

/// The character of a decimal digit value below ten.
pub open spec fn digit_char(d: nat) -> char {
    if d == 0 {
        '0'
    } else if d == 1 {
        '1'
    } else if d == 2 {
        '2'
    } else if d == 3 {
        '3'
    } else if d == 4 {
        '4'
    } else if d == 5 {
        '5'
    } else if d == 6 {
        '6'
    } else if d == 7 {
        '7'
    } else if d == 8 {
        '8'
    } else {
        '9'
    }
}

/// The decimal representation of `n`, most significant digit first, without
/// leading zeros (except for `n == 0`, which reads `"0"`).
pub open spec fn dec_digits(n: nat) -> Seq<char>
    decreases n,
{
    if n < 10 {
        seq![digit_char(n)]
    } else {
        dec_digits(n / 10).push(digit_char(n % 10))
    }
}

/// Every character of `s` is a decimal digit.
pub open spec fn all_digits(s: Seq<char>) -> bool {
    forall|i: int| 0 <= i < s.len() ==> char_digit(s[i]) is Some
}

/// The numeric value of a digit string, most significant digit first.
pub open spec fn digits_value(s: Seq<char>) -> nat
    decreases s.len(),
{
    if s.len() == 0 {
        0
    } else {
        digits_value(s.drop_last()) * 10 + match char_digit(s.last()) {
            Some(d) => d as nat,
            None => 0nat,
        }
    }
}

/// A digit's character reads back as the digit.
pub proof fn lemma_digit_char_roundtrip(d: nat)
    requires
        d < 10,
    ensures
        char_digit(digit_char(d)) == Some(d as u8),
{
}

/// The decimal representation is a nonempty digit string whose value is `n`.
pub proof fn lemma_dec_digits_value(n: nat)
    ensures
        dec_digits(n).len() >= 1,
        all_digits(dec_digits(n)),
        digits_value(dec_digits(n)) == n,
    decreases n,
{
    if n < 10 {
        lemma_digit_char_roundtrip(n);
        let s = dec_digits(n);
        assert(s.drop_last() =~= Seq::<char>::empty());
        assert(digits_value(s.drop_last()) == 0);
        assert(s.last() == digit_char(n));
        assert(digits_value(s) == 0 * 10 + n);
    } else {
        lemma_dec_digits_value(n / 10);
        lemma_digit_char_roundtrip(n % 10);
        lemma_fundamental_div_mod(n as int, 10);
        let s = dec_digits(n);
        assert(s.drop_last() =~= dec_digits(n / 10));
        assert(s.last() == digit_char(n % 10));
        assert(digits_value(s) == digits_value(dec_digits(n / 10)) * 10 + n % 10);
        assert(digits_value(s) == (n / 10) * 10 + n % 10);
        assert forall|i: int| 0 <= i < s.len() implies char_digit(s[i]) is Some by {
            if i < s.len() - 1 {
                assert(s[i] == dec_digits(n / 10)[i]);
            }
        }
        assert(digits_value(s) == n);
    }
}

/// Distinct numbers have distinct decimal representations.
pub proof fn lemma_dec_digits_injective(m: nat, n: nat)
    requires
        m != n,
    ensures
        dec_digits(m) != dec_digits(n),
{
    lemma_dec_digits_value(m);
    lemma_dec_digits_value(n);
}

/// A counter that writes successive decimal index strings onto the end of a
/// reused name buffer: each call to [`next`](DigitContainer::next) appends the
/// current value's digits and then advances the value by one.
#[derive(Clone, Debug)]
pub struct DigitContainer {
    count: u128,
}

/// The characters of the little-endian digit stack `t`, read back most
/// significant digit first.
spec fn stack_chars(t: Seq<u8>) -> Seq<char> {
    Seq::new(t.len(), |i: int| digit_char(t[t.len() - 1 - i] as nat))
}

impl DigitContainer {
    /// The value whose digits the next call will append.
    pub closed spec fn value(self) -> nat {
        self.count as nat
    }

    /// Starts the counter at one, the index after the specially handled
    /// index zero.
    pub fn new() -> (r: Self)
        ensures
            r.value() == 1,
    {
        DigitContainer { count: 1 }
    }

    /// Appends the decimal digits of the current value to `s` and advances
    /// the counter.
    pub fn next(&mut self, s: &mut String)
        requires
            old(self).value() + 1 <= u128::MAX,
        ensures
            final(self).value() == old(self).value() + 1,
            final(s)@ == old(s)@ + dec_digits(old(self).value()),
    {
        let ghost start = self.count as nat;
        let mut tmp: Vec<u8> = Vec::new();
        let mut n: u128 = self.count;
        tmp.push((n % 10) as u8);
        n = n / 10;
        proof {
            assert(stack_chars(tmp@) =~= seq![digit_char(start % 10)]);
            if n == 0 {
                assert(dec_digits(start) =~= stack_chars(tmp@));
            } else {
                assert(dec_digits(start) =~= dec_digits(start / 10) + stack_chars(tmp@));
            }
        }
        while n > 0
            invariant
                forall|i: int| 0 <= i < tmp@.len() ==> tmp@[i] < 10,
                tmp@.len() >= 1,
                if n == 0 {
                    dec_digits(start) =~= stack_chars(tmp@)
                } else {
                    dec_digits(start) =~= dec_digits(n as nat) + stack_chars(tmp@)
                },
            decreases n,
        {
            let ghost pre = tmp@;
            let ghost nv = n as nat;
            tmp.push((n % 10) as u8);
            n = n / 10;
            proof {
                assert(stack_chars(tmp@) =~= seq![digit_char(nv % 10)] + stack_chars(pre));
                if n == 0 {
                    assert(nv < 10);
                    assert(dec_digits(nv) =~= seq![digit_char(nv % 10)]);
                    assert(dec_digits(start) =~= stack_chars(tmp@));
                } else {
                    assert(dec_digits(nv) =~= dec_digits(nv / 10).push(digit_char(nv % 10)));
                    assert(dec_digits(nv / 10) + (seq![digit_char(nv % 10)] + stack_chars(pre))
                        =~= dec_digits(nv) + stack_chars(pre));
                    assert(dec_digits(start) =~= dec_digits(n as nat) + stack_chars(tmp@));
                }
            }
        }
        let m = tmp.len();
        let mut k = m;
        while k > 0
            invariant
                m == tmp@.len(),
                k <= m,
                forall|i: int| 0 <= i < tmp@.len() ==> tmp@[i] < 10,
                dec_digits(start) =~= stack_chars(tmp@),
                s@ == old(s)@ + stack_chars(tmp@).subrange(0, m - k),
            decreases k,
        {
            k = k - 1;
            let d = tmp[k];
            s.append(digit_str(d));
            proof {
                assert(stack_chars(tmp@)[m - k - 1] == digit_char(tmp@[k as int] as nat));
                assert(stack_chars(tmp@).subrange(0, m - k) =~= stack_chars(tmp@).subrange(
                    0,
                    m - k - 1,
                ) + seq![digit_char(tmp@[k as int] as nat)]);
            }
        }
        proof {
            assert(stack_chars(tmp@).subrange(0, m as int) =~= stack_chars(tmp@));
        }
        self.count = self.count + 1;
    }
}

/// The one-character string of a decimal digit value.
fn digit_str(d: u8) -> (r: &'static str)
    requires
        d < 10,
    ensures
        r@ == seq![digit_char(d as nat)],
{
    proof {
        reveal_strlit("0");
        reveal_strlit("1");
        reveal_strlit("2");
        reveal_strlit("3");
        reveal_strlit("4");
        reveal_strlit("5");
        reveal_strlit("6");
        reveal_strlit("7");
        reveal_strlit("8");
        reveal_strlit("9");
    }
    let r = if d == 0 {
        "0"
    } else if d == 1 {
        "1"
    } else if d == 2 {
        "2"
    } else if d == 3 {
        "3"
    } else if d == 4 {
        "4"
    } else if d == 5 {
        "5"
    } else if d == 6 {
        "6"
    } else if d == 7 {
        "7"
    } else if d == 8 {
        "8"
    } else {
        "9"
    };
    proof {
        assert(r@ =~= seq![digit_char(d as nat)]);
    }
    r
}

} // verus!
