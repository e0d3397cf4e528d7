//! Decimal text of lengths, as it appears in a frame header.

use vstd::prelude::*;

verus! {

/// Whether `b` is one of the ten digit bytes `0` to `9`.
pub open spec fn is_digit(b: u8) -> bool {
    48 <= b <= 57
}

/// Whether every byte of `s` is a digit.
pub open spec fn all_digits(s: Seq<u8>) -> bool {
    forall|i: int| 0 <= i < s.len() ==> is_digit(#[trigger] s[i])
}

/// The number that the digit byte `b` stands for; zero for any other byte.
pub open spec fn digit_value(b: u8) -> nat {
    if is_digit(b) {
        (b - 48) as nat
    } else {
        0
    }
}

/// The digit byte that stands for `d`, for `d` below ten.
pub open spec fn digit_byte(d: nat) -> u8 {
    (48 + d) as u8
}

/// The number written by the digits `s`, read most significant first.
pub open spec fn digits_value(s: Seq<u8>) -> nat
    decreases s.len(),
{
    if s.len() == 0 {
        0
    } else {
        digits_value(s.drop_last()) * 10 + digit_value(s.last())
    }
}

/// The decimal digits of `n`, most significant first, without leading zeros.
pub open spec fn decimal_digits(n: nat) -> Seq<u8>
    decreases n,
{
    if n < 10 {
        seq![digit_byte(n)]
    } else {
        decimal_digits(n / 10).push(digit_byte(n % 10))
    }
}

/// What an unsigned decimal number text stands for: an optional `+`, then at
/// least one digit and nothing else, the number no larger than `usize::MAX`.
pub open spec fn unsigned_value(s: Seq<u8>) -> Option<usize> {
    let digits = if s.len() > 0 && s[0] == 43 {
        s.skip(1)
    } else {
        s
    };
    if digits.len() > 0 && all_digits(digits) && digits_value(digits) <= usize::MAX {
        Some(digits_value(digits) as usize)
    } else {
        None
    }
}

/// The decimal digits of a number are digits, and there is at least one.
pub proof fn lemma_decimal_digits_shape(n: nat)
    ensures
        decimal_digits(n).len() >= 1,
        all_digits(decimal_digits(n)),
    decreases n,
{
    if n >= 10 {
        lemma_decimal_digits_shape(n / 10);
    }
}

/// Reading back the decimal digits of a number gives that number.
pub proof fn lemma_decimal_round_trip(n: nat)
    ensures
        digits_value(decimal_digits(n)) == n,
    decreases n,
{
    if n < 10 {
        let s = decimal_digits(n);
        assert(s.drop_last() =~= Seq::<u8>::empty());
        assert(digits_value(s.drop_last()) == 0);
    } else {
        lemma_decimal_round_trip(n / 10);
        let s = decimal_digits(n);
        assert(s.drop_last() =~= decimal_digits(n / 10));
        assert(s.last() == digit_byte(n % 10));
    }
}

/// The decimal digits of a number that fits a `usize` parse back to it.
pub proof fn lemma_unsigned_value_of_decimal(n: usize)
    ensures
        unsigned_value(decimal_digits(n as nat)) == Some(n),
{
    lemma_decimal_digits_shape(n as nat);
    lemma_decimal_round_trip(n as nat);
}

/// A prefix of a digit text stands for no more than the whole text.
pub proof fn lemma_digits_value_prefix(s: Seq<u8>, k: int)
    requires
        0 <= k <= s.len(),
    ensures
        digits_value(s.take(k)) <= digits_value(s),
    decreases s.len() - k,
{
    if k == s.len() {
        assert(s.take(k) =~= s);
    } else {
        lemma_digits_value_prefix(s.drop_last(), k);
        assert(s.drop_last().take(k) =~= s.take(k));
    }
}

/// Appends the decimal digits of `n` to `out`.
pub fn push_decimal(out: &mut Vec<u8>, n: usize)
    ensures
        final(out)@ == old(out)@ + decimal_digits(n as nat),
    decreases n,
{
    if n >= 10 {
        push_decimal(out, n / 10);
    }
    let d: u8 = (n % 10) as u8;
    out.push(48u8 + d);
}

/// Reads an unsigned decimal number: an optional `+`, then digits only.
/// Gives `None` for an empty text, a text with any other byte in it, and a
/// number that does not fit a `usize`.
pub fn parse_unsigned(s: &[u8]) -> (r: Option<usize>)
    ensures
        r == unsigned_value(s@),
{
    let first: usize = if s.len() > 0 && s[0] == 43u8 {
        1
    } else {
        0
    };
    if first == s.len() {
        return None;
    }
    let ghost digits = s@.skip(first as int);
    proof {
        assert(s@.skip(0) =~= s@);
    }
    let mut value: usize = 0;
    let mut i: usize = first;
    while i < s.len()
        invariant
            first <= i <= s.len(),
            first < s.len(),
            digits == s@.skip(first as int),
            digits == if s@.len() > 0 && s@[0] == 43 {
                s@.skip(1)
            } else {
                s@
            },
            all_digits(digits.take(i - first)),
            value == digits_value(digits.take(i - first)),
        decreases s.len() - i,
    {
        let b: u8 = s[i];
        proof {
            let k = i - first;
            assert(digits[k] == b);
            assert(digits.take(k + 1).drop_last() =~= digits.take(k));
            assert(digits.take(k + 1).last() == b);
            lemma_digits_value_prefix(digits, k + 1);
        }
        if b < 48u8 || b > 57u8 {
            assert(!is_digit(digits[i - first]));
            return None;
        }
        let shifted = match value.checked_mul(10) {
            Some(v) => v,
            None => {
                return None;
            },
        };
        value = match shifted.checked_add((b - 48u8) as usize) {
            Some(v) => v,
            None => {
                return None;
            },
        };
        i += 1;
    }
    proof {
        assert(digits.take(i - first) =~= digits);
    }
    Some(value)
}

} // verus!
