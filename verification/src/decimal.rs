//! Decimal length fields: what a run of ASCII digits is worth, and the digits
//! of a number.
use vstd::prelude::*;

verus! {

/// Whether `b` is one of the ASCII digits `0` to `9`.
pub open spec fn is_digit(b: u8) -> bool {
    0x30 <= b <= 0x39
}

/// Whether every byte of `s` is an ASCII digit.
pub open spec fn all_digits(s: Seq<u8>) -> bool {
    forall|i: int| 0 <= i < s.len() ==> is_digit(#[trigger] s[i])
}

/// The number that the digits `s` spell, most significant first.
pub open spec fn decimal_value(s: Seq<u8>) -> nat
    decreases s.len(),
{
    if s.len() == 0 {
        0
    } else {
        (decimal_value(s.drop_last()) * 10 + (s.last() - 0x30)) as nat
    }
}

/// The digits of `n`, most significant first, without leading zeros.
pub open spec fn decimal_digits(n: nat) -> Seq<u8>
    decreases n,
{
    if n < 10 {
        seq![(0x30 + n) as u8]
    } else {
        decimal_digits(n / 10).push((0x30 + n % 10) as u8)
    }
}

/// What a length field is worth: the value of its digits, where there is at
/// least one byte, every byte is a digit and the value fits in 64 bits.
pub open spec fn parsed_length(s: Seq<u8>) -> Option<u64> {
    if s.len() > 0 && all_digits(s) && decimal_value(s) <= u64::MAX {
        Some(decimal_value(s) as u64)
    } else {
        None
    }
}

/// The digits of a number are digits, at least one, and spell that number.
pub proof fn lemma_digits_spell(n: nat)
    ensures
        decimal_digits(n).len() >= 1,
        all_digits(decimal_digits(n)),
        decimal_value(decimal_digits(n)) == n,
    decreases n,
{
    if n < 10 {
        let s = decimal_digits(n);
        assert(s.drop_last() =~= Seq::<u8>::empty());
        assert(decimal_value(s.drop_last()) == 0);
    } else {
        lemma_digits_spell(n / 10);
        let front = decimal_digits(n / 10);
        let s = decimal_digits(n);
        assert(s.drop_last() =~= front);
    }
}

/// A run of digits is worth at least what any of its beginnings is worth.
pub proof fn lemma_value_grows(s: Seq<u8>, k: int)
    requires
        0 <= k <= s.len(),
        all_digits(s),
    ensures
        decimal_value(s.take(k)) <= decimal_value(s),
    decreases s.len() - k,
{
    if k == s.len() {
        assert(s.take(k) =~= s);
    } else {
        lemma_value_grows(s.drop_last(), k);
        assert(s.drop_last().take(k) =~= s.take(k));
        assert(is_digit(s.last()));
    }
}

/// Reads a length field: `Some` of its value exactly where the field is a
/// non-empty run of digits whose value fits in 64 bits.
pub fn parse_decimal(field: &[u8]) -> (r: Option<u64>)
    ensures
        r == parsed_length(field@),
{
    let n: usize = field.len();
    if n == 0 {
        return None;
    }
    let mut value: u64 = 0;
    let mut i: usize = 0;
    while i < n
        invariant
            n == field@.len(),
            0 <= i <= n,
            all_digits(field@.take(i as int)),
            value == decimal_value(field@.take(i as int)),
        decreases n - i,
    {
        let b: u8 = field[i];
        if b < 0x30 || b > 0x39 {
            proof {
                assert(!is_digit(field@[i as int]));
            }
            return None;
        }
        let d: u64 = (b - 0x30) as u64;
        proof {
            let next = field@.take(i + 1);
            assert(next.drop_last() =~= field@.take(i as int));
            assert(next.last() == b);
            assert forall|j: int| 0 <= j < next.len() implies is_digit(#[trigger] next[j]) by {
                if j < i {
                    assert(field@.take(i as int)[j] == next[j]);
                }
            }
        }
        if value > (u64::MAX - d) / 10 {
            proof {
                if all_digits(field@) {
                    lemma_value_grows(field@, i + 1);
                }
            }
            return None;
        }
        value = value * 10 + d;
        i = i + 1;
    }
    proof {
        assert(field@.take(n as int) =~= field@);
    }
    Some(value)
}

/// Appends the digits of `n` to `out`.
pub fn push_decimal(n: usize, out: &mut Vec<u8>)
    ensures
        final(out)@ == old(out)@ + decimal_digits(n as nat),
    decreases n,
{
    if n >= 10 {
        push_decimal(n / 10, out);
    }
    let d: u8 = (n % 10) as u8;
    out.push(0x30 + d);
    proof {
        assert(final(out)@ =~= old(out)@ + decimal_digits(n as nat));
    }
}

} // verus!
