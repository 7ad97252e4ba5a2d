//! Decimal numerals: the ASCII digits of natural numbers and signed integers,
//! how they are written and how they are read back.

use vstd::prelude::*;

verus! {

/// The ASCII byte of a decimal digit `d`, for `0 <= d <= 9`.
pub open spec fn digit_byte(d: int) -> u8 {
    (48 + d) as u8
}

/// Whether `b` is one of the ASCII digits `0` to `9`.
pub open spec fn is_digit(b: u8) -> bool {
    48 <= b <= 57
}

/// Whether `s` consists of ASCII digits only.
pub open spec fn all_digits(s: Seq<u8>) -> bool {
    forall|i: int| 0 <= i < s.len() ==> is_digit(#[trigger] s[i])
}

/// The decimal numeral of `n`: most significant digit first, no leading
/// zero, and `0` for zero.
pub open spec fn nat_digits(n: nat) -> Seq<u8>
    decreases n,
{
    if n < 10 {
        seq![digit_byte(n as int)]
    } else {
        nat_digits(n / 10).push(digit_byte((n % 10) as int))
    }
}

/// The number that a string of digits denotes, read as a decimal numeral.
/// Leading zeros are allowed and the empty string denotes zero.
pub open spec fn digits_value(s: Seq<u8>) -> nat
    decreases s.len(),
{
    if s.len() == 0 {
        0
    } else {
        digits_value(s.drop_last()) * 10 + (s.last() - 48) as nat
    }
}

/// The number written by `s`, where `s` is a numeral: at least one byte,
/// digits only.
pub open spec fn numeral_value(s: Seq<u8>) -> Option<nat> {
    if s.len() > 0 && all_digits(s) {
        Some(digits_value(s))
    } else {
        None
    }
}

/// The integer written by `s`: a numeral, with `+` or `-` before it or
/// without a sign.
pub open spec fn signed_value(s: Seq<u8>) -> Option<int> {
    if s.len() > 0 && s[0] == 45 {
        match numeral_value(s.skip(1)) {
            Some(v) => Some(-(v as int)),
            None => None,
        }
    } else if s.len() > 0 && s[0] == 43 {
        match numeral_value(s.skip(1)) {
            Some(v) => Some(v as int),
            None => None,
        }
    } else {
        match numeral_value(s) {
            Some(v) => Some(v as int),
            None => None,
        }
    }
}

/// The number written by the numeral `s`, where it is at most `max`.
pub open spec fn bounded_numeral(s: Seq<u8>, max: nat) -> Option<nat> {
    match numeral_value(s) {
        Some(v) => if v <= max {
            Some(v)
        } else {
            None
        },
        None => None,
    }
}

/// The integer written by `s`, where it fits in 64 bits with a sign.
pub open spec fn i64_value(s: Seq<u8>) -> Option<i64> {
    match signed_value(s) {
        Some(v) => if i64::MIN <= v <= i64::MAX {
            Some(v as i64)
        } else {
            None
        },
        None => None,
    }
}

/// The numeral of `i` with its sign always written: `+` for zero and above,
/// `-` below.
pub open spec fn signed_text(i: int) -> Seq<u8> {
    if i < 0 {
        seq![45u8] + nat_digits((-i) as nat)
    } else {
        seq![43u8] + nat_digits(i as nat)
    }
}

/// The numeral of `i` with a sign only where it is negative.
pub open spec fn compact_text(i: int) -> Seq<u8> {
    if i < 0 {
        seq![45u8] + nat_digits((-i) as nat)
    } else {
        nat_digits(i as nat)
    }
}

/// A numeral is never empty and holds digits only.
pub proof fn lemma_nat_digits_shape(n: nat)
    ensures
        nat_digits(n).len() >= 1,
        all_digits(nat_digits(n)),
    decreases n,
{
    if n >= 10 {
        lemma_nat_digits_shape(n / 10);
    }
}

/// Reading the numeral of `n` gives `n` back.
pub proof fn lemma_digits_value_of_nat_digits(n: nat)
    ensures
        digits_value(nat_digits(n)) == n,
        numeral_value(nat_digits(n)) == Some(n),
    decreases n,
{
    if n < 10 {
        assert(digits_value(nat_digits(n).drop_last()) == 0);
    } else {
        lemma_digits_value_of_nat_digits(n / 10);
        assert(nat_digits(n).drop_last() =~= nat_digits(n / 10));
    }
}

/// A string of digits denotes at least what any of its beginnings denotes.
pub proof fn lemma_digits_value_prefix(s: Seq<u8>, k: int)
    requires
        all_digits(s),
        0 <= k <= s.len(),
    ensures
        digits_value(s.take(k)) <= digits_value(s),
    decreases s.len(),
{
    if k == s.len() {
        assert(s.take(k) =~= s);
    } else {
        lemma_digits_value_prefix(s.drop_last(), k);
        assert(s.drop_last().take(k) =~= s.take(k));
    }
}

/// Reading a signed numeral of `i` gives `i` back, whether or not the sign
/// of a number that is not negative was written.
pub proof fn lemma_signed_value_of_text(i: int)
    ensures
        signed_value(signed_text(i)) == Some(i),
        signed_value(compact_text(i)) == Some(i),
{
    if i < 0 {
        let n = (-i) as nat;
        lemma_digits_value_of_nat_digits(n);
        assert(compact_text(i).skip(1) =~= nat_digits(n));
    } else {
        let n = i as nat;
        lemma_digits_value_of_nat_digits(n);
        assert(signed_text(i).skip(1) =~= nat_digits(n));
    }
}

/// Appends the decimal numeral of `n` to `out`.
pub fn push_nat(out: &mut Vec<u8>, n: u64)
    ensures
        final(out)@ == old(out)@ + nat_digits(n as nat),
    decreases n,
{
    if n >= 10 {
        push_nat(out, n / 10);
    }
    let d: u8 = (n % 10) as u8;
    out.push(48u8 + d);
}

/// Appends the numeral of `i` to `out`, with `+` or `-` before it.
pub fn push_signed(out: &mut Vec<u8>, i: i64)
    ensures
        final(out)@ == old(out)@ + signed_text(i as int),
{
    if i < 0 {
        out.push(45u8);
        let magnitude: u64 = (-(i + 1)) as u64 + 1;
        push_nat(out, magnitude);
    } else {
        out.push(43u8);
        push_nat(out, i as u64);
    }
}

/// Appends the numeral of `i` to `out`, with `-` before it where `i` is
/// negative.
pub fn push_compact(out: &mut Vec<u8>, i: i64)
    ensures
        final(out)@ == old(out)@ + compact_text(i as int),
{
    if i < 0 {
        out.push(45u8);
        let magnitude: u64 = (-(i + 1)) as u64 + 1;
        push_nat(out, magnitude);
    } else {
        push_nat(out, i as u64);
    }
}

/// Reads `s` as a numeral of at most 64 bits.
pub fn parse_u64(s: &[u8]) -> (r: Option<u64>)
    ensures
        match bounded_numeral(s@, u64::MAX as nat) {
            Some(v) => r == Some(v as u64),
            None => r is None,
        },
{
    if s.len() == 0 {
        return None;
    }
    let mut acc: u64 = 0;
    let mut i: usize = 0;
    while i < s.len()
        invariant
            i <= s.len(),
            all_digits(s@.take(i as int)),
            acc as nat == digits_value(s@.take(i as int)),
        decreases s.len() - i,
    {
        let b: u8 = s[i];
        if b < 48 || b > 57 {
            return None;
        }
        let d: u64 = (b - 48) as u64;
        proof {
            let k = i as int;
            assert(s@.take(k + 1).drop_last() =~= s@.take(k));
            if all_digits(s@) {
                lemma_digits_value_prefix(s@, k + 1);
            }
        }
        if acc > (u64::MAX - d) / 10 {
            return None;
        }
        acc = acc * 10 + d;
        i += 1;
    }
    proof {
        assert(s@.take(s.len() as int) =~= s@);
    }
    Some(acc)
}

/// Reads `s` as a numeral that fits a length.
pub fn parse_usize(s: &[u8]) -> (r: Option<usize>)
    ensures
        match bounded_numeral(s@, usize::MAX as nat) {
            Some(v) => r == Some(v as usize),
            None => r is None,
        },
{
    match parse_u64(s) {
        Some(v) => {
            if v <= usize::MAX as u64 {
                Some(v as usize)
            } else {
                None
            }
        },
        None => None,
    }
}

/// Reads `s` as a signed numeral of at most 64 bits.
pub fn parse_i64(s: &[u8]) -> (r: Option<i64>)
    ensures
        r == i64_value(s@),
{
    if s.len() == 0 {
        return None;
    }
    let first: u8 = s[0];
    if first == 45 || first == 43 {
        let rest = vstd::slice::slice_subrange(s, 1, s.len());
        match parse_u64(rest) {
            Some(v) => {
                if first == 43 {
                    if v <= i64::MAX as u64 {
                        Some(v as i64)
                    } else {
                        None
                    }
                } else if v <= i64::MAX as u64 {
                    Some(-(v as i64))
                } else if v == 9223372036854775808u64 {
                    Some(i64::MIN)
                } else {
                    None
                }
            },
            None => None,
        }
    } else {
        match parse_u64(s) {
            Some(v) => {
                if v <= i64::MAX as u64 {
                    Some(v as i64)
                } else {
                    None
                }
            },
            None => None,
        }
    }
}

} // verus!
