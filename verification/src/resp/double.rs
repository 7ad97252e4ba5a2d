//! Doubles as exact decimal numbers: a sign, the significant digits and a
//! power of ten, with the text that stands for them on the wire.

use crate::resp::append::push_range;
use crate::resp::decimal::{
    all_digits, compact_text, i64_value, is_digit, lemma_nat_digits_shape,
    lemma_signed_value_of_text, parse_i64, push_compact,
};
use crate::resp::text::plain_line;
use vstd::prelude::*;

verus! {

/// A decimal number in scientific form: with digits `d0 d1 d2 ..` it is
/// `d0.d1d2.. * 10^exponent`, negated where `negative` holds. The digits
/// are ASCII.
pub struct DoubleView {
    pub negative: bool,
    pub digits: Seq<u8>,
    pub exponent: int,
}

impl DoubleView {
    /// Whether the number is zero, of either sign.
    pub open spec fn is_zero(self) -> bool {
        self.digits == seq![48u8]
    }

    /// Whether the number is in its one canonical form: zero is the digit `0`
    /// with exponent 0, any other number begins and ends with a digit that is
    /// not `0`, and the exponent fits in 64 bits.
    pub open spec fn wf(self) -> bool {
        &&& self.digits.len() > 0
        &&& all_digits(self.digits)
        &&& i64::MIN <= self.exponent <= i64::MAX
        &&& if self.is_zero() {
            self.exponent == 0
        } else {
            self.digits[0] != 48 && self.digits.last() != 48
        }
    }

    /// Whether the number is written with an exponent: where it is zero, at
    /// least `10^8`, or below `10^-8` in magnitude.
    pub open spec fn scientific(self) -> bool {
        self.is_zero() || self.exponent >= 8 || self.exponent < -8
    }

    /// The magnitude with an exponent: the first digit, the others after a
    /// point where there are any, `e`, and the exponent with a sign only
    /// where it is negative.
    pub open spec fn scientific_text(self) -> Seq<u8> {
        let fraction = if self.digits.len() > 1 {
            seq![46u8] + self.digits.skip(1)
        } else {
            Seq::<u8>::empty()
        };
        seq![self.digits[0]] + fraction + seq![101u8] + compact_text(self.exponent)
    }

    /// The magnitude without an exponent: the digits with the point set
    /// among them, zeros added before or behind as the exponent asks.
    pub open spec fn fixed_text(self) -> Seq<u8> {
        if self.exponent >= 0 {
            if self.digits.len() <= self.exponent + 1 {
                self.digits + zeros((self.exponent + 1 - self.digits.len()) as nat)
            } else {
                self.digits.take(self.exponent + 1) + seq![46u8] + self.digits.skip(
                    self.exponent + 1,
                )
            }
        } else {
            seq![48u8, 46u8] + zeros((-self.exponent - 1) as nat) + self.digits
        }
    }

    /// The text of the number on the wire: its sign, always written, then
    /// its magnitude.
    pub open spec fn text(self) -> Seq<u8> {
        let sign = if self.negative {
            45u8
        } else {
            43u8
        };
        let magnitude = if self.scientific() {
            self.scientific_text()
        } else {
            self.fixed_text()
        };
        seq![sign] + magnitude
    }
}

/// `n` times the digit `0`.
pub open spec fn zeros(n: nat) -> Seq<u8> {
    Seq::new(n, |i: int| 48u8)
}

/// How many digits `s` begins with.
pub open spec fn leading_digits(s: Seq<u8>) -> nat
    decreases s.len(),
{
    if s.len() > 0 && is_digit(s[0]) {
        1 + leading_digits(s.skip(1))
    } else {
        0
    }
}

/// How many times the digit `0` stands at the beginning of `s`.
pub open spec fn leading_zeros(s: Seq<u8>) -> nat
    decreases s.len(),
{
    if s.len() > 0 && s[0] == 48 {
        1 + leading_zeros(s.skip(1))
    } else {
        0
    }
}

/// How many times the digit `0` stands at the end of `s`.
pub open spec fn trailing_zeros(s: Seq<u8>) -> nat
    decreases s.len(),
{
    if s.len() > 0 && s.last() == 48 {
        1 + trailing_zeros(s.drop_last())
    } else {
        0
    }
}

/// The canonical form of the number `0.all * 10^point`, where `all` is a
/// string of digits: none where its exponent does not fit in 64 bits.
pub open spec fn normalized(negative: bool, all: Seq<u8>, point: int) -> Option<DoubleView> {
    let lz = leading_zeros(all);
    if lz == all.len() {
        Some(DoubleView { negative, digits: seq![48u8], exponent: 0 })
    } else {
        let exponent = point - 1 - lz;
        if i64::MIN <= exponent <= i64::MAX {
            Some(
                DoubleView {
                    negative,
                    digits: all.subrange(lz as int, all.len() - trailing_zeros(all)),
                    exponent,
                },
            )
        } else {
            None
        }
    }
}

/// The number that `t` writes. `t` is an optional sign, digits with at most
/// one point among them and at least one digit, and optionally `e` or `E`
/// with a signed numeral of 64 bits. None where `t` is not of that form or
/// the exponent of the number does not fit in 64 bits.
pub open spec fn double_value(t: Seq<u8>) -> Option<DoubleView> {
    let signed = t.len() > 0 && (t[0] == 45 || t[0] == 43);
    let negative = t.len() > 0 && t[0] == 45;
    let s = if signed {
        t.skip(1)
    } else {
        t
    };
    let i = leading_digits(s) as int;
    let has_point = i < s.len() && s[i] == 46;
    let f = if has_point {
        leading_digits(s.skip(i + 1)) as int
    } else {
        0
    };
    let m = if has_point {
        i + 1 + f
    } else {
        i
    };
    let all = if has_point {
        s.take(i) + s.subrange(i + 1, m)
    } else {
        s.take(i)
    };
    if i + f == 0 {
        None
    } else if m == s.len() {
        normalized(negative, all, i)
    } else if s[m] == 101 || s[m] == 69 {
        match i64_value(s.skip(m + 1)) {
            Some(x) => normalized(negative, all, i + x),
            None => None,
        }
    } else {
        None
    }
}

/// Counting digits stops within the string, and what it passes are digits.
pub proof fn lemma_leading_digits(s: Seq<u8>)
    ensures
        leading_digits(s) <= s.len(),
        all_digits(s.take(leading_digits(s) as int)),
        leading_digits(s) < s.len() ==> !is_digit(s[leading_digits(s) as int]),
    decreases s.len(),
{
    if s.len() > 0 && is_digit(s[0]) {
        lemma_leading_digits(s.skip(1));
        let k = leading_digits(s.skip(1)) as int;
        assert forall|j: int| 0 <= j < k + 1 implies is_digit(#[trigger] s.take(k + 1)[j]) by {
            if j > 0 {
                assert(s.skip(1).take(k)[j - 1] == s[j]);
            }
        }
    }
}

/// Counting zeros stops within the string, at a byte that is not `0`.
pub proof fn lemma_leading_zeros(s: Seq<u8>)
    ensures
        leading_zeros(s) <= s.len(),
        forall|j: int| 0 <= j < leading_zeros(s) ==> s[j] == 48,
        leading_zeros(s) < s.len() ==> s[leading_zeros(s) as int] != 48,
    decreases s.len(),
{
    if s.len() > 0 && s[0] == 48 {
        lemma_leading_zeros(s.skip(1));
        assert forall|j: int| 0 <= j < leading_zeros(s) implies s[j] == 48 by {
            if j > 0 {
                assert(s.skip(1)[j - 1] == s[j]);
            }
        }
    }
}

/// Counting zeros from the end stops within the string, at a byte that is
/// not `0`.
pub proof fn lemma_trailing_zeros(s: Seq<u8>)
    ensures
        trailing_zeros(s) <= s.len(),
        forall|j: int| s.len() - trailing_zeros(s) <= j < s.len() ==> s[j] == 48,
        trailing_zeros(s) < s.len() ==> s[s.len() - trailing_zeros(s) - 1] != 48,
    decreases s.len(),
{
    if s.len() > 0 && s.last() == 48 {
        lemma_trailing_zeros(s.drop_last());
        assert forall|j: int| s.len() - trailing_zeros(s) <= j < s.len() implies s[j] == 48 by {
            if j < s.len() - 1 {
                assert(s.drop_last()[j] == s[j]);
            }
        }
    }
}

/// A string of digits followed by something that is no digit begins with
/// exactly those digits.
pub proof fn lemma_leading_digits_of_concat(a: Seq<u8>, b: Seq<u8>)
    requires
        all_digits(a),
        b.len() == 0 || !is_digit(b[0]),
    ensures
        leading_digits(a + b) == a.len(),
    decreases a.len(),
{
    if a.len() > 0 {
        assert((a + b).skip(1) =~= a.skip(1) + b);
        lemma_leading_digits_of_concat(a.skip(1), b);
    }
}

/// Zeros set before a string add to the zeros that it begins with.
pub proof fn lemma_leading_zeros_of_concat(k: nat, b: Seq<u8>)
    ensures
        leading_zeros(zeros(k) + b) == k + leading_zeros(b),
    decreases k,
{
    if k > 0 {
        assert((zeros(k) + b).skip(1) =~= zeros((k - 1) as nat) + b);
        lemma_leading_zeros_of_concat((k - 1) as nat, b);
    }
}

/// Zeros set behind a string add to the zeros that it ends with.
pub proof fn lemma_trailing_zeros_of_concat(a: Seq<u8>, k: nat)
    ensures
        trailing_zeros(a + zeros(k)) == k + trailing_zeros(a),
    decreases k,
{
    if k > 0 {
        assert((a + zeros(k)).drop_last() =~= a + zeros((k - 1) as nat));
        lemma_trailing_zeros_of_concat(a, (k - 1) as nat);
    }
}

/// The text of a number in canonical form holds no line break.
pub proof fn lemma_double_text_plain(d: DoubleView)
    requires
        d.wf(),
    ensures
        plain_line(d.text()),
{
    lemma_nat_digits_shape(
        if d.exponent < 0 {
            (-d.exponent) as nat
        } else {
            d.exponent as nat
        },
    );
}

/// A number as it may be written: the sign, the digits before the point,
/// the point and the digits behind it where `point` holds, and the exponent
/// where there is one.
pub open spec fn written(
    negative: bool,
    whole: Seq<u8>,
    point: bool,
    part: Seq<u8>,
    exp: Option<int>,
) -> Seq<u8> {
    let sign = if negative {
        45u8
    } else {
        43u8
    };
    let fraction = if point {
        seq![46u8] + part
    } else {
        Seq::<u8>::empty()
    };
    let power = match exp {
        Some(x) => seq![101u8] + compact_text(x),
        None => Seq::<u8>::empty(),
    };
    seq![sign] + whole + fraction + power
}

/// What is written in the form of `written` is read as its digits, with the
/// point after those of `whole`, moved by the exponent.
pub proof fn lemma_double_value_of_written(
    negative: bool,
    whole: Seq<u8>,
    point: bool,
    part: Seq<u8>,
    exp: Option<int>,
)
    requires
        all_digits(whole),
        all_digits(part),
        whole.len() + part.len() > 0,
        !point ==> part.len() == 0,
        exp matches Some(x) ==> i64::MIN <= x <= i64::MAX,
    ensures
        double_value(written(negative, whole, point, part, exp)) == normalized(
            negative,
            whole + part,
            whole.len() + (match exp {
                Some(x) => x,
                None => 0,
            }),
        ),
{
    let t = written(negative, whole, point, part, exp);
    let s = t.skip(1);
    let fraction = if point {
        seq![46u8] + part
    } else {
        Seq::<u8>::empty()
    };
    let power = match exp {
        Some(x) => seq![101u8] + compact_text(x),
        None => Seq::<u8>::empty(),
    };
    let i = whole.len() as int;
    assert(s =~= whole + (fraction + power));
    lemma_leading_digits_of_concat(whole, fraction + power);
    assert(s.take(i) =~= whole);
    if point {
        assert(s.skip(i + 1) =~= part + power);
        lemma_leading_digits_of_concat(part, power);
        let m = i + 1 + part.len();
        assert(s.subrange(i + 1, m) =~= part);
        match exp {
            Some(x) => {
                lemma_signed_value_of_text(x);
                assert(s.skip(m + 1) =~= compact_text(x));
            },
            None => {
            },
        }
    } else {
        match exp {
            Some(x) => {
                lemma_signed_value_of_text(x);
                assert(s.skip(i + 1) =~= compact_text(x));
            },
            None => {
            },
        }
    }
}

/// Digits that begin and end with a digit other than `0`, or the one digit
/// `0` with its point behind it, are already in canonical form.
pub proof fn lemma_normalized_canonical(negative: bool, digits: Seq<u8>, point: int)
    requires
        digits.len() > 0,
        i64::MIN <= point - 1 <= i64::MAX,
        if digits == seq![48u8] {
            point == 1
        } else {
            digits[0] != 48 && digits.last() != 48
        },
    ensures
        normalized(negative, digits, point) == Some(
            DoubleView { negative, digits, exponent: point - 1 },
        ),
{
    if digits == seq![48u8] {
        assert(leading_zeros(digits.skip(1)) == 0);
    } else {
        assert(digits.subrange(0, digits.len() as int) =~= digits);
    }
}

/// Reading a number that is written with an exponent gives it back.
proof fn lemma_double_value_scientific(d: DoubleView)
    requires
        d.wf(),
        d.scientific(),
    ensures
        double_value(d.text()) == Some(d),
{
    let n = d.digits.len() as int;
    let head = seq![d.digits[0]];
    let rest = d.digits.skip(1);
    assert(head + rest =~= d.digits);
    assert(d.text() =~= written(d.negative, head, n > 1, rest, Some(d.exponent)));
    lemma_double_value_of_written(d.negative, head, n > 1, rest, Some(d.exponent));
    lemma_normalized_canonical(d.negative, d.digits, 1 + d.exponent);
}

/// Reading a whole number that is written without an exponent gives it
/// back.
proof fn lemma_double_value_fixed_whole(d: DoubleView)
    requires
        d.wf(),
        !d.scientific(),
        d.exponent >= 0,
        d.digits.len() <= d.exponent + 1,
    ensures
        double_value(d.text()) == Some(d),
{
    let n = d.digits.len() as int;
    let e = d.exponent;
    let none = Seq::<u8>::empty();
    let pad = zeros((e + 1 - n) as nat);
    let all = d.digits + pad;
    lemma_double_value_of_written(d.negative, all, false, none, None);
    lemma_trailing_zeros_of_concat(d.digits, (e + 1 - n) as nat);
    assert(all.subrange(0, n) =~= d.digits);
}

/// Reading a number with digits on both sides of the point gives it back.
proof fn lemma_double_value_fixed_split(d: DoubleView)
    requires
        d.wf(),
        !d.scientific(),
        d.exponent >= 0,
        d.digits.len() > d.exponent + 1,
    ensures
        double_value(d.text()) == Some(d),
{
    let e = d.exponent;
    let whole = d.digits.take(e + 1);
    let part = d.digits.skip(e + 1);
    assert(d.text() =~= written(d.negative, whole, true, part, None));
    lemma_double_value_of_written(d.negative, whole, true, part, None);
    assert(whole + part =~= d.digits);
    lemma_normalized_canonical(d.negative, d.digits, e + 1);
}

/// Reading a number below one that is written without an exponent gives it
/// back.
proof fn lemma_double_value_fixed_small(d: DoubleView)
    requires
        d.wf(),
        !d.scientific(),
        d.exponent < 0,
    ensures
        double_value(d.text()) == Some(d),
{
    let e = d.exponent;
    let head = seq![48u8];
    let pad = zeros((-e - 1) as nat);
    let part = pad + d.digits;
    assert(d.text() =~= written(d.negative, head, true, part, None));
    lemma_double_value_of_written(d.negative, head, true, part, None);
    let all = head + part;
    assert(all =~= zeros((-e) as nat) + d.digits);
    lemma_leading_zeros_of_concat((-e) as nat, d.digits);
    assert(all.subrange(-e, all.len() as int) =~= d.digits);
}

/// Reading the text of a number in canonical form gives the number back.
pub proof fn lemma_double_value_of_text(d: DoubleView)
    requires
        d.wf(),
    ensures
        double_value(d.text()) == Some(d),
{
    if d.scientific() {
        lemma_double_value_scientific(d);
    } else if d.exponent < 0 {
        lemma_double_value_fixed_small(d);
    } else if d.digits.len() <= d.exponent + 1 {
        lemma_double_value_fixed_whole(d);
    } else {
        lemma_double_value_fixed_split(d);
    }
}

/// Counts the digits that `s` holds from `from` on, up to the first byte
/// that is none.
fn count_digits(s: &[u8], from: usize) -> (n: usize)
    requires
        from <= s.len(),
    ensures
        n == leading_digits(s@.skip(from as int)),
        from + n <= s.len(),
{
    let mut i: usize = from;
    while i < s.len() && 48 <= s[i] && s[i] <= 57
        invariant
            from <= i <= s.len(),
            leading_digits(s@.skip(from as int)) == (i - from) + leading_digits(s@.skip(i as int)),
        decreases s.len() - i,
    {
        proof {
            assert(s@.skip(i as int).skip(1) =~= s@.skip(i + 1));
            assert(s@.skip(i as int)[0] == s@[i as int]);
        }
        i += 1;
    }
    i - from
}

/// Counts the zeros at the beginning of `s`.
fn count_leading_zeros(s: &Vec<u8>) -> (n: usize)
    ensures
        n == leading_zeros(s@),
        n <= s.len(),
{
    let mut i: usize = 0;
    proof {
        assert(s@.skip(0) =~= s@);
    }
    while i < s.len() && s[i] == 48
        invariant
            i <= s.len(),
            leading_zeros(s@) == i + leading_zeros(s@.skip(i as int)),
        decreases s.len() - i,
    {
        proof {
            assert(s@.skip(i as int).skip(1) =~= s@.skip(i + 1));
        }
        i += 1;
    }
    i
}

/// Counts the zeros at the end of `s`.
fn count_trailing_zeros(s: &Vec<u8>) -> (n: usize)
    ensures
        n == trailing_zeros(s@),
        n <= s.len(),
{
    let mut i: usize = s.len();
    proof {
        assert(s@.take(s.len() as int) =~= s@);
    }
    while i > 0 && s[i - 1] == 48
        invariant
            i <= s.len(),
            trailing_zeros(s@) == (s.len() - i) + trailing_zeros(s@.take(i as int)),
        decreases i,
    {
        proof {
            assert(s@.take(i as int).drop_last() =~= s@.take(i - 1));
        }
        i -= 1;
    }
    s.len() - i
}

/// Appends `n` times the digit `0` to `out`.
fn push_zeros(out: &mut Vec<u8>, n: usize)
    ensures
        final(out)@ == old(out)@ + zeros(n as nat),
{
    let mut i: usize = 0;
    while i < n
        invariant
            i <= n,
            out@ == old(out)@ + zeros(i as nat),
        decreases n - i,
    {
        out.push(48u8);
        i += 1;
    }
}

/// A double: an exact decimal number in canonical scientific form.
#[derive(PartialEq, Debug)]
pub struct RespDouble {
    negative: bool,
    digits: Vec<u8>,
    exponent: i64,
}

impl View for RespDouble {
    type V = DoubleView;

    closed spec fn view(&self) -> DoubleView {
        DoubleView { negative: self.negative, digits: self.digits@, exponent: self.exponent as int }
    }
}

impl Clone for RespDouble {
    fn clone(&self) -> (r: Self)
        ensures
            r@ == self@,
    {
        proof {
            use_type_invariant(self);
        }
        let mut digits: Vec<u8> = Vec::new();
        push_range(&mut digits, self.digits.as_slice(), 0, self.digits.len());
        proof {
            assert(digits@ =~= self.digits@);
        }
        RespDouble { negative: self.negative, digits, exponent: self.exponent }
    }
}

impl RespDouble {
    /// Every double is held in canonical form.
    #[verifier::type_invariant]
    spec fn canonical(self) -> bool {
        self@.wf()
    }

    /// The number with the given sign, significant digits (ASCII) and
    /// exponent of ten, where these are in canonical form.
    pub fn new(negative: bool, digits: Vec<u8>, exponent: i64) -> (r: Option<RespDouble>)
        ensures
            match r {
                Some(d) => d@.negative == negative && d@.digits == digits@ && d@.exponent
                    == exponent && d@.wf(),
                None => !(DoubleView { negative, digits: digits@, exponent: exponent as int }).wf(),
            },
    {
        let n = digits.len();
        if n == 0 {
            return None;
        }
        let mut i: usize = 0;
        while i < n
            invariant
                i <= n,
                n == digits.len(),
                all_digits(digits@.take(i as int)),
            decreases n - i,
        {
            if digits[i] < 48 || digits[i] > 57 {
                return None;
            }
            i += 1;
        }
        proof {
            assert(digits@.take(n as int) =~= digits@);
        }
        let zero = n == 1 && digits[0] == 48;
        proof {
            if zero {
                assert(digits@ =~= seq![48u8]);
            }
        }
        let canonical = if zero {
            exponent == 0
        } else {
            digits[0] != 48 && digits[n - 1] != 48
        };
        if canonical {
            Some(RespDouble { negative, digits, exponent })
        } else {
            None
        }
    }

    /// Reads the number that `text` writes, in canonical form.
    pub fn parse(text: &[u8]) -> (r: Option<RespDouble>)
        ensures
            match double_value(text@) {
                Some(v) => r matches Some(d) && d@ == v,
                None => r is None,
            },
    {
        let signed = text.len() > 0 && (text[0] == 45 || text[0] == 43);
        let negative = text.len() > 0 && text[0] == 45;
        let s = if signed {
            vstd::slice::slice_subrange(text, 1, text.len())
        } else {
            text
        };
        let i = count_digits(s, 0);
        proof {
            assert(s@.skip(0) =~= s@);
        }
        let has_point = i < s.len() && s[i] == 46;
        let f = if has_point {
            count_digits(s, i + 1)
        } else {
            0
        };
        let m = if has_point {
            i + 1 + f
        } else {
            i
        };
        if i + f == 0 {
            return None;
        }
        let mut all: Vec<u8> = Vec::new();
        push_range(&mut all, s, 0, i);
        if has_point {
            push_range(&mut all, s, i + 1, m);
        }
        proof {
            lemma_leading_digits(s@);
            if has_point {
                lemma_leading_digits(s@.skip(i + 1));
                assert(s@.skip(i + 1).take(f as int) =~= s@.subrange(i + 1, m as int));
            }
        }
        let mut shift: i64 = 0;
        if m < s.len() {
            if s[m] == 101 || s[m] == 69 {
                let tail = vstd::slice::slice_subrange(s, m + 1, s.len());
                match parse_i64(tail) {
                    Some(x) => {
                        shift = x;
                    },
                    None => {
                        return None;
                    },
                }
            } else {
                return None;
            }
        }
        Self::normalize(negative, all, i as i128 + shift as i128)
    }

    /// The canonical form of `0.all * 10^point`.
    fn normalize(negative: bool, all: Vec<u8>, point: i128) -> (r: Option<RespDouble>)
        requires
            all_digits(all@),
            -2 * (u64::MAX as int) <= point <= 2 * (u64::MAX as int),
        ensures
            match normalized(negative, all@, point as int) {
                Some(v) => r matches Some(d) && d@ == v,
                None => r is None,
            },
    {
        let lz = count_leading_zeros(&all);
        if lz == all.len() {
            let mut digits: Vec<u8> = Vec::new();
            digits.push(48u8);
            return Some(RespDouble { negative, digits, exponent: 0 });
        }
        let tz = count_trailing_zeros(&all);
        proof {
            lemma_leading_zeros(all@);
            lemma_trailing_zeros(all@);
        }
        let exponent: i128 = point - 1 - lz as i128;
        if exponent < i64::MIN as i128 || exponent > i64::MAX as i128 {
            return None;
        }
        let mut digits: Vec<u8> = Vec::new();
        push_range(&mut digits, all.as_slice(), lz, all.len() - tz);
        proof {
            assert(digits@.last() == all@[all.len() - tz - 1]);
        }
        Some(RespDouble { negative, digits, exponent: exponent as i64 })
    }

    /// Every double is in canonical form.
    pub fn canonical_form(&self)
        ensures
            self@.wf(),
    {
        proof {
            use_type_invariant(self);
        }
    }

    /// Whether the number carries a minus sign.
    pub fn is_negative(&self) -> (r: bool)
        ensures
            r == self@.negative,
    {
        self.negative
    }

    /// The significant digits, as ASCII.
    pub fn digits(&self) -> (r: &Vec<u8>)
        ensures
            r@ == self@.digits,
    {
        &self.digits
    }

    /// The power of ten of the first digit.
    pub fn exponent(&self) -> (r: i64)
        ensures
            r as int == self@.exponent,
    {
        self.exponent
    }

    /// Appends the text of the number to `out`.
    pub fn push_text(&self, out: &mut Vec<u8>)
        ensures
            final(out)@ == old(out)@ + self@.text(),
    {
        out.push(if self.negative { 45u8 } else { 43u8 });
        let zero = self.digits.len() == 1 && self.digits[0] == 48;
        proof {
            if zero {
                assert(self.digits@ =~= seq![48u8]);
            }
        }
        if zero || self.exponent >= 8 || self.exponent < -8 {
            self.push_scientific(out);
        } else {
            self.push_fixed(out);
        }
    }

    /// Appends the magnitude to `out`, written with an exponent.
    fn push_scientific(&self, out: &mut Vec<u8>)
        ensures
            final(out)@ == old(out)@ + self@.scientific_text(),
    {
        proof {
            use_type_invariant(self);
        }
        let n = self.digits.len();
        out.push(self.digits[0]);
        if n > 1 {
            out.push(46u8);
            push_range(out, self.digits.as_slice(), 1, n);
        }
        out.push(101u8);
        push_compact(out, self.exponent);
    }

    /// Appends the magnitude to `out`, written without an exponent.
    fn push_fixed(&self, out: &mut Vec<u8>)
        requires
            -8 <= self@.exponent < 8,
        ensures
            final(out)@ == old(out)@ + self@.fixed_text(),
    {
        let n = self.digits.len();
        let digits = self.digits.as_slice();
        if self.exponent >= 0 {
            let whole: usize = self.exponent as usize + 1;
            if n <= whole {
                push_range(out, digits, 0, n);
                push_zeros(out, whole - n);
            } else {
                push_range(out, digits, 0, whole);
                out.push(46u8);
                push_range(out, digits, whole, n);
                proof {
                    assert(self.digits@.skip(whole as int) =~= self.digits@.subrange(
                        whole as int,
                        n as int,
                    ));
                }
            }
        } else {
            out.push(48u8);
            out.push(46u8);
            push_zeros(out, (-self.exponent - 1) as usize);
            push_range(out, digits, 0, n);
        }
    }
}

} // verus!
