//! Decimal digit strings and the natural numbers they denote.
//!
//! Numbers are kept as ASCII decimal text. This module relates such text to
//! its value and shows that the canonical text of a number is unique.
use vstd::prelude::*;
use vstd::arithmetic::power::pow;

verus! {

/// The ASCII code of `0`.
pub const ZERO: u8 = 48;

/// The ASCII code of `-`.
pub const MINUS: u8 = 45;

/// `b` is the ASCII code of a decimal digit.
pub open spec fn is_digit(b: u8) -> bool {
    48 <= b <= 57
}

/// Every byte of `s` is a decimal digit.
pub open spec fn all_digits(s: Seq<u8>) -> bool {
    forall|i: int| 0 <= i < s.len() ==> is_digit(#[trigger] s[i])
}

/// The number that a string of decimal digits denotes; leading zeros count
/// for nothing and the empty string denotes zero.
pub open spec fn digits_value(s: Seq<u8>) -> nat
    decreases s.len(),
{
    if s.len() == 0 {
        0
    } else {
        (digits_value(s.drop_last()) * 10 + (s.last() - 48)) as nat
    }
}

/// The decimal digits of `n` without leading zeros; zero is `0`.
pub open spec fn decimal_digits(n: nat) -> Seq<u8>
    decreases n,
{
    if n < 10 {
        seq![(48 + n) as u8]
    } else {
        decimal_digits(n / 10).push((48 + n % 10) as u8)
    }
}

/// A nonempty digit string without a needless leading zero.
pub open spec fn is_canonical(s: Seq<u8>) -> bool {
    &&& s.len() > 0
    &&& all_digits(s)
    &&& (s.len() == 1 || s[0] != 48)
}

/// The decimal text of an integer: a minus sign before the digits of a
/// negative number, and nothing before the others.
pub open spec fn int_text(v: int) -> Seq<u8> {
    if v < 0 {
        seq![45u8] + decimal_digits((-v) as nat)
    } else {
        decimal_digits(v as nat)
    }
}

/// The integer that signed decimal text denotes.
pub open spec fn text_value(s: Seq<u8>) -> int {
    if s.len() > 0 && s[0] == 45 {
        -(digits_value(s.skip(1)) as int)
    } else {
        digits_value(s) as int
    }
}

/// `s` is the decimal text of some integer.
pub open spec fn is_int_text(s: Seq<u8>) -> bool {
    s == int_text(text_value(s))
}

/// `k` zeros.
pub open spec fn zeros(k: nat) -> Seq<u8> {
    Seq::new(k, |i: int| 48u8)
}

/// Ten to the power `k`.
pub open spec fn pow10(k: nat) -> nat {
    pow(10, k) as nat
}

pub proof fn lemma_pow10_step(k: nat)
    ensures
        pow10(0) == 1,
        pow10(k + 1) == pow10(k) * 10,
        pow10(k) > 0,
{
    vstd::arithmetic::power::lemma_pow0(10);
    vstd::arithmetic::power::lemma_pow_positive(10, k);
    vstd::arithmetic::power::lemma_pow_positive(10, k + 1);
    reveal(pow);
    assert(pow(10, k + 1) == 10 * pow(10, k));
}

/// A digit string is below ten to the power of its length.
pub proof fn lemma_digits_value_bound(s: Seq<u8>)
    requires
        all_digits(s),
    ensures
        digits_value(s) < pow10(s.len()),
    decreases s.len(),
{
    if s.len() == 0 {
        lemma_pow10_step(0);
    } else {
        let p = s.drop_last();
        lemma_digits_value_bound(p);
        lemma_pow10_step(p.len());
        assert(is_digit(s[s.len() - 1]));
    }
}

/// Appending one digit multiplies by ten and adds the digit.
pub proof fn lemma_digits_value_push(s: Seq<u8>, d: u8)
    ensures
        digits_value(s.push(d)) == (digits_value(s) * 10 + (d - 48)) as nat,
{
    assert(s.push(d).drop_last() =~= s);
}

/// The value of two digit strings put together.
pub proof fn lemma_digits_value_concat(a: Seq<u8>, b: Seq<u8>)
    requires
        all_digits(a),
        all_digits(b),
    ensures
        digits_value(a + b) == digits_value(a) * pow10(b.len()) + digits_value(b),
    decreases b.len(),
{
    if b.len() == 0 {
        assert(a + b =~= a);
        lemma_pow10_step(0);
        assert(digits_value(b) == 0);
        assert(digits_value(a) * pow10(0) == digits_value(a)) by (nonlinear_arith)
            requires
                pow10(0) == 1,
        ;
    } else {
        let bp = b.drop_last();
        assert((a + b).drop_last() =~= a + bp);
        assert((a + b).last() == b.last());
        assert forall|i: int| 0 <= i < bp.len() implies is_digit(#[trigger] bp[i]) by {
            assert(bp[i] == b[i]);
        }
        lemma_digits_value_concat(a, bp);
        lemma_pow10_step(bp.len());
        assert(is_digit(b[b.len() - 1]));
        let x = digits_value(a) as int;
        let y = digits_value(bp) as int;
        let p = pow10(bp.len()) as int;
        assert(pow10(b.len()) == p * 10);
        assert(digits_value(a + b) == (x * p + y) * 10 + (b.last() - 48));
        assert(digits_value(b) == y * 10 + (b.last() - 48));
        assert((x * p + y) * 10 == x * (p * 10) + y * 10) by (nonlinear_arith);
        assert(digits_value(a) * pow10(b.len()) == x * (p * 10));
    }
}

/// A string of zeros denotes zero.
pub proof fn lemma_zeros_value(k: nat)
    ensures
        all_digits(zeros(k)),
        digits_value(zeros(k)) == 0,
    decreases k,
{
    if k > 0 {
        lemma_zeros_value((k - 1) as nat);
        assert(zeros(k).drop_last() =~= zeros((k - 1) as nat));
    }
}

/// Zeros in front of a digit string do not change its value.
pub proof fn lemma_leading_zeros(k: nat, s: Seq<u8>)
    requires
        all_digits(s),
    ensures
        digits_value(zeros(k) + s) == digits_value(s),
{
    lemma_zeros_value(k);
    lemma_digits_value_concat(zeros(k), s);
    assert(0 * pow10(s.len()) == 0);
}

/// Zeros behind a digit string multiply its value by a power of ten.
pub proof fn lemma_trailing_zeros(s: Seq<u8>, k: nat)
    requires
        all_digits(s),
    ensures
        digits_value(s + zeros(k)) == digits_value(s) * pow10(k),
{
    lemma_zeros_value(k);
    lemma_digits_value_concat(s, zeros(k));
}

/// The digits of a number are canonical and denote the number.
pub proof fn lemma_decimal_digits(n: nat)
    ensures
        is_canonical(decimal_digits(n)),
        digits_value(decimal_digits(n)) == n,
        n > 0 ==> decimal_digits(n)[0] != 48,
    decreases n,
{
    if n < 10 {
        let s = decimal_digits(n);
        assert(s.drop_last() =~= Seq::<u8>::empty());
        assert(digits_value(s.drop_last()) == 0);
    } else {
        lemma_decimal_digits(n / 10);
        let p = decimal_digits(n / 10);
        let d = (48 + n % 10) as u8;
        lemma_digits_value_push(p, d);
        let s = p.push(d);
        assert forall|i: int| 0 <= i < s.len() implies is_digit(#[trigger] s[i]) by {
            if i < p.len() {
                assert(s[i] == p[i]);
            }
        }
        assert(s[0] == p[0]);
    }
}

/// Canonical digits are the digits of their value: no number has two
/// canonical spellings.
pub proof fn lemma_canonical_digits(s: Seq<u8>)
    requires
        is_canonical(s),
    ensures
        decimal_digits(digits_value(s)) == s,
    decreases s.len(),
{
    let n = digits_value(s);
    let p = s.drop_last();
    assert(is_digit(s[s.len() - 1]));
    if s.len() == 1 {
        assert(p =~= Seq::<u8>::empty());
        assert(digits_value(p) == 0);
        assert(decimal_digits(n) =~= s);
    } else {
        assert(is_canonical(p)) by {
            assert forall|i: int| 0 <= i < p.len() implies is_digit(#[trigger] p[i]) by {
                assert(p[i] == s[i]);
            }
            assert(p[0] == s[0]);
        }
        lemma_canonical_digits(p);
        lemma_decimal_digits(digits_value(p));
        // a canonical string of two or more digits denotes ten or more
        assert(digits_value(p) > 0) by {
            lemma_canonical_positive(p);
        }
        assert(n / 10 == digits_value(p));
        assert(n % 10 == s.last() - 48);
        assert(decimal_digits(n) =~= s);
    }
}

/// A canonical digit string that does not start with `0` denotes a positive
/// number.
pub proof fn lemma_canonical_positive(s: Seq<u8>)
    requires
        s.len() > 0,
        all_digits(s),
        s[0] != 48,
    ensures
        digits_value(s) > 0,
    decreases s.len(),
{
    assert(is_digit(s[0]));
    if s.len() == 1 {
        assert(s.drop_last() =~= Seq::<u8>::empty());
        assert(digits_value(s.drop_last()) == 0);
    } else {
        let p = s.drop_last();
        assert(p[0] == s[0]);
        assert forall|i: int| 0 <= i < p.len() implies is_digit(#[trigger] p[i]) by {
            assert(p[i] == s[i]);
        }
        lemma_canonical_positive(p);
        assert(is_digit(s[s.len() - 1]));
    }
}

/// The text of an integer is integer text and denotes the integer.
pub proof fn lemma_int_text(v: int)
    ensures
        text_value(int_text(v)) == v,
        is_int_text(int_text(v)),
        int_text(v).len() > 0,
        v < 0 <==> int_text(v)[0] == 45,
{
    if v < 0 {
        let d = decimal_digits((-v) as nat);
        lemma_decimal_digits((-v) as nat);
        assert(int_text(v).skip(1) =~= d);
    } else {
        lemma_decimal_digits(v as nat);
        assert(is_digit(decimal_digits(v as nat)[0]));
    }
}

} // verus!
