//! Integers of any size, kept as canonical decimal text.
use vstd::prelude::*;
use num::BigInt;
use crate::digits::{
    all_digits, decimal_digits, digits_value, int_text, is_canonical, is_digit, is_int_text,
    lemma_canonical_digits, lemma_canonical_positive, lemma_decimal_digits,
    lemma_digits_value_concat, lemma_int_text, lemma_leading_zeros, lemma_pow10_step, pow10,
    text_value, zeros, MINUS, ZERO,
};

verus! {

/// The value of one digit character in a radix up to 36, or 255 where the
/// byte is no digit at all.
pub open spec fn radix_digit_value(b: u8) -> int {
    if 48 <= b <= 57 {
        b - 48
    } else if 97 <= b <= 122 {
        b - 97 + 10
    } else if 65 <= b <= 90 {
        b - 65 + 10
    } else {
        255
    }
}

/// Every byte of `s` is a digit of the radix.
pub open spec fn all_radix_digits(s: Seq<u8>, radix: int) -> bool {
    forall|i: int| 0 <= i < s.len() ==> radix_digit_value(#[trigger] s[i]) < radix
}

/// The number that a digit string denotes in the given radix.
pub open spec fn radix_value(s: Seq<u8>, radix: int) -> nat
    decreases s.len(),
{
    if s.len() == 0 {
        0
    } else {
        (radix_value(s.drop_last(), radix) * radix + radix_digit_value(s.last())) as nat
    }
}

/// In radix ten, the radix value is the decimal value.
pub proof fn lemma_radix_ten(s: Seq<u8>)
    requires
        all_digits(s),
    ensures
        all_radix_digits(s, 10),
        radix_value(s, 10) == digits_value(s),
    decreases s.len(),
{
    if s.len() > 0 {
        let p = s.drop_last();
        assert forall|i: int| 0 <= i < p.len() implies is_digit(#[trigger] p[i]) by {
            assert(p[i] == s[i]);
        }
        lemma_radix_ten(p);
        assert(is_digit(s[s.len() - 1]));
    }
    assert forall|i: int| 0 <= i < s.len() implies radix_digit_value(#[trigger] s[i]) < 10 by {
        assert(is_digit(s[i]));
    }
}

/// `v`, or its negation where `negative` is set.
pub open spec fn signed(negative: bool, v: int) -> int {
    if negative {
        -v
    } else {
        v
    }
}

/// Division that rounds towards zero.
pub open spec fn truncated_quotient(a: int, b: int) -> int {
    if a >= 0 && b > 0 {
        a / b
    } else if a >= 0 {
        -(a / (-b))
    } else if b > 0 {
        -((-a) / b)
    } else {
        (-a) / (-b)
    }
}

/// What is left of `a` after division by `b` that rounds towards zero; it has
/// the sign of `a`.
pub open spec fn truncated_remainder(a: int, b: int) -> int {
    a - b * truncated_quotient(a, b)
}

/// Calls `num::BigInt::parse_bytes` on the digits and hands back the decimal
/// text that `BigInt` prints. For a nonempty string of digits of a radix from
/// 2 to 36 the call succeeds, and the text printed is that of the number the
/// digits denote, without sign or leading zeros.
#[verifier::external_body]
fn big_from_radix(digits: &Vec<u8>, radix: u32) -> (r: Vec<u8>)
    requires
        2 <= radix <= 36,
        digits@.len() > 0,
        all_radix_digits(digits@, radix as int),
    ensures
        r@ == decimal_digits(radix_value(digits@, radix as int)),
{
    BigInt::parse_bytes(digits, radix).unwrap().to_string().into_bytes()
}

/// Adds with `num::BigInt`'s `+`: both texts are read as integers and the
/// text of their sum is handed back.
#[verifier::external_body]
fn big_sum(a: &Vec<u8>, b: &Vec<u8>) -> (r: Vec<u8>)
    requires
        is_int_text(a@),
        is_int_text(b@),
    ensures
        r@ == int_text(text_value(a@) + text_value(b@)),
{
    let x = BigInt::parse_bytes(a, 10).unwrap();
    let y = BigInt::parse_bytes(b, 10).unwrap();
    (x + y).to_string().into_bytes()
}

/// Subtracts with `num::BigInt`'s `-`.
#[verifier::external_body]
fn big_difference(a: &Vec<u8>, b: &Vec<u8>) -> (r: Vec<u8>)
    requires
        is_int_text(a@),
        is_int_text(b@),
    ensures
        r@ == int_text(text_value(a@) - text_value(b@)),
{
    let x = BigInt::parse_bytes(a, 10).unwrap();
    let y = BigInt::parse_bytes(b, 10).unwrap();
    (x - y).to_string().into_bytes()
}

/// Multiplies with `num::BigInt`'s `*`.
#[verifier::external_body]
fn big_product(a: &Vec<u8>, b: &Vec<u8>) -> (r: Vec<u8>)
    requires
        is_int_text(a@),
        is_int_text(b@),
    ensures
        r@ == int_text(text_value(a@) * text_value(b@)),
{
    let x = BigInt::parse_bytes(a, 10).unwrap();
    let y = BigInt::parse_bytes(b, 10).unwrap();
    (x * y).to_string().into_bytes()
}

/// Divides with `num::BigInt`'s `/`, which rounds towards zero and panics
/// on a zero divisor.
#[verifier::external_body]
fn big_quotient(a: &Vec<u8>, b: &Vec<u8>) -> (r: Vec<u8>)
    requires
        is_int_text(a@),
        is_int_text(b@),
        text_value(b@) != 0,
    ensures
        r@ == int_text(truncated_quotient(text_value(a@), text_value(b@))),
{
    let x = BigInt::parse_bytes(a, 10).unwrap();
    let y = BigInt::parse_bytes(b, 10).unwrap();
    (x / y).to_string().into_bytes()
}

/// Takes the remainder with `num::BigInt`'s `%`, which goes with the
/// division that rounds towards zero and panics on a zero divisor.
#[verifier::external_body]
fn big_remainder(a: &Vec<u8>, b: &Vec<u8>) -> (r: Vec<u8>)
    requires
        is_int_text(a@),
        is_int_text(b@),
        text_value(b@) != 0,
    ensures
        r@ == int_text(truncated_remainder(text_value(a@), text_value(b@))),
{
    let x = BigInt::parse_bytes(a, 10).unwrap();
    let y = BigInt::parse_bytes(b, 10).unwrap();
    (x % y).to_string().into_bytes()
}

/// An integer of any size.
///
/// The value is held as its decimal text: that is what the reader receives
/// and the printer emits, and arithmetic reads the text back in.
#[derive(Debug)]
pub struct Integer {
    text: Vec<u8>,
}

impl View for Integer {
    type V = int;

    closed spec fn view(&self) -> int {
        text_value(self.text@)
    }
}

impl Integer {
    #[verifier::type_invariant]
    closed spec fn inv(&self) -> bool {
        is_int_text(self.text@)
    }

    /// Zero.
    pub fn zero() -> (r: Integer)
        ensures
            r@ == 0,
    {
        let mut text: Vec<u8> = Vec::new();
        text.push(ZERO);
        proof {
            lemma_int_text(0);
            assert(text@ =~= int_text(0));
        }
        Integer { text }
    }

    /// The integer whose decimal text is `text`.
    pub fn from_text(text: Vec<u8>) -> (r: Integer)
        requires
            is_int_text(text@),
        ensures
            r@ == text_value(text@),
    {
        Integer { text }
    }

    /// The decimal text of the value.
    pub fn digits(&self) -> (r: &Vec<u8>)
        ensures
            r@ == int_text(self@),
    {
        proof {
            use_type_invariant(self);
        }
        &self.text
    }

    /// A copy of the value.
    pub fn duplicate(&self) -> (r: Integer)
        ensures
            r@ == self@,
    {
        proof {
            use_type_invariant(self);
        }
        Integer { text: self.text.clone() }
    }

    /// The integer that a string of decimal digits denotes, negated where
    /// `negative` is set. Leading zeros are accepted.
    pub fn from_digits(negative: bool, digits: &Vec<u8>) -> (r: Integer)
        requires
            all_digits(digits@),
        ensures
            r@ == signed(negative, digits_value(digits@) as int),
    {
        let n: usize = digits.len();
        let mut start: usize = 0;
        while start < n && digits[start] == ZERO
            invariant
                start <= n,
                n == digits@.len(),
                forall|i: int| 0 <= i < start ==> digits@[i] == 48,
            decreases n - start,
        {
            start += 1;
        }
        let ghost value = digits_value(digits@);
        let ghost rest = digits@.skip(start as int);
        proof {
            assert(digits@ =~= zeros(start as nat) + rest);
            assert forall|i: int| 0 <= i < rest.len() implies is_digit(#[trigger] rest[i]) by {
                assert(rest[i] == digits@[start + i]);
            }
            lemma_leading_zeros(start as nat, rest);
            assert(digits_value(rest) == value);
        }
        if start == n {
            proof {
                assert(rest =~= Seq::<u8>::empty());
            }
            return Integer::zero();
        }
        let mut text: Vec<u8> = Vec::new();
        if negative {
            text.push(MINUS);
        }
        let ghost head = text@;
        let mut i: usize = start;
        while i < n
            invariant
                start <= i <= n,
                n == digits@.len(),
                text@ == head + digits@.subrange(start as int, i as int),
            decreases n - i,
        {
            text.push(digits[i]);
            proof {
                assert(digits@.subrange(start as int, i + 1) =~= digits@.subrange(
                    start as int,
                    i as int,
                ).push(digits@[i as int]));
                assert(text@ =~= head + digits@.subrange(start as int, i + 1));
            }
            i += 1;
        }
        proof {
            assert(digits@.subrange(start as int, n as int) =~= rest);
            assert(is_canonical(rest));
            lemma_canonical_digits(rest);
            lemma_canonical_positive(rest);
            let v = signed(negative, value as int);
            if negative {
                assert(text@ =~= int_text(v));
            } else {
                assert(text@ =~= int_text(v));
            }
            lemma_int_text(v);
        }
        Integer { text }
    }

    /// The integer that a nonempty string of digits denotes in a radix from
    /// 2 to 36, negated where `negative` is set.
    pub fn from_radix_digits(negative: bool, digits: &Vec<u8>, radix: u32) -> (r: Integer)
        requires
            2 <= radix <= 36,
            digits@.len() > 0,
            all_radix_digits(digits@, radix as int),
        ensures
            r@ == signed(negative, radix_value(digits@, radix as int) as int),
    {
        let magnitude = big_from_radix(digits, radix);
        proof {
            lemma_decimal_digits(radix_value(digits@, radix as int));
        }
        Integer::from_digits(negative, &magnitude)
    }

    /// The integer equal to `v`.
    pub fn from_u64(v: u64) -> (r: Integer)
        ensures
            r@ == v,
    {
        let mut reversed: Vec<u8> = Vec::new();
        let mut rest: u64 = v;
        reversed.push(ZERO + (rest % 10) as u8);
        rest = rest / 10;
        proof {
            let first = seq![(48 + (v % 10)) as u8];
            assert(reversed@.reverse() =~= first);
            assert(first.drop_last() =~= Seq::<u8>::empty());
            assert(digits_value(first.drop_last()) == 0);
            assert(digits_value(first) == v % 10);
            lemma_pow10_step(0);
        }
        while rest > 0
            invariant
                all_digits(reversed@.reverse()),
                v == rest * pow10(reversed@.len()) + digits_value(reversed@.reverse()),
                reversed@.len() > 0,
            decreases rest,
        {
            let d: u8 = ZERO + (rest % 10) as u8;
            proof {
                let old_rev = reversed@.reverse();
                let new_rev = reversed@.push(d).reverse();
                assert(new_rev =~= seq![d] + old_rev);
                assert(all_digits(seq![d]));
                lemma_digits_value_concat(seq![d], old_rev);
                assert(seq![d].drop_last() =~= Seq::<u8>::empty());
                assert(digits_value(seq![d].drop_last()) == 0);
                assert(digits_value(seq![d]) == rest % 10);
                lemma_pow10_step(reversed@.len());
                let p = pow10(reversed@.len()) as int;
                let q = (rest / 10) as int;
                let m = (rest % 10) as int;
                assert((q * 10 + m) * p == q * (p * 10) + m * p) by (nonlinear_arith);
                assert forall|i: int| 0 <= i < new_rev.len() implies is_digit(#[trigger] new_rev[i]) by {
                    if i > 0 {
                        assert(new_rev[i] == old_rev[i - 1]);
                    }
                }
            }
            reversed.push(d);
            rest = rest / 10;
        }
        let mut digits: Vec<u8> = Vec::new();
        let mut i: usize = reversed.len();
        while i > 0
            invariant
                i <= reversed@.len(),
                digits@ == reversed@.reverse().take(reversed@.len() - i),
            decreases i,
        {
            i -= 1;
            digits.push(reversed[i]);
            proof {
                assert(digits@ =~= reversed@.reverse().take(reversed@.len() - i));
            }
        }
        proof {
            assert(digits@ =~= reversed@.reverse());
            lemma_pow10_step(reversed@.len());
        }
        Integer::from_digits(false, &digits)
    }

    /// The integer equal to `v`.
    pub fn from_i64(v: i64) -> (r: Integer)
        ensures
            r@ == v,
    {
        if v >= 0 {
            Integer::from_u64(v as u64)
        } else {
            let magnitude: u64 = ((-(v + 1)) as u64) + 1;
            Integer::from_u64(magnitude).neg()
        }
    }

    /// Whether the value is zero.
    pub fn is_zero(&self) -> (r: bool)
        ensures
            r == (self@ == 0),
    {
        proof {
            use_type_invariant(self);
            lemma_int_text(self@);
            if self@ > 0 {
                lemma_decimal_digits(self@ as nat);
            }
        }
        self.text[0] == ZERO
    }

    /// Whether the value is below zero.
    pub fn is_negative(&self) -> (r: bool)
        ensures
            r == (self@ < 0),
    {
        proof {
            use_type_invariant(self);
            lemma_int_text(self@);
        }
        self.text[0] == MINUS
    }

    /// The negation.
    pub fn neg(&self) -> (r: Integer)
        ensures
            r@ == -self@,
    {
        proof {
            use_type_invariant(self);
            lemma_int_text(self@);
            lemma_int_text(-self@);
        }
        if self.is_zero() {
            return self.duplicate();
        }
        let mut text: Vec<u8> = Vec::new();
        let mut i: usize = 0;
        if self.is_negative() {
            i = 1;
        } else {
            text.push(MINUS);
        }
        let ghost head = text@;
        let ghost first = i;
        while i < self.text.len()
            invariant
                first <= i <= self.text@.len(),
                text@ == head + self.text@.subrange(first as int, i as int),
            decreases self.text@.len() - i,
        {
            text.push(self.text[i]);
            proof {
                assert(text@ =~= head + self.text@.subrange(first as int, i + 1));
            }
            i += 1;
        }
        proof {
            if self@ < 0 {
                assert(self.text@.subrange(1, self.text@.len() as int) =~= self.text@.skip(1));
                assert(self.text@.skip(1) =~= decimal_digits((-self@) as nat));
                assert(text@ =~= int_text(-self@));
            } else {
                assert(self.text@.subrange(0, self.text@.len() as int) =~= self.text@);
                assert(text@ =~= int_text(-self@));
            }
        }
        Integer { text }
    }

    /// The sum.
    pub fn add(&self, other: &Integer) -> (r: Integer)
        ensures
            r@ == self@ + other@,
    {
        proof {
            use_type_invariant(self);
            use_type_invariant(other);
            lemma_int_text(self@ + other@);
        }
        Integer { text: big_sum(&self.text, &other.text) }
    }

    /// The difference.
    pub fn sub(&self, other: &Integer) -> (r: Integer)
        ensures
            r@ == self@ - other@,
    {
        proof {
            use_type_invariant(self);
            use_type_invariant(other);
            lemma_int_text(self@ - other@);
        }
        Integer { text: big_difference(&self.text, &other.text) }
    }

    /// The product.
    pub fn mul(&self, other: &Integer) -> (r: Integer)
        ensures
            r@ == self@ * other@,
    {
        proof {
            use_type_invariant(self);
            use_type_invariant(other);
            lemma_int_text(self@ * other@);
        }
        Integer { text: big_product(&self.text, &other.text) }
    }

    /// The quotient, rounded towards zero.
    pub fn div(&self, other: &Integer) -> (r: Integer)
        requires
            other@ != 0,
        ensures
            r@ == truncated_quotient(self@, other@),
    {
        proof {
            use_type_invariant(self);
            use_type_invariant(other);
            lemma_int_text(truncated_quotient(self@, other@));
        }
        Integer { text: big_quotient(&self.text, &other.text) }
    }

    /// The remainder of the division that rounds towards zero.
    pub fn rem(&self, other: &Integer) -> (r: Integer)
        requires
            other@ != 0,
        ensures
            r@ == truncated_remainder(self@, other@),
    {
        proof {
            use_type_invariant(self);
            use_type_invariant(other);
            lemma_int_text(truncated_remainder(self@, other@));
        }
        Integer { text: big_remainder(&self.text, &other.text) }
    }

    /// Whether the two values are the same number.
    pub fn equals(&self, other: &Integer) -> (r: bool)
        ensures
            r == (self@ == other@),
    {
        proof {
            use_type_invariant(self);
            use_type_invariant(other);
        }
        bytes_equal(&self.text, &other.text)
    }

    /// The value as a 64-bit integer, where it is one.
    pub fn to_i64(&self) -> (r: Option<i64>)
        ensures
            r is Some <==> i64::MIN <= self@ <= i64::MAX,
            r matches Some(v) ==> v == self@,
    {
        proof {
            use_type_invariant(self);
            lemma_int_text(self@);
        }
        let negative = self.is_negative();
        let first: usize = if negative { 1 } else { 0 };
        let n: usize = self.text.len();
        let ghost magnitude = self.text@.skip(first as int);
        let ghost m = if self@ < 0 { (-self@) as nat } else { self@ as nat };
        proof {
            lemma_decimal_digits(m);
            assert(magnitude =~= decimal_digits(m));
            lemma_pow10_values();
        }
        if n - first > 19 {
            proof {
                let head = magnitude.take(1);
                let tail = magnitude.skip(1);
                assert(magnitude =~= head + tail);
                assert(all_digits(head));
                assert forall|i: int| 0 <= i < tail.len() implies is_digit(#[trigger] tail[i]) by {
                    assert(tail[i] == magnitude[i + 1]);
                }
                lemma_digits_value_concat(head, tail);
                lemma_canonical_positive(head);
                lemma_pow10_at_least(tail.len(), 19);
                assert(digits_value(head) * pow10(tail.len()) >= pow10(tail.len())) by (nonlinear_arith)
                    requires
                        digits_value(head) >= 1,
                ;
            }
            return None;
        }
        let mut value: u64 = 0;
        let mut i: usize = first;
        proof {
            lemma_pow10_step(0);
            assert(magnitude.take(0) =~= Seq::<u8>::empty());
        }
        while i < n
            invariant
                first <= i <= n,
                n == self.text@.len(),
                n - first <= 19,
                magnitude == self.text@.skip(first as int),
                all_digits(magnitude),
                value == digits_value(magnitude.take(i - first)),
                value < pow10((i - first) as nat),
            decreases n - i,
        {
            proof {
                assert(is_digit(magnitude[i - first]));
                assert(magnitude[i - first] == self.text@[i as int]);
                assert(magnitude.take(i - first + 1).drop_last() =~= magnitude.take(i - first));
                lemma_pow10_step((i - first) as nat);
                lemma_pow10_at_most((i - first + 1) as nat, 19);
                lemma_pow10_values();
            }
            value = value * 10 + (self.text[i] - ZERO) as u64;
            i += 1;
        }
        proof {
            assert(magnitude.take(n - first) =~= magnitude);
        }
        if negative {
            if value <= 0x8000_0000_0000_0000 {
                if value == 0x8000_0000_0000_0000 {
                    Some(i64::MIN)
                } else {
                    Some(-(value as i64))
                }
            } else {
                None
            }
        } else {
            if value <= 0x7fff_ffff_ffff_ffff {
                Some(value as i64)
            } else {
                None
            }
        }
    }

    /// The value as a byte, where it is one.
    pub fn to_u8(&self) -> (r: Option<u8>)
        ensures
            r is Some <==> 0 <= self@ <= 255,
            r matches Some(b) ==> b == self@,
    {
        proof {
            use_type_invariant(self);
            lemma_int_text(self@);
        }
        if self.is_negative() || self.text.len() > 3 {
            proof {
                if self@ >= 0 {
                    let s = self.text@;
                    lemma_decimal_digits(self@ as nat);
                    // four canonical digits or more denote a thousand or more
                    let head = s.take(1);
                    let tail = s.skip(1);
                    assert(s =~= head + tail);
                    assert(all_digits(head));
                    assert(all_digits(tail)) by {
                        assert forall|i: int| 0 <= i < tail.len() implies is_digit(
                            #[trigger] tail[i],
                        ) by {
                            assert(tail[i] == s[i + 1]);
                        }
                    }
                    lemma_digits_value_concat(head, tail);
                    lemma_canonical_positive(head);
                    lemma_pow10_at_least(tail.len(), 3);
                    assert(digits_value(head) * pow10(tail.len()) >= pow10(tail.len())) by (nonlinear_arith)
                        requires
                            digits_value(head) >= 1,
                    ;
                }
            }
            return None;
        }
        let mut value: u16 = 0;
        let mut i: usize = 0;
        proof {
            lemma_decimal_digits(self@ as nat);
            lemma_pow10_step(0);
            assert(self.text@.take(0) =~= Seq::<u8>::empty());
        }
        while i < self.text.len()
            invariant
                i <= self.text@.len() <= 3,
                self@ >= 0,
                self.text@ == int_text(self@),
                value == digits_value(self.text@.take(i as int)),
                value < pow10(i as nat),
                all_digits(self.text@),
            decreases self.text@.len() - i,
        {
            proof {
                assert(is_digit(self.text@[i as int]));
                assert(self.text@.take(i + 1).drop_last() =~= self.text@.take(i as int));
                lemma_pow10_step(i as nat);
                lemma_pow10_at_most(i as nat, 3);
            }
            value = value * 10 + (self.text[i] - ZERO) as u16;
            i += 1;
        }
        proof {
            assert(self.text@.take(i as int) =~= self.text@);
        }
        if value <= 255 {
            Some(value as u8)
        } else {
            None
        }
    }
}

impl Clone for Integer {
    fn clone(&self) -> (r: Integer)
        ensures
            r@ == self@,
    {
        self.duplicate()
    }
}

/// Whether two byte strings are the same.
pub fn bytes_equal(a: &Vec<u8>, b: &Vec<u8>) -> (r: bool)
    ensures
        r == (a@ == b@),
{
    if a.len() != b.len() {
        return false;
    }
    let mut i: usize = 0;
    while i < a.len()
        invariant
            i <= a@.len(),
            a@.len() == b@.len(),
            forall|j: int| 0 <= j < i ==> a@[j] == b@[j],
        decreases a@.len() - i,
    {
        if a[i] != b[i] {
            return false;
        }
        i += 1;
    }
    assert(a@ =~= b@);
    true
}

/// The power of ten with nineteen zeros, which no 64-bit signed integer
/// reaches.
pub proof fn lemma_pow10_values()
    ensures
        pow10(19) == 10_000_000_000_000_000_000,
{
    lemma_pow10_step(0);
    lemma_pow10_step(1);
    lemma_pow10_step(2);
    lemma_pow10_step(3);
    lemma_pow10_step(4);
    lemma_pow10_step(5);
    lemma_pow10_step(6);
    lemma_pow10_step(7);
    lemma_pow10_step(8);
    lemma_pow10_step(9);
    lemma_pow10_step(10);
    lemma_pow10_step(11);
    lemma_pow10_step(12);
    lemma_pow10_step(13);
    lemma_pow10_step(14);
    lemma_pow10_step(15);
    lemma_pow10_step(16);
    lemma_pow10_step(17);
    lemma_pow10_step(18);
}

/// Powers of ten grow with the exponent.
pub proof fn lemma_pow10_at_least(k: nat, low: nat)
    requires
        low <= k,
    ensures
        pow10(low) <= pow10(k),
        pow10(3) == 1000,
    decreases k,
{
    lemma_pow10_step(0);
    lemma_pow10_step(1);
    lemma_pow10_step(2);
    if k > low {
        lemma_pow10_at_least((k - 1) as nat, low);
        lemma_pow10_step((k - 1) as nat);
    }
}

/// Powers of ten up to a limit stay below that of the limit.
pub proof fn lemma_pow10_at_most(k: nat, high: nat)
    requires
        k <= high,
    ensures
        pow10(k) <= pow10(high),
        pow10(3) == 1000,
{
    lemma_pow10_at_least(high, k);
    lemma_pow10_at_least(3, 3);
}

} // verus!
