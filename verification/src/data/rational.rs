//! Exact fractions of integers of any size.
use vstd::prelude::*;
use num::BigInt;
use num::BigRational;
use crate::digits::{is_int_text, lemma_int_text, text_value};
use crate::data::integer::{truncated_remainder, Integer};

verus! {

/// The fraction `n / d` is in lowest terms with a positive denominator.
pub open spec fn is_reduced(n: int, d: int) -> bool {
    &&& d > 0
    &&& forall|k: int| k > 1 ==> !(#[trigger] (n % k) == 0 && d % k == 0)
}

/// `rn / rd` is the fraction `n / d` in lowest terms.
pub open spec fn is_lowest_terms_of(rn: int, rd: int, n: int, d: int) -> bool {
    &&& is_reduced(rn, rd)
    &&& rn * d == n * rd
}

/// The fraction `n / d` in lowest terms with a positive denominator. There
/// is one such fraction for every `d` but zero.
pub open spec fn lowest_terms(n: int, d: int) -> (int, int) {
    choose|r: (int, int)| is_lowest_terms_of(r.0, r.1, n, d)
}

/// An integer over one is in lowest terms.
pub proof fn lemma_over_one_is_reduced(n: int)
    ensures
        is_reduced(n, 1),
{
    assert forall|k: int| k > 1 implies !(#[trigger] (n % k) == 0 && 1int % k == 0) by {
        vstd::arithmetic::div_mod::lemma_small_mod(1, k as nat);
    }
}

/// Builds a fraction with `num::BigRational::new`, which brings it to lowest
/// terms with a positive denominator and panics on a zero denominator. The
/// two texts handed back are those of the numerator and the denominator.
#[verifier::external_body]
fn big_ratio(n: &Vec<u8>, d: &Vec<u8>) -> (r: (Vec<u8>, Vec<u8>))
    requires
        is_int_text(n@),
        is_int_text(d@),
        text_value(d@) != 0,
    ensures
        is_int_text(r.0@),
        is_int_text(r.1@),
        is_lowest_terms_of(text_value(r.0@), text_value(r.1@), text_value(n@), text_value(d@)),
{
    let x = BigRational::new(BigInt::parse_bytes(n, 10).unwrap(), BigInt::parse_bytes(d, 10).unwrap());
    (x.numer().to_string().into_bytes(), x.denom().to_string().into_bytes())
}

/// Adds two fractions in lowest terms with `num::BigRational`'s `+`; the
/// sum comes back in lowest terms.
#[verifier::external_body]
fn big_ratio_sum(an: &Vec<u8>, ad: &Vec<u8>, bn: &Vec<u8>, bd: &Vec<u8>) -> (r: (Vec<u8>, Vec<u8>))
    requires
        is_int_text(an@),
        is_int_text(ad@),
        is_int_text(bn@),
        is_int_text(bd@),
        is_reduced(text_value(an@), text_value(ad@)),
        is_reduced(text_value(bn@), text_value(bd@)),
    ensures
        is_int_text(r.0@),
        is_int_text(r.1@),
        is_lowest_terms_of(
            text_value(r.0@),
            text_value(r.1@),
            text_value(an@) * text_value(bd@) + text_value(bn@) * text_value(ad@),
            text_value(ad@) * text_value(bd@),
        ),
{
    let x = BigRational::new_raw(BigInt::parse_bytes(an, 10).unwrap(), BigInt::parse_bytes(ad, 10).unwrap());
    let y = BigRational::new_raw(BigInt::parse_bytes(bn, 10).unwrap(), BigInt::parse_bytes(bd, 10).unwrap());
    let z = x + y;
    (z.numer().to_string().into_bytes(), z.denom().to_string().into_bytes())
}

/// Subtracts with `num::BigRational`'s `-`.
#[verifier::external_body]
fn big_ratio_difference(an: &Vec<u8>, ad: &Vec<u8>, bn: &Vec<u8>, bd: &Vec<u8>) -> (r: (
    Vec<u8>,
    Vec<u8>,
))
    requires
        is_int_text(an@),
        is_int_text(ad@),
        is_int_text(bn@),
        is_int_text(bd@),
        is_reduced(text_value(an@), text_value(ad@)),
        is_reduced(text_value(bn@), text_value(bd@)),
    ensures
        is_int_text(r.0@),
        is_int_text(r.1@),
        is_lowest_terms_of(
            text_value(r.0@),
            text_value(r.1@),
            text_value(an@) * text_value(bd@) - text_value(bn@) * text_value(ad@),
            text_value(ad@) * text_value(bd@),
        ),
{
    let x = BigRational::new_raw(BigInt::parse_bytes(an, 10).unwrap(), BigInt::parse_bytes(ad, 10).unwrap());
    let y = BigRational::new_raw(BigInt::parse_bytes(bn, 10).unwrap(), BigInt::parse_bytes(bd, 10).unwrap());
    let z = x - y;
    (z.numer().to_string().into_bytes(), z.denom().to_string().into_bytes())
}

/// Multiplies with `num::BigRational`'s `*`.
#[verifier::external_body]
fn big_ratio_product(an: &Vec<u8>, ad: &Vec<u8>, bn: &Vec<u8>, bd: &Vec<u8>) -> (r: (
    Vec<u8>,
    Vec<u8>,
))
    requires
        is_int_text(an@),
        is_int_text(ad@),
        is_int_text(bn@),
        is_int_text(bd@),
        is_reduced(text_value(an@), text_value(ad@)),
        is_reduced(text_value(bn@), text_value(bd@)),
    ensures
        is_int_text(r.0@),
        is_int_text(r.1@),
        is_lowest_terms_of(
            text_value(r.0@),
            text_value(r.1@),
            text_value(an@) * text_value(bn@),
            text_value(ad@) * text_value(bd@),
        ),
{
    let x = BigRational::new_raw(BigInt::parse_bytes(an, 10).unwrap(), BigInt::parse_bytes(ad, 10).unwrap());
    let y = BigRational::new_raw(BigInt::parse_bytes(bn, 10).unwrap(), BigInt::parse_bytes(bd, 10).unwrap());
    let z = x * y;
    (z.numer().to_string().into_bytes(), z.denom().to_string().into_bytes())
}

/// Divides with `num::BigRational`'s `/`, which panics on a zero divisor.
#[verifier::external_body]
fn big_ratio_quotient(an: &Vec<u8>, ad: &Vec<u8>, bn: &Vec<u8>, bd: &Vec<u8>) -> (r: (
    Vec<u8>,
    Vec<u8>,
))
    requires
        is_int_text(an@),
        is_int_text(ad@),
        is_int_text(bn@),
        is_int_text(bd@),
        is_reduced(text_value(an@), text_value(ad@)),
        is_reduced(text_value(bn@), text_value(bd@)),
        text_value(bn@) != 0,
    ensures
        is_int_text(r.0@),
        is_int_text(r.1@),
        is_lowest_terms_of(
            text_value(r.0@),
            text_value(r.1@),
            text_value(an@) * text_value(bd@),
            text_value(ad@) * text_value(bn@),
        ),
{
    let x = BigRational::new_raw(BigInt::parse_bytes(an, 10).unwrap(), BigInt::parse_bytes(ad, 10).unwrap());
    let y = BigRational::new_raw(BigInt::parse_bytes(bn, 10).unwrap(), BigInt::parse_bytes(bd, 10).unwrap());
    let z = x / y;
    (z.numer().to_string().into_bytes(), z.denom().to_string().into_bytes())
}

/// Takes the remainder with `num::BigRational`'s `%`: both fractions are
/// brought to a common denominator, and the numerators' remainder (of the
/// division that rounds towards zero) stands over it. A zero divisor panics.
#[verifier::external_body]
fn big_ratio_remainder(an: &Vec<u8>, ad: &Vec<u8>, bn: &Vec<u8>, bd: &Vec<u8>) -> (r: (
    Vec<u8>,
    Vec<u8>,
))
    requires
        is_int_text(an@),
        is_int_text(ad@),
        is_int_text(bn@),
        is_int_text(bd@),
        is_reduced(text_value(an@), text_value(ad@)),
        is_reduced(text_value(bn@), text_value(bd@)),
        text_value(bn@) != 0,
    ensures
        is_int_text(r.0@),
        is_int_text(r.1@),
        is_lowest_terms_of(
            text_value(r.0@),
            text_value(r.1@),
            truncated_remainder(
                text_value(an@) * text_value(bd@),
                text_value(bn@) * text_value(ad@),
            ),
            text_value(ad@) * text_value(bd@),
        ),
{
    let x = BigRational::new_raw(BigInt::parse_bytes(an, 10).unwrap(), BigInt::parse_bytes(ad, 10).unwrap());
    let y = BigRational::new_raw(BigInt::parse_bytes(bn, 10).unwrap(), BigInt::parse_bytes(bd, 10).unwrap());
    let z = x % y;
    (z.numer().to_string().into_bytes(), z.denom().to_string().into_bytes())
}

/// A fraction of two integers, in lowest terms with a positive denominator.
#[derive(Debug)]
pub struct Rational {
    numer: Integer,
    denom: Integer,
}

impl View for Rational {
    type V = (int, int);

    closed spec fn view(&self) -> (int, int) {
        (self.numer@, self.denom@)
    }
}

impl Rational {
    #[verifier::type_invariant]
    closed spec fn inv(&self) -> bool {
        is_reduced(self.numer@, self.denom@)
    }

    /// The numerator.
    pub fn numer(&self) -> (r: &Integer)
        ensures
            r@ == self@.0,
    {
        &self.numer
    }

    /// The denominator.
    pub fn denom(&self) -> (r: &Integer)
        ensures
            r@ == self@.1,
            r@ > 0,
            is_reduced(self@.0, self@.1),
    {
        proof {
            use_type_invariant(self);
        }
        &self.denom
    }

    /// A copy of the value.
    pub fn duplicate(&self) -> (r: Rational)
        ensures
            r@ == self@,
    {
        proof {
            use_type_invariant(self);
        }
        Rational { numer: self.numer.duplicate(), denom: self.denom.duplicate() }
    }

    fn from_texts(texts: (Vec<u8>, Vec<u8>)) -> (r: Rational)
        requires
            is_int_text(texts.0@),
            is_int_text(texts.1@),
            is_reduced(text_value(texts.0@), text_value(texts.1@)),
        ensures
            r@ == (text_value(texts.0@), text_value(texts.1@)),
    {
        let (n, d) = texts;
        let numer = Integer::from_text(n);
        let denom = Integer::from_text(d);
        Rational { numer, denom }
    }

    /// The fraction `n / d` in lowest terms.
    pub fn new(n: &Integer, d: &Integer) -> (r: Rational)
        requires
            d@ != 0,
        ensures
            is_lowest_terms_of(r@.0, r@.1, n@, d@),
            r@ == lowest_terms(n@, d@),
    {
        proof {
            lemma_int_text(n@);
            lemma_int_text(d@);
        }
        let texts = big_ratio(n.digits(), d.digits());
        proof {
            crate::data::divisors::lemma_lowest_terms(
                text_value(texts.0@),
                text_value(texts.1@),
                n@,
                d@,
            );
        }
        Rational::from_texts(texts)
    }

    /// The integer `n` as a fraction: `n / 1`.
    pub fn from_integer(n: &Integer) -> (r: Rational)
        ensures
            r@ == (n@, 1int),
    {
        proof {
            lemma_over_one_is_reduced(n@);
        }
        Rational { numer: n.duplicate(), denom: Integer::from_u64(1) }
    }

    /// Whether the value is zero.
    pub fn is_zero(&self) -> (r: bool)
        ensures
            r == (self@.0 == 0),
    {
        self.numer.is_zero()
    }

    /// The negation.
    pub fn neg(&self) -> (r: Rational)
        ensures
            r@ == (-self@.0, self@.1),
    {
        proof {
            use_type_invariant(self);
            let n = self@.0;
            let d = self@.1;
            assert forall|k: int| k > 1 implies !(#[trigger] ((-n) % k) == 0 && d % k == 0) by {
                if (-n) % k == 0 {
                    vstd::arithmetic::div_mod::lemma_fundamental_div_mod(-n, k);
                    let q = (-n) / k;
                    assert(-n == k * q);
                    assert(n == k * (-q)) by (nonlinear_arith)
                        requires
                            -n == k * q,
                    ;
                    vstd::arithmetic::div_mod::lemma_fundamental_div_mod_converse(n, k, -q, 0);
                    assert(n % k == 0);
                }
            }
        }
        Rational { numer: self.numer.neg(), denom: self.denom.duplicate() }
    }

    /// The sum, in lowest terms.
    pub fn add(&self, other: &Rational) -> (r: Rational)
        ensures
            is_lowest_terms_of(
                r@.0,
                r@.1,
                self@.0 * other@.1 + other@.0 * self@.1,
                self@.1 * other@.1,
            ),
    {
        proof {
            use_type_invariant(self);
            use_type_invariant(other);
            lemma_int_text(self@.0);
            lemma_int_text(self@.1);
            lemma_int_text(other@.0);
            lemma_int_text(other@.1);
        }
        Rational::from_texts(
            big_ratio_sum(
                self.numer.digits(),
                self.denom.digits(),
                other.numer.digits(),
                other.denom.digits(),
            ),
        )
    }

    /// The difference, in lowest terms.
    pub fn sub(&self, other: &Rational) -> (r: Rational)
        ensures
            is_lowest_terms_of(
                r@.0,
                r@.1,
                self@.0 * other@.1 - other@.0 * self@.1,
                self@.1 * other@.1,
            ),
    {
        proof {
            use_type_invariant(self);
            use_type_invariant(other);
            lemma_int_text(self@.0);
            lemma_int_text(self@.1);
            lemma_int_text(other@.0);
            lemma_int_text(other@.1);
        }
        Rational::from_texts(
            big_ratio_difference(
                self.numer.digits(),
                self.denom.digits(),
                other.numer.digits(),
                other.denom.digits(),
            ),
        )
    }

    /// The product, in lowest terms.
    pub fn mul(&self, other: &Rational) -> (r: Rational)
        ensures
            is_lowest_terms_of(r@.0, r@.1, self@.0 * other@.0, self@.1 * other@.1),
    {
        proof {
            use_type_invariant(self);
            use_type_invariant(other);
            lemma_int_text(self@.0);
            lemma_int_text(self@.1);
            lemma_int_text(other@.0);
            lemma_int_text(other@.1);
        }
        Rational::from_texts(
            big_ratio_product(
                self.numer.digits(),
                self.denom.digits(),
                other.numer.digits(),
                other.denom.digits(),
            ),
        )
    }

    /// The quotient, in lowest terms.
    pub fn div(&self, other: &Rational) -> (r: Rational)
        requires
            other@.0 != 0,
        ensures
            is_lowest_terms_of(r@.0, r@.1, self@.0 * other@.1, self@.1 * other@.0),
    {
        proof {
            use_type_invariant(self);
            use_type_invariant(other);
            lemma_int_text(self@.0);
            lemma_int_text(self@.1);
            lemma_int_text(other@.0);
            lemma_int_text(other@.1);
        }
        Rational::from_texts(
            big_ratio_quotient(
                self.numer.digits(),
                self.denom.digits(),
                other.numer.digits(),
                other.denom.digits(),
            ),
        )
    }

    /// The remainder of the division that rounds the quotient towards zero,
    /// in lowest terms.
    pub fn rem(&self, other: &Rational) -> (r: Rational)
        requires
            other@.0 != 0,
        ensures
            is_lowest_terms_of(
                r@.0,
                r@.1,
                truncated_remainder(self@.0 * other@.1, other@.0 * self@.1),
                self@.1 * other@.1,
            ),
    {
        proof {
            use_type_invariant(self);
            use_type_invariant(other);
            lemma_int_text(self@.0);
            lemma_int_text(self@.1);
            lemma_int_text(other@.0);
            lemma_int_text(other@.1);
        }
        Rational::from_texts(
            big_ratio_remainder(
                self.numer.digits(),
                self.denom.digits(),
                other.numer.digits(),
                other.denom.digits(),
            ),
        )
    }
}

impl Clone for Rational {
    fn clone(&self) -> (r: Rational)
        ensures
            r@ == self@,
    {
        self.duplicate()
    }
}

} // verus!
