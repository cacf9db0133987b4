//! The numeric tower: integers, fractions, reals and complex numbers, with
//! equality across the four, after promotion, and exact arithmetic on the
//! first two.
use vstd::prelude::*;
use crate::digits::{
    all_digits, decimal_digits, digits_value, is_digit, lemma_decimal_digits,
    lemma_trailing_zeros, lemma_zeros_value, pow10, zeros, ZERO,
};
use crate::data::binary::{nearest, nearest_to, pow2, Binary64, Binary64View};
use crate::data::integer::{truncated_quotient, truncated_remainder, Integer};
use crate::data::rational::{is_lowest_terms_of, is_reduced, Rational};
use crate::data::reals::{Real, RealKind, RealView};

verus! {

/// The four kinds of number, from the narrowest to the widest.
#[derive(Clone, Copy, Debug, PartialEq, Eq, Structural)]
pub enum NumberKind {
    Integer,
    Rational,
    Real,
    Complex,
}

impl NumberKind {
    /// The place of the kind in the order `Integer < Rational < Real < Complex`.
    pub open spec fn rank(self) -> int {
        match self {
            NumberKind::Integer => 0,
            NumberKind::Rational => 1,
            NumberKind::Real => 2,
            NumberKind::Complex => 3,
        }
    }

    /// The wider of the two kinds: the kind in which an operation on
    /// operands of these kinds is carried out.
    pub open spec fn wider(self, other: NumberKind) -> NumberKind {
        if self.rank() >= other.rank() {
            self
        } else {
            other
        }
    }

    fn place(self) -> (r: u8)
        ensures
            r == self.rank(),
    {
        match self {
            NumberKind::Integer => 0,
            NumberKind::Rational => 1,
            NumberKind::Real => 2,
            NumberKind::Complex => 3,
        }
    }

    /// The kind to which two operands of the given kinds are promoted.
    pub fn promote(self, other: NumberKind) -> (r: NumberKind)
        ensures
            r == self.wider(other),
    {
        if self.place() >= other.place() {
            self
        } else {
            other
        }
    }
}

/// The magnitude of an integer.
pub open spec fn magnitude_of(v: int) -> nat {
    if v < 0 {
        (-v) as nat
    } else {
        v as nat
    }
}

impl RealView {
    /// The 64-bit float that the value is promoted to: the one nearest to
    /// it. An infinity and a not-a-number value are what they are.
    pub open spec fn binary(self) -> Binary64View {
        match self {
            RealView::Finite { negative, mantissa, exponent } => {
                if exponent >= 0 {
                    nearest_to(negative, mantissa * pow10(exponent as nat), 1)
                } else {
                    nearest_to(negative, mantissa, pow10((-exponent) as nat))
                }
            },
            RealView::Infinite { negative } => Binary64View::Infinite { negative },
            RealView::NotANumber { .. } => Binary64View::NotANumber,
        }
    }
}

/// The mathematical content of a number.
pub enum NumberView {
    Integer(int),
    /// Numerator and denominator.
    Rational(int, int),
    Real(RealView),
    /// Real and imaginary part.
    Complex(RealView, RealView),
}

impl NumberView {
    /// What every number of this library satisfies: fractions are in lowest
    /// terms and reals in normal form.
    pub open spec fn wf(self) -> bool {
        match self {
            NumberView::Integer(_) => true,
            NumberView::Rational(n, d) => is_reduced(n, d),
            NumberView::Real(r) => r.wf(),
            NumberView::Complex(re, im) => re.wf() && im.wf(),
        }
    }

    pub open spec fn kind(self) -> NumberKind {
        match self {
            NumberView::Integer(_) => NumberKind::Integer,
            NumberView::Rational(_, _) => NumberKind::Rational,
            NumberView::Real(_) => NumberKind::Real,
            NumberView::Complex(_, _) => NumberKind::Complex,
        }
    }

    /// Integers and fractions are exact; reals and complex numbers are not.
    pub open spec fn is_exact(self) -> bool {
        self is Integer || self is Rational
    }

    /// The fraction of an exact number: an integer stands over one.
    pub open spec fn fraction(self) -> (int, int) {
        match self {
            NumberView::Integer(i) => (i, 1int),
            NumberView::Rational(n, d) => (n, d),
            _ => (0int, 1int),
        }
    }

    /// The real part, promoted to a 64-bit float: the float nearest to the
    /// value of an integer, a fraction or a real number.
    pub open spec fn real_part(self) -> Binary64View {
        match self {
            NumberView::Integer(i) => nearest_to(i < 0, magnitude_of(i), 1),
            NumberView::Rational(n, d) => nearest_to(n < 0, magnitude_of(n), magnitude_of(d)),
            NumberView::Real(r) => r.binary(),
            NumberView::Complex(re, _) => re.binary(),
        }
    }

    /// The imaginary part, promoted to a 64-bit float; it is zero for all
    /// but complex numbers.
    pub open spec fn imaginary_part(self) -> Binary64View {
        match self {
            NumberView::Complex(_, im) => im.binary(),
            _ => Binary64View::zero(),
        }
    }

    /// Numeric equality after promotion to the wider of the two kinds. Two
    /// exact numbers are equal where their fractions are. Where one of the
    /// two is a real or a complex number, both are promoted to 64-bit
    /// floats, each part to the float nearest to it, and are equal where
    /// their real parts and their imaginary parts are equal floats.
    pub open spec fn equals(self, other: NumberView) -> bool {
        if self.is_exact() && other.is_exact() {
            self.fraction().0 * other.fraction().1 == other.fraction().0 * self.fraction().1
        } else {
            &&& self.real_part().equals(other.real_part())
            &&& self.imaginary_part().equals(other.imaginary_part())
        }
    }


    /// Whether the number is an exact zero.
    pub open spec fn is_exact_zero(self) -> bool {
        self.is_exact() && self.fraction().0 == 0
    }
}

/// Equality of numbers is symmetric, whatever their kinds.
pub proof fn lemma_equality_symmetric(a: NumberView, b: NumberView)
    ensures
        a.equals(b) == b.equals(a),
{
}

/// A number that is no not-a-number value, and has none as a part, equals
/// itself.
pub proof fn lemma_equality_reflexive(a: NumberView)
    requires
        !(a.real_part() is NotANumber),
        !(a.imaginary_part() is NotANumber),
    ensures
        a.equals(a),
{
}

/// A number.
#[derive(Debug)]
pub enum Number {
    Integer(Integer),
    Rational(Rational),
    Real(Real),
    /// Real and imaginary part.
    Complex(Real, Real),
}

impl View for Number {
    type V = NumberView;

    open spec fn view(&self) -> NumberView {
        match self {
            Number::Integer(i) => NumberView::Integer(i@),
            Number::Rational(q) => NumberView::Rational(q@.0, q@.1),
            Number::Real(r) => NumberView::Real(r@),
            Number::Complex(re, im) => NumberView::Complex(re@, im@),
        }
    }
}

/// The magnitude of a 64-bit integer.
fn magnitude(e: i64) -> (r: u64)
    ensures
        r == (if e < 0 { -e } else { e as int }),
{
    if e >= 0 {
        e as u64
    } else {
        ((-(e + 1)) as u64) + 1
    }
}

/// The digits followed by `k` zeros.
fn with_zeros(digits: &Vec<u8>, k: u64) -> (r: Vec<u8>)
    ensures
        r@ == digits@ + zeros(k as nat),
{
    let mut out: Vec<u8> = digits.clone();
    let mut i: u64 = 0;
    while i < k
        invariant
            i <= k,
            out@ == digits@ + zeros(i as nat),
        decreases k - i,
    {
        out.push(ZERO);
        proof {
            assert(out@ =~= digits@ + zeros((i + 1) as nat));
        }
        i += 1;
    }
    out
}

/// The digits are decimal digits and have the value of their number.
proof fn lemma_mantissa_digits(m: nat)
    ensures
        all_digits(decimal_digits(m)),
        digits_value(decimal_digits(m)) == m,
        m < pow10(decimal_digits(m).len()),
        m > 0 ==> decimal_digits(m)[0] != 48,
{
    lemma_decimal_digits(m);
    crate::digits::lemma_digits_value_bound(decimal_digits(m));
}

/// A real number that is not zero and has a power of ten above 400 is
/// nearest to infinity.
proof fn lemma_far_above(negative: bool, m: nat, e: nat)
    requires
        m > 0,
        e >= 400,
    ensures
        nearest_to(negative, m * pow10(e), 1) == (Binary64View::Infinite { negative }),
{
    crate::data::integer::lemma_pow10_at_least(e, 400);
    crate::data::binary::lemma_ten_over_two(400);
    crate::data::binary::lemma_pow2_grows(2098, 2274);
    crate::data::binary::lemma_pow2_adds(1200, 1074);
    crate::data::binary::lemma_pow2_step(1074);
    let p = m * pow10(e);
    assert(p >= pow2(1200)) by (nonlinear_arith)
        requires
            p == m * pow10(e),
            m >= 1,
            pow10(e) >= pow10(400),
            pow10(400) >= pow2(1200),
    ;
    assert(pow2(2098) * 1 <= p * pow2(1074)) by (nonlinear_arith)
        requires
            p >= pow2(1200),
            pow2(2274) == pow2(1200) * pow2(1074),
            pow2(2098) <= pow2(2274),
            pow2(1074) > 0,
    ;
    crate::data::binary::lemma_beyond(negative, p, 1);
}

/// A real number whose digits end more than 400 places behind the point
/// is nearest to zero.
proof fn lemma_far_below(negative: bool, m: nat, length: nat, k: nat)
    requires
        m < pow10(length),
        k >= length + 400,
    ensures
        nearest_to(negative, m, pow10(k)) == (Binary64View::Finite {
            negative,
            mantissa: 0,
            exponent: -1074,
        }),
{
    crate::data::integer::lemma_pow10_at_least(k, length + 400);
    crate::data::binary::lemma_ten_over_two(400);
    crate::data::binary::lemma_pow2_grows(1075, 1200);
    crate::data::binary::lemma_pow2_step(1075);
    crate::digits::lemma_pow10_step(k);
    crate::digits::lemma_pow10_step(length);
    vstd::arithmetic::power::lemma_pow_adds(10, length, 400);
    vstd::arithmetic::power::lemma_pow_positive(10, length);
    vstd::arithmetic::power::lemma_pow_positive(10, 400);
    vstd::arithmetic::power::lemma_pow_positive(10, length + 400);
    crate::digits::lemma_pow10_step(400);
    crate::digits::lemma_pow10_step(length + 400);
    assert(pow10(length + 400) == pow10(length) * pow10(400));
    assert(m * pow2(1075) < pow10(k)) by (nonlinear_arith)
        requires
            0 <= m < pow10(length),
            0 < pow2(1075) <= pow2(1200),
            pow2(1200) <= pow10(400),
            pow10(length + 400) == pow10(length) * pow10(400),
            pow10(length + 400) <= pow10(k),
            pow10(length) > 0,
    ;
    crate::data::binary::lemma_below(negative, m, pow10(k));
}

impl Real {
    /// The 64-bit float that the value is promoted to: the one nearest to
    /// it.
    pub fn to_binary(&self) -> (r: Binary64)
        ensures
            r@ == self@.binary(),
    {
        let negative = self.is_negative();
        match self.kind() {
            RealKind::Infinite => Binary64::Infinite { negative },
            RealKind::NotANumber => Binary64::NotANumber,
            RealKind::Finite => {
                let digits = self.digits();
                let e = self.exponent();
                let ghost m = self@->mantissa;
                proof {
                    lemma_mantissa_digits(m);
                    crate::digits::lemma_pow10_step(0);
                }
                if digits.len() == 1 && digits[0] == ZERO {
                    proof {
                        assert(m == 0);
                        assert(m * pow10(e as nat) == 0) by (nonlinear_arith)
                            requires
                                m == 0,
                        ;
                    }
                    return Binary64::Finite { negative, mantissa: 0, exponent: -1074 };
                }
                let k = magnitude(e);
                if e > 400 {
                    proof {
                        lemma_far_above(negative, m, e as nat);
                    }
                    return Binary64::Infinite { negative };
                }
                if e < 0 && k as u128 >= digits.len() as u128 + 400 {
                    proof {
                        lemma_far_below(negative, m, digits@.len(), k as nat);
                    }
                    return Binary64::Finite { negative, mantissa: 0, exponent: -1074 };
                }
                let mut one: Vec<u8> = Vec::new();
                one.push(ZERO + 1);
                proof {
                    assert(one@ =~= seq![49u8]);
                    assert(one@.drop_last() =~= Seq::<u8>::empty());
                    assert(digits_value(one@.drop_last()) == 0);
                    assert(digits_value(one@) == 1);
                    assert(all_digits(one@));
                    lemma_zeros_value(k as nat);
                    lemma_trailing_zeros(digits@, k as nat);
                    lemma_trailing_zeros(one@, k as nat);
                    assert(1 * pow10(k as nat) == pow10(k as nat));
                    assert(digits_value(one@ + zeros(0)) == 1) by {
                        assert(one@ + zeros(0) =~= one@);
                    }
                }
                let (above, below) = if e >= 0 {
                    (with_zeros(digits, k), one)
                } else {
                    (digits.clone(), with_zeros(&one, k))
                };
                proof {
                    assert(all_digits(above@)) by {
                        assert forall|i: int| 0 <= i < above@.len() implies is_digit(
                            #[trigger] above@[i],
                        ) by {
                            if i < digits@.len() {
                                assert(above@[i] == digits@[i]);
                            } else {
                                assert(above@[i] == zeros(k as nat)[i - digits@.len()]);
                            }
                        }
                    }
                    assert(all_digits(below@)) by {
                        assert forall|i: int| 0 <= i < below@.len() implies is_digit(
                            #[trigger] below@[i],
                        ) by {
                            if i < 1 {
                                assert(below@[i] == one@[i]);
                            } else {
                                assert(below@[i] == zeros(k as nat)[i - 1]);
                            }
                        }
                    }
                    crate::digits::lemma_pow10_step(k as nat);
                    assert(m * pow10(k as nat) >= 0);
                }
                let p = Integer::from_digits(false, &above);
                let q = Integer::from_digits(false, &below);
                nearest(negative, &p, &q)
            },
        }
    }

    /// Whether two real values are equal as 64-bit floats: finite values
    /// where they are nearest to the same float (so that the two zeros are
    /// equal), infinities by their sign, and not-a-number values never.
    pub fn equals(&self, other: &Real) -> (r: bool)
        ensures
            r == self@.binary().equals(other@.binary()),
    {
        self.to_binary().same(other.to_binary())
    }
}


impl Number {
    /// The kind of the number.
    pub fn kind(&self) -> (r: NumberKind)
        ensures
            r == self@.kind(),
    {
        match self {
            Number::Integer(_) => NumberKind::Integer,
            Number::Rational(_) => NumberKind::Rational,
            Number::Real(_) => NumberKind::Real,
            Number::Complex(_, _) => NumberKind::Complex,
        }
    }

    /// Whether the number is an integer or a fraction.
    pub fn is_exact(&self) -> (r: bool)
        ensures
            r == self@.is_exact(),
    {
        match self {
            Number::Integer(_) => true,
            Number::Rational(_) => true,
            _ => false,
        }
    }

    /// Whether the number is an integer or a fraction equal to zero.
    pub fn is_exact_zero(&self) -> (r: bool)
        ensures
            r == self@.is_exact_zero(),
    {
        match self {
            Number::Integer(i) => i.is_zero(),
            Number::Rational(q) => q.is_zero(),
            _ => false,
        }
    }

    /// A copy of the number.
    pub fn duplicate(&self) -> (r: Number)
        ensures
            r@ == self@,
    {
        match self {
            Number::Integer(i) => Number::Integer(i.duplicate()),
            Number::Rational(q) => Number::Rational(q.duplicate()),
            Number::Real(x) => Number::Real(x.duplicate()),
            Number::Complex(re, im) => Number::Complex(re.duplicate(), im.duplicate()),
        }
    }

    /// The number as a fraction, where it is exact: an integer is promoted
    /// to the fraction over one.
    pub fn to_rational(&self) -> (r: Option<Rational>)
        ensures
            r is Some <==> self@.is_exact(),
            r matches Some(q) ==> q@ == self@.fraction(),
    {
        match self {
            Number::Integer(i) => Some(Rational::from_integer(i)),
            Number::Rational(q) => Some(q.duplicate()),
            _ => None,
        }
    }

    /// The real part, promoted to a 64-bit float.
    pub fn real_binary(&self) -> (r: Binary64)
        ensures
            r@ == self@.real_part(),
    {
        match self {
            Number::Integer(i) => {
                let negative = i.is_negative();
                let p = if negative {
                    i.neg()
                } else {
                    i.duplicate()
                };
                nearest(negative, &p, &Integer::from_u64(1))
            },
            Number::Rational(q) => {
                let n = q.numer();
                let negative = n.is_negative();
                let p = if negative {
                    n.neg()
                } else {
                    n.duplicate()
                };
                nearest(negative, &p, q.denom())
            },
            Number::Real(x) => x.to_binary(),
            Number::Complex(re, _) => re.to_binary(),
        }
    }

    /// The imaginary part, promoted to a 64-bit float.
    pub fn imaginary_binary(&self) -> (r: Binary64)
        ensures
            r@ == self@.imaginary_part(),
    {
        match self {
            Number::Complex(_, im) => im.to_binary(),
            _ => Binary64::zero(),
        }
    }

    /// Numeric equality after promotion to the wider of the two kinds.
    pub fn equals(&self, other: &Number) -> (r: bool)
        ensures
            r == self@.equals(other@),
    {
        match (self.to_rational(), other.to_rational()) {
            (Some(a), Some(b)) => a.numer().mul(b.denom()).equals(&b.numer().mul(a.denom())),
            _ => self.real_binary().same(other.real_binary()) && self.imaginary_binary().same(
                other.imaginary_binary(),
            ),
        }
    }

    /// The negation, in the kind of the number.
    pub fn neg(&self) -> (r: Number)
        ensures
            r@ == negation(self@),
    {
        match self {
            Number::Integer(i) => Number::Integer(i.neg()),
            Number::Rational(q) => Number::Rational(q.neg()),
            Number::Real(x) => Number::Real(x.neg()),
            Number::Complex(re, im) => Number::Complex(re.neg(), im.neg()),
        }
    }

    /// The sum of two exact numbers, in the wider of their kinds; `None`
    /// where an operand is a real or complex number, whose arithmetic is
    /// floating point and not done here.
    pub fn add(&self, other: &Number) -> (r: Option<Number>)
        ensures
            r is Some <==> self@.is_exact() && other@.is_exact(),
            r matches Some(v) ==> is_exact_result(
                v@,
                self@,
                other@,
                self@.fraction().0 * other@.fraction().1 + other@.fraction().0 * self@.fraction().1,
                self@.fraction().1 * other@.fraction().1,
            ),
    {
        match (self, other) {
            (Number::Integer(a), Number::Integer(b)) => {
                proof {
                    assert(a@ * 1 + b@ * 1 == a@ + b@);
                }
                Some(Number::Integer(a.add(b)))
            },
            _ => {
                match (self.to_rational(), other.to_rational()) {
                    (Some(a), Some(b)) => Some(Number::Rational(a.add(&b))),
                    _ => None,
                }
            },
        }
    }

    /// The difference of two exact numbers; `None` as for `add`.
    pub fn sub(&self, other: &Number) -> (r: Option<Number>)
        ensures
            r is Some <==> self@.is_exact() && other@.is_exact(),
            r matches Some(v) ==> is_exact_result(
                v@,
                self@,
                other@,
                self@.fraction().0 * other@.fraction().1 - other@.fraction().0 * self@.fraction().1,
                self@.fraction().1 * other@.fraction().1,
            ),
    {
        match (self, other) {
            (Number::Integer(a), Number::Integer(b)) => {
                proof {
                    assert(a@ * 1 - b@ * 1 == a@ - b@);
                }
                Some(Number::Integer(a.sub(b)))
            },
            _ => {
                match (self.to_rational(), other.to_rational()) {
                    (Some(a), Some(b)) => Some(Number::Rational(a.sub(&b))),
                    _ => None,
                }
            },
        }
    }

    /// The product of two exact numbers; `None` as for `add`.
    pub fn mul(&self, other: &Number) -> (r: Option<Number>)
        ensures
            r is Some <==> self@.is_exact() && other@.is_exact(),
            r matches Some(v) ==> is_exact_result(
                v@,
                self@,
                other@,
                self@.fraction().0 * other@.fraction().0,
                self@.fraction().1 * other@.fraction().1,
            ),
    {
        match (self, other) {
            (Number::Integer(a), Number::Integer(b)) => Some(Number::Integer(a.mul(b))),
            _ => {
                match (self.to_rational(), other.to_rational()) {
                    (Some(a), Some(b)) => Some(Number::Rational(a.mul(&b))),
                    _ => None,
                }
            },
        }
    }

    /// The quotient of two exact numbers: of two integers the integer
    /// quotient rounded towards zero, else the exact fraction. `None` as for
    /// `add`. The divisor is not an exact zero.
    pub fn div(&self, other: &Number) -> (r: Option<Number>)
        requires
            !other@.is_exact_zero(),
        ensures
            r is Some <==> self@.is_exact() && other@.is_exact(),
            r matches Some(v) ==> match (self@, other@) {
                (NumberView::Integer(a), NumberView::Integer(b)) => v@ == NumberView::Integer(
                    truncated_quotient(a, b),
                ),
                _ => v@ matches NumberView::Rational(n, d) && is_lowest_terms_of(
                    n,
                    d,
                    self@.fraction().0 * other@.fraction().1,
                    self@.fraction().1 * other@.fraction().0,
                ),
            },
    {
        match (self, other) {
            (Number::Integer(a), Number::Integer(b)) => Some(Number::Integer(a.div(b))),
            _ => {
                match (self.to_rational(), other.to_rational()) {
                    (Some(a), Some(b)) => Some(Number::Rational(a.div(&b))),
                    _ => None,
                }
            },
        }
    }

    /// The remainder that goes with `div`. `None` as for `add`. The divisor
    /// is not an exact zero.
    pub fn rem(&self, other: &Number) -> (r: Option<Number>)
        requires
            !other@.is_exact_zero(),
        ensures
            r is Some <==> self@.is_exact() && other@.is_exact(),
            r matches Some(v) ==> match (self@, other@) {
                (NumberView::Integer(a), NumberView::Integer(b)) => v@ == NumberView::Integer(
                    truncated_remainder(a, b),
                ),
                _ => v@ matches NumberView::Rational(n, d) && is_lowest_terms_of(
                    n,
                    d,
                    truncated_remainder(
                        self@.fraction().0 * other@.fraction().1,
                        other@.fraction().0 * self@.fraction().1,
                    ),
                    self@.fraction().1 * other@.fraction().1,
                ),
            },
    {
        match (self, other) {
            (Number::Integer(a), Number::Integer(b)) => Some(Number::Integer(a.rem(b))),
            _ => {
                match (self.to_rational(), other.to_rational()) {
                    (Some(a), Some(b)) => Some(Number::Rational(a.rem(&b))),
                    _ => None,
                }
            },
        }
    }
}

/// The integer equal to `value`, as a number.
pub fn integer(value: i64) -> (r: Number)
    ensures
        r@ == NumberView::Integer(value as int),
{
    Number::Integer(Integer::from_i64(value))
}

/// Whether `s` is an optional minus sign before one or more digits of the
/// radix.
pub open spec fn is_integer_text(s: Seq<char>, radix: int) -> bool {
    crate::read::grammar::integer_at(s, 0, radix) matches Some((_, end)) && end == s.len() && (
    s.len() > 0 && s[0] != '+')
}

/// The integer that `s` denotes in the given radix, as a number. `s` is an
/// optional minus sign before one or more digits of the radix.
pub fn integer_str(s: &str, radix: u32) -> (r: Number)
    requires
        2 <= radix <= 36,
        is_integer_text(s@, radix as int),
    ensures
        crate::read::grammar::integer_at(s@, 0, radix as int) == Some(
            (r@->Integer_0, s@.len() as int),
        ),
        r@ is Integer,
{
    let chars = crate::text::chars_of(s);
    match crate::read::tokens::read_integer(&chars, 0, radix) {
        Some((value, _)) => Number::Integer(value),
        None => Number::Integer(Integer::zero()),
    }
}

/// The fraction `n / d` in lowest terms, as a number.
pub fn rational(n: i64, d: i64) -> (r: Number)
    requires
        d != 0,
    ensures
        r@ matches NumberView::Rational(rn, rd) && is_lowest_terms_of(rn, rd, n as int, d as int),
{
    Number::Rational(Rational::new(&Integer::from_i64(n), &Integer::from_i64(d)))
}

/// The real number `digits * 10^exponent`, negated where `negative` is set,
/// as a number.
pub fn decimal(negative: bool, digits: u64, exponent: i64) -> (r: Number)
    ensures
        r@ == NumberView::Real(
            crate::data::reals::decimal_real(negative, digits as nat, exponent as int),
        ),
{
    let mantissa = Integer::from_u64(digits);
    proof {
        lemma_decimal_digits(digits as nat);
    }
    Number::Real(Real::from_decimal(negative, mantissa.digits(), &Integer::from_i64(exponent)))
}

/// The negation of a number: of an exact number the negated value, of a
/// real the value with the other sign, of a complex number both parts so.
pub open spec fn negation(v: NumberView) -> NumberView {
    match v {
        NumberView::Integer(i) => NumberView::Integer(-i),
        NumberView::Rational(n, d) => NumberView::Rational(-n, d),
        NumberView::Real(r) => NumberView::Real(flipped(r)),
        NumberView::Complex(re, im) => NumberView::Complex(flipped(re), flipped(im)),
    }
}

/// The real value with the other sign.
pub open spec fn flipped(r: RealView) -> RealView {
    match r {
        RealView::Finite { negative, mantissa, exponent } => RealView::Finite {
            negative: !negative,
            mantissa,
            exponent,
        },
        RealView::Infinite { negative } => RealView::Infinite { negative: !negative },
        RealView::NotANumber { negative } => RealView::NotANumber { negative: !negative },
    }
}

/// `v` is the result of an operation on the exact numbers `a` and `b` whose
/// value is the fraction `n / d`: an integer where both operands are
/// integers, else the fraction in lowest terms.
pub open spec fn is_exact_result(v: NumberView, a: NumberView, b: NumberView, n: int, d: int) -> bool {
    if a is Integer && b is Integer {
        v == NumberView::Integer(n)
    } else {
        v matches NumberView::Rational(rn, rd) && is_lowest_terms_of(rn, rd, n, d)
    }
}

impl PartialEq for Number {
    fn eq(&self, other: &Number) -> (r: bool) {
        self.equals(other)
    }
}

impl vstd::std_specs::cmp::PartialEqSpecImpl for Number {
    open spec fn obeys_eq_spec() -> bool {
        true
    }

    open spec fn eq_spec(&self, other: &Number) -> bool {
        self@.equals(other@)
    }
}

impl Clone for Number {
    fn clone(&self) -> (r: Number)
        ensures
            r@ == self@,
    {
        self.duplicate()
    }
}

} // verus!
