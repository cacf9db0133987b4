//! Real numbers in decimal floating point: a sign, a mantissa of any size and
//! a power of ten, or one of the signed infinities and not-a-number values.
//!
//! The mantissa carries no trailing zero, so every finite value has exactly
//! one form. Where two numbers are compared, a real number is promoted to
//! the 64-bit binary float nearest to it; arithmetic in binary floating
//! point is left to the caller.
use vstd::prelude::*;
use crate::digits::{
    all_digits, decimal_digits, digits_value, is_canonical, is_digit, lemma_canonical_digits,
    lemma_canonical_positive, lemma_decimal_digits, lemma_leading_zeros, lemma_pow10_step,
    lemma_trailing_zeros, pow10, zeros, ZERO,
};
use crate::data::integer::{signed, Integer};

verus! {

/// The three classes of real values.
#[derive(Clone, Copy, Debug, PartialEq, Eq, Structural)]
pub enum RealKind {
    Finite,
    Infinite,
    NotANumber,
}

/// The mathematical content of a real value.
pub enum RealView {
    /// `mantissa * 10^exponent`, negated where `negative` is set.
    Finite { negative: bool, mantissa: nat, exponent: int },
    Infinite { negative: bool },
    NotANumber { negative: bool },
}

impl RealView {
    /// The normal form: a finite value has a mantissa that ten does not
    /// divide, or is zero with exponent zero; its exponent fits 64 bits.
    pub open spec fn wf(self) -> bool {
        match self {
            RealView::Finite { negative, mantissa, exponent } => {
                &&& mantissa % 10 != 0 || (mantissa == 0 && exponent == 0)
                &&& i64::MIN <= exponent <= i64::MAX
            },
            _ => true,
        }
    }

    /// Zero with the given sign.
    pub open spec fn zero(negative: bool) -> RealView {
        RealView::Finite { negative, mantissa: 0, exponent: 0 }
    }
}

/// Moves factors of ten from the mantissa to the exponent until none is left.
pub open spec fn strip_zeros(m: nat, e: int) -> (nat, int)
    decreases m,
{
    if m > 0 && m % 10 == 0 {
        strip_zeros(m / 10, e + 1)
    } else {
        (m, e)
    }
}

/// The real value `m * 10^e` with the given sign, in normal form. A value
/// whose exponent no longer fits 64 bits is read as infinity where it is too
/// large and as zero where it is too small.
pub open spec fn decimal_real(negative: bool, m: nat, e: int) -> RealView {
    if m == 0 {
        RealView::zero(negative)
    } else {
        let (sm, se) = strip_zeros(m, e);
        if se > i64::MAX {
            RealView::Infinite { negative }
        } else if se < i64::MIN {
            RealView::zero(negative)
        } else {
            RealView::Finite { negative, mantissa: sm, exponent: se }
        }
    }
}

/// Stripping `k` zeros from `c * 10^k`, where ten does not divide `c`, leaves
/// `c` and raises the exponent by `k`.
pub proof fn lemma_strip_zeros(c: nat, k: nat, e: int)
    requires
        c % 10 != 0,
    ensures
        strip_zeros(c * pow10(k), e) == (c, e + k),
    decreases k,
{
    lemma_pow10_step(0);
    if k == 0 {
        assert(c * pow10(0) == c) by (nonlinear_arith)
            requires
                pow10(0) == 1,
        ;
    } else {
        let j = (k - 1) as nat;
        lemma_pow10_step(j);
        let m = c * pow10(k);
        assert(m == (c * pow10(j)) * 10) by (nonlinear_arith)
            requires
                m == c * pow10(k),
                pow10(k) == pow10(j) * 10,
        ;
        assert(c * pow10(j) > 0) by (nonlinear_arith)
            requires
                c > 0,
                pow10(j) > 0,
        ;
        assert(m % 10 == 0 && m / 10 == c * pow10(j));
        lemma_strip_zeros(c, j, e + 1);
    }
}

/// What is left of a positive mantissa when its zeros are stripped is no
/// multiple of ten.
proof fn lemma_stripped(m: nat, e: int)
    requires
        m > 0,
    ensures
        strip_zeros(m, e).0 % 10 != 0,
    decreases m,
{
    if m % 10 == 0 {
        lemma_stripped(m / 10, e + 1);
    }
}

/// What `decimal_real` makes is in normal form.
pub proof fn lemma_decimal_real_normal(negative: bool, m: nat, e: int)
    ensures
        decimal_real(negative, m, e).wf(),
{
    if m > 0 {
        lemma_stripped(m, e);
    }
}

/// A real number in decimal floating point.
#[derive(Debug)]
pub struct Real {
    kind: RealKind,
    negative: bool,
    digits: Vec<u8>,
    exponent: i64,
}

impl View for Real {
    type V = RealView;

    closed spec fn view(&self) -> RealView {
        match self.kind {
            RealKind::Finite => RealView::Finite {
                negative: self.negative,
                mantissa: digits_value(self.digits@),
                exponent: self.exponent as int,
            },
            RealKind::Infinite => RealView::Infinite { negative: self.negative },
            RealKind::NotANumber => RealView::NotANumber { negative: self.negative },
        }
    }
}

impl Real {
    #[verifier::type_invariant]
    closed spec fn inv(&self) -> bool {
        &&& is_canonical(self.digits@)
        &&& match self.kind {
            RealKind::Finite => self.digits@.last() != 48 || (self.digits@ == seq![48u8]
                && self.exponent == 0),
            _ => self.digits@ == seq![48u8] && self.exponent == 0,
        }
    }

    fn special(kind: RealKind, negative: bool) -> (r: Real)
        ensures
            r.kind == kind,
            r.negative == negative,
            r.digits@ == seq![48u8],
            r.exponent == 0,
    {
        let mut digits: Vec<u8> = Vec::new();
        digits.push(ZERO);
        proof {
            assert(digits@ =~= seq![48u8]);
        }
        Real { kind, negative, digits, exponent: 0 }
    }

    /// Zero with the given sign.
    pub fn zero(negative: bool) -> (r: Real)
        ensures
            r@ == RealView::zero(negative),
    {
        let r = Real::special(RealKind::Finite, negative);
        proof {
            assert(seq![48u8].drop_last() =~= Seq::<u8>::empty());
            assert(digits_value(seq![48u8].drop_last()) == 0);
        }
        r
    }

    /// Infinity with the given sign.
    pub fn infinity(negative: bool) -> (r: Real)
        ensures
            r@ == (RealView::Infinite { negative }),
    {
        Real::special(RealKind::Infinite, negative)
    }

    /// A not-a-number value with the given sign.
    pub fn not_a_number(negative: bool) -> (r: Real)
        ensures
            r@ == (RealView::NotANumber { negative }),
    {
        Real::special(RealKind::NotANumber, negative)
    }

    /// The real value `digits * 10^exponent`, negated where `negative` is set.
    pub fn from_decimal(negative: bool, digits: &Vec<u8>, exponent: &Integer) -> (r: Real)
        requires
            all_digits(digits@),
        ensures
            r@ == decimal_real(negative, digits_value(digits@), exponent@),
    {
        let n: usize = digits.len();
        let mut start: usize = 0;
        while start < n && digits[start] == ZERO
            invariant
                start <= n,
                n == digits@.len(),
                forall|i: int| 0 <= i < start ==> digits@[i] == 48,
            decreases n - start,
        {
            start += 1;
        }
        let ghost value = digits_value(digits@);
        let ghost rest = digits@.skip(start as int);
        proof {
            assert(digits@ =~= zeros(start as nat) + rest);
            assert forall|i: int| 0 <= i < rest.len() implies is_digit(#[trigger] rest[i]) by {
                assert(rest[i] == digits@[start + i]);
            }
            lemma_leading_zeros(start as nat, rest);
        }
        if start == n {
            proof {
                assert(rest =~= Seq::<u8>::empty());
            }
            return Real::zero(negative);
        }
        let mut end: usize = n;
        while digits[end - 1] == ZERO
            invariant
                start < end <= n,
                n == digits@.len(),
                digits@[start as int] != 48,
                forall|i: int| end <= i < n ==> digits@[i] == 48,
            decreases end,
        {
            end -= 1;
        }
        let ghost core = digits@.subrange(start as int, end as int);
        let ghost k = (n - end) as nat;
        proof {
            assert(rest =~= core + zeros(k));
            assert forall|i: int| 0 <= i < core.len() implies is_digit(#[trigger] core[i]) by {
                assert(core[i] == digits@[start + i]);
            }
            lemma_trailing_zeros(core, k);
            assert(is_canonical(core));
            lemma_canonical_positive(core);
            assert(core.last() == digits@[end - 1]);
            assert(is_digit(core[core.len() - 1]));
            assert(digits_value(core) % 10 == core.last() - 48);
            lemma_strip_zeros(digits_value(core), k, exponent@);
            lemma_pow10_step(k);
            assert(digits_value(core) * pow10(k) > 0) by (nonlinear_arith)
                requires
                    digits_value(core) > 0,
                    pow10(k) > 0,
            ;
        }
        let shifted = exponent.add(&Integer::from_u64((n - end) as u64));
        match shifted.to_i64() {
            Some(e) => {
                let mut kept: Vec<u8> = Vec::new();
                let mut i: usize = start;
                while i < end
                    invariant
                        start <= i <= end <= n,
                        n == digits@.len(),
                        kept@ == digits@.subrange(start as int, i as int),
                    decreases end - i,
                {
                    kept.push(digits[i]);
                    proof {
                        assert(kept@ =~= digits@.subrange(start as int, i + 1));
                    }
                    i += 1;
                }
                Real { kind: RealKind::Finite, negative, digits: kept, exponent: e }
            },
            None => {
                if shifted.is_negative() {
                    Real::zero(negative)
                } else {
                    Real::infinity(negative)
                }
            },
        }
    }

    /// The real value equal to an integer.
    pub fn from_integer(value: &Integer) -> (r: Real)
        ensures
            r@ == decimal_real(value@ < 0, (if value@ < 0 { -value@ } else { value@ }) as nat, 0),
    {
        let negative = value.is_negative();
        let magnitude = if negative { value.neg() } else { value.duplicate() };
        proof {
            lemma_decimal_digits(magnitude@ as nat);
        }
        Real::from_decimal(negative, magnitude.digits(), &Integer::zero())
    }

    /// The class of the value.
    pub fn kind(&self) -> (r: RealKind)
        ensures
            r == RealKind::Finite <==> self@ is Finite,
            r == RealKind::Infinite <==> self@ is Infinite,
            r == RealKind::NotANumber <==> self@ is NotANumber,
    {
        self.kind
    }

    /// Whether the sign is set. Zero and not-a-number values carry a sign too.
    pub fn is_negative(&self) -> (r: bool)
        ensures
            r == match self@ {
                RealView::Finite { negative, .. } => negative,
                RealView::Infinite { negative } => negative,
                RealView::NotANumber { negative } => negative,
            },
    {
        self.negative
    }

    /// The digits of the mantissa of a finite value, without leading zeros.
    pub fn digits(&self) -> (r: &Vec<u8>)
        ensures
            self@.wf(),
            self@ matches RealView::Finite { mantissa, .. } ==> r@ == decimal_digits(mantissa),
    {
        proof {
            use_type_invariant(self);
            lemma_canonical_digits(self.digits@);
            assert(is_digit(self.digits@[self.digits@.len() - 1]));
            assert(seq![48u8].drop_last() =~= Seq::<u8>::empty());
            assert(digits_value(seq![48u8].drop_last()) == 0);
        }
        &self.digits
    }

    /// The power of ten of a finite value.
    pub fn exponent(&self) -> (r: i64)
        ensures
            self@ matches RealView::Finite { exponent, .. } ==> r == exponent,
    {
        self.exponent
    }

    /// A copy of the value.
    pub fn duplicate(&self) -> (r: Real)
        ensures
            r@ == self@,
    {
        proof {
            use_type_invariant(self);
        }
        Real {
            kind: self.kind,
            negative: self.negative,
            digits: self.digits.clone(),
            exponent: self.exponent,
        }
    }

    /// The same value with the other sign.
    pub fn neg(&self) -> (r: Real)
        ensures
            r@ == match self@ {
                RealView::Finite { negative, mantissa, exponent } => RealView::Finite {
                    negative: !negative,
                    mantissa,
                    exponent,
                },
                RealView::Infinite { negative } => RealView::Infinite { negative: !negative },
                RealView::NotANumber { negative } => RealView::NotANumber { negative: !negative },
            },
    {
        proof {
            use_type_invariant(self);
        }
        Real {
            kind: self.kind,
            negative: !self.negative,
            digits: self.digits.clone(),
            exponent: self.exponent,
        }
    }
}

impl Clone for Real {
    fn clone(&self) -> (r: Real)
        ensures
            r@ == self@,
    {
        self.duplicate()
    }
}

} // verus!
