//! The 64-bit binary floating-point number that is nearest to an exact
//! value, found in integer arithmetic.
//!
//! A finite number of that format is `mantissa * 2^exponent` with a
//! mantissa below `2^53` and an exponent from -1074 to 971. An exact value
//! is rounded to the nearest such number, to the one with the even mantissa
//! where two are equally near, and to infinity where it lies beyond them.
use vstd::prelude::*;
use vstd::arithmetic::div_mod::{lemma_fundamental_div_mod, lemma_mod_pos_bound};
use vstd::arithmetic::power::pow;
use crate::data::integer::Integer;

verus! {

/// Two to the power `k`.
pub open spec fn pow2(k: nat) -> nat {
    pow(2, k) as nat
}

pub proof fn lemma_pow2_step(k: nat)
    ensures
        pow2(0) == 1,
        pow2(k + 1) == pow2(k) * 2,
        pow2(k) > 0,
{
    vstd::arithmetic::power::lemma_pow0(2);
    vstd::arithmetic::power::lemma_pow_positive(2, k);
    vstd::arithmetic::power::lemma_pow_positive(2, k + 1);
    reveal(pow);
    assert(pow(2, k + 1) == 2 * pow(2, k));
}

pub proof fn lemma_pow2_adds(a: nat, b: nat)
    ensures
        pow2(a + b) == pow2(a) * pow2(b),
{
    vstd::arithmetic::power::lemma_pow_adds(2, a, b);
    vstd::arithmetic::power::lemma_pow_positive(2, a);
    vstd::arithmetic::power::lemma_pow_positive(2, b);
    vstd::arithmetic::power::lemma_pow_positive(2, a + b);
}

/// Powers of two grow with the exponent.
pub proof fn lemma_pow2_grows(a: nat, b: nat)
    requires
        a <= b,
    ensures
        pow2(a) <= pow2(b),
        a < b ==> pow2(a) < pow2(b),
    decreases b - a,
{
    lemma_pow2_step(a);
    if a < b {
        lemma_pow2_grows(a, (b - 1) as nat);
        lemma_pow2_step((b - 1) as nat);
    }
}

/// The two powers of two that bound the mantissa.
pub proof fn lemma_pow2_values()
    ensures
        pow2(52) == 4503599627370496,
        pow2(53) == 9007199254740992,
{
    lemma_pow2_step(0);
    lemma_pow2_step(1);
    lemma_pow2_step(2);
    lemma_pow2_step(3);
    assert(pow2(4) == 16);
    lemma_pow2_adds(4, 4);
    assert(pow2(8) == 256);
    lemma_pow2_adds(8, 8);
    assert(pow2(16) == 65536);
    lemma_pow2_adds(16, 16);
    assert(pow2(32) == 4294967296);
    lemma_pow2_adds(32, 16);
    assert(pow2(48) == 281474976710656);
    lemma_pow2_adds(48, 4);
    lemma_pow2_step(52);
}

/// The least exponent of the format.
pub const MIN_EXPONENT: i64 = -1074;

/// The greatest exponent of the format.
pub const MAX_EXPONENT: i64 = 971;

/// A number of the format, by its value.
pub enum Binary64View {
    /// `mantissa * 2^exponent`, negated where `negative` is set.
    Finite { negative: bool, mantissa: nat, exponent: int },
    Infinite { negative: bool },
    NotANumber,
}

impl Binary64View {
    /// Equality as the format has it: two finite numbers are equal where
    /// they are the same or both are zero, two infinities where their signs
    /// are the same, and nothing else is equal; a not-a-number value equals
    /// nothing, not even itself.
    pub open spec fn equals(self, other: Binary64View) -> bool {
        match (self, other) {
            (
                Binary64View::Finite { negative: n1, mantissa: m1, exponent: e1 },
                Binary64View::Finite { negative: n2, mantissa: m2, exponent: e2 },
            ) => (m1 == 0 && m2 == 0) || (n1 == n2 && m1 == m2 && e1 == e2),
            (Binary64View::Infinite { negative: a }, Binary64View::Infinite { negative: b }) => a
                == b,
            _ => false,
        }
    }

    /// Zero.
    pub open spec fn zero() -> Binary64View {
        Binary64View::Finite { negative: false, mantissa: 0, exponent: -1074 }
    }
}

/// `e` is the exponent of the numbers of the format between which `p / q`
/// lies: `2^(e+52) <= p / q < 2^(e+53)`, or `e` is the least exponent and
/// `p / q` lies below `2^(e+53)`.
pub open spec fn is_ulp_exponent(p: nat, q: nat, e: int) -> bool {
    &&& -1074 <= e
    &&& e == -1074 || pow2((e + 1126) as nat) * q <= p * pow2(1074)
    &&& p * pow2(1074) < pow2((e + 1127) as nat) * q
}

/// The exponent of the numbers of the format between which `p / q` lies.
pub open spec fn ulp_exponent(p: nat, q: nat) -> int {
    choose|e: int| is_ulp_exponent(p, q, e)
}

/// The whole number nearest to `n / d`; of two that are equally near, the
/// even one.
pub open spec fn round_half_even(n: nat, d: nat) -> nat {
    let k = n / d;
    let r = n % d;
    if 2 * r > d || (2 * r == d && k % 2 == 1) {
        k + 1
    } else {
        k
    }
}

/// The number of the format that is nearest to `p / q`, with the given
/// sign.
pub open spec fn nearest_to(negative: bool, p: nat, q: nat) -> Binary64View {
    if p == 0 {
        Binary64View::Finite { negative, mantissa: 0, exponent: -1074 }
    } else {
        let e = ulp_exponent(p, q);
        if e > 971 {
            Binary64View::Infinite { negative }
        } else {
            let m = round_half_even(p * pow2(1074), q * pow2((e + 1074) as nat));
            if m == pow2(53) {
                if e + 1 > 971 {
                    Binary64View::Infinite { negative }
                } else {
                    Binary64View::Finite { negative, mantissa: pow2(52), exponent: e + 1 }
                }
            } else {
                Binary64View::Finite { negative, mantissa: m, exponent: e }
            }
        }
    }
}

/// A value lies between the numbers of one exponent only.
pub proof fn lemma_ulp_unique(p: nat, q: nat, e1: int, e2: int)
    requires
        q > 0,
        is_ulp_exponent(p, q, e1),
        is_ulp_exponent(p, q, e2),
    ensures
        e1 == e2,
{
    if e1 < e2 {
        lemma_pow2_grows((e1 + 1127) as nat, (e2 + 1126) as nat);
        assert(pow2((e1 + 1127) as nat) * q <= pow2((e2 + 1126) as nat) * q) by (nonlinear_arith)
            requires
                pow2((e1 + 1127) as nat) <= pow2((e2 + 1126) as nat),
                q > 0,
        ;
    }
    if e2 < e1 {
        lemma_pow2_grows((e2 + 1127) as nat, (e1 + 1126) as nat);
        assert(pow2((e2 + 1127) as nat) * q <= pow2((e1 + 1126) as nat) * q) by (nonlinear_arith)
            requires
                pow2((e2 + 1127) as nat) <= pow2((e1 + 1126) as nat),
                q > 0,
        ;
    }
}

/// The exponent between whose numbers a value lies is the one that
/// `ulp_exponent` names.
pub proof fn lemma_ulp(p: nat, q: nat, e: int)
    requires
        q > 0,
        is_ulp_exponent(p, q, e),
    ensures
        ulp_exponent(p, q) == e,
{
    lemma_ulp_unique(p, q, e, ulp_exponent(p, q));
}

/// From the exponent `t - 1074` on, an exponent is found between whose
/// numbers `p / q` lies.
proof fn lemma_ulp_search(p: nat, q: nat, t: nat)
    requires
        q > 0,
        t == 0 || pow2(t + 52) * q <= p * pow2(1074),
        p * pow2(1074) >= pow2(t + 52) * q || t == 0,
    ensures
        exists|e: int| is_ulp_exponent(p, q, e),
    decreases p * pow2(1074) + pow2(53) * q - pow2(t + 52) * q,
{
    let scaled = p * pow2(1074);
    lemma_pow2_step(t + 52);
    lemma_pow2_grows(52, t + 52);
    lemma_pow2_step(52);
    assert(pow2(t + 53) * q == pow2(t + 52) * q * 2) by (nonlinear_arith)
        requires
            pow2(t + 53) == pow2(t + 52) * 2,
    ;
    assert(pow2(t + 52) * q >= pow2(52) * q) by (nonlinear_arith)
        requires
            pow2(t + 52) >= pow2(52),
            q > 0,
    ;
    assert(pow2(53) * q == pow2(52) * q * 2) by (nonlinear_arith)
        requires
            pow2(53) == pow2(52) * 2,
    ;
    assert(pow2(52) * q > 0) by (nonlinear_arith)
        requires
            pow2(52) > 0,
            q > 0,
    ;
    if scaled < pow2(t + 53) * q {
        assert(is_ulp_exponent(p, q, t - 1074));
    } else {
        lemma_ulp_search(p, q, t + 1);
    }
}

/// Every value lies between the numbers of some exponent.
pub proof fn lemma_ulp_exists(p: nat, q: nat)
    requires
        q > 0,
    ensures
        is_ulp_exponent(p, q, ulp_exponent(p, q)),
{
    lemma_ulp_search(p, q, 0);
}

/// A value of `2^1024` and more is nearest to infinity.
pub proof fn lemma_beyond(negative: bool, p: nat, q: nat)
    requires
        q > 0,
        pow2(2098) * q <= p * pow2(1074),
    ensures
        nearest_to(negative, p, q) == (Binary64View::Infinite { negative }),
{
    lemma_pow2_step(2098);
    assert(pow2(2098) * q > 0) by (nonlinear_arith)
        requires
            pow2(2098) > 0,
            q > 0,
    ;
    assert(p != 0) by (nonlinear_arith)
        requires
            p * pow2(1074) > 0,
    ;
    lemma_ulp_exists(p, q);
    let e = ulp_exponent(p, q);
    if e <= 971 {
        lemma_pow2_grows((e + 1127) as nat, 2098);
        assert(pow2((e + 1127) as nat) * q <= pow2(2098) * q) by (nonlinear_arith)
            requires
                pow2((e + 1127) as nat) <= pow2(2098),
                q > 0,
        ;
    }
}

/// A value below half of the least number of the format above zero is
/// nearest to zero.
pub proof fn lemma_below(negative: bool, p: nat, q: nat)
    requires
        q > 0,
        p * pow2(1075) < q,
    ensures
        nearest_to(negative, p, q).equals(Binary64View::zero()),
        nearest_to(negative, p, q) == (Binary64View::Finite {
            negative,
            mantissa: 0,
            exponent: -1074,
        }),
{
    if p > 0 {
        let scaled = p * pow2(1074);
        lemma_pow2_step(1074);
        lemma_pow2_step(0);
        lemma_pow2_step(52);
        assert(p * pow2(1075) == scaled * 2) by (nonlinear_arith)
            requires
                scaled == p * pow2(1074),
                pow2(1075) == pow2(1074) * 2,
        ;
        assert(pow2(53) * q >= q) by (nonlinear_arith)
            requires
                pow2(53) >= 1,
                q > 0,
        ;
        assert(is_ulp_exponent(p, q, -1074));
        lemma_ulp(p, q, -1074);
        let d = q * pow2(0);
        assert(d == q) by (nonlinear_arith)
            requires
                d == q * pow2(0),
                pow2(0) == 1,
        ;
        vstd::arithmetic::div_mod::lemma_small_mod(scaled, q);
        vstd::arithmetic::div_mod::lemma_basic_div(scaled as int, q as int);
        assert(round_half_even(scaled, d) == 0);
        lemma_pow2_values();
    }
}

/// Ten to a power is at least two to the threefold power.
pub proof fn lemma_ten_over_two(n: nat)
    ensures
        pow2(3 * n) <= crate::digits::pow10(n),
    decreases n,
{
    lemma_pow2_step(0);
    crate::digits::lemma_pow10_step(0);
    if n > 0 {
        let k = (n - 1) as nat;
        lemma_ten_over_two(k);
        lemma_pow2_step(3 * k);
        lemma_pow2_step(3 * k + 1);
        lemma_pow2_step(3 * k + 2);
        crate::digits::lemma_pow10_step(k);
    }
}

/// A number of the format: the 64-bit float that it is, by its parts.
#[derive(Clone, Copy, Debug, PartialEq, Eq, Structural)]
pub enum Binary64 {
    /// `mantissa * 2^exponent`, negated where `negative` is set.
    Finite { negative: bool, mantissa: u64, exponent: i64 },
    Infinite { negative: bool },
    NotANumber,
}

impl View for Binary64 {
    type V = Binary64View;

    open spec fn view(&self) -> Binary64View {
        match self {
            Binary64::Finite { negative, mantissa, exponent } => Binary64View::Finite {
                negative: *negative,
                mantissa: *mantissa as nat,
                exponent: *exponent as int,
            },
            Binary64::Infinite { negative } => Binary64View::Infinite { negative: *negative },
            Binary64::NotANumber => Binary64View::NotANumber,
        }
    }
}

impl Binary64 {
    /// Equality as the format has it.
    pub fn same(self, other: Binary64) -> (r: bool)
        ensures
            r == self@.equals(other@),
    {
        match (self, other) {
            (
                Binary64::Finite { negative: n1, mantissa: m1, exponent: e1 },
                Binary64::Finite { negative: n2, mantissa: m2, exponent: e2 },
            ) => (m1 == 0 && m2 == 0) || (n1 == n2 && m1 == m2 && e1 == e2),
            (Binary64::Infinite { negative: a }, Binary64::Infinite { negative: b }) => a == b,
            _ => false,
        }
    }

    /// Zero.
    pub fn zero() -> (r: Binary64)
        ensures
            r@ == Binary64View::zero(),
    {
        Binary64::Finite { negative: false, mantissa: 0, exponent: MIN_EXPONENT }
    }
}

/// Two to the power `k`.
pub fn power_of_two(k: u32) -> (r: Integer)
    ensures
        r@ == pow2(k as nat),
    decreases k,
{
    if k == 0 {
        proof {
            lemma_pow2_step(0);
        }
        Integer::from_u64(1)
    } else {
        let half = power_of_two(k / 2);
        let square = half.mul(&half);
        proof {
            lemma_pow2_adds((k / 2) as nat, (k / 2) as nat);
            lemma_pow2_step((2 * (k / 2)) as nat);
        }
        if k % 2 == 1 {
            square.add(&square)
        } else {
            square
        }
    }
}

/// Whether `a` is at most `b`.
pub fn at_most(a: &Integer, b: &Integer) -> (r: bool)
    ensures
        r == (a@ <= b@),
{
    !b.sub(a).is_negative()
}

/// The number of the format that is nearest to `p / q`, with the given
/// sign.
pub fn nearest(negative: bool, p: &Integer, q: &Integer) -> (r: Binary64)
    requires
        p@ >= 0,
        q@ > 0,
    ensures
        r@ == nearest_to(negative, p@ as nat, q@ as nat),
{
    if p.is_zero() {
        return Binary64::Finite { negative, mantissa: 0, exponent: MIN_EXPONENT };
    }
    let ghost pn = p@ as nat;
    let ghost qn = q@ as nat;
    let scaled = p.mul(&power_of_two(1074));
    let mut lo: u32 = 0;
    let mut hi: u32 = 2047;
    while hi - lo > 1
        invariant
            lo < hi <= 2047,
            q@ > 0,
            qn == q@,
            scaled@ == pn * pow2(1074),
            lo == 0 || pow2((lo + 52) as nat) * qn <= scaled@,
            hi == 2047 || scaled@ < pow2((hi + 52) as nat) * qn,
        decreases hi - lo,
    {
        let mid: u32 = lo + (hi - lo) / 2;
        let bound = power_of_two(mid + 52).mul(q);
        if at_most(&bound, &scaled) {
            lo = mid;
        } else {
            hi = mid;
        }
    }
    if lo == 2046 {
        proof {
            lemma_beyond(negative, pn, qn);
        }
        return Binary64::Infinite { negative };
    }
    let e: i64 = lo as i64 + MIN_EXPONENT;
    let unit = power_of_two(lo).mul(q);
    proof {
        lemma_pow2_step(lo as nat);
        assert(unit@ > 0) by (nonlinear_arith)
            requires
                unit@ == pow2(lo as nat) * q@,
                pow2(lo as nat) > 0,
                q@ > 0,
        ;
    }
    let quotient = scaled.div(&unit);
    let rest = scaled.rem(&unit);
    proof {
        assert(is_ulp_exponent(pn, qn, e as int));
        lemma_ulp(pn, qn, e as int);
        lemma_pow2_step(lo as nat);
        lemma_pow2_adds(53, lo as nat);
        lemma_pow2_values();
        let d = unit@;
        assert(d == qn * pow2((e + 1074) as nat)) by (nonlinear_arith)
            requires
                d == pow2(lo as nat) * qn,
                lo == e + 1074,
        ;
        assert(d > 0) by (nonlinear_arith)
            requires
                d == pow2(lo as nat) * qn,
                pow2(lo as nat) > 0,
                qn > 0,
        ;
        assert(pow2((lo + 53) as nat) * qn == pow2(53) * d) by (nonlinear_arith)
            requires
                pow2((lo + 53) as nat) == pow2(53) * pow2(lo as nat),
                d == pow2(lo as nat) * qn,
        ;
        lemma_fundamental_div_mod(scaled@, d);
        lemma_mod_pos_bound(scaled@, d);
        vstd::arithmetic::div_mod::lemma_div_pos_is_pos(scaled@, d);
        let k = scaled@ / d;
        assert(k < pow2(53)) by (nonlinear_arith)
            requires
                scaled@ == d * k + scaled@ % d,
                0 <= scaled@ % d,
                scaled@ < pow2(53) * d,
                d > 0,
        ;
        assert(quotient@ == k);
        assert(rest@ == scaled@ % d);
    }
    let k: u64 = match quotient.to_i64() {
        Some(k) => k as u64,
        None => 0,
    };
    let twice = rest.add(&rest);
    let up = if at_most(&twice, &unit) {
        at_most(&unit, &twice) && k % 2 == 1
    } else {
        true
    };
    let m: u64 = if up {
        k + 1
    } else {
        k
    };
    if m == 9007199254740992 {
        if e + 1 > MAX_EXPONENT {
            Binary64::Infinite { negative }
        } else {
            Binary64::Finite { negative, mantissa: 4503599627370496, exponent: e + 1 }
        }
    } else {
        Binary64::Finite { negative, mantissa: m, exponent: e }
    }
}

} // verus!
