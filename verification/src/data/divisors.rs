//! Common divisors: every fraction has exactly one form in lowest terms.
use vstd::prelude::*;
use vstd::arithmetic::div_mod::{lemma_fundamental_div_mod, lemma_fundamental_div_mod_converse};
use vstd::arithmetic::mul::lemma_mul_equality_converse;
use crate::data::rational::{is_lowest_terms_of, is_reduced, lowest_terms};

verus! {

/// The greatest common divisor, as Euclid computes it.
pub open spec fn gcd(a: nat, b: nat) -> nat
    decreases b,
{
    if b == 0 {
        a
    } else {
        gcd(b, a % b)
    }
}

/// The magnitude of an integer.
pub open spec fn magnitude(v: int) -> nat {
    if v < 0 {
        (-v) as nat
    } else {
        v as nat
    }
}

/// The greatest common divisor is a sum of multiples of the two numbers.
pub proof fn lemma_bezout(a: nat, b: nat) -> (r: (int, int))
    ensures
        a * r.0 + b * r.1 == gcd(a, b),
    decreases b,
{
    if b == 0 {
        (1, 0)
    } else {
        let (x, y) = lemma_bezout(b, a % b);
        let q = (a / b) as int;
        let m = (a % b) as int;
        lemma_fundamental_div_mod(a as int, b as int);
        assert(a * y + b * (x - q * y) == b * x + m * y) by (nonlinear_arith)
            requires
                a == b * q + m,
        ;
        (y, x - q * y)
    }
}

/// The greatest common divisor divides the two numbers.
pub proof fn lemma_gcd_divides(a: nat, b: nat) -> (r: (nat, nat))
    requires
        a > 0 || b > 0,
    ensures
        gcd(a, b) > 0,
        a == gcd(a, b) * r.0,
        b == gcd(a, b) * r.1,
    decreases b,
{
    if b == 0 {
        (1, 0)
    } else {
        let (u, v) = lemma_gcd_divides(b, a % b);
        let g = gcd(a, b) as int;
        let q = (a / b) as int;
        let m = (a % b) as int;
        lemma_fundamental_div_mod(a as int, b as int);
        assert(a == g * (u * q + v)) by (nonlinear_arith)
            requires
                a == b * q + m,
                b == g * u,
                m == g * v,
        ;
        assert(u * q + v >= 0) by (nonlinear_arith)
            requires
                a == g * (u * q + v),
                a >= 0,
                g > 0,
        ;
        ((u * q + v) as nat, u)
    }
}

/// A multiple of `k` leaves nothing when divided by `k`.
pub proof fn lemma_multiple(n: int, k: int, q: int)
    requires
        k > 0,
        n == k * q,
    ensures
        n % k == 0,
{
    assert(n == q * k + 0) by (nonlinear_arith)
        requires
            n == k * q,
    ;
    lemma_fundamental_div_mod_converse(n, k, q, 0);
}

/// A fraction in lowest terms: one is a sum of multiples of its numerator
/// and its denominator.
pub proof fn lemma_reduced_bezout(n: int, d: int) -> (r: (int, int))
    requires
        is_reduced(n, d),
    ensures
        n * r.0 + d * r.1 == 1,
{
    let a = magnitude(n);
    let b = d as nat;
    let (u, v) = lemma_gcd_divides(a, b);
    let g = gcd(a, b) as int;
    if g > 1 {
        lemma_multiple(d, g, v as int);
        if n < 0 {
            assert(n == g * (-(u as int))) by (nonlinear_arith)
                requires
                    -n == g * u,
            ;
            lemma_multiple(n, g, -(u as int));
        } else {
            lemma_multiple(n, g, u as int);
        }
        assert(n % g == 0 && d % g == 0);
    }
    let (x, y) = lemma_bezout(a, b);
    if n < 0 {
        assert(n * (-x) + d * y == a * x + b * y) by (nonlinear_arith)
            requires
                a == -n,
                b == d,
        ;
        (-x, y)
    } else {
        (x, y)
    }
}

/// Where `a` and `b` have no common divisor and `b` divides `a * c`, `b`
/// divides `c`.
pub proof fn lemma_euclid(a: int, b: int, c: int, k: int) -> (j: int)
    requires
        is_reduced(a, b),
        a * c == b * k,
    ensures
        c == b * j,
{
    let (x, y) = lemma_reduced_bezout(a, b);
    assert(c == b * (k * x + c * y)) by (nonlinear_arith)
        requires
            a * x + b * y == 1,
            a * c == b * k,
    ;
    k * x + c * y
}

/// No fraction has two forms in lowest terms.
pub proof fn lemma_lowest_terms_unique(a: int, b: int, c: int, d: int, n: int, m: int)
    requires
        m != 0,
        is_lowest_terms_of(a, b, n, m),
        is_lowest_terms_of(c, d, n, m),
    ensures
        a == c,
        b == d,
{
    assert(m * (a * d) == m * (c * b)) by (nonlinear_arith)
        requires
            a * m == n * b,
            c * m == n * d,
    ;
    lemma_mul_equality_converse(m, a * d, c * b);
    let j = lemma_euclid(a, b, d, c);
    assert(c * b == d * a) by (nonlinear_arith)
        requires
            a * d == c * b,
    ;
    let i = lemma_euclid(c, d, b, a);
    assert(j == 1) by (nonlinear_arith)
        requires
            d == b * j,
            b == d * i,
            b > 0,
            d > 0,
    ;
    assert(b == d) by (nonlinear_arith)
        requires
            d == b * j,
            j == 1,
    ;
    assert(b * a == b * c) by (nonlinear_arith)
        requires
            a * d == c * b,
            b == d,
    ;
    lemma_mul_equality_converse(b, a, c);
}

/// Every fraction has a form in lowest terms: the one that `lowest_terms`
/// names.
pub proof fn lemma_lowest_terms_exist(n: int, m: int)
    requires
        m != 0,
    ensures
        is_lowest_terms_of(lowest_terms(n, m).0, lowest_terms(n, m).1, n, m),
{
    let p = magnitude(n);
    let q = magnitude(m);
    let (u, v) = lemma_gcd_divides(p, q);
    let g = gcd(p, q) as int;
    let (x, y) = lemma_bezout(p, q);
    assert(g * (u * x + v * y) == g * 1) by (nonlinear_arith)
        requires
            p * x + q * y == g,
            p == g * u,
            q == g * v,
    ;
    lemma_mul_equality_converse(g, u * x + v * y, 1);
    let a: int = if (n < 0) != (m < 0) {
        -(u as int)
    } else {
        u as int
    };
    let b: int = v as int;
    assert(b > 0) by (nonlinear_arith)
        requires
            q == g * v,
            q > 0,
            g > 0,
            v >= 0,
            b == v,
    ;
    assert(a * m == n * b) by (nonlinear_arith)
        requires
            p == g * u,
            q == g * v,
            p == if n < 0 {
                -n
            } else {
                n
            },
            q == if m < 0 {
                -m
            } else {
                m
            },
            a == if (n < 0) != (m < 0) {
                -u
            } else {
                u as int
            },
            b == v,
    ;
    assert forall|k: int| k > 1 implies !(#[trigger] (a % k) == 0 && b % k == 0) by {
        if a % k == 0 && b % k == 0 {
            lemma_fundamental_div_mod(a, k);
            lemma_fundamental_div_mod(b, k);
            let s = a / k;
            let t = b / k;
            let z: int = if (n < 0) != (m < 0) {
                -s * x + t * y
            } else {
                s * x + t * y
            };
            assert(k * z == 1) by (nonlinear_arith)
                requires
                    u * x + v * y == 1,
                    a == k * s,
                    b == k * t,
                    a == if (n < 0) != (m < 0) {
                        -u
                    } else {
                        u as int
                    },
                    b == v,
                    z == if (n < 0) != (m < 0) {
                        -s * x + t * y
                    } else {
                        s * x + t * y
                    },
            ;
            assert(false) by (nonlinear_arith)
                requires
                    k * z == 1,
                    k > 1,
            ;
        }
    }
    assert(is_lowest_terms_of(a, b, n, m));
    let witness = (a, b);
    assert(is_lowest_terms_of(witness.0, witness.1, n, m));
}

/// What is in lowest terms and equals `n / m` is what `lowest_terms` names.
pub proof fn lemma_lowest_terms(a: int, b: int, n: int, m: int)
    requires
        m != 0,
        is_lowest_terms_of(a, b, n, m),
    ensures
        (a, b) == lowest_terms(n, m),
{
    lemma_lowest_terms_exist(n, m);
    lemma_lowest_terms_unique(a, b, lowest_terms(n, m).0, lowest_terms(n, m).1, n, m);
}

} // verus!
