//! Fractions in lowest terms: the greatest common divisor, and the one
//! reduced form that each value has.

use vstd::arithmetic::div_mod::{lemma_fundamental_div_mod, lemma_fundamental_div_mod_converse};
use vstd::prelude::*;

verus! {

/// The greatest common divisor of `a` and `b`, by Euclid's algorithm;
/// `gcd(a, 0)` is `a`.
pub open spec fn gcd(a: nat, b: nat) -> nat
    decreases b,
{
    if b == 0 {
        a
    } else {
        gcd(b, a % b)
    }
}

/// Scaling a remainder: `(k·a) mod (k·b)` is `k · (a mod b)`.
proof fn lemma_mod_scaled(k: nat, a: nat, b: nat)
    requires
        k > 0,
        b > 0,
    ensures
        (k * a) % (k * b) == k * (a % b),
{
    lemma_fundamental_div_mod(a as int, b as int);
    let q = a / b;
    let r = a % b;
    assert(k * a == q * (k * b) + k * r) by (nonlinear_arith)
        requires
            a == b * q + r,
    ;
    assert(0 <= k * r < k * b) by (nonlinear_arith)
        requires
            0 <= r < b,
            k > 0,
    ;
    lemma_fundamental_div_mod_converse((k * a) as int, (k * b) as int, q as int, (k * r) as int);
}

/// The divisor scales with both arguments: `gcd(k·a, k·b) = k · gcd(a, b)`.
pub proof fn lemma_gcd_scaled(k: nat, a: nat, b: nat)
    requires
        k > 0,
    ensures
        gcd(k * a, k * b) == k * gcd(a, b),
    decreases b,
{
    if b == 0 {
        assert(k * b == 0) by (nonlinear_arith)
            requires
                b == 0,
        ;
    } else {
        assert(k * b > 0) by (nonlinear_arith)
            requires
                k > 0,
                b > 0,
        ;
        lemma_mod_scaled(k, a, b);
        lemma_gcd_scaled(k, b, a % b);
    }
}

/// The divisor of two numbers, not both zero, is positive and divides both.
pub proof fn lemma_gcd_divides(a: nat, b: nat)
    requires
        a > 0 || b > 0,
    ensures
        gcd(a, b) > 0,
        a % gcd(a, b) == 0,
        b % gcd(a, b) == 0,
    decreases b,
{
    if b == 0 {
        lemma_fundamental_div_mod_converse(a as int, a as int, 1, 0);
        lemma_fundamental_div_mod_converse(0, a as int, 0, 0);
    } else {
        let r = a % b;
        let q = a / b;
        lemma_fundamental_div_mod(a as int, b as int);
        lemma_gcd_divides(b, r);
        let g = gcd(b, r);
        lemma_fundamental_div_mod(b as int, g as int);
        lemma_fundamental_div_mod(r as int, g as int);
        let s = b / g;
        let t = r / g;
        assert(a == (s * q + t) * g) by (nonlinear_arith)
            requires
                a == b * q + r,
                b == g * s,
                r == g * t,
        ;
        assert(s * q + t >= 0) by (nonlinear_arith)
            requires
                s >= 0,
                q >= 0,
                t >= 0,
        ;
        lemma_fundamental_div_mod_converse(a as int, g as int, (s * q + t) as int, 0);
    }
}

/// Dividing out the divisor leaves numbers whose divisor is 1.
pub proof fn lemma_reduced_coprime(n: nat, d: nat)
    requires
        d > 0,
    ensures
        gcd(n, d) > 0,
        n == gcd(n, d) * (n / gcd(n, d)),
        d == gcd(n, d) * (d / gcd(n, d)),
        d / gcd(n, d) > 0,
        gcd(n / gcd(n, d), d / gcd(n, d)) == 1,
{
    lemma_gcd_divides(n, d);
    let g = gcd(n, d);
    lemma_fundamental_div_mod(n as int, g as int);
    lemma_fundamental_div_mod(d as int, g as int);
    let a = n / g;
    let b = d / g;
    assert(b > 0) by (nonlinear_arith)
        requires
            d == g * b,
            d > 0,
            g > 0,
            b >= 0,
    ;
    lemma_gcd_scaled(g, a, b);
    assert(gcd(a, b) == 1) by (nonlinear_arith)
        requires
            g == g * gcd(a, b),
            g > 0,
    ;
}

/// Two fractions of equal value, with positive denominators, reduce to the
/// same numerator and denominator.
pub proof fn lemma_reduced_unique(n1: nat, d1: nat, n2: nat, d2: nat)
    requires
        d1 > 0,
        d2 > 0,
        n1 * d2 == n2 * d1,
    ensures
        n1 / gcd(n1, d1) == n2 / gcd(n2, d2),
        d1 / gcd(n1, d1) == d2 / gcd(n2, d2),
{
    lemma_reduced_coprime(n1, d1);
    lemma_reduced_coprime(n2, d2);
    let g1 = gcd(n1, d1);
    let g2 = gcd(n2, d2);
    let a1 = n1 / g1;
    let b1 = d1 / g1;
    let a2 = n2 / g2;
    let b2 = d2 / g2;
    assert(a1 * b2 == a2 * b1) by (nonlinear_arith)
        requires
            n1 * d2 == n2 * d1,
            n1 == g1 * a1,
            d1 == g1 * b1,
            n2 == g2 * a2,
            d2 == g2 * b2,
            g1 > 0,
            g2 > 0,
    ;
    lemma_gcd_scaled(b2, a1, b1);
    lemma_gcd_scaled(b1, a2, b2);
    assert(b2 * a1 == b1 * a2 && b2 * b1 == b1 * b2) by (nonlinear_arith)
        requires
            a1 * b2 == a2 * b1,
    ;
    assert(b2 == b1);
    assert(a1 == a2) by (nonlinear_arith)
        requires
            a1 * b2 == a2 * b1,
            b1 == b2,
            b1 > 0,
    ;
}

/// A reduced fraction keeps its value: `(n/g) · d = n · (d/g)`.
pub proof fn lemma_reduced_value(n: nat, d: nat)
    requires
        d > 0,
    ensures
        (n / gcd(n, d)) * d == n * (d / gcd(n, d)),
{
    lemma_reduced_coprime(n, d);
    let g = gcd(n, d);
    let a = n / g;
    let b = d / g;
    assert(a * d == n * b) by (nonlinear_arith)
        requires
            n == g * a,
            d == g * b,
    ;
}

} // verus!
