//! Common divisors, and what follows when two numbers have none but 1.

use vstd::arithmetic::div_mod::{
    lemma_fundamental_div_mod,
    lemma_mod_bound,
    lemma_mod_multiples_vanish,
    lemma_mod_pos_bound,
    lemma_small_mod,
};
use vstd::prelude::*;

verus! {

/// Whether `d` divides `n`.
pub open spec fn divides(d: nat, n: nat) -> bool {
    d > 0 && n % d == 0
}

/// Whether 1 is the only number that divides both `a` and `b`.
pub open spec fn coprime(a: nat, b: nat) -> bool {
    forall|d: nat| divides(d, a) && divides(d, b) ==> d == 1
}

/// Whether `g` is the greatest common divisor of `a` and `b`: it divides both,
/// and no greater number does. For two zeros, which every number divides, it
/// is 0.
pub open spec fn is_gcd(a: nat, b: nat, g: nat) -> bool {
    if a == 0 && b == 0 {
        g == 0
    } else {
        &&& divides(g, a)
        &&& divides(g, b)
        &&& forall|d: nat| divides(d, a) && divides(d, b) ==> d <= g
    }
}

/// The number that Euclid's algorithm ends with.
pub closed spec fn euclid(a: nat, b: nat) -> nat
    decreases b,
{
    if b == 0 {
        a
    } else {
        euclid(b, a % b)
    }
}

/// A multiple of `d` plus a multiple of `d` is a multiple of `d`.
proof fn lemma_divides_combination(d: nat, a: nat, b: nat, x: int, y: int)
    requires
        divides(d, a),
        divides(d, b),
    ensures
        (a * x + b * y) % (d as int) == 0,
{
    let qa = (a as int) / (d as int);
    let qb = (b as int) / (d as int);
    lemma_fundamental_div_mod(a as int, d as int);
    lemma_fundamental_div_mod(b as int, d as int);
    assert(a * x + b * y == (d as int) * (qa * x + qb * y) + 0) by (nonlinear_arith)
        requires
            a == (d as int) * qa,
            b == (d as int) * qb,
    ;
    lemma_mod_multiples_vanish(qa * x + qb * y, 0, d as int);
    lemma_small_mod(0, d);
}

/// What Euclid's algorithm ends with is a sum of multiples of the two numbers
/// it began with.
proof fn lemma_bezout(a: nat, b: nat) -> (c: (int, int))
    ensures
        a * c.0 + b * c.1 == euclid(a, b),
    decreases b,
{
    if b == 0 {
        (1, 0)
    } else {
        let (x, y) = lemma_bezout(b, a % b);
        let q = (a as int) / (b as int);
        lemma_fundamental_div_mod(a as int, b as int);
        assert(a * y + b * (x - q * y) == b * x + (a % b) * y) by (nonlinear_arith)
            requires
                a == (b as int) * q + (a % b),
        ;
        (y, x - q * y)
    }
}

/// What Euclid's algorithm ends with divides both numbers it began with.
proof fn lemma_euclid_divides(a: nat, b: nat)
    requires
        a > 0 || b > 0,
    ensures
        divides(euclid(a, b), a),
        divides(euclid(a, b), b),
    decreases b,
{
    if b == 0 {
        assert(a % a == 0) by (nonlinear_arith)
            requires
                a > 0,
        ;
        assert(0nat % a == 0) by (nonlinear_arith)
            requires
                a > 0,
        ;
    } else {
        lemma_mod_pos_bound(a as int, b as int);
        lemma_euclid_divides(b, a % b);
        let g = euclid(a, b);
        let q = (a as int) / (b as int);
        lemma_fundamental_div_mod(a as int, b as int);
        lemma_divides_combination(g, b, a % b, q, 1);
        assert(b * q + (a % b) * 1 == a) by (nonlinear_arith)
            requires
                a == (b as int) * q + (a % b),
        ;
    }
}

/// Euclid's algorithm ends with the greatest common divisor.
pub proof fn lemma_euclid_is_gcd(a: nat, b: nat)
    ensures
        is_gcd(a, b, euclid(a, b)),
{
    if a == 0 && b == 0 {
        reveal_with_fuel(euclid, 2);
    } else {
        lemma_euclid_divides(a, b);
        let g = euclid(a, b);
        let (x, y) = lemma_bezout(a, b);
        assert forall|d: nat| divides(d, a) && divides(d, b) implies d <= g by {
            lemma_divides_combination(d, a, b, x, y);
            lemma_fundamental_div_mod(g as int, d as int);
            let q = (g as int) / (d as int);
            assert(d <= g) by (nonlinear_arith)
                requires
                    g == (d as int) * q,
                    g > 0,
                    d > 0,
            ;
        }
    }
}

/// Two numbers, not both 0, are coprime exactly when their greatest common
/// divisor is 1.
pub proof fn lemma_coprime_gcd(a: nat, b: nat, g: nat)
    requires
        a > 0 || b > 0,
        is_gcd(a, b, g),
    ensures
        coprime(a, b) <==> g == 1,
{
    if g == 1 {
        assert forall|d: nat| divides(d, a) && divides(d, b) implies d == 1 by {}
    }
}

/// 1 is coprime with every number.
pub proof fn lemma_one_is_coprime(m: nat)
    ensures
        coprime(1, m),
{
    assert forall|d: nat| divides(d, 1) && divides(d, m) implies d == 1 by {
        if d > 1 {
            lemma_small_mod(1, d);
        }
    }
}

/// The greatest common divisor of two numbers, by Euclid's algorithm.
pub fn gcd(a: usize, b: usize) -> (g: usize)
    ensures
        is_gcd(a as nat, b as nat, g as nat),
{
    let ghost a0 = a;
    let ghost b0 = b;
    let mut a = a;
    let mut b = b;

    while b != 0
        invariant
            euclid(a as nat, b as nat) == euclid(a0 as nat, b0 as nat),
        decreases b,
    {
        let t = b;
        b = a % b;
        a = t;
    }
    proof {
        lemma_euclid_is_gcd(a0 as nat, b0 as nat);
    }
    a
}

/// A number coprime with `m` can be undone in arithmetic modulo `m`: some
/// multiple of it leaves the remainder of 1.
pub proof fn lemma_inverse(r: nat, m: nat) -> (u: nat)
    requires
        m >= 1,
        coprime(r, m),
    ensures
        u < m,
        ((r * u) as int) % (m as int) == 1int % (m as int),
{
    lemma_euclid_is_gcd(r, m);
    lemma_coprime_gcd(r, m, euclid(r, m));
    let (x, y) = lemma_bezout(r, m);
    let u = x % (m as int);
    lemma_mod_bound(x, m as int);
    lemma_fundamental_div_mod(x, m as int);
    let q = x / (m as int);
    // r * u == r * x - r * m * q == 1 - m * y - m * r * q
    assert(r * u == (m as int) * (-y - r * q) + 1) by (nonlinear_arith)
        requires
            r * x + m * y == 1,
            x == (m as int) * q + u,
    ;
    lemma_mod_multiples_vanish(-y - r * q, 1, m as int);
    u as nat
}

} // verus!
