//! The arithmetic of a rotating circle of seats.
//!
//! `m` players sit on `m` seats, numbered from 0. After every round each
//! player moves `r` seats on, and the player who leaves the last seat comes
//! back at seat 0. A player is known by the seat it had in round 0.

use crate::scheduling::coprime::{coprime, lemma_inverse};
use vstd::arithmetic::div_mod::{
    lemma_fundamental_div_mod,
    lemma_mod_bound,
    lemma_mod_multiples_vanish,
    lemma_small_mod,
};
use vstd::prelude::*;

verus! {

/// The seat that player `p` has in round `k`.
pub open spec fn seat(m: int, r: int, k: int, p: int) -> int {
    (p + k * r) % m
}

/// The player who has seat `j` in round `k`.
pub open spec fn occupant(m: int, r: int, k: int, j: int) -> int {
    (j - k * r) % m
}

/// Seats and players are numbered below `m`.
pub proof fn lemma_in_range(m: int, r: int, k: int, x: int)
    requires
        m >= 1,
    ensures
        0 <= seat(m, r, k, x) < m,
        0 <= occupant(m, r, k, x) < m,
{
    lemma_mod_bound(x + k * r, m);
    lemma_mod_bound(x - k * r, m);
}

/// In round 0 every player has the seat it is known by.
pub proof fn lemma_first_round(m: int, r: int, j: int)
    requires
        0 <= j < m,
    ensures
        occupant(m, r, 0, j) == j,
        seat(m, r, 0, j) == j,
{
    assert(0 * r == 0) by (nonlinear_arith);
    lemma_small_mod(j as nat, m as nat);
}

/// Who has seat `j` in the round after round `k` had the seat `r` places
/// before it, round the circle, in round `k`.
pub proof fn lemma_next_round(m: int, r: int, k: int, j: int)
    requires
        m >= 1,
        0 <= r <= m,
        0 <= j < m,
    ensures
        j < r ==> occupant(m, r, k + 1, j) == occupant(m, r, k, m - r + j),
        j >= r ==> occupant(m, r, k + 1, j) == occupant(m, r, k, j - r),
{
    assert((k + 1) * r == k * r + r) by (nonlinear_arith);
    if j < r {
        assert(m * 1 + (j - (k + 1) * r) == (m - r + j) - k * r) by (nonlinear_arith)
            requires
                (k + 1) * r == k * r + r,
        ;
        lemma_mod_multiples_vanish(1, j - (k + 1) * r, m);
    }
}

/// The player at the seat of player `p` is `p`.
pub proof fn lemma_occupant_of_seat(m: int, r: int, k: int, p: int)
    requires
        0 <= p < m,
    ensures
        occupant(m, r, k, seat(m, r, k, p)) == p,
{
    let s = seat(m, r, k, p);
    let q = (p + k * r) / m;
    lemma_fundamental_div_mod(p + k * r, m);
    assert(s - k * r == m * (-q) + p) by (nonlinear_arith)
        requires
            p + k * r == m * q + s,
    ;
    lemma_mod_multiples_vanish(-q, p, m);
    lemma_small_mod(p as nat, m as nat);
}

/// The seat of the player at seat `j` is `j`.
pub proof fn lemma_seat_of_occupant(m: int, r: int, k: int, j: int)
    requires
        0 <= j < m,
    ensures
        seat(m, r, k, occupant(m, r, k, j)) == j,
{
    let p = occupant(m, r, k, j);
    let q = (j - k * r) / m;
    lemma_fundamental_div_mod(j - k * r, m);
    assert(p + k * r == m * (-q) + j) by (nonlinear_arith)
        requires
            j - k * r == m * q + p,
    ;
    lemma_mod_multiples_vanish(-q, j, m);
    lemma_small_mod(j as nat, m as nat);
}

/// A multiple of `m` that lies strictly between `-m` and `m` is 0.
proof fn lemma_small_multiple(m: int, d: int, z: int)
    requires
        d == m * z,
        -m < d < m,
    ensures
        d == 0,
{
    assert(d == 0) by (nonlinear_arith)
        requires
            d == m * z,
            -m < d < m,
    ;
}

/// Where `r` is coprime with `m` and `d * r` is a multiple of `m`, `d` is one
/// too.
proof fn lemma_cancel(m: int, r: int, d: int, q: int) -> (z: int)
    requires
        m >= 1,
        r >= 0,
        coprime(r as nat, m as nat),
        d * r == m * q,
    ensures
        d == m * z,
{
    if m == 1 {
        assert(d == m * d) by (nonlinear_arith)
            requires
                m == 1,
        ;
        d
    } else {
        let u = lemma_inverse(r as nat, m as nat) as int;
        lemma_small_mod(1, m as nat);
        lemma_fundamental_div_mod(r * u, m);
        let w = (r * u) / m;
        assert(d == m * (q * u - d * w)) by (nonlinear_arith)
            requires
                r * u == m * w + 1,
                d * r == m * q,
        ;
        q * u - d * w
    }
}

/// Every player has every seat in some round, where `r` is coprime with `m`.
pub proof fn lemma_round_for_seat(m: int, r: int, p: int, j: int) -> (k: int)
    requires
        m >= 1,
        r >= 0,
        coprime(r as nat, m as nat),
        0 <= p < m,
        0 <= j < m,
    ensures
        0 <= k < m,
        seat(m, r, k, p) == j,
{
    if m == 1 {
        lemma_first_round(m, r, 0);
        0
    } else {
        let u = lemma_inverse(r as nat, m as nat) as int;
        lemma_small_mod(1, m as nat);
        lemma_fundamental_div_mod(r * u, m);
        let w = (r * u) / m;
        let k = ((j - p) * u) % m;
        lemma_mod_bound((j - p) * u, m);
        lemma_fundamental_div_mod((j - p) * u, m);
        let v = ((j - p) * u) / m;
        assert(p + k * r == m * ((j - p) * w - v * r) + j) by (nonlinear_arith)
            requires
                r * u == m * w + 1,
                (j - p) * u == m * v + k,
        ;
        lemma_mod_multiples_vanish((j - p) * w - v * r, j, m);
        lemma_small_mod(j as nat, m as nat);
        k
    }
}

/// A player has a seat in one round only, among `m` rounds that follow one
/// another, where `r` is coprime with `m`.
pub proof fn lemma_seat_once(m: int, r: int, p: int, k1: int, k2: int)
    requires
        m >= 1,
        r >= 0,
        coprime(r as nat, m as nat),
        0 <= k1 < m,
        0 <= k2 < m,
        seat(m, r, k1, p) == seat(m, r, k2, p),
    ensures
        k1 == k2,
{
    let s = seat(m, r, k1, p);
    lemma_fundamental_div_mod(p + k1 * r, m);
    lemma_fundamental_div_mod(p + k2 * r, m);
    let q1 = (p + k1 * r) / m;
    let q2 = (p + k2 * r) / m;
    assert((k1 - k2) * r == m * (q1 - q2)) by (nonlinear_arith)
        requires
            p + k1 * r == m * q1 + s,
            p + k2 * r == m * q2 + s,
    ;
    let z = lemma_cancel(m, r, k1 - k2, q1 - q2);
    lemma_small_multiple(m, k1 - k2, z);
}

/// Two players who have the same seat in the same round are one player.
pub proof fn lemma_seat_of_one(m: int, r: int, k: int, p: int, q: int)
    requires
        0 <= p < m,
        0 <= q < m,
        seat(m, r, k, p) == seat(m, r, k, q),
    ensures
        p == q,
{
    lemma_occupant_of_seat(m, r, k, p);
    lemma_occupant_of_seat(m, r, k, q);
}

/// Any two players sit opposite each other in some round: their seats add up
/// to `m`. This needs an odd `m` and an `r` coprime with it.
pub proof fn lemma_meeting_round(m: int, r: int, p: int, q: int) -> (k: int)
    requires
        m >= 1,
        m % 2 == 1,
        r >= 0,
        coprime(r as nat, m as nat),
        0 <= p < m,
        0 <= q < m,
        p != q,
    ensures
        0 <= k < m,
        seat(m, r, k, p) + seat(m, r, k, q) == m,
{
    let h = (m + 1) / 2;
    let jp = ((p - q) * h) % m;
    lemma_mod_bound((p - q) * h, m);
    lemma_fundamental_div_mod((p - q) * h, m);
    let a = ((p - q) * h) / m;
    let k = lemma_round_for_seat(m, r, p, jp);
    let jq = seat(m, r, k, q);
    lemma_in_range(m, r, k, q);
    lemma_fundamental_div_mod(p + k * r, m);
    lemma_fundamental_div_mod(q + k * r, m);
    let zp = (p + k * r) / m;
    let zq = (q + k * r) / m;
    let w = (p - q) - 2 * a + zp - zq;
    assert(jp + jq == m * w) by (nonlinear_arith)
        requires
            2 * h == m + 1,
            (p - q) * h == m * a + jp,
            p + k * r == m * zp + jp,
            q + k * r == m * zq + jq,
            w == (p - q) - 2 * a + zp - zq,
    ;
    if jp + jq != m {
        assert(jp + jq == 0) by (nonlinear_arith)
            requires
                jp + jq == m * w,
                0 <= jp + jq < 2 * m,
                jp + jq != m,
        ;
        lemma_seat_of_one(m, r, k, p, q);
    }
    k
}

/// Two players sit opposite each other in one round only, among `m` rounds
/// that follow one another.
pub proof fn lemma_meeting_once(m: int, r: int, p: int, q: int, k1: int, k2: int)
    requires
        m >= 1,
        m % 2 == 1,
        r >= 0,
        coprime(r as nat, m as nat),
        0 <= k1 < m,
        0 <= k2 < m,
        seat(m, r, k1, p) + seat(m, r, k1, q) == m,
        seat(m, r, k2, p) + seat(m, r, k2, q) == m,
    ensures
        k1 == k2,
{
    let h = (m + 1) / 2;
    lemma_fundamental_div_mod(p + k1 * r, m);
    lemma_fundamental_div_mod(q + k1 * r, m);
    lemma_fundamental_div_mod(p + k2 * r, m);
    lemma_fundamental_div_mod(q + k2 * r, m);
    let a1 = (p + k1 * r) / m;
    let b1 = (q + k1 * r) / m;
    let a2 = (p + k2 * r) / m;
    let b2 = (q + k2 * r) / m;
    let d = k1 - k2;
    assert((2 * d) * r == m * (a1 + b1 - a2 - b2)) by (nonlinear_arith)
        requires
            d == k1 - k2,
            p + k1 * r == m * a1 + seat(m, r, k1, p),
            q + k1 * r == m * b1 + seat(m, r, k1, q),
            p + k2 * r == m * a2 + seat(m, r, k2, p),
            q + k2 * r == m * b2 + seat(m, r, k2, q),
            seat(m, r, k1, p) + seat(m, r, k1, q) == m,
            seat(m, r, k2, p) + seat(m, r, k2, q) == m,
    ;
    let z = lemma_cancel(m, r, 2 * d, a1 + b1 - a2 - b2);
    assert(d == m * (z * h - d)) by (nonlinear_arith)
        requires
            2 * d == m * z,
            2 * h == m + 1,
    ;
    lemma_small_multiple(m, d, z * h - d);
}

} // verus!
