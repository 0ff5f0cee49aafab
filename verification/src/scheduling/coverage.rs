//! What the round-robin schedule covers: every two players meet, and they
//! meet once.

use crate::player::PlayerId;
use crate::scheduling::circle::{
    lemma_in_range,
    lemma_meeting_once,
    lemma_meeting_round,
    lemma_occupant_of_seat,
    lemma_round_for_seat,
    lemma_seat_of_occupant,
    lemma_seat_once,
    seat,
};
use crate::scheduling::round_robbin::{
    first_table,
    is_rotation,
    is_seating,
    matches_per_round,
    pairing_at,
    round_robin,
    schedule,
    table,
    with_bye,
};
use vstd::arithmetic::div_mod::{
    lemma_fundamental_div_mod,
    lemma_fundamental_div_mod_converse,
    lemma_mod_bound,
};
use vstd::prelude::*;

verus! {

/// The slot of the player at place `a` of the list of players.
pub open spec fn slot_of(players: Seq<PlayerId>, a: int) -> int {
    a + players.len() % 2
}

/// The slots of a list of players are a seating; each player has the slot
/// that `slot_of` names, and only with an odd number of players is there a
/// bye.
pub proof fn lemma_with_bye(players: Seq<PlayerId>)
    requires
        players.len() >= 1,
    ensures
        is_seating(with_bye(players)),
        with_bye(players).len() == players.len() + players.len() % 2,
        with_bye(players)[0] is None <==> players.len() % 2 == 1,
        forall|a: int|
            0 <= a < players.len() ==> (#[trigger] with_bye(players)[slot_of(players, a)]) == Some(
                players[a],
            ),
{
}

/// Place `t` of the schedule lies in round `t / c` at table
/// `first_table + t % c`, where `c` is the number of matches in each round.
pub proof fn lemma_place(slots: Seq<Option<PlayerId>>, r: nat, t: int) -> (place: (int, int))
    requires
        is_seating(slots),
        0 <= t < schedule(slots, r).len(),
    ensures
        place.0 == t / matches_per_round(slots),
        place.1 == first_table(slots) + t % matches_per_round(slots),
        0 <= place.0 < slots.len() - 1,
        first_table(slots) <= place.1 < slots.len() / 2,
        t == place.0 * matches_per_round(slots) + (place.1 - first_table(slots)),
        schedule(slots, r)[t] == pairing_at(slots, r, t),
{
    let c = matches_per_round(slots);
    let m = slots.len() - 1;
    assert(c >= 1) by (nonlinear_arith)
        requires
            0 <= t < m * c,
            m >= 1,
            c >= 0,
    ;
    lemma_fundamental_div_mod(t, c);
    lemma_mod_bound(t, c);
    let k = t / c;
    assert(0 <= k < m) by (nonlinear_arith)
        requires
            t == c * k + t % c,
            0 <= t % c < c,
            0 <= t < m * c,
    ;
    assert(c * k == k * c) by (nonlinear_arith);
    (k, first_table(slots) + t % c)
}

/// Table `i` of round `k` stands at one place of the schedule.
pub proof fn lemma_place_of(slots: Seq<Option<PlayerId>>, r: nat, k: int, i: int) -> (t: int)
    requires
        is_seating(slots),
        0 <= k < slots.len() - 1,
        first_table(slots) <= i < slots.len() / 2,
    ensures
        t == k * matches_per_round(slots) + (i - first_table(slots)),
        0 <= t < schedule(slots, r).len(),
        t / matches_per_round(slots) == k,
        first_table(slots) + t % matches_per_round(slots) == i,
        schedule(slots, r)[t] == pairing_at(slots, r, t),
{
    let c = matches_per_round(slots);
    let m = slots.len() - 1;
    let t = k * c + (i - first_table(slots));
    lemma_fundamental_div_mod_converse(t, c, k, i - first_table(slots));
    assert(0 <= t < m * c) by (nonlinear_arith)
        requires
            t == k * c + (i - first_table(slots)),
            0 <= i - first_table(slots) < c,
            0 <= k < m,
    ;
    t
}

/// The two slots at a table are two slots. Table 0 is that of slot 0 and a
/// slot of the circle; every other table is that of two slots of the circle,
/// whose seats add up to the size of the circle.
pub proof fn lemma_table(n: int, r: int, k: int, i: int)
    requires
        n >= 2,
        n % 2 == 0,
        0 <= i < n / 2,
    ensures
        ({
            let (a, b) = table(n, r, k, i);
            let m = n - 1;
            &&& 0 <= a < n
            &&& 0 <= b < n
            &&& a != b
            &&& i == 0 ==> (a == 0 || b == 0) && seat(m, r, k, a + b - 1) == 0
            &&& i == 0 ==> (a == 0 <==> k % 2 == 0)
            &&& i >= 1 ==> a >= 1 && b >= 1 && seat(m, r, k, a - 1) == i && seat(m, r, k, b - 1)
                == m - i
        }),
{
    let m = n - 1;
    lemma_in_range(m, r, k, 0);
    lemma_seat_of_occupant(m, r, k, 0);
    if i >= 1 {
        lemma_in_range(m, r, k, i);
        lemma_in_range(m, r, k, m - i);
        lemma_seat_of_occupant(m, r, k, i);
        lemma_seat_of_occupant(m, r, k, m - i);
    }
}

/// The schedule of `n` players has `n * (n - 1) / 2` pairings, whether `n` is
/// even or odd.
pub proof fn lemma_number_of_pairings(players: Seq<PlayerId>, r: nat)
    requires
        players.len() >= 1,
    ensures
        round_robin(players, r).len() == players.len() * (players.len() - 1) / 2,
{
    lemma_with_bye(players);
    let n = players.len() as int;
    let slots = with_bye(players);
    let c = matches_per_round(slots);
    let m = slots.len() - 1;
    if n % 2 == 1 {
        // A bye: n rounds of (n - 1) / 2 matches.
        let half = (n - 1) / 2;
        assert(m == n && c == half);
        assert(n * (n - 1) == (n * half) * 2) by (nonlinear_arith)
            requires
                n - 1 == 2 * half,
        ;
        assert(m * c == n * half) by (nonlinear_arith)
            requires
                m == n,
                c == half,
        ;
    } else {
        // No bye: n - 1 rounds of n / 2 matches.
        let half = n / 2;
        assert(m == n - 1 && c == half);
        assert(n * (n - 1) == ((n - 1) * half) * 2) by (nonlinear_arith)
            requires
                n == 2 * half,
        ;
        assert(m * c == (n - 1) * half) by (nonlinear_arith)
            requires
                m == n - 1,
                c == half,
        ;
    }
}

/// Every pairing of the schedule is one of two different players of the list:
/// the bye is in none.
pub proof fn lemma_pairings_are_of_players(players: Seq<PlayerId>, r: nat, t: int) -> (seats: (
    int,
    int,
))
    requires
        players.len() >= 1,
        0 <= t < round_robin(players, r).len(),
    ensures
        0 <= seats.0 < players.len(),
        0 <= seats.1 < players.len(),
        seats.0 != seats.1,
        round_robin(players, r)[t] == (players[seats.0], players[seats.1]),
{
    lemma_with_bye(players);
    let slots = with_bye(players);
    let (k, i) = lemma_place(slots, r, t);
    lemma_table(slots.len() as int, r as int, k, i);
    let (a, b) = table(slots.len() as int, r as int, k, i);
    let bye = (players.len() % 2) as int;
    assert(slots[slot_of(players, a - bye)] == Some(players[a - bye]));
    assert(slots[slot_of(players, b - bye)] == Some(players[b - bye]));
    (a - bye, b - bye)
}

/// Any two players of the list meet: some pairing of the schedule is of these
/// two, in one order of seats or the other.
pub proof fn lemma_every_two_meet(players: Seq<PlayerId>, r: nat, a: int, b: int) -> (t: int)
    requires
        players.len() >= 1,
        is_rotation(with_bye(players).len(), r),
        0 <= a < players.len(),
        0 <= b < players.len(),
        a != b,
    ensures
        0 <= t < round_robin(players, r).len(),
        round_robin(players, r)[t] == (players[a], players[b]) || round_robin(players, r)[t] == (
            players[b],
            players[a],
        ),
{
    lemma_with_bye(players);
    let slots = with_bye(players);
    let n = slots.len() as int;
    let m = n - 1;
    let h = n / 2;
    let sa = slot_of(players, a);
    let sb = slot_of(players, b);
    assert(slots[sa] == Some(players[a]));
    assert(slots[sb] == Some(players[b]));
    if sa == 0 || sb == 0 {
        // One of the two has the first slot; the other comes to the head of
        // the circle in some round.
        let p = sa + sb - 1;
        let k = lemma_round_for_seat(m, r as int, p, 0);
        lemma_occupant_of_seat(m, r as int, k, p);
        lemma_place_of(slots, r, k, 0)
    } else {
        // Both are in the circle, and sit opposite each other in some round.
        let p = sa - 1;
        let q = sb - 1;
        let k = lemma_meeting_round(m, r as int, p, q);
        lemma_in_range(m, r as int, k, p);
        lemma_in_range(m, r as int, k, q);
        lemma_occupant_of_seat(m, r as int, k, p);
        lemma_occupant_of_seat(m, r as int, k, q);
        let jp = seat(m, r as int, k, p);
        let jq = seat(m, r as int, k, q);
        if jp < h {
            lemma_place_of(slots, r, k, jp)
        } else {
            lemma_place_of(slots, r, k, jq)
        }
    }
}

/// No two players meet twice: two pairings at different places of the schedule
/// are never of the same two players, in whatever order of seats.
pub proof fn lemma_no_two_meet_twice(players: Seq<PlayerId>, r: nat, t1: int, t2: int)
    requires
        players.len() >= 1,
        players.no_duplicates(),
        is_rotation(with_bye(players).len(), r),
        0 <= t1 < round_robin(players, r).len(),
        0 <= t2 < round_robin(players, r).len(),
        t1 != t2,
    ensures
        round_robin(players, r)[t1] != round_robin(players, r)[t2],
        round_robin(players, r)[t1] != (
            round_robin(players, r)[t2].1,
            round_robin(players, r)[t2].0,
        ),
{
    lemma_with_bye(players);
    let slots = with_bye(players);
    let n = slots.len() as int;
    let m = n - 1;
    let bye = (players.len() % 2) as int;
    let (k1, i1) = lemma_place(slots, r, t1);
    let (k2, i2) = lemma_place(slots, r, t2);
    lemma_table(n, r as int, k1, i1);
    lemma_table(n, r as int, k2, i2);
    let (a1, b1) = table(n, r as int, k1, i1);
    let (a2, b2) = table(n, r as int, k2, i2);
    let one = round_robin(players, r)[t1];
    let other = round_robin(players, r)[t2];
    assert(slots[slot_of(players, a1 - bye)] == Some(players[a1 - bye]));
    assert(slots[slot_of(players, b1 - bye)] == Some(players[b1 - bye]));
    assert(slots[slot_of(players, a2 - bye)] == Some(players[a2 - bye]));
    assert(slots[slot_of(players, b2 - bye)] == Some(players[b2 - bye]));
    if one == other || one == (other.1, other.0) {
        // The same two players, so the same two slots.
        assert((a1 == a2 && b1 == b2) || (a1 == b2 && b1 == a2));
        // Then the same round and the same table, which is the same place.
        if i1 == 0 {
            let p = a1 + b1 - 1;
            lemma_seat_once(m, r as int, p, k1, k2);
        } else {
            lemma_meeting_once(m, r as int, a1 - 1, b1 - 1, k1, k2);
        }
        assert(k1 == k2 && i1 == i2);
        assert(t1 == t2);
    }
}

} // verus!
