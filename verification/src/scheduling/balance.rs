//! How the round-robin schedule shares out the seats: every player has the
//! first seat about as often as the second.

use crate::player::PlayerId;
use crate::scheduling::circle::{lemma_occupant_of_seat, lemma_round_for_seat, lemma_seat_once};
use crate::scheduling::coverage::{lemma_place, lemma_place_of, lemma_table, lemma_with_bye, slot_of};
use crate::scheduling::round_robbin::{
    first_table,
    is_rotation,
    matches_per_round,
    round_robin,
    table,
    with_bye,
};
use vstd::prelude::*;
use vstd::relations::injective_on;
use vstd::set_lib::{
    lemma_int_range,
    lemma_len_subset,
    lemma_map_size,
    lemma_map_size_bound,
    lemma_set_subset_finite,
    set_int_range,
};

verus! {

/// The places of `pairings` at which `player` has the first seat.
pub open spec fn first_seats(pairings: Seq<(PlayerId, PlayerId)>, player: PlayerId) -> Set<int> {
    Set::new(|t: int| 0 <= t < pairings.len() && pairings[t].0 == player)
}

/// The places of `pairings` at which `player` has the second seat.
pub open spec fn second_seats(pairings: Seq<(PlayerId, PlayerId)>, player: PlayerId) -> Set<int> {
    Set::new(|t: int| 0 <= t < pairings.len() && pairings[t].1 == player)
}

/// How often `player` has the first seat in `pairings`.
pub open spec fn times_first(pairings: Seq<(PlayerId, PlayerId)>, player: PlayerId) -> nat {
    first_seats(pairings, player).len()
}

/// How often `player` has the second seat in `pairings`.
pub open spec fn times_second(pairings: Seq<(PlayerId, PlayerId)>, player: PlayerId) -> nat {
    second_seats(pairings, player).len()
}

/// A set of places of a sequence is finite.
proof fn lemma_places_are_finite(places: Set<int>, len: int)
    requires
        0 <= len,
        forall|t: int| places.contains(t) ==> 0 <= t < len,
    ensures
        places.finite(),
{
    lemma_int_range(0, len);
    lemma_set_subset_finite(set_int_range(0, len), places);
}

/// A set that is sent into `hi - lo` numbers, no two of its members to the
/// same, has at most `hi - lo` members.
proof fn lemma_at_most(places: Set<int>, g: spec_fn(int) -> int, lo: int, hi: int)
    requires
        places.finite(),
        lo <= hi,
        injective_on(g, places),
        forall|t: int| places.contains(t) ==> lo <= #[trigger] g(t) < hi,
    ensures
        places.len() <= hi - lo,
{
    let image = places.map(g);
    lemma_map_size(places, image, g);
    lemma_int_range(lo, hi);
    assert(image.subset_of(set_int_range(lo, hi)));
    lemma_len_subset(image, set_int_range(lo, hi));
}

/// A set that is sent onto `hi - lo` numbers at least has at least `hi - lo`
/// members.
proof fn lemma_at_least(places: Set<int>, g: spec_fn(int) -> int, lo: int, hi: int)
    requires
        places.finite(),
        lo <= hi,
        set_int_range(lo, hi).subset_of(places.map(g)),
    ensures
        places.len() >= hi - lo,
{
    let image = places.map(g);
    lemma_map_size_bound(places, image, g);
    lemma_int_range(lo, hi);
    lemma_len_subset(set_int_range(lo, hi), image);
}

/// Who sits at place `t`: the player at place `x` of the list has the first
/// seat exactly if its slot has it, and likewise the second.
proof fn lemma_who_sits(players: Seq<PlayerId>, r: nat, t: int, x: int)
    requires
        players.len() >= 1,
        players.no_duplicates(),
        0 <= x < players.len(),
        0 <= t < round_robin(players, r).len(),
    ensures
        ({
            let slots = with_bye(players);
            let c = matches_per_round(slots);
            let seats = table(slots.len() as int, r as int, t / c, first_table(slots) + t % c);
            &&& round_robin(players, r)[t].0 == players[x] <==> seats.0 == slot_of(players, x)
            &&& round_robin(players, r)[t].1 == players[x] <==> seats.1 == slot_of(players, x)
        }),
{
    lemma_with_bye(players);
    let slots = with_bye(players);
    let (k, i) = lemma_place(slots, r, t);
    lemma_table(slots.len() as int, r as int, k, i);
    let (a, b) = table(slots.len() as int, r as int, k, i);
    let bye = (players.len() % 2) as int;
    assert(slots[slot_of(players, a - bye)] == Some(players[a - bye]));
    assert(slots[slot_of(players, b - bye)] == Some(players[b - bye]));
    assert(slots[slot_of(players, x)] == Some(players[x]));
}

/// A player of the circle has each seat between `h - 1` and `h` times, where
/// `h` is half the number of slots.
proof fn lemma_circle_player(players: Seq<PlayerId>, r: nat, x: int)
    requires
        players.len() >= 1,
        players.no_duplicates(),
        is_rotation(with_bye(players).len(), r),
        0 <= x < players.len(),
        slot_of(players, x) >= 1,
    ensures
        with_bye(players).len() / 2 - 1 <= times_first(round_robin(players, r), players[x])
            <= with_bye(players).len() / 2,
        with_bye(players).len() / 2 - 1 <= times_second(round_robin(players, r), players[x])
            <= with_bye(players).len() / 2,
{
    lemma_with_bye(players);
    let slots = with_bye(players);
    let pairings = round_robin(players, r);
    let n = slots.len() as int;
    let m = n - 1;
    let h = n / 2;
    let c = matches_per_round(slots);
    let first = first_table(slots);
    let s = slot_of(players, x);
    let p = s - 1;
    let g = |t: int| first + t % c;
    let firsts = first_seats(pairings, players[x]);
    let seconds = second_seats(pairings, players[x]);
    lemma_places_are_finite(firsts, pairings.len() as int);
    lemma_places_are_finite(seconds, pairings.len() as int);

    // The first seat.
    assert forall|t1: int, t2: int|
        firsts.contains(t1) && firsts.contains(t2) && g(t1) == g(t2) implies t1 == t2 by {
        let (k1, i1) = lemma_place(slots, r, t1);
        let (k2, i2) = lemma_place(slots, r, t2);
        lemma_who_sits(players, r, t1, x);
        lemma_who_sits(players, r, t2, x);
        lemma_table(n, r as int, k1, i1);
        lemma_table(n, r as int, k2, i2);
        lemma_seat_once(m, r as int, p, k1, k2);
    }
    assert forall|t: int| firsts.contains(t) implies 0 <= #[trigger] g(t) < h by {
        lemma_place(slots, r, t);
    }
    lemma_at_most(firsts, g, 0, h);
    assert forall|i: int| set_int_range(1, h).contains(i) implies firsts.map(g).contains(
        i,
    ) by {
        let k = lemma_round_for_seat(m, r as int, p, i);
        lemma_occupant_of_seat(m, r as int, k, p);
        let t = lemma_place_of(slots, r, k, i);
        lemma_who_sits(players, r, t, x);
        assert(firsts.contains(t) && g(t) == i);
    }
    lemma_at_least(firsts, g, 1, h);

    // The second seat.
    assert forall|t1: int, t2: int|
        seconds.contains(t1) && seconds.contains(t2) && g(t1) == g(t2) implies t1 == t2 by {
        let (k1, i1) = lemma_place(slots, r, t1);
        let (k2, i2) = lemma_place(slots, r, t2);
        lemma_who_sits(players, r, t1, x);
        lemma_who_sits(players, r, t2, x);
        lemma_table(n, r as int, k1, i1);
        lemma_table(n, r as int, k2, i2);
        lemma_seat_once(m, r as int, p, k1, k2);
    }
    assert forall|t: int| seconds.contains(t) implies 0 <= #[trigger] g(t) < h by {
        lemma_place(slots, r, t);
    }
    lemma_at_most(seconds, g, 0, h);
    assert forall|i: int| set_int_range(1, h).contains(i) implies seconds.map(g).contains(
        i,
    ) by {
        let k = lemma_round_for_seat(m, r as int, p, m - i);
        lemma_occupant_of_seat(m, r as int, k, p);
        let t = lemma_place_of(slots, r, k, i);
        lemma_who_sits(players, r, t, x);
        assert(seconds.contains(t) && g(t) == i);
    }
    lemma_at_least(seconds, g, 1, h);
}

/// The player of the first slot has each seat between `h - 1` and `h` times,
/// where `h` is half the number of slots: the first seat in the even rounds,
/// the second in the odd ones.
proof fn lemma_fixed_player(players: Seq<PlayerId>, r: nat, x: int)
    requires
        players.len() >= 1,
        players.no_duplicates(),
        is_rotation(with_bye(players).len(), r),
        0 <= x < players.len(),
        slot_of(players, x) == 0,
    ensures
        with_bye(players).len() / 2 - 1 <= times_first(round_robin(players, r), players[x])
            <= with_bye(players).len() / 2,
        with_bye(players).len() / 2 - 1 <= times_second(round_robin(players, r), players[x])
            <= with_bye(players).len() / 2,
{
    lemma_with_bye(players);
    let slots = with_bye(players);
    let pairings = round_robin(players, r);
    let n = slots.len() as int;
    let m = n - 1;
    let h = n / 2;
    let c = matches_per_round(slots);
    let g = |t: int| (t / c) / 2;
    let firsts = first_seats(pairings, players[x]);
    let seconds = second_seats(pairings, players[x]);
    lemma_places_are_finite(firsts, pairings.len() as int);
    lemma_places_are_finite(seconds, pairings.len() as int);

    // The first seat: the even rounds.
    assert forall|t1: int, t2: int|
        firsts.contains(t1) && firsts.contains(t2) && g(t1) == g(t2) implies t1 == t2 by {
        let (k1, i1) = lemma_place(slots, r, t1);
        let (k2, i2) = lemma_place(slots, r, t2);
        lemma_who_sits(players, r, t1, x);
        lemma_who_sits(players, r, t2, x);
        lemma_table(n, r as int, k1, i1);
        lemma_table(n, r as int, k2, i2);
    }
    assert forall|t: int| firsts.contains(t) implies 0 <= #[trigger] g(t) < h by {
        lemma_place(slots, r, t);
    }
    lemma_at_most(firsts, g, 0, h);
    assert forall|j: int| set_int_range(0, h - 1).contains(j) implies firsts.map(g).contains(
        j,
    ) by {
        let t = lemma_place_of(slots, r, 2 * j, 0);
        lemma_table(n, r as int, 2 * j, 0);
        lemma_who_sits(players, r, t, x);
        assert(firsts.contains(t) && g(t) == j);
    }
    lemma_at_least(firsts, g, 0, h - 1);

    // The second seat: the odd rounds.
    assert forall|t1: int, t2: int|
        seconds.contains(t1) && seconds.contains(t2) && g(t1) == g(t2) implies t1 == t2 by {
        let (k1, i1) = lemma_place(slots, r, t1);
        let (k2, i2) = lemma_place(slots, r, t2);
        lemma_who_sits(players, r, t1, x);
        lemma_who_sits(players, r, t2, x);
        lemma_table(n, r as int, k1, i1);
        lemma_table(n, r as int, k2, i2);
    }
    assert forall|t: int| seconds.contains(t) implies 0 <= #[trigger] g(t) < h - 1 by {
        let (k, i) = lemma_place(slots, r, t);
        lemma_who_sits(players, r, t, x);
        lemma_table(n, r as int, k, i);
    }
    lemma_at_most(seconds, g, 0, h - 1);
    assert forall|j: int| set_int_range(0, h - 1).contains(j) implies seconds.map(g).contains(
        j,
    ) by {
        let t = lemma_place_of(slots, r, 2 * j + 1, 0);
        lemma_table(n, r as int, 2 * j + 1, 0);
        lemma_who_sits(players, r, t, x);
        assert(seconds.contains(t) && g(t) == j);
    }
    lemma_at_least(seconds, g, 0, h - 1);
}

/// Over the whole schedule every player has the first seat as often as the
/// second, or once more, or once less.
pub proof fn lemma_seats_are_balanced(players: Seq<PlayerId>, r: nat, x: int)
    requires
        players.len() >= 1,
        players.no_duplicates(),
        is_rotation(with_bye(players).len(), r),
        0 <= x < players.len(),
    ensures
        times_first(round_robin(players, r), players[x]) <= times_second(
            round_robin(players, r),
            players[x],
        ) + 1,
        times_second(round_robin(players, r), players[x]) <= times_first(
            round_robin(players, r),
            players[x],
        ) + 1,
{
    if slot_of(players, x) == 0 {
        lemma_fixed_player(players, r, x);
    } else {
        lemma_circle_player(players, r, x);
    }
}

} // verus!
