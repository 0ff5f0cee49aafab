//! The round-robin scheduler: every player meets every other player once.
//!
//! The pairings are made by the circle method. With an odd number of players
//! a bye takes the first slot, so that the number of slots is even. The first
//! slot stays where it is; the other slots form a circle that turns by `r`
//! places after every round. In each round the first slot meets the head of
//! the circle, and the others meet across the circle: the slot `i` places
//! behind the head meets the slot `i` places before it. A pairing with the bye
//! is no match and is left out.

use crate::player::PlayerId;
use crate::scheduling::circle::{lemma_first_round, lemma_in_range, lemma_next_round, occupant};
use crate::scheduling::coprime::{coprime, gcd, lemma_coprime_gcd, lemma_one_is_coprime};
use crate::scheduling::scheduler::{PlayerBalancing, Scheduler};
use std::collections::VecDeque;
use vstd::arithmetic::div_mod::lemma_fundamental_div_mod_converse;
use vstd::prelude::*;

verus! {

/// Why a rotation was not accepted.
#[derive(Debug, Clone, Copy, PartialEq, Eq, Structural)]
pub enum SchedulerError {
    /// There is no player to schedule.
    NoPlayers,
    /// The rotation is 0, or not below the number of slots.
    RotationOutOfRange,
    /// The rotation shares a factor with the number of slots in the circle.
    RotationNotCoprime,
}

impl SchedulerError {
    /// A short description of the failure, for display.
    pub fn message(&self) -> (text: &'static str)
        ensures
            *self == SchedulerError::NoPlayers ==> text == "a tournament needs at least one player",
            *self == SchedulerError::RotationOutOfRange ==> text == "r must be in range [1, n-1]",
            *self == SchedulerError::RotationNotCoprime ==> text
                == "r must be coprime to (n-1), including the bye player",
    {
        match self {
            SchedulerError::NoPlayers => "a tournament needs at least one player",
            SchedulerError::RotationOutOfRange => "r must be in range [1, n-1]",
            SchedulerError::RotationNotCoprime => "r must be coprime to (n-1), including the bye player",
        }
    }
}

/// The slots of a tournament between `players`: one slot for each player, in
/// the order given, and before them a bye where their number is odd.
pub open spec fn with_bye(players: Seq<PlayerId>) -> Seq<Option<PlayerId>> {
    let seated = Seq::new(players.len(), |i: int| Some(players[i]));
    if players.len() % 2 == 1 {
        seq![None::<PlayerId>] + seated
    } else {
        seated
    }
}

/// Whether `slots` can be scheduled: their number is even and not 0, and only
/// the first slot may be a bye.
pub open spec fn is_seating(slots: Seq<Option<PlayerId>>) -> bool {
    &&& slots.len() >= 2
    &&& slots.len() % 2 == 0
    &&& forall|i: int| 1 <= i < slots.len() ==> (#[trigger] slots[i]) is Some
}

/// Whether the circle of `slots` slots, the first left out, may turn by `r`
/// places after each round: `r` is at least 1 and at most the size of the
/// circle, and coprime with that size.
pub open spec fn is_rotation(slots: nat, r: nat) -> bool {
    &&& 1 <= r <= slots - 1
    &&& coprime(r, (slots - 1) as nat)
}

/// The two slots that meet at table `i` in round `k`, first seat first, among
/// `n` slots whose circle turns by `r` places.
///
/// Table 0 is that of the first slot and the head of the circle; the first
/// slot has the first seat in the even rounds, the second seat in the odd
/// ones. At table `i` the slot `i` places behind the head has the first seat.
pub open spec fn table(n: int, r: int, k: int, i: int) -> (int, int) {
    let m = n - 1;
    if i == 0 {
        let head = 1 + occupant(m, r, k, 0);
        if k % 2 == 0 {
            (0, head)
        } else {
            (head, 0)
        }
    } else {
        (1 + occupant(m, r, k, i), 1 + occupant(m, r, k, m - i))
    }
}

/// The first table that gives a match: table 0, unless the first slot is a
/// bye.
pub open spec fn first_table(slots: Seq<Option<PlayerId>>) -> int {
    if slots[0] is Some {
        0
    } else {
        1
    }
}

/// The number of matches in each round.
pub open spec fn matches_per_round(slots: Seq<Option<PlayerId>>) -> int {
    slots.len() / 2 - first_table(slots)
}

/// The pairing at place `t` of the schedule: that of the `t % c`-th table in
/// use in round `t / c`, where `c` is the number of matches in each round.
pub open spec fn pairing_at(slots: Seq<Option<PlayerId>>, r: nat, t: int) -> (PlayerId, PlayerId) {
    let c = matches_per_round(slots);
    let (first, second) = table(slots.len() as int, r as int, t / c, first_table(slots) + t % c);
    (slots[first]->Some_0, slots[second]->Some_0)
}

/// The whole schedule, round after round and table after table.
pub open spec fn schedule(slots: Seq<Option<PlayerId>>, r: nat) -> Seq<(PlayerId, PlayerId)> {
    Seq::new(
        ((slots.len() - 1) * matches_per_round(slots)) as nat,
        |t: int| pairing_at(slots, r, t),
    )
}

/// The round-robin schedule of `players` with rotation `r`.
pub open spec fn round_robin(players: Seq<PlayerId>, r: nat) -> Seq<(PlayerId, PlayerId)> {
    schedule(with_bye(players), r)
}

/// Turns the circle by `places` places: the last `places` slots come to the
/// front, in their order.
fn rotate_right(circle: &mut VecDeque<Option<PlayerId>>, places: usize)
    requires
        places <= old(circle)@.len(),
    ensures
        final(circle)@ == old(circle)@.subrange(
            old(circle)@.len() - places,
            old(circle)@.len() as int,
        ) + old(circle)@.subrange(0, old(circle)@.len() - places),
{
    let ghost before = circle@;
    let ghost len = circle@.len() as int;
    let mut moved: usize = 0;
    proof {
        assert(circle@ =~= before.subrange(len, len) + before.subrange(0, len));
    }
    while moved < places
        invariant
            moved <= places <= len,
            len == before.len(),
            circle@ == before.subrange(len - moved, len) + before.subrange(0, len - moved),
        decreases places - moved,
    {
        let last = circle.pop_back();
        if let Some(slot) = last {
            circle.push_front(slot);
        }
        proof {
            assert(circle@ =~= before.subrange(len - moved - 1, len) + before.subrange(
                0,
                len - moved - 1,
            ));
        }
        moved = moved + 1;
    }
}

/// A scheduler that lets every player meet every other player once. The
/// schedule is made in one go, by `init` or by the first `get`, and handed out
/// pairing by pairing.
pub struct RoundRobbinScheduler {
    players: Vec<Option<PlayerId>>,
    pairs: Option<Vec<(PlayerId, PlayerId)>>,
    r: usize,
}

impl RoundRobbinScheduler {
    /// The slots are a seating, and the rotation is valid for their number.
    #[verifier::type_invariant]
    spec fn well_formed(self) -> bool {
        &&& is_seating(self.players@)
        &&& is_rotation(self.players@.len(), self.r as nat)
    }

    /// The slots: the players, after a bye where their number is odd.
    pub closed spec fn slots(&self) -> Seq<Option<PlayerId>> {
        self.players@
    }

    /// The number of places by which the circle turns after each round.
    pub closed spec fn rotation(&self) -> nat {
        self.r as nat
    }

    /// The pairings that were made and not handed out yet; the last of them is
    /// handed out first. `None` until the schedule is made.
    pub closed spec fn pending(&self) -> Option<Seq<(PlayerId, PlayerId)>> {
        match self.pairs {
            Some(pairs) => Some(pairs@),
            None => None,
        }
    }

    /// The pairings that are still to come, in the order in which `get` hands
    /// them out last to first: those pending, or the whole schedule where none
    /// was made yet.
    pub open spec fn upcoming(&self) -> Seq<(PlayerId, PlayerId)> {
        match self.pending() {
            Some(pairs) => pairs,
            None => schedule(self.slots(), self.rotation()),
        }
    }

    /// A scheduler for the given players, with rotation 1. There must be a
    /// player.
    pub fn new(players: Vec<PlayerId>) -> (scheduler: Self)
        requires
            players@.len() >= 1,
        ensures
            scheduler.slots() == with_bye(players@),
            scheduler.rotation() == 1,
            scheduler.pending() is None,
            is_seating(scheduler.slots()),
            is_rotation(scheduler.slots().len(), 1),
    {
        let mut slots: Vec<Option<PlayerId>> = Vec::new();
        let mut next: usize = 0;
        while next < players.len()
            invariant
                next <= players@.len(),
                slots@.len() == next,
                forall|i: int| 0 <= i < next ==> slots@[i] == Some(players@[i]),
            decreases players@.len() - next,
        {
            slots.push(Some(players[next]));
            next = next + 1;
        }
        // If the number of players is odd, add a bye player.
        // For scheduling convenience, the bye player will be fixed in place.
        if slots.len() % 2 == 1 {
            slots.insert(0, None);
        }
        proof {
            assert(slots@ =~= with_bye(players@));
            lemma_one_is_coprime((slots@.len() - 1) as nat);
        }
        RoundRobbinScheduler { players: slots, r: 1, pairs: None }
    }

    /// A scheduler for the given players, with rotation 1, or the failure to
    /// make one where there is no player.
    pub fn try_new(players: Vec<PlayerId>) -> (made: Result<Self, SchedulerError>)
        ensures
            match made {
                Ok(scheduler) => {
                    &&& players@.len() >= 1
                    &&& scheduler.slots() == with_bye(players@)
                    &&& scheduler.rotation() == 1
                    &&& scheduler.pending() is None
                },
                Err(failure) => players@.len() == 0 && failure == SchedulerError::NoPlayers,
            },
    {
        if players.len() == 0 {
            Err(SchedulerError::NoPlayers)
        } else {
            Ok(Self::new(players))
        }
    }

    /// Set the rotation value to get a different round robin tournament.
    /// The value must be coprime to `(#players-1)` including the bye player.
    /// The default value is 1.
    ///
    /// Returns an error if the value is not coprime to `(#players-1)` or
    /// the value is out of bounds. Pairings that were made before stay as
    /// they are.
    pub fn with_r(self, r: usize) -> (changed: Result<Self, SchedulerError>)
        ensures
            match changed {
                Ok(scheduler) => {
                    &&& is_rotation(self.slots().len(), r as nat)
                    &&& scheduler.slots() == self.slots()
                    &&& scheduler.rotation() == r
                    &&& scheduler.pending() == self.pending()
                },
                Err(SchedulerError::RotationOutOfRange) => r == 0 || r >= self.slots().len(),
                Err(SchedulerError::RotationNotCoprime) => {
                    &&& 1 <= r < self.slots().len()
                    &&& !coprime(r as nat, (self.slots().len() - 1) as nat)
                },
                Err(SchedulerError::NoPlayers) => false,
            },
    {
        proof {
            use_type_invariant(&self);
        }
        if r == 0 || r >= self.players.len() {
            return Err(SchedulerError::RotationOutOfRange);
        }
        let divisor = gcd(r, self.players.len() - 1);
        proof {
            lemma_coprime_gcd(r as nat, (self.players@.len() - 1) as nat, divisor as nat);
        }
        if divisor == 1 {
            Ok(RoundRobbinScheduler { players: self.players, r, pairs: self.pairs })
        } else {
            Err(SchedulerError::RotationNotCoprime)
        }
    }

    /// Hands out all pairings that are still to come, in the order in which
    /// `get` would hand them out one by one: the schedule read backwards.
    /// Where no schedule was made yet, it is made first. No pairing is left
    /// afterwards.
    pub fn drain(&mut self) -> (pairings: Vec<(PlayerId, PlayerId)>)
        ensures
            pairings@ == old(self).upcoming().reverse(),
            final(self).slots() == old(self).slots(),
            final(self).rotation() == old(self).rotation(),
            final(self).pending() == Some(Seq::<(PlayerId, PlayerId)>::empty()),
    {
        if self.pairs.is_none() {
            self.init();
        }
        let ghost upcoming = old(self).upcoming();
        let mut taken: Option<Vec<(PlayerId, PlayerId)>> = None;
        proof {
            use_type_invariant(&*self);
        }
        std::mem::swap(&mut self.pairs, &mut taken);
        let mut pairs = taken.unwrap();
        let mut pairings: Vec<(PlayerId, PlayerId)> = Vec::new();
        while pairs.len() > 0
            invariant
                pairings@.len() + pairs@.len() == upcoming.len(),
                pairs@ == upcoming.take(pairs@.len() as int),
                forall|i: int|
                    0 <= i < pairings@.len() ==> pairings@[i] == upcoming[upcoming.len() - 1 - i],
            decreases pairs@.len(),
        {
            let last = pairs.pop();
            if let Some(pairing) = last {
                pairings.push(pairing);
            }
            proof {
                assert(pairs@ =~= upcoming.take(pairs@.len() as int));
            }
        }
        proof {
            assert(pairings@ =~= upcoming.reverse());
            assert(pairs@ =~= Seq::<(PlayerId, PlayerId)>::empty());
        }
        self.pairs = Some(pairs);
        pairings
    }

    /// The number of pairings that are still to come.
    pub fn remaining(&self) -> (count: Option<usize>)
        ensures
            count == match self.pending() {
                Some(pairs) => Some(pairs.len() as usize),
                None => None,
            },
    {
        match &self.pairs {
            Some(pairs) => Some(pairs.len()),
            None => None,
        }
    }
}

impl Scheduler for RoundRobbinScheduler {
    /// The pairings come in the order of the schedule read backwards: the last
    /// of the pairings to come is handed out, and the others stay. When none
    /// is left, `None` is handed out. The slots and the rotation stay as they
    /// are.
    open spec fn hands_out(&self, pairing: Option<(PlayerId, PlayerId)>, after: &Self) -> bool {
        &&& after.slots() == self.slots()
        &&& after.rotation() == self.rotation()
        &&& if self.upcoming().len() == 0 {
            pairing is None && after.pending() == Some(self.upcoming())
        } else {
            pairing == Some(self.upcoming().last()) && after.pending() == Some(
                self.upcoming().drop_last(),
            )
        }
    }

    /// Initialisation makes the whole schedule, whatever was pending before.
    /// The slots and the rotation stay as they are.
    open spec fn initialises(&self, after: &Self) -> bool {
        &&& after.slots() == self.slots()
        &&& after.rotation() == self.rotation()
        &&& after.pending() == Some(schedule(self.slots(), self.rotation()))
    }

    /// Generates all distinct pairs for the round robin tournament.
    /// The number of rounds is n-1, where n is the number of players.
    ///
    /// Called again, it makes the whole schedule anew.
    fn init(&mut self)
        ensures
            final(self).slots() == old(self).slots(),
            final(self).rotation() == old(self).rotation(),
            final(self).pending() == Some(schedule(old(self).slots(), old(self).rotation())),
    {
        proof {
            use_type_invariant(&*self);
        }
        let ghost slots = self.players@;
        let ghost n = slots.len() as int;
        let ghost m = n - 1;
        let ghost r = self.r as int;
        let ghost c = matches_per_round(slots);
        let ghost first = first_table(slots);

        let mut pairs: Vec<(PlayerId, PlayerId)> = Vec::new();

        // Isolate the first player, and fix it in place.
        let fixed_player = self.players[0];
        let mut rest: VecDeque<Option<PlayerId>> = VecDeque::new();
        let mut next: usize = 1;
        while next < self.players.len()
            invariant
                1 <= next <= self.players@.len(),
                rest@.len() == next - 1,
                forall|j: int| 0 <= j < next - 1 ==> rest@[j] == self.players@[1 + j],
            decreases self.players@.len() - next,
        {
            rest.push_back(self.players[next]);
            next = next + 1;
        }
        let offset = self.players.len() / 2;
        let rounds = self.players.len() - 1;

        proof {
            assert forall|j: int| 0 <= j < m implies rest@[j] == slots[1 + occupant(m, r, 0, j)] by {
                lemma_first_round(m, r, j);
            }
            assert(0 * c == 0) by (nonlinear_arith);
        }
        let mut round: usize = 0;
        while round < rounds
            invariant
                slots == self.players@,
                is_seating(slots),
                n == slots.len(),
                m == n - 1,
                r == self.r,
                1 <= r <= m,
                c == matches_per_round(slots),
                first == first_table(slots),
                fixed_player == slots[0],
                offset == n / 2,
                rounds == m,
                round <= rounds,
                rest@.len() == m,
                forall|j: int| 0 <= j < m ==> rest@[j] == slots[1 + occupant(m, r, round as int, j)],
                pairs@.len() == round * c,
                forall|t: int| 0 <= t < pairs@.len() ==> pairs@[t] == pairing_at(slots, r as nat, t),
            decreases rounds - round,
        {
            let ghost k = round as int;
            proof {
                lemma_in_range(m, r, k, 0);
            }
            let head = rest[0].unwrap();

            if let Some(host) = fixed_player {
                // else the fixed player is the bye player and we skip this pair
                // Alternate for fairness to each side
                proof {
                    lemma_fundamental_div_mod_converse(k * c, c, k, 0);
                }
                if round % 2 == 0 {
                    pairs.push((host, head));
                } else {
                    pairs.push((head, host));
                }
            }
            let mut i: usize = 1;
            while i < offset
                invariant
                    slots == self.players@,
                    is_seating(slots),
                    n == slots.len(),
                    m == n - 1,
                    r == self.r,
                    c == matches_per_round(slots),
                    first == first_table(slots),
                    offset == n / 2,
                    k == round,
                    0 <= k < m,
                    1 <= i <= offset,
                    rest@.len() == m,
                    forall|j: int| 0 <= j < m ==> rest@[j] == slots[1 + occupant(m, r, k, j)],
                    pairs@.len() == k * c + (i - first),
                    forall|t: int|
                        0 <= t < pairs@.len() ==> pairs@[t] == pairing_at(slots, r as nat, t),
                decreases offset - i,
            {
                proof {
                    lemma_in_range(m, r, k, i as int);
                    lemma_in_range(m, r, k, m - i);
                    lemma_fundamental_div_mod_converse(k * c + (i - first), c, k, i - first);
                }
                let behind = rest[i].unwrap();
                let before = rest[rest.len() - i].unwrap();

                pairs.push((behind, before));
                i = i + 1;
            }
            // rotate the players, while fixing the first player
            let ghost seated = rest@;
            rotate_right(&mut rest, self.r);
            proof {
                assert forall|j: int| 0 <= j < m implies rest@[j] == slots[1 + occupant(
                    m,
                    r,
                    k + 1,
                    j,
                )] by {
                    lemma_next_round(m, r, k, j);
                    if j < r {
                        assert(rest@[j] == seated[m - r + j]);
                    } else {
                        assert(rest@[j] == seated[j - r]);
                    }
                }
                assert((k + 1) * c == k * c + c) by (nonlinear_arith);
            }
            round = round + 1;
        }
        proof {
            assert(pairs@ =~= schedule(slots, r as nat));
        }
        self.pairs = Some(pairs);
    }

    /// The next pairing, or `None` when all pairings were handed out. The
    /// pairings come in the order of the schedule read backwards. Where no
    /// schedule was made yet, it is made first.
    fn get(&mut self) -> (pairing: Option<(PlayerId, PlayerId)>)
        ensures
            old(self).hands_out(pairing, final(self)),
    {
        if self.pairs.is_none() {
            self.init();
        }
        let mut taken: Option<Vec<(PlayerId, PlayerId)>> = None;
        proof {
            use_type_invariant(&*self);
        }
        std::mem::swap(&mut self.pairs, &mut taken);
        let mut pairs = taken.unwrap();
        let pairing = pairs.pop();
        self.pairs = Some(pairs);
        pairing
    }

    /// Round robbin scheduler never blocks.
    fn try_get(&mut self) -> (answer: Result<Option<(PlayerId, PlayerId)>, anyhow::Error>)
        ensures
            answer matches Ok(pairing) && old(self).hands_out(pairing, final(self)),
    {
        Ok(self.get())
    }
}

// characteristics of round robbin: `lemma_seats_are_balanced` proves the balance
impl PlayerBalancing for RoundRobbinScheduler {

}

} // verus!
