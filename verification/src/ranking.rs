//! Rankings: the order of the players by what they achieved, and the record
//! of who beat whom that strength estimates are made from.

use crate::game::{LabelledOutcome, Match};
use crate::player::PlayerId;
use crate::scoring::ScoringSystem;
use vstd::prelude::*;
use vstd::seq_lib::{commutative_foldl, lemma_fold_left_permutation};

verus! {

pub trait RankingPolicy {
    /// Returns the current ranking of players based on the scores table.
    fn rank_players(&mut self) -> Vec<PlayerId>;
}

/// A table of wins: the cell in row `i` and column `j` counts how often player
/// `i` beat player `j`.
pub type Wins = Seq<Seq<u64>>;

/// Whether `wins` has as many columns in every row as it has rows.
pub open spec fn is_square(wins: Wins) -> bool {
    forall|i: int| 0 <= i < wins.len() ==> (#[trigger] wins[i]).len() == wins.len()
}

/// The table of `size` players without any win.
pub open spec fn no_wins(size: nat) -> Wins {
    Seq::new(size, |i: int| Seq::new(size, |j: int| 0u64))
}

/// One more than `count`, held at the largest count that a cell can store.
pub open spec fn counted(count: u64) -> u64 {
    if count < u64::MAX {
        (count + 1) as u64
    } else {
        count
    }
}

/// The table after one more win of `winner` over `loser`. A win that names a
/// player without a row or a column changes nothing.
pub open spec fn won(wins: Wins, winner: PlayerId, loser: PlayerId) -> Wins {
    if winner < wins.len() && loser < wins[winner as int].len() {
        wins.update(
            winner as int,
            wins[winner as int].update(loser as int, counted(wins[winner as int][loser as int])),
        )
    } else {
        wins
    }
}

/// The table after one outcome was recorded: a decisive match adds a win of
/// the winner over the loser, a draw adds nothing.
pub open spec fn recorded(wins: Wins, outcome: LabelledOutcome) -> Wins {
    match outcome {
        LabelledOutcome::Win { winner, loser } => won(wins, winner.id(), loser.id()),
        LabelledOutcome::Draw(first, second) => wins,
    }
}

/// The table after a sequence of outcomes was recorded, one after the other.
pub open spec fn accumulated(wins: Wins, outcomes: Seq<LabelledOutcome>) -> Wins {
    outcomes.fold_left(wins, |w: Wins, outcome: LabelledOutcome| recorded(w, outcome))
}

/// Whether `player` has a decisive match against `other` on record, won or
/// lost.
pub open spec fn have_met(wins: Wins, player: int, other: int) -> bool {
    &&& 0 <= player < wins.len()
    &&& 0 <= other < wins.len()
    &&& other != player
    &&& (wins[player][other] > 0 || wins[other][player] > 0)
}

/// Whether `player` has a decisive match against some other player on record.
/// Without one, the strength of the player cannot be estimated.
pub open spec fn has_played(wins: Wins, player: int) -> bool {
    exists|other: int| have_met(wins, player, other)
}

/// The wins of every player over every other, counted as the outcomes of
/// matches come in.
pub struct WinMatrix {
    wins: Vec<Vec<u64>>,
}

impl WinMatrix {
    #[verifier::type_invariant]
    spec fn square(self) -> bool {
        forall|i: int|
            0 <= i < self.wins@.len() ==> (#[trigger] self.wins@[i])@.len() == self.wins@.len()
    }

    /// The table of wins.
    pub closed spec fn cells(&self) -> Wins {
        Seq::new(self.wins@.len(), |i: int| self.wins@[i]@)
    }

    /// A matrix for the players 0 to `size - 1`, without any win.
    pub fn new(size: usize) -> (matrix: Self)
        ensures
            matrix.cells() == no_wins(size as nat),
    {
        let mut wins: Vec<Vec<u64>> = Vec::new();
        let mut i: usize = 0;
        while i < size
            invariant
                i <= size,
                wins@.len() == i,
                forall|k: int| 0 <= k < i ==> (#[trigger] wins@[k])@ == Seq::new(
                    size as nat,
                    |j: int| 0u64,
                ),
            decreases size - i,
        {
            let mut row: Vec<u64> = Vec::new();
            let mut j: usize = 0;
            while j < size
                invariant
                    j <= size,
                    row@.len() == j,
                    forall|k: int| 0 <= k < j ==> row@[k] == 0,
                decreases size - j,
            {
                row.push(0);
                j = j + 1;
            }
            proof {
                assert(row@ =~= Seq::new(size as nat, |j: int| 0u64));
            }
            wins.push(row);
            i = i + 1;
        }
        let matrix = WinMatrix { wins };
        proof {
            assert(matrix.cells() =~= no_wins(size as nat));
        }
        matrix
    }

    /// The number of players.
    pub fn size(&self) -> (size: usize)
        ensures
            size == self.cells().len(),
            is_square(self.cells()),
    {
        proof {
            use_type_invariant(self);
        }
        self.wins.len()
    }

    /// How often `winner` beat `loser`, if the matrix has both players.
    pub fn wins(&self, winner: PlayerId, loser: PlayerId) -> (count: Option<u64>)
        ensures
            count == if winner < self.cells().len() && loser < self.cells().len() {
                Some(self.cells()[winner as int][loser as int])
            } else {
                None
            },
    {
        proof {
            use_type_invariant(self);
        }
        if winner < self.wins.len() && loser < self.wins.len() {
            Some(self.wins[winner][loser])
        } else {
            None
        }
    }

    /// Takes note of one finished match.
    pub fn record(&mut self, outcome: &LabelledOutcome)
        ensures
            final(self).cells() == recorded(old(self).cells(), *outcome),
    {
        proof {
            use_type_invariant(&*self);
        }
        match outcome {
            LabelledOutcome::Win { winner, loser } => {
                let i = winner.id();
                let j = loser.id();
                let mut wins: Vec<Vec<u64>> = Vec::new();
                std::mem::swap(&mut self.wins, &mut wins);
                if i < wins.len() && j < wins.len() {
                    let row = &mut wins[i];
                    if row[j] < u64::MAX {
                        row[j] = row[j] + 1;
                    }
                }
                std::mem::swap(&mut self.wins, &mut wins);
                proof {
                    assert(self.cells() =~~= recorded(old(self).cells(), *outcome));
                }
            },
            LabelledOutcome::Draw(first, second) => {},
        }
    }

    /// Whether `player` has a decisive match against another player on record.
    pub fn has_played(&self, player: PlayerId) -> (played: bool)
        ensures
            played == has_played(self.cells(), player as int),
    {
        proof {
            use_type_invariant(self);
        }
        let size = self.wins.len();
        if player >= size {
            return false;
        }
        let mut other: usize = 0;
        while other < size
            invariant
                other <= size,
                size == self.wins@.len(),
                player < size,
                forall|i: int|
                    0 <= i < self.wins@.len() ==> (#[trigger] self.wins@[i])@.len()
                        == self.wins@.len(),
                forall|seen: int| 0 <= seen < other ==> !have_met(self.cells(), player as int, seen),
            decreases size - other,
        {
            if other != player && (self.wins[player][other] > 0 || self.wins[other][player] > 0) {
                proof {
                    assert(have_met(self.cells(), player as int, other as int));
                }
                return true;
            }
            other = other + 1;
        }
        false
    }

    /// The first player without a decisive match on record, if there is one.
    pub fn first_without_match(&self) -> (found: Option<PlayerId>)
        ensures
            match found {
                Some(player) => {
                    &&& player < self.cells().len()
                    &&& !has_played(self.cells(), player as int)
                    &&& forall|before: int|
                        0 <= before < player ==> has_played(self.cells(), before)
                },
                None => forall|player: int|
                    0 <= player < self.cells().len() ==> has_played(self.cells(), player),
            },
    {
        let size = self.size();
        let mut player: usize = 0;
        while player < size
            invariant
                player <= size,
                size == self.cells().len(),
                forall|before: int| 0 <= before < player ==> has_played(self.cells(), before),
            decreases size - player,
        {
            if !self.has_played(player) {
                return Some(player);
            }
            player = player + 1;
        }
        None
    }

    /// The table of wins, row by row.
    pub fn rows(&self) -> (rows: Vec<Vec<u64>>)
        ensures
            rows@.len() == self.cells().len(),
            forall|i: int| 0 <= i < rows@.len() ==> (#[trigger] rows@[i])@ == self.cells()[i],
    {
        proof {
            use_type_invariant(self);
        }
        let size = self.wins.len();
        let mut rows: Vec<Vec<u64>> = Vec::new();
        let mut i: usize = 0;
        while i < size
            invariant
                i <= size,
                size == self.wins@.len(),
                rows@.len() == i,
                forall|k: int|
                    0 <= k < self.wins@.len() ==> (#[trigger] self.wins@[k])@.len()
                        == self.wins@.len(),
                forall|k: int| 0 <= k < i ==> (#[trigger] rows@[k])@ == self.wins@[k]@,
            decreases size - i,
        {
            let mut row: Vec<u64> = Vec::new();
            let mut j: usize = 0;
            while j < size
                invariant
                    j <= size,
                    i < size,
                    size == self.wins@.len(),
                    self.wins@[i as int]@.len() == size,
                    row@.len() == j,
                    forall|k: int| 0 <= k < j ==> row@[k] == self.wins@[i as int]@[k],
                decreases size - j,
            {
                row.push(self.wins[i][j]);
                j = j + 1;
            }
            proof {
                assert(row@ =~= self.wins@[i as int]@);
            }
            rows.push(row);
            i = i + 1;
        }
        rows
    }
}

impl<M: Match> ScoringSystem<M> for WinMatrix {
    /// The table changes as `recorded` says. The game's own result is not
    /// looked at.
    open spec fn follows(
        &self,
        before: &Self,
        outcome: LabelledOutcome,
        match_result: M::MatchResult,
    ) -> bool {
        self.cells() == recorded(before.cells(), outcome)
    }

    fn report(&mut self, outcome: &LabelledOutcome, match_result: &M::MatchResult)
        ensures
            final(self).cells() == recorded(old(self).cells(), *outcome),
    {
        self.record(outcome);
    }
}

/// Two wins can be counted in either order.
pub proof fn lemma_wins_commute(
    wins: Wins,
    winner1: PlayerId,
    loser1: PlayerId,
    winner2: PlayerId,
    loser2: PlayerId,
)
    ensures
        won(won(wins, winner1, loser1), winner2, loser2) == won(
            won(wins, winner2, loser2),
            winner1,
            loser1,
        ),
{
    assert(won(won(wins, winner1, loser1), winner2, loser2) =~~= won(
        won(wins, winner2, loser2),
        winner1,
        loser1,
    ));
}

/// The table of wins does not depend on the order in which two matches are
/// recorded.
pub proof fn lemma_records_commute(wins: Wins, first: LabelledOutcome, second: LabelledOutcome)
    ensures
        recorded(recorded(wins, first), second) == recorded(recorded(wins, second), first),
{
    match (first, second) {
        (
            LabelledOutcome::Win { winner: w1, loser: l1 },
            LabelledOutcome::Win { winner: w2, loser: l2 },
        ) => {
            lemma_wins_commute(wins, w1.id(), l1.id(), w2.id(), l2.id());
        },
        _ => {},
    }
}

/// The table of wins after a run of matches depends on which matches were
/// recorded, not on the order in which they came: two runs that hold the same
/// matches, each as often as the other, end in the same table.
pub proof fn lemma_accumulated_ignores_order(
    wins: Wins,
    outcomes1: Seq<LabelledOutcome>,
    outcomes2: Seq<LabelledOutcome>,
)
    requires
        outcomes1.to_multiset() == outcomes2.to_multiset(),
    ensures
        accumulated(wins, outcomes1) == accumulated(wins, outcomes2),
{
    let step = |w: Wins, outcome: LabelledOutcome| recorded(w, outcome);
    assert(commutative_foldl(step)) by {
        assert forall|x: LabelledOutcome, y: LabelledOutcome, v: Wins| #[trigger]
            step(step(v, x), y) == step(step(v, y), x) by {
            lemma_records_commute(v, x, y);
        }
    }
    lemma_fold_left_permutation(outcomes1, outcomes2, step, wins);
}

/// Recording an outcome leaves the table square, and a decisive match between
/// two different players of the table is then on record for both.
pub proof fn lemma_recorded_match(wins: Wins, outcome: LabelledOutcome)
    requires
        is_square(wins),
    ensures
        is_square(recorded(wins, outcome)),
        recorded(wins, outcome).len() == wins.len(),
        outcome matches LabelledOutcome::Win { winner, loser } ==> (winner.id() < wins.len()
            && loser.id() < wins.len() && winner.id() != loser.id() ==> has_played(
            recorded(wins, outcome),
            winner.id() as int,
        ) && has_played(recorded(wins, outcome), loser.id() as int)),
{
    match outcome {
        LabelledOutcome::Win { winner, loser } => {
            let after = recorded(wins, outcome);
            let w = winner.id() as int;
            let l = loser.id() as int;
            if w < wins.len() && l < wins.len() {
                assert forall|i: int| 0 <= i < after.len() implies (#[trigger] after[i]).len()
                    == after.len() by {
                    assert(wins[i].len() == wins.len());
                }
                if w != l {
                    assert(have_met(after, w, l));
                    assert(have_met(after, l, w));
                }
            }
        },
        LabelledOutcome::Draw(first, second) => {},
    }
}

} // verus!
