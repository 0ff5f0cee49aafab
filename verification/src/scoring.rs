//! Scores: how the outcomes of matches become a table of points.

use crate::game::{LabelledOutcome, Match};
use crate::player::PlayerId;
use std::collections::HashMap;
use vstd::prelude::*;
use vstd::seq_lib::{commutative_foldl, lemma_fold_left_permutation};

verus! {

broadcast use vstd::std_specs::hash::group_hash_axioms;

/// A scoring system is told of every finished match and keeps the scores.
pub trait ScoringSystem<M: Match> {
    /// Whether `self` is what `before` becomes when a match with this outcome
    /// and this result is reported to it. Each scoring system says for itself
    /// what a report changes; one that says nothing may change in any way.
    open spec fn follows(
        &self,
        before: &Self,
        outcome: LabelledOutcome,
        match_result: M::MatchResult,
    ) -> bool {
        true
    }

    /// Updates the scores table based on the result of a match.
    fn report(&mut self, outcome: &LabelledOutcome, match_result: &M::MatchResult)
        ensures
            final(self).follows(old(self), *outcome, *match_result),
    ;
}

/// Points for the winner of a decisive match. The loser gets none.
pub const WIN_POINTS: i32 = 2;

/// Points for each side of a drawn match.
pub const DRAW_POINTS: i32 = 1;

/// A score table: the points of every player it knows.
pub type ScoreTable = Map<PlayerId, i32>;

/// `score`, held at the largest score that the table can store.
pub open spec fn capped(score: int) -> i32 {
    if score > i32::MAX {
        i32::MAX
    } else {
        score as i32
    }
}

/// The table after `points` were awarded to `id`. A player whom the table does
/// not know gets nothing, and is not entered.
pub open spec fn awarded(table: ScoreTable, id: PlayerId, points: i32) -> ScoreTable {
    if table.contains_key(id) {
        table.insert(id, capped(table[id] + points))
    } else {
        table
    }
}

/// The table after one outcome was reported: 2 points to the winner of a
/// decisive match and none to the loser, 1 point to each side of a draw.
pub open spec fn reported(table: ScoreTable, outcome: LabelledOutcome) -> ScoreTable {
    match outcome {
        LabelledOutcome::Win { winner, loser } => awarded(table, winner.id(), WIN_POINTS),
        LabelledOutcome::Draw(first, second) => awarded(
            awarded(table, first.id(), DRAW_POINTS),
            second.id(),
            DRAW_POINTS,
        ),
    }
}

/// The table after a sequence of outcomes was reported, one after the other.
pub open spec fn tally(table: ScoreTable, outcomes: Seq<LabelledOutcome>) -> ScoreTable {
    outcomes.fold_left(table, |t: ScoreTable, outcome: LabelledOutcome| reported(t, outcome))
}

/// The points that one outcome is worth to the player `id`.
pub open spec fn points_in(outcome: LabelledOutcome, id: PlayerId) -> nat {
    match outcome {
        LabelledOutcome::Win { winner, loser } => if winner.id() == id {
            2
        } else {
            0
        },
        LabelledOutcome::Draw(first, second) => (if first.id() == id {
            1nat
        } else {
            0nat
        }) + (if second.id() == id {
            1nat
        } else {
            0nat
        }),
    }
}

/// The number of matches among `outcomes` that the player `id` won.
pub open spec fn wins(outcomes: Seq<LabelledOutcome>, id: PlayerId) -> nat
    decreases outcomes.len(),
{
    if outcomes.len() == 0 {
        0
    } else {
        wins(outcomes.drop_last(), id) + match outcomes.last() {
            LabelledOutcome::Win { winner, loser } => if winner.id() == id {
                1nat
            } else {
                0nat
            },
            LabelledOutcome::Draw(first, second) => 0nat,
        }
    }
}

/// The number of seats in drawn matches among `outcomes` that the player `id`
/// held.
pub open spec fn draws(outcomes: Seq<LabelledOutcome>, id: PlayerId) -> nat
    decreases outcomes.len(),
{
    if outcomes.len() == 0 {
        0
    } else {
        draws(outcomes.drop_last(), id) + match outcomes.last() {
            LabelledOutcome::Win { winner, loser } => 0nat,
            LabelledOutcome::Draw(first, second) => points_in(outcomes.last(), id),
        }
    }
}

/// The default scoring: 2 points for a win, 1 point for each side of a draw,
/// nothing for a loss. Only the players named at construction have a score.
pub struct DefaultScoring {
    player_scores: HashMap<PlayerId, i32>,
}

impl DefaultScoring {
    /// The score table.
    pub closed spec fn scores(&self) -> ScoreTable {
        self.player_scores@
    }

    /// A table in which each of `players` has 0 points.
    pub fn new(players: Vec<PlayerId>) -> (scoring: Self)
        ensures
            forall|id: PlayerId| scoring.scores().contains_key(id) <==> players@.contains(id),
            forall|id: PlayerId| players@.contains(id) ==> scoring.scores()[id] == 0,
    {
        let mut player_scores: HashMap<PlayerId, i32> = HashMap::new();
        let mut next: usize = 0;
        while next < players.len()
            invariant
                next <= players@.len(),
                forall|id: PlayerId|
                    player_scores@.contains_key(id) <==> players@.take(next as int).contains(id),
                forall|id: PlayerId| player_scores@.contains_key(id) ==> player_scores@[id] == 0,
            decreases players@.len() - next,
        {
            let id = players[next];
            player_scores.insert(id, 0);
            proof {
                let before = players@.take(next as int);
                let after = players@.take(next + 1);
                assert(after =~= before.push(id));
                assert forall|other: PlayerId| after.contains(other) <==> before.contains(other)
                    || other == id by {
                    if before.contains(other) {
                        let at = choose|i: int| 0 <= i < before.len() && before[i] == other;
                        assert(after[at] == other);
                    }
                    if other == id {
                        assert(after[next as int] == id);
                    }
                }
            }
            next = next + 1;
        }
        proof {
            assert(players@.take(next as int) =~= players@);
        }
        DefaultScoring { player_scores }
    }

    /// The score of a player, if the table knows the player.
    pub fn score(&self, id: PlayerId) -> (score: Option<i32>)
        ensures
            score == if self.scores().contains_key(id) {
                Some(self.scores()[id])
            } else {
                None
            },
    {
        match self.player_scores.get(&id) {
            Some(score) => Some(*score),
            None => None,
        }
    }

    /// Awards `points` to the player `id`, if the table knows the player.
    fn award(&mut self, id: PlayerId, points: i32)
        requires
            0 <= points,
        ensures
            final(self).scores() == awarded(old(self).scores(), id, points),
    {
        let current = self.score(id);
        if let Some(score) = current {
            let raised = if score > i32::MAX - points {
                i32::MAX
            } else {
                score + points
            };
            self.player_scores.insert(id, raised);
        }
    }

}

impl<M: Match> ScoringSystem<M> for DefaultScoring {
    /// The table changes as `reported` says. The game's own result is not
    /// looked at.
    open spec fn follows(
        &self,
        before: &Self,
        outcome: LabelledOutcome,
        match_result: M::MatchResult,
    ) -> bool {
        self.scores() == reported(before.scores(), outcome)
    }

    fn report(&mut self, outcome: &LabelledOutcome, match_result: &M::MatchResult)
        ensures
            final(self).scores() == reported(old(self).scores(), *outcome),
    {
        match outcome {
            LabelledOutcome::Win { winner, loser } => {
                self.award(winner.id(), WIN_POINTS);
            },
            LabelledOutcome::Draw(first, second) => {
                self.award(first.id(), DRAW_POINTS);
                self.award(second.id(), DRAW_POINTS);
            },
        }
    }
}

/// Awarding points never changes which players the table knows.
pub proof fn lemma_awarded_keeps_players(table: ScoreTable, id: PlayerId, points: i32)
    ensures
        awarded(table, id, points).dom() == table.dom(),
{
    assert(awarded(table, id, points).dom() =~= table.dom());
}

/// Two awards of points can be made in either order.
pub proof fn lemma_awards_commute(
    table: ScoreTable,
    id1: PlayerId,
    points1: i32,
    id2: PlayerId,
    points2: i32,
)
    requires
        0 <= points1,
        0 <= points2,
    ensures
        awarded(awarded(table, id1, points1), id2, points2) == awarded(
            awarded(table, id2, points2),
            id1,
            points1,
        ),
{
    assert(awarded(awarded(table, id1, points1), id2, points2) =~= awarded(
        awarded(table, id2, points2),
        id1,
        points1,
    ));
}

/// The score table does not depend on the order in which two matches are
/// reported.
pub proof fn lemma_reports_commute(table: ScoreTable, first: LabelledOutcome, second: LabelledOutcome)
    ensures
        reported(reported(table, first), second) == reported(reported(table, second), first),
{
    match (first, second) {
        (
            LabelledOutcome::Win { winner: w1, loser: l1 },
            LabelledOutcome::Win { winner: w2, loser: l2 },
        ) => {
            lemma_awards_commute(table, w1.id(), WIN_POINTS, w2.id(), WIN_POINTS);
        },
        (LabelledOutcome::Win { winner: w1, loser: l1 }, LabelledOutcome::Draw(a2, b2)) => {
            lemma_awards_commute(table, w1.id(), WIN_POINTS, a2.id(), DRAW_POINTS);
            lemma_awards_commute(
                awarded(table, a2.id(), DRAW_POINTS),
                w1.id(),
                WIN_POINTS,
                b2.id(),
                DRAW_POINTS,
            );
        },
        (LabelledOutcome::Draw(a1, b1), LabelledOutcome::Win { winner: w2, loser: l2 }) => {
            lemma_awards_commute(table, w2.id(), WIN_POINTS, a1.id(), DRAW_POINTS);
            lemma_awards_commute(
                awarded(table, a1.id(), DRAW_POINTS),
                w2.id(),
                WIN_POINTS,
                b1.id(),
                DRAW_POINTS,
            );
        },
        (LabelledOutcome::Draw(a1, b1), LabelledOutcome::Draw(a2, b2)) => {
            let t = table;
            let p = DRAW_POINTS;
            // a1 b1 a2 b2 -> a1 a2 b1 b2 -> a2 a1 b1 b2 -> a2 a1 b2 b1 -> a2 b2 a1 b1
            lemma_awards_commute(awarded(t, a1.id(), p), b1.id(), p, a2.id(), p);
            lemma_awards_commute(t, a1.id(), p, a2.id(), p);
            lemma_awards_commute(
                awarded(awarded(t, a2.id(), p), a1.id(), p),
                b1.id(),
                p,
                b2.id(),
                p,
            );
            lemma_awards_commute(awarded(t, a2.id(), p), a1.id(), p, b2.id(), p);
        },
    }
}

/// The score table after a run of matches depends on which matches were
/// reported, not on the order of the reports: two runs that hold the same
/// matches, each as often as the other, end in the same table.
pub proof fn lemma_tally_ignores_order(
    table: ScoreTable,
    outcomes1: Seq<LabelledOutcome>,
    outcomes2: Seq<LabelledOutcome>,
)
    requires
        outcomes1.to_multiset() == outcomes2.to_multiset(),
    ensures
        tally(table, outcomes1) == tally(table, outcomes2),
{
    let step = |t: ScoreTable, outcome: LabelledOutcome| reported(t, outcome);
    assert(commutative_foldl(step)) by {
        assert forall|x: LabelledOutcome, y: LabelledOutcome, v: ScoreTable| #[trigger]
            step(step(v, x), y) == step(step(v, y), x) by {
            lemma_reports_commute(v, x, y);
        }
    }
    lemma_fold_left_permutation(outcomes1, outcomes2, step, table);
}

/// The score of a player after a run of matches: what the player had before,
/// plus 2 points for each match won and 1 point for each seat in a drawn
/// match, held at the largest score that the table can store. Lost matches add
/// nothing. The table knows the same players as before.
pub proof fn lemma_tally_counts(table: ScoreTable, outcomes: Seq<LabelledOutcome>, id: PlayerId)
    requires
        table.contains_key(id),
    ensures
        tally(table, outcomes).dom() == table.dom(),
        tally(table, outcomes)[id] == capped(
            table[id] + 2 * wins(outcomes, id) + draws(outcomes, id),
        ),
    decreases outcomes.len(),
{
    if outcomes.len() > 0 {
        let before = tally(table, outcomes.drop_last());
        lemma_tally_counts(table, outcomes.drop_last(), id);
        match outcomes.last() {
            LabelledOutcome::Win { winner, loser } => {
                lemma_awarded_keeps_players(before, winner.id(), WIN_POINTS);
            },
            LabelledOutcome::Draw(first, second) => {
                lemma_awarded_keeps_players(before, first.id(), DRAW_POINTS);
                lemma_awarded_keeps_players(
                    awarded(before, first.id(), DRAW_POINTS),
                    second.id(),
                    DRAW_POINTS,
                );
            },
        }
    }
}

} // verus!
