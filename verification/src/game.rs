//! Matches, their raw outcomes, and outcomes attributed to players.

use crate::player::{Player, PlayerData, PlayerId};
use vstd::prelude::*;

verus! {

/// `anyhow::Error`: the failure of a match playout, as the game reports it, or
/// the reason why a scheduler cannot tell its next pairing yet. Nothing is
/// claimed about such a value. The library never looks inside: it carries the
/// value from the game to the caller.
#[verifier::external_type_specification]
#[verifier::external_body]
pub struct ExPlayoutError(anyhow::Error);

/// Who won a match, told by seat: the first player moves first.
#[derive(Debug, Clone, Copy, PartialEq, Eq, Structural)]
pub enum Outcome {
    WinP1,
    WinP2,
    Draw,
}

/// The result of a finished match, as far as the tournament needs it.
pub trait MatchResult {
    /// Whether `outcome` is an outcome that this result may tell. Each kind of
    /// result says for itself which outcome it tells; one that says nothing
    /// may tell any.
    open spec fn has_outcome(&self, outcome: Outcome) -> bool {
        true
    }

    fn outcome(&self) -> (outcome: Outcome)
        ensures
            self.has_outcome(outcome),
    ;
}

/// An outcome attributed to the players who took part, by snapshots of their
/// identity taken when the match was submitted.
#[derive(Debug)]
pub enum LabelledOutcome {
    Win { winner: PlayerData, loser: PlayerData },
    Draw(PlayerData, PlayerData),
}

impl Clone for LabelledOutcome {
    fn clone(&self) -> (copy: Self)
        ensures
            copy == *self,
    {
        match self {
            LabelledOutcome::Win { winner, loser } => LabelledOutcome::Win {
                winner: winner.clone(),
                loser: loser.clone(),
            },
            LabelledOutcome::Draw(first, second) => LabelledOutcome::Draw(
                first.clone(),
                second.clone(),
            ),
        }
    }
}

impl LabelledOutcome {
    /// The attribution of `outcome` to `player1`, who held the first seat, and
    /// `player2`, who held the second.
    pub open spec fn attribute(outcome: Outcome, player1: PlayerData, player2: PlayerData) -> Self {
        match outcome {
            Outcome::WinP1 => LabelledOutcome::Win { winner: player1, loser: player2 },
            Outcome::WinP2 => LabelledOutcome::Win { winner: player2, loser: player1 },
            Outcome::Draw => LabelledOutcome::Draw(player1, player2),
        }
    }

    pub fn new(outcome: Outcome, player1: PlayerData, player2: PlayerData) -> (labelled: Self)
        ensures
            labelled == Self::attribute(outcome, player1, player2),
    {
        match outcome {
            Outcome::WinP1 => LabelledOutcome::Win { winner: player1, loser: player2 },
            Outcome::WinP2 => LabelledOutcome::Win { winner: player2, loser: player1 },
            Outcome::Draw => LabelledOutcome::Draw(player1, player2),
        }
    }
}

/// A game between two agents. A match is built afresh for every pairing and
/// shares nothing with any other match.
pub trait Match: Sized {
    /// All agents must be of the same type. If this is not the case,
    /// then you can box a trait object.
    type Agent: Send;

    /// The outcome of a match.
    type MatchResult: MatchResult + Send + core::fmt::Debug;

    /// Create a new match between two agents.
    ///
    /// Agents are generated before each match, and can therefore be consumed by
    /// this function. By convention, the first player should always start the
    /// game.
    fn new(player1: Player<Self>, player2: Player<Self>) -> Self;

    /// Play the match and return the result.
    /// If the match cannot be played, return an error.
    fn playout(&mut self) -> Result<Self::MatchResult, anyhow::Error>;
}

/// Why a pairing gave no result. Such a failure ends one match, never the
/// tournament.
#[derive(Debug)]
pub enum MatchError {
    /// No player is registered under the id.
    PlayerNotFound(PlayerId),
    /// The playout failed; the game says why.
    Playout(anyhow::Error),
}

impl MatchError {
    /// A short description of the failure, for display.
    pub fn message(&self) -> (text: &'static str)
        ensures
            self is PlayerNotFound ==> text == "player not found",
            self is Playout ==> text == "match playout failed",
    {
        match self {
            MatchError::PlayerNotFound(_) => "player not found",
            MatchError::Playout(_) => "match playout failed",
        }
    }
}

/// What a pairing yields: the attributed outcome beside the game's own result,
/// or the reason why there is none.
pub type MatchReport<R> = Result<(LabelledOutcome, R), MatchError>;

/// Whether `labelled` attributes an outcome that `result` tells to the two
/// players, in this order of seats.
pub open spec fn is_attribution_of<R: MatchResult>(
    labelled: LabelledOutcome,
    result: R,
    player1: PlayerData,
    player2: PlayerData,
) -> bool {
    exists|outcome: Outcome|
        result.has_outcome(outcome) && labelled == LabelledOutcome::attribute(
            outcome,
            player1,
            player2,
        )
}

/// Plays one match between two freshly generated players: builds the match,
/// runs its playout, and attributes the outcome to the two players. A failed
/// playout is handed on, never dropped.
pub fn play_match<M: Match>(player1: Player<M>, player2: Player<M>) -> (played: MatchReport<
    M::MatchResult,
>)
    ensures
        played matches Ok(pair) ==> is_attribution_of(
            pair.0,
            pair.1,
            player1.data(),
            player2.data(),
        ),
        played matches Err(failure) ==> failure is Playout,
{
    let data1 = player1.data();
    let data2 = player2.data();
    let mut game = M::new(player1, player2);
    match game.playout() {
        Ok(result) => {
            let outcome = result.outcome();
            let labelled = LabelledOutcome::new(outcome, data1, data2);
            assert(result.has_outcome(outcome) && labelled == LabelledOutcome::attribute(
                outcome,
                data1,
                data2,
            ));
            Ok((labelled, result))
        },
        Err(failure) => Err(MatchError::Playout(failure)),
    }
}

} // verus!
