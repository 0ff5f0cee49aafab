//! The decisions of a worker that takes pairings from a queue, plays them and
//! hands the results on, until it is told to stop or the work runs out.
//!
//! The worker's loop waits on channels and reads a flag that other threads
//! set. That part lies outside this library. Here are the worker's decisions:
//! what it does next, given what it has just learnt.

use crate::game::{is_attribution_of, play_match, Match, MatchError, MatchReport};
use crate::player::{PlayerData, PlayerId, PlayerRepository};
use std::sync::Arc;
use vstd::prelude::*;

verus! {

/// Why a run came to its end.
#[derive(Debug, Clone, Copy)]
pub enum TerminationCondition {
    StopSignalReceived,
    NoMorePairings,
    Custom(&'static str),
}

/// A failure of the channels that connect a worker to the rest. It ends the
/// whole run: nothing can be done about it from inside.
#[derive(Debug, Clone, Copy, PartialEq, Eq, Structural)]
pub enum ExecutorError {
    /// The queue of pairings is closed, though it never announced its end.
    PairingQueueClosed,
    /// Nobody takes results any more.
    ResultChannelClosed,
}

impl ExecutorError {
    /// A short description of the failure, for display.
    pub fn message(&self) -> (text: &'static str)
        ensures
            *self == ExecutorError::PairingQueueClosed ==> text
                == "error receiving match pair from scheduler",
            *self == ExecutorError::ResultChannelClosed ==> text
                == "error sending match result to scoring policy",
    {
        match self {
            ExecutorError::PairingQueueClosed => "error receiving match pair from scheduler",
            ExecutorError::ResultChannelClosed => "error sending match result to scoring policy",
        }
    }
}

/// What a worker has just learnt.
pub enum ExecutorEvent {
    /// The stop signal was read; `true` means that it is set.
    StopSignal(bool),
    /// The queue of pairings answered: a pairing, or `None` for the end of
    /// the work.
    Pairing(Option<(PlayerId, PlayerId)>),
    /// The queue of pairings is closed.
    PairingQueueClosed,
    /// The last result was handed over.
    ResultSent,
    /// The last result found no taker.
    ResultRefused,
}

/// What a worker does next.
pub enum ExecutorAction<R> {
    /// Read the stop signal.
    ReadStopSignal,
    /// Take the next pairing from the queue, waiting for it if need be.
    TakePairing,
    /// Hand this report over to whoever keeps the scores.
    SendReport(MatchReport<R>),
    /// End the run in good order.
    Stop(TerminationCondition),
    /// End the run with a failure.
    Fail(ExecutorError),
}

/// An executor is in charge of running matches. It receives pairs of players
/// from the scheduler and reports back the results to the scoring policy.
pub struct Executor<M: Match, G: Fn() -> M::Agent + Copy> {
    player_repository: Arc<PlayerRepository<M, G>>,
}

impl<M: Match, G: Fn() -> M::Agent + Copy> Executor<M, G> {
    /// The players that this executor draws on.
    pub closed spec fn repository(&self) -> PlayerRepository<M, G> {
        *self.player_repository
    }

    /// Creates a new executor.
    pub fn new(player_repository: Arc<PlayerRepository<M, G>>) -> (executor: Self)
        ensures
            executor.repository() == *player_repository,
    {
        Executor { player_repository }
    }

    /// The first thing a worker does: it reads the stop signal.
    pub fn begin(&self) -> (action: ExecutorAction<M::MatchResult>)
        ensures
            action is ReadStopSignal,
    {
        ExecutorAction::ReadStopSignal
    }

    /// Whether `report` is a report on `pairing`: the failure to find the first
    /// of its two players that the repository does not know, or else what a
    /// match between the two gave, which is the outcome that its result tells,
    /// attributed to the first and the second player, or the failure of the
    /// playout.
    pub open spec fn reports_on(
        &self,
        pairing: (PlayerId, PlayerId),
        report: MatchReport<M::MatchResult>,
    ) -> bool {
        let records = self.repository().records();
        if !records.contains_key(pairing.0) {
            report is Err && report->Err_0 == MatchError::PlayerNotFound(pairing.0)
        } else if !records.contains_key(pairing.1) {
            report is Err && report->Err_0 == MatchError::PlayerNotFound(pairing.1)
        } else {
            match report {
                Ok(played) => is_attribution_of(
                    played.0,
                    played.1,
                    PlayerData::of(records[pairing.0].info(), pairing.0),
                    PlayerData::of(records[pairing.1].info(), pairing.1),
                ),
                Err(failure) => failure is Playout,
            }
        }
    }

    /// Plays one pairing: generates the two players, first seat first, and
    /// plays the match between them. An id that the repository does not know
    /// gives a report of that failure, and no match is played.
    pub fn play(&self, pairing: (PlayerId, PlayerId)) -> (report: MatchReport<M::MatchResult>)
        ensures
            self.reports_on(pairing, report),
    {
        let first = match self.player_repository.get_instance(pairing.0) {
            Ok(player) => player,
            Err(_) => {
                return Err(MatchError::PlayerNotFound(pairing.0));
            },
        };
        let second = match self.player_repository.get_instance(pairing.1) {
            Ok(player) => player,
            Err(_) => {
                return Err(MatchError::PlayerNotFound(pairing.1));
            },
        };
        play_match(first, second)
    }

    /// What the worker does next, given what it has just learnt.
    ///
    /// Once the stop signal is seen set, the run ends at once: no pairing is
    /// taken any more. A pairing that was taken is played and reported, also
    /// when it fails: a failed match ends no run. Only the end of the work and
    /// a broken channel end it.
    pub fn react(&self, event: ExecutorEvent) -> (action: ExecutorAction<M::MatchResult>)
        ensures
            match event {
                ExecutorEvent::StopSignal(set) => if set {
                    action matches ExecutorAction::Stop(TerminationCondition::StopSignalReceived)
                } else {
                    action is TakePairing
                },
                ExecutorEvent::Pairing(None) => action matches ExecutorAction::Stop(
                    TerminationCondition::NoMorePairings,
                ),
                ExecutorEvent::Pairing(Some(pairing)) => action is SendReport && self.reports_on(
                    pairing,
                    action->SendReport_0,
                ),
                ExecutorEvent::PairingQueueClosed => action matches ExecutorAction::Fail(
                    ExecutorError::PairingQueueClosed,
                ),
                ExecutorEvent::ResultSent => action is ReadStopSignal,
                ExecutorEvent::ResultRefused => action matches ExecutorAction::Fail(
                    ExecutorError::ResultChannelClosed,
                ),
            },
    {
        match event {
            ExecutorEvent::StopSignal(set) => {
                if set {
                    ExecutorAction::Stop(TerminationCondition::StopSignalReceived)
                } else {
                    ExecutorAction::TakePairing
                }
            },
            ExecutorEvent::Pairing(None) => ExecutorAction::Stop(
                TerminationCondition::NoMorePairings,
            ),
            ExecutorEvent::Pairing(Some(pairing)) => ExecutorAction::SendReport(self.play(pairing)),
            ExecutorEvent::PairingQueueClosed => ExecutorAction::Fail(
                ExecutorError::PairingQueueClosed,
            ),
            ExecutorEvent::ResultSent => ExecutorAction::ReadStopSignal,
            ExecutorEvent::ResultRefused => ExecutorAction::Fail(ExecutorError::ResultChannelClosed),
        }
    }
}

} // verus!
