use std::sync::Arc;
use tournament_rs::executor::{
    Executor, ExecutorAction, ExecutorError, ExecutorEvent, TerminationCondition,
};
use tournament_rs::game::{LabelledOutcome, Match, MatchError, MatchResult, Outcome};
use tournament_rs::player::{Player, PlayerGen, PlayerRepository};

/// A game in which the stronger agent wins, and an agent of strength 0 does
/// not turn up.
struct Duel {
    first: u32,
    second: u32,
}

#[derive(Debug)]
struct DuelResult(Outcome);

impl MatchResult for DuelResult {
    fn outcome(&self) -> Outcome {
        self.0
    }
}

impl Match for Duel {
    type Agent = u32;
    type MatchResult = DuelResult;

    fn new(player1: Player<Self>, player2: Player<Self>) -> Self {
        Duel { first: player1.unpack(), second: player2.unpack() }
    }

    fn playout(&mut self) -> Result<DuelResult, anyhow::Error> {
        if self.first == 0 || self.second == 0 {
            Err(anyhow::Error::msg("a player did not turn up"))
        } else if self.first > self.second {
            Ok(DuelResult(Outcome::WinP1))
        } else if self.first < self.second {
            Ok(DuelResult(Outcome::WinP2))
        } else {
            Ok(DuelResult(Outcome::Draw))
        }
    }
}

type Factory = fn() -> u32;

fn absent() -> u32 {
    0
}

fn weak() -> u32 {
    1
}

fn strong() -> u32 {
    9
}

/// Players 0 (weak), 1 (strong) and 2 (absent).
fn executor() -> Executor<Duel, Factory> {
    let mut players = PlayerRepository::<Duel, Factory>::new();
    players.add_player(PlayerGen::new(weak as Factory).with_name("Weak"));
    players.add_player(PlayerGen::new(strong as Factory).with_name("Strong"));
    players.add_player(PlayerGen::new(absent as Factory).with_name("Absent"));
    Executor::new(Arc::new(players))
}

#[test]
fn a_worker_begins_by_reading_the_stop_signal() {
    assert!(matches!(executor().begin(), ExecutorAction::ReadStopSignal));
}

#[test]
fn a_set_stop_signal_ends_the_run_before_any_pairing_is_taken() {
    assert!(matches!(
        executor().react(ExecutorEvent::StopSignal(true)),
        ExecutorAction::Stop(TerminationCondition::StopSignalReceived)
    ));
}

#[test]
fn without_the_stop_signal_a_pairing_is_taken() {
    assert!(matches!(
        executor().react(ExecutorEvent::StopSignal(false)),
        ExecutorAction::TakePairing
    ));
}

#[test]
fn the_end_of_the_pairings_ends_the_run() {
    assert!(matches!(
        executor().react(ExecutorEvent::Pairing(None)),
        ExecutorAction::Stop(TerminationCondition::NoMorePairings)
    ));
}

#[test]
fn a_pairing_is_played_and_its_result_sent() {
    match executor().react(ExecutorEvent::Pairing(Some((0, 1)))) {
        ExecutorAction::SendReport(Ok((LabelledOutcome::Win { winner, loser }, result))) => {
            assert_eq!((winner.id(), loser.id()), (1, 0));
            assert_eq!((winner.name(), loser.name()), ("Strong", "Weak"));
            assert_eq!(result.outcome(), Outcome::WinP2);
        }
        _ => panic!("the result of a win was to be sent"),
    }
    match executor().react(ExecutorEvent::Pairing(Some((1, 1)))) {
        ExecutorAction::SendReport(Ok((LabelledOutcome::Draw(first, second), _))) => {
            assert_eq!((first.id(), second.id()), (1, 1));
        }
        _ => panic!("the result of a draw was to be sent"),
    }
}

#[test]
fn an_unknown_player_is_reported_and_the_run_goes_on() {
    match executor().react(ExecutorEvent::Pairing(Some((0, 3)))) {
        ExecutorAction::SendReport(Err(MatchError::PlayerNotFound(id))) => assert_eq!(id, 3),
        _ => panic!("the failure was to be sent as a report"),
    }
    match executor().react(ExecutorEvent::Pairing(Some((7, 3)))) {
        ExecutorAction::SendReport(Err(MatchError::PlayerNotFound(id))) => assert_eq!(id, 7),
        _ => panic!("the failure was to be sent as a report"),
    }
    assert!(matches!(
        executor().react(ExecutorEvent::ResultSent),
        ExecutorAction::ReadStopSignal
    ));
}

#[test]
fn a_failed_playout_is_reported_and_the_run_goes_on() {
    match executor().react(ExecutorEvent::Pairing(Some((2, 1)))) {
        ExecutorAction::SendReport(Err(MatchError::Playout(reason))) => {
            assert_eq!(format!("{}", reason), "a player did not turn up");
        }
        _ => panic!("the failure was to be sent as a report"),
    }
}

#[test]
fn a_closed_pairing_queue_fails_the_run() {
    assert!(matches!(
        executor().react(ExecutorEvent::PairingQueueClosed),
        ExecutorAction::Fail(ExecutorError::PairingQueueClosed)
    ));
}

#[test]
fn a_refused_result_fails_the_run() {
    assert!(matches!(
        executor().react(ExecutorEvent::ResultRefused),
        ExecutorAction::Fail(ExecutorError::ResultChannelClosed)
    ));
}

#[test]
fn executor_errors_describe_themselves() {
    assert_eq!(
        ExecutorError::PairingQueueClosed.message(),
        "error receiving match pair from scheduler"
    );
    assert_eq!(
        ExecutorError::ResultChannelClosed.message(),
        "error sending match result to scoring policy"
    );
}

/// Drives a worker over a list of pairings. The stop signal is set once
/// `stop_after` results were sent. Returns the pairings that were taken and
/// how the run ended.
fn drive(
    pairings: &[(usize, usize)],
    stop_after: Option<usize>,
) -> (Vec<(usize, usize)>, TerminationCondition) {
    let worker = executor();
    let mut taken = Vec::new();
    let mut sent = 0;
    let mut action = worker.begin();
    loop {
        action = match action {
            ExecutorAction::ReadStopSignal => {
                worker.react(ExecutorEvent::StopSignal(stop_after == Some(sent)))
            }
            ExecutorAction::TakePairing => {
                let next = pairings.get(taken.len()).cloned();
                if let Some(pairing) = next {
                    taken.push(pairing);
                }
                worker.react(ExecutorEvent::Pairing(next))
            }
            ExecutorAction::SendReport(_) => {
                sent += 1;
                worker.react(ExecutorEvent::ResultSent)
            }
            ExecutorAction::Stop(reason) => return (taken, reason),
            ExecutorAction::Fail(_) => panic!("no channel is closed"),
        };
    }
}

#[test]
fn a_run_without_stop_signal_plays_every_pairing() {
    let pairings = [(0, 1), (1, 0), (2, 0), (0, 5)];
    let (taken, reason) = drive(&pairings, None);
    assert_eq!(taken, pairings.to_vec());
    assert!(matches!(reason, TerminationCondition::NoMorePairings));
}

#[test]
fn no_pairing_is_taken_after_the_stop_signal_was_seen() {
    let pairings = [(0, 1), (1, 0), (2, 0), (0, 5)];
    let (taken, reason) = drive(&pairings, Some(2));
    assert_eq!(taken, vec![(0, 1), (1, 0)]);
    assert!(matches!(reason, TerminationCondition::StopSignalReceived));
    let (taken, reason) = drive(&pairings, Some(0));
    assert!(taken.is_empty());
    assert!(matches!(reason, TerminationCondition::StopSignalReceived));
}
