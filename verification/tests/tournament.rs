use std::sync::mpsc;
use threadpool::ThreadPool;
use tournament_rs::executor::TerminationCondition;
use tournament_rs::game::{
    play_match, LabelledOutcome, Match, MatchError, MatchReport, MatchResult, Outcome,
};
use tournament_rs::player::{Player, PlayerGen, PlayerId, PlayerRepository};
use tournament_rs::scheduling::{RoundRobbinScheduler, Scheduler};
use tournament_rs::scoring::{DefaultScoring, ScoringSystem};
use tournament_rs::tournaments::{Step, Tournament};

/// A game in which the stronger agent wins, equal agents draw, and an agent of
/// strength 0 does not turn up.
struct Duel {
    first: u32,
    second: u32,
}

#[derive(Debug)]
struct DuelResult(Outcome);

impl MatchResult for DuelResult {
    fn outcome(&self) -> Outcome {
        self.0
    }
}

impl Match for Duel {
    type Agent = u32;
    type MatchResult = DuelResult;

    fn new(player1: Player<Self>, player2: Player<Self>) -> Self {
        Duel { first: player1.unpack(), second: player2.unpack() }
    }

    fn playout(&mut self) -> Result<DuelResult, anyhow::Error> {
        if self.first == 0 || self.second == 0 {
            Err(anyhow::Error::msg("a player did not turn up"))
        } else if self.first > self.second {
            Ok(DuelResult(Outcome::WinP1))
        } else if self.first < self.second {
            Ok(DuelResult(Outcome::WinP2))
        } else {
            Ok(DuelResult(Outcome::Draw))
        }
    }
}

type Factory = fn() -> u32;

fn absent() -> u32 {
    0
}

fn one() -> u32 {
    1
}

fn two() -> u32 {
    2
}

fn three() -> u32 {
    3
}

/// Players 0 to 5 of strengths 1, 2, 3, 3, 2, 1.
fn six_players() -> PlayerRepository<Duel, Factory> {
    let mut players = PlayerRepository::<Duel, Factory>::new();
    for factory in [one, two, three, three, two, one] {
        players.add_player(PlayerGen::new(factory as Factory));
    }
    players
}

/// A scheduler that hands out a list of pairings, first to last.
struct Listed {
    pairings: Vec<(PlayerId, PlayerId)>,
    next: usize,
    asked: usize,
}

impl Listed {
    fn new(pairings: Vec<(PlayerId, PlayerId)>) -> Self {
        Listed { pairings, next: 0, asked: 0 }
    }
}

impl Scheduler for Listed {
    fn init(&mut self) {}

    fn get(&mut self) -> Option<(PlayerId, PlayerId)> {
        self.asked += 1;
        let pairing = self.pairings.get(self.next).cloned();
        if pairing.is_some() {
            self.next += 1;
        }
        pairing
    }
}

/// A scheduler that never knows the next pairing yet.
struct Undecided;

impl Scheduler for Undecided {
    fn init(&mut self) {}

    fn get(&mut self) -> Option<(PlayerId, PlayerId)> {
        panic!("get would block")
    }

    fn try_get(&mut self) -> Result<Option<(PlayerId, PlayerId)>, anyhow::Error> {
        Err(anyhow::Error::msg("the next pairing depends on a running match"))
    }
}

/// A scoring system that counts the reports.
struct Counting {
    reports: usize,
}

impl ScoringSystem<Duel> for Counting {
    fn report(&mut self, _outcome: &LabelledOutcome, _match_result: &DuelResult) {
        self.reports += 1;
    }
}

fn scores(scoring: &DefaultScoring, count: usize) -> Vec<Option<i32>> {
    (0..count).map(|id| scoring.score(id)).collect()
}

/// Runs a round-robin tournament of the six players without threads. A match
/// is played when it finishes; of the matches that are running, the oldest
/// finishes first, or the newest. Returns the scores and the largest number
/// of matches that were running at once.
fn run_in_turn(threads: usize, newest_first: bool) -> (Vec<Option<i32>>, usize, usize) {
    let players = six_players();
    let mut tournament = Tournament::new(
        RoundRobbinScheduler::new(players.ids()),
        DefaultScoring::new(players.ids()),
        players,
    );
    tournament.set_threads(threads);
    tournament.init();

    let mut running: Vec<(Player<Duel>, Player<Duel>)> = Vec::new();
    let mut most = 0;
    let mut finished = 0;
    loop {
        match tournament.next_step() {
            Step::Play(player1, player2) => {
                running.push((player1, player2));
                assert_eq!(tournament.active_matches(), running.len());
                assert!(running.len() <= threads);
                most = most.max(running.len());
            }
            Step::Report(_) => panic!("every player is known"),
            Step::Wait => {
                assert!(!running.is_empty());
                let (player1, player2) = if newest_first {
                    running.pop().unwrap()
                } else {
                    running.remove(0)
                };
                let report = play_match(player1, player2);
                tournament.complete(&report);
                finished += 1;
            }
            Step::Finished(reason) => {
                assert!(matches!(reason, TerminationCondition::NoMorePairings));
                assert!(running.is_empty());
                break;
            }
        }
    }
    (scores(tournament.scoring_policy(), 6), most, finished)
}

/// Runs the same tournament on a pool of worker threads.
fn run_on_pool(threads: usize) -> Vec<Option<i32>> {
    let players = six_players();
    let mut tournament = Tournament::new(
        RoundRobbinScheduler::new(players.ids()),
        DefaultScoring::new(players.ids()),
        players,
    );
    tournament.set_threads(threads);
    tournament.init();

    let pool = ThreadPool::new(threads);
    let (sender, results) = mpsc::channel::<MatchReport<DuelResult>>();
    loop {
        match tournament.next_step() {
            Step::Play(player1, player2) => {
                let sender = sender.clone();
                pool.execute(move || {
                    sender.send(play_match(player1, player2)).unwrap();
                });
            }
            Step::Report(_) => panic!("every player is known"),
            Step::Wait => {
                let report = results.recv().unwrap();
                tournament.complete(&report);
            }
            Step::Finished(_) => break,
        }
    }
    scores(tournament.scoring_policy(), 6)
}

/// Strengths 1, 2, 3, 3, 2, 1: a player of strength 3 beats four and draws
/// once, one of strength 2 beats two and draws once, one of strength 1 draws
/// once.
fn expected_scores() -> Vec<Option<i32>> {
    vec![Some(1), Some(5), Some(9), Some(9), Some(5), Some(1)]
}

#[test]
fn one_worker_plays_the_whole_schedule() {
    let (table, most, finished) = run_in_turn(1, false);
    assert_eq!(table, expected_scores());
    assert_eq!(most, 1);
    assert_eq!(finished, 15);
}

#[test]
fn eight_workers_give_the_same_table_as_one() {
    let (one, _, _) = run_in_turn(1, false);
    let (eight, most, finished) = run_in_turn(8, false);
    assert_eq!(one, eight);
    assert_eq!(most, 8);
    assert_eq!(finished, 15);
}

#[test]
fn the_order_in_which_matches_finish_does_not_change_the_table() {
    for threads in [1usize, 2, 3, 8, 20] {
        let (oldest_first, _, _) = run_in_turn(threads, false);
        let (newest_first, _, _) = run_in_turn(threads, true);
        assert_eq!(oldest_first, expected_scores());
        assert_eq!(newest_first, expected_scores());
    }
}

#[test]
fn pools_of_one_and_of_eight_threads_give_the_same_table() {
    let one = run_on_pool(1);
    let eight = run_on_pool(8);
    assert_eq!(one, expected_scores());
    assert_eq!(eight, one);
}

#[test]
fn new_tournament_has_one_worker_and_nothing_running() {
    let players = six_players();
    let tournament = Tournament::new(
        RoundRobbinScheduler::new(players.ids()),
        DefaultScoring::new(players.ids()),
        players,
    );
    assert_eq!(tournament.threads(), 1);
    assert_eq!(tournament.active_matches(), 0);
    assert!(!tournament.stop_requested());
    assert!(tournament.may_draw());
}

#[test]
fn no_pairing_is_drawn_while_all_workers_are_busy() {
    let players = six_players();
    let mut tournament = Tournament::new(
        Listed::new(vec![(0, 1), (2, 3), (4, 5)]),
        Counting { reports: 0 },
        players,
    );
    tournament.set_threads(2);
    assert!(matches!(tournament.next_step(), Step::Play(_, _)));
    assert!(matches!(tournament.next_step(), Step::Play(_, _)));
    assert_eq!(tournament.active_matches(), 2);
    assert!(!tournament.may_draw());
    assert!(matches!(tournament.next_step(), Step::Wait));
    assert!(matches!(tournament.next_step(), Step::Wait));
    assert_eq!(tournament.active_matches(), 2);
}

#[test]
fn players_of_a_match_keep_their_seats() {
    let players = six_players();
    let mut tournament =
        Tournament::new(Listed::new(vec![(4, 2)]), Counting { reports: 0 }, players);
    match tournament.next_step() {
        Step::Play(player1, player2) => {
            assert_eq!((player1.id(), player2.id()), (4, 2));
            assert_eq!((player1.unpack(), player2.unpack()), (2, 3));
        }
        _ => panic!("a match was to be started"),
    }
}

#[test]
fn a_pairing_with_an_unknown_player_is_reported_and_starts_nothing() {
    let players = six_players();
    let mut tournament = Tournament::new(
        Listed::new(vec![(0, 6), (9, 1), (7, 8), (0, 1)]),
        DefaultScoring::new(players.ids()),
        players,
    );
    assert!(matches!(
        tournament.next_step(),
        Step::Report(MatchError::PlayerNotFound(6))
    ));
    assert_eq!(tournament.active_matches(), 0);
    assert!(matches!(
        tournament.next_step(),
        Step::Report(MatchError::PlayerNotFound(9))
    ));
    assert!(matches!(
        tournament.next_step(),
        Step::Report(MatchError::PlayerNotFound(7))
    ));
    assert_eq!(tournament.active_matches(), 0);
    // The tournament goes on.
    assert!(matches!(tournament.next_step(), Step::Play(_, _)));
    assert_eq!(tournament.active_matches(), 1);
}

#[test]
fn a_failed_playout_is_reported_and_changes_no_score() {
    let mut players = six_players();
    players.add_player(PlayerGen::new(absent as Factory));
    let mut tournament = Tournament::new(
        Listed::new(vec![(0, 6), (1, 0)]),
        DefaultScoring::new(players.ids()),
        players,
    );
    let report = match tournament.next_step() {
        Step::Play(player1, player2) => play_match(player1, player2),
        _ => panic!("a match was to be started"),
    };
    match &report {
        Err(failure) => {
            assert!(matches!(failure, MatchError::Playout(_)));
            assert_eq!(failure.message(), "match playout failed");
        }
        Ok(_) => panic!("the playout was to fail"),
    }
    tournament.complete(&report);
    assert_eq!(tournament.active_matches(), 0);
    assert_eq!(scores(tournament.scoring_policy(), 7), vec![Some(0); 7]);

    let report = match tournament.next_step() {
        Step::Play(player1, player2) => play_match(player1, player2),
        _ => panic!("a match was to be started"),
    };
    tournament.complete(&report);
    assert_eq!(tournament.scoring_policy().score(1), Some(2));
    assert_eq!(tournament.scoring_policy().score(0), Some(0));
}

#[test]
fn every_result_is_reported_to_the_scoring_system() {
    let players = six_players();
    let mut tournament = Tournament::new(
        Listed::new(vec![(0, 1), (2, 3), (4, 5)]),
        Counting { reports: 0 },
        players,
    );
    tournament.set_threads(3);
    let mut started = Vec::new();
    while let Step::Play(player1, player2) = tournament.next_step() {
        started.push((player1, player2));
    }
    assert_eq!(started.len(), 3);
    for (player1, player2) in started {
        let report = play_match(player1, player2);
        tournament.complete(&report);
    }
    assert_eq!(tournament.scoring_policy().reports, 3);
    assert!(matches!(
        tournament.next_step(),
        Step::Finished(TerminationCondition::NoMorePairings)
    ));
}

#[test]
fn the_stop_signal_ends_the_drawing_of_pairings() {
    let players = six_players();
    let mut tournament = Tournament::new(
        Listed::new(vec![(0, 1), (2, 3), (4, 5)]),
        Counting { reports: 0 },
        players,
    );
    tournament.set_threads(4);
    let first = match tournament.next_step() {
        Step::Play(player1, player2) => (player1, player2),
        _ => panic!("a match was to be started"),
    };
    tournament.stop();
    assert!(tournament.stop_requested());
    assert!(!tournament.may_draw());
    // The running match may finish; nothing new is started.
    assert!(matches!(tournament.next_step(), Step::Wait));
    assert!(matches!(tournament.next_step(), Step::Wait));
    let report = play_match(first.0, first.1);
    tournament.complete(&report);
    assert_eq!(tournament.scoring_policy().reports, 1);
    assert!(matches!(
        tournament.next_step(),
        Step::Finished(TerminationCondition::StopSignalReceived)
    ));
    assert_eq!(tournament.active_matches(), 0);
}

#[test]
fn the_scheduler_is_not_asked_after_the_stop_signal() {
    let players = six_players();
    let mut tournament = Tournament::new(
        RoundRobbinScheduler::new(players.ids()),
        DefaultScoring::new(players.ids()),
        players,
    );
    tournament.init();
    tournament.stop();
    assert!(matches!(
        tournament.next_step(),
        Step::Finished(TerminationCondition::StopSignalReceived)
    ));
    assert!(matches!(
        tournament.next_step(),
        Step::Finished(TerminationCondition::StopSignalReceived)
    ));
}

#[test]
fn a_scheduler_that_cannot_tell_yet_is_not_waited_for() {
    let players = six_players();
    let mut tournament = Tournament::new(Undecided, Counting { reports: 0 }, players);
    assert!(matches!(
        tournament.next_step(),
        Step::Finished(TerminationCondition::NoMorePairings)
    ));
}

#[test]
fn fewer_threads_leave_running_matches_alone() {
    let players = six_players();
    let mut tournament = Tournament::new(
        Listed::new(vec![(0, 1), (2, 3), (4, 5)]),
        Counting { reports: 0 },
        players,
    );
    tournament.set_threads(3);
    let mut started = Vec::new();
    for _ in 0..2 {
        if let Step::Play(player1, player2) = tournament.next_step() {
            started.push((player1, player2));
        }
    }
    tournament.set_threads(1);
    assert_eq!(tournament.threads(), 1);
    assert_eq!(tournament.active_matches(), 2);
    assert!(matches!(tournament.next_step(), Step::Wait));
    for (player1, player2) in started {
        tournament.complete(&play_match(player1, player2));
    }
    assert!(matches!(tournament.next_step(), Step::Play(_, _)));
}

#[test]
fn take_up_decides_on_the_answer_of_the_scheduler() {
    let players = six_players();
    let mut tournament =
        Tournament::new(Listed::new(vec![]), Counting { reports: 0 }, players);
    tournament.set_threads(2);
    assert!(matches!(
        tournament.take_up(None),
        Step::Finished(TerminationCondition::NoMorePairings)
    ));
    assert!(matches!(tournament.take_up(Some((3, 5))), Step::Play(_, _)));
    assert!(matches!(tournament.take_up(None), Step::Wait));
    assert!(matches!(
        tournament.take_up(Some((3, 50))),
        Step::Report(MatchError::PlayerNotFound(50))
    ));
    assert_eq!(tournament.active_matches(), 1);
}

#[test]
fn play_match_attributes_the_outcome_to_both_players() {
    let players = six_players();
    let report = play_match(
        players.get_instance(0).unwrap(),
        players.get_instance(2).unwrap(),
    );
    match report {
        Ok((LabelledOutcome::Win { winner, loser }, result)) => {
            assert_eq!((winner.id(), loser.id()), (2, 0));
            assert_eq!(result.outcome(), Outcome::WinP2);
        }
        _ => panic!("player 2 was to win"),
    }
    let report = play_match(
        players.get_instance(5).unwrap(),
        players.get_instance(0).unwrap(),
    );
    match report {
        Ok((LabelledOutcome::Draw(first, second), result)) => {
            assert_eq!((first.id(), second.id()), (5, 0));
            assert_eq!(result.outcome(), Outcome::Draw);
        }
        _ => panic!("the match was to be drawn"),
    }
}

#[test]
fn match_errors_describe_themselves() {
    assert_eq!(MatchError::PlayerNotFound(3).message(), "player not found");
    let failure = MatchError::Playout(anyhow::Error::msg("the board fell over"));
    assert_eq!(failure.message(), "match playout failed");
    match failure {
        MatchError::Playout(reason) => assert_eq!(format!("{}", reason), "the board fell over"),
        MatchError::PlayerNotFound(_) => panic!("a playout failure was made"),
    }
}

/// A scheduler that has its pairings only once it is initialised.
struct Prepared {
    pairings: Vec<(PlayerId, PlayerId)>,
}

impl Scheduler for Prepared {
    fn init(&mut self) {
        self.pairings = vec![(0, 1), (2, 3)];
    }

    fn get(&mut self) -> Option<(PlayerId, PlayerId)> {
        self.pairings.pop()
    }
}

#[test]
fn init_initialises_the_scheduler() {
    let mut idle = Tournament::new(
        Prepared { pairings: vec![] },
        Counting { reports: 0 },
        six_players(),
    );
    assert!(matches!(
        idle.next_step(),
        Step::Finished(TerminationCondition::NoMorePairings)
    ));

    let mut tournament = Tournament::new(
        Prepared { pairings: vec![] },
        Counting { reports: 0 },
        six_players(),
    );
    tournament.init();
    assert_eq!(tournament.active_matches(), 0);
    assert_eq!(tournament.threads(), 1);
    assert!(!tournament.stop_requested());
    match tournament.next_step() {
        Step::Play(player1, player2) => assert_eq!((player1.id(), player2.id()), (2, 3)),
        _ => panic!("a match was to be started"),
    }
}

#[test]
fn try_get_as_it_stands_hands_out_what_get_would() {
    let mut by_get = Listed::new(vec![(0, 1), (4, 5)]);
    let mut by_try_get = Listed::new(vec![(0, 1), (4, 5)]);
    for _ in 0..4 {
        let expected = by_get.get();
        let answer = by_try_get.try_get();
        assert!(answer.is_ok());
        assert_eq!(answer.ok(), Some(expected));
    }
    assert_eq!(by_try_get.asked, 4);
}
