//! The orchestrator of a tournament: it draws pairings from the scheduler,
//! keeps a bounded number of matches running, and feeds every finished match
//! to the scoring system.
//!
//! The matches themselves run on worker threads, and finished matches come
//! back through a channel. Threads and channels lie outside this library. Here
//! is what the orchestrator decides: whether to start another match, to wait
//! for one to finish, or to end; and what a finished match changes.

use crate::executor::TerminationCondition;
use crate::game::{Match, MatchError, MatchReport};
use crate::player::{Player, PlayerId, PlayerRepository};
use crate::scheduling::Scheduler;
use crate::scoring::ScoringSystem;
use vstd::prelude::*;

verus! {

/// What the orchestrator does next.
pub enum Step<M: Match> {
    /// Run a match between these two players on a free worker. It counts as
    /// running from now on.
    Play(Player<M>, Player<M>),
    /// A pairing named a player that the repository does not know. No match
    /// was started for it; the failure is a result of its own.
    Report(MatchError),
    /// Nothing can be started now. Wait for a running match to finish.
    Wait,
    /// No match is running and none will be started: the tournament is over.
    Finished(TerminationCondition),
}

/// How busy the workers are.
struct Occupancy {
    /// The number of matches that may run at the same time.
    threads: usize,
    /// The number of matches that are running.
    active_matches: usize,
    /// Whether the stop signal has been given.
    stopped: bool,
}

impl Occupancy {
    /// There is always room for one match.
    #[verifier::type_invariant]
    spec fn has_a_worker(self) -> bool {
        self.threads >= 1
    }
}

/// A tournament: a scheduler that says who plays whom, the players, a scoring
/// system, and the count of the matches that are running on the workers.
pub struct Tournament<M, G, P, S> where
    M: Match,
    G: Fn() -> M::Agent + Copy,
    P: Scheduler,
    S: ScoringSystem<M>,
 {
    scheduler: P,
    scoring_policy: S,
    player_repository: PlayerRepository<M, G>,
    occupancy: Occupancy,
}

impl<M, G, P, S> Tournament<M, G, P, S> where
    M: Match,
    G: Fn() -> M::Agent + Copy,
    P: Scheduler,
    S: ScoringSystem<M>,
 {
    pub closed spec fn scheduler(&self) -> P {
        self.scheduler
    }

    pub closed spec fn spec_scoring_policy(&self) -> &S {
        &self.scoring_policy
    }

    pub closed spec fn player_repository(&self) -> PlayerRepository<M, G> {
        self.player_repository
    }

    /// The number of matches that may run at the same time.
    pub closed spec fn spec_threads(&self) -> usize {
        self.occupancy.threads
    }

    /// The number of matches that are running.
    pub closed spec fn spec_active_matches(&self) -> usize {
        self.occupancy.active_matches
    }

    /// Whether the stop signal has been given.
    pub closed spec fn spec_stop_requested(&self) -> bool {
        self.occupancy.stopped
    }

    /// A tournament that runs one match at a time. Nothing is running yet.
    pub fn new(scheduler: P, scoring_policy: S, player_repository: PlayerRepository<M, G>) -> (tournament:
        Self)
        ensures
            tournament.scheduler() == scheduler,
            *tournament.scoring_policy() == scoring_policy,
            tournament.player_repository() == player_repository,
            tournament.threads() == 1,
            tournament.active_matches() == 0,
            !tournament.stop_requested(),
    {
        Tournament {
            scheduler,
            scoring_policy,
            player_repository,
            occupancy: Occupancy { threads: 1, active_matches: 0, stopped: false },
        }
    }

    #[verifier::when_used_as_spec(spec_threads)]
    pub fn threads(&self) -> (count: usize)
        ensures
            count == self.spec_threads(),
            count >= 1,
    {
        proof {
            use_type_invariant(&self.occupancy);
        }
        self.occupancy.threads
    }

    #[verifier::when_used_as_spec(spec_active_matches)]
    pub fn active_matches(&self) -> (count: usize)
        ensures
            count == self.spec_active_matches(),
    {
        self.occupancy.active_matches
    }

    #[verifier::when_used_as_spec(spec_stop_requested)]
    pub fn stop_requested(&self) -> (stopped: bool)
        ensures
            stopped == self.spec_stop_requested(),
    {
        self.occupancy.stopped
    }

    /// The scoring system, with all that was reported to it so far.
    #[verifier::when_used_as_spec(spec_scoring_policy)]
    pub fn scoring_policy(&self) -> (scoring: &S)
        ensures
            scoring == self.spec_scoring_policy(),
    {
        &self.scoring_policy
    }

    /// Whether nothing else changed than what `next_step` and `complete` may
    /// change: the players and the number of workers stay as they are.
    pub open spec fn same_setup(&self, before: &Self) -> bool {
        &&& self.player_repository() == before.player_repository()
        &&& self.threads() == before.threads()
    }

    /// Sets the number of matches that may run at the same time. Matches that
    /// are running are not touched, even where they are more than `count`.
    pub fn set_threads(&mut self, count: usize)
        requires
            count >= 1,
        ensures
            final(self).threads() == count,
            final(self).active_matches() == old(self).active_matches(),
            final(self).stop_requested() == old(self).stop_requested(),
            final(self).scheduler() == old(self).scheduler(),
            final(self).scoring_policy() == old(self).scoring_policy(),
            final(self).player_repository() == old(self).player_repository(),
    {
        self.occupancy.threads = count;
    }

    /// Initialises the scheduler: the scheduler becomes what its own
    /// initialisation makes of it. Nothing else changes.
    pub fn init(&mut self)
        ensures
            old(self).scheduler().initialises(&final(self).scheduler()),
            final(self).same_setup(old(self)),
            final(self).active_matches() == old(self).active_matches(),
            final(self).stop_requested() == old(self).stop_requested(),
            final(self).scoring_policy() == old(self).scoring_policy(),
    {
        self.scheduler.init();
    }

    /// Gives the stop signal: from now on no pairing is drawn from the
    /// scheduler. Matches that are running may finish.
    pub fn stop(&mut self)
        ensures
            final(self).stop_requested(),
            final(self).same_setup(old(self)),
            final(self).active_matches() == old(self).active_matches(),
            final(self).scheduler() == old(self).scheduler(),
            final(self).scoring_policy() == old(self).scoring_policy(),
    {
        proof {
            use_type_invariant(&self.occupancy);
        }
        self.occupancy.stopped = true;
    }

    /// Whether a pairing may be drawn now: the stop signal has not been given
    /// and a worker is free.
    pub open spec fn spec_may_draw(&self) -> bool {
        !self.stop_requested() && self.active_matches() < self.threads()
    }

    #[verifier::when_used_as_spec(spec_may_draw)]
    pub fn may_draw(&self) -> (free: bool)
        ensures
            free == self.spec_may_draw(),
    {
        !self.occupancy.stopped && self.occupancy.active_matches < self.occupancy.threads
    }

    /// What follows when no pairing can be had, with `active` matches running:
    /// wait while a match is running, and end when none is. The end is put
    /// down to the stop signal if it was given, else to the scheduler.
    pub open spec fn idle_step(active: usize, stopped: bool) -> Step<M> {
        if active > 0 {
            Step::Wait
        } else if stopped {
            Step::Finished(TerminationCondition::StopSignalReceived)
        } else {
            Step::Finished(TerminationCondition::NoMorePairings)
        }
    }

    fn idle(&self) -> (step: Step<M>)
        ensures
            step == Self::idle_step(self.active_matches(), self.stop_requested()),
    {
        if self.occupancy.active_matches > 0 {
            Step::Wait
        } else if self.occupancy.stopped {
            Step::Finished(TerminationCondition::StopSignalReceived)
        } else {
            Step::Finished(TerminationCondition::NoMorePairings)
        }
    }

    /// Whether `step` and the number of running matches `active_after` are
    /// what the scheduler's answer `pairing` leads to, when a pairing may be
    /// drawn.
    ///
    /// A pairing of two known players starts a match between fresh agents of
    /// the two, first seat first, and one more match is running. A pairing
    /// that names an unknown player is reported as failed, for the first such
    /// player, and starts nothing. Without a pairing nothing is started.
    pub open spec fn answers(
        &self,
        pairing: Option<(PlayerId, PlayerId)>,
        step: Step<M>,
        active_after: usize,
    ) -> bool {
        let records = self.player_repository().records();
        match pairing {
            Some((first, second)) => if !records.contains_key(first) {
                &&& step matches Step::Report(MatchError::PlayerNotFound(id))
                &&& id == first
                &&& active_after == self.active_matches()
            } else if !records.contains_key(second) {
                &&& step matches Step::Report(MatchError::PlayerNotFound(id))
                &&& id == second
                &&& active_after == self.active_matches()
            } else {
                &&& step matches Step::Play(player1, player2)
                &&& player1.id() == first
                &&& player2.id() == second
                &&& *player1.info() == records[first].info()
                &&& *player2.info() == records[second].info()
                &&& call_ensures(records[first].generator(), (), player1.agent())
                &&& call_ensures(records[second].generator(), (), player2.agent())
                &&& active_after == self.active_matches() + 1
            },
            None => {
                &&& step == Self::idle_step(self.active_matches(), self.stop_requested())
                &&& active_after == self.active_matches()
            },
        }
    }

    /// Takes the scheduler's answer and decides what to do with it. `None`
    /// stands for the end of the pairings as well as for a scheduler that
    /// cannot tell the next pairing yet.
    pub fn take_up(&mut self, pairing: Option<(PlayerId, PlayerId)>) -> (step: Step<M>)
        requires
            old(self).may_draw(),
        ensures
            old(self).answers(pairing, step, final(self).active_matches()),
            final(self).same_setup(old(self)),
            final(self).stop_requested() == old(self).stop_requested(),
            final(self).scheduler() == old(self).scheduler(),
            final(self).scoring_policy() == old(self).scoring_policy(),
    {
        proof {
            use_type_invariant(&self.occupancy);
        }
        match pairing {
            Some((first, second)) => {
                let player1 = match self.player_repository.get_instance(first) {
                    Ok(player) => player,
                    Err(_) => {
                        return Step::Report(MatchError::PlayerNotFound(first));
                    },
                };
                let player2 = match self.player_repository.get_instance(second) {
                    Ok(player) => player,
                    Err(_) => {
                        return Step::Report(MatchError::PlayerNotFound(second));
                    },
                };
                self.occupancy.active_matches = self.occupancy.active_matches + 1;
                Step::Play(player1, player2)
            },
            None => self.idle(),
        }
    }

    /// Decides what to do next.
    ///
    /// While the stop signal is not given and a worker is free, the scheduler
    /// is asked for a pairing, without blocking, and its answer is taken as
    /// `take_up` says. Else the scheduler is left alone, and the step is to wait
    /// for a running match, or to end when none is running.
    pub fn next_step(&mut self) -> (step: Step<M>)
        ensures
            final(self).same_setup(old(self)),
            final(self).stop_requested() == old(self).stop_requested(),
            final(self).scoring_policy() == old(self).scoring_policy(),
            old(self).may_draw() ==> exists|pairing: Option<(PlayerId, PlayerId)>|
                {
                    &&& old(self).answers(pairing, step, final(self).active_matches())
                    &&& pairing is Some ==> old(self).scheduler().hands_out(
                        pairing,
                        &final(self).scheduler(),
                    )
                },
            !old(self).may_draw() ==> {
                &&& final(self).scheduler() == old(self).scheduler()
                &&& final(self).active_matches() == old(self).active_matches()
                &&& step == Self::idle_step(old(self).active_matches(), old(self).stop_requested())
            },
    {
        if self.may_draw() {
            let pairing = match self.scheduler.try_get() {
                Ok(pairing) => pairing,
                Err(_) => None,
            };
            let ghost drawn = self.scheduler;
            let step = self.take_up(pairing);
            assert(old(self).answers(pairing, step, self.active_matches()) && (pairing is Some
                ==> old(self).scheduler().hands_out(pairing, &drawn)));
            step
        } else {
            self.idle()
        }
    }

    /// Takes note of a match that has finished: one match fewer is running,
    /// and a match that gave a result is reported to the scoring system. A
    /// report of a failure changes no score.
    pub fn complete(&mut self, report: &MatchReport<M::MatchResult>)
        requires
            old(self).active_matches() > 0,
        ensures
            final(self).active_matches() == old(self).active_matches() - 1,
            final(self).same_setup(old(self)),
            final(self).stop_requested() == old(self).stop_requested(),
            final(self).scheduler() == old(self).scheduler(),
            match *report {
                Ok(played) => final(self).scoring_policy().follows(
                    old(self).scoring_policy(),
                    played.0,
                    played.1,
                ),
                Err(_) => final(self).scoring_policy() == old(self).scoring_policy(),
            },
    {
        proof {
            use_type_invariant(&self.occupancy);
        }
        self.occupancy.active_matches = self.occupancy.active_matches - 1;
        match report {
            Ok(played) => {
                self.scoring_policy.report(&played.0, &played.1);
            },
            Err(_) => {},
        }
    }
}

} // verus!
