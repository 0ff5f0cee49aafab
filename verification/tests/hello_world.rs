use tournament_rs::game::{play_match, LabelledOutcome, Match, MatchResult, Outcome};
use tournament_rs::player::{Player, PlayerGen, PlayerRepository};
use tournament_rs::scheduling::RoundRobbinScheduler;
use tournament_rs::scoring::DefaultScoring;
use tournament_rs::tournaments::{Step, Tournament};

/// The counting game: the players add 1, 2 or 3 to a running total in turn,
/// and whoever reaches the target wins.
struct CountingGame {
    first: Counter,
    second: Counter,
}

const TARGET: u32 = 21;

/// How an agent picks what to add, given the running total.
#[derive(Clone, Copy)]
enum Counter {
    /// Always adds 1.
    Simple,
    /// Moves to the next total that leaves a multiple of 4 to go, if it can.
    Minimax,
}

impl Counter {
    fn pick(self, total: u32) -> u32 {
        match self {
            Counter::Simple => 1,
            Counter::Minimax => {
                let to_go = (TARGET - total) % 4;
                if to_go == 0 {
                    1
                } else {
                    to_go
                }
            }
        }
    }
}

#[derive(Debug)]
struct CountingResult(Outcome);

impl MatchResult for CountingResult {
    fn outcome(&self) -> Outcome {
        self.0
    }
}

impl Match for CountingGame {
    type Agent = Counter;
    type MatchResult = CountingResult;

    fn new(player1: Player<Self>, player2: Player<Self>) -> Self {
        CountingGame { first: player1.unpack(), second: player2.unpack() }
    }

    fn playout(&mut self) -> Result<CountingResult, anyhow::Error> {
        let mut total = 0;
        let mut first_to_move = true;
        loop {
            let agent = if first_to_move { self.first } else { self.second };
            total += agent.pick(total).min(TARGET - total);
            if total == TARGET {
                return Ok(CountingResult(if first_to_move {
                    Outcome::WinP1
                } else {
                    Outcome::WinP2
                }));
            }
            first_to_move = !first_to_move;
        }
    }
}

type Factory = fn() -> Counter;

fn simple() -> Counter {
    Counter::Simple
}

fn minimax() -> Counter {
    Counter::Minimax
}

#[test]
fn hello_world() {
    let mut players = PlayerRepository::<CountingGame, Factory>::new();

    players.add_player(PlayerGen::new(simple as Factory).with_name("Simple-1"));

    players.add_player(PlayerGen::new(minimax as Factory).with_name("Minimax-1"));

    let mut tournament = Tournament::new(
        RoundRobbinScheduler::new(players.ids()),
        DefaultScoring::new(players.ids()),
        players,
    );

    tournament.init();
    let mut running = Vec::new();
    loop {
        match tournament.next_step() {
            Step::Play(player1, player2) => running.push((player1, player2)),
            Step::Report(e) => println!("{}", e.message()),
            Step::Wait => {
                let (player1, player2) = running.remove(0);
                let x = play_match(player1, player2);
                tournament.complete(&x);
                match x {
                    Ok((outcome, _)) => match outcome {
                        LabelledOutcome::Win { winner, loser } => {
                            println!("{:?} beat {:?}", winner, loser);
                            assert_eq!(winner.name(), "Minimax-1");
                            assert_eq!(loser.name(), "Simple-1");
                        }
                        LabelledOutcome::Draw(p1, p2) => {
                            println!("{:?} drew with {:?}", p1, p2);
                        }
                    },
                    Err(e) => {
                        println!("{}", e.message());
                    }
                }
            }
            Step::Finished(_) => break,
        }
    }
    assert_eq!(tournament.scoring_policy().score(0), Some(0));
    assert_eq!(tournament.scoring_policy().score(1), Some(2));
}
