use tournament_rs::game::{LabelledOutcome, Match, MatchResult, Outcome};
use tournament_rs::player::{Player, PlayerGen, PlayerId, PlayerRepository, RepositoryError};

/// A game in which the stronger agent wins.
struct Duel {
    first: u32,
    second: u32,
}

#[derive(Debug)]
struct DuelResult(Outcome);

impl MatchResult for DuelResult {
    fn outcome(&self) -> Outcome {
        self.0
    }
}

impl Match for Duel {
    type Agent = u32;
    type MatchResult = DuelResult;

    fn new(player1: Player<Self>, player2: Player<Self>) -> Self {
        Duel { first: player1.unpack(), second: player2.unpack() }
    }

    fn playout(&mut self) -> Result<DuelResult, anyhow::Error> {
        if self.first > self.second {
            Ok(DuelResult(Outcome::WinP1))
        } else if self.first < self.second {
            Ok(DuelResult(Outcome::WinP2))
        } else {
            Ok(DuelResult(Outcome::Draw))
        }
    }
}

type Factory = fn() -> u32;

fn weak() -> u32 {
    1
}

fn strong() -> u32 {
    9
}

fn repository() -> PlayerRepository<Duel, Factory> {
    let mut players = PlayerRepository::<Duel, Factory>::new();
    players.add_player(PlayerGen::new(weak as Factory).with_name("Weak"));
    players.add_player(PlayerGen::new(strong as Factory).with_name("Strong"));
    players.add_player(PlayerGen::new(strong as Factory));
    players
}

#[test]
fn new_repository_is_empty() {
    let players = PlayerRepository::<Duel, Factory>::new();
    assert_eq!(players.ids(), Vec::<PlayerId>::new());
    assert!(players.players().is_empty());
}

#[test]
fn ids_are_dense_from_zero_in_order_of_registration() {
    let players = repository();
    assert_eq!(players.ids(), vec![0, 1, 2]);
    assert_eq!(players.get_instance(0).unwrap().name(), "Weak");
    assert_eq!(players.get_instance(1).unwrap().name(), "Strong");
}

#[test]
fn every_listed_id_resolves() {
    let players = repository();
    for id in players.ids() {
        let player = players.get_instance(id).unwrap();
        assert_eq!(player.id(), id);
        assert!(players.get_raw(id).is_ok());
    }
}

#[test]
fn unknown_id_fails_with_player_not_found() {
    let players = repository();
    assert_eq!(players.get_instance(3).err(), Some(RepositoryError::PlayerNotFound(3)));
    assert_eq!(players.get_raw(3).err(), Some(RepositoryError::PlayerNotFound(3)));
    assert_eq!(
        players.get_instance(usize::MAX).err(),
        Some(RepositoryError::PlayerNotFound(usize::MAX))
    );
    let empty = PlayerRepository::<Duel, Factory>::new();
    assert_eq!(empty.get_instance(0).err(), Some(RepositoryError::PlayerNotFound(0)));
}

#[test]
fn repository_error_describes_itself() {
    let error = RepositoryError::PlayerNotFound(17);
    assert_eq!(error.message(), "player not found");
    assert_eq!(error.id(), 17);
}

#[test]
fn instance_holds_a_fresh_agent_and_the_metadata() {
    let players = repository();
    let player = players.get_instance(1).unwrap();
    assert_eq!(player.id(), 1);
    assert_eq!(player.name(), "Strong");
    assert_eq!(player.info().name(), "Strong");
    let data = player.data();
    assert_eq!(data.id(), 1);
    assert_eq!(data.name(), "Strong");
    assert_eq!(data.info().name(), "Strong");
    assert_eq!(player.unpack(), 9);
    // A second instance is as good as the first.
    assert_eq!(players.get_instance(1).unwrap().unpack(), 9);
}

#[test]
fn player_without_a_name_has_the_default_name() {
    let players = repository();
    assert_eq!(players.get_instance(2).unwrap().name(), "unnamed");
}

#[test]
fn with_name_replaces_the_name_and_keeps_the_factory() {
    let player = PlayerGen::<Duel, Factory>::new(weak as Factory)
        .with_name("First")
        .with_name("Second");
    assert_eq!(player.generate_agent(), 1);
    let mut players = PlayerRepository::<Duel, Factory>::new();
    players.add_player(player);
    assert_eq!(players.get_instance(0).unwrap().name(), "Second");
}

#[test]
fn get_raw_returns_the_registered_generator() {
    let players = repository();
    let raw = players.get_raw(0).unwrap();
    assert_eq!(raw.generate_agent(), 1);
    let copy = raw.clone();
    assert_eq!(copy.generate_agent(), 1);
}

#[test]
fn new_with_players_numbers_the_list() {
    let list = vec![
        PlayerGen::<Duel, Factory>::new(strong as Factory).with_name("A"),
        PlayerGen::<Duel, Factory>::new(weak as Factory).with_name("B"),
        PlayerGen::<Duel, Factory>::new(strong as Factory).with_name("C"),
    ];
    let players = PlayerRepository::new_with_players(list);
    assert_eq!(players.ids(), vec![0, 1, 2]);
    assert_eq!(players.get_instance(0).unwrap().name(), "A");
    assert_eq!(players.get_instance(1).unwrap().name(), "B");
    assert_eq!(players.get_instance(2).unwrap().name(), "C");
    assert_eq!(players.get_instance(1).unwrap().unpack(), 1);
    let listed = players.players();
    assert_eq!(listed.len(), 3);
    assert_eq!(listed[0].generate_agent(), 9);
    assert_eq!(listed[1].generate_agent(), 1);
}

#[test]
fn clone_of_a_repository_knows_the_same_players() {
    let players = repository();
    let copy = players.clone();
    assert_eq!(copy.ids(), players.ids());
    assert_eq!(copy.get_instance(0).unwrap().name(), "Weak");
    assert_eq!(copy.get_instance(3).err(), Some(RepositoryError::PlayerNotFound(3)));
}

#[test]
fn labelled_outcome_attributes_by_seat() {
    let players = repository();
    let weak = players.get_instance(0).unwrap().data();
    let strong = players.get_instance(1).unwrap().data();

    match LabelledOutcome::new(Outcome::WinP1, weak.clone(), strong.clone()) {
        LabelledOutcome::Win { winner, loser } => {
            assert_eq!((winner.id(), loser.id()), (0, 1));
            assert_eq!((winner.name(), loser.name()), ("Weak", "Strong"));
        }
        LabelledOutcome::Draw(_, _) => panic!("a win was reported"),
    }
    match LabelledOutcome::new(Outcome::WinP2, weak.clone(), strong.clone()) {
        LabelledOutcome::Win { winner, loser } => {
            assert_eq!((winner.id(), loser.id()), (1, 0));
        }
        LabelledOutcome::Draw(_, _) => panic!("a win was reported"),
    }
    match LabelledOutcome::new(Outcome::Draw, weak.clone(), strong.clone()) {
        LabelledOutcome::Draw(first, second) => {
            assert_eq!((first.id(), second.id()), (0, 1));
        }
        LabelledOutcome::Win { .. } => panic!("a draw was reported"),
    }
}

#[test]
fn labelled_outcome_clone_keeps_the_players() {
    let players = repository();
    let weak = players.get_instance(0).unwrap().data();
    let strong = players.get_instance(1).unwrap().data();
    let outcome = LabelledOutcome::new(Outcome::WinP2, weak, strong);
    match outcome.clone() {
        LabelledOutcome::Win { winner, loser } => {
            assert_eq!((winner.id(), loser.id()), (1, 0));
            assert_eq!((winner.name(), loser.name()), ("Strong", "Weak"));
        }
        LabelledOutcome::Draw(_, _) => panic!("a win was reported"),
    }
}

#[test]
fn short_names_register_and_find_players() {
    let mut players = PlayerRepository::<Duel, Factory>::new();
    players.add(PlayerGen::new(strong as Factory).with_name("First"));
    players.add(PlayerGen::new(weak as Factory).with_name("Second"));
    assert_eq!(players.ids(), vec![0, 1]);
    let found = players.get(1).unwrap();
    assert_eq!((found.id(), found.name()), (1, "Second"));
    assert_eq!(found.unpack(), 1);
    assert_eq!(players.get(2).err(), Some(RepositoryError::PlayerNotFound(2)));
}
