//! Players: how a logical player becomes a live participant of a match.

use crate::game::Match;
use std::collections::HashMap;
use vstd::prelude::*;

verus! {

broadcast use vstd::std_specs::hash::group_hash_axioms;

/// Identifier of a player: its position in the order of registration, from 0.
pub type PlayerId = usize;

/// Display metadata of a player.
#[derive(Debug)]
pub struct PlayerInfo {
    name: &'static str,
}

impl PlayerInfo {
    pub closed spec fn spec_name(&self) -> &'static str {
        self.name
    }

    #[verifier::when_used_as_spec(spec_name)]
    pub fn name(&self) -> (name: &'static str)
        ensures
            name == self.spec_name(),
    {
        self.name
    }
}

impl Clone for PlayerInfo {
    fn clone(&self) -> (copy: Self)
        ensures
            copy == *self,
    {
        PlayerInfo { name: self.name }
    }
}

/// The name that a player has until it is given one.
pub open spec fn default_name() -> &'static str {
    "unnamed"
}

/// A registered player: a factory that produces a fresh agent on demand,
/// together with display metadata. No live agent is stored.
pub struct PlayerGen<M: Match, G: Fn() -> M::Agent + Copy> {
    generator: G,
    info: PlayerInfo,
    game: core::marker::PhantomData<M>,
}

impl<M: Match, G: Fn() -> M::Agent + Copy> PlayerGen<M, G> {
    /// A factory can always be called.
    #[verifier::type_invariant]
    spec fn callable(self) -> bool {
        call_requires(self.generator, ())
    }

    pub closed spec fn generator(&self) -> G {
        self.generator
    }

    pub closed spec fn info(&self) -> PlayerInfo {
        self.info
    }

    pub fn new(agent_generator: G) -> (player: Self)
        requires
            call_requires(agent_generator, ()),
        ensures
            player.generator() == agent_generator,
            player.info().name() == default_name(),
    {
        PlayerGen {
            generator: agent_generator,
            info: PlayerInfo { name: "unnamed" },
            game: core::marker::PhantomData,
        }
    }

    pub fn with_name(self, name: &'static str) -> (player: Self)
        ensures
            player.generator() == self.generator(),
            player.info().name() == name,
    {
        proof {
            use_type_invariant(&self);
        }
        PlayerGen { generator: self.generator, info: PlayerInfo { name }, game: core::marker::PhantomData }
    }

    /// Calls the factory once.
    pub fn generate_agent(&self) -> (agent: M::Agent)
        ensures
            call_ensures(self.generator(), (), agent),
    {
        proof {
            use_type_invariant(self);
        }
        (self.generator)()
    }
}

impl<M: Match, G: Fn() -> M::Agent + Copy> Clone for PlayerGen<M, G> {
    fn clone(&self) -> (copy: Self)
        ensures
            copy == *self,
    {
        proof {
            use_type_invariant(self);
        }
        PlayerGen { generator: self.generator, info: self.info.clone(), game: core::marker::PhantomData }
    }
}

/// A live participant: an agent generated for one match, with the identity of
/// the player it plays for.
pub struct Player<M: Match> {
    inner: M::Agent,
    info: PlayerInfo,
    id: PlayerId,
}

impl<M: Match> Player<M> {
    pub closed spec fn spec_info(&self) -> &PlayerInfo {
        &self.info
    }

    pub closed spec fn spec_id(&self) -> PlayerId {
        self.id
    }

    pub open spec fn spec_name(&self) -> &'static str {
        self.spec_info().name()
    }

    pub closed spec fn agent(&self) -> M::Agent {
        self.inner
    }

    /// The identity of the player without its agent.
    pub open spec fn spec_data(&self) -> PlayerData {
        PlayerData::of(*self.spec_info(), self.spec_id())
    }

    #[verifier::when_used_as_spec(spec_info)]
    pub fn info(&self) -> (info: &PlayerInfo)
        ensures
            info == self.spec_info(),
    {
        &self.info
    }

    #[verifier::when_used_as_spec(spec_id)]
    pub fn id(&self) -> (id: PlayerId)
        ensures
            id == self.spec_id(),
    {
        self.id
    }

    #[verifier::when_used_as_spec(spec_name)]
    pub fn name(&self) -> (name: &'static str)
        ensures
            name == self.spec_name(),
    {
        self.info.name
    }

    pub fn unpack(self) -> (agent: M::Agent)
        ensures
            agent == self.agent(),
    {
        self.inner
    }

    #[verifier::when_used_as_spec(spec_data)]
    pub fn data(&self) -> (data: PlayerData)
        ensures
            data == self.spec_data(),
    {
        PlayerData { info: self.info.clone(), id: self.id }
    }
}

/// A snapshot of a player's identity, free of the agent. It stays valid
/// whatever happens to the repository or the agent afterwards.
#[derive(Debug)]
pub struct PlayerData {
    info: PlayerInfo,
    id: PlayerId,
}

impl PlayerData {
    /// The snapshot that holds exactly `info` and `id`.
    pub closed spec fn of(info: PlayerInfo, id: PlayerId) -> PlayerData {
        PlayerData { info, id }
    }

    pub closed spec fn spec_info(&self) -> &PlayerInfo {
        &self.info
    }

    pub closed spec fn spec_id(&self) -> PlayerId {
        self.id
    }

    pub open spec fn spec_name(&self) -> &'static str {
        self.spec_info().name()
    }

    /// A snapshot is nothing but its two parts.
    pub broadcast proof fn lemma_of(info: PlayerInfo, id: PlayerId)
        ensures
            *(#[trigger] Self::of(info, id)).spec_info() == info,
            Self::of(info, id).spec_id() == id,
    {
    }

    #[verifier::when_used_as_spec(spec_info)]
    pub fn info(&self) -> (info: &PlayerInfo)
        ensures
            info == self.spec_info(),
    {
        &self.info
    }

    #[verifier::when_used_as_spec(spec_id)]
    pub fn id(&self) -> (id: PlayerId)
        ensures
            id == self.spec_id(),
    {
        self.id
    }

    #[verifier::when_used_as_spec(spec_name)]
    pub fn name(&self) -> (name: &'static str)
        ensures
            name == self.spec_name(),
    {
        self.info.name
    }
}

impl Clone for PlayerData {
    fn clone(&self) -> (copy: Self)
        ensures
            copy == *self,
    {
        PlayerData { info: self.info.clone(), id: self.id }
    }
}

/// Why the repository could not answer.
#[derive(Debug, Clone, Copy, PartialEq, Eq, Structural)]
pub enum RepositoryError {
    /// No player is registered under the id.
    PlayerNotFound(PlayerId),
}

impl RepositoryError {
    /// A short description of the failure, for display.
    pub fn message(&self) -> (text: &'static str)
        ensures
            text == "player not found",
    {
        "player not found"
    }

    /// The id that was asked for.
    pub fn id(&self) -> (id: PlayerId)
        ensures
            *self == RepositoryError::PlayerNotFound(id),
    {
        match self {
            RepositoryError::PlayerNotFound(id) => *id,
        }
    }
}

/// The players of a tournament, by id. Ids are handed out densely from 0 in
/// the order of registration, and a registered player is never removed.
pub struct PlayerRepository<M: Match, G: Fn() -> M::Agent + Copy> {
    players: HashMap<PlayerId, PlayerGen<M, G>>,
}

impl<M: Match, G: Fn() -> M::Agent + Copy> PlayerRepository<M, G> {
    /// The ids in use are exactly those below the number of players.
    #[verifier::type_invariant]
    spec fn dense(self) -> bool {
        forall|id: PlayerId| self.players@.contains_key(id) <==> id < self.players@.len()
    }

    /// The registered players, by id.
    pub closed spec fn records(&self) -> Map<PlayerId, PlayerGen<M, G>> {
        self.players@
    }

    /// Whether the ids of `records` are exactly those below `count`.
    pub open spec fn is_dense(records: Map<PlayerId, PlayerGen<M, G>>, count: nat) -> bool {
        &&& records.dom().finite()
        &&& records.len() == count
        &&& forall|id: PlayerId| records.contains_key(id) <==> id < count
    }

    /// An empty repository.
    pub fn new() -> (repository: Self)
        ensures
            repository.records() == Map::<PlayerId, PlayerGen<M, G>>::empty(),
    {
        PlayerRepository { players: HashMap::new() }
    }

    /// A repository of the given players, who get the ids 0, 1, 2, ... in the
    /// order of the list.
    pub fn new_with_players(players: Vec<PlayerGen<M, G>>) -> (repository: Self)
        ensures
            Self::is_dense(repository.records(), players@.len()),
            forall|id: PlayerId| id < players@.len() ==> repository.records()[id] == players@[id as int],
    {
        let mut repository = Self::new();
        let mut players = players;
        let ghost all = players@;
        let mut reversed: Vec<PlayerGen<M, G>> = Vec::new();
        while players.len() > 0
            invariant
                players@.len() + reversed@.len() == all.len(),
                forall|i: int| 0 <= i < players@.len() ==> players@[i] == all[i],
                forall|i: int|
                    0 <= i < reversed@.len() ==> reversed@[i] == all[all.len() - 1 - i],
            decreases players@.len(),
        {
            let player = players.pop();
            if let Some(player) = player {
                reversed.push(player);
            }
        }
        while reversed.len() > 0
            invariant
                reversed@.len() <= all.len(),
                forall|i: int|
                    0 <= i < reversed@.len() ==> reversed@[i] == all[all.len() - 1 - i],
                Self::is_dense(repository.records(), (all.len() - reversed@.len()) as nat),
                forall|id: PlayerId|
                    id < all.len() - reversed@.len() ==> repository.records()[id] == all[id as int],
            decreases reversed@.len(),
        {
            let player = reversed.pop();
            if let Some(player) = player {
                repository.add_player(player);
            }
        }
        repository
    }

    /// The ids of all players, ascending.
    pub fn ids(&self) -> (ids: Vec<PlayerId>)
        ensures
            Self::is_dense(self.records(), ids@.len()),
            forall|i: int| 0 <= i < ids@.len() ==> ids@[i] == i,
    {
        proof {
            use_type_invariant(self);
        }
        let count = self.players.len();
        let mut ids: Vec<PlayerId> = Vec::new();
        let mut id: PlayerId = 0;
        while id < count
            invariant
                id <= count,
                ids@.len() == id,
                forall|i: int| 0 <= i < ids@.len() ==> ids@[i] == i,
            decreases count - id,
        {
            ids.push(id);
            id = id + 1;
        }
        ids
    }

    /// Registers a player under the next free id: the number of players
    /// registered before.
    pub fn add_player(&mut self, player: PlayerGen<M, G>)
        ensures
            final(self).records() == old(self).records().insert(
                old(self).records().len() as PlayerId,
                player,
            ),
            Self::is_dense(old(self).records(), old(self).records().len()),
            Self::is_dense(final(self).records(), old(self).records().len() + 1),
    {
        proof {
            use_type_invariant(&*self);
        }
        let id = self.players.len();
        let mut players: HashMap<PlayerId, PlayerGen<M, G>> = HashMap::new();
        std::mem::swap(&mut self.players, &mut players);
        players.insert(id, player);
        std::mem::swap(&mut self.players, &mut players);
    }

    /// Registers a player; short for `add_player`.
    pub fn add(&mut self, player: PlayerGen<M, G>)
        ensures
            final(self).records() == old(self).records().insert(
                old(self).records().len() as PlayerId,
                player,
            ),
            Self::is_dense(old(self).records(), old(self).records().len()),
            Self::is_dense(final(self).records(), old(self).records().len() + 1),
    {
        self.add_player(player)
    }

    /// The registered players, in the order of their ids.
    pub fn players(&self) -> (players: Vec<PlayerGen<M, G>>)
        ensures
            Self::is_dense(self.records(), players@.len()),
            forall|id: PlayerId| id < players@.len() ==> players@[id as int] == self.records()[id],
    {
        proof {
            use_type_invariant(self);
        }
        let count = self.players.len();
        let mut players: Vec<PlayerGen<M, G>> = Vec::new();
        let mut id: PlayerId = 0;
        while id < count
            invariant
                id <= count,
                count == self.players@.len(),
                players@.len() == id,
                forall|id: PlayerId| self.players@.contains_key(id) <==> id < self.players@.len(),
                forall|i: PlayerId| i < players@.len() ==> players@[i as int] == self.players@[i],
            decreases count - id,
        {
            let found = self.players.get(&id);
            if let Some(player) = found {
                players.push(player.clone());
            }
            id = id + 1;
        }
        players
    }

    /// Whether `found` is what a look-up of `id` gives: a live participant
    /// with this id, the metadata of the player registered under it, and an
    /// agent that the player's factory produced; or, where no player is
    /// registered under `id`, the failure that says so.
    pub open spec fn finds(&self, id: PlayerId, found: Result<Player<M>, RepositoryError>) -> bool {
        if self.records().contains_key(id) {
            &&& found matches Ok(player)
            &&& player.id() == id
            &&& *player.info() == self.records()[id].info()
            &&& call_ensures(self.records()[id].generator(), (), player.agent())
        } else {
            found matches Err(failure) && failure == RepositoryError::PlayerNotFound(id)
        }
    }

    /// The registered player with the given id, as it was registered.
    pub fn get_raw(&self, id: PlayerId) -> (found: Result<PlayerGen<M, G>, RepositoryError>)
        ensures
            self.records().contains_key(id) ==> found == Ok::<PlayerGen<M, G>, RepositoryError>(
                self.records()[id],
            ),
            !self.records().contains_key(id) ==> found == Err::<PlayerGen<M, G>, RepositoryError>(
                RepositoryError::PlayerNotFound(id),
            ),
    {
        match self.players.get(&id) {
            Some(player) => Ok(player.clone()),
            None => Err(RepositoryError::PlayerNotFound(id)),
        }
    }

    /// A live participant for the player with the given id: a fresh agent from
    /// the player's factory, with the player's metadata and id.
    pub fn get_instance(&self, id: PlayerId) -> (found: Result<Player<M>, RepositoryError>)
        ensures
            self.finds(id, found),
    {
        match self.players.get(&id) {
            Some(player) => Ok(
                Player { inner: player.generate_agent(), info: player.info.clone(), id },
            ),
            None => Err(RepositoryError::PlayerNotFound(id)),
        }
    }

    /// A live participant for the player with the given id; short for
    /// `get_instance`.
    pub fn get(&self, id: PlayerId) -> (found: Result<Player<M>, RepositoryError>)
        ensures
            self.finds(id, found),
    {
        self.get_instance(id)
    }
}

impl<M: Match, G: Fn() -> M::Agent + Copy> Clone for PlayerRepository<M, G> {
    fn clone(&self) -> (copy: Self)
        ensures
            copy.records() == self.records(),
    {
        proof {
            use_type_invariant(self);
        }
        PlayerRepository { players: self.players.clone() }
    }
}

} // verus!
