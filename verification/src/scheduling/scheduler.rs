//! What a pairing scheduler offers to the tournament that drives it.

use crate::player::PlayerId;
use vstd::prelude::*;

verus! {

/// A scheduler is responsible for pairing players for a match.
pub trait Scheduler {
    /// Whether a scheduler in the state `self` may hand out `pairing` next,
    /// `None` for the end of the pairings, and be in the state `after` then.
    /// Each scheduler says for itself which pairings it hands out; one that
    /// says nothing may hand out any.
    open spec fn hands_out(&self, pairing: Option<(PlayerId, PlayerId)>, after: &Self) -> bool {
        true
    }

    /// Whether `after` is what a scheduler in the state `self` becomes when it
    /// is initialised. Each scheduler says for itself what its initialisation
    /// does; one that says nothing may do anything.
    open spec fn initialises(&self, after: &Self) -> bool {
        true
    }

    /// Called once at the beginning of the tournament.
    /// Used to perform any necessary initialization. A scheduler that needs
    /// none leaves the body empty.
    fn init(&mut self)
        ensures
            old(self).initialises(final(self)),
    ;

    /// Hint to the pairing policy that a new round is starting.
    fn start_round(&mut self) {
    }

    /// Returns the next pairing of player to play a match between, or None to
    /// notify executors that the tournament is over, the round has ended, or
    /// no more pairings are available.
    ///
    /// This method may block, until a pairing is available. This can happen
    /// due to dependent matches, ie. the Scheduler must wait for a previous
    /// match to complete in order to determine the next pairing.
    fn get(&mut self) -> (pairing: Option<(PlayerId, PlayerId)>)
        ensures
            old(self).hands_out(pairing, final(self)),
    ;

    /// Like `get`, but never blocks: an error says that the next pairing is
    /// not known yet, which is not the same as `Ok(None)`, the end of the
    /// pairings.
    ///
    /// A scheduler whose `get` never blocks need not write this method: as it
    /// stands here, it always succeeds, with what `get` hands out.
    fn try_get(&mut self) -> (answer: Result<Option<(PlayerId, PlayerId)>, anyhow::Error>)
        ensures
            answer matches Ok(pairing) ==> old(self).hands_out(pairing, final(self)),
        default_ensures
            answer matches Ok(pairing) && old(self).hands_out(pairing, final(self)),
    {
        Ok(self.get())
    }
}

/// This trait marks a scheduler, that balances the number of times each agent
/// plays as Player 1 and Player 2. It is ideal for games where one player is
/// at a disadvantage.
///
/// Formally, let `n1` and `n2` be the number of times a player plays as
/// Player 1 and Player 2, respectively. Then this scheduler guarantees that:
/// |n1 - n2| <= 1
///
/// Note however, that this scheduler does not necessarily guarantee the *best*
/// assignment.
pub trait PlayerBalancing {

}

} // verus!
