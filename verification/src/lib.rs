//! Round-based tournaments between autonomous agents.
//!
//! The library decides which players meet and in which order, turns a finished
//! match into an attributed outcome, keeps the score table, and holds the
//! bookkeeping of a bounded pool of concurrently running matches. It knows
//! nothing of the rules of any particular game: a game is supplied by the
//! caller as an implementation of [`game::Match`].

pub mod executor;
pub mod game;
pub mod player;
pub mod prelude;
pub mod ranking;
pub mod scheduling;
pub mod scoring;
pub mod tournaments;
