//! Pairing: which players meet, and in which order.

pub mod balance;
pub mod circle;
pub mod coprime;
pub mod coverage;
pub mod round_robbin;
pub mod scheduler;

pub use round_robbin::{RoundRobbinScheduler, SchedulerError};
pub use scheduler::{PlayerBalancing, Scheduler};
