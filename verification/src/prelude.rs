//! The names that most users of the library need.

pub use crate::executor::{Executor, ExecutorAction, ExecutorError, ExecutorEvent, TerminationCondition};
pub use crate::game::{play_match, LabelledOutcome, Match, MatchError, MatchReport, MatchResult, Outcome};
pub use crate::player::{Player, PlayerData, PlayerGen, PlayerId, PlayerInfo, PlayerRepository, RepositoryError};
pub use crate::ranking::{RankingPolicy, WinMatrix};
pub use crate::scheduling::{PlayerBalancing, RoundRobbinScheduler, Scheduler, SchedulerError};
pub use crate::scoring::{DefaultScoring, ScoringSystem};
pub use crate::tournaments::{Step, Tournament};
