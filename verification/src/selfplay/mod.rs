//! Engine testing: self-play matches and matches against other engines.

pub mod config;
pub mod engine;
pub mod game;
pub mod laws;
pub mod matches;
pub mod opening;
pub mod options;
pub mod outcome;
pub mod sprt;
pub mod uci_text;

pub use config::{MatchConfig, OpeningSource, TimeControl};
pub use engine::{ChessEngine, InternalEngine};
pub use game::{play_game, play_game_dyn};
pub use matches::{play_match, MatchProgress};
pub use outcome::{flip_outcome, AbortReason, DrawReason, GameOutcome, GameRecord, MatchResult};
