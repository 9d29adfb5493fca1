//! A classical chess engine: board representation, move generation,
//! evaluation, search, opening book and match play.

pub mod bench;
pub mod board;
pub mod book;
pub mod debug;
pub mod epd;
pub mod eval;
pub mod movegen;
pub mod nnue;
pub mod search;
pub mod selfplay;
pub mod tablebase;
pub mod text;
pub mod uci;

pub use board::Board;
pub use eval::{Evaluator, HandcraftedEvaluator};
pub use movegen::{Move, MoveFlag, MoveList};
pub use search::{search, SearchResult, Searcher};
