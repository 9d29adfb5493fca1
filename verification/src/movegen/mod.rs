//! Moves, attacks and move generation.

pub mod attacks;
pub mod find;
pub mod generate;
pub mod laws;
pub mod legal;
pub mod make_move;
pub mod moves;
pub mod rules;
pub mod start;
pub mod validity;

pub use attacks::is_square_attacked;
pub use make_move::{NullUndo, Undo};
pub use moves::{Move, MoveFlag, MoveList};
