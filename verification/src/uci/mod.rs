//! Moves in the notation of the UCI protocol.

pub mod parser;
