//! Efficiently updatable neural network evaluation.
//!
//! The input features pair a king's square with every other piece. A first
//! layer, kept in an accumulator for each king, feeds two small layers and an
//! output neuron, all in integer arithmetic.

pub mod accumulator;
pub mod features;
pub mod laws;
pub mod network;
pub mod network_laws;

pub use accumulator::AccumulatorStack;
pub use features::{active_features, HIDDEN_SIZE, INPUT_FEATURES, L1_SIZE, L2_SIZE, QA, QB};
pub use network::Network;
