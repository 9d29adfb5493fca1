//! Checking the search on positions with known results.

pub mod checks;
pub mod faults;
pub mod suite;

pub use faults::VerificationFailure;
pub use checks::{PositionKind, SearchVerifier, VerificationResult, VerifyPosition};
