//! The decision of a sequential probability ratio test.

use vstd::prelude::*;

verus! {

/// Decision from the current state of a test.
#[derive(Clone, Copy, Debug, PartialEq, Eq, Structural)]
pub enum SprtOutcome {
    /// Neither boundary has been crossed. Play more games.
    Continue,
    /// No meaningful improvement was detected.
    H0Accepted,
    /// The improvement is statistically significant.
    H1Accepted,
}

impl SprtOutcome {
    /// The decision in words.
    pub open spec fn words(self) -> Seq<char> {
        match self {
            SprtOutcome::H1Accepted => "ACCEPTED  (improvement confirmed)"@,
            SprtOutcome::H0Accepted => "REJECTED  (no improvement detected)"@,
            SprtOutcome::Continue => "INCONCLUSIVE (games limit reached)"@,
        }
    }

    /// The decision in words.
    pub fn decision(self) -> (r: &'static str)
        ensures
            r@ == self.words(),
    {
        match self {
            SprtOutcome::H1Accepted => "ACCEPTED  (improvement confirmed)",
            SprtOutcome::H0Accepted => "REJECTED  (no improvement detected)",
            SprtOutcome::Continue => "INCONCLUSIVE (games limit reached)",
        }
    }
}

} // verus!
