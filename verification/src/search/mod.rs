//! Search: static exchange evaluation, draw detection, move ordering, the
//! transposition table, time management and the alpha-beta search itself.

pub mod clock;
pub mod draw;
pub mod endgame;
pub mod iterative;
pub mod laws;
pub mod limits;
pub mod lmr;
pub mod log2;
pub mod model;
pub mod negamax;
pub mod node_laws;
pub mod ordering;
pub mod params;
pub mod quiescence;
pub mod quiet_laws;
pub mod root;
pub mod see;
pub mod time;
pub mod tree;
pub mod tt;
pub mod visits;

pub use iterative::{think, SearchInfo};
pub use limits::{SearchLimits, MAX_DEPTH};
pub use negamax::{SearchResult, Searcher};
pub use root::search;
pub use see::see;
pub use time::TimeManager;
pub use tt::{Bound, TranspositionTable};

use vstd::prelude::*;

verus! {

/// Larger than every score: the bounds of a full window.
pub const INFINITY: i32 = 30_000;

/// The score of delivering mate on the spot; a mate further away scores less by
/// its distance in plies.
pub const MATE: i32 = 29_000;

/// Scores beyond this are mates.
pub const MATE_IN_MAX: i32 = 28_000;

/// The score is that of a forced mate.
pub open spec fn mate_score(score: int) -> bool {
    score > MATE_IN_MAX || score < -MATE_IN_MAX
}

/// True if `score` is that of a forced mate, for either side.
pub fn is_mate_score(score: i32) -> (r: bool)
    ensures
        r == mate_score(score as int),
{
    score > MATE_IN_MAX || score < -MATE_IN_MAX
}

/// The number of plies to the mate that a mate score stands for.
pub fn mate_distance_plies(score: i32) -> (r: i32)
    requires
        score > i32::MIN,
    ensures
        r == MATE - ordering::magnitude(score as int),
{
    if score >= 0 {
        MATE - score
    } else {
        MATE + score
    }
}

} // verus!
