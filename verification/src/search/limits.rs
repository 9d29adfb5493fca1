//! Constraints on a search.

use crate::movegen::moves::Move;
use vstd::prelude::*;

verus! {

/// The deepest that iterative deepening goes.
pub const MAX_DEPTH: u32 = 64;

/// Constraints on a search, as a UCI `go` command gives them.
#[derive(Clone, Debug)]
pub struct SearchLimits {
    /// Fixed maximum depth.
    pub depth: Option<u32>,
    /// Fixed thinking time for this move, in milliseconds.
    pub movetime: Option<u64>,
    /// Remaining clock and increment for each side, in milliseconds.
    pub wtime: Option<u64>,
    pub btime: Option<u64>,
    pub winc: Option<u64>,
    pub binc: Option<u64>,
    /// Moves until the next time control.
    pub movestogo: Option<u32>,
    /// Search until explicitly stopped.
    pub infinite: bool,
    /// The engine is pondering: search with no time pressure.
    pub ponder: bool,
    /// Stop after roughly this many nodes.
    pub nodes: Option<u64>,
    /// Root moves that are not searched.
    pub excluded_root_moves: Vec<Move>,
}

impl Default for SearchLimits {
    /// No constraints.
    fn default() -> (r: SearchLimits)
        ensures
            r.depth is None,
            r.movetime is None,
            r.wtime is None,
            r.btime is None,
            r.winc is None,
            r.binc is None,
            r.movestogo is None,
            !r.infinite,
            !r.ponder,
            r.nodes is None,
            r.excluded_root_moves@.len() == 0,
    {
        SearchLimits {
            depth: None,
            movetime: None,
            wtime: None,
            btime: None,
            winc: None,
            binc: None,
            movestogo: None,
            infinite: false,
            ponder: false,
            nodes: None,
            excluded_root_moves: Vec::new(),
        }
    }
}

impl SearchLimits {
    /// The depth cap for iterative deepening.
    pub open spec fn cap(self) -> int {
        match self.depth {
            Some(d) => if d < MAX_DEPTH {
                d as int
            } else {
                MAX_DEPTH as int
            },
            None => MAX_DEPTH as int,
        }
    }

    /// The depth cap for iterative deepening.
    pub fn max_depth(&self) -> (r: u32)
        ensures
            r == self.cap(),
            r <= MAX_DEPTH,
    {
        match self.depth {
            Some(d) => if d < MAX_DEPTH {
                d
            } else {
                MAX_DEPTH
            },
            None => MAX_DEPTH,
        }
    }

    /// True if the search should run until explicitly stopped (no time pressure).
    pub fn is_infinite(&self) -> (r: bool)
        ensures
            r == (self.infinite || self.ponder),
    {
        self.infinite || self.ponder
    }
}

} // verus!
