//! What a tablebase result means at a node of the search.

use crate::board::{position_key, Board, Pos};
use crate::search::model::to_table;
use crate::search::negamax::score_to_tt;
use crate::search::tt::{Bound, TableState, TranspositionTable};
use crate::tablebase::{few_enough, piece_count, TbState, WdlScore};
use vstd::prelude::*;

verus! {

/// What a tablebase result makes of a node: a score that settles it, the new
/// lower bound of the window, and the transposition table.
pub struct Settled {
    pub score: Option<int>,
    pub alpha: int,
    pub tt: TableState,
}

/// A decided position gets its score, and a drawn one 0 if that is enough for a
/// cutoff; else a draw raises the lower bound to 0. Except for that cutoff the
/// result is stored, deeper than any search.
pub open spec fn settled(
    t: TableState,
    p: Pos,
    wdl: WdlScore,
    alpha: int,
    beta: int,
    ply: int,
) -> Settled {
    if !wdl.drawn() {
        let bound = if wdl.worth() > 0 {
            Bound::Lower
        } else {
            Bound::Upper
        };
        Settled {
            score: Some(wdl.worth()),
            alpha,
            tt: t.store(position_key(p), 200, to_table(wdl.worth(), ply), bound, None),
        }
    } else if 0 >= beta {
        Settled { score: Some(0), alpha, tt: t }
    } else {
        Settled {
            score: None,
            alpha: if alpha < 0 {
                0
            } else {
                alpha
            },
            tt: t.store(position_key(p), 200, 0, Bound::Exact, None),
        }
    }
}

/// A score as a mathematical number, if there is one.
pub open spec fn score_of(v: Option<i32>) -> Option<int> {
    match v {
        Some(n) => Some(n as int),
        None => None,
    }
}

/// Apply a tablebase result to a node: the score that settles it, if it does,
/// and the lower bound of the window.
pub fn settle(
    board: &Board,
    wdl: WdlScore,
    alpha: i32,
    beta: i32,
    ply: i32,
    tt: &mut TranspositionTable,
) -> (r: (Option<i32>, i32))
    requires
        board.hashed(),
        old(tt).wf(),
        0 <= ply <= 1000,
    ensures
        final(tt).wf(),
        (Settled { score: score_of(r.0), alpha: r.1 as int, tt: final(tt)@ }) == settled(
            old(tt)@,
            board@,
            wdl,
            alpha as int,
            beta as int,
            ply as int,
        ),
{
    let score: i32 = wdl.to_search_score();
    if !wdl.is_effective_draw() {
        // Win or loss: exact with perfect play.
        let bound = if score > 0 {
            Bound::Lower
        } else {
            Bound::Upper
        };
        tt.store(board.hash, 200, score_to_tt(score, ply), bound, None);
        return (Some(score), alpha);
    }
    if 0 >= beta {
        return (Some(0), alpha);
    }
    tt.store(board.hash, 200, 0, Bound::Exact, None);
    (
        None,
        if alpha < 0 {
            0
        } else {
            alpha
        },
    )
}

/// True if the tablebases are asked about a node: there are some, and the
/// position has few enough pieces and the half-move clock at 0.
pub fn is_worth_asking(tables: &TbState, board: &Board) -> (r: bool)
    requires
        board.wf(),
    ensures
        r == (tables.tables is Some && few_enough(tables.piece_limit as int, board@)),
{
    tables.tables.is_some() && tables.piece_limit != 0 && board.halfmove_clock == 0 && piece_count(
        board,
    ) <= tables.piece_limit
}

} // verus!
