//! Quiescence search.
//!
//! Where the main search runs out of depth, captures and promotions are
//! searched on until the position is quiet, so that it is not evaluated in the
//! middle of an exchange. The side to move is not forced to capture: it may
//! stand pat on the static evaluation. When in check all evasions are tried.

use crate::board::Board;
use crate::eval::evaluator::Evaluator;
use crate::movegen::legal::legal;
use crate::movegen::moves::Move;
use crate::movegen::rules::law_valid_moves_playable;
use crate::search::model;
use crate::search::model::{capture_values, Script};
use crate::search::negamax::{
    capped, follows, lemma_play, same_board, searchable, select_next, window, Searcher,
};
use crate::search::ordering::capture_score;
use crate::search::see::see;
use crate::search::tt::TableState;
use crate::search::visits::{law_quiesce_visits, lemma_quiesce_moves};
use crate::search::{INFINITY, MATE};
use vstd::prelude::*;

verus! {

/// The quiescence scores of the moves.
fn capture_scores(board: &Board, ms: &Vec<Move>) -> (r: Vec<i32>)
    requires
        board.wf(),
    ensures
        r@ == capture_values(board@, ms@),
        r@.len() == ms@.len(),
{
    let mut out: Vec<i32> = Vec::new();
    let mut i: usize = 0;
    while i < ms.len()
        invariant
            board.wf(),
            i <= ms@.len(),
            out@.len() == i,
            forall|k: int| 0 <= k < i ==> #[trigger] out@[k] == capture_values(board@, ms@)[k],
        decreases ms@.len() - i,
    {
        out.push(capture_score(board, ms[i]));
        i += 1;
    }
    proof {
        assert(out@ =~= capture_values(board@, ms@));
    }
    out
}

impl<E: Evaluator> Searcher<E> {
    /// Search captures (and, when in check, all evasions) until the position is
    /// quiet, returning a trustworthy score for `board`.
    pub(crate) fn quiescence(
        &mut self,
        board: &mut Board,
        alpha_in: i32,
        beta: i32,
        ply: i32,
        Ghost(t): Ghost<TableState>,
    ) -> (r: i32)
        requires
            old(self).wf(),
            searchable(*old(board), ply as int),
            0 <= ply <= 128,
            window(alpha_in as int, ply as int),
            window(beta as int, ply as int),
        ensures
            old(self).keeps(*final(self)),
            same_board(*old(board), *final(board)),
            capped(r as int),
            forall|sc: Script| #[trigger]
                follows(final(self).log@, sc) && !old(self).stopped ==> final(self).reaches(
                    (r as int, final(self).state(t, sc)),
                    model::quiesce(
                        old(self).evaluator,
                        old(board)@,
                        old(self).state(t, sc),
                        alpha_in as int,
                        beta as int,
                        ply as int,
                    ),
                ),
        decreases 300 - ply,
    {
        let ghost e = self.evaluator;
        let ghost p = board@;
        let ghost hash = board.hash;
        if self.stops_here() {
            proof {
                assert forall|sc: Script| #[trigger]
                    follows(self.log@, sc) && !old(self).stopped implies self.visits@
                    <= model::quiesce(
                    e,
                    p,
                    old(self).state(t, sc),
                    alpha_in as int,
                    beta as int,
                    ply as int,
                ).1.visits by {
                    law_quiesce_visits(
                        e,
                        p,
                        old(self).state(t, sc),
                        alpha_in as int,
                        beta as int,
                        ply as int,
                    );
                }
            }
            return 0;
        }
        if ply > self.max_ply {
            self.max_ply = ply;
        }
        // Bound recursion (some positions have very long forcing sequences).
        if ply >= 128 {
            return self.evaluator.evaluate(&*board);
        }
        let check = board.is_in_check();
        let mut alpha: i32 = alpha_in;
        let mut best: i32 = -INFINITY;
        if !check {
            // Stand-pat: the option of making no capture at all.
            let stand_pat: i32 = self.evaluator.evaluate(&*board);
            best = stand_pat;
            if stand_pat >= beta {
                return stand_pat;
            }
            if stand_pat > alpha {
                alpha = stand_pat;
            }
        }
        proof {
            law_valid_moves_playable(p);
        }
        let mut ms: Vec<Move> = board.legal_moves().moves;
        if ms.len() == 0 {
            // Terminal at the horizon: checkmate, or stalemate (a draw).
            return if check {
                -MATE + ply
            } else {
                0
            };
        }
        let mut sc = capture_scores(&*board, &ms);
        let mut i: usize = 0;
        proof {
            assert forall|x: Script| #[trigger]
                follows(self.log@, x) && !old(self).stopped implies model::quiesce(
                e,
                p,
                old(self).state(t, x),
                alpha_in as int,
                beta as int,
                ply as int,
            ) == model::quiesce_moves(
                e,
                p,
                ms@,
                sc@,
                0,
                alpha as int,
                beta as int,
                best as int,
                ply as int,
                check,
                self.state(t, x),
            ) by {}
        }
        while i < ms.len()
            invariant
                old(self).keeps(*self),
                e == old(self).evaluator,
                p == old(board)@,
                hash == old(board).hash,
                searchable(*board, ply as int),
                board@ == p,
                board.hash == hash,
                0 <= ply < 128,
                window(alpha as int, ply as int),
                window(beta as int, ply as int),
                capped(best as int),
                i <= ms@.len(),
                ms@.len() == sc@.len(),
                forall|k: int| 0 <= k < ms@.len() ==> legal(p).contains(#[trigger] ms@[k]),
                !self.stopped || old(self).stopped,
                forall|x: Script| #[trigger]
                    follows(self.log@, x) && !old(self).stopped ==> model::quiesce(
                        e,
                        p,
                        old(self).state(t, x),
                        alpha_in as int,
                        beta as int,
                        ply as int,
                    ) == model::quiesce_moves(
                        e,
                        p,
                        ms@,
                        sc@,
                        i as int,
                        alpha as int,
                        beta as int,
                        best as int,
                        ply as int,
                        check,
                        self.state(t, x),
                    ),
            decreases ms@.len() - i,
        {
            let ghost ms0 = ms@;
            let ghost sc0 = sc@;
            let ghost head = *self;
            select_next(&mut ms, &mut sc, i);
            let mv = ms[i];
            proof {
                assert forall|k: int| 0 <= k < ms@.len() implies legal(p).contains(
                    #[trigger] ms@[k],
                ) by {
                    assert(ms0.contains(ms@[k]));
                }
            }
            // When not in check, only tactical moves are searched.
            if !check && !mv.is_capture() && !mv.is_promotion() {
                return best;
            }
            // Captures that lose material are skipped.
            if !check && mv.is_capture() && see(&*board, mv) < 0 {
                if best + 900 < alpha {
                    return best;
                }
                i += 1;
                continue ;
            }
            proof {
                lemma_play(p, hash, mv);
            }
            let undo = board.make_move(mv);
            let v: i32 = self.quiescence(board, -beta, -alpha, ply + 1, Ghost(t));
            let score: i32 = -v;
            board.unmake_move(mv, undo);
            if self.stopped {
                proof {
                    assert forall|x: Script| #[trigger]
                        follows(self.log@, x) && !old(self).stopped implies self.visits@
                        <= model::quiesce(
                        e,
                        p,
                        old(self).state(t, x),
                        alpha_in as int,
                        beta as int,
                        ply as int,
                    ).1.visits by {
                        lemma_quiesce_moves(
                            e,
                            p,
                            ms0,
                            sc0,
                            i as int,
                            alpha as int,
                            beta as int,
                            best as int,
                            ply as int,
                            check,
                            head.state(t, x),
                        );
                    }
                }
                return 0;
            }
            if score > best {
                best = score;
            }
            if score > alpha {
                if score >= beta {
                    return best;
                }
                alpha = score;
            }
            i += 1;
        }
        best
    }
}

} // verus!
