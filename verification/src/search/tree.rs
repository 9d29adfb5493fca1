//! The nodes of the main search.

use crate::board::{Board, Pos};
use crate::eval::evaluator::Evaluator;
use crate::movegen::generate::in_check;
use crate::movegen::legal::{law_legal_count, legal};
use crate::movegen::make_move::law_unmake_undoes_null;
use crate::movegen::moves::Move;
use crate::movegen::rules::{law_null_move_keeps_valid, law_valid_moves_playable};
use crate::search::draw::is_insufficient_material;
use crate::search::endgame::{is_worth_asking, score_of, settle};
use crate::search::lmr::lmr_reduction;
use crate::search::model;
use crate::search::model::{
    blamed, consulted, context_of, cutoff, finished, judged, key_of, node_values, Consulted,
    Context, Node, Script, SearchState,
};
use crate::search::negamax::{
    capped, depth_ok, follows, has_non_pawn_material, lemma_follows_push, lemma_play, same_board,
    score_from_tt, score_to_tt, searchable, select_next, window, Searcher,
};
use crate::search::ordering::{bonus_for, depth_bonus, score_move, HISTORY_MAX, SCORE_COUNTER};
use crate::search::params::{
    clamp_i32, futility_margin_1, futility_margin_2, lmp_base, probcut_margin, razor_margin,
    se_depth_factor,
};
use crate::search::see::see;
use crate::search::tt::{Bound, TTData, TableState, TranspositionTable};
use crate::search::visits::{
    first_try, law_negamax_visits, lemma_moves_end, lemma_moves_start, lemma_moves_step,
    lemma_one_move, lemma_probcut_moves, lemma_razor_stage, lemma_search_child, moves_from,
    one_move, stage_of,
};
use crate::search::{INFINITY, MATE, MATE_IN_MAX};
use crate::tablebase::probe_wdl;
use vstd::prelude::*;

verus! {

/// What is known of a node before its moves are searched.
#[derive(Clone, Copy)]
pub struct NodeInfo {
    /// The remaining depth, with the check extension.
    pub depth: u32,
    pub alpha: i32,
    /// Alpha before a tablebase raised it.
    pub alpha_orig: i32,
    pub beta: i32,
    pub ply: i32,
    pub skip_null: bool,
    /// The side to move is in check.
    pub check: bool,
    /// The node is being searched without its best move.
    pub singular: bool,
    /// What the table holds for the position.
    pub hit: Option<TTData>,
}

impl NodeInfo {
    /// The node of the model.
    pub open spec fn node(self, p: Pos) -> Node {
        Node {
            p,
            depth: self.depth as int,
            alpha: self.alpha as int,
            alpha_orig: self.alpha_orig as int,
            beta: self.beta as int,
            ply: self.ply as int,
            skip_null: self.skip_null,
            check: self.check,
            singular: self.singular,
            hit: self.hit,
        }
    }

    /// The numbers are in range, the check and singularity flags are right, and
    /// there is depth left.
    pub open spec fn ok<E: Evaluator>(self, s: Searcher<E>, b: Board) -> bool {
        self.fits(s, b) && 1 <= self.depth
    }

    /// The numbers are in range, and the check and singularity flags are right.
    pub open spec fn fits<E: Evaluator>(self, s: Searcher<E>, b: Board) -> bool {
        &&& 0 <= self.ply < 128
        &&& depth_ok(self.depth as int, self.ply as int + 1)
        &&& window(self.alpha as int, self.ply as int)
        &&& window(self.alpha_orig as int, self.ply as int)
        &&& window(self.beta as int, self.ply as int)
        &&& self.check == in_check(b@, b@.side)
        &&& self.singular == (s.se_excluded@[self.ply as int] is Some)
    }

    /// The window is more than one point wide.
    fn is_pv(&self) -> (r: bool)
        requires
            -60_000_000 <= self.alpha <= 60_000_000,
        ensures
            r == (self.beta > self.alpha + 1),
    {
        self.beta > self.alpha + 1
    }

    /// The best move that the table holds.
    fn hash_move(&self) -> (r: Option<Move>)
        ensures
            forall|p: Pos| r == #[trigger] self.node(p).hash_move(),
    {
        match self.hit {
            Some(d) => d.best_move(),
            None => None,
        }
    }
}

/// The moves that led to a node.
#[derive(Clone, Copy)]
pub struct Trail {
    pub prev: Option<Move>,
    pub key_1: Option<(usize, usize)>,
    pub key_2: Option<(usize, usize)>,
}

/// A key in mathematical numbers.
pub open spec fn key_view(k: Option<(usize, usize)>) -> Option<(int, int)> {
    match k {
        Some(x) => Some((x.0 as int, x.1 as int)),
        None => None,
    }
}

/// The key is one of a piece type and a square.
pub open spec fn key_ok(k: Option<(usize, usize)>) -> bool {
    k matches Some(x) ==> x.0 < 6 && x.1 < 64
}

impl Trail {
    /// The context of the model.
    pub open spec fn context(self) -> Context {
        Context { prev: self.prev, key_1: key_view(self.key_1), key_2: key_view(self.key_2) }
    }

    /// The keys are in range.
    pub open spec fn ok(self) -> bool {
        key_ok(self.key_1) && key_ok(self.key_2)
    }
}

/// The piece type and square of the piece that stands where a move went to.
fn trail_key(board: &Board, mv: Option<Move>) -> (r: Option<(usize, usize)>)
    ensures
        key_view(r) == key_of(board@, mv),
        key_ok(r),
{
    match mv {
        Some(m) => match board.piece_at(m.to()) {
            Some(pc) => Some((pc.piece_type.index(), m.to().index())),
            None => None,
        },
        None => None,
    }
}

/// The result of a node, which is stored in the table.
fn finish(
    board: &Board,
    n: &NodeInfo,
    tt: &mut TranspositionTable,
    best: i32,
    best_move: Option<Move>,
) -> (r: i32)
    requires
        board.hashed(),
        old(tt).wf(),
        capped(best as int),
        0 <= n.ply < 128,
    ensures
        r == best,
        final(tt).wf(),
        forall|s: SearchState|
            s.tt == old(tt)@ ==> #[trigger] finished(
                n.node(board@),
                best as int,
                best_move,
                s,
            ) == (best as int, (SearchState { tt: final(tt)@, ..s })),
{
    let bound = if best <= n.alpha_orig {
        Bound::Upper
    } else if best >= n.beta {
        Bound::Lower
    } else {
        Bound::Exact
    };
    tt.store(board.hash, n.depth, score_to_tt(best, n.ply), bound, best_move);
    best
}

impl<E: Evaluator> Searcher<E> {
    /// The moves that led to the current node.
    fn trail(&self, board: &Board, ply: i32, Ghost(t): Ghost<TableState>) -> (r: Trail)
        requires
            0 <= ply < 128,
        ensures
            r.ok(),
            forall|sc: Script|
                r.context() == context_of(#[trigger] self.state(t, sc), board@, ply as int),
    {
        let prev = if ply > 0 {
            self.move_stack[(ply - 1) as usize]
        } else {
            None
        };
        let prev_2 = if ply > 1 {
            self.move_stack[(ply - 2) as usize]
        } else {
            None
        };
        Trail { prev, key_1: trail_key(board, prev), key_2: trail_key(board, prev_2) }
    }

    /// Sum of 1-ply and 2-ply continuation history bonuses for `mv`.
    fn cont_bonus(&self, board: &Board, mv: Move, c: &Trail, Ghost(t): Ghost<TableState>) -> (r:
        i32)
        requires
            self.wf(),
            c.ok(),
        ensures
            forall|sc: Script|
                r == model::cont_bonus(#[trigger] self.state(t, sc), c.context(), board@, mv),
            -2 * HISTORY_MAX <= r <= 2 * HISTORY_MAX,
    {
        match board.piece_at(mv.from()) {
            None => 0,
            Some(pc) => {
                let pt: usize = pc.piece_type.index();
                let to: usize = mv.to().index();
                let a: i32 = match c.key_1 {
                    Some(k) => self.cont_hist_1.get(k.0, k.1, pt, to),
                    None => 0,
                };
                let b: i32 = match c.key_2 {
                    Some(k) => self.cont_hist_2.get(k.0, k.1, pt, to),
                    None => 0,
                };
                a + b
            },
        }
    }

    /// The ordering scores of the moves of a node.
    fn order_scores(
        &self,
        board: &Board,
        n: &NodeInfo,
        c: &Trail,
        ms: &Vec<Move>,
        Ghost(t): Ghost<TableState>,
    ) -> (r: Vec<i32>)
        requires
            self.wf(),
            board.wf(),
            c.ok(),
            0 <= n.ply < 128,
        ensures
            r@.len() == ms@.len(),
            forall|sc: Script|
                r@ == node_values(
                    #[trigger] self.state(t, sc),
                    c.context(),
                    board@,
                    n.ply as int,
                    n.node(board@).hash_move(),
                    ms@,
                ),
    {
        let ghost vals = node_values(
            self.state(t, Seq::empty()),
            c.context(),
            board@,
            n.ply as int,
            n.node(board@).hash_move(),
            ms@,
        );
        let hash_move = n.hash_move();
        let counter = self.counter_moves.get(c.prev);
        let mut out: Vec<i32> = Vec::new();
        let mut i: usize = 0;
        while i < ms.len()
            invariant
                self.wf(),
                board.wf(),
                c.ok(),
                0 <= n.ply < 128,
                hash_move == n.node(board@).hash_move(),
                counter == crate::search::ordering::counter_of(
                    self.state(t, Seq::empty()).counters,
                    c.context().prev,
                ),
                vals == node_values(
                    self.state(t, Seq::empty()),
                    c.context(),
                    board@,
                    n.ply as int,
                    n.node(board@).hash_move(),
                    ms@,
                ),
                i <= ms@.len(),
                out@.len() == i,
                forall|k: int| 0 <= k < i ==> #[trigger] out@[k] == vals[k],
            decreases ms@.len() - i,
        {
            let mv = ms[i];
            let base: i32 = score_move(
                board,
                mv,
                n.ply as usize,
                hash_move,
                &self.killers,
                &self.history,
                counter,
            );
            let v: i32 = if !mv.is_capture() && !mv.is_promotion() && base < SCORE_COUNTER {
                clamp_i32(
                    base + self.cont_bonus(board, mv, c, Ghost(t)),
                    -HISTORY_MAX,
                    HISTORY_MAX,
                )
            } else {
                base
            };
            out.push(v);
            i += 1;
        }
        proof {
            assert(out@ =~= vals);
            assert forall|sc: Script|
                out@ == node_values(
                    #[trigger] self.state(t, sc),
                    c.context(),
                    board@,
                    n.ply as int,
                    n.node(board@).hash_move(),
                    ms@,
                ) by {
                assert(out@ =~= node_values(
                    self.state(t, sc),
                    c.context(),
                    board@,
                    n.ply as int,
                    n.node(board@).hash_move(),
                    ms@,
                ));
            }
        }
        out
    }

    /// Apply a bonus or malus to the histories of a quiet move.
    fn judge(&mut self, board: &Board, c: &Trail, mv: Move, bonus: i32, Ghost(t): Ghost<TableState>)
        requires
            old(self).wf(),
            c.ok(),
            -169 <= bonus <= 169,
        ensures
            old(self).keeps(*final(self)),
            *final(self) == (Searcher {
                history: final(self).history,
                cont_hist_1: final(self).cont_hist_1,
                cont_hist_2: final(self).cont_hist_2,
                ..*old(self)
            }),
            forall|sc: Script| #[trigger]
                final(self).state(t, sc) == judged(
                    old(self).state(t, sc),
                    c.context(),
                    board@,
                    mv,
                    bonus as int,
                ),
    {
        self.history.adjust(board.side_to_move, mv, bonus);
        if let Some(pc) = board.piece_at(mv.from()) {
            if let Some(k) = c.key_1 {
                self.cont_hist_1.update(
                    k.0,
                    k.1,
                    pc.piece_type.index(),
                    mv.to().index(),
                    bonus,
                );
            }
            if let Some(k) = c.key_2 {
                self.cont_hist_2.update(
                    k.0,
                    k.1,
                    pc.piece_type.index(),
                    mv.to().index(),
                    bonus,
                );
            }
        }
    }

    /// Record that a move has caused a beta cutoff.
    fn record_cutoff(
        &mut self,
        board: &Board,
        c: &Trail,
        n: &NodeInfo,
        ms: &Vec<Move>,
        i: usize,
        mv: Move,
        Ghost(t): Ghost<TableState>,
    )
        requires
            old(self).wf(),
            c.ok(),
            0 <= n.ply < 128,
            i < ms@.len(),
        ensures
            old(self).keeps(*final(self)),
            final(self).stopped == old(self).stopped,
            final(self).log == old(self).log,
            forall|sc: Script| #[trigger]
                final(self).state(t, sc) == cutoff(
                    old(self).state(t, sc),
                    c.context(),
                    n.node(board@),
                    ms@,
                    i as int,
                    mv,
                ),
    {
        self.fail_highs = self.fail_highs.wrapping_add(1);
        if mv.is_capture() || mv.is_promotion() {
            return;
        }
        self.killers.add(n.ply as usize, mv);
        if let Some(pm) = c.prev {
            self.counter_moves.set(pm, mv);
        }
        let bonus: i32 = bonus_for(n.depth);
        self.judge(board, c, mv, bonus, Ghost(t));
        let ghost mid = *self;
        // The quiet moves tried before this one were ordered too high.
        let mut j: usize = 0;
        while j < i
            invariant
                j <= i < ms@.len(),
                c.ok(),
                0 <= bonus <= 169,
                bonus == depth_bonus(n.depth as int),
                old(self).keeps(*self),
                self.stopped == old(self).stopped,
                self.log == old(self).log,
                forall|sc: Script| #[trigger]
                    self.state(t, sc) == blamed(
                        mid.state(t, sc),
                        c.context(),
                        board@,
                        ms@,
                        n.depth as int,
                        j as int,
                    ),
            decreases i - j,
        {
            let prior = ms[j];
            if !prior.is_capture() && !prior.is_promotion() {
                self.judge(board, c, prior, -bonus, Ghost(t));
            }
            j += 1;
        }
    }

    /// Consult the tablebases at a node: a decided position gives its score, a
    /// drawn one may raise alpha.
    fn consult_tables(
        &mut self,
        board: &Board,
        alpha: i32,
        beta: i32,
        ply: i32,
        tt: &mut TranspositionTable,
    ) -> (r: (Option<i32>, i32))
        requires
            old(self).wf(),
            board.wf(),
            board.hashed(),
            old(tt).wf(),
            0 <= ply < 128,
            window(alpha as int, ply as int),
        ensures
            old(self).keeps(*final(self)),
            final(self).stopped == old(self).stopped,
            final(tt).wf(),
            window(r.1 as int, ply as int),
            r.0 matches Some(v) ==> capped(v as int),
            final(self).visits == old(self).visits,
            final(self).nodes == old(self).nodes,
            forall|sc: Script| #[trigger]
                follows(final(self).log@, sc) ==> (Consulted {
                    score: score_of(r.0),
                    alpha: r.1 as int,
                    s: final(self).state(final(tt)@, sc),
                }) == consulted(
                    old(self).state(old(tt)@, sc),
                    board@,
                    alpha as int,
                    beta as int,
                    ply as int,
                ),
    {
        if !is_worth_asking(&self.tables, board) {
            return (None, alpha);
        }
        let answer = probe_wdl(&self.tables, board);
        proof {
            let before = self.log@;
            self.log@ = before.push(answer);
            assert forall|sc: Script| #[trigger] follows(self.log@, sc) implies follows(before, sc)
                && sc[before.len() as int] == answer by {
                lemma_follows_push(before, answer, sc);
            }
        }
        match answer {
            None => (None, alpha),
            Some(wdl) => {
                self.tb_hits = self.tb_hits.wrapping_add(1);
                settle(board, wdl, alpha, beta, ply, tt)
            },
        }
    }

    /// Null-move pruning: pass, and cut off if that still fails high.
    fn try_null(&mut self, board: &mut Board, n: &NodeInfo, tt: &mut TranspositionTable) -> (r:
        Option<i32>)
        requires
            old(self).wf(),
            old(tt).wf(),
            searchable(*old(board), n.ply as int),
            n.ok(*old(self), *old(board)),
        ensures
            old(self).keeps(*final(self)),
            same_board(*old(board), *final(board)),
            final(tt).wf(),
            r matches Some(v) ==> capped(v as int),
            r is None ==> !final(self).stopped || old(self).stopped,
            forall|sc: Script| #[trigger]
                follows(final(self).log@, sc) && !old(self).stopped ==> {
                    let want = model::null_stage(
                        old(self).evaluator,
                        old(self).params,
                        n.node(old(board)@),
                        old(self).state(old(tt)@, sc),
                    );
                    match r {
                        Some(v) => final(self).reaches(
                            (v as int, final(self).state(final(tt)@, sc)),
                            want,
                        ),
                        None => want == model::razor_stage(
                            old(self).evaluator,
                            old(self).params,
                            n.node(old(board)@),
                            final(self).state(final(tt)@, sc),
                        ),
                    }
                },
        decreases
                300 - n.ply,
                (if n.singular {
                    0int
                } else {
                    1int
                }),
                8int,
    {
        if n.skip_null || n.is_pv() || n.check || n.depth < 3 || !has_non_pawn_material(&*board) {
            return None;
        }
        if self.evaluator.evaluate(&*board) < n.beta {
            return None;
        }
        let ghost p = board@;
        let ghost hash = board.hash;
        let r: u32 = 4 + n.depth / 3;
        let null_depth: u32 = if n.depth >= r {
            n.depth - r
        } else {
            0
        };
        proof {
            law_null_move_keeps_valid(p);
            law_unmake_undoes_null(p, hash);
        }
        // A null move has no piece move, so no continuation-history context.
        self.move_stack[n.ply as usize] = None;
        let ghost mid = *self;
        let ghost t1 = tt@;
        let undo = board.make_null_move();
        let ghost q = board@;
        let v: i32 = self.negamax(board, null_depth, -n.beta, -n.beta + 1, n.ply + 1, true, tt);
        board.unmake_null_move(undo);
        if self.stopped {
            proof {
                assert forall|sc: Script| #[trigger]
                    follows(self.log@, sc) && !old(self).stopped implies self.visits@
                    <= model::null_stage(
                    mid.evaluator,
                    mid.params,
                    n.node(p),
                    old(self).state(old(tt)@, sc),
                ).1.visits by {
                    let s2 = model::negamax(
                        mid.evaluator,
                        mid.params,
                        q,
                        mid.state(t1, sc),
                        null_depth as int,
                        -n.beta as int,
                        -n.beta + 1,
                        n.ply + 1,
                        true,
                    ).1;
                    lemma_razor_stage(mid.evaluator, mid.params, n.node(p), s2);
                }
            }
            return Some(0);
        }
        if -v >= n.beta {
            return Some(n.beta);
        }
        None
    }

    /// ProbCut: captures that exceed a raised bound at reduced depth cut the
    /// node off.
    fn try_probcut(&mut self, board: &mut Board, n: &NodeInfo, tt: &mut TranspositionTable) -> (r:
        Option<i32>)
        requires
            old(self).wf(),
            old(tt).wf(),
            searchable(*old(board), n.ply as int),
            n.ok(*old(self), *old(board)),
            n.depth >= 5,
            -MATE_IN_MAX < n.beta < MATE_IN_MAX,
        ensures
            old(self).keeps(*final(self)),
            same_board(*old(board), *final(board)),
            final(tt).wf(),
            r matches Some(v) ==> capped(v as int),
            r is None ==> !final(self).stopped || old(self).stopped,
            forall|sc: Script| #[trigger]
                follows(final(self).log@, sc) && !old(self).stopped ==> {
                    let want = model::probcut_moves(
                        old(self).evaluator,
                        old(self).params,
                        n.node(old(board)@),
                        legal(old(board)@),
                        0,
                        old(self).state(old(tt)@, sc),
                    );
                    match r {
                        Some(v) => final(self).reaches(
                            (v as int, final(self).state(final(tt)@, sc)),
                            want,
                        ),
                        None => want == model::move_stage(
                            old(self).evaluator,
                            old(self).params,
                            n.node(old(board)@),
                            final(self).state(final(tt)@, sc),
                        ),
                    }
                },
        decreases
                300 - n.ply,
                (if n.singular {
                    0int
                } else {
                    1int
                }),
                6int,
    {
        let ghost e = self.evaluator;
        let ghost prm = self.params;
        let ghost p = board@;
        let ghost hash = board.hash;
        let ghost nd = n.node(p);
        let margin: i32 = probcut_margin(&self.params);
        let bound: i32 = n.beta + margin;
        proof {
            law_valid_moves_playable(p);
        }
        let ms = board.legal_moves();
        let mut i: usize = 0;
        while i < ms.len()
            invariant
                old(self).keeps(*self),
                tt.wf(),
                e == old(self).evaluator,
                prm == old(self).params,
                p == old(board)@,
                hash == old(board).hash,
                nd == n.node(p),
                searchable(*board, n.ply as int),
                board@ == p,
                board.hash == hash,
                n.ok(*self, *board),
                n.depth >= 5,
                -MATE_IN_MAX < n.beta < MATE_IN_MAX,
                margin == prm.probcut_margin,
                bound == n.beta + margin,
                ms@ == legal(p),
                i <= ms@.len(),
                !self.stopped || old(self).stopped,
                forall|sc: Script| #[trigger]
                    follows(self.log@, sc) && !old(self).stopped ==> model::probcut_moves(
                        e,
                        prm,
                        nd,
                        legal(p),
                        0,
                        old(self).state(old(tt)@, sc),
                    ) == model::probcut_moves(
                        e,
                        prm,
                        nd,
                        legal(p),
                        i as int,
                        self.state(tt@, sc),
                    ),
            decreases ms@.len() - i,
        {
            let mv = ms.get(i);
            if !mv.is_capture() || see(&*board, mv) + margin < 0 {
                i += 1;
                continue ;
            }
            let ghost path = self.hash_history@;
            let ghost head = *self;
            let ghost t0 = tt@;
            proof {
                assert(legal(p).contains(mv));
                lemma_play(p, hash, mv);
            }
            self.move_stack[n.ply as usize] = Some(mv);
            self.hash_history.push(board.hash);
            let undo = board.make_move(mv);
            let v: i32 = self.negamax(
                board,
                n.depth - 4,
                -bound,
                -bound + 1,
                n.ply + 1,
                false,
                tt,
            );
            board.unmake_move(mv, undo);
            let _ = self.hash_history.pop();
            proof {
                assert(self.hash_history@ =~= path);
            }
            if self.stopped {
                proof {
                    assert forall|sc: Script| #[trigger]
                        follows(self.log@, sc) && !old(self).stopped implies self.visits@
                        <= model::probcut_moves(
                        e,
                        prm,
                        nd,
                        legal(p),
                        0,
                        old(self).state(old(tt)@, sc),
                    ).1.visits by {
                        lemma_probcut_moves(
                            e,
                            prm,
                            nd,
                            legal(p),
                            i as int,
                            head.state(t0, sc),
                        );
                    }
                }
                return Some(0);
            }
            if -v >= bound {
                tt.store(
                    board.hash,
                    n.depth - 4,
                    score_to_tt(-v, n.ply),
                    Bound::Lower,
                    Some(mv),
                );
                return Some(-v);
            }
            i += 1;
        }
        None
    }

    /// Singular extension: by how much the hash move is extended.
    fn try_singular(
        &mut self,
        board: &mut Board,
        n: &NodeInfo,
        mv: Move,
        tt: &mut TranspositionTable,
    ) -> (r: u32)
        requires
            old(self).wf(),
            old(tt).wf(),
            searchable(*old(board), n.ply as int),
            n.ok(*old(self), *old(board)),
        ensures
            old(self).keeps(*final(self)),
            same_board(*old(board), *final(board)),
            final(tt).wf(),
            r <= 1,
            forall|sc: Script| #[trigger]
                follows(final(self).log@, sc) && !old(self).stopped ==> final(self).reaches(
                    (r as int, final(self).state(final(tt)@, sc)),
                    model::extension(
                        old(self).evaluator,
                        old(self).params,
                        n.node(old(board)@),
                        mv,
                        old(self).state(old(tt)@, sc),
                    ),
                ),
        decreases
                300 - n.ply,
                (if n.singular {
                    0int
                } else {
                    1int
                }),
                3int,
    {
        if n.depth < 6 || n.singular || n.hash_move() != Some(mv) {
            return 0;
        }
        let d = match n.hit {
            Some(d) => d,
            None => {
                return 0;
            },
        };
        let tt_score: i32 = score_from_tt(d.score, n.ply);
        if !(d.bound == Bound::Lower || d.bound == Bound::Exact) || (d.depth as u32) + 3 < n.depth
            || tt_score >= MATE_IN_MAX || tt_score <= -MATE_IN_MAX {
            return 0;
        }
        let ghost excluded = self.se_excluded@;
        let factor: i32 = se_depth_factor(&self.params);
        proof {
            assert(0 <= factor * n.depth <= 15 * 258) by (nonlinear_arith)
                requires
                    0 <= factor <= 15,
                    0 <= n.depth <= 258,
            ;
        }
        let lowered: i32 = tt_score - factor * (n.depth as i32);
        let bound: i32 = if lowered >= -MATE_IN_MAX + 1 {
            lowered
        } else {
            -MATE_IN_MAX + 1
        };
        // Leave this move out and search the same node again.
        self.se_excluded[n.ply as usize] = Some(mv);
        let v: i32 = self.negamax(board, n.depth / 2, bound - 1, bound, n.ply, true, tt);
        self.se_excluded[n.ply as usize] = None;
        proof {
            assert(self.se_excluded@ =~= excluded);
        }
        if self.stopped {
            return 0;
        }
        if v < bound {
            self.singular_extensions = self.singular_extensions.wrapping_add(1);
            1
        } else {
            0
        }
    }

    /// Search one move of a node; the move is already recorded and the hash of
    /// the position is on the path.
    #[verifier::rlimit(60)]
    #[verifier::spinoff_prover]
    fn search_child(
        &mut self,
        board: &mut Board,
        n: &NodeInfo,
        i: usize,
        mv: Move,
        alpha: i32,
        ext: u32,
        tt: &mut TranspositionTable,
    ) -> (r: i32)
        requires
            old(self).wf(),
            old(tt).wf(),
            searchable(*old(board), n.ply as int),
            n.ok(*old(self), *old(board)),
            window(alpha as int, n.ply as int),
            legal(old(board)@).contains(mv),
            ext <= 1,
            i < 20_000,
        ensures
            old(self).keeps(*final(self)),
            same_board(*old(board), *final(board)),
            final(tt).wf(),
            capped(r as int),
            forall|sc: Script| #[trigger]
                follows(final(self).log@, sc) && !old(self).stopped ==> final(self).reaches(
                    (r as int, final(self).state(final(tt)@, sc)),
                    model::search_child(
                        old(self).evaluator,
                        old(self).params,
                        n.node(old(board)@),
                        i as int,
                        mv,
                        alpha as int,
                        ext as int,
                        old(self).state(old(tt)@, sc),
                    ),
                ),
        decreases
                300 - n.ply,
                (if n.singular {
                    0int
                } else {
                    1int
                }),
                3int,
    {
        let ghost p = board@;
        let ghost hash = board.hash;
        proof {
            lemma_play(p, hash, mv);
        }
        if i == 0 {
            // First move: full window, no reduction.
            let undo = board.make_move(mv);
            let v: i32 = self.negamax(
                board,
                n.depth - 1 + ext,
                -n.beta,
                -alpha,
                n.ply + 1,
                false,
                tt,
            );
            board.unmake_move(mv, undo);
            return -v;
        }
        // Moves sorted late are probably bad: search them at reduced depth first.
        let use_lmr = !n.check && n.depth >= 3 && i >= 2 && !mv.is_capture() && !mv.is_promotion()
            && self.killers.first(n.ply as usize) != Some(mv) && self.killers.second(
            n.ply as usize,
        ) != Some(mv);
        let cut: u32 = if use_lmr {
            let c: u32 = lmr_reduction(n.depth, i);
            if c >= 1 {
                c
            } else {
                1
            }
        } else {
            0
        };
        let full: u32 = n.depth - 1;
        let reduced: u32 = if full >= cut {
            full - cut
        } else {
            0
        };
        proof {
            assert forall|sc: Script| true implies {
                let s = #[trigger] old(self).state(old(tt)@, sc);
                model::search_child(
                    self.evaluator,
                    self.params,
                    n.node(p),
                    i as int,
                    mv,
                    alpha as int,
                    ext as int,
                    s,
                ).1.visits >= first_try(
                    self.evaluator,
                    self.params,
                    n.node(p),
                    i as int,
                    mv,
                    alpha as int,
                    s,
                ).1.visits
            } by {
                let s = old(self).state(old(tt)@, sc);
                lemma_search_child(
                    self.evaluator,
                    self.params,
                    n.node(p),
                    i as int,
                    mv,
                    alpha as int,
                    ext as int,
                    s,
                );
            }
        }
        let undo = board.make_move(mv);
        let v1: i32 = self.negamax(board, reduced, -alpha - 1, -alpha, n.ply + 1, false, tt);
        let mut probe: i32 = -v1;
        if cut > 0 && probe > alpha && !self.stopped {
            // Better than expected: search again at full depth.
            self.researches = self.researches.wrapping_add(1);
            let v2: i32 = self.negamax(board, full, -alpha - 1, -alpha, n.ply + 1, false, tt);
            probe = -v2;
            proof {
                if self.stopped {
                    assert forall|sc: Script| #[trigger]
                        follows(self.log@, sc) && !old(self).stopped implies self.visits@
                        <= model::search_child(
                        self.evaluator,
                        self.params,
                        n.node(p),
                        i as int,
                        mv,
                        alpha as int,
                        ext as int,
                        old(self).state(old(tt)@, sc),
                    ).1.visits by {
                        lemma_search_child(
                            self.evaluator,
                            self.params,
                            n.node(p),
                            i as int,
                            mv,
                            alpha as int,
                            ext as int,
                            old(self).state(old(tt)@, sc),
                        );
                    }
                }
            }
        }
        if probe > alpha && probe < n.beta && !self.stopped {
            // Inside the window: search again with the full window.
            self.researches = self.researches.wrapping_add(1);
            let v3: i32 = self.negamax(board, full, -n.beta, -alpha, n.ply + 1, false, tt);
            probe = -v3;
        }
        board.unmake_move(mv, undo);
        probe
    }

    /// Search one move of a node: find out whether it is extended, record it, and
    /// search it.
    fn search_move(
        &mut self,
        board: &mut Board,
        n: &NodeInfo,
        i: usize,
        mv: Move,
        alpha: i32,
        tt: &mut TranspositionTable,
    ) -> (r: i32)
        requires
            old(self).wf(),
            old(tt).wf(),
            searchable(*old(board), n.ply as int),
            n.ok(*old(self), *old(board)),
            window(alpha as int, n.ply as int),
            legal(old(board)@).contains(mv),
            i < 20_000,
        ensures
            old(self).keeps(*final(self)),
            same_board(*old(board), *final(board)),
            final(tt).wf(),
            capped(r as int),
            forall|sc: Script| #[trigger]
                follows(final(self).log@, sc) && !old(self).stopped ==> final(self).reaches(
                    (r as int, final(self).state(final(tt)@, sc)),
                    one_move(
                        old(self).evaluator,
                        old(self).params,
                        n.node(old(board)@),
                        i as int,
                        mv,
                        alpha as int,
                        old(self).state(old(tt)@, sc),
                    ),
                ),
        decreases
                300 - n.ply,
                (if n.singular {
                    0int
                } else {
                    1int
                }),
                4int,
    {
        let ghost e = self.evaluator;
        let ghost prm = self.params;
        let ghost nd = n.node(board@);
        let ghost path = self.hash_history@;
        let ext: u32 = self.try_singular(board, n, mv, tt);
        proof {
            reveal(one_move);
        }
        if self.stopped {
            proof {
                assert forall|sc: Script| #[trigger]
                    follows(self.log@, sc) && !old(self).stopped implies self.visits@ <= one_move(
                    e,
                    prm,
                    nd,
                    i as int,
                    mv,
                    alpha as int,
                    old(self).state(old(tt)@, sc),
                ).1.visits by {
                    lemma_one_move(
                        e,
                        prm,
                        nd,
                        i as int,
                        mv,
                        alpha as int,
                        old(self).state(old(tt)@, sc),
                    );
                }
            }
            return 0;
        }
        self.move_stack[n.ply as usize] = Some(mv);
        self.hash_history.push(board.hash);
        let score: i32 = self.search_child(board, n, i, mv, alpha, ext, tt);
        let _ = self.hash_history.pop();
        proof {
            assert(self.hash_history@ =~= path);
        }
        score
    }

    /// Search the moves of a node.
    #[verifier::rlimit(90)]
    #[verifier::spinoff_prover]
    fn search_moves(&mut self, board: &mut Board, n: &NodeInfo, tt: &mut TranspositionTable) -> (r:
        i32)
        requires
            old(self).wf(),
            old(tt).wf(),
            searchable(*old(board), n.ply as int),
            n.ok(*old(self), *old(board)),
        ensures
            old(self).keeps(*final(self)),
            same_board(*old(board), *final(board)),
            final(tt).wf(),
            capped(r as int),
            forall|sc: Script| #[trigger]
                follows(final(self).log@, sc) && !old(self).stopped ==> final(self).reaches(
                    (r as int, final(self).state(final(tt)@, sc)),
                    model::move_stage(
                        old(self).evaluator,
                        old(self).params,
                        n.node(old(board)@),
                        old(self).state(old(tt)@, sc),
                    ),
                ),
        decreases
                300 - n.ply,
                (if n.singular {
                    0int
                } else {
                    1int
                }),
                5int,
    {
        let ghost e = self.evaluator;
        let ghost prm = self.params;
        let ghost p = board@;
        let ghost hash = board.hash;
        let ghost nd = n.node(p);
        proof {
            law_valid_moves_playable(p);
            law_legal_count(p);
        }
        let mut ms: Vec<Move> = board.legal_moves().moves;
        if ms.len() == 0 {
            return if n.check {
                -MATE + n.ply
            } else {
                0
            };
        }
        let c = self.trail(&*board, n.ply, Ghost(tt@));
        let mut sc = self.order_scores(&*board, n, &c, &ms, Ghost(tt@));
        // At depths 1 and 2 quiet moves are unlikely to raise alpha if the static
        // evaluation is too far below it.
        let pv = n.is_pv();
        let base: Option<i32> = if !pv && !n.check && n.depth <= 2 {
            let margin: i32 = if n.depth == 1 {
                futility_margin_1(&self.params)
            } else {
                futility_margin_2(&self.params)
            };
            Some(self.evaluator.evaluate(&*board) + margin)
        } else {
            None
        };
        let ghost bs = model::futility_base(e, prm, nd);
        let squared: u32 = if n.depth <= 5 {
            proof {
                let d = n.depth as int;
                assert(0 <= d * d <= 25) by (nonlinear_arith)
                    requires
                        0 <= d <= 5,
                ;
            }
            n.depth * n.depth
        } else {
            0
        };
        let late: usize = lmp_base(&self.params) + squared as usize;
        let mut alpha: i32 = n.alpha;
        let mut best: i32 = -INFINITY;
        let mut best_move: Option<Move> = None;
        let mut i: usize = 0;
        proof {
            assert forall|x: Script| #[trigger] follows(self.log@, x) implies stage_of(
                e,
                prm,
                nd,
                old(self).state(old(tt)@, x),
            ) == moves_from(
                e,
                prm,
                nd,
                c.context(),
                bs,
                ms@,
                sc@,
                0,
                alpha as int,
                best as int,
                best_move,
                self.state(tt@, x),
            ) by {
                lemma_moves_start(e, prm, nd, old(self).state(old(tt)@, x));
            }
        }
        while i < ms.len()
            invariant
                old(self).keeps(*self),
                tt.wf(),
                e == old(self).evaluator,
                prm == old(self).params,
                p == old(board)@,
                hash == old(board).hash,
                nd == n.node(p),
                searchable(*board, n.ply as int),
                board@ == p,
                board.hash == hash,
                n.ok(*self, *board),
                c.ok(),
                bs == model::futility_base(e, prm, nd),
                base is Some == bs is Some,
                base matches Some(b) ==> bs == Some(b as int),
                pv == nd.pv(),
                n.depth <= 5 ==> late == prm.lmp_base + n.depth * n.depth,
                window(alpha as int, n.ply as int),
                capped(best as int),
                i <= ms@.len() <= 20_000,
                ms@.len() == sc@.len(),
                forall|k: int| 0 <= k < ms@.len() ==> legal(p).contains(#[trigger] ms@[k]),
                !self.stopped || old(self).stopped,
                forall|x: Script| #[trigger]
                    follows(self.log@, x) && !old(self).stopped ==> stage_of(
                        e,
                        prm,
                        nd,
                        old(self).state(old(tt)@, x),
                    ) == moves_from(
                        e,
                        prm,
                        nd,
                        c.context(),
                        bs,
                        ms@,
                        sc@,
                        i as int,
                        alpha as int,
                        best as int,
                        best_move,
                        self.state(tt@, x),
                    ),
            decreases ms@.len() - i,
        {
            let ghost ms0 = ms@;
            let ghost sc0 = sc@;
            let ghost at = (i as int, alpha as int, best as int, best_move);
            let ghost head = *self;
            let ghost t0 = tt@;
            select_next(&mut ms, &mut sc, i);
            let mv = ms[i];
            proof {
                assert forall|k: int| 0 <= k < ms@.len() implies legal(p).contains(
                    #[trigger] ms@[k],
                ) by {
                    assert(ms0.contains(ms@[k]));
                }
            }
            let calm = !mv.is_capture() && !mv.is_promotion();
            let left_out = self.se_excluded[n.ply as usize] == Some(mv);
            let futile = match base {
                Some(b) => i > 0 && calm && b < alpha && best > -INFINITY,
                None => false,
            };
            let too_late = !pv && !n.check && n.depth <= 5 && calm && i >= late && best > -INFINITY;
            if left_out || futile || too_late {
                i += 1;
                proof {
                    assert forall|x: Script| #[trigger]
                        follows(self.log@, x) && !old(self).stopped implies stage_of(
                        e,
                        prm,
                        nd,
                        old(self).state(old(tt)@, x),
                    ) == moves_from(
                        e,
                        prm,
                        nd,
                        c.context(),
                        bs,
                        ms@,
                        sc@,
                        i as int,
                        alpha as int,
                        best as int,
                        best_move,
                        self.state(tt@, x),
                    ) by {
                        lemma_moves_step(
                            e,
                            prm,
                            nd,
                            c.context(),
                            bs,
                            ms0,
                            sc0,
                            at.0,
                            at.1,
                            at.2,
                            at.3,
                            head.state(t0, x),
                        );
                    }
                }
                continue ;
            }
            let score: i32 = self.search_move(board, n, i, mv, alpha, tt);
            if self.stopped {
                proof {
                    assert forall|x: Script| #[trigger]
                        follows(self.log@, x) && !old(self).stopped implies self.visits@
                        <= model::move_stage(
                        e,
                        prm,
                        nd,
                        old(self).state(old(tt)@, x),
                    ).1.visits by {
                        assert(follows(head.log@, x));
                        reveal(stage_of);
                        lemma_moves_step(
                            e,
                            prm,
                            nd,
                            c.context(),
                            bs,
                            ms0,
                            sc0,
                            at.0,
                            at.1,
                            at.2,
                            at.3,
                            head.state(t0, x),
                        );
                    }
                }
                return 0;
            }
            if score > best {
                best = score;
                best_move = Some(mv);
                if score > alpha {
                    if score >= n.beta {
                        let ghost tried = *self;
                        let ghost t1 = tt@;
                        self.record_cutoff(&*board, &c, n, &ms, i, mv, Ghost(tt@));
                        let r: i32 = finish(&*board, n, tt, best, best_move);
                        proof {
                            assert forall|x: Script| #[trigger]
                                follows(self.log@, x) && !old(self).stopped implies (
                                r as int,
                                self.state(tt@, x),
                            ) == model::move_stage(
                                e,
                                prm,
                                nd,
                                old(self).state(old(tt)@, x),
                            ) by {
                                assert(follows(tried.log@, x));
                                assert(follows(head.log@, x));
                                reveal(stage_of);
                                lemma_moves_step(
                                    e,
                                    prm,
                                    nd,
                                    c.context(),
                                    bs,
                                    ms0,
                                    sc0,
                                    at.0,
                                    at.1,
                                    at.2,
                                    at.3,
                                    head.state(t0, x),
                                );
                                assert(self.state(t1, x) == cutoff(
                                    tried.state(t1, x),
                                    c.context(),
                                    nd,
                                    ms@,
                                    i as int,
                                    mv,
                                ));
                            }
                        }
                        return r;
                    }
                    alpha = score;
                }
            }
            i += 1;
            proof {
                assert forall|x: Script| #[trigger]
                    follows(self.log@, x) && !old(self).stopped implies stage_of(
                    e,
                    prm,
                    nd,
                    old(self).state(old(tt)@, x),
                ) == moves_from(
                    e,
                    prm,
                    nd,
                    c.context(),
                    bs,
                    ms@,
                    sc@,
                    i as int,
                    alpha as int,
                    best as int,
                    best_move,
                    self.state(tt@, x),
                ) by {
                    assert(follows(head.log@, x));
                    lemma_moves_step(
                        e,
                        prm,
                        nd,
                        c.context(),
                        bs,
                        ms0,
                        sc0,
                        at.0,
                        at.1,
                        at.2,
                        at.3,
                        head.state(t0, x),
                    );
                }
            }
        }
        let ghost tried = *self;
        let ghost t1 = tt@;
        let r: i32 = finish(&*board, n, tt, best, best_move);
        proof {
            assert forall|x: Script| #[trigger]
                follows(self.log@, x) && !old(self).stopped implies (
                r as int,
                self.state(tt@, x),
            ) == model::move_stage(e, prm, nd, old(self).state(old(tt)@, x)) by {
                reveal(stage_of);
                lemma_moves_end(
                    e,
                    prm,
                    nd,
                    c.context(),
                    bs,
                    ms@,
                    sc@,
                    alpha as int,
                    best as int,
                    best_move,
                    tried.state(t1, x),
                );
            }
        }
        r
    }

    /// A node that the table did not settle: null move, razoring, ProbCut, and
    /// the moves.
    fn search_node(&mut self, board: &mut Board, n: &NodeInfo, tt: &mut TranspositionTable) -> (r:
        i32)
        requires
            old(self).wf(),
            old(tt).wf(),
            searchable(*old(board), n.ply as int),
            n.ok(*old(self), *old(board)),
        ensures
            old(self).keeps(*final(self)),
            same_board(*old(board), *final(board)),
            final(tt).wf(),
            capped(r as int),
            forall|sc: Script| #[trigger]
                follows(final(self).log@, sc) && !old(self).stopped ==> final(self).reaches(
                    (r as int, final(self).state(final(tt)@, sc)),
                    model::null_stage(
                        old(self).evaluator,
                        old(self).params,
                        n.node(old(board)@),
                        old(self).state(old(tt)@, sc),
                    ),
                ),
        decreases
                300 - n.ply,
                (if n.singular {
                    0int
                } else {
                    1int
                }),
                9int,
    {
        if let Some(v) = self.try_null(board, n, tt) {
            return v;
        }
        let pv = n.is_pv();
        if n.depth == 1 && !n.check && !pv && self.evaluator.evaluate(&*board) + razor_margin(
            &self.params,
        ) < n.alpha {
            return self.quiescence(board, n.alpha, n.beta, n.ply, Ghost(tt@));
        }
        if !pv && n.depth >= 5 && !n.check && n.beta < MATE_IN_MAX && n.beta > -MATE_IN_MAX {
            if let Some(v) = self.try_probcut(board, n, tt) {
                return v;
            }
        }
        self.search_moves(board, n, tt)
    }

    /// A node from the transposition table on: what the table holds may settle it.
    fn search_hashed(&mut self, board: &mut Board, n: &NodeInfo, tt: &mut TranspositionTable) -> (r:
        i32)
        requires
            old(self).wf(),
            old(tt).wf(),
            searchable(*old(board), n.ply as int),
            n.fits(*old(self), *old(board)),
        ensures
            old(self).keeps(*final(self)),
            same_board(*old(board), *final(board)),
            final(tt).wf(),
            capped(r as int),
            forall|sc: Script| #[trigger]
                follows(final(self).log@, sc) && !old(self).stopped ==> final(self).reaches(
                    (r as int, final(self).state(final(tt)@, sc)),
                    model::hash_stage(
                        old(self).evaluator,
                        old(self).params,
                        n.node(old(board)@),
                        old(self).state(old(tt)@, sc),
                    ),
                ),
        decreases
                300 - n.ply,
                (if n.singular {
                    0int
                } else {
                    1int
                }),
                10int,
    {
        if let Some(d) = n.hit {
            self.tt_hits = self.tt_hits.wrapping_add(1);
            let score: i32 = score_from_tt(d.score, n.ply);
            if d.depth as u32 >= n.depth && !n.singular && (d.bound == Bound::Exact || (d.bound
                == Bound::Lower && score >= n.beta) || (d.bound == Bound::Upper && score
                <= n.alpha)) {
                self.tt_cutoffs = self.tt_cutoffs.wrapping_add(1);
                return score;
            }
        }
        if n.depth == 0 {
            return self.quiescence(board, n.alpha, n.beta, n.ply, Ghost(tt@));
        }
        self.search_node(board, n, tt)
    }

    /// The score of a position searched to a depth within a window.
    ///
    /// `skip_null` rules out a null move at this node.
    #[verifier::rlimit(40)]
    #[verifier::spinoff_prover]
    pub fn negamax(
        &mut self,
        board: &mut Board,
        depth_in: u32,
        alpha_in: i32,
        beta: i32,
        ply: i32,
        skip_null: bool,
        tt: &mut TranspositionTable,
    ) -> (r: i32)
        requires
            old(self).wf(),
            old(tt).wf(),
            searchable(*old(board), ply as int),
            0 <= ply <= 128,
            window(alpha_in as int, ply as int),
            window(beta as int, ply as int),
            depth_ok(depth_in as int, ply as int),
        ensures
            old(self).keeps(*final(self)),
            same_board(*old(board), *final(board)),
            final(tt).wf(),
            capped(r as int),
            forall|sc: Script| #[trigger]
                follows(final(self).log@, sc) && !old(self).stopped ==> final(self).reaches(
                    (r as int, final(self).state(final(tt)@, sc)),
                    model::negamax(
                        old(self).evaluator,
                        old(self).params,
                        old(board)@,
                        old(self).state(old(tt)@, sc),
                        depth_in as int,
                        alpha_in as int,
                        beta as int,
                        ply as int,
                        skip_null,
                    ),
                ),
        decreases
                300 - ply,
                (if old(self).se_excluded@[ply as int] is Some {
                    0int
                } else {
                    1int
                }),
                11int,
    {
        let ghost p = board@;
        if self.stops_here() {
            proof {
                assert forall|sc: Script| #[trigger]
                    follows(self.log@, sc) && !old(self).stopped implies self.visits@
                    <= model::negamax(
                    self.evaluator,
                    self.params,
                    p,
                    old(self).state(old(tt)@, sc),
                    depth_in as int,
                    alpha_in as int,
                    beta as int,
                    ply as int,
                    skip_null,
                ).1.visits by {
                    law_negamax_visits(
                        self.evaluator,
                        self.params,
                        p,
                        old(self).state(old(tt)@, sc),
                        depth_in as int,
                        alpha_in as int,
                        beta as int,
                        ply as int,
                        skip_null,
                    );
                }
            }
            return 0;
        }
        // Draws by rule or for want of material; the root always needs a move.
        if ply > 0 && (board.halfmove_clock >= 100 || self.is_repetition(
            board.hash,
            board.halfmove_clock,
        ) || is_insufficient_material(&*board)) {
            return 0;
        }
        if ply > self.max_ply {
            self.max_ply = ply;
        }
        // Beyond the last ply evaluate statically.
        if ply >= 128 {
            return self.evaluator.evaluate(&*board);
        }
        // In check, search one ply deeper.
        let check = board.is_in_check();
        let depth: u32 = if check {
            self.check_extensions = self.check_extensions.wrapping_add(1);
            depth_in + 1
        } else {
            depth_in
        };
        let singular = self.se_excluded[ply as usize].is_some();
        let mut alpha: i32 = alpha_in;
        if !singular {
            let (decided, raised) = self.consult_tables(&*board, alpha_in, beta, ply, tt);
            if let Some(v) = decided {
                return v;
            }
            alpha = raised;
        }
        let hit = tt.probe(board.hash);
        let n = NodeInfo {
            depth,
            alpha,
            alpha_orig: alpha_in,
            beta,
            ply,
            skip_null,
            check,
            singular,
            hit,
        };
        self.search_hashed(board, &n, tt)
    }
}

} // verus!
