//! The root of the search.

use crate::board::{Board, Pos};
use crate::eval::evaluator::{Evaluator, HandcraftedEvaluator};
use crate::movegen::generate::in_check;
use crate::movegen::legal::{law_legal_count, law_legal_play, legal};
use crate::movegen::make_move::apply;
use crate::movegen::moves::Move;
use crate::movegen::rules::law_valid_moves_playable;
use crate::search::model;
use crate::search::model::{root_values, to_table, Script, SearchState};
use crate::search::negamax::{
    capped, depth_ok, follows, fresh_state, interrupted, lemma_follows_none, lemma_play,
    same_board, score_to_tt, searchable, select_next, window, SearchResult, Searcher,
};
use crate::search::ordering::score_move;
use crate::search::params::SearchParams;
use crate::search::tt::{
    empty_table, floor_pow2, law_probe_after_store, wanted_clusters, Bound, TableState,
    TranspositionTable,
};
use crate::search::visits::{lemma_root_child, lemma_root_moves};
use crate::search::{INFINITY, MATE};
use vstd::prelude::*;

verus! {

/// True when `mv` is in the list.
pub fn listed(ms: &[Move], mv: Move) -> (r: bool)
    ensures
        r == ms@.contains(mv),
{
    let mut i: usize = 0;
    while i < ms.len()
        invariant
            i <= ms@.len(),
            forall|k: int| 0 <= k < i ==> ms@[k] != mv,
        decreases ms@.len() - i,
    {
        if ms[i] == mv {
            return true;
        }
        i += 1;
    }
    false
}

impl<E: Evaluator> Searcher<E> {
    /// The ordering scores of the root moves.
    fn root_scores(
        &self,
        board: &Board,
        hash_move: Option<Move>,
        ms: &Vec<Move>,
        Ghost(t): Ghost<TableState>,
    ) -> (r: Vec<i32>)
        requires
            self.wf(),
            board.wf(),
        ensures
            r@.len() == ms@.len(),
            forall|sc: Script|
                r@ == root_values(#[trigger] self.state(t, sc), board@, hash_move, ms@),
    {
        let ghost vals = root_values(self.state(t, Seq::empty()), board@, hash_move, ms@);
        let mut out: Vec<i32> = Vec::new();
        let mut i: usize = 0;
        while i < ms.len()
            invariant
                self.wf(),
                board.wf(),
                vals == root_values(self.state(t, Seq::empty()), board@, hash_move, ms@),
                i <= ms@.len(),
                out@.len() == i,
                forall|k: int| 0 <= k < i ==> #[trigger] out@[k] == vals[k],
            decreases ms@.len() - i,
        {
            out.push(
                score_move(board, ms[i], 0, hash_move, &self.killers, &self.history, None),
            );
            i += 1;
        }
        proof {
            assert(out@ =~= vals);
            assert forall|sc: Script|
                out@ == root_values(#[trigger] self.state(t, sc), board@, hash_move, ms@) by {
                assert(out@ =~= root_values(self.state(t, sc), board@, hash_move, ms@));
            }
        }
        out
    }

    /// Search one root move.
    fn root_child(
        &mut self,
        board: &mut Board,
        depth: u32,
        i: usize,
        mv: Move,
        alpha: i32,
        beta: i32,
        tt: &mut TranspositionTable,
    ) -> (r: i32)
        requires
            old(self).wf(),
            old(tt).wf(),
            searchable(*old(board), 0),
            1 <= depth,
            depth_ok(depth as int, 0),
            window(alpha as int, 0),
            window(beta as int, 0),
            legal(old(board)@).contains(mv),
        ensures
            old(self).keeps(*final(self)),
            same_board(*old(board), *final(board)),
            final(tt).wf(),
            capped(r as int),
            forall|sc: Script| #[trigger]
                follows(final(self).log@, sc) && !old(self).stopped ==> final(self).reaches(
                    (r as int, final(self).state(final(tt)@, sc)),
                    model::root_child(
                        old(self).evaluator,
                        old(self).params,
                        old(board)@,
                        depth as int,
                        i as int,
                        mv,
                        alpha as int,
                        beta as int,
                        old(self).state(old(tt)@, sc),
                    ),
                ),
    {
        let ghost p = board@;
        let ghost hash = board.hash;
        let ghost path = self.hash_history@;
        proof {
            lemma_play(p, hash, mv);
        }
        proof {
            assert forall|sc: Script| true implies {
                let s0 = #[trigger] old(self).state(old(tt)@, sc);
                i != 0 ==> model::root_child(
                    self.evaluator,
                    self.params,
                    p,
                    depth as int,
                    i as int,
                    mv,
                    alpha as int,
                    beta as int,
                    s0,
                ).1.visits >= model::negamax(
                    self.evaluator,
                    self.params,
                    apply(p, mv),
                    model::descending(s0, p, 0, mv),
                    depth - 1,
                    -alpha - 1,
                    -alpha as int,
                    1,
                    false,
                ).1.visits
            } by {
                lemma_root_child(
                    self.evaluator,
                    self.params,
                    p,
                    depth as int,
                    i as int,
                    mv,
                    alpha as int,
                    beta as int,
                    old(self).state(old(tt)@, sc),
                );
            }
        }
        self.move_stack[0] = Some(mv);
        self.hash_history.push(board.hash);
        let undo = board.make_move(mv);
        let mut score: i32;
        if i == 0 {
            let v: i32 = self.negamax(board, depth - 1, -beta, -alpha, 1, false, tt);
            score = -v;
        } else {
            // Null-window probe first; only search again if it beats alpha.
            let v: i32 = self.negamax(board, depth - 1, -alpha - 1, -alpha, 1, false, tt);
            score = -v;
            if score > alpha && score < beta && !self.stopped {
                self.researches = self.researches.wrapping_add(1);
                let v2: i32 = self.negamax(board, depth - 1, -beta, -alpha, 1, false, tt);
                score = -v2;
            }
        }
        board.unmake_move(mv, undo);
        let _ = self.hash_history.pop();
        proof {
            assert(self.hash_history@ =~= path);
        }
        score
    }

    /// Search the root and return the best move and its score, abortable mid-way.
    ///
    /// `pv_move` is the best move from the previous iterative-deepening pass,
    /// tried first if the table doesn't supply one. `excluded` lists moves to
    /// skip. `alpha` and `beta` define the search window.
    #[verifier::rlimit(60)]
    pub fn search_root(
        &mut self,
        board: &mut Board,
        depth: u32,
        pv_move: Option<Move>,
        tt: &mut TranspositionTable,
        excluded: &[Move],
        alpha_in: i32,
        beta: i32,
    ) -> (r: (Option<Move>, i32))
        requires
            old(self).wf(),
            old(tt).wf(),
            searchable(*old(board), 0),
            1 <= depth,
            depth_ok(depth as int, 0),
            window(alpha_in as int, 0),
            window(beta as int, 0),
        ensures
            old(self).keeps(*final(self)),
            same_board(*old(board), *final(board)),
            final(tt).wf(),
            capped(r.1 as int),
            r.0 matches Some(m) ==> legal(old(board)@).contains(m) && !excluded@.contains(m),
            legal(old(board)@).len() == 0 ==> r.0 is None && r.1 == (if in_check(
                old(board)@,
                old(board)@.side,
            ) {
                -MATE
            } else {
                0
            }),
            !final(self).stopped ==> (r.0 matches Some(m) ==> model::knows(
                final(tt)@,
                old(board)@,
                m,
            )),
            forall|sc: Script| #[trigger]
                follows(final(self).log@, sc) && !old(self).stopped ==> {
                    let want = model::root(
                        old(self).evaluator,
                        old(self).params,
                        old(board)@,
                        old(self).state(old(tt)@, sc),
                        depth as int,
                        pv_move,
                        excluded@,
                        alpha_in as int,
                        beta as int,
                    );
                    if final(self).stopped {
                        final(self).visits@ <= want.2.visits
                    } else {
                        (r.0, r.1 as int, final(self).state(final(tt)@, sc)) == want
                    }
                },
    {
        let ghost e = self.evaluator;
        let ghost prm = self.params;
        let ghost p = board@;
        let ghost hash = board.hash;
        proof {
            law_valid_moves_playable(p);
            law_legal_count(p);
        }
        let mut ms: Vec<Move> = board.legal_moves().moves;
        if ms.len() == 0 {
            let score: i32 = if board.is_in_check() {
                -MATE
            } else {
                0
            };
            return (None, score);
        }
        let hash_move = match tt.probe(board.hash) {
            Some(d) => match d.best_move() {
                Some(m) => Some(m),
                None => pv_move,
            },
            None => pv_move,
        };
        let mut sc = self.root_scores(&*board, hash_move, &ms, Ghost(tt@));
        let ghost ms_in = ms@;
        let ghost sc_in = sc@;
        let mut alpha: i32 = alpha_in;
        let mut best: i32 = -INFINITY;
        let mut best_move: Option<Move> = None;
        let mut i: usize = 0;
        let mut done = false;
        proof {
            assert forall|x: Script|
                model::root(
                    e,
                    prm,
                    p,
                    #[trigger] old(self).state(old(tt)@, x),
                    depth as int,
                    pv_move,
                    excluded@,
                    alpha_in as int,
                    beta as int,
                ).2.visits == model::root_moves(
                    e,
                    prm,
                    p,
                    depth as int,
                    excluded@,
                    beta as int,
                    ms_in,
                    sc_in,
                    0,
                    alpha_in as int,
                    -INFINITY as int,
                    None,
                    old(self).state(old(tt)@, x),
                ).2.visits by {}
        }
        while i < ms.len() && !done
            invariant
                old(self).keeps(*self),
                tt.wf(),
                e == old(self).evaluator,
                prm == old(self).params,
                p == old(board)@,
                hash == old(board).hash,
                searchable(*board, 0),
                board@ == p,
                board.hash == hash,
                1 <= depth,
                depth_ok(depth as int, 0),
                window(alpha as int, 0),
                window(beta as int, 0),
                capped(best as int),
                i <= ms@.len(),
                ms@.len() == sc@.len(),
                forall|k: int| 0 <= k < ms@.len() ==> legal(p).contains(#[trigger] ms@[k]),
                best_move matches Some(m) ==> legal(p).contains(m) && !excluded@.contains(m),
                !self.stopped || old(self).stopped,
                forall|x: Script|
                    model::root(
                        e,
                        prm,
                        p,
                        #[trigger] old(self).state(old(tt)@, x),
                        depth as int,
                        pv_move,
                        excluded@,
                        alpha_in as int,
                        beta as int,
                    ).2.visits == model::root_moves(
                        e,
                        prm,
                        p,
                        depth as int,
                        excluded@,
                        beta as int,
                        ms_in,
                        sc_in,
                        0,
                        alpha_in as int,
                        -INFINITY as int,
                        None,
                        old(self).state(old(tt)@, x),
                    ).2.visits,
                forall|x: Script| #[trigger]
                    follows(self.log@, x) && !old(self).stopped ==> model::root_moves(
                        e,
                        prm,
                        p,
                        depth as int,
                        excluded@,
                        beta as int,
                        ms_in,
                        sc_in,
                        0,
                        alpha_in as int,
                        -INFINITY as int,
                        None,
                        old(self).state(old(tt)@, x),
                    ) == (if done {
                        (best_move, best as int, self.state(tt@, x))
                    } else {
                        model::root_moves(
                            e,
                            prm,
                            p,
                            depth as int,
                            excluded@,
                            beta as int,
                            ms@,
                            sc@,
                            i as int,
                            alpha as int,
                            best as int,
                            best_move,
                            self.state(tt@, x),
                        )
                    }),
            decreases ms@.len() - i,
        {
            let ghost ms0 = ms@;
            let ghost sc0 = sc@;
            let ghost head = *self;
            let ghost t0 = tt@;
            let ghost at = i as int;
            select_next(&mut ms, &mut sc, i);
            let mv = ms[i];
            proof {
                assert forall|k: int| 0 <= k < ms@.len() implies legal(p).contains(
                    #[trigger] ms@[k],
                ) by {
                    assert(ms0.contains(ms@[k]));
                }
            }
            if listed(excluded, mv) {
                i += 1;
                continue ;
            }
            let score: i32 = self.root_child(board, depth, i, mv, alpha, beta, tt);
            i += 1;
            if self.stopped {
                // Partial iteration: the caller discards it.
                proof {
                    assert forall|x: Script| #[trigger]
                        follows(self.log@, x) && !old(self).stopped implies self.visits@
                        <= model::root_moves(
                        e,
                        prm,
                        p,
                        depth as int,
                        excluded@,
                        beta as int,
                        ms_in,
                        sc_in,
                        0,
                        alpha_in as int,
                        -INFINITY as int,
                        None,
                        old(self).state(old(tt)@, x),
                    ).2.visits by {
                        lemma_root_moves(
                            e,
                            prm,
                            p,
                            depth as int,
                            excluded@,
                            beta as int,
                            ms0,
                            sc0,
                            at,
                            alpha as int,
                            best as int,
                            best_move,
                            head.state(t0, x),
                        );
                    }
                }
                return (best_move, best);
            }
            if score > best {
                best = score;
                best_move = Some(mv);
                if score > alpha {
                    if score >= beta {
                        self.fail_highs = self.fail_highs.wrapping_add(1);
                        done = true;
                    } else {
                        alpha = score;
                    }
                }
            }
        }
        if let Some(bm) = best_move {
            let bound = if best <= alpha_in {
                Bound::Upper
            } else if best >= beta {
                Bound::Lower
            } else {
                Bound::Exact
            };
            proof {
                tt.lemma_wf();
                law_probe_after_store(
                    tt@,
                    hash,
                    depth as int,
                    to_table(best as int, 0),
                    bound,
                    Some(bm),
                );
                law_legal_play(p, bm);
            }
            tt.store(board.hash, depth, score_to_tt(best, 0), bound, Some(bm));
        }
        (best_move, best)
    }
}

/// What a fixed-depth search of a position with an empty table of the given size
/// in megabytes finds.
pub open spec fn fixed_depth(p: Pos, depth: int, mb: int) -> (Option<Move>, int, SearchState) {
    model::root(
        HandcraftedEvaluator,
        SearchParams::defaults(),
        p,
        fresh_state(Seq::empty(), empty_table(floor_pow2(wanted_clusters(mb)))),
        depth,
        None,
        Seq::empty(),
        -INFINITY as int,
        INFINITY as int,
    )
}

/// A synchronous fixed-depth search with a table of its own, of the given size in
/// megabytes.
///
/// Uses the [`HandcraftedEvaluator`].
pub fn search_sized(board: &mut Board, depth_in: u32, mb: usize) -> (r: SearchResult)
    requires
        searchable(*old(board), 0),
        depth_ok(depth_in as int, 0),
        mb * 1_048_576 <= usize::MAX,
    ensures
        same_board(*old(board), *final(board)),
        r.depth == (if depth_in >= 1 {
            depth_in
        } else {
            1
        }),
        ({
            let found = fixed_depth(old(board)@, r.depth as int, mb as int);
            r.best_move == found.0 && r.score == found.1 && r.nodes == found.2.nodes
        }),
        r.best_move matches Some(m) ==> legal(old(board)@).contains(m),
        capped(r.score as int),
{
    let depth: u32 = if depth_in >= 1 {
        depth_in
    } else {
        1
    };
    let mut tt = TranspositionTable::new(mb);
    let none: Vec<u64> = Vec::new();
    proof {
        assert(none@ =~= Seq::<u64>::empty());
    }
    let mut searcher = Searcher::with_stop(&none, None, None, None, HandcraftedEvaluator);
    let no_moves: Vec<Move> = Vec::new();
    proof {
        assert(no_moves@ =~= Seq::<Move>::empty());
    }
    let ghost t0 = tt@;
    proof {
        assert(searcher.state(t0, Seq::empty()) =~= fresh_state(Seq::empty(), t0));
        lemma_follows_none(Seq::empty());
        reveal(interrupted);
    }
    let (best_move, score) = searcher.search_root(
        board,
        depth,
        None,
        &mut tt,
        no_moves.as_slice(),
        -INFINITY,
        INFINITY,
    );
    SearchResult { best_move, score, depth, nodes: searcher.nodes }
}

/// Convenience: a synchronous fixed-depth search with its own small table.
///
/// Uses the [`HandcraftedEvaluator`].
pub fn search(board: &mut Board, depth_in: u32) -> (r: SearchResult)
    requires
        searchable(*old(board), 0),
        depth_ok(depth_in as int, 0),
    ensures
        same_board(*old(board), *final(board)),
        r.depth == (if depth_in >= 1 {
            depth_in
        } else {
            1
        }),
        ({
            let found = fixed_depth(old(board)@, r.depth as int, 8);
            r.best_move == found.0 && r.score == found.1 && r.nodes == found.2.nodes
        }),
        r.best_move matches Some(m) ==> legal(old(board)@).contains(m),
        capped(r.score as int),
{
    search_sized(board, depth_in, 8)
}

} // verus!
