//! The alpha-beta search.
//!
//! Negamax with a principal-variation search: the first move of a node is
//! searched with the full window, the others with a null window and again only
//! if they do better than expected. Around that stand the transposition table,
//! check extensions, null-move pruning, razoring, ProbCut, futility and late
//! move pruning, late move reductions and singular extensions.

use crate::board::{Board, PieceType, Pos};
use crate::eval::evaluator::Evaluator;
use crate::movegen::legal::{law_legal_play, legal};
use crate::movegen::make_move::{
    apply, can_make, can_unmake, law_unmake_undoes_make, unapply, undo_of,
};
use crate::movegen::moves::Move;
use crate::movegen::rules::valid;
use crate::search::clock::{found_late, is_past};
use crate::search::draw::hash_in_slice;
use crate::search::model;
use crate::search::model::{
    bump, from_table, has_pieces, no_oracle, picked_moves, picked_scores, repeated, to_table,
    Oracle, Script, SearchState,
};
use crate::search::ordering::{no_moves, ContinuationHistory, CounterMoves, History, Killers};
use crate::search::params::SearchParams;
use crate::search::tt::TableState;
use crate::search::MATE_IN_MAX;
use crate::tablebase::{TbState, WdlScore};
use std::sync::atomic::{AtomicBool, Ordering};
use std::sync::Arc;
use std::time::Instant;
use vstd::prelude::*;

verus! {

/// The outcome of a search.
pub struct SearchResult {
    /// Best move found, or `None` if the position is terminal (mate/stalemate).
    pub best_move: Option<Move>,
    /// Score in centipawns from the side-to-move's perspective.
    pub score: i32,
    /// Depth actually completed.
    pub depth: u32,
    /// Nodes visited.
    pub nodes: u64,
}

/// Drives one search: node count, killer/history tables, and stop conditions.
pub struct Searcher<E: Evaluator> {
    pub nodes: u64,
    /// Set once a stop condition trips; the current search unwinds.
    pub stopped: bool,
    /// Maximum ply reached in the current search (including quiescence).
    pub max_ply: i32,
    /// Beta cutoffs (fail-high nodes).
    pub fail_highs: u64,
    /// Searches repeated because a reduced or null-window search beat alpha.
    pub researches: u64,
    /// Positions that were found in the transposition table.
    pub tt_hits: u64,
    /// Positions that the transposition table settled.
    pub tt_cutoffs: u64,
    /// Nodes where the side to move was in check and depth was extended by 1.
    pub check_extensions: u64,
    /// Hash moves verified singular and extended by 1 ply.
    pub singular_extensions: u64,
    /// Successful tablebase probes.
    pub tb_hits: u64,
    pub evaluator: E,
    pub killers: Killers,
    pub history: History,
    /// Move played at each ply; `None` for null moves.
    pub move_stack: [Option<Move>; 128],
    /// Continuation history conditioned on the move at `ply - 1`.
    pub cont_hist_1: ContinuationHistory,
    /// Continuation history conditioned on the move at `ply - 2`.
    pub cont_hist_2: ContinuationHistory,
    /// The quiet move that most recently refuted each predecessor move.
    pub counter_moves: CounterMoves,
    /// The move left out at each ply during a singularity test.
    pub se_excluded: [Option<Move>; 128],
    pub deadline: Option<Instant>,
    pub stop: Option<Arc<AtomicBool>>,
    pub node_limit: Option<u64>,
    /// Hashes of all positions before the current one (game and search path).
    pub hash_history: Vec<u64>,
    pub params: SearchParams,
    pub tables: TbState,
    /// The nodes visited.
    pub visits: Ghost<int>,
    /// The answers that the tablebases have given.
    pub log: Ghost<Script>,
}

/// The answers given so far are those of a script.
#[verifier::opaque]
pub open spec fn follows(log: Script, script: Script) -> bool {
    &&& log.len() <= script.len()
    &&& forall|i: int| 0 <= i < log.len() ==> #[trigger] log[i] == script[i]
}

/// With one answer less a script is followed too, and it has that answer next.
pub proof fn lemma_follows_push(log: Script, a: Option<WdlScore>, script: Script)
    requires
        follows(log.push(a), script),
    ensures
        follows(log, script),
        script[log.len() as int] == a,
{
    reveal(follows);
    let longer = log.push(a);
    assert(longer[log.len() as int] == script[log.len() as int]);
    assert forall|i: int| 0 <= i < log.len() implies #[trigger] log[i] == script[i] by {
        assert(longer[i] == script[i]);
    }
}

/// Before the first answer every script is followed.
pub proof fn lemma_follows_none(script: Script)
    ensures
        follows(Script::empty(), script),
{
    reveal(follows);
}

/// The answers given follow themselves.
pub proof fn lemma_follows_self(log: Script)
    ensures
        follows(log, log),
{
    reveal(follows);
}

/// The search stops: it has been stopped, the flag is set, the time is up, or the
/// node limit is reached.
pub open spec fn stops(
    stopped: bool,
    flagged: bool,
    late: bool,
    nodes: u64,
    limit: Option<u64>,
) -> bool {
    stopped || flagged || late || (limit matches Some(n) && nodes >= n)
}

/// True if the search stops: it has been stopped, the flag is set, the time is up,
/// or the node limit is reached.
pub fn stop_now(stopped: bool, flagged: bool, late: bool, nodes: u64, limit: Option<u64>) -> (r:
    bool)
    ensures
        r == stops(stopped, flagged, late, nodes, limit),
{
    let exhausted = match limit {
        Some(n) => nodes >= n,
        None => false,
    };
    stopped || flagged || late || exhausted
}

/// A search was stopped for a reason: the flag was found set, the deadline was
/// found reached, or the node limit lies within the nodes visited.
#[verifier::opaque]
pub open spec fn interrupted(
    stop: Option<Arc<AtomicBool>>,
    deadline: Option<Instant>,
    limit: Option<u64>,
    visits: int,
) -> bool {
    ||| stop matches Some(flag) && read_as(flag, true)
    ||| deadline matches Some(d) && found_late(d, true)
    ||| limit matches Some(n) && visits >= n
}

/// The flag was looked at and found not set, and the deadline was looked at and
/// found not reached.
pub open spec fn unhindered(stop: Option<Arc<AtomicBool>>, deadline: Option<Instant>) -> bool {
    &&& stop matches Some(flag) ==> read_as(flag, false)
    &&& deadline matches Some(d) ==> found_late(d, false)
}

/// No more nodes than these are visited within a limit of `n` nodes: the limit is
/// looked at once in 4096 nodes.
#[verifier::opaque]
pub open spec fn node_cap(n: u64) -> int {
    (n + 4095) / 4096 * 4096
}

/// The node limit, if there is one, has not been passed by more than the nodes
/// between two looks at it, and no node was visited without a look at the flag and
/// the clock.
#[verifier::opaque]
pub open spec fn within_budget(
    nodes: u64,
    limit: Option<u64>,
    stop: Option<Arc<AtomicBool>>,
    deadline: Option<Instant>,
) -> bool {
    &&& limit matches Some(n) ==> nodes <= node_cap(n)
    &&& nodes > 0 ==> unhindered(stop, deadline)
}

/// A search within a node limit visits fewer than 4096 nodes more.
pub proof fn law_node_cap(n: u64)
    ensures
        n <= node_cap(n) < n + 4096,
        node_cap(n) % 4096 == 0,
{
    reveal(node_cap);
}

/// The score or bound of a node at a ply is within the range of the arithmetic.
pub open spec fn window(v: int, ply: int) -> bool {
    -(50_000_000 + 1000 * ply) <= v <= 50_000_000 + 1000 * ply
}

/// No score is larger in size.
pub open spec fn capped(v: int) -> bool {
    -51_000_000 <= v <= 51_000_000
}

/// The depth is within the range of the arithmetic.
pub open spec fn depth_ok(depth: int, ply: int) -> bool {
    0 <= depth <= 0x7000_0000 + 10 * ply
}

/// The board can be searched from at a ply.
pub open spec fn searchable(b: Board, ply: int) -> bool {
    b.wf() && b.hashed() && valid(b@)
}

/// The board is the same.
pub open spec fn same_board(o: Board, f: Board) -> bool {
    f.wf() && f@ == o@ && f.hash == o.hash
}

impl<E: Evaluator> Searcher<E> {
    /// The tables are whole, the parameters in range and the evaluator ready, and
    /// no node is counted that was not visited.
    pub open spec fn wf(&self) -> bool {
        &&& self.history.wf()
        &&& self.cont_hist_1.wf()
        &&& self.cont_hist_2.wf()
        &&& self.counter_moves.wf()
        &&& self.params.wf()
        &&& self.evaluator.ready()
        &&& self.nodes <= self.visits@
    }

    /// The state that results depend on, with the transposition table, where the
    /// tablebases answer by a script.
    pub open spec fn state(&self, t: TableState, sc: Script) -> SearchState {
        SearchState {
            nodes: self.nodes,
            visits: self.visits@,
            max_ply: self.max_ply as int,
            fail_highs: self.fail_highs,
            researches: self.researches,
            tt_hits: self.tt_hits,
            tt_cutoffs: self.tt_cutoffs,
            check_extensions: self.check_extensions,
            singular_extensions: self.singular_extensions,
            killers: self.killers@,
            history: self.history@,
            cont_1: self.cont_hist_1@,
            cont_2: self.cont_hist_2@,
            counters: self.counter_moves@,
            move_stack: self.move_stack@,
            se_excluded: self.se_excluded@,
            path: self.hash_history@,
            tt: t,
            tb_hits: self.tb_hits,
            oracle: Oracle {
                on: self.tables.tables is Some,
                limit: self.tables.piece_limit as int,
                answers: sc,
                asked: self.log@.len() as int,
            },
        }
    }

    /// The outcome of a search: what the model gives, or, if the search was stopped
    /// on the way, no more nodes than the model visits.
    pub open spec fn reaches(
        &self,
        got: (int, SearchState),
        want: (int, SearchState),
    ) -> bool {
        if self.stopped {
            self.visits@ <= want.1.visits
        } else {
            got == want
        }
    }

    /// The node limit, the flag and the clock have been looked at as often as they
    /// should be.
    pub open spec fn in_budget(&self) -> bool {
        within_budget(self.nodes, self.node_limit, self.stop, self.deadline)
    }

    /// What is set up before a search is the same.
    pub open spec fn same_setup(&self, f: Searcher<E>) -> bool {
        &&& f.evaluator == self.evaluator
        &&& f.params == self.params
        &&& f.tables == self.tables
        &&& f.deadline == self.deadline
        &&& f.stop == self.stop
        &&& f.node_limit == self.node_limit
    }

    /// What every part of the search preserves: the setup, the path, the moves
    /// left out, that a stop is final and has a reason, and the node budget.
    /// Tablebase answers are only added.
    pub open spec fn keeps(&self, f: Searcher<E>) -> bool {
        &&& f.wf()
        &&& self.same_setup(f)
        &&& f.hash_history@ == self.hash_history@
        &&& f.se_excluded@ == self.se_excluded@
        &&& self.stopped ==> f.stopped
        &&& !self.stopped && f.stopped ==> interrupted(
            f.stop,
            f.deadline,
            f.node_limit,
            f.nodes as int,
        )
        &&& self.in_budget() && !f.stopped ==> f.in_budget()
        &&& forall|sc: Script| #[trigger] follows(f.log@, sc) ==> follows(self.log@, sc)
        &&& self.tables.tables is None ==> f.log == self.log && f.tb_hits == self.tb_hits
    }

    /// A searcher without game history.
    pub fn new(
        deadline: Option<Instant>,
        stop: Arc<AtomicBool>,
        node_limit: Option<u64>,
        evaluator: E,
    ) -> (r: Searcher<E>)
        ensures
            evaluator.ready() ==> r.wf(),
            r.is_fresh(Seq::empty(), evaluator),
            r.deadline == deadline,
            r.stop == Some(stop),
            r.node_limit == node_limit,
    {
        let none: Vec<u64> = Vec::new();
        let r = Searcher::with_stop(&none, deadline, Some(stop), node_limit, evaluator);
        proof {
            assert(none@ =~= Seq::<u64>::empty());
        }
        r
    }

    /// A searcher that knows the hashes of all positions of the game before the
    /// root, not including the root position itself.
    pub fn new_with_history(
        game_history: &[u64],
        deadline: Option<Instant>,
        stop: Arc<AtomicBool>,
        node_limit: Option<u64>,
        evaluator: E,
    ) -> (r: Searcher<E>)
        ensures
            evaluator.ready() ==> r.wf(),
            r.is_fresh(game_history@, evaluator),
            r.deadline == deadline,
            r.stop == Some(stop),
            r.node_limit == node_limit,
    {
        let path = copy_hashes(game_history);
        Searcher::with_stop(&path, deadline, Some(stop), node_limit, evaluator)
    }

    /// The state of a searcher before its first search.
    pub open spec fn is_fresh(&self, path: Seq<u64>, evaluator: E) -> bool {
        &&& self.evaluator == evaluator
        &&& self.params == SearchParams::defaults()
        &&& self.tables.tables is None
        &&& !self.stopped
        &&& self.log@ == Script::empty()
        &&& self.in_budget()
        &&& forall|t: TableState, sc: Script| #[trigger]
            self.state(t, sc) == (SearchState {
                oracle: Oracle { answers: sc, ..no_oracle() },
                ..fresh_state(path, t)
            })
    }

    /// A searcher with an optional stop flag.
    pub fn with_stop(
        path: &Vec<u64>,
        deadline: Option<Instant>,
        stop: Option<Arc<AtomicBool>>,
        node_limit: Option<u64>,
        evaluator: E,
    ) -> (r: Searcher<E>)
        ensures
            evaluator.ready() ==> r.wf(),
            r.is_fresh(path@, evaluator),
            r.deadline == deadline,
            r.stop == stop,
            r.node_limit == node_limit,
    {
        let r = Searcher {
            nodes: 0,
            stopped: false,
            max_ply: 0,
            fail_highs: 0,
            researches: 0,
            tt_hits: 0,
            tt_cutoffs: 0,
            check_extensions: 0,
            singular_extensions: 0,
            tb_hits: 0,
            evaluator,
            killers: Killers::new(),
            history: History::new(),
            move_stack: no_moves(),
            cont_hist_1: ContinuationHistory::new(),
            cont_hist_2: ContinuationHistory::new(),
            counter_moves: CounterMoves::new(),
            se_excluded: no_moves(),
            deadline,
            stop,
            node_limit,
            hash_history: copy_hashes(path.as_slice()),
            params: SearchParams::default(),
            tables: TbState::default(),
            log: Ghost(Seq::empty()),
            visits: Ghost(0),
        };
        proof {
            assert(r.in_budget()) by {
                reveal(within_budget);
                if let Some(n) = node_limit {
                    law_node_cap(n);
                }
            }
        }
        r
    }

    /// True if `hash` has appeared before in the search path or game history,
    /// within the last `halfmove_clock` positions.
    pub fn is_repetition(&self, hash: u64, halfmove_clock: u16) -> (r: bool)
        ensures
            r == repeated(self.hash_history@, hash, halfmove_clock as int),
    {
        let n: usize = self.hash_history.len();
        let back: usize = halfmove_clock as usize;
        let start: usize = if back < n {
            n - back
        } else {
            0
        };
        proof {
            assert(self.hash_history@.subrange(start as int, n as int)
                =~= self.hash_history@.skip(start as int));
        }
        hash_in_slice(
            hash,
            vstd::slice::slice_subrange(self.hash_history.as_slice(), start, n),
        )
    }

    /// True if the search should stop now. Latches [`stopped`](Searcher::stopped).
    pub fn should_stop(&mut self) -> (r: bool)
        ensures
            r == final(self).stopped,
            *final(self) == (Searcher { stopped: r, ..*old(self) }),
            old(self).stopped ==> r,
            !old(self).stopped ==> exists|flagged: bool, late: bool|
                {
                    &&& r == #[trigger] stops(
                        false,
                        flagged,
                        late,
                        old(self).nodes,
                        old(self).node_limit,
                    )
                    &&& match old(self).stop {
                        Some(flag) => read_as(flag, flagged),
                        None => !flagged,
                    }
                    &&& match old(self).deadline {
                        Some(d) => found_late(d, late),
                        None => !late,
                    }
                },
            old(self).stop is None && old(self).deadline is None ==> r == stops(
                old(self).stopped,
                false,
                false,
                old(self).nodes,
                old(self).node_limit,
            ),
    {
        if self.stopped {
            return true;
        }
        let flagged = match &self.stop {
            Some(flag) => read_with(is_raised, flag),
            None => false,
        };
        let late = match &self.deadline {
            Some(d) => is_past(d),
            None => false,
        };
        self.stopped = stop_now(false, flagged, late, self.nodes, self.node_limit);
        proof {
            assert(self.stopped == stops(false, flagged, late, self.nodes, self.node_limit));
        }
        self.stopped
    }

    /// Visit one more node, or stop; once in 4096 nodes it is looked whether the
    /// search should stop. True if it stops.
    pub(crate) fn stops_here(&mut self) -> (r: bool)
        requires
            old(self).wf(),
        ensures
            old(self).keeps(*final(self)),
            r ==> *final(self) == (Searcher { stopped: true, ..*old(self) }),
            !r ==> *final(self) == (Searcher {
                nodes: bump(old(self).nodes),
                visits: Ghost(old(self).visits@ + 1),
                ..*old(self)
            }),
    {
        proof {
            reveal(within_budget);
            reveal(interrupted);
            if let Some(n) = self.node_limit {
                law_node_cap(n);
            }
        }
        if self.nodes % 4096 == 0 && self.should_stop() {
            return true;
        }
        proof {
            self.visits@ = self.visits@ + 1;
        }
        self.nodes = self.nodes.wrapping_add(1);
        false
    }
}

/// Read a stop flag.
fn is_raised(flag: &Arc<AtomicBool>) -> (r: bool)
{
    flag.load(Ordering::Relaxed)
}

/// The stop flag was read, as `raised`.
pub closed spec fn read_as(flag: Arc<AtomicBool>, raised: bool) -> bool {
    call_ensures(is_raised, (&flag,), raised)
}

/// Read a stop flag with a function that does so.
fn read_with<F: Fn(&Arc<AtomicBool>) -> bool>(f: F, flag: &Arc<AtomicBool>) -> (r: bool)
    requires
        call_requires(f, (flag,)),
    ensures
        call_ensures(f, (flag,), r),
{
    f(flag)
}

/// The state of a searcher before its first search.
pub open spec fn fresh_state(path: Seq<u64>, t: TableState) -> SearchState {
    SearchState {
        nodes: 0,
        visits: 0,
        max_ply: 0,
        fail_highs: 0,
        researches: 0,
        tt_hits: 0,
        tt_cutoffs: 0,
        check_extensions: 0,
        singular_extensions: 0,
        killers: Seq::new(128, |i: int| (None::<Move>, None::<Move>)),
        history: Seq::new(8192, |i: int| 0i32),
        cont_1: Seq::new(147_456, |i: int| 0i32),
        cont_2: Seq::new(147_456, |i: int| 0i32),
        counters: Seq::new(4096, |i: int| None::<Move>),
        move_stack: Seq::new(128, |i: int| None::<Move>),
        se_excluded: Seq::new(128, |i: int| None::<Move>),
        path,
        tt: t,
        tb_hits: 0,
        oracle: no_oracle(),
    }
}

/// A copy of a list of hashes.
fn copy_hashes(v: &[u64]) -> (r: Vec<u64>)
    ensures
        r@ == v@,
{
    let mut out: Vec<u64> = Vec::new();
    let mut i: usize = 0;
    while i < v.len()
        invariant
            i <= v@.len(),
            out@ == v@.take(i as int),
        decreases v@.len() - i,
    {
        out.push(v[i]);
        proof {
            assert(v@.take(i + 1) =~= v@.take(i as int).push(v@[i as int]));
        }
        i += 1;
    }
    proof {
        assert(v@.take(i as int) =~= v@);
    }
    out
}

/// True if the side to move has at least one piece besides pawns and the king.
pub fn has_non_pawn_material(board: &Board) -> (r: bool)
    requires
        board.wf(),
    ensures
        r == has_pieces(board@),
{
    let ghost p = board@;
    let own = board.color(board.side_to_move);
    let pawns = board.pieces(PieceType::Pawn);
    let kings = board.pieces(PieceType::King);
    let rest = own.and(pawns.complement()).and(kings.complement());
    let r = rest.any();
    proof {
        if r {
            let i = choose|i: int| #[trigger] rest.has(i);
            assert(own.has(i) && p.owned(p.side, i));
        } else if has_pieces(p) {
            let i = choose|i: int| #[trigger]
                p.owned(p.side, i) && !p.typed(PieceType::Pawn, i) && !p.typed(
                    PieceType::King,
                    i,
                );
            assert(own.has(i));
            assert(rest.has(i));
        }
    }
    r
}

/// Convert a root-relative mate score to a node-relative one for storage.
pub fn score_to_tt(score: i32, ply: i32) -> (r: i16)
    requires
        -60_000_000 <= score <= 60_000_000,
        0 <= ply <= 1000,
    ensures
        r == to_table(score as int, ply as int),
{
    let adjusted: i32 = if score >= MATE_IN_MAX {
        score + ply
    } else if score <= -MATE_IN_MAX {
        score - ply
    } else {
        score
    };
    // Reduce to 16 bits; the multiple of 65536 keeps the number positive.
    let shifted: i64 = adjusted as i64 + 32768 + 6_553_600_000;
    proof {
        assert((adjusted + 32768 + 65536 * 100_000) % 65536 == (adjusted + 32768) % 65536);
    }
    (shifted % 65536 - 32768) as i16
}

/// Inverse of [`score_to_tt`]: node-relative back to root-relative.
pub fn score_from_tt(score: i16, ply: i32) -> (r: i32)
    requires
        0 <= ply <= 1000,
    ensures
        r == from_table(score, ply as int),
        -33_000 <= r <= 33_000,
{
    let s: i32 = score as i32;
    if s >= MATE_IN_MAX {
        s - ply
    } else if s <= -MATE_IN_MAX {
        s + ply
    } else {
        s
    }
}

/// Selection-sort step: pull the highest-scoring move from `i` on to `i`,
/// keeping `scores` aligned.
pub fn select_next(moves: &mut Vec<Move>, scores: &mut Vec<i32>, i: usize)
    requires
        i < old(moves)@.len(),
        old(moves)@.len() == old(scores)@.len(),
    ensures
        final(moves)@ == picked_moves(old(moves)@, old(scores)@, i as int),
        final(scores)@ == picked_scores(old(scores)@, i as int),
        final(moves)@.len() == old(moves)@.len(),
        final(scores)@.len() == old(scores)@.len(),
        forall|k: int|
            0 <= k < final(moves)@.len() ==> old(moves)@.contains(#[trigger] final(moves)@[k]),
{
    let ghost ms = moves@;
    let ghost sc = scores@;
    let n: usize = scores.len();
    let mut best: usize = i;
    let mut j: usize = i + 1;
    while j < n
        invariant
            n == scores@.len(),
            i < j <= scores@.len(),
            i <= best < scores@.len(),
            scores@ == sc,
            best == model::argmax(sc, i as int, j - 1),
        decreases scores@.len() - j,
    {
        if scores[j] > scores[best] {
            best = j;
        }
        j += 1;
    }
    let a = moves[i];
    let b = moves[best];
    moves[i] = b;
    moves[best] = a;
    let x: i32 = scores[i];
    let y: i32 = scores[best];
    scores[i] = y;
    scores[best] = x;
    proof {
        assert(moves@ =~= picked_moves(ms, sc, i as int));
        assert(scores@ =~= picked_scores(sc, i as int));
        assert forall|k: int| 0 <= k < moves@.len() implies ms.contains(#[trigger] moves@[k]) by {
            if k == i {
                assert(ms[best as int] == moves@[k]);
            } else if k == best {
                assert(ms[i as int] == moves@[k]);
            } else {
                assert(ms[k] == moves@[k]);
            }
        }
    }
}

/// What playing a legal move needs and leaves.
pub proof fn lemma_play(p: Pos, hash: u64, mv: Move)
    requires
        valid(p),
        legal(p).contains(mv),
        0 <= p.halfmove <= 65535,
        0 <= p.fullmove <= 65535,
    ensures
        can_make(p, mv),
        valid(apply(p, mv)),
        can_unmake(apply(p, mv), mv, undo_of(p, hash, mv)),
        unapply(apply(p, mv), mv, undo_of(p, hash, mv)) == p,
{
    reveal(valid);
    law_legal_play(p, mv);
    law_unmake_undoes_make(p, hash, mv);
}

} // verus!
