//! What the search computes: the score of a position as a function of the
//! position, the window and the state of the tables, and the state of the
//! tables afterwards.

use crate::board::{position_key, PieceType, Pos};
use crate::eval::evaluator::Evaluator;
use crate::movegen::generate::in_check;
use crate::movegen::legal::legal;
use crate::movegen::make_move::{apply, apply_null};
use crate::movegen::moves::Move;
use crate::search::draw::insufficient;
use crate::search::endgame::settled;
use crate::search::lmr::reduction;
use crate::search::ordering::{
    capture_value, cont_index, cont_with, counter_index, counter_of, depth_bonus, history_with,
    killer_at, killers_with, magnitude, move_value, HISTORY_MAX, SCORE_COUNTER,
};
use crate::search::params::{clamped, SearchParams};
use crate::search::see::see_score;
use crate::search::tt::{Bound, TTData, TableState};
use crate::search::{INFINITY, MATE, MATE_IN_MAX};
use crate::tablebase::{few_enough, WdlScore};
use vstd::prelude::*;

verus! {

/// The state of a search that its results depend on or that it reports.
pub struct SearchState {
    /// The nodes visited, as counted: the count starts again from 0 when it
    /// overflows.
    pub nodes: u64,
    /// The nodes visited.
    pub visits: int,
    pub max_ply: int,
    pub fail_highs: u64,
    pub researches: u64,
    pub tt_hits: u64,
    pub tt_cutoffs: u64,
    pub check_extensions: u64,
    pub singular_extensions: u64,
    pub killers: Seq<(Option<Move>, Option<Move>)>,
    pub history: Seq<i32>,
    pub cont_1: Seq<i32>,
    pub cont_2: Seq<i32>,
    pub counters: Seq<Option<Move>>,
    pub move_stack: Seq<Option<Move>>,
    pub se_excluded: Seq<Option<Move>>,
    pub path: Seq<u64>,
    pub tt: TableState,
    pub tb_hits: u64,
    pub oracle: Oracle,
}

/// Tablebase answers in the order in which they are given.
pub type Script = Seq<Option<WdlScore>>;

/// The tablebases as the search sees them: whether there are any, the largest
/// number of pieces to ask about, the answers in the order in which they are
/// given, and how many have been given.
pub struct Oracle {
    pub on: bool,
    pub limit: int,
    pub answers: Script,
    pub asked: int,
}

/// There are no tablebases.
pub open spec fn no_oracle() -> Oracle {
    Oracle { on: false, limit: 6, answers: Seq::empty(), asked: 0 }
}

/// What the tablebases make of a node: a score that settles it, the lower bound
/// of the window, and the state.
pub struct Consulted {
    pub score: Option<int>,
    pub alpha: int,
    pub s: SearchState,
}

/// The tablebases are asked about a position with few enough pieces, if there are
/// any; an answer is counted and applied to the node.
pub open spec fn consulted(s: SearchState, p: Pos, alpha: int, beta: int, ply: int) -> Consulted {
    if !s.oracle.on || !few_enough(s.oracle.limit, p) {
        Consulted { score: None, alpha, s }
    } else {
        let s2 = SearchState { oracle: Oracle { asked: s.oracle.asked + 1, ..s.oracle }, ..s };
        match s.oracle.answers[s.oracle.asked] {
            None => Consulted { score: None, alpha, s: s2 },
            Some(wdl) => {
                let x = settled(s.tt, p, wdl, alpha, beta, ply);
                Consulted {
                    score: x.score,
                    alpha: x.alpha,
                    s: SearchState { tb_hits: bump(s.tb_hits), tt: x.tt, ..s2 },
                }
            },
        }
    }
}

/// A counter after one more event; it starts again from 0 when it overflows.
pub open spec fn bump(n: u64) -> u64 {
    if n == u64::MAX {
        0
    } else {
        (n + 1) as u64
    }
}

/// The state after entering a node.
pub open spec fn visited(s: SearchState) -> SearchState {
    SearchState { nodes: bump(s.nodes), visits: s.visits + 1, ..s }
}

/// The state after reaching a ply.
pub open spec fn reached(s: SearchState, ply: int) -> SearchState {
    SearchState {
        max_ply: if ply > s.max_ply {
            ply
        } else {
            s.max_ply
        },
        ..s
    }
}

/// The state with a move (or none) recorded as the one played at a ply.
pub open spec fn playing(s: SearchState, ply: int, mv: Option<Move>) -> SearchState {
    SearchState { move_stack: s.move_stack.update(ply, mv), ..s }
}

/// The state on the way to a child: the move is recorded, and the position's
/// hash is on the path.
pub open spec fn descending(s: SearchState, p: Pos, ply: int, mv: Move) -> SearchState {
    SearchState { path: s.path.push(position_key(p)), ..playing(s, ply, Some(mv)) }
}

/// The state on the way back from a child.
pub open spec fn returning(s: SearchState) -> SearchState {
    SearchState { path: s.path.drop_last(), ..s }
}

/// The state after storing a result in the table.
pub open spec fn stored(
    s: SearchState,
    p: Pos,
    depth: int,
    score: int,
    ply: int,
    bound: Bound,
    mv: Option<Move>,
) -> SearchState {
    SearchState {
        tt: s.tt.store(position_key(p), depth, to_table(score, ply), bound, mv),
        ..s
    }
}

/// The table has a move for a position.
pub open spec fn knows(t: TableState, p: Pos, mv: Move) -> bool {
    t.probe(position_key(p)) matches Some(d) && d.best() == Some(mv)
}

/// The number reduced to 16 bits.
pub open spec fn wrap16(n: int) -> i16 {
    ((n + 32768) % 65536 - 32768) as i16
}

/// A score as it is stored in the table: mates count from the node.
pub open spec fn to_table(score: int, ply: int) -> i16 {
    wrap16(
        if score >= MATE_IN_MAX {
            score + ply
        } else if score <= -MATE_IN_MAX {
            score - ply
        } else {
            score
        },
    )
}

/// A score from the table: mates count from the root again.
pub open spec fn from_table(score: i16, ply: int) -> int {
    if score >= MATE_IN_MAX {
        score - ply
    } else if score <= -MATE_IN_MAX {
        score + ply
    } else {
        score as int
    }
}

/// Storing a score and reading it back at the same ply gives the score.
pub proof fn law_table_score_round_trip(score: int, ply: int)
    requires
        -32_000 <= score <= 32_000,
        0 <= ply <= 700,
    ensures
        from_table(to_table(score, ply), ply) == score,
{
}

/// The position occurred since the last capture or pawn move.
pub open spec fn repeated(path: Seq<u64>, key: u64, halfmove: int) -> bool {
    let n = path.len() as int;
    path.skip(
        if halfmove < n {
            n - halfmove
        } else {
            0
        },
    ).contains(key)
}

/// The position is drawn by rule or for want of material.
pub open spec fn drawn(s: SearchState, p: Pos) -> bool {
    p.halfmove >= 100 || repeated(s.path, position_key(p), p.halfmove) || insufficient(p)
}

/// The side to move has a piece besides pawns and the king.
pub open spec fn has_pieces(p: Pos) -> bool {
    exists|i: int| #[trigger]
        p.owned(p.side, i) && !p.typed(PieceType::Pawn, i) && !p.typed(PieceType::King, i)
}

/// The index of the highest score from `i` to `j`, the first of several.
pub open spec fn argmax(scores: Seq<i32>, i: int, j: int) -> int
    decreases j - i,
{
    if j <= i {
        i
    } else {
        let b = argmax(scores, i, j - 1);
        if scores[j] > scores[b] {
            j
        } else {
            b
        }
    }
}

/// Two elements exchanged.
pub open spec fn swapped<T>(s: Seq<T>, i: int, j: int) -> Seq<T> {
    if 0 <= i < s.len() && 0 <= j < s.len() {
        s.update(i, s[j]).update(j, s[i])
    } else {
        s
    }
}

/// The moves after the best one from `i` on has been brought to `i`.
pub open spec fn picked_moves(ms: Seq<Move>, sc: Seq<i32>, i: int) -> Seq<Move> {
    swapped(ms, i, argmax(sc, i, sc.len() - 1))
}

/// The scores after the best one from `i` on has been brought to `i`.
pub open spec fn picked_scores(sc: Seq<i32>, i: int) -> Seq<i32> {
    swapped(sc, i, argmax(sc, i, sc.len() - 1))
}

/// The move is neither a capture nor a promotion.
pub open spec fn quiet(mv: Move) -> bool {
    !mv.captures() && !mv.promotes()
}

/// The larger of two scores.
pub open spec fn best_of(a: int, b: int) -> int {
    if a >= b {
        a
    } else {
        b
    }
}

// ---------------------------------------------------------------------------
// Quiescence
// ---------------------------------------------------------------------------

/// The quiescence scores of moves.
pub open spec fn capture_values(p: Pos, ms: Seq<Move>) -> Seq<i32> {
    ms.map_values(|m: Move| capture_value(p, m) as i32)
}

/// The score of a position once it has become quiet: the side to move may leave
/// it as it is, or go on with captures and promotions that do not lose
/// material. When in check, every move is tried.
pub open spec fn quiesce<E: Evaluator>(
    e: E,
    p: Pos,
    s0: SearchState,
    alpha: int,
    beta: int,
    ply: int,
) -> (int, SearchState)
    decreases 300 - ply, 1int, 0int,
{
    let s = reached(visited(s0), ply);
    if ply >= 128 {
        (e.score(p), s)
    } else {
        let check = in_check(p, p.side);
        let stand = e.score(p);
        if !check && stand >= beta {
            (stand, s)
        } else {
            let ms = legal(p);
            if ms.len() == 0 {
                (
                    if check {
                        -MATE + ply
                    } else {
                        0
                    },
                    s,
                )
            } else {
                let best = if check {
                    -INFINITY as int
                } else {
                    stand
                };
                let a = if !check && stand > alpha {
                    stand
                } else {
                    alpha
                };
                quiesce_moves(e, p, ms, capture_values(p, ms), 0, a, beta, best, ply, check, s)
            }
        }
    }
}

/// The moves of a quiescence node from number `i` on.
pub open spec fn quiesce_moves<E: Evaluator>(
    e: E,
    p: Pos,
    ms: Seq<Move>,
    sc: Seq<i32>,
    i: int,
    alpha: int,
    beta: int,
    best: int,
    ply: int,
    check: bool,
    s: SearchState,
) -> (int, SearchState)
    decreases 300 - ply, 0int, ms.len() - i,
{
    if i >= ms.len() || i < 0 || ply >= 128 {
        (best, s)
    } else {
        let ms2 = picked_moves(ms, sc, i);
        let sc2 = picked_scores(sc, i);
        let mv = ms2[i];
        if !check && quiet(mv) {
            (best, s)
        } else if !check && mv.captures() && see_score(p, mv) < 0 {
            if best + 900 < alpha {
                (best, s)
            } else {
                quiesce_moves(e, p, ms2, sc2, i + 1, alpha, beta, best, ply, check, s)
            }
        } else {
            let (v, s2) = quiesce(e, apply(p, mv), s, -beta, -alpha, ply + 1);
            let score = -v;
            let best2 = best_of(best, score);
            if score > alpha {
                if score >= beta {
                    (best2, s2)
                } else {
                    quiesce_moves(e, p, ms2, sc2, i + 1, score, beta, best2, ply, check, s2)
                }
            } else {
                quiesce_moves(e, p, ms2, sc2, i + 1, alpha, beta, best2, ply, check, s2)
            }
        }
    }
}

// ---------------------------------------------------------------------------
// Main search
// ---------------------------------------------------------------------------

/// A node of the main search.
pub struct Node {
    pub p: Pos,
    /// The remaining depth, with the check extension.
    pub depth: int,
    pub alpha: int,
    /// Alpha before a tablebase raised it.
    pub alpha_orig: int,
    pub beta: int,
    pub ply: int,
    pub skip_null: bool,
    /// The side to move is in check.
    pub check: bool,
    /// The node is being searched without its best move.
    pub singular: bool,
    /// What the table holds for the position.
    pub hit: Option<TTData>,
}

impl Node {
    /// The window is more than one point wide.
    pub open spec fn pv(self) -> bool {
        self.beta > self.alpha + 1
    }

    /// The best move that the table holds.
    pub open spec fn hash_move(self) -> Option<Move> {
        match self.hit {
            Some(d) => d.best(),
            None => None,
        }
    }

    /// The flag that goes down when the best move is left out.
    pub open spec fn flag(self) -> int {
        if self.singular {
            0
        } else {
            1
        }
    }
}

/// The score that the table gives, where it is deep enough and settles the
/// window.
pub open spec fn table_cutoff(n: Node) -> Option<int> {
    match n.hit {
        None => None,
        Some(d) => {
            let sc = from_table(d.score, n.ply);
            if d.depth >= n.depth && !n.singular && (d.bound == Bound::Exact || (d.bound
                == Bound::Lower && sc >= n.beta) || (d.bound == Bound::Upper && sc <= n.alpha)) {
                Some(sc)
            } else {
                None
            }
        },
    }
}

/// The piece type and square of the piece that stands where a move went to.
pub open spec fn key_of(p: Pos, mv: Option<Move>) -> Option<(int, int)> {
    match mv {
        Some(m) => match p.at(m.dst().0 as int) {
            Some(pc) => Some((pc.piece_type.idx(), m.dst().0 as int)),
            None => None,
        },
        None => None,
    }
}

/// The moves that led to a node, as far as the ordering of its moves depends on
/// them.
pub struct Context {
    pub prev: Option<Move>,
    pub key_1: Option<(int, int)>,
    pub key_2: Option<(int, int)>,
}

/// The moves that led to a node.
pub open spec fn context_of(s: SearchState, p: Pos, ply: int) -> Context {
    let prev = if ply > 0 {
        s.move_stack[ply - 1]
    } else {
        None
    };
    let prev_2 = if ply > 1 {
        s.move_stack[ply - 2]
    } else {
        None
    };
    Context { prev, key_1: key_of(p, prev), key_2: key_of(p, prev_2) }
}

/// The continuation-history entry of a move after a predecessor.
pub open spec fn cont_entry(table: Seq<i32>, key: Option<(int, int)>, pt: int, to: int) -> int {
    match key {
        Some(k) => table[cont_index(k.0, k.1, pt, to)] as int,
        None => 0,
    }
}

/// What the continuation histories add to a move's score.
pub open spec fn cont_bonus(s: SearchState, c: Context, p: Pos, mv: Move) -> int {
    match p.at(mv.src().0 as int) {
        None => 0,
        Some(pc) => cont_entry(s.cont_1, c.key_1, pc.piece_type.idx(), mv.dst().0 as int)
            + cont_entry(s.cont_2, c.key_2, pc.piece_type.idx(), mv.dst().0 as int),
    }
}

/// The ordering score of a move at an inner node.
pub open spec fn node_value(
    s: SearchState,
    c: Context,
    p: Pos,
    ply: int,
    hash_move: Option<Move>,
    mv: Move,
) -> int {
    let base = move_value(
        p,
        mv,
        ply,
        hash_move,
        s.killers,
        s.history,
        counter_of(s.counters, c.prev),
    );
    if quiet(mv) && base < SCORE_COUNTER {
        clamped(base + cont_bonus(s, c, p, mv), -HISTORY_MAX as int, HISTORY_MAX as int)
    } else {
        base
    }
}

/// The ordering scores of moves at an inner node.
pub open spec fn node_values(
    s: SearchState,
    c: Context,
    p: Pos,
    ply: int,
    hash_move: Option<Move>,
    ms: Seq<Move>,
) -> Seq<i32> {
    ms.map_values(|m: Move| node_value(s, c, p, ply, hash_move, m) as i32)
}

/// A continuation history after a bonus or malus for a move.
pub open spec fn cont_after(
    table: Seq<i32>,
    key: Option<(int, int)>,
    p: Pos,
    mv: Move,
    bonus: int,
) -> Seq<i32> {
    match (key, p.at(mv.src().0 as int)) {
        (Some(k), Some(pc)) => cont_with(
            table,
            k.0,
            k.1,
            pc.piece_type.idx(),
            mv.dst().0 as int,
            bonus,
        ),
        _ => table,
    }
}

/// The histories after a bonus or malus for a move.
pub open spec fn judged(s: SearchState, c: Context, p: Pos, mv: Move, bonus: int) -> SearchState {
    SearchState {
        history: history_with(s.history, p.side, mv, bonus),
        cont_1: cont_after(s.cont_1, c.key_1, p, mv, bonus),
        cont_2: cont_after(s.cont_2, c.key_2, p, mv, bonus),
        ..s
    }
}

/// The histories after a malus for the quiet moves among the first `n`.
pub open spec fn blamed(
    s: SearchState,
    c: Context,
    p: Pos,
    ms: Seq<Move>,
    depth: int,
    n: int,
) -> SearchState
    decreases n,
{
    if n <= 0 {
        s
    } else {
        let t = blamed(s, c, p, ms, depth, n - 1);
        if quiet(ms[n - 1]) {
            judged(t, c, p, ms[n - 1], -depth_bonus(depth))
        } else {
            t
        }
    }
}

/// The state after a move has caused a cutoff: a quiet move becomes a killer and
/// the counter to its predecessor and gains in history, and the quiet moves
/// that were tried before it lose.
pub open spec fn cutoff(
    s: SearchState,
    c: Context,
    n: Node,
    ms: Seq<Move>,
    i: int,
    mv: Move,
) -> SearchState {
    let s1 = SearchState { fail_highs: bump(s.fail_highs), ..s };
    if !quiet(mv) {
        s1
    } else {
        let s2 = SearchState {
            killers: killers_with(s1.killers, n.ply, mv),
            counters: match c.prev {
                Some(pm) => s1.counters.update(counter_index(pm), Some(mv)),
                None => s1.counters,
            },
            ..s1
        };
        blamed(judged(s2, c, n.p, mv, depth_bonus(n.depth)), c, n.p, ms, n.depth, i)
    }
}

/// What a score says about the true value.
pub open spec fn bound_for(score: int, alpha: int, beta: int) -> Bound {
    if score <= alpha {
        Bound::Upper
    } else if score >= beta {
        Bound::Lower
    } else {
        Bound::Exact
    }
}

/// The result of a node, which is stored in the table.
pub open spec fn finished(n: Node, best: int, best_move: Option<Move>, s: SearchState) -> (
    int,
    SearchState,
) {
    (
        best,
        stored(s, n.p, n.depth, best, n.ply, bound_for(best, n.alpha_orig, n.beta), best_move),
    )
}

/// The score below which quiet moves are not tried at shallow depth.
pub open spec fn futility_base<E: Evaluator>(e: E, prm: SearchParams, n: Node) -> Option<int> {
    if !n.pv() && !n.check && n.depth <= 2 {
        Some(
            e.score(n.p) + (if n.depth == 1 {
                prm.futility_margin_1
            } else {
                prm.futility_margin_2
            }),
        )
    } else {
        None
    }
}

/// A move is skipped: it is the one left out, or a quiet move that is hopeless
/// or comes too late at shallow depth.
pub open spec fn skipped(
    prm: SearchParams,
    n: Node,
    base: Option<int>,
    s: SearchState,
    mv: Move,
    i: int,
    alpha: int,
    best: int,
) -> bool {
    ||| s.se_excluded[n.ply] == Some(mv)
    ||| (base matches Some(b) && i > 0 && quiet(mv) && b < alpha && best > -INFINITY)
    ||| (!n.pv() && !n.check && n.depth <= 5 && quiet(mv) && i >= prm.lmp_base + n.depth * n.depth
        && best > -INFINITY)
}

/// The singularity of the hash move is tested.
pub open spec fn tests_singular(n: Node, mv: Move) -> bool {
    &&& n.hash_move() == Some(mv)
    &&& n.depth >= 6
    &&& !n.singular
    &&& (n.hit matches Some(d) && (d.bound == Bound::Lower || d.bound == Bound::Exact) && d.depth
        >= n.depth - 3 && magnitude(from_table(d.score, n.ply)) < MATE_IN_MAX)
}

/// The score that all other moves have to stay below.
pub open spec fn singular_beta(prm: SearchParams, n: Node) -> int {
    match n.hit {
        Some(d) => best_of(
            from_table(d.score, n.ply) - prm.se_depth_factor * n.depth,
            -MATE_IN_MAX + 1,
        ),
        None => 0,
    }
}

/// A late quiet move is searched at reduced depth first.
pub open spec fn reduces(n: Node, s: SearchState, mv: Move, i: int) -> bool {
    &&& !n.check
    &&& n.depth >= 3
    &&& i >= 2
    &&& quiet(mv)
    &&& killer_at(s.killers, n.ply).0 != Some(mv)
    &&& killer_at(s.killers, n.ply).1 != Some(mv)
}

/// By how much a move is reduced.
pub open spec fn reduction_of(n: Node, s: SearchState, mv: Move, i: int) -> int {
    if reduces(n, s, mv, i) {
        best_of(reduction(n.depth, i), 1)
    } else {
        0
    }
}

/// The score of a position searched to a depth within a window, and the state
/// afterwards.
pub open spec fn negamax<E: Evaluator>(
    e: E,
    prm: SearchParams,
    p: Pos,
    s0: SearchState,
    depth0: int,
    alpha: int,
    beta: int,
    ply: int,
    skip_null: bool,
) -> (int, SearchState)
    decreases
        300 - ply,
        (if s0.se_excluded[ply] is Some {
            0int
        } else {
            1int
        }),
        10int,
        0int,
{
    let s1 = visited(s0);
    if ply > 0 && drawn(s1, p) {
        (0, s1)
    } else {
        let s2 = reached(s1, ply);
        if ply >= 128 || ply < 0 {
            (e.score(p), s2)
        } else {
            let check = in_check(p, p.side);
            let s3 = if check {
                SearchState { check_extensions: bump(s2.check_extensions), ..s2 }
            } else {
                s2
            };
            let singular = s0.se_excluded[ply] is Some;
            let c = if singular {
                Consulted { score: None, alpha, s: s3 }
            } else {
                consulted(s3, p, alpha, beta, ply)
            };
            let n = Node {
                p,
                depth: if check {
                    depth0 + 1
                } else {
                    depth0
                },
                alpha: c.alpha,
                alpha_orig: alpha,
                beta,
                ply,
                skip_null,
                check,
                singular,
                hit: c.s.tt.probe(position_key(p)),
            };
            match c.score {
                Some(sc) => (sc, c.s),
                None => hash_stage(e, prm, n, c.s),
            }
        }
    }
}

/// A node from the transposition table on, which may settle it.
pub open spec fn hash_stage<E: Evaluator>(e: E, prm: SearchParams, n: Node, s: SearchState) -> (
    int,
    SearchState,
)
    decreases 300 - n.ply, n.flag(), 9int, 0int,
{
    let s2 = if n.hit is Some {
        SearchState { tt_hits: bump(s.tt_hits), ..s }
    } else {
        s
    };
    match table_cutoff(n) {
        Some(sc) => (sc, SearchState { tt_cutoffs: bump(s2.tt_cutoffs), ..s2 }),
        None => if n.depth == 0 {
            quiesce(e, n.p, s2, n.alpha, n.beta, n.ply)
        } else {
            null_stage(e, prm, n, s2)
        },
    }
}

/// A node from the null move on: where the side to move stands well enough, it
/// may pass, and if that still fails high the node is cut off.
pub open spec fn null_stage<E: Evaluator>(e: E, prm: SearchParams, n: Node, s: SearchState) -> (
    int,
    SearchState,
)
    decreases 300 - n.ply, n.flag(), 8int, 0int,
{
    if n.ply < 0 || n.ply >= 128 {
        (0, s)
    } else if !n.skip_null && !n.pv() && !n.check && n.depth >= 3 && has_pieces(n.p) && e.score(n.p)
        >= n.beta {
        let (v, s2) = negamax(
            e,
            prm,
            apply_null(n.p),
            playing(s, n.ply, None),
            best_of(n.depth - (4 + n.depth / 3), 0),
            -n.beta,
            -n.beta + 1,
            n.ply + 1,
            true,
        );
        if -v >= n.beta {
            (n.beta, s2)
        } else {
            razor_stage(e, prm, n, s2)
        }
    } else {
        razor_stage(e, prm, n, s)
    }
}

/// A node from razoring on: at depth 1 a hopeless position goes straight to
/// quiescence.
pub open spec fn razor_stage<E: Evaluator>(e: E, prm: SearchParams, n: Node, s: SearchState) -> (
    int,
    SearchState,
)
    decreases 300 - n.ply, n.flag(), 7int, 0int,
{
    if n.depth == 1 && !n.check && !n.pv() && e.score(n.p) + prm.razor_margin < n.alpha {
        quiesce(e, n.p, s, n.alpha, n.beta, n.ply)
    } else if !n.pv() && n.depth >= 5 && !n.check && magnitude(n.beta) < MATE_IN_MAX {
        probcut_moves(e, prm, n, legal(n.p), 0, s)
    } else {
        move_stage(e, prm, n, s)
    }
}

/// The captures of a node that are tried with a raised bound at reduced depth,
/// from number `i` on: the first to exceed it cuts the node off.
pub open spec fn probcut_moves<E: Evaluator>(
    e: E,
    prm: SearchParams,
    n: Node,
    ms: Seq<Move>,
    i: int,
    s: SearchState,
) -> (int, SearchState)
    decreases 300 - n.ply, n.flag(), 6int, ms.len() - i,
{
    if n.ply < 0 || n.ply >= 128 || i < 0 {
        (0, s)
    } else if i >= ms.len() {
        move_stage(e, prm, n, s)
    } else {
        let mv = ms[i];
        if !mv.captures() || see_score(n.p, mv) + prm.probcut_margin < 0 {
            probcut_moves(e, prm, n, ms, i + 1, s)
        } else {
            let bound = n.beta + prm.probcut_margin;
            let (v, s2) = negamax(
                e,
                prm,
                apply(n.p, mv),
                descending(s, n.p, n.ply, mv),
                n.depth - 4,
                -bound,
                -bound + 1,
                n.ply + 1,
                false,
            );
            let s3 = returning(s2);
            if -v >= bound {
                (-v, stored(s3, n.p, n.depth - 4, -v, n.ply, Bound::Lower, Some(mv)))
            } else {
                probcut_moves(e, prm, n, ms, i + 1, s3)
            }
        }
    }
}

/// A node from the generation of its moves on.
pub open spec fn move_stage<E: Evaluator>(e: E, prm: SearchParams, n: Node, s: SearchState) -> (
    int,
    SearchState,
)
    decreases 300 - n.ply, n.flag(), 5int, 0int,
{
    let ms = legal(n.p);
    if ms.len() == 0 {
        (
            if n.check {
                -MATE + n.ply
            } else {
                0
            },
            s,
        )
    } else {
        let c = context_of(s, n.p, n.ply);
        search_moves(
            e,
            prm,
            n,
            c,
            futility_base(e, prm, n),
            ms,
            node_values(s, c, n.p, n.ply, n.hash_move(), ms),
            0,
            n.alpha,
            -INFINITY as int,
            None,
            s,
        )
    }
}

/// The moves of a node from number `i` on.
pub open spec fn search_moves<E: Evaluator>(
    e: E,
    prm: SearchParams,
    n: Node,
    c: Context,
    base: Option<int>,
    ms: Seq<Move>,
    sc: Seq<i32>,
    i: int,
    alpha: int,
    best: int,
    best_move: Option<Move>,
    s: SearchState,
) -> (int, SearchState)
    decreases 300 - n.ply, n.flag(), 4int, ms.len() - i,
{
    if i >= ms.len() || i < 0 || n.ply < 0 || n.ply >= 128 {
        finished(n, best, best_move, s)
    } else {
        let ms2 = picked_moves(ms, sc, i);
        let sc2 = picked_scores(sc, i);
        let mv = ms2[i];
        if skipped(prm, n, base, s, mv, i, alpha, best) {
            search_moves(e, prm, n, c, base, ms2, sc2, i + 1, alpha, best, best_move, s)
        } else {
            let (ext, s1) = extension(e, prm, n, mv, s);
            let (score, s2) = search_child(
                e,
                prm,
                n,
                i,
                mv,
                alpha,
                ext,
                descending(s1, n.p, n.ply, mv),
            );
            let s3 = returning(s2);
            if score > best {
                if score > alpha {
                    if score >= n.beta {
                        finished(n, score, Some(mv), cutoff(s3, c, n, ms2, i, mv))
                    } else {
                        search_moves(
                            e,
                            prm,
                            n,
                            c,
                            base,
                            ms2,
                            sc2,
                            i + 1,
                            score,
                            score,
                            Some(mv),
                            s3,
                        )
                    }
                } else {
                    search_moves(
                        e,
                        prm,
                        n,
                        c,
                        base,
                        ms2,
                        sc2,
                        i + 1,
                        alpha,
                        score,
                        Some(mv),
                        s3,
                    )
                }
            } else {
                search_moves(e, prm, n, c, base, ms2, sc2, i + 1, alpha, best, best_move, s3)
            }
        }
    }
}

/// By how much a move is extended: the hash move by one ply if every other move
/// fails low against a lowered bound at half the depth.
pub open spec fn extension<E: Evaluator>(
    e: E,
    prm: SearchParams,
    n: Node,
    mv: Move,
    s: SearchState,
) -> (int, SearchState)
    decreases 300 - n.ply, n.flag(), 3int, 0int,
{
    if tests_singular(n, mv) && 0 <= n.ply < s.se_excluded.len() {
        let bound = singular_beta(prm, n);
        let (v, s2) = negamax(
            e,
            prm,
            n.p,
            SearchState { se_excluded: s.se_excluded.update(n.ply, Some(mv)), ..s },
            n.depth / 2,
            bound - 1,
            bound,
            n.ply,
            true,
        );
        let s3 = SearchState { se_excluded: s2.se_excluded.update(n.ply, None), ..s2 };
        if v < bound {
            (1, SearchState { singular_extensions: bump(s3.singular_extensions), ..s3 })
        } else {
            (0, s3)
        }
    } else {
        (0, s)
    }
}

/// The score of a move. The first move is searched with the full window, the
/// others with a null window, late ones at reduced depth; those that do better
/// than expected are searched again.
pub open spec fn search_child<E: Evaluator>(
    e: E,
    prm: SearchParams,
    n: Node,
    i: int,
    mv: Move,
    alpha: int,
    ext: int,
    s: SearchState,
) -> (int, SearchState)
    decreases 300 - n.ply, n.flag(), 3int, 0int,
{
    let q = apply(n.p, mv);
    if n.ply < 0 || n.ply >= 128 {
        (0, s)
    } else if i == 0 {
        let (v, s1) = negamax(
            e,
            prm,
            q,
            s,
            n.depth - 1 + ext,
            -n.beta,
            -alpha,
            n.ply + 1,
            false,
        );
        (-v, s1)
    } else {
        let cut = reduction_of(n, s, mv, i);
        let (v1, s1) = negamax(
            e,
            prm,
            q,
            s,
            best_of(n.depth - 1 - cut, 0),
            -alpha - 1,
            -alpha,
            n.ply + 1,
            false,
        );
        let (v2, s2) = if cut > 0 && -v1 > alpha {
            negamax(
                e,
                prm,
                q,
                SearchState { researches: bump(s1.researches), ..s1 },
                n.depth - 1,
                -alpha - 1,
                -alpha,
                n.ply + 1,
                false,
            )
        } else {
            (v1, s1)
        };
        if -v2 > alpha && -v2 < n.beta {
            let (v3, s3) = negamax(
                e,
                prm,
                q,
                SearchState { researches: bump(s2.researches), ..s2 },
                n.depth - 1,
                -n.beta,
                -alpha,
                n.ply + 1,
                false,
            );
            (-v3, s3)
        } else {
            (-v2, s2)
        }
    }
}

// ---------------------------------------------------------------------------
// Root
// ---------------------------------------------------------------------------

/// The ordering scores of the root moves.
pub open spec fn root_values(
    s: SearchState,
    p: Pos,
    hash_move: Option<Move>,
    ms: Seq<Move>,
) -> Seq<i32> {
    ms.map_values(
        |m: Move| move_value(p, m, 0, hash_move, s.killers, s.history, None) as i32,
    )
}

/// The move that is tried first at the root: the table's, or the given one.
pub open spec fn root_hash_move(s: SearchState, p: Pos, pv_move: Option<Move>) -> Option<Move> {
    match s.tt.probe(position_key(p)) {
        Some(d) => if d.best() is Some {
            d.best()
        } else {
            pv_move
        },
        None => pv_move,
    }
}

/// The best move of a position, its score and the state afterwards. Excluded
/// moves are not tried.
pub open spec fn root<E: Evaluator>(
    e: E,
    prm: SearchParams,
    p: Pos,
    s: SearchState,
    depth: int,
    pv_move: Option<Move>,
    excluded: Seq<Move>,
    alpha: int,
    beta: int,
) -> (Option<Move>, int, SearchState) {
    let ms = legal(p);
    if ms.len() == 0 {
        (
            None,
            if in_check(p, p.side) {
                -MATE as int
            } else {
                0
            },
            s,
        )
    } else {
        let sc = root_values(s, p, root_hash_move(s, p, pv_move), ms);
        let (bm, best, s1) = root_moves(
            e,
            prm,
            p,
            depth,
            excluded,
            beta,
            ms,
            sc,
            0,
            alpha,
            -INFINITY as int,
            None,
            s,
        );
        match bm {
            None => (bm, best, s1),
            Some(m) => (
                bm,
                best,
                stored(s1, p, depth, best, 0, bound_for(best, alpha, beta), Some(m)),
            ),
        }
    }
}

/// The root moves from number `i` on.
pub open spec fn root_moves<E: Evaluator>(
    e: E,
    prm: SearchParams,
    p: Pos,
    depth: int,
    excluded: Seq<Move>,
    beta: int,
    ms: Seq<Move>,
    sc: Seq<i32>,
    i: int,
    alpha: int,
    best: int,
    best_move: Option<Move>,
    s: SearchState,
) -> (Option<Move>, int, SearchState)
    decreases ms.len() - i,
{
    if i >= ms.len() || i < 0 {
        (best_move, best, s)
    } else {
        let ms2 = picked_moves(ms, sc, i);
        let sc2 = picked_scores(sc, i);
        let mv = ms2[i];
        if excluded.contains(mv) {
            root_moves(
                e,
                prm,
                p,
                depth,
                excluded,
                beta,
                ms2,
                sc2,
                i + 1,
                alpha,
                best,
                best_move,
                s,
            )
        } else {
            let (score, s1) = root_child(e, prm, p, depth, i, mv, alpha, beta, s);
            if score > best {
                if score > alpha {
                    if score >= beta {
                        (Some(mv), score, SearchState { fail_highs: bump(s1.fail_highs), ..s1 })
                    } else {
                        root_moves(
                            e,
                            prm,
                            p,
                            depth,
                            excluded,
                            beta,
                            ms2,
                            sc2,
                            i + 1,
                            score,
                            score,
                            Some(mv),
                            s1,
                        )
                    }
                } else {
                    root_moves(
                        e,
                        prm,
                        p,
                        depth,
                        excluded,
                        beta,
                        ms2,
                        sc2,
                        i + 1,
                        alpha,
                        score,
                        Some(mv),
                        s1,
                    )
                }
            } else {
                root_moves(
                    e,
                    prm,
                    p,
                    depth,
                    excluded,
                    beta,
                    ms2,
                    sc2,
                    i + 1,
                    alpha,
                    best,
                    best_move,
                    s1,
                )
            }
        }
    }
}

/// The score of a root move: the first with the full window, the others with a
/// null window and again if they do better than expected.
pub open spec fn root_child<E: Evaluator>(
    e: E,
    prm: SearchParams,
    p: Pos,
    depth: int,
    i: int,
    mv: Move,
    alpha: int,
    beta: int,
    s0: SearchState,
) -> (int, SearchState) {
    let s = descending(s0, p, 0, mv);
    let q = apply(p, mv);
    if i == 0 {
        let (v, s1) = negamax(e, prm, q, s, depth - 1, -beta, -alpha, 1, false);
        (-v, returning(s1))
    } else {
        let (v1, s1) = negamax(e, prm, q, s, depth - 1, -alpha - 1, -alpha, 1, false);
        if -v1 > alpha && -v1 < beta {
            let (v2, s2) = negamax(
                e,
                prm,
                q,
                SearchState { researches: bump(s1.researches), ..s1 },
                depth - 1,
                -beta,
                -alpha,
                1,
                false,
            );
            (-v2, returning(s2))
        } else {
            (-v1, returning(s1))
        }
    }
}

} // verus!
