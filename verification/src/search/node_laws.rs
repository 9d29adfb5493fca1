//! What holds at the nodes of the search.

use crate::board::{position_key, PieceType, Pos};
use crate::eval::evaluator::Evaluator;
use crate::eval::score::law_tdiv;
use crate::movegen::generate::in_check;
use crate::movegen::make_move::{apply, apply_null};
use crate::movegen::moves::Move;
use crate::search::{INFINITY, MATE_IN_MAX};
use crate::search::draw::insufficient;
use crate::search::endgame::settled;
use crate::search::iterative::{
    aged, aspirate, at_least, at_most, deepen_once, deepened, last_depth, narrows, pv_line, reports,
    widened, Deepened, SearchInfo, Setup,
};
use crate::search::limits::SearchLimits;
use crate::search::model::{
    argmax, best_of, bound_for, bump, consulted, cont_bonus, cutoff, descending, drawn, from_table,
    futility_base, hash_stage, judged, move_stage, negamax, node_value, null_stage, picked_moves,
    picked_scores, playing, probcut_moves, quiesce, razor_stage, reached, reduction_of, repeated,
    returning, root, search_child, singular_beta, skipped, table_cutoff, tests_singular, to_table,
    visited, Context, Node, SearchState,
};
use crate::search::negamax::stops;
use crate::search::ordering::{counter_of, law_bonuses, law_gravity_direction, HISTORY_MAX};
use crate::search::params::{clamped, SearchParams};
use crate::search::see::{exchange_occ, see_score};
use crate::search::tt::{fill, floor_pow2, law_floor_pow2, wanted_clusters, Bound, TableState};
use crate::tablebase::{few_enough, pieces_on, WdlScore};
use vstd::prelude::*;

verus! {

/// A position counts as drawn below the root exactly when a hundred half-moves have
/// passed without a capture or a pawn move, when it has occurred since the last of
/// these, or when the material is insufficient.
pub proof fn law_drawn_positions(s: SearchState, p: Pos)
    requires
        0 <= p.halfmove,
    ensures
        drawn(s, p) <==> p.halfmove >= 100 || insufficient(p) || exists|k: int|
            1 <= k <= p.halfmove && k <= s.path.len() && #[trigger] s.path[s.path.len() - k]
                == position_key(p),
{
    let n = s.path.len() as int;
    let from = if p.halfmove < n {
        n - p.halfmove
    } else {
        0
    };
    let tail = s.path.skip(from);
    let key = position_key(p);
    if repeated(s.path, key, p.halfmove) {
        let i = choose|i: int| 0 <= i < tail.len() && tail[i] == key;
        assert(s.path[n - (n - from - i)] == key);
    }
    if exists|k: int| 1 <= k <= p.halfmove && k <= n && #[trigger] s.path[n - k] == key {
        let k = choose|k: int| 1 <= k <= p.halfmove && k <= n && #[trigger] s.path[n - k] == key;
        assert(tail[n - k - from] == key);
    }
}

/// The table settles a node only with a result of at least its depth: an exact one, a
/// lower bound that reaches beta, or an upper bound that does not exceed alpha; never
/// while a move is left out. Such a result always settles it.
pub proof fn law_table_settles(n: Node)
    ensures
        table_cutoff(n) is Some <==> {
            &&& n.hit is Some
            &&& !n.singular
            &&& n.hit->0.depth >= n.depth
            &&& {
                ||| n.hit->0.bound == Bound::Exact
                ||| n.hit->0.bound == Bound::Lower && from_table(n.hit->0.score, n.ply) >= n.beta
                ||| n.hit->0.bound == Bound::Upper && from_table(n.hit->0.score, n.ply) <= n.alpha
            }
        },
        table_cutoff(n) matches Some(v) ==> v == from_table(n.hit->0.score, n.ply),
{
}

/// A score above the window is a lower bound of the true value, one below it an upper
/// bound, and one inside it is exact.
pub proof fn law_bounds_of_scores(score: int, alpha: int, beta: int)
    requires
        alpha < beta,
    ensures
        alpha < score < beta <==> bound_for(score, alpha, beta) == Bound::Exact,
        score >= beta <==> bound_for(score, alpha, beta) == Bound::Lower,
        score <= alpha <==> bound_for(score, alpha, beta) == Bound::Upper,
{
}

/// A mate that is stored at one ply and read at another is as far from the one node as
/// from the other; every other score is read as it was stored.
pub proof fn law_mates_from_the_node(score: int, stored: int, read: int)
    requires
        -31_000 <= score <= 31_000,
        0 <= stored <= 128,
        0 <= read <= 128,
    ensures
        ({
            let v = from_table(to_table(score, stored), read);
            &&& score >= MATE_IN_MAX && score + stored - read >= MATE_IN_MAX ==> v == score + stored
                - read
            &&& score <= -MATE_IN_MAX && score - stored + read <= -MATE_IN_MAX ==> v == score
                - stored + read
            &&& -MATE_IN_MAX < score < MATE_IN_MAX ==> v == score
        }),
{
}

/// The turn is not passed in check, in an open window, twice in a row, near the
/// horizon, below beta, or by a side that has only pawns besides its king.
pub proof fn law_turn_not_passed<E: Evaluator>(e: E, prm: SearchParams, n: Node, s: SearchState)
    requires
        0 <= n.ply < 128,
        n.check || n.skip_null || n.beta - n.alpha > 1 || n.depth < 3 || e.score(n.p) < n.beta
            || forall|i: int| #[trigger]
            n.p.owned(n.p.side, i) ==> n.p.typed(PieceType::Pawn, i) || n.p.typed(
                PieceType::King,
                i,
            ),
    ensures
        null_stage(e, prm, n, s) == razor_stage(e, prm, n, s),
{
}

/// A move is skipped only if it is the one left out, or if it is a quiet one, not the
/// first, at a depth of five at most, out of check, in a closed window, and after a move
/// with a score. At most two plies from the horizon a move is skipped for being hopeless
/// only where even the margin of that depth does not bring the evaluation up to alpha;
/// it is skipped for being late only behind as many moves as the parameter says and the
/// square of the depth.
pub proof fn law_skipped_moves<E: Evaluator>(
    e: E,
    prm: SearchParams,
    n: Node,
    s: SearchState,
    mv: Move,
    i: int,
    alpha: int,
    best: int,
)
    requires
        prm.wf(),
        n.depth >= 1,
        skipped(prm, n, futility_base(e, prm, n), s, mv, i, alpha, best),
        s.se_excluded[n.ply] != Some(mv),
    ensures
        !mv.captures(),
        !mv.promotes(),
        i > 0,
        n.depth <= 5,
        !n.check,
        n.beta - n.alpha <= 1,
        best > -INFINITY,
        ({
            ||| n.depth == 1 && e.score(n.p) + prm.futility_margin_1 < alpha
            ||| n.depth == 2 && e.score(n.p) + prm.futility_margin_2 < alpha
            ||| i >= prm.lmp_base + n.depth * n.depth
        }),
{
    let d = n.depth;
    assert(d * d >= 1) by (nonlinear_arith)
        requires
            d >= 1,
    ;
}

/// Only quiet moves behind the first two are searched at reduced depth, from depth
/// three on, out of check, and not the killers of the ply; and then by at least one.
pub proof fn law_reduced_moves(n: Node, s: SearchState, mv: Move, i: int)
    requires
        0 <= n.ply < 128,
    ensures
        reduction_of(n, s, mv, i) >= 1 <==> {
            &&& !mv.captures()
            &&& !mv.promotes()
            &&& i >= 2
            &&& n.depth >= 3
            &&& !n.check
            &&& s.killers[n.ply].0 != Some(mv)
            &&& s.killers[n.ply].1 != Some(mv)
        },
{
}

pub(crate) proof fn lemma_argmax(sc: Seq<i32>, i: int, j: int)
    requires
        0 <= i <= j < sc.len(),
    ensures
        i <= argmax(sc, i, j) <= j,
        forall|k: int| i <= k <= j ==> #[trigger] sc[k] <= sc[argmax(sc, i, j)],
        forall|k: int| i <= k < argmax(sc, i, j) ==> #[trigger] sc[k] < sc[argmax(sc, i, j)],
    decreases j - i,
{
    if j > i {
        lemma_argmax(sc, i, j - 1);
    }
}

/// The next move that is tried has the highest score of those not yet tried, and is the
/// first of several. Moves and scores are exchanged alike, and those tried before stay
/// in place.
pub proof fn law_next_move(ms: Seq<Move>, sc: Seq<i32>, i: int)
    requires
        ms.len() == sc.len(),
        0 <= i < ms.len(),
    ensures
        ({
            let (m, c) = (picked_moves(ms, sc, i), picked_scores(sc, i));
            &&& m.len() == ms.len() && c.len() == sc.len()
            &&& forall|k: int| i <= k < sc.len() ==> #[trigger] sc[k] <= c[i]
            &&& forall|k: int| 0 <= k < i ==> #[trigger] m[k] == ms[k] && c[k] == sc[k]
            &&& exists|k: int|
                {
                    &&& i <= k < ms.len()
                    &&& #[trigger] ms[k] == m[i]
                    &&& sc[k] == c[i]
                    &&& m[k] == ms[i]
                    &&& c[k] == sc[i]
                    &&& forall|h: int| i <= h < k ==> #[trigger] sc[h] < sc[k]
                    &&& forall|h: int|
                        0 <= h < ms.len() && h != i && h != k ==> #[trigger] m[h] == ms[h] && c[h]
                            == sc[h]
                }
        }),
{
    lemma_argmax(sc, i, sc.len() - 1);
    let k = argmax(sc, i, sc.len() - 1);
    let (m, c) = (picked_moves(ms, sc, i), picked_scores(sc, i));
    assert(ms[k] == m[i] && sc[k] == c[i] && m[k] == ms[i] && c[k] == sc[i]);
    assert(forall|h: int|
        0 <= h < ms.len() && h != i && h != k ==> #[trigger] m[h] == ms[h] && c[h] == sc[h]);
}

/// A quiet move that refutes a node becomes the first killer of its ply, before the one
/// that was first, and the counter to the move before it. A capture or promotion leaves
/// killers, counters and histories as they were.
pub proof fn law_refutations(
    s: SearchState,
    c: Context,
    n: Node,
    ms: Seq<Move>,
    i: int,
    mv: Move,
)
    requires
        s.killers.len() == 128,
        s.counters.len() == 4096,
        0 <= n.ply < 128,
    ensures
        ({
            let t = cutoff(s, c, n, ms, i, mv);
            &&& mv.captures() || mv.promotes() ==> t.killers == s.killers && t.counters
                == s.counters && t.history == s.history && t.cont_1 == s.cont_1 && t.cont_2
                == s.cont_2
            &&& !mv.captures() && !mv.promotes() ==> {
                &&& t.killers[n.ply].0 == Some(mv)
                &&& s.killers[n.ply].0 != Some(mv) ==> t.killers[n.ply].1 == s.killers[n.ply].0
                &&& s.killers[n.ply].0 == Some(mv) ==> t.killers[n.ply].1 == s.killers[n.ply].1
                &&& forall|k: int| 0 <= k < 128 && k != n.ply ==> #[trigger] t.killers[k] == s.killers[k]
                &&& c.prev matches Some(m) ==> t.counters[64 * m.src().0 + m.dst().0] == Some(mv)
            }
        }),
{
    lemma_blamed(s, c, n, ms, i, mv);
}

proof fn lemma_blamed(s: SearchState, c: Context, n: Node, ms: Seq<Move>, i: int, mv: Move)
    ensures
        forall|t: SearchState, k: int| #[trigger]
            crate::search::model::blamed(t, c, n.p, ms, n.depth, k).killers == t.killers
                && crate::search::model::blamed(t, c, n.p, ms, n.depth, k).counters == t.counters,
{
    assert forall|t: SearchState, k: int|
        (#[trigger] crate::search::model::blamed(t, c, n.p, ms, n.depth, k)).killers == t.killers
            && crate::search::model::blamed(t, c, n.p, ms, n.depth, k).counters == t.counters by {
        lemma_blamed_one(t, c, n, ms, k);
    }
}

proof fn lemma_blamed_one(t: SearchState, c: Context, n: Node, ms: Seq<Move>, k: int)
    ensures
        crate::search::model::blamed(t, c, n.p, ms, n.depth, k).killers == t.killers,
        crate::search::model::blamed(t, c, n.p, ms, n.depth, k).counters == t.counters,
    decreases k,
{
    if k > 0 {
        lemma_blamed_one(t, c, n, ms, k - 1);
    }
}

/// The tables are asked only about positions with no more pieces than the limit and
/// right after a capture or a pawn move. A win scores 20000 and is at least that, a loss
/// -20000 and at most that; a result that the 50-move rule spoils counts as a draw, which
/// settles a node only if 0 reaches beta, and else makes 0 the least.
pub proof fn law_tablebase_scores(
    t: TableState,
    p: Pos,
    w: WdlScore,
    limit: int,
    alpha: int,
    beta: int,
    ply: int,
)
    requires
        0 <= ply <= 128,
        alpha < beta,
    ensures
        few_enough(limit, p) <==> p.halfmove == 0 && pieces_on(p) <= limit && limit > 0,
        ({
            let x = settled(t, p, w, alpha, beta, ply);
            let key = position_key(p);
            &&& w == WdlScore::Win ==> x.score == Some(20_000int) && x.tt == t.store(
                key,
                200,
                20_000,
                Bound::Lower,
                None,
            )
            &&& w == WdlScore::Loss ==> x.score == Some(-20_000int) && x.tt == t.store(
                key,
                200,
                -20_000i16,
                Bound::Upper,
                None,
            )
            &&& w != WdlScore::Win && w != WdlScore::Loss && beta <= 0 ==> x.score == Some(0int)
                && x.tt == t
            &&& w != WdlScore::Win && w != WdlScore::Loss && beta > 0 ==> x.score is None
                && x.alpha >= 0 && x.alpha >= alpha && (x.alpha == 0 || x.alpha == alpha) && x.tt
                == t.store(key, 200, 0, Bound::Exact, None)
        }),
{
}

/// The first move of a node is searched in full, and a null window at reduced depth only
/// ever delays a full search: the score of a move that improves alpha without reaching beta
/// is that of a search at full depth with the full window.
pub proof fn law_improvements_are_exact<E: Evaluator>(
    e: E,
    prm: SearchParams,
    n: Node,
    i: int,
    mv: Move,
    alpha: int,
    s: SearchState,
)
    requires
        0 <= n.ply < 128,
        i >= 0,
        ({
            let v = search_child(e, prm, n, i, mv, alpha, 0, s).0;
            alpha < v < n.beta
        }),
    ensures
        exists|t: SearchState| #[trigger]
            full_score(e, prm, n, mv, alpha, t) == search_child(e, prm, n, i, mv, alpha, 0, s).0,
{
    let q = apply(n.p, mv);
    if i == 0 {
        assert(full_score(e, prm, n, mv, alpha, s) == search_child(e, prm, n, i, mv, alpha, 0, s).0);
    } else {
        let cut = reduction_of(n, s, mv, i);
        let (v1, s1) = negamax(
            e,
            prm,
            q,
            s,
            best_of(n.depth - 1 - cut, 0),
            -alpha - 1,
            -alpha,
            n.ply + 1,
            false,
        );
        let (v2, s2) = if cut > 0 && -v1 > alpha {
            negamax(
                e,
                prm,
                q,
                SearchState { researches: bump(s1.researches), ..s1 },
                n.depth - 1,
                -alpha - 1,
                -alpha,
                n.ply + 1,
                false,
            )
        } else {
            (v1, s1)
        };
        let t = SearchState { researches: bump(s2.researches), ..s2 };
        if -v2 > alpha && -v2 < n.beta {
            assert(full_score(e, prm, n, mv, alpha, t) == search_child(
                e,
                prm,
                n,
                i,
                mv,
                alpha,
                0,
                s,
            ).0);
        }
    }
}

/// The score of a move searched one ply less deep, with the window turned around.
pub open spec fn full_score<E: Evaluator>(
    e: E,
    prm: SearchParams,
    n: Node,
    mv: Move,
    alpha: int,
    t: SearchState,
) -> int {
    -negamax(e, prm, apply(n.p, mv), t, n.depth - 1, -n.beta, -alpha, n.ply + 1, false).0
}

/// The hash move is tested for being singular from depth six on, with a result of the
/// table that is at most three plies shallower, is no upper bound and no mate, and never
/// within such a test; all other moves have to stay below that result by the parameter
/// times the depth.
pub proof fn law_singular_tests(prm: SearchParams, n: Node, mv: Move)
    requires
        prm.wf(),
    ensures
        tests_singular(n, mv) <==> {
            &&& n.hit is Some
            &&& n.hit->0.best() == Some(mv)
            &&& n.depth >= 6
            &&& !n.singular
            &&& n.hit->0.bound == Bound::Exact || n.hit->0.bound == Bound::Lower
            &&& n.hit->0.depth + 3 >= n.depth
            &&& -MATE_IN_MAX < from_table(n.hit->0.score, n.ply) < MATE_IN_MAX
        },
        tests_singular(n, mv) && from_table(n.hit->0.score, n.ply) - prm.se_depth_factor * n.depth
            > -MATE_IN_MAX ==> singular_beta(prm, n) == from_table(n.hit->0.score, n.ply)
            - prm.se_depth_factor * n.depth,
{
}

/// A search is stopped for each of its reasons alone, and for no other.
pub proof fn law_reasons_to_stop(nodes: u64, limit: Option<u64>, a: bool, b: bool, c: bool)
    ensures
        stops(true, a, b, nodes, limit),
        stops(a, true, b, nodes, limit),
        stops(a, b, true, nodes, limit),
        limit matches Some(n) ==> nodes >= n ==> stops(a, b, c, nodes, limit),
        (limit matches Some(n) ==> nodes < n) ==> !stops(false, false, false, nodes, limit),
{
}

/// Iterative deepening goes to the depth that is asked for, but never beyond 64, which is
/// also as deep as it goes if none is.
pub proof fn law_depth_cap(l: SearchLimits)
    ensures
        l.depth is None ==> l.cap() == 64,
        l.depth matches Some(d) ==> d <= 64 ==> l.cap() == d,
        l.depth matches Some(d) ==> d >= 64 ==> l.cap() == 64,
{
}

/// A parameter is held within its range: it is the nearest value there.
pub proof fn law_clamped(v: int, lo: int, hi: int)
    requires
        lo <= hi,
    ensures
        lo <= clamped(v, lo, hi) <= hi,
        lo <= v <= hi ==> clamped(v, lo, hi) == v,
        v < lo ==> clamped(v, lo, hi) == lo,
        v > hi ==> clamped(v, lo, hi) == hi,
{
}

/// A table of some megabytes has a power of two of clusters of 64 bytes: they fit into that
/// size, and twice as many do not.
pub proof fn law_table_size(mb: int)
    requires
        mb >= 1,
    ensures
        64 * floor_pow2(wanted_clusters(mb)) <= 1_048_576 * mb < 128 * floor_pow2(
            wanted_clusters(mb),
        ),
{
    law_floor_pow2(wanted_clusters(mb));
}

/// The squares of an exchange: those that are occupied, but for the source of the capture
/// and the pawn that is taken en passant, beside the source on the file of the target.
pub proof fn law_exchange_squares(p: Pos, mv: Move, i: int)
    ensures
        exchange_occ(p, mv).contains(i) <==> {
            &&& p.occupied(i)
            &&& i != mv.src().0
            &&& mv.en_passant() ==> !(i / 8 == mv.src().0 as int / 8 && i % 8 == mv.dst().0 as int % 8)
        },
{
}

/// Before each depth but the first the histories are halved, toward zero, and the deepest
/// ply is counted anew.
pub proof fn law_histories_age(s: SearchState, depth: int, i: int)
    requires
        0 <= i < s.history.len(),
        -1_000_000 <= s.history[i] <= 1_000_000,
    ensures
        aged(s, depth).max_ply == 0,
        depth <= 1 ==> aged(s, depth).history == s.history,
        depth > 1 && s.history[i] >= 0 ==> s.history[i] - 1 <= 2 * aged(s, depth).history[i]
            <= s.history[i],
        depth > 1 && s.history[i] <= 0 ==> s.history[i] <= 2 * aged(s, depth).history[i]
            <= s.history[i] + 1,
        aged(s, depth).killers == s.killers,
        aged(s, depth).tt == s.tt,
        aged(s, depth).nodes == s.nodes,
{
    law_tdiv(s.history[i] as int, 2);
}

/// A window that is narrowed is widened until the score is inside, or until it is fully open
/// on the side where the score lies: what is returned is the result of such a search.
pub proof fn law_aspiration<E: Evaluator>(
    e: E,
    prm: SearchParams,
    p: Pos,
    s: SearchState,
    depth: int,
    pv_move: Option<Move>,
    excluded: Seq<Move>,
    lo: int,
    hi: int,
    delta: int,
)
    requires
        delta > 0,
        -INFINITY <= lo < hi <= INFINITY,
    ensures
        exists|t: SearchState, a: int, b: int|
            {
                let r = aspirate(e, prm, p, s, depth, pv_move, excluded, lo, hi, delta);
                &&& a <= lo && hi <= b
                &&& r == #[trigger] root(e, prm, p, t, depth, pv_move, excluded, a, b)
                &&& r.1 > a || a <= -INFINITY
                &&& r.1 < b || b >= INFINITY
            },
    decreases at_least(lo + 30_000, 0) + at_least(30_000 - hi, 0),
{
    let (m, v, s2) = root(e, prm, p, s, depth, pv_move, excluded, lo, hi);
    let r = aspirate(e, prm, p, s, depth, pv_move, excluded, lo, hi, delta);
    if v <= lo && lo > -INFINITY {
        let a = at_least(lo - delta, -INFINITY as int);
        law_aspiration(e, prm, p, s2, depth, pv_move, excluded, a, hi, widened(delta));
        let (t, x, y) = choose|t: SearchState, x: int, y: int|
            {
                &&& x <= a && hi <= y
                &&& r == #[trigger] root(e, prm, p, t, depth, pv_move, excluded, x, y)
                &&& r.1 > x || x <= -INFINITY
                &&& r.1 < y || y >= INFINITY
            };
        assert(r == root(e, prm, p, t, depth, pv_move, excluded, x, y));
    } else if v > lo && v >= hi && hi < INFINITY {
        let b = at_most(hi + delta, INFINITY as int);
        law_aspiration(e, prm, p, s2, depth, pv_move, excluded, lo, b, widened(delta));
        let (t, x, y) = choose|t: SearchState, x: int, y: int|
            {
                &&& x <= lo && b <= y
                &&& r == #[trigger] root(e, prm, p, t, depth, pv_move, excluded, x, y)
                &&& r.1 > x || x <= -INFINITY
                &&& r.1 < y || y >= INFINITY
            };
        assert(r == root(e, prm, p, t, depth, pv_move, excluded, x, y));
    } else {
        assert(r == root(e, prm, p, s, depth, pv_move, excluded, lo, hi));
    }
}

/// Without tablebases, or about a position with too many pieces or with a clock that runs,
/// nothing is asked and nothing changes; an answer is counted once, and one of no result
/// changes nothing else.
pub proof fn law_tables_not_asked(s: SearchState, p: Pos, alpha: int, beta: int, ply: int)
    ensures
        ({
            let c = consulted(s, p, alpha, beta, ply);
            &&& !s.oracle.on || p.halfmove != 0 || pieces_on(p) > s.oracle.limit ==> c.s == s && c.alpha
                == alpha && c.score is None
            &&& s.oracle.on && p.halfmove == 0 && pieces_on(p) <= s.oracle.limit && s.oracle.limit > 0
                ==> c.s.oracle.asked == s.oracle.asked + 1 && (s.oracle.answers[s.oracle.asked] is None
                ==> c.score is None && c.alpha == alpha && c.s.tt == s.tt && c.s.tb_hits
                == s.tb_hits)
        }),
{
}

/// After `k` depths the move and the score are those of a search of the root to depth `k`,
/// which begins with the move of the depth before.
pub proof fn law_depth_result<E: Evaluator>(su: Setup<E>, k: int)
    requires
        k >= 1,
        su.prm.wf(),
        -28_000 <= deepened(su, k - 1).score <= 28_000,
    ensures
        exists|t: SearchState, a: int, b: int|
            {
                let r = #[trigger] root(
                    su.e,
                    su.prm,
                    su.p,
                    t,
                    k,
                    deepened(su, k - 1).best_move,
                    su.excluded,
                    a,
                    b,
                );
                &&& deepened(su, k).best_move == r.0
                &&& deepened(su, k).score == r.1
                &&& r.1 > a || a <= -INFINITY
                &&& r.1 < b || b >= INFINITY
            },
        deepened(su, k).depth == k,
{
    reveal(deepen_once);
    let d = deepened(su, k - 1);
    let s = aged(d.s, k);
    if narrows(k, d) {
        let delta = su.prm.asp_delta as int;
        let (lo, hi) = (
            at_least(d.score - delta, -INFINITY as int),
            at_most(d.score + delta, INFINITY as int),
        );
        law_aspiration(su.e, su.prm, su.p, s, k, d.best_move, su.excluded, lo, hi, delta);
        let r = aspirate(su.e, su.prm, su.p, s, k, d.best_move, su.excluded, lo, hi, delta);
        let (t, a, b) = choose|t: SearchState, a: int, b: int|
            {
                &&& a <= lo && hi <= b
                &&& r == #[trigger] root(
                    su.e,
                    su.prm,
                    su.p,
                    t,
                    k,
                    d.best_move,
                    su.excluded,
                    a,
                    b,
                )
                &&& r.1 > a || a <= -INFINITY
                &&& r.1 < b || b >= INFINITY
            };
        assert(r == root(su.e, su.prm, su.p, t, k, d.best_move, su.excluded, a, b));
    } else {
        let r = root(
            su.e,
            su.prm,
            su.p,
            s,
            k,
            d.best_move,
            su.excluded,
            -INFINITY as int,
            INFINITY as int,
        );
        assert(deepened(su, k).score == r.1);
    }
}

/// A search that nothing stops ends at the depth that is asked for, or at the first depth
/// that finds a mate.
pub proof fn law_last_depth<E: Evaluator>(su: Setup<E>, cap: int, from: int)
    requires
        0 <= from <= cap,
    ensures
        ({
            let k = last_depth(su, cap, from);
            &&& from <= k <= cap
            &&& forall|j: int|
                from <= j < k && j >= 1 ==> -28_000 <= (#[trigger] deepened(su, j)).score <= 28_000
            &&& k < cap ==> k >= 1 && (deepened(su, k).score > 28_000 || deepened(su, k).score
                < -28_000)
        }),
    decreases cap - from,
{
    if !(from >= cap || (from >= 1 && crate::search::mate_score(deepened(su, from).score))) {
        law_last_depth(su, cap, from + 1);
    }
}

/// What is reported of a depth: the depth, the score, the nodes so far, the deepest ply, no
/// less than the depth, the fill level of the table, and the line that the table holds.
pub proof fn law_reported_fields(info: SearchInfo, p: Pos, d: Deepened)
    requires
        reports(info, p, d),
    ensures
        info.depth == d.depth,
        info.score == d.score,
        info.nodes == d.s.nodes,
        info.seldepth >= info.depth,
        info.seldepth >= d.s.max_ply,
        info.seldepth == info.depth || info.seldepth == d.s.max_ply,
        info.hashfull == fill(d.s.tt),
        info.pv@ == pv_line(p, d.s.tt, info.depth as int),
{
}

/// A bonus counts for the side to move, the source and the target of a move, and for the pieces
/// that the last two moves and this one moved; every other history entry stays.
pub proof fn law_bonus_for_one_move(
    s: SearchState,
    c: Context,
    p: Pos,
    mv: Move,
    bonus: int,
    i: int,
)
    requires
        s.history.len() == 8192,
        0 <= i < 8192,
        forall|k: int| 0 <= k < 8192 ==> -HISTORY_MAX <= #[trigger] s.history[k] <= HISTORY_MAX,
        -HISTORY_MAX <= bonus <= HISTORY_MAX,
    ensures
        ({
            let t = judged(s, c, p, mv, bonus);
            let k = 4096 * p.side.idx() + 64 * mv.src().0 + mv.dst().0;
            &&& i != k ==> t.history[i] == s.history[i]
            &&& bonus >= 0 ==> t.history[k] >= s.history[k]
            &&& bonus <= 0 ==> t.history[k] <= s.history[k]
            &&& s.history[k] == 0 ==> t.history[k] == bonus
            &&& c.key_1 is None ==> t.cont_1 == s.cont_1
            &&& c.key_2 is None ==> t.cont_2 == s.cont_2
            &&& t.killers == s.killers && t.counters == s.counters && t.tt == s.tt
        }),
{
    let k = 4096 * p.side.idx() + 64 * mv.src().0 + mv.dst().0;
    law_gravity_direction(s.history[k] as int, bonus);
    law_bonuses(bonus, 0);
}

/// A quiet move without a place of its own in the order is ordered by its history and by what
/// the continuation histories say of it, within the limits of history.
pub proof fn law_quiet_values(
    s: SearchState,
    c: Context,
    p: Pos,
    ply: int,
    hash_move: Option<Move>,
    mv: Move,
)
    requires
        0 <= ply < 128,
        !mv.captures(),
        !mv.promotes(),
        mv.promo() is None,
        hash_move != Some(mv),
        s.killers[ply].0 != Some(mv),
        s.killers[ply].1 != Some(mv),
        counter_of(s.counters, c.prev) != Some(mv),
        s.history[4096 * p.side.idx() + 64 * mv.src().0 + mv.dst().0] <= HISTORY_MAX,
    ensures
        ({
            let h = s.history[4096 * p.side.idx() + 64 * mv.src().0 + mv.dst().0];
            let v = node_value(s, c, p, ply, hash_move, mv);
            let x = h + cont_bonus(s, c, p, mv);
            &&& -699_999 <= v <= 699_999
            &&& -699_999 <= x <= 699_999 ==> v == x
            &&& x > 699_999 ==> v == 699_999
            &&& x < -699_999 ==> v == -699_999
            &&& c.key_1 is None && c.key_2 is None ==> x == h
        }),
{
}

/// A node at the horizon that the table does not settle is left to quiescence; any other that
/// it does not settle goes on, and one that it settles gets its score.
pub proof fn law_after_the_table<E: Evaluator>(e: E, prm: SearchParams, n: Node, s: SearchState)
    ensures
        ({
            let t = if n.hit is Some {
                SearchState { tt_hits: bump(s.tt_hits), ..s }
            } else {
                s
            };
            &&& table_cutoff(n) matches Some(v) ==> hash_stage(e, prm, n, s).0 == v
            &&& table_cutoff(n) is None && n.depth == 0 ==> hash_stage(e, prm, n, s) == quiesce(
                e,
                n.p,
                t,
                n.alpha,
                n.beta,
                n.ply,
            )
            &&& table_cutoff(n) is None && n.depth != 0 ==> hash_stage(e, prm, n, s) == null_stage(
                e,
                prm,
                n,
                t,
            )
        }),
{
}

/// Where the turn is passed, the node is cut off at beta if the other side, searched four
/// plies and a third of the depth less deep, does not get the score below beta; otherwise it
/// goes on.
pub proof fn law_passed_turn<E: Evaluator>(e: E, prm: SearchParams, n: Node, s: SearchState)
    requires
        0 <= n.ply < 128,
        !n.check,
        !n.skip_null,
        n.beta - n.alpha <= 1,
        n.depth >= 3,
        e.score(n.p) >= n.beta,
        exists|i: int| #[trigger]
            n.p.owned(n.p.side, i) && !n.p.typed(PieceType::Pawn, i) && !n.p.typed(
                PieceType::King,
                i,
            ),
    ensures
        ({
            let d = if n.depth >= 4 + n.depth / 3 {
                n.depth - 4 - n.depth / 3
            } else {
                0
            };
            let (v, t) = negamax(
                e,
                prm,
                apply_null(n.p),
                playing(s, n.ply, None),
                d,
                -n.beta,
                -n.beta + 1,
                n.ply + 1,
                true,
            );
            &&& -v >= n.beta ==> null_stage(e, prm, n, s).0 == n.beta
            &&& -v < n.beta ==> null_stage(e, prm, n, s) == razor_stage(e, prm, n, t)
        }),
{
}

/// Captures that are tried with a raised bound cut the node off with the score of one that
/// reaches the bound, four plies less deep; captures that lose more than the margin are not
/// tried. Otherwise the moves are searched.
pub proof fn law_raised_bound<E: Evaluator>(
    e: E,
    prm: SearchParams,
    n: Node,
    ms: Seq<Move>,
    i: int,
    s: SearchState,
)
    requires
        0 <= n.ply < 128,
        0 <= i,
    ensures
        ({
            let r = probcut_moves(e, prm, n, ms, i, s);
            ||| exists|t: SearchState| r == #[trigger] move_stage(e, prm, n, t)
            ||| raised_by_one(e, prm, n, ms, r.0)
        }),
    decreases ms.len() - i,
{
    if i < ms.len() {
        let mv = ms[i];
        if !mv.captures() || see_score(n.p, mv) + prm.probcut_margin < 0 {
            law_raised_bound(e, prm, n, ms, i + 1, s);
        } else {
            let bound = n.beta + prm.probcut_margin;
            let t = descending(s, n.p, n.ply, mv);
            let (v, s2) = negamax(
                e,
                prm,
                apply(n.p, mv),
                t,
                n.depth - 4,
                -bound,
                -bound + 1,
                n.ply + 1,
                false,
            );
            if -v >= bound {
                assert(ms[i] == mv);
                assert(raised_score(e, prm, n, mv, t) == -v);
                assert(raised_by_one(e, prm, n, ms, -v));
            } else {
                law_raised_bound(e, prm, n, ms, i + 1, returning(s2));
            }
        }
    } else {
        assert(probcut_moves(e, prm, n, ms, i, s) == move_stage(e, prm, n, s));
    }
}

/// What a capture scores against the raised bound.
pub open spec fn raised_score<E: Evaluator>(
    e: E,
    prm: SearchParams,
    n: Node,
    m: Move,
    t: SearchState,
) -> int {
    -negamax(
        e,
        prm,
        apply(n.p, m),
        t,
        n.depth - 4,
        -(n.beta + prm.probcut_margin),
        -(n.beta + prm.probcut_margin) + 1,
        n.ply + 1,
        false,
    ).0
}

/// The score is that of a capture of the list that does not lose more than the margin, and it
/// reaches the raised bound.
pub open spec fn raised_by_one<E: Evaluator>(
    e: E,
    prm: SearchParams,
    n: Node,
    ms: Seq<Move>,
    v: int,
) -> bool {
    exists|m: Move, t: SearchState|
        {
            &&& ms.contains(m)
            &&& m.captures()
            &&& see_score(n.p, m) >= -prm.probcut_margin
            &&& v >= n.beta + prm.probcut_margin
            &&& v == #[trigger] raised_score(e, prm, n, m, t)
        }
}

/// A node in check is searched one ply deeper, and every node with its table entry, from the
/// table on; beyond the last ply it is evaluated.
pub proof fn law_check_extension<E: Evaluator>(
    e: E,
    prm: SearchParams,
    p: Pos,
    s: SearchState,
    depth: int,
    alpha: int,
    beta: int,
    ply: int,
    skip_null: bool,
)
    requires
        0 <= ply,
        !s.oracle.on,
        ply > 0 ==> !drawn(s, p),
    ensures
        ply >= 128 ==> negamax(e, prm, p, s, depth, alpha, beta, ply, skip_null).0 == e.score(p),
        ply < 128 ==> exists|t: SearchState, n: Node|
            {
                &&& negamax(e, prm, p, s, depth, alpha, beta, ply, skip_null)
                    == #[trigger] hash_stage(e, prm, n, t)
                &&& in_check(p, p.side) ==> n.depth == depth + 1
                &&& !in_check(p, p.side) ==> n.depth == depth
                &&& n.p == p && n.alpha == alpha && n.alpha_orig == alpha && n.beta == beta
                &&& n.ply == ply && n.skip_null == skip_null && n.check == in_check(p, p.side)
                &&& n.singular == (s.se_excluded[ply] is Some)
                &&& n.hit == s.tt.probe(position_key(p))
            },
{
    let s1 = visited(s);
    let s2 = reached(s1, ply);
    let check = in_check(p, p.side);
    let t = if check {
        SearchState { check_extensions: bump(s2.check_extensions), ..s2 }
    } else {
        s2
    };
    if ply < 128 {
        let n = Node {
            p,
            depth: if check {
                depth + 1
            } else {
                depth
            },
            alpha,
            alpha_orig: alpha,
            beta,
            ply,
            skip_null,
            check,
            singular: s.se_excluded[ply] is Some,
            hit: s.tt.probe(position_key(p)),
        };
        assert(negamax(e, prm, p, s, depth, alpha, beta, ply, skip_null) == hash_stage(e, prm, n, t));
    }
}

/// A new search changes the generation of the table and nothing that it holds.
pub proof fn law_new_generation(t: TableState, key: u64)
    ensures
        t.next_generation().probe(key) == t.probe(key),
        t.generation < 255 ==> t.next_generation().generation == t.generation + 1,
        t.generation == 255 ==> t.next_generation().generation == 0,
{
}

} // verus!
