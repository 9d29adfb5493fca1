//! The search only ever visits more nodes.

use crate::board::{position_key, Pos};
use crate::eval::evaluator::Evaluator;
use crate::movegen::generate::in_check;
use crate::movegen::legal::legal;
use crate::movegen::make_move::{apply, apply_null};
use crate::movegen::moves::Move;
use crate::search::model::{
    best_of, blamed, bump, capture_values, context_of, consulted, cutoff, descending, extension,
    finished, futility_base, hash_stage, move_stage, negamax, node_values, null_stage, picked_moves,
    picked_scores, playing, probcut_moves, quiesce, quiesce_moves, quiet, razor_stage, reached,
    reduction_of, returning, root, root_child, root_hash_move, root_moves, root_values,
    search_child, search_moves, singular_beta, skipped, tests_singular, visited, Consulted, Context,
    Node, SearchState,
};
use crate::search::params::SearchParams;
use crate::search::see::see_score;
use crate::search::INFINITY;
use vstd::prelude::*;

verus! {

/// Quiescence visits at least one more node.
pub proof fn law_quiesce_visits<E: Evaluator>(
    e: E,
    p: Pos,
    s0: SearchState,
    alpha: int,
    beta: int,
    ply: int,
)
    ensures
        quiesce(e, p, s0, alpha, beta, ply).1.visits > s0.visits,
    decreases 300 - ply, 1int, 0int,
{
    let s = reached(visited(s0), ply);
    if ply < 128 {
        let check = in_check(p, p.side);
        let stand = e.score(p);
        let ms = legal(p);
        let best = if check {
            -INFINITY as int
        } else {
            stand
        };
        let a = if !check && stand > alpha {
            stand
        } else {
            alpha
        };
        lemma_quiesce_moves(e, p, ms, capture_values(p, ms), 0, a, beta, best, ply, check, s);
    }
}

/// The move is searched by quiescence.
pub open spec fn quiesced(p: Pos, mv: Move, check: bool) -> bool {
    check || !quiet(mv) && !(mv.captures() && see_score(p, mv) < 0)
}

/// The moves of a quiescence node are searched after one another.
pub proof fn lemma_quiesce_moves<E: Evaluator>(
    e: E,
    p: Pos,
    ms: Seq<Move>,
    sc: Seq<i32>,
    i: int,
    alpha: int,
    beta: int,
    best: int,
    ply: int,
    check: bool,
    s: SearchState,
)
    ensures
        ({
            let r = quiesce_moves(e, p, ms, sc, i, alpha, beta, best, ply, check, s).1;
            let mv = picked_moves(ms, sc, i)[i];
            &&& r.visits >= s.visits
            &&& 0 <= i < ms.len() && ply < 128 && quiesced(p, mv, check) ==> r.visits >= quiesce(
                e,
                apply(p, mv),
                s,
                -beta,
                -alpha,
                ply + 1,
            ).1.visits
        }),
    decreases 300 - ply, 0int, ms.len() - i,
{
    if !(i >= ms.len() || i < 0 || ply >= 128) {
        let ms2 = picked_moves(ms, sc, i);
        let sc2 = picked_scores(sc, i);
        let mv = ms2[i];
        if !quiesced(p, mv, check) {
            lemma_quiesce_moves(e, p, ms2, sc2, i + 1, alpha, beta, best, ply, check, s);
        } else {
            let (v, s2) = quiesce(e, apply(p, mv), s, -beta, -alpha, ply + 1);
            let best2 = best_of(best, -v);
            law_quiesce_visits(e, apply(p, mv), s, -beta, -alpha, ply + 1);
            lemma_quiesce_moves(e, p, ms2, sc2, i + 1, -v, beta, best2, ply, check, s2);
            lemma_quiesce_moves(e, p, ms2, sc2, i + 1, alpha, beta, best2, ply, check, s2);
        }
    }
}

/// A node of the search counts as visited, with all that is searched below it.
pub proof fn law_negamax_visits<E: Evaluator>(
    e: E,
    prm: SearchParams,
    p: Pos,
    s0: SearchState,
    depth: int,
    alpha: int,
    beta: int,
    ply: int,
    skip_null: bool,
)
    ensures
        negamax(e, prm, p, s0, depth, alpha, beta, ply, skip_null).1.visits > s0.visits,
    decreases
            300 - ply,
            (if s0.se_excluded[ply] is Some {
                0int
            } else {
                1int
            }),
            10int,
            0int,
{
    let s1 = visited(s0);
    let s2 = reached(s1, ply);
    if 0 <= ply < 128 {
        let check = in_check(p, p.side);
        let s3 = if check {
            SearchState { check_extensions: bump(s2.check_extensions), ..s2 }
        } else {
            s2
        };
        let singular = s0.se_excluded[ply] is Some;
        let c = if singular {
            Consulted { score: None, alpha, s: s3 }
        } else {
            consulted(s3, p, alpha, beta, ply)
        };
        let n = Node {
            p,
            depth: if check {
                depth + 1
            } else {
                depth
            },
            alpha: c.alpha,
            alpha_orig: alpha,
            beta,
            ply,
            skip_null,
            check,
            singular,
            hit: c.s.tt.probe(position_key(p)),
        };
        lemma_hash_stage(e, prm, n, c.s);
    }
}

proof fn lemma_hash_stage<E: Evaluator>(e: E, prm: SearchParams, n: Node, s: SearchState)
    ensures
        hash_stage(e, prm, n, s).1.visits >= s.visits,
    decreases 300 - n.ply, n.flag(), 9int, 0int,
{
    let s2 = if n.hit is Some {
        SearchState { tt_hits: bump(s.tt_hits), ..s }
    } else {
        s
    };
    law_quiesce_visits(e, n.p, s2, n.alpha, n.beta, n.ply);
    lemma_null_stage(e, prm, n, s2);
}

proof fn lemma_null_stage<E: Evaluator>(e: E, prm: SearchParams, n: Node, s: SearchState)
    ensures
        null_stage(e, prm, n, s).1.visits >= s.visits,
    decreases 300 - n.ply, n.flag(), 8int, 0int,
{
    if 0 <= n.ply < 128 {
        let s1 = playing(s, n.ply, None);
        let d = best_of(n.depth - (4 + n.depth / 3), 0);
        let (v, s2) = negamax(
            e,
            prm,
            apply_null(n.p),
            s1,
            d,
            -n.beta,
            -n.beta + 1,
            n.ply + 1,
            true,
        );
        law_negamax_visits(
            e,
            prm,
            apply_null(n.p),
            s1,
            d,
            -n.beta,
            -n.beta + 1,
            n.ply + 1,
            true,
        );
        lemma_razor_stage(e, prm, n, s2);
        lemma_razor_stage(e, prm, n, s);
    }
}

/// From razoring on, no node is taken back.
pub proof fn lemma_razor_stage<E: Evaluator>(e: E, prm: SearchParams, n: Node, s: SearchState)
    ensures
        razor_stage(e, prm, n, s).1.visits >= s.visits,
    decreases 300 - n.ply, n.flag(), 7int, 0int,
{
    law_quiesce_visits(e, n.p, s, n.alpha, n.beta, n.ply);
    lemma_probcut_moves(e, prm, n, legal(n.p), 0, s);
    lemma_move_stage(e, prm, n, s);
}

/// The capture is tried with the raised bound.
pub open spec fn probed(prm: SearchParams, n: Node, mv: Move) -> bool {
    mv.captures() && see_score(n.p, mv) + prm.probcut_margin >= 0
}

/// The search of a capture with the raised bound.
pub open spec fn probcut_child<E: Evaluator>(
    e: E,
    prm: SearchParams,
    n: Node,
    mv: Move,
    s: SearchState,
) -> (int, SearchState) {
    let bound = n.beta + prm.probcut_margin;
    negamax(
        e,
        prm,
        apply(n.p, mv),
        descending(s, n.p, n.ply, mv),
        n.depth - 4,
        -bound,
        -bound + 1,
        n.ply + 1,
        false,
    )
}

/// The captures with the raised bound are searched after one another.
pub proof fn lemma_probcut_moves<E: Evaluator>(
    e: E,
    prm: SearchParams,
    n: Node,
    ms: Seq<Move>,
    i: int,
    s: SearchState,
)
    ensures
        ({
            let r = probcut_moves(e, prm, n, ms, i, s).1;
            &&& r.visits >= s.visits
            &&& 0 <= n.ply < 128 && 0 <= i < ms.len() && probed(prm, n, ms[i]) ==> r.visits
                >= probcut_child(e, prm, n, ms[i], s).1.visits
        }),
    decreases 300 - n.ply, n.flag(), 6int, ms.len() - i,
{
    if !(n.ply < 0 || n.ply >= 128 || i < 0) {
        if i >= ms.len() {
            lemma_move_stage(e, prm, n, s);
        } else if !probed(prm, n, ms[i]) {
            lemma_probcut_moves(e, prm, n, ms, i + 1, s);
        } else {
            let mv = ms[i];
            let bound = n.beta + prm.probcut_margin;
            let (v, s2) = probcut_child(e, prm, n, mv, s);
            law_negamax_visits(
                e,
                prm,
                apply(n.p, mv),
                descending(s, n.p, n.ply, mv),
                n.depth - 4,
                -bound,
                -bound + 1,
                n.ply + 1,
                false,
            );
            lemma_probcut_moves(e, prm, n, ms, i + 1, returning(s2));
        }
    }
}

proof fn lemma_move_stage<E: Evaluator>(e: E, prm: SearchParams, n: Node, s: SearchState)
    ensures
        move_stage(e, prm, n, s).1.visits >= s.visits,
    decreases 300 - n.ply, n.flag(), 5int, 0int,
{
    let ms = legal(n.p);
    let c = context_of(s, n.p, n.ply);
    lemma_search_moves(
        e,
        prm,
        n,
        c,
        futility_base(e, prm, n),
        ms,
        node_values(s, c, n.p, n.ply, n.hash_move(), ms),
        0,
        n.alpha,
        -INFINITY as int,
        None,
        s,
    );
}

proof fn lemma_blamed(s: SearchState, c: Context, p: Pos, ms: Seq<Move>, depth: int, n: int)
    ensures
        blamed(s, c, p, ms, depth, n).visits == s.visits,
    decreases n,
{
    if n > 0 {
        lemma_blamed(s, c, p, ms, depth, n - 1);
    }
}

proof fn lemma_cutoff(s: SearchState, c: Context, n: Node, ms: Seq<Move>, i: int, mv: Move)
    ensures
        cutoff(s, c, n, ms, i, mv).visits == s.visits,
{
    assert forall|t: SearchState| #[trigger] blamed(t, c, n.p, ms, n.depth, i).visits
        == t.visits by {
        lemma_blamed(t, c, n.p, ms, n.depth, i);
    }
}

/// One move of a node: whether it is extended, and its search.
#[verifier::opaque]
pub open spec fn one_move<E: Evaluator>(
    e: E,
    prm: SearchParams,
    n: Node,
    i: int,
    mv: Move,
    alpha: int,
    s: SearchState,
) -> (int, SearchState) {
    let (ext, s1) = extension(e, prm, n, mv, s);
    let (score, s2) = search_child(
        e,
        prm,
        n,
        i,
        mv,
        alpha,
        ext,
        descending(s1, n.p, n.ply, mv),
    );
    (score, returning(s2))
}

/// A move is searched after it is found out whether it is extended.
pub proof fn lemma_one_move<E: Evaluator>(
    e: E,
    prm: SearchParams,
    n: Node,
    i: int,
    mv: Move,
    alpha: int,
    s: SearchState,
)
    ensures
        ({
            let r = one_move(e, prm, n, i, mv, alpha, s).1;
            r.visits >= s.visits && r.visits >= extension(e, prm, n, mv, s).1.visits
        }),
    decreases 300 - n.ply, n.flag(), 4int, 0int,
{
    reveal(one_move);
    let (ext, s1) = extension(e, prm, n, mv, s);
    lemma_extension(e, prm, n, mv, s);
    lemma_search_child(e, prm, n, i, mv, alpha, ext, descending(s1, n.p, n.ply, mv));
}

/// The moves of a node are searched after one another.
pub proof fn lemma_search_moves<E: Evaluator>(
    e: E,
    prm: SearchParams,
    n: Node,
    c: Context,
    base: Option<int>,
    ms: Seq<Move>,
    sc: Seq<i32>,
    i: int,
    alpha: int,
    best: int,
    best_move: Option<Move>,
    s: SearchState,
)
    ensures
        ({
            let r = search_moves(e, prm, n, c, base, ms, sc, i, alpha, best, best_move, s).1;
            let mv = picked_moves(ms, sc, i)[i];
            &&& r.visits >= s.visits
            &&& 0 <= i < ms.len() && 0 <= n.ply < 128 && !skipped(
                prm,
                n,
                base,
                s,
                mv,
                i,
                alpha,
                best,
            ) ==> r.visits >= one_move(e, prm, n, i, mv, alpha, s).1.visits
        }),
    decreases 300 - n.ply, n.flag(), 4int, ms.len() - i,
{
    if !(i >= ms.len() || i < 0 || n.ply < 0 || n.ply >= 128) {
        let ms2 = picked_moves(ms, sc, i);
        let sc2 = picked_scores(sc, i);
        let mv = ms2[i];
        if skipped(prm, n, base, s, mv, i, alpha, best) {
            lemma_search_moves(e, prm, n, c, base, ms2, sc2, i + 1, alpha, best, best_move, s);
        } else {
            reveal(one_move);
            let (score, s3) = one_move(e, prm, n, i, mv, alpha, s);
            lemma_one_move(e, prm, n, i, mv, alpha, s);
            lemma_cutoff(s3, c, n, ms2, i, mv);
            lemma_search_moves(e, prm, n, c, base, ms2, sc2, i + 1, score, score, Some(mv), s3);
            lemma_search_moves(e, prm, n, c, base, ms2, sc2, i + 1, alpha, score, Some(mv), s3);
            lemma_search_moves(e, prm, n, c, base, ms2, sc2, i + 1, alpha, best, best_move, s3);
        }
    }
}

/// What the moves of a node come to.
#[verifier::opaque]
pub open spec fn stage_of<E: Evaluator>(e: E, prm: SearchParams, n: Node, s: SearchState) -> (
    int,
    SearchState,
) {
    move_stage(e, prm, n, s)
}

/// What the moves of a node from number `i` on come to.
#[verifier::opaque]
pub open spec fn moves_from<E: Evaluator>(
    e: E,
    prm: SearchParams,
    n: Node,
    c: Context,
    base: Option<int>,
    ms: Seq<Move>,
    sc: Seq<i32>,
    i: int,
    alpha: int,
    best: int,
    best_move: Option<Move>,
    s: SearchState,
) -> (int, SearchState) {
    search_moves(e, prm, n, c, base, ms, sc, i, alpha, best, best_move, s)
}

/// One step through the moves of a node.
pub proof fn lemma_moves_step<E: Evaluator>(
    e: E,
    prm: SearchParams,
    n: Node,
    c: Context,
    base: Option<int>,
    ms: Seq<Move>,
    sc: Seq<i32>,
    i: int,
    alpha: int,
    best: int,
    best_move: Option<Move>,
    s: SearchState,
)
    requires
        0 <= i < ms.len(),
        0 <= n.ply < 128,
    ensures
        ({
            let here = moves_from(e, prm, n, c, base, ms, sc, i, alpha, best, best_move, s);
            let ms2 = picked_moves(ms, sc, i);
            let sc2 = picked_scores(sc, i);
            let mv = ms2[i];
            let j = i + 1;
            if skipped(prm, n, base, s, mv, i, alpha, best) {
                here == moves_from(e, prm, n, c, base, ms2, sc2, j, alpha, best, best_move, s)
            } else {
                let (v, t) = one_move(e, prm, n, i, mv, alpha, s);
                let m = Some(mv);
                &&& here.1.visits >= t.visits
                &&& here == (if v <= best {
                    moves_from(e, prm, n, c, base, ms2, sc2, j, alpha, best, best_move, t)
                } else if v <= alpha {
                    moves_from(e, prm, n, c, base, ms2, sc2, j, alpha, v, m, t)
                } else if v < n.beta {
                    moves_from(e, prm, n, c, base, ms2, sc2, j, v, v, m, t)
                } else {
                    finished(n, v, m, cutoff(t, c, n, ms2, i, mv))
                })
            }
        }),
{
    reveal(moves_from);
    reveal(one_move);
    lemma_search_moves(e, prm, n, c, base, ms, sc, i, alpha, best, best_move, s);
}

/// After the last move the result is stored.
pub proof fn lemma_moves_end<E: Evaluator>(
    e: E,
    prm: SearchParams,
    n: Node,
    c: Context,
    base: Option<int>,
    ms: Seq<Move>,
    sc: Seq<i32>,
    alpha: int,
    best: int,
    best_move: Option<Move>,
    s: SearchState,
)
    ensures
        moves_from(e, prm, n, c, base, ms, sc, ms.len() as int, alpha, best, best_move, s)
            == finished(n, best, best_move, s),
{
    reveal(moves_from);
}

/// The moves of a node are searched from the first one on.
pub proof fn lemma_moves_start<E: Evaluator>(e: E, prm: SearchParams, n: Node, s: SearchState)
    requires
        legal(n.p).len() > 0,
    ensures
        ({
            let c = context_of(s, n.p, n.ply);
            stage_of(e, prm, n, s) == moves_from(
                e,
                prm,
                n,
                c,
                futility_base(e, prm, n),
                legal(n.p),
                node_values(s, c, n.p, n.ply, n.hash_move(), legal(n.p)),
                0,
                n.alpha,
                -INFINITY as int,
                None,
                s,
            )
        }),
{
    reveal(stage_of);
    reveal(moves_from);
}

proof fn lemma_extension<E: Evaluator>(e: E, prm: SearchParams, n: Node, mv: Move, s: SearchState)
    ensures
        extension(e, prm, n, mv, s).1.visits >= s.visits,
    decreases 300 - n.ply, n.flag(), 3int, 0int,
{
    if tests_singular(n, mv) && 0 <= n.ply < s.se_excluded.len() {
        let bound = singular_beta(prm, n);
        law_negamax_visits(
            e,
            prm,
            n.p,
            SearchState { se_excluded: s.se_excluded.update(n.ply, Some(mv)), ..s },
            n.depth / 2,
            bound - 1,
            bound,
            n.ply,
            true,
        );
    }
}

/// The first search of a move, which others may follow.
pub open spec fn first_try<E: Evaluator>(
    e: E,
    prm: SearchParams,
    n: Node,
    i: int,
    mv: Move,
    alpha: int,
    s: SearchState,
) -> (int, SearchState) {
    negamax(
        e,
        prm,
        apply(n.p, mv),
        s,
        best_of(n.depth - 1 - reduction_of(n, s, mv, i), 0),
        -alpha - 1,
        -alpha,
        n.ply + 1,
        false,
    )
}

/// The second search of a move, at full depth.
pub open spec fn second_try<E: Evaluator>(
    e: E,
    prm: SearchParams,
    n: Node,
    mv: Move,
    alpha: int,
    s: SearchState,
) -> (int, SearchState) {
    negamax(
        e,
        prm,
        apply(n.p, mv),
        SearchState { researches: bump(s.researches), ..s },
        n.depth - 1,
        -alpha - 1,
        -alpha,
        n.ply + 1,
        false,
    )
}

/// The searches of a move follow one another.
pub proof fn lemma_search_child<E: Evaluator>(
    e: E,
    prm: SearchParams,
    n: Node,
    i: int,
    mv: Move,
    alpha: int,
    ext: int,
    s: SearchState,
)
    ensures
        ({
            let r = search_child(e, prm, n, i, mv, alpha, ext, s).1;
            let (v1, s1) = first_try(e, prm, n, i, mv, alpha, s);
            &&& r.visits >= s.visits
            &&& 0 <= n.ply < 128 && i != 0 ==> {
                &&& r.visits >= s1.visits
                &&& reduction_of(n, s, mv, i) > 0 && -v1 > alpha ==> r.visits >= second_try(
                    e,
                    prm,
                    n,
                    mv,
                    alpha,
                    s1,
                ).1.visits
            }
        }),
    decreases 300 - n.ply, n.flag(), 3int, 0int,
{
    let q = apply(n.p, mv);
    if 0 <= n.ply < 128 {
        law_negamax_visits(
            e,
            prm,
            q,
            s,
            n.depth - 1 + ext,
            -n.beta,
            -alpha,
            n.ply + 1,
            false,
        );
        let cut = reduction_of(n, s, mv, i);
        law_negamax_visits(
            e,
            prm,
            q,
            s,
            best_of(n.depth - 1 - cut, 0),
            -alpha - 1,
            -alpha,
            n.ply + 1,
            false,
        );
        let (v1, s1) = first_try(e, prm, n, i, mv, alpha, s);
        law_negamax_visits(
            e,
            prm,
            q,
            SearchState { researches: bump(s1.researches), ..s1 },
            n.depth - 1,
            -alpha - 1,
            -alpha,
            n.ply + 1,
            false,
        );
        let (v2, s2) = if cut > 0 && -v1 > alpha {
            second_try(e, prm, n, mv, alpha, s1)
        } else {
            (v1, s1)
        };
        law_negamax_visits(
            e,
            prm,
            q,
            SearchState { researches: bump(s2.researches), ..s2 },
            n.depth - 1,
            -n.beta,
            -alpha,
            n.ply + 1,
            false,
        );
    }
}

/// The searches of a root move follow one another.
pub proof fn lemma_root_child<E: Evaluator>(
    e: E,
    prm: SearchParams,
    p: Pos,
    depth: int,
    i: int,
    mv: Move,
    alpha: int,
    beta: int,
    s0: SearchState,
)
    ensures
        ({
            let r = root_child(e, prm, p, depth, i, mv, alpha, beta, s0).1;
            &&& r.visits >= s0.visits
            &&& i != 0 ==> r.visits >= negamax(
                e,
                prm,
                apply(p, mv),
                descending(s0, p, 0, mv),
                depth - 1,
                -alpha - 1,
                -alpha,
                1,
                false,
            ).1.visits
        }),
{
    let s = descending(s0, p, 0, mv);
    let q = apply(p, mv);
    law_negamax_visits(e, prm, q, s, depth - 1, -beta, -alpha, 1, false);
    law_negamax_visits(e, prm, q, s, depth - 1, -alpha - 1, -alpha, 1, false);
    let (v1, s1) = negamax(e, prm, q, s, depth - 1, -alpha - 1, -alpha, 1, false);
    law_negamax_visits(
        e,
        prm,
        q,
        SearchState { researches: bump(s1.researches), ..s1 },
        depth - 1,
        -beta,
        -alpha,
        1,
        false,
    );
}

/// The root moves are searched after one another.
pub proof fn lemma_root_moves<E: Evaluator>(
    e: E,
    prm: SearchParams,
    p: Pos,
    depth: int,
    excluded: Seq<Move>,
    beta: int,
    ms: Seq<Move>,
    sc: Seq<i32>,
    i: int,
    alpha: int,
    best: int,
    best_move: Option<Move>,
    s: SearchState,
)
    ensures
        ({
            let r = root_moves(
                e,
                prm,
                p,
                depth,
                excluded,
                beta,
                ms,
                sc,
                i,
                alpha,
                best,
                best_move,
                s,
            ).2;
            let mv = picked_moves(ms, sc, i)[i];
            &&& r.visits >= s.visits
            &&& 0 <= i < ms.len() && !excluded.contains(mv) ==> r.visits >= root_child(
                e,
                prm,
                p,
                depth,
                i,
                mv,
                alpha,
                beta,
                s,
            ).1.visits
        }),
    decreases ms.len() - i,
{
    if !(i >= ms.len() || i < 0) {
        let ms2 = picked_moves(ms, sc, i);
        let sc2 = picked_scores(sc, i);
        let mv = ms2[i];
        let j = i + 1;
        if excluded.contains(mv) {
            lemma_root_moves(
                e,
                prm,
                p,
                depth,
                excluded,
                beta,
                ms2,
                sc2,
                j,
                alpha,
                best,
                best_move,
                s,
            );
        } else {
            let (v, s1) = root_child(e, prm, p, depth, i, mv, alpha, beta, s);
            let m = Some(mv);
            lemma_root_child(e, prm, p, depth, i, mv, alpha, beta, s);
            lemma_root_moves(e, prm, p, depth, excluded, beta, ms2, sc2, j, v, v, m, s1);
            lemma_root_moves(e, prm, p, depth, excluded, beta, ms2, sc2, j, alpha, v, m, s1);
            lemma_root_moves(
                e,
                prm,
                p,
                depth,
                excluded,
                beta,
                ms2,
                sc2,
                j,
                alpha,
                best,
                best_move,
                s1,
            );
        }
    }
}

/// A search of the root takes back no node.
pub proof fn law_root_visits<E: Evaluator>(
    e: E,
    prm: SearchParams,
    p: Pos,
    s: SearchState,
    depth: int,
    pv_move: Option<Move>,
    excluded: Seq<Move>,
    alpha: int,
    beta: int,
)
    ensures
        root(e, prm, p, s, depth, pv_move, excluded, alpha, beta).2.visits >= s.visits,
{
    let ms = legal(p);
    lemma_root_moves(
        e,
        prm,
        p,
        depth,
        excluded,
        beta,
        ms,
        root_values(s, p, root_hash_move(s, p, pv_move), ms),
        0,
        alpha,
        -INFINITY as int,
        None,
        s,
    );
}

} // verus!
