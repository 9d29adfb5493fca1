//! What holds of every search.

use crate::board::{position_key, Pos};
use crate::eval::evaluator::Evaluator;
use crate::movegen::generate::in_check;
use crate::movegen::legal::{checkmated, legal};
use crate::movegen::make_move::apply;
use crate::movegen::moves::Move;
use crate::search::model::{
    best_of, bump, capture_values, drawn, move_stage, negamax, null_stage, picked_moves,
    picked_scores, quiesce, quiesce_moves, razor_stage, reached, visited, Node, SearchState,
};
use crate::search::ordering::magnitude;
use crate::search::params::SearchParams;
use crate::search::{mate_score, MATE};
use crate::tablebase::few_enough;
use vstd::prelude::*;

verus! {

/// Below the root, a position that is drawn by rule or for want of material
/// scores 0, whatever the depth and the window.
pub proof fn law_draws_score_zero<E: Evaluator>(
    e: E,
    prm: SearchParams,
    p: Pos,
    s: SearchState,
    depth: int,
    alpha: int,
    beta: int,
    ply: int,
    skip_null: bool,
)
    requires
        ply > 0,
        drawn(s, p),
    ensures
        negamax(e, prm, p, s, depth, alpha, beta, ply, skip_null).0 == 0,
{
}

/// A checkmated position that the table does not have and that no tablebase is
/// asked about scores as a mate at its
/// ply, whatever the depth and the window.
pub proof fn law_checkmate_scores_mate<E: Evaluator>(
    e: E,
    prm: SearchParams,
    p: Pos,
    s: SearchState,
    depth: int,
    alpha: int,
    beta: int,
    ply: int,
    skip_null: bool,
)
    requires
        checkmated(p),
        0 <= ply < 128,
        depth >= 0,
        ply > 0 ==> !drawn(s, p),
        s.tt.probe(position_key(p)) is None,
        !s.oracle.on || !few_enough(s.oracle.limit, p),
    ensures
        negamax(e, prm, p, s, depth, alpha, beta, ply, skip_null).0 == -MATE + ply,
{
    let s2 = reached(visited(s), ply);
    let s3 = SearchState { check_extensions: bump(s2.check_extensions), ..s2 };
    let n = Node {
        p,
        depth: depth + 1,
        alpha,
        alpha_orig: alpha,
        beta,
        ply,
        skip_null,
        check: true,
        singular: s.se_excluded[ply] is Some,
        hit: None,
    };
    assert(move_stage(e, prm, n, s3).0 == -MATE + ply);
    assert(razor_stage(e, prm, n, s3) == move_stage(e, prm, n, s3));
    assert(null_stage(e, prm, n, s3) == razor_stage(e, prm, n, s3));
    assert(negamax(e, prm, p, s, depth, alpha, beta, ply, skip_null) == null_stage(
        e,
        prm,
        n,
        s3,
    ));
}

/// Quiescence scores a checkmated position as a mate at its ply.
pub proof fn law_quiet_checkmate<E: Evaluator>(
    e: E,
    p: Pos,
    s: SearchState,
    alpha: int,
    beta: int,
    ply: int,
)
    requires
        checkmated(p),
        0 <= ply < 128,
    ensures
        quiesce(e, p, s, alpha, beta, ply).0 == -MATE + ply,
{
}

proof fn lemma_best_never_falls<E: Evaluator>(
    e: E,
    p: Pos,
    ms: Seq<Move>,
    sc: Seq<i32>,
    i: int,
    alpha: int,
    beta: int,
    best: int,
    ply: int,
    check: bool,
    s: SearchState,
)
    ensures
        quiesce_moves(e, p, ms, sc, i, alpha, beta, best, ply, check, s).0 >= best,
    decreases ms.len() - i,
{
    if !(i >= ms.len() || i < 0 || ply >= 128) {
        let ms2 = picked_moves(ms, sc, i);
        let sc2 = picked_scores(sc, i);
        let mv = ms2[i];
        let (v, s2) = quiesce(
            e,
            apply(p, mv),
            s,
            -beta,
            -alpha,
            ply + 1,
        );
        let best2 = best_of(best, -v);
        lemma_best_never_falls(e, p, ms2, sc2, i + 1, alpha, beta, best, ply, check, s);
        lemma_best_never_falls(e, p, ms2, sc2, i + 1, -v, beta, best2, ply, check, s2);
        lemma_best_never_falls(e, p, ms2, sc2, i + 1, alpha, beta, best2, ply, check, s2);
    }
}

/// The side to move is never forced to capture: when it is not in check and can
/// move, quiescence gives it at least the static evaluation.
pub proof fn law_stand_pat<E: Evaluator>(
    e: E,
    p: Pos,
    s: SearchState,
    alpha: int,
    beta: int,
    ply: int,
)
    requires
        !in_check(p, p.side),
        legal(p).len() > 0,
    ensures
        quiesce(e, p, s, alpha, beta, ply).0 >= e.score(p),
{
    let s1 = reached(visited(s), ply);
    let stand = e.score(p);
    let ms = legal(p);
    lemma_best_never_falls(
        e,
        p,
        ms,
        capture_values(p, ms),
        0,
        if stand > alpha {
            stand
        } else {
            alpha
        },
        beta,
        stand,
        ply,
        false,
        s1,
    );
}

/// A mate `n` plies away scores `MATE - n`: a mate score, from which the distance
/// is read back, and the higher the nearer.
pub proof fn law_mate_distance(n: int, m: int)
    requires
        0 <= n < 1000,
        n < m,
    ensures
        mate_score(MATE - n),
        mate_score(-(MATE - n)),
        MATE - magnitude(MATE - n) == n,
        MATE - magnitude(-(MATE - n)) == n,
        MATE - n > MATE - m,
{
}

} // verus!
