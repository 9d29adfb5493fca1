//! What quiescence and the root search return.

use crate::board::Pos;
use crate::eval::evaluator::{Evaluator, HandcraftedEvaluator};
use crate::movegen::generate::in_check;
use crate::movegen::legal::legal;
use crate::movegen::make_move::apply;
use crate::movegen::moves::Move;
use crate::search::INFINITY;
use crate::search::model::{
    argmax, best_of, bump, capture_values, context_of, descending, extension, futility_base,
    move_stage, negamax, node_values, picked_moves, picked_scores, quiesce, quiesce_moves,
    razor_stage, reached, reduction_of, returning, root, root_child, root_hash_move, root_moves,
    root_values, search_child, search_moves, skipped, visited, Context, Node, SearchState,
};
use crate::search::negamax::fresh_state;
use crate::search::node_laws::lemma_argmax;
use crate::search::ordering::capture_value;
use crate::search::params::SearchParams;
use crate::search::root::fixed_depth;
use crate::search::see::{law_see_bounds, see_score};
use crate::search::tt::{empty_table, floor_pow2, wanted_clusters};
use vstd::prelude::*;

verus! {

/// The score of quiescence does not depend on what the search has seen before.
pub proof fn law_quiescence_forgets<E: Evaluator>(
    e: E,
    p: Pos,
    s: SearchState,
    t: SearchState,
    alpha: int,
    beta: int,
    ply: int,
)
    ensures
        quiesce(e, p, s, alpha, beta, ply).0 == quiesce(e, p, t, alpha, beta, ply).0,
    decreases 300 - ply, 1int, 0int,
{
    if ply < 128 {
        let check = in_check(p, p.side);
        let stand = e.score(p);
        let ms = legal(p);
        let best = if check {
            -INFINITY as int
        } else {
            stand
        };
        let a = if !check && stand > alpha {
            stand
        } else {
            alpha
        };
        let (x, y) = (reached(visited(s), ply), reached(visited(t), ply));
        lemma_moves_forget(e, p, ms, capture_values(p, ms), 0, a, beta, best, ply, check, x, y);
    }
}

proof fn lemma_moves_forget<E: Evaluator>(
    e: E,
    p: Pos,
    ms: Seq<Move>,
    sc: Seq<i32>,
    i: int,
    alpha: int,
    beta: int,
    best: int,
    ply: int,
    check: bool,
    s: SearchState,
    t: SearchState,
)
    ensures
        quiesce_moves(e, p, ms, sc, i, alpha, beta, best, ply, check, s).0 == quiesce_moves(
            e,
            p,
            ms,
            sc,
            i,
            alpha,
            beta,
            best,
            ply,
            check,
            t,
        ).0,
    decreases 300 - ply, 0int, ms.len() - i,
{
    if 0 <= i < ms.len() && ply < 128 {
        let (m2, c2) = (picked_moves(ms, sc, i), picked_scores(sc, i));
        let mv = m2[i];
        law_quiescence_forgets(e, apply(p, mv), s, t, -beta, -alpha, ply + 1);
        let (v, x) = quiesce(e, apply(p, mv), s, -beta, -alpha, ply + 1);
        let y = quiesce(e, apply(p, mv), t, -beta, -alpha, ply + 1).1;
        let b = if best >= -v {
            best
        } else {
            -v
        };
        lemma_moves_forget(e, p, m2, c2, i + 1, alpha, beta, best, ply, check, s, t);
        lemma_moves_forget(e, p, m2, c2, i + 1, -v, beta, b, ply, check, x, y);
        lemma_moves_forget(e, p, m2, c2, i + 1, alpha, beta, b, ply, check, x, y);
    }
}

/// Quiescence tries a move: every one in check, and otherwise promotions and captures, but
/// no capture that loses material.
pub open spec fn is_tried(p: Pos, m: Move) -> bool {
    in_check(p, p.side) || (m.captures() && see_score(p, m) >= 0) || (m.promotes() && !m.captures())
}

/// The scores are the ordering scores of the moves.
spec fn agree(p: Pos, ms: Seq<Move>, sc: Seq<i32>) -> bool {
    ms.len() == sc.len() && forall|k: int|
        0 <= k < ms.len() ==> #[trigger] sc[k] == capture_value(p, ms[k])
}

proof fn lemma_agree(p: Pos, ms: Seq<Move>, sc: Seq<i32>, i: int)
    requires
        agree(p, ms, sc),
        0 <= i < ms.len(),
    ensures
        agree(p, picked_moves(ms, sc, i), picked_scores(sc, i)),
{
    lemma_perm(ms, sc, i);
    let j = argmax(sc, i, sc.len() - 1);
    let (m2, c2) = (picked_moves(ms, sc, i), picked_scores(sc, i));
    assert forall|k: int| 0 <= k < m2.len() implies #[trigger] c2[k] == capture_value(p, m2[k]) by {
        if k != i && k != j {
            assert(m2[k] == ms[k]);
        }
    }
}

/// The score of the moves of a quiescence node from number `i` on.
#[verifier::opaque]
spec fn rest_score<E: Evaluator>(
    e: E,
    p: Pos,
    ms: Seq<Move>,
    sc: Seq<i32>,
    i: int,
    alpha: int,
    beta: int,
    best: int,
    ply: int,
    s: SearchState,
) -> int {
    quiesce_moves(e, p, ms, sc, i, alpha, beta, best, ply, in_check(p, p.side), s).0
}

/// The score and the state after a move of a quiescence node.
#[verifier::opaque]
spec fn child<E: Evaluator>(
    e: E,
    p: Pos,
    m: Move,
    s: SearchState,
    alpha: int,
    beta: int,
    ply: int,
) -> (int, SearchState) {
    let (v, x) = quiesce(e, apply(p, m), s, -beta, -alpha, ply + 1);
    (-v, x)
}

spec fn higher(a: int, b: int) -> int {
    if a >= b {
        a
    } else {
        b
    }
}

proof fn lemma_rest_step<E: Evaluator>(
    e: E,
    p: Pos,
    ms: Seq<Move>,
    sc: Seq<i32>,
    i: int,
    alpha: int,
    beta: int,
    best: int,
    ply: int,
    s: SearchState,
)
    requires
        0 <= i < ms.len(),
        ply < 128,
    ensures
        ({
            let (m2, c2) = (picked_moves(ms, sc, i), picked_scores(sc, i));
            let mv = m2[i];
            let (v, x) = child(e, p, mv, s, alpha, beta, ply);
            let b = higher(best, v);
            let r = rest_score(e, p, ms, sc, i, alpha, beta, best, ply, s);
            if !is_tried(p, mv) {
                if !mv.captures() || best + 900 < alpha {
                    r == best
                } else {
                    r == rest_score(e, p, m2, c2, i + 1, alpha, beta, best, ply, s)
                }
            } else if v > alpha && v >= beta {
                r == b
            } else {
                r == rest_score(e, p, m2, c2, i + 1, higher(v, alpha), beta, b, ply, x)
            }
        }),
{
    reveal(rest_score);
    reveal(child);
}

proof fn lemma_never_less<E: Evaluator>(
    e: E,
    p: Pos,
    ms: Seq<Move>,
    sc: Seq<i32>,
    i: int,
    alpha: int,
    beta: int,
    best: int,
    ply: int,
    s: SearchState,
)
    ensures
        rest_score(e, p, ms, sc, i, alpha, beta, best, ply, s) >= best,
    decreases ms.len() - i,
{
    if 0 <= i < ms.len() && ply < 128 {
        lemma_rest_step(e, p, ms, sc, i, alpha, beta, best, ply, s);
        let (m2, c2) = (picked_moves(ms, sc, i), picked_scores(sc, i));
        let (v, x) = child(e, p, m2[i], s, alpha, beta, ply);
        let a2 = higher(v, alpha);
        lemma_never_less(e, p, m2, c2, i + 1, alpha, beta, best, ply, s);
        lemma_never_less(e, p, m2, c2, i + 1, a2, beta, higher(best, v), ply, x);
    } else {
        reveal(rest_score);
    }
}

proof fn lemma_child<E: Evaluator>(
    e: E,
    p: Pos,
    m: Move,
    s: SearchState,
    t: SearchState,
    alpha: int,
    beta: int,
    ply: int,
)
    ensures
        child(e, p, m, s, alpha, beta, ply).0 == quiet_score(e, p, m, t, alpha, beta, ply),
        quiet_score(e, p, m, s, alpha, beta, ply) == quiet_score(e, p, m, t, alpha, beta, ply),
{
    reveal(child);
    reveal(quiet_score);
    law_quiescence_forgets(e, apply(p, m), s, t, -beta, -alpha, ply + 1);
}

/// What a move scores in quiescence, with the window turned around.
#[verifier::opaque]
pub open spec fn quiet_score<E: Evaluator>(
    e: E,
    p: Pos,
    m: Move,
    s: SearchState,
    alpha: int,
    beta: int,
    ply: int,
) -> int {
    -quiesce(e, apply(p, m), s, -beta, -alpha, ply + 1).0
}

proof fn lemma_tried_counts<E: Evaluator>(
    e: E,
    p: Pos,
    ms: Seq<Move>,
    sc: Seq<i32>,
    i: int,
    alpha: int,
    beta: int,
    best: int,
    ply: int,
    s: SearchState,
    m: Move,
    k: int,
    t: SearchState,
)
    requires
        agree(p, ms, sc),
        0 <= i <= k < ms.len(),
        ms[k] == m,
        is_tried(p, m),
        ply < 128,
        alpha < beta,
        !in_check(p, p.side) ==> alpha <= best + 900,
    ensures
        ({
            let v = rest_score(e, p, ms, sc, i, alpha, beta, best, ply, s);
            v >= beta || exists|a: int|
                alpha <= a < beta && v >= #[trigger] quiet_score(e, p, m, t, a, beta, ply)
        }),
    decreases ms.len() - i,
{
    let (m2, c2) = (picked_moves(ms, sc, i), picked_scores(sc, i));
    let mv = m2[i];
    let j = argmax(sc, i, sc.len() - 1);
    lemma_agree(p, ms, sc, i);
    lemma_perm(ms, sc, i);
    lemma_rest_step(e, p, ms, sc, i, alpha, beta, best, ply, s);
    let h = if k == j {
        i
    } else if k == i {
        j
    } else {
        k
    };
    assert(m2[h] == m);
    let (v, x) = child(e, p, mv, s, alpha, beta, ply);
    let b = higher(best, v);
    if !is_tried(p, mv) {
        assert(mv != m);
        assert(h > i);
        if !mv.captures() {
            assert(sc[k] <= c2[i]);
            lemma_order(p, m, mv);
        }
        lemma_tried_counts(e, p, m2, c2, i + 1, alpha, beta, best, ply, s, m, h, t);
    } else {
        let a2 = higher(v, alpha);
        lemma_never_less(e, p, m2, c2, i + 1, a2, beta, b, ply, x);
        if mv == m {
            lemma_child(e, p, m, s, t, alpha, beta, ply);
            assert(quiet_score(e, p, m, t, alpha, beta, ply) == v);
        } else if v < beta {
            lemma_tried_counts(e, p, m2, c2, i + 1, a2, beta, b, ply, x, m, h, t);
            let w = rest_score(e, p, m2, c2, i + 1, a2, beta, b, ply, x);
            if w < beta {
                let a = choose|a: int|
                    a2 <= a < beta && w >= #[trigger] quiet_score(e, p, m, t, a, beta, ply);
                assert(w >= quiet_score(e, p, m, t, a, beta, ply));
            }
        }
    }
}

/// A move that is tried out of check comes before every move that neither captures nor
/// promotes.
proof fn lemma_order(p: Pos, m: Move, q: Move)
    requires
        !in_check(p, p.side),
        is_tried(p, m),
        !is_tried(p, q),
        !q.captures(),
    ensures
        capture_value(p, m) > capture_value(p, q),
{
}

/// Quiescence takes every move into account that it tries: its score reaches beta or is no
/// less than what the move scores, unless alpha is out of reach by more than a queen.
pub proof fn law_tried_moves_count<E: Evaluator>(
    e: E,
    p: Pos,
    s: SearchState,
    alpha: int,
    beta: int,
    ply: int,
    m: Move,
)
    requires
        0 <= ply < 128,
        alpha < beta,
        legal(p).contains(m),
        is_tried(p, m),
        !in_check(p, p.side) ==> alpha <= e.score(p) + 900,
    ensures
        ({
            let v = quiesce(e, p, s, alpha, beta, ply).0;
            v >= beta || exists|a: int|
                alpha <= a < beta && v >= #[trigger] quiet_score(e, p, m, s, a, beta, ply)
        }),
{
    let check = in_check(p, p.side);
    let stand = e.score(p);
    if check || stand < beta {
        let ms = legal(p);
        let best = if check {
            -INFINITY as int
        } else {
            stand
        };
        let a0 = if !check && stand > alpha {
            stand
        } else {
            alpha
        };
        let x = reached(visited(s), ply);
        let k = choose|k: int| 0 <= k < ms.len() && ms[k] == m;
        let sc = capture_values(p, ms);
        assert forall|h: int| 0 <= h < ms.len() implies #[trigger] sc[h] == capture_value(
            p,
            ms[h],
        ) by {
            law_see_bounds(p, ms[h]);
        }
        lemma_tried_counts(e, p, ms, sc, 0, a0, beta, best, ply, x, m, k, s);
        reveal(rest_score);
        let v = rest_score(e, p, ms, sc, 0, a0, beta, best, ply, x);
        assert(v == quiesce(e, p, s, alpha, beta, ply).0);
        if v < beta {
            let a = choose|a: int|
                a0 <= a < beta && v >= #[trigger] quiet_score(e, p, m, s, a, beta, ply);
            assert(v >= quiet_score(e, p, m, s, a, beta, ply));
        }
    }
}

/// Nothing but a tried move gives more than the best so far.
proof fn lemma_from_tried<E: Evaluator>(
    e: E,
    p: Pos,
    ms: Seq<Move>,
    sc: Seq<i32>,
    i: int,
    alpha: int,
    beta: int,
    best: int,
    ply: int,
    s: SearchState,
    t: SearchState,
)
    requires
        agree(p, ms, sc),
        0 <= i,
        forall|k: int| 0 <= k < ms.len() ==> legal(p).contains(#[trigger] ms[k]),
    ensures
        ({
            let v = rest_score(e, p, ms, sc, i, alpha, beta, best, ply, s);
            v == best || from_a_move(e, p, v, t, beta, ply)
        }),
    decreases ms.len() - i,
{
    if i < ms.len() && ply < 128 {
        let (m2, c2) = (picked_moves(ms, sc, i), picked_scores(sc, i));
        let mv = m2[i];
        let j = argmax(sc, i, sc.len() - 1);
        lemma_agree(p, ms, sc, i);
        lemma_perm(ms, sc, i);
        lemma_rest_step(e, p, ms, sc, i, alpha, beta, best, ply, s);
        assert forall|k: int| 0 <= k < m2.len() implies legal(p).contains(#[trigger] m2[k]) by {
            if k != i && k != j {
                assert(legal(p).contains(ms[k]));
            } else {
                assert(legal(p).contains(ms[i]) && legal(p).contains(ms[j]));
            }
        }
        assert(legal(p).contains(m2[i]));
        let (v, x) = child(e, p, mv, s, alpha, beta, ply);
        let b = higher(best, v);
        if !is_tried(p, mv) {
            lemma_from_tried(e, p, m2, c2, i + 1, alpha, beta, best, ply, s, t);
        } else {
            lemma_child(e, p, mv, s, t, alpha, beta, ply);
            assert(quiet_score(e, p, mv, t, alpha, beta, ply) == v);
            assert(from_a_move(e, p, v, t, beta, ply));
            lemma_from_tried(e, p, m2, c2, i + 1, higher(v, alpha), beta, b, ply, x, t);
        }
    } else {
        reveal(rest_score);
    }
}

/// The score is that of a legal move that quiescence tries, in some window.
pub open spec fn from_a_move<E: Evaluator>(
    e: E,
    p: Pos,
    v: int,
    s: SearchState,
    beta: int,
    ply: int,
) -> bool {
    exists|m: Move, a: int|
        legal(p).contains(m) && is_tried(p, m) && v == #[trigger] quiet_score(
            e,
            p,
            m,
            s,
            a,
            beta,
            ply,
        )
}

/// The score of quiescence is that of leaving the position as it is, out of check, or that of
/// a move that it tries; without legal moves it is that of mate or stalemate, and beyond the
/// last ply the evaluation. In check the position cannot be left as it is.
pub proof fn law_where_scores_come_from<E: Evaluator>(
    e: E,
    p: Pos,
    s: SearchState,
    alpha: int,
    beta: int,
    ply: int,
)
    requires
        0 <= ply,
    ensures
        ({
            let v = quiesce(e, p, s, alpha, beta, ply).0;
            let check = in_check(p, p.side);
            ||| ply >= 128 && v == e.score(p)
            ||| !check && v == e.score(p)
            ||| legal(p).len() == 0 && check && v == -29_000 + ply
            ||| legal(p).len() == 0 && !check && v == 0
            ||| check && legal(p).len() > 0 && v == -30_000
            ||| from_a_move(e, p, v, s, beta, ply)
        }),
{
    let check = in_check(p, p.side);
    let stand = e.score(p);
    let ms = legal(p);
    if ply < 128 && (check || stand < beta) && ms.len() > 0 {
        let best = if check {
            -INFINITY as int
        } else {
            stand
        };
        let a0 = if !check && stand > alpha {
            stand
        } else {
            alpha
        };
        let x = reached(visited(s), ply);
        let sc = capture_values(p, ms);
        assert forall|h: int| 0 <= h < ms.len() implies #[trigger] sc[h] == capture_value(
            p,
            ms[h],
        ) by {
            law_see_bounds(p, ms[h]);
        }
        assert forall|k: int| 0 <= k < ms.len() implies legal(p).contains(#[trigger] ms[k]) by {}
        lemma_from_tried(e, p, ms, sc, 0, a0, beta, best, ply, x, s);
        reveal(rest_score);
        assert(rest_score(e, p, ms, sc, 0, a0, beta, best, ply, x) == quiesce(
            e,
            p,
            s,
            alpha,
            beta,
            ply,
        ).0);
    }
}

/// A node goes straight to quiescence only at depth one, out of check, in a closed window and
/// where the margin does not bring the evaluation up to alpha; captures are tried with a
/// raised bound only from depth five on, out of check, in a closed window and away from mate.
/// In all other cases the moves are searched at once.
pub proof fn law_shortcuts<E: Evaluator>(e: E, prm: SearchParams, n: Node, s: SearchState)
    ensures
        n.check || n.beta - n.alpha > 1 ==> razor_stage(e, prm, n, s) == move_stage(e, prm, n, s),
        2 <= n.depth <= 4 ==> razor_stage(e, prm, n, s) == move_stage(e, prm, n, s),
        n.depth == 1 && e.score(n.p) + prm.razor_margin >= n.alpha ==> razor_stage(e, prm, n, s)
            == move_stage(e, prm, n, s),
        n.depth == 1 && !n.check && n.beta - n.alpha <= 1 && e.score(n.p) + prm.razor_margin < n.alpha
            ==> razor_stage(e, prm, n, s) == quiesce(e, n.p, s, n.alpha, n.beta, n.ply),
        n.depth >= 2 && (n.beta >= 28_000 || n.beta <= -28_000) ==> razor_stage(e, prm, n, s)
            == move_stage(e, prm, n, s),
{
}

/// What a root move scores, searched one ply less deep.
pub open spec fn root_score<E: Evaluator>(
    e: E,
    prm: SearchParams,
    p: Pos,
    m: Move,
    t: SearchState,
    depth: int,
    lo: int,
    hi: int,
) -> int {
    -negamax(e, prm, apply(p, m), t, depth - 1, -hi, -lo, 1, false).0
}

proof fn lemma_root_child<E: Evaluator>(
    e: E,
    prm: SearchParams,
    p: Pos,
    depth: int,
    i: int,
    mv: Move,
    alpha: int,
    beta: int,
    s: SearchState,
)
    ensures
        exists|t: SearchState, lo: int, hi: int|
            root_child(e, prm, p, depth, i, mv, alpha, beta, s).0 == #[trigger] root_score(
                e,
                prm,
                p,
                mv,
                t,
                depth,
                lo,
                hi,
            ),
        ({
            let v = root_child(e, prm, p, depth, i, mv, alpha, beta, s).0;
            alpha < v < beta ==> exists|t: SearchState| v == #[trigger] root_score(
                e,
                prm,
                p,
                mv,
                t,
                depth,
                alpha,
                beta,
            )
        }),
{
    let s1 = descending(s, p, 0, mv);
    let q = apply(p, mv);
    let v = root_child(e, prm, p, depth, i, mv, alpha, beta, s).0;
    if i == 0 {
        assert(v == root_score(e, prm, p, mv, s1, depth, alpha, beta));
    } else {
        let (v1, s2) = negamax(e, prm, q, s1, depth - 1, -alpha - 1, -alpha, 1, false);
        if -v1 > alpha && -v1 < beta {
            let t = SearchState { researches: bump(s2.researches), ..s2 };
            assert(v == root_score(e, prm, p, mv, t, depth, alpha, beta));
        } else {
            assert(-(alpha + 1) == -alpha - 1);
            assert(v == root_score(e, prm, p, mv, s1, depth, alpha, alpha + 1));
        }
    }
}

proof fn lemma_root_moves<E: Evaluator>(
    e: E,
    prm: SearchParams,
    p: Pos,
    depth: int,
    excluded: Seq<Move>,
    beta: int,
    ms: Seq<Move>,
    sc: Seq<i32>,
    i: int,
    alpha: int,
    best: int,
    best_move: Option<Move>,
    s: SearchState,
)
    requires
        ms.len() == sc.len(),
        0 <= i,
        forall|k: int| 0 <= k < ms.len() ==> legal(p).contains(#[trigger] ms[k]),
    ensures
        ({
            let (m, v, _) = root_moves(
                e,
                prm,
                p,
                depth,
                excluded,
                beta,
                ms,
                sc,
                i,
                alpha,
                best,
                best_move,
                s,
            );
            &&& v >= best
            &&& (v == best && m == best_move) || (v > best && m is Some && legal(p).contains(m->0)
                && !excluded.contains(m->0) && exists|t: SearchState, lo: int, hi: int|
                v == #[trigger] root_score(e, prm, p, m->0, t, depth, lo, hi))
            &&& v >= beta || forall|k: int|
                i <= k < ms.len() && !excluded.contains(#[trigger] ms[k]) ==> exists|
                    t: SearchState,
                    lo: int,
                    hi: int,
                |
                    v >= #[trigger] root_score(e, prm, p, ms[k], t, depth, lo, hi)
        }),
    decreases ms.len() - i,
{
    if i < ms.len() {
        let (m2, c2) = (picked_moves(ms, sc, i), picked_scores(sc, i));
        let mv = m2[i];
        let j = argmax(sc, i, sc.len() - 1);
        lemma_perm(ms, sc, i);
        assert forall|k: int| 0 <= k < m2.len() implies legal(p).contains(#[trigger] m2[k]) by {
            if k != i && k != j {
                assert(legal(p).contains(ms[k]));
            } else {
                assert(legal(p).contains(ms[i]) && legal(p).contains(ms[j]));
            }
        }
        assert(legal(p).contains(m2[i]));
        let (score, s1) = root_child(e, prm, p, depth, i, mv, alpha, beta, s);
        lemma_root_child(e, prm, p, depth, i, mv, alpha, beta, s);
        let (m, v, _) = root_moves(
            e,
            prm,
            p,
            depth,
            excluded,
            beta,
            ms,
            sc,
            i,
            alpha,
            best,
            best_move,
            s,
        );
        if excluded.contains(mv) {
            lemma_root_moves(
                e,
                prm,
                p,
                depth,
                excluded,
                beta,
                m2,
                c2,
                i + 1,
                alpha,
                best,
                best_move,
                s,
            );
        } else {
            lemma_root_moves(
                e,
                prm,
                p,
                depth,
                excluded,
                beta,
                m2,
                c2,
                i + 1,
                score,
                score,
                Some(mv),
                s1,
            );
            lemma_root_moves(
                e,
                prm,
                p,
                depth,
                excluded,
                beta,
                m2,
                c2,
                i + 1,
                alpha,
                score,
                Some(mv),
                s1,
            );
            lemma_root_moves(
                e,
                prm,
                p,
                depth,
                excluded,
                beta,
                m2,
                c2,
                i + 1,
                alpha,
                best,
                best_move,
                s1,
            );
            assert(v >= score);
        }
        if v < beta {
            assert forall|k: int| i <= k < ms.len() && !excluded.contains(#[trigger] ms[k]) implies exists|
                t: SearchState,
                lo: int,
                hi: int,
            |
                v >= #[trigger] root_score(e, prm, p, ms[k], t, depth, lo, hi) by {
                let h = if k == j {
                    i
                } else if k == i {
                    j
                } else {
                    k
                };
                assert(m2[h] == ms[k]);
                if h == i {
                    let (t, lo, hi) = choose|t: SearchState, lo: int, hi: int|
                        score == #[trigger] root_score(e, prm, p, mv, t, depth, lo, hi);
                    assert(v >= root_score(e, prm, p, ms[k], t, depth, lo, hi));
                } else {
                    assert(!excluded.contains(m2[h]));
                }
            }
        }
    }
}

proof fn lemma_perm(ms: Seq<Move>, sc: Seq<i32>, i: int)
    requires
        ms.len() == sc.len(),
        0 <= i < ms.len(),
    ensures
        ({
            let j = argmax(sc, i, sc.len() - 1);
            let (m2, c2) = (picked_moves(ms, sc, i), picked_scores(sc, i));
            &&& i <= j < ms.len()
            &&& m2.len() == ms.len()
            &&& c2.len() == ms.len()
            &&& m2[i] == ms[j] && m2[j] == ms[i]
            &&& c2[i] == sc[j] && c2[j] == sc[i]
            &&& forall|k: int|
                0 <= k < ms.len() && k != i && k != j ==> #[trigger] m2[k] == ms[k] && c2[k] == sc[k]
            &&& forall|k: int| i <= k < ms.len() ==> #[trigger] sc[k] <= c2[i]
        }),
{
    lemma_argmax(sc, i, sc.len() - 1);
}

/// The root search returns a legal move that is not left out, with what the position after it
/// scores one ply less deep, seen from the other side. No other move that is not left out
/// scores more, unless beta is reached. Without legal moves it returns the score of mate or of
/// stalemate, and no move.
pub proof fn law_root_result<E: Evaluator>(
    e: E,
    prm: SearchParams,
    p: Pos,
    s: SearchState,
    depth: int,
    pv_move: Option<Move>,
    excluded: Seq<Move>,
    alpha: int,
    beta: int,
    x: Move,
)
    ensures
        ({
            let (m, v, _) = root(e, prm, p, s, depth, pv_move, excluded, alpha, beta);
            &&& legal(p).len() == 0 ==> m is None && v == (if in_check(p, p.side) {
                -29_000int
            } else {
                0
            })
            &&& m matches Some(mv) ==> legal(p).contains(mv) && !excluded.contains(mv) && exists|
                t: SearchState,
                lo: int,
                hi: int,
            |
                v == #[trigger] root_score(e, prm, p, mv, t, depth, lo, hi)
            &&& legal(p).contains(x) && !excluded.contains(x) && v < beta ==> exists|
                t: SearchState,
                lo: int,
                hi: int,
            |
                v >= #[trigger] root_score(e, prm, p, x, t, depth, lo, hi)
        }),
{
    let ms = legal(p);
    if ms.len() > 0 {
        let sc = root_values(s, p, root_hash_move(s, p, pv_move), ms);
        assert forall|k: int| 0 <= k < ms.len() implies legal(p).contains(#[trigger] ms[k]) by {}
        lemma_root_moves(
            e,
            prm,
            p,
            depth,
            excluded,
            beta,
            ms,
            sc,
            0,
            alpha,
            -INFINITY as int,
            None,
            s,
        );
        if ms.contains(x) {
            let k = choose|k: int| 0 <= k < ms.len() && ms[k] == x;
            assert(ms[k] == x);
        }
    }
}

/// What a move scores at a node, searched to some depth below that of the node.
#[verifier::opaque]
pub open spec fn move_score<E: Evaluator>(
    e: E,
    prm: SearchParams,
    n: Node,
    m: Move,
    t: SearchState,
    depth: int,
    lo: int,
    hi: int,
) -> int {
    -negamax(e, prm, apply(n.p, m), t, depth, -hi, -lo, n.ply + 1, false).0
}

/// The score is that of a legal move at a node, no deeper than one ply less than the node,
/// or as deep as the node if the move is extended.
pub open spec fn scored_by<E: Evaluator>(e: E, prm: SearchParams, n: Node, m: Move, v: int) -> bool {
    exists|t: SearchState, depth: int, lo: int, hi: int|
        depth <= n.depth && v == #[trigger] move_score(e, prm, n, m, t, depth, lo, hi)
}

proof fn lemma_child_score<E: Evaluator>(
    e: E,
    prm: SearchParams,
    n: Node,
    i: int,
    mv: Move,
    alpha: int,
    ext: int,
    s: SearchState,
)
    requires
        0 <= n.ply < 128,
        0 <= ext <= 1,
        n.depth >= 1,
    ensures
        scored_by(e, prm, n, mv, search_child(e, prm, n, i, mv, alpha, ext, s).0),
{
    reveal(move_score);
    let q = apply(n.p, mv);
    let v = search_child(e, prm, n, i, mv, alpha, ext, s).0;
    if i == 0 {
        assert(v == move_score(e, prm, n, mv, s, n.depth - 1 + ext, alpha, n.beta));
    } else {
        let cut = reduction_of(n, s, mv, i);
        let d = best_of(n.depth - 1 - cut, 0);
        let (v1, s1) = negamax(e, prm, q, s, d, -alpha - 1, -alpha, n.ply + 1, false);
        let t1 = SearchState { researches: bump(s1.researches), ..s1 };
        let again = cut > 0 && -v1 > alpha;
        let (v2, s2) = if again {
            negamax(e, prm, q, t1, n.depth - 1, -alpha - 1, -alpha, n.ply + 1, false)
        } else {
            (v1, s1)
        };
        let t2 = SearchState { researches: bump(s2.researches), ..s2 };
        assert(-(alpha + 1) == -alpha - 1);
        lemma_cut(n, s, mv, i);
        if -v2 > alpha && -v2 < n.beta {
            assert(v == move_score(e, prm, n, mv, t2, n.depth - 1, alpha, n.beta));
        } else if again {
            assert(v == move_score(e, prm, n, mv, t1, n.depth - 1, alpha, alpha + 1));
        } else {
            assert(v == move_score(e, prm, n, mv, s, d, alpha, alpha + 1));
        }
    }
}

proof fn lemma_cut(n: Node, s: SearchState, mv: Move, i: int)
    ensures
        reduction_of(n, s, mv, i) >= 0,
{
}

proof fn lemma_extension<E: Evaluator>(e: E, prm: SearchParams, n: Node, mv: Move, s: SearchState)
    ensures
        0 <= extension(e, prm, n, mv, s).0 <= 1,
{
}

proof fn lemma_moves_score<E: Evaluator>(
    e: E,
    prm: SearchParams,
    n: Node,
    c: Context,
    base: Option<int>,
    ms: Seq<Move>,
    sc: Seq<i32>,
    i: int,
    alpha: int,
    best: int,
    best_move: Option<Move>,
    s: SearchState,
)
    requires
        ms.len() == sc.len(),
        0 <= i,
        n.depth >= 1,
        forall|k: int| 0 <= k < ms.len() ==> legal(n.p).contains(#[trigger] ms[k]),
    ensures
        ({
            let v = search_moves(e, prm, n, c, base, ms, sc, i, alpha, best, best_move, s).0;
            &&& v >= best
            &&& v == best || exists|m: Move|
                legal(n.p).contains(m) && #[trigger] scored_by(e, prm, n, m, v)
        }),
    decreases ms.len() - i,
{
    if i < ms.len() && 0 <= n.ply < 128 {
        let (m2, c2) = (picked_moves(ms, sc, i), picked_scores(sc, i));
        let mv = m2[i];
        let j = argmax(sc, i, sc.len() - 1);
        lemma_perm(ms, sc, i);
        assert forall|k: int| 0 <= k < m2.len() implies legal(n.p).contains(#[trigger] m2[k]) by {
            if k != i && k != j {
                assert(legal(n.p).contains(ms[k]));
            } else {
                assert(legal(n.p).contains(ms[i]) && legal(n.p).contains(ms[j]));
            }
        }
        assert(legal(n.p).contains(m2[i]));
        if skipped(prm, n, base, s, mv, i, alpha, best) {
            lemma_moves_score(e, prm, n, c, base, m2, c2, i + 1, alpha, best, best_move, s);
        } else {
            let (ext, s1) = extension(e, prm, n, mv, s);
            lemma_extension(e, prm, n, mv, s);
            let d = descending(s1, n.p, n.ply, mv);
            let (v, s2) = search_child(e, prm, n, i, mv, alpha, ext, d);
            lemma_child_score(e, prm, n, i, mv, alpha, ext, d);
            let s3 = returning(s2);
            lemma_moves_score(e, prm, n, c, base, m2, c2, i + 1, v, v, Some(mv), s3);
            lemma_moves_score(e, prm, n, c, base, m2, c2, i + 1, alpha, v, Some(mv), s3);
            lemma_moves_score(e, prm, n, c, base, m2, c2, i + 1, alpha, best, best_move, s3);
        }
    }
}

/// A node whose moves are searched has the score of one of its legal moves, or less than any
/// if none was searched; without legal moves it is mate or stalemate.
pub proof fn law_node_result<E: Evaluator>(e: E, prm: SearchParams, n: Node, s: SearchState)
    requires
        n.depth >= 1,
    ensures
        ({
            let v = move_stage(e, prm, n, s).0;
            &&& legal(n.p).len() == 0 ==> v == (if n.check {
                n.ply - 29_000
            } else {
                0
            })
            &&& legal(n.p).len() > 0 ==> v == -30_000 || exists|m: Move|
                legal(n.p).contains(m) && #[trigger] scored_by(e, prm, n, m, v)
        }),
{
    let ms = legal(n.p);
    if ms.len() > 0 {
        let c = context_of(s, n.p, n.ply);
        let sc = node_values(s, c, n.p, n.ply, n.hash_move(), ms);
        assert forall|k: int| 0 <= k < ms.len() implies legal(n.p).contains(#[trigger] ms[k]) by {}
        lemma_moves_score(
            e,
            prm,
            n,
            c,
            futility_base(e, prm, n),
            ms,
            sc,
            0,
            n.alpha,
            -INFINITY as int,
            None,
            s,
        );
    }
}

/// A search to a fixed depth returns a legal move with what the position after it scores one
/// ply less deep, and no legal move scores more; without legal moves, mate or stalemate.
pub proof fn law_fixed_depth(p: Pos, depth: int, mb: int, x: Move)
    ensures
        ({
            let (m, v, _) = fixed_depth(p, depth, mb);
            let e = HandcraftedEvaluator;
            let prm = SearchParams::defaults();
            &&& legal(p).len() == 0 ==> m is None && v == (if in_check(p, p.side) {
                -29_000int
            } else {
                0
            })
            &&& m matches Some(mv) ==> legal(p).contains(mv) && exists|
                t: SearchState,
                lo: int,
                hi: int,
            |
                v == #[trigger] root_score(e, prm, p, mv, t, depth, lo, hi)
            &&& legal(p).contains(x) && v < 30_000 ==> exists|t: SearchState, lo: int, hi: int|
                v >= #[trigger] root_score(e, prm, p, x, t, depth, lo, hi)
        }),
{
    law_root_result(
        HandcraftedEvaluator,
        SearchParams::defaults(),
        p,
        fresh_state(Seq::empty(), empty_table(floor_pow2(wanted_clusters(mb)))),
        depth,
        None,
        Seq::empty(),
        -INFINITY as int,
        INFINITY as int,
        x,
    );
}

} // verus!
