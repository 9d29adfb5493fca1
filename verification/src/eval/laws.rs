//! What the terms of the evaluation reward and punish.

use crate::board::Pos;
use crate::board::bitboard::{lemma_pick_contains, lemma_pick_members, pick};
use crate::board::piece::{Color, PieceType};
use crate::board::square::Square;
use crate::eval::{
    advanced, bad_bishop_of, bishop_pair_of, edge_distance, in_zone, king_distance, king_file,
    king_safety_of, minor_at, minor_hit, mobility_of, mop_up, outpost, outposts_of, phase_of,
    placement_of, reach_count, rooks_of, shields, side_total, space_of, threats_of, trapped_of,
    white_eval, zone_part, zone_penalty, BadBishop, Mobility, Outpost, Placement, RimKnight, RookActivity, TrappedBishop,
    ZoneAttack,
};
use crate::eval::pawns::{
    doubled, file_clear, isolated, passed, passer, pawn_structure, pawns_on, total_connected,
    PawnShape, CONNECTED_PASSED_EG, CONNECTED_PASSED_MG,
};
use crate::eval::pst::pst_value;
use crate::eval::score::{law_tdiv, tapered, Pair};
use crate::eval::terms::{count_where, hit, hits, next_to, sum_term, total, PieceTerm};
use vstd::prelude::*;

verus! {

/// How many ranks a square lies ahead of the back rank of a side.
pub open spec fn steps_ahead(c: Color, rank: int) -> int {
    if c == Color::Black {
        7 - rank
    } else {
        rank
    }
}

/// The value of a piece is that of its kind, besides its place: in the middlegame 100,
/// 320, 330, 500 and 900 from pawn to queen, in the endgame 120, 320, 330, 550 and 950.
pub proof fn law_material(q: Pos, c: Color, pt: PieceType, s: Square)
    ensures
        (Placement { pt }).value(q, c, s).mg - pst_value(pt, c, s).mg == seq![
            100int,
            320,
            330,
            500,
            900,
            0,
        ][pt.idx()],
        (Placement { pt }).value(q, c, s).eg - pst_value(pt, c, s).eg == seq![
            120int,
            320,
            330,
            550,
            950,
            0,
        ][pt.idx()],
{
}

/// A pawn is worth the more in the endgame the further it has advanced, one step before
/// the last rank 80 and 50 in the middlegame, on whichever side it stands.
pub proof fn law_pawns_advance(c: Color, s: Square)
    requires
        s.ok(),
        1 <= s.r() <= 6,
    ensures
        pst_value(PieceType::Pawn, c, s).eg == seq![0int, 10, 10, 20, 30, 50, 80][steps_ahead(
            c,
            s.r(),
        )],
        steps_ahead(c, s.r()) == 6 ==> pst_value(PieceType::Pawn, c, s).mg == 50,
{
    reveal(pst_value);
}

/// In the middlegame a king is safe on its own back rank and in danger beyond the middle
/// of the board; in the endgame it belongs in the center, not in a corner.
pub proof fn law_king_places(c: Color, s: Square)
    requires
        s.ok(),
    ensures
        steps_ahead(c, s.r()) == 0 ==> pst_value(PieceType::King, c, s).mg >= 0,
        steps_ahead(c, s.r()) >= 4 ==> pst_value(PieceType::King, c, s).mg <= -30,
        3 <= s.f() <= 4 && 3 <= s.r() <= 4 ==> pst_value(PieceType::King, c, s).eg == 40,
        (s.f() == 0 || s.f() == 7) && (s.r() == 0 || s.r() == 7) ==> pst_value(
            PieceType::King,
            c,
            s,
        ).eg == -50,
{
    reveal(pst_value);
}

/// A knight is worth the most in the center and the least in a corner, in both phases.
pub proof fn law_knight_places(c: Color, s: Square)
    requires
        s.ok(),
    ensures
        3 <= s.f() <= 4 && 3 <= s.r() <= 4 ==> pst_value(PieceType::Knight, c, s) == (Pair {
            mg: 20,
            eg: 20,
        }),
        (s.f() == 0 || s.f() == 7) && (s.r() == 0 || s.r() == 7) ==> pst_value(
            PieceType::Knight,
            c,
            s,
        ) == (Pair { mg: -50, eg: -60 }),
{
    reveal(pst_value);
}

/// A pawn without pawns of its side on the files beside it costs 12 and 18.
pub open spec fn alone(q: Pos, c: Color, s: Square) -> bool {
    forall|i: int| #[trigger]
        q.holds(c, PieceType::Pawn, i) ==> i % 8 - s.f() != 1 && i % 8 - s.f() != -1
}

/// An enemy pawn stands further on, at most so many files away.
pub open spec fn guarded(q: Pos, c: Color, s: Square, files: int) -> bool {
    exists|i: int|
        {
            &&& #[trigger] q.holds(c.other(), PieceType::Pawn, i)
            &&& -files <= i % 8 - s.f() <= files
            &&& c == Color::White ==> i / 8 > s.r()
            &&& c == Color::Black ==> i / 8 < s.r()
        }
}

/// What the place of a pawn among the others is worth: 12 and 18 less where no pawn of
/// its side stands on a file beside it; more, by rank, where no enemy pawn stands further
/// on, on its own file or beside it, and about half as much where one does so beside it
/// only.
pub proof fn law_pawn_shapes(q: Pos, c: Color, s: Square)
    requires
        s.ok(),
    ensures
        ({
            let v = (PawnShape {  }).value(q, c, s);
            let r = steps_ahead(c, s.r());
            let lone = if alone(q, c, s) {
                Pair { mg: -12, eg: -18 }
            } else {
                Pair { mg: 0, eg: 0 }
            };
            &&& !guarded(q, c, s, 1) ==> v == (Pair {
                mg: lone.mg + seq![0int, 5, 10, 20, 35, 60, 100, 0][r],
                eg: lone.eg + seq![0int, 12, 22, 40, 68, 110, 160, 0][r],
            })
            &&& guarded(q, c, s, 1) && !guarded(q, c, s, 0) ==> v == (Pair {
                mg: lone.mg + seq![0int, 3, 6, 12, 20, 35, 60, 0][r],
                eg: lone.eg + seq![0int, 6, 12, 22, 40, 68, 100, 0][r],
            })
            &&& guarded(q, c, s, 0) ==> v == lone
        }),
{
    assert(alone(q, c, s) == isolated(q, c, s)) by {
        if alone(q, c, s) {
            assert forall|i: int| #[trigger] q.holds(c, PieceType::Pawn, i) implies !crate::eval::terms::next_to(
                i % 8,
                s.f(),
            ) by {}
        }
    }
    assert(passed(q, c, s) == !guarded(q, c, s, 1)) by {
        if passed(q, c, s) && guarded(q, c, s, 1) {
            let i = choose|i: int|
                {
                    &&& #[trigger] q.holds(c.other(), PieceType::Pawn, i)
                    &&& -1 <= i % 8 - s.f() <= 1
                    &&& c == Color::White ==> i / 8 > s.r()
                    &&& c == Color::Black ==> i / 8 < s.r()
                };
            assert(false);
        }
    }
    assert(file_clear(q, c, s) == !guarded(q, c, s, 0)) by {
        if file_clear(q, c, s) && guarded(q, c, s, 0) {
            let i = choose|i: int|
                {
                    &&& #[trigger] q.holds(c.other(), PieceType::Pawn, i)
                    &&& 0 <= i % 8 - s.f() <= 0
                    &&& c == Color::White ==> i / 8 > s.r()
                    &&& c == Color::Black ==> i / 8 < s.r()
                };
            assert(false);
        }
    }
    if guarded(q, c, s, 0) {
        let i = choose|i: int|
            {
                &&& #[trigger] q.holds(c.other(), PieceType::Pawn, i)
                &&& 0 <= i % 8 - s.f() <= 0
                &&& c == Color::White ==> i / 8 > s.r()
                &&& c == Color::Black ==> i / 8 < s.r()
            };
        assert(guarded(q, c, s, 1));
    }
}

proof fn lemma_doubled(q: Pos, c: Color, n: int, f: int, k: int)
    requires
        0 <= n <= 8,
        0 <= f < 8,
        k >= 1,
        pawns_on(q, c, f) == k,
        forall|g: int| 0 <= g < 8 && g != f ==> #[trigger] pawns_on(q, c, g) <= 1,
    ensures
        doubled(q, c, n) == (if n > f {
            Pair { mg: -10 * (k - 1), eg: -22 * (k - 1) }
        } else {
            Pair { mg: 0, eg: 0 }
        }),
    decreases n,
{
    if n > 0 {
        lemma_doubled(q, c, n - 1, f, k);
        assert(n - 1 != f ==> pawns_on(q, c, n - 1) <= 1);
    }
}

/// Each pawn behind another of its side on one file costs 10 and 22; pawns on different
/// files cost nothing.
pub proof fn law_doubled_pawns(q: Pos, c: Color, f: int, k: int)
    requires
        0 <= f < 8,
        k >= 1,
        pawns_on(q, c, f) == k,
        forall|g: int| 0 <= g < 8 && g != f ==> #[trigger] pawns_on(q, c, g) <= 1,
    ensures
        doubled(q, c, 8) == (Pair { mg: -10 * (k - 1), eg: -22 * (k - 1) }),
{
    lemma_doubled(q, c, 8, f, k);
}

/// Each square that a piece attacks and its own side does not hold is worth 4 and 4 to a
/// knight or bishop, 2 and 4 to a rook and 1 and 2 to a queen.
pub proof fn law_mobility(q: Pos, c: Color, pt: PieceType, s: Square)
    requires
        pt == PieceType::Knight || pt == PieceType::Bishop || pt == PieceType::Rook || pt
            == PieceType::Queen,
    ensures
        ({
            let n = reach_count(q, c, pt, s);
            let v = (Mobility { pt }).value(q, c, s);
            &&& n == count_where(|t: int| hits(q, c, pt, s.0 as int, t) && !q.owned(c, t))
            &&& pt == PieceType::Knight ==> v == (Pair { mg: 4 * n, eg: 4 * n })
            &&& pt == PieceType::Bishop ==> v == (Pair { mg: 4 * n, eg: 4 * n })
            &&& pt == PieceType::Rook ==> v == (Pair { mg: 2 * n, eg: 4 * n })
            &&& pt == PieceType::Queen ==> v == (Pair { mg: n, eg: 2 * n })
        }),
{
    let n = reach_count(q, c, pt, s);
    assert(1 * n == n) by (nonlinear_arith);
}

/// A piece on `s` attacks `k` or a square next to it.
pub open spec fn hits_near(q: Pos, c: Color, pt: PieceType, s: Square, k: Square) -> bool {
    exists|t: int|
        {
            &&& #[trigger] hits(q, c, pt, s.0 as int, t)
            &&& 0 <= t < 64
            &&& -1 <= t % 8 - k.f() <= 1
            &&& -1 <= t / 8 - k.r() <= 1
        }
}

/// Around the king, in the middlegame: a file without any pawn costs 15, one without an
/// own pawn 7. An enemy piece that attacks the king or a square next to it costs 2, a rook
/// 3 and a queen 5.
pub proof fn law_king_dangers(q: Pos, c: Color, file: int, pt: PieceType, k: Square, s: Square)
    requires
        0 <= file < 8,
        k.ok(),
        pt == PieceType::Knight || pt == PieceType::Bishop || pt == PieceType::Rook || pt
            == PieceType::Queen,
    ensures
        ({
            let own = exists|i: int| #[trigger] q.holds(c, PieceType::Pawn, i) && i % 8 == file;
            let foe = exists|i: int| #[trigger]
                q.holds(c.other(), PieceType::Pawn, i) && i % 8 == file;
            king_file(q, c, file) == (Pair {
                mg: if own {
                    0
                } else if foe {
                    -7
                } else {
                    -15
                },
                eg: 0,
            })
        }),
        ({
            let near = hits_near(q, c.other(), pt, s, k);
            (ZoneAttack { pt, king: k }).value(q, c.other(), s) == (Pair {
                mg: if !near {
                    0
                } else if pt == PieceType::Queen {
                    -5
                } else if pt == PieceType::Rook {
                    -3
                } else {
                    -2
                },
                eg: 0,
            })
        }),
{
    let e = c.other();
    let z = ZoneAttack { pt, king: k };
    if exists|t: int| #[trigger] in_zone(k.0 as int, t) && hits(q, e, pt, s.0 as int, t) {
        let t = choose|t: int| #[trigger]
            in_zone(k.0 as int, t) && hits(q, e, pt, s.0 as int, t);
        assert(hits(q, e, pt, s.0 as int, t));
        assert(0 <= t < 64 && -1 <= t % 8 - k.f() <= 1 && -1 <= t / 8 - k.r() <= 1);
        assert(hits_near(q, e, pt, s, k));
        assert(in_zone(z.king.0 as int, t) && hits(q, e, z.pt, s.0 as int, t));
        assert(z.value(q, e, s) == zone_penalty(pt));
    } else if hits_near(q, e, pt, s, k) {
        let t = choose|t: int|
            {
                &&& #[trigger] hits(q, e, pt, s.0 as int, t)
                &&& 0 <= t < 64
                &&& -1 <= t % 8 - k.f() <= 1
                &&& -1 <= t / 8 - k.r() <= 1
            };
        assert(in_zone(k.0 as int, t));
    } else {
        assert forall|t: int| #[trigger] in_zone(z.king.0 as int, t) implies !hits(
            q,
            e,
            z.pt,
            s.0 as int,
            t,
        ) by {
            assert(in_zone(k.0 as int, t));
        }
        assert(z.value(q, e, s) == (Pair { mg: 0, eg: 0 }));
    }
}

/// The pawns that shield a king stand one or two ranks before it, on its file or beside
/// it.
pub proof fn law_shield(q: Pos, c: Color, k: Square, i: int)
    ensures
        shields(q, c, k, i) <==> {
            let d = if c == Color::White {
                i / 8 - k.r()
            } else {
                k.r() - i / 8
            };
            &&& q.holds(c, PieceType::Pawn, i)
            &&& -1 <= i % 8 - k.f() <= 1
            &&& 1 <= d <= 2
        },
{
}

/// Two bishops of a side are worth 30 and 50 more, on whichever squares they stand.
pub proof fn law_bishop_pair(q: Pos, c: Color)
    ensures
        (exists|i: int, j: int|
            i < j && #[trigger] q.holds(c, PieceType::Bishop, i) && #[trigger] q.holds(
                c,
                PieceType::Bishop,
                j,
            )) ==> bishop_pair_of(q, c) == (Pair { mg: 30, eg: 50 }),
        (forall|i: int, j: int|
            i < j && #[trigger] q.holds(c, PieceType::Bishop, i) ==> !(#[trigger] q.holds(
                c,
                PieceType::Bishop,
                j,
            ))) ==> bishop_pair_of(q, c) == (Pair { mg: 0, eg: 0 }),
{
    let f = |i: int| q.holds(c, PieceType::Bishop, i);
    let s = q.pieces(c, PieceType::Bishop);
    lemma_pick_members(f, 0);
    if exists|i: int, j: int|
        i < j && #[trigger] q.holds(c, PieceType::Bishop, i) && #[trigger] q.holds(
            c,
            PieceType::Bishop,
            j,
        ) {
        let (i, j) = choose|i: int, j: int|
            i < j && #[trigger] q.holds(c, PieceType::Bishop, i) && #[trigger] q.holds(
                c,
                PieceType::Bishop,
                j,
            );
        assert(f(i) && f(j));
        lemma_pick_contains(f, 0, i);
        lemma_pick_contains(f, 0, j);
        assert(s.contains(Square(i as u8)) && s.contains(Square(j as u8)));
    }
    if s.len() >= 2 {
        assert(f(s[0].0 as int) && f(s[1].0 as int));
        assert(q.holds(c, PieceType::Bishop, s[0].0 as int) && q.holds(
            c,
            PieceType::Bishop,
            s[1].0 as int,
        ));
    }
}

/// A bishop loses 3 and 6 for each pawn of its side on squares of its color.
pub proof fn law_bad_bishop(q: Pos, c: Color, s: Square)
    ensures
        ({
            let n = crate::eval::same_shade(q, c, s);
            (BadBishop {  }).value(q, c, s) == (Pair { mg: -3 * n, eg: -6 * n })
        }),
        forall|i: int| #[trigger]
            crate::eval::light(i) == crate::eval::light(s.0 as int) <==> (i % 8 + i / 8 + s.f()
                + s.r()) % 2 == 0,
{
}

/// A knight on an outpost is worth 25 and 12 more, a bishop half as much: on the other
/// side of the middle of the board, defended by a pawn from behind, and out of reach of
/// the enemy pawns that stand further on.
pub proof fn law_outposts(q: Pos, c: Color, s: Square)
    requires
        s.ok(),
    ensures
        outpost(q, c, s) <==> {
            &&& steps_ahead(c, s.r()) >= 4
            &&& exists|i: int|
                {
                    &&& #[trigger] q.holds(c, PieceType::Pawn, i)
                    &&& i % 8 - s.f() == 1 || i % 8 - s.f() == -1
                    &&& c == Color::White ==> i / 8 == s.r() - 1
                    &&& c == Color::Black ==> i / 8 == s.r() + 1
                }
            &&& forall|i: int| #[trigger]
                q.holds(c.other(), PieceType::Pawn, i) && (i % 8 - s.f() == 1 || i % 8 - s.f() == -1)
                    ==> {
                    &&& c == Color::White ==> i / 8 <= s.r()
                    &&& c == Color::Black ==> i / 8 >= s.r()
                }
        },
        (Outpost { knight: true }).value(q, c, s) == (if outpost(q, c, s) {
            Pair { mg: 25, eg: 12 }
        } else {
            Pair { mg: 0, eg: 0 }
        }),
        (Outpost { knight: false }).value(q, c, s) == (if outpost(q, c, s) {
            Pair { mg: 12, eg: 6 }
        } else {
            Pair { mg: 0, eg: 0 }
        }),
{
    if outpost(q, c, s) {
        let i = choose|i: int| #[trigger]
            q.holds(c, PieceType::Pawn, i) && crate::movegen::attacks::pawn_step(
                c.other(),
                s.0 as int,
                i,
            );
        assert(q.holds(c, PieceType::Pawn, i));
        assert forall|i: int| #[trigger]
            q.holds(c.other(), PieceType::Pawn, i) && (i % 8 - s.f() == 1 || i % 8 - s.f() == -1) implies {
            &&& c == Color::White ==> i / 8 <= s.r()
            &&& c == Color::Black ==> i / 8 >= s.r()
        } by {}
    }
}

/// A rook is worth 25 and 12 more on a file without pawns, 12 and 6 on one without own
/// pawns, and 10 and 20 one rank before the last.
pub proof fn law_rooks(q: Pos, c: Color, s: Square)
    ensures
        ({
            let own = exists|i: int| #[trigger] q.holds(c, PieceType::Pawn, i) && i % 8 == s.f();
            let foe = exists|i: int| #[trigger]
                q.holds(c.other(), PieceType::Pawn, i) && i % 8 == s.f();
            let seventh = steps_ahead(c, s.r()) == 6;
            let v = (RookActivity {  }).value(q, c, s);
            &&& v.mg == (if own {
                0int
            } else if foe {
                12
            } else {
                25
            }) + (if seventh {
                10int
            } else {
                0
            })
            &&& v.eg == (if own {
                0int
            } else if foe {
                6
            } else {
                12
            }) + (if seventh {
                20int
            } else {
                0
            })
        }),
{
}

/// The threats of a side are counted by what is attacked and by what: minor pieces, rooks
/// and queens by pawns, rooks and queens by minor pieces, queens by rooks.
pub proof fn law_threats(q: Pos, c: Color)
    ensures
        ({
            let e = c.other();
            let a = count_where(|t: int| hit(q, c, PieceType::Pawn, t) && minor_at(q, e, t));
            let b = count_where(
                |t: int| hit(q, c, PieceType::Pawn, t) && q.holds(e, PieceType::Rook, t),
            );
            let d = count_where(
                |t: int| hit(q, c, PieceType::Pawn, t) && q.holds(e, PieceType::Queen, t),
            );
            let f = count_where(|t: int| minor_hit(q, c, t) && q.holds(e, PieceType::Rook, t));
            let g = count_where(|t: int| minor_hit(q, c, t) && q.holds(e, PieceType::Queen, t));
            let h = count_where(
                |t: int| hit(q, c, PieceType::Rook, t) && q.holds(e, PieceType::Queen, t),
            );
            &&& threats_of(q, c).mg == 35 * a + 45 * b + 55 * d + 20 * f + 25 * g + 15 * h
            &&& threats_of(q, c).eg == 25 * a + 25 * b + 30 * d + 15 * f + 20 * g + 15 * h
        }),
{
}

/// Space: 4 for each pawn from the b- to the g-file that has passed the fourth rank.
pub proof fn law_space(q: Pos, c: Color, k: int)
    ensures
        space_of(q, c) == (Pair { mg: 4 * count_where(|i: int| advanced(q, c, i)), eg: 0 }),
        advanced(q, c, k) <==> q.holds(c, PieceType::Pawn, k) && k % 8 != 0 && k % 8 != 7
            && steps_ahead(c, k / 8) >= 4,
{
    let n = count_where(|i: int| advanced(q, c, i));
    assert(0 * n == 0) by (nonlinear_arith);
}

/// A bishop without a square to go to costs 50, one with a single square 25; a knight on
/// the edge file costs 15 and 10.
pub proof fn law_trapped(q: Pos, c: Color, s: Square)
    ensures
        ({
            let n = count_where(
                |t: int| hits(q, c, PieceType::Bishop, s.0 as int, t) && !q.owned(c, t),
            );
            (TrappedBishop {  }).value(q, c, s) == (if n == 0 {
                Pair { mg: -50, eg: -50 }
            } else if n == 1 {
                Pair { mg: -25, eg: -25 }
            } else {
                Pair { mg: 0, eg: 0 }
            })
        }),
        (RimKnight {  }).value(q, c, s) == (if s.f() == 0 || s.f() == 7 {
            Pair { mg: -15, eg: -10 }
        } else {
            Pair { mg: 0, eg: 0 }
        }),
{
}

/// The phase counts one for each knight and bishop, two for each rook and four for each
/// queen of either side.
pub proof fn law_phase(q: Pos)
    ensures
        ({
            let n = |pt: PieceType|
                q.pieces(Color::White, pt).len() + q.pieces(Color::Black, pt).len();
            phase_of(q) == n(PieceType::Knight) + n(PieceType::Bishop) + 2 * n(PieceType::Rook) + 4
                * n(PieceType::Queen)
        }),
{
}

/// A blend lies between the two values; it is nearer to the middlegame value the more
/// pieces are left.
pub proof fn law_taper_between(s: Pair, phase: int)
    ensures
        s.mg <= s.eg ==> s.mg <= tapered(s, phase) <= s.eg,
        s.eg <= s.mg ==> s.eg <= tapered(s, phase) <= s.mg,
{
    let ph = crate::eval::score::clamp_phase(phase);
    let n = s.mg * ph + s.eg * (24 - ph);
    law_tdiv(n, 24);
    assert(s.mg <= s.eg ==> 24 * s.mg <= n <= 24 * s.eg) by (nonlinear_arith)
        requires
            0 <= ph <= 24,
            n == s.mg * ph + s.eg * (24 - ph),
    ;
    assert(s.eg <= s.mg ==> 24 * s.eg <= n <= 24 * s.mg) by (nonlinear_arith)
        requires
            0 <= ph <= 24,
            n == s.mg * ph + s.eg * (24 - ph),
    ;
}

/// A side that is ahead by 400 or more, and only such a side, gains from the place of the
/// kings: 4 for each step that the other king is nearer to the edge than the middle, and 2
/// for each step that the kings are nearer than 7; all of it with no pieces left, none with
/// all of them.
pub proof fn law_mop_up(q: Pos, phase: int, cp: int)
    ensures
        -400 < cp < 400 ==> mop_up(q, phase, cp) == 0,
        phase >= 24 ==> mop_up(q, phase, cp) == 0,
        q.king(Color::White) matches Some(w) ==> q.king(Color::Black) matches Some(b) ==> {
            &&& cp >= 400 ==> mop_up(q, 0, cp) == 4 * (3 - edge_distance(b)) + 2 * (7
                - king_distance(w, b))
            &&& cp <= -400 ==> mop_up(q, 0, cp) == -(4 * (3 - edge_distance(w)) + 2 * (7
                - king_distance(w, b)))
        },
{
    if let (Some(w), Some(b)) = (q.king(Color::White), q.king(Color::Black)) {
        lemma_kings(q);
        let x = 4 * (3 - edge_distance(b)) + 2 * (7 - king_distance(w, b));
        let y = 4 * (3 - edge_distance(w)) + 2 * (7 - king_distance(w, b));
        assert(0 <= x && 0 <= y);
        law_tdiv(x * 24, 24);
        law_tdiv(y * 24, 24);
        law_tdiv(0, 24);
        assert(x * 0 == 0 && y * 0 == 0) by (nonlinear_arith);
    }
}

proof fn lemma_kings(q: Pos)
    requires
        q.king(Color::White) is Some,
        q.king(Color::Black) is Some,
    ensures
        (q.king(Color::White)->0).ok(),
        (q.king(Color::Black)->0).ok(),
{
    lemma_pick_members(|i: int| q.holds(Color::White, PieceType::King, i), 0);
    lemma_pick_members(|i: int| q.holds(Color::Black, PieceType::King, i), 0);
}

/// The distance of two squares is the larger of the distances of their files and of their
/// ranks; that from the edge is the least number of steps off any of the four edges.
pub proof fn law_distances(a: Square, b: Square)
    requires
        a.ok(),
        b.ok(),
    ensures
        ({
            let (x, y) = (a.f() - b.f(), a.r() - b.r());
            let d = king_distance(a, b);
            &&& -d <= x <= d && -d <= y <= d
            &&& x == d || x == -d || y == d || y == -d
        }),
        ({
            let d = edge_distance(a);
            &&& d <= a.f() <= 7 - d
            &&& d <= a.r() <= 7 - d
            &&& d == a.f() || d == 7 - a.f() || d == a.r() || d == 7 - a.r()
        }),
{
}

/// The evaluation adds up, for each side, its material and its places, mobility, king
/// safety, bishop pair, bad bishops, outposts, rooks, threats, space, trapped pieces and
/// pawn structure; the other side's are taken off, and the blend of the two phases is
/// what remains, with what the place of the kings adds.
pub proof fn law_evaluation_adds_up(q: Pos)
    ensures
        ({
            let mg = |c: Color|
                placement_of(q, c).mg + mobility_of(q, c).mg + king_safety_of(q, c).mg
                    + bishop_pair_of(q, c).mg + bad_bishop_of(q, c).mg + outposts_of(q, c).mg
                    + rooks_of(q, c).mg + threats_of(q, c).mg + space_of(q, c).mg + trapped_of(
                    q,
                    c,
                ).mg + pawn_structure(q, c).mg;
            let eg = |c: Color|
                placement_of(q, c).eg + mobility_of(q, c).eg + king_safety_of(q, c).eg
                    + bishop_pair_of(q, c).eg + bad_bishop_of(q, c).eg + outposts_of(q, c).eg
                    + rooks_of(q, c).eg + threats_of(q, c).eg + space_of(q, c).eg + trapped_of(
                    q,
                    c,
                ).eg + pawn_structure(q, c).eg;
            let cp = tapered(
                Pair {
                    mg: mg(Color::White) - mg(Color::Black),
                    eg: eg(Color::White) - eg(Color::Black),
                },
                phase_of(q),
            );
            white_eval(q) == cp + mop_up(q, phase_of(q), cp)
        }),
{
    reveal(side_total);
}

/// King safety is 9 for each pawn of the shield, with what the file of the king and those
/// beside it cost, and what the enemy pieces near the king do. The pawn structure is what the
/// shapes of the pawns are worth, with what doubled pawns cost and passed neighbours earn.
pub proof fn law_parts_of_terms(q: Pos, c: Color)
    ensures
        q.king(c) is None ==> king_safety_of(q, c) == (Pair { mg: 0, eg: 0 }),
        q.king(c) matches Some(k) ==> {
            let zone = |pt: PieceType| zone_part(q, c, pt, k);
            &&& king_safety_of(q, c).mg == 9 * count_where(|i: int| shields(q, c, k, i)) + king_file(
                q,
                c,
                k.f() - 1,
            ).mg + king_file(q, c, k.f()).mg + king_file(q, c, k.f() + 1).mg + zone(
                PieceType::Knight,
            ).mg + zone(PieceType::Bishop).mg + zone(PieceType::Rook).mg + zone(PieceType::Queen).mg
        },
        pawn_structure(q, c).mg == sum_term(
            PawnShape {  },
            q,
            c,
            q.pieces(c, PieceType::Pawn),
        ).mg + doubled(q, c, 8).mg + total_connected(q, c).mg,
        pawn_structure(q, c).eg == sum_term(
            PawnShape {  },
            q,
            c,
            q.pieces(c, PieceType::Pawn),
        ).eg + doubled(q, c, 8).eg + total_connected(q, c).eg,
        (forall|i: int, j: int|
            #[trigger] passer(q, c, i) && #[trigger] passer(q, c, j) ==> i % 8 - j % 8 != 1)
            ==> total_connected(q, c) == (Pair { mg: 0, eg: 0 }),
{
    reveal(pawn_structure);
    if forall|i: int, j: int|
        #[trigger] passer(q, c, i) && #[trigger] passer(q, c, j) ==> i % 8 - j % 8 != 1 {
        let f = |s: Square|
            if exists|i: int| #[trigger] passer(q, c, i) && next_to(i % 8, s.f()) {
                let r = crate::eval::terms::rel_rank(c, s.r());
                Pair { mg: CONNECTED_PASSED_MG[r] as int, eg: CONNECTED_PASSED_EG[r] as int }
            } else {
                Pair::zero()
            };
        let g = |i: int| passer(q, c, i);
        let ps = pick(g, 0);
        lemma_pick_members(g, 0);
        assert forall|k: int| 0 <= k < ps.len() implies f(#[trigger] ps[k]) == Pair::zero() by {
            assert(g(ps[k].0 as int));
            assert(passer(q, c, ps[k].0 as int));
        }
        lemma_zero_total(ps, f);
    }
}

proof fn lemma_zero_total(s: Seq<Square>, f: spec_fn(Square) -> Pair)
    requires
        forall|k: int| 0 <= k < s.len() ==> f(#[trigger] s[k]) == Pair::zero(),
    ensures
        total(s, f) == Pair::zero(),
    decreases s.len(),
{
    if s.len() > 0 {
        assert(f(s[0]) == Pair::zero());
        let rest = s.drop_first();
        assert forall|k: int| 0 <= k < rest.len() implies f(#[trigger] rest[k]) == Pair::zero() by {
            assert(rest[k] == s[k + 1]);
        }
        lemma_zero_total(rest, f);
    }
}

/// A sum over squares is that of what they give, one by one.
pub proof fn law_totals(s: Seq<Square>, x: Square, f: spec_fn(Square) -> Pair)
    ensures
        total(Seq::empty(), f) == (Pair { mg: 0, eg: 0 }),
        total(s.push(x), f).mg == total(s, f).mg + f(x).mg,
        total(s.push(x), f).eg == total(s, f).eg + f(x).eg,
    decreases s.len(),
{
    reveal_with_fuel(total, 2);
    if s.len() > 0 {
        law_totals(s.drop_first(), x, f);
        assert(s.push(x).drop_first() =~= s.drop_first().push(x));
    } else {
        assert(s.push(x).drop_first() =~= Seq::<Square>::empty());
    }
}

/// A place is worth as much on the left as on the right of the board, for every piece; only
/// the queen has places of her own in the middlegame.
pub proof fn law_left_and_right(pt: PieceType, c: Color, s: Square)
    requires
        s.ok(),
    ensures
        ({
            let t = Square((8 * s.r() + 7 - s.f()) as u8);
            &&& pst_value(pt, c, s).eg == pst_value(pt, c, t).eg
            &&& pt != PieceType::Queen ==> pst_value(pt, c, s).mg == pst_value(pt, c, t).mg
        }),
{
    reveal(pst_value);
}

} // verus!
