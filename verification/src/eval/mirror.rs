//! The evaluation is fair: with the colors exchanged and the board turned upside
//! down, it is the same.

use crate::board::bitboard::{lemma_pick_members, pick};
use crate::board::fen::start_position;
use crate::board::piece::{Color, Piece, PieceType};
use crate::board::square::Square;
use crate::board::{CastlingRights, Pos};
use crate::eval::pawns::{
    doubled, file_clear, isolated, passed, passer, pawn_structure, pawns_on, pawns_value,
    total_connected, PawnShape,
};
use crate::eval::pst::{mirrored, law_pst_mirror};
use crate::eval::score::{tapered, Pair};
use crate::eval::terms::{
    ahead, bare, count_where, hit, hits, next_to, rel_rank, sum_term, total, PieceTerm,
};
use crate::eval::{
    advanced, bad_bishop_of, bishop_pair_of, edge_distance, eval_score, in_zone, king_distance,
    king_file, king_safety_of, light, minor_at, minor_hit, mobility_of, mobility_part, mop_up,
    no_pawn_on, outpost, outposts_of, phase_of, phase_part, placement_of, placement_part,
    reach_count, rooks_of, shields, side_total, space_of, threats_of, trapped_of, white_eval,
    zone_part, zone_penalty, BadBishop, Mobility, Outpost, Placement, RimKnight, RookActivity,
    TrappedBishop, ZoneAttack,
};
use crate::movegen::attacks::{occ_of, pawn_step, ray_at, ray_on, ray_reaches, slides};
use vstd::prelude::*;

verus! {

/// The square on the other side of the middle of the board.
pub open spec fn flip(i: int) -> int {
    (7 - i / 8) * 8 + i % 8
}

/// The piece in the other color.
pub open spec fn recolored(cell: Option<Piece>) -> Option<Piece> {
    match cell {
        Some(x) => Some(Piece { color: x.color.other(), piece_type: x.piece_type }),
        None => None,
    }
}

/// The position with the colors exchanged and the board turned upside down.
pub open spec fn mirror(p: Pos) -> Pos {
    Pos {
        squares: Seq::new(64, |i: int| recolored(p.squares[flip(i)])),
        side: p.side.other(),
        castling: CastlingRights((p.castling.0 % 4 * 4 + p.castling.0 / 4 % 4) as u8),
        ep: match p.ep {
            Some(e) => Some(mirrored(e)),
            None => None,
        },
        halfmove: p.halfmove,
        fullmove: p.fullmove,
    }
}

/// The pieces of `m` are those of `q` with the colors exchanged and the board
/// turned upside down.
pub open spec fn reflects(q: Pos, m: Pos) -> bool {
    &&& q.squares.len() == 64
    &&& m.squares.len() == 64
    &&& forall|i: int| 0 <= i < 64 ==> m.squares[flip(i)] == recolored(#[trigger] q.squares[i])
}

pub(crate) proof fn lemma_flip(i: int)
    requires
        0 <= i < 64,
    ensures
        0 <= flip(i) < 64,
        flip(i) % 8 == i % 8,
        flip(i) / 8 == 7 - i / 8,
        flip(flip(i)) == i,
{
}

pub(crate) proof fn lemma_mirror(p: Pos)
    requires
        p.squares.len() == 64,
    ensures
        reflects(p, mirror(p)),
        reflects(bare(p), bare(mirror(p))),
{
    assert forall|i: int| 0 <= i < 64 implies mirror(p).squares[flip(i)] == recolored(
        #[trigger] p.squares[i],
    ) by {
        lemma_flip(i);
    }
    assert forall|i: int| 0 <= i < 64 implies bare(mirror(p)).squares[flip(i)] == recolored(
        #[trigger] bare(p).squares[i],
    ) by {
        lemma_flip(i);
    }
}

pub(crate) proof fn lemma_symmetric(q: Pos, m: Pos)
    requires
        reflects(q, m),
    ensures
        reflects(m, q),
{
    assert forall|i: int| 0 <= i < 64 implies q.squares[flip(i)] == recolored(
        #[trigger] m.squares[i],
    ) by {
        lemma_flip(i);
        let x = q.squares[flip(i)];
        assert(m.squares[flip(flip(i))] == recolored(x));
        assert(recolored(recolored(x)) == x);
    }
}

pub(crate) proof fn lemma_holds(q: Pos, m: Pos, c: Color, pt: PieceType, i: int)
    requires
        reflects(q, m),
        0 <= i < 64,
    ensures
        m.holds(c.other(), pt, flip(i)) == q.holds(c, pt, i),
        m.occupied(flip(i)) == q.occupied(i),
        m.owned(c.other(), flip(i)) == q.owned(c, i),
{
    lemma_flip(i);
    assert(m.squares[flip(i)] == recolored(q.squares[i]));
}

/// What square `i` adds to a sum.
#[verifier::opaque]
spec fn part(p: spec_fn(int) -> bool, f: spec_fn(Square) -> Pair, i: int) -> Pair {
    if p(i) {
        f(Square(i as u8))
    } else {
        Pair::zero()
    }
}

/// The sum over the squares from `i` on.
#[verifier::opaque]
spec fn tally(p: spec_fn(int) -> bool, f: spec_fn(Square) -> Pair, i: int) -> Pair
    decreases 64 - i,
{
    if i >= 64 {
        Pair::zero()
    } else {
        part(p, f, i).plus(tally(p, f, i + 1))
    }
}

/// The sum over the squares of a rank.
#[verifier::opaque]
spec fn row(p: spec_fn(int) -> bool, f: spec_fn(Square) -> Pair, r: int) -> Pair {
    part(p, f, 8 * r).plus(part(p, f, 8 * r + 1)).plus(part(p, f, 8 * r + 2)).plus(
        part(p, f, 8 * r + 3),
    ).plus(part(p, f, 8 * r + 4)).plus(part(p, f, 8 * r + 5)).plus(part(p, f, 8 * r + 6)).plus(
        part(p, f, 8 * r + 7),
    )
}

proof fn lemma_tally(p: spec_fn(int) -> bool, f: spec_fn(Square) -> Pair, i: int)
    requires
        0 <= i,
    ensures
        total(pick(p, i), f) == tally(p, f, i),
    decreases 64 - i,
{
    reveal(tally);
    reveal(part);
    if i < 64 {
        lemma_tally(p, f, i + 1);
        if p(i) {
            assert(pick(p, i).drop_first() =~= pick(p, i + 1));
        }
    }
}

proof fn lemma_row(p: spec_fn(int) -> bool, f: spec_fn(Square) -> Pair, r: int)
    requires
        0 <= r < 8,
    ensures
        tally(p, f, 8 * r) == row(p, f, r).plus(tally(p, f, 8 * r + 8)),
{
    reveal(row);
    reveal_with_fuel(tally, 9);
}

proof fn lemma_rows(p: spec_fn(int) -> bool, f: spec_fn(Square) -> Pair)
    ensures
        total(pick(p, 0), f) == row(p, f, 0).plus(row(p, f, 1)).plus(row(p, f, 2)).plus(
            row(p, f, 3),
        ).plus(row(p, f, 4)).plus(row(p, f, 5)).plus(row(p, f, 6)).plus(row(p, f, 7)),
{
    lemma_tally(p, f, 0);
    lemma_row(p, f, 0);
    lemma_row(p, f, 1);
    lemma_row(p, f, 2);
    lemma_row(p, f, 3);
    lemma_row(p, f, 4);
    lemma_row(p, f, 5);
    lemma_row(p, f, 6);
    lemma_row(p, f, 7);
    assert(tally(p, f, 64) == Pair::zero()) by {
        reveal(tally);
    }
}

proof fn lemma_flipped_row(
    p: spec_fn(int) -> bool,
    f: spec_fn(Square) -> Pair,
    p2: spec_fn(int) -> bool,
    f2: spec_fn(Square) -> Pair,
    r: int,
)
    requires
        0 <= r < 8,
        forall|i: int| 0 <= i < 64 ==> part(p2, f2, flip(i)) == #[trigger] part(p, f, i),
    ensures
        row(p2, f2, 7 - r) == row(p, f, r),
{
    reveal(row);
    let u = 8 * r;
    let v = 8 * (7 - r);
    assert(flip(u) == v && flip(u + 1) == v + 1 && flip(u + 2) == v + 2 && flip(u + 3) == v + 3);
    assert(flip(u + 4) == v + 4 && flip(u + 5) == v + 5 && flip(u + 6) == v + 6 && flip(u + 7) == v
        + 7);
    assert(part(p2, f2, flip(u)) == part(p, f, u));
    assert(part(p2, f2, flip(u + 1)) == part(p, f, u + 1));
    assert(part(p2, f2, flip(u + 2)) == part(p, f, u + 2));
    assert(part(p2, f2, flip(u + 3)) == part(p, f, u + 3));
    assert(part(p2, f2, flip(u + 4)) == part(p, f, u + 4));
    assert(part(p2, f2, flip(u + 5)) == part(p, f, u + 5));
    assert(part(p2, f2, flip(u + 6)) == part(p, f, u + 6));
    assert(part(p2, f2, flip(u + 7)) == part(p, f, u + 7));
}

proof fn lemma_flipped_total(
    p: spec_fn(int) -> bool,
    f: spec_fn(Square) -> Pair,
    p2: spec_fn(int) -> bool,
    f2: spec_fn(Square) -> Pair,
)
    requires
        forall|i: int| 0 <= i < 64 ==> p2(flip(i)) == #[trigger] p(i),
        forall|i: int|
            0 <= i < 64 && #[trigger] p(i) ==> f2(Square(flip(i) as u8)) == f(Square(i as u8)),
    ensures
        total(pick(p2, 0), f2) == total(pick(p, 0), f),
{
    lemma_rows(p, f);
    lemma_rows(p2, f2);
    assert forall|i: int| 0 <= i < 64 implies part(p2, f2, flip(i)) == #[trigger] part(p, f, i) by {
        reveal(part);
        assert(p2(flip(i)) == p(i));
    }
    lemma_flipped_row(p, f, p2, f2, 0);
    lemma_flipped_row(p, f, p2, f2, 1);
    lemma_flipped_row(p, f, p2, f2, 2);
    lemma_flipped_row(p, f, p2, f2, 3);
    lemma_flipped_row(p, f, p2, f2, 4);
    lemma_flipped_row(p, f, p2, f2, 5);
    lemma_flipped_row(p, f, p2, f2, 6);
    lemma_flipped_row(p, f, p2, f2, 7);
}

proof fn lemma_ones(s: Seq<Square>, f: spec_fn(Square) -> Pair)
    requires
        forall|x: Square| #[trigger] f(x) == (Pair { mg: 1, eg: 0 }),
    ensures
        total(s, f).mg == s.len(),
    decreases s.len(),
{
    if s.len() > 0 {
        lemma_ones(s.drop_first(), f);
        assert(f(s[0]).mg == 1);
    }
}

proof fn lemma_flipped_count(p: spec_fn(int) -> bool, p2: spec_fn(int) -> bool)
    requires
        forall|i: int| 0 <= i < 64 ==> p2(flip(i)) == #[trigger] p(i),
    ensures
        count_where(p2) == count_where(p),
{
    let f = |x: Square| Pair { mg: 1, eg: 0 };
    lemma_flipped_total(p, f, p2, f);
    lemma_ones(pick(p, 0), f);
    lemma_ones(pick(p2, 0), f);
}

proof fn lemma_pieces(q: Pos, m: Pos, c: Color, pt: PieceType)
    requires
        reflects(q, m),
    ensures
        m.pieces(c.other(), pt).len() == q.pieces(c, pt).len(),
{
    let p = |i: int| q.holds(c, pt, i);
    let p2 = |i: int| m.holds(c.other(), pt, i);
    assert forall|i: int| 0 <= i < 64 implies p2(flip(i)) == #[trigger] p(i) by {
        lemma_holds(q, m, c, pt, i);
    }
    lemma_flipped_count(p, p2);
}

/// With at most one king of a color, the mirrored king stands on the mirrored
/// square.
pub(crate) proof fn lemma_king(q: Pos, m: Pos, c: Color)
    requires
        reflects(q, m),
        q.pieces(c, PieceType::King).len() <= 1,
    ensures
        q.king(c) is Some == m.king(c.other()) is Some,
        q.king(c) matches Some(k) ==> k.ok() && m.king(c.other()) == Some(Square(flip(
            k.0 as int,
        ) as u8)),
{
    lemma_pieces(q, m, c, PieceType::King);
    let p = |i: int| q.holds(c, PieceType::King, i);
    let p2 = |i: int| m.holds(c.other(), PieceType::King, i);
    lemma_pick_members(p, 0);
    lemma_pick_members(p2, 0);
    if let Some(k) = q.king(c) {
        let n = m.king(c.other())->0;
        assert(pick(p, 0)[0] == k);
        assert(pick(p2, 0)[0] == n);
        let j = flip(n.0 as int);
        lemma_flip(n.0 as int);
        lemma_symmetric(q, m);
        lemma_holds(m, q, c.other(), PieceType::King, n.0 as int);
        assert(c.other().other() == c);
        assert(p(j));
        lemma_only(p, k, j);
        assert(j == k.0);
    }
}

/// The only picked square is the only one that satisfies the predicate.
proof fn lemma_only(p: spec_fn(int) -> bool, k: Square, j: int)
    requires
        pick(p, 0).len() == 1,
        pick(p, 0)[0] == k,
        0 <= j < 64,
        p(j),
    ensures
        j == k.0,
{
    crate::board::bitboard::lemma_pick_contains(p, 0, j);
}

/// A ray turned upside down.
proof fn lemma_ray(q: Pos, m: Pos, s: int, df: int, dr: int, t: int)
    requires
        reflects(q, m),
        0 <= s < 64,
        slides(occ_of(q), s, df, dr, t),
    ensures
        0 <= t < 64,
        slides(occ_of(m), flip(s), df, -dr, flip(t)),
{
    let k = choose|k: int| #[trigger]
        ray_reaches(occ_of(q), s, df, dr, k) && t == ray_at(s, df, dr, k);
    lemma_flip(s);
    assert forall|j: int| 1 <= j <= k implies #[trigger] ray_on(flip(s), df, -dr, j) && ray_at(
        flip(s),
        df,
        -dr,
        j,
    ) == flip(ray_at(s, df, dr, j)) && 0 <= ray_at(s, df, dr, j) < 64 by {
        assert(ray_on(s, df, dr, j));
        assert(j * (-dr) == -(j * dr)) by (nonlinear_arith);
    }
    assert(ray_on(flip(s), df, -dr, k));
    assert forall|j: int| 1 <= j < k implies !occ_of(m)(#[trigger] ray_at(flip(s), df, -dr, j)) by {
        assert(ray_on(flip(s), df, -dr, j));
        assert(!occ_of(q)(ray_at(s, df, dr, j)));
        lemma_holds(q, m, Color::White, PieceType::Pawn, ray_at(s, df, dr, j));
    }
    assert(ray_reaches(occ_of(m), flip(s), df, -dr, k));
}

proof fn lemma_hits_one(q: Pos, m: Pos, c: Color, pt: PieceType, s: int, t: int)
    requires
        reflects(q, m),
        0 <= s < 64,
        hits(q, c, pt, s, t),
    ensures
        0 <= t < 64,
        hits(m, c.other(), pt, flip(s), flip(t)),
{
    let o = occ_of(q);
    lemma_flip(s);
    if 0 <= t < 64 {
        lemma_flip(t);
    }
    if slides(o, s, 1, 1, t) {
        lemma_ray(q, m, s, 1, 1, t);
    }
    if slides(o, s, 1, -1, t) {
        lemma_ray(q, m, s, 1, -1, t);
    }
    if slides(o, s, -1, 1, t) {
        lemma_ray(q, m, s, -1, 1, t);
    }
    if slides(o, s, -1, -1, t) {
        lemma_ray(q, m, s, -1, -1, t);
    }
    if slides(o, s, 1, 0, t) {
        lemma_ray(q, m, s, 1, 0, t);
    }
    if slides(o, s, -1, 0, t) {
        lemma_ray(q, m, s, -1, 0, t);
    }
    if slides(o, s, 0, 1, t) {
        lemma_ray(q, m, s, 0, 1, t);
    }
    if slides(o, s, 0, -1, t) {
        lemma_ray(q, m, s, 0, -1, t);
    }
}

/// Attacks turned upside down.
proof fn lemma_hits(q: Pos, m: Pos, c: Color, pt: PieceType, s: int, t: int)
    requires
        reflects(q, m),
        0 <= s < 64,
        0 <= t < 64,
    ensures
        hits(m, c.other(), pt, flip(s), flip(t)) == hits(q, c, pt, s, t),
{
    lemma_flip(s);
    lemma_flip(t);
    lemma_symmetric(q, m);
    assert(c.other().other() == c);
    if hits(q, c, pt, s, t) {
        lemma_hits_one(q, m, c, pt, s, t);
    }
    if hits(m, c.other(), pt, flip(s), flip(t)) {
        lemma_hits_one(m, q, c.other(), pt, flip(s), flip(t));
    }
}

proof fn lemma_hit(q: Pos, m: Pos, c: Color, pt: PieceType, t: int)
    requires
        reflects(q, m),
        0 <= t < 64,
    ensures
        hit(m, c.other(), pt, flip(t)) == hit(q, c, pt, t),
{
    lemma_symmetric(q, m);
    lemma_flip(t);
    assert(c.other().other() == c);
    if hit(q, c, pt, t) {
        let s = choose|s: int| q.holds(c, pt, s) && #[trigger] hits(q, c, pt, s, t);
        lemma_holds(q, m, c, pt, s);
        lemma_hits(q, m, c, pt, s, t);
        assert(hits(m, c.other(), pt, flip(s), flip(t)));
    }
    if hit(m, c.other(), pt, flip(t)) {
        let s = choose|s: int|
            m.holds(c.other(), pt, s) && #[trigger] hits(m, c.other(), pt, s, flip(t));
        lemma_holds(m, q, c.other(), pt, s);
        lemma_hits(m, q, c.other(), pt, s, flip(t));
        assert(hits(q, c, pt, flip(s), t));
    }
}

/// A term that is worth the same on the mirrored square sums up to the same.
proof fn lemma_term<T: PieceTerm>(a: T, b: T, q: Pos, m: Pos, c: Color, pt: PieceType)
    requires
        reflects(q, m),
        forall|i: int|
            0 <= i < 64 && #[trigger] q.holds(c, pt, i) ==> b.value(
                m,
                c.other(),
                Square(flip(i) as u8),
            ) == a.value(q, c, Square(i as u8)),
    ensures
        sum_term(b, m, c.other(), m.pieces(c.other(), pt)) == sum_term(a, q, c, q.pieces(c, pt)),
{
    let p = |i: int| q.holds(c, pt, i);
    let p2 = |i: int| m.holds(c.other(), pt, i);
    let f = |s: Square| a.value(q, c, s);
    let f2 = |s: Square| b.value(m, c.other(), s);
    assert forall|i: int| 0 <= i < 64 implies p2(flip(i)) == #[trigger] p(i) by {
        lemma_holds(q, m, c, pt, i);
    }
    assert forall|i: int| 0 <= i < 64 && #[trigger] p(i) implies f2(Square(flip(i) as u8)) == f(
        Square(i as u8),
    ) by {
        assert(q.holds(c, pt, i));
    }
    lemma_flipped_total(p, f, p2, f2);
}

proof fn lemma_placement(q: Pos, m: Pos, c: Color, pt: PieceType)
    requires
        reflects(q, m),
    ensures
        placement_part(m, c.other(), pt) == placement_part(q, c, pt),
{
    let a = Placement { pt };
    assert forall|i: int| 0 <= i < 64 && #[trigger] q.holds(c, pt, i) implies a.value(
        m,
        c.other(),
        Square(flip(i) as u8),
    ) == a.value(q, c, Square(i as u8)) by {
        lemma_flip(i);
        law_pst_mirror(pt, Square(i as u8));
        law_pst_mirror(pt, Square(flip(i) as u8));
    }
    lemma_term(a, a, q, m, c, pt);
}

proof fn lemma_reach(q: Pos, m: Pos, c: Color, pt: PieceType, i: int)
    requires
        reflects(q, m),
        0 <= i < 64,
    ensures
        reach_count(m, c.other(), pt, Square(flip(i) as u8)) == reach_count(
            q,
            c,
            pt,
            Square(i as u8),
        ),
{
    lemma_flip(i);
    let p = |t: int| hits(q, c, pt, i, t) && !q.owned(c, t);
    let p2 = |t: int| hits(m, c.other(), pt, flip(i), t) && !m.owned(c.other(), t);
    assert forall|t: int| 0 <= t < 64 implies p2(flip(t)) == #[trigger] p(t) by {
        lemma_hits(q, m, c, pt, i, t);
        lemma_holds(q, m, c, pt, t);
    }
    lemma_flipped_count(p, p2);
    assert((Square(i as u8)).0 as int == i);
    assert((Square(flip(i) as u8)).0 as int == flip(i));
}

proof fn lemma_mobility(q: Pos, m: Pos, c: Color, pt: PieceType)
    requires
        reflects(q, m),
    ensures
        mobility_part(m, c.other(), pt) == mobility_part(q, c, pt),
{
    let a = Mobility { pt };
    assert forall|i: int| 0 <= i < 64 && #[trigger] q.holds(c, pt, i) implies a.value(
        m,
        c.other(),
        Square(flip(i) as u8),
    ) == a.value(q, c, Square(i as u8)) by {
        lemma_reach(q, m, c, pt, i);
    }
    lemma_term(a, a, q, m, c, pt);
}

proof fn lemma_trapped(q: Pos, m: Pos, c: Color)
    requires
        reflects(q, m),
    ensures
        trapped_of(m, c.other()) == trapped_of(q, c),
{
    let a = TrappedBishop {  };
    assert forall|i: int| 0 <= i < 64 && #[trigger] q.holds(c, PieceType::Bishop, i) implies a.value(
        m,
        c.other(),
        Square(flip(i) as u8),
    ) == a.value(q, c, Square(i as u8)) by {
        lemma_reach(q, m, c, PieceType::Bishop, i);
    }
    lemma_term(a, a, q, m, c, PieceType::Bishop);
    let b = RimKnight {  };
    assert forall|i: int| 0 <= i < 64 && #[trigger] q.holds(c, PieceType::Knight, i) implies b.value(
        m,
        c.other(),
        Square(flip(i) as u8),
    ) == b.value(q, c, Square(i as u8)) by {
        lemma_flip(i);
    }
    lemma_term(b, b, q, m, c, PieceType::Knight);
}

proof fn lemma_no_pawn_one(q: Pos, m: Pos, c: Color, file: int)
    requires
        reflects(q, m),
        no_pawn_on(q, c, file),
    ensures
        no_pawn_on(m, c.other(), file),
{
    lemma_symmetric(q, m);
    assert(c.other().other() == c);
    assert forall|i: int| #[trigger] m.holds(c.other(), PieceType::Pawn, i) implies i % 8 != file by {
        lemma_flip(i);
        lemma_holds(m, q, c.other(), PieceType::Pawn, i);
        assert(q.holds(c, PieceType::Pawn, flip(i)));
    }
}

proof fn lemma_no_pawn(q: Pos, m: Pos, c: Color, file: int)
    requires
        reflects(q, m),
    ensures
        no_pawn_on(m, c.other(), file) == no_pawn_on(q, c, file),
{
    lemma_symmetric(q, m);
    assert(c.other().other() == c);
    if no_pawn_on(q, c, file) {
        lemma_no_pawn_one(q, m, c, file);
    }
    if no_pawn_on(m, c.other(), file) {
        lemma_no_pawn_one(m, q, c.other(), file);
    }
}

proof fn lemma_rooks(q: Pos, m: Pos, c: Color)
    requires
        reflects(q, m),
    ensures
        rooks_of(m, c.other()) == rooks_of(q, c),
{
    let a = RookActivity {  };
    assert(c.other().other() == c);
    assert forall|i: int| 0 <= i < 64 && #[trigger] q.holds(c, PieceType::Rook, i) implies a.value(
        m,
        c.other(),
        Square(flip(i) as u8),
    ) == a.value(q, c, Square(i as u8)) by {
        lemma_flip(i);
        lemma_no_pawn(q, m, c, i % 8);
        lemma_no_pawn(q, m, c.other(), i % 8);
    }
    lemma_term(a, a, q, m, c, PieceType::Rook);
}

proof fn lemma_bad_bishop(q: Pos, m: Pos, c: Color)
    requires
        reflects(q, m),
    ensures
        bad_bishop_of(m, c.other()) == bad_bishop_of(q, c),
{
    let a = BadBishop {  };
    assert forall|i: int| 0 <= i < 64 && #[trigger] q.holds(c, PieceType::Bishop, i) implies a.value(
        m,
        c.other(),
        Square(flip(i) as u8),
    ) == a.value(q, c, Square(i as u8)) by {
        lemma_flip(i);
        let p = |t: int| q.holds(c, PieceType::Pawn, t) && light(t) == light(i);
        let p2 = |t: int|
            m.holds(c.other(), PieceType::Pawn, t) && light(t) == light(flip(i));
        assert forall|t: int| 0 <= t < 64 implies p2(flip(t)) == #[trigger] p(t) by {
            lemma_flip(t);
            lemma_holds(q, m, c, PieceType::Pawn, t);
        }
        lemma_flipped_count(p, p2);
        assert((Square(i as u8)).0 as int == i);
        assert((Square(flip(i) as u8)).0 as int == flip(i));
    }
    lemma_term(a, a, q, m, c, PieceType::Bishop);
}

proof fn lemma_outpost_one(q: Pos, m: Pos, c: Color, i: int)
    requires
        reflects(q, m),
        0 <= i < 64,
        outpost(q, c, Square(i as u8)),
    ensures
        outpost(m, c.other(), Square(flip(i) as u8)),
{
    let s = Square(i as u8);
    let z = Square(flip(i) as u8);
    lemma_symmetric(q, m);
    lemma_flip(i);
    assert(c.other().other() == c);
    let j = choose|j: int| #[trigger]
        q.holds(c, PieceType::Pawn, j) && pawn_step(c.other(), s.0 as int, j);
    lemma_flip(j);
    lemma_holds(q, m, c, PieceType::Pawn, j);
    assert(m.holds(c.other(), PieceType::Pawn, flip(j)) && pawn_step(c, z.0 as int, flip(j)));
    assert forall|k: int| #[trigger]
        m.holds(c, PieceType::Pawn, k) && ahead(c.other(), z.r(), k) implies !next_to(
        k % 8,
        z.f(),
    ) by {
        lemma_flip(k);
        lemma_holds(m, q, c, PieceType::Pawn, k);
        assert(q.holds(c.other(), PieceType::Pawn, flip(k)) && ahead(c, s.r(), flip(k)));
    }
}

proof fn lemma_outposts(q: Pos, m: Pos, c: Color)
    requires
        reflects(q, m),
    ensures
        outposts_of(m, c.other()) == outposts_of(q, c),
{
    lemma_symmetric(q, m);
    assert(c.other().other() == c);
    let a = Outpost { knight: true };
    let b = Outpost { knight: false };
    assert forall|i: int| 0 <= i < 64 implies outpost(m, c.other(), Square(flip(i) as u8))
        == #[trigger] outpost(q, c, Square(i as u8)) by {
        lemma_flip(i);
        if outpost(q, c, Square(i as u8)) {
            lemma_outpost_one(q, m, c, i);
        }
        if outpost(m, c.other(), Square(flip(i) as u8)) {
            lemma_outpost_one(m, q, c.other(), flip(i));
        }
    }
    assert forall|i: int| 0 <= i < 64 && #[trigger] q.holds(c, PieceType::Knight, i) implies a.value(
        m,
        c.other(),
        Square(flip(i) as u8),
    ) == a.value(q, c, Square(i as u8)) by {
        assert(outpost(m, c.other(), Square(flip(i) as u8)) == outpost(q, c, Square(i as u8)));
    }
    lemma_term(a, a, q, m, c, PieceType::Knight);
    assert forall|i: int| 0 <= i < 64 && #[trigger] q.holds(c, PieceType::Bishop, i) implies b.value(
        m,
        c.other(),
        Square(flip(i) as u8),
    ) == b.value(q, c, Square(i as u8)) by {
        assert(outpost(m, c.other(), Square(flip(i) as u8)) == outpost(q, c, Square(i as u8)));
    }
    lemma_term(b, b, q, m, c, PieceType::Bishop);
}

proof fn lemma_king_file(q: Pos, m: Pos, c: Color, file: int)
    requires
        reflects(q, m),
    ensures
        king_file(m, c.other(), file) == king_file(q, c, file),
{
    assert(c.other().other() == c);
    lemma_no_pawn(q, m, c, file);
    lemma_no_pawn(q, m, c.other(), file);
}

/// A piece of color `c` on `i` attacks the zone of the king on `k`.
#[verifier::opaque]
spec fn zone_hit(q: Pos, c: Color, pt: PieceType, k: int, i: int) -> bool {
    exists|t: int| #[trigger] in_zone(k, t) && hits(q, c, pt, i, t)
}

proof fn lemma_zone_one(q: Pos, m: Pos, c: Color, pt: PieceType, k: int, i: int)
    requires
        reflects(q, m),
        0 <= k < 64,
        0 <= i < 64,
        zone_hit(q, c, pt, k, i),
    ensures
        zone_hit(m, c.other(), pt, flip(k), flip(i)),
{
    reveal(zone_hit);
    let t = choose|t: int| #[trigger] in_zone(k, t) && hits(q, c, pt, i, t);
    lemma_flip(k);
    lemma_flip(t);
    lemma_hits(q, m, c, pt, i, t);
    assert(in_zone(flip(k), flip(t)));
}

proof fn lemma_zone_hit(q: Pos, m: Pos, c: Color, pt: PieceType, k: int, i: int)
    requires
        reflects(q, m),
        0 <= k < 64,
        0 <= i < 64,
    ensures
        zone_hit(m, c.other(), pt, flip(k), flip(i)) == zone_hit(q, c, pt, k, i),
{
    assert(c.other().other() == c);
    lemma_symmetric(q, m);
    lemma_flip(k);
    lemma_flip(i);
    if zone_hit(q, c, pt, k, i) {
        lemma_zone_one(q, m, c, pt, k, i);
    }
    if zone_hit(m, c.other(), pt, flip(k), flip(i)) {
        lemma_zone_one(m, q, c.other(), pt, flip(k), flip(i));
    }
}

proof fn lemma_zone_value(q: Pos, c: Color, pt: PieceType, k: Square, i: int)
    requires
        0 <= i < 64,
    ensures
        (ZoneAttack { pt, king: k }).value(q, c, Square(i as u8)) == (if zone_hit(
            q,
            c,
            pt,
            k.0 as int,
            i,
        ) {
            zone_penalty(pt)
        } else {
            Pair::zero()
        }),
{
    reveal(zone_hit);
    let a = ZoneAttack { pt, king: k };
    let s = Square(i as u8);
    assert(s.0 as int == i);
    let near = exists|t: int| #[trigger]
        in_zone(a.king.0 as int, t) && hits(q, c, a.pt, s.0 as int, t);
    if near {
        let t = choose|t: int| #[trigger]
            in_zone(a.king.0 as int, t) && hits(q, c, a.pt, s.0 as int, t);
        assert(in_zone(k.0 as int, t));
        assert(hits(q, c, pt, i, t));
        assert(zone_hit(q, c, pt, k.0 as int, i));
    }
    if zone_hit(q, c, pt, k.0 as int, i) {
        let t = choose|t: int| #[trigger] in_zone(k.0 as int, t) && hits(q, c, pt, i, t);
        assert(in_zone(a.king.0 as int, t));
        assert(hits(q, c, a.pt, s.0 as int, t));
        assert(near);
    }
    assert(a.value(q, c, s) == (if near {
        zone_penalty(pt)
    } else {
        Pair::zero()
    }));
}

proof fn lemma_zone(q: Pos, m: Pos, c: Color, pt: PieceType, k: Square)
    requires
        reflects(q, m),
        k.ok(),
    ensures
        zone_part(m, c.other(), pt, Square(flip(k.0 as int) as u8)) == zone_part(q, c, pt, k),
{
    let e = c.other();
    assert(e.other() == c);
    let ki = k.0 as int;
    lemma_flip(ki);
    let z = Square(flip(ki) as u8);
    assert(z.0 as int == flip(ki));
    let a = ZoneAttack { pt, king: k };
    let b = ZoneAttack { pt, king: z };
    assert forall|i: int| 0 <= i < 64 && #[trigger] q.holds(e, pt, i) implies b.value(
        m,
        e.other(),
        Square(flip(i) as u8),
    ) == a.value(q, e, Square(i as u8)) by {
        lemma_flip(i);
        lemma_zone_hit(q, m, e, pt, ki, i);
        lemma_zone_value(q, e, pt, k, i);
        lemma_zone_value(m, c, pt, z, flip(i));
    }
    lemma_term(a, b, q, m, e, pt);
}

proof fn lemma_king_safety(q: Pos, m: Pos, c: Color)
    requires
        reflects(q, m),
        q.pieces(c, PieceType::King).len() <= 1,
    ensures
        king_safety_of(m, c.other()) == king_safety_of(q, c),
{
    lemma_king(q, m, c);
    if let Some(k) = q.king(c) {
        lemma_flip(k.0 as int);
        let z = Square(flip(k.0 as int) as u8);
        assert(z.f() == k.f() && z.r() == 7 - k.r());
        let p = |i: int| shields(q, c, k, i);
        let p2 = |i: int| shields(m, c.other(), z, i);
        assert forall|i: int| 0 <= i < 64 implies p2(flip(i)) == #[trigger] p(i) by {
            lemma_flip(i);
            lemma_holds(q, m, c, PieceType::Pawn, i);
        }
        lemma_flipped_count(p, p2);
        lemma_king_file(q, m, c, k.f() - 1);
        lemma_king_file(q, m, c, k.f());
        lemma_king_file(q, m, c, k.f() + 1);
        lemma_zone(q, m, c, PieceType::Knight, k);
        lemma_zone(q, m, c, PieceType::Bishop, k);
        lemma_zone(q, m, c, PieceType::Rook, k);
        lemma_zone(q, m, c, PieceType::Queen, k);
    }
}

proof fn lemma_threats(q: Pos, m: Pos, c: Color)
    requires
        reflects(q, m),
    ensures
        threats_of(m, c.other()) == threats_of(q, c),
{
    let e = c.other();
    assert(e.other() == c);
    assert forall|t: int| 0 <= t < 64 implies hit(m, e, PieceType::Pawn, #[trigger] flip(t)) == hit(
        q,
        c,
        PieceType::Pawn,
        t,
    ) && hit(m, e, PieceType::Rook, flip(t)) == hit(q, c, PieceType::Rook, t) && minor_hit(
        m,
        e,
        flip(t),
    ) == minor_hit(q, c, t) && minor_at(m, c, flip(t)) == minor_at(q, e, t) && m.holds(
        c,
        PieceType::Rook,
        flip(t),
    ) == q.holds(e, PieceType::Rook, t) && m.holds(c, PieceType::Queen, flip(t)) == q.holds(
        e,
        PieceType::Queen,
        t,
    ) by {
        lemma_hit(q, m, c, PieceType::Pawn, t);
        lemma_hit(q, m, c, PieceType::Knight, t);
        lemma_hit(q, m, c, PieceType::Bishop, t);
        lemma_hit(q, m, c, PieceType::Rook, t);
        lemma_holds(q, m, e, PieceType::Knight, t);
        lemma_holds(q, m, e, PieceType::Bishop, t);
        lemma_holds(q, m, e, PieceType::Rook, t);
        lemma_holds(q, m, e, PieceType::Queen, t);
    }
    lemma_flipped_count(
        |t: int| hit(q, c, PieceType::Pawn, t) && minor_at(q, e, t),
        |t: int| hit(m, e, PieceType::Pawn, t) && minor_at(m, c, t),
    );
    lemma_flipped_count(
        |t: int| hit(q, c, PieceType::Pawn, t) && q.holds(e, PieceType::Rook, t),
        |t: int| hit(m, e, PieceType::Pawn, t) && m.holds(c, PieceType::Rook, t),
    );
    lemma_flipped_count(
        |t: int| hit(q, c, PieceType::Pawn, t) && q.holds(e, PieceType::Queen, t),
        |t: int| hit(m, e, PieceType::Pawn, t) && m.holds(c, PieceType::Queen, t),
    );
    lemma_flipped_count(
        |t: int| minor_hit(q, c, t) && q.holds(e, PieceType::Rook, t),
        |t: int| minor_hit(m, e, t) && m.holds(c, PieceType::Rook, t),
    );
    lemma_flipped_count(
        |t: int| minor_hit(q, c, t) && q.holds(e, PieceType::Queen, t),
        |t: int| minor_hit(m, e, t) && m.holds(c, PieceType::Queen, t),
    );
    lemma_flipped_count(
        |t: int| hit(q, c, PieceType::Rook, t) && q.holds(e, PieceType::Queen, t),
        |t: int| hit(m, e, PieceType::Rook, t) && m.holds(c, PieceType::Queen, t),
    );
}

proof fn lemma_space(q: Pos, m: Pos, c: Color)
    requires
        reflects(q, m),
    ensures
        space_of(m, c.other()) == space_of(q, c),
{
    let p = |i: int| advanced(q, c, i);
    let p2 = |i: int| advanced(m, c.other(), i);
    assert forall|i: int| 0 <= i < 64 implies p2(flip(i)) == #[trigger] p(i) by {
        lemma_flip(i);
        lemma_holds(q, m, c, PieceType::Pawn, i);
    }
    lemma_flipped_count(p, p2);
}

/// One side is worth as much as the other in the mirrored position.
proof fn lemma_side_total(q: Pos, m: Pos, c: Color)
    requires
        reflects(q, m),
        q.pieces(c, PieceType::King).len() <= 1,
    ensures
        side_total(m, c.other()) == side_total(q, c),
{
    reveal(side_total);
    lemma_placement(q, m, c, PieceType::Pawn);
    lemma_placement(q, m, c, PieceType::Knight);
    lemma_placement(q, m, c, PieceType::Bishop);
    lemma_placement(q, m, c, PieceType::Rook);
    lemma_placement(q, m, c, PieceType::Queen);
    lemma_placement(q, m, c, PieceType::King);
    lemma_mobility(q, m, c, PieceType::Knight);
    lemma_mobility(q, m, c, PieceType::Bishop);
    lemma_mobility(q, m, c, PieceType::Rook);
    lemma_mobility(q, m, c, PieceType::Queen);
    lemma_king_safety(q, m, c);
    lemma_pieces(q, m, c, PieceType::Bishop);
    lemma_bad_bishop(q, m, c);
    lemma_outposts(q, m, c);
    lemma_rooks(q, m, c);
    lemma_threats(q, m, c);
    lemma_space(q, m, c);
    lemma_trapped(q, m, c);
    assert(placement_of(m, c.other()) == placement_of(q, c));
    assert(mobility_of(m, c.other()) == mobility_of(q, c));
    assert(bishop_pair_of(m, c.other()) == bishop_pair_of(q, c));
}

proof fn lemma_pawn_shape_one(q: Pos, m: Pos, c: Color, i: int)
    requires
        reflects(q, m),
        0 <= i < 64,
    ensures
        isolated(q, c, Square(i as u8)) ==> isolated(m, c.other(), Square(flip(i) as u8)),
        passed(q, c, Square(i as u8)) ==> passed(m, c.other(), Square(flip(i) as u8)),
        file_clear(q, c, Square(i as u8)) ==> file_clear(m, c.other(), Square(flip(i) as u8)),
{
    let e = c.other();
    assert(e.other() == c);
    let s = Square(i as u8);
    let z = Square(flip(i) as u8);
    lemma_symmetric(q, m);
    lemma_flip(i);
    assert(z.f() == s.f() && z.r() == 7 - s.r());
    assert forall|k: int| #[trigger] m.holds(e, PieceType::Pawn, k) implies q.holds(
        c,
        PieceType::Pawn,
        flip(k),
    ) && flip(k) % 8 == k % 8 by {
        lemma_flip(k);
        lemma_holds(m, q, e, PieceType::Pawn, k);
    }
    assert forall|k: int| #[trigger] m.holds(c, PieceType::Pawn, k) implies q.holds(
        e,
        PieceType::Pawn,
        flip(k),
    ) && flip(k) % 8 == k % 8 && (ahead(e, z.r(), k) ==> ahead(c, s.r(), flip(k))) by {
        lemma_flip(k);
        lemma_holds(m, q, c, PieceType::Pawn, k);
    }
}

proof fn lemma_pawn_shape(q: Pos, m: Pos, c: Color, i: int)
    requires
        reflects(q, m),
        0 <= i < 64,
    ensures
        isolated(m, c.other(), Square(flip(i) as u8)) == isolated(q, c, Square(i as u8)),
        passed(m, c.other(), Square(flip(i) as u8)) == passed(q, c, Square(i as u8)),
        file_clear(m, c.other(), Square(flip(i) as u8)) == file_clear(q, c, Square(i as u8)),
{
    lemma_symmetric(q, m);
    lemma_flip(i);
    assert(c.other().other() == c);
    lemma_pawn_shape_one(q, m, c, i);
    lemma_pawn_shape_one(m, q, c.other(), flip(i));
}

proof fn lemma_doubled(q: Pos, m: Pos, c: Color, n: int)
    requires
        reflects(q, m),
    ensures
        doubled(m, c.other(), n) == doubled(q, c, n),
    decreases n,
{
    if n > 0 {
        lemma_doubled(q, m, c, n - 1);
        let p = |i: int| q.holds(c, PieceType::Pawn, i) && i % 8 == n - 1;
        let p2 = |i: int| m.holds(c.other(), PieceType::Pawn, i) && i % 8 == n - 1;
        assert forall|i: int| 0 <= i < 64 implies p2(flip(i)) == #[trigger] p(i) by {
            lemma_flip(i);
            lemma_holds(q, m, c, PieceType::Pawn, i);
        }
        lemma_flipped_count(p, p2);
        assert(pawns_on(m, c.other(), n - 1) == pawns_on(q, c, n - 1));
    }
}

proof fn lemma_friend_one(q: Pos, m: Pos, c: Color, file: int)
    requires
        reflects(q, m),
        exists|i: int| #[trigger] passer(q, c, i) && next_to(i % 8, file),
    ensures
        exists|i: int| #[trigger] passer(m, c.other(), i) && next_to(i % 8, file),
{
    let i = choose|i: int| #[trigger] passer(q, c, i) && next_to(i % 8, file);
    lemma_flip(i);
    lemma_holds(q, m, c, PieceType::Pawn, i);
    lemma_pawn_shape(q, m, c, i);
    assert(passer(m, c.other(), flip(i)));
}

/// What a passed pawn on `s` gains from passed pawns beside it.
#[verifier::opaque]
spec fn connected_value(q: Pos, c: Color) -> spec_fn(Square) -> Pair {
    |s: Square|
        if exists|i: int| #[trigger] passer(q, c, i) && next_to(i % 8, s.f()) {
            let r = rel_rank(c, s.r());
            Pair {
                mg: crate::eval::pawns::CONNECTED_PASSED_MG[r] as int,
                eg: crate::eval::pawns::CONNECTED_PASSED_EG[r] as int,
            }
        } else {
            Pair::zero()
        }
}

proof fn lemma_connected_is(q: Pos, c: Color)
    ensures
        total_connected(q, c) == total(pick(|i: int| passer(q, c, i), 0), connected_value(q, c)),
{
    reveal(connected_value);
}

proof fn lemma_connected_value(q: Pos, m: Pos, c: Color, i: int)
    requires
        reflects(q, m),
        0 <= i < 64,
    ensures
        connected_value(m, c.other())(Square(flip(i) as u8)) == connected_value(q, c)(
            Square(i as u8),
        ),
{
    reveal(connected_value);
    let e = c.other();
    assert(e.other() == c);
    lemma_symmetric(q, m);
    lemma_flip(i);
    let s = Square(i as u8);
    let z = Square(flip(i) as u8);
    assert(s.f() == i % 8 && z.f() == i % 8 && rel_rank(e, z.r()) == rel_rank(c, s.r()));
    if exists|j: int| #[trigger] passer(q, c, j) && next_to(j % 8, s.f()) {
        lemma_friend_one(q, m, c, s.f());
    }
    if exists|j: int| #[trigger] passer(m, e, j) && next_to(j % 8, z.f()) {
        lemma_friend_one(m, q, e, z.f());
    }
}

proof fn lemma_passer(q: Pos, m: Pos, c: Color, i: int)
    requires
        reflects(q, m),
        0 <= i < 64,
    ensures
        passer(m, c.other(), flip(i)) == passer(q, c, i),
{
    lemma_flip(i);
    lemma_holds(q, m, c, PieceType::Pawn, i);
    lemma_pawn_shape(q, m, c, i);
}

proof fn lemma_connected(q: Pos, m: Pos, c: Color)
    requires
        reflects(q, m),
    ensures
        total_connected(m, c.other()) == total_connected(q, c),
{
    let e = c.other();
    let p = |i: int| passer(q, c, i);
    let p2 = |i: int| passer(m, e, i);
    let f = connected_value(q, c);
    let f2 = connected_value(m, e);
    lemma_connected_is(q, c);
    lemma_connected_is(m, e);
    assert forall|i: int| 0 <= i < 64 implies p2(flip(i)) == #[trigger] p(i) by {
        lemma_passer(q, m, c, i);
    }
    assert forall|i: int| 0 <= i < 64 && #[trigger] p(i) implies f2(Square(flip(i) as u8)) == f(
        Square(i as u8),
    ) by {
        lemma_connected_value(q, m, c, i);
    }
    lemma_flipped_total(p, f, p2, f2);
}

proof fn lemma_pawn_structure(q: Pos, m: Pos, c: Color)
    requires
        reflects(q, m),
    ensures
        pawn_structure(m, c.other()) == pawn_structure(q, c),
{
    reveal(pawn_structure);
    let a = PawnShape {  };
    assert forall|i: int| 0 <= i < 64 && #[trigger] q.holds(c, PieceType::Pawn, i) implies a.value(
        m,
        c.other(),
        Square(flip(i) as u8),
    ) == a.value(q, c, Square(i as u8)) by {
        lemma_flip(i);
        lemma_pawn_shape(q, m, c, i);
    }
    lemma_term(a, a, q, m, c, PieceType::Pawn);
    lemma_doubled(q, m, c, 8);
    lemma_connected(q, m, c);
}

proof fn lemma_phase(q: Pos, m: Pos, pt: PieceType)
    requires
        reflects(q, m),
    ensures
        phase_part(m, pt) == phase_part(q, pt),
{
    lemma_pieces(q, m, Color::White, pt);
    lemma_pieces(q, m, Color::Black, pt);
    assert(Color::White.other() == Color::Black && Color::Black.other() == Color::White);
}

proof fn lemma_tapered(s: Pair, t: Pair, phase: int)
    requires
        t.mg == -s.mg,
        t.eg == -s.eg,
    ensures
        tapered(t, phase) == -tapered(s, phase),
{
    let ph = crate::eval::score::clamp_phase(phase);
    let (a, b) = (s.mg, s.eg);
    assert((-a) * ph + (-b) * (24 - ph) == -(a * ph + b * (24 - ph))) by (nonlinear_arith);
    assert(t.mg * ph + t.eg * (24 - ph) == -(s.mg * ph + s.eg * (24 - ph)));
}

proof fn lemma_mop_up(q: Pos, m: Pos, phase: int, cp: int)
    requires
        reflects(q, m),
        q.pieces(Color::White, PieceType::King).len() <= 1,
        q.pieces(Color::Black, PieceType::King).len() <= 1,
    ensures
        mop_up(m, phase, -cp) == -mop_up(q, phase, cp),
{
    assert(Color::White.other() == Color::Black && Color::Black.other() == Color::White);
    lemma_king(q, m, Color::White);
    lemma_king(q, m, Color::Black);
    if q.king(Color::White) is Some && q.king(Color::Black) is Some {
        let wk = q.king(Color::White)->0;
        let bk = q.king(Color::Black)->0;
        lemma_flip(wk.0 as int);
        lemma_flip(bk.0 as int);
        let w2 = m.king(Color::White)->0;
        let b2 = m.king(Color::Black)->0;
        assert(w2.f() == bk.f() && w2.r() == 7 - bk.r());
        assert(b2.f() == wk.f() && b2.r() == 7 - wk.r());
        assert(king_distance(w2, b2) == king_distance(wk, bk));
        assert(edge_distance(w2) == edge_distance(bk));
        assert(edge_distance(b2) == edge_distance(wk));
    }
}

/// With the colors exchanged and the board turned upside down, the evaluation
/// from the point of view of the side to move is the same. There is at most one
/// king of each color.
pub proof fn law_eval_mirror(p: Pos)
    requires
        p.squares.len() == 64,
        p.pieces(Color::White, PieceType::King).len() <= 1,
        p.pieces(Color::Black, PieceType::King).len() <= 1,
    ensures
        eval_score(mirror(p)) == eval_score(p),
{
    let q = bare(p);
    let m = bare(mirror(p));
    lemma_mirror(p);
    assert(Color::White.other() == Color::Black && Color::Black.other() == Color::White);
    lemma_bare_kings(p, Color::White);
    lemma_bare_kings(p, Color::Black);
    lemma_side_total(q, m, Color::White);
    lemma_side_total(q, m, Color::Black);
    lemma_pawn_structure(q, m, Color::White);
    lemma_pawn_structure(q, m, Color::Black);
    lemma_phase(q, m, PieceType::Knight);
    lemma_phase(q, m, PieceType::Bishop);
    lemma_phase(q, m, PieceType::Rook);
    lemma_phase(q, m, PieceType::Queen);
    assert(phase_of(m) == phase_of(q));
    let s = side_total(q, Color::White).minus(side_total(q, Color::Black)).plus(pawns_value(q));
    let t = side_total(m, Color::White).minus(side_total(m, Color::Black)).plus(pawns_value(m));
    lemma_tapered(s, t, phase_of(q));
    lemma_mop_up(q, m, phase_of(q), tapered(s, phase_of(q)));
    assert(white_eval(m) == -white_eval(q));
}

proof fn lemma_bare_kings(p: Pos, c: Color)
    ensures
        bare(p).pieces(c, PieceType::King) == p.pieces(c, PieceType::King),
{
    crate::board::bitboard::lemma_pick_ext(
        |i: int| bare(p).holds(c, PieceType::King, i),
        |i: int| p.holds(c, PieceType::King, i),
        0,
    );
}

proof fn lemma_start_kings(c: Color)
    ensures
        start_position().pieces(c, PieceType::King).len() <= 1,
{
    let p = start_position();
    let f = |i: int| p.holds(c, PieceType::King, i);
    lemma_pick_members(f, 0);
    let ks = p.pieces(c, PieceType::King);
    assert(ks == pick(f, 0));
    if ks.len() >= 2 {
        assert(f(pick(f, 0)[0].0 as int) && f(pick(f, 0)[1].0 as int));
        assert(pick(f, 0)[0].0 < pick(f, 0)[1].0);
    }
}

/// The starting position is worth nothing to either side.
pub proof fn law_start_is_even()
    ensures
        eval_score(start_position()) == 0,
{
    let p = start_position();
    let m = mirror(p);
    lemma_start_kings(Color::White);
    lemma_start_kings(Color::Black);
    law_eval_mirror(p);
    assert forall|i: int| 0 <= i < 64 implies m.squares[i] == #[trigger] p.squares[i] by {
        lemma_flip(i);
    }
    assert(m.squares =~= p.squares);
    assert(bare(m) =~= bare(p));
}

} // verus!
