//! What moves do, in terms of squares and pieces.

use crate::board::{CastlingRights, Pos};
use crate::board::bitboard::{lemma_pick_contains, pick};
use crate::board::piece::{Color, Piece, PieceType};
use crate::board::square::Square;
use crate::movegen::attacks::{
    attacked, attacker, diagonal, occ_of, orthogonal, pawn_step, piece_attacks, ray_at, ray_on,
    ray_reaches, slides,
};
use crate::movegen::generate::{
    castling_moves, diagonal_pieces, diagonal_reach, ep_captures, flat, in_check, king_moves,
    king_reach, knight_moves, knight_reach, on_promo_rank, orthogonal_pieces, orthogonal_reach,
    pawn_capture, pawn_captures, pawn_moves, pawn_pushes, promotions, promotions_of, pseudo_moves,
    push_of, single_push, double_push, slider_moves, step_moves, step_of,
};
use crate::movegen::legal::{
    checkmated, law_legal_moves, legal, perft_count, perft_sum, stalemated,
};
use crate::movegen::make_move::{apply, apply_null, castle_mask_of};
use crate::movegen::moves::{law_move_pack, pack, Move, MoveFlag};
use crate::movegen::rules::{law_pseudo_moves_shape, shape, valid};
use vstd::prelude::*;

verus! {

proof fn lemma_legal_shape(p: Pos, mv: Move)
    requires
        valid(p),
        legal(p).contains(mv),
    ensures
        shape(p, mv),
        p.wf(),
        mv.src().ok(),
        mv.dst().ok(),
{
    reveal(valid);
    law_legal_moves(p, mv);
    law_pseudo_moves_shape(p);
}

/// A legal move resets the clock of the 50-move rule when a pawn moves or something
/// stands on the target, and counts it up otherwise. The number of the move goes up
/// after each move of Black.
pub proof fn law_clocks(p: Pos, mv: Move)
    requires
        valid(p),
        legal(p).contains(mv),
        0 <= p.halfmove < 65535,
        0 <= p.fullmove < 65535,
    ensures
        ({
            let q = apply(p, mv);
            &&& p.typed(PieceType::Pawn, mv.src().0 as int) || p.occupied(mv.dst().0 as int)
                ==> q.halfmove == 0
            &&& !p.typed(PieceType::Pawn, mv.src().0 as int) && !p.occupied(mv.dst().0 as int)
                ==> q.halfmove == p.halfmove + 1
            &&& q.fullmove == p.fullmove + (if p.side == Color::Black {
                1int
            } else {
                0
            })
            &&& q.side != p.side
        }),
{
    lemma_legal_shape(p, mv);
    if mv.castles() {
        reveal(valid);
    }
}

proof fn lemma_mask(x: u8, a: u8, b: u8, f: u8)
    by (bit_vector)
    requires
        f == 1 || f == 2 || f == 4 || f == 8,
    ensures
        ((x & !(a | b)) & f != 0) <==> (x & f != 0 && a & f == 0 && b & f == 0),
{
}

proof fn lemma_masks(f: u8)
    by (bit_vector)
    ensures
        f == 1 ==> 2u8 & f == 0 && 3u8 & f != 0 && 1u8 & f != 0 && 8u8 & f == 0 && 12u8 & f == 0
            && 4u8 & f == 0,
        f == 2 ==> 2u8 & f != 0 && 3u8 & f != 0 && 1u8 & f == 0 && 8u8 & f == 0 && 12u8 & f == 0
            && 4u8 & f == 0,
        f == 4 ==> 2u8 & f == 0 && 3u8 & f == 0 && 1u8 & f == 0 && 8u8 & f == 0 && 12u8 & f != 0
            && 4u8 & f != 0,
        f == 8 ==> 2u8 & f == 0 && 3u8 & f == 0 && 1u8 & f == 0 && 8u8 & f != 0 && 12u8 & f != 0
            && 4u8 & f == 0,
        0u8 & f == 0,
{
}

/// A castling right is lost exactly when a move leaves or reaches the square of its
/// king or of its rook: e1 and h1, e1 and a1, e8 and h8, e8 and a8.
pub proof fn law_castling_rights(p: Pos, mv: Move)
    ensures
        ({
            let c = apply(p, mv).castling;
            let (s, t) = (mv.src().0, mv.dst().0);
            &&& c.holds(CastlingRights::WHITE_KING) <==> p.castling.holds(1) && s != 4 && s != 7 && t
                != 4 && t != 7
            &&& c.holds(CastlingRights::WHITE_QUEEN) <==> p.castling.holds(2) && s != 4 && s != 0 && t
                != 4 && t != 0
            &&& c.holds(CastlingRights::BLACK_KING) <==> p.castling.holds(4) && s != 60 && s != 63
                && t != 60 && t != 63
            &&& c.holds(CastlingRights::BLACK_QUEEN) <==> p.castling.holds(8) && s != 60 && s != 56
                && t != 60 && t != 56
        }),
{
    let (a, b) = (castle_mask_of(mv.src().0 as int), castle_mask_of(mv.dst().0 as int));
    lemma_mask(p.castling.0, a, b, 1);
    lemma_mask(p.castling.0, a, b, 2);
    lemma_mask(p.castling.0, a, b, 4);
    lemma_mask(p.castling.0, a, b, 8);
    lemma_masks(1);
    lemma_masks(2);
    lemma_masks(4);
    lemma_masks(8);
}

/// After a legal move there is an en passant square exactly when a pawn has gone two
/// ranks: the square that it has passed.
pub proof fn law_ep_square(p: Pos, mv: Move)
    requires
        valid(p),
        legal(p).contains(mv),
    ensures
        ({
            let (s, t) = (mv.src(), mv.dst());
            let two = p.typed(PieceType::Pawn, s.0 as int) && (t.r() == s.r() + 2 || t.r() == s.r()
                - 2);
            &&& apply(p, mv).ep is Some <==> two
            &&& apply(p, mv).ep matches Some(e) ==> e.f() == s.f() && e.f() == t.f() && 2 * e.r()
                == s.r() + t.r()
        }),
{
    lemma_legal_shape(p, mv);
    reveal(valid);
}

/// What a legal move does to the squares: its piece, or what a pawn becomes, stands on
/// the target and no longer on the source. A pawn that takes en passant removes the
/// pawn beside its source on the file of the target; castling takes the rook from its
/// corner to the square that the king has passed. All other squares stay as they are.
pub proof fn law_squares_after(p: Pos, mv: Move)
    requires
        valid(p),
        legal(p).contains(mv),
    ensures
        ({
            let q = apply(p, mv);
            let (s, t) = (mv.src().0 as int, mv.dst().0 as int);
            let passed = 8 * (s / 8) + t % 8;
            &&& p.owned(p.side, s)
            &&& q.at(s) is None
            &&& q.at(t) == (match mv.promo() {
                Some(pt) => Some(Piece { color: p.side, piece_type: pt }),
                None => p.at(s),
            })
            &&& mv.en_passant() ==> p.holds(p.side, PieceType::Pawn, s) && q.at(passed) is None
                && p.holds(p.side.other(), PieceType::Pawn, passed)
            &&& mv.castles() && t == s + 2 ==> q.at(s + 1) == p.at(s + 3) && q.at(s + 3) is None
                && p.holds(p.side, PieceType::Rook, s + 3) && p.holds(p.side, PieceType::King, s)
            &&& mv.castles() && t == s - 2 ==> q.at(s - 1) == p.at(s - 4) && q.at(s - 4) is None
                && p.holds(p.side, PieceType::Rook, s - 4) && p.holds(p.side, PieceType::King, s)
            &&& mv.castles() ==> t == s + 2 || t == s - 2
            &&& forall|i: int|
                0 <= i < 64 && i != s && i != t && (mv.en_passant() ==> i != passed) && (
                mv.castles() && t == s + 2 ==> i != s + 1 && i != s + 3) && (mv.castles() && t == s
                    - 2 ==> i != s - 1 && i != s - 4) ==> #[trigger] q.at(i) == p.at(i)
        }),
{
    lemma_legal_shape(p, mv);
    reveal(valid);
    if mv.en_passant() {
        let (s, t) = (mv.src().0 as int, mv.dst().0 as int);
        assert(pawn_step(p.side.other(), t, s) && p.holds(p.side, PieceType::Pawn, s));
        assert(crate::movegen::rules::ep_taken(p, mv.dst()));
    }
}

/// How pieces that do not slide attack: a knight two squares along one line and one
/// along the other, a king to every square next to it, a pawn to the two squares
/// diagonally in front of it.
pub proof fn law_step_attacks(occ: spec_fn(int) -> bool, c: Color, s: int, t: int)
    requires
        0 <= s < 64,
        0 <= t < 64,
    ensures
        ({
            let (x, y) = (t % 8 - s % 8, t / 8 - s / 8);
            let hits = |pt: PieceType| piece_attacks(occ, Piece { color: c, piece_type: pt }, s, t);
            &&& hits(PieceType::Knight) <==> x * x + y * y == 5
            &&& hits(PieceType::King) <==> x * x + y * y == 1 || x * x + y * y == 2
            &&& hits(PieceType::Pawn) <==> x * x == 1 && y == (if c == Color::White {
                1int
            } else {
                -1
            })
        }),
{
    let (x, y) = (t % 8 - s % 8, t / 8 - s / 8);
    lemma_square_of(x);
    lemma_square_of(y);
}

proof fn lemma_square_of(x: int)
    requires
        -7 <= x <= 7,
    ensures
        x == 0 ==> x * x == 0,
        x == 1 || x == -1 ==> x * x == 1,
        x == 2 || x == -2 ==> x * x == 4,
        !(-2 <= x <= 2) ==> x * x >= 9,
{
    if x >= 3 || x <= -3 {
        assert(x * x >= 9) by (nonlinear_arith)
            requires
                x >= 3 || x <= -3,
        ;
    }
}

/// How pieces that slide attack: a bishop along diagonals, a rook along ranks and
/// files, a queen both ways, as far as the board if it is empty.
pub proof fn law_slide_attacks(occ: spec_fn(int) -> bool, c: Color, s: int, t: int)
    requires
        0 <= s < 64,
        0 <= t < 64,
    ensures
        ({
            let (x, y) = (t % 8 - s % 8, t / 8 - s / 8);
            let hits = |pt: PieceType| piece_attacks(occ, Piece { color: c, piece_type: pt }, s, t);
            let free = forall|i: int| !(#[trigger] occ(i));
            &&& hits(PieceType::Bishop) ==> x != 0 && (x == y || x == -y)
            &&& hits(PieceType::Rook) ==> (x == 0) != (y == 0)
            &&& hits(PieceType::Queen) <==> hits(PieceType::Bishop) || hits(PieceType::Rook)
            &&& free && x != 0 && (x == y || x == -y) ==> hits(PieceType::Bishop)
            &&& free && (x == 0) != (y == 0) ==> hits(PieceType::Rook)
        }),
{
    let (x, y) = (t % 8 - s % 8, t / 8 - s / 8);
    lemma_slides(occ, s, 1, 1, t);
    lemma_slides(occ, s, 1, -1, t);
    lemma_slides(occ, s, -1, 1, t);
    lemma_slides(occ, s, -1, -1, t);
    lemma_slides(occ, s, 1, 0, t);
    lemma_slides(occ, s, -1, 0, t);
    lemma_slides(occ, s, 0, 1, t);
    lemma_slides(occ, s, 0, -1, t);
    let k = if x > 0 {
        x
    } else if x < 0 {
        -x
    } else if y > 0 {
        y
    } else {
        -y
    };
    let (df, dr) = (
        if x > 0 {
            1int
        } else if x < 0 {
            -1
        } else {
            0
        },
        if y > 0 {
            1int
        } else if y < 0 {
            -1
        } else {
            0
        },
    );
    if (forall|i: int| !(#[trigger] occ(i))) && k > 0 && leads(df, k, x) && leads(dr, k, y) {
        lemma_free_slide(occ, s, df, dr, t, k);
    }
}

/// The step `d` taken `k` times leads `x` far.
spec fn leads(d: int, k: int, x: int) -> bool {
    x == (if d == 0 {
        0
    } else if d == 1 {
        k
    } else {
        -k
    })
}

proof fn lemma_steps(d: int, k: int)
    requires
        -1 <= d <= 1,
    ensures
        leads(d, k, k * d),
{
    assert(d == 1 ==> k * d == k) by (nonlinear_arith);
    assert(d == -1 ==> k * d == -k) by (nonlinear_arith);
    assert(d == 0 ==> k * d == 0) by (nonlinear_arith);
}

proof fn lemma_slides(occ: spec_fn(int) -> bool, s: int, df: int, dr: int, t: int)
    requires
        0 <= s < 64,
        0 <= t < 64,
        -1 <= df <= 1,
        -1 <= dr <= 1,
    ensures
        slides(occ, s, df, dr, t) ==> exists|k: int|
            1 <= k <= 7 && #[trigger] leads(df, k, t % 8 - s % 8) && leads(dr, k, t / 8 - s / 8),
{
    if slides(occ, s, df, dr, t) {
        let k = choose|k: int| #[trigger]
            ray_reaches(occ, s, df, dr, k) && t == ray_at(s, df, dr, k);
        assert(ray_on(s, df, dr, k));
        lemma_steps(df, k);
        lemma_steps(dr, k);
        assert(leads(df, k, t % 8 - s % 8) && leads(dr, k, t / 8 - s / 8));
    }
}

proof fn lemma_free_slide(occ: spec_fn(int) -> bool, s: int, df: int, dr: int, t: int, k: int)
    requires
        0 <= s < 64,
        0 <= t < 64,
        -1 <= df <= 1,
        -1 <= dr <= 1,
        1 <= k <= 7,
        forall|i: int| !(#[trigger] occ(i)),
        leads(df, k, t % 8 - s % 8),
        leads(dr, k, t / 8 - s / 8),
    ensures
        slides(occ, s, df, dr, t),
{
    assert forall|j: int| 1 <= j <= k implies #[trigger] ray_on(s, df, dr, j) by {
        lemma_steps(df, j);
        lemma_steps(dr, j);
    }
    lemma_steps(df, k);
    lemma_steps(dr, k);
    assert(ray_reaches(occ, s, df, dr, k));
    assert(t == ray_at(s, df, dr, k));
}

/// The flags of a move say what they are named after.
pub proof fn law_flags(from: Square, to: Square, flag: MoveFlag)
    requires
        from.ok(),
        to.ok(),
    ensures
        pack(from, to, flag).promo() == Some(PieceType::Knight) <==> flag == MoveFlag::PromoKnight || flag
            == MoveFlag::PromoKnightCapture,
        pack(from, to, flag).promo() == Some(PieceType::Bishop) <==> flag == MoveFlag::PromoBishop || flag
            == MoveFlag::PromoBishopCapture,
        pack(from, to, flag).promo() == Some(PieceType::Rook) <==> flag == MoveFlag::PromoRook || flag
            == MoveFlag::PromoRookCapture,
        pack(from, to, flag).promo() == Some(PieceType::Queen) <==> flag == MoveFlag::PromoQueen || flag
            == MoveFlag::PromoQueenCapture,
        pack(from, to, flag).promotes() <==> pack(from, to, flag).promo() is Some,
        pack(from, to, flag).castles() <==> flag == MoveFlag::KingCastle || flag
            == MoveFlag::QueenCastle,
        pack(from, to, flag).en_passant() <==> flag == MoveFlag::EnPassant,
{
    law_move_pack(from, to, flag);
}

/// A move in UCI notation: the letters of the files and the digits of the ranks of its
/// two squares, and for a promotion the letter of the piece.
pub proof fn law_uci_text(mv: Move)
    ensures
        ({
            let u = mv.uci();
            &&& u.len() == (if mv.promo() is Some {
                5int
            } else {
                4
            })
            &&& u[0] as u32 == 97 + mv.src().f()
            &&& u[1] as u32 == 49 + mv.src().r()
            &&& u[2] as u32 == 97 + mv.dst().f()
            &&& u[3] as u32 == 49 + mv.dst().r()
            &&& mv.promo() == Some(PieceType::Knight) ==> u[4] == 'n'
            &&& mv.promo() == Some(PieceType::Bishop) ==> u[4] == 'b'
            &&& mv.promo() == Some(PieceType::Rook) ==> u[4] == 'r'
            &&& mv.promo() == Some(PieceType::Queen) ==> u[4] == 'q'
        }),
{
}

/// A piece on the way stops a slider.
pub proof fn law_sliders_blocked(
    occ: spec_fn(int) -> bool,
    s: int,
    t: int,
    x: int,
    y: int,
    j: int,
    k: int,
)
    requires
        0 <= s < 64,
        0 <= t < 64,
        -1 <= x <= 1,
        -1 <= y <= 1,
        x != 0 || y != 0,
        1 <= j < k <= 7,
        t % 8 - s % 8 == k * x,
        t / 8 - s / 8 == k * y,
        occ(8 * (s / 8 + j * y) + (s % 8 + j * x)),
    ensures
        !diagonal(occ, s, t),
        !orthogonal(occ, s, t),
{
    lemma_blocked(occ, s, 1, 1, t, x, y, j, k);
    lemma_blocked(occ, s, 1, -1, t, x, y, j, k);
    lemma_blocked(occ, s, -1, 1, t, x, y, j, k);
    lemma_blocked(occ, s, -1, -1, t, x, y, j, k);
    lemma_blocked(occ, s, 1, 0, t, x, y, j, k);
    lemma_blocked(occ, s, -1, 0, t, x, y, j, k);
    lemma_blocked(occ, s, 0, 1, t, x, y, j, k);
    lemma_blocked(occ, s, 0, -1, t, x, y, j, k);
}

proof fn lemma_blocked(
    occ: spec_fn(int) -> bool,
    s: int,
    df: int,
    dr: int,
    t: int,
    x: int,
    y: int,
    j: int,
    k: int,
)
    requires
        0 <= s < 64,
        0 <= t < 64,
        -1 <= df <= 1,
        -1 <= dr <= 1,
        df != 0 || dr != 0,
        -1 <= x <= 1,
        -1 <= y <= 1,
        x != 0 || y != 0,
        1 <= j < k <= 7,
        t % 8 - s % 8 == k * x,
        t / 8 - s / 8 == k * y,
        occ(8 * (s / 8 + j * y) + (s % 8 + j * x)),
    ensures
        !slides(occ, s, df, dr, t),
{
    if slides(occ, s, df, dr, t) {
        let n = choose|n: int| #[trigger]
            ray_reaches(occ, s, df, dr, n) && t == ray_at(s, df, dr, n);
        assert(ray_on(s, df, dr, n));
        lemma_steps(df, n);
        lemma_steps(dr, n);
        lemma_steps(x, k);
        lemma_steps(y, k);
        assert(n == k && df == x && dr == y);
        assert(!occ(ray_at(s, df, dr, j)));
    }
}

proof fn lemma_in_flat(s: Seq<Square>, f: spec_fn(Square) -> Seq<Move>, x: Square, m: Move)
    requires
        s.contains(x),
        f(x).contains(m),
    ensures
        flat(s, f).contains(m),
    decreases s.len(),
{
    let rest = s.drop_first();
    if s[0] == x {
        lemma_in_sum(f(s[0]), flat(rest, f), m);
    } else {
        let n = choose|n: int| 0 <= n < s.len() && s[n] == x;
        assert(rest[n - 1] == x);
        lemma_in_flat(rest, f, x, m);
        lemma_in_sum(f(s[0]), flat(rest, f), m);
    }
}

proof fn lemma_in_sum(a: Seq<Move>, b: Seq<Move>, m: Move)
    ensures
        a.contains(m) || b.contains(m) ==> (a + b).contains(m),
{
    if a.contains(m) {
        let n = choose|n: int| 0 <= n < a.len() && a[n] == m;
        assert((a + b)[n] == m);
    } else if b.contains(m) {
        let n = choose|n: int| 0 <= n < b.len() && b[n] == m;
        assert((a + b)[a.len() + n] == m);
    }
}

proof fn lemma_in_pseudo(p: Pos, m: Move)
    ensures
        pawn_moves(p, p.side).contains(m) || knight_moves(p, p.side).contains(m) || king_moves(
            p,
            p.side,
        ).contains(m) || slider_moves(p, p.side).contains(m) || castling_moves(
            p,
            p.side,
        ).contains(m) ==> pseudo_moves(p).contains(m),
{
    let us = p.side;
    let (a, b, c, d, e) = (
        pawn_moves(p, us),
        knight_moves(p, us),
        king_moves(p, us),
        slider_moves(p, us),
        castling_moves(p, us),
    );
    lemma_in_sum(a, b, m);
    lemma_in_sum(a + b, c, m);
    lemma_in_sum(a + b + c, d, m);
    lemma_in_sum(a + b + c + d, e, m);
}

proof fn lemma_in_steps(p: Pos, us: Color, from: Square, reach: spec_fn(int) -> bool, t: int)
    requires
        0 <= t < 64,
        reach(t),
        !p.owned(us, t),
    ensures
        step_moves(p, us, from, reach).contains(
            pack(
                from,
                Square(t as u8),
                if p.owned(us.other(), t) {
                    MoveFlag::Capture
                } else {
                    MoveFlag::Quiet
                },
            ),
        ),
{
    let q = |i: int| reach(i) && !p.owned(us, i);
    assert(q(t));
    lemma_pick_contains(q, 0, t);
    let f = step_of(p, us, from);
    let m = pack(
        from,
        Square(t as u8),
        if p.owned(us.other(), t) {
            MoveFlag::Capture
        } else {
            MoveFlag::Quiet
        },
    );
    assert(f(Square(t as u8))[0] == m);
    lemma_in_flat(pick(q, 0), f, Square(t as u8), m);
}

/// Every piece but a pawn can go wherever it attacks a square that its own side does
/// not occupy: as a capture where the other side stands, quietly elsewhere.
pub proof fn law_piece_moves_generated(p: Pos, s: int, t: int)
    requires
        0 <= t < 64,
        attacker(p, p.side, s, t),
        !p.typed(PieceType::Pawn, s),
        p.typed(PieceType::King, s) ==> p.king(p.side) == Some(Square(s as u8)),
        !p.owned(p.side, t),
    ensures
        p.owned(p.side.other(), t) ==> pseudo_moves(p).contains(
            pack(Square(s as u8), Square(t as u8), MoveFlag::Capture),
        ),
        p.vacant(t) ==> pseudo_moves(p).contains(
            pack(Square(s as u8), Square(t as u8), MoveFlag::Quiet),
        ),
{
    let us = p.side;
    let from = Square(s as u8);
    let m = pack(
        from,
        Square(t as u8),
        if p.owned(us.other(), t) {
            MoveFlag::Capture
        } else {
            MoveFlag::Quiet
        },
    );
    lemma_in_pseudo(p, m);
    let pt = p.at(s)->0.piece_type;
    if pt == PieceType::Knight {
        let q = |i: int| p.holds(us, pt, i);
        assert(q(s));
        lemma_pick_contains(q, 0, s);
        lemma_in_steps(p, us, from, knight_reach(from), t);
        lemma_in_flat(
            p.pieces(us, pt),
            |f: Square| step_moves(p, us, f, knight_reach(f)),
            from,
            m,
        );
    } else if pt == PieceType::King {
        lemma_in_steps(p, us, from, king_reach(from), t);
    } else {
        let a = flat(
            diagonal_pieces(p, us),
            |f: Square| step_moves(p, us, f, diagonal_reach(p, f)),
        );
        let b = flat(
            orthogonal_pieces(p, us),
            |f: Square| step_moves(p, us, f, orthogonal_reach(p, f)),
        );
        lemma_in_sum(a, b, m);
        if pt != PieceType::Rook && diagonal(occ_of(p), s, t) {
            let q = |i: int| p.holds(us, PieceType::Bishop, i) || p.holds(us, PieceType::Queen, i);
            assert(q(s));
            lemma_pick_contains(q, 0, s);
            lemma_in_steps(p, us, from, diagonal_reach(p, from), t);
            lemma_in_flat(
                diagonal_pieces(p, us),
                |f: Square| step_moves(p, us, f, diagonal_reach(p, f)),
                from,
                m,
            );
        } else {
            let q = |i: int| p.holds(us, PieceType::Rook, i) || p.holds(us, PieceType::Queen, i);
            assert(q(s));
            lemma_pick_contains(q, 0, s);
            lemma_in_steps(p, us, from, orthogonal_reach(p, from), t);
            lemma_in_flat(
                orthogonal_pieces(p, us),
                |f: Square| step_moves(p, us, f, orthogonal_reach(p, f)),
                from,
                m,
            );
        }
    }
}

/// A pawn of the side to move goes one square forward if that is free, and two from
/// where it starts if both are; on the last rank it becomes any of four pieces.
pub proof fn law_pawn_pushes_generated(p: Pos, s: int)
    requires
        p.holds(p.side, PieceType::Pawn, s),
    ensures
        ({
            let up = if p.side == Color::White {
                8int
            } else {
                -8
            };
            let (from, one, two) = (
                Square(s as u8),
                Square((s + up) as u8),
                Square((s + 2 * up) as u8),
            );
            let has = |to: Square, f: MoveFlag| pseudo_moves(p).contains(pack(from, to, f));
            let last = (s + up) / 8 == 7 || (s + up) / 8 == 0;
            let first = s / 8 == (if p.side == Color::White {
                1int
            } else {
                6
            });
            &&& p.vacant(s + up) && !last ==> has(one, MoveFlag::Quiet)
            &&& p.vacant(s + up) && last ==> has(one, MoveFlag::PromoQueen) && has(
                one,
                MoveFlag::PromoRook,
            ) && has(one, MoveFlag::PromoBishop) && has(one, MoveFlag::PromoKnight)
            &&& p.vacant(s + up) && p.vacant(s + 2 * up) && first ==> has(two, MoveFlag::DoublePush)
        }),
{
    let us = p.side;
    let up = if us == Color::White {
        8int
    } else {
        -8
    };
    let from = Square(s as u8);
    let (t, u) = (s + up, s + 2 * up);
    let (one, two) = (Square(t as u8), Square(u as u8));
    let plain = |i: int| single_push(p, us, i) && !on_promo_rank(us, i);
    let promo = |i: int| single_push(p, us, i) && on_promo_rank(us, i);
    let double = |i: int| double_push(p, us, i);
    let a = flat(pick(plain, 0), push_of(up, MoveFlag::Quiet));
    let b = flat(pick(promo, 0), promotions_of(up, false));
    let c = flat(pick(double, 0), push_of(2 * up, MoveFlag::DoublePush));
    assert(pawn_pushes(p, us) == a + b + c);
    if p.vacant(t) {
        if on_promo_rank(us, t) {
            assert(promo(t));
            lemma_pick_contains(promo, 0, t);
            let ms = promotions(from, one, false);
            assert(promotions_of(up, false)(one) == ms);
            lemma_in_flat(pick(promo, 0), promotions_of(up, false), one, ms[0]);
            lemma_in_flat(pick(promo, 0), promotions_of(up, false), one, ms[1]);
            lemma_in_flat(pick(promo, 0), promotions_of(up, false), one, ms[2]);
            lemma_in_flat(pick(promo, 0), promotions_of(up, false), one, ms[3]);
            lemma_pushes(p, a, b, c, ms[0]);
            lemma_pushes(p, a, b, c, ms[1]);
            lemma_pushes(p, a, b, c, ms[2]);
            lemma_pushes(p, a, b, c, ms[3]);
        } else {
            assert(plain(t));
            lemma_pick_contains(plain, 0, t);
            let m = pack(from, one, MoveFlag::Quiet);
            assert(push_of(up, MoveFlag::Quiet)(one)[0] == m);
            lemma_in_flat(pick(plain, 0), push_of(up, MoveFlag::Quiet), one, m);
            lemma_pushes(p, a, b, c, m);
        }
        if p.vacant(u) && s / 8 == (if us == Color::White {
            1int
        } else {
            6
        }) {
            assert(double(u));
            lemma_pick_contains(double, 0, u);
            let m = pack(from, two, MoveFlag::DoublePush);
            assert(push_of(2 * up, MoveFlag::DoublePush)(two)[0] == m);
            lemma_in_flat(pick(double, 0), push_of(2 * up, MoveFlag::DoublePush), two, m);
            lemma_pushes(p, a, b, c, m);
        }
    }
}

proof fn lemma_pushes(p: Pos, a: Seq<Move>, b: Seq<Move>, c: Seq<Move>, m: Move)
    requires
        pawn_pushes(p, p.side) == a + b + c,
        a.contains(m) || b.contains(m) || c.contains(m),
    ensures
        pseudo_moves(p).contains(m),
{
    let us = p.side;
    lemma_in_sum(a, b, m);
    lemma_in_sum(a + b, c, m);
    let d = if us == Color::White {
        pawn_captures(p, us, 9) + pawn_captures(p, us, 7)
    } else {
        pawn_captures(p, us, -7) + pawn_captures(p, us, -9)
    };
    lemma_in_sum(pawn_pushes(p, us), d, m);
    lemma_in_sum(pawn_pushes(p, us) + d, ep_captures(p, us), m);
    lemma_in_pseudo(p, m);
}

/// A pawn of the side to move takes what stands diagonally in front of it, with a
/// promotion to any of four pieces on the last rank, and takes en passant on the
/// square that a pawn has just passed.
pub proof fn law_pawn_captures_generated(p: Pos, s: int, t: int)
    requires
        p.wf(),
        p.holds(p.side, PieceType::Pawn, s),
        0 <= t < 64,
        t % 8 == s % 8 + 1 || t % 8 == s % 8 - 1,
        t / 8 == s / 8 + (if p.side == Color::White {
            1int
        } else {
            -1
        }),
    ensures
        ({
            let (from, to) = (Square(s as u8), Square(t as u8));
            let has = |f: MoveFlag| pseudo_moves(p).contains(pack(from, to, f));
            let last = t / 8 == 7 || t / 8 == 0;
            &&& p.owned(p.side.other(), t) && !last ==> has(MoveFlag::Capture)
            &&& p.owned(p.side.other(), t) && last ==> has(MoveFlag::PromoQueenCapture) && has(
                MoveFlag::PromoRookCapture,
            ) && has(MoveFlag::PromoBishopCapture) && has(MoveFlag::PromoKnightCapture)
            &&& p.ep == Some(to) ==> has(MoveFlag::EnPassant)
        }),
{
    let us = p.side;
    let (from, to) = (Square(s as u8), Square(t as u8));
    let delta = t - s;
    let plain = |i: int| pawn_capture(p, us, delta, i) && !on_promo_rank(us, i);
    let promo = |i: int| pawn_capture(p, us, delta, i) && on_promo_rank(us, i);
    let a = flat(pick(plain, 0), push_of(delta, MoveFlag::Capture));
    let b = flat(pick(promo, 0), promotions_of(delta, true));
    assert(pawn_captures(p, us, delta) == a + b);
    if p.owned(us.other(), t) {
        assert(pawn_capture(p, us, delta, t));
        if on_promo_rank(us, t) {
            assert(promo(t));
            lemma_pick_contains(promo, 0, t);
            let ms = promotions(from, to, true);
            assert(promotions_of(delta, true)(to) == ms);
            lemma_in_flat(pick(promo, 0), promotions_of(delta, true), to, ms[0]);
            lemma_in_flat(pick(promo, 0), promotions_of(delta, true), to, ms[1]);
            lemma_in_flat(pick(promo, 0), promotions_of(delta, true), to, ms[2]);
            lemma_in_flat(pick(promo, 0), promotions_of(delta, true), to, ms[3]);
            lemma_takes(p, delta, a, b, ms[0]);
            lemma_takes(p, delta, a, b, ms[1]);
            lemma_takes(p, delta, a, b, ms[2]);
            lemma_takes(p, delta, a, b, ms[3]);
        } else {
            assert(plain(t));
            lemma_pick_contains(plain, 0, t);
            let m = pack(from, to, MoveFlag::Capture);
            assert(push_of(delta, MoveFlag::Capture)(to)[0] == m);
            lemma_in_flat(pick(plain, 0), push_of(delta, MoveFlag::Capture), to, m);
            lemma_takes(p, delta, a, b, m);
        }
    }
    if p.ep == Some(to) {
        let m = pack(from, to, MoveFlag::EnPassant);
        let q = |i: int| pawn_step(us.other(), to.0 as int, i) && p.holds(us, PieceType::Pawn, i);
        assert(q(s));
        lemma_pick_contains(q, 0, s);
        let f = |x: Square| seq![pack(x, to, MoveFlag::EnPassant)];
        assert(f(from)[0] == m);
        lemma_in_flat(pick(q, 0), f, from, m);
        let d = if us == Color::White {
            pawn_captures(p, us, 9) + pawn_captures(p, us, 7)
        } else {
            pawn_captures(p, us, -7) + pawn_captures(p, us, -9)
        };
        lemma_in_sum(pawn_pushes(p, us) + d, ep_captures(p, us), m);
        lemma_in_pseudo(p, m);
    }
}

proof fn lemma_takes(p: Pos, delta: int, a: Seq<Move>, b: Seq<Move>, m: Move)
    requires
        pawn_captures(p, p.side, delta) == a + b,
        a.contains(m) || b.contains(m),
        p.side == Color::White ==> delta == 9 || delta == 7,
        p.side == Color::Black ==> delta == -9 || delta == -7,
    ensures
        pseudo_moves(p).contains(m),
{
    let us = p.side;
    lemma_in_sum(a, b, m);
    let (x, y) = if us == Color::White {
        (pawn_captures(p, us, 9), pawn_captures(p, us, 7))
    } else {
        (pawn_captures(p, us, -7), pawn_captures(p, us, -9))
    };
    lemma_in_sum(x, y, m);
    lemma_in_sum(pawn_pushes(p, us), x + y, m);
    lemma_in_sum(pawn_pushes(p, us) + (x + y), ep_captures(p, us), m);
    lemma_in_pseudo(p, m);
}

/// A king castles from its own square, two squares to either side, exactly when it has
/// the right to, is not in check, nothing stands between it and its rook, and neither
/// the square that it passes nor its target is attacked.
pub proof fn law_castling_generated(p: Pos)
    requires
        p.wf(),
    ensures
        ({
            let (k, short, long) = if p.side == Color::White {
                (4int, CastlingRights::WHITE_KING, CastlingRights::WHITE_QUEEN)
            } else {
                (60int, CastlingRights::BLACK_KING, CastlingRights::BLACK_QUEEN)
            };
            let foe = p.side.other();
            let from = Square(k as u8);
            &&& pseudo_moves(p).contains(pack(from, Square((k + 2) as u8), MoveFlag::KingCastle))
                <==> {
                &&& p.castling.holds(short)
                &&& !in_check(p, p.side)
                &&& p.vacant(k + 1) && p.vacant(k + 2)
                &&& !attacked(p, k + 1, foe) && !attacked(p, k + 2, foe)
            }
            &&& pseudo_moves(p).contains(pack(from, Square((k - 2) as u8), MoveFlag::QueenCastle))
                <==> {
                &&& p.castling.holds(long)
                &&& !in_check(p, p.side)
                &&& p.vacant(k - 1) && p.vacant(k - 2) && p.vacant(k - 3)
                &&& !attacked(p, k - 1, foe) && !attacked(p, k - 2, foe)
            }
            &&& forall|m: Move| #[trigger]
                pseudo_moves(p).contains(m) && m.castles() ==> m.src() == from && (m.dst().0 == k + 2
                    || m.dst().0 == k - 2)
        }),
{
    let k = if p.side == Color::White {
        4int
    } else {
        60
    };
    let from = Square(k as u8);
    let a = pack(from, Square((k + 2) as u8), MoveFlag::KingCastle);
    let b = pack(from, Square((k - 2) as u8), MoveFlag::QueenCastle);
    law_move_pack(from, Square((k + 2) as u8), MoveFlag::KingCastle);
    law_move_pack(from, Square((k - 2) as u8), MoveFlag::QueenCastle);
    law_pseudo_moves_shape(p);
    lemma_in_pseudo(p, a);
    lemma_in_pseudo(p, b);
    assert forall|m: Move| #[trigger] pseudo_moves(p).contains(m) implies shape(p, m) by {}
    let cs = castling_moves(p, p.side);
    if crate::movegen::generate::castle_king(p, p.side) {
        assert(cs[0] == a);
    }
    if crate::movegen::generate::castle_queen(p, p.side) {
        assert(cs.last() == b);
    }
}

/// A side is in check exactly when a piece of the other side attacks its king, wherever its
/// only king stands.
pub proof fn law_check(p: Pos, c: Color, k: int)
    requires
        0 <= k < 64,
        p.holds(c, PieceType::King, k),
        forall|i: int| #[trigger] p.holds(c, PieceType::King, i) ==> i == k,
    ensures
        in_check(p, c) <==> exists|s: int|
            {
                &&& #[trigger] p.owned(c.other(), s)
                &&& piece_attacks(occ_of(p), p.at(s)->0, s, k)
            },
{
    let q = |i: int| p.holds(c, PieceType::King, i);
    assert(q(k));
    lemma_pick_contains(q, 0, k);
    crate::board::bitboard::lemma_pick_members(q, 0);
    let ks = p.pieces(c, PieceType::King);
    assert(q(ks[0].0 as int));
    assert(p.king(c) == Some(Square(k as u8)));
    if in_check(p, c) {
        let s = choose|s: int| #[trigger] attacker(p, c.other(), s, k);
        assert(p.owned(c.other(), s));
    }
    if exists|s: int|
        {
            &&& #[trigger] p.owned(c.other(), s)
            &&& piece_attacks(occ_of(p), p.at(s)->0, s, k)
        } {
        let s = choose|s: int|
            {
                &&& #[trigger] p.owned(c.other(), s)
                &&& piece_attacks(occ_of(p), p.at(s)->0, s, k)
            };
        assert(attacker(p, c.other(), s, k));
    }
}

/// Passing the turn changes the side to move and nothing on the board; no pawn can be taken
/// en passant after it, and it counts toward the 50-move rule.
pub proof fn law_null_move(p: Pos)
    requires
        0 <= p.halfmove < 65535,
    ensures
        apply_null(p).squares == p.squares,
        apply_null(p).side != p.side,
        apply_null(p).castling == p.castling,
        apply_null(p).ep is None,
        apply_null(p).halfmove == p.halfmove + 1,
        apply_null(p).fullmove == p.fullmove,
{
}

/// The leaves of the tree of legal moves: one at its root, and at each further level as many
/// as below all legal moves together.
pub proof fn law_perft(p: Pos, d: nat)
    ensures
        perft_count(p, 0) == 1,
        perft_count(p, d + 1) == Seq::new(
            legal(p).len(),
            |i: int| perft_count(apply(p, legal(p)[i]), d) as int,
        ).fold_left(0, |a: int, b: int| a + b),
{
    let ms = legal(p);
    let f = |i: int| perft_count(apply(p, ms[i]), d) as int;
    lemma_perft_sum(p, ms, d, ms.len());
    assert(Seq::new(ms.len(), f) =~= Seq::new(
        legal(p).len(),
        |i: int| perft_count(apply(p, legal(p)[i]), d) as int,
    ));
}

proof fn lemma_perft_sum(p: Pos, ms: Seq<Move>, d: nat, n: nat)
    requires
        n <= ms.len(),
    ensures
        perft_sum(p, ms, d + 1, n) == Seq::new(
            n,
            |i: int| perft_count(apply(p, ms[i]), d) as int,
        ).fold_left(0, |a: int, b: int| a + b),
    decreases n,
{
    let f = |i: int| perft_count(apply(p, ms[i]), d) as int;
    let g = |a: int, b: int| a + b;
    if n > 0 {
        lemma_perft_sum(p, ms, d, (n - 1) as nat);
        let s = Seq::new(n, f);
        assert(s.drop_last() =~= Seq::new((n - 1) as nat, f));
        assert(s.last() == f(n - 1));
    }
}

/// A side that has a legal move goes on; one that has none is checkmated or stalemated, and
/// never both.
pub proof fn law_end_of_game(p: Pos)
    ensures
        legal(p).len() > 0 ==> !checkmated(p) && !stalemated(p),
        legal(p).len() == 0 ==> (checkmated(p) <==> !stalemated(p)),
        checkmated(p) ==> in_check(p, p.side),
        stalemated(p) ==> !in_check(p, p.side),
{
}

} // verus!
