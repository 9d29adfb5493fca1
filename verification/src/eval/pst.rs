//! Piece-square tables, with a middlegame and an endgame table for every piece
//! type.
//!
//! Every table is written as the board is seen by White, with rank 8 at the
//! top: the entry of a square has index `(7 - rank) * 8 + file`. White looks a
//! square up under that index, Black under the square's own, which is the same
//! entry for the square mirrored across the middle of the board.

use crate::board::{Color, PieceType, Square};
use crate::eval::score::{Pair, Score};
use vstd::prelude::*;

verus! {

/// Pawns, middlegame.
pub const PAWN_MG: [i32; 64] = [
    0, 0, 0, 0, 0, 0, 0, 0,
    50, 50, 50, 50, 50, 50, 50, 50,
    10, 10, 20, 30, 30, 20, 10, 10,
    5, 5, 10, 25, 25, 10, 5, 5,
    0, 0, 0, 20, 20, 0, 0, 0,
    5, -5, -10, 0, 0, -10, -5, 5,
    5, 10, 10, -20, -20, 10, 10, 5,
    0, 0, 0, 0, 0, 0, 0, 0,
];

/// Pawns, endgame.
pub const PAWN_EG: [i32; 64] = [
    0, 0, 0, 0, 0, 0, 0, 0,
    80, 80, 80, 80, 80, 80, 80, 80,
    50, 50, 50, 50, 50, 50, 50, 50,
    30, 30, 30, 30, 30, 30, 30, 30,
    20, 20, 20, 20, 20, 20, 20, 20,
    10, 10, 10, 10, 10, 10, 10, 10,
    10, 10, 10, 10, 10, 10, 10, 10,
    0, 0, 0, 0, 0, 0, 0, 0,
];

/// Knights, middlegame.
pub const KNIGHT_MG: [i32; 64] = [
    -50, -40, -30, -30, -30, -30, -40, -50,
    -40, -20, 0, 0, 0, 0, -20, -40,
    -30, 0, 10, 15, 15, 10, 0, -30,
    -30, 5, 15, 20, 20, 15, 5, -30,
    -30, 0, 15, 20, 20, 15, 0, -30,
    -30, 5, 10, 15, 15, 10, 5, -30,
    -40, -20, 0, 5, 5, 0, -20, -40,
    -50, -40, -30, -30, -30, -30, -40, -50,
];

/// Knights, endgame.
pub const KNIGHT_EG: [i32; 64] = [
    -60, -45, -35, -35, -35, -35, -45, -60,
    -45, -25, 0, 0, 0, 0, -25, -45,
    -35, 0, 10, 15, 15, 10, 0, -35,
    -35, 5, 15, 20, 20, 15, 5, -35,
    -35, 0, 15, 20, 20, 15, 0, -35,
    -35, 5, 10, 15, 15, 10, 5, -35,
    -45, -25, 0, 5, 5, 0, -25, -45,
    -60, -45, -35, -35, -35, -35, -45, -60,
];

/// Bishops, middlegame.
pub const BISHOP_MG: [i32; 64] = [
    -20, -10, -10, -10, -10, -10, -10, -20,
    -10, 0, 0, 0, 0, 0, 0, -10,
    -10, 0, 5, 10, 10, 5, 0, -10,
    -10, 5, 5, 10, 10, 5, 5, -10,
    -10, 0, 10, 10, 10, 10, 0, -10,
    -10, 10, 10, 10, 10, 10, 10, -10,
    -10, 5, 0, 0, 0, 0, 5, -10,
    -20, -10, -10, -10, -10, -10, -10, -20,
];

/// Bishops, endgame.
pub const BISHOP_EG: [i32; 64] = [
    -20, -10, -10, -10, -10, -10, -10, -20,
    -10, 5, 0, 0, 0, 0, 5, -10,
    -10, 0, 10, 15, 15, 10, 0, -10,
    -10, 0, 15, 20, 20, 15, 0, -10,
    -10, 0, 15, 20, 20, 15, 0, -10,
    -10, 0, 10, 15, 15, 10, 0, -10,
    -10, 5, 0, 0, 0, 0, 5, -10,
    -20, -10, -10, -10, -10, -10, -10, -20,
];

/// Rooks, middlegame.
pub const ROOK_MG: [i32; 64] = [
    0, 0, 0, 0, 0, 0, 0, 0,
    5, 10, 10, 10, 10, 10, 10, 5,
    -5, 0, 0, 0, 0, 0, 0, -5,
    -5, 0, 0, 0, 0, 0, 0, -5,
    -5, 0, 0, 0, 0, 0, 0, -5,
    -5, 0, 0, 0, 0, 0, 0, -5,
    -5, 0, 0, 0, 0, 0, 0, -5,
    0, 0, 0, 5, 5, 0, 0, 0,
];

/// Rooks, endgame.
pub const ROOK_EG: [i32; 64] = [
    5, 5, 5, 5, 5, 5, 5, 5,
    10, 10, 10, 10, 10, 10, 10, 10,
    0, 0, 5, 5, 5, 5, 0, 0,
    0, 0, 5, 5, 5, 5, 0, 0,
    0, 0, 5, 5, 5, 5, 0, 0,
    0, 0, 5, 5, 5, 5, 0, 0,
    -5, -5, 0, 0, 0, 0, -5, -5,
    0, 0, 0, 5, 5, 0, 0, 0,
];

/// Queens, middlegame.
pub const QUEEN_MG: [i32; 64] = [
    -20, -10, -10, -5, -5, -10, -10, -20,
    -10, 0, 0, 0, 0, 0, 0, -10,
    -10, 0, 5, 5, 5, 5, 0, -10,
    -5, 0, 5, 5, 5, 5, 0, -5,
    0, 0, 5, 5, 5, 5, 0, -5,
    -10, 5, 5, 5, 5, 5, 0, -10,
    -10, 0, 5, 0, 0, 0, 0, -10,
    -20, -10, -10, -5, -5, -10, -10, -20,
];

/// Queens, endgame.
pub const QUEEN_EG: [i32; 64] = [
    -20, -10, -10, -5, -5, -10, -10, -20,
    -10, 0, 5, 5, 5, 5, 0, -10,
    -10, 5, 10, 10, 10, 10, 5, -10,
    -5, 5, 10, 15, 15, 10, 5, -5,
    -5, 5, 10, 15, 15, 10, 5, -5,
    -10, 5, 10, 10, 10, 10, 5, -10,
    -10, 0, 5, 5, 5, 5, 0, -10,
    -20, -10, -10, -5, -5, -10, -10, -20,
];

/// Kings, middlegame.
pub const KING_MG: [i32; 64] = [
    -30, -40, -40, -50, -50, -40, -40, -30,
    -30, -40, -40, -50, -50, -40, -40, -30,
    -30, -40, -40, -50, -50, -40, -40, -30,
    -30, -40, -40, -50, -50, -40, -40, -30,
    -20, -30, -30, -40, -40, -30, -30, -20,
    -10, -20, -20, -20, -20, -20, -20, -10,
    20, 20, 0, 0, 0, 0, 20, 20,
    20, 30, 10, 0, 0, 10, 30, 20,
];

/// Kings, endgame.
pub const KING_EG: [i32; 64] = [
    -50, -40, -30, -20, -20, -30, -40, -50,
    -30, -20, -10, 0, 0, -10, -20, -30,
    -30, -10, 20, 30, 30, 20, -10, -30,
    -30, -10, 30, 40, 40, 30, -10, -30,
    -30, -10, 30, 40, 40, 30, -10, -30,
    -30, -10, 20, 30, 30, 20, -10, -30,
    -30, -30, 0, 0, 0, 0, -30, -30,
    -50, -30, -30, -30, -30, -30, -30, -50,
];

/// The entry of a square in the tables.
pub open spec fn table_index(color: Color, s: Square) -> int {
    match color {
        Color::White => (7 - s.r()) * 8 + s.f(),
        Color::Black => s.0 as int,
    }
}

/// The positional bonus of a piece on a square.
#[verifier::opaque]
pub open spec fn pst_value(pt: PieceType, color: Color, s: Square) -> Pair {
    let i = table_index(color, s);
    match pt {
        PieceType::Pawn => Pair { mg: PAWN_MG[i] as int, eg: PAWN_EG[i] as int },
        PieceType::Knight => Pair { mg: KNIGHT_MG[i] as int, eg: KNIGHT_EG[i] as int },
        PieceType::Bishop => Pair { mg: BISHOP_MG[i] as int, eg: BISHOP_EG[i] as int },
        PieceType::Rook => Pair { mg: ROOK_MG[i] as int, eg: ROOK_EG[i] as int },
        PieceType::Queen => Pair { mg: QUEEN_MG[i] as int, eg: QUEEN_EG[i] as int },
        PieceType::King => Pair { mg: KING_MG[i] as int, eg: KING_EG[i] as int },
    }
}

/// The square mirrored across the middle of the board.
pub open spec fn mirrored(s: Square) -> Square {
    Square(((7 - s.r()) * 8 + s.f()) as u8)
}

/// A square is worth to Black what the mirrored square is worth to White.
pub proof fn law_pst_mirror(pt: PieceType, s: Square)
    requires
        s.ok(),
    ensures
        pst_value(pt, Color::White, s) == pst_value(pt, Color::Black, mirrored(s)),
{
    reveal(pst_value);
}

/// The entries of a table are no larger than 200.
pub open spec fn small(t: Seq<i32>) -> bool {
    forall|i: int| 0 <= i < 64 ==> -200 <= #[trigger] t[i] <= 200
}

proof fn lemma_tables_small()
    ensures
        small(PAWN_MG@) && small(PAWN_EG@) && small(KNIGHT_MG@) && small(KNIGHT_EG@),
        small(BISHOP_MG@) && small(BISHOP_EG@) && small(ROOK_MG@) && small(ROOK_EG@),
        small(QUEEN_MG@) && small(QUEEN_EG@) && small(KING_MG@) && small(KING_EG@),
{
}

/// No entry of the tables is larger than 200.
pub proof fn lemma_pst_bounds(pt: PieceType, color: Color, s: Square)
    requires
        s.ok(),
    ensures
        -200 <= pst_value(pt, color, s).mg <= 200,
        -200 <= pst_value(pt, color, s).eg <= 200,
{
    reveal(pst_value);
    lemma_tables_small();
    let i = table_index(color, s);
    assert(0 <= i < 64);
    match pt {
        PieceType::Pawn => assert(PAWN_MG@[i] <= 200 && PAWN_EG@[i] <= 200),
        PieceType::Knight => assert(KNIGHT_MG@[i] <= 200 && KNIGHT_EG@[i] <= 200),
        PieceType::Bishop => assert(BISHOP_MG@[i] <= 200 && BISHOP_EG@[i] <= 200),
        PieceType::Rook => assert(ROOK_MG@[i] <= 200 && ROOK_EG@[i] <= 200),
        PieceType::Queen => assert(QUEEN_MG@[i] <= 200 && QUEEN_EG@[i] <= 200),
        PieceType::King => assert(KING_MG@[i] <= 200 && KING_EG@[i] <= 200),
    }
}

/// Positional bonus for a piece of `(color, pt)` on `sq`, as a tapered score.
pub fn pst(pt: PieceType, color: Color, sq: Square) -> (r: Score)
    requires
        sq.ok(),
    ensures
        r@ == pst_value(pt, color, sq),
{
    proof {
        reveal(pst_value);
    }
    let i: usize = match color {
        Color::White => ((7 - sq.rank()) * 8 + sq.file()) as usize,
        Color::Black => sq.index(),
    };
    match pt {
        PieceType::Pawn => Score::new(PAWN_MG[i], PAWN_EG[i]),
        PieceType::Knight => Score::new(KNIGHT_MG[i], KNIGHT_EG[i]),
        PieceType::Bishop => Score::new(BISHOP_MG[i], BISHOP_EG[i]),
        PieceType::Rook => Score::new(ROOK_MG[i], ROOK_EG[i]),
        PieceType::Queen => Score::new(QUEEN_MG[i], QUEEN_EG[i]),
        PieceType::King => Score::new(KING_MG[i], KING_EG[i]),
    }
}

} // verus!
