//! The Polyglot opening-book format.
//!
//! A Polyglot file is a sorted array of 16-byte records, each of the form
//!
//! ```text
//! key    : u64   (Polyglot hash of the position)
//! move   : u16   (packed from/to/promotion in bits 0-14)
//! weight : u16   (relative frequency)
//! learn  : u32   (learning data written by some programs; unused)
//! ```
//!
//! The file is big-endian and contains no header.

pub use crate::book::entries::{probe_entries, PolyEntry};

use crate::board::piece::{Color, Piece, PieceType};
use crate::board::square::Square;
use crate::board::fen::start_position;
use crate::board::{ep_captor, lemma_xor, Board, CastlingRights, Pos};
use crate::book::polyglot_random::{lemma_start_numbers, number, random_number};
use crate::movegen::find::{
    alike, first_where, lemma_finds_legal, lemma_first_is, lemma_first_none,
};
use crate::movegen::legal::{law_legal_moves, legal};
use crate::movegen::moves::{Move, MoveFlag, MoveList};
use crate::movegen::rules::{law_pseudo_moves_shape, shape, valid};
use vstd::prelude::*;

verus! {

/// The row of the random table that belongs to a piece: two rows for each type,
/// the first for Black, the second for White.
pub open spec fn piece_row(piece: Piece) -> int {
    2 * piece.piece_type.idx() + (if piece.color == Color::White {
        1int
    } else {
        0int
    })
}

/// The row of the random table that belongs to a piece.
fn piece_index(color: Color, pt: PieceType) -> (r: usize)
    ensures
        r == piece_row(Piece { color, piece_type: pt }),
        r < 12,
{
    let type_index: usize = match pt {
        PieceType::Pawn => 0,
        PieceType::Knight => 2,
        PieceType::Bishop => 4,
        PieceType::Rook => 6,
        PieceType::Queen => 8,
        PieceType::King => 10,
    };
    type_index + color.opposite().index()
}

/// What the first `n` squares contribute to the Polyglot hash.
pub open spec fn book_cells(squares: Seq<Option<Piece>>, n: int) -> u64
    decreases n,
{
    if n <= 0 {
        0
    } else {
        match squares[n - 1] {
            Some(piece) => book_cells(squares, n - 1) ^ number(piece_row(piece) * 64 + n - 1),
            None => book_cells(squares, n - 1),
        }
    }
}

/// The number `n`, if `on`, else nothing.
pub open spec fn number_if(on: bool, n: int) -> u64 {
    if on {
        number(n)
    } else {
        0
    }
}

/// What the castling rights contribute to the Polyglot hash.
pub open spec fn book_castling(c: CastlingRights) -> u64 {
    number_if(c.holds(CastlingRights::WHITE_KING), 768) ^ number_if(
        c.holds(CastlingRights::WHITE_QUEEN),
        769,
    ) ^ number_if(c.holds(CastlingRights::BLACK_KING), 770) ^ number_if(
        c.holds(CastlingRights::BLACK_QUEEN),
        771,
    )
}

/// What the en passant square contributes to the Polyglot hash: its file, if a
/// pawn stands ready to capture there.
pub open spec fn book_ep(p: Pos) -> u64 {
    match p.ep {
        Some(e) => number_if(ep_captor(p, e), 772 + e.f()),
        None => 0,
    }
}

/// The Polyglot hash of a position.
pub open spec fn book_key(p: Pos) -> u64 {
    book_cells(p.squares, 64) ^ book_castling(p.castling) ^ book_ep(p) ^ number_if(
        p.side == Color::White,
        780,
    )
}

/// What the squares of the starting position contribute.
#[verifier::rlimit(60)]
proof fn lemma_start_cells()
    ensures
        book_cells(start_position().squares, 64) == 0xc5d79d196e37d67cu64,
{
    let sq = start_position().squares;
    lemma_start_numbers();
    reveal_with_fuel(book_cells, 2);
    assert(book_cells(sq, 1) == book_cells(sq, 0) ^ 0xa09e8c8c35ab96deu64);
    assert(book_cells(sq, 2) == book_cells(sq, 1) ^ 0x78e37644e7cad29eu64);
    assert(book_cells(sq, 3) == book_cells(sq, 2) ^ 0x4715ed43e8a45c0au64);
    assert(book_cells(sq, 4) == book_cells(sq, 3) ^ 0x08dd9bdfd96b9f63u64);
    assert(book_cells(sq, 5) == book_cells(sq, 4) ^ 0xb5fdfc5d3132c498u64);
    assert(book_cells(sq, 6) == book_cells(sq, 5) ^ 0xb57d2e985e1419c7u64);
    assert(book_cells(sq, 7) == book_cells(sq, 6) ^ 0xdf1d9f9d784ba010u64);
    assert(book_cells(sq, 8) == book_cells(sq, 7) ^ 0xd18d8549d140caeau64);
    assert(book_cells(sq, 9) == book_cells(sq, 8) ^ 0x14acbaf4777d5776u64);
    assert(book_cells(sq, 10) == book_cells(sq, 9) ^ 0xf145b6beccdea195u64);
    assert(book_cells(sq, 11) == book_cells(sq, 10) ^ 0xdabf2ac8201752fcu64);
    assert(book_cells(sq, 12) == book_cells(sq, 11) ^ 0x24c3c94df9c8d3f6u64);
    assert(book_cells(sq, 13) == book_cells(sq, 12) ^ 0xbb6e2924f03912eau64);
    assert(book_cells(sq, 14) == book_cells(sq, 13) ^ 0x0ce26c0b95c980d9u64);
    assert(book_cells(sq, 15) == book_cells(sq, 14) ^ 0xa49cd132bfbf7cc4u64);
    assert(book_cells(sq, 16) == book_cells(sq, 15) ^ 0xe99d662af4243939u64);
    assert(book_cells(sq, 17) == book_cells(sq, 16));
    assert(book_cells(sq, 18) == book_cells(sq, 17));
    assert(book_cells(sq, 19) == book_cells(sq, 18));
    assert(book_cells(sq, 20) == book_cells(sq, 19));
    assert(book_cells(sq, 21) == book_cells(sq, 20));
    assert(book_cells(sq, 22) == book_cells(sq, 21));
    assert(book_cells(sq, 23) == book_cells(sq, 22));
    assert(book_cells(sq, 24) == book_cells(sq, 23));
    assert(book_cells(sq, 25) == book_cells(sq, 24));
    assert(book_cells(sq, 26) == book_cells(sq, 25));
    assert(book_cells(sq, 27) == book_cells(sq, 26));
    assert(book_cells(sq, 28) == book_cells(sq, 27));
    assert(book_cells(sq, 29) == book_cells(sq, 28));
    assert(book_cells(sq, 30) == book_cells(sq, 29));
    assert(book_cells(sq, 31) == book_cells(sq, 30));
    assert(book_cells(sq, 32) == book_cells(sq, 31));
    assert(book_cells(sq, 33) == book_cells(sq, 32));
    assert(book_cells(sq, 34) == book_cells(sq, 33));
    assert(book_cells(sq, 35) == book_cells(sq, 34));
    assert(book_cells(sq, 36) == book_cells(sq, 35));
    assert(book_cells(sq, 37) == book_cells(sq, 36));
    assert(book_cells(sq, 38) == book_cells(sq, 37));
    assert(book_cells(sq, 39) == book_cells(sq, 38));
    assert(book_cells(sq, 40) == book_cells(sq, 39));
    assert(book_cells(sq, 41) == book_cells(sq, 40));
    assert(book_cells(sq, 42) == book_cells(sq, 41));
    assert(book_cells(sq, 43) == book_cells(sq, 42));
    assert(book_cells(sq, 44) == book_cells(sq, 43));
    assert(book_cells(sq, 45) == book_cells(sq, 44));
    assert(book_cells(sq, 46) == book_cells(sq, 45));
    assert(book_cells(sq, 47) == book_cells(sq, 46));
    assert(book_cells(sq, 48) == book_cells(sq, 47));
    assert(book_cells(sq, 49) == book_cells(sq, 48) ^ 0x3253a729b9ba3ddeu64);
    assert(book_cells(sq, 50) == book_cells(sq, 49) ^ 0x8c74c368081b3075u64);
    assert(book_cells(sq, 51) == book_cells(sq, 50) ^ 0xb9bc6c87167c33e7u64);
    assert(book_cells(sq, 52) == book_cells(sq, 51) ^ 0x7ef48f2b83024e20u64);
    assert(book_cells(sq, 53) == book_cells(sq, 52) ^ 0x11d505d4c351bd7fu64);
    assert(book_cells(sq, 54) == book_cells(sq, 53) ^ 0x6568fca92c76a243u64);
    assert(book_cells(sq, 55) == book_cells(sq, 54) ^ 0x4de0b0f40f32a7b8u64);
    assert(book_cells(sq, 56) == book_cells(sq, 55) ^ 0x96d693460cc37e5du64);
    assert(book_cells(sq, 57) == book_cells(sq, 56) ^ 0x26e6db8ffdf5adfeu64);
    assert(book_cells(sq, 58) == book_cells(sq, 57) ^ 0xe755178d58fc4e76u64);
    assert(book_cells(sq, 59) == book_cells(sq, 58) ^ 0xa3bc941d0a5061cbu64);
    assert(book_cells(sq, 60) == book_cells(sq, 59) ^ 0x9e21f4f903b33fd9u64);
    assert(book_cells(sq, 61) == book_cells(sq, 60) ^ 0x13ae978d09fe5557u64);
    assert(book_cells(sq, 62) == book_cells(sq, 61) ^ 0x852f54934da55cc9u64);
    assert(book_cells(sq, 63) == book_cells(sq, 62) ^ 0x8ec97d2917456ed0u64);
    assert(book_cells(sq, 64) == book_cells(sq, 63) ^ 0x8fe88b57305e2ab6u64);
    assert(0u64 ^ 0xa09e8c8c35ab96deu64 ^ 0x78e37644e7cad29eu64 ^ 0x4715ed43e8a45c0au64
        ^ 0x08dd9bdfd96b9f63u64 ^ 0xb5fdfc5d3132c498u64 ^ 0xb57d2e985e1419c7u64
        ^ 0xdf1d9f9d784ba010u64 ^ 0xd18d8549d140caeau64 ^ 0x14acbaf4777d5776u64
        ^ 0xf145b6beccdea195u64 ^ 0xdabf2ac8201752fcu64 ^ 0x24c3c94df9c8d3f6u64
        ^ 0xbb6e2924f03912eau64 ^ 0x0ce26c0b95c980d9u64 ^ 0xa49cd132bfbf7cc4u64
        ^ 0xe99d662af4243939u64 ^ 0x3253a729b9ba3ddeu64 ^ 0x8c74c368081b3075u64
        ^ 0xb9bc6c87167c33e7u64 ^ 0x7ef48f2b83024e20u64 ^ 0x11d505d4c351bd7fu64
        ^ 0x6568fca92c76a243u64 ^ 0x4de0b0f40f32a7b8u64 ^ 0x96d693460cc37e5du64
        ^ 0x26e6db8ffdf5adfeu64 ^ 0xe755178d58fc4e76u64 ^ 0xa3bc941d0a5061cbu64
        ^ 0x9e21f4f903b33fd9u64 ^ 0x13ae978d09fe5557u64 ^ 0x852f54934da55cc9u64
        ^ 0x8ec97d2917456ed0u64 ^ 0x8fe88b57305e2ab6u64 == 0xc5d79d196e37d67cu64) by (bit_vector);
}

/// The Polyglot hash of the starting position is the one that all programs agree
/// on.
pub proof fn law_start_key()
    ensures
        book_key(start_position()) == 0x463b96181691fc9cu64,
{
    let p = start_position();
    let sq = p.squares;
    lemma_start_numbers();
    lemma_start_cells();
    assert(p.castling.holds(CastlingRights::WHITE_KING) && p.castling.holds(
        CastlingRights::WHITE_QUEEN,
    ) && p.castling.holds(CastlingRights::BLACK_KING) && p.castling.holds(
        CastlingRights::BLACK_QUEEN,
    )) by {
        assert(15u8 & 1u8 != 0 && 15u8 & 2u8 != 0 && 15u8 & 4u8 != 0 && 15u8 & 8u8 != 0)
            by (bit_vector);
    }
    assert(0xc5d79d196e37d67cu64 ^ (0x31d71dce64b2c310u64 ^ 0xf165b587df898190u64 ^ 0xa57e6339dd2cf3a0u64 ^ 0x1ef6e6dbb1961ec9u64) ^ 0u64 ^ 0xf8d626aaaf278509u64 == 0x463b96181691fc9cu64) by (bit_vector);
}

/// The clocks make no difference to the Polyglot hash.
pub proof fn law_clocks_leave_key(p: Pos, halfmove: int, fullmove: int)
    ensures
        book_key(Pos { halfmove, fullmove, ..p }) == book_key(p),
{
}

/// An en passant square that no pawn can capture on makes no difference to the
/// Polyglot hash.
pub proof fn law_untaken_ep_leaves_key(p: Pos, e: Square)
    requires
        !ep_captor(p, e),
    ensures
        book_key(Pos { ep: Some(e), ..p }) == book_key(Pos { ep: None, ..p }),
{
}

/// The en passant square, if there is one, has a rank behind it.
pub open spec fn ep_inside(p: Pos) -> bool {
    p.ep matches Some(e) ==> (if p.side == Color::White {
        e.r() > 0
    } else {
        e.r() < 7
    })
}

impl Board {
    /// True when the en passant square, if there is one, has a rank behind it.
    pub fn ep_is_inside(&self) -> (r: bool)
        requires
            self.wf(),
        ensures
            r == ep_inside(self@),
    {
        match self.ep_square {
            Some(e) => if self.side_to_move == Color::White {
                e.rank() > 0
            } else {
                e.rank() < 7
            },
            None => true,
        }
    }
}

/// The Polyglot hash of `board`.
///
/// It is made of the numbers that all programs share, not of the engine's own,
/// so that book files can be exchanged.
pub fn poly_hash(board: &Board) -> (r: u64)
    requires
        board.wf(),
        ep_inside(board@),
    ensures
        r == book_key(board@),
{
    let mut h: u64 = 0;
    let mut i: u8 = 0;
    while i < 64
        invariant
            i <= 64,
            board.wf(),
            h == book_cells(board@.squares, i as int),
        decreases 64 - i,
    {
        if let Some(piece) = board.piece_at(Square::new(i)) {
            let row: usize = piece_index(piece.color, piece.piece_type);
            h = h ^ random_number(row * 64 + i as usize);
        }
        i += 1;
    }
    let mut c: u64 = 0;
    if board.castling.has(CastlingRights::WHITE_KING) {
        c = random_number(768);
    }
    proof {
        lemma_xor(c, 0, 0);
    }
    if board.castling.has(CastlingRights::WHITE_QUEEN) {
        c = c ^ random_number(769);
    }
    proof {
        lemma_xor(c, 0, 0);
    }
    if board.castling.has(CastlingRights::BLACK_KING) {
        c = c ^ random_number(770);
    }
    proof {
        lemma_xor(c, 0, 0);
    }
    if board.castling.has(CastlingRights::BLACK_QUEEN) {
        c = c ^ random_number(771);
    }
    h = h ^ c;
    proof {
        lemma_xor(h, 0, 0);
    }
    if let Some(ep) = board.ep_square {
        if board.has_ep_captor(ep) {
            h = h ^ random_number(772 + ep.file() as usize);
        }
    }
    proof {
        lemma_xor(h, 0, 0);
    }
    if board.side_to_move == Color::White {
        h = h ^ random_number(780);
    }
    h
}

/// The square where a Polyglot move ends: for castling the rook's square.
pub open spec fn book_target(mv: Move) -> int {
    let s = mv.src().0;
    if mv.flagged(MoveFlag::KingCastle) && (s == 4 || s == 60) {
        s + 3
    } else if mv.flagged(MoveFlag::QueenCastle) && (s == 4 || s == 60) {
        s - 4
    } else {
        mv.dst().0 as int
    }
}

/// The code of a promotion in a Polyglot move.
pub open spec fn promo_code(pt: Option<PieceType>) -> int {
    match pt {
        Some(PieceType::Knight) => 1,
        Some(PieceType::Bishop) => 2,
        Some(PieceType::Rook) => 3,
        Some(PieceType::Queen) => 4,
        _ => 0,
    }
}

/// The promotion that a code in a Polyglot move stands for.
pub open spec fn promo_of_code(code: int) -> Option<PieceType> {
    if code == 1 {
        Some(PieceType::Knight)
    } else if code == 2 {
        Some(PieceType::Bishop)
    } else if code == 3 {
        Some(PieceType::Rook)
    } else if code == 4 {
        Some(PieceType::Queen)
    } else {
        None
    }
}

/// A move as a Polyglot word: the target in bits 0 to 5, the source in bits 6 to
/// 11, the promotion in bits 12 to 14.
pub open spec fn book_word(mv: Move) -> int {
    book_target(mv) + 64 * mv.src().0 + 4096 * promo_code(mv.promo())
}

/// The square where the king of the engine's castling move ends, if the squares
/// are those of a Polyglot castling move; else the target itself.
pub open spec fn own_target(from: int, to: int) -> int {
    if from == 4 && to == 7 {
        6
    } else if from == 4 && to == 0 {
        2
    } else if from == 60 && to == 63 {
        62
    } else if from == 60 && to == 56 {
        58
    } else {
        to
    }
}

/// The move is the one that a Polyglot word stands for.
pub open spec fn worded_as(word: int) -> spec_fn(Move) -> bool {
    |m: Move|
        {
            let from = (word / 64) % 64;
            &&& m.src().0 == from
            &&& m.dst().0 == own_target(from, word % 64)
            &&& m.promo() == promo_of_code((word / 4096) % 8)
        }
}

/// Decode a Polyglot 16-bit move word into one of the `legal` moves, or `None`
/// if it does not match any of them.
///
/// ```text
/// bits  0-2   to_file   (0=a .. 7=h)
/// bits  3-5   to_rank   (0=1 .. 7=8)
/// bits  6-8   from_file
/// bits  9-11  from_rank
/// bits 12-14  promotion  (0=none 1=N 2=B 3=R 4=Q)
/// ```
///
/// Castling is stored as the king moving to the rook's square.
pub fn decode_move(poly_move: u16, legal: &MoveList) -> (r: Option<Move>)
    ensures
        r == first_where(legal@, worded_as(poly_move as int)),
{
    let ghost q = worded_as(poly_move as int);
    let from: u8 = ((poly_move / 64) % 64) as u8;
    let to: u8 = (poly_move % 64) as u8;
    let code: u16 = (poly_move / 4096) % 8;
    let target: u8 = if from == 4 && to == 7 {
        6
    } else if from == 4 && to == 0 {
        2
    } else if from == 60 && to == 63 {
        62
    } else if from == 60 && to == 56 {
        58
    } else {
        to
    };
    let promo = match code {
        1 => Some(PieceType::Knight),
        2 => Some(PieceType::Bishop),
        3 => Some(PieceType::Rook),
        4 => Some(PieceType::Queen),
        _ => None,
    };
    let mut i: usize = 0;
    while i < legal.len()
        invariant
            i <= legal@.len(),
            q == worded_as(poly_move as int),
            from == (poly_move as int / 64) % 64,
            target == own_target(from as int, poly_move as int % 64),
            promo == promo_of_code((poly_move as int / 4096) % 8),
            forall|j: int| 0 <= j < i ==> !q(#[trigger] legal@[j]),
        decreases legal@.len() - i,
    {
        let mv = legal.get(i);
        if mv.from() == Square(from) && mv.to() == Square(target) && mv.promotion_piece()
            == promo {
            proof {
                lemma_first_is(legal@, q, i as int);
            }
            return Some(mv);
        }
        i += 1;
    }
    proof {
        lemma_first_none(legal@, q);
    }
    None
}

/// Encode a [`Move`] into a Polyglot 16-bit word.
///
/// Castling moves are encoded with the king landing on the rook's square.
pub fn encode_move(mv: Move) -> (r: u16)
    ensures
        r == book_word(mv),
{
    let from: u16 = mv.from().0 as u16;
    let mut to: u16 = mv.to().0 as u16;
    if from == 4 || from == 60 {
        if mv.bits() / 4096 == 2 {
            to = from + 3;
        } else if mv.bits() / 4096 == 3 {
            to = from - 4;
        }
    }
    let promo: u16 = match mv.promotion_piece() {
        Some(PieceType::Knight) => 1,
        Some(PieceType::Bishop) => 2,
        Some(PieceType::Rook) => 3,
        Some(PieceType::Queen) => 4,
        _ => 0,
    };
    to + 64 * from + 4096 * promo
}

/// The squares of the move are those that a Polyglot book reads as castling,
/// though the move is another one.
pub open spec fn reads_as_castling(mv: Move) -> bool {
    &&& !mv.castles()
    &&& own_target(mv.src().0 as int, mv.dst().0 as int) != mv.dst().0
}

proof fn lemma_castling_squares(p: Pos, mv: Move)
    requires
        valid(p),
        legal(p).contains(mv),
    ensures
        mv.castles() ==> (mv.src().0 == 4 || mv.src().0 == 60),
        mv.flagged(MoveFlag::KingCastle) ==> mv.dst().0 == mv.src().0 + 2,
        mv.flagged(MoveFlag::QueenCastle) ==> mv.dst().0 == mv.src().0 - 2,
{
    reveal(valid);
    law_legal_moves(p, mv);
    law_pseudo_moves_shape(p);
    assert(shape(p, mv));
}

/// In a valid position, a legal move that is encoded and decoded again comes
/// back, unless it is a move of another piece that reads as castling.
pub proof fn law_encode_decode(p: Pos, mv: Move)
    requires
        valid(p),
        legal(p).contains(mv),
        !reads_as_castling(mv),
    ensures
        0 <= book_word(mv) <= 0x7fff,
        first_where(legal(p), worded_as(book_word(mv))) == Some(mv),
{
    lemma_castling_squares(p, mv);
    let w = book_word(mv);
    let q = worded_as(w);
    assert(0 <= book_target(mv) < 64);
    assert(0 <= promo_code(mv.promo()) <= 4);
    assert(w % 64 == book_target(mv));
    assert((w / 64) % 64 == mv.src().0);
    assert((w / 4096) % 8 == promo_code(mv.promo()));
    assert(promo_of_code(promo_code(mv.promo())) == mv.promo());
    assert(q(mv));
    assert forall|m: Move| #[trigger] q(m) implies alike(m, mv) by {}
    lemma_finds_legal(p, q, mv);
}

} // verus!
