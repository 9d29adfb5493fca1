//! Making and unmaking moves.

use crate::board::piece::{Color, Piece, PieceType};
use crate::board::square::Square;
use crate::board::zobrist::{castling_key, ep_key, side_key, zobrist};
use crate::board::{cells_key, position_key, Board, CastlingRights, Pos};
use crate::movegen::moves::{Move, MoveFlag};
use vstd::prelude::*;

verus! {

/// Information needed to reverse a [`Move`].
#[derive(Clone, Copy)]
pub struct Undo {
    pub captured: Option<Piece>,
    pub prev_castling: CastlingRights,
    pub prev_ep: Option<Square>,
    pub prev_halfmove: u16,
    pub prev_hash: u64,
}

/// Information needed to reverse a null move ([`Board::make_null_move`]).
///
/// A null move passes the turn to the opponent without moving any piece.
#[derive(Clone, Copy)]
pub struct NullUndo {
    pub prev_ep: Option<Square>,
    pub prev_halfmove: u16,
    pub prev_hash: u64,
}

/// The castling rights that are revoked when a square is vacated or captured
/// upon.
pub open spec fn castle_mask_of(s: int) -> u8 {
    if s == 0 {
        2
    } else if s == 4 {
        3
    } else if s == 7 {
        1
    } else if s == 56 {
        8
    } else if s == 60 {
        12
    } else if s == 63 {
        4
    } else {
        0
    }
}

/// Where the rook comes from when the king castles to `to`.
pub open spec fn rook_from(to: int) -> int {
    if to % 8 == 6 {
        to + 1
    } else {
        to - 2
    }
}

/// Where the rook goes when the king castles to `to`.
pub open spec fn rook_to(to: int) -> int {
    if to % 8 == 6 {
        to - 1
    } else {
        to + 1
    }
}

/// The square of the pawn that `us` captures en passant by moving to `to`.
pub open spec fn ep_victim(us: Color, to: int) -> int {
    if us == Color::White {
        to - 8
    } else {
        to + 8
    }
}

impl Move {
    /// The move is castling.
    pub open spec fn castles(self) -> bool {
        self.flagged(MoveFlag::KingCastle) || self.flagged(MoveFlag::QueenCastle)
    }

    /// The move is an en-passant capture.
    pub open spec fn en_passant(self) -> bool {
        self.flagged(MoveFlag::EnPassant)
    }
}

/// The move makes sense on the board: there is a piece to move, what is to be
/// captured or to castle with is there, and what has to be free is free.
pub open spec fn can_make(p: Pos, mv: Move) -> bool {
    let f = mv.src().0 as int;
    let t = mv.dst().0 as int;
    &&& mv.coded()
    &&& f != t
    &&& p.occupied(f)
    &&& if mv.en_passant() {
        &&& p.occupied(ep_victim(p.side, t))
        &&& ep_victim(p.side, t) != f
        &&& p.vacant(t)
    } else if mv.castles() {
        &&& p.vacant(t)
        &&& p.vacant(rook_to(t))
        &&& p.occupied(rook_from(t))
        &&& rook_from(t) != f
    } else {
        mv.captures() || p.vacant(t)
    }
}

/// The piece that the move captures.
pub open spec fn captured(p: Pos, mv: Move) -> Option<Piece> {
    if mv.en_passant() {
        p.at(ep_victim(p.side, mv.dst().0 as int))
    } else if !mv.castles() && mv.captures() {
        p.at(mv.dst().0 as int)
    } else {
        None
    }
}

/// The move is a pawn move or a capture.
pub open spec fn irreversible(p: Pos, mv: Move) -> bool {
    p.typed(PieceType::Pawn, mv.src().0 as int) || mv.en_passant() || (!mv.castles()
        && mv.captures())
}

/// The piece that the move puts on its target square.
pub open spec fn placed(p: Pos, mv: Move) -> Option<Piece> {
    match mv.promo() {
        Some(pt) => Some(Piece { color: p.side, piece_type: pt }),
        None => p.at(mv.src().0 as int),
    }
}

/// The squares after the move.
pub open spec fn moved_squares(p: Pos, mv: Move) -> Seq<Option<Piece>> {
    let f = mv.src().0 as int;
    let t = mv.dst().0 as int;
    if mv.en_passant() {
        p.squares.update(ep_victim(p.side, t), None).update(f, None).update(t, p.at(f))
    } else if mv.castles() {
        p.squares.update(f, None).update(t, p.at(f)).update(rook_from(t), None).update(
            rook_to(t),
            p.at(rook_from(t)),
        )
    } else {
        p.squares.update(f, None).update(t, placed(p, mv))
    }
}

/// A 16-bit clock after one more move; it starts again from 0 when it overflows.
pub open spec fn ticked(n: int) -> int {
    if n >= 65535 {
        0
    } else {
        n + 1
    }
}

/// A 16-bit clock before the last move.
pub open spec fn unticked(n: int) -> int {
    if n <= 0 {
        65535
    } else {
        n - 1
    }
}

/// The position after the move.
pub open spec fn apply(p: Pos, mv: Move) -> Pos {
    let f = mv.src().0 as int;
    let t = mv.dst().0 as int;
    Pos {
        squares: moved_squares(p, mv),
        side: p.side.other(),
        castling: CastlingRights(p.castling.0 & !(castle_mask_of(f) | castle_mask_of(t))),
        ep: if mv.flagged(MoveFlag::DoublePush) {
            Some(Square(((f + t) / 2) as u8))
        } else {
            None
        },
        halfmove: if irreversible(p, mv) {
            0
        } else {
            ticked(p.halfmove)
        },
        fullmove: if p.side == Color::Black {
            ticked(p.fullmove)
        } else {
            p.fullmove
        },
    }
}

/// What has to be remembered to take the move back.
pub open spec fn undo_of(p: Pos, hash: u64, mv: Move) -> Undo {
    Undo {
        captured: captured(p, mv),
        prev_castling: p.castling,
        prev_ep: p.ep,
        prev_halfmove: p.halfmove as u16,
        prev_hash: hash,
    }
}

/// The board looks like one on which `mv` was made, so that it can be taken
/// back.
pub open spec fn can_unmake(p: Pos, mv: Move, undo: Undo) -> bool {
    let f = mv.src().0 as int;
    let t = mv.dst().0 as int;
    &&& mv.coded()
    &&& f != t
    &&& p.vacant(f)
    &&& p.occupied(t)
    &&& (undo.prev_ep matches Some(e) ==> e.ok())
    &&& if mv.en_passant() {
        &&& p.vacant(ep_victim(p.side.other(), t))
        &&& ep_victim(p.side.other(), t) != f
        &&& undo.captured is Some
    } else if mv.castles() {
        &&& p.occupied(rook_to(t))
        &&& p.vacant(rook_from(t))
        &&& rook_from(t) != f
    } else {
        true
    }
}

/// The position before a move, from the one after it.
pub open spec fn unapply(p: Pos, mv: Move, undo: Undo) -> Pos {
    let f = mv.src().0 as int;
    let t = mv.dst().0 as int;
    let us = p.side.other();
    Pos {
        squares: if mv.en_passant() {
            p.squares.update(t, None).update(f, p.at(t)).update(ep_victim(us, t), undo.captured)
        } else if mv.castles() {
            p.squares.update(t, None).update(f, p.at(t)).update(rook_to(t), None).update(
                rook_from(t),
                p.at(rook_to(t)),
            )
        } else {
            p.squares.update(t, undo.captured).update(
                f,
                if mv.promotes() {
                    Some(Piece { color: us, piece_type: PieceType::Pawn })
                } else {
                    p.at(t)
                },
            )
        },
        side: us,
        castling: undo.prev_castling,
        ep: undo.prev_ep,
        halfmove: undo.prev_halfmove as int,
        fullmove: if us == Color::Black {
            unticked(p.fullmove)
        } else {
            p.fullmove
        },
    }
}

/// Taking back a move that was just made restores the position exactly.
pub proof fn law_unmake_undoes_make(p: Pos, hash: u64, mv: Move)
    requires
        p.wf(),
        0 <= p.halfmove <= 65535,
        0 <= p.fullmove <= 65535,
        can_make(p, mv),
        mv.promotes() ==> p.holds(p.side, PieceType::Pawn, mv.src().0 as int),
    ensures
        can_unmake(apply(p, mv), mv, undo_of(p, hash, mv)),
        unapply(apply(p, mv), mv, undo_of(p, hash, mv)) == p,
{
    let q = apply(p, mv);
    let u = undo_of(p, hash, mv);
    assert(p.side.other().other() == p.side);
    assert(unapply(q, mv, u).squares =~= p.squares);
}

/// The position after passing the turn.
pub open spec fn apply_null(p: Pos) -> Pos {
    Pos { side: p.side.other(), ep: None, halfmove: ticked(p.halfmove), ..p }
}

/// The position before the turn was passed.
pub open spec fn unapply_null(p: Pos, undo: NullUndo) -> Pos {
    Pos {
        side: p.side.other(),
        ep: undo.prev_ep,
        halfmove: undo.prev_halfmove as int,
        ..p
    }
}

/// Taking back a null move restores the position exactly.
pub proof fn law_unmake_undoes_null(p: Pos, hash: u64)
    requires
        0 <= p.halfmove <= 65535,
    ensures
        unapply_null(
            apply_null(p),
            NullUndo { prev_ep: p.ep, prev_halfmove: p.halfmove as u16, prev_hash: hash },
        ) == p,
{
}

proof fn bv_ep(h: u64, cells: u64, s: u64, c: u64, e: u64, e2: u64)
    by (bit_vector)
    ensures
        ((h ^ e) ^ e2) ^ (cells ^ ((s ^ c) ^ e2)) == h ^ (cells ^ ((s ^ c) ^ e)),
        h ^ 0u64 == h,
{
}

proof fn bv_castling(h: u64, cells: u64, s: u64, c: u64, c2: u64, e: u64)
    by (bit_vector)
    ensures
        ((h ^ c) ^ c2) ^ (cells ^ ((s ^ c2) ^ e)) == h ^ (cells ^ ((s ^ c) ^ e)),
{
}

proof fn bv_side(h: u64, cells: u64, k: u64, c: u64, e: u64)
    by (bit_vector)
    ensures
        (h ^ k) ^ (cells ^ ((k ^ c) ^ e)) == h ^ (cells ^ ((0u64 ^ c) ^ e)),
        (h ^ k) ^ (cells ^ ((0u64 ^ c) ^ e)) == h ^ (cells ^ ((k ^ c) ^ e)),
{
}

/// The castling rights that are revoked when a given square is vacated or
/// captured upon (king or rook home squares). 0 for every other square.
fn castle_mask(sq: Square) -> (r: u8)
    ensures
        r == castle_mask_of(sq.0 as int),
{
    let s: u8 = sq.0;
    if s == 0 {
        2
    } else if s == 4 {
        3
    } else if s == 7 {
        1
    } else if s == 56 {
        8
    } else if s == 60 {
        12
    } else if s == 63 {
        4
    } else {
        0
    }
}

/// The rook's `(from, to)` squares for a castling king move landing on `king_to`.
fn castling_rook_squares(king_to: Square) -> (r: (Square, Square))
    requires
        king_to.ok(),
        0 <= rook_from(king_to.0 as int) < 64,
        0 <= rook_to(king_to.0 as int) < 64,
    ensures
        r.0 == Square(rook_from(king_to.0 as int) as u8),
        r.1 == Square(rook_to(king_to.0 as int) as u8),
        r.0.ok(),
        r.1.ok(),
{
    let to: u8 = king_to.0;
    if king_to.file() == 6 {
        (Square::new(to + 1), Square::new(to - 1))
    } else {
        (Square::new(to - 2), Square::new(to + 1))
    }
}

impl Board {
    /// How far the stored hash is from the hash of the position.
    pub open spec fn drift(&self) -> u64 {
        self.hash ^ position_key(self@)
    }

    /// Set or clear the en-passant target, keeping the hash in step.
    fn set_ep(&mut self, ep: Option<Square>)
        requires
            old(self).wf(),
            ep matches Some(e) ==> e.ok(),
        ensures
            final(self).wf(),
            final(self)@ == (Pos { ep, ..old(self)@ }),
            final(self).drift() == old(self).drift(),
    {
        let ghost b0 = *self;
        let z = zobrist();
        if let Some(e) = self.ep_square {
            self.hash = self.hash ^ z.ep_file(e.file());
        }
        self.ep_square = ep;
        if let Some(e) = ep {
            self.hash = self.hash ^ z.ep_file(e.file());
        }
        proof {
            let e = match b0@.ep {
                Some(q) => ep_key(q.f()),
                None => 0,
            };
            let e2 = match ep {
                Some(q) => ep_key(q.f()),
                None => 0,
            };
            let s = if b0@.side == Color::Black {
                side_key()
            } else {
                0
            };
            let cells = cells_key(b0@.squares, 64);
            let c = castling_key(b0@.castling.0);
            bv_ep(b0.hash, cells, s, c, e, e2);
            bv_ep(b0.hash ^ e, cells, s, c, e, e2);
        }
    }

    /// Revoke the castling rights of `mask`, keeping the hash in step.
    fn revoke(&mut self, mask: u8)
        requires
            old(self).wf(),
        ensures
            final(self).wf(),
            final(self)@ == (Pos {
                castling: CastlingRights(old(self)@.castling.0 & !mask),
                ..old(self)@
            }),
            final(self).drift() == old(self).drift(),
    {
        let ghost b0 = *self;
        let z = zobrist();
        self.hash = self.hash ^ z.castling(self.castling.0);
        self.castling = CastlingRights(self.castling.0 & !mask);
        self.hash = self.hash ^ z.castling(self.castling.0);
        proof {
            let e = match b0@.ep {
                Some(q) => ep_key(q.f()),
                None => 0,
            };
            let s = if b0@.side == Color::Black {
                side_key()
            } else {
                0
            };
            bv_castling(
                b0.hash,
                cells_key(b0@.squares, 64),
                s,
                castling_key(b0.castling.0),
                castling_key(self.castling.0),
                e,
            );
        }
    }

    /// Pass the turn, keeping the hash in step.
    fn flip_side(&mut self)
        requires
            old(self).wf(),
        ensures
            final(self).wf(),
            final(self)@ == (Pos { side: old(self)@.side.other(), ..old(self)@ }),
            final(self).drift() == old(self).drift(),
    {
        let ghost b0 = *self;
        self.side_to_move = self.side_to_move.opposite();
        self.hash = self.hash ^ zobrist().side();
        proof {
            let e = match b0@.ep {
                Some(q) => ep_key(q.f()),
                None => 0,
            };
            bv_side(
                b0.hash,
                cells_key(b0@.squares, 64),
                side_key(),
                castling_key(b0.castling.0),
                e,
            );
        }
    }

    /// Move the pieces as `mv` says, returning what was captured.
    fn move_pieces(&mut self, mv: Move) -> (taken: Option<Piece>)
        requires
            old(self).wf(),
            can_make(old(self)@, mv),
        ensures
            final(self).wf(),
            final(self)@ == (Pos { squares: moved_squares(old(self)@, mv), ..old(self)@ }),
            taken == captured(old(self)@, mv),
            final(self).drift() == old(self).drift(),
    {
        let ghost p = self@;
        let us = self.side_to_move;
        let from = mv.from();
        let to = mv.to();
        let moving = self.piece_at(from).unwrap();
        let mut taken: Option<Piece> = None;
        if mv.is_en_passant() {
            // The captured pawn sits beside `to`, on the moving side's rank.
            let cap_sq = if us == Color::White {
                Square::new(to.0 - 8)
            } else {
                Square::new(to.0 + 8)
            };
            taken = self.remove_piece(cap_sq);
            let _ = self.remove_piece(from);
            self.put_piece(to, moving);
        } else if mv.is_castle() {
            let _ = self.remove_piece(from);
            self.put_piece(to, moving);
            let (rook_home, rook_dest) = castling_rook_squares(to);
            let rook = self.remove_piece(rook_home).unwrap();
            self.put_piece(rook_dest, rook);
        } else {
            if mv.is_capture() {
                taken = self.remove_piece(to);
            }
            let _ = self.remove_piece(from);
            let dropped = match mv.promotion_piece() {
                Some(pt) => Piece::new(us, pt),
                None => moving,
            };
            self.put_piece(to, dropped);
        }
        proof {
            assert(self@.squares =~= moved_squares(p, mv));
        }
        taken
    }

    /// Apply `mv`, returning the [`Undo`] needed to revert it.
    pub fn make_move(&mut self, mv: Move) -> (r: Undo)
        requires
            old(self).wf(),
            can_make(old(self)@, mv),
        ensures
            final(self).wf(),
            final(self)@ == apply(old(self)@, mv),
            r == undo_of(old(self)@, old(self).hash, mv),
            final(self).drift() == old(self).drift(),
            old(self).hashed() ==> final(self).hashed(),
    {
        let ghost b0 = *self;
        let us = self.side_to_move;
        let from = mv.from();
        let to = mv.to();

        let prev_castling = self.castling;
        let prev_ep = self.ep_square;
        let prev_halfmove: u16 = self.halfmove_clock;
        let prev_hash: u64 = self.hash;

        // 50-move rule: reset on pawn moves and captures, otherwise increment.
        let moving = self.piece_at(from).unwrap();
        let reset_halfmove = moving.piece_type == PieceType::Pawn || mv.is_capture();

        let taken = self.move_pieces(mv);

        // A double push leaves an en-passant target behind the pawn.
        if mv.flag() == MoveFlag::DoublePush {
            self.set_ep(Some(Square::new((from.0 + to.0) / 2)));
        } else {
            self.set_ep(None);
        }
        self.revoke(castle_mask(from) | castle_mask(to));
        self.flip_side();

        if us == Color::Black {
            self.fullmove_number = self.fullmove_number.wrapping_add(1);
        }
        self.halfmove_clock =
        if reset_halfmove {
            0
        } else {
            prev_halfmove.wrapping_add(1)
        };
        proof {
            lemma_drift_zero(b0);
            lemma_drift_zero(*self);
        }
        Undo { captured: taken, prev_castling, prev_ep, prev_halfmove, prev_hash }
    }

    /// Pass the turn to the opponent without moving any piece.
    pub fn make_null_move(&mut self) -> (r: NullUndo)
        requires
            old(self).wf(),
        ensures
            final(self).wf(),
            final(self)@ == apply_null(old(self)@),
            r == (NullUndo {
                prev_ep: old(self).ep_square,
                prev_halfmove: old(self).halfmove_clock,
                prev_hash: old(self).hash,
            }),
            final(self).drift() == old(self).drift(),
            old(self).hashed() ==> final(self).hashed(),
    {
        let ghost b0 = *self;
        let undo = NullUndo {
            prev_ep: self.ep_square,
            prev_halfmove: self.halfmove_clock,
            prev_hash: self.hash,
        };
        self.set_ep(None);
        self.flip_side();
        self.halfmove_clock = self.halfmove_clock.wrapping_add(1);
        proof {
            lemma_drift_zero(b0);
            lemma_drift_zero(*self);
        }
        undo
    }

    /// Revert a null move made by [`make_null_move`](Board::make_null_move).
    pub fn unmake_null_move(&mut self, undo: NullUndo)
        requires
            old(self).wf(),
            undo.prev_ep matches Some(e) ==> e.ok(),
        ensures
            final(self).wf(),
            final(self)@ == unapply_null(old(self)@, undo),
            final(self).hash == undo.prev_hash,
    {
        self.side_to_move = self.side_to_move.opposite();
        self.ep_square = undo.prev_ep;
        self.halfmove_clock = undo.prev_halfmove;
        self.hash = undo.prev_hash;
    }

    /// Revert the most recent [`make_move`](Board::make_move).
    pub fn unmake_move(&mut self, mv: Move, undo: Undo)
        requires
            old(self).wf(),
            can_unmake(old(self)@, mv, undo),
        ensures
            final(self).wf(),
            final(self)@ == unapply(old(self)@, mv, undo),
            final(self).hash == undo.prev_hash,
    {
        let ghost p = self@;
        let from = mv.from();
        let to = mv.to();
        // The side that originally made the move is the side *not* on move now.
        let us = self.side_to_move.opposite();

        if mv.is_en_passant() {
            let pawn = self.remove_piece(to).unwrap();
            self.put_piece(from, pawn);
            let cap_sq = if us == Color::White {
                Square::new(to.0 - 8)
            } else {
                Square::new(to.0 + 8)
            };
            self.put_piece(cap_sq, undo.captured.unwrap());
        } else if mv.is_castle() {
            let king = self.remove_piece(to).unwrap();
            self.put_piece(from, king);
            let (rook_home, rook_dest) = castling_rook_squares(to);
            let rook = self.remove_piece(rook_dest).unwrap();
            self.put_piece(rook_home, rook);
        } else {
            let moved = self.remove_piece(to).unwrap();
            // A promoted piece reverts to a pawn of the moving side.
            let original = if mv.is_promotion() {
                Piece::new(us, PieceType::Pawn)
            } else {
                moved
            };
            self.put_piece(from, original);
            if let Some(captured) = undo.captured {
                self.put_piece(to, captured);
            }
        }
        proof {
            assert(self@.squares =~= unapply(p, mv, undo).squares);
        }

        // Restore the irreversible state. (The hash is restored wholesale.)
        self.side_to_move = us;
        self.castling = undo.prev_castling;
        self.ep_square = undo.prev_ep;
        self.halfmove_clock = undo.prev_halfmove;
        if us == Color::Black {
            self.fullmove_number = self.fullmove_number.wrapping_sub(1);
        }
        self.hash = undo.prev_hash;
    }
}

proof fn lemma_drift_zero(b: Board)
    ensures
        b.hashed() <==> b.drift() == 0,
{
    crate::board::bitboard::bv_xor_zero(b.hash, position_key(b@));
}

} // verus!
