//! Checks that a position can be played from.

use crate::board::piece::{Color, Piece, PieceType};
use crate::board::square::Square;
use crate::board::Board;
use crate::movegen::generate::pseudo_moves;
use crate::movegen::attacks::{pawn_attacks, pawn_step};
use crate::movegen::legal::generable;
use crate::movegen::moves::Move;
use crate::movegen::rules::{
    bare, crowned, ep_ok, lemma_sound_moves_playable, playable, rights_ok, valid,
};
use vstd::prelude::*;

verus! {

impl Board {
    /// True when `piece` stands on square `s`.
    fn stands(&self, c: Color, pt: PieceType, s: u8) -> (r: bool)
        requires
            s < 64,
        ensures
            r == self@.holds(c, pt, s as int),
    {
        self.piece_at(Square::new(s)) == Some(Piece { color: c, piece_type: pt })
    }

    fn are_rights_ok(&self, c: Color) -> (r: bool)
        ensures
            r == rights_ok(self@, c),
    {
        let white = c == Color::White;
        let h: u8 = if white {
            0
        } else {
            56
        };
        let king_side: u8 = if white {
            1
        } else {
            4
        };
        let queen_side: u8 = if white {
            2
        } else {
            8
        };
        let king_home = self.stands(c, PieceType::King, h + 4);
        (!self.castling.has(king_side) || (king_home && self.stands(c, PieceType::Rook, h + 7)))
            && (!self.castling.has(queen_side) || (king_home && self.stands(c, PieceType::Rook, h)))
    }

    fn is_ep_ok(&self) -> (r: bool)
        requires
            self.wf(),
        ensures
            r == ep_ok(self@),
    {
        match self.ep_square {
            None => true,
            Some(e) => {
                let own = self.pieces_colored(self.side_to_move, PieceType::Pawn);
                let takers = pawn_attacks(self.side_to_move.opposite(), e).and(own);
                let untaken = takers.is_empty();
                proof {
                    if untaken {
                        assert forall|i: int| !(#[trigger] pawn_step(
                            self@.side.other(),
                            e.0 as int,
                            i,
                        ) && self@.holds(self@.side, PieceType::Pawn, i)) by {
                            assert(!takers.has(i));
                        }
                    } else {
                        let i = choose|i: int| #[trigger] takers.has(i);
                        assert(pawn_step(self@.side.other(), e.0 as int, i));
                    }
                }
                if untaken {
                    return true;
                }
                let white = self.side_to_move == Color::White;
                let rank: u8 = if white {
                    5
                } else {
                    2
                };
                if e.rank() != rank || self.piece_at(e).is_some() {
                    return false;
                }
                let victim: u8 = if white {
                    e.0 - 8
                } else {
                    e.0 + 8
                };
                self.stands(self.side_to_move.opposite(), PieceType::Pawn, victim)
            },
        }
    }

    /// True when color `c` has a king or nothing.
    fn is_crowned(&self, c: Color) -> (r: bool)
        requires
            self.wf(),
        ensures
            r == crowned(self@, c),
    {
        let any = self.color(c);
        let none = any.is_empty();
        proof {
            if none {
                assert forall|i: int| !(#[trigger] self@.owned(c, i)) by {
                    assert(!any.has(i));
                }
            } else {
                let i = choose|i: int| #[trigger] any.has(i);
                assert(self@.owned(c, i));
            }
        }
        none || self.king_square(c).is_some()
    }

    /// True when color `c` has no pieces but kings.
    fn is_bare(&self, c: Color) -> (r: bool)
        requires
            self.wf(),
        ensures
            r == bare(self@, c),
    {
        let mut i: u8 = 0;
        while i < 64
            invariant
                self.wf(),
                i <= 64,
                forall|k: int| 0 <= k < i && self@.owned(c, k) ==> #[trigger] self@.holds(
                    c,
                    PieceType::King,
                    k,
                ),
            decreases 64 - i,
        {
            if let Some(p) = self.piece_at(Square::new(i)) {
                if p.color == c && p.piece_type != PieceType::King {
                    proof {
                        assert(self@.owned(c, i as int));
                        assert(!self@.holds(c, PieceType::King, i as int));
                    }
                    return false;
                }
            }
            i += 1;
        }
        proof {
            assert forall|k: int| #[trigger] self@.owned(c, k) implies self@.holds(
                c,
                PieceType::King,
                k,
            ) by {}
        }
        true
    }

    /// True when play can go on from the position: each side has a king or
    /// nothing, the castling rights and the en-passant target fit the pieces,
    /// and the side that has just moved is not in check, unless it has nothing
    /// but kings or the game is over.
    pub fn is_valid(&self) -> (r: bool)
        requires
            self.wf(),
        ensures
            r == valid(self@),
    {
        proof {
            reveal(valid);
        }
        let us = self.side_to_move;
        let them = us.opposite();
        if !self.is_crowned(us) || !self.is_crowned(them) || !self.are_rights_ok(Color::White)
            || !self.are_rights_ok(Color::Black) || !self.is_ep_ok() {
            return false;
        }
        if !self.is_king_attacked(them) || self.is_bare(them) {
            return true;
        }
        proof {
            lemma_sound_moves_playable(self@);
        }
        self.legal_moves().is_empty()
    }

    /// True when `mv` can be made on this board and taken back.
    pub fn is_playable(&self, mv: Move) -> (r: bool)
        requires
            self.wf(),
        ensures
            r == playable(self@, mv),
    {
        let code: u16 = mv.bits() / 4096;
        let from = mv.from();
        let to = mv.to();
        let us = self.side_to_move;
        if code == 6 || code == 7 || from == to {
            return false;
        }
        if self.piece_at(from).is_none() {
            return false;
        }
        if mv.is_promotion() && !self.stands(us, PieceType::Pawn, from.0) {
            return false;
        }
        if mv.is_en_passant() {
            if self.piece_at(to).is_some() {
                return false;
            }
            let white = us == Color::White;
            if (white && to.0 < 8) || (!white && to.0 >= 56) {
                return false;
            }
            let victim = Square::new(
                if white {
                    to.0 - 8
                } else {
                    to.0 + 8
                },
            );
            match self.piece_at(victim) {
                None => false,
                Some(piece) => victim != from && piece.color == us.opposite(),
            }
        } else if mv.is_castle() {
            let king_side = to.file() == 6;
            if !king_side && (to.0 < 2 || to.0 == 63) {
                return false;
            }
            let (home_sq, dest) = if king_side {
                (Square::new(to.0 + 1), Square::new(to.0 - 1))
            } else {
                (Square::new(to.0 - 2), Square::new(to.0 + 1))
            };
            self.piece_at(to).is_none() && self.piece_at(dest).is_none() && self.piece_at(
                home_sq,
            ).is_some() && home_sq != from
        } else {
            mv.is_capture() || self.piece_at(to).is_none()
        }
    }

    /// True when the legal moves can be generated: the side to move has a king,
    /// and every pseudo-legal move can be made.
    pub fn is_generable(&self) -> (r: bool)
        requires
            self.wf(),
        ensures
            r == generable(self@),
    {
        let ms = self.pseudo_legal_moves();
        if self.king_square(self.side_to_move).is_none() && !ms.is_empty() {
            return false;
        }
        let mut i: usize = 0;
        while i < ms.len()
            invariant
                self.wf(),
                ms@ == pseudo_moves(self@),
                i <= ms@.len(),
                forall|k: int| 0 <= k < i ==> playable(self@, #[trigger] pseudo_moves(self@)[k]),
            decreases ms@.len() - i,
        {
            if !self.is_playable(ms.get(i)) {
                proof {
                    assert(!playable(self@, pseudo_moves(self@)[i as int]));
                }
                return false;
            }
            i += 1;
        }
        true
    }
}

} // verus!
