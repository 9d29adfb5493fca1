//! Board representation.

pub mod bitboard;
pub mod diagram;
pub mod fen;
pub mod laws;
pub mod piece;
pub mod square;
pub mod zobrist;

pub use bitboard::Bitboard;
pub use fen::FenError;
pub use piece::{Color, Piece, PieceType};
pub use square::Square;

use vstd::prelude::*;
use zobrist::{castling_key, ep_key, piece_key, side_key, zobrist};

verus! {

/// Standard chess starting position in FEN.
pub const STARTING_FEN: &'static str = "rnbqkbnr/pppppppp/8/8/8/8/PPPPPPPP/RNBQKBNR w KQkq - 0 1";

/// Castling availability, stored as a 4-bit mask.
#[derive(Clone, Copy, PartialEq, Eq, Hash, Debug, Structural)]
pub struct CastlingRights(pub u8);

impl Default for CastlingRights {
    /// No castling rights.
    fn default() -> (r: CastlingRights)
        ensures
            r == CastlingRights(0),
    {
        CastlingRights(0)
    }
}

proof fn bv_flags(x: u8, f: u8, g: u8)
    by (bit_vector)
    ensures
        f == 1 || f == 2 || f == 4 || f == 8 ==> ((x | f) & f != 0u8) && ((x & !f) & f == 0u8),
        (f == 1 || f == 2 || f == 4 || f == 8) && (g == 1 || g == 2 || g == 4 || g == 8) && f != g
            ==> (((x | f) & g != 0u8) == (x & g != 0u8)) && (((x & !f) & g != 0u8) == (x & g
            != 0u8)),
        x < 16 && f < 16 ==> (x | f) < 16u8,
        x < 16 ==> (x & !f) < 16u8,
{
}

/// The flag stands for a single castling right.
pub open spec fn single_right(flag: u8) -> bool {
    flag == 1 || flag == 2 || flag == 4 || flag == 8
}

impl CastlingRights {
    pub const WHITE_KING: u8 = 0b0001;

    pub const WHITE_QUEEN: u8 = 0b0010;

    pub const BLACK_KING: u8 = 0b0100;

    pub const BLACK_QUEEN: u8 = 0b1000;

    /// A right among those of `flag` is held.
    pub open spec fn holds(self, flag: u8) -> bool {
        self.0 & flag != 0
    }

    /// No castling rights.
    pub fn none() -> (r: CastlingRights)
        ensures
            r == CastlingRights(0),
    {
        CastlingRights(0)
    }

    /// All four castling rights (`KQkq`).
    pub fn all() -> (r: CastlingRights)
        ensures
            r == CastlingRights(15),
    {
        CastlingRights(15)
    }

    /// True if the given flag (e.g. [`CastlingRights::WHITE_KING`]) is set.
    pub fn has(self, flag: u8) -> (r: bool)
        ensures
            r == self.holds(flag),
    {
        self.0 & flag != 0
    }

    /// Grant a castling right.
    pub fn add(&mut self, flag: u8)
        ensures
            final(self).0 == old(self).0 | flag,
            single_right(flag) ==> final(self).holds(flag),
            single_right(flag) ==> forall|g: u8|
                single_right(g) && g != flag ==> #[trigger] final(self).holds(g) == old(
                    self,
                ).holds(g),
            old(self).0 < 16 && flag < 16 ==> final(self).0 < 16,
    {
        let ghost x = self.0;
        self.0 = self.0 | flag;
        proof {
            bv_flags(x, flag, flag);
            assert forall|g: u8| single_right(flag) && single_right(g) && g != flag implies #[trigger] self.holds(
            g) == (x & g != 0) by {
                bv_flags(x, flag, g);
            }
        }
    }

    /// Revoke a castling right.
    pub fn remove(&mut self, flag: u8)
        ensures
            final(self).0 == old(self).0 & !flag,
            single_right(flag) ==> !final(self).holds(flag),
            single_right(flag) ==> forall|g: u8|
                single_right(g) && g != flag ==> #[trigger] final(self).holds(g) == old(
                    self,
                ).holds(g),
            old(self).0 < 16 ==> final(self).0 < 16,
    {
        let ghost x = self.0;
        self.0 = self.0 & !flag;
        proof {
            bv_flags(x, flag, flag);
            assert forall|g: u8| single_right(flag) && single_right(g) && g != flag implies #[trigger] self.holds(
            g) == (x & g != 0) by {
                bv_flags(x, flag, g);
            }
        }
    }
}

/// What a board stands for: the piece on each of the 64 squares, and the rest
/// of the state that the rules of chess speak of.
#[verifier::ext_equal]
pub struct Pos {
    pub squares: Seq<Option<Piece>>,
    pub side: Color,
    pub castling: CastlingRights,
    pub ep: Option<Square>,
    pub halfmove: int,
    pub fullmove: int,
}

impl Pos {
    /// There are 64 squares, and the en-passant target is one of them.
    pub open spec fn wf(self) -> bool {
        self.squares.len() == 64 && (self.ep matches Some(e) ==> e.ok())
    }

    /// The piece on square `i`, if `i` is a square and a piece stands there.
    pub open spec fn at(self, i: int) -> Option<Piece> {
        if 0 <= i < 64 {
            self.squares[i]
        } else {
            None
        }
    }

    /// Square `i` holds a piece.
    pub open spec fn occupied(self, i: int) -> bool {
        self.at(i) is Some
    }

    /// Square `i` is a square of the board and holds no piece.
    pub open spec fn vacant(self, i: int) -> bool {
        0 <= i < 64 && self.at(i) is None
    }

    /// Square `i` holds a piece of color `c`.
    pub open spec fn owned(self, c: Color, i: int) -> bool {
        self.at(i) matches Some(p) && p.color == c
    }

    /// Square `i` holds a piece of type `pt`.
    pub open spec fn typed(self, pt: PieceType, i: int) -> bool {
        self.at(i) matches Some(p) && p.piece_type == pt
    }

    /// Square `i` holds a piece of color `c` and type `pt`.
    pub open spec fn holds(self, c: Color, pt: PieceType, i: int) -> bool {
        self.at(i) == Some(Piece { color: c, piece_type: pt })
    }

    /// The squares of the pieces of color `c` and type `pt`, in ascending order.
    pub open spec fn pieces(self, c: Color, pt: PieceType) -> Seq<Square> {
        bitboard::pick(|i: int| self.holds(c, pt, i), 0)
    }

    /// The square of the king of color `c`: the lowest one, should there be
    /// several.
    pub open spec fn king(self, c: Color) -> Option<Square> {
        let ks = self.pieces(c, PieceType::King);
        if ks.len() == 0 {
            None
        } else {
            Some(ks[0])
        }
    }
}

/// The key of what stands on one square.
pub open spec fn cell_key(cell: Option<Piece>, i: int) -> u64 {
    match cell {
        Some(p) => piece_key(p.color, p.piece_type, i),
        None => 0,
    }
}

/// The exclusive or of the keys of the first `n` squares.
pub open spec fn cells_key(squares: Seq<Option<Piece>>, n: int) -> u64
    decreases n,
{
    if n <= 0 {
        0
    } else {
        cells_key(squares, n - 1) ^ cell_key(squares[n - 1], n - 1)
    }
}

/// The part of the hash that does not come from the pieces.
pub open spec fn state_key(side: Color, castling: CastlingRights, ep: Option<Square>) -> u64 {
    let s = if side == Color::Black {
        side_key()
    } else {
        0
    };
    let e = match ep {
        Some(q) => ep_key(q.f()),
        None => 0,
    };
    s ^ castling_key(castling.0) ^ e
}

/// The Zobrist hash of a position.
pub open spec fn position_key(p: Pos) -> u64 {
    cells_key(p.squares, 64) ^ state_key(p.side, p.castling, p.ep)
}

/// The rules of exclusive or.
pub proof fn lemma_xor(a: u64, b: u64, c: u64)
    by (bit_vector)
    ensures
        a ^ b == b ^ a,
        (a ^ b) ^ c == a ^ (b ^ c),
        (a ^ b) ^ c == (a ^ c) ^ b,
        a ^ a == 0u64,
        a ^ 0u64 == a,
        0u64 ^ a == a,
        (a ^ b) ^ b == a,
{
}

proof fn lemma_key_step(h: u64, a: u64, st: u64, k: u64)
    by (bit_vector)
    ensures
        (h ^ k) ^ ((a ^ k) ^ st) == h ^ (a ^ st),
        (a ^ k) ^ st == (a ^ st) ^ k,
{
}

/// Changing one square changes the hash by the keys of what stood there and
/// of what stands there.
pub proof fn lemma_cells_key_update(squares: Seq<Option<Piece>>, i: int, cell: Option<Piece>, n: int)
    requires
        squares.len() == 64,
        0 <= i < 64,
        0 <= n <= 64,
    ensures
        cells_key(squares.update(i, cell), n) == (if i < n {
            cells_key(squares, n) ^ cell_key(squares[i], i) ^ cell_key(cell, i)
        } else {
            cells_key(squares, n)
        }),
    decreases n,
{
    if n > 0 {
        lemma_cells_key_update(squares, i, cell, n - 1);
        let a = cells_key(squares, n - 1);
        let k = cell_key(squares[n - 1], n - 1);
        let o = cell_key(squares[i], i);
        let w = cell_key(cell, i);
        if i == n - 1 {
            assert(((a ^ o) ^ o) ^ w == a ^ w) by {
                lemma_xor(a, o, w);
            }
        } else if i < n {
            assert(((a ^ o) ^ w) ^ k == ((a ^ k) ^ o) ^ w) by {
                lemma_xor(a ^ o, w, k);
                lemma_xor(a, o, k);
            }
        }
    }
}

/// A full chess position.
#[derive(Clone, Copy)]
pub struct Board {
    /// Piece occupancy by type, both colors merged. Index with `PieceType::index`.
    pub pieces: [Bitboard; 6],
    /// Piece occupancy by color. Index with `Color::index`.
    pub colors: [Bitboard; 2],
    /// Square-indexed view, kept in sync with the bitboards.
    pub mailbox: [Option<Piece>; 64],
    pub side_to_move: Color,
    pub castling: CastlingRights,
    /// The square a pawn may be captured on via en passant, if any.
    pub ep_square: Option<Square>,
    /// Plies since the last capture or pawn move (for the 50-move rule).
    pub halfmove_clock: u16,
    /// Starts at 1, incremented after each Black move.
    pub fullmove_number: u16,
    /// Zobrist hash of the position.
    pub hash: u64,
}

impl View for Board {
    type V = Pos;

    open spec fn view(&self) -> Pos {
        Pos {
            squares: self.mailbox@,
            side: self.side_to_move,
            castling: self.castling,
            ep: self.ep_square,
            halfmove: self.halfmove_clock as int,
            fullmove: self.fullmove_number as int,
        }
    }
}

impl Board {
    /// The bitboards agree with the mailbox.
    pub open spec fn wf(&self) -> bool {
        &&& self@.wf()
        &&& forall|t: int, i: int|
            #![trigger self.pieces[t].has(i)]
            0 <= t < 6 ==> self.pieces[t].has(i) == (self@.at(i) matches Some(p)
                && p.piece_type.idx() == t)
        &&& forall|c: int, i: int|
            #![trigger self.colors[c].has(i)]
            0 <= c < 2 ==> self.colors[c].has(i) == (self@.at(i) matches Some(p) && p.color.idx()
                == c)
    }

    /// The stored hash is the hash of the position.
    pub open spec fn hashed(&self) -> bool {
        self.hash == position_key(self@)
    }

    /// An empty board with White to move and no rights.
    pub fn empty() -> (r: Board)
        ensures
            r.wf(),
            r@ == (Pos {
                squares: Seq::new(64, |i: int| None),
                side: Color::White,
                castling: CastlingRights(0),
                ep: None,
                halfmove: 0,
                fullmove: 1,
            }),
            r.hash == 0,
    {
        let none = Bitboard::empty();
        let r = Board {
            pieces: [none; 6],
            colors: [none; 2],
            mailbox: [None; 64],
            side_to_move: Color::White,
            castling: CastlingRights(0),
            ep_square: None,
            halfmove_clock: 0,
            fullmove_number: 1,
            hash: 0,
        };
        proof {
            assert(r@.squares =~= Seq::new(64, |i: int| None::<Piece>));
        }
        r
    }

    /// All pieces of a given type (both colors).
    pub fn pieces(&self, pt: PieceType) -> (r: Bitboard)
        requires
            self.wf(),
        ensures
            forall|i: int| #[trigger] r.has(i) == self@.typed(pt, i),
    {
        let r = self.pieces[pt.index()];
        proof {
            assert forall|i: int| #[trigger] r.has(i) == self@.typed(pt, i) by {
                assert(self.pieces[pt.idx()].has(i) == r.has(i));
            }
        }
        r
    }

    /// All pieces of a given color.
    pub fn color(&self, c: Color) -> (r: Bitboard)
        requires
            self.wf(),
        ensures
            forall|i: int| #[trigger] r.has(i) == self@.owned(c, i),
    {
        let r = self.colors[c.index()];
        proof {
            assert forall|i: int| #[trigger] r.has(i) == self@.owned(c, i) by {
                assert(self.colors[c.idx()].has(i) == r.has(i));
            }
        }
        r
    }

    /// Pieces of a given color and type, e.g. white rooks.
    pub fn pieces_colored(&self, c: Color, pt: PieceType) -> (r: Bitboard)
        requires
            self.wf(),
        ensures
            forall|i: int| #[trigger] r.has(i) == self@.holds(c, pt, i),
            r.list() == self@.pieces(c, pt),
    {
        let r = self.pieces(pt).and(self.color(c));
        proof {
            assert forall|i: int| #[trigger] r.has(i) == self@.holds(c, pt, i) by {}
            bitboard::lemma_pick_ext(|i: int| r.has(i), |i: int| self@.holds(c, pt, i), 0);
        }
        r
    }

    /// Every occupied square.
    pub fn occupancy(&self) -> (r: Bitboard)
        requires
            self.wf(),
        ensures
            forall|i: int| #[trigger] r.has(i) == self@.occupied(i),
    {
        self.color(Color::White).or(self.color(Color::Black))
    }

    /// The piece on `sq`, if any.
    pub fn piece_at(&self, sq: Square) -> (r: Option<Piece>)
        requires
            sq.ok(),
        ensures
            r == self@.at(sq.0 as int),
    {
        self.mailbox[sq.index()]
    }

    /// The square the king of color `c` stands on, if present.
    pub fn king_square(&self, c: Color) -> (r: Option<Square>)
        requires
            self.wf(),
        ensures
            r == self@.king(c),
            r matches Some(k) ==> k.ok() && self@.holds(c, PieceType::King, k.0 as int),
    {
        self.pieces_colored(c, PieceType::King).lsb()
    }

    /// Place `piece` on the empty square `sq`.
    pub fn put_piece(&mut self, sq: Square, piece: Piece)
        requires
            old(self).wf(),
            sq.ok(),
            old(self)@.vacant(sq.0 as int),
        ensures
            final(self).wf(),
            final(self)@ == (Pos {
                squares: old(self)@.squares.update(sq.0 as int, Some(piece)),
                ..old(self)@
            }),
            final(self).hash == old(self).hash ^ piece_key(
                piece.color,
                piece.piece_type,
                sq.0 as int,
            ),
            final(self).hash ^ position_key(final(self)@) == old(self).hash ^ position_key(old(self)@),
            old(self).hashed() ==> final(self).hashed(),
    {
        let ghost before = *self;
        let t: usize = piece.piece_type.index();
        let c: usize = piece.color.index();
        self.pieces[t].set(sq);
        self.colors[c].set(sq);
        self.mailbox[sq.index()] = Some(piece);
        let k: u64 = zobrist().piece(piece.color, piece.piece_type, sq);
        self.hash = self.hash ^ k;
        proof {
            let s = sq.0 as int;
            assert(self@.squares =~= before@.squares.update(s, Some(piece)));
            assert forall|t2: int, i: int| 0 <= t2 < 6 implies #[trigger] self.pieces[t2].has(i)
                == (self@.at(i) matches Some(p) && p.piece_type.idx() == t2) by {
                assert(before.pieces[t2].has(i) == (before@.at(i) matches Some(p)
                    && p.piece_type.idx() == t2));
            }
            assert forall|c2: int, i: int| 0 <= c2 < 2 implies #[trigger] self.colors[c2].has(i)
                == (self@.at(i) matches Some(p) && p.color.idx() == c2) by {
                assert(before.colors[c2].has(i) == (before@.at(i) matches Some(p) && p.color.idx()
                    == c2));
            }
            lemma_cells_key_update(before@.squares, s, Some(piece), 64);
            let a = cells_key(before@.squares, 64);
            let st = state_key(before@.side, before@.castling, before@.ep);
            lemma_xor(a, 0, 0);
            lemma_key_step(before.hash, a, st, k);
        }
    }

    /// Remove and return whatever piece is on `sq`.
    pub fn remove_piece(&mut self, sq: Square) -> (r: Option<Piece>)
        requires
            old(self).wf(),
            sq.ok(),
        ensures
            r == old(self)@.at(sq.0 as int),
            final(self).wf(),
            final(self)@ == (Pos {
                squares: old(self)@.squares.update(sq.0 as int, None),
                ..old(self)@
            }),
            final(self).hash == old(self).hash ^ cell_key(r, sq.0 as int),
            final(self).hash ^ position_key(final(self)@) == old(self).hash ^ position_key(old(self)@),
            old(self).hashed() ==> final(self).hashed(),
    {
        let ghost before = *self;
        let removed = self.mailbox[sq.index()];
        self.mailbox[sq.index()] = None;
        if let Some(piece) = removed {
            let t: usize = piece.piece_type.index();
            let c: usize = piece.color.index();
            self.pieces[t].clear(sq);
            self.colors[c].clear(sq);
            let k: u64 = zobrist().piece(piece.color, piece.piece_type, sq);
            self.hash = self.hash ^ k;
        }
        proof {
            let s = sq.0 as int;
            assert(self@.squares =~= before@.squares.update(s, None));
            assert forall|t2: int, i: int| 0 <= t2 < 6 implies #[trigger] self.pieces[t2].has(i)
                == (self@.at(i) matches Some(p) && p.piece_type.idx() == t2) by {
                assert(before.pieces[t2].has(i) == (before@.at(i) matches Some(p)
                    && p.piece_type.idx() == t2));
            }
            assert forall|c2: int, i: int| 0 <= c2 < 2 implies #[trigger] self.colors[c2].has(i)
                == (self@.at(i) matches Some(p) && p.color.idx() == c2) by {
                assert(before.colors[c2].has(i) == (before@.at(i) matches Some(p) && p.color.idx()
                    == c2));
            }
            lemma_cells_key_update(before@.squares, s, None, 64);
            let a = cells_key(before@.squares, 64);
            let st = state_key(before@.side, before@.castling, before@.ep);
            let k = cell_key(removed, s);
            lemma_xor(before.hash, 0, 0);
            lemma_xor(a ^ k, 0, 0);
            lemma_key_step(before.hash, a, st, k);
        }
        removed
    }

    /// True when there is at least one pawn of `side_to_move` that can actually
    /// capture on `ep_sq`: one that stands beside the captured pawn.
    pub fn has_ep_captor(&self, ep_sq: Square) -> (r: bool)
        requires
            self.wf(),
            ep_sq.ok(),
            self.side_to_move == Color::White ==> ep_sq.r() > 0,
            self.side_to_move == Color::Black ==> ep_sq.r() < 7,
        ensures
            r == ep_captor(self@, ep_sq),
    {
        let attacker = self.side_to_move;
        let file: u8 = ep_sq.file();
        let captor_rank: u8 = if attacker == Color::White {
            ep_sq.rank() - 1
        } else {
            ep_sq.rank() + 1
        };
        let pawn = Piece { color: attacker, piece_type: PieceType::Pawn };
        if file > 0 && self.piece_at(Square::from_file_rank(file - 1, captor_rank)) == Some(pawn) {
            return true;
        }
        file < 7 && self.piece_at(Square::from_file_rank(file + 1, captor_rank)) == Some(pawn)
    }

    /// Recompute the Zobrist hash from scratch.
    pub fn compute_hash(&self) -> (r: u64)
        requires
            self.wf(),
        ensures
            r == position_key(self@),
    {
        let z = zobrist();
        let mut h: u64 = 0;
        let mut index: u8 = 0;
        while index < 64
            invariant
                index <= 64,
                h == cells_key(self@.squares, index as int),
            decreases 64 - index,
        {
            proof {
                lemma_xor(h, 0, 0);
            }
            if let Some(piece) = self.mailbox[index as usize] {
                h = h ^ z.piece(piece.color, piece.piece_type, Square::new(index));
            }
            index += 1;
        }
        let ghost cells = h;
        let mut s: u64 = 0;
        if self.side_to_move == Color::Black {
            s = s ^ z.side();
        }
        proof {
            lemma_xor(side_key(), 0, 0);
        }
        s = s ^ z.castling(self.castling.0);
        proof {
            lemma_xor(s, 0, 0);
        }
        if let Some(ep) = self.ep_square {
            s = s ^ z.ep_file(ep.file());
        }
        h ^ s
    }
}

/// A pawn of the side to move stands where it could capture on `ep`.
pub open spec fn ep_captor(p: Pos, ep: Square) -> bool {
    let behind = if p.side == Color::White {
        ep.r() - 1
    } else {
        ep.r() + 1
    };
    ||| ep.f() > 0 && p.holds(p.side, PieceType::Pawn, behind * 8 + ep.f() - 1)
    ||| ep.f() < 7 && p.holds(p.side, PieceType::Pawn, behind * 8 + ep.f() + 1)
}

} // verus!
