//! Moves packed into 16 bits, and lists of moves.

use crate::board::piece::PieceType;
use crate::board::square::Square;
use crate::text::string_of;
use vstd::prelude::*;

verus! {

/// The type of a move, encoded in the move's top 4 bits.
#[derive(Clone, Copy, PartialEq, Eq, Debug, Structural)]
pub enum MoveFlag {
    Quiet,
    /// A pawn's initial two-square advance (sets the en-passant square).
    DoublePush,
    KingCastle,
    QueenCastle,
    Capture,
    EnPassant,
    PromoKnight,
    PromoBishop,
    PromoRook,
    PromoQueen,
    PromoKnightCapture,
    PromoBishopCapture,
    PromoRookCapture,
    PromoQueenCapture,
}

impl MoveFlag {
    /// The 4-bit code. The codes 6 and 7 are unused, so that bit 2 tells a
    /// capture and bit 3 a promotion.
    pub open spec fn code(self) -> int {
        match self {
            MoveFlag::Quiet => 0,
            MoveFlag::DoublePush => 1,
            MoveFlag::KingCastle => 2,
            MoveFlag::QueenCastle => 3,
            MoveFlag::Capture => 4,
            MoveFlag::EnPassant => 5,
            MoveFlag::PromoKnight => 8,
            MoveFlag::PromoBishop => 9,
            MoveFlag::PromoRook => 10,
            MoveFlag::PromoQueen => 11,
            MoveFlag::PromoKnightCapture => 12,
            MoveFlag::PromoBishopCapture => 13,
            MoveFlag::PromoRookCapture => 14,
            MoveFlag::PromoQueenCapture => 15,
        }
    }

    /// The 4-bit code.
    pub fn bits(self) -> (r: u16)
        ensures
            r == self.code(),
    {
        match self {
            MoveFlag::Quiet => 0,
            MoveFlag::DoublePush => 1,
            MoveFlag::KingCastle => 2,
            MoveFlag::QueenCastle => 3,
            MoveFlag::Capture => 4,
            MoveFlag::EnPassant => 5,
            MoveFlag::PromoKnight => 8,
            MoveFlag::PromoBishop => 9,
            MoveFlag::PromoRook => 10,
            MoveFlag::PromoQueen => 11,
            MoveFlag::PromoKnightCapture => 12,
            MoveFlag::PromoBishopCapture => 13,
            MoveFlag::PromoRookCapture => 14,
            MoveFlag::PromoQueenCapture => 15,
        }
    }

    /// The flag with the given code.
    fn from_u16(value: u16) -> (r: MoveFlag)
        requires
            value < 16,
            value != 6,
            value != 7,
        ensures
            r.code() == value,
    {
        if value == 0 {
            MoveFlag::Quiet
        } else if value == 1 {
            MoveFlag::DoublePush
        } else if value == 2 {
            MoveFlag::KingCastle
        } else if value == 3 {
            MoveFlag::QueenCastle
        } else if value == 4 {
            MoveFlag::Capture
        } else if value == 5 {
            MoveFlag::EnPassant
        } else if value == 8 {
            MoveFlag::PromoKnight
        } else if value == 9 {
            MoveFlag::PromoBishop
        } else if value == 10 {
            MoveFlag::PromoRook
        } else if value == 11 {
            MoveFlag::PromoQueen
        } else if value == 12 {
            MoveFlag::PromoKnightCapture
        } else if value == 13 {
            MoveFlag::PromoBishopCapture
        } else if value == 14 {
            MoveFlag::PromoRookCapture
        } else {
            MoveFlag::PromoQueenCapture
        }
    }
}

/// A packed chess move: the source square in bits 0 to 5, the target square in
/// bits 6 to 11 and the flag in bits 12 to 15.
#[derive(Clone, Copy, PartialEq, Eq, Hash, Debug, Structural)]
pub struct Move(pub u16);

/// The move from `from` to `to` with the given flag.
pub open spec fn pack(from: Square, to: Square, flag: MoveFlag) -> Move {
    Move((from.0 + to.0 * 64 + flag.code() * 4096) as u16)
}

/// The letter that UCI puts behind a promotion.
pub open spec fn promo_letter(pt: PieceType) -> char {
    match pt {
        PieceType::Knight => 'n',
        PieceType::Bishop => 'b',
        PieceType::Rook => 'r',
        _ => 'q',
    }
}

impl Move {
    /// The source square.
    pub open spec fn src(self) -> Square {
        Square((self.0 % 64) as u8)
    }

    /// The target square.
    pub open spec fn dst(self) -> Square {
        Square(((self.0 / 64) % 64) as u8)
    }

    /// The code of the flag.
    pub open spec fn code(self) -> int {
        self.0 as int / 4096
    }

    /// The code is that of a flag.
    pub open spec fn coded(self) -> bool {
        self.code() != 6 && self.code() != 7
    }

    /// The move has the given flag.
    pub open spec fn flagged(self, flag: MoveFlag) -> bool {
        self.code() == flag.code()
    }

    /// The move removes an enemy piece.
    pub open spec fn captures(self) -> bool {
        (self.code() / 4) % 2 == 1
    }

    /// The move promotes a pawn.
    pub open spec fn promotes(self) -> bool {
        self.code() >= 8
    }

    /// The piece that a pawn promotes to.
    pub open spec fn promo(self) -> Option<PieceType> {
        if self.code() < 8 {
            None
        } else if self.code() % 4 == 0 {
            Some(PieceType::Knight)
        } else if self.code() % 4 == 1 {
            Some(PieceType::Bishop)
        } else if self.code() % 4 == 2 {
            Some(PieceType::Rook)
        } else {
            Some(PieceType::Queen)
        }
    }

    /// The move in UCI long-algebraic notation.
    pub open spec fn uci(self) -> Seq<char> {
        let squares = self.src().name() + self.dst().name();
        match self.promo() {
            Some(pt) => squares.push(promo_letter(pt)),
            None => squares,
        }
    }

    /// The sentinel "no move".
    pub fn null() -> (r: Move)
        ensures
            r == Move(0),
    {
        Move(0)
    }

    /// The raw 16-bit encoding, for compact storage (e.g. the transposition table).
    pub fn bits(self) -> (r: u16)
        ensures
            r == self.0,
    {
        self.0
    }

    /// Reconstruct a move from its [`bits`](Move::bits).
    pub fn from_bits(bits: u16) -> (r: Move)
        ensures
            r == Move(bits),
    {
        Move(bits)
    }

    /// Build a move from a source square, target square, and flag.
    pub fn new(from: Square, to: Square, flag: MoveFlag) -> (r: Move)
        requires
            from.ok(),
            to.ok(),
        ensures
            r == pack(from, to, flag),
            r.src() == from,
            r.dst() == to,
            r.flagged(flag),
            r.coded(),
    {
        proof {
            lemma_pack(from, to, flag);
        }
        Move(from.0 as u16 + to.0 as u16 * 64 + flag.bits() * 4096)
    }

    /// Source square.
    pub fn from(self) -> (r: Square)
        ensures
            r == self.src(),
            r.ok(),
    {
        Square((self.0 % 64) as u8)
    }

    /// Target square.
    pub fn to(self) -> (r: Square)
        ensures
            r == self.dst(),
            r.ok(),
    {
        Square(((self.0 / 64) % 64) as u8)
    }

    /// The move type.
    pub fn flag(self) -> (r: MoveFlag)
        requires
            self.coded(),
        ensures
            self.flagged(r),
            self == pack(self.src(), self.dst(), r),
    {
        MoveFlag::from_u16(self.0 / 4096)
    }

    /// True if the move removes an enemy piece (includes en passant and
    /// promotion-captures).
    pub fn is_capture(self) -> (r: bool)
        ensures
            r == self.captures(),
    {
        (self.0 / 16384) % 2 == 1
    }

    /// True if the move promotes a pawn.
    pub fn is_promotion(self) -> (r: bool)
        ensures
            r == self.promotes(),
    {
        self.0 / 4096 >= 8
    }

    /// True for an en-passant capture.
    pub fn is_en_passant(self) -> (r: bool)
        ensures
            r == self.flagged(MoveFlag::EnPassant),
    {
        self.0 / 4096 == 5
    }

    /// True for castling on either side.
    pub fn is_castle(self) -> (r: bool)
        ensures
            r == (self.flagged(MoveFlag::KingCastle) || self.flagged(MoveFlag::QueenCastle)),
    {
        self.0 / 4096 == 2 || self.0 / 4096 == 3
    }

    /// The piece a pawn promotes to, if this is a promotion.
    pub fn promotion_piece(self) -> (r: Option<PieceType>)
        ensures
            r == self.promo(),
    {
        let code: u16 = self.0 / 4096;
        if code < 8 {
            None
        } else if code % 4 == 0 {
            Some(PieceType::Knight)
        } else if code % 4 == 1 {
            Some(PieceType::Bishop)
        } else if code % 4 == 2 {
            Some(PieceType::Rook)
        } else {
            Some(PieceType::Queen)
        }
    }

    /// The UCI notation as characters.
    pub fn uci_chars(self) -> (r: Vec<char>)
        ensures
            r@ == self.uci(),
    {
        let mut out = self.from().name_chars();
        let mut tail = self.to().name_chars();
        out.append(&mut tail);
        match self.promotion_piece() {
            Some(pt) => {
                out.push(
                    match pt {
                        PieceType::Knight => 'n',
                        PieceType::Bishop => 'b',
                        PieceType::Rook => 'r',
                        _ => 'q',
                    },
                );
            },
            None => {},
        }
        out
    }

    /// Render in UCI long-algebraic notation, e.g. `"e2e4"` or `"e7e8q"`.
    pub fn to_uci(self) -> (r: String)
        ensures
            r@ == self.uci(),
    {
        string_of(&self.uci_chars())
    }
}

proof fn lemma_pack(from: Square, to: Square, flag: MoveFlag)
    requires
        from.ok(),
        to.ok(),
    ensures
        from.0 + to.0 * 64 + flag.code() * 4096 <= 65535,
        pack(from, to, flag).src() == from,
        pack(from, to, flag).dst() == to,
        pack(from, to, flag).flagged(flag),
{
}

/// Packing a move keeps its source square, target square and flag.
pub proof fn law_move_pack(from: Square, to: Square, flag: MoveFlag)
    requires
        from.ok(),
        to.ok(),
    ensures
        pack(from, to, flag).src() == from,
        pack(from, to, flag).dst() == to,
        pack(from, to, flag).flagged(flag),
        pack(from, to, flag).coded(),
        pack(from, to, flag).captures() == (flag == MoveFlag::Capture || flag == MoveFlag::EnPassant
            || flag == MoveFlag::PromoKnightCapture || flag == MoveFlag::PromoBishopCapture || flag
            == MoveFlag::PromoRookCapture || flag == MoveFlag::PromoQueenCapture),
{
    lemma_pack(from, to, flag);
}

/// Two moves with the same squares and flag code are equal.
pub proof fn law_move_ext(a: Move, b: Move)
    requires
        a.src() == b.src(),
        a.dst() == b.dst(),
        a.code() == b.code(),
    ensures
        a == b,
{
}

/// A list of moves.
pub struct MoveList {
    pub moves: Vec<Move>,
}

impl View for MoveList {
    type V = Seq<Move>;

    open spec fn view(&self) -> Seq<Move> {
        self.moves@
    }
}

impl MoveList {
    /// An empty list.
    pub fn new() -> (r: MoveList)
        ensures
            r@ == Seq::<Move>::empty(),
    {
        MoveList { moves: Vec::new() }
    }

    /// Append a move.
    pub fn push(&mut self, mv: Move)
        ensures
            final(self)@ == old(self)@.push(mv),
    {
        self.moves.push(mv);
    }

    /// The number of moves.
    pub fn len(&self) -> (r: usize)
        ensures
            r == self@.len(),
    {
        self.moves.len()
    }

    /// True when the list holds no move.
    pub fn is_empty(&self) -> (r: bool)
        ensures
            r == (self@.len() == 0),
    {
        self.moves.len() == 0
    }

    /// The move at index `i`.
    pub fn get(&self, i: usize) -> (r: Move)
        requires
            i < self@.len(),
        ensures
            r == self@[i as int],
    {
        self.moves[i]
    }

    /// True when `mv` is in the list.
    pub fn contains(&self, mv: Move) -> (r: bool)
        ensures
            r == self@.contains(mv),
    {
        let mut i: usize = 0;
        while i < self.moves.len()
            invariant
                i <= self.moves.len(),
                forall|k: int| 0 <= k < i ==> self@[k] != mv,
            decreases self.moves.len() - i,
        {
            if self.moves[i] == mv {
                return true;
            }
            i += 1;
        }
        false
    }

    /// The moves as a slice.
    pub fn as_slice(&self) -> (r: &[Move])
        ensures
            r@ == self@,
    {
        self.moves.as_slice()
    }

    /// The moves as a mutable slice, so the search can reorder them in place.
    pub fn as_mut_slice(&mut self) -> (r: &mut [Move])
        ensures
            r@ == old(self)@,
            final(self)@ == final(r)@,
    {
        self.moves.as_mut_slice()
    }
}

impl Default for MoveList {
    /// An empty list.
    fn default() -> (r: MoveList)
        ensures
            r@ == Seq::<Move>::empty(),
    {
        MoveList::new()
    }
}

} // verus!
