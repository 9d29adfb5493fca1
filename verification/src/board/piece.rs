//! Colors, piece types and pieces.

use vstd::prelude::*;

verus! {

/// The side to move / piece owner.
#[derive(Clone, Copy, PartialEq, Eq, Hash, Debug, Structural)]
pub enum Color {
    White,
    Black,
}

impl Color {
    /// Both colors, useful for iteration.
    pub const ALL: [Color; 2] = [Color::White, Color::Black];

    /// 0 for White, 1 for Black.
    pub open spec fn idx(self) -> int {
        match self {
            Color::White => 0,
            Color::Black => 1,
        }
    }

    /// The opposing color.
    pub open spec fn other(self) -> Color {
        match self {
            Color::White => Color::Black,
            Color::Black => Color::White,
        }
    }

    /// 0 for White, 1 for Black, used to index `[_; 2]` arrays.
    pub fn index(self) -> (r: usize)
        ensures
            r == self.idx(),
            r < 2,
    {
        match self {
            Color::White => 0,
            Color::Black => 1,
        }
    }

    /// The opposing color.
    pub fn opposite(self) -> (r: Color)
        ensures
            r == self.other(),
            r != self,
    {
        match self {
            Color::White => Color::Black,
            Color::Black => Color::White,
        }
    }
}

/// A piece kind, independent of color.
///
/// The order of the variants gives the indices `0..=5` into `[_; 6]` arrays.
#[derive(Clone, Copy, PartialEq, Eq, Hash, Debug, Structural)]
pub enum PieceType {
    Pawn,
    Knight,
    Bishop,
    Rook,
    Queen,
    King,
}

impl PieceType {
    /// All piece types in index order.
    pub const ALL: [PieceType; 6] = [
        PieceType::Pawn,
        PieceType::Knight,
        PieceType::Bishop,
        PieceType::Rook,
        PieceType::Queen,
        PieceType::King,
    ];

    /// 0 for a pawn to 5 for a king.
    pub open spec fn idx(self) -> int {
        match self {
            PieceType::Pawn => 0,
            PieceType::Knight => 1,
            PieceType::Bishop => 2,
            PieceType::Rook => 3,
            PieceType::Queen => 4,
            PieceType::King => 5,
        }
    }

    /// The piece type with index `i`.
    pub open spec fn of_idx(i: int) -> Option<PieceType> {
        if i == 0 {
            Some(PieceType::Pawn)
        } else if i == 1 {
            Some(PieceType::Knight)
        } else if i == 2 {
            Some(PieceType::Bishop)
        } else if i == 3 {
            Some(PieceType::Rook)
        } else if i == 4 {
            Some(PieceType::Queen)
        } else if i == 5 {
            Some(PieceType::King)
        } else {
            None
        }
    }

    /// 0=Pawn .. 5=King, used to index `[_; 6]` arrays.
    pub fn index(self) -> (r: usize)
        ensures
            r == self.idx(),
            r < 6,
    {
        match self {
            PieceType::Pawn => 0,
            PieceType::Knight => 1,
            PieceType::Bishop => 2,
            PieceType::Rook => 3,
            PieceType::Queen => 4,
            PieceType::King => 5,
        }
    }

    /// Inverse of [`PieceType::index`].
    pub fn from_index(i: usize) -> (r: Option<PieceType>)
        ensures
            r == PieceType::of_idx(i as int),
    {
        if i == 0 {
            Some(PieceType::Pawn)
        } else if i == 1 {
            Some(PieceType::Knight)
        } else if i == 2 {
            Some(PieceType::Bishop)
        } else if i == 3 {
            Some(PieceType::Rook)
        } else if i == 4 {
            Some(PieceType::Queen)
        } else if i == 5 {
            Some(PieceType::King)
        } else {
            None
        }
    }
}

/// `from_index` undoes `index`, and finds nothing else.
pub proof fn law_piece_type_index(pt: PieceType, i: int)
    ensures
        PieceType::of_idx(pt.idx()) == Some(pt),
        PieceType::of_idx(i) == Some(pt) ==> i == pt.idx(),
        PieceType::of_idx(i) is None <==> !(0 <= i < 6),
{
}

/// A concrete piece: a color and a piece type.
#[derive(Clone, Copy, PartialEq, Eq, Hash, Debug, Structural)]
pub struct Piece {
    pub color: Color,
    pub piece_type: PieceType,
}

/// The FEN letter of a piece.
pub open spec fn piece_char(p: Piece) -> char {
    match (p.color, p.piece_type) {
        (Color::White, PieceType::Pawn) => 'P',
        (Color::White, PieceType::Knight) => 'N',
        (Color::White, PieceType::Bishop) => 'B',
        (Color::White, PieceType::Rook) => 'R',
        (Color::White, PieceType::Queen) => 'Q',
        (Color::White, PieceType::King) => 'K',
        (Color::Black, PieceType::Pawn) => 'p',
        (Color::Black, PieceType::Knight) => 'n',
        (Color::Black, PieceType::Bishop) => 'b',
        (Color::Black, PieceType::Rook) => 'r',
        (Color::Black, PieceType::Queen) => 'q',
        (Color::Black, PieceType::King) => 'k',
    }
}

/// The piece that a FEN letter stands for.
pub open spec fn char_piece(c: char) -> Option<Piece> {
    if c == 'P' {
        Some(Piece { color: Color::White, piece_type: PieceType::Pawn })
    } else if c == 'N' {
        Some(Piece { color: Color::White, piece_type: PieceType::Knight })
    } else if c == 'B' {
        Some(Piece { color: Color::White, piece_type: PieceType::Bishop })
    } else if c == 'R' {
        Some(Piece { color: Color::White, piece_type: PieceType::Rook })
    } else if c == 'Q' {
        Some(Piece { color: Color::White, piece_type: PieceType::Queen })
    } else if c == 'K' {
        Some(Piece { color: Color::White, piece_type: PieceType::King })
    } else if c == 'p' {
        Some(Piece { color: Color::Black, piece_type: PieceType::Pawn })
    } else if c == 'n' {
        Some(Piece { color: Color::Black, piece_type: PieceType::Knight })
    } else if c == 'b' {
        Some(Piece { color: Color::Black, piece_type: PieceType::Bishop })
    } else if c == 'r' {
        Some(Piece { color: Color::Black, piece_type: PieceType::Rook })
    } else if c == 'q' {
        Some(Piece { color: Color::Black, piece_type: PieceType::Queen })
    } else if c == 'k' {
        Some(Piece { color: Color::Black, piece_type: PieceType::King })
    } else {
        None
    }
}

impl Piece {
    /// A piece of the given color and type.
    pub fn new(color: Color, piece_type: PieceType) -> (r: Piece)
        ensures
            r == (Piece { color, piece_type }),
    {
        Piece { color, piece_type }
    }

    /// FEN/PGN letter: uppercase for White, lowercase for Black.
    pub fn to_char(self) -> (r: char)
        ensures
            r == piece_char(self),
    {
        match (self.color, self.piece_type) {
            (Color::White, PieceType::Pawn) => 'P',
            (Color::White, PieceType::Knight) => 'N',
            (Color::White, PieceType::Bishop) => 'B',
            (Color::White, PieceType::Rook) => 'R',
            (Color::White, PieceType::Queen) => 'Q',
            (Color::White, PieceType::King) => 'K',
            (Color::Black, PieceType::Pawn) => 'p',
            (Color::Black, PieceType::Knight) => 'n',
            (Color::Black, PieceType::Bishop) => 'b',
            (Color::Black, PieceType::Rook) => 'r',
            (Color::Black, PieceType::Queen) => 'q',
            (Color::Black, PieceType::King) => 'k',
        }
    }

    /// Parse a FEN/PGN piece letter, e.g. `'N'` -> white knight.
    pub fn from_char(ch: char) -> (r: Option<Piece>)
        ensures
            r == char_piece(ch),
    {
        if ch == 'P' {
            Some(Piece { color: Color::White, piece_type: PieceType::Pawn })
        } else if ch == 'N' {
            Some(Piece { color: Color::White, piece_type: PieceType::Knight })
        } else if ch == 'B' {
            Some(Piece { color: Color::White, piece_type: PieceType::Bishop })
        } else if ch == 'R' {
            Some(Piece { color: Color::White, piece_type: PieceType::Rook })
        } else if ch == 'Q' {
            Some(Piece { color: Color::White, piece_type: PieceType::Queen })
        } else if ch == 'K' {
            Some(Piece { color: Color::White, piece_type: PieceType::King })
        } else if ch == 'p' {
            Some(Piece { color: Color::Black, piece_type: PieceType::Pawn })
        } else if ch == 'n' {
            Some(Piece { color: Color::Black, piece_type: PieceType::Knight })
        } else if ch == 'b' {
            Some(Piece { color: Color::Black, piece_type: PieceType::Bishop })
        } else if ch == 'r' {
            Some(Piece { color: Color::Black, piece_type: PieceType::Rook })
        } else if ch == 'q' {
            Some(Piece { color: Color::Black, piece_type: PieceType::Queen })
        } else if ch == 'k' {
            Some(Piece { color: Color::Black, piece_type: PieceType::King })
        } else {
            None
        }
    }
}

/// Every piece is read back from its letter, and no other letter gives it.
pub proof fn law_piece_char_round_trip(p: Piece, c: char)
    ensures
        char_piece(piece_char(p)) == Some(p),
        char_piece(c) == Some(p) ==> c == piece_char(p),
{
}

} // verus!
