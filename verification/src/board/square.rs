//! Squares of the board, numbered from a1 = 0 along each rank to h8 = 63.

use crate::text::chars_of;
use vstd::prelude::*;

verus! {

/// A board square in `0..=63`.
#[derive(Clone, Copy, PartialEq, Eq, PartialOrd, Ord, Hash, Debug, Structural)]
pub struct Square(pub u8);

/// The letter of a file.
pub open spec fn file_char(f: int) -> char {
    if f == 0 {
        'a'
    } else if f == 1 {
        'b'
    } else if f == 2 {
        'c'
    } else if f == 3 {
        'd'
    } else if f == 4 {
        'e'
    } else if f == 5 {
        'f'
    } else if f == 6 {
        'g'
    } else {
        'h'
    }
}

/// The digit of a rank.
pub open spec fn rank_char(r: int) -> char {
    if r == 0 {
        '1'
    } else if r == 1 {
        '2'
    } else if r == 2 {
        '3'
    } else if r == 3 {
        '4'
    } else if r == 4 {
        '5'
    } else if r == 5 {
        '6'
    } else if r == 6 {
        '7'
    } else {
        '8'
    }
}

/// The square that algebraic coordinates name.
pub open spec fn algebraic_square(s: Seq<char>) -> Option<Square> {
    if s.len() == 2 && 'a' <= s[0] && s[0] <= 'h' && '1' <= s[1] && s[1] <= '8' {
        Some(Square(((s[1] as u32 - 49) * 8 + (s[0] as u32 - 97)) as u8))
    } else {
        None
    }
}

impl Square {
    /// The index names a square of the board.
    pub open spec fn ok(self) -> bool {
        self.0 < 64
    }

    /// The file, 0 for the a-file to 7 for the h-file.
    pub open spec fn f(self) -> int {
        self.0 as int % 8
    }

    /// The rank, 0 for rank 1 to 7 for rank 8.
    pub open spec fn r(self) -> int {
        self.0 as int / 8
    }

    /// The algebraic coordinates, such as `e4`.
    pub open spec fn name(self) -> Seq<char> {
        seq![file_char(self.f()), rank_char(self.r())]
    }

    /// Create a square from a raw index.
    pub fn new(index: u8) -> (r: Square)
        requires
            index < 64,
        ensures
            r == Square(index),
    {
        Square(index)
    }

    /// Create a square, returning `None` if the index is out of range.
    pub fn try_new(index: u8) -> (r: Option<Square>)
        ensures
            r == (if index < 64 {
                Some(Square(index))
            } else {
                None
            }),
    {
        if index < 64 {
            Some(Square(index))
        } else {
            None
        }
    }

    /// Build a square from a `file` (0=a..7=h) and `rank` (0=rank 1..7=rank 8).
    pub fn from_file_rank(file: u8, rank: u8) -> (r: Square)
        requires
            file < 8,
            rank < 8,
        ensures
            r == Square((rank * 8 + file) as u8),
            r.ok(),
            r.f() == file,
            r.r() == rank,
    {
        Square(rank * 8 + file)
    }

    /// The raw `0..=63` index, as a `usize` for convenient array indexing.
    pub fn index(self) -> (r: usize)
        ensures
            r == self.0,
    {
        self.0 as usize
    }

    /// File of the square: 0 = a-file .. 7 = h-file.
    pub fn file(self) -> (r: u8)
        ensures
            r == self.f(),
            r < 8,
    {
        self.0 % 8
    }

    /// Rank of the square: 0 = rank 1 .. 7 = rank 8.
    pub fn rank(self) -> (r: u8)
        ensures
            r == self.r(),
            self.ok() ==> r < 8,
    {
        self.0 / 8
    }

    /// Parse algebraic coordinates like `"e4"` into a [`Square`].
    pub fn from_algebraic(s: &str) -> (r: Option<Square>)
        ensures
            r == algebraic_square(s@),
            r matches Some(q) ==> q.ok(),
    {
        Square::from_algebraic_chars(&chars_of(s))
    }

    /// Parse algebraic coordinates given as characters.
    pub fn from_algebraic_chars(s: &Vec<char>) -> (r: Option<Square>)
        ensures
            r == algebraic_square(s@),
            r matches Some(q) ==> q.ok(),
    {
        if s.len() == 2 && 'a' <= s[0] && s[0] <= 'h' && '1' <= s[1] && s[1] <= '8' {
            let file: u32 = s[0] as u32 - 97;
            let rank: u32 = s[1] as u32 - 49;
            Some(Square((rank * 8 + file) as u8))
        } else {
            None
        }
    }

    /// The algebraic coordinates as characters.
    pub fn name_chars(self) -> (r: Vec<char>)
        ensures
            r@ == self.name(),
    {
        let f: u8 = self.file();
        let k: u8 = self.rank();
        let file = if f == 0 {
            'a'
        } else if f == 1 {
            'b'
        } else if f == 2 {
            'c'
        } else if f == 3 {
            'd'
        } else if f == 4 {
            'e'
        } else if f == 5 {
            'f'
        } else if f == 6 {
            'g'
        } else {
            'h'
        };
        let rank = if k == 0 {
            '1'
        } else if k == 1 {
            '2'
        } else if k == 2 {
            '3'
        } else if k == 3 {
            '4'
        } else if k == 4 {
            '5'
        } else if k == 5 {
            '6'
        } else if k == 6 {
            '7'
        } else {
            '8'
        };
        let mut out: Vec<char> = Vec::new();
        out.push(file);
        out.push(rank);
        proof {
            assert(out@ =~= self.name());
        }
        out
    }

    /// The algebraic coordinates, such as `"e4"`.
    pub fn to_algebraic(self) -> (r: String)
        ensures
            r@ == self.name(),
    {
        crate::text::string_of(&self.name_chars())
    }
}

/// Writing a square in algebraic coordinates and reading it back gives the
/// square.
pub proof fn law_algebraic_round_trip(s: Square)
    requires
        s.ok(),
    ensures
        algebraic_square(s.name()) == Some(s),
{
}

/// Algebraic coordinates that name a square are the name of that square.
pub proof fn law_algebraic_names(t: Seq<char>)
    requires
        algebraic_square(t) is Some,
    ensures
        algebraic_square(t)->0.ok(),
        algebraic_square(t)->0.name() == t,
{
    let s = algebraic_square(t)->0;
    assert(s.name() =~= t);
}

} // verus!
