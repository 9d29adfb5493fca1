//! A position as a text diagram.

use crate::board::fen::{castling_text, ep_text};
use crate::board::piece::{piece_char, Color, Piece};
use crate::board::square::Square;
use crate::board::{Board, Pos};
use crate::text::{chars_of, digit_char, digits, number_chars, push_chars};
use vstd::prelude::*;

verus! {

/// The letter of a cell: that of the piece, or a dot.
pub open spec fn cell_char(c: Option<Piece>) -> char {
    match c {
        Some(p) => piece_char(p),
        None => '.',
    }
}

/// The first `n` cells of a rank.
pub open spec fn board_row(p: Pos, rank: int, n: int) -> Seq<char>
    decreases n,
{
    if n <= 0 {
        Seq::empty()
    } else {
        board_row(p, rank, n - 1) + seq![' ', cell_char(p.at(rank * 8 + n - 1)), ' ']
    }
}

/// The lowest `n` ranks, from the top one down, each with its number.
pub open spec fn board_rows(p: Pos, n: int) -> Seq<char>
    decreases n,
{
    if n <= 0 {
        Seq::empty()
    } else {
        seq![digit_char(n), ' ', '|'] + board_row(p, n - 1, 8) + seq!['|', '\n'] + board_rows(
            p,
            n - 1,
        )
    }
}

/// The character of a hexadecimal digit.
pub open spec fn hex_char(d: int) -> char {
    if d == 10 {
        'a'
    } else if d == 11 {
        'b'
    } else if d == 12 {
        'c'
    } else if d == 13 {
        'd'
    } else if d == 14 {
        'e'
    } else if d == 15 {
        'f'
    } else {
        digit_char(d)
    }
}

/// The last `n` hexadecimal digits of a number.
pub open spec fn hex_digits(v: int, n: int) -> Seq<char>
    decreases n,
{
    if n <= 0 {
        Seq::empty()
    } else {
        hex_digits(v / 16, n - 1).push(hex_char(v % 16))
    }
}

/// The name of a color.
pub open spec fn color_name(c: Color) -> Seq<char> {
    match c {
        Color::White => "White"@,
        Color::Black => "Black"@,
    }
}

/// A position and its hash as text: the board with White at the bottom, and the
/// rest of the state below it.
pub open spec fn board_text(p: Pos, hash: u64) -> Seq<char> {
    "  +------------------------+\n"@ + board_rows(p, 8)
        + "  +------------------------+\n    a  b  c  d  e  f  g  h\n\nSide to move : "@ + color_name(
        p.side,
    ) + "\nCastling     : "@ + castling_text(p.castling) + "\nEn passant   : "@ + ep_text(p.ep)
        + "\nHalfmove     : "@ + digits(p.halfmove) + "\nFullmove     : "@ + digits(p.fullmove)
        + "\nZobrist hash : 0x"@ + hex_digits(hash as int, 16)
}

fn say(out: &mut String, s: &str)
    ensures
        final(out)@ == old(out)@ + s@,
{
    push_chars(out, &chars_of(s));
}

fn hex_digit(d: u64) -> (r: char)
    requires
        d < 16,
    ensures
        r == hex_char(d as int),
{
    match d {
        10 => 'a',
        11 => 'b',
        12 => 'c',
        13 => 'd',
        14 => 'e',
        15 => 'f',
        _ => {
            let c = number_chars(d);
            c[0]
        },
    }
}

fn hex_chars(v: u64, n: u32) -> (r: Vec<char>)
    ensures
        r@ == hex_digits(v as int, n as int),
    decreases n,
{
    if n == 0 {
        return Vec::new();
    }
    let mut out = hex_chars(v / 16, n - 1);
    out.push(hex_digit(v % 16));
    out
}

impl Board {
    fn push_row(&self, out: &mut String, rank: u8)
        requires
            self.wf(),
            rank < 8,
        ensures
            final(out)@ == old(out)@ + board_row(self@, rank as int, 8),
    {
        let ghost start = out@;
        let mut file: u8 = 0;
        proof {
            assert(start + Seq::<char>::empty() =~= start);
        }
        while file < 8
            invariant
                self.wf(),
                rank < 8,
                file <= 8,
                out@ == start + board_row(self@, rank as int, file as int),
            decreases 8 - file,
        {
            let c = match self.piece_at(Square::from_file_rank(file, rank)) {
                Some(p) => p.to_char(),
                None => '.',
            };
            out.push(' ');
            out.push(c);
            out.push(' ');
            file += 1;
            proof {
                assert(out@ =~= start + board_row(self@, rank as int, file as int));
            }
        }
    }

    /// The position as text: the board with White at the bottom, and the rest of
    /// the state below it.
    pub fn diagram(&self) -> (r: String)
        requires
            self.wf(),
        ensures
            r@ == board_text(self@, self.hash),
    {
        let mut out = String::new();
        say(&mut out, "  +------------------------+\n");
        let ghost head = out@;
        let mut rank: u8 = 8;
        while rank > 0
            invariant
                self.wf(),
                rank <= 8,
                head + board_rows(self@, 8) == out@ + board_rows(self@, rank as int),
            decreases rank,
        {
            let ghost start = out@;
            let c = number_chars(rank as u64);
            out.push(c[0]);
            out.push(' ');
            out.push('|');
            self.push_row(&mut out, rank - 1);
            out.push('|');
            out.push('\n');
            proof {
                assert(start + board_rows(self@, rank as int) =~= out@ + board_rows(
                    self@,
                    rank - 1,
                ));
            }
            rank -= 1;
        }
        proof {
            assert(out@ =~= head + board_rows(self@, 8));
        }
        say(
            &mut out,
            "  +------------------------+\n    a  b  c  d  e  f  g  h\n\nSide to move : ",
        );
        match self.side_to_move {
            Color::White => say(&mut out, "White"),
            Color::Black => say(&mut out, "Black"),
        }
        say(&mut out, "\nCastling     : ");
        say(&mut out, self.castling_string().as_str());
        say(&mut out, "\nEn passant   : ");
        match self.ep_square {
            Some(s) => say(&mut out, s.to_algebraic().as_str()),
            None => say(&mut out, "-"),
        }
        proof {
            reveal_strlit("-");
            assert("-"@ =~= seq!['-']);
        }
        say(&mut out, "\nHalfmove     : ");
        push_chars(&mut out, &number_chars(self.halfmove_clock as u64));
        say(&mut out, "\nFullmove     : ");
        push_chars(&mut out, &number_chars(self.fullmove_number as u64));
        say(&mut out, "\nZobrist hash : 0x");
        push_chars(&mut out, &hex_chars(self.hash, 16));
        proof {
            assert(out@ =~= board_text(self@, self.hash));
        }
        out
    }
}

proof fn lemma_row(p: Pos, rank: int, n: int)
    requires
        0 <= n,
    ensures
        board_row(p, rank, n).len() == 3 * n,
        forall|f: int|
            0 <= f < n ==> #[trigger] board_row(p, rank, n)[3 * f + 1] == cell_char(
                p.at(rank * 8 + f),
            ),
    decreases n,
{
    if n > 0 {
        lemma_row(p, rank, n - 1);
        let (a, b) = (board_row(p, rank, n - 1), board_row(p, rank, n));
        assert forall|f: int| 0 <= f < n implies #[trigger] b[3 * f + 1] == cell_char(
            p.at(rank * 8 + f),
        ) by {
            if f < n - 1 {
                assert(b[3 * f + 1] == a[3 * f + 1]);
            }
        }
    }
}

/// The ranks are shown from the eighth at the top to the first at the bottom, each on a line
/// of 29 characters behind its number, and on it the files from a to h, three characters
/// each: the letter of the piece, or a dot.
pub proof fn law_diagram(p: Pos, n: int, r: int, f: int)
    requires
        0 <= r < n <= 8,
        0 <= f < 8,
    ensures
        board_rows(p, n).len() == 29 * n,
        board_rows(p, n)[29 * (n - 1 - r)] as u32 == 49 + r,
        board_rows(p, n)[29 * (n - 1 - r) + 3 * f + 4] == (match p.at(8 * r + f) {
            Some(pc) => piece_char(pc),
            None => '.',
        }),
        board_rows(p, n)[29 * (n - 1 - r) + 28] == '\n',
    decreases n,
{
    lemma_row(p, n - 1, 8);
    let top = seq![digit_char(n), ' ', '|'] + board_row(p, n - 1, 8) + seq!['|', '\n'];
    let below = board_rows(p, n - 1);
    assert(board_rows(p, n) == top + below);
    assert(top.len() == 29);
    if r < n - 1 {
        law_diagram(p, n - 1, r, f);
        let k = 29 * (n - 2 - r);
        assert(board_rows(p, n)[k + 29] == below[k]);
        assert(board_rows(p, n)[k + 29 + 3 * f + 4] == below[k + 3 * f + 4]);
        assert(board_rows(p, n)[k + 29 + 28] == below[k + 28]);
    } else {
        if n > 1 {
            law_diagram(p, n - 1, 0, 0);
        }
        assert(board_row(p, n - 1, 8)[3 * f + 1] == cell_char(p.at((n - 1) * 8 + f)));
        assert(top[3 * f + 4] == board_row(p, n - 1, 8)[3 * f + 1]);
    }
}

} // verus!
