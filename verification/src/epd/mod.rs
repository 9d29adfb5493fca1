//! EPD (Extended Position Description) test positions.
//!
//! Each line is
//!
//! ```text
//! <board> <side> <castling> <ep_sq> bm <move(s)>; id "<name>"; ...
//! ```
//!
//! The first four fields are those of FEN. EPD omits the halfmove clock and the
//! fullmove number; `0 1` is appended for the full FEN.
//!
//! | Op   | Meaning |
//! |------|---------|
//! | `bm` | Best move(s): the engine must find one of these |
//! | `am` | Avoid move(s): the engine must not play any of these |
//! | `id` | Human-readable identifier for the position |
//!
//! All other operations are ignored.

pub mod laws;
pub mod run;
pub mod san;

pub use san::san_to_move;

use crate::board::fen::{parse_fen, FenError, FenFault};
use crate::board::Board;
use crate::text::{
    chars_of, index_of, push_chars, push_words, slice_of, split, split_at_most, split_in, split_on,
    string_of, text_is, texts, trim, trimmed, words, run_len, CharClass,
};
use vstd::prelude::*;

verus! {

/// A single parsed EPD test position.
pub struct EpdPosition {
    /// Full FEN string (the four EPD fields and `0 1`).
    pub fen: String,
    /// Moves from the `bm` operation, as written.
    pub best_moves: Vec<String>,
    /// Moves from the `am` operation, as written.
    pub avoid_moves: Vec<String>,
    /// Human-readable id from the `id` operation, or empty.
    pub id: String,
}

/// The operations of an EPD line.
pub struct Operations {
    pub best: Seq<Seq<char>>,
    pub avoid: Seq<Seq<char>>,
    pub id: Seq<char>,
}

/// The operations that `ops` becomes with one more of them.
pub open spec fn with_op(ops: Operations, piece: Seq<char>) -> Operations {
    let op = trim(piece, CharClass::Space);
    let k = run_len(op, ' ') as int;
    let code = if k < op.len() {
        op.take(k)
    } else {
        op
    };
    let value = if k < op.len() {
        trim(op.skip(k + 1), CharClass::Space)
    } else {
        Seq::empty()
    };
    if code == seq!['b', 'm'] {
        Operations { best: ops.best + words(value), ..ops }
    } else if code == seq!['a', 'm'] {
        Operations { avoid: ops.avoid + words(value), ..ops }
    } else if code == seq!['i', 'd'] {
        Operations { id: trim(value, CharClass::Quote), ..ops }
    } else {
        ops
    }
}

/// The first `n` operations of a list.
pub open spec fn operations(pieces: Seq<Seq<char>>, n: int) -> Operations
    decreases n,
{
    if n <= 0 {
        Operations { best: Seq::empty(), avoid: Seq::empty(), id: Seq::empty() }
    } else {
        with_op(operations(pieces, n - 1), pieces[n - 1])
    }
}

/// The operations of the text behind the four fields.
pub open spec fn all_operations(text: Seq<char>) -> Operations {
    let pieces = split(text, ';');
    operations(pieces, pieces.len() as int)
}

/// What an EPD line says: the position as full FEN and the operations. Blank
/// lines, comments and lines with fewer than four fields say nothing.
pub open spec fn epd_line(line: Seq<char>) -> Option<(Seq<char>, Operations)> {
    let s = trim(line, CharClass::Space);
    let t = split_in(s, ' ', 5);
    if s.len() == 0 || s[0] == '#' || t.len() < 4 {
        None
    } else {
        Some(
            (
                t[0] + seq![' '] + t[1] + seq![' '] + t[2] + seq![' '] + t[3] + seq![
                    ' ',
                    '0',
                    ' ',
                    '1',
                ],
                all_operations(
                    if t.len() > 4 {
                        t[4]
                    } else {
                        Seq::empty()
                    },
                ),
            ),
        )
    }
}

/// Parse the operations of an EPD line: best moves, moves to avoid, and the id.
fn parse_ops(ops: &Vec<char>) -> (r: (Vec<String>, Vec<String>, String))
    ensures
        (Operations { best: texts(r.0@), avoid: texts(r.1@), id: r.2@ }) == all_operations(ops@),
{
    let pieces = split_on(ops, ';');
    let ghost ps = split(ops@, ';');
    let mut best: Vec<String> = Vec::new();
    let mut avoid: Vec<String> = Vec::new();
    let mut id = String::new();
    let mut i: usize = 0;
    proof {
        assert(texts(best@) =~= Seq::empty());
        assert(texts(avoid@) =~= Seq::empty());
        assert(id@ =~= Seq::empty());
    }
    while i < pieces.len()
        invariant
            i <= pieces@.len(),
            ps == split(ops@, ';'),
            pieces@.len() == ps.len(),
            forall|k: int| 0 <= k < ps.len() ==> #[trigger] pieces@[k]@ == ps[k],
            (Operations { best: texts(best@), avoid: texts(avoid@), id: id@ }) == operations(
                ps,
                i as int,
            ),
        decreases pieces@.len() - i,
    {
        let op = trimmed(&pieces[i], CharClass::Space);
        let k: usize = index_of(&op, ' ', 0);
        proof {
            assert(op@.skip(0) =~= op@);
            assert(op@.subrange(0, k as int) =~= op@.take(k as int));
            reveal_strlit("bm");
            reveal_strlit("am");
            reveal_strlit("id");
            assert("bm"@ =~= seq!['b', 'm']);
            assert("am"@ =~= seq!['a', 'm']);
            assert("id"@ =~= seq!['i', 'd']);
            if k == op@.len() {
                assert(op@.take(k as int) =~= op@);
            } else {
                assert(op@.subrange(k + 1, op@.len() as int) =~= op@.skip(k + 1));
            }
        }
        let code = slice_of(&op, 0, k);
        let value: Vec<char> = if k < op.len() {
            trimmed(&slice_of(&op, k + 1, op.len()), CharClass::Space)
        } else {
            Vec::new()
        };
        proof {
            if k == op@.len() {
                assert(value@ =~= Seq::empty());
            }
        }
        if text_is(&code, "bm") {
            push_words(&mut best, &value);
        } else if text_is(&code, "am") {
            push_words(&mut avoid, &value);
        } else if text_is(&code, "id") {
            id = string_of(&trimmed(&value, CharClass::Quote));
        }
        i += 1;
    }
    (best, avoid, id)
}

/// Parse one EPD line. Blank lines, `#` comments and lines with fewer than four
/// fields give nothing.
pub fn parse_line(line: &str) -> (r: Option<EpdPosition>)
    ensures
        match r {
            None => epd_line(line@) is None,
            Some(e) => epd_line(line@) == Some(
                (
                    e.fen@,
                    Operations { best: texts(e.best_moves@), avoid: texts(e.avoid_moves@), id: e.id@ },
                ),
            ),
        },
{
    let s = trimmed(&chars_of(line), CharClass::Space);
    if s.len() == 0 || s[0] == '#' {
        return None;
    }
    let t = split_at_most(&s, ' ', 5, 0);
    proof {
        assert(s@.skip(0) =~= s@);
    }
    if t.len() < 4 {
        return None;
    }
    let mut fen = string_of(&t[0]);
    fen.push(' ');
    push_chars(&mut fen, &t[1]);
    fen.push(' ');
    push_chars(&mut fen, &t[2]);
    fen.push(' ');
    push_chars(&mut fen, &t[3]);
    fen.push(' ');
    fen.push('0');
    fen.push(' ');
    fen.push('1');
    proof {
        assert(fen@ =~= t@[0]@ + seq![' '] + t@[1]@ + seq![' '] + t@[2]@ + seq![' '] + t@[3]@ + seq![
            ' ',
            '0',
            ' ',
            '1',
        ]);
    }
    let none: Vec<char> = Vec::new();
    proof {
        assert(none@ =~= Seq::empty());
    }
    let (best_moves, avoid_moves, id) = parse_ops(
        if t.len() > 4 {
            &t[4]
        } else {
            &none
        },
    );
    Some(EpdPosition { fen, best_moves, avoid_moves, id })
}

/// What a parsed position holds.
pub open spec fn position_of(e: EpdPosition) -> (Seq<char>, Operations) {
    (
        e.fen@,
        Operations { best: texts(e.best_moves@), avoid: texts(e.avoid_moves@), id: e.id@ },
    )
}

/// What the first `n` lines say, as far as their positions can be read.
pub open spec fn readable(lines: Seq<Seq<char>>, n: int) -> Seq<(Seq<char>, Operations)>
    decreases n,
{
    if n <= 0 {
        Seq::empty()
    } else {
        match epd_line(lines[n - 1]) {
            Some(x) => if parse_fen(x.0) is Ok {
                readable(lines, n - 1).push(x)
            } else {
                readable(lines, n - 1)
            },
            None => readable(lines, n - 1),
        }
    }
}

/// The ids of those among the first `n` lines whose positions cannot be read,
/// and why.
pub open spec fn unreadable(lines: Seq<Seq<char>>, n: int) -> Seq<(Seq<char>, FenFault)>
    decreases n,
{
    if n <= 0 {
        Seq::empty()
    } else {
        match epd_line(lines[n - 1]) {
            Some(x) => match parse_fen(x.0) {
                Ok(_) => unreadable(lines, n - 1),
                Err(e) => unreadable(lines, n - 1).push((x.1.id, e)),
            },
            None => unreadable(lines, n - 1),
        }
    }
}

/// The positions of an EPD file, and what could not be read.
pub struct EpdFile {
    pub positions: Vec<EpdPosition>,
    /// The id and the error of each position that cannot be read.
    pub unreadable: Vec<(String, FenError)>,
}

/// Parse every line of an EPD file, given as its lines. Lines that give nothing
/// are left out, and positions that cannot be read are reported.
pub fn parse_lines(lines: &Vec<String>) -> (r: EpdFile)
    ensures
        r.positions@.map_values(|e: EpdPosition| position_of(e)) == readable(
            texts(lines@),
            lines@.len() as int,
        ),
        r.unreadable@.map_values(|b: (String, FenError)| (b.0@, b.1@)) == unreadable(
            texts(lines@),
            lines@.len() as int,
        ),
{
    let ghost f = |e: EpdPosition| position_of(e);
    let ghost g = |b: (String, FenError)| (b.0@, b.1@);
    let mut good: Vec<EpdPosition> = Vec::new();
    let mut bad: Vec<(String, FenError)> = Vec::new();
    let mut i: usize = 0;
    proof {
        assert(good@.map_values(f) =~= Seq::empty());
        assert(bad@.map_values(g) =~= Seq::empty());
    }
    while i < lines.len()
        invariant
            i <= lines@.len(),
            f == (|e: EpdPosition| position_of(e)),
            g == (|b: (String, FenError)| (b.0@, b.1@)),
            good@.map_values(f) == readable(texts(lines@), i as int),
            bad@.map_values(g) == unreadable(texts(lines@), i as int),
        decreases lines@.len() - i,
    {
        let ghost good0 = good@;
        let ghost bad0 = bad@;
        proof {
            assert(texts(lines@)[i as int] == lines@[i as int]@);
        }
        if let Some(e) = parse_line(lines[i].as_str()) {
            match Board::from_fen(e.fen.as_str()) {
                Ok(_) => {
                    good.push(e);
                    proof {
                        assert(good@.map_values(f) =~= good0.map_values(f).push(position_of(e)));
                    }
                },
                Err(err) => {
                    bad.push((e.id, err));
                    proof {
                        assert(bad@.map_values(g) =~= bad0.map_values(g).push((e.id@, err@)));
                    }
                },
            }
        }
        i += 1;
    }
    EpdFile { positions: good, unreadable: bad }
}

} // verus!
