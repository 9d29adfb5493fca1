//! The built-in opening book.
//!
//! Each line holds a position, a move and the weight of the move. The lines are
//! turned into the records of a Polyglot book, so that both kinds of book are
//! read in the same way.

use crate::board::fen::parse_fen;
use crate::board::Board;
use crate::book::entries::{sort_entries, sorted, PolyEntry};
use crate::book::polyglot::{
    book_key, book_word, encode_move, ep_inside, poly_hash,
};
use crate::movegen::find::first_where;
use crate::movegen::legal::legal;
use crate::movegen::rules::{law_valid_moves_playable, valid};
use crate::uci::parser::{parse_move, written_as};
use vstd::prelude::*;

verus! {

/// The lines: position, move and weight. A higher weight is played more often.
pub const INTERNAL_LINES: [(&'static str, &'static str, u16); 20] = [
    ("rnbqkbnr/pppppppp/8/8/8/8/PPPPPPPP/RNBQKBNR w KQkq - 0 1", "e2e4", 10),
    ("rnbqkbnr/pppppppp/8/8/8/8/PPPPPPPP/RNBQKBNR w KQkq - 0 1", "d2d4", 10),
    ("rnbqkbnr/pppppppp/8/8/8/8/PPPPPPPP/RNBQKBNR w KQkq - 0 1", "g1f3", 5),
    ("rnbqkbnr/pppppppp/8/8/8/8/PPPPPPPP/RNBQKBNR w KQkq - 0 1", "c2c4", 5),
    ("rnbqkbnr/pppppppp/8/8/4P3/8/PPPP1PPP/RNBQKBNR b KQkq e3 0 1", "e7e5", 10),
    ("rnbqkbnr/pppppppp/8/8/4P3/8/PPPP1PPP/RNBQKBNR b KQkq e3 0 1", "c7c5", 8),
    ("rnbqkbnr/pppppppp/8/8/4P3/8/PPPP1PPP/RNBQKBNR b KQkq e3 0 1", "e7e6", 6),
    ("rnbqkbnr/pppppppp/8/8/4P3/8/PPPP1PPP/RNBQKBNR b KQkq e3 0 1", "c7c6", 4),
    ("rnbqkbnr/pppppppp/8/8/3P4/8/PPP1PPPP/RNBQKBNR b KQkq d3 0 1", "d7d5", 8),
    ("rnbqkbnr/pppppppp/8/8/3P4/8/PPP1PPPP/RNBQKBNR b KQkq d3 0 1", "g8f6", 8),
    ("rnbqkbnr/pppppppp/8/8/3P4/8/PPP1PPPP/RNBQKBNR b KQkq d3 0 1", "e7e6", 5),
    ("rnbqkbnr/pppppppp/8/8/3P4/8/PPP1PPPP/RNBQKBNR b KQkq d3 0 1", "c7c5", 4),
    ("rnbqkbnr/pppp1ppp/8/4p3/4P3/8/PPPP1PPP/RNBQKBNR w KQkq e6 0 2", "g1f3", 10),
    ("rnbqkbnr/pppp1ppp/8/4p3/4P3/8/PPPP1PPP/RNBQKBNR w KQkq e6 0 2", "f1c4", 5),
    ("rnbqkbnr/pppp1ppp/8/4p3/4P3/5N2/PPPP1PPP/RNBQKB1R b KQkq - 1 2", "b8c6", 10),
    ("rnbqkbnr/pppp1ppp/8/4p3/4P3/5N2/PPPP1PPP/RNBQKB1R b KQkq - 1 2", "g8f6", 5),
    ("rnbqkbnr/pp1ppppp/8/2p5/4P3/8/PPPP1PPP/RNBQKBNR w KQkq c6 0 2", "g1f3", 10),
    ("rnbqkbnr/pp1ppppp/8/2p5/4P3/8/PPPP1PPP/RNBQKBNR w KQkq c6 0 2", "b1c3", 5),
    ("rnbqkbnr/ppp1pppp/8/3p4/3P4/8/PPP1PPPP/RNBQKBNR w KQkq d6 0 2", "c2c4", 8),
    ("rnbqkbnr/ppp1pppp/8/3p4/3P4/8/PPP1PPPP/RNBQKBNR w KQkq d6 0 2", "g1f3", 6),
];

/// The record of a line, if its position can be read and played from and its
/// move is legal there.
pub open spec fn line_entry(fen: Seq<char>, uci: Seq<char>, weight: u16) -> Option<PolyEntry> {
    match parse_fen(fen) {
        Err(_) => None,
        Ok(p) => if valid(p) && ep_inside(p) {
            match first_where(legal(p), written_as(uci)) {
                None => None,
                Some(mv) => Some(
                    PolyEntry { key: book_key(p), mv: book_word(mv) as u16, weight, learn: 0 },
                ),
            }
        } else {
            None
        },
    }
}

/// The records of the first `n` lines, in order.
pub open spec fn line_entries(n: int) -> Seq<PolyEntry>
    decreases n,
{
    if n <= 0 {
        Seq::empty()
    } else {
        let line = INTERNAL_LINES[n - 1];
        match line_entry(line.0@, line.1@, line.2) {
            None => line_entries(n - 1),
            Some(e) => line_entries(n - 1).push(e),
        }
    }
}

/// The record of a line.
fn entry_of(fen: &str, uci: &str, weight: u16) -> (r: Option<PolyEntry>)
    ensures
        r == line_entry(fen@, uci@, weight),
{
    let board = match Board::from_fen(fen) {
        Ok(b) => b,
        Err(_) => {
            return None;
        },
    };
    if !board.is_valid() || !board.ep_is_inside() {
        return None;
    }
    proof {
        law_valid_moves_playable(board@);
    }
    match parse_move(uci, &board.legal_moves()) {
        Some(mv) => Some(
            PolyEntry { key: poly_hash(&board), mv: encode_move(mv), weight, learn: 0 },
        ),
        None => None,
    }
}

/// The records of the built-in lines, sorted by their keys. Lines that cannot be
/// read, or whose move is not legal, are left out.
pub fn build_internal_entries() -> (r: Vec<PolyEntry>)
    ensures
        sorted(r@),
        r@.to_multiset() == line_entries(20).to_multiset(),
{
    let mut entries: Vec<PolyEntry> = Vec::new();
    let mut i: usize = 0;
    while i < 20
        invariant
            i <= 20,
            entries@ == line_entries(i as int),
        decreases 20 - i,
    {
        let line = INTERNAL_LINES[i];
        if let Some(e) = entry_of(line.0, line.1, line.2) {
            entries.push(e);
        }
        i += 1;
    }
    sort_entries(&entries)
}

} // verus!
