//! The built-in positions of the verifier.

use crate::debug::checks::{Expectation, PositionKind, VerifyPosition};
use crate::text::{chars_of, string_of};
use vstd::prelude::*;

verus! {

/// The built-in positions: description, position, minimum depth, the moves of a
/// forced mate (0 if none is expected) and the expected move (empty if none is).
pub const STANDARD_SUITE: [(&'static str, &'static str, u32, i32, &'static str); 20] = [
    ("Starting position (determinism + legal move)", "rnbqkbnr/pppppppp/8/8/8/8/PPPPPPPP/RNBQKBNR w KQkq - 0 1", 4, 0, ""),
    ("Kiwipete (complex castling + EP)", "r3k2r/p1ppqpb1/bn2pnp1/3PN3/1p2P3/2N2Q1p/PPPBBPPP/R3K2R w KQkq - 0 1", 4, 0, ""),
    ("Scholar's mate: Qxf7#", "r1bqkb1r/pppp1ppp/2n2n2/4p2Q/2B1P3/8/PPPP1PPP/RNB1K1NR w KQkq - 4 4", 2, 1, ""),
    ("Rg8# (rook delivers back-rank mate)", "6k1/5ppp/8/8/8/8/5PPP/4R1K1 w - - 0 1", 2, 1, ""),
    ("Re8# (back-rank mate, pawns block escape)", "6k1/5ppp/8/8/8/8/5PPP/4R1K1 w - - 0 1", 2, 1, ""),
    ("Ra8# (double-rook ladder mate)", "6k1/RR6/8/8/8/8/8/6K1 w - - 0 1", 2, 1, ""),
    ("Hanging queen: Qxd8+", "3q1k2/8/8/8/8/8/8/3Q2K1 w - - 0 1", 2, 0, "d1d8"),
    ("Pawn captures hanging pawn: exd5", "7k/8/8/3p4/4P3/8/8/7K w - - 0 1", 2, 0, "e4d5"),
    ("Re8# move: back-rank mate", "6k1/5ppp/8/8/8/8/5PPP/4R1K1 w - - 0 1", 2, 0, "e1e8"),
    ("Scholar's mate threat: Qxf7 forced", "r1bqkb1r/pppp1ppp/2n2n2/4p2Q/2B1P3/8/PPPP1PPP/RNB1K1NR w KQkq - 4 4", 4, 0, "h5f7"),
    ("Qa8 forces mate in 3 (driving sequence)", "7k/8/6K1/8/8/8/8/Q7 w - - 0 1", 6, 3, ""),
    ("Stalemate: Black to move (score = 0)", "k7/2Q5/2K5/8/8/8/8/8 b - - 0 1", 2, 0, ""),
    ("KN vs K: insufficient material (draw)", "4k3/8/8/8/8/8/8/4KN2 w - - 0 1", 4, 0, ""),
    ("Fifty-move rule: halfmove_clock=100", "4k3/8/8/8/8/8/8/R3K3 w - - 100 1", 3, 0, ""),
    ("K+P vs K: White should be better (no zugzwang crash)", "8/8/8/8/8/4K3/4P3/7k w - - 0 1", 4, 0, ""),
    ("NMP safety: pawn endgame (king+pawn only)", "8/1k6/1p6/1Pp5/2P5/8/6K1/8 w - - 0 1", 5, 0, ""),
    ("Winning capture survives LMR", "rnb1kbnr/pppp1ppp/8/4p3/5PP1/8/PPPPP2P/RNBQKBNR b KQkq - 0 3", 4, 0, ""),
    ("Quiescence avoids losing recapture", "rnbqkbnr/pp2pppp/2p5/3p4/4P3/8/PPPP1PPP/RNBQKBNR w KQkq - 0 3", 4, 0, ""),
    ("SEE-positive recapture found", "r1bq1rk1/ppp2ppp/2n1pn2/3p4/1bBP4/2N1PN2/PPQ2PPP/R1B2RK1 w - - 0 10", 4, 0, ""),
    ("Italian middle game (complex, no crash)", "r1bqk2r/pppp1ppp/2n2n2/2b1p3/2B1P3/2N2N2/PPPP1PPP/R1BQK2R w KQkq - 4 5", 4, 0, ""),
];

/// The positions are the built-in ones.
pub open spec fn standard(v: Seq<VerifyPosition>) -> bool {
    &&& v.len() == STANDARD_SUITE@.len()
    &&& forall|i: int| 0 <= i < v.len() ==> suite_position(i, #[trigger] v[i])
}

/// The position is the built-in one with index `i`.
pub open spec fn suite_position(i: int, v: VerifyPosition) -> bool {
    let row = STANDARD_SUITE[i];
    &&& v.description@ == row.0@
    &&& v.fen@ == row.1@
    &&& v.min_depth == row.2
    &&& v.kind@ == (if row.3 > 0 {
        Expectation::MateIn(row.3 as int)
    } else if row.4@.len() > 0 {
        Expectation::Best(row.4@)
    } else {
        Expectation::Any
    })
}

/// The built-in positions.
pub fn standard_positions() -> (r: Vec<VerifyPosition>)
    ensures
        standard(r@),
        forall|i: int|
            0 <= i < r@.len() ==> (#[trigger] r@[i]).kind.wf() && r@[i].min_depth <= 0x7000_0000,
{
    let mut out: Vec<VerifyPosition> = Vec::new();
    let mut i: usize = 0;
    while i < STANDARD_SUITE.len()
        invariant
            i <= STANDARD_SUITE@.len(),
            out@.len() == i,
            forall|k: int| 0 <= k < i ==> suite_position(k, #[trigger] out@[k]),
            forall|k: int|
                0 <= k < i ==> (#[trigger] out@[k]).kind.wf() && out@[k].min_depth <= 0x7000_0000,
        decreases STANDARD_SUITE@.len() - i,
    {
        let row = STANDARD_SUITE[i];
        proof {
            assert(row.2 <= 0x7000_0000 && row.3 <= 0x3fff_ffff);
        }
        let best = chars_of(row.4);
        let kind = if row.3 > 0 {
            PositionKind::ForcedMateIn { at_most_moves: row.3 }
        } else if best.len() > 0 {
            PositionKind::BestMove { uci: string_of(&best) }
        } else {
            PositionKind::AnyLegal
        };
        out.push(VerifyPosition::new(row.0, row.1, row.2, kind));
        i += 1;
    }
    out
}

} // verus!
