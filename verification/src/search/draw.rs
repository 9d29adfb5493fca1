//! Draw detection: insufficient material and repetition.

use crate::board::bitboard::{lemma_pick_contains, lemma_pick_members};
use crate::board::{Board, Color, PieceType, Pos, Square};
use vstd::prelude::*;

verus! {

/// The number of pieces of a color and type.
pub open spec fn tally(p: Pos, c: Color, pt: PieceType) -> int {
    p.pieces(c, pt).len() as int
}

/// The number of knights and bishops on the board.
pub open spec fn minors(p: Pos) -> int {
    tally(p, Color::White, PieceType::Knight) + tally(p, Color::Black, PieceType::Knight) + tally(
        p,
        Color::White,
        PieceType::Bishop,
    ) + tally(p, Color::Black, PieceType::Bishop)
}

/// Neither side can force checkmate: no pawn, rook or queen is left, and at
/// most one minor piece, or one bishop on each side, both on squares of the
/// same color.
pub open spec fn insufficient(p: Pos) -> bool {
    let wb = p.pieces(Color::White, PieceType::Bishop);
    let bb = p.pieces(Color::Black, PieceType::Bishop);
    &&& forall|i: int| !(#[trigger] p.typed(PieceType::Pawn, i))
    &&& forall|i: int| !(#[trigger] p.typed(PieceType::Rook, i))
    &&& forall|i: int| !(#[trigger] p.typed(PieceType::Queen, i))
    &&& (minors(p) <= 1 || (tally(p, Color::White, PieceType::Knight) == 0 && tally(
        p,
        Color::Black,
        PieceType::Knight,
    ) == 0 && wb.len() == 1 && bb.len() == 1 && (wb[0].f() + wb[0].r()) % 2 == (bb[0].f()
        + bb[0].r()) % 2))
}

/// True when neither side can force checkmate with the remaining material.
///
/// Only the most clear-cut material is declared drawn: bare kings, a single
/// minor piece, and one bishop each on squares of the same color.
pub fn is_insufficient_material(board: &Board) -> (r: bool)
    requires
        board.wf(),
    ensures
        r == insufficient(board@),
{
    let ghost p = board@;
    // Any pawn can promote.
    let pawns = board.pieces(PieceType::Pawn);
    if pawns.any() {
        proof {
            let i = choose|i: int| #[trigger] pawns.has(i);
            assert(p.typed(PieceType::Pawn, i));
        }
        return false;
    }
    // Any rook or queen can force mate.
    let rooks = board.pieces(PieceType::Rook);
    if rooks.any() {
        proof {
            let i = choose|i: int| #[trigger] rooks.has(i);
            assert(p.typed(PieceType::Rook, i));
        }
        return false;
    }
    let queens = board.pieces(PieceType::Queen);
    if queens.any() {
        proof {
            let i = choose|i: int| #[trigger] queens.has(i);
            assert(p.typed(PieceType::Queen, i));
        }
        return false;
    }
    proof {
        assert forall|i: int| !(#[trigger] p.typed(PieceType::Pawn, i)) by {
            assert(!pawns.has(i));
        }
        assert forall|i: int| !(#[trigger] p.typed(PieceType::Rook, i)) by {
            assert(!rooks.has(i));
        }
        assert forall|i: int| !(#[trigger] p.typed(PieceType::Queen, i)) by {
            assert(!queens.has(i));
        }
    }
    // Only kings, bishops, and knights remain.
    let wn: u32 = board.pieces_colored(Color::White, PieceType::Knight).count();
    let bn: u32 = board.pieces_colored(Color::Black, PieceType::Knight).count();
    let white_bishops = board.pieces_colored(Color::White, PieceType::Bishop);
    let black_bishops = board.pieces_colored(Color::Black, PieceType::Bishop);
    let wb: u32 = white_bishops.count();
    let bb: u32 = black_bishops.count();
    let total: u32 = wn + bn + wb + bb;
    if total <= 1 {
        return true;
    }
    if wn == 0 && bn == 0 && wb == 1 && bb == 1 {
        if let (Some(w), Some(b)) = (white_bishops.lsb(), black_bishops.lsb()) {
            let w_light = (w.file() + w.rank()) % 2 == 1;
            let b_light = (b.file() + b.rank()) % 2 == 1;
            return w_light == b_light;
        }
    }
    false
}

/// True if `hash` appears anywhere in `slice`.
pub fn hash_in_slice(hash: u64, slice: &[u64]) -> (r: bool)
    ensures
        r == slice@.contains(hash),
{
    let mut i: usize = 0;
    while i < slice.len()
        invariant
            i <= slice@.len(),
            forall|k: int| 0 <= k < i ==> slice@[k] != hash,
        decreases slice@.len() - i,
    {
        if slice[i] == hash {
            return true;
        }
        i += 1;
    }
    false
}

/// A knight or bishop stands on square `i`.
pub open spec fn minor_at(p: Pos, i: int) -> bool {
    p.at(i) matches Some(pc) && (pc.piece_type == PieceType::Knight || pc.piece_type
        == PieceType::Bishop)
}

/// Two squares have the same color.
pub open spec fn same_shade(i: int, j: int) -> bool {
    (i / 8 + i % 8 + j / 8 + j % 8) % 2 == 0
}

/// What the number of pieces of a kind says about the squares that hold them.
proof fn lemma_tally(p: Pos, c: Color, pt: PieceType)
    ensures
        forall|i: int| #[trigger] p.holds(c, pt, i) ==> tally(p, c, pt) >= 1,
        forall|i: int, j: int|
            i < j && #[trigger] p.holds(c, pt, i) && #[trigger] p.holds(c, pt, j) ==> tally(p, c, pt)
                >= 2,
        tally(p, c, pt) >= 1 ==> p.holds(c, pt, p.pieces(c, pt)[0].0 as int),
        tally(p, c, pt) >= 2 ==> p.holds(c, pt, p.pieces(c, pt)[1].0 as int) && p.pieces(
            c,
            pt,
        )[0].0 < p.pieces(c, pt)[1].0,
        forall|i: int| #[trigger] p.holds(c, pt, i) && tally(p, c, pt) == 1 ==> p.pieces(
            c,
            pt,
        )[0].0 == i,
{
    let f = |i: int| p.holds(c, pt, i);
    let s = p.pieces(c, pt);
    lemma_pick_members(f, 0);
    assert forall|i: int| #[trigger] p.holds(c, pt, i) implies s.len() >= 1 && (s.len() == 1
        ==> s[0].0 == i) by {
        assert(f(i));
        lemma_pick_contains(f, 0, i);
        assert(s.contains(Square(i as u8)));
    }
    assert forall|i: int, j: int|
        i < j && #[trigger] p.holds(c, pt, i) && #[trigger] p.holds(c, pt, j) implies s.len()
        >= 2 by {
        assert(f(i) && f(j));
        lemma_pick_contains(f, 0, i);
        lemma_pick_contains(f, 0, j);
        assert(s.contains(Square(i as u8)) && s.contains(Square(j as u8)));
    }
    if s.len() >= 1 {
        assert(f(s[0].0 as int));
    }
    if s.len() >= 2 {
        assert(f(s[1].0 as int));
    }
}

/// The material is insufficient exactly when only kings, knights and bishops are
/// left, and every two knights or bishops on the board are bishops of different
/// sides on squares of the same color. So a side with two of them can win, and so
/// can one with a knight or a bishop against a knight.
pub proof fn law_insufficient_material(p: Pos)
    ensures
        insufficient(p) <==> {
            &&& forall|i: int| #[trigger]
                p.occupied(i) ==> p.typed(PieceType::King, i) || minor_at(p, i)
            &&& forall|i: int, j: int|
                i < j && #[trigger] minor_at(p, i) && #[trigger] minor_at(p, j) ==> {
                    &&& p.typed(PieceType::Bishop, i)
                    &&& p.typed(PieceType::Bishop, j)
                    &&& p.at(i)->0.color != p.at(j)->0.color
                    &&& same_shade(i, j)
                }
        },
{
    let (w, b) = (Color::White, Color::Black);
    let (kn, bi) = (PieceType::Knight, PieceType::Bishop);
    lemma_tally(p, w, kn);
    lemma_tally(p, b, kn);
    lemma_tally(p, w, bi);
    lemma_tally(p, b, bi);
    let only_light = forall|i: int| #[trigger]
        p.occupied(i) ==> p.typed(PieceType::King, i) || minor_at(p, i);
    let pairs = forall|i: int, j: int|
        i < j && #[trigger] minor_at(p, i) && #[trigger] minor_at(p, j) ==> {
            &&& p.typed(PieceType::Bishop, i)
            &&& p.typed(PieceType::Bishop, j)
            &&& p.at(i)->0.color != p.at(j)->0.color
            &&& same_shade(i, j)
        };
    if insufficient(p) {
        assert forall|i: int| #[trigger] p.occupied(i) implies p.typed(PieceType::King, i)
            || minor_at(p, i) by {
            assert(!p.typed(PieceType::Pawn, i));
            assert(!p.typed(PieceType::Rook, i));
            assert(!p.typed(PieceType::Queen, i));
        }
        assert forall|i: int, j: int|
            i < j && #[trigger] minor_at(p, i) && #[trigger] minor_at(p, j) implies {
            &&& p.typed(PieceType::Bishop, i)
            &&& p.typed(PieceType::Bishop, j)
            &&& p.at(i)->0.color != p.at(j)->0.color
            &&& same_shade(i, j)
        } by {
            assert(p.holds(w, kn, i) || p.holds(b, kn, i) || p.holds(w, bi, i) || p.holds(b, bi, i));
            assert(p.holds(w, kn, j) || p.holds(b, kn, j) || p.holds(w, bi, j) || p.holds(b, bi, j));
        }
    }
    if only_light && pairs {
        assert forall|i: int| !(#[trigger] p.typed(PieceType::Pawn, i)) by {
            assert(p.occupied(i) ==> p.typed(PieceType::King, i) || minor_at(p, i));
        }
        assert forall|i: int| !(#[trigger] p.typed(PieceType::Rook, i)) by {
            assert(p.occupied(i) ==> p.typed(PieceType::King, i) || minor_at(p, i));
        }
        assert forall|i: int| !(#[trigger] p.typed(PieceType::Queen, i)) by {
            assert(p.occupied(i) ==> p.typed(PieceType::King, i) || minor_at(p, i));
        }
        lemma_light_pairs(p, w, kn, w, kn);
        lemma_light_pairs(p, b, kn, b, kn);
        lemma_light_pairs(p, w, bi, w, bi);
        lemma_light_pairs(p, b, bi, b, bi);
        lemma_light_pairs(p, w, kn, b, kn);
        lemma_light_pairs(p, w, kn, w, bi);
        lemma_light_pairs(p, w, kn, b, bi);
        lemma_light_pairs(p, b, kn, w, bi);
        lemma_light_pairs(p, b, kn, b, bi);
        lemma_light_pairs(p, w, bi, b, bi);
    }
}

/// Where every two knights or bishops are bishops of different sides on squares of
/// the same color, two kinds of pieces are not both there, but for those bishops.
proof fn lemma_light_pairs(p: Pos, c: Color, pt: PieceType, d: Color, qt: PieceType)
    requires
        pt == PieceType::Knight || pt == PieceType::Bishop,
        qt == PieceType::Knight || qt == PieceType::Bishop,
        forall|i: int, j: int|
            i < j && #[trigger] minor_at(p, i) && #[trigger] minor_at(p, j) ==> {
                &&& p.typed(PieceType::Bishop, i)
                &&& p.typed(PieceType::Bishop, j)
                &&& p.at(i)->0.color != p.at(j)->0.color
                &&& same_shade(i, j)
            },
    ensures
        c == d && pt == qt ==> tally(p, c, pt) <= 1,
        (c != d || pt != qt) && tally(p, c, pt) >= 1 && tally(p, d, qt) >= 1 ==> {
            &&& pt == PieceType::Bishop
            &&& qt == PieceType::Bishop
            &&& c != d
            &&& (p.pieces(c, pt)[0].f() + p.pieces(c, pt)[0].r()) % 2 == (p.pieces(d, qt)[0].f()
                + p.pieces(d, qt)[0].r()) % 2
        },
{
    lemma_tally(p, c, pt);
    lemma_tally(p, d, qt);
    if c == d && pt == qt {
        if tally(p, c, pt) >= 2 {
            let (i, j) = (p.pieces(c, pt)[0].0 as int, p.pieces(c, pt)[1].0 as int);
            assert(minor_at(p, i) && minor_at(p, j));
        }
    } else if tally(p, c, pt) >= 1 && tally(p, d, qt) >= 1 {
        let (i, j) = (p.pieces(c, pt)[0].0 as int, p.pieces(d, qt)[0].0 as int);
        assert(minor_at(p, i) && minor_at(p, j));
        assert(i != j);
        if i < j {
            assert(same_shade(i, j));
        } else {
            assert(same_shade(j, i));
        }
    }
}

} // verus!
