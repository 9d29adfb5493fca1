//! What the terms of the evaluation are made of: sums over the pieces of one
//! side, sets of squares, and attacks.

use crate::board::bitboard::{lemma_list_is, lemma_pick_members, pick, Bitboard};
use crate::board::piece::{Color, Piece, PieceType};
use crate::board::square::Square;
use crate::board::{Board, CastlingRights, Pos};
use crate::eval::score::{Pair, Score};
use crate::movegen::attacks::{
    bishop_attacks, king_attacks, knight_attacks, lemma_occ_ext, occ_of, pawn_attacks,
    piece_attacks, queen_attacks, rook_attacks,
};
use vstd::prelude::*;

verus! {

/// A position reduced to its pieces, which is all that the terms depend on.
pub open spec fn bare(p: Pos) -> Pos {
    Pos {
        squares: p.squares,
        side: Color::White,
        castling: CastlingRights(0),
        ep: None,
        halfmove: 0,
        fullmove: 0,
    }
}

/// The sum of what `f` gives for each of the squares.
pub open spec fn total(s: Seq<Square>, f: spec_fn(Square) -> Pair) -> Pair
    decreases s.len(),
{
    if s.len() == 0 {
        Pair::zero()
    } else {
        f(s[0]).plus(total(s.drop_first(), f))
    }
}

/// The number of squares that satisfy `p`.
pub open spec fn count_where(p: spec_fn(int) -> bool) -> int {
    pick(p, 0).len() as int
}

/// A term of the evaluation that is a sum over pieces of one side.
pub trait PieceTerm: Sized {
    /// The term applies to the pieces of `c` in `q`.
    spec fn fits(self, q: Pos, c: Color) -> bool;

    /// What a piece of `c` on `s` adds.
    spec fn value(self, q: Pos, c: Color, s: Square) -> Pair;

    /// What a piece of `c` on `s` adds.
    fn compute(&self, board: &Board, c: Color, s: Square) -> (r: Score)
        requires
            board.wf(),
            s.ok(),
            self.fits(bare(board@), c),
        ensures
            r@ == self.value(bare(board@), c, s),
            r@.within(10_000),
    ;
}

/// The sum of a term over some squares.
pub open spec fn sum_term<T: PieceTerm>(t: T, q: Pos, c: Color, squares: Seq<Square>) -> Pair {
    total(squares, |s: Square| t.value(q, c, s))
}

/// Sum a term over the squares of `squares`.
pub fn sum_squares<T: PieceTerm>(board: &Board, c: Color, squares: Bitboard, t: &T) -> (r: Score)
    requires
        board.wf(),
        t.fits(bare(board@), c),
    ensures
        r@ == sum_term(*t, bare(board@), c, squares.list()),
        r@.within(640_000),
{
    let ghost q = bare(board@);
    let ghost f = |s: Square| t.value(q, c, s);
    let mut acc = Score::zero();
    let mut rest = squares;
    proof {
        lemma_pick_members(|i: int| squares.has(i), 0);
    }
    while rest.any()
        invariant
            board.wf(),
            q == bare(board@),
            t.fits(q, c),
            f == (|s: Square| t.value(q, c, s)),
            rest.list().len() <= 64,
            acc@.within(10_000 * (64 - rest.list().len())),
            acc@.plus(total(rest.list(), f)) == total(squares.list(), f),
        decreases rest.list().len(),
    {
        let ghost all = rest.list();
        if let Some(s) = rest.pop_lsb() {
            let v = t.compute(board, c, s);
            proof {
                assert(all.drop_first() =~= rest.list());
                assert(f(s) == v@);
                assert(all[0] == s);
            }
            acc = acc.plus(v);
        }
    }
    proof {
        crate::board::bitboard::lemma_empty_list(rest);
    }
    acc
}

/// A score multiplied by a count of squares.
pub fn scaled(w: Score, n: u32) -> (r: Score)
    requires
        w@.within(150),
        n <= 64,
    ensures
        r@ == w@.times(n as int),
        r@.within(9600),
{
    proof {
        assert(-9600 <= w.mg * n <= 9600) by (nonlinear_arith)
            requires
                -150 <= w.mg <= 150,
                0 <= n <= 64,
        ;
        assert(-9600 <= w.eg * n <= 9600) by (nonlinear_arith)
            requires
                -150 <= w.eg <= 150,
                0 <= n <= 64,
        ;
    }
    w.times(n as i32)
}

proof fn bv_file(f: u64, i: u64)
    by (bit_vector)
    requires
        f < 8,
        i < 64,
    ensures
        (((0x0101_0101_0101_0101u64 << f) >> i) & 1u64 == 1u64) == (i % 8 == f),
{
}

proof fn bv_rank(r: u64, i: u64)
    by (bit_vector)
    requires
        r < 8,
        i < 64,
    ensures
        (((0xFFu64 << ((8 * r) as u64)) >> i) & 1u64 == 1u64) == (i / 8 == r),
{
}

proof fn bv_ahead(r: u64, i: u64)
    by (bit_vector)
    requires
        r < 8,
        i < 64,
    ensures
        r < 7 ==> (((0xffff_ffff_ffff_ffffu64 << ((8 * (r + 1)) as u64)) >> i) & 1u64 == 1u64) == (i
            / 8 > r),
        r > 0 ==> (((0xffff_ffff_ffff_ffffu64 >> ((8 * (8 - r)) as u64)) >> i) & 1u64 == 1u64) == (i
            / 8 < r),
{
}

/// All squares on a file (0 = a-file .. 7 = h-file).
pub fn file_bb(file: u8) -> (r: Bitboard)
    requires
        file < 8,
    ensures
        forall|i: int| #[trigger] r.has(i) == (0 <= i < 64 && i % 8 == file),
{
    let r = Bitboard(0x0101_0101_0101_0101u64 << (file as u64));
    proof {
        assert forall|i: int| #[trigger] r.has(i) == (0 <= i < 64 && i % 8 == file) by {
            if 0 <= i < 64 {
                bv_file(file as u64, i as u64);
            }
        }
    }
    r
}

/// All squares on a rank (0 = rank 1 .. 7 = rank 8).
pub fn rank_bb(rank: u8) -> (r: Bitboard)
    requires
        rank < 8,
    ensures
        forall|i: int| #[trigger] r.has(i) == (0 <= i < 64 && i / 8 == rank),
{
    let r = Bitboard(0xFFu64 << ((8 * rank) as u64));
    proof {
        assert forall|i: int| #[trigger] r.has(i) == (0 <= i < 64 && i / 8 == rank) by {
            if 0 <= i < 64 {
                bv_rank(rank as u64, i as u64);
            }
        }
    }
    r
}

/// Files `a` and `b` are next to each other.
pub open spec fn next_to(a: int, b: int) -> bool {
    a == b + 1 || b == a + 1
}

/// The files immediately left and right of `file`.
pub fn adjacent_files_bb(file: u8) -> (r: Bitboard)
    requires
        file < 8,
    ensures
        forall|i: int| #[trigger] r.has(i) == (0 <= i < 64 && next_to(i % 8, file as int)),
{
    let mut bb = Bitboard::empty();
    if file > 0 {
        bb = bb.or(file_bb(file - 1));
    }
    if file < 7 {
        bb = bb.or(file_bb(file + 1));
    }
    bb
}

/// Square `i` lies ahead of `rank` from `c`'s point of view.
pub open spec fn ahead(c: Color, rank: int, i: int) -> bool {
    match c {
        Color::White => i / 8 > rank,
        Color::Black => i / 8 < rank,
    }
}

/// Every square strictly ahead of `rank` from `color`'s point of view.
pub fn forward_ranks(color: Color, rank: u8) -> (r: Bitboard)
    requires
        rank < 8,
    ensures
        forall|i: int| #[trigger] r.has(i) == (0 <= i < 64 && ahead(color, rank as int, i)),
{
    let r = match color {
        Color::White => if rank < 7 {
            Bitboard(0xffff_ffff_ffff_ffffu64 << ((8 * (rank + 1)) as u64))
        } else {
            Bitboard::empty()
        },
        Color::Black => if rank > 0 {
            Bitboard(0xffff_ffff_ffff_ffffu64 >> ((8 * (8 - rank)) as u64))
        } else {
            Bitboard::empty()
        },
    };
    proof {
        assert forall|i: int| #[trigger] r.has(i) == (0 <= i < 64 && ahead(
            color,
            rank as int,
            i,
        )) by {
            if 0 <= i < 64 {
                bv_ahead(rank as u64, i as u64);
            }
        }
    }
    r
}

/// The distance advanced from the side's own back rank (0..7).
pub open spec fn rel_rank(c: Color, rank: int) -> int {
    match c {
        Color::White => rank,
        Color::Black => 7 - rank,
    }
}

/// Pawn relative rank: distance advanced from the side's own back rank (0..7).
pub fn relative_rank(color: Color, rank: u8) -> (r: usize)
    requires
        rank < 8,
    ensures
        r == rel_rank(color, rank as int),
        r < 8,
{
    match color {
        Color::White => rank as usize,
        Color::Black => (7 - rank) as usize,
    }
}

/// A piece of color `c` and type `pt` on `s` attacks `t`.
pub open spec fn hits(q: Pos, c: Color, pt: PieceType, s: int, t: int) -> bool {
    piece_attacks(occ_of(q), Piece { color: c, piece_type: pt }, s, t)
}

/// The squares that a piece of color `c` and type `pt` on `s` attacks.
pub fn attacks_of(board: &Board, c: Color, pt: PieceType, s: Square) -> (r: Bitboard)
    requires
        board.wf(),
        s.ok(),
    ensures
        forall|t: int| #[trigger] r.has(t) == hits(bare(board@), c, pt, s.0 as int, t),
{
    let occ = board.occupancy();
    let r = match pt {
        PieceType::Pawn => pawn_attacks(c, s),
        PieceType::Knight => knight_attacks(s),
        PieceType::Bishop => bishop_attacks(s, occ),
        PieceType::Rook => rook_attacks(s, occ),
        PieceType::Queen => queen_attacks(s, occ),
        PieceType::King => king_attacks(s),
    };
    proof {
        let q = bare(board@);
        let o = |j: int| occ.has(j);
        assert forall|t: int| #[trigger] r.has(t) == hits(q, c, pt, s.0 as int, t) by {
            assert forall|i: int| 0 <= i < 64 implies #[trigger] o(i) == occ_of(q)(i) by {
                assert(occ.has(i) == board@.occupied(i));
            }
            lemma_occ_ext(o, occ_of(q), s.0 as int, t);
        }
    }
    r
}

/// Some piece of color `c` and type `pt` attacks `t`.
pub open spec fn hit(q: Pos, c: Color, pt: PieceType, t: int) -> bool {
    exists|s: int| q.holds(c, pt, s) && #[trigger] hits(q, c, pt, s, t)
}

/// The squares that the pieces of color `c` and type `pt` attack.
pub fn attack_map(board: &Board, c: Color, pt: PieceType) -> (r: Bitboard)
    requires
        board.wf(),
    ensures
        forall|t: int| #[trigger] r.has(t) == hit(bare(board@), c, pt, t),
{
    let ghost q = bare(board@);
    let mut map = Bitboard::empty();
    let pieces = board.pieces_colored(c, pt);
    let mut rest = pieces;
    while rest.any()
        invariant
            board.wf(),
            q == bare(board@),
            forall|i: int| #[trigger] pieces.has(i) == q.holds(c, pt, i),
            forall|i: int| #[trigger] rest.has(i) ==> pieces.has(i),
            forall|t: int|
                #[trigger] map.has(t) == exists|s: int|
                    pieces.has(s) && !rest.has(s) && #[trigger] hits(q, c, pt, s, t),
        decreases rest.list().len(),
    {
        let ghost before = rest;
        let ghost old_map = map;
        if let Some(s) = rest.pop_lsb() {
            let a = attacks_of(board, c, pt, s);
            map = map.or(a);
            proof {
                let si = s.0 as int;
                assert(pieces.has(si)) by {
                    assert(before.has(si));
                }
                assert forall|t: int| #[trigger] map.has(t) == exists|u: int|
                    pieces.has(u) && !rest.has(u) && #[trigger] hits(q, c, pt, u, t) by {
                    if old_map.has(t) {
                        let u = choose|u: int|
                            pieces.has(u) && !before.has(u) && #[trigger] hits(q, c, pt, u, t);
                        assert(!rest.has(u));
                    }
                    if a.has(t) {
                        assert(hits(q, c, pt, si, t));
                        assert(!rest.has(si));
                    }
                    if exists|u: int|
                        pieces.has(u) && !rest.has(u) && #[trigger] hits(q, c, pt, u, t) {
                        let u = choose|u: int|
                            pieces.has(u) && !rest.has(u) && #[trigger] hits(q, c, pt, u, t);
                        if u == si {
                            assert(a.has(t));
                        } else {
                            assert(!before.has(u));
                            assert(old_map.has(t));
                        }
                    }
                }
            }
        }
    }
    proof {
        assert forall|t: int| #[trigger] map.has(t) == hit(q, c, pt, t) by {
            if hit(q, c, pt, t) {
                let s = choose|s: int| q.holds(c, pt, s) && #[trigger] hits(q, c, pt, s, t);
                assert(pieces.has(s) && !rest.has(s));
            }
        }
    }
    map
}

/// The squares of the pieces of one color and type, as the terms see them.
pub fn squares_of(board: &Board, c: Color, pt: PieceType) -> (r: Bitboard)
    requires
        board.wf(),
    ensures
        forall|i: int| #[trigger] r.has(i) == bare(board@).holds(c, pt, i),
        r.list() == bare(board@).pieces(c, pt),
{
    let r = board.pieces_colored(c, pt);
    proof {
        let q = bare(board@);
        lemma_list_is(r, |i: int| q.holds(c, pt, i));
    }
    r
}

/// Count the members of a set that is given by a predicate.
pub proof fn lemma_count_where(b: Bitboard, p: spec_fn(int) -> bool)
    requires
        forall|i: int| 0 <= i < 64 ==> #[trigger] b.has(i) == p(i),
    ensures
        b.list().len() == count_where(p),
{
    lemma_list_is(b, p);
}

} // verus!
