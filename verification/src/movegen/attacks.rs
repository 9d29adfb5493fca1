//! Which squares the pieces attack.

use crate::board::bitboard::Bitboard;
use crate::board::piece::{Color, Piece, PieceType};
use crate::board::square::Square;
use crate::board::{Board, Pos};
use vstd::prelude::*;

verus! {

/// Square `t` lies `df` files and `dr` ranks from square `s`.
pub open spec fn offset(s: int, df: int, dr: int, t: int) -> bool {
    0 <= t < 64 && t % 8 == s % 8 + df && t / 8 == s / 8 + dr
}

/// A knight's step leads from `s` to `t`.
pub open spec fn knight_step(s: int, t: int) -> bool {
    let df = t % 8 - s % 8;
    let dr = t / 8 - s / 8;
    0 <= t < 64 && (((df == 1 || df == -1) && (dr == 2 || dr == -2)) || ((df == 2 || df == -2) && (
    dr == 1 || dr == -1)))
}

/// A king's step leads from `s` to `t`.
pub open spec fn king_step(s: int, t: int) -> bool {
    let df = t % 8 - s % 8;
    let dr = t / 8 - s / 8;
    0 <= t < 64 && -1 <= df <= 1 && -1 <= dr <= 1 && t != s
}

/// A pawn of color `c` on `s` attacks `t`.
pub open spec fn pawn_step(c: Color, s: int, t: int) -> bool {
    let df = t % 8 - s % 8;
    let dr = t / 8 - s / 8;
    0 <= t < 64 && (df == 1 || df == -1) && dr == (if c == Color::White {
        1int
    } else {
        -1int
    })
}

/// `k` steps in direction (`df`, `dr`) from `s` stay on the board.
pub open spec fn ray_on(s: int, df: int, dr: int, k: int) -> bool {
    0 <= s % 8 + k * df < 8 && 0 <= s / 8 + k * dr < 8
}

/// The square that lies `k` steps in direction (`df`, `dr`) from `s`.
pub open spec fn ray_at(s: int, df: int, dr: int, k: int) -> int {
    (s / 8 + k * dr) * 8 + (s % 8 + k * df)
}

/// A slider on `s` gets `k` steps far in direction (`df`, `dr`): the squares on
/// the way are on the board, and all but the last are free.
pub open spec fn ray_reaches(occ: spec_fn(int) -> bool, s: int, df: int, dr: int, k: int) -> bool {
    &&& 1 <= k <= 7
    &&& forall|j: int| 1 <= j <= k ==> #[trigger] ray_on(s, df, dr, j)
    &&& forall|j: int| 1 <= j < k ==> !occ(#[trigger] ray_at(s, df, dr, j))
}

/// A slider on `s` attacks `t` in direction (`df`, `dr`).
pub open spec fn slides(occ: spec_fn(int) -> bool, s: int, df: int, dr: int, t: int) -> bool {
    exists|k: int| #[trigger] ray_reaches(occ, s, df, dr, k) && t == ray_at(s, df, dr, k)
}

/// A bishop on `s` attacks `t`.
pub open spec fn diagonal(occ: spec_fn(int) -> bool, s: int, t: int) -> bool {
    ||| slides(occ, s, 1, 1, t)
    ||| slides(occ, s, 1, -1, t)
    ||| slides(occ, s, -1, 1, t)
    ||| slides(occ, s, -1, -1, t)
}

/// A rook on `s` attacks `t`.
pub open spec fn orthogonal(occ: spec_fn(int) -> bool, s: int, t: int) -> bool {
    ||| slides(occ, s, 1, 0, t)
    ||| slides(occ, s, -1, 0, t)
    ||| slides(occ, s, 0, 1, t)
    ||| slides(occ, s, 0, -1, t)
}

/// A piece `p` on `s` attacks `t`.
pub open spec fn piece_attacks(occ: spec_fn(int) -> bool, p: Piece, s: int, t: int) -> bool {
    match p.piece_type {
        PieceType::Pawn => pawn_step(p.color, s, t),
        PieceType::Knight => knight_step(s, t),
        PieceType::Bishop => diagonal(occ, s, t),
        PieceType::Rook => orthogonal(occ, s, t),
        PieceType::Queen => diagonal(occ, s, t) || orthogonal(occ, s, t),
        PieceType::King => king_step(s, t),
    }
}

/// The occupancy of a position.
pub open spec fn occ_of(p: Pos) -> spec_fn(int) -> bool {
    |i: int| p.occupied(i)
}

/// The piece on `s` belongs to `by` and attacks `t`.
pub open spec fn attacker(p: Pos, by: Color, s: int, t: int) -> bool {
    p.at(s) matches Some(q) && q.color == by && piece_attacks(occ_of(p), q, s, t)
}

/// Some piece of color `by` attacks square `t`.
pub open spec fn attacked(p: Pos, t: int, by: Color) -> bool {
    exists|s: int| #[trigger] attacker(p, by, s, t)
}

/// A ray from `s` to `t` turned round is a ray from `t` to `s`.
proof fn lemma_ray_reverse(occ: spec_fn(int) -> bool, s: int, df: int, dr: int, k: int)
    requires
        0 <= s < 64,
        ray_reaches(occ, s, df, dr, k),
    ensures
        0 <= ray_at(s, df, dr, k) < 64,
        ray_reaches(occ, ray_at(s, df, dr, k), -df, -dr, k),
        ray_at(ray_at(s, df, dr, k), -df, -dr, k) == s,
{
    let t = ray_at(s, df, dr, k);
    assert(ray_on(s, df, dr, k));
    assert(t % 8 == s % 8 + k * df && t / 8 == s / 8 + k * dr);
    assert forall|j: int| 0 <= j <= k implies t % 8 + #[trigger] (j * (-df)) == s % 8 + (k - j) * df
        && t / 8 + j * (-dr) == s / 8 + (k - j) * dr by {
        assert(j * (-df) == (k - j) * df - k * df) by (nonlinear_arith);
        assert(j * (-dr) == (k - j) * dr - k * dr) by (nonlinear_arith);
    }
    assert forall|j: int| 1 <= j <= k implies #[trigger] ray_on(t, -df, -dr, j) by {
        let a = j * (-df);
        if j < k {
            assert(ray_on(s, df, dr, k - j));
        } else {
            assert((k - j) * df == 0 && (k - j) * dr == 0) by (nonlinear_arith)
                requires
                    j == k,
            ;
        }
    }
    assert forall|j: int| 1 <= j < k implies !occ(#[trigger] ray_at(t, -df, -dr, j)) by {
        let a = j * (-df);
        assert(ray_at(t, -df, -dr, j) == ray_at(s, df, dr, k - j));
    }
    let a = k * (-df);
    assert((k - k) * df == 0 && (k - k) * dr == 0) by (nonlinear_arith);
}

proof fn lemma_slides_reverse(occ: spec_fn(int) -> bool, s: int, df: int, dr: int, t: int)
    requires
        0 <= s < 64,
        slides(occ, s, df, dr, t),
    ensures
        0 <= t < 64,
        slides(occ, t, -df, -dr, s),
{
    let k = choose|k: int| #[trigger] ray_reaches(occ, s, df, dr, k) && t == ray_at(s, df, dr, k);
    lemma_ray_reverse(occ, s, df, dr, k);
}

/// Bishop and rook attacks are symmetric.
pub proof fn law_sliders_symmetric(occ: spec_fn(int) -> bool, s: int, t: int)
    requires
        0 <= s < 64,
        0 <= t < 64,
    ensures
        diagonal(occ, s, t) == diagonal(occ, t, s),
        orthogonal(occ, s, t) == orthogonal(occ, t, s),
{
    lemma_sliders_one_way(occ, s, t);
    lemma_sliders_one_way(occ, t, s);
}

proof fn lemma_sliders_one_way(occ: spec_fn(int) -> bool, s: int, t: int)
    requires
        0 <= s < 64,
        0 <= t < 64,
    ensures
        diagonal(occ, s, t) ==> diagonal(occ, t, s),
        orthogonal(occ, s, t) ==> orthogonal(occ, t, s),
{
    if slides(occ, s, 1, 1, t) {
        lemma_slides_reverse(occ, s, 1, 1, t);
    }
    if slides(occ, s, 1, -1, t) {
        lemma_slides_reverse(occ, s, 1, -1, t);
    }
    if slides(occ, s, -1, 1, t) {
        lemma_slides_reverse(occ, s, -1, 1, t);
    }
    if slides(occ, s, -1, -1, t) {
        lemma_slides_reverse(occ, s, -1, -1, t);
    }
    if slides(occ, s, 1, 0, t) {
        lemma_slides_reverse(occ, s, 1, 0, t);
    }
    if slides(occ, s, -1, 0, t) {
        lemma_slides_reverse(occ, s, -1, 0, t);
    }
    if slides(occ, s, 0, 1, t) {
        lemma_slides_reverse(occ, s, 0, 1, t);
    }
    if slides(occ, s, 0, -1, t) {
        lemma_slides_reverse(occ, s, 0, -1, t);
    }
}

proof fn lemma_slides_ext_one(
    o: spec_fn(int) -> bool,
    q: spec_fn(int) -> bool,
    s: int,
    df: int,
    dr: int,
    t: int,
)
    requires
        forall|i: int| 0 <= i < 64 ==> #[trigger] o(i) == q(i),
        slides(o, s, df, dr, t),
    ensures
        slides(q, s, df, dr, t),
{
    let k = choose|k: int| #[trigger] ray_reaches(o, s, df, dr, k) && t == ray_at(s, df, dr, k);
    assert forall|j: int| 1 <= j < k implies !q(#[trigger] ray_at(s, df, dr, j)) by {
        assert(ray_on(s, df, dr, j));
        let i = ray_at(s, df, dr, j);
        assert(o(i) == q(i));
    }
    assert(ray_reaches(q, s, df, dr, k));
}

proof fn lemma_slides_ext(
    o: spec_fn(int) -> bool,
    q: spec_fn(int) -> bool,
    s: int,
    df: int,
    dr: int,
    t: int,
)
    requires
        forall|i: int| 0 <= i < 64 ==> #[trigger] o(i) == q(i),
    ensures
        slides(o, s, df, dr, t) == slides(q, s, df, dr, t),
{
    if slides(o, s, df, dr, t) {
        lemma_slides_ext_one(o, q, s, df, dr, t);
    }
    if slides(q, s, df, dr, t) {
        assert forall|i: int| 0 <= i < 64 implies #[trigger] q(i) == o(i) by {
            assert(o(i) == q(i));
        }
        lemma_slides_ext_one(q, o, s, df, dr, t);
    }
}

/// Equal occupancies give equal slider attacks.
pub proof fn lemma_occ_ext(o: spec_fn(int) -> bool, q: spec_fn(int) -> bool, s: int, t: int)
    requires
        forall|i: int| 0 <= i < 64 ==> #[trigger] o(i) == q(i),
    ensures
        diagonal(o, s, t) == diagonal(q, s, t),
        orthogonal(o, s, t) == orthogonal(q, s, t),
{
    lemma_slides_ext(o, q, s, 1, 1, t);
    lemma_slides_ext(o, q, s, 1, -1, t);
    lemma_slides_ext(o, q, s, -1, 1, t);
    lemma_slides_ext(o, q, s, -1, -1, t);
    lemma_slides_ext(o, q, s, 1, 0, t);
    lemma_slides_ext(o, q, s, -1, 0, t);
    lemma_slides_ext(o, q, s, 0, 1, t);
    lemma_slides_ext(o, q, s, 0, -1, t);
}

/// Add the square at the given offset from `sq`, unless it is off the board.
fn add_step(bb: &mut Bitboard, sq: Square, df: i8, dr: i8)
    requires
        sq.ok(),
        -2 <= df <= 2,
        -2 <= dr <= 2,
    ensures
        forall|i: int|
            #[trigger] final(bb).has(i) == (old(bb).has(i) || offset(
                sq.0 as int,
                df as int,
                dr as int,
                i,
            )),
{
    let f: i8 = sq.file() as i8 + df;
    let r: i8 = sq.rank() as i8 + dr;
    if 0 <= f && f < 8 && 0 <= r && r < 8 {
        bb.set(Square::from_file_rank(f as u8, r as u8));
    }
}

/// Squares a knight on `sq` attacks.
pub fn knight_attacks(sq: Square) -> (r: Bitboard)
    requires
        sq.ok(),
    ensures
        forall|i: int| #[trigger] r.has(i) == knight_step(sq.0 as int, i),
{
    let mut bb = Bitboard::empty();
    add_step(&mut bb, sq, 1, 2);
    add_step(&mut bb, sq, 2, 1);
    add_step(&mut bb, sq, 2, -1);
    add_step(&mut bb, sq, 1, -2);
    add_step(&mut bb, sq, -1, -2);
    add_step(&mut bb, sq, -2, -1);
    add_step(&mut bb, sq, -2, 1);
    add_step(&mut bb, sq, -1, 2);
    bb
}

/// Squares a king on `sq` attacks (ignoring castling).
pub fn king_attacks(sq: Square) -> (r: Bitboard)
    requires
        sq.ok(),
    ensures
        forall|i: int| #[trigger] r.has(i) == king_step(sq.0 as int, i),
{
    let mut bb = Bitboard::empty();
    add_step(&mut bb, sq, 1, 0);
    add_step(&mut bb, sq, 1, 1);
    add_step(&mut bb, sq, 0, 1);
    add_step(&mut bb, sq, -1, 1);
    add_step(&mut bb, sq, -1, 0);
    add_step(&mut bb, sq, -1, -1);
    add_step(&mut bb, sq, 0, -1);
    add_step(&mut bb, sq, 1, -1);
    bb
}

/// Squares a pawn of `color` on `sq` attacks (the two forward diagonals).
pub fn pawn_attacks(color: Color, sq: Square) -> (r: Bitboard)
    requires
        sq.ok(),
    ensures
        forall|i: int| #[trigger] r.has(i) == pawn_step(color, sq.0 as int, i),
{
    let dr: i8 = if color == Color::White {
        1
    } else {
        -1
    };
    let mut bb = Bitboard::empty();
    add_step(&mut bb, sq, -1, dr);
    add_step(&mut bb, sq, 1, dr);
    bb
}

/// Walk from `sq` in direction (`df`, `dr`), adding every square up to and
/// including the first blocker.
fn add_ray(bb: &mut Bitboard, sq: Square, occ: Bitboard, df: i8, dr: i8)
    requires
        sq.ok(),
        -1 <= df <= 1,
        -1 <= dr <= 1,
        df != 0 || dr != 0,
    ensures
        forall|i: int|
            #[trigger] final(bb).has(i) == (old(bb).has(i) || slides(
                |j: int| occ.has(j),
                sq.0 as int,
                df as int,
                dr as int,
                i,
            )),
{
    let ghost o = |j: int| occ.has(j);
    let ghost s = sq.0 as int;
    let ghost before = *bb;
    let mut f: i8 = sq.file() as i8 + df;
    let mut r: i8 = sq.rank() as i8 + dr;
    let ghost mut k: int = 1;
    loop
        invariant_except_break
            -1 <= f <= 8,
            -1 <= r <= 8,
            1 <= k <= 8,
            f == s % 8 + k * df,
            r == s / 8 + k * dr,
            forall|j: int| 1 <= j < k ==> #[trigger] ray_on(s, df as int, dr as int, j),
            forall|j: int| 1 <= j < k ==> !o(#[trigger] ray_at(s, df as int, dr as int, j)),
            forall|i: int|
                #[trigger] bb.has(i) == (before.has(i) || exists|j: int|
                    1 <= j < k && i == #[trigger] ray_at(s, df as int, dr as int, j)),
        invariant
            sq.ok(),
            s == sq.0,
            o == (|j: int| occ.has(j)),
            -1 <= df <= 1,
            -1 <= dr <= 1,
            df != 0 || dr != 0,
        ensures
            forall|i: int|
                #[trigger] bb.has(i) == (before.has(i) || slides(o, s, df as int, dr as int, i)),
        decreases 8 - k,
    {
        if !(0 <= f && f < 8 && 0 <= r && r < 8) {
            proof {
                assert(!ray_on(s, df as int, dr as int, k));
                assert forall|i: int| #[trigger] bb.has(i) == (before.has(i) || slides(
                    o,
                    s,
                    df as int,
                    dr as int,
                    i,
                )) by {
                    if slides(o, s, df as int, dr as int, i) {
                        let m = choose|m: int| #[trigger]
                            ray_reaches(o, s, df as int, dr as int, m) && i == ray_at(
                                s,
                                df as int,
                                dr as int,
                                m,
                            );
                        if m >= k {
                            assert(ray_on(s, df as int, dr as int, k));
                        }
                        assert(bb.has(i));
                    }
                    if bb.has(i) && !before.has(i) {
                        let j = choose|j: int|
                            1 <= j < k && i == #[trigger] ray_at(s, df as int, dr as int, j);
                        assert(ray_reaches(o, s, df as int, dr as int, j));
                    }
                }
            }
            break ;
        }
        let target = Square::from_file_rank(f as u8, r as u8);
        let ghost prev = *bb;
        bb.set(target);
        proof {
            assert(target.0 as int == ray_at(s, df as int, dr as int, k));
            assert(ray_on(s, df as int, dr as int, k));
            assert(k <= 7) by (nonlinear_arith)
                requires
                    0 <= s % 8 + k * df < 8,
                    0 <= s / 8 + k * dr < 8,
                    0 <= s < 64,
                    -1 <= df <= 1,
                    -1 <= dr <= 1,
                    df != 0 || dr != 0,
            ;
            assert(ray_reaches(o, s, df as int, dr as int, k));
            assert forall|i: int| #[trigger] bb.has(i) == (before.has(i) || exists|j: int|
                1 <= j < k + 1 && i == #[trigger] ray_at(s, df as int, dr as int, j)) by {
                assert(bb.has(i) == (prev.has(i) || i == target.0));
                if bb.has(i) && !before.has(i) {
                    if i == target.0 {
                        assert(i == ray_at(s, df as int, dr as int, k));
                    }
                }
            }
        }
        if occ.contains(target) {
            proof {
                assert forall|i: int| #[trigger] bb.has(i) == (before.has(i) || slides(
                    o,
                    s,
                    df as int,
                    dr as int,
                    i,
                )) by {
                    if slides(o, s, df as int, dr as int, i) {
                        let m = choose|m: int| #[trigger]
                            ray_reaches(o, s, df as int, dr as int, m) && i == ray_at(
                                s,
                                df as int,
                                dr as int,
                                m,
                            );
                        if m > k {
                            assert(!o(ray_at(s, df as int, dr as int, k)));
                        }
                        assert(bb.has(i));
                    }
                    if bb.has(i) && !before.has(i) {
                        let j = choose|j: int|
                            1 <= j < k + 1 && i == #[trigger] ray_at(s, df as int, dr as int, j);
                        assert(ray_reaches(o, s, df as int, dr as int, j));
                    }
                }
            }
            break ;
        }
        proof {
            assert((k + 1) * df == k * df + df && (k + 1) * dr == k * dr + dr) by (nonlinear_arith);
            assert(!o(ray_at(s, df as int, dr as int, k)));
            k = k + 1;
        }
        f = f + df;
        r = r + dr;
    }
    proof {
        assert forall|i: int| #[trigger] bb.has(i) == (before.has(i) || slides(
            |j: int| occ.has(j),
            s,
            df as int,
            dr as int,
            i,
        )) by {}
    }
}

/// Squares a bishop on `sq` attacks given board occupancy `occ`.
pub fn bishop_attacks(sq: Square, occ: Bitboard) -> (r: Bitboard)
    requires
        sq.ok(),
    ensures
        forall|i: int| #[trigger] r.has(i) == diagonal(|j: int| occ.has(j), sq.0 as int, i),
{
    let mut bb = Bitboard::empty();
    add_ray(&mut bb, sq, occ, 1, 1);
    add_ray(&mut bb, sq, occ, 1, -1);
    add_ray(&mut bb, sq, occ, -1, 1);
    add_ray(&mut bb, sq, occ, -1, -1);
    bb
}

/// Squares a rook on `sq` attacks given board occupancy `occ`.
pub fn rook_attacks(sq: Square, occ: Bitboard) -> (r: Bitboard)
    requires
        sq.ok(),
    ensures
        forall|i: int| #[trigger] r.has(i) == orthogonal(|j: int| occ.has(j), sq.0 as int, i),
{
    let mut bb = Bitboard::empty();
    add_ray(&mut bb, sq, occ, 1, 0);
    add_ray(&mut bb, sq, occ, -1, 0);
    add_ray(&mut bb, sq, occ, 0, 1);
    add_ray(&mut bb, sq, occ, 0, -1);
    bb
}

/// Squares a queen on `sq` attacks given board occupancy `occ`.
pub fn queen_attacks(sq: Square, occ: Bitboard) -> (r: Bitboard)
    requires
        sq.ok(),
    ensures
        forall|i: int| #[trigger]
            r.has(i) == (diagonal(|j: int| occ.has(j), sq.0 as int, i) || orthogonal(
                |j: int| occ.has(j),
                sq.0 as int,
                i,
            )),
{
    bishop_attacks(sq, occ).or(rook_attacks(sq, occ))
}

/// Is `sq` attacked by any piece of color `by`?
///
/// A piece attacks `sq` exactly when a piece of the same kind on `sq` would
/// attack it back, so each kind is tried on `sq` (for pawns, one of the other
/// color).
pub fn is_square_attacked(board: &Board, sq: Square, by: Color) -> (r: bool)
    requires
        board.wf(),
        sq.ok(),
    ensures
        r == attacked(board@, sq.0 as int, by),
{
    let ghost p = board@;
    let ghost t = sq.0 as int;
    let occ = board.occupancy();
    let ghost o = |j: int| occ.has(j);
    let pawns = board.pieces_colored(by, PieceType::Pawn);
    let knights = board.pieces_colored(by, PieceType::Knight);
    let kings = board.pieces_colored(by, PieceType::King);
    let bishops = board.pieces_colored(by, PieceType::Bishop);
    let rooks = board.pieces_colored(by, PieceType::Rook);
    let queens = board.pieces_colored(by, PieceType::Queen);
    proof {
        assert forall|s: int| 0 <= s < 64 implies {
            &&& #[trigger] diagonal(o, t, s) == diagonal(occ_of(p), s, t)
            &&& orthogonal(o, t, s) == orthogonal(occ_of(p), s, t)
        } by {
            lemma_occ_ext(o, occ_of(p), t, s);
            law_sliders_symmetric(occ_of(p), s, t);
        }
    }
    let by_pawn = pawn_attacks(by.opposite(), sq).and(pawns);
    if by_pawn.any() {
        proof {
            let s = choose|s: int| #[trigger] by_pawn.has(s);
            assert(attacker(p, by, s, t));
        }
        return true;
    }
    let by_knight = knight_attacks(sq).and(knights);
    if by_knight.any() {
        proof {
            let s = choose|s: int| #[trigger] by_knight.has(s);
            assert(attacker(p, by, s, t));
        }
        return true;
    }
    let by_king = king_attacks(sq).and(kings);
    if by_king.any() {
        proof {
            let s = choose|s: int| #[trigger] by_king.has(s);
            assert(attacker(p, by, s, t));
        }
        return true;
    }
    let by_diag = bishop_attacks(sq, occ).and(bishops.or(queens));
    if by_diag.any() {
        proof {
            let s = choose|s: int| #[trigger] by_diag.has(s);
            assert(diagonal(o, t, s));
            assert(attacker(p, by, s, t));
        }
        return true;
    }
    let by_orth = rook_attacks(sq, occ).and(rooks.or(queens));
    if by_orth.any() {
        proof {
            let s = choose|s: int| #[trigger] by_orth.has(s);
            assert(orthogonal(o, t, s));
            let d = diagonal(o, t, s);
            assert(attacker(p, by, s, t));
        }
        return true;
    }
    proof {
        if attacked(p, t, by) {
            let s = choose|s: int| #[trigger] attacker(p, by, s, t);
            let d = diagonal(o, t, s);
            assert(!by_pawn.has(s));
            assert(!by_knight.has(s));
            assert(!by_king.has(s));
            assert(!by_diag.has(s));
            assert(!by_orth.has(s));
        }
    }
    false
}

} // verus!
