//! Static evaluation: an estimate of who stands better, in centipawns.
//!
//! The score is the sum of a number of terms, each a [`Score`] of a middlegame
//! and an endgame value, White's less Black's. The sum is tapered by how much
//! material remains, adjusted for won endgames, and turned to the point of view
//! of the side to move.

pub mod evaluator;
pub mod laws;
pub mod material;
pub mod mirror;
pub mod pawns;
pub mod pst;
pub mod score;
pub mod terms;

pub use evaluator::{Evaluator, HandcraftedEvaluator, NnueEvaluator};

use crate::board::bitboard::Bitboard;
use crate::board::{Board, Color, PieceType, Pos, Square};
use crate::movegen::attacks::{king_attacks, king_step, pawn_attacks, pawn_step};
use crate::movegen::rules::lemma_in_check_ext;
use material::{material, material_value, phase_value, phase_weight};
use pawns::{evaluate_pawns, pawns_value};
use pst::{lemma_pst_bounds, pst, pst_value};
use score::{div_toward_zero, taper, tapered, tdiv, Pair, Score};
use terms::{
    adjacent_files_bb, ahead, attack_map, attacks_of, bare, count_where, file_bb, forward_ranks,
    hit, hits, lemma_count_where, next_to, rank_bb, rel_rank, scaled, squares_of, sum_squares,
    sum_term, PieceTerm,
};
use vstd::prelude::*;

verus! {

/// Material and place of a piece.
pub struct Placement {
    pub pt: PieceType,
}

impl PieceTerm for Placement {
    open spec fn fits(self, q: Pos, c: Color) -> bool {
        true
    }

    open spec fn value(self, q: Pos, c: Color, s: Square) -> Pair {
        material_value(self.pt).plus(pst_value(self.pt, c, s))
    }

    fn compute(&self, board: &Board, c: Color, s: Square) -> (r: Score) {
        proof {
            lemma_pst_bounds(self.pt, c, s);
        }
        material(self.pt).plus(pst(self.pt, c, s))
    }
}

/// What each square that a piece can reach is worth.
pub open spec fn mobility_weight(pt: PieceType) -> Pair {
    match pt {
        PieceType::Knight => Pair { mg: 4, eg: 4 },
        PieceType::Bishop => Pair { mg: 4, eg: 4 },
        PieceType::Rook => Pair { mg: 2, eg: 4 },
        _ => Pair { mg: 1, eg: 2 },
    }
}

/// The number of squares that a piece attacks and its own side does not occupy.
pub open spec fn reach_count(q: Pos, c: Color, pt: PieceType, s: Square) -> int {
    count_where(|t: int| hits(q, c, pt, s.0 as int, t) && !q.owned(c, t))
}

/// The number of squares that a piece attacks and its own side does not occupy.
fn count_reach(board: &Board, c: Color, pt: PieceType, s: Square) -> (r: u32)
    requires
        board.wf(),
        s.ok(),
    ensures
        r == reach_count(bare(board@), c, pt, s),
        r <= 64,
{
    let ghost q = bare(board@);
    let own = board.color(c);
    let targets = attacks_of(board, c, pt, s).and(own.complement());
    proof {
        lemma_count_where(targets, |t: int| hits(q, c, pt, s.0 as int, t) && !q.owned(c, t));
    }
    targets.count()
}

/// Mobility: squares a piece can reach (excluding own-occupied squares).
pub struct Mobility {
    pub pt: PieceType,
}

impl PieceTerm for Mobility {
    open spec fn fits(self, q: Pos, c: Color) -> bool {
        true
    }

    open spec fn value(self, q: Pos, c: Color, s: Square) -> Pair {
        mobility_weight(self.pt).times(reach_count(q, c, self.pt, s))
    }

    fn compute(&self, board: &Board, c: Color, s: Square) -> (r: Score) {
        let w = match self.pt {
            PieceType::Knight => Score::new(4, 4),
            PieceType::Bishop => Score::new(4, 4),
            PieceType::Rook => Score::new(2, 4),
            _ => Score::new(1, 2),
        };
        scaled(w, count_reach(board, c, self.pt, s))
    }
}

/// The mobility of one side.
pub open spec fn mobility_of(q: Pos, c: Color) -> Pair {
    mobility_part(q, c, PieceType::Knight).plus(mobility_part(q, c, PieceType::Bishop)).plus(
        mobility_part(q, c, PieceType::Rook),
    ).plus(mobility_part(q, c, PieceType::Queen))
}

/// The mobility of the pieces of one type.
pub open spec fn mobility_part(q: Pos, c: Color, pt: PieceType) -> Pair {
    sum_term(Mobility { pt }, q, c, q.pieces(c, pt))
}

fn mobility(board: &Board, c: Color) -> (r: Score)
    requires
        board.wf(),
    ensures
        r@ == mobility_of(bare(board@), c),
        r@.within(2_560_000),
{
    let n = sum_squares(
        board,
        c,
        squares_of(board, c, PieceType::Knight),
        &Mobility { pt: PieceType::Knight },
    );
    let b = sum_squares(
        board,
        c,
        squares_of(board, c, PieceType::Bishop),
        &Mobility { pt: PieceType::Bishop },
    );
    let r = sum_squares(
        board,
        c,
        squares_of(board, c, PieceType::Rook),
        &Mobility { pt: PieceType::Rook },
    );
    let q = sum_squares(
        board,
        c,
        squares_of(board, c, PieceType::Queen),
        &Mobility { pt: PieceType::Queen },
    );
    n.plus(b).plus(r).plus(q)
}

/// Square `t` is the king's square `k` or one next to it.
pub open spec fn in_zone(k: int, t: int) -> bool {
    t == k || king_step(k, t)
}

/// The penalty for an enemy piece that attacks the king's zone.
pub open spec fn zone_penalty(pt: PieceType) -> Pair {
    match pt {
        PieceType::Rook => Pair { mg: -3, eg: 0 },
        PieceType::Queen => Pair { mg: -5, eg: 0 },
        _ => Pair { mg: -2, eg: 0 },
    }
}

/// The penalty for each piece that attacks a square in the zone of the enemy
/// king.
pub struct ZoneAttack {
    pub pt: PieceType,
    pub king: Square,
}

impl PieceTerm for ZoneAttack {
    open spec fn fits(self, q: Pos, c: Color) -> bool {
        self.king.ok()
    }

    open spec fn value(self, q: Pos, c: Color, s: Square) -> Pair {
        if exists|t: int| #[trigger]
            in_zone(self.king.0 as int, t) && hits(q, c, self.pt, s.0 as int, t) {
            zone_penalty(self.pt)
        } else {
            Pair::zero()
        }
    }

    fn compute(&self, board: &Board, c: Color, s: Square) -> (r: Score) {
        let ghost q = bare(board@);
        let zone = king_attacks(self.king).or(Bitboard::from_square(self.king));
        let pressed = attacks_of(board, c, self.pt, s).and(zone);
        if pressed.any() {
            proof {
                let t = choose|t: int| #[trigger] pressed.has(t);
                assert(zone.has(t) && in_zone(self.king.0 as int, t));
            }
            match self.pt {
                PieceType::Rook => Score::new(-3, 0),
                PieceType::Queen => Score::new(-5, 0),
                _ => Score::new(-2, 0),
            }
        } else {
            proof {
                assert forall|t: int| #[trigger] in_zone(self.king.0 as int, t) implies !hits(
                    q,
                    c,
                    self.pt,
                    s.0 as int,
                    t,
                ) by {
                    assert(zone.has(t));
                    assert(!pressed.has(t));
                }
            }
            Score::zero()
        }
    }
}

/// The enemy pieces of one type that attack the zone of the king on `k`.
pub open spec fn zone_part(q: Pos, c: Color, pt: PieceType, k: Square) -> Pair {
    sum_term(ZoneAttack { pt, king: k }, q, c.other(), q.pieces(c.other(), pt))
}

/// Square `i` holds a pawn of the king's side one or two ranks in front of the
/// king, on its file or an adjacent one.
pub open spec fn shields(q: Pos, c: Color, k: Square, i: int) -> bool {
    let d = match c {
        Color::White => i / 8 - k.r(),
        Color::Black => k.r() - i / 8,
    };
    &&& q.holds(c, PieceType::Pawn, i)
    &&& (i % 8 == k.f() || next_to(i % 8, k.f()))
    &&& (d == 1 || d == 2)
}

/// No pawn of color `c` stands on the file.
pub open spec fn no_pawn_on(q: Pos, c: Color, file: int) -> bool {
    forall|i: int| #[trigger] q.holds(c, PieceType::Pawn, i) ==> i % 8 != file
}

/// The penalty for an open or half-open file at the king.
pub open spec fn king_file(q: Pos, c: Color, file: int) -> Pair {
    if 0 <= file < 8 && no_pawn_on(q, c, file) {
        if no_pawn_on(q, c.other(), file) {
            Pair { mg: -15, eg: 0 }
        } else {
            Pair { mg: -7, eg: 0 }
        }
    } else {
        Pair::zero()
    }
}

/// King safety of one side: the pawn shield, open files at the king, and the
/// enemy pieces that attack its zone.
pub open spec fn king_safety_of(q: Pos, c: Color) -> Pair {
    match q.king(c) {
        None => Pair::zero(),
        Some(k) => Pair { mg: 9, eg: 0 }.times(count_where(|i: int| shields(q, c, k, i))).plus(
            king_file(q, c, k.f() - 1),
        ).plus(king_file(q, c, k.f())).plus(king_file(q, c, k.f() + 1)).plus(
            zone_part(q, c, PieceType::Knight, k),
        ).plus(zone_part(q, c, PieceType::Bishop, k)).plus(
            zone_part(q, c, PieceType::Rook, k),
        ).plus(zone_part(q, c, PieceType::Queen, k)),
    }
}

/// The king's square, as the terms see it.
fn king_of(board: &Board, c: Color) -> (r: Option<Square>)
    requires
        board.wf(),
    ensures
        r == bare(board@).king(c),
        r matches Some(k) ==> k.ok(),
{
    proof {
        lemma_in_check_ext(board@, bare(board@), c);
    }
    board.king_square(c)
}

/// True when no pawn of color `c` stands on the file.
fn is_file_free(board: &Board, c: Color, file: u8) -> (r: bool)
    requires
        board.wf(),
        file < 8,
    ensures
        r == no_pawn_on(bare(board@), c, file as int),
{
    let ghost q = bare(board@);
    let pawns = squares_of(board, c, PieceType::Pawn);
    let on = pawns.and(file_bb(file));
    let r = on.is_empty();
    proof {
        if r {
            assert forall|i: int| #[trigger] q.holds(c, PieceType::Pawn, i) implies i % 8 != file by {
                assert(pawns.has(i));
                assert(!on.has(i));
            }
        } else {
            let i = choose|i: int| #[trigger] on.has(i);
            assert(q.holds(c, PieceType::Pawn, i));
        }
    }
    r
}

fn king_file_term(board: &Board, c: Color, file: i8) -> (r: Score)
    requires
        board.wf(),
        -1 <= file <= 8,
    ensures
        r@ == king_file(bare(board@), c, file as int),
        r@.within(15),
{
    if 0 <= file && file < 8 && is_file_free(board, c, file as u8) {
        if is_file_free(board, c.opposite(), file as u8) {
            Score::new(-15, 0)
        } else {
            Score::new(-7, 0)
        }
    } else {
        Score::zero()
    }
}

fn zone_term(board: &Board, c: Color, pt: PieceType, king: Square) -> (r: Score)
    requires
        board.wf(),
        king.ok(),
    ensures
        r@ == zone_part(bare(board@), c, pt, king),
        r@.within(640_000),
{
    let enemy = c.opposite();
    sum_squares(board, enemy, squares_of(board, enemy, pt), &ZoneAttack { pt, king })
}

/// The number of pawns that shield the king on `k`.
fn count_shield(board: &Board, c: Color, k: Square) -> (r: u32)
    requires
        board.wf(),
        k.ok(),
    ensures
        r == count_where(|i: int| shields(bare(board@), c, k, i)),
        r <= 64,
{
    let ghost q = bare(board@);
    let pawns = squares_of(board, c, PieceType::Pawn);
    let files = file_bb(k.file()).or(adjacent_files_bb(k.file()));
    let rank: u8 = k.rank();
    let mut zone = Bitboard::empty();
    match c {
        Color::White => {
            if rank + 1 < 8 {
                zone = zone.or(rank_bb(rank + 1));
            }
            if rank + 2 < 8 {
                zone = zone.or(rank_bb(rank + 2));
            }
        },
        Color::Black => {
            if rank >= 1 {
                zone = zone.or(rank_bb(rank - 1));
            }
            if rank >= 2 {
                zone = zone.or(rank_bb(rank - 2));
            }
        },
    }
    let shield = pawns.and(files).and(zone);
    proof {
        lemma_count_where(shield, |i: int| shields(q, c, k, i));
    }
    shield.count()
}

fn king_safety(board: &Board, c: Color) -> (r: Score)
    requires
        board.wf(),
    ensures
        r@ == king_safety_of(bare(board@), c),
        r@.within(2_600_000),
{
    match king_of(board, c) {
        None => Score::zero(),
        Some(k) => {
            let f: i8 = k.file() as i8;
            let shield = scaled(Score::new(9, 0), count_shield(board, c, k));
            let left = king_file_term(board, c, f - 1);
            let mid = king_file_term(board, c, f);
            let right = king_file_term(board, c, f + 1);
            let n = zone_term(board, c, PieceType::Knight, k);
            let b = zone_term(board, c, PieceType::Bishop, k);
            let r = zone_term(board, c, PieceType::Rook, k);
            let q = zone_term(board, c, PieceType::Queen, k);
            shield.plus(left).plus(mid).plus(right).plus(n).plus(b).plus(r).plus(q)
        },
    }
}

/// Two bishops cover both square colors.
pub open spec fn bishop_pair_of(q: Pos, c: Color) -> Pair {
    if q.pieces(c, PieceType::Bishop).len() >= 2 {
        Pair { mg: 30, eg: 50 }
    } else {
        Pair::zero()
    }
}

fn bishop_pair(board: &Board, c: Color) -> (r: Score)
    requires
        board.wf(),
    ensures
        r@ == bishop_pair_of(bare(board@), c),
        r@.within(50),
{
    if squares_of(board, c, PieceType::Bishop).count() >= 2 {
        Score::new(30, 50)
    } else {
        Score::zero()
    }
}

/// The square is a light one.
pub open spec fn light(i: int) -> bool {
    (i % 8 + i / 8) % 2 == 1
}

/// Bad bishop: a penalty for each own pawn on squares of the bishop's color.
pub struct BadBishop {}

/// The own pawns that stand on squares of the color of `s`.
pub open spec fn same_shade(q: Pos, c: Color, s: Square) -> int {
    count_where(|i: int| q.holds(c, PieceType::Pawn, i) && light(i) == light(s.0 as int))
}

impl PieceTerm for BadBishop {
    open spec fn fits(self, q: Pos, c: Color) -> bool {
        true
    }

    open spec fn value(self, q: Pos, c: Color, s: Square) -> Pair {
        Pair { mg: -3, eg: -6 }.times(same_shade(q, c, s))
    }

    fn compute(&self, board: &Board, c: Color, s: Square) -> (r: Score) {
        let ghost q = bare(board@);
        let pawns = squares_of(board, c, PieceType::Pawn);
        let shade = Bitboard(
            if (s.file() + s.rank()) % 2 == 1 {
                LIGHT_SQUARES
            } else {
                DARK_SQUARES
            },
        );
        let same = pawns.and(shade);
        proof {
            lemma_shades();
            lemma_count_where(
                same,
                |i: int| q.holds(c, PieceType::Pawn, i) && light(i) == light(s.0 as int),
            );
        }
        scaled(Score::new(-3, -6), same.count())
    }
}

/// The light squares.
pub const LIGHT_SQUARES: u64 = 0x55AA_55AA_55AA_55AA;

/// The dark squares.
pub const DARK_SQUARES: u64 = 0xAA55_AA55_AA55_AA55;

proof fn bv_shades(i: u64)
    by (bit_vector)
    requires
        i < 64,
    ensures
        ((0x55AA_55AA_55AA_55AAu64 >> i) & 1u64 == 1u64) == ((i % 8 + i / 8) % 2 == 1),
        ((0xAA55_AA55_AA55_AA55u64 >> i) & 1u64 == 1u64) == ((i % 8 + i / 8) % 2 != 1),
{
}

proof fn lemma_shades()
    ensures
        forall|i: int| #[trigger] Bitboard(LIGHT_SQUARES).has(i) == (0 <= i < 64 && light(i)),
        forall|i: int| #[trigger] Bitboard(DARK_SQUARES).has(i) == (0 <= i < 64 && !light(i)),
{
    assert forall|i: int| #[trigger]
        Bitboard(LIGHT_SQUARES).has(i) == (0 <= i < 64 && light(i)) by {
        if 0 <= i < 64 {
            bv_shades(i as u64);
        }
    }
    assert forall|i: int| #[trigger]
        Bitboard(DARK_SQUARES).has(i) == (0 <= i < 64 && !light(i)) by {
        if 0 <= i < 64 {
            bv_shades(i as u64);
        }
    }
}

fn bad_bishop(board: &Board, c: Color) -> (r: Score)
    requires
        board.wf(),
    ensures
        r@ == bad_bishop_of(bare(board@), c),
        r@.within(640_000),
{
    sum_squares(board, c, squares_of(board, c, PieceType::Bishop), &BadBishop {  })
}

/// The bad bishops of one side.
pub open spec fn bad_bishop_of(q: Pos, c: Color) -> Pair {
    sum_term(BadBishop {  }, q, c, q.pieces(c, PieceType::Bishop))
}

/// `s` is an outpost for `c`: it lies in the opponent's half, an own pawn
/// defends it, and no enemy pawn ahead on an adjacent file can challenge it.
pub open spec fn outpost(q: Pos, c: Color, s: Square) -> bool {
    &&& (match c {
        Color::White => s.r() >= 4,
        Color::Black => s.r() <= 3,
    })
    &&& exists|i: int| #[trigger]
        q.holds(c, PieceType::Pawn, i) && pawn_step(c.other(), s.0 as int, i)
    &&& forall|i: int| #[trigger]
        q.holds(c.other(), PieceType::Pawn, i) && ahead(c, s.r(), i) ==> !next_to(i % 8, s.f())
}

/// The bonus for a knight or bishop on an outpost.
pub struct Outpost {
    pub knight: bool,
}

impl PieceTerm for Outpost {
    open spec fn fits(self, q: Pos, c: Color) -> bool {
        true
    }

    open spec fn value(self, q: Pos, c: Color, s: Square) -> Pair {
        if outpost(q, c, s) {
            if self.knight {
                Pair { mg: 25, eg: 12 }
            } else {
                Pair { mg: 12, eg: 6 }
            }
        } else {
            Pair::zero()
        }
    }

    fn compute(&self, board: &Board, c: Color, s: Square) -> (r: Score) {
        if is_outpost(board, c, s) {
            if self.knight {
                Score::new(25, 12)
            } else {
                Score::new(12, 6)
            }
        } else {
            Score::zero()
        }
    }
}

/// True if `s` is an outpost for `c`.
fn is_outpost(board: &Board, c: Color, s: Square) -> (r: bool)
    requires
        board.wf(),
        s.ok(),
    ensures
        r == outpost(bare(board@), c, s),
{
    let ghost q = bare(board@);
    let rank: u8 = s.rank();
    match c {
        Color::White => {
            if rank < 4 {
                return false;
            }
        },
        Color::Black => {
            if rank > 3 {
                return false;
            }
        },
    }
    let own = squares_of(board, c, PieceType::Pawn);
    let enemy = squares_of(board, c.opposite(), PieceType::Pawn);
    let support = own.and(pawn_attacks(c.opposite(), s));
    if support.is_empty() {
        proof {
            assert forall|i: int| #[trigger] q.holds(c, PieceType::Pawn, i) implies !pawn_step(
                c.other(),
                s.0 as int,
                i,
            ) by {
                assert(own.has(i));
                assert(!support.has(i));
            }
        }
        return false;
    }
    let challengers = enemy.and(adjacent_files_bb(s.file()).and(forward_ranks(c, rank)));
    let r = challengers.is_empty();
    proof {
        let i = choose|i: int| #[trigger] support.has(i);
        assert(q.holds(c, PieceType::Pawn, i) && pawn_step(c.other(), s.0 as int, i));
        if r {
            assert forall|i: int| #[trigger]
                q.holds(c.other(), PieceType::Pawn, i) && ahead(c, s.r(), i) implies !next_to(
                i % 8,
                s.f(),
            ) by {
                assert(enemy.has(i));
                assert(!challengers.has(i));
            }
        } else {
            let j = choose|j: int| #[trigger] challengers.has(j);
            assert(q.holds(c.other(), PieceType::Pawn, j));
        }
    }
    r
}

/// The outposts of one side.
pub open spec fn outposts_of(q: Pos, c: Color) -> Pair {
    sum_term(Outpost { knight: true }, q, c, q.pieces(c, PieceType::Knight)).plus(
        sum_term(Outpost { knight: false }, q, c, q.pieces(c, PieceType::Bishop)),
    )
}

fn outpost_bonus(board: &Board, c: Color) -> (r: Score)
    requires
        board.wf(),
    ensures
        r@ == outposts_of(bare(board@), c),
        r@.within(1_280_000),
{
    let n = sum_squares(
        board,
        c,
        squares_of(board, c, PieceType::Knight),
        &Outpost { knight: true },
    );
    let b = sum_squares(
        board,
        c,
        squares_of(board, c, PieceType::Bishop),
        &Outpost { knight: false },
    );
    n.plus(b)
}

/// Rook activity: open and half-open files, and the seventh rank.
pub struct RookActivity {}

impl PieceTerm for RookActivity {
    open spec fn fits(self, q: Pos, c: Color) -> bool {
        true
    }

    open spec fn value(self, q: Pos, c: Color, s: Square) -> Pair {
        (if no_pawn_on(q, c, s.f()) {
            if no_pawn_on(q, c.other(), s.f()) {
                Pair { mg: 25, eg: 12 }
            } else {
                Pair { mg: 12, eg: 6 }
            }
        } else {
            Pair::zero()
        }).plus(
            if rel_rank(c, s.r()) == 6 {
                Pair { mg: 10, eg: 20 }
            } else {
                Pair::zero()
            },
        )
    }

    fn compute(&self, board: &Board, c: Color, s: Square) -> (r: Score) {
        let mut score = Score::zero();
        if is_file_free(board, c, s.file()) {
            if is_file_free(board, c.opposite(), s.file()) {
                score = score.plus(Score::new(25, 12));
            } else {
                score = score.plus(Score::new(12, 6));
            }
        }
        let seventh: u8 = match c {
            Color::White => 6,
            Color::Black => 1,
        };
        if s.rank() == seventh {
            score = score.plus(Score::new(10, 20));
        }
        score
    }
}

/// The rook activity of one side.
pub open spec fn rooks_of(q: Pos, c: Color) -> Pair {
    sum_term(RookActivity {  }, q, c, q.pieces(c, PieceType::Rook))
}

fn rook_activity(board: &Board, c: Color) -> (r: Score)
    requires
        board.wf(),
    ensures
        r@ == rooks_of(bare(board@), c),
        r@.within(640_000),
{
    sum_squares(board, c, squares_of(board, c, PieceType::Rook), &RookActivity {  })
}

/// A knight or bishop of color `c` attacks `t`.
pub open spec fn minor_hit(q: Pos, c: Color, t: int) -> bool {
    hit(q, c, PieceType::Knight, t) || hit(q, c, PieceType::Bishop, t)
}

/// A knight or bishop of color `c` stands on `t`.
pub open spec fn minor_at(q: Pos, c: Color, t: int) -> bool {
    q.holds(c, PieceType::Knight, t) || q.holds(c, PieceType::Bishop, t)
}

/// Threats: pieces of lower value that attack enemy pieces of higher value.
pub open spec fn threats_of(q: Pos, c: Color) -> Pair {
    let e = c.other();
    Pair { mg: 35, eg: 25 }.times(
        count_where(|t: int| hit(q, c, PieceType::Pawn, t) && minor_at(q, e, t)),
    ).plus(
        Pair { mg: 45, eg: 25 }.times(
            count_where(
                |t: int| hit(q, c, PieceType::Pawn, t) && q.holds(e, PieceType::Rook, t),
            ),
        ),
    ).plus(
        Pair { mg: 55, eg: 30 }.times(
            count_where(
                |t: int| hit(q, c, PieceType::Pawn, t) && q.holds(e, PieceType::Queen, t),
            ),
        ),
    ).plus(
        Pair { mg: 20, eg: 15 }.times(
            count_where(|t: int| minor_hit(q, c, t) && q.holds(e, PieceType::Rook, t)),
        ),
    ).plus(
        Pair { mg: 25, eg: 20 }.times(
            count_where(|t: int| minor_hit(q, c, t) && q.holds(e, PieceType::Queen, t)),
        ),
    ).plus(
        Pair { mg: 15, eg: 15 }.times(
            count_where(
                |t: int| hit(q, c, PieceType::Rook, t) && q.holds(e, PieceType::Queen, t),
            ),
        ),
    )
}

fn threats(board: &Board, c: Color) -> (r: Score)
    requires
        board.wf(),
    ensures
        r@ == threats_of(bare(board@), c),
        r@.within(60_000),
{
    let ghost q = bare(board@);
    let e = c.opposite();
    let pawn_atk = attack_map(board, c, PieceType::Pawn);
    let minor_atk = attack_map(board, c, PieceType::Knight).or(
        attack_map(board, c, PieceType::Bishop),
    );
    let rook_atk = attack_map(board, c, PieceType::Rook);
    let enemy_minor = squares_of(board, e, PieceType::Knight).or(
        squares_of(board, e, PieceType::Bishop),
    );
    let enemy_rook = squares_of(board, e, PieceType::Rook);
    let enemy_queen = squares_of(board, e, PieceType::Queen);
    let pm = pawn_atk.and(enemy_minor);
    let pr = pawn_atk.and(enemy_rook);
    let pq = pawn_atk.and(enemy_queen);
    let mr = minor_atk.and(enemy_rook);
    let mq = minor_atk.and(enemy_queen);
    let rq = rook_atk.and(enemy_queen);
    proof {
        lemma_count_where(pm, |t: int| hit(q, c, PieceType::Pawn, t) && minor_at(q, e, t));
        lemma_count_where(
            pr,
            |t: int| hit(q, c, PieceType::Pawn, t) && q.holds(e, PieceType::Rook, t),
        );
        lemma_count_where(
            pq,
            |t: int| hit(q, c, PieceType::Pawn, t) && q.holds(e, PieceType::Queen, t),
        );
        lemma_count_where(mr, |t: int| minor_hit(q, c, t) && q.holds(e, PieceType::Rook, t));
        lemma_count_where(mq, |t: int| minor_hit(q, c, t) && q.holds(e, PieceType::Queen, t));
        lemma_count_where(
            rq,
            |t: int| hit(q, c, PieceType::Rook, t) && q.holds(e, PieceType::Queen, t),
        );
    }
    let a = scaled(Score::new(35, 25), pm.count());
    let b = scaled(Score::new(45, 25), pr.count());
    let d = scaled(Score::new(55, 30), pq.count());
    let f = scaled(Score::new(20, 15), mr.count());
    let g = scaled(Score::new(25, 20), mq.count());
    let h = scaled(Score::new(15, 15), rq.count());
    a.plus(b).plus(d).plus(f).plus(g).plus(h)
}

/// A pawn of color `c` on one of the files b to g has passed the fourth rank.
pub open spec fn advanced(q: Pos, c: Color, i: int) -> bool {
    q.holds(c, PieceType::Pawn, i) && 1 <= i % 8 <= 6 && rel_rank(c, i / 8) >= 4
}

/// Space: a bonus for each advanced pawn.
pub open spec fn space_of(q: Pos, c: Color) -> Pair {
    Pair { mg: 4, eg: 0 }.times(count_where(|i: int| advanced(q, c, i)))
}

fn space(board: &Board, c: Color) -> (r: Score)
    requires
        board.wf(),
    ensures
        r@ == space_of(bare(board@), c),
        r@.within(9600),
{
    let ghost q = bare(board@);
    let pawns = squares_of(board, c, PieceType::Pawn);
    let zone = match c {
        Color::White => forward_ranks(c, 3),
        Color::Black => forward_ranks(c, 4),
    };
    let rim = file_bb(0).or(file_bb(7));
    let far = pawns.and(zone).and(rim.complement());
    proof {
        lemma_count_where(far, |i: int| advanced(q, c, i));
    }
    scaled(Score::new(4, 0), far.count())
}

/// A penalty for a bishop with no or only one square to go to.
pub struct TrappedBishop {}

impl PieceTerm for TrappedBishop {
    open spec fn fits(self, q: Pos, c: Color) -> bool {
        true
    }

    open spec fn value(self, q: Pos, c: Color, s: Square) -> Pair {
        let n = reach_count(q, c, PieceType::Bishop, s);
        if n == 0 {
            Pair { mg: -50, eg: -50 }
        } else if n == 1 {
            Pair { mg: -25, eg: -25 }
        } else {
            Pair::zero()
        }
    }

    fn compute(&self, board: &Board, c: Color, s: Square) -> (r: Score) {
        let n: u32 = count_reach(board, c, PieceType::Bishop, s);
        if n == 0 {
            Score::new(-50, -50)
        } else if n == 1 {
            Score::new(-25, -25)
        } else {
            Score::zero()
        }
    }
}

/// A penalty for a knight on the a- or h-file.
pub struct RimKnight {}

impl PieceTerm for RimKnight {
    open spec fn fits(self, q: Pos, c: Color) -> bool {
        true
    }

    open spec fn value(self, q: Pos, c: Color, s: Square) -> Pair {
        if s.f() == 0 || s.f() == 7 {
            Pair { mg: -15, eg: -10 }
        } else {
            Pair::zero()
        }
    }

    fn compute(&self, board: &Board, c: Color, s: Square) -> (r: Score) {
        if s.file() == 0 || s.file() == 7 {
            Score::new(-15, -10)
        } else {
            Score::zero()
        }
    }
}

/// The trapped pieces of one side.
pub open spec fn trapped_of(q: Pos, c: Color) -> Pair {
    sum_term(TrappedBishop {  }, q, c, q.pieces(c, PieceType::Bishop)).plus(
        sum_term(RimKnight {  }, q, c, q.pieces(c, PieceType::Knight)),
    )
}

fn trapped_pieces(board: &Board, c: Color) -> (r: Score)
    requires
        board.wf(),
    ensures
        r@ == trapped_of(bare(board@), c),
        r@.within(1_280_000),
{
    let b = sum_squares(board, c, squares_of(board, c, PieceType::Bishop), &TrappedBishop {  });
    let n = sum_squares(board, c, squares_of(board, c, PieceType::Knight), &RimKnight {  });
    b.plus(n)
}

/// Material and place of the pieces of one type.
pub open spec fn placement_part(q: Pos, c: Color, pt: PieceType) -> Pair {
    sum_term(Placement { pt }, q, c, q.pieces(c, pt))
}

/// Material and place of the pieces of one side.
pub open spec fn placement_of(q: Pos, c: Color) -> Pair {
    placement_part(q, c, PieceType::Pawn).plus(placement_part(q, c, PieceType::Knight)).plus(
        placement_part(q, c, PieceType::Bishop),
    ).plus(placement_part(q, c, PieceType::Rook)).plus(
        placement_part(q, c, PieceType::Queen),
    ).plus(placement_part(q, c, PieceType::King))
}

fn placement_term(board: &Board, c: Color, pt: PieceType) -> (r: Score)
    requires
        board.wf(),
    ensures
        r@ == placement_part(bare(board@), c, pt),
        r@.within(640_000),
{
    sum_squares(board, c, squares_of(board, c, pt), &Placement { pt })
}

fn placement(board: &Board, c: Color) -> (r: Score)
    requires
        board.wf(),
    ensures
        r@ == placement_of(bare(board@), c),
        r@.within(3_840_000),
{
    let p = placement_term(board, c, PieceType::Pawn);
    let n = placement_term(board, c, PieceType::Knight);
    let b = placement_term(board, c, PieceType::Bishop);
    let r = placement_term(board, c, PieceType::Rook);
    let q = placement_term(board, c, PieceType::Queen);
    let k = placement_term(board, c, PieceType::King);
    p.plus(n).plus(b).plus(r).plus(q).plus(k)
}

/// Everything that is counted for one side alone.
#[verifier::opaque]
pub open spec fn side_total(q: Pos, c: Color) -> Pair {
    placement_of(q, c).plus(mobility_of(q, c)).plus(king_safety_of(q, c)).plus(
        bishop_pair_of(q, c),
    ).plus(bad_bishop_of(q, c)).plus(outposts_of(q, c)).plus(rooks_of(q, c)).plus(
        threats_of(q, c),
    ).plus(space_of(q, c)).plus(trapped_of(q, c))
}

fn side_score(board: &Board, c: Color) -> (r: Score)
    requires
        board.wf(),
    ensures
        r@ == side_total(bare(board@), c),
        r@.within(14_000_000),
{
    let a = placement(board, c);
    let b = mobility(board, c);
    let d = king_safety(board, c);
    let e = bishop_pair(board, c);
    let f = bad_bishop(board, c);
    let g = outpost_bonus(board, c);
    let h = rook_activity(board, c);
    let i = threats(board, c);
    let j = space(board, c);
    let k = trapped_pieces(board, c);
    proof {
        reveal(side_total);
    }
    a.plus(b).plus(d).plus(e).plus(f).plus(g).plus(h).plus(i).plus(j).plus(k)
}

/// The game phase that the pieces of one type on both sides add.
pub open spec fn phase_part(q: Pos, pt: PieceType) -> int {
    phase_weight(pt) * (q.pieces(Color::White, pt).len() + q.pieces(Color::Black, pt).len())
}

/// The game phase: how much material is on the board.
pub open spec fn phase_of(q: Pos) -> int {
    phase_part(q, PieceType::Knight) + phase_part(q, PieceType::Bishop) + phase_part(
        q,
        PieceType::Rook,
    ) + phase_part(q, PieceType::Queen)
}

fn phase_term(board: &Board, pt: PieceType) -> (r: i32)
    requires
        board.wf(),
    ensures
        r == phase_part(bare(board@), pt),
        0 <= r <= 512,
{
    let n: i32 = squares_of(board, Color::White, pt).count() as i32 + squares_of(
        board,
        Color::Black,
        pt,
    ).count() as i32;
    let w: i32 = phase_value(pt);
    proof {
        assert(0 <= w * n <= 512) by (nonlinear_arith)
            requires
                0 <= w <= 4,
                0 <= n <= 128,
        ;
    }
    w * n
}

/// The larger of two numbers.
pub open spec fn max_of(a: int, b: int) -> int {
    if a >= b {
        a
    } else {
        b
    }
}

/// The size of a number.
pub open spec fn size(a: int) -> int {
    if a >= 0 {
        a
    } else {
        -a
    }
}

/// The number of king's steps between two squares.
pub open spec fn king_distance(a: Square, b: Square) -> int {
    max_of(size(a.f() - b.f()), size(a.r() - b.r()))
}

/// The distance of a square from the nearest edge.
pub open spec fn edge_distance(s: Square) -> int {
    let df = if s.f() <= 7 - s.f() {
        s.f()
    } else {
        7 - s.f()
    };
    let dr = if s.r() <= 7 - s.r() {
        s.r()
    } else {
        7 - s.r()
    };
    if df <= dr {
        df
    } else {
        dr
    }
}

/// What a side that is ahead by `cp` gains by driving the other king to the
/// edge and bringing its own king close, the more the fewer pieces are left.
pub open spec fn mop_up(q: Pos, phase: int, cp: int) -> int {
    match (q.king(Color::White), q.king(Color::Black)) {
        (Some(wk), Some(bk)) => {
            if size(cp) >= 400 {
                let losing = if cp > 0 {
                    bk
                } else {
                    wk
                };
                let corner = 4 * (3 - edge_distance(losing));
                let approach = 2 * (7 - king_distance(wk, bk));
                let raw = tdiv((corner + approach) * max_of(24 - phase, 0), 24);
                if cp > 0 {
                    raw
                } else {
                    -raw
                }
            } else {
                0
            }
        },
        _ => 0,
    }
}

fn abs_diff(a: u8, b: u8) -> (r: i32)
    ensures
        r == size(a - b),
{
    if a >= b {
        (a - b) as i32
    } else {
        (b - a) as i32
    }
}

/// Chebyshev distance between two squares: max(|file|, |rank|) difference.
fn chebyshev(a: Square, b: Square) -> (r: i32)
    requires
        a.ok(),
        b.ok(),
    ensures
        r == king_distance(a, b),
        0 <= r <= 7,
{
    let df: i32 = abs_diff(a.file(), b.file());
    let dr: i32 = abs_diff(a.rank(), b.rank());
    if df >= dr {
        df
    } else {
        dr
    }
}

/// Distance of `sq` from the nearest edge of the board: 0 at the edge, 3 in the
/// center.
fn corner_distance(sq: Square) -> (r: i32)
    requires
        sq.ok(),
    ensures
        r == edge_distance(sq),
        0 <= r <= 3,
{
    let f: i32 = sq.file() as i32;
    let k: i32 = sq.rank() as i32;
    let df: i32 = if f <= 7 - f {
        f
    } else {
        7 - f
    };
    let dr: i32 = if k <= 7 - k {
        k
    } else {
        7 - k
    };
    if df <= dr {
        df
    } else {
        dr
    }
}

/// Endgame mop-up evaluation, applied to the tapered score.
fn mop_up_eval(board: &Board, phase: i32, centipawns: i32) -> (r: i32)
    requires
        board.wf(),
        0 <= phase <= 10_000,
        -40_000_000 <= centipawns <= 40_000_000,
    ensures
        r == mop_up(bare(board@), phase as int, centipawns as int),
        -100 <= r <= 100,
{
    let eg_frac: i32 = if 24 - phase >= 0 {
        24 - phase
    } else {
        0
    };
    let (wk, bk) = match (king_of(board, Color::White), king_of(board, Color::Black)) {
        (Some(w), Some(b)) => (w, b),
        _ => {
            return 0;
        },
    };
    if centipawns >= 400 || centipawns <= -400 {
        let losing = if centipawns > 0 {
            bk
        } else {
            wk
        };
        let corner: i32 = 4 * (3 - corner_distance(losing));
        let approach: i32 = 2 * (7 - chebyshev(wk, bk));
        let sum: i32 = corner + approach;
        proof {
            assert(0 <= sum * eg_frac <= 26 * 24) by (nonlinear_arith)
                requires
                    0 <= sum <= 26,
                    0 <= eg_frac <= 24,
            ;
        }
        let raw: i32 = div_toward_zero(sum * eg_frac, 24);
        if centipawns > 0 {
            raw
        } else {
            -raw
        }
    } else {
        0
    }
}

/// The evaluation from White's point of view.
pub open spec fn white_eval(q: Pos) -> int {
    let s = side_total(q, Color::White).minus(side_total(q, Color::Black)).plus(pawns_value(q));
    let cp = tapered(s, phase_of(q));
    cp + mop_up(q, phase_of(q), cp)
}

/// The evaluation from the point of view of the side to move.
pub open spec fn eval_score(p: Pos) -> int {
    match p.side {
        Color::White => white_eval(bare(p)),
        Color::Black => -white_eval(bare(p)),
    }
}

/// Static evaluation in centipawns, from the perspective of the side to move.
///
/// Positive: side to move is better.  Negative: side to move is worse.
pub fn evaluate(board: &Board) -> (r: i32)
    requires
        board.wf(),
    ensures
        r == eval_score(board@),
        -40_000_100 <= r <= 40_000_100,
{
    let white = side_score(board, Color::White);
    let black = side_score(board, Color::Black);
    let score = white.minus(black).plus(evaluate_pawns(board));
    let phase: i32 = phase_term(board, PieceType::Knight) + phase_term(board, PieceType::Bishop)
        + phase_term(board, PieceType::Rook) + phase_term(board, PieceType::Queen);
    let tapered_score: i32 = taper(score, phase);
    let centipawns: i32 = tapered_score + mop_up_eval(board, phase, tapered_score);
    match board.side_to_move {
        Color::White => centipawns,
        Color::Black => -centipawns,
    }
}

/// What a position is worth to one side to move, it costs the other.
pub proof fn law_eval_sign_flip(p: Pos)
    ensures
        eval_score(Pos { side: Color::White, ..p }) == -eval_score(
            Pos { side: Color::Black, ..p },
        ),
{
}

/// The evaluation depends on the pieces and the side to move alone.
pub proof fn law_eval_depends_on_pieces(p: Pos, q: Pos)
    requires
        p.squares == q.squares,
        p.side == q.side,
    ensures
        eval_score(p) == eval_score(q),
{
}

} // verus!
