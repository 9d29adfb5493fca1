//! Pawn-structure evaluation: isolated, doubled, passed, connected passed and
//! candidate passed pawns.

use crate::board::bitboard::{lemma_list_is, pick, Bitboard};
use crate::board::piece::{Color, PieceType};
use crate::board::square::Square;
use crate::board::{Board, Pos};
use crate::eval::score::{Pair, Score};
use crate::eval::terms::{
    adjacent_files_bb, ahead, bare, count_where, file_bb, forward_ranks, lemma_count_where,
    next_to, rel_rank, relative_rank, scaled, squares_of, sum_squares, sum_term, PieceTerm,
};
use vstd::prelude::*;

verus! {

/// Passed-pawn bonuses by relative rank, middlegame.
pub const PASSED_MG: [i32; 8] = [0, 5, 10, 20, 35, 60, 100, 0];

/// Passed-pawn bonuses by relative rank, endgame.
pub const PASSED_EG: [i32; 8] = [0, 12, 22, 40, 68, 110, 160, 0];

/// What a passed pawn with a passed neighbour earns on top, middlegame.
pub const CONNECTED_PASSED_MG: [i32; 8] = [0, 2, 5, 10, 18, 30, 50, 0];

/// What a passed pawn with a passed neighbour earns on top, endgame.
pub const CONNECTED_PASSED_EG: [i32; 8] = [0, 5, 10, 20, 35, 60, 100, 0];

/// Candidate passed-pawn bonuses by relative rank, middlegame.
pub const CANDIDATE_MG: [i32; 8] = [0, 3, 6, 12, 20, 35, 60, 0];

/// Candidate passed-pawn bonuses by relative rank, endgame.
pub const CANDIDATE_EG: [i32; 8] = [0, 6, 12, 22, 40, 68, 100, 0];

/// No friendly pawn stands on an adjacent file.
pub open spec fn isolated(q: Pos, c: Color, s: Square) -> bool {
    forall|i: int| #[trigger] q.holds(c, PieceType::Pawn, i) ==> !next_to(i % 8, s.f())
}

/// No enemy pawn stands ahead on the same or an adjacent file.
pub open spec fn passed(q: Pos, c: Color, s: Square) -> bool {
    forall|i: int| #[trigger]
        q.holds(c.other(), PieceType::Pawn, i) && ahead(c, s.r(), i) ==> i % 8 != s.f() && !next_to(
            i % 8,
            s.f(),
        )
}

/// No enemy pawn stands ahead on the same file.
pub open spec fn file_clear(q: Pos, c: Color, s: Square) -> bool {
    forall|i: int| #[trigger]
        q.holds(c.other(), PieceType::Pawn, i) && ahead(c, s.r(), i) ==> i % 8 != s.f()
}

/// What a single pawn is worth beyond its place.
pub struct PawnShape {}

impl PieceTerm for PawnShape {
    open spec fn fits(self, q: Pos, c: Color) -> bool {
        true
    }

    /// A penalty for an isolated pawn; a bonus for a passed one, and a smaller
    /// one for a candidate, that is one kept back on adjacent files only.
    open spec fn value(self, q: Pos, c: Color, s: Square) -> Pair {
        let r = rel_rank(c, s.r());
        (if isolated(q, c, s) {
            Pair { mg: -12, eg: -18 }
        } else {
            Pair::zero()
        }).plus(
            if passed(q, c, s) {
                Pair { mg: PASSED_MG[r] as int, eg: PASSED_EG[r] as int }
            } else if file_clear(q, c, s) {
                Pair { mg: CANDIDATE_MG[r] as int, eg: CANDIDATE_EG[r] as int }
            } else {
                Pair::zero()
            },
        )
    }

    fn compute(&self, board: &Board, c: Color, s: Square) -> (r: Score) {
        let ghost q = bare(board@);
        let own = squares_of(board, c, PieceType::Pawn);
        let mut score = Score::zero();
        let file: u8 = s.file();
        let rank: u8 = s.rank();
        let neighbours = own.and(adjacent_files_bb(file));
        let alone = neighbours.is_empty();
        proof {
            assert(alone == isolated(q, c, s)) by {
                if alone {
                    assert forall|i: int| #[trigger] q.holds(c, PieceType::Pawn, i) implies !next_to(
                        i % 8,
                        s.f(),
                    ) by {
                        assert(own.has(i));
                        assert(!neighbours.has(i));
                    }
                } else {
                    let i = choose|i: int| #[trigger] neighbours.has(i);
                    assert(q.holds(c, PieceType::Pawn, i));
                }
            }
        }
        if alone {
            score = score.plus(Score::new(-12, -18));
        }
        let k: usize = relative_rank(c, rank);
        if is_passed(board, c, s) {
            score = score.plus(Score::new(PASSED_MG[k], PASSED_EG[k]));
        } else {
            let enemy = squares_of(board, c.opposite(), PieceType::Pawn);
            let blockers = enemy.and(file_bb(file).and(forward_ranks(c, rank)));
            let clear = blockers.is_empty();
            proof {
                assert(clear == file_clear(q, c, s)) by {
                    if clear {
                        assert forall|i: int| #[trigger]
                            q.holds(c.other(), PieceType::Pawn, i) && ahead(
                                c,
                                s.r(),
                                i,
                            ) implies i % 8 != s.f() by {
                            assert(enemy.has(i));
                            assert(!blockers.has(i));
                        }
                    } else {
                        let i = choose|i: int| #[trigger] blockers.has(i);
                        assert(q.holds(c.other(), PieceType::Pawn, i));
                    }
                }
            }
            if clear {
                score = score.plus(Score::new(CANDIDATE_MG[k], CANDIDATE_EG[k]));
            }
        }
        score
    }
}

/// True when no enemy pawn stands ahead on the same or an adjacent file.
fn is_passed(board: &Board, c: Color, s: Square) -> (r: bool)
    requires
        board.wf(),
        s.ok(),
    ensures
        r == passed(bare(board@), c, s),
{
    let ghost q = bare(board@);
    let file: u8 = s.file();
    let enemy = squares_of(board, c.opposite(), PieceType::Pawn);
    let zone = file_bb(file).or(adjacent_files_bb(file)).and(forward_ranks(c, s.rank()));
    let stoppers = enemy.and(zone);
    let r = stoppers.is_empty();
    proof {
        if r {
            assert forall|i: int| #[trigger]
                q.holds(c.other(), PieceType::Pawn, i) && ahead(c, s.r(), i) implies i % 8
                != s.f() && !next_to(i % 8, s.f()) by {
                assert(enemy.has(i));
                assert(!stoppers.has(i));
            }
        } else {
            let i = choose|i: int| #[trigger] stoppers.has(i);
            assert(q.holds(c.other(), PieceType::Pawn, i));
        }
    }
    r
}

/// A passed pawn of color `c` stands on `i`.
pub open spec fn passer(q: Pos, c: Color, i: int) -> bool {
    q.holds(c, PieceType::Pawn, i) && passed(q, c, Square(i as u8))
}

/// What a passed pawn gains from passed pawns on adjacent files.
pub struct Connected {
    pub passers: Bitboard,
}

impl PieceTerm for Connected {
    /// The set holds the passed pawns.
    open spec fn fits(self, q: Pos, c: Color) -> bool {
        forall|i: int| #[trigger] self.passers.has(i) == passer(q, c, i)
    }

    /// The bonus, where a passed pawn stands on an adjacent file.
    open spec fn value(self, q: Pos, c: Color, s: Square) -> Pair {
        if exists|i: int| #[trigger] passer(q, c, i) && next_to(i % 8, s.f()) {
            let r = rel_rank(c, s.r());
            Pair { mg: CONNECTED_PASSED_MG[r] as int, eg: CONNECTED_PASSED_EG[r] as int }
        } else {
            Pair::zero()
        }
    }

    fn compute(&self, board: &Board, c: Color, s: Square) -> (r: Score) {
        let ghost q = bare(board@);
        let friends = self.passers.and(adjacent_files_bb(s.file()));
        let k: usize = relative_rank(c, s.rank());
        if friends.any() {
            proof {
                let i = choose|i: int| #[trigger] friends.has(i);
                assert(self.passers.has(i) == passer(q, c, i));
            }
            Score::new(CONNECTED_PASSED_MG[k], CONNECTED_PASSED_EG[k])
        } else {
            proof {
                assert forall|i: int| #[trigger] passer(q, c, i) implies !next_to(
                    i % 8,
                    s.f(),
                ) by {
                    assert(self.passers.has(i) == passer(q, c, i));
                    assert(!friends.has(i));
                }
            }
            Score::zero()
        }
    }
}

/// The pawns of color `c` on a file.
pub open spec fn pawns_on(q: Pos, c: Color, file: int) -> int {
    count_where(|i: int| q.holds(c, PieceType::Pawn, i) && i % 8 == file)
}

/// The penalty for the pawns beyond the first on each of the first `n` files.
pub open spec fn doubled(q: Pos, c: Color, n: int) -> Pair
    decreases n,
{
    if n <= 0 {
        Pair::zero()
    } else {
        let k = pawns_on(q, c, n - 1);
        doubled(q, c, n - 1).plus(
            if k > 1 {
                Pair { mg: -10, eg: -22 }.times(k - 1)
            } else {
                Pair::zero()
            },
        )
    }
}

/// The pawn structure of one side.
#[verifier::opaque]
pub open spec fn pawn_structure(q: Pos, c: Color) -> Pair {
    sum_term(PawnShape {  }, q, c, q.pieces(c, PieceType::Pawn)).plus(doubled(q, c, 8)).plus(
        total_connected(q, c),
    )
}

/// The connected passed pawns of one side.
pub open spec fn total_connected(q: Pos, c: Color) -> Pair {
    crate::eval::terms::total(
        pick(|i: int| passer(q, c, i), 0),
        |s: Square|
            if exists|i: int| #[trigger] passer(q, c, i) && next_to(i % 8, s.f()) {
                let r = rel_rank(c, s.r());
                Pair { mg: CONNECTED_PASSED_MG[r] as int, eg: CONNECTED_PASSED_EG[r] as int }
            } else {
                Pair::zero()
            },
    )
}

proof fn lemma_total_ext(
    s: Seq<Square>,
    f: spec_fn(Square) -> Pair,
    g: spec_fn(Square) -> Pair,
)
    requires
        forall|x: Square| #[trigger] f(x) == g(x),
    ensures
        crate::eval::terms::total(s, f) == crate::eval::terms::total(s, g),
    decreases s.len(),
{
    if s.len() > 0 {
        lemma_total_ext(s.drop_first(), f, g);
        assert(f(s[0]) == g(s[0]));
    }
}

/// The set of passed pawns.
fn passed_pawns(board: &Board, c: Color) -> (r: Bitboard)
    requires
        board.wf(),
    ensures
        forall|i: int| #[trigger] r.has(i) == passer(bare(board@), c, i),
{
    let ghost q = bare(board@);
    let own = squares_of(board, c, PieceType::Pawn);
    let mut out = Bitboard::empty();
    let mut rest = own;
    while rest.any()
        invariant
            board.wf(),
            q == bare(board@),
            forall|i: int| #[trigger] own.has(i) == q.holds(c, PieceType::Pawn, i),
            forall|i: int| #[trigger] rest.has(i) ==> own.has(i),
            forall|i: int|
                #[trigger] out.has(i) == (own.has(i) && !rest.has(i) && passer(q, c, i)),
        decreases rest.list().len(),
    {
        let ghost before = rest;
        if let Some(s) = rest.pop_lsb() {
            proof {
                assert(before.has(s.0 as int));
                assert(Square(s.0 as int as u8) == s);
            }
            if is_passed(board, c, s) {
                out.set(s);
            }
        }
    }
    out
}

fn doubled_for(board: &Board, c: Color) -> (r: Score)
    requires
        board.wf(),
    ensures
        r@ == doubled(bare(board@), c, 8),
        r@.within(80_000),
{
    let ghost q = bare(board@);
    let own = squares_of(board, c, PieceType::Pawn);
    let mut score = Score::zero();
    let mut file: u8 = 0;
    while file < 8
        invariant
            file <= 8,
            forall|i: int| #[trigger] own.has(i) == q.holds(c, PieceType::Pawn, i),
            score@ == doubled(q, c, file as int),
            score@.within(9600 * file),
        decreases 8 - file,
    {
        let on_file = own.and(file_bb(file));
        let count: u32 = on_file.count();
        proof {
            lemma_count_where(
                on_file,
                |i: int| q.holds(c, PieceType::Pawn, i) && i % 8 == file as int,
            );
        }
        if count > 1 {
            score = score.plus(scaled(Score::new(-10, -22), count - 1));
        }
        file += 1;
    }
    score
}

/// The pawn structure of one side.
fn pawns_for(board: &Board, c: Color) -> (r: Score)
    requires
        board.wf(),
    ensures
        r@ == pawn_structure(bare(board@), c),
        r@.within(1_400_000),
{
    let ghost q = bare(board@);
    let shape = sum_squares(board, c, squares_of(board, c, PieceType::Pawn), &PawnShape {  });
    let dbl = doubled_for(board, c);
    let passers = passed_pawns(board, c);
    let term = Connected { passers };
    let linked = sum_squares(board, c, passers, &term);
    proof {
        lemma_list_is(passers, |i: int| passer(q, c, i));
        let f = |s: Square| term.value(q, c, s);
        let g = |s: Square|
            if exists|i: int| #[trigger] passer(q, c, i) && next_to(i % 8, s.f()) {
                let r = rel_rank(c, s.r());
                Pair { mg: CONNECTED_PASSED_MG[r] as int, eg: CONNECTED_PASSED_EG[r] as int }
            } else {
                Pair::zero()
            };
        lemma_total_ext(passers.list(), f, g);
        reveal(pawn_structure);
    }
    shape.plus(dbl).plus(linked)
}

/// The pawn structure, White's less Black's.
pub open spec fn pawns_value(q: Pos) -> Pair {
    pawn_structure(q, Color::White).minus(pawn_structure(q, Color::Black))
}

/// Pawn-structure score from White's perspective (White minus Black).
pub fn evaluate_pawns(board: &Board) -> (r: Score)
    requires
        board.wf(),
    ensures
        r@ == pawns_value(bare(board@)),
        r@.within(2_800_000),
{
    pawns_for(board, Color::White).minus(pawns_for(board, Color::Black))
}

} // verus!
