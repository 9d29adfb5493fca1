//! Pseudo-legal move generation: moves that follow the pieces' rules but may
//! leave the mover's king in check.

use crate::board::bitboard::{lemma_list_is, pick, Bitboard};
use crate::board::piece::{Color, PieceType};
use crate::board::square::Square;
use crate::board::{Board, CastlingRights, Pos};
use crate::movegen::attacks::{
    attacked, bishop_attacks, diagonal, is_square_attacked, king_attacks, king_step, knight_attacks,
    knight_step, lemma_occ_ext, occ_of, orthogonal, pawn_attacks, pawn_step, rook_attacks,
};
use crate::movegen::moves::{pack, Move, MoveFlag, MoveList};
use vstd::prelude::*;

verus! {

/// The moves that `f` gives for each of the squares, one after the other.
pub open spec fn flat(s: Seq<Square>, f: spec_fn(Square) -> Seq<Move>) -> Seq<Move>
    decreases s.len(),
{
    if s.len() == 0 {
        Seq::empty()
    } else {
        f(s[0]) + flat(s.drop_first(), f)
    }
}

/// The move to a square from the one `delta` below it.
pub open spec fn push_of(delta: int, flag: MoveFlag) -> spec_fn(Square) -> Seq<Move> {
    |t: Square| seq![pack(Square((t.0 - delta) as u8), t, flag)]
}

/// The four promotions from `from` to `to`.
pub open spec fn promotions(from: Square, to: Square, capture: bool) -> Seq<Move> {
    if capture {
        seq![
            pack(from, to, MoveFlag::PromoKnightCapture),
            pack(from, to, MoveFlag::PromoBishopCapture),
            pack(from, to, MoveFlag::PromoRookCapture),
            pack(from, to, MoveFlag::PromoQueenCapture),
        ]
    } else {
        seq![
            pack(from, to, MoveFlag::PromoKnight),
            pack(from, to, MoveFlag::PromoBishop),
            pack(from, to, MoveFlag::PromoRook),
            pack(from, to, MoveFlag::PromoQueen),
        ]
    }
}

/// The promotions on a square, coming from the one `delta` below it.
pub open spec fn promotions_of(delta: int, capture: bool) -> spec_fn(Square) -> Seq<Move> {
    |t: Square| promotions(Square((t.0 - delta) as u8), t, capture)
}

/// A capture where an enemy stands on the target, a quiet move elsewhere.
pub open spec fn step_of(p: Pos, us: Color, from: Square) -> spec_fn(Square) -> Seq<Move> {
    |t: Square|
        seq![
            pack(
                from,
                t,
                if p.owned(us.other(), t.0 as int) {
                    MoveFlag::Capture
                } else {
                    MoveFlag::Quiet
                },
            ),
        ]
}

/// The moves of a piece on `from` to the squares that it reaches, but for those
/// of its own side.
pub open spec fn step_moves(
    p: Pos,
    us: Color,
    from: Square,
    reach: spec_fn(int) -> bool,
) -> Seq<Move> {
    flat(pick(|t: int| reach(t) && !p.owned(us, t), 0), step_of(p, us, from))
}

/// How far a pawn of color `us` advances in one step.
pub open spec fn forward(us: Color) -> int {
    if us == Color::White {
        8
    } else {
        -8
    }
}

/// Square `t` lies on the rank where pawns of color `us` promote.
pub open spec fn on_promo_rank(us: Color, t: int) -> bool {
    t / 8 == (if us == Color::White {
        7int
    } else {
        0int
    })
}

/// A pawn of color `us` can advance one step to `t`.
pub open spec fn single_push(p: Pos, us: Color, t: int) -> bool {
    p.vacant(t) && p.holds(us, PieceType::Pawn, t - forward(us))
}

/// A pawn of color `us` can advance two steps to `t`.
pub open spec fn double_push(p: Pos, us: Color, t: int) -> bool {
    &&& p.vacant(t)
    &&& single_push(p, us, t - forward(us))
    &&& (t - forward(us)) / 8 == (if us == Color::White {
        2int
    } else {
        5int
    })
}

/// A pawn of color `us` can capture on `t`, going `delta` squares. Captures
/// toward the h-file cannot land on the a-file, nor the others on the h-file.
pub open spec fn pawn_capture(p: Pos, us: Color, delta: int, t: int) -> bool {
    &&& p.owned(us.other(), t)
    &&& p.holds(us, PieceType::Pawn, t - delta)
    &&& (if delta == 9 || delta == -7 {
        t % 8 != 0
    } else {
        t % 8 != 7
    })
}

/// The pawn captures in one direction: plain ones, then promotions.
pub open spec fn pawn_captures(p: Pos, us: Color, delta: int) -> Seq<Move> {
    flat(
        pick(|t: int| pawn_capture(p, us, delta, t) && !on_promo_rank(us, t), 0),
        push_of(delta, MoveFlag::Capture),
    ) + flat(
        pick(|t: int| pawn_capture(p, us, delta, t) && on_promo_rank(us, t), 0),
        promotions_of(delta, true),
    )
}

/// The pawn advances: single steps, promotions, double steps.
pub open spec fn pawn_pushes(p: Pos, us: Color) -> Seq<Move> {
    flat(
        pick(|t: int| single_push(p, us, t) && !on_promo_rank(us, t), 0),
        push_of(forward(us), MoveFlag::Quiet),
    ) + flat(
        pick(|t: int| single_push(p, us, t) && on_promo_rank(us, t), 0),
        promotions_of(forward(us), false),
    ) + flat(
        pick(|t: int| double_push(p, us, t), 0),
        push_of(2 * forward(us), MoveFlag::DoublePush),
    )
}

/// The en-passant captures.
pub open spec fn ep_captures(p: Pos, us: Color) -> Seq<Move> {
    match p.ep {
        Some(e) => flat(
            pick(
                |i: int| pawn_step(us.other(), e.0 as int, i) && p.holds(us, PieceType::Pawn, i),
                0,
            ),
            |from: Square| seq![pack(from, e, MoveFlag::EnPassant)],
        ),
        None => Seq::empty(),
    }
}

/// The pawn moves.
pub open spec fn pawn_moves(p: Pos, us: Color) -> Seq<Move> {
    pawn_pushes(p, us) + (if us == Color::White {
        pawn_captures(p, us, 9) + pawn_captures(p, us, 7)
    } else {
        pawn_captures(p, us, -7) + pawn_captures(p, us, -9)
    }) + ep_captures(p, us)
}

/// The squares that a knight on `from` reaches.
pub open spec fn knight_reach(from: Square) -> spec_fn(int) -> bool {
    |t: int| knight_step(from.0 as int, t)
}

/// The squares that a king on `from` reaches.
pub open spec fn king_reach(from: Square) -> spec_fn(int) -> bool {
    |t: int| king_step(from.0 as int, t)
}

/// The squares that a bishop on `from` reaches.
pub open spec fn diagonal_reach(p: Pos, from: Square) -> spec_fn(int) -> bool {
    |t: int| diagonal(occ_of(p), from.0 as int, t)
}

/// The squares that a rook on `from` reaches.
pub open spec fn orthogonal_reach(p: Pos, from: Square) -> spec_fn(int) -> bool {
    |t: int| orthogonal(occ_of(p), from.0 as int, t)
}

/// The knight moves.
pub open spec fn knight_moves(p: Pos, us: Color) -> Seq<Move> {
    flat(
        p.pieces(us, PieceType::Knight),
        |from: Square| step_moves(p, us, from, knight_reach(from)),
    )
}

/// The king moves, without castling.
pub open spec fn king_moves(p: Pos, us: Color) -> Seq<Move> {
    match p.king(us) {
        Some(k) => step_moves(p, us, k, king_reach(k)),
        None => Seq::empty(),
    }
}

/// The squares of the pieces of `us` that move along the diagonals.
pub open spec fn diagonal_pieces(p: Pos, us: Color) -> Seq<Square> {
    pick(|i: int| p.holds(us, PieceType::Bishop, i) || p.holds(us, PieceType::Queen, i), 0)
}

/// The squares of the pieces of `us` that move along ranks and files.
pub open spec fn orthogonal_pieces(p: Pos, us: Color) -> Seq<Square> {
    pick(|i: int| p.holds(us, PieceType::Rook, i) || p.holds(us, PieceType::Queen, i), 0)
}

/// The moves of bishops, rooks and queens: those along diagonals first.
pub open spec fn slider_moves(p: Pos, us: Color) -> Seq<Move> {
    flat(
        diagonal_pieces(p, us),
        |from: Square| step_moves(p, us, from, diagonal_reach(p, from)),
    ) + flat(
        orthogonal_pieces(p, us),
        |from: Square| step_moves(p, us, from, orthogonal_reach(p, from)),
    )
}

/// The king of color `c` stands attacked.
pub open spec fn in_check(p: Pos, c: Color) -> bool {
    p.king(c) matches Some(k) && attacked(p, k.0 as int, c.other())
}

/// The a-file square of the first rank of color `us`.
pub open spec fn home(us: Color) -> int {
    if us == Color::White {
        0
    } else {
        56
    }
}

/// The flag of the king-side castling right of color `us`.
pub open spec fn king_flag(us: Color) -> u8 {
    if us == Color::White {
        1
    } else {
        4
    }
}

/// The flag of the queen-side castling right of color `us`.
pub open spec fn queen_flag(us: Color) -> u8 {
    if us == Color::White {
        2
    } else {
        8
    }
}

/// `us` may castle on the king's side: the right is held, the way is free, and
/// the king passes no attacked square.
pub open spec fn castle_king(p: Pos, us: Color) -> bool {
    let h = home(us);
    &&& !in_check(p, us)
    &&& p.castling.holds(king_flag(us))
    &&& p.vacant(h + 5)
    &&& p.vacant(h + 6)
    &&& !attacked(p, h + 5, us.other())
    &&& !attacked(p, h + 6, us.other())
}

/// `us` may castle on the queen's side.
pub open spec fn castle_queen(p: Pos, us: Color) -> bool {
    let h = home(us);
    &&& !in_check(p, us)
    &&& p.castling.holds(queen_flag(us))
    &&& p.vacant(h + 3)
    &&& p.vacant(h + 2)
    &&& p.vacant(h + 1)
    &&& !attacked(p, h + 3, us.other())
    &&& !attacked(p, h + 2, us.other())
}

/// The castling moves.
pub open spec fn castling_moves(p: Pos, us: Color) -> Seq<Move> {
    let h = home(us);
    (if castle_king(p, us) {
        seq![pack(Square((h + 4) as u8), Square((h + 6) as u8), MoveFlag::KingCastle)]
    } else {
        Seq::empty()
    }) + (if castle_queen(p, us) {
        seq![pack(Square((h + 4) as u8), Square((h + 2) as u8), MoveFlag::QueenCastle)]
    } else {
        Seq::empty()
    })
}

/// All pseudo-legal moves of the side to move, in the order in which they are
/// generated.
pub open spec fn pseudo_moves(p: Pos) -> Seq<Move> {
    pawn_moves(p, p.side) + knight_moves(p, p.side) + king_moves(p, p.side) + slider_moves(
        p,
        p.side,
    ) + castling_moves(p, p.side)
}

impl Board {
    /// All pseudo-legal moves for the side to move.
    pub fn pseudo_legal_moves(&self) -> (r: MoveList)
        requires
            self.wf(),
        ensures
            r@ == pseudo_moves(self@),
    {
        let mut list = MoveList::new();
        let us = self.side_to_move;
        generate_pawn_moves(self, us, &mut list);
        generate_knight_moves(self, us, &mut list);
        generate_king_moves(self, us, &mut list);
        generate_slider_moves(self, us, &mut list);
        generate_castling(self, us, &mut list);
        proof {
            assert(list@ =~= pseudo_moves(self@));
        }
        list
    }

    /// Is the side to move currently in check?
    pub fn is_in_check(&self) -> (r: bool)
        requires
            self.wf(),
        ensures
            r == in_check(self@, self@.side),
    {
        match self.king_square(self.side_to_move) {
            Some(ksq) => is_square_attacked(self, ksq, self.side_to_move.opposite()),
            None => false,
        }
    }
}

/// Emit the four promotion moves (knight, bishop, rook, queen) for a pawn
/// reaching the back rank.
fn push_promotions(list: &mut MoveList, from: Square, to: Square, capture: bool)
    requires
        from.ok(),
        to.ok(),
    ensures
        final(list)@ == old(list)@ + promotions(from, to, capture),
{
    let ghost start = list@;
    if capture {
        list.push(Move::new(from, to, MoveFlag::PromoKnightCapture));
        list.push(Move::new(from, to, MoveFlag::PromoBishopCapture));
        list.push(Move::new(from, to, MoveFlag::PromoRookCapture));
        list.push(Move::new(from, to, MoveFlag::PromoQueenCapture));
    } else {
        list.push(Move::new(from, to, MoveFlag::PromoKnight));
        list.push(Move::new(from, to, MoveFlag::PromoBishop));
        list.push(Move::new(from, to, MoveFlag::PromoRook));
        list.push(Move::new(from, to, MoveFlag::PromoQueen));
    }
    proof {
        assert(list@ =~= start + promotions(from, to, capture));
    }
}

/// The square `delta` below `to`.
fn behind(to: Square, delta: i8) -> (r: Square)
    requires
        to.ok(),
        -64 < delta < 64,
        0 <= to.0 - delta < 64,
    ensures
        r == Square((to.0 - delta) as u8),
        r.ok(),
{
    Square((to.0 as i8 - delta) as u8)
}

/// Emit a move with the given flag to each target, from the square `delta`
/// below it.
fn emit_pushes(list: &mut MoveList, targets: Bitboard, delta: i8, flag: MoveFlag)
    requires
        -64 < delta < 64,
        forall|t: int| #[trigger] targets.has(t) ==> 0 <= t - delta < 64,
    ensures
        final(list)@ == old(list)@ + flat(targets.list(), push_of(delta as int, flag)),
{
    let ghost start = list@;
    let ghost f = push_of(delta as int, flag);
    let mut rest = targets;
    while rest.any()
        invariant
            -64 < delta < 64,
            f == push_of(delta as int, flag),
            forall|t: int| #[trigger] rest.has(t) ==> 0 <= t - delta < 64,
            start + flat(targets.list(), f) == list@ + flat(rest.list(), f),
        decreases rest.list().len(),
    {
        let ghost all = rest.list();
        if let Some(to) = rest.pop_lsb() {
            list.push(Move::new(behind(to, delta), to, flag));
            proof {
                assert(all.drop_first() =~= rest.list());
                assert(start + flat(targets.list(), f) =~= list@ + flat(rest.list(), f));
            }
        }
    }
    proof {
        crate::board::bitboard::lemma_empty_list(rest);
        assert(list@ =~= start + flat(targets.list(), f));
    }
}

/// Emit the promotions to each target, from the square `delta` below it.
fn emit_promotions(list: &mut MoveList, targets: Bitboard, delta: i8, capture: bool)
    requires
        -64 < delta < 64,
        forall|t: int| #[trigger] targets.has(t) ==> 0 <= t - delta < 64,
    ensures
        final(list)@ == old(list)@ + flat(targets.list(), promotions_of(delta as int, capture)),
{
    let ghost start = list@;
    let ghost f = promotions_of(delta as int, capture);
    let mut rest = targets;
    while rest.any()
        invariant
            -64 < delta < 64,
            f == promotions_of(delta as int, capture),
            forall|t: int| #[trigger] rest.has(t) ==> 0 <= t - delta < 64,
            start + flat(targets.list(), f) == list@ + flat(rest.list(), f),
        decreases rest.list().len(),
    {
        let ghost all = rest.list();
        if let Some(to) = rest.pop_lsb() {
            push_promotions(list, behind(to, delta), to, capture);
            proof {
                assert(all.drop_first() =~= rest.list());
                assert(start + flat(targets.list(), f) =~= list@ + flat(rest.list(), f));
            }
        }
    }
    proof {
        crate::board::bitboard::lemma_empty_list(rest);
        assert(list@ =~= start + flat(targets.list(), f));
    }
}

/// Emit a capture or a quiet move from `from` to each target.
fn emit_steps(board: &Board, us: Color, list: &mut MoveList, from: Square, targets: Bitboard)
    requires
        board.wf(),
        from.ok(),
    ensures
        final(list)@ == old(list)@ + flat(targets.list(), step_of(board@, us, from)),
{
    let ghost start = list@;
    let ghost f = step_of(board@, us, from);
    let enemy = board.color(us.opposite());
    let mut rest = targets;
    while rest.any()
        invariant
            from.ok(),
            f == step_of(board@, us, from),
            forall|i: int| #[trigger] enemy.has(i) == board@.owned(us.other(), i),
            start + flat(targets.list(), f) == list@ + flat(rest.list(), f),
        decreases rest.list().len(),
    {
        let ghost all = rest.list();
        if let Some(to) = rest.pop_lsb() {
            let flag = if enemy.contains(to) {
                MoveFlag::Capture
            } else {
                MoveFlag::Quiet
            };
            list.push(Move::new(from, to, flag));
            proof {
                assert(all.drop_first() =~= rest.list());
                assert(start + flat(targets.list(), f) =~= list@ + flat(rest.list(), f));
            }
        }
    }
    proof {
        crate::board::bitboard::lemma_empty_list(rest);
        assert(list@ =~= start + flat(targets.list(), f));
    }
}

/// Emit captures (and promotion-captures) of the pawns of `us` that go `delta`
/// squares.
fn emit_pawn_captures(board: &Board, us: Color, list: &mut MoveList, delta: i8)
    requires
        board.wf(),
        us == Color::White ==> delta == 9 || delta == 7,
        us == Color::Black ==> delta == -7 || delta == -9,
    ensures
        final(list)@ == old(list)@ + pawn_captures(board@, us, delta as int),
{
    let ghost start = list@;
    let ghost p = board@;
    let pawns = board.pieces_colored(us, PieceType::Pawn);
    let enemy = board.color(us.opposite());
    let moved = if us == Color::White {
        pawns.up(delta as u32)
    } else {
        pawns.down((-delta) as u32)
    };
    let wrap: u64 = if delta == 9 || delta == -7 {
        FILE_A
    } else {
        FILE_H
    };
    let targets = moved.and(Bitboard(wrap).complement()).and(enemy);
    let last = Bitboard(
        if us == Color::White {
            RANK_8
        } else {
            RANK_1
        },
    );
    let plain = targets.and(last.complement());
    let promo = targets.and(last);
    proof {
        lemma_masks();
        let a = |t: int| pawn_capture(p, us, delta as int, t) && !on_promo_rank(us, t);
        let b = |t: int| pawn_capture(p, us, delta as int, t) && on_promo_rank(us, t);
        assert forall|t: int| 0 <= t < 64 implies #[trigger] targets.has(t) == pawn_capture(
            p,
            us,
            delta as int,
            t,
        ) by {
            assert(moved.has(t) == pawns.has(t - delta));
        }
        assert forall|t: int| 0 <= t < 64 implies #[trigger] plain.has(t) == a(t) by {
            assert(targets.has(t) == pawn_capture(p, us, delta as int, t));
        }
        assert forall|t: int| 0 <= t < 64 implies #[trigger] promo.has(t) == b(t) by {
            assert(targets.has(t) == pawn_capture(p, us, delta as int, t));
        }
        lemma_list_is(plain, a);
        lemma_list_is(promo, b);
        assert forall|t: int| #[trigger] targets.has(t) implies 0 <= t - delta < 64 by {
            assert(moved.has(t));
        }
        assert forall|t: int| #[trigger] plain.has(t) implies 0 <= t - delta < 64 by {
            assert(targets.has(t));
        }
        assert forall|t: int| #[trigger] promo.has(t) implies 0 <= t - delta < 64 by {
            assert(targets.has(t));
        }
    }
    emit_pushes(list, plain, delta, MoveFlag::Capture);
    emit_promotions(list, promo, delta, true);
    proof {
        assert(list@ =~= start + pawn_captures(p, us, delta as int));
    }
}

/// Emit the pawn advances of `us`.
fn emit_pawn_pushes(board: &Board, us: Color, list: &mut MoveList)
    requires
        board.wf(),
    ensures
        final(list)@ == old(list)@ + pawn_pushes(board@, us),
{
    let ghost start = list@;
    let ghost p = board@;
    let pawns = board.pieces_colored(us, PieceType::Pawn);
    let empty = board.occupancy().complement();
    let white = us == Color::White;
    let last = Bitboard(
        if white {
            RANK_8
        } else {
            RANK_1
        },
    );
    let first_step = Bitboard(
        if white {
            RANK_3
        } else {
            RANK_6
        },
    );
    let single = (if white {
        pawns.up(8)
    } else {
        pawns.down(8)
    }).and(empty);
    let plain = single.and(last.complement());
    let promo = single.and(last);
    let launch = single.and(first_step);
    let double = (if white {
        launch.up(8)
    } else {
        launch.down(8)
    }).and(empty);
    let delta: i8 = if white {
        8
    } else {
        -8
    };
    proof {
        lemma_masks();
        let a = |t: int| single_push(p, us, t) && !on_promo_rank(us, t);
        let b = |t: int| single_push(p, us, t) && on_promo_rank(us, t);
        let c = |t: int| double_push(p, us, t);
        assert forall|t: int| #[trigger] single.has(t) == single_push(p, us, t) by {
            assert(empty.has(t) == p.vacant(t));
            assert(pawns.has(t - delta) == p.holds(us, PieceType::Pawn, t - delta));
        }
        assert forall|t: int| 0 <= t < 64 implies #[trigger] plain.has(t) == a(t) by {
            assert(single.has(t) == single_push(p, us, t));
        }
        assert forall|t: int| 0 <= t < 64 implies #[trigger] promo.has(t) == b(t) by {
            assert(single.has(t) == single_push(p, us, t));
        }
        assert forall|t: int| 0 <= t < 64 implies #[trigger] double.has(t) == c(t) by {
            assert(empty.has(t) == p.vacant(t));
            assert(launch.has(t - delta) == (single.has(t - delta) && first_step.has(t - delta)));
            assert(single.has(t - delta) == single_push(p, us, t - delta));
        }
        lemma_list_is(plain, a);
        lemma_list_is(promo, b);
        lemma_list_is(double, c);
        assert forall|t: int| #[trigger] plain.has(t) implies 0 <= t - delta < 64 by {
            assert(single.has(t));
        }
        assert forall|t: int| #[trigger] promo.has(t) implies 0 <= t - delta < 64 by {
            assert(single.has(t));
        }
        assert forall|t: int| #[trigger] double.has(t) implies 0 <= t - 2 * delta < 64 by {
            assert(double.has(t) == c(t));
        }
    }
    emit_pushes(list, plain, delta, MoveFlag::Quiet);
    emit_promotions(list, promo, delta, false);
    emit_pushes(list, double, 2 * delta, MoveFlag::DoublePush);
    proof {
        assert(list@ =~= start + pawn_pushes(p, us));
    }
}

/// Emit the en-passant captures of `us`.
fn emit_ep_captures(board: &Board, us: Color, list: &mut MoveList)
    requires
        board.wf(),
    ensures
        final(list)@ == old(list)@ + ep_captures(board@, us),
{
    let ghost start = list@;
    let ghost p = board@;
    if let Some(ep) = board.ep_square {
        let pawns = board.pieces_colored(us, PieceType::Pawn);
        let candidates = pawn_attacks(us.opposite(), ep).and(pawns);
        let ghost f = |from: Square| seq![pack(from, ep, MoveFlag::EnPassant)];
        let mut rest = candidates;
        while rest.any()
            invariant
                ep.ok(),
                f == (|from: Square| seq![pack(from, ep, MoveFlag::EnPassant)]),
                start + flat(candidates.list(), f) == list@ + flat(rest.list(), f),
            decreases rest.list().len(),
        {
            let ghost all = rest.list();
            if let Some(from) = rest.pop_lsb() {
                list.push(Move::new(from, ep, MoveFlag::EnPassant));
                proof {
                    assert(all.drop_first() =~= rest.list());
                    assert(start + flat(candidates.list(), f) =~= list@ + flat(rest.list(), f));
                }
            }
        }
        proof {
            crate::board::bitboard::lemma_empty_list(rest);
            let a = |i: int|
                pawn_step(us.other(), ep.0 as int, i) && p.holds(us, PieceType::Pawn, i);
            assert forall|i: int| 0 <= i < 64 implies #[trigger] candidates.has(i)
                == a(i) by {
                assert(candidates.has(i) == (pawn_step(us.other(), ep.0 as int, i) && pawns.has(
                    i,
                )));
            }
            lemma_list_is(candidates, a);
            assert(list@ =~= start + ep_captures(p, us));
        }
    } else {
        proof {
            assert(list@ =~= start + ep_captures(p, us));
        }
    }
}

fn generate_pawn_moves(board: &Board, us: Color, list: &mut MoveList)
    requires
        board.wf(),
    ensures
        final(list)@ == old(list)@ + pawn_moves(board@, us),
{
    let ghost start = list@;
    emit_pawn_pushes(board, us, list);
    if us == Color::White {
        emit_pawn_captures(board, us, list, 9);
        emit_pawn_captures(board, us, list, 7);
    } else {
        emit_pawn_captures(board, us, list, -7);
        emit_pawn_captures(board, us, list, -9);
    }
    emit_ep_captures(board, us, list);
    proof {
        assert(list@ =~= start + pawn_moves(board@, us));
    }
}

fn generate_knight_moves(board: &Board, us: Color, list: &mut MoveList)
    requires
        board.wf(),
    ensures
        final(list)@ == old(list)@ + knight_moves(board@, us),
{
    let ghost start = list@;
    let ghost p = board@;
    let ghost f = |from: Square| step_moves(p, us, from, knight_reach(from));
    let own = board.color(us);
    let pieces = board.pieces_colored(us, PieceType::Knight);
    let mut rest = pieces;
    while rest.any()
        invariant
            board.wf(),
            p == board@,
            f == (|from: Square| step_moves(p, us, from, knight_reach(from))),
            forall|i: int| #[trigger] own.has(i) == p.owned(us, i),
            start + flat(pieces.list(), f) == list@ + flat(rest.list(), f),
        decreases rest.list().len(),
    {
        let ghost all = rest.list();
        let ghost mid = list@;
        if let Some(from) = rest.pop_lsb() {
            let targets = knight_attacks(from).and(own.complement());
            emit_steps(board, us, list, from, targets);
            proof {
                let a = |t: int| knight_reach(from)(t) && !p.owned(us, t);
                lemma_list_is(targets, a);
                assert(list@ == mid + f(from));
                assert(all.drop_first() =~= rest.list());
                assert(start + flat(pieces.list(), f) =~= list@ + flat(rest.list(), f));
            }
        }
    }
    proof {
        crate::board::bitboard::lemma_empty_list(rest);
        assert(list@ =~= start + knight_moves(p, us));
    }
}

fn generate_king_moves(board: &Board, us: Color, list: &mut MoveList)
    requires
        board.wf(),
    ensures
        final(list)@ == old(list)@ + king_moves(board@, us),
{
    let ghost start = list@;
    let ghost p = board@;
    let own = board.color(us);
    if let Some(from) = board.king_square(us) {
        let targets = king_attacks(from).and(own.complement());
        emit_steps(board, us, list, from, targets);
        proof {
            let a = |t: int| king_reach(from)(t) && !p.owned(us, t);
            lemma_list_is(targets, a);
        }
    } else {
        proof {
            assert(list@ =~= start + king_moves(p, us));
        }
    }
}

fn generate_slider_moves(board: &Board, us: Color, list: &mut MoveList)
    requires
        board.wf(),
    ensures
        final(list)@ == old(list)@ + slider_moves(board@, us),
{
    let ghost start = list@;
    generate_lines(board, us, list, true);
    generate_lines(board, us, list, false);
    proof {
        assert(list@ =~= start + slider_moves(board@, us));
    }
}

/// The moves along diagonals, or along ranks and files.
pub open spec fn line_moves(p: Pos, us: Color, diag: bool) -> Seq<Move> {
    if diag {
        flat(
            diagonal_pieces(p, us),
            |from: Square| step_moves(p, us, from, diagonal_reach(p, from)),
        )
    } else {
        flat(
            orthogonal_pieces(p, us),
            |from: Square| step_moves(p, us, from, orthogonal_reach(p, from)),
        )
    }
}

fn generate_lines(board: &Board, us: Color, list: &mut MoveList, diag: bool)
    requires
        board.wf(),
    ensures
        final(list)@ == old(list)@ + line_moves(board@, us, diag),
{
    let ghost start = list@;
    let ghost p = board@;
    let ghost f = if diag {
        |from: Square| step_moves(p, us, from, diagonal_reach(p, from))
    } else {
        |from: Square| step_moves(p, us, from, orthogonal_reach(p, from))
    };
    let own = board.color(us);
    let occ = board.occupancy();
    let line = board.pieces_colored(
        us,
        if diag {
            PieceType::Bishop
        } else {
            PieceType::Rook
        },
    );
    // Queens share both kinds of rays.
    let queens = board.pieces_colored(us, PieceType::Queen);
    let pieces = line.or(queens);
    proof {
        if diag {
            lemma_list_is(pieces, |i: int| p.holds(us, PieceType::Bishop, i) || p.holds(us, PieceType::Queen, i));
        } else {
            lemma_list_is(pieces, |i: int| p.holds(us, PieceType::Rook, i) || p.holds(us, PieceType::Queen, i));
        }
    }
    let mut rest = pieces;
    while rest.any()
        invariant
            board.wf(),
            p == board@,
            diag ==> f == (|from: Square| step_moves(p, us, from, diagonal_reach(p, from))),
            !diag ==> f == (|from: Square| step_moves(p, us, from, orthogonal_reach(p, from))),
            forall|i: int| #[trigger] own.has(i) == p.owned(us, i),
            forall|i: int| #[trigger] occ.has(i) == p.occupied(i),
            start + flat(pieces.list(), f) == list@ + flat(rest.list(), f),
        decreases rest.list().len(),
    {
        let ghost all = rest.list();
        let ghost mid = list@;
        if let Some(from) = rest.pop_lsb() {
            let rays = if diag {
                bishop_attacks(from, occ)
            } else {
                rook_attacks(from, occ)
            };
            let targets = rays.and(own.complement());
            emit_steps(board, us, list, from, targets);
            proof {
                let o = |j: int| occ.has(j);
                assert forall|t: int| 0 <= t < 64 implies #[trigger] rays.has(t) == (if diag {
                    diagonal_reach(p, from)(t)
                } else {
                    orthogonal_reach(p, from)(t)
                }) by {
                    lemma_occ_ext(o, occ_of(p), from.0 as int, t);
                }
                if diag {
                    let a = |t: int| diagonal_reach(p, from)(t) && !p.owned(us, t);
                    assert forall|t: int| 0 <= t < 64 implies #[trigger] targets.has(t) == a(t) by {
                        assert(targets.has(t) == (rays.has(t) && !own.has(t)));
                    }
                    lemma_list_is(targets, a);
                } else {
                    let a = |t: int| orthogonal_reach(p, from)(t) && !p.owned(us, t);
                    assert forall|t: int| 0 <= t < 64 implies #[trigger] targets.has(t) == a(t) by {
                        assert(targets.has(t) == (rays.has(t) && !own.has(t)));
                    }
                    lemma_list_is(targets, a);
                }
                assert(list@ == mid + f(from));
                assert(all.drop_first() =~= rest.list());
                assert(start + flat(pieces.list(), f) =~= list@ + flat(rest.list(), f));
            }
        }
    }
    proof {
        crate::board::bitboard::lemma_empty_list(rest);
        assert(list@ =~= start + line_moves(p, us, diag));
    }
}

/// Square `s` is free of pieces and not attacked by `them`.
fn safe_square(board: &Board, s: u8, them: Color) -> (r: bool)
    requires
        board.wf(),
        s < 64,
    ensures
        r == (board@.vacant(s as int) && !attacked(board@, s as int, them)),
{
    board.piece_at(Square::new(s)).is_none() && !is_square_attacked(board, Square::new(s), them)
}

fn generate_castling(board: &Board, us: Color, list: &mut MoveList)
    requires
        board.wf(),
        us == board.side_to_move,
    ensures
        final(list)@ == old(list)@ + castling_moves(board@, us),
{
    let ghost start = list@;
    // No castling out of check.
    if board.is_in_check() {
        proof {
            assert(list@ =~= start + castling_moves(board@, us));
        }
        return;
    }
    let them = us.opposite();
    let white = us == Color::White;
    let h: u8 = if white {
        0
    } else {
        56
    };
    let king_side: u8 = if white {
        CastlingRights::WHITE_KING
    } else {
        CastlingRights::BLACK_KING
    };
    let queen_side: u8 = if white {
        CastlingRights::WHITE_QUEEN
    } else {
        CastlingRights::BLACK_QUEEN
    };
    if board.castling.has(king_side) && safe_square(board, h + 5, them) && safe_square(
        board,
        h + 6,
        them,
    ) {
        list.push(Move::new(Square::new(h + 4), Square::new(h + 6), MoveFlag::KingCastle));
    }
    if board.castling.has(queen_side) && board.piece_at(Square::new(h + 1)).is_none()
        && safe_square(board, h + 3, them) && safe_square(board, h + 2, them) {
        list.push(Move::new(Square::new(h + 4), Square::new(h + 2), MoveFlag::QueenCastle));
    }
    proof {
        assert(list@ =~= start + castling_moves(board@, us));
    }
}

/// The a-file.
pub const FILE_A: u64 = 0x0101_0101_0101_0101;

/// The h-file.
pub const FILE_H: u64 = 0x8080_8080_8080_8080;

/// White's back rank.
pub const RANK_1: u64 = 0x0000_0000_0000_00FF;

/// The third rank.
pub const RANK_3: u64 = 0x0000_0000_00FF_0000;

/// The sixth rank.
pub const RANK_6: u64 = 0x0000_FF00_0000_0000;

/// Black's back rank.
pub const RANK_8: u64 = 0xFF00_0000_0000_0000;

proof fn bv_masks(i: u64)
    by (bit_vector)
    requires
        i < 64,
    ensures
        ((0x0101_0101_0101_0101u64 >> i) & 1u64 == 1u64) == (i % 8 == 0),
        ((0x8080_8080_8080_8080u64 >> i) & 1u64 == 1u64) == (i % 8 == 7),
        ((0x0000_0000_0000_00FFu64 >> i) & 1u64 == 1u64) == (i / 8 == 0),
        ((0x0000_0000_00FF_0000u64 >> i) & 1u64 == 1u64) == (i / 8 == 2),
        ((0x0000_FF00_0000_0000u64 >> i) & 1u64 == 1u64) == (i / 8 == 5),
        ((0xFF00_0000_0000_0000u64 >> i) & 1u64 == 1u64) == (i / 8 == 7),
{
}

/// The masks hold the squares of their file or rank.
pub proof fn lemma_masks()
    ensures
        forall|i: int| #[trigger] Bitboard(FILE_A).has(i) == (0 <= i < 64 && i % 8 == 0),
        forall|i: int| #[trigger] Bitboard(FILE_H).has(i) == (0 <= i < 64 && i % 8 == 7),
        forall|i: int| #[trigger] Bitboard(RANK_1).has(i) == (0 <= i < 64 && i / 8 == 0),
        forall|i: int| #[trigger] Bitboard(RANK_3).has(i) == (0 <= i < 64 && i / 8 == 2),
        forall|i: int| #[trigger] Bitboard(RANK_6).has(i) == (0 <= i < 64 && i / 8 == 5),
        forall|i: int| #[trigger] Bitboard(RANK_8).has(i) == (0 <= i < 64 && i / 8 == 7),
{
    assert forall|i: int| 0 <= i < 64 implies {
        &&& #[trigger] Bitboard(FILE_A).has(i) == (i % 8 == 0)
        &&& Bitboard(FILE_H).has(i) == (i % 8 == 7)
        &&& Bitboard(RANK_1).has(i) == (i / 8 == 0)
        &&& Bitboard(RANK_3).has(i) == (i / 8 == 2)
        &&& Bitboard(RANK_6).has(i) == (i / 8 == 5)
        &&& Bitboard(RANK_8).has(i) == (i / 8 == 7)
    } by {
        bv_masks(i as u64);
    }
    assert forall|i: int| #[trigger] Bitboard(FILE_H).has(i) == (0 <= i < 64 && i % 8 == 7) by {
        let a = Bitboard(FILE_A).has(i);
    }
    assert forall|i: int| #[trigger] Bitboard(RANK_1).has(i) == (0 <= i < 64 && i / 8 == 0) by {
        let a = Bitboard(FILE_A).has(i);
    }
    assert forall|i: int| #[trigger] Bitboard(RANK_3).has(i) == (0 <= i < 64 && i / 8 == 2) by {
        let a = Bitboard(FILE_A).has(i);
    }
    assert forall|i: int| #[trigger] Bitboard(RANK_6).has(i) == (0 <= i < 64 && i / 8 == 5) by {
        let a = Bitboard(FILE_A).has(i);
    }
    assert forall|i: int| #[trigger] Bitboard(RANK_8).has(i) == (0 <= i < 64 && i / 8 == 7) by {
        let a = Bitboard(FILE_A).has(i);
    }
}

} // verus!
