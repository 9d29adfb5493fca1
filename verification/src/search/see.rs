//! Static exchange evaluation: what a capture wins or loses once all captures
//! on its target square have been played out, each side always taking with
//! its least valuable piece and stopping when going on would lose material.

use crate::board::bitboard::{lemma_list_is, lemma_pick_members, pick, Bitboard};
use crate::board::piece::{Color, PieceType};
use crate::board::square::Square;
use crate::board::{Board, Pos};
use crate::movegen::attacks::{
    bishop_attacks, diagonal, king_attacks, knight_attacks, law_sliders_symmetric, lemma_occ_ext,
    orthogonal, pawn_attacks, piece_attacks, rook_attacks,
};
use crate::movegen::moves::Move;
use vstd::prelude::*;
use vstd::set_lib::{lemma_int_range, set_int_range};

verus! {

/// Piece values used exclusively by the exchange evaluation (centipawns).
/// Indexed by [`PieceType::index`]: Pawn=0 .. King=5.
pub const SEE_VALUES: [i32; 6] = [100, 320, 330, 500, 900, 20_000];

/// The value of a piece in an exchange.
pub open spec fn see_value(pt: PieceType) -> int {
    SEE_VALUES[pt.idx()] as int
}

/// The value of what stands on `s`.
pub open spec fn value_at(p: Pos, s: int) -> int {
    match p.at(s) {
        Some(pc) => see_value(pc.piece_type),
        None => i32::MAX as int,
    }
}

/// The piece on `s` is still there, belongs to `side` and attacks `sq`.
pub open spec fn recaptures(
    p: Pos,
    sq: int,
    side: Color,
    occ: spec_fn(int) -> bool,
    s: int,
) -> bool {
    occ(s) && (p.at(s) matches Some(pc) && pc.color == side && piece_attacks(occ, pc, s, sq))
}

/// Membership in a set of squares.
pub open spec fn within(occ: Set<int>) -> spec_fn(int) -> bool {
    |i: int| occ.contains(i)
}

/// The squares of the pieces of `side` that can take on `sq`.
pub open spec fn recapturers(p: Pos, sq: int, side: Color, occ: Set<int>) -> Seq<Square> {
    pick(|s: int| recaptures(p, sq, side, within(occ), s), 0)
}

/// The square of the least valuable piece, the first of several.
pub open spec fn least(p: Pos, s: Seq<Square>) -> Option<Square>
    decreases s.len(),
{
    if s.len() == 0 {
        None
    } else {
        match least(p, s.drop_last()) {
            Some(b) => if value_at(p, s.last().0 as int) < value_at(p, b.0 as int) {
                Some(s.last())
            } else {
                Some(b)
            },
            None => Some(s.last()),
        }
    }
}

/// What `side` gains by going on with the exchange on `sq`, where a piece worth
/// `last_val` stands: nothing, or that value less what the other side gains
/// from the piece that took it.
pub open spec fn exchange(p: Pos, sq: int, last_val: int, side: Color, occ: Set<int>) -> int
    decreases occ.len(),
{
    match least(p, recapturers(p, sq, side, occ)) {
        None => 0,
        Some(s) => if occ.finite() && occ.contains(s.0 as int) {
            let gain = last_val - exchange(
                p,
                sq,
                value_at(p, s.0 as int),
                side.other(),
                occ.remove(s.0 as int),
            );
            if gain > 0 {
                gain
            } else {
                0
            }
        } else {
            0
        },
    }
}

/// The occupied squares once the capturing piece has left its square, and the
/// pawn captured en passant its own.
pub open spec fn exchange_occ(p: Pos, mv: Move) -> Set<int> {
    let all = Set::new(|i: int| p.occupied(i)).remove(mv.src().0 as int);
    if mv.en_passant() {
        all.remove(mv.src().r() * 8 + mv.dst().f())
    } else {
        all
    }
}

/// The move takes something, with a piece that is there.
pub open spec fn takes(p: Pos, mv: Move) -> bool {
    &&& mv.en_passant() || p.occupied(mv.dst().0 as int)
    &&& mv.promo() is Some || p.occupied(mv.src().0 as int)
}

/// What a capture takes, with what a promotion adds.
pub open spec fn capture_gain(p: Pos, mv: Move) -> int {
    (if mv.en_passant() {
        see_value(PieceType::Pawn)
    } else {
        value_at(p, mv.dst().0 as int)
    }) + (match mv.promo() {
        Some(pt) => see_value(pt) - see_value(PieceType::Pawn),
        None => 0,
    })
}

/// The value of the piece that stands on the target square after a capture.
pub open spec fn capture_stake(p: Pos, mv: Move) -> int {
    match mv.promo() {
        Some(pt) => see_value(pt),
        None => value_at(p, mv.src().0 as int),
    }
}

/// What a capture wins or loses overall; 0 for a move that captures nothing.
pub open spec fn see_score(p: Pos, mv: Move) -> int {
    if takes(p, mv) {
        capture_gain(p, mv) - exchange(
            p,
            mv.dst().0 as int,
            capture_stake(p, mv),
            p.side.other(),
            exchange_occ(p, mv),
        )
    } else {
        0
    }
}

/// The members of a bitboard as a set.
pub open spec fn member_set(b: Bitboard) -> Set<int> {
    Set::new(|i: int| b.has(i))
}

/// A bitboard has finitely many members.
pub proof fn lemma_member_set(b: Bitboard)
    ensures
        member_set(b).finite(),
{
    lemma_int_range(0, 64);
    assert(member_set(b).subset_of(set_int_range(0, 64)));
    vstd::set_lib::lemma_len_subset(member_set(b), set_int_range(0, 64));
}

proof fn lemma_least(p: Pos, s: Seq<Square>)
    ensures
        least(p, s) is None <==> s.len() == 0,
        least(p, s) matches Some(b) ==> s.contains(b),
    decreases s.len(),
{
    if s.len() > 0 {
        lemma_least(p, s.drop_last());
        assert(s.contains(s.last()));
        match least(p, s.drop_last()) {
            Some(b) => {
                let i = choose|i: int| 0 <= i < s.drop_last().len() && s.drop_last()[i] == b;
                assert(s[i] == b);
            },
            None => {},
        }
    }
}

/// An exchange gains between nothing and the value at stake.
pub proof fn law_exchange_bounds(p: Pos, sq: int, last_val: int, side: Color, occ: Set<int>)
    requires
        0 <= last_val,
    ensures
        0 <= exchange(p, sq, last_val, side, occ) <= last_val,
    decreases occ.len(),
{
    match least(p, recapturers(p, sq, side, occ)) {
        None => {},
        Some(s) => {
            if occ.finite() && occ.contains(s.0 as int) {
                law_exchange_bounds(
                    p,
                    sq,
                    value_at(p, s.0 as int),
                    side.other(),
                    occ.remove(s.0 as int),
                );
            }
        },
    }
}

/// A capture is worth at most what it takes, with what a promotion adds, and at
/// least that less the value of the piece that takes. A move that captures
/// nothing is worth 0.
pub proof fn law_see_bounds(p: Pos, mv: Move)
    ensures
        takes(p, mv) ==> capture_gain(p, mv) - capture_stake(p, mv) <= see_score(p, mv)
            <= capture_gain(p, mv),
        !takes(p, mv) ==> see_score(p, mv) == 0,
        -20_000 <= see_score(p, mv) <= 20_800,
{
    law_exchange_bounds(
        p,
        mv.dst().0 as int,
        capture_stake(p, mv),
        p.side.other(),
        exchange_occ(p, mv),
    );
}

/// All pieces in `occ` of color `side` that attack `sq`.
fn attackers_to_occ(board: &Board, sq: Square, side: Color, occ: Bitboard) -> (r: Bitboard)
    requires
        board.wf(),
        sq.ok(),
    ensures
        r.list() == recapturers(board@, sq.0 as int, side, member_set(occ)),
        forall|i: int|
            #[trigger] r.has(i) == recaptures(
                board@,
                sq.0 as int,
                side,
                within(member_set(occ)),
                i,
            ),
{
    let ghost p = board@;
    let ghost t = sq.0 as int;
    let ghost o = |j: int| occ.has(j);
    let ghost w = within(member_set(occ));
    let pawns = board.pieces_colored(side, PieceType::Pawn);
    let knights = board.pieces_colored(side, PieceType::Knight);
    let kings = board.pieces_colored(side, PieceType::King);
    let queens = board.pieces_colored(side, PieceType::Queen);
    let diag_pieces = board.pieces_colored(side, PieceType::Bishop).or(queens);
    let orth_pieces = board.pieces_colored(side, PieceType::Rook).or(queens);
    // A pawn attacks `sq` from where a pawn of the other color on `sq` attacks.
    let by_pawn = pawn_attacks(side.opposite(), sq).and(pawns);
    let by_knight = knight_attacks(sq).and(knights);
    let by_king = king_attacks(sq).and(kings);
    let by_diag = bishop_attacks(sq, occ).and(diag_pieces);
    let by_orth = rook_attacks(sq, occ).and(orth_pieces);
    let r = by_pawn.or(by_knight).or(by_king).or(by_diag).or(by_orth).and(occ);
    proof {
        assert forall|i: int| #[trigger] r.has(i) == recaptures(p, t, side, w, i) by {
            if 0 <= i < 64 {
                assert forall|j: int| 0 <= j < 64 implies #[trigger] o(j) == w(j) by {}
                lemma_occ_ext(o, w, t, i);
                law_sliders_symmetric(w, i, t);
                assert(occ.has(i) == w(i));
                assert(by_pawn.has(i) == (pawns.has(i) && crate::movegen::attacks::pawn_step(
                    side.other(),
                    t,
                    i,
                )));
                assert(by_diag.has(i) == (diag_pieces.has(i) && diagonal(o, t, i)));
                assert(by_orth.has(i) == (orth_pieces.has(i) && orthogonal(o, t, i)));
            }
        }
        lemma_list_is(r, |s: int| recaptures(p, t, side, w, s));
    }
    r
}

/// Among `attackers`, the square of the piece with the lowest value.
fn least_valuable(board: &Board, attackers: Bitboard) -> (r: Option<Square>)
    requires
        board.wf(),
    ensures
        r == least(board@, attackers.list()),
        r matches Some(s) ==> s.ok() && attackers.has(s.0 as int),
{
    let squares = attackers.squares();
    let mut best: Option<Square> = None;
    let mut best_val: i32 = 0;
    let mut i: usize = 0;
    while i < squares.len()
        invariant
            i <= squares@.len(),
            forall|n: int| 0 <= n < squares@.len() ==> (#[trigger] squares@[n]).ok(),
            best == least(board@, squares@.take(i as int)),
            best matches Some(b) ==> b.ok() && best_val == value_at(board@, b.0 as int),
        decreases squares.len() - i,
    {
        let sq = squares[i];
        let val: i32 = match board.piece_at(sq) {
            Some(piece) => SEE_VALUES[piece.piece_type.index()],
            None => i32::MAX,
        };
        proof {
            let t = squares@.take(i + 1);
            assert(t.drop_last() =~= squares@.take(i as int));
            assert(t.last() == sq);
            lemma_least(board@, squares@.take(i as int));
        }
        match best {
            None => {
                best = Some(sq);
                best_val = val;
            },
            Some(_) => {
                if val < best_val {
                    best = Some(sq);
                    best_val = val;
                }
            },
        }
        i += 1;
    }
    proof {
        assert(squares@.take(i as int) =~= squares@);
        lemma_least(board@, squares@);
        lemma_pick_members(|i: int| attackers.has(i), 0);
        if let Some(b) = best {
            let n = choose|n: int| 0 <= n < squares@.len() && squares@[n] == b;
            assert(attackers.list()[n] == b);
            assert((|i: int| attackers.has(i))(b.0 as int));
        }
    }
    best
}

/// Simulates `side` recapturing on `sq` (the piece on `sq` is currently worth
/// `last_val`), then lets the opponent respond, and so on.
fn see_inner(board: &Board, sq: Square, last_val: i32, side: Color, occ: Bitboard) -> (r: i32)
    requires
        board.wf(),
        sq.ok(),
        0 <= last_val <= 20_000,
    ensures
        r == exchange(board@, sq.0 as int, last_val as int, side, member_set(occ)),
        0 <= r <= last_val,
    decreases member_set(occ).len(),
{
    let attackers = attackers_to_occ(board, sq, side, occ);
    let ghost t = sq.0 as int;
    proof {
        lemma_member_set(occ);
        law_exchange_bounds(board@, t, last_val as int, side, member_set(occ));
    }
    match least_valuable(board, attackers) {
        None => 0,
        Some(s) => {
            let val: i32 = match board.piece_at(s) {
                Some(piece) => SEE_VALUES[piece.piece_type.index()],
                None => 0,
            };
            let mut new_occ = occ;
            // Pieces behind the attacker become visible in the next call.
            new_occ.clear(s);
            proof {
                assert(attackers.has(s.0 as int));
                assert(member_set(occ).contains(s.0 as int));
                assert(member_set(new_occ) =~= member_set(occ).remove(s.0 as int));
            }
            let gain: i32 = last_val - see_inner(board, sq, val, side.opposite(), new_occ);
            if gain > 0 {
                gain
            } else {
                0
            }
        },
    }
}

/// Returns the expected net material gain for the side making `mv` on `board`.
///
/// Positive: the capture wins material overall.
/// Negative: the capture loses material overall.
/// Zero: an equal trade (or the move is not a capture).
pub fn see(board: &Board, mv: Move) -> (r: i32)
    requires
        board.wf(),
    ensures
        r == see_score(board@, mv),
        -20_000 <= r <= 20_800,
{
    let ghost p = board@;
    let to = mv.to();
    let from = mv.from();
    let target_val: i32 = if mv.is_en_passant() {
        SEE_VALUES[0]
    } else {
        match board.piece_at(to) {
            Some(piece) => SEE_VALUES[piece.piece_type.index()],
            None => {
                return 0;
            },
        }
    };
    // For a promotion the pawn is worth the promoted piece's value, and the
    // promotion gains the difference on top of the captured material.
    let piece_val: i32;
    let promo_bonus: i32;
    match mv.promotion_piece() {
        Some(promo) => {
            piece_val = SEE_VALUES[promo.index()];
            promo_bonus = SEE_VALUES[promo.index()] - SEE_VALUES[0];
        },
        None => {
            piece_val =
            match board.piece_at(from) {
                Some(piece) => SEE_VALUES[piece.piece_type.index()],
                None => {
                    return 0;
                },
            };
            promo_bonus = 0;
        },
    }
    let mut occ = board.occupancy();
    // The attacker leaves its origin square.
    occ.clear(from);
    if mv.is_en_passant() {
        // The captured pawn sits on the same file as `to`, same rank as `from`.
        occ.clear(Square::from_file_rank(to.file(), from.rank()));
    }
    proof {
        assert(member_set(occ) =~= exchange_occ(p, mv));
        law_see_bounds(p, mv);
    }
    let inner: i32 = see_inner(board, to, piece_val, board.side_to_move.opposite(), occ);
    target_val + promo_bonus - inner
}

/// The values of pieces in an exchange.
pub proof fn law_exchange_values()
    ensures
        see_value(PieceType::Pawn) == 100,
        see_value(PieceType::Knight) == 320,
        see_value(PieceType::Bishop) == 330,
        see_value(PieceType::Rook) == 500,
        see_value(PieceType::Queen) == 900,
        see_value(PieceType::King) == 20_000,
{
}

/// The least valuable piece of some squares stands on one of them, and nothing cheaper
/// stands on the others; there is one unless there are no squares.
pub proof fn law_least_valuable(p: Pos, s: Seq<Square>)
    ensures
        least(p, s) is None <==> s.len() == 0,
        least(p, s) matches Some(b) ==> s.contains(b) && forall|i: int|
            0 <= i < s.len() ==> value_at(p, b.0 as int) <= value_at(p, (#[trigger] s[i]).0 as int),
    decreases s.len(),
{
    if s.len() > 0 {
        let rest = s.drop_last();
        law_least_valuable(p, rest);
        assert(s =~= rest.push(s.last()));
        assert(s.contains(s.last())) by {
            assert(s[s.len() - 1] == s.last());
        }
        if let Some(b) = least(p, rest) {
            let n = choose|n: int| 0 <= n < rest.len() && rest[n] == b;
            assert(s[n] == b);
            assert forall|i: int| 0 <= i < s.len() implies value_at(
                p,
                (least(p, s)->0).0 as int,
            ) <= value_at(p, (#[trigger] s[i]).0 as int) by {
                if i < rest.len() {
                    assert(rest[i] == s[i]);
                }
            }
        }
    }
}

/// A capture on a square that the other side does not attack, once the capturing piece
/// has left its own, wins all that it takes.
pub proof fn law_undefended(p: Pos, mv: Move)
    requires
        takes(p, mv),
        forall|s: int|
            !(#[trigger] recaptures(
                p,
                mv.dst().0 as int,
                p.side.other(),
                within(exchange_occ(p, mv)),
                s,
            )),
    ensures
        see_score(p, mv) == (if mv.en_passant() {
            100
        } else {
            value_at(p, mv.dst().0 as int)
        }) + (match mv.promo() {
            Some(PieceType::Knight) => 220int,
            Some(PieceType::Bishop) => 230,
            Some(PieceType::Rook) => 400,
            Some(PieceType::Queen) => 800,
            _ => 0,
        }),
{
    let sq = mv.dst().0 as int;
    let occ = exchange_occ(p, mv);
    let q = |s: int| recaptures(p, sq, p.side.other(), within(occ), s);
    assert forall|s: int| !(#[trigger] q(s)) by {
        assert(!recaptures(p, sq, p.side.other(), within(occ), s));
    }
    lemma_pick_members(q, 0);
    let rs = recapturers(p, sq, p.side.other(), occ);
    if rs.len() > 0 {
        assert(q(rs[0].0 as int));
    }
    assert(rs.len() == 0);
}

/// A capture that the other side can answer, and where the side to move has nothing to
/// take back with, wins what it takes and loses the piece that takes.
pub proof fn law_defended_once(p: Pos, mv: Move, s: Square)
    requires
        takes(p, mv),
        exchange_occ(p, mv).finite(),
        least(
            p,
            recapturers(p, mv.dst().0 as int, p.side.other(), exchange_occ(p, mv)),
        ) == Some(s),
        recapturers(
            p,
            mv.dst().0 as int,
            p.side,
            exchange_occ(p, mv).remove(s.0 as int),
        ).len() == 0,
    ensures
        see_score(p, mv) == capture_gain(p, mv) - capture_stake(p, mv),
        mv.promo() is None ==> capture_stake(p, mv) == value_at(p, mv.src().0 as int),
        mv.promo() is None && !mv.en_passant() ==> capture_gain(p, mv) == value_at(
            p,
            mv.dst().0 as int,
        ),
{
    let sq = mv.dst().0 as int;
    let occ = exchange_occ(p, mv);
    let q = |i: int| recaptures(p, sq, p.side.other(), within(occ), i);
    let rs = recapturers(p, sq, p.side.other(), occ);
    law_least_valuable(p, rs);
    lemma_pick_members(q, 0);
    let n = choose|n: int| 0 <= n < rs.len() && rs[n] == s;
    assert(q(rs[n].0 as int));
    assert(occ.contains(s.0 as int));
    assert(least(p, recapturers(p, sq, p.side, occ.remove(s.0 as int))) is None);
    assert(p.side.other().other() == p.side);
    reveal_with_fuel(exchange, 3);
    assert(capture_stake(p, mv) > 0);
}

} // verus!
