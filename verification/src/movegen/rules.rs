//! What every pseudo-legal move looks like, and what legal play preserves.

use crate::board::bitboard::{lemma_pick_contains, lemma_pick_ext, lemma_pick_members, pick};
use crate::board::piece::{Color, Piece, PieceType};
use crate::board::square::Square;
use crate::board::Pos;
use crate::movegen::attacks::{attacked, attacker, lemma_occ_ext, occ_of, pawn_step, piece_attacks};
use crate::movegen::generate::{
    castle_king, castle_queen, castling_moves, diagonal_reach, ep_captures, flat, forward, home,
    in_check, king_flag, king_moves, king_reach, knight_moves, knight_reach, on_promo_rank,
    orthogonal_reach, pawn_capture, pawn_captures, pawn_moves, pawn_pushes, promotions_of,
    pseudo_moves, push_of, queen_flag, single_push, slider_moves, step_moves, step_of,
    double_push,
};
use crate::movegen::legal::{law_legal_moves, legal};
use crate::movegen::make_move::{
    apply, apply_null, can_make, castle_mask_of, ep_victim, rook_from, rook_to,
};
use crate::movegen::moves::{law_move_pack, pack, Move, MoveFlag};
use vstd::prelude::*;

verus! {

/// The move can be made, is one of the side to move, and can be taken back.
pub open spec fn playable(p: Pos, mv: Move) -> bool {
    &&& can_make(p, mv)
    &&& mv.promotes() ==> p.holds(p.side, PieceType::Pawn, mv.src().0 as int)
    &&& mv.en_passant() ==> p.owned(p.side.other(), ep_victim(p.side, mv.dst().0 as int))
}

/// Every pseudo-legal move is playable: there is a rook wherever the castling
/// rules let the king castle, and a pawn behind the en-passant target.
pub open spec fn moves_playable(p: Pos) -> bool {
    forall|i: int| 0 <= i < pseudo_moves(p).len() ==> playable(p, #[trigger] pseudo_moves(p)[i])
}

/// What a pseudo-legal move looks like.
pub open spec fn shape(p: Pos, mv: Move) -> bool {
    let us = p.side;
    let s = mv.src().0 as int;
    let t = mv.dst().0 as int;
    &&& mv.coded()
    &&& s != t
    &&& mv.promotes() ==> p.holds(us, PieceType::Pawn, s)
    &&& if mv.en_passant() {
        &&& p.ep == Some(mv.dst())
        &&& p.holds(us, PieceType::Pawn, s)
        &&& pawn_step(us.other(), t, s)
    } else if mv.castles() {
        &&& s == home(us) + 4
        &&& if mv.flagged(MoveFlag::KingCastle) {
            castle_king(p, us) && t == home(us) + 6
        } else {
            castle_queen(p, us) && t == home(us) + 2
        }
    } else {
        &&& p.owned(us, s)
        &&& if mv.captures() {
            p.owned(us.other(), t) && attacker(p, us, s, t)
        } else {
            p.vacant(t)
        }
        &&& !mv.captures() && !mv.flagged(MoveFlag::DoublePush) ==> if p.holds(
            us,
            PieceType::Pawn,
            s,
        ) {
            t == s + forward(us)
        } else {
            attacker(p, us, s, t)
        }
        &&& mv.flagged(MoveFlag::DoublePush) ==> {
            &&& p.holds(us, PieceType::Pawn, s)
            &&& t == s + 2 * forward(us)
            &&& s / 8 == (if us == Color::White {
                1int
            } else {
                6int
            })
            &&& p.vacant(s + forward(us))
        }
    }
}

/// Every move of the list satisfies `q`.
pub open spec fn all_moves(ms: Seq<Move>, q: spec_fn(Move) -> bool) -> bool {
    forall|i: int| 0 <= i < ms.len() ==> q(#[trigger] ms[i])
}

proof fn lemma_flat_all(
    s: Seq<Square>,
    f: spec_fn(Square) -> Seq<Move>,
    q: spec_fn(Move) -> bool,
)
    requires
        forall|i: int| 0 <= i < s.len() ==> all_moves(f(#[trigger] s[i]), q),
    ensures
        all_moves(flat(s, f), q),
    decreases s.len(),
{
    if s.len() > 0 {
        let rest = s.drop_first();
        assert forall|i: int| 0 <= i < rest.len() implies all_moves(f(#[trigger] rest[i]), q) by {
            assert(rest[i] == s[i + 1]);
        }
        lemma_flat_all(rest, f, q);
        let a = f(s[0]);
        let b = flat(rest, f);
        assert forall|i: int| 0 <= i < (a + b).len() implies q(#[trigger] (a + b)[i]) by {
            if i < a.len() {
                assert((a + b)[i] == a[i]);
            } else {
                assert((a + b)[i] == b[i - a.len()]);
            }
        }
    }
}

proof fn lemma_all_concat(a: Seq<Move>, b: Seq<Move>, q: spec_fn(Move) -> bool)
    requires
        all_moves(a, q),
        all_moves(b, q),
    ensures
        all_moves(a + b, q),
{
    assert forall|i: int| 0 <= i < (a + b).len() implies q(#[trigger] (a + b)[i]) by {
        if i < a.len() {
            assert((a + b)[i] == a[i]);
        } else {
            assert((a + b)[i] == b[i - a.len()]);
        }
    }
}

proof fn lemma_step_moves(p: Pos, from: Square, piece: Piece, reach: spec_fn(int) -> bool)
    requires
        p.wf(),
        from.ok(),
        p.at(from.0 as int) == Some(piece),
        piece.color == p.side,
        piece.piece_type != PieceType::Pawn,
        forall|t: int| 0 <= t < 64 && #[trigger] reach(t) ==> piece_attacks(
            occ_of(p),
            piece,
            from.0 as int,
            t,
        ),
    ensures
        all_moves(step_moves(p, p.side, from, reach), |m: Move| shape(p, m)),
{
    let us = p.side;
    let q = |m: Move| shape(p, m);
    let f = step_of(p, us, from);
    let pred = |t: int| reach(t) && !p.owned(us, t);
    lemma_pick_members(pred, 0);
    let s = pick(pred, 0);
    assert forall|i: int| 0 <= i < s.len() implies all_moves(f(#[trigger] s[i]), q) by {
        let t = s[i];
        assert(pred(t.0 as int));
        let flag = if p.owned(us.other(), t.0 as int) {
            MoveFlag::Capture
        } else {
            MoveFlag::Quiet
        };
        law_move_pack(from, t, flag);
        assert(f(t) =~= seq![pack(from, t, flag)]);
        assert(reach(t.0 as int));
        assert(attacker(p, us, from.0 as int, t.0 as int));
        assert(shape(p, pack(from, t, flag)));
    }
    lemma_flat_all(s, f, q);
}

proof fn lemma_pawn_moves(p: Pos)
    requires
        p.wf(),
    ensures
        all_moves(pawn_moves(p, p.side), |m: Move| shape(p, m)),
{
    let us = p.side;
    let q = |m: Move| shape(p, m);
    let fw = forward(us);
    let a = |t: int| single_push(p, us, t) && !on_promo_rank(us, t);
    let b = |t: int| single_push(p, us, t) && on_promo_rank(us, t);
    let c = |t: int| double_push(p, us, t);
    lemma_pick_members(a, 0);
    lemma_pick_members(b, 0);
    lemma_pick_members(c, 0);
    assert forall|i: int| 0 <= i < pick(a, 0).len() implies all_moves(
        push_of(fw, MoveFlag::Quiet)(#[trigger] pick(a, 0)[i]),
        q,
    ) by {
        let t = pick(a, 0)[i];
        assert(a(t.0 as int));
        let s = Square((t.0 - fw) as u8);
        law_move_pack(s, t, MoveFlag::Quiet);
        assert(shape(p, pack(s, t, MoveFlag::Quiet)));
    }
    lemma_flat_all(pick(a, 0), push_of(fw, MoveFlag::Quiet), q);
    assert forall|i: int| 0 <= i < pick(b, 0).len() implies all_moves(
        promotions_of(fw, false)(#[trigger] pick(b, 0)[i]),
        q,
    ) by {
        let t = pick(b, 0)[i];
        assert(b(t.0 as int));
        let s = Square((t.0 - fw) as u8);
        law_move_pack(s, t, MoveFlag::PromoKnight);
        law_move_pack(s, t, MoveFlag::PromoBishop);
        law_move_pack(s, t, MoveFlag::PromoRook);
        law_move_pack(s, t, MoveFlag::PromoQueen);
        assert(shape(p, pack(s, t, MoveFlag::PromoKnight)));
        assert(shape(p, pack(s, t, MoveFlag::PromoBishop)));
        assert(shape(p, pack(s, t, MoveFlag::PromoRook)));
        assert(shape(p, pack(s, t, MoveFlag::PromoQueen)));
    }
    lemma_flat_all(pick(b, 0), promotions_of(fw, false), q);
    assert forall|i: int| 0 <= i < pick(c, 0).len() implies all_moves(
        push_of(2 * fw, MoveFlag::DoublePush)(#[trigger] pick(c, 0)[i]),
        q,
    ) by {
        let t = pick(c, 0)[i];
        assert(c(t.0 as int));
        let s = Square((t.0 - 2 * fw) as u8);
        law_move_pack(s, t, MoveFlag::DoublePush);
        assert(shape(p, pack(s, t, MoveFlag::DoublePush)));
    }
    lemma_flat_all(pick(c, 0), push_of(2 * fw, MoveFlag::DoublePush), q);
    let m1 = flat(pick(a, 0), push_of(fw, MoveFlag::Quiet));
    let m2 = flat(pick(b, 0), promotions_of(fw, false));
    let m3 = flat(pick(c, 0), push_of(2 * fw, MoveFlag::DoublePush));
    lemma_all_concat(m1, m2, q);
    lemma_all_concat(m1 + m2, m3, q);
    let d1 = if us == Color::White {
        9int
    } else {
        -7int
    };
    let d2 = if us == Color::White {
        7int
    } else {
        -9int
    };
    lemma_pawn_captures(p, d1);
    lemma_pawn_captures(p, d2);
    lemma_all_concat(pawn_captures(p, us, d1), pawn_captures(p, us, d2), q);
    lemma_all_concat(
        pawn_pushes(p, us),
        pawn_captures(p, us, d1) + pawn_captures(p, us, d2),
        q,
    );
    match p.ep {
        Some(e) => {
            let g = |i: int|
                pawn_step(us.other(), e.0 as int, i) && p.holds(us, PieceType::Pawn, i);
            let f = |from: Square| seq![pack(from, e, MoveFlag::EnPassant)];
            lemma_pick_members(g, 0);
            assert forall|i: int| 0 <= i < pick(g, 0).len() implies all_moves(
                f(#[trigger] pick(g, 0)[i]),
                q,
            ) by {
                let s = pick(g, 0)[i];
                assert(g(s.0 as int));
                law_move_pack(s, e, MoveFlag::EnPassant);
                assert(shape(p, pack(s, e, MoveFlag::EnPassant)));
            }
            lemma_flat_all(pick(g, 0), f, q);
        },
        None => {},
    }
    lemma_all_concat(
        pawn_pushes(p, us) + (pawn_captures(p, us, d1) + pawn_captures(p, us, d2)),
        ep_captures(p, us),
        q,
    );
}

proof fn lemma_pawn_captures(p: Pos, delta: int)
    requires
        p.wf(),
        p.side == Color::White ==> delta == 9 || delta == 7,
        p.side == Color::Black ==> delta == -7 || delta == -9,
    ensures
        all_moves(pawn_captures(p, p.side, delta), |m: Move| shape(p, m)),
{
    let us = p.side;
    let q = |m: Move| shape(p, m);
    let a = |t: int| pawn_capture(p, us, delta, t) && !on_promo_rank(us, t);
    let b = |t: int| pawn_capture(p, us, delta, t) && on_promo_rank(us, t);
    lemma_pick_members(a, 0);
    lemma_pick_members(b, 0);
    assert forall|i: int| 0 <= i < pick(a, 0).len() implies all_moves(
        push_of(delta, MoveFlag::Capture)(#[trigger] pick(a, 0)[i]),
        q,
    ) by {
        let t = pick(a, 0)[i];
        assert(a(t.0 as int));
        let s = Square((t.0 - delta) as u8);
        law_move_pack(s, t, MoveFlag::Capture);
        assert(attacker(p, us, s.0 as int, t.0 as int));
        assert(shape(p, pack(s, t, MoveFlag::Capture)));
    }
    lemma_flat_all(pick(a, 0), push_of(delta, MoveFlag::Capture), q);
    assert forall|i: int| 0 <= i < pick(b, 0).len() implies all_moves(
        promotions_of(delta, true)(#[trigger] pick(b, 0)[i]),
        q,
    ) by {
        let t = pick(b, 0)[i];
        assert(b(t.0 as int));
        let s = Square((t.0 - delta) as u8);
        law_move_pack(s, t, MoveFlag::PromoKnightCapture);
        law_move_pack(s, t, MoveFlag::PromoBishopCapture);
        law_move_pack(s, t, MoveFlag::PromoRookCapture);
        law_move_pack(s, t, MoveFlag::PromoQueenCapture);
        assert(attacker(p, us, s.0 as int, t.0 as int));
        assert(shape(p, pack(s, t, MoveFlag::PromoKnightCapture)));
        assert(shape(p, pack(s, t, MoveFlag::PromoBishopCapture)));
        assert(shape(p, pack(s, t, MoveFlag::PromoRookCapture)));
        assert(shape(p, pack(s, t, MoveFlag::PromoQueenCapture)));
    }
    lemma_flat_all(pick(b, 0), promotions_of(delta, true), q);
    lemma_all_concat(
        flat(pick(a, 0), push_of(delta, MoveFlag::Capture)),
        flat(pick(b, 0), promotions_of(delta, true)),
        q,
    );
}

proof fn lemma_piece_moves(p: Pos)
    requires
        p.wf(),
    ensures
        all_moves(knight_moves(p, p.side), |m: Move| shape(p, m)),
        all_moves(king_moves(p, p.side), |m: Move| shape(p, m)),
        all_moves(slider_moves(p, p.side), |m: Move| shape(p, m)),
{
    let us = p.side;
    let q = |m: Move| shape(p, m);
    // Knights.
    let kn = |i: int| p.holds(us, PieceType::Knight, i);
    let fk = |from: Square| step_moves(p, us, from, knight_reach(from));
    lemma_pick_members(kn, 0);
    assert forall|i: int| 0 <= i < pick(kn, 0).len() implies all_moves(
        fk(#[trigger] pick(kn, 0)[i]),
        q,
    ) by {
        let s = pick(kn, 0)[i];
        assert(kn(s.0 as int));
        lemma_step_moves(
            p,
            s,
            Piece { color: us, piece_type: PieceType::Knight },
            knight_reach(s),
        );
    }
    lemma_flat_all(pick(kn, 0), fk, q);
    // King.
    match p.king(us) {
        Some(k) => {
            lemma_king(p, us);
            lemma_step_moves(p, k, Piece { color: us, piece_type: PieceType::King }, king_reach(k));
        },
        None => {},
    }
    // Sliders.
    let dg = |i: int| p.holds(us, PieceType::Bishop, i) || p.holds(us, PieceType::Queen, i);
    let fd = |from: Square| step_moves(p, us, from, diagonal_reach(p, from));
    lemma_pick_members(dg, 0);
    assert forall|i: int| 0 <= i < pick(dg, 0).len() implies all_moves(
        fd(#[trigger] pick(dg, 0)[i]),
        q,
    ) by {
        let s = pick(dg, 0)[i];
        assert(dg(s.0 as int));
        lemma_step_moves(p, s, p.at(s.0 as int)->0, diagonal_reach(p, s));
    }
    lemma_flat_all(pick(dg, 0), fd, q);
    let og = |i: int| p.holds(us, PieceType::Rook, i) || p.holds(us, PieceType::Queen, i);
    let fo = |from: Square| step_moves(p, us, from, orthogonal_reach(p, from));
    lemma_pick_members(og, 0);
    assert forall|i: int| 0 <= i < pick(og, 0).len() implies all_moves(
        fo(#[trigger] pick(og, 0)[i]),
        q,
    ) by {
        let s = pick(og, 0)[i];
        assert(og(s.0 as int));
        lemma_step_moves(p, s, p.at(s.0 as int)->0, orthogonal_reach(p, s));
    }
    lemma_flat_all(pick(og, 0), fo, q);
    lemma_all_concat(flat(pick(dg, 0), fd), flat(pick(og, 0), fo), q);
}

/// Every pseudo-legal move has the shape of a chess move.
pub proof fn law_pseudo_moves_shape(p: Pos)
    requires
        p.wf(),
    ensures
        forall|i: int| 0 <= i < pseudo_moves(p).len() ==> shape(p, #[trigger] pseudo_moves(p)[i]),
{
    let us = p.side;
    let q = |m: Move| shape(p, m);
    lemma_pawn_moves(p);
    lemma_piece_moves(p);
    let h = home(us);
    let e = Square((h + 4) as u8);
    law_move_pack(e, Square((h + 6) as u8), MoveFlag::KingCastle);
    law_move_pack(e, Square((h + 2) as u8), MoveFlag::QueenCastle);
    let ck = pack(e, Square((h + 6) as u8), MoveFlag::KingCastle);
    let cq = pack(e, Square((h + 2) as u8), MoveFlag::QueenCastle);
    assert(castle_king(p, us) ==> shape(p, ck));
    assert(castle_queen(p, us) ==> shape(p, cq));
    assert(all_moves(castling_moves(p, us), q));
    let a = pawn_moves(p, us);
    let b = knight_moves(p, us);
    let c = king_moves(p, us);
    let d = slider_moves(p, us);
    lemma_all_concat(a, b, q);
    lemma_all_concat(a + b, c, q);
    lemma_all_concat(a + b + c, d, q);
    lemma_all_concat(a + b + c + d, castling_moves(p, us), q);
    assert forall|i: int| 0 <= i < pseudo_moves(p).len() implies shape(
        p,
        #[trigger] pseudo_moves(p)[i],
    ) by {
        assert(q(pseudo_moves(p)[i]));
    }
}

/// The king's square holds the king, and is the lowest that does.
pub proof fn lemma_king(p: Pos, c: Color)
    ensures
        p.king(c) matches Some(k) ==> k.ok() && p.holds(c, PieceType::King, k.0 as int),
        p.king(c) matches Some(k) ==> forall|i: int|
            #[trigger] p.holds(c, PieceType::King, i) ==> k.0 <= i,
        p.king(c) is None ==> forall|i: int| !(#[trigger] p.holds(c, PieceType::King, i)),
{
    let pr = |i: int| p.holds(c, PieceType::King, i);
    lemma_pick_members(pr, 0);
    let ks = p.pieces(c, PieceType::King);
    assert(ks == pick(pr, 0));
    if ks.len() > 0 {
        assert(pr(ks[0].0 as int));
    }
    assert forall|i: int| #[trigger] p.holds(c, PieceType::King, i) implies ks.len() > 0 && ks[0].0
        <= i by {
        assert(pr(i));
        lemma_pick_contains(pr, 0, i);
        let n = choose|n: int| 0 <= n < ks.len() && ks[n] == Square(i as u8);
        if n > 0 {
            assert(ks[0].0 < ks[n].0);
        }
    }
}

/// A castling right is held only while king and rook stand at home.
pub open spec fn rights_ok(p: Pos, c: Color) -> bool {
    &&& p.castling.holds(king_flag(c)) ==> p.holds(c, PieceType::King, home(c) + 4) && p.holds(
        c,
        PieceType::Rook,
        home(c) + 7,
    )
    &&& p.castling.holds(queen_flag(c)) ==> p.holds(c, PieceType::King, home(c) + 4) && p.holds(
        c,
        PieceType::Rook,
        home(c),
    )
}

/// A pawn of the side to move stands where it could capture on `e`.
pub open spec fn ep_taken(p: Pos, e: Square) -> bool {
    exists|i: int| #[trigger]
        pawn_step(p.side.other(), e.0 as int, i) && p.holds(p.side, PieceType::Pawn, i)
}

/// The en-passant target, if a pawn could capture there, is the free square
/// behind an enemy pawn that has just advanced two steps.
pub open spec fn ep_ok(p: Pos) -> bool {
    p.ep matches Some(e) ==> ep_taken(p, e) ==> {
        &&& e.ok()
        &&& e.r() == (if p.side == Color::White {
            5int
        } else {
            2int
        })
        &&& p.vacant(e.0 as int)
        &&& p.holds(p.side.other(), PieceType::Pawn, ep_victim(p.side, e.0 as int))
    }
}

/// Color `c` has no pieces.
pub open spec fn nothing(p: Pos, c: Color) -> bool {
    forall|i: int| !(#[trigger] p.owned(c, i))
}

/// Color `c` has no pieces but kings.
pub open spec fn bare(p: Pos, c: Color) -> bool {
    forall|i: int| #[trigger] p.owned(c, i) ==> p.holds(c, PieceType::King, i)
}

/// Color `c` has a king, or nothing at all.
pub open spec fn crowned(p: Pos, c: Color) -> bool {
    p.king(c) is Some || nothing(p, c)
}

/// A position that play can go on from: each side has a king or nothing, the
/// castling rights and the en-passant target fit the pieces, and the side that
/// has just moved is not in check. It may be in check only if it has nothing but
/// kings, which can then be captured, or if the game is over.
#[verifier::opaque]
pub open spec fn valid(p: Pos) -> bool {
    &&& p.wf()
    &&& crowned(p, p.side)
    &&& crowned(p, p.side.other())
    &&& {
        ||| !in_check(p, p.side.other())
        ||| bare(p, p.side.other())
        ||| legal(p).len() == 0
    }
    &&& rights_ok(p, Color::White)
    &&& rights_ok(p, Color::Black)
    &&& ep_ok(p)
}

proof fn lemma_has_king(p: Pos, mv: Move)
    requires
        p.wf(),
        crowned(p, p.side),
        rights_ok(p, p.side),
        shape(p, mv),
    ensures
        p.king(p.side) is Some,
{
    assert(p.owned(p.side, mv.src().0 as int));
}

/// Where rights and en-passant target fit the pieces, every pseudo-legal move
/// can be played, and there is none without a king.
pub proof fn lemma_sound_moves_playable(p: Pos)
    requires
        p.wf(),
        crowned(p, p.side),
        rights_ok(p, p.side),
        ep_ok(p),
    ensures
        moves_playable(p),
        p.king(p.side) is Some || pseudo_moves(p).len() == 0,
{
    law_pseudo_moves_shape(p);
    if pseudo_moves(p).len() > 0 {
        assert(shape(p, pseudo_moves(p)[0]));
        lemma_has_king(p, pseudo_moves(p)[0]);
    }
    assert forall|i: int| 0 <= i < pseudo_moves(p).len() implies playable(
        p,
        #[trigger] pseudo_moves(p)[i],
    ) by {
        assert(shape(p, pseudo_moves(p)[i]));
    }
}

/// In a valid position every pseudo-legal move can be played.
pub proof fn law_valid_moves_playable(p: Pos)
    requires
        valid(p),
    ensures
        moves_playable(p),
        p.king(p.side) is Some || pseudo_moves(p).len() == 0,
{
    reveal(valid);
    assert(rights_ok(p, p.side));
    lemma_sound_moves_playable(p);
}

proof fn bv_rights(c: u8, m1: u8, m2: u8, f: u8)
    by (bit_vector)
    requires
        (c & !(m1 | m2)) & f != 0u8,
        f == 1 || f == 2 || f == 4 || f == 8,
    ensures
        c & f != 0u8,
        m1 & f == 0u8,
        m2 & f == 0u8,
{
}

proof fn bv_mask_bits()
    by (bit_vector)
    ensures
        2u8 & 2u8 != 0u8,
        3u8 & 1u8 != 0u8,
        3u8 & 2u8 != 0u8,
        1u8 & 1u8 != 0u8,
        8u8 & 8u8 != 0u8,
        12u8 & 4u8 != 0u8,
        12u8 & 8u8 != 0u8,
        4u8 & 4u8 != 0u8,
{
}

/// A right that a move leaves is one whose king and rook it does not touch.
proof fn lemma_right_kept(p: Pos, mv: Move, c: Color, flag: u8, rook: int)
    requires
        flag == king_flag(c) && rook == home(c) + 7 || flag == queen_flag(c) && rook == home(c),
        apply(p, mv).castling.holds(flag),
    ensures
        p.castling.holds(flag),
        mv.src().0 != home(c) + 4,
        mv.dst().0 != home(c) + 4,
        mv.src().0 != rook,
        mv.dst().0 != rook,
{
    let m1 = castle_mask_of(mv.src().0 as int);
    let m2 = castle_mask_of(mv.dst().0 as int);
    bv_rights(p.castling.0, m1, m2, flag);
    bv_mask_bits();
}

/// The squares that a move does not name keep what stands there.
proof fn lemma_untouched(p: Pos, mv: Move, i: int)
    requires
        p.wf(),
        i != mv.src().0,
        i != mv.dst().0,
        mv.en_passant() ==> i != ep_victim(p.side, mv.dst().0 as int),
        mv.castles() ==> i != rook_from(mv.dst().0 as int) && i != rook_to(mv.dst().0 as int),
        playable(p, mv),
    ensures
        apply(p, mv).at(i) == p.at(i),
{
}

proof fn lemma_rights_after(p: Pos, mv: Move, c: Color)
    requires
        valid(p),
        shape(p, mv),
        playable(p, mv),
    ensures
        rights_ok(apply(p, mv), c),
{
    reveal(valid);
    let q = apply(p, mv);
    let t = mv.dst().0 as int;
    let h = home(c);
    assert(rights_ok(p, c));
    if q.castling.holds(king_flag(c)) {
        lemma_right_kept(p, mv, c, king_flag(c), h + 7);
        if mv.castles() {
            assert(c != p.side);
        }
        lemma_untouched(p, mv, h + 4);
        lemma_untouched(p, mv, h + 7);
    }
    if q.castling.holds(queen_flag(c)) {
        lemma_right_kept(p, mv, c, queen_flag(c), h);
        if mv.castles() {
            assert(c != p.side);
        }
        lemma_untouched(p, mv, h + 4);
        lemma_untouched(p, mv, h);
    }
}

proof fn lemma_owned_after(p: Pos, mv: Move, i: int)
    requires
        p.wf(),
        rights_ok(p, p.side),
        shape(p, mv),
        playable(p, mv),
        apply(p, mv).owned(p.side.other(), i),
    ensures
        apply(p, mv).at(i) == p.at(i),
        i != mv.dst().0,
{
}

proof fn lemma_enemy_king_after(p: Pos, mv: Move)
    requires
        valid(p),
        shape(p, mv),
        playable(p, mv),
        legal(p).contains(mv),
    ensures
        crowned(apply(p, mv), p.side.other()),
{
    reveal(valid);
    let them = p.side.other();
    let q = apply(p, mv);
    let t = mv.dst().0 as int;
    assert(legal(p).len() > 0);
    assert(rights_ok(p, p.side));
    assert forall|i: int| #[trigger] q.owned(them, i) implies p.owned(them, i) && q.at(i) == p.at(i)
        && i != t by {
        lemma_owned_after(p, mv, i);
    }
    if nothing(p, them) {
        assert(nothing(q, them));
    } else {
        lemma_king(p, them);
        lemma_king(q, them);
        let k = (p.king(them)->0).0 as int;
        if !mv.en_passant() && !mv.castles() && mv.captures() && t == k {
            assert(attacked(p, k, p.side));
            assert(in_check(p, them));
            if q.king(them) is None {
                assert forall|i: int| !(#[trigger] q.owned(them, i)) by {
                    if q.owned(them, i) {
                        assert(p.owned(them, i));
                        assert(p.holds(them, PieceType::King, i));
                        assert(q.holds(them, PieceType::King, i));
                    }
                }
            }
        } else {
            lemma_untouched(p, mv, k);
            assert(q.holds(them, PieceType::King, k));
        }
    }
}

proof fn lemma_own_king_after(p: Pos, mv: Move)
    requires
        valid(p),
        shape(p, mv),
        playable(p, mv),
    ensures
        apply(p, mv).king(p.side) is Some,
{
    reveal(valid);
    let us = p.side;
    let q = apply(p, mv);
    let s = mv.src().0 as int;
    let t = mv.dst().0 as int;
    assert(rights_ok(p, us));
    lemma_has_king(p, mv);
    lemma_king(p, us);
    lemma_king(q, us);
    let k = (p.king(us)->0).0 as int;
    if mv.castles() {
        assert(p.holds(us, PieceType::King, s));
        assert(q.holds(us, PieceType::King, t));
    } else if s == k {
        assert(q.holds(us, PieceType::King, t));
    } else {
        lemma_untouched(p, mv, k);
        assert(q.holds(us, PieceType::King, k));
    }
}

/// Legal play leads from valid positions to valid positions.
pub proof fn law_legal_move_keeps_valid(p: Pos, mv: Move)
    requires
        valid(p),
        shape(p, mv),
        legal(p).contains(mv),
    ensures
        playable(p, mv),
        valid(apply(p, mv)),
{
    reveal(valid);
    law_legal_moves(p, mv);
    assert(rights_ok(p, p.side));
    assert(playable(p, mv));
    lemma_own_king_after(p, mv);
    lemma_enemy_king_after(p, mv);
    lemma_rights_after(p, mv, Color::White);
    lemma_rights_after(p, mv, Color::Black);
    let q = apply(p, mv);
    assert(q.side.other() == p.side);
    assert(q.squares.len() == 64);
    assert(ep_ok(q));
}

/// Attacks depend on the squares alone.
pub proof fn lemma_attacked_ext(p: Pos, q: Pos, t: int, by: Color)
    requires
        p.squares == q.squares,
    ensures
        attacked(p, t, by) == attacked(q, t, by),
{
    lemma_attacked_one_way(p, q, t, by);
    lemma_attacked_one_way(q, p, t, by);
}

proof fn lemma_attacked_one_way(p: Pos, q: Pos, t: int, by: Color)
    requires
        p.squares == q.squares,
    ensures
        attacked(p, t, by) ==> attacked(q, t, by),
{
    if attacked(p, t, by) {
        let s = choose|s: int| #[trigger] attacker(p, by, s, t);
        assert forall|i: int| 0 <= i < 64 implies #[trigger] occ_of(p)(i) == occ_of(q)(i) by {}
        lemma_occ_ext(occ_of(p), occ_of(q), s, t);
        assert(attacker(q, by, s, t));
    }
}

/// Being in check depends on the squares alone.
pub proof fn lemma_in_check_ext(p: Pos, q: Pos, c: Color)
    requires
        p.squares == q.squares,
    ensures
        p.king(c) == q.king(c),
        in_check(p, c) == in_check(q, c),
{
    lemma_pick_ext(
        |i: int| p.holds(c, PieceType::King, i),
        |i: int| q.holds(c, PieceType::King, i),
        0,
    );
    match p.king(c) {
        Some(k) => {
            lemma_attacked_ext(p, q, k.0 as int, c.other());
        },
        None => {},
    }
}

proof fn lemma_crowned_ext(p: Pos, q: Pos, c: Color)
    requires
        p.squares == q.squares,
        crowned(p, c),
    ensures
        crowned(q, c),
{
    lemma_in_check_ext(p, q, c);
    if nothing(p, c) {
        assert forall|i: int| !(#[trigger] q.owned(c, i)) by {
            assert(!p.owned(c, i));
        }
    }
}

/// Passing the turn when not in check leads to a valid position.
pub proof fn law_null_move_keeps_valid(p: Pos)
    requires
        valid(p),
        !in_check(p, p.side),
    ensures
        valid(apply_null(p)),
{
    reveal(valid);
    let q = apply_null(p);
    lemma_in_check_ext(p, q, p.side);
    lemma_crowned_ext(p, q, Color::White);
    lemma_crowned_ext(p, q, Color::Black);
    assert(q.side.other() == p.side);
}

proof fn lemma_flat_len(s: Seq<Square>, f: spec_fn(Square) -> Seq<Move>, b: nat)
    requires
        forall|x: Square| #[trigger] f(x).len() <= b,
    ensures
        flat(s, f).len() <= s.len() * b,
    decreases s.len(),
{
    if s.len() > 0 {
        lemma_flat_len(s.drop_first(), f, b);
        let n = s.drop_first().len();
        assert(f(s[0]).len() <= b);
        assert((n + 1) * b == n * b + b) by (nonlinear_arith);
    }
}

proof fn lemma_flat_len_squares(pr: spec_fn(int) -> bool, f: spec_fn(Square) -> Seq<Move>, b: nat)
    requires
        forall|x: Square| #[trigger] f(x).len() <= b,
    ensures
        flat(pick(pr, 0), f).len() <= 64 * b,
{
    lemma_pick_members(pr, 0);
    lemma_flat_len(pick(pr, 0), f, b);
    let n = pick(pr, 0).len();
    assert(n * b <= 64 * b) by (nonlinear_arith)
        requires
            n <= 64,
            b >= 0,
    ;
}

proof fn lemma_step_moves_len(p: Pos, us: Color, from: Square, reach: spec_fn(int) -> bool)
    ensures
        step_moves(p, us, from, reach).len() <= 64,
{
    lemma_flat_len_squares(|t: int| reach(t) && !p.owned(us, t), step_of(p, us, from), 1);
}

proof fn lemma_captures_len(p: Pos, us: Color, delta: int)
    ensures
        pawn_captures(p, us, delta).len() <= 320,
{
    lemma_flat_len_squares(
        |t: int| pawn_capture(p, us, delta, t) && !on_promo_rank(us, t),
        push_of(delta, MoveFlag::Capture),
        1,
    );
    lemma_flat_len_squares(
        |t: int| pawn_capture(p, us, delta, t) && on_promo_rank(us, t),
        promotions_of(delta, true),
        4,
    );
}

/// There are never more than 20000 pseudo-legal moves, whatever is on the board.
pub proof fn law_move_count(p: Pos)
    ensures
        pseudo_moves(p).len() <= 20_000,
{
    let us = p.side;
    let fw = forward(us);
    lemma_flat_len_squares(
        |t: int| single_push(p, us, t) && !on_promo_rank(us, t),
        push_of(fw, MoveFlag::Quiet),
        1,
    );
    lemma_flat_len_squares(
        |t: int| single_push(p, us, t) && on_promo_rank(us, t),
        promotions_of(fw, false),
        4,
    );
    lemma_flat_len_squares(
        |t: int| double_push(p, us, t),
        push_of(2 * fw, MoveFlag::DoublePush),
        1,
    );
    lemma_captures_len(p, us, 9);
    lemma_captures_len(p, us, 7);
    lemma_captures_len(p, us, -7);
    lemma_captures_len(p, us, -9);
    match p.ep {
        Some(e) => {
            lemma_flat_len_squares(
                |i: int|
                    pawn_step(us.other(), e.0 as int, i) && p.holds(us, PieceType::Pawn, i),
                |from: Square| seq![pack(from, e, MoveFlag::EnPassant)],
                1,
            );
        },
        None => {},
    }
    let fk = |from: Square| step_moves(p, us, from, knight_reach(from));
    let fd = |from: Square| step_moves(p, us, from, diagonal_reach(p, from));
    let fo = |from: Square| step_moves(p, us, from, orthogonal_reach(p, from));
    assert forall|x: Square| #[trigger] fk(x).len() <= 64 by {
        lemma_step_moves_len(p, us, x, knight_reach(x));
    }
    assert forall|x: Square| #[trigger] fd(x).len() <= 64 by {
        lemma_step_moves_len(p, us, x, diagonal_reach(p, x));
    }
    assert forall|x: Square| #[trigger] fo(x).len() <= 64 by {
        lemma_step_moves_len(p, us, x, orthogonal_reach(p, x));
    }
    lemma_flat_len_squares(|i: int| p.holds(us, PieceType::Knight, i), fk, 64);
    lemma_flat_len_squares(
        |i: int| p.holds(us, PieceType::Bishop, i) || p.holds(us, PieceType::Queen, i),
        fd,
        64,
    );
    lemma_flat_len_squares(
        |i: int| p.holds(us, PieceType::Rook, i) || p.holds(us, PieceType::Queen, i),
        fo,
        64,
    );
    match p.king(us) {
        Some(k) => {
            lemma_step_moves_len(p, us, k, king_reach(k));
        },
        None => {},
    }
}

} // verus!
