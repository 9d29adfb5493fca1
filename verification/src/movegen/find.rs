//! Finding a move in a list, and telling moves apart.

use crate::board::piece::PieceType;
use crate::board::Pos;
use crate::movegen::attacks::{attacker, king_step};
use crate::movegen::generate::pseudo_moves;
use crate::movegen::legal::{law_legal_moves, legal};
use crate::movegen::moves::{law_move_ext, Move};
use crate::movegen::rules::{ep_ok, law_pseudo_moves_shape, rights_ok, shape, valid};
use vstd::prelude::*;

verus! {

/// The first move of the list that satisfies `q`.
pub open spec fn first_where(ms: Seq<Move>, q: spec_fn(Move) -> bool) -> Option<Move>
    decreases ms.len(),
{
    if ms.len() == 0 {
        None
    } else if q(ms[0]) {
        Some(ms[0])
    } else {
        first_where(ms.drop_first(), q)
    }
}

/// A move that satisfies `q`, with none before it that does, is the first one.
pub proof fn lemma_first_is(ms: Seq<Move>, q: spec_fn(Move) -> bool, i: int)
    requires
        0 <= i < ms.len(),
        q(ms[i]),
        forall|j: int| 0 <= j < i ==> !q(#[trigger] ms[j]),
    ensures
        first_where(ms, q) == Some(ms[i]),
    decreases i,
{
    if i > 0 {
        assert(!q(ms[0]));
        lemma_first_is(ms.drop_first(), q, i - 1);
    }
}

/// If no move satisfies `q` there is no first one.
pub proof fn lemma_first_none(ms: Seq<Move>, q: spec_fn(Move) -> bool)
    requires
        forall|j: int| 0 <= j < ms.len() ==> !q(#[trigger] ms[j]),
    ensures
        first_where(ms, q) is None,
    decreases ms.len(),
{
    if ms.len() > 0 {
        assert(!q(ms[0]));
        lemma_first_none(ms.drop_first(), q);
    }
}

/// The first move that satisfies `q` is a move of the list and satisfies `q`;
/// there is none only if no move does.
pub proof fn law_first_where(ms: Seq<Move>, q: spec_fn(Move) -> bool)
    ensures
        match first_where(ms, q) {
            Some(m) => ms.contains(m) && q(m),
            None => forall|m: Move| #[trigger] ms.contains(m) ==> !q(m),
        },
    decreases ms.len(),
{
    if ms.len() > 0 {
        if q(ms[0]) {
            assert(ms.contains(ms[0]));
        } else {
            let rest = ms.drop_first();
            law_first_where(rest, q);
            match first_where(rest, q) {
                Some(m) => {
                    let i = choose|i: int| 0 <= i < rest.len() && rest[i] == m;
                    assert(ms[i + 1] == m);
                },
                None => {
                    assert forall|m: Move| #[trigger] ms.contains(m) implies !q(m) by {
                        let i = choose|i: int| 0 <= i < ms.len() && ms[i] == m;
                        if i > 0 {
                            assert(rest[i - 1] == m);
                            assert(rest.contains(m));
                        }
                    }
                },
            }
        }
    }
}

/// Two moves have the same source, target and promotion.
pub open spec fn alike(a: Move, b: Move) -> bool {
    a.src() == b.src() && a.dst() == b.dst() && a.promo() == b.promo()
}

proof fn lemma_alike(p: Pos, a: Move, b: Move)
    requires
        valid(p),
        shape(p, a),
        shape(p, b),
        alike(a, b),
    ensures
        a.code() >= b.code(),
{
    reveal(valid);
    let us = p.side;
    let s = a.src().0 as int;
    let t = a.dst().0 as int;
    assert(ep_ok(p));
    assert(rights_ok(p, us));
    if a.code() < b.code() && (a.castles() || b.castles()) {
        assert(p.holds(us, PieceType::King, s));
        assert(!king_step(s, t));
        assert(!attacker(p, us, s, t));
    }
}

/// In a valid position a pseudo-legal move is told by its source, target and
/// promotion.
pub proof fn law_moves_told_apart(p: Pos, a: Move, b: Move)
    requires
        valid(p),
        pseudo_moves(p).contains(a),
        pseudo_moves(p).contains(b),
        alike(a, b),
    ensures
        a == b,
{
    reveal(valid);
    law_pseudo_moves_shape(p);
    let i = choose|i: int| 0 <= i < pseudo_moves(p).len() && pseudo_moves(p)[i] == a;
    let j = choose|j: int| 0 <= j < pseudo_moves(p).len() && pseudo_moves(p)[j] == b;
    assert(shape(p, pseudo_moves(p)[i]) && shape(p, pseudo_moves(p)[j]));
    lemma_alike(p, a, b);
    lemma_alike(p, b, a);
    law_move_ext(a, b);
}

/// A legal move is the first of the legal moves that satisfies `q`, if only
/// moves with its source, target and promotion do.
pub proof fn lemma_finds_legal(p: Pos, q: spec_fn(Move) -> bool, mv: Move)
    requires
        valid(p),
        legal(p).contains(mv),
        q(mv),
        forall|m: Move| #[trigger] q(m) ==> alike(m, mv),
    ensures
        first_where(legal(p), q) == Some(mv),
{
    law_first_where(legal(p), q);
    let m = first_where(legal(p), q).unwrap();
    law_legal_moves(p, m);
    law_legal_moves(p, mv);
    law_moves_told_apart(p, m, mv);
}

} // verus!
