//! Reading moves in long-algebraic notation, such as `e2e4` or `e7e8q`.

use crate::board::Board;
use crate::board::square::{law_algebraic_round_trip, Square};
use crate::board::Pos;
use crate::movegen::find::{
    alike, first_where, lemma_finds_legal, lemma_first_is, lemma_first_none,
};
use crate::movegen::legal::{generable, legal};
use crate::movegen::moves::{Move, MoveList};
use crate::movegen::rules::valid;
use crate::text::{chars_of, same_text};
use vstd::prelude::*;

verus! {

/// The move is written as `text`.
pub open spec fn written_as(text: Seq<char>) -> spec_fn(Move) -> bool {
    |m: Move| m.uci() == text
}

/// The move of the list that is written as `uci`, if there is one.
pub fn parse_move(uci: &str, legal: &MoveList) -> (r: Option<Move>)
    ensures
        r == first_where(legal@, written_as(uci@)),
{
    let text = chars_of(uci);
    let ghost q = written_as(uci@);
    let mut i: usize = 0;
    while i < legal.len()
        invariant
            i <= legal@.len(),
            text@ == uci@,
            q == written_as(uci@),
            forall|j: int| 0 <= j < i ==> !q(#[trigger] legal@[j]),
        decreases legal@.len() - i,
    {
        let mv = legal.get(i);
        if same_text(&mv.uci_chars(), &text) {
            proof {
                lemma_first_is(legal@, q, i as int);
            }
            return Some(mv);
        }
        i += 1;
    }
    proof {
        lemma_first_none(legal@, q);
    }
    None
}

/// The legal move of `board` that is written as `uci`, if there is one.
pub fn parse_uci_move(board: &Board, uci: &str) -> (r: Option<Move>)
    requires
        board.wf(),
        generable(board@),
    ensures
        r == first_where(legal(board@), written_as(uci@)),
{
    parse_move(uci, &board.legal_moves())
}

proof fn lemma_same_name(a: Square, b: Square)
    requires
        a.ok(),
        b.ok(),
        a.name() == b.name(),
    ensures
        a == b,
{
    law_algebraic_round_trip(a);
    law_algebraic_round_trip(b);
}

proof fn lemma_uci_alike(a: Move, b: Move)
    requires
        a.uci() == b.uci(),
    ensures
        alike(a, b),
{
    let x = a.uci();
    let y = b.uci();
    assert(x.subrange(0, 2) =~= a.src().name());
    assert(y.subrange(0, 2) =~= b.src().name());
    assert(x.subrange(2, 4) =~= a.dst().name());
    assert(y.subrange(2, 4) =~= b.dst().name());
    lemma_same_name(a.src(), b.src());
    lemma_same_name(a.dst(), b.dst());
    if a.promo() is Some {
        assert(x.len() == 5);
        assert(b.promo() is Some);
        assert(x[4] == y[4]);
    } else {
        assert(x.len() == 4);
        assert(b.promo() is None);
    }
}

/// In a valid position, a legal move that is written out and read again comes
/// back.
pub proof fn law_uci_round_trip(p: Pos, mv: Move)
    requires
        valid(p),
        legal(p).contains(mv),
    ensures
        first_where(legal(p), written_as(mv.uci())) == Some(mv),
{
    let q = written_as(mv.uci());
    assert(q(mv));
    assert forall|m: Move| #[trigger] q(m) implies alike(m, mv) by {
        lemma_uci_alike(m, mv);
    }
    lemma_finds_legal(p, q, mv);
}

} // verus!
