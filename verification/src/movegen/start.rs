//! Play can start from the starting position.

use crate::board::fen::start_position;
use crate::board::piece::{Color, PieceType};
use crate::board::square::Square;
use crate::movegen::attacks::{attacker, occ_of, ray_at, ray_on, ray_reaches, slides};
use crate::movegen::generate::in_check;
use crate::movegen::rules::{lemma_king, rights_ok, valid};
use vstd::prelude::*;

verus! {

proof fn lemma_out_of_reach(occ: spec_fn(int) -> bool, s: int, df: int, dr: int)
    requires
        0 <= s < 8,
        s != 4,
        -1 <= df <= 1,
        -1 <= dr <= 1,
    ensures
        !slides(occ, s, df, dr, 60),
{
    assert forall|k: int| #[trigger] ray_reaches(occ, s, df, dr, k) implies 60 != ray_at(
        s,
        df,
        dr,
        k,
    ) by {
        assert(ray_on(s, df, dr, k));
        assert(k * df == -k || k * df == 0 || k * df == k) by (nonlinear_arith)
            requires
                df == -1 || df == 0 || df == 1,
        ;
        assert(k * dr == -k || k * dr == 0 || k * dr == k) by (nonlinear_arith)
            requires
                dr == -1 || dr == 0 || dr == 1,
        ;
        assert(k * df == 0 ==> s + k * df != 4);
    }
}

/// The starting position is valid.
pub proof fn law_start_valid()
    ensures
        valid(start_position()),
{
    reveal(valid);
    let p = start_position();
    lemma_king(p, Color::White);
    lemma_king(p, Color::Black);
    assert(p.holds(Color::White, PieceType::King, 4));
    assert(p.holds(Color::Black, PieceType::King, 60));
    assert(p.king(Color::Black) == Some(Square(60)));
    assert forall|s: int| !#[trigger] attacker(p, Color::White, s, 60) by {
        if attacker(p, Color::White, s, 60) {
            assert(0 <= s < 16);
            let occ = occ_of(p);
            if s < 8 && s != 4 && s != 1 && s != 6 {
                lemma_out_of_reach(occ, s, 1, 0);
                lemma_out_of_reach(occ, s, -1, 0);
                lemma_out_of_reach(occ, s, 0, 1);
                lemma_out_of_reach(occ, s, 0, -1);
                if s == 2 || s == 3 || s == 5 {
                    lemma_out_of_reach(occ, s, 1, 1);
                    lemma_out_of_reach(occ, s, 1, -1);
                    lemma_out_of_reach(occ, s, -1, 1);
                    lemma_out_of_reach(occ, s, -1, -1);
                }
            }
        }
    }
    assert(!in_check(p, Color::Black));
    assert(rights_ok(p, Color::White));
    assert(rights_ok(p, Color::Black));
}

} // verus!
