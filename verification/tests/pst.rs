use checksmith::board::{Color, PieceType, Square};
use checksmith::eval::pst::pst;

fn sq(name: &str) -> Square {
    Square::from_algebraic(name).unwrap()
}

#[test]
fn king_table_flips_between_phases() {
    let corner = pst(PieceType::King, Color::White, sq("g1"));
    let center = pst(PieceType::King, Color::White, sq("e4"));
    assert!(corner.mg > center.mg, "MG king prefers the corner");
    assert!(center.eg > corner.eg, "EG king prefers the center");
}

#[test]
fn bishop_eg_is_more_central_than_mg() {
    // In the eg table a central bishop should be worth more than in the mg.
    let center = pst(PieceType::Bishop, Color::White, sq("d4"));
    let corner = pst(PieceType::Bishop, Color::White, sq("a1"));
    // Central EG bonus is larger than the MG bonus (long diagonals dominate EG).
    assert!(center.eg > center.mg, "bishop centralisation gains in the EG");
    assert!(corner.mg >= corner.eg, "corner bishop does not improve in EG");
}

#[test]
fn tables_are_color_symmetric() {
    // pst(White, E2) must equal pst(Black, E7) for every piece type.
    for &pt in &PieceType::ALL {
        let w = pst(pt, Color::White, sq("e2"));
        let b = pst(pt, Color::Black, sq("e7"));
        assert_eq!(w, b, "asymmetry for {:?}", pt);
    }
}

#[test]
fn knight_rim_worse_in_eg() {
    let rim = pst(PieceType::Knight, Color::White, sq("a1"));
    // Both phases penalise the rim, but the EG penalty is at least as large.
    assert!(rim.mg <= 0);
    assert!(rim.eg <= rim.mg, "EG rim penalty should be >= MG ({} vs {})", rim.eg, rim.mg);
}

#[test]
fn rook_eg_rewards_seventh_rank_and_central_files() {
    // On the 7th rank (a7 for White using visual flip), EG value > MG value.
    let rook_7th = pst(PieceType::Rook, Color::White, sq("d7"));
    assert!(rook_7th.eg >= rook_7th.mg, "rook EG on 7th should be >= MG");
}
