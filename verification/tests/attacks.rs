use checksmith::board::{Bitboard, Board, Color, Square};
use checksmith::movegen::attacks::{
    is_square_attacked, king_attacks, knight_attacks, pawn_attacks, rook_attacks,
};

fn sq(name: &str) -> Square {
    Square::from_algebraic(name).unwrap()
}

#[test]
fn knight_in_corner_and_center() {
    // a1 knight reaches exactly b3 and c2.
    assert_eq!(knight_attacks(sq("a1")).count(), 2);
    // A central knight reaches 8 squares.
    assert_eq!(knight_attacks(sq("e4")).count(), 8);
}

#[test]
fn king_edge_counts() {
    assert_eq!(king_attacks(sq("a1")).count(), 3);
    assert_eq!(king_attacks(sq("e4")).count(), 8);
}

#[test]
fn pawn_attack_directions() {
    // White pawn on e4 attacks d5 and f5.
    let wa = pawn_attacks(Color::White, sq("e4"));
    assert!(wa.contains(sq("d5")) && wa.contains(sq("f5")) && wa.count() == 2);
    // Black pawn on e4 attacks d3 and f3.
    let ba = pawn_attacks(Color::Black, sq("e4"));
    assert!(ba.contains(sq("d3")) && ba.contains(sq("f3")) && ba.count() == 2);
}

#[test]
fn rook_blocked_by_occupancy() {
    // Rook on a1, a blocker on a4: the ray covers a2,a3,a4 then stops.
    let occ = Bitboard::from_square(sq("a4"));
    let attacks = rook_attacks(sq("a1"), occ);
    assert!(attacks.contains(sq("a2")));
    assert!(attacks.contains(sq("a4"))); // includes the blocker (capturable)
    assert!(!attacks.contains(sq("a5"))); // ray stopped
}

#[test]
fn detects_check() {
    // Black rook on e8 gives check to a white king on e1 down the open file.
    let board = Board::from_fen("4r3/8/8/8/8/8/8/4K3 w - - 0 1").unwrap();
    assert!(is_square_attacked(&board, sq("e1"), Color::Black));
    assert!(!is_square_attacked(&board, sq("d1"), Color::Black));
}
