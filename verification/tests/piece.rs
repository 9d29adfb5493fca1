use checksmith::board::{Color, Piece, PieceType};

#[test]
fn char_round_trip() {
    for &color in &Color::ALL {
        for &pt in &PieceType::ALL {
            let p = Piece::new(color, pt);
            assert_eq!(Piece::from_char(p.to_char()), Some(p));
        }
    }
}

#[test]
fn case_encodes_color() {
    assert_eq!(Piece::new(Color::White, PieceType::King).to_char(), 'K');
    assert_eq!(Piece::new(Color::Black, PieceType::King).to_char(), 'k');
    assert_eq!(Piece::from_char('x'), None);
}

#[test]
fn indices_are_stable() {
    assert_eq!(PieceType::Pawn.index(), 0);
    assert_eq!(PieceType::King.index(), 5);
    assert_eq!(Color::White.index(), 0);
    assert_eq!(Color::Black.index(), 1);
}
