use checksmith::board::zobrist::zobrist;
use checksmith::board::{Color, PieceType, Square};

fn sq(name: &str) -> Square {
    Square::from_algebraic(name).unwrap()
}

#[test]
fn keys_are_deterministic_and_distinct() {
    let z = zobrist();
    // Same input -> same key.
    assert_eq!(
        z.piece(Color::White, PieceType::Pawn, sq("e2")),
        z.piece(Color::White, PieceType::Pawn, sq("e2"))
    );
    // Different square -> different key (overwhelmingly likely).
    assert_ne!(
        z.piece(Color::White, PieceType::Pawn, sq("e2")),
        z.piece(Color::White, PieceType::Pawn, sq("e4"))
    );
    // No key should be zero (the seed avoids it for these slots).
    assert_ne!(z.side(), 0);
}
