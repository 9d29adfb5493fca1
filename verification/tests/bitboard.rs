use checksmith::board::{Bitboard, Square};

fn sq(name: &str) -> Square {
    Square::from_algebraic(name).unwrap()
}

#[test]
fn set_clear_contains_count() {
    let mut bb = Bitboard::empty();
    assert!(bb.is_empty());
    bb.set(sq("e4"));
    assert!(bb.contains(sq("e4")));
    assert!(!bb.contains(sq("e5")));
    assert_eq!(bb.count(), 1);
    bb.clear(sq("e4"));
    assert!(bb.is_empty());
}

#[test]
fn iterates_in_index_order() {
    // bits 0, 1, 3 set -> a1, b1, d1
    let bb = Bitboard(0b1011);
    let squares: Vec<usize> = bb.squares().iter().map(|s| s.index()).collect();
    assert_eq!(squares, vec![0, 1, 3]);
}

#[test]
fn set_algebra() {
    let a = Bitboard(0b1100);
    let b = Bitboard(0b0110);
    assert_eq!((a & b).0, 0b0100);
    assert_eq!((a | b).0, 0b1110);
    assert_eq!((a ^ b).0, 0b1010);
    assert_eq!(Bitboard::full().count(), 64);
}
