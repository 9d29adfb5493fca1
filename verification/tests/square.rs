use checksmith::board::Square;

fn sq(name: &str) -> Square {
    Square::from_algebraic(name).unwrap()
}

#[test]
fn algebraic_round_trip() {
    for i in 0..64u8 {
        let sq = Square::new(i);
        let s = sq.to_algebraic();
        assert_eq!(Square::from_algebraic(&s), Some(sq));
    }
}

#[test]
fn corners_and_indices() {
    assert_eq!(Square::from_algebraic("a1"), Some(sq("a1")));
    assert_eq!(Square::from_algebraic("h8"), Some(sq("h8")));
    assert_eq!(sq("a1").index(), 0);
    assert_eq!(sq("h8").index(), 63);
    assert_eq!(sq("e4").file(), 4);
    assert_eq!(sq("e4").rank(), 3);
}

#[test]
fn rejects_bad_input() {
    assert_eq!(Square::from_algebraic(""), None);
    assert_eq!(Square::from_algebraic("e9"), None);
    assert_eq!(Square::from_algebraic("i1"), None);
    assert_eq!(Square::from_algebraic("e4x"), None);
}
