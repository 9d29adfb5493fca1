use checksmith::board::{PieceType, Square};
use checksmith::movegen::{Move, MoveFlag, MoveList};

fn sq(name: &str) -> Square {
    Square::from_algebraic(name).unwrap()
}

#[test]
fn pack_unpack() {
    let mv = Move::new(sq("e2"), sq("e4"), MoveFlag::DoublePush);
    assert_eq!(mv.from(), sq("e2"));
    assert_eq!(mv.to(), sq("e4"));
    assert_eq!(mv.flag(), MoveFlag::DoublePush);
    assert!(!mv.is_capture());
    assert!(!mv.is_promotion());
    assert_eq!(mv.to_uci(), "e2e4");
}

#[test]
fn capture_and_promotion_bits() {
    let cap = Move::new(sq("e4"), sq("d5"), MoveFlag::Capture);
    assert!(cap.is_capture());
    assert!(!cap.is_promotion());

    let promo = Move::new(sq("e7"), sq("e8"), MoveFlag::PromoQueen);
    assert!(promo.is_promotion());
    assert!(!promo.is_capture());
    assert_eq!(promo.promotion_piece(), Some(PieceType::Queen));
    assert_eq!(promo.to_uci(), "e7e8q");

    let promo_cap = Move::new(sq("e7"), sq("f8"), MoveFlag::PromoRookCapture);
    assert!(promo_cap.is_promotion());
    assert!(promo_cap.is_capture());
    assert_eq!(promo_cap.promotion_piece(), Some(PieceType::Rook));
}

#[test]
fn list_basics() {
    let mut list = MoveList::new();
    assert!(list.is_empty());
    list.push(Move::new(sq("e2"), sq("e4"), MoveFlag::DoublePush));
    list.push(Move::new(sq("g1"), sq("f3"), MoveFlag::Quiet));
    assert_eq!(list.len(), 2);
    assert_eq!(list.get(0).to_uci(), "e2e4");
    let ucis: Vec<String> = list.as_slice().iter().map(|m| m.to_uci()).collect();
    assert_eq!(ucis, vec!["e2e4", "g1f3"]);
}
