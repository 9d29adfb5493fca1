use checksmith::board::{Board, PieceType, STARTING_FEN};
use checksmith::search::see::{see, SEE_VALUES};
use checksmith::uci::parser::parse_uci_move;

fn board(fen: &str) -> Board {
    Board::from_fen(fen).unwrap()
}
#[test]
fn see_pawn_takes_undefended_queen() {
    let b  = board("8/8/8/3q4/4P3/8/8/7K w - - 0 1");
    let mv = parse_uci_move(&b, "e4d5").unwrap();
    assert_eq!(see(&b, mv), SEE_VALUES[PieceType::Queen.index()]);
}
#[test]
fn see_pawn_takes_undefended_pawn() {
    let b  = board("8/8/8/3p4/4P3/8/8/7K w - - 0 1");
    let mv = parse_uci_move(&b, "e4d5").unwrap();
    assert_eq!(see(&b, mv), SEE_VALUES[PieceType::Pawn.index()]);
}
#[test]
fn see_pawn_takes_pawn_defended_by_pawn() {
    let b  = board("8/8/2p5/3p4/4P3/8/8/7K w - - 0 1");
    let mv = parse_uci_move(&b, "e4d5").unwrap();
    assert_eq!(see(&b, mv), 0);
}
#[test]
fn see_queen_takes_defended_pawn() {
    let b  = board("8/8/2b5/3p4/4Q3/8/8/7K w - - 0 1");
    let mv = parse_uci_move(&b, "e4d5").unwrap();
    assert_eq!(see(&b, mv), 100 - 900); // –800
}
#[test]
fn see_xray_does_not_crash() {
    let b  = board("8/8/8/3p4/8/8/8/2BR3K w - - 0 1");
    let mv = parse_uci_move(&b, "d1d5").unwrap(); // bishop d1×d5
    assert_eq!(see(&b, mv), SEE_VALUES[PieceType::Pawn.index()]);
}
#[test]
fn see_xray_rook_behind_bishop() {
    let b  = board("8/3q4/8/8/8/8/3p4/2BR3K w - - 0 1");
    let mv = parse_uci_move(&b, "c1d2").unwrap();
    assert_eq!(see(&b, mv), SEE_VALUES[PieceType::Pawn.index()]);
}

#[test]
fn see_quiet_move_returns_zero() {
    let b  = board(STARTING_FEN);
    let mv = parse_uci_move(&b, "e2e4").unwrap();
    assert_eq!(see(&b, mv), 0);
}
#[test]
fn see_en_passant() {
    let b  = board("4k3/8/8/4Pp2/8/8/8/4K3 w - f6 0 1");
    let mv = parse_uci_move(&b, "e5f6").unwrap();
    assert_eq!(see(&b, mv), SEE_VALUES[PieceType::Pawn.index()]);
}
#[test]
fn see_three_piece_exchange() {
    let b  = board("3r4/8/8/3r4/3R4/8/8/3R3K w - - 0 1");
    let mv = parse_uci_move(&b, "d4d5").unwrap();
    assert_eq!(see(&b, mv), SEE_VALUES[PieceType::Rook.index()]);
}
