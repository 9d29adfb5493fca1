use checksmith::board::{Board, Square, STARTING_FEN};
use checksmith::movegen::{Move, MoveFlag};

fn sq(name: &str) -> Square {
    Square::from_algebraic(name).unwrap()
}

/// make then unmake must restore the position byte-for-byte (via FEN+hash).
fn assert_make_unmake_round_trip(fen: &str, mv: Move) {
    let mut board = Board::from_fen(fen).unwrap();
    let before_fen = board.to_fen();
    let before_hash = board.hash;

    let undo = board.make_move(mv);
    // The hash maintained incrementally must match a full recompute.
    assert_eq!(board.hash, board.compute_hash(), "hash drift after make");

    board.unmake_move(mv, undo);
    assert_eq!(board.to_fen(), before_fen, "position not restored");
    assert_eq!(board.hash, before_hash, "hash not restored");
}

#[test]
fn quiet_and_double_push() {
    assert_make_unmake_round_trip(
        STARTING_FEN,
        Move::new(sq("e2"), sq("e4"), MoveFlag::DoublePush),
    );
    assert_make_unmake_round_trip(
        STARTING_FEN,
        Move::new(sq("g1"), sq("f3"), MoveFlag::Quiet),
    );
}

#[test]
fn capture_round_trip() {
    // White pawn on e4 captures black pawn on d5.
    let fen = "rnbqkbnr/ppp1pppp/8/3p4/4P3/8/PPPP1PPP/RNBQKBNR w KQkq d6 0 2";
    assert_make_unmake_round_trip(fen, Move::new(sq("e4"), sq("d5"), MoveFlag::Capture));
}

#[test]
fn en_passant_round_trip() {
    // White pawn e5 takes black pawn d5 en passant onto d6.
    let fen = "rnbqkbnr/ppp1pppp/8/3pP3/8/8/PPPP1PPP/RNBQKBNR w KQkq d6 0 3";
    assert_make_unmake_round_trip(fen, Move::new(sq("e5"), sq("d6"), MoveFlag::EnPassant));
}

#[test]
fn castling_round_trip() {
    let fen = "r3k2r/pppppppp/8/8/8/8/PPPPPPPP/R3K2R w KQkq - 0 1";
    assert_make_unmake_round_trip(fen, Move::new(sq("e1"), sq("g1"), MoveFlag::KingCastle));
    assert_make_unmake_round_trip(fen, Move::new(sq("e1"), sq("c1"), MoveFlag::QueenCastle));
}

#[test]
fn promotion_round_trip() {
    let fen = "8/P7/8/8/8/8/8/k6K w - - 0 1";
    assert_make_unmake_round_trip(fen, Move::new(sq("a7"), sq("a8"), MoveFlag::PromoQueen));
}
