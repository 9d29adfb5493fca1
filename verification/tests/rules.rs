use checksmith::board::{Board, FenError, Square, STARTING_FEN};
use checksmith::movegen::{Move, MoveFlag};
use checksmith::uci::parser::{parse_move, parse_uci_move};

const KIWIPETE: &str = "r3k2r/p1ppqpb1/bn2pnp1/3PN3/1p2P3/2N2Q1p/PPPBBPPP/R3K2R w KQkq - 0 1";
const PROMOTIONS: &str = "r3k2r/Pppp1ppp/1b3nbN/nP6/BBP1P3/q4N2/Pp1P2PP/R2Q1RK1 w kq - 0 1";

fn board(fen: &str) -> Board {
    Board::from_fen(fen).unwrap()
}

fn fault(fen: &str) -> FenError {
    match Board::from_fen(fen) {
        Ok(_) => panic!("must be refused: {}", fen),
        Err(e) => e,
    }
}

#[test]
fn fen_is_written_as_it_was_read() {
    for fen in [
        STARTING_FEN,
        KIWIPETE,
        PROMOTIONS,
        "rnbqkbnr/ppp1pppp/8/3pP3/8/8/PPPP1PPP/RNBQKBNR w KQkq d6 0 3",
        "8/8/8/8/8/8/8/K1k5 b - - 99 200",
    ] {
        let b = board(fen);
        assert_eq!(b.to_fen(), fen);
        assert_eq!(b.hash, b.compute_hash());
    }
    assert_eq!(Board::starting_position().to_fen(), STARTING_FEN);
}

#[test]
fn every_fen_error_has_its_input() {
    assert_eq!(fault(""), FenError::MissingField("piece placement"));
    assert_eq!(fault("8/8/8/8/8/8/8/8"), FenError::MissingField("side to move"));
    assert_eq!(fault("8/8/8/8/8/8/8 w - - 0 1"), FenError::BadRankCount(7));
    assert!(matches!(fault("9/8/8/8/8/8/8/8 w - - 0 1"), FenError::BadFileCount { .. }
        | FenError::UnknownPiece(_)));
    assert!(matches!(fault("7/8/8/8/8/8/8/8 w - - 0 1"),
        FenError::BadFileCount { found: 7, .. }));
    assert_eq!(fault("x7/8/8/8/8/8/8/8 w - - 0 1"), FenError::UnknownPiece('x'));
    assert_eq!(fault("8/8/8/8/8/8/8/8 x - - 0 1"), FenError::BadSideToMove("x".to_string()));
    assert_eq!(fault("8/8/8/8/8/8/8/8 w X - 0 1"), FenError::BadCastling("X".to_string()));
    assert_eq!(fault("8/8/8/8/8/8/8/8 w - z9 0 1"), FenError::BadEnPassant("z9".to_string()));
    assert_eq!(fault("8/8/8/8/8/8/8/8 w - - x 1"), FenError::BadNumber("x".to_string()));
    assert_eq!(fault("8/8/8/8/8/8/8/8 w - - x 1").message(), "invalid number 'x'");
}

#[test]
fn every_legal_move_can_be_taken_back() {
    for fen in [STARTING_FEN, KIWIPETE, PROMOTIONS] {
        let mut b = board(fen);
        let hash = b.hash;
        for &mv in b.legal_moves().as_slice() {
            let undo = b.make_move(mv);
            assert_eq!(b.hash, b.compute_hash());
            assert!(b.is_valid());
            b.unmake_move(mv, undo);
            assert_eq!(b.to_fen(), fen);
            assert_eq!(b.hash, hash);
        }
    }
}

#[test]
fn every_legal_move_is_read_back_from_its_text() {
    for fen in [STARTING_FEN, KIWIPETE, PROMOTIONS] {
        let b = board(fen);
        let legal = b.legal_moves();
        for &mv in legal.as_slice() {
            assert_eq!(parse_move(&mv.to_uci(), &legal), Some(mv));
            assert_eq!(parse_uci_move(&b, &mv.to_uci()), Some(mv));
        }
        assert_eq!(parse_move("e2e5", &legal), None);
        assert_eq!(parse_move("", &legal), None);
    }
}

#[test]
fn perft_divide_adds_up() {
    let mut b = board(KIWIPETE);
    let (total, parts) = b.perft_divide(3);
    assert_eq!(total, 97862);
    assert_eq!(parts.len(), 48);
    assert_eq!(parts.iter().map(|p| p.1).sum::<u64>(), 97862);
    assert_eq!(b.perft(0), 1);
}

#[test]
fn validity_of_positions() {
    assert!(board(STARTING_FEN).is_valid());
    assert!(board(KIWIPETE).is_valid());
    // Pieces without a king, and a side that left its king in check.
    assert!(!board("8/8/8/8/8/8/8/R7 w - - 0 1").is_valid());
    assert!(!board("k6R/p7/8/8/8/8/8/K7 w - - 0 1").is_valid());
    // A bare king may be left in check, and a game that is over may be shown.
    assert!(board("k6R/8/8/8/8/8/8/K7 w - - 0 1").is_valid());
    assert!(board("4R1k1/6pp/6K1/8/8/8/8/8 b - - 0 1").is_valid());
    // A castling right without a rook.
    assert!(!board("k7/8/8/8/8/8/8/4K3 w K - 0 1").is_valid());
    // An en passant square that no pawn can take on does no harm.
    assert!(board("k7/8/8/8/8/8/8/K7 w - e6 0 1").is_valid());
    assert_eq!(board("k7/8/8/8/8/8/8/K7 w - e6 0 1").legal_moves().len(), 3);
    // Clocks that run over start again.
    let mut late = board("k7/8/8/8/8/8/8/K7 b - - 65535 65535");
    assert!(late.is_valid());
    let mv = late.legal_moves().get(0);
    let undo = late.make_move(mv);
    assert_eq!((late.halfmove_clock, late.fullmove_number), (0, 0));
    late.unmake_move(mv, undo);
    assert_eq!((late.halfmove_clock, late.fullmove_number), (65535, 65535));
}

#[test]
fn checkmate_and_stalemate() {
    let mate = board("rnb1kbnr/pppp1ppp/8/4p3/6Pq/5P2/PPPPP2P/RNBQKBNR w KQkq - 1 3");
    assert!(mate.is_checkmate() && !mate.is_stalemate() && mate.is_in_check());
    let stale = board("7k/5Q2/6K1/8/8/8/8/8 b - - 0 1");
    assert!(stale.is_stalemate() && !stale.is_checkmate() && !stale.is_in_check());
}

#[test]
fn moves_keep_their_parts() {
    for flag in [
        MoveFlag::Quiet,
        MoveFlag::DoublePush,
        MoveFlag::KingCastle,
        MoveFlag::QueenCastle,
        MoveFlag::Capture,
        MoveFlag::EnPassant,
        MoveFlag::PromoKnight,
        MoveFlag::PromoBishop,
        MoveFlag::PromoRook,
        MoveFlag::PromoQueen,
        MoveFlag::PromoKnightCapture,
        MoveFlag::PromoBishopCapture,
        MoveFlag::PromoRookCapture,
        MoveFlag::PromoQueenCapture,
    ] {
        let mv = Move::new(Square::new(12), Square::new(28), flag);
        assert_eq!((mv.from(), mv.to(), mv.flag()), (Square::new(12), Square::new(28), flag));
        assert_eq!(Move::from_bits(mv.bits()), mv);
    }
    assert_eq!(Square::try_new(64), None);
    assert_eq!(Square::try_new(63), Some(Square::new(63)));
}

#[test]
fn board_diagram_shows_the_position() {
    let text = Board::starting_position().diagram();
    let lines: Vec<&str> = text.lines().collect();
    assert_eq!(lines[0], "  +------------------------+");
    assert_eq!(lines[1], "8 | r  n  b  q  k  b  n  r |");
    assert_eq!(lines[4], "5 | .  .  .  .  .  .  .  . |");
    assert_eq!(lines[10], "    a  b  c  d  e  f  g  h");
    assert_eq!(lines[12], "Side to move : White");
    assert_eq!(lines[13], "Castling     : KQkq");
    assert_eq!(lines[14], "En passant   : -");
    assert_eq!(lines[16], "Fullmove     : 1");
    let hash = Board::starting_position().hash;
    assert_eq!(lines[17], format!("Zobrist hash : {:#018x}", hash));
}
