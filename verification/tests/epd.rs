use checksmith::board::{Board, STARTING_FEN};
use checksmith::epd::run::evaluate_result;
use checksmith::epd::{parse_line, san_to_move};

// A selection from the Bratko-Kopec suite.
const BK01: &str =
    r#"1k1r4/pp1b1R2/3p4/2pPp3/2P2B2/2B5/7r/2K5 b - - bm Rd1+; id "BK.01";"#;
const BK02: &str =
    r#"3r1k2/4npp1/1ppr3p/p6P/P2PPPP1/1NR5/5K2/2R5 w - - bm d5; id "BK.02";"#;

#[test]
fn parse_line_extracts_bm_and_id() {
    let pos = parse_line(BK01).unwrap();
    assert_eq!(pos.best_moves, vec!["Rd1+"]);
    assert_eq!(pos.id, "BK.01");
    Board::from_fen(&pos.fen).expect("EPD FEN must be parseable");
}

#[test]
fn parse_line_two_bm() {
    // Some suites list multiple acceptable best moves.
    let line = r#"rnbqkbnr/pppppppp/8/8/8/8/PPPPPPPP/RNBQKBNR w KQkq - bm e4 d4; id "opening";"#;
    let pos  = parse_line(line).unwrap();
    assert_eq!(pos.best_moves, vec!["e4", "d4"]);
}

#[test]
fn parse_line_am_operation() {
    let line = r#"rnbqkbnr/pppppppp/8/8/4P3/8/PPPP1PPP/RNBQKBNR b KQkq e3 am e5; id "avoid";"#;
    let pos  = parse_line(line).unwrap();
    assert!(pos.best_moves.is_empty());
    assert_eq!(pos.avoid_moves, vec!["e5"]);
}

#[test]
fn parse_line_skips_blank_and_comments() {
    assert!(parse_line("").is_none());
    assert!(parse_line("   ").is_none());
    assert!(parse_line("# this is a comment").is_none());
}

#[test]
fn parse_bk02_fen_is_valid() {
    let pos = parse_line(BK02).unwrap();
    Board::from_fen(&pos.fen).expect("BK.02 FEN must be parseable");
}

#[test]
fn san_pawn_push_e4() {
    let board = Board::from_fen(STARTING_FEN).unwrap();
    let mv    = san_to_move("e4", &board).unwrap();
    assert_eq!(mv.to_uci(), "e2e4");
}

#[test]
fn san_pawn_push_d4() {
    let board = Board::from_fen(STARTING_FEN).unwrap();
    let mv    = san_to_move("d4", &board).unwrap();
    assert_eq!(mv.to_uci(), "d2d4");
}

#[test]
fn san_knight_develop_nf3() {
    let board = Board::from_fen(STARTING_FEN).unwrap();
    let mv    = san_to_move("Nf3", &board).unwrap();
    assert_eq!(mv.to_uci(), "g1f3");
}

#[test]
fn san_knight_develop_nc3() {
    let board = Board::from_fen(STARTING_FEN).unwrap();
    let mv    = san_to_move("Nc3", &board).unwrap();
    assert_eq!(mv.to_uci(), "b1c3");
}

#[test]
fn san_kingside_castle() {
    // Italian: after 1.e4 e5 2.Nf3 Nc6 3.Bc4 Bc5 — White can castle.
    let fen   = "r1bqk2r/pppp1ppp/2n2n2/2b1p3/2B1P3/5N2/PPPP1PPP/RNBQK2R w KQkq - 4 5";
    let board = Board::from_fen(fen).unwrap();
    let mv    = san_to_move("O-O", &board).unwrap();
    assert_eq!(mv.to_uci(), "e1g1");
}

#[test]
fn san_queenside_castle() {
    // A position where White has queen-side castling rights available.
    let fen   = "r3k2r/pppppppp/8/8/8/8/PPPPPPPP/R3K2R w KQkq - 0 1";
    let board = Board::from_fen(fen).unwrap();
    let mv    = san_to_move("O-O-O", &board).unwrap();
    assert_eq!(mv.to_uci(), "e1c1");
}

#[test]
fn san_promotion_queen() {
    let fen   = "8/4P3/8/8/8/8/8/4K1k1 w - - 0 1";
    let board = Board::from_fen(fen).unwrap();
    let mv    = san_to_move("e8=Q", &board).unwrap();
    assert_eq!(mv.to_uci(), "e7e8q");
}

#[test]
fn san_promotion_knight() {
    let fen   = "8/4P3/8/8/8/8/8/4K1k1 w - - 0 1";
    let board = Board::from_fen(fen).unwrap();
    let mv    = san_to_move("e8=N", &board).unwrap();
    assert_eq!(mv.to_uci(), "e7e8n");
}

#[test]
fn san_pawn_capture() {
    // 1.e4 d5: White can play exd5.
    let fen   = "rnbqkbnr/ppp1pppp/8/3p4/4P3/8/PPPP1PPP/RNBQKBNR w KQkq d6 0 2";
    let board = Board::from_fen(fen).unwrap();
    let mv    = san_to_move("exd5", &board).unwrap();
    assert_eq!(mv.to_uci(), "e4d5");
}

#[test]
fn san_piece_capture_with_x() {
    // Rxf7 in Scholar's mate-like position.
    let fen   = "r1bqkb1r/pppp1ppp/2n2n2/4p3/2B1P3/5N2/PPPP1PPP/RNBQK2R w KQkq - 4 4";
    let board = Board::from_fen(fen).unwrap();
    // Bc4 can capture on f7: Bxf7+ — but that's the bishop.
    // Just verify that san_to_move handles the 'x' gracefully even if move is illegal.
    let _ = san_to_move("Rxf7", &board); // may be None if rook can't reach f7
}

#[test]
fn san_returns_none_for_illegal_move() {
    let board = Board::from_fen(STARTING_FEN).unwrap();
    assert!(san_to_move("Qe4", &board).is_none()); // queen blocked by pawns
    assert!(san_to_move("Ke2", &board).is_none()); // king blocked by pawns
}

#[test]
fn san_strips_check_suffix() {
    // Rd1+ — same as Rd1 but with check annotation.
    let fen = "1k1r4/pp1b1R2/3p4/2pPp3/2P2B2/2B5/7r/2K5 b - - 0 1";
    let board = Board::from_fen(fen).unwrap();
    let with_check    = san_to_move("Rxd1+", &board);
    let without_check = san_to_move("Rxd1",  &board);
    // Both should give the same move (or both None if the position doesn't allow it).
    assert_eq!(with_check.map(|m| m.to_uci()), without_check.map(|m| m.to_uci()));
}

#[test]
fn evaluate_no_constraint_returns_none() {
    let board = Board::from_fen(STARTING_FEN).unwrap();
    assert!(evaluate_result("e2e4", &[], &[], &board).is_none());
}

#[test]
fn evaluate_bm_match_passes() {
    let board = Board::from_fen(STARTING_FEN).unwrap();
    // bm says "e4"; engine found e2e4.
    let r = evaluate_result("e2e4", &["e4".to_string()], &[], &board);
    assert_eq!(r, Some(true));
}

#[test]
fn evaluate_bm_mismatch_fails() {
    let board = Board::from_fen(STARTING_FEN).unwrap();
    // bm says "Nf3"; engine found e2e4.
    let r = evaluate_result("e2e4", &["Nf3".to_string()], &[], &board);
    assert_eq!(r, Some(false));
}

#[test]
fn evaluate_am_avoided_passes() {
    let board = Board::from_fen(STARTING_FEN).unwrap();
    // am says avoid "e4"; engine found d2d4 — should pass.
    let r = evaluate_result("d2d4", &[], &["e4".to_string()], &board);
    assert_eq!(r, Some(true));
}

#[test]
fn evaluate_am_played_fails() {
    let board = Board::from_fen(STARTING_FEN).unwrap();
    // am says avoid "e4"; engine played e2e4 — should fail.
    let r = evaluate_result("e2e4", &[], &["e4".to_string()], &board);
    assert_eq!(r, Some(false));
}

#[test]
fn evaluate_multiple_bm_any_match_passes() {
    let board = Board::from_fen(STARTING_FEN).unwrap();
    // bm says "e4" or "d4"; engine found d2d4 — should pass.
    let r = evaluate_result(
        "d2d4",
        &["e4".to_string(), "d4".to_string()],
        &[],
        &board,
    );
    assert_eq!(r, Some(true));
}
