use checksmith::board::{Board, STARTING_FEN};

/// Known perft values.
fn check_perft(fen: &str, expected: &[(u32, u64)]) {
    let mut board = Board::from_fen(fen).unwrap();
    for &(depth, nodes) in expected {
        assert_eq!(
            board.perft(depth),
            nodes,
            "perft({}) wrong for {}",
            depth,
            fen
        );
    }
}

#[test]
fn perft_startpos() {
    check_perft(STARTING_FEN, &[(1, 20), (2, 400), (3, 8902), (4, 197281)]);
}

#[test]
fn perft_kiwipete() {
    // Dense middlegame: castling both sides, en passant, pins.
    check_perft(
        "r3k2r/p1ppqpb1/bn2pnp1/3PN3/1p2P3/2N2Q1p/PPPBBPPP/R3K2R w KQkq - 0 1",
        &[(1, 48), (2, 2039), (3, 97862)],
    );
}

#[test]
fn perft_position3() {
    // Sparse position rich in en-passant and promotion edge cases.
    check_perft(
        "8/2p5/3p4/KP5r/1R3p1k/8/4P1P1/8 w - - 0 1",
        &[(1, 14), (2, 191), (3, 2812), (4, 43238)],
    );
}

#[test]
fn perft_position4() {
    check_perft(
        "r3k2r/Pppp1ppp/1b3nbN/nP6/BBP1P3/q4N2/Pp1P2PP/R2Q1RK1 w kq - 0 1",
        &[(1, 6), (2, 264), (3, 9467)],
    );
}

#[test]
fn perft_position5() {
    check_perft(
        "rnbq1k1r/pp1Pbppp/2p5/8/2B5/8/PPP1NnPP/RNBQK2R w KQ - 1 8",
        &[(1, 44), (2, 1486), (3, 62379)],
    );
}
