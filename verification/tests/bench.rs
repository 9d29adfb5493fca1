use checksmith::bench::{
    fmt_nodes, measure_nps, run_bench, run_tactical, BENCH_POSITIONS, TACTICAL_SUITE,
};
use checksmith::board::Board;
use checksmith::search::{is_mate_score, search};

#[test]
fn all_bench_fens_are_valid() {
    for &fen in BENCH_POSITIONS.iter() {
        Board::from_fen(fen).unwrap_or_else(|_| panic!("invalid bench FEN: {}", fen));
    }
}

#[test]
fn all_tactical_fens_are_valid() {
    for &(fen, _, _) in TACTICAL_SUITE.iter() {
        Board::from_fen(fen).unwrap_or_else(|_| panic!("invalid tactical FEN: {}", fen));
    }
}

#[test]
fn bench_depth_4_runs_without_panic() {
    // Run a mini-bench at depth 4 so the full sweep doesn't time out in CI.
    let result = run_bench(4, 1);
    assert!(result.total_nodes > 0, "bench must search some nodes");
    assert!(result.elapsed_ms < 60_000, "bench took too long: {}ms", result.elapsed_ms);
}

#[test]
fn nps_is_positive() {
    let nps = measure_nps();
    assert!(nps > 0, "NPS must be positive");
}

#[test]
fn tactical_finds_hanging_queen() {
    // The "trade queens" position must be solvable at depth 1.
    let result = run_tactical(3);
    // We have 11 positions where expected_bm is non-empty; any correct
    // answer should count.  We mainly verify the function runs without panic.
    assert!(result.solved > 0, "tactical suite should solve at least 1 position");
}

#[test]
fn fmt_nodes_formats_correctly() {
    assert_eq!(fmt_nodes(0),         "0");
    assert_eq!(fmt_nodes(1_000),     "1,000");
    assert_eq!(fmt_nodes(1_234_567), "1,234,567");
}

#[test]
fn mate_in_one_depth2() {
    // Scholar's mate position: Qxf7# is the only mate in 1.
    let mut board = Board::from_fen(
        "r1bqkb1r/pppp1ppp/2n2n2/4p2Q/2B1P3/8/PPPP1PPP/RNB1K1NR w KQkq - 4 4"
    ).unwrap();
    let result = search(&mut board, 2);
    assert!(
        is_mate_score(result.score),
        "depth-2 should find mate-in-1; got score {}",
        result.score
    );
    assert_eq!(
        result.best_move.map(|m| m.to_uci()),
        Some("h5f7".into()),
        "Qxf7# is the only mating move"
    );
}

#[test]
fn back_rank_mate_depth2() {
    // Re8# delivers mate immediately.
    let mut board = Board::from_fen(
        "6k1/5ppp/8/8/8/8/5PPP/4R1K1 w - - 0 1"
    ).unwrap();
    let result = search(&mut board, 2);
    assert!(is_mate_score(result.score), "should find back-rank mate");
    assert_eq!(result.best_move.map(|m| m.to_uci()), Some("e1e8".into()));
}

#[test]
fn search_info_fields_present() {
    // The fields of a search result are filled in.
    let mut board = Board::from_fen(
        "rnbqkbnr/pppppppp/8/8/8/8/PPPPPPPP/RNBQKBNR w KQkq - 0 1"
    ).unwrap();
    let r = search(&mut board, 3);
    assert!(r.depth > 0);
    assert!(r.nodes > 0);
    // score is always set (may be 0 for equal positions)
    let _ = r.score;
    assert!(r.best_move.is_some());
}
