use checksmith::board::{Board, STARTING_FEN};
use checksmith::eval::evaluator::HandcraftedEvaluator;
use checksmith::search::lmr::lmr_reduction;
use checksmith::search::negamax::{
    has_non_pawn_material, score_from_tt, score_to_tt, Searcher,
};
use checksmith::search::tt::TranspositionTable;
use checksmith::search::{is_mate_score, mate_distance_plies, search, INFINITY, MATE};
use std::sync::atomic::AtomicBool;
use std::sync::Arc;

#[test]
fn finds_mate_in_one() {
    let mut board = Board::from_fen("7k/8/6K1/8/8/8/8/Q7 w - - 0 1").unwrap();
    let result = search(&mut board, 2);
    assert!(is_mate_score(result.score), "expected a mate score");
    assert_eq!(mate_distance_plies(result.score), 1);
    let mv = result.best_move.expect("must have a move");
    board.make_move(mv);
    assert!(board.is_checkmate(), "best move should deliver mate");
}

#[test]
fn finds_mate_in_two() {
    // Qh5# is forced in two moves; NMP/LMR must not prune away the line.
    let mut board = Board::from_fen("r1bqkb1r/pppp1ppp/2n2n2/4p2Q/2B1P3/8/PPPP1PPP/RNB1K1NR w KQkq - 4 4")
        .unwrap();
    let result = search(&mut board, 4);
    assert!(is_mate_score(result.score), "should find forced mate; got {}", result.score);
}

#[test]
fn grabs_a_hanging_queen() {
    let mut board = Board::from_fen("3q1k2/8/8/8/8/8/8/3Q2K1 w - - 0 1").unwrap();
    let result = search(&mut board, 1);
    assert_eq!(result.best_move.map(|m| m.to_uci()), Some("d1d8".to_string()));
    assert!(result.score > 700, "winning a queen should score high");
}

#[test]
fn avoids_losing_capture_via_quiescence() {
    let mut board =
        Board::from_fen("rnbqkbnr/pp2pppp/2p5/3p4/4P3/8/PPPP1PPP/RNBQKBNR w KQkq - 0 3")
            .unwrap();
    let result = search(&mut board, 4);
    assert!(result.score.abs() < 150, "score was {}", result.score);
}

#[test]
fn reports_stalemate_as_draw() {
    let mut board = Board::from_fen("7k/5Q2/6K1/8/8/8/8/8 b - - 0 1").unwrap();
    assert!(board.is_stalemate());
    let result = search(&mut board, 3);
    assert_eq!(result.best_move, None);
    assert_eq!(result.score, 0);
}

#[test]
fn tt_preserves_result_correctness() {
    let mut board = Board::from_fen("3q1k2/8/8/8/8/8/8/3Q2K1 w - - 0 1").unwrap();
    let shallow = search(&mut board, 3);
    let deep = search(&mut board, 5);
    assert_eq!(shallow.best_move.map(|m| m.to_uci()), Some("d1d8".to_string()));
    assert_eq!(deep.best_move.map(|m| m.to_uci()), Some("d1d8".to_string()));
}

#[test]
fn mate_score_survives_tt_round_trip() {
    for ply in 0..20 {
        let s = MATE - 5;
        assert_eq!(score_from_tt(score_to_tt(s, ply), ply), s);
        assert_eq!(score_from_tt(score_to_tt(-s, ply), ply), -s);
    }
    assert_eq!(score_from_tt(score_to_tt(42, 7), 7), 42);
}

#[test]
fn node_limit_stops_search() {
    let mut board = Board::from_fen(STARTING_FEN).unwrap();
    let mut tt = TranspositionTable::new(1);
    let mut searcher = Searcher::new(None, Arc::new(AtomicBool::new(false)), Some(1000), HandcraftedEvaluator);
    searcher.search_root(&mut board, 12, None, &mut tt, &[], -INFINITY, INFINITY);
    assert!(searcher.stopped);
    assert!(searcher.nodes < 200_000);
}

#[test]
fn fifty_move_rule_returns_draw_in_search() {
    // KR vs K with halfmove_clock = 100: every quiet child at ply=1 triggers
    // the fifty-move rule.  With no captures available, all root moves score 0.
    let mut board = Board::from_fen("4k3/8/8/8/8/8/8/R3K3 w - - 100 1").unwrap();
    let result = search(&mut board, 3);
    assert_eq!(result.score, 0, "fifty-move rule should return 0, got {}", result.score);
}

#[test]
fn insufficient_material_returns_draw_in_search() {
    // KN vs K: a knight and king cannot force mate.
    // At every child node (ply ≥ 1) the position is still KN vs K → 0.
    let mut board = Board::from_fen("4k3/8/8/8/8/8/8/4KN2 w - - 0 1").unwrap();
    let result = search(&mut board, 4);
    assert_eq!(result.score, 0, "KN vs K should be a draw, got {}", result.score);
}

#[test]
fn is_repetition_detects_match() {
    let history = vec![0xDEAD_BEEF_u64, 0xCAFE_BABE, 0xFEED_BEEF];
    let searcher = Searcher::new_with_history(
        &history,
        None,
        Arc::new(AtomicBool::new(false)),
        None,
        HandcraftedEvaluator,
    );
    // 0xDEAD_BEEF is at index 0 → found with lookback=10
    assert!(searcher.is_repetition(0xDEAD_BEEF, 10));
    // 0xFEED_BEEF is at index 2 → found within the last 1 entry
    assert!(searcher.is_repetition(0xFEED_BEEF, 1));
    // 0xDEAD_BEEF is at index 0 but lookback=2 only covers indices [1,2]
    assert!(!searcher.is_repetition(0xDEAD_BEEF, 2));
    // Hash never in history
    assert!(!searcher.is_repetition(0x1234_5678, 10));
    // halfmove_clock = 0 → empty slice → no repetition
    assert!(!searcher.is_repetition(0xDEAD_BEEF, 0));
}

#[test]
fn nmp_skipped_in_pawn_endgame() {
    // King+pawns only: NMP would be unsafe (zugzwang is possible).
    // The engine must still find the correct result without pruning.
    let mut board = Board::from_fen("8/8/8/8/8/4K3/4P3/7k w - - 0 1").unwrap();
    let r1 = search(&mut board, 4);
    // White is ahead (pawn + king advantage).
    assert!(r1.score > 0, "white should be better in this K+P endgame");
}

#[test]
fn nmp_does_not_corrupt_normal_search() {
    // Null-move pruning must not change the best move.
    let mut board = Board::from_fen("3q1k2/8/8/8/8/8/8/3Q2K1 w - - 0 1").unwrap();
    let result = search(&mut board, 5);
    assert_eq!(
        result.best_move.map(|m| m.to_uci()),
        Some("d1d8".to_string()),
        "NMP must not corrupt the obvious best move"
    );
}

#[test]
fn singular_extension_counter_fires_at_sufficient_depth() {
    // SE requires TT data from a prior iteration to know the expected score
    // for the node.  Simulate iterative deepening by doing a depth-5 warmup
    // pass (which populates the TT), then a depth-7 pass on the same TT.
    let mut board = Board::from_fen(
        "r1bqkb1r/pppp1ppp/2n2n2/4p3/2B1P3/5N2/PPPP1PPP/RNBQK2R w KQkq - 4 4",
    )
    .unwrap();
    let mut tt = TranspositionTable::new(4);
    let stop = Arc::new(AtomicBool::new(false));

    // Warmup: populate TT so the deeper pass has data to check singularity.
    let mut warmup = Searcher::new(None, Arc::clone(&stop), None, HandcraftedEvaluator);
    warmup.search_root(&mut board, 5, None, &mut tt, &[], -INFINITY, INFINITY);

    // Deep pass: SE can now find TT entries with sufficient depth.
    tt.new_generation();
    let mut s = Searcher::new(None, stop, None, HandcraftedEvaluator);
    s.search_root(&mut board, 7, None, &mut tt, &[], -INFINITY, INFINITY);
    assert!(
        s.singular_extensions > 0,
        "expected at least one singular extension at depth 7 after TT warmup"
    );
}

#[test]
fn singular_extension_does_not_change_obvious_best_move() {
    // The best move in a clearly won position must be the same with or
    // without the SE counter incrementing — correctness check.
    let mut board = Board::from_fen("3q1k2/8/8/8/8/8/8/3Q2K1 w - - 0 1").unwrap();
    let result = search(&mut board, 7);
    assert_eq!(
        result.best_move.map(|m| m.to_uci()),
        Some("d1d8".to_string()),
        "SE must not corrupt the obvious best move"
    );
}

#[test]
fn lmr_reduction_table() {
    // Reduction is 0 at very small inputs.
    assert_eq!(lmr_reduction(1, 5), 0);
    assert_eq!(lmr_reduction(5, 0), 0);
    // Reduction grows with depth and move index.
    assert!(lmr_reduction(10, 10) >= lmr_reduction(5, 5));
    assert!(lmr_reduction(10, 10) >= lmr_reduction(10, 3));
    // Reasonable upper bound: no absurd reductions at achievable depths.
    assert!(lmr_reduction(64, 256) <= 20);
}

#[test]
fn has_non_pawn_material_detects_pieces() {
    // Position with queens: has non-pawn material.
    let board = Board::from_fen("3q1k2/8/8/8/8/8/8/3Q2K1 w - - 0 1").unwrap();
    assert!(has_non_pawn_material(&board));

    // King + pawn vs King: no non-pawn material for White.
    let board = Board::from_fen("8/8/8/8/8/4K3/4P3/7k w - - 0 1").unwrap();
    assert!(!has_non_pawn_material(&board));

    // King + rook vs King: has non-pawn material.
    let board = Board::from_fen("8/8/8/8/8/8/8/R3K2k w - - 0 1").unwrap();
    assert!(has_non_pawn_material(&board));
}

#[test]
fn null_move_make_unmake_restores_position() {
    let mut board = Board::from_fen(STARTING_FEN).unwrap();
    let before_fen = board.to_fen();
    let before_hash = board.hash;

    let undo = board.make_null_move();
    // Side should have flipped.
    assert_ne!(board.side_to_move, Board::from_fen(STARTING_FEN).unwrap().side_to_move);
    // Hash should have changed.
    assert_ne!(board.hash, before_hash);

    board.unmake_null_move(undo);
    assert_eq!(board.to_fen(), before_fen, "position not restored after null move");
    assert_eq!(board.hash, before_hash, "hash not restored after null move");
}

#[test]
fn null_move_clears_ep_square() {
    // Position with an active EP square.
    let fen = "rnbqkbnr/ppp1pppp/8/3pP3/8/8/PPPP1PPP/RNBQKBNR w KQkq d6 0 3";
    let mut board = Board::from_fen(fen).unwrap();
    assert!(board.ep_square.is_some(), "EP should be set before null move");

    let undo = board.make_null_move();
    assert!(board.ep_square.is_none(), "EP should be cleared by null move");

    board.unmake_null_move(undo);
    assert!(board.ep_square.is_some(), "EP should be restored after unmake");
}

#[test]
fn check_extension_counter_increments_when_in_check() {
    // A position where White is immediately in check (Black queen on f3 gives check
    // after some path). Use a direct Searcher to inspect the counter.
    // "7k/8/8/8/8/5q2/8/4K3 w - - 0 1": White king on e1, Black queen f3 — White in check.
    let mut board = Board::from_fen("7k/8/8/8/8/5q2/8/4K3 w - - 0 1").unwrap();
    let mut tt = TranspositionTable::new(1);
    let stop = Arc::new(AtomicBool::new(false));
    let mut s = Searcher::new(None, stop, None, HandcraftedEvaluator);
    s.search_root(&mut board, 3, None, &mut tt, &[], -INFINITY, INFINITY);
    assert!(
        s.check_extensions > 0,
        "expected check extensions to fire in a position starting in check"
    );
}

#[test]
fn check_extension_does_not_change_best_move_on_quiet_position() {
    // In a quiet non-check position, check extensions should not affect which
    // move is chosen — they only add depth in forced lines.
    let mut board = Board::from_fen("3q1k2/8/8/8/8/8/8/3Q2K1 w - - 0 1").unwrap();
    let mut tt = TranspositionTable::new(4);
    let stop = Arc::new(AtomicBool::new(false));
    let mut s = Searcher::new(None, stop, None, HandcraftedEvaluator);
    let (mv, _) = s.search_root(&mut board, 4, None, &mut tt, &[], -INFINITY, INFINITY);
    assert_eq!(mv.map(|m| m.to_uci()), Some("d1d8".to_string()));
}

#[test]
fn check_extension_handles_check_evasion_correctly() {
    // Starting from a position where White is in check, the engine must
    // find a legal evasion (not crash, not return None, not return a junk score).
    // "7k/8/8/8/8/5q2/8/4K3 w - - 0 1": White king e1 in check from Qf3.
    let mut board = Board::from_fen("7k/8/8/8/8/5q2/8/4K3 w - - 0 1").unwrap();
    let result = search(&mut board, 4);
    // Engine is king-only vs. king+queen — must be losing.
    assert!(result.best_move.is_some(), "must find a check evasion from in-check position");
    assert!(result.score < 0, "White should be losing here, got {}", result.score);
}

#[test]
fn aspiration_window_same_best_move_as_full_window() {
    // A full-window search and a narrow aspiration search must agree on
    // the best move (correctness check).
    let mut board = Board::from_fen("r1bqkb1r/pppp1ppp/2n2n2/4p2Q/2B1P3/8/PPPP1PPP/RNB1K1NR w KQkq - 4 4")
        .unwrap();
    let mut tt1 = TranspositionTable::new(4);
    let mut tt2 = TranspositionTable::new(4);
    let stop = Arc::new(AtomicBool::new(false));

    // Full window
    let mut s1 = Searcher::new(None, Arc::clone(&stop), None, HandcraftedEvaluator);
    let (mv_full, score_full) =
        s1.search_root(&mut board, 5, None, &mut tt1, &[], -INFINITY, INFINITY);

    // Aspiration window centred on the full-window score
    let delta = 50;
    let lo = score_full - delta;
    let hi = score_full + delta;
    let mut s2 = Searcher::new(None, stop, None, HandcraftedEvaluator);
    let (mv_asp, _) = s2.search_root(&mut board, 5, None, &mut tt2, &[], lo, hi);

    assert_eq!(
        mv_full.map(|m| m.to_uci()),
        mv_asp.map(|m| m.to_uci()),
        "aspiration and full-window should agree on best move when window is exact"
    );
}

#[test]
fn aspiration_fail_low_returns_score_at_most_alpha() {
    // If the window sits well above the true score the search fails low:
    // the returned score must be <= alpha (the lower bound of the window).
    // The starting position scores near 0; a window of [500, 600] is far above it.
    let mut board = Board::from_fen(STARTING_FEN).unwrap();
    let mut tt = TranspositionTable::new(4);
    let stop = Arc::new(AtomicBool::new(false));
    let mut s = Searcher::new(None, stop, None, HandcraftedEvaluator);

    let alpha = 500;
    let beta = 600;
    let (_, score) = s.search_root(&mut board, 4, None, &mut tt, &[], alpha, beta);
    assert!(
        score <= alpha,
        "expected fail-low with window [{alpha},{beta}], got score={score}"
    );
}

#[test]
fn aspiration_fail_high_returns_score_above_beta() {
    // If beta is set too low (below the actual score), search returns score >= beta.
    let mut board = Board::from_fen("3q1k2/8/8/8/8/8/8/3Q2K1 w - - 0 1").unwrap();
    let mut tt = TranspositionTable::new(4);
    let stop = Arc::new(AtomicBool::new(false));
    let mut s = Searcher::new(None, stop, None, HandcraftedEvaluator);

    // Full-window first to find the actual score.
    let (_, actual) = s.search_root(&mut board, 4, None, &mut tt, &[], -INFINITY, INFINITY);

    // Now search with a window far below the actual score.
    let mut tt2 = TranspositionTable::new(4);
    let stop2 = Arc::new(AtomicBool::new(false));
    let mut s2 = Searcher::new(None, stop2, None, HandcraftedEvaluator);
    let beta = actual - 50;
    let alpha = beta - 100;
    let (_, score) = s2.search_root(&mut board, 4, None, &mut tt2, &[], alpha, beta);
    assert!(
        score >= beta,
        "expected fail-high with beta={beta}, actual={actual}, got score={score}"
    );
}
