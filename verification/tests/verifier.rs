use checksmith::board::{Board, STARTING_FEN};
use checksmith::debug::{PositionKind, SearchVerifier, VerificationFailure, VerifyPosition};
use checksmith::eval::evaluator::HandcraftedEvaluator;
use checksmith::search::{
    is_mate_score, mate_distance_plies, search, Searcher, TranspositionTable, INFINITY,
};
use std::sync::atomic::AtomicBool;
use std::sync::Arc;

#[test]
fn fail_highs_are_counted() {
    let mut board = Board::from_fen(STARTING_FEN).unwrap();
    let mut tt = TranspositionTable::new(4);
    let stop = Arc::new(AtomicBool::new(false));
    let mut s = Searcher::new(None, stop, None, HandcraftedEvaluator);
    let _ = s.search_root(&mut board, 5, None, &mut tt, &[], -INFINITY, INFINITY);
    assert!(s.fail_highs > 0, "expect at least one beta cutoff at depth 5");
}

#[test]
fn tt_hits_are_counted() {
    // depth-2 search stores entries in negamax at depth=1.
    // depth-3 search then probes those stored entries in negamax at depth=2.
    // depth-1 search goes to quiescence at depth=0 without storing, so we
    // need depth-2 + depth-3 (not depth-1 + depth-2) to get real TT hits.
    let mut board = Board::from_fen(STARTING_FEN).unwrap();
    let mut tt = TranspositionTable::new(4);
    let stop = Arc::new(AtomicBool::new(false));
    let mut s = Searcher::new(None, stop, None, HandcraftedEvaluator);
    let _ = s.search_root(&mut board, 2, None, &mut tt, &[], -INFINITY, INFINITY);
    let _ = s.search_root(&mut board, 3, None, &mut tt, &[], -INFINITY, INFINITY);
    assert!(s.tt_hits > 0, "depth-3 search should hit TT entries stored by depth-2");
}

#[test]
fn researches_occur_at_pv_nodes() {
    // A rich middlegame with PV nodes should trigger PVS re-searches.
    let fen = "r1bqk2r/pppp1ppp/2n2n2/2b1p3/2B1P3/2N2N2/PPPP1PPP/R1BQK2R w KQkq - 4 5";
    let mut board = Board::from_fen(fen).unwrap();
    let mut tt = TranspositionTable::new(4);
    let stop = Arc::new(AtomicBool::new(false));
    let mut s = Searcher::new(None, stop, None, HandcraftedEvaluator);
    let _ = s.search_root(&mut board, 6, None, &mut tt, &[], -INFINITY, INFINITY);
    // PVS always re-searches the PV child: at least 1 re-search expected.
    assert!(s.researches > 0, "PVS should trigger at least one re-search at depth 6");
}

#[test]
fn fail_high_rate_in_expected_range() {
    let mut board = Board::from_fen(STARTING_FEN).unwrap();
    let mut tt = TranspositionTable::new(4);
    let stop = Arc::new(AtomicBool::new(false));
    let mut s = Searcher::new(None, stop, None, HandcraftedEvaluator);
    let _ = s.search_root(&mut board, 6, None, &mut tt, &[], -INFINITY, INFINITY);
    let rate = s.fail_highs as f64 / s.nodes as f64;
    // Healthy engines: 40–80% beta cutoffs (wide range; exact value is position-dependent).
    assert!(rate > 0.1, "fail_high_rate={:.2} suspiciously low", rate);
    assert!(rate < 1.0, "fail_high_rate={:.2} impossibly high", rate);
}

#[test]
fn verifier_startpos_passes_all_checks() {
    let v = SearchVerifier::new();
    let pos = v.positions.iter().find(|p| p.description.contains("Starting position")).unwrap();
    let result = v.verify_one(pos, 4);
    assert!(
        result.passed(),
        "starting position verification failed: {:?}",
        result.failures
    );
}

#[test]
fn verifier_detects_illegal_pv_from_corrupted_tt() {
    // Verify a clean mate-in-1 position: Re8# (back-rank mate).
    // This guards against the category of TT-corruption bug that produces illegal PVs;
    // the positive case confirms the checker produces no false positives on clean positions.
    let pos = VerifyPosition::new(
        "Re8# (back-rank mate, pawns block escape)",
        "6k1/5ppp/8/8/8/8/5PPP/4R1K1 w - - 0 1",
        2,
        PositionKind::ForcedMateIn { at_most_moves: 1 },
    );
    let v = SearchVerifier { positions: vec![] };
    let result = v.verify_one(&pos, 2);
    assert!(result.passed(), "clean mate-in-1 should pass all checks: {:?}", result.failures);
    assert_eq!(result.pv_uci.len(), 1, "mate-in-1 PV should be exactly 1 move");
}

#[test]
fn verifier_correct_mate_score() {
    let pos = VerifyPosition::new(
        "Scholar's mate",
        "r1bqkb1r/pppp1ppp/2n2n2/4p2Q/2B1P3/8/PPPP1PPP/RNB1K1NR w KQkq - 4 4",
        4,
        PositionKind::BestMove { uci: "h5f7".into() },
    );
    let v = SearchVerifier { positions: vec![] };
    let result = v.verify_one(&pos, 4);
    assert!(result.passed(), "scholar's mate check failed: {:?}", result.failures);
}

#[test]
fn verifier_catches_wrong_best_move() {
    let pos = VerifyPosition::new(
        "Deliberately wrong expected move",
        "3q1k2/8/8/8/8/8/8/3Q2K1 w - - 0 1",
        2,
        PositionKind::BestMove { uci: "d1a1".into() }, // wrong; correct is d1d8
    );
    let v = SearchVerifier { positions: vec![] };
    let result = v.verify_one(&pos, 2);
    let has_wrong_move_failure = result.failures.iter().any(|f| {
        matches!(f, VerificationFailure::WrongBestMove { .. })
    });
    assert!(has_wrong_move_failure, "should detect wrong best move");
}

#[test]
fn verifier_root_move_is_always_legal() {
    // Run a search on every standard position and confirm no illegal moves.
    let v = SearchVerifier::new();
    let results = v.run_all(3);
    for r in &results {
        let illegal = r.failures.iter().any(|f| {
            matches!(f, VerificationFailure::IllegalRootMove { .. })
        });
        assert!(!illegal, "illegal root move in '{}': {:?}", r.description, r.failures);
    }
}

#[test]
fn verifier_pv_always_legal() {
    let v = SearchVerifier::new();
    let results = v.run_all(4);
    for r in &results {
        let bad_pv = r.failures.iter().any(|f| {
            matches!(f, VerificationFailure::IllegalPvMove { .. })
        });
        assert!(!bad_pv, "illegal PV move in '{}': {:?}", r.description, r.failures);
    }
}

#[test]
fn verifier_all_deterministic() {
    let v = SearchVerifier::new();
    let results = v.run_all(4);
    for r in &results {
        let nondeterministic = r.failures.iter().any(|f| {
            matches!(f, VerificationFailure::NonDeterministic { .. })
        });
        assert!(
            !nondeterministic,
            "non-determinism in '{}': {:?}",
            r.description, r.failures
        );
    }
}

#[test]
fn score_bounds_never_violated() {
    let v = SearchVerifier::new();
    let results = v.run_all(4);
    for r in &results {
        let out_of_bounds = r.failures.iter().any(|f| {
            matches!(f, VerificationFailure::ScoreOutOfBounds { .. })
        });
        assert!(
            !out_of_bounds,
            "score out of bounds in '{}': {}",
            r.description, r.score
        );
    }
}

#[test]
fn mate_in_one_verifier_passes() {
    // Re8#: rook e1→e8 is not adjacent to king g8 so Black cannot capture it.
    // Black pawns block all 7th-rank escapes; 8th rank covered by the rook.
    let result = search(
        &mut Board::from_fen("6k1/5ppp/8/8/8/8/5PPP/4R1K1 w - - 0 1").unwrap(),
        2,
    );
    assert!(is_mate_score(result.score) && result.score > 0, "score={}", result.score);
    assert_eq!(mate_distance_plies(result.score), 1, "should be mate in 1 ply");
}

#[test]
fn whole_suite_passes_at_depth_4() {
    let v = SearchVerifier::new();
    let results = v.run_all(4);
    let failures: Vec<_> = results.iter().filter(|r| !r.passed()).collect();
    assert!(
        failures.is_empty(),
        "{} position(s) failed verification:\n{}",
        failures.len(),
        failures
            .iter()
            .map(|r| format!("  {} → {:?}", r.description, r.failures))
            .collect::<Vec<_>>()
            .join("\n"),
    );
}
