use checksmith::board::{Board, STARTING_FEN};
use checksmith::nnue::features::{active_features, feature_index};
use checksmith::nnue::features::{HIDDEN_SIZE, INPUT_FEATURES, PIECE_TYPES, SQUARES};

#[test]
fn feature_index_max_is_in_bounds() {
    // Largest possible index: king on h8, Queen, enemy, piece on h8.
    let idx = feature_index(63, PIECE_TYPES - 1, false, 63);
    assert!(idx < INPUT_FEATURES, "max feature index {} >= INPUT_FEATURES {}", idx, INPUT_FEATURES);
}

#[test]
fn feature_index_min_is_zero() {
    assert_eq!(feature_index(0, 0, true, 0), 0);
}

#[test]
fn feature_index_same_color_differs_from_enemy() {
    let same = feature_index(0, 0, true,  0);
    let diff = feature_index(0, 0, false, 0);
    assert_ne!(same, diff);
    assert_eq!(diff - same, SQUARES); // color_bit shifts by 64
}

#[test]
fn active_features_startpos_count() {
    let board = Board::from_fen(STARTING_FEN).unwrap();
    let (wf, bf) = active_features(&board);
    // 15 White non-king pieces (8P+2N+2B+2R+1Q) + 15 Black = 30 per perspective.
    assert_eq!(wf.len(), 30, "expected 30 white-perspective features, got {}", wf.len());
    assert_eq!(bf.len(), 30, "expected 30 black-perspective features, got {}", bf.len());
}

#[test]
fn active_features_are_in_bounds() {
    let board = Board::from_fen(STARTING_FEN).unwrap();
    let (wf, bf) = active_features(&board);
    for &f in wf.iter().chain(bf.iter()) {
        assert!(f < INPUT_FEATURES, "feature {} out of bounds", f);
    }
}

#[test]
fn active_features_no_duplicates() {
    let board = Board::from_fen(STARTING_FEN).unwrap();
    let (mut wf, mut bf) = active_features(&board);
    wf.sort_unstable();
    bf.sort_unstable();
    wf.dedup();
    bf.dedup();
    let (wf2, bf2) = active_features(&board);
    assert_eq!(wf.len(), wf2.len(), "duplicate white features detected");
    assert_eq!(bf.len(), bf2.len(), "duplicate black features detected");
}

#[test]
fn constants_match_evaluator_constants() {
    // Guard against drift between this module and evaluator.rs stubs.
    assert_eq!(INPUT_FEATURES, 40_960);
    assert_eq!(HIDDEN_SIZE, 512);
}
