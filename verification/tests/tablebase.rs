use checksmith::board::{Board, STARTING_FEN};
use checksmith::tablebase::{
    board_to_shakmaty, init, piece_count, piece_limit, probe_dtz, probe_wdl, set_piece_limit,
    TbState, WdlScore,
};

#[test]
fn probe_returns_none_when_no_tb_loaded() {
    let tb = TbState::default();
    let board = Board::from_fen(STARTING_FEN).unwrap();
    assert_eq!(probe_wdl(&tb, &board), None);
    assert_eq!(probe_dtz(&tb, &board), None);
}

#[test]
fn wdl_draw_variants_are_effective_draws() {
    assert!(WdlScore::Draw.is_effective_draw());
    assert!(WdlScore::CursedWin.is_effective_draw());
    assert!(WdlScore::BlessedLoss.is_effective_draw());
    assert!(!WdlScore::Win.is_effective_draw());
    assert!(!WdlScore::Loss.is_effective_draw());
}

#[test]
fn wdl_scores_have_correct_sign() {
    assert!(WdlScore::Win.to_search_score() > 0);
    assert_eq!(WdlScore::Draw.to_search_score(), 0);
    assert!(WdlScore::Loss.to_search_score() < 0);
    assert_eq!(WdlScore::CursedWin.to_search_score(), 0);
    assert_eq!(WdlScore::BlessedLoss.to_search_score(), 0);
}

#[test]
fn piece_count_starting_position() {
    let board = Board::from_fen(STARTING_FEN).unwrap();
    assert_eq!(piece_count(&board), 32);
}

#[test]
fn piece_count_endgame() {
    let board = Board::from_fen("7k/8/8/8/8/8/8/K6Q w - - 0 1").unwrap();
    assert_eq!(piece_count(&board), 3);
}

#[test]
fn piece_limit_clamps_to_valid_range() {
    let mut tb = TbState::default();
    set_piece_limit(&mut tb, 99);
    assert_eq!(piece_limit(&tb), 7);
    set_piece_limit(&mut tb, 1);
    assert_eq!(piece_limit(&tb), 3);
    set_piece_limit(&mut tb, 6);
    assert_eq!(piece_limit(&tb), 6);
}

#[test]
fn init_empty_path_disables_probing() {
    let mut tb = TbState::default();
    let count = init(&mut tb, "");
    assert_eq!(count, 0);
}

#[test]
fn board_conversion_does_not_panic() {
    let fens = [
        STARTING_FEN,
        "7k/8/8/8/8/8/8/K6Q w - - 0 1",
        "8/8/8/8/8/8/4k3/4K2R w - - 0 1",
        "4k3/8/8/3P4/8/8/8/4K3 w - - 0 1",
    ];
    for fen in &fens {
        let board = Board::from_fen(fen).unwrap();
        let _ = board_to_shakmaty(&board);
    }
}
