use checksmith::board::{Board, STARTING_FEN};
use checksmith::selfplay::opening::{pick, OPENINGS};
use checksmith::selfplay::uci_text::parse_score_cp;
use checksmith::selfplay::{
    flip_outcome, play_game, play_match, AbortReason, DrawReason, GameOutcome, MatchConfig,
    MatchResult, OpeningSource, TimeControl,
};

#[test]
fn game_from_startpos_terminates() {
    let config = MatchConfig {
        tc: TimeControl::FixedDepth(2),
        max_moves: 400,
        ..Default::default()
    };
    let record = play_game(STARTING_FEN, &config);
    assert!(
        !matches!(record.outcome, GameOutcome::Aborted(_)),
        "game should not abort: {:?}",
        record.outcome
    );
    assert!(!record.moves.is_empty(), "at least one move must be played");
}

#[test]
fn fifty_move_draw_detected() {
    let fen = "8/8/4k3/8/8/4K3/8/8 w - - 100 50";
    let config = MatchConfig {
        tc: TimeControl::FixedDepth(1),
        max_moves: 400,
        ..Default::default()
    };
    let record = play_game(fen, &config);
    assert_eq!(record.outcome, GameOutcome::Draw(DrawReason::FiftyMoveDraw));
    assert_eq!(record.moves.len(), 0);
}

#[test]
fn adjudication_fires_when_threshold_maxed() {
    let config = MatchConfig {
        tc: TimeControl::FixedDepth(1),
        adj_threshold: i32::MAX,
        adj_min_moves: 2,
        max_moves: 400,
        ..Default::default()
    };
    let record = play_game(STARTING_FEN, &config);
    assert_eq!(record.outcome, GameOutcome::Draw(DrawReason::Adjudicated));
    assert!(record.moves.len() >= 2);
}

#[test]
fn max_moves_cap_fires() {
    let config = MatchConfig {
        tc: TimeControl::FixedDepth(1),
        adj_threshold: 0,
        adj_min_moves: 9999,
        max_moves: 4,
        ..Default::default()
    };
    let record = play_game(STARTING_FEN, &config);
    assert!(record.moves.len() <= 4, "move count must respect max_moves");
}

#[test]
fn match_3_games_no_aborts() {
    let config = MatchConfig {
        games: 3,
        tc: TimeControl::FixedDepth(2),
        max_moves: 200,
        ..Default::default()
    };
    let (result, _) = play_match(&config, &Vec::new());
    assert_eq!(result.aborts, 0, "self-play should produce no illegal moves");
    assert_eq!(result.total(), 3);
}

#[test]
fn match_result_display() {
    let r = MatchResult {
        white_wins: 4,
        draws: 6,
        black_wins: 3,
        aborts: 1,
    };
    let s = r.text();
    assert!(s.contains("W:4"), "must show white wins");
    assert!(s.contains("D:6"), "must show draws");
    assert!(s.contains("aborts:1"), "must show aborts");
}

#[test]
fn stalemate_detected() {
    let fen = "k7/2Q5/2K5/8/8/8/8/8 b - - 0 1";
    let config = MatchConfig {
        tc: TimeControl::FixedDepth(1),
        max_moves: 400,
        ..Default::default()
    };
    let record = play_game(fen, &config);
    assert_eq!(record.outcome, GameOutcome::Draw(DrawReason::Stalemate));
    assert_eq!(record.moves.len(), 0);
}

#[test]
fn checkmate_detected() {
    let fen = "4R1k1/6pp/6K1/8/8/8/8/8 b - - 0 1";
    let config = MatchConfig {
        tc: TimeControl::FixedDepth(1),
        max_moves: 400,
        ..Default::default()
    };
    let record = play_game(fen, &config);
    assert_eq!(record.outcome, GameOutcome::WhiteWins);
    assert_eq!(record.moves.len(), 0);
}

#[test]
fn on_game_callback_invoked_for_each_game() {
    let config = MatchConfig {
        games: 5,
        tc: TimeControl::FixedDepth(1),
        max_moves: 100,
        ..Default::default()
    };
    let (_, records) = play_match(&config, &Vec::new());
    assert_eq!(records.len(), 5);
}

#[test]
fn game_outcome_display() {
    assert_eq!(GameOutcome::WhiteWins.text(), "White wins");
    assert_eq!(GameOutcome::Draw(DrawReason::Stalemate).text(), "Draw (stalemate)");
    assert_eq!(GameOutcome::Draw(DrawReason::FiftyMoveDraw).text(), "Draw (50-move)");
    assert_eq!(GameOutcome::Aborted(AbortReason::IllegalMove).text(), "ABORT: illegal move");
}

#[test]
fn flip_outcome_swaps_wins() {
    assert_eq!(flip_outcome(GameOutcome::WhiteWins), GameOutcome::BlackWins);
    assert_eq!(flip_outcome(GameOutcome::BlackWins), GameOutcome::WhiteWins);
    assert_eq!(
        flip_outcome(GameOutcome::Draw(DrawReason::Stalemate)),
        GameOutcome::Draw(DrawReason::Stalemate)
    );
}

#[test]
fn opening_source_epd_wraps_around() {
    let fens = vec!["rnbqkbnr/pppppppp/8/8/8/8/PPPPPPPP/RNBQKBNR w KQkq - 0 1".to_string()];
    let src  = OpeningSource::Epd(fens);
    assert_eq!(src.pick(0), src.pick(1)); // wraps to index 0
    assert_eq!(src.len(), 1);
}

#[test]
fn paired_games_play_requested_count() {
    let config = MatchConfig {
        games:  6,
        paired: true,
        tc:     TimeControl::FixedDepth(1),
        max_moves: 50,
        ..Default::default()
    };
    let (result, records) = play_match(&config, &Vec::new());
    assert_eq!(records.len(), 6);
    assert_eq!(result.total(), 6);
}

#[test]
fn all_opening_fens_parse() {
    for (i, &fen) in OPENINGS.iter().enumerate() {
        Board::from_fen(fen)
            .unwrap_or_else(|e| panic!("opening[{}] failed to parse: {} — {:?}", i, fen, e));
    }
}

#[test]
fn pick_cycles_correctly() {
    let n = OPENINGS.len();
    // First cycle
    for i in 0..n {
        assert_eq!(pick(i), OPENINGS[i]);
    }
    // Second cycle wraps
    for i in 0..n {
        assert_eq!(pick(i + n), OPENINGS[i]);
    }
}

#[test]
fn at_least_twenty_openings() {
    assert!(OPENINGS.len() >= 20, "need at least 20 openings for diversity");
}

#[test]
fn parse_score_cp_basic() {
    let line = "info depth 10 seldepth 14 score cp 25 nodes 12345 nps 1234567 pv e2e4";
    assert_eq!(parse_score_cp(line), Some(25));
}

#[test]
fn parse_score_cp_negative() {
    let line = "info depth 8 score cp -42 nodes 999";
    assert_eq!(parse_score_cp(line), Some(-42));
}

#[test]
fn parse_score_cp_mate_line_returns_none() {
    // "score mate N" — we don't parse mate scores here, return None.
    let line = "info depth 5 score mate 3 nodes 1000";
    assert_eq!(parse_score_cp(line), None);
}

#[test]
fn parse_score_cp_absent_returns_none() {
    assert_eq!(parse_score_cp("info depth 1 nodes 100"), None);
}
