use checksmith::board::{Board, Color, STARTING_FEN};
use checksmith::search::ordering::{
    score_move, ContinuationHistory, CounterMoves, History, Killers, HISTORY_MAX, SCORE_COUNTER,
    SCORE_KILLER_1, SCORE_KILLER_2, SCORE_WIN_CAP,
};
use checksmith::uci::parser::parse_uci_move;

// White pawn c4×d5 queen (undefended): SEE = 900 (winning capture).
// White queen d1×d5 queen (undefended): SEE = 900 (same value, different attacker).
// Both should land in the win-cap band with identical scores.
#[test]
fn winning_capture_ranked_by_see() {
    // White pawn c4, White queen d1, Black queen d5 (undefended), kings.
    let board = Board::from_fen("8/8/8/3q4/2P5/8/8/3Q3K w - - 0 1").unwrap();
    let killers = Killers::new();
    let history = History::new();
    let pxq = parse_uci_move(&board, "c4d5").unwrap();
    let qxq = parse_uci_move(&board, "d1d5").unwrap();
    let pxq_s = score_move(&board, pxq, 0, None, &killers, &history, None);
    let qxq_s = score_move(&board, qxq, 0, None, &killers, &history, None);
    // d5 is undefended: SEE = 900 for both.
    assert_eq!(pxq_s, qxq_s, "equal SEE → equal score");
    assert!(pxq_s >= SCORE_WIN_CAP, "winning capture must be in the win-cap band");
}

#[test]
fn losing_capture_goes_below_quiets() {
    // 8/8/2b5/3p4/4Q3/8/8/7K w - - 0 1
    // White queen e4×d5 pawn, defended by Black bishop c6.  SEE = –800.
    let board = Board::from_fen("8/8/2b5/3p4/4Q3/8/8/7K w - - 0 1").unwrap();
    let killers = Killers::new();
    let history = History::new();
    let losing_cap = parse_uci_move(&board, "e4d5").unwrap();
    let cap_score = score_move(&board, losing_cap, 0, None, &killers, &history, None);
    // Losing capture must score below killer band (below 0).
    assert!(cap_score < 0, "losing capture must sort after quiet moves, got {cap_score}");
}

#[test]
fn tt_move_ranks_above_captures() {
    let board = Board::from_fen("rnbqkbnr/ppp1pppp/8/3p4/4P3/8/PPPP1PPP/RNBQKBNR w KQkq d6 0 2")
        .unwrap();
    let killers = Killers::new();
    let history = History::new();
    let capture = parse_uci_move(&board, "e4d5").unwrap();
    let quiet = parse_uci_move(&board, "g1f3").unwrap();

    let cap_score = score_move(&board, capture, 0, None, &killers, &history, None);
    let tt_score = score_move(&board, quiet, 0, Some(quiet), &killers, &history, None);
    assert!(tt_score > cap_score, "the hash move must be tried first");
    // e4xd5 is defended by the Black queen → SEE = 0 → SCORE_WIN_CAP + 0
    assert!(cap_score >= SCORE_WIN_CAP, "neutral capture sits in the win-cap band");
}

#[test]
fn killers_then_history_for_quiets() {
    let board = Board::from_fen(STARTING_FEN).unwrap();
    let mut killers = Killers::new();
    let mut history = History::new();
    let killer = parse_uci_move(&board, "e2e4").unwrap();
    let other = parse_uci_move(&board, "d2d4").unwrap();

    killers.add(0, killer);
    history.add(Color::White, other, 5);

    let ks = score_move(&board, killer, 0, None, &killers, &history, None);
    let hs = score_move(&board, other, 0, None, &killers, &history, None);
    assert!(ks > hs, "a killer outranks a history move");
    assert_eq!(ks, SCORE_KILLER_1);
}

#[test]
fn counter_move_ranks_between_killers_and_history() {
    let board = Board::from_fen(STARTING_FEN).unwrap();
    let killers = Killers::new();
    let history = History::new();
    let e4 = parse_uci_move(&board, "e2e4").unwrap();
    let d4 = parse_uci_move(&board, "d2d4").unwrap();

    let counter = score_move(&board, e4, 0, None, &killers, &history, Some(e4));
    let plain   = score_move(&board, d4, 0, None, &killers, &history, None);

    assert_eq!(counter, SCORE_COUNTER, "counter-move must land in the counter band");
    assert!(counter > plain, "counter-move ranks above plain history");
    assert!(counter < SCORE_KILLER_2, "counter-move ranks below killer-2");
}

#[test]
fn history_add_uses_gravity() {
    let mut history = History::new();
    // After many large-depth rewards the entry should saturate near HISTORY_MAX.
    let board = Board::from_fen(STARTING_FEN).unwrap();
    let e4 = parse_uci_move(&board, "e2e4").unwrap();
    for _ in 0..1000 {
        history.add(Color::White, e4, 10);
    }
    let val = history.get(Color::White, e4);
    assert!(val <= HISTORY_MAX, "history must stay <= HISTORY_MAX, got {val}");
    assert!(val > 0, "should have positive history after rewards");
}

#[test]
fn history_malus_reduces_score() {
    let mut history = History::new();
    let board = Board::from_fen(STARTING_FEN).unwrap();
    let e4 = parse_uci_move(&board, "e2e4").unwrap();
    // Build up a moderate score first.
    for _ in 0..20 {
        history.add(Color::White, e4, 5);
    }
    let before = history.get(Color::White, e4);
    history.add_malus(Color::White, e4, 5);
    let after = history.get(Color::White, e4);
    assert!(after < before, "malus must reduce the history score");
}

#[test]
fn history_decay_halves_values() {
    let mut history = History::new();
    let board = Board::from_fen(STARTING_FEN).unwrap();
    let e4 = parse_uci_move(&board, "e2e4").unwrap();
    history.add(Color::White, e4, 10);
    let before = history.get(Color::White, e4);
    history.decay();
    let after = history.get(Color::White, e4);
    assert_eq!(after, before / 2, "decay must halve the history score");
}

#[test]
fn continuation_history_stores_and_retrieves() {
    let mut ch = ContinuationHistory::new();
    ch.update(0, 10, 2, 30, 100);
    assert_eq!(ch.get(0, 10, 2, 30), 100);
    assert_eq!(ch.get(0, 10, 2, 31), 0, "unset entries should be zero");
}

#[test]
fn continuation_history_gravity_bounds() {
    let mut ch = ContinuationHistory::new();
    for _ in 0..1000 {
        ch.update(0, 0, 0, 0, 169); // depth=13 → bonus=169
    }
    assert!(ch.get(0, 0, 0, 0) <= HISTORY_MAX, "must not exceed HISTORY_MAX");
    for _ in 0..1000 {
        ch.update(0, 0, 0, 0, -169);
    }
    assert!(ch.get(0, 0, 0, 0) >= -HISTORY_MAX, "must not go below -HISTORY_MAX");
}

#[test]
fn counter_moves_get_returns_none_when_empty() {
    let cm = CounterMoves::new();
    assert_eq!(cm.get(None), None);
}

#[test]
fn counter_moves_set_and_get_round_trip() {
    let mut cm = CounterMoves::new();
    let board = Board::from_fen(STARTING_FEN).unwrap();
    let e4 = parse_uci_move(&board, "e2e4").unwrap();
    let d4 = parse_uci_move(&board, "d2d4").unwrap();
    cm.set(e4, d4);
    assert_eq!(cm.get(Some(e4)), Some(d4));
    assert_eq!(cm.get(Some(d4)), None, "unset key should return None");
}
