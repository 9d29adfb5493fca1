use checksmith::board::{Board, STARTING_FEN};
use checksmith::movegen::Move;
use checksmith::selfplay::game::{judge, take_turn, Turn};
use checksmith::selfplay::matches::{play_next_against, play_next_self, read_saved_results};
use checksmith::selfplay::options::MatchOptions;
use checksmith::selfplay::sprt::SprtOutcome;
use checksmith::selfplay::uci_text::{
    go_command, position_command, read_engine_line, setoption_command, EngineLine,
};
use checksmith::selfplay::{
    play_game, play_game_dyn, play_match, AbortReason, ChessEngine, DrawReason, GameOutcome, InternalEngine, MatchConfig,
    MatchProgress, MatchResult, OpeningSource, TimeControl,
};
use checksmith::uci::parser::parse_uci_move;

fn board(fen: &str) -> Board {
    Board::from_fen(fen).unwrap()
}

fn args(list: &[&str]) -> Vec<String> {
    list.iter().map(|s| s.to_string()).collect()
}

/// An engine that answers with the moves of a list.
struct Scripted {
    moves: Vec<&'static str>,
    next: usize,
}

impl Scripted {
    fn new(moves: &[&'static str]) -> Scripted {
        Scripted { moves: moves.to_vec(), next: 0 }
    }
}

impl ChessEngine for Scripted {
    fn new_game(&mut self, _opening_fen: &str) {
        self.next = 0;
    }

    fn get_move(
        &mut self,
        board: &mut Board,
        _moves_played: &Vec<Move>,
        _tc: &TimeControl,
        _game_history: &Vec<u64>,
    ) -> (Option<Move>, i32) {
        let text = match self.moves.get(self.next) {
            Some(t) => *t,
            None => return (None, 100),
        };
        self.next += 1;
        let mv = match parse_uci_move(board, text) {
            Some(m) => m,
            None => Move::null(),
        };
        // What an engine does to its board does not matter.
        *board = Board::empty();
        (Some(mv), 100)
    }
}

fn play(white: &[&'static str], black: &[&'static str], max_moves: usize) -> (usize, GameOutcome) {
    let config = MatchConfig { max_moves, ..Default::default() };
    let mut w = Scripted::new(white);
    let mut b = Scripted::new(black);
    let r = play_game_dyn(STARTING_FEN, &config, &mut w, &mut b);
    (r.moves.len(), r.outcome)
}

#[test]
fn games_end_as_they_should() {
    assert_eq!(play(&["f2f3", "g2g4"], &["e7e5", "d8h4"], 100), (4, GameOutcome::BlackWins));
    assert_eq!(
        play(&["e2e4"], &["e7e5"], 100),
        (2, GameOutcome::Aborted(AbortReason::NoMoveFound))
    );
    assert_eq!(
        play(&["e2e5"], &[], 100),
        (0, GameOutcome::Aborted(AbortReason::IllegalMove))
    );
    let knights_w = ["g1f3", "f3g1", "g1f3", "f3g1", "g1f3"];
    let knights_b = ["g8f6", "f6g8", "g8f6", "f6g8", "g8f6"];
    assert_eq!(
        play(&knights_w, &knights_b, 100),
        (8, GameOutcome::Draw(DrawReason::Repetition))
    );
    assert_eq!(
        play(&knights_w, &knights_b, 3),
        (3, GameOutcome::Draw(DrawReason::Adjudicated))
    );
}

#[test]
fn bad_openings_give_no_game() {
    let config = MatchConfig::default();
    for fen in ["nonsense", "8/8/8/8/8/8/8/R7 w - - 0 1"] {
        let r = play_game_dyn(fen, &config, &mut InternalEngine::new(), &mut InternalEngine::new());
        assert!(r.moves.is_empty());
        assert_eq!(r.outcome, GameOutcome::Aborted(AbortReason::NoMoveFound));
    }
}

#[test]
fn standing_of_a_game() {
    let start = board(STARTING_FEN);
    let legal = start.legal_moves();
    let at = |history: &[u64], n, max| judge(&start, &legal, &history.to_vec(), n, max);
    assert_eq!(at(&[], 0, 10), None);
    assert_eq!(at(&[start.hash, 1], 0, 10), None);
    assert_eq!(
        at(&[start.hash, 1, start.hash], 0, 10),
        Some(GameOutcome::Draw(DrawReason::Repetition))
    );
    assert_eq!(at(&[], 10, 10), Some(GameOutcome::Draw(DrawReason::Adjudicated)));
}

#[test]
fn turns_follow_from_answers() {
    let start = board(STARTING_FEN);
    let legal = start.legal_moves();
    let e4 = parse_uci_move(&start, "e2e4").unwrap();
    let end = |r| Turn::End(GameOutcome::Aborted(r));
    assert_eq!(take_turn(&legal, None, 0, 3, 10, 5), (end(AbortReason::NoMoveFound), 4));
    assert_eq!(
        take_turn(&legal, Some(Move::null()), 50, 3, 10, 5),
        (end(AbortReason::IllegalMove), 0)
    );
    assert_eq!(take_turn(&legal, Some(e4), -9, 3, 10, 5), (Turn::Play(e4), 4));
    assert_eq!(take_turn(&legal, Some(e4), -9, 4, 10, 5), (Turn::Adjudicate(e4), 5));
    assert_eq!(take_turn(&legal, Some(e4), 10, 4, 10, 5), (Turn::Play(e4), 0));
    assert_eq!(take_turn(&legal, Some(e4), i32::MIN, 4, 10, 5), (Turn::Play(e4), 0));
}

#[test]
fn progress_of_a_paired_match() {
    let mut p = MatchProgress::new();
    let mut seen = Vec::new();
    for _ in 0..5 {
        seen.push((p.opening_idx, p.is_flipped(true)));
        p.advance(GameOutcome::WhiteWins, true);
    }
    assert_eq!(seen, vec![(0, false), (0, true), (1, false), (1, true), (2, false)]);
    assert_eq!(p.result.white_wins, 5);
    assert_eq!(p.result.total(), 5);
}

#[test]
fn results_are_resumed_from_a_log() {
    let lines = args(&["W", " D ", "L", "W", "x", ""]);
    assert_eq!(read_saved_results(&lines), (2, 1, 1));
    let p = MatchProgress::resumed(&lines, true);
    assert_eq!((p.game_idx, p.opening_idx), (6, 3));
    assert_eq!(
        p.result,
        MatchResult { white_wins: 2, draws: 1, black_wins: 1, aborts: 0 }
    );
    assert_eq!(MatchProgress::resumed(&lines, false).opening_idx, 6);
    assert_eq!(GameOutcome::BlackWins.log_letter(), Some('L'));
    assert_eq!(GameOutcome::Aborted(AbortReason::IllegalMove).log_letter(), None);
    assert_eq!(p.result.text(), "W:2 D:1 L:1  aborts:0");
}

#[test]
fn openings_come_from_lines() {
    let s = OpeningSource::from_epd_lines(&args(&[
        "# comment",
        "8/8/8/8/8/8/8/K1k5 w - - bm Ka2;",
        "8/8/8/8/8/8/8/K1k5 b - -",
    ]));
    assert_eq!(s.len(), 2);
    assert_eq!(s.pick(0), "8/8/8/8/8/8/8/K1k5 w - - 0 1");
    assert_eq!(s.pick(3), "8/8/8/8/8/8/8/K1k5 b - - 0 1");
    let none = OpeningSource::from_epd_lines(&args(&["#"]));
    assert!(matches!(none, OpeningSource::Internal));
    let empty = OpeningSource::Epd(Vec::new());
    assert!(empty.is_empty());
    assert_eq!(empty.pick(25), OpeningSource::Internal.pick(1));
}

#[test]
fn lines_to_and_from_an_engine() {
    let start = board(STARTING_FEN);
    let legal = start.legal_moves();
    let e4 = parse_uci_move(&start, "e2e4").unwrap();
    let d4 = parse_uci_move(&start, "d2d4").unwrap();
    assert_eq!(position_command("F", &vec![]), "position fen F");
    assert_eq!(position_command("F", &vec![e4, d4]), "position fen F moves e2e4 d2d4");
    assert_eq!(go_command(&TimeControl::FixedDepth(7)), "go depth 7");
    assert_eq!(go_command(&TimeControl::MoveTime(250)), "go movetime 250");
    assert_eq!(setoption_command("Hash", -3), "setoption name Hash value -3");
    let read = |line: &str| read_engine_line(line, &legal);
    assert_eq!(read("info depth 3 score cp -17 pv e2e4"), EngineLine::Info(Some(-17)));
    assert_eq!(read("info score mate 3 score cp 4"), EngineLine::Info(Some(4)));
    assert_eq!(read("info score"), EngineLine::Info(None));
    assert_eq!(read("bestmove e2e4 ponder e7e5"), EngineLine::BestMove(Some(e4)));
    assert_eq!(read("bestmove (none)"), EngineLine::BestMove(None));
    assert_eq!(read("bestmove e2e5"), EngineLine::BestMove(None));
    assert_eq!(read("bestmove "), EngineLine::BestMove(None));
    assert_eq!(read("readyok"), EngineLine::Other);
}

#[test]
fn match_arguments() {
    let o = MatchOptions::parse(&args(&[]));
    assert_eq!((o.games, o.depth, o.use_time, o.paired), (20, 5, false, false));
    assert_eq!(o.time_control(), TimeControl::FixedDepth(5));
    let o = MatchOptions::parse(&args(&["100", "7", "--paired", "9"]));
    assert_eq!((o.games, o.depth, o.paired), (100, 7, true));
    let o = MatchOptions::parse(&args(&[
        "--vs", "base", "--openings", "a.epd", "--save", "s", "--resume", "r", "--time", "50",
    ]));
    assert_eq!(o.vs_path.as_deref(), Some("base"));
    assert_eq!(o.epd_path.as_deref(), Some("a.epd"));
    assert_eq!(o.save_path.as_deref(), Some("s"));
    assert_eq!(o.resume_path.as_deref(), Some("r"));
    assert_eq!(o.time_control(), TimeControl::MoveTime(50));
    assert!(o.wants_sprt());
    let o = MatchOptions::parse(&args(&["--vs", "base", "--no-sprt-stop", "-d", "3"]));
    assert!(!o.wants_sprt());
    assert_eq!(o.depth, 3);
    assert!(!MatchOptions::parse(&args(&["--vs"])).wants_sprt());
    assert_eq!(SprtOutcome::H0Accepted.decision(), "REJECTED  (no improvement detected)");
}

#[test]
fn games_of_a_match_are_played_one_by_one() {
    let config = MatchConfig {
        games: 2,
        paired: true,
        tc: TimeControl::FixedDepth(1),
        max_moves: 10,
        ..Default::default()
    };
    let mut p = MatchProgress::new();
    let first = play_next_self(&config, &mut p);
    assert!(first.moves.len() <= 10);
    assert_eq!((p.game_idx, p.opening_idx), (1, 0));
    play_next_self(&config, &mut p);
    assert_eq!((p.game_idx, p.opening_idx), (2, 1));

    // The other engine has no move to offer: it loses nothing, the game is void.
    let mut p = MatchProgress::new();
    let mut other = Scripted::new(&[]);
    let r = play_next_against(&config, &mut p, &mut other);
    assert_eq!(r.outcome, GameOutcome::Aborted(AbortReason::NoMoveFound));
    let r = play_next_against(&config, &mut p, &mut other);
    assert_eq!(r.outcome, GameOutcome::Aborted(AbortReason::NoMoveFound));
    assert_eq!((p.game_idx, p.opening_idx, p.result.aborts), (2, 1, 2));
}

#[test]
fn a_match_goes_on_from_saved_results() {
    let config = MatchConfig {
        games: 3,
        tc: TimeControl::FixedDepth(1),
        max_moves: 6,
        ..Default::default()
    };
    let saved = vec!["W".to_string(), "D".to_string()];
    let (result, records) = play_match(&config, &saved);
    assert_eq!(records.len(), 1);
    assert_eq!(result.total(), 3);
    assert!(result.white_wins >= 1 && result.draws >= 1);
    assert_eq!(result.aborts, 0);
    // Nothing is left to play.
    let all: Vec<String> = (0..5).map(|_| "L".to_string()).collect();
    let (result, records) = play_match(&config, &all);
    assert_eq!((result.black_wins, records.len()), (5, 0));
}

#[test]
fn adjudication_waits_for_a_row_of_drawish_scores() {
    let config = MatchConfig {
        tc: TimeControl::FixedDepth(1),
        adj_threshold: 1_000_000,
        adj_min_moves: 4,
        max_moves: 50,
        ..Default::default()
    };
    let r = play_game(STARTING_FEN, &config);
    assert_eq!(r.moves.len(), 4);
    assert_eq!(r.outcome, GameOutcome::Draw(DrawReason::Adjudicated));
}
