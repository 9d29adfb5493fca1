use checksmith::bench::{fmt_nodes, fmt_score, is_solved, run_bench, BenchLine, BenchResult};
use checksmith::board::Board;
use checksmith::debug::checks::check;
use checksmith::debug::{PositionKind, SearchVerifier, VerificationFailure, VerifyPosition};
use checksmith::epd::run::{limits_for, parse_options, solve, tally, EpdOptions, Skipped};
use checksmith::epd::{parse_line, parse_lines, san_to_move};
use checksmith::search::TranspositionTable;
use checksmith::uci::parser::parse_uci_move;
use std::sync::atomic::AtomicBool;
use std::sync::Arc;

fn board(fen: &str) -> Board {
    Board::from_fen(fen).unwrap()
}

fn args(list: &[&str]) -> Vec<String> {
    list.iter().map(|s| s.to_string()).collect()
}

#[test]
fn epd_fields_and_operations() {
    let e = parse_line("  8/8/8/8/8/8/8/K1k5 w - - bm Ka2 Kb1; ce 5; am Kb2 ;id \"a b\"; bm Kx  ")
        .unwrap();
    assert_eq!(e.fen, "8/8/8/8/8/8/8/K1k5 w - - 0 1");
    assert_eq!(e.best_moves, vec!["Ka2", "Kb1", "Kx"]);
    assert_eq!(e.avoid_moves, vec!["Kb2"]);
    assert_eq!(e.id, "a b");
    assert!(parse_line("8/8/8/8/8/8/8/K1k5 w -").is_none());
    let lines = args(&["# comment", "", "8/8/8/8/8/8/8/K1k5 w - -", "x", "8/8 w - - id \"bad\";"]);
    let file = parse_lines(&lines);
    assert_eq!(file.positions.len(), 1);
    assert_eq!(file.unreadable.len(), 1);
    assert_eq!(file.unreadable[0].0, "bad");
}

#[test]
fn epd_options() {
    let o = |list: &[&str]| {
        let r = parse_options(&args(list));
        (r.depth, r.time_ms)
    };
    assert_eq!(o(&[]), (8, 0));
    assert_eq!(o(&["12"]), (12, 0));
    assert_eq!(o(&["--depth", "10"]), (10, 0));
    assert_eq!(o(&["-d", "x"]), (8, 0));
    assert_eq!(o(&["--time", "500"]), (0, 500));
    assert_eq!(o(&["-t", "x"]), (0, 1000));
    assert_eq!(o(&["--time"]), (8, 0));
    let l = limits_for(&EpdOptions { depth: 0, time_ms: 70 });
    assert_eq!((l.depth, l.movetime), (None, Some(70)));
    let l = limits_for(&EpdOptions { depth: 3, time_ms: 70 });
    assert_eq!((l.depth, l.movetime), (Some(3), None));
}

#[test]
fn epd_positions_are_solved_or_skipped() {
    let stop = Arc::new(AtomicBool::new(false));
    let mut tt = TranspositionTable::new(1);
    let o = EpdOptions { depth: 2, time_ms: 0 };
    let mut run = |line: &str| {
        solve(&parse_line(line).unwrap(), &o, Arc::clone(&stop), &mut tt)
    };
    let a = run("6k1/5ppp/8/8/8/8/5PPP/4R1K1 w - - bm Re8#;").ok().unwrap();
    assert_eq!(a.found.unwrap().to_uci(), "e1e8");
    assert_eq!(a.pass, Some(true));
    let a = run("6k1/5ppp/8/8/8/8/5PPP/4R1K1 w - - am Re8;").ok().unwrap();
    assert_eq!(a.pass, Some(false));
    let a = run("6k1/5ppp/8/8/8/8/5PPP/4R1K1 w - -").ok().unwrap();
    assert_eq!(a.pass, None);
    assert!(matches!(run("6k1/5ppp/8/8/8/8/5PPP w - - bm e4;"), Err(Skipped::BadFen(_))));
    assert!(matches!(run("8/8/8/8/8/8/8/R7 w - - bm e4;"), Err(Skipped::Unplayable)));
    let t = tally(&vec![Some(true), None, Some(false), Some(true)]);
    assert_eq!((t.tested, t.solved), (3, 2));
}

#[test]
fn san_disambiguation() {
    let b = board("4k3/8/8/8/8/8/4K3/R6R w - - 0 1");
    assert_eq!(san_to_move("Rad1", &b).unwrap().to_uci(), "a1d1");
    assert_eq!(san_to_move("Rhd1", &b).unwrap().to_uci(), "h1d1");
    assert_eq!(san_to_move("Rh1d1!?", &b).unwrap().to_uci(), "h1d1");
    assert!(san_to_move("Rbd1", &b).is_none());
    let b = board("4k3/8/8/R7/8/8/4K3/R7 w - - 0 1");
    assert_eq!(san_to_move("R5a3", &b).unwrap().to_uci(), "a5a3");
    assert_eq!(san_to_move("R1xa3+", &b).unwrap().to_uci(), "a1a3");
    let b = board("r3k2r/pppppppp/8/8/8/8/PPPPPPPP/R3K2R b KQkq - 0 1");
    assert_eq!(san_to_move("0-0", &b).unwrap().to_uci(), "e8g8");
    assert_eq!(san_to_move("0-0-0", &b).unwrap().to_uci(), "e8c8");
    for text in ["", "=", "e", "x", "e8=", "e8=X", "+", "Qe9", "é", "K"] {
        assert!(san_to_move(text, &b).is_none(), "{}", text);
    }
}

#[test]
fn numbers_and_scores_as_text() {
    assert_eq!(fmt_nodes(999), "999");
    assert_eq!(fmt_nodes(1_002_003), "1,002,003");
    assert_eq!(fmt_nodes(u64::MAX), "18,446,744,073,709,551,615");
    assert_eq!(fmt_score(35), "cp 35");
    assert_eq!(fmt_score(-35), "cp -35");
    assert_eq!(fmt_score(28_999), "mate 1");
    assert_eq!(fmt_score(28_997), "mate 2");
    assert_eq!(fmt_score(-28_998), "mate -1");
    assert_eq!(fmt_score(-29_000), "mate 0");
}

#[test]
fn speed_is_nodes_per_second() {
    let r = |total_nodes, elapsed_ms| {
        BenchResult { depth: 1, total_nodes, elapsed_ms, lines: Vec::new() }.nps()
    };
    assert_eq!(r(5_000, 2), 2_500_000);
    assert_eq!(r(5_000, 0), 0);
    assert_eq!(r(u64::MAX, 1), u64::MAX);
}

#[test]
fn bench_counts_the_nodes_of_its_lines() {
    let r = run_bench(1, 1);
    assert_eq!(r.lines.len(), 15);
    let sum: u64 = r.lines.iter().map(|l| l.as_ref().unwrap().nodes).sum();
    assert_eq!(r.total_nodes, sum);
    let again = run_bench(1, 1);
    assert_eq!(again.total_nodes, sum);
}

#[test]
fn a_suite_position_is_solved_by_its_move() {
    let b = board("6k1/5ppp/8/8/8/8/5PPP/4R1K1 w - - 0 1");
    let found = parse_uci_move(&b, "e1e8");
    let line = Some(BenchLine { score: 0, nodes: 1, best_move: found });
    assert!(is_solved("e1e8", &line));
    assert!(is_solved("", &line));
    assert!(!is_solved("e1e7", &line));
    assert!(!is_solved("", &Some(BenchLine { score: 0, nodes: 1, best_move: None })));
    assert!(!is_solved("", &None));
}

#[test]
fn every_fault_is_found_and_told() {
    let b = board("6k1/5ppp/8/8/8/8/5PPP/4R1K1 w - - 0 1");
    let good = parse_uci_move(&b, "e1e8");
    let other = parse_uci_move(&b, "e1e7");
    let foreign = parse_uci_move(&board("4k3/8/8/8/8/8/8/K7 w - - 0 1"), "a1a2");
    let any = PositionKind::AnyLegal;
    let told = |kind: &PositionKind, best, score, pv: Vec<_>, tt, best2, score2| -> Vec<String> {
        check(&b, kind, best, score, &pv, tt, best2, score2).iter().map(|f| f.message()).collect()
    };
    assert!(told(&any, good, 5, vec![good.unwrap()], good, good, 5).is_empty());
    assert_eq!(
        told(&any, good, 5, vec![], other, good, 5),
        vec!["TT has Some(\"e1e7\") but search returned e1e8"]
    );
    assert_eq!(
        told(&any, good, 5, vec![], None, good, 5),
        vec!["TT has None but search returned e1e8"]
    );
    assert_eq!(
        told(&any, foreign, 5, vec![], foreign, foreign, 5),
        vec!["illegal root move returned: a1a2"]
    );
    assert_eq!(
        told(&any, None, 5, vec![], None, None, 5),
        vec!["no move returned despite legal moves"]
    );
    assert_eq!(
        told(&any, good, 29_001, vec![], good, good, 29_001),
        vec!["score 29001 out of bounds (±MATE=29000)"]
    );
    assert_eq!(
        told(&any, good, 5, vec![other.unwrap(), foreign.unwrap()], good, good, 5),
        vec!["illegal PV move a1a2 at ply 1"]
    );
    assert_eq!(
        told(&any, good, 5, vec![], good, other, -5),
        vec!["non-deterministic: 'e1e8 score=5' vs 'e1e7 score=-5'"]
    );
    let mate = PositionKind::ForcedMateIn { at_most_moves: 1 };
    assert_eq!(
        told(&mate, good, 5, vec![], good, good, 5),
        vec!["expected mate score, got cp 5"]
    );
    assert_eq!(
        told(&mate, good, 28_997, vec![], good, good, 28_997),
        vec!["mate in >1 moves (plies=3)"]
    );
    assert!(told(&mate, good, 28_999, vec![], good, good, 28_999).is_empty());
    let best = PositionKind::BestMove { uci: "e1e7".to_string() };
    assert_eq!(
        told(&best, good, 5, vec![], good, good, 5),
        vec!["expected e1e7 found e1e8"]
    );
}

#[test]
fn positions_without_a_search_are_reported() {
    let v = SearchVerifier { positions: Vec::new() };
    let bad = VerifyPosition::new("bad", "8/8 w - - 0 1", 1, PositionKind::AnyLegal);
    let r = v.verify_one(&bad, 1);
    assert!(matches!(r.failures[0], VerificationFailure::FenParseError(_)));
    assert_eq!(
        r.failures[0].message(),
        "FEN parse error: BadRankCount(2)"
    );
    let empty = VerifyPosition::new("empty", "8/8/8/8/8/8/8/R7 w - - 0 1", 1, PositionKind::AnyLegal);
    let r = v.verify_one(&empty, 1);
    assert!(matches!(r.failures[0], VerificationFailure::Unplayable));
    assert!(!r.passed());
    assert_eq!(SearchVerifier::new().positions.len(), 20);
    assert_eq!(SearchVerifier::count_passed(&vec![r]), 0);
}

#[test]
fn depth_0_is_answered_by_a_search_of_depth_1() {
    let v = SearchVerifier { positions: Vec::new() };
    let pos = VerifyPosition::new("mate", "6k1/5ppp/8/8/8/8/8/4R1K1 w - - 0 1", 0, PositionKind::AnyLegal);
    let r = v.verify_one(&pos, 0);
    assert_eq!(r.best_move_uci, Some("e1e8".to_string()));
    assert!(r.nodes > 0);
    assert!(r.pv_uci.is_empty());
}

#[test]
fn the_depth_that_is_asked_for_is_searched() {
    let pos = parse_line("kbK5/pp6/1P6/8/8/8/8/R7 w - - bm Ra6;").unwrap();
    let run = |depth: u32, raised: bool| {
        let stop = Arc::new(AtomicBool::new(raised));
        let o = EpdOptions { depth, time_ms: 0 };
        solve(&pos, &o, stop, &mut TranspositionTable::new(1)).ok().unwrap()
    };
    // The rook is given up for a mate in two, which depth 1 cannot see.
    let shallow = run(1, false);
    assert_ne!(shallow.found.unwrap().to_uci(), "a1a6");
    assert_eq!(shallow.pass, Some(false));
    let deep = run(6, false);
    assert_eq!(deep.found.unwrap().to_uci(), "a1a6");
    assert_eq!(deep.pass, Some(true));
    // A search that is stopped at once falls back to depth 1.
    assert_eq!(run(6, true).found, shallow.found);
}

#[test]
fn the_table_is_carried_on_between_positions() {
    let stop = Arc::new(AtomicBool::new(false));
    let mut tt = TranspositionTable::new(1);
    let o = EpdOptions { depth: 3, time_ms: 0 };
    let line = "6k1/5ppp/8/8/8/8/5PPP/4R1K1 w - - bm Re8#;";
    solve(&parse_line(line).unwrap(), &o, Arc::clone(&stop), &mut tt).ok().unwrap();
    let b = Board::from_fen("6k1/5ppp/8/8/8/8/5PPP/4R1K1 w - - 0 1").unwrap();
    let kept = tt.probe(b.hash).unwrap().best_move().unwrap().to_uci();
    assert_eq!(kept, "e1e8");
    // A position that is left out leaves it as it is.
    assert!(solve(&parse_line("8/8/8/8/8/8/8/R7 w - - bm e4;").unwrap(), &o, stop, &mut tt).is_err());
    assert!(tt.probe(b.hash).is_some());
}
