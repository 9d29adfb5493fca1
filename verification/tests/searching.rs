use checksmith::board::{Board, Color, PieceType, Square, STARTING_FEN};
use checksmith::eval::evaluate;
use checksmith::eval::evaluator::{Evaluator, HandcraftedEvaluator};
use checksmith::eval::pst::pst;
use checksmith::movegen::{Move, MoveFlag};
use checksmith::nnue::network::NetworkError;
use checksmith::nnue::Network;
use checksmith::search::endgame::{is_worth_asking, settle};
use checksmith::search::iterative::{deepen, deepen_with, extract_pv, SearchInfo};
use checksmith::search::limits::SearchLimits;
use checksmith::search::lmr::lmr_reduction;
use checksmith::search::negamax::{score_from_tt, score_to_tt, stop_now};
use checksmith::search::params::SearchParams;
use checksmith::search::ordering::{score_move, History, Killers, SCORE_WIN_CAP};
use checksmith::search::time::{stability_scale, TimeManager};
use checksmith::search::tt::Bound;
use checksmith::search::{
    is_mate_score, mate_distance_plies, search, think, TranspositionTable,
};
use checksmith::tablebase::{
    board_to_shakmaty, init, is_available, probe_wdl, set_piece_limit, TbState, WdlScore,
};
use std::sync::atomic::AtomicBool;
use std::sync::Arc;

fn board(fen: &str) -> Board {
    Board::from_fen(fen).unwrap()
}

#[test]
fn fixed_depth_search_is_deterministic() {
    let fen = "r1bqk2r/pppp1ppp/2n2n2/2b1p3/2B1P3/2N2N2/PPPP1PPP/R1BQK2R w KQkq - 4 5";
    let mut b = board(fen);
    let a = search(&mut b, 4);
    assert_eq!(b.to_fen(), fen);
    let c = search(&mut b, 4);
    assert_eq!((a.best_move, a.score, a.nodes), (c.best_move, c.score, c.nodes));
    assert_eq!(search(&mut b, 0).depth, 1);
}

#[test]
fn unstopped_search_agrees_with_think() {
    let limits = SearchLimits { depth: Some(4), ..Default::default() };
    let mut b = board(STARTING_FEN);
    let mut t1 = TranspositionTable::new(1);
    let mut t2 = TranspositionTable::new(1);
    let mut i1 = Vec::new();
    let mut i2 = Vec::new();
    let stop = Arc::new(AtomicBool::new(false));
    let none = Vec::new();
    let r1 = think(&mut b, &limits, stop, &mut t1, &none, None, &SearchParams::default(), &TbState::default(), &mut i1);
    let r2 = deepen(
        &mut b,
        &limits,
        None,
        &mut t2,
        &none,
        HandcraftedEvaluator,
        SearchParams::default(),
        TbState::default(),
        &mut i2,
    );
    assert_eq!((r1.best_move, r1.score, r1.nodes), (r2.best_move, r2.score, r2.nodes));
    let depths: Vec<u32> = i2.iter().map(|i| i.depth).collect();
    assert_eq!(depths, vec![1, 2, 3, 4]);
    let last = i2.last().unwrap();
    assert!(last.seldepth >= 4);
    assert_eq!(last.pv[0], r2.best_move.unwrap());
    assert_eq!(extract_pv(&mut b, &t2, 4), last.pv);
}

#[test]
fn a_mate_ends_the_deepening() {
    let limits = SearchLimits { depth: Some(10), ..Default::default() };
    let mut b = board("6k1/5ppp/8/8/8/8/5PPP/4R1K1 w - - 0 1");
    let mut tt = TranspositionTable::new(1);
    let mut infos = Vec::new();
    let stop = Arc::new(AtomicBool::new(false));
    let r = think(&mut b, &limits, stop, &mut tt, &Vec::new(), None, &SearchParams::default(), &TbState::default(), &mut infos);
    assert!(is_mate_score(r.score));
    assert_eq!(mate_distance_plies(r.score), 1);
    assert!(infos.len() < 10);
    assert!(infos.iter().take(infos.len() - 1).all(|i| !is_mate_score(i.score)));
}

#[test]
fn excluded_root_moves_are_not_played() {
    let mut b = board(STARTING_FEN);
    let mut tt = TranspositionTable::new(1);
    let best = search(&mut b, 2).best_move.unwrap();
    let limits = SearchLimits {
        depth: Some(2),
        excluded_root_moves: vec![best],
        ..Default::default()
    };
    let stop = Arc::new(AtomicBool::new(false));
    let r = think(&mut b, &limits, stop, &mut tt, &Vec::new(), None, &SearchParams::default(), &TbState::default(), &mut Vec::new());
    assert!(r.best_move.is_some() && r.best_move != Some(best));
}

#[test]
fn terminal_positions_have_no_move() {
    let limits = SearchLimits { depth: Some(3), ..Default::default() };
    for (fen, score) in [
        ("rnb1kbnr/pppp1ppp/8/4p3/6Pq/5P2/PPPPP2P/RNBQKBNR w KQkq - 1 3", -29_000),
        ("7k/5Q2/6K1/8/8/8/8/8 b - - 0 1", 0),
    ] {
        let mut b = board(fen);
        let mut tt = TranspositionTable::new(1);
        let stop = Arc::new(AtomicBool::new(false));
        let r = think(&mut b, &limits, stop, &mut tt, &Vec::new(), None, &SearchParams::default(), &TbState::default(), &mut Vec::new());
        assert_eq!((r.best_move, r.score), (None, score));
    }
}

#[test]
fn exact_time_budgets() {
    let tm = |l: SearchLimits| {
        let t = TimeManager::new(&l, Color::White, 1);
        (t.soft_limit(), t.hard_deadline())
    };
    let d = SearchLimits::default;
    assert_eq!(tm(SearchLimits { movetime: Some(10), ..d() }), (Some(1), Some(1)));
    assert_eq!(tm(SearchLimits { wtime: Some(900), ..d() }), (Some(250), Some(250)));
    // 60 s for 40 more moves, less the overhead; five times that at most.
    assert_eq!(tm(SearchLimits { wtime: Some(60_000), ..d() }).0, Some(1_450));
    assert_eq!(tm(SearchLimits { wtime: Some(60_000), ..d() }).1, Some(7_200));
    assert_eq!(tm(SearchLimits { btime: Some(60_000), ..d() }), (None, None));
}

#[test]
fn stable_moves_use_less_time() {
    let l = SearchLimits { wtime: Some(60_000), ..Default::default() };
    let mut t = TimeManager::new(&l, Color::White, 1);
    let mv = Some(Move::new(Square::new(12), Square::new(28), MoveFlag::DoublePush));
    t.update(mv);
    let unstable = t.soft_limit().unwrap();
    for _ in 0..8 {
        t.update(mv);
    }
    let stable = t.soft_limit().unwrap();
    assert!(stable < unstable);
    assert!(t.soft_limit_expired(stable));
    assert!(!t.soft_limit_expired(stable - 1));
}

#[test]
fn reductions_follow_the_logarithms() {
    for depth in [2u32, 3, 5, 10, 31, 64] {
        for index in [1usize, 2, 7, 30, 200] {
            let expected = ((depth as f64).ln() * ((index + 1) as f64).ln() / 2.0) as u32;
            assert_eq!(lmr_reduction(depth, index), expected, "{} {}", depth, index);
        }
    }
}

#[test]
fn stores_do_not_disturb_other_clusters() {
    let mut tt = TranspositionTable::new(1);
    for key in 0..1000u64 {
        tt.store(key, 5, key as i16, Bound::Exact, None);
    }
    for key in 0..1000u64 {
        assert_eq!(tt.probe(key).unwrap().score, key as i16);
    }
    assert!(tt.hashfull() <= 1000);
    tt.clear();
    assert_eq!(tt.hashfull(), 0);
}

#[test]
fn table_scores_count_from_the_node() {
    assert_eq!(score_to_tt(28_990, 4), 28_994);
    assert_eq!(score_from_tt(28_994, 6), 28_988);
    assert_eq!(score_to_tt(-28_990, 4), -28_994);
    assert_eq!(score_to_tt(100, 4), 100);
}

#[test]
fn evaluation_flips_with_the_side_and_the_colors() {
    let white = board("r1bqk2r/pppp1ppp/2n2n2/2b1p3/2B1P3/2N5/PPPP1PPP/R1BQK2R w KQkq - 0 1");
    let black = board("r1bqk2r/pppp1ppp/2n2n2/2b1p3/2B1P3/2N5/PPPP1PPP/R1BQK2R b KQkq - 0 1");
    assert_eq!(evaluate(&white), -evaluate(&black));
    assert_eq!(HandcraftedEvaluator.evaluate(&white), evaluate(&white));
    for pt in PieceType::ALL {
        for i in 0..64u8 {
            let a = pst(pt, Color::White, Square::new(i));
            assert_eq!(a, pst(pt, Color::Black, Square::new(i ^ 56)));
        }
    }
}

#[test]
fn network_errors() {
    let fault = |bytes: &[u8]| match Network::from_bytes(bytes) {
        Ok(_) => panic!("must be refused"),
        Err(e) => e,
    };
    assert_eq!(fault(b"CK"), NetworkError::Truncated(0));
    assert_eq!(fault(b"XXXX\x01\x00\x00\x00"), NetworkError::NotANetwork);
    assert_eq!(fault(b"CKSM\x02\x00\x00\x00"), NetworkError::Version(2));
    assert_eq!(fault(b"CKSM\x01\x00\x00\x00\x00"), NetworkError::Truncated(8));
    let mut header = b"CKSM\x01\x00\x00\x00".to_vec();
    for n in [1u32, 2, 3, 4] {
        header.extend(n.to_le_bytes());
    }
    assert_eq!(fault(&header), NetworkError::Architecture(1, 2, 3, 4));
    assert!(!fault(&header).message().is_empty());
}

#[test]
fn tablebases_that_are_not_there() {
    let mut tb = TbState::default();
    assert!(!is_available(&tb));
    assert_eq!(init(&mut tb, "/nonexistent/tables"), 0);
    assert!(!is_available(&tb));
    set_piece_limit(&mut tb, 5);
    assert_eq!(probe_wdl(&tb, &board("7k/8/8/8/8/8/8/K6Q w - - 0 1")), None);
    assert!(board_to_shakmaty(&board(STARTING_FEN)).is_some());
    // A position without kings is no position of standard chess.
    assert!(board_to_shakmaty(&board("8/8/8/8/8/8/8/8 w - - 0 1")).is_none());
}

#[test]
fn tablebase_results_settle_nodes() {
    let b = board("7k/8/8/8/8/8/8/K6Q w - - 0 1");
    let mut tt = TranspositionTable::new(1);
    assert_eq!(settle(&b, WdlScore::Win, -10, 10, 3, &mut tt), (Some(20_000), -10));
    let hit = tt.probe(b.hash).unwrap();
    assert_eq!((hit.score, hit.depth, hit.bound), (20_000, 200, Bound::Lower));
    assert_eq!(settle(&b, WdlScore::Loss, -10, 10, 3, &mut tt), (Some(-20_000), -10));
    assert_eq!(tt.probe(b.hash).unwrap().bound, Bound::Upper);
    tt.clear();
    assert_eq!(settle(&b, WdlScore::CursedWin, -20, -10, 3, &mut tt), (Some(0), -20));
    assert!(tt.probe(b.hash).is_none());
    assert_eq!(settle(&b, WdlScore::Draw, -20, 10, 3, &mut tt), (None, 0));
    assert_eq!(settle(&b, WdlScore::BlessedLoss, 5, 10, 3, &mut tt), (None, 5));
    assert_eq!(tt.probe(b.hash).unwrap().bound, Bound::Exact);
    assert!(!is_worth_asking(&TbState::default(), &b));
}

#[test]
fn the_table_knows_the_root_move() {
    let mut b = board(STARTING_FEN);
    let mut tt = TranspositionTable::new(1);
    let limits = SearchLimits { depth: Some(5), ..Default::default() };
    let stop = Arc::new(AtomicBool::new(false));
    let r = think(&mut b, &limits, stop, &mut tt, &Vec::new(), None, &SearchParams::default(), &TbState::default(), &mut Vec::new());
    assert_eq!(tt.probe(b.hash).unwrap().best_move(), r.best_move);
}

#[test]
fn a_move_is_found_even_in_hopeless_positions() {
    // Far more material than any score allows for.
    let mut b = board("k7/8/8/QQQQQQQQ/QQQQQQQQ/QQQQQQQQ/QQQQQQ2/K7 b - - 0 1");
    let limits = SearchLimits { depth: Some(1), ..Default::default() };
    let mut tt = TranspositionTable::new(1);
    let stop = Arc::new(AtomicBool::new(false));
    let legal = b.legal_moves();
    let r = think(&mut b, &limits, stop, &mut tt, &Vec::new(), None, &SearchParams::default(), &TbState::default(), &mut Vec::new());
    assert_eq!(r.best_move.is_some(), !legal.is_empty());
}

#[test]
fn a_node_limit_holds_within_one_look() {
    let limits = SearchLimits { nodes: Some(10_000), ..Default::default() };
    let mut b = board(STARTING_FEN);
    let mut tt = TranspositionTable::new(1);
    let mut infos = Vec::new();
    let stop = Arc::new(AtomicBool::new(false));
    let params = SearchParams::default();
    let tables = TbState::default();
    let r = think(&mut b, &limits, stop, &mut tt, &Vec::new(), None, &params, &tables, &mut infos);
    assert!(r.best_move.is_some());
    assert!(infos.iter().all(|i| i.nodes < 10_000 + 4096));
    assert!(!infos.is_empty());
}

#[test]
fn reports_number_the_depths() {
    let limits = SearchLimits { depth: Some(4), ..Default::default() };
    let mut b = board(STARTING_FEN);
    let mut tt = TranspositionTable::new(1);
    let mut infos = Vec::new();
    let stop = Arc::new(AtomicBool::new(false));
    let params = SearchParams::default();
    let tables = TbState::default();
    let r = think(&mut b, &limits, stop, &mut tt, &Vec::new(), None, &params, &tables, &mut infos);
    assert_eq!(infos.len(), 4);
    for (i, info) in infos.iter().enumerate() {
        assert_eq!(info.depth as usize, i + 1);
        assert!(info.seldepth >= info.depth && info.multipv == 1 && info.hashfull <= 1000);
        assert!(info.pv.len() <= i + 1);
    }
    assert_eq!((infos[3].depth, infos[3].score), (r.depth, r.score));
}

#[test]
fn pondering_has_no_time_limit() {
    let limits = SearchLimits { ponder: true, movetime: Some(100), ..Default::default() };
    let tm = TimeManager::new(&limits, Color::White, 1);
    assert_eq!(tm.soft_limit(), None);
    assert_eq!(tm.hard_deadline(), None);
}

#[test]
fn stability_saves_time_step_by_step() {
    let scales: Vec<u64> = (0..8).map(|s| stability_scale(s) as u64).collect();
    assert_eq!(scales, vec![125, 110, 100, 85, 70, 55, 50, 50]);
}

#[test]
fn quiet_promotions_rank_between_captures_and_killers() {
    let b = board("7k/P7/8/8/8/8/8/K7 w - - 0 1");
    let ms = b.legal_moves();
    let promo = (0..ms.len()).map(|i| ms.get(i)).find(|m| m.is_promotion()).unwrap();
    let other = (0..ms.len()).map(|i| ms.get(i)).find(|m| !m.is_promotion()).unwrap();
    let mut killers = Killers::new();
    killers.add(0, other);
    let history = History::new();
    let p = score_move(&b, promo, 0, None, &killers, &history, None);
    let k = score_move(&b, other, 0, None, &killers, &history, None);
    assert!(p > k);
    assert!(p < SCORE_WIN_CAP);
}

#[test]
fn the_search_stops_for_each_reason_alone() {
    assert!(!stop_now(false, false, false, 99, Some(100)));
    assert!(!stop_now(false, false, false, u64::MAX, None));
    assert!(stop_now(true, false, false, 0, None));
    assert!(stop_now(false, true, false, 0, None));
    assert!(stop_now(false, false, true, 0, None));
    assert!(stop_now(false, false, false, 100, Some(100)));
}

#[test]
fn a_node_limit_alone_lets_cheap_depths_be_completed() {
    let mut b = board(STARTING_FEN);
    let free = SearchLimits { depth: Some(3), ..Default::default() };
    let run = |b: &mut Board, l: &SearchLimits, infos: &mut Vec<SearchInfo>| {
        deepen_with(
            b,
            l,
            None,
            &mut TranspositionTable::new(1),
            &Vec::new(),
            HandcraftedEvaluator,
            SearchParams::default(),
            TbState::default(),
            infos,
        )
    };
    let mut all = Vec::new();
    let (_, end) = run(&mut b, &free, &mut all);
    assert!(!end.stopped && end.deadline.is_none());
    // A limit above what three depths take changes nothing.
    let enough = SearchLimits { nodes: Some(all[2].nodes + 1), ..free.clone() };
    let mut some = Vec::new();
    let (_, end) = run(&mut b, &enough, &mut some);
    assert_eq!((some.len(), end.stopped), (3, false));
    // A limit of no nodes stops the search at its first look.
    let none = SearchLimits { nodes: Some(0), ..free };
    let mut few = Vec::new();
    let (r, end) = run(&mut b, &none, &mut few);
    assert_eq!((few.len(), end.stopped, r.depth), (0, true, 1));
    assert!(r.best_move.is_some());
}

#[test]
fn a_clock_gives_a_deadline() {
    let mut b = board(STARTING_FEN);
    let limits = SearchLimits { movetime: Some(2000), depth: Some(2), ..Default::default() };
    let (_, end) = deepen_with(
        &mut b,
        &limits,
        None,
        &mut TranspositionTable::new(1),
        &Vec::new(),
        HandcraftedEvaluator,
        SearchParams::default(),
        TbState::default(),
        &mut Vec::new(),
    );
    assert!(end.deadline.is_some());
}

#[test]
fn moves_to_go_matter_on_the_clock_alone() {
    let limits = SearchLimits { infinite: true, movestogo: Some(0), ..Default::default() };
    assert_eq!(TimeManager::new(&limits, Color::White, 1).soft_limit(), None);
    let limits = SearchLimits { movetime: Some(550), movestogo: Some(0), ..Default::default() };
    assert_eq!(TimeManager::new(&limits, Color::White, 1).soft_limit(), Some(500));
    let limits = SearchLimits { wtime: Some(600), movestogo: Some(0), ..Default::default() };
    assert_eq!(TimeManager::new(&limits, Color::White, 1).soft_limit(), Some(150));
}

#[test]
fn tables_take_over_results() {
    let mut a = TranspositionTable::new(1);
    let mut b = TranspositionTable::new(1);
    let mv = board(STARTING_FEN).legal_moves().get(3);
    a.store(77, 5, 12, Bound::Exact, Some(mv));
    b.store(78, 2, -4, Bound::Lower, None);
    b.absorb(&a);
    assert_eq!(b.probe(77).unwrap().best_move(), Some(mv));
    assert_eq!((b.probe(77).unwrap().depth, b.probe(77).unwrap().score), (5, 12));
    assert_eq!(b.probe(78).unwrap().bound, Bound::Lower);
    assert!(a.probe(78).is_none());
}

#[test]
fn a_raised_flag_leaves_a_search_of_depth_1() {
    let mut b = board(STARTING_FEN);
    let limits = SearchLimits { depth: Some(6), ..Default::default() };
    let mut infos = Vec::new();
    let (r, end) = deepen_with(
        &mut b,
        &limits,
        Some(Arc::new(AtomicBool::new(true))),
        &mut TranspositionTable::new(1),
        &Vec::new(),
        HandcraftedEvaluator,
        SearchParams::default(),
        TbState::default(),
        &mut infos,
    );
    assert!(end.stopped && infos.is_empty());
    assert_eq!((r.depth, r.best_move.is_some()), (1, true));
}

#[test]
fn reductions_grow() {
    assert_eq!(lmr_reduction(2, 1), 0);
    assert_eq!(lmr_reduction(8, 8), 2);
    assert_eq!(lmr_reduction(64, 63), 8);
    for depth in 0..40u32 {
        for index in 0..60usize {
            let r = lmr_reduction(depth, index);
            assert!(r <= lmr_reduction(depth + 1, index));
            assert!(r <= lmr_reduction(depth, index + 1));
            let exact = (depth.max(1) as f64).ln() * ((index + 1) as f64).ln() / 2.0;
            if depth >= 2 {
                assert_eq!(r, exact as u32);
            }
        }
    }
}
