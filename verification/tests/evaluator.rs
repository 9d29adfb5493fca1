use checksmith::board::{Board, STARTING_FEN};
use checksmith::eval::evaluate;
use checksmith::eval::evaluator::{Evaluator, HandcraftedEvaluator, NnueEvaluator};
use checksmith::nnue::{Network, HIDDEN_SIZE, INPUT_FEATURES};
use checksmith::search::negamax::Searcher;
use checksmith::search::tt::TranspositionTable;
use std::sync::atomic::AtomicBool;
use std::sync::Arc;

/// A trivial evaluator that always returns a constant, used to verify
/// that any type implementing the trait can drive the search correctly.
struct ConstEvaluator(i32);
impl Evaluator for ConstEvaluator {
    fn evaluate(&self, _board: &Board) -> i32 { self.0 }
}

#[test]
fn handcrafted_matches_direct_call() {
    let board = Board::from_fen(STARTING_FEN).unwrap();
    let he = HandcraftedEvaluator;
    assert_eq!(he.evaluate(&board), evaluate(&board));
}

#[test]
fn handcrafted_start_position_is_zero() {
    let board = Board::from_fen(STARTING_FEN).unwrap();
    assert_eq!(HandcraftedEvaluator.evaluate(&board), 0);
}

#[test]
fn evaluator_trait_is_object_safe() {
    let eval: Box<dyn Evaluator + Send> = Box::new(HandcraftedEvaluator);
    let board = Board::from_fen(STARTING_FEN).unwrap();
    assert_eq!(eval.evaluate(&board), 0);
}

#[test]
fn boxed_evaluator_impl_works() {
    // Box<dyn Evaluator + Send> itself satisfies Evaluator, enabling
    // Searcher<Box<dyn Evaluator + Send>>.
    let boxed: Box<dyn Evaluator + Send> = Box::new(HandcraftedEvaluator);
    let board = Board::from_fen(STARTING_FEN).unwrap();
    // Call through the blanket impl.
    assert_eq!(Evaluator::evaluate(&boxed, &board), 0);
}

#[test]
fn custom_evaluator_drives_search() {
    // A search driven by a constant evaluator should still return a legal
    // move (scores are meaningless, but the search mechanics are correct).

    let mut board = Board::from_fen(STARTING_FEN).unwrap();
    let mut tt = TranspositionTable::new(1);
    let mut searcher = Searcher::new(
        None,
        Arc::new(AtomicBool::new(false)),
        Some(500),
        ConstEvaluator(0),
    );
    let (mv, _score) = searcher.search_root(&mut board, 2, None, &mut tt, &[], -30_000, 30_000);
    assert!(mv.is_some(), "should return a legal move even with a trivial evaluator");
}

#[test]
fn nnue_constants_are_correct() {
    assert_eq!(INPUT_FEATURES, 40_960);
    assert_eq!(HIDDEN_SIZE, 512);
}

#[test]
fn nnue_zero_network_evaluates_without_panic() {
    let net = Arc::new(Network::zeros());
    let eval = NnueEvaluator::new(Arc::clone(&net));
    let board = Board::from_fen(STARTING_FEN).unwrap();
    let score = eval.evaluate(&board);
    assert_eq!(score, 0, "zero network must return 0 for any position");
}

fn assert_send<T: Send>() {}

#[test]
fn nnue_evaluator_is_send() {
    // NnueEvaluator must be Send so it can be passed to search threads.
    assert_send::<NnueEvaluator>();
}
