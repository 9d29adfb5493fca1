use checksmith::board::{Board, STARTING_FEN};
use checksmith::nnue::accumulator::{
    Accumulator, AccumulatorStack, FeatureWeights, HalfAccumulator,
};
use checksmith::nnue::features::active_features;
use checksmith::nnue::HIDDEN_SIZE;

fn zero_weights() -> FeatureWeights { FeatureWeights::zeros() }

#[test]
fn half_accumulator_starts_at_bias() {
    let w = zero_weights();
    let acc = HalfAccumulator::from_bias(&w.bias);
    assert!(acc.values.iter().all(|&v| v == 0));
}

#[test]
fn add_then_sub_restores_original() {
    let mut w = FeatureWeights::zeros();
    // Set a non-trivial weight row.
    let feature = 5;
    for i in 0..HIDDEN_SIZE {
        w.weight[feature * HIDDEN_SIZE + i] = (i % 10) as i16;
    }
    let mut acc = HalfAccumulator::from_bias(&w.bias);
    let before = acc.values.clone();
    acc.add_feature(feature, &w);
    acc.sub_feature(feature, &w);
    assert_eq!(acc.values, before);
}

#[test]
fn refresh_produces_nonzero_for_nonzero_weights() {
    let mut w = FeatureWeights::zeros();
    // Give every feature weight of 1.
    w.weight.iter_mut().for_each(|x| *x = 1);
    let board = Board::from_fen(STARTING_FEN).unwrap();
    let mut acc = Accumulator::from_weights(&w);
    acc.refresh(&board, &w);
    // With all weights = 1 and 32 active features, each neuron should be 32 (bias=0).
    assert!(acc.white.values.iter().any(|&v| v != 0));
    assert!(acc.black.values.iter().any(|&v| v != 0));
}

#[test]
fn push_pop_restores_accumulator() {
    let w = zero_weights();
    let board = Board::from_fen(STARTING_FEN).unwrap();
    let mut stack = AccumulatorStack::new(&w);
    stack.refresh(&board, &w);

    let before = stack.current.white.values.clone();
    stack.push_with_deltas(&[0, 1], &[2, 3], &[], &[], &w);
    // After push, depth should increase.
    assert_eq!(stack.depth(), 1);
    stack.pop();
    // After pop, depth back to 0 and values restored.
    assert_eq!(stack.depth(), 0);
    assert_eq!(stack.current.white.values, before);
}

#[test]
fn incremental_matches_refresh() {
    // An accumulator updated incrementally should match a fresh refresh.
    // We use a non-trivial weight matrix so differences would show up.
    let mut w = FeatureWeights::zeros();
    for i in 0..HIDDEN_SIZE {
        w.bias[i] = (i as i16 % 7) - 3;
    }
    // Give the first few features non-trivial weights.
    for f in 0..50 {
        for n in 0..HIDDEN_SIZE {
            w.weight[f * HIDDEN_SIZE + n] = ((f * n) % 17) as i16 - 8;
        }
    }

    let board = Board::from_fen(STARTING_FEN).unwrap();

    // Full refresh.
    let mut acc_refresh = Accumulator::from_weights(&w);
    acc_refresh.refresh(&board, &w);

    // Build from scratch using add_feature (should give same result).
    let (wf, bf) = active_features(&board);
    let mut acc_incremental = Accumulator::from_weights(&w);
    for f in &wf { acc_incremental.white.add_feature(*f, &w); }
    for f in &bf { acc_incremental.black.add_feature(*f, &w); }

    assert_eq!(acc_refresh.white.values, acc_incremental.white.values);
    assert_eq!(acc_refresh.black.values, acc_incremental.black.values);
}
