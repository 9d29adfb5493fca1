use checksmith::board::{Board, Color, STARTING_FEN};
use checksmith::nnue::accumulator::{Accumulator, AccumulatorStack, HalfAccumulator};
use checksmith::nnue::network::Network;
use checksmith::nnue::HIDDEN_SIZE;
use std::sync::Arc;

fn zero_net() -> Arc<Network> { Arc::new(Network::zeros()) }

#[test]
fn zero_network_outputs_zero() {
    let net = zero_net();
    let board = Board::from_fen(STARTING_FEN).unwrap();
    let mut stack = AccumulatorStack::new(&net.feature_weights);
    stack.refresh(&board, &net.feature_weights);
    let score = net.evaluate(&stack.current, board.side_to_move);
    assert_eq!(score, 0, "zero-weight network must evaluate to 0");
}

#[test]
fn zero_network_symmetric() {
    // The starting position is symmetric; a zero network should return 0
    // regardless of which side is to move.
    let net = zero_net();
    let board_w = Board::from_fen(STARTING_FEN).unwrap();
    let board_b = Board::from_fen(
        "rnbqkbnr/pppppppp/8/8/8/8/PPPPPPPP/RNBQKBNR b KQkq - 0 1"
    ).unwrap();

    let score_w = {
        let mut s = AccumulatorStack::new(&net.feature_weights);
        s.refresh(&board_w, &net.feature_weights);
        net.evaluate(&s.current, Color::White)
    };
    let score_b = {
        let mut s = AccumulatorStack::new(&net.feature_weights);
        s.refresh(&board_b, &net.feature_weights);
        net.evaluate(&s.current, Color::Black)
    };
    assert_eq!(score_w, 0);
    assert_eq!(score_b, 0);
}

#[test]
fn file_round_trip() {
    // Build a non-trivial network, save it, reload it, verify all weights match.
    let mut net = Network::zeros();
    // Set some distinguishable values.
    net.feature_weights.bias[0] = 42;
    net.feature_weights.bias[1] = -7;
    net.feature_weights.weight[100] = 123;
    net.l1_bias[0] = 1000;
    net.l1_weight[0] = 55;
    net.l2_bias[5] = -500;
    net.l2_weight[3] = -33;
    net.out_bias = 99;
    net.out_weight[0] = 11;

    let bytes = net.to_bytes();
    let loaded = match Network::from_bytes(&bytes) {
        Ok(n) => n,
        Err(_) => panic!("the bytes must be read back"),
    };
    assert_eq!(loaded.feature_weights.bias[0], 42);
    assert_eq!(loaded.feature_weights.bias[1], -7);
    assert_eq!(loaded.feature_weights.weight[100], 123);
    assert_eq!(loaded.l1_bias[0], 1000);
    assert_eq!(loaded.l1_weight[0], 55);
    assert_eq!(loaded.l2_bias[5], -500);
    assert_eq!(loaded.l2_weight[3], -33);
    assert_eq!(loaded.out_bias, 99);
    assert_eq!(loaded.out_weight[0], 11);
}

#[test]
fn load_rejects_bad_magic() {
    let bad: Vec<u8> = b"XXXX\x01\x00\x00\x00".to_vec();
    let result = Network::from_bytes(&bad);
    assert!(result.is_err());
}

#[test]
fn inference_does_not_overflow_with_saturated_inputs() {
    // Max possible accumulator values clamped to QA; verify no integer panic.
    let net = zero_net();
    let acc = Accumulator {
        white: HalfAccumulator { values: vec![i16::MAX; HIDDEN_SIZE] },
        black: HalfAccumulator { values: vec![i16::MAX; HIDDEN_SIZE] },
    };
    // Should not panic, even with saturated inputs (zero weights → output = 0).
    let score = net.evaluate(&acc, Color::White);
    assert_eq!(score, 0);
}
