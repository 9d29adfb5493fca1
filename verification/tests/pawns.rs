use checksmith::board::Board;
use checksmith::eval::pawns::evaluate_pawns;
use checksmith::eval::score::taper;

#[test]
fn isolated_pawns_are_penalized() {
    // b2+c2 defend each other; b2+d2 are both isolated.
    let connected = Board::from_fen("4k3/8/8/8/8/8/1PP5/4K3 w - - 0 1").unwrap();
    let isolated  = Board::from_fen("4k3/8/8/8/8/8/1P1P4/4K3 w - - 0 1").unwrap();
    assert!(evaluate_pawns(&connected).mg > evaluate_pawns(&isolated).mg);
}

#[test]
fn passed_pawn_is_rewarded() {
    // White pawn on e6 with no black pawns anywhere: a clear passer.
    let board = Board::from_fen("4k3/8/4P3/8/8/8/8/4K3 w - - 0 1").unwrap();
    let s = evaluate_pawns(&board);
    assert!(taper(s, 12) > 0, "passed pawn should score positive: {:?}", s);
}

#[test]
fn doubled_pawns_are_penalized() {
    let doubled = Board::from_fen("4k3/8/8/4P3/4P3/8/8/4K3 w - - 0 1").unwrap();
    let healthy = Board::from_fen("4k3/8/8/3PP3/8/8/8/4K3 w - - 0 1").unwrap();
    assert!(evaluate_pawns(&doubled).mg < evaluate_pawns(&healthy).mg);
}

#[test]
fn connected_passed_pawns_bonus() {
    // Two adjacent passed pawns score higher than one passed pawn.
    let two_passers = Board::from_fen("4k3/8/8/3PP3/8/8/8/4K3 w - - 0 1").unwrap();
    let one_passer  = Board::from_fen("4k3/8/8/4P3/8/8/8/4K3 w - - 0 1").unwrap();
    let two_eg = taper(evaluate_pawns(&two_passers), 4);
    let one_eg = taper(evaluate_pawns(&one_passer),  4);
    // Two connected passers should score more than twice the single passer
    // (the connection bonus on top of the individual bonuses).
    assert!(two_eg > one_eg * 2,
        "connected passers should exceed 2× single passer, got {} vs {}×2",
        two_eg, one_eg);
}

#[test]
fn candidate_passed_pawn_small_bonus() {
    // White pawn on e5, Black pawn on d6 (on an adjacent file, not directly
    // in front): the e-file is clear, so White's pawn is a candidate.
    // Compare with White e5 directly blocked by Black e6.
    //
    // Both pawns are isolated in both positions, so the isolated penalty
    // cancels; the difference is purely the candidate bonus.
    let candidate = Board::from_fen("4k3/8/3p4/4P3/8/8/8/4K3 w - - 0 1").unwrap();
    let blocked   = Board::from_fen("4k3/8/4p3/4P3/8/8/8/4K3 w - - 0 1").unwrap();
    assert!(evaluate_pawns(&candidate).mg > evaluate_pawns(&blocked).mg,
        "candidate pawn should score higher than directly-blocked pawn");
}
