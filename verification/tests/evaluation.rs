use checksmith::board::{Board, STARTING_FEN};
use checksmith::eval::evaluate;

#[test]
fn starting_position_is_balanced() {
    let board = Board::from_fen(STARTING_FEN).unwrap();
    assert_eq!(evaluate(&board), 0);
}

#[test]
fn perspective_flips_sign() {
    let white = Board::from_fen("4k3/8/8/8/8/8/8/Q3K3 w - - 0 1").unwrap();
    let black = Board::from_fen("4k3/8/8/8/8/8/8/Q3K3 b - - 0 1").unwrap();
    assert!(evaluate(&white) > 0);
    assert_eq!(evaluate(&white), -evaluate(&black));
}

#[test]
fn extra_material_is_positive() {
    let board = Board::from_fen("4k3/8/8/8/8/8/8/R3K3 w - - 0 1").unwrap();
    assert!(evaluate(&board) > 400);
}

#[test]
fn bishop_pair_is_rewarded() {
    let two_bishops  = Board::from_fen("4k3/8/8/8/8/8/8/2B1KB2 w - - 0 1").unwrap();
    let bishop_knight = Board::from_fen("4k3/8/8/8/8/8/8/2B1KN2 w - - 0 1").unwrap();
    assert!(evaluate(&two_bishops) > evaluate(&bishop_knight) + 30,
            "bishop pair bonus missing");
}

#[test]
fn endgame_king_wants_the_center() {
    let center = Board::from_fen("8/8/8/4K3/8/8/8/7k w - - 0 1").unwrap();
    let corner = Board::from_fen("8/8/8/8/8/8/8/K6k w - - 0 1").unwrap();
    assert!(evaluate(&center) > evaluate(&corner));
}

#[test]
fn rook_prefers_an_open_file() {
    let open   = Board::from_fen("4k3/8/8/8/8/8/PPP1PPPP/3RK3 w - - 0 1").unwrap();
    let closed = Board::from_fen("4k3/8/8/8/8/8/PPP1PPPP/R3K3 w - - 0 1").unwrap();
    assert!(evaluate(&open) > evaluate(&closed));
}

#[test]
fn rook_on_seventh_is_rewarded() {
    // White rook on d7 (the 7th rank) vs White rook on d2.
    let seventh = Board::from_fen("4k3/3R4/8/8/8/8/8/4K3 w - - 0 1").unwrap();
    let second  = Board::from_fen("4k3/8/8/8/8/8/3R4/4K3 w - - 0 1").unwrap();
    assert!(evaluate(&seventh) > evaluate(&second),
            "rook on 7th should score higher");
}

#[test]
fn knight_outpost_is_rewarded() {
    // White knight on e5 defended by d4 pawn, no Black pawns on d6/f6.
    let outpost  = Board::from_fen("4k3/8/8/4N3/3P4/8/8/4K3 w - - 0 1").unwrap();
    // Same but knight on e3 (not in opponent's half).
    let no_out   = Board::from_fen("4k3/8/8/8/3P4/4N3/8/4K3 w - - 0 1").unwrap();
    assert!(evaluate(&outpost) > evaluate(&no_out),
            "outpost knight should score higher");
}

#[test]
fn bad_bishop_is_penalized() {
    // White bishop on c1 (dark square) with all pawns on dark squares.
    // b2 (dark), d2 (dark), f2 (dark), h2 (dark) block the bishop.
    let bad  = Board::from_fen("4k3/8/8/8/8/8/1P1P1P1P/2B1K3 w - - 0 1").unwrap();
    // Same but bishop on f1 (light square) — pawns are on dark squares,
    // bishop is on light = different colour → fewer same-colour pawns.
    let good = Board::from_fen("4k3/8/8/8/8/8/1P1P1P1P/4KB2 w - - 0 1").unwrap();
    assert!(evaluate(&good) > evaluate(&bad),
            "bad bishop should score lower");
}

#[test]
fn mop_up_rewards_cornered_enemy_king() {
    // White queen up, Black king cornered at a8 vs centered at d5.
    // Cornered position should score higher for White.
    let cornered = Board::from_fen("k7/8/8/8/8/8/8/K6Q w - - 0 1").unwrap();
    let centered = Board::from_fen("8/8/8/3k4/8/8/8/K6Q w - - 0 1").unwrap();
    assert!(
        evaluate(&cornered) > evaluate(&centered),
        "enemy king cornered should score better for White (mop-up)"
    );
}

#[test]
fn mop_up_rewards_king_approach() {
    // White queen up, Black king at a8.
    // White king close (c6) vs White king far (h1) — approach bonus.
    let close = Board::from_fen("k7/8/2K5/8/8/8/8/7Q w - - 0 1").unwrap();
    let far   = Board::from_fen("k7/8/8/8/8/8/8/6KQ w - - 0 1").unwrap();
    assert!(
        evaluate(&close) > evaluate(&far),
        "winning king closer to enemy king should score better (mop-up)"
    );
}

#[test]
fn threats_pawn_attacks_minor_rewards_attacker() {
    // White pawn on e5 attacks d6/f6; Black knight on d6 = threatened.
    let threat    = Board::from_fen("4k3/8/3n4/4P3/8/8/8/4K3 w - - 0 1").unwrap();
    // Same but Black knight on c6 — not attacked by the pawn.
    let no_threat = Board::from_fen("4k3/8/2n5/4P3/8/8/8/4K3 w - - 0 1").unwrap();
    assert!(evaluate(&threat) > evaluate(&no_threat),
            "pawn attacking enemy minor should score higher for the attacker");
}

#[test]
fn space_advanced_centre_pawn_is_rewarded() {
    // White pawn on e5 (advanced, centre file) vs e2 (home rank).
    let advanced     = Board::from_fen("4k3/8/8/4P3/8/8/8/4K3 w - - 0 1").unwrap();
    let not_advanced = Board::from_fen("4k3/8/8/8/8/8/4P3/4K3 w - - 0 1").unwrap();
    assert!(evaluate(&advanced) > evaluate(&not_advanced),
            "advanced centre pawn should score higher");
}

#[test]
fn trapped_bishop_is_penalized() {
    // Bishop on a1 with own pawn on b2: zero escape squares.
    let trapped = Board::from_fen("4k3/8/8/8/8/8/1P6/B3K3 w - - 0 1").unwrap();
    // Bishop on d5 with open diagonals.
    let free    = Board::from_fen("4k3/8/8/3B4/8/8/8/4K3 w - - 0 1").unwrap();
    assert!(evaluate(&free) > evaluate(&trapped),
            "trapped bishop (zero mobility) should score lower");
}

#[test]
fn knight_on_rim_is_penalized() {
    // White knight on a4 (a-file — rim).
    let rim    = Board::from_fen("4k3/8/8/8/N7/8/8/4K3 w - - 0 1").unwrap();
    // White knight on d5 (central square).
    let center = Board::from_fen("4k3/8/8/3N4/8/8/8/4K3 w - - 0 1").unwrap();
    assert!(evaluate(&center) > evaluate(&rim),
            "knight on the a-file rim should score lower");
}

#[test]
fn open_file_near_king_is_dangerous() {
    // White king castled king-side on g1 with the h-file open.
    let exposed = Board::from_fen("4k3/8/8/8/8/8/PPPPP2P/5RK1 w - - 0 1").unwrap();
    // Same but pawns covering the g- and h-files.
    let shielded = Board::from_fen("4k3/8/8/8/8/8/PPPPPPPP/5RK1 w - - 0 1").unwrap();
    assert!(evaluate(&shielded) > evaluate(&exposed),
            "open file near king should penalise White");
}
