use checksmith::board::{Board, Square, STARTING_FEN};
use checksmith::book::polyglot::{decode_move, encode_move, poly_hash};
use checksmith::book::OpeningBook;
use checksmith::movegen::{Move, MoveFlag};
use rand::rngs::StdRng;
use rand::SeedableRng;

fn sq(name: &str) -> Square {
    Square::from_algebraic(name).unwrap()
}

fn book() -> OpeningBook {
    OpeningBook::new_internal()
}

#[test]
fn internal_book_has_entries_for_startpos() {
    let b = book();
    let board = Board::from_fen(STARTING_FEN).unwrap();
    let hits = b.probe(&board);
    assert!(!hits.is_empty(), "internal book should have startpos entries");
}

#[test]
fn pick_move_returns_legal_move() {
    let b = book();
    let board = Board::from_fen(STARTING_FEN).unwrap();
    let mut rng = StdRng::seed_from_u64(42);
    let mv = b.pick_move(&board, &mut rng);
    assert!(mv.is_some(), "should pick a move from startpos");
    let legal = board.legal_moves();
    assert!(legal.as_slice().iter().any(|&m| Some(m) == mv), "picked move must be legal");
}

#[test]
fn pick_move_returns_none_for_unknown_position() {
    let b = book();
    // Bare-kings endgame — definitely not in any book.
    let board = Board::from_fen("8/8/4k3/8/8/4K3/8/8 w - - 0 1").unwrap();
    let mut rng = StdRng::seed_from_u64(0);
    assert!(b.pick_move(&board, &mut rng).is_none());
}

#[test]
fn pick_move_is_consistent_with_seed() {
    let b = book();
    let board = Board::from_fen(STARTING_FEN).unwrap();
    // Same seed must produce the same move every time.
    let mut rng1 = StdRng::seed_from_u64(99);
    let mut rng2 = StdRng::seed_from_u64(99);
    let m1 = b.pick_move(&board, &mut rng1);
    let m2 = b.pick_move(&board, &mut rng2);
    assert_eq!(m1, m2);
}

#[test]
fn poly_hash_startpos_matches_known_value() {
    let board = Board::from_fen(STARTING_FEN).unwrap();
    let h = poly_hash(&board);
    assert_eq!(
        h, 0x463b96181691fc9c,
        "Polyglot startpos hash mismatch: got {:#018x}", h
    );
}

#[test]
fn encode_decode_round_trips_quiet_move() {
    let board = Board::from_fen(STARTING_FEN).unwrap();
    let legal = board.legal_moves();
    // Find e2e4
    let mv = legal.as_slice().iter().copied()
        .find(|m| m.to_uci() == "e2e4")
        .expect("e2e4 must be legal from startpos");
    let encoded = encode_move(mv);
    let decoded = decode_move(encoded, &legal).expect("decode must succeed");
    assert_eq!(decoded, mv);
}

#[test]
fn encode_decode_round_trips_castle() {
    // Position after 1.e4 e5 2.Nf3 Nc6 3.Bc4 Bc5 4.0-0 — just test encoding
    // We check that white kingside castle encodes to e1h1 in Polyglot.
    let mv = Move::new(sq("e1"), sq("g1"), MoveFlag::KingCastle);
    let encoded = encode_move(mv);
    let to_file = (encoded & 0x7) as u8;
    let to_rank = ((encoded >> 3) & 0x7) as u8;
    assert_eq!(to_file, 7, "Polyglot castle should land on h-file");
    assert_eq!(to_rank, 0, "Polyglot castle should land on rank 1");
}
