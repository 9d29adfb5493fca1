use checksmith::board::{Board, STARTING_FEN};
use checksmith::book::entries::{probe_entries, read_polyglot, sort_entries, PolyEntry};
use checksmith::book::internal::{build_internal_entries, INTERNAL_LINES};
use checksmith::book::polyglot::{decode_move, encode_move, poly_hash};
use checksmith::book::{candidates, select, weight_sum, OpeningBook};
use checksmith::uci::parser::parse_uci_move;
use rand::rngs::StdRng;
use rand::SeedableRng;

fn board(fen: &str) -> Board {
    Board::from_fen(fen).unwrap()
}

fn record(key: u64, mv: u16, weight: u16, learn: u32) -> Vec<u8> {
    let mut out = key.to_be_bytes().to_vec();
    out.extend(mv.to_be_bytes());
    out.extend(weight.to_be_bytes());
    out.extend(learn.to_be_bytes());
    out
}

#[test]
fn known_hashes() {
    assert_eq!(
        poly_hash(&board("rnbqkbnr/pppppppp/8/8/4P3/8/PPPP1PPP/RNBQKBNR b KQkq e3 0 1")),
        0x823c9b50fd114196,
    );
    // A capture en passant is possible.
    assert_eq!(
        poly_hash(&board("rnbqkbnr/ppp1p1pp/8/3pPp2/8/8/PPPP1PPP/RNBQKBNR w KQkq f6 0 3")),
        0x22a48b5a8e47ff78,
    );
    assert_eq!(
        poly_hash(&board("rnbqkbnr/p1pppppp/8/8/P6P/R1p5/1P1PPPP1/1NBQKBNR b Kkq - 0 4")),
        0x5c3f9b829b279560,
    );
}

#[test]
fn every_internal_line_is_legal() {
    let entries = build_internal_entries();
    assert_eq!(entries.len(), INTERNAL_LINES.len());
    assert!(entries.windows(2).all(|w| w[0].key <= w[1].key));
    let book = OpeningBook::new_internal();
    let start = board(STARTING_FEN);
    let mut weights: Vec<u16> = book.probe(&start).iter().map(|e| e.weight).collect();
    weights.sort();
    assert_eq!(weights, vec![5, 5, 10, 10]);
}

#[test]
fn legal_moves_survive_the_book_format() {
    for fen in [
        STARTING_FEN,
        "r3k2r/p1ppqpb1/bn2pnp1/3PN3/1p2P3/2N2Q1p/PPPBBPPP/R3K2R w KQkq - 0 1",
        "r3k2r/pppppppp/8/8/8/8/PPPPPPPP/R3K2R b KQkq - 0 1",
        "1n2k3/P7/8/8/8/8/8/4K3 w - - 0 1",
    ] {
        let legal = board(fen).legal_moves();
        for &mv in legal.as_slice() {
            assert_eq!(decode_move(encode_move(mv), &legal), Some(mv), "{}", mv.to_uci());
        }
    }
}

#[test]
fn a_rook_move_that_reads_as_castling_is_lost() {
    let b = board("4k3/8/8/8/8/8/8/K3R3 w - - 0 1");
    let legal = b.legal_moves();
    let mv = parse_uci_move(&b, "e1h1").unwrap();
    let decoded = decode_move(encode_move(mv), &legal).unwrap();
    assert_eq!(decoded.to_uci(), "e1g1");
}

#[test]
fn records_are_big_endian() {
    let mut bytes = record(0x0102030405060708, 0x0a0b, 0x0c0d, 0x0e0f1011);
    bytes.extend([1, 2, 3]);
    let entries = read_polyglot(&bytes);
    assert_eq!(entries.len(), 1);
    assert_eq!(entries[0].key, 0x0102030405060708);
    assert_eq!(entries[0].mv, 0x0a0b);
    assert_eq!(entries[0].weight, 0x0c0d);
    assert_eq!(entries[0].learn, 0x0e0f1011);
    assert!(read_polyglot(&[]).is_empty());
}

#[test]
fn probing_finds_every_entry_of_a_key() {
    let keys = [5u64, 1, 9, 5, 3, 5, u64::MAX, 0];
    let entries: Vec<PolyEntry> = keys
        .iter()
        .enumerate()
        .map(|(i, &key)| PolyEntry { key, mv: i as u16, weight: 1, learn: 0 })
        .collect();
    let sorted = sort_entries(&entries);
    let order: Vec<u64> = sorted.iter().map(|e| e.key).collect();
    assert_eq!(order, vec![0, 1, 3, 5, 5, 5, 9, u64::MAX]);
    assert_eq!(probe_entries(&sorted, 5).len(), 3);
    assert_eq!(probe_entries(&sorted, u64::MAX).len(), 1);
    assert_eq!(probe_entries(&sorted, 4).len(), 0);
    assert_eq!(probe_entries(&[], 4).len(), 0);
}

#[test]
fn moves_are_drawn_by_weight() {
    let start = board(STARTING_FEN);
    let key = poly_hash(&start);
    let e4 = parse_uci_move(&start, "e2e4").unwrap();
    let d4 = parse_uci_move(&start, "d2d4").unwrap();
    let mut bytes = record(key, encode_move(e4), 2, 0);
    bytes.extend(record(key, 0, 50, 0));
    bytes.extend(record(key, encode_move(d4), 3, 0));
    let book = OpeningBook::from_polyglot(&bytes);
    let c = candidates(book.probe(&start), &start.legal_moves());
    // The illegal a1a1 is left out.
    assert_eq!(c.len(), 2);
    assert_eq!(weight_sum(&c), 5);
    let picks: Vec<_> = (0..5).map(|r| select(&c, r)).collect();
    assert_eq!(picks.iter().filter(|&&m| m == e4).count(), 2);
    assert_eq!(picks.iter().filter(|&&m| m == d4).count(), 3);
    let mut rng = StdRng::seed_from_u64(7);
    let drawn: Vec<_> = (0..200).map(|_| book.pick_move(&start, &mut rng).unwrap()).collect();
    assert!(drawn.contains(&e4) && drawn.contains(&d4));
    assert!(drawn.iter().all(|m| *m == e4 || *m == d4));
}

#[test]
fn without_weights_the_first_move_is_taken() {
    let start = board(STARTING_FEN);
    let key = poly_hash(&start);
    let e4 = parse_uci_move(&start, "e2e4").unwrap();
    let d4 = parse_uci_move(&start, "d2d4").unwrap();
    let mut bytes = record(key, encode_move(e4), 0, 0);
    bytes.extend(record(key, encode_move(d4), 0, 0));
    let book = OpeningBook::from_polyglot(&bytes);
    let first = candidates(book.probe(&start), &start.legal_moves())[0].0;
    let mut rng = StdRng::seed_from_u64(1);
    assert_eq!(book.pick_move(&start, &mut rng), Some(first));
}
