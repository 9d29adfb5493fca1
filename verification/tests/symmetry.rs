use checksmith::board::fen::FenError;
use checksmith::board::{Board, STARTING_FEN};
use checksmith::eval::evaluate;
use checksmith::nnue::{active_features, INPUT_FEATURES};
use checksmith::search::see;

fn board(fen: &str) -> Board {
    Board::from_fen(fen).unwrap()
}

const WHITE: &str = "r3k2r/p1ppqpb1/bn2pnp1/3PN3/1p2P3/2N2Q1p/PPPBBPPP/R3K2R w KQkq - 0 1";
const BLACK: &str = "r3k2r/pppbbppp/2n2q1P/1P2p3/3pn3/BN2PNP1/P1PPQPB1/R3K2R b KQkq - 0 1";

#[test]
fn mirrored_positions_evaluate_alike() {
    assert_eq!(evaluate(&board(WHITE)), evaluate(&board(BLACK)));
    let a = board("8/8/4k3/8/8/2Q5/4K3/8 w - - 0 1");
    let b = board("8/4k3/2q5/8/8/4K3/8/8 b - - 0 1");
    assert_eq!(evaluate(&a), evaluate(&b));
    assert!(evaluate(&a) > 900);
    assert_eq!(evaluate(&board(STARTING_FEN)), 0);
}

#[test]
fn mirrored_positions_swap_their_features() {
    let (w, b) = active_features(&board(WHITE));
    let (w2, b2) = active_features(&board(BLACK));
    let sorted = |v: &Vec<usize>| {
        let mut v = v.clone();
        v.sort();
        v
    };
    assert_eq!(sorted(&w), sorted(&b2));
    assert_eq!(sorted(&b), sorted(&w2));
    // One feature for each piece that is no king, all of them different.
    assert_eq!(w.len(), 30);
    let mut once = sorted(&w);
    once.dedup();
    assert_eq!(once.len(), 30);
    assert!(w.iter().all(|f| *f < INPUT_FEATURES));
}

#[test]
fn fen_errors_as_variants() {
    let variant = |fen: &str| Board::from_fen(fen).err().unwrap().variant();
    assert_eq!(variant("8/8 w - - 0 1"), "BadRankCount(2)");
    assert_eq!(variant("9/8/8/8/8/8/8/8 w - - 0 1"), "BadFileCount { rank: 8, found: 9 }");
    assert_eq!(variant("x7/8/8/8/8/8/8/8 w - - 0 1"), "UnknownPiece('x')");
    assert_eq!(variant("8/8/8/8/8/8/8/8 z - - 0 1"), "BadSideToMove(\"z\")");
    assert_eq!(variant("8/8/8/8/8/8/8/8 w X - 0 1"), "BadCastling(\"X\")");
    assert_eq!(variant("8/8/8/8/8/8/8/8 w - z9 0 1"), "BadEnPassant(\"z9\")");
    assert_eq!(variant("8/8/8/8/8/8/8/8 w - - a\u{7}b 1"), "BadNumber(\"a\\u{7}b\")");
    // The same form that the derived `Debug` gives.
    for e in [
        FenError::MissingField("side to move"),
        FenError::UnknownPiece('\''),
        FenError::BadNumber("\"\n".to_string()),
        FenError::BadFileCount { rank: 1, found: 7 },
    ] {
        assert_eq!(e.variant(), format!("{:?}", e));
    }
}

#[test]
fn exchanges_lie_between_gain_and_stake() {
    // A rook takes a defended pawn: 100 less the rook.
    let b = board("4k3/8/3p4/4p3/8/8/8/4RK2 w - - 0 1");
    let ms = b.legal_moves();
    let take = (0..ms.len()).map(|i| ms.get(i)).find(|m| m.is_capture()).unwrap();
    assert_eq!(see(&b, take), 100 - 500);
}
