//! The input features: a king's square with each piece that is no king.

use crate::board::bitboard::lemma_empty_list;
use crate::board::{Board, Color, PieceType, Pos, Square};
use vstd::prelude::*;

verus! {

/// Pawn, Knight, Bishop, Rook, Queen (no King).
pub const PIECE_TYPES: usize = 5;

/// Friendly and enemy.
pub const COLOR_VARIANTS: usize = 2;

pub const SQUARES: usize = 64;

/// Features per piece type: 2 colors, 64 squares.
pub const FEATURES_PER_TYPE: usize = 128;

/// Features per king square: 5 piece types, 2 colors, 64 squares.
pub const FEATURES_PER_KING: usize = 640;

/// Total input features (one side): 64 king squares of 640 features.
pub const INPUT_FEATURES: usize = 40960;

/// First hidden layer width.
pub const HIDDEN_SIZE: usize = 512;

/// Second hidden layer width.
pub const L1_SIZE: usize = 32;

/// Third hidden layer width.
pub const L2_SIZE: usize = 32;

/// Largest activation of the first layer.
pub const QA: i32 = 127;

/// Scale divisor between linear layers.
pub const QB: i32 = 127;

/// The index of a feature.
pub open spec fn feature_of(king: int, pt: int, same: bool, sq: int) -> int {
    king * 640 + pt * 128 + (if same {
        0int
    } else {
        64int
    }) + sq
}

/// Convert a `PieceType` to a 0-based index (Pawn=0 .. Queen=4). Kings have no
/// feature.
pub fn piece_type_index(pt: PieceType) -> (r: usize)
    requires
        pt != PieceType::King,
    ensures
        r == pt.idx(),
        r < 5,
{
    match pt {
        PieceType::Pawn => 0,
        PieceType::Knight => 1,
        PieceType::Bishop => 2,
        PieceType::Rook => 3,
        _ => 4,
    }
}

/// Compute a single feature index.
///
/// `same_color` is `true` when the piece belongs to the side of the king.
pub fn feature_index(king_sq: usize, piece_type: usize, same_color: bool, piece_sq: usize) -> (r:
    usize)
    requires
        king_sq < 64,
        piece_type < 5,
        piece_sq < 64,
    ensures
        r == feature_of(king_sq as int, piece_type as int, same_color, piece_sq as int),
        r < INPUT_FEATURES,
{
    let color_bit: usize = if same_color {
        0
    } else {
        1
    };
    king_sq * FEATURES_PER_KING + piece_type * FEATURES_PER_TYPE + color_bit * SQUARES
        + piece_sq
}

/// Different features have different indices.
pub proof fn law_feature_index_injective(
    k1: int,
    p1: int,
    c1: bool,
    s1: int,
    k2: int,
    p2: int,
    c2: bool,
    s2: int,
)
    requires
        0 <= k1 < 64,
        0 <= k2 < 64,
        0 <= p1 < 5,
        0 <= p2 < 5,
        0 <= s1 < 64,
        0 <= s2 < 64,
        feature_of(k1, p1, c1, s1) == feature_of(k2, p2, c2, s2),
    ensures
        k1 == k2,
        p1 == p2,
        c1 == c2,
        s1 == s2,
{
}

/// The square as seen by a side: Black sees the board upside down.
pub open spec fn seen(side: Color, s: int) -> int {
    match side {
        Color::White => s,
        Color::Black => (7 - s / 8) * 8 + s % 8,
    }
}

/// The square as seen by a side.
fn see_from(side: Color, s: Square) -> (r: usize)
    requires
        s.ok(),
    ensures
        r == seen(side, s.0 as int),
        r < 64,
{
    match side {
        Color::White => s.index(),
        Color::Black => ((7 - s.rank()) * 8 + s.file()) as usize,
    }
}

/// The feature of a piece on a square, for the king on `king` as `side` sees it.
pub open spec fn feature_at(
    side: Color,
    king: int,
    owner: Color,
    pt: PieceType,
) -> spec_fn(Square) -> usize {
    |s: Square| feature_of(king, pt.idx(), owner == side, seen(side, s.0 as int)) as usize
}

/// The features of the pieces of one type, White's before Black's.
pub open spec fn type_features(p: Pos, side: Color, king: int, pt: PieceType) -> Seq<usize> {
    p.pieces(Color::White, pt).map_values(feature_at(side, king, Color::White, pt)) + p.pieces(
        Color::Black,
        pt,
    ).map_values(feature_at(side, king, Color::Black, pt))
}

/// The active features for the king of `side`; none if a king is missing.
pub open spec fn features_of(p: Pos, side: Color) -> Seq<usize> {
    if p.king(Color::White) is None || p.king(Color::Black) is None {
        Seq::empty()
    } else {
        let k = seen(side, (p.king(side)->0).0 as int);
        type_features(p, side, k, PieceType::Pawn) + type_features(p, side, k, PieceType::Knight)
            + type_features(p, side, k, PieceType::Bishop) + type_features(
            p,
            side,
            k,
            PieceType::Rook,
        ) + type_features(p, side, k, PieceType::Queen)
    }
}

/// Append the features of the pieces of one color and type.
fn push_features(
    board: &Board,
    out: &mut Vec<usize>,
    side: Color,
    king: usize,
    owner: Color,
    pt: PieceType,
)
    requires
        board.wf(),
        king < 64,
        pt != PieceType::King,
    ensures
        final(out)@ == old(out)@ + board@.pieces(owner, pt).map_values(
            feature_at(side, king as int, owner, pt),
        ),
        (forall|i: int| 0 <= i < old(out)@.len() ==> #[trigger] old(out)@[i] < INPUT_FEATURES)
            ==> (forall|i: int|
            0 <= i < final(out)@.len() ==> #[trigger] final(out)@[i] < INPUT_FEATURES),
{
    let ghost f = feature_at(side, king as int, owner, pt);
    let ghost start = out@;
    let pieces = board.pieces_colored(owner, pt);
    let ghost all = pieces.list();
    let mut rest = pieces;
    while rest.any()
        invariant
            board.wf(),
            king < 64,
            pt != PieceType::King,
            f == feature_at(side, king as int, owner, pt),
            out@ + rest.list().map_values(f) == start + all.map_values(f),
            forall|i: int| start.len() <= i < out@.len() ==> #[trigger] out@[i] < INPUT_FEATURES,
            start.len() <= out@.len(),
            forall|i: int| 0 <= i < start.len() ==> out@[i] == start[i],
        decreases rest.list().len(),
    {
        let ghost before = rest.list();
        let ghost mid = out@;
        if let Some(s) = rest.pop_lsb() {
            out.push(feature_index(king, piece_type_index(pt), owner == side, see_from(side, s)));
            proof {
                assert(before[0] == s);
                assert(f(s) == out@.last());
                assert(before.map_values(f) =~= seq![f(s)] + rest.list().map_values(f));
                assert(out@ + rest.list().map_values(f) =~= mid + before.map_values(f));
            }
        }
    }
    proof {
        lemma_empty_list(rest);
        assert(out@ =~= start + all.map_values(f));
    }
}

/// The active features for the king of `side`.
fn side_features(board: &Board, side: Color, king: Square) -> (r: Vec<usize>)
    requires
        board.wf(),
        king.ok(),
        board@.king(Color::White) is Some,
        board@.king(Color::Black) is Some,
        board@.king(side) == Some(king),
    ensures
        r@ == features_of(board@, side),
        forall|i: int| 0 <= i < r@.len() ==> #[trigger] r@[i] < INPUT_FEATURES,
{
    let k: usize = see_from(side, king);
    let mut out: Vec<usize> = Vec::new();
    push_features(board, &mut out, side, k, Color::White, PieceType::Pawn);
    push_features(board, &mut out, side, k, Color::Black, PieceType::Pawn);
    push_features(board, &mut out, side, k, Color::White, PieceType::Knight);
    push_features(board, &mut out, side, k, Color::Black, PieceType::Knight);
    push_features(board, &mut out, side, k, Color::White, PieceType::Bishop);
    push_features(board, &mut out, side, k, Color::Black, PieceType::Bishop);
    push_features(board, &mut out, side, k, Color::White, PieceType::Rook);
    push_features(board, &mut out, side, k, Color::Black, PieceType::Rook);
    push_features(board, &mut out, side, k, Color::White, PieceType::Queen);
    push_features(board, &mut out, side, k, Color::Black, PieceType::Queen);
    proof {
        assert(out@ =~= features_of(board@, side));
    }
    out
}

/// Compute the active features for both kings.
///
/// Returns `(white_features, black_features)`, two empty lists if a king is
/// missing.
pub fn active_features(board: &Board) -> (r: (Vec<usize>, Vec<usize>))
    requires
        board.wf(),
    ensures
        r.0@ == features_of(board@, Color::White),
        r.1@ == features_of(board@, Color::Black),
        forall|i: int| 0 <= i < r.0@.len() ==> #[trigger] r.0@[i] < INPUT_FEATURES,
        forall|i: int| 0 <= i < r.1@.len() ==> #[trigger] r.1@[i] < INPUT_FEATURES,
{
    match (board.king_square(Color::White), board.king_square(Color::Black)) {
        (Some(wk), Some(bk)) => (
            side_features(board, Color::White, wk),
            side_features(board, Color::Black, bk),
        ),
        _ => (Vec::new(), Vec::new()),
    }
}

} // verus!
