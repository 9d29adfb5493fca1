//! Material values and game-phase weights.

use crate::board::PieceType;
use crate::eval::score::{Pair, Score};
use vstd::prelude::*;

verus! {

/// The value of a piece type.
pub open spec fn material_value(pt: PieceType) -> Pair {
    match pt {
        PieceType::Pawn => Pair { mg: 100, eg: 120 },
        PieceType::Knight => Pair { mg: 320, eg: 320 },
        PieceType::Bishop => Pair { mg: 330, eg: 330 },
        PieceType::Rook => Pair { mg: 500, eg: 550 },
        PieceType::Queen => Pair { mg: 900, eg: 950 },
        PieceType::King => Pair { mg: 0, eg: 0 },
    }
}

/// What a piece type adds to the game phase.
pub open spec fn phase_weight(pt: PieceType) -> int {
    match pt {
        PieceType::Knight => 1,
        PieceType::Bishop => 1,
        PieceType::Rook => 2,
        PieceType::Queen => 4,
        _ => 0,
    }
}

/// Centipawn value of a piece type, as a middlegame/endgame pair.
pub fn material(pt: PieceType) -> (r: Score)
    ensures
        r@ == material_value(pt),
{
    match pt {
        PieceType::Pawn => Score::new(100, 120),
        PieceType::Knight => Score::new(320, 320),
        PieceType::Bishop => Score::new(330, 330),
        PieceType::Rook => Score::new(500, 550),
        PieceType::Queen => Score::new(900, 950),
        PieceType::King => Score::new(0, 0),
    }
}

/// How much a piece contributes to the "game phase" used for tapering.
pub fn phase_value(pt: PieceType) -> (r: i32)
    ensures
        r == phase_weight(pt),
        0 <= r <= 4,
{
    match pt {
        PieceType::Knight => 1,
        PieceType::Bishop => 1,
        PieceType::Rook => 2,
        PieceType::Queen => 4,
        _ => 0,
    }
}

} // verus!
