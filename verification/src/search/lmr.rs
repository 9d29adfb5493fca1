//! Late move reductions: `floor(ln(depth) * ln(index + 1) / 2)`, computed with
//! binary logarithms.

use crate::search::log2::{law_log2_monotone, log2_fixed, log2_of};
use vstd::prelude::*;

verus! {

/// Half the square of the natural logarithm of 2, scaled by 2 to the 40th power.
pub const HALF_LN2_SQUARED: u128 = 264_131_837_702;

/// The depth reduction for a move at the given depth and move index.
pub open spec fn reduction(depth: int, index: int) -> int {
    if depth < 2 || index < 1 {
        0
    } else {
        (log2_fixed(depth) * log2_fixed(index + 1) / 0x10_0000) * HALF_LN2_SQUARED
            / 0x10_0000_0000_0000_0000_0000_0000
    }
}

/// A move is reduced no less at a larger depth or a larger index.
pub proof fn law_reduction_grows(depth: int, index: int, deeper: int, later: int)
    requires
        depth <= deeper,
        index <= later,
    ensures
        0 <= reduction(depth, index) <= reduction(deeper, later),
{
    if deeper >= 2 && later >= 1 {
        law_log2_monotone(deeper, deeper);
        law_log2_monotone(later + 1, later + 1);
        let c = log2_fixed(deeper);
        let d = log2_fixed(later + 1);
        assert(0 <= c * d) by (nonlinear_arith)
            requires
                0 <= c,
                0 <= d,
        ;
        assert(0 <= (c * d / 0x10_0000) * HALF_LN2_SQUARED);
        if depth >= 2 && index >= 1 {
            law_log2_monotone(depth, deeper);
            law_log2_monotone(index + 1, later + 1);
            let a = log2_fixed(depth);
            let b = log2_fixed(index + 1);
            assert(0 <= a * b <= c * d) by (nonlinear_arith)
                requires
                    0 <= a <= c,
                    0 <= b <= d,
            ;
            assert(0 <= (a * b / 0x10_0000) * HALF_LN2_SQUARED <= (c * d / 0x10_0000)
                * HALF_LN2_SQUARED);
        }
    }
}

/// Compute the depth reduction for a move at the given depth and move index.
///
/// Returns 0 for very small inputs (depth < 2 or move_index < 1).
pub fn lmr_reduction(depth: u32, move_index: usize) -> (r: u32)
    requires
        move_index < 0xffff_ffff,
    ensures
        r == reduction(depth as int, move_index as int),
        r <= 1024,
{
    if depth < 2 || move_index < 1 {
        return 0;
    }
    let a: u128 = log2_of(depth as u64) as u128;
    let b: u128 = log2_of(move_index as u64 + 1) as u128;
    proof {
        assert(0 <= a * b <= 0x4000_0000_0000 * 0x4000_0000_0000) by (nonlinear_arith)
            requires
                0 <= a <= 0x4000_0000_0000,
                0 <= b <= 0x4000_0000_0000,
        ;
    }
    let c: u128 = a * b / 0x10_0000;
    proof {
        assert(0 <= c * 264_131_837_702 <= 0x100_0000_0000_0000_0000 * 264_131_837_702);
    }
    (c * HALF_LN2_SQUARED / 0x10_0000_0000_0000_0000_0000_0000) as u32
}

} // verus!
