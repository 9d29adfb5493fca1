//! Runtime-configurable search parameters.
//!
//! Each parameter has a default and a range, and a new value is held within
//! the range:
//!
//! ```text
//! FutilityMargin1  default 250  100..500
//! FutilityMargin2  default 500  200..800
//! RazorMargin      default 300  100..600
//! ProbcutMargin    default 200   50..400
//! AspDelta         default  50   15..150
//! LmpBase          default   3    1..8
//! SeDepthFactor    default   6    3..15
//! ```

use vstd::prelude::*;

verus! {

/// The values of the search parameters.
#[derive(Clone, Copy, PartialEq, Eq, Debug, Structural)]
pub struct SearchParams {
    pub futility_margin_1: i32,
    pub futility_margin_2: i32,
    pub razor_margin: i32,
    pub probcut_margin: i32,
    pub asp_delta: i32,
    pub lmp_base: i32,
    pub se_depth_factor: i32,
}

impl SearchParams {
    /// Every parameter is within its range.
    pub open spec fn wf(self) -> bool {
        &&& 100 <= self.futility_margin_1 <= 500
        &&& 200 <= self.futility_margin_2 <= 800
        &&& 100 <= self.razor_margin <= 600
        &&& 50 <= self.probcut_margin <= 400
        &&& 15 <= self.asp_delta <= 150
        &&& 1 <= self.lmp_base <= 8
        &&& 3 <= self.se_depth_factor <= 15
    }

    /// The default values.
    pub open spec fn defaults() -> SearchParams {
        SearchParams {
            futility_margin_1: 250,
            futility_margin_2: 500,
            razor_margin: 300,
            probcut_margin: 200,
            asp_delta: 50,
            lmp_base: 3,
            se_depth_factor: 6,
        }
    }
}

impl Default for SearchParams {
    /// The default values.
    fn default() -> (r: SearchParams)
        ensures
            r == SearchParams::defaults(),
            r.wf(),
    {
        SearchParams {
            futility_margin_1: 250,
            futility_margin_2: 500,
            razor_margin: 300,
            probcut_margin: 200,
            asp_delta: 50,
            lmp_base: 3,
            se_depth_factor: 6,
        }
    }
}

/// The value held within a range.
pub open spec fn clamped(v: int, lo: int, hi: int) -> int {
    if v < lo {
        lo
    } else if v > hi {
        hi
    } else {
        v
    }
}

/// The value held within a range.
pub fn clamp_i32(v: i32, lo: i32, hi: i32) -> (r: i32)
    requires
        lo <= hi,
    ensures
        r == clamped(v as int, lo as int, hi as int),
        lo <= r <= hi,
{
    if v < lo {
        lo
    } else if v > hi {
        hi
    } else {
        v
    }
}

/// Futility margin at depth 1.
pub fn futility_margin_1(p: &SearchParams) -> (r: i32)
    ensures
        r == p.futility_margin_1,
{
    p.futility_margin_1
}

/// Futility margin at depth 2.
pub fn futility_margin_2(p: &SearchParams) -> (r: i32)
    ensures
        r == p.futility_margin_2,
{
    p.futility_margin_2
}

/// Razoring margin.
pub fn razor_margin(p: &SearchParams) -> (r: i32)
    ensures
        r == p.razor_margin,
{
    p.razor_margin
}

/// ProbCut margin.
pub fn probcut_margin(p: &SearchParams) -> (r: i32)
    ensures
        r == p.probcut_margin,
{
    p.probcut_margin
}

/// Half-width of the first aspiration window.
pub fn asp_delta(p: &SearchParams) -> (r: i32)
    ensures
        r == p.asp_delta,
{
    p.asp_delta
}

/// Quiet moves that late move pruning always searches.
pub fn lmp_base(p: &SearchParams) -> (r: usize)
    requires
        p.wf(),
    ensures
        r == p.lmp_base,
        r <= 8,
{
    p.lmp_base as usize
}

/// Quiet moves that late move pruning always searches.
pub fn lmp_base_i32(p: &SearchParams) -> (r: i32)
    ensures
        r == p.lmp_base,
{
    p.lmp_base
}

/// Margin of the singularity test for each ply of depth.
pub fn se_depth_factor(p: &SearchParams) -> (r: i32)
    ensures
        r == p.se_depth_factor,
{
    p.se_depth_factor
}

/// Set the futility margin at depth 1, held within 100..=500.
pub fn set_futility_margin_1(p: &mut SearchParams, v: i32)
    ensures
        *final(p) == (SearchParams {
            futility_margin_1: clamped(v as int, 100, 500) as i32,
            ..*old(p)
        }),
        old(p).wf() ==> final(p).wf(),
{
    p.futility_margin_1 = clamp_i32(v, 100, 500);
}

/// Set the futility margin at depth 2, held within 200..=800.
pub fn set_futility_margin_2(p: &mut SearchParams, v: i32)
    ensures
        *final(p) == (SearchParams {
            futility_margin_2: clamped(v as int, 200, 800) as i32,
            ..*old(p)
        }),
        old(p).wf() ==> final(p).wf(),
{
    p.futility_margin_2 = clamp_i32(v, 200, 800);
}

/// Set the razoring margin, held within 100..=600.
pub fn set_razor_margin(p: &mut SearchParams, v: i32)
    ensures
        *final(p) == (SearchParams {
            razor_margin: clamped(v as int, 100, 600) as i32,
            ..*old(p)
        }),
        old(p).wf() ==> final(p).wf(),
{
    p.razor_margin = clamp_i32(v, 100, 600);
}

/// Set the ProbCut margin, held within 50..=400.
pub fn set_probcut_margin(p: &mut SearchParams, v: i32)
    ensures
        *final(p) == (SearchParams {
            probcut_margin: clamped(v as int, 50, 400) as i32,
            ..*old(p)
        }),
        old(p).wf() ==> final(p).wf(),
{
    p.probcut_margin = clamp_i32(v, 50, 400);
}

/// Set the aspiration window, held within 15..=150.
pub fn set_asp_delta(p: &mut SearchParams, v: i32)
    ensures
        *final(p) == (SearchParams { asp_delta: clamped(v as int, 15, 150) as i32, ..*old(p) }),
        old(p).wf() ==> final(p).wf(),
{
    p.asp_delta = clamp_i32(v, 15, 150);
}

/// Set the late move pruning base, held within 1..=8.
pub fn set_lmp_base(p: &mut SearchParams, v: i32)
    ensures
        *final(p) == (SearchParams { lmp_base: clamped(v as int, 1, 8) as i32, ..*old(p) }),
        old(p).wf() ==> final(p).wf(),
{
    p.lmp_base = clamp_i32(v, 1, 8);
}

/// Set the singularity margin factor, held within 3..=15.
pub fn set_se_depth_factor(p: &mut SearchParams, v: i32)
    ensures
        *final(p) == (SearchParams {
            se_depth_factor: clamped(v as int, 3, 15) as i32,
            ..*old(p)
        }),
        old(p).wf() ==> final(p).wf(),
{
    p.se_depth_factor = clamp_i32(v, 3, 15);
}

/// All parameters that can be tuned, in a stable order: the name, the bounds, the
/// default and the size of one tuning step.
pub const ALL_PARAMS: [(&'static str, i32, i32, i32, i32); 7] = [
    ("FutilityMargin1", 100, 500, 250, 25),
    ("FutilityMargin2", 200, 800, 500, 50),
    ("RazorMargin", 100, 600, 300, 25),
    ("ProbcutMargin", 50, 400, 200, 25),
    ("AspDelta", 15, 150, 50, 10),
    ("LmpBase", 1, 8, 3, 1),
    ("SeDepthFactor", 3, 15, 6, 1),
];

impl SearchParams {
    /// The parameter with index `i` of the table.
    pub open spec fn nth(self, i: int) -> i32 {
        if i == 0 {
            self.futility_margin_1
        } else if i == 1 {
            self.futility_margin_2
        } else if i == 2 {
            self.razor_margin
        } else if i == 3 {
            self.probcut_margin
        } else if i == 4 {
            self.asp_delta
        } else if i == 5 {
            self.lmp_base
        } else {
            self.se_depth_factor
        }
    }
}

/// The value of the parameter with index `i` of the table.
pub fn param_get(p: &SearchParams, i: usize) -> (r: i32)
    requires
        i < 7,
    ensures
        r == p.nth(i as int),
{
    match i {
        0 => p.futility_margin_1,
        1 => p.futility_margin_2,
        2 => p.razor_margin,
        3 => p.probcut_margin,
        4 => p.asp_delta,
        5 => p.lmp_base,
        _ => p.se_depth_factor,
    }
}

/// Set the parameter with index `i` of the table, held within its bounds.
pub fn param_set(p: &mut SearchParams, i: usize, v: i32)
    requires
        i < 7,
    ensures
        forall|k: int|
            0 <= k < 7 ==> #[trigger] final(p).nth(k) == (if k == i {
                clamped(v as int, ALL_PARAMS[k].1 as int, ALL_PARAMS[k].2 as int) as i32
            } else {
                old(p).nth(k)
            }),
        old(p).wf() ==> final(p).wf(),
{
    match i {
        0 => set_futility_margin_1(p, v),
        1 => set_futility_margin_2(p, v),
        2 => set_razor_margin(p, v),
        3 => set_probcut_margin(p, v),
        4 => set_asp_delta(p, v),
        5 => set_lmp_base(p, v),
        _ => set_se_depth_factor(p, v),
    }
}

/// The bounds of the table are those of the parameters, and its defaults are the
/// default values.
pub proof fn law_param_table(p: SearchParams)
    ensures
        p.wf() <==> forall|k: int|
            0 <= k < 7 ==> ALL_PARAMS[k].1 <= #[trigger] p.nth(k) <= ALL_PARAMS[k].2,
        forall|k: int| 0 <= k < 7 ==> #[trigger] SearchParams::defaults().nth(k) == ALL_PARAMS[k].3,
{
    let inside = forall|k: int|
        0 <= k < 7 ==> ALL_PARAMS[k].1 <= #[trigger] p.nth(k) <= ALL_PARAMS[k].2;
    if inside {
        assert(ALL_PARAMS[0].1 <= p.nth(0) <= ALL_PARAMS[0].2);
        assert(ALL_PARAMS[1].1 <= p.nth(1) <= ALL_PARAMS[1].2);
        assert(ALL_PARAMS[2].1 <= p.nth(2) <= ALL_PARAMS[2].2);
        assert(ALL_PARAMS[3].1 <= p.nth(3) <= ALL_PARAMS[3].2);
        assert(ALL_PARAMS[4].1 <= p.nth(4) <= ALL_PARAMS[4].2);
        assert(ALL_PARAMS[5].1 <= p.nth(5) <= ALL_PARAMS[5].2);
        assert(ALL_PARAMS[6].1 <= p.nth(6) <= ALL_PARAMS[6].2);
    }
}

} // verus!
