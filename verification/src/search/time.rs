//! Time management for the search.
//!
//! There are two budgets for a move, in milliseconds from its start. The soft
//! limit is the target: once it has passed, no new depth is begun. The hard
//! limit is the most that may be used: the search is broken off when it is
//! reached.
//!
//! With a clock, the remaining time is divided by the moves that are still to
//! be made, 85 percent of the increment are added, and no more than 80 percent
//! of the clock are used. After each depth the soft limit is scaled by how long
//! the best move has been the same:
//!
//! | depths unchanged | percent |
//! |------------------|---------|
//! | 0                | 125     |
//! | 1                | 110     |
//! | 2                | 100     |
//! | 3                | 85      |
//! | 4                | 70      |
//! | 5                | 55      |
//! | 6 and more       | 50      |

use crate::board::Color;
use crate::movegen::moves::Move;
use crate::search::limits::SearchLimits;
use vstd::prelude::*;

verus! {

/// Milliseconds subtracted from every time budget as a safety margin.
pub const MOVE_OVERHEAD_MS: u64 = 50;

/// The hard limit is this many times the soft limit.
pub const HARD_MULTIPLIER: u64 = 5;

/// How the time for a move is given.
pub enum Budget {
    /// No limit.
    Unlimited,
    /// The same soft and hard limit, not to be scaled.
    Fixed(int),
    /// A soft and a hard limit from the clock.
    Clock { soft: int, hard: int },
}

/// `a` less `b`, or 0.
pub open spec fn less(a: int, b: int) -> int {
    if a >= b {
        a - b
    } else {
        0
    }
}

/// The larger of two numbers.
pub open spec fn larger(a: int, b: int) -> int {
    if a >= b {
        a
    } else {
        b
    }
}

/// The smaller of two numbers.
pub open spec fn smaller(a: int, b: int) -> int {
    if a <= b {
        a
    } else {
        b
    }
}

/// The moves that are expected to follow at a move number, between 5 and 40.
pub open spec fn moves_to_come(fullmove: int) -> int {
    smaller(larger(less(50, fullmove / 2), 5), 40)
}

/// The soft limit from the clock.
pub open spec fn clock_soft(remaining: int, inc: int, moves_left: int) -> int {
    larger(less(smaller(remaining / moves_left + inc * 85 / 100, remaining * 4 / 5), 50), 1)
}

/// The hard limit from the clock.
pub open spec fn clock_hard(remaining: int, soft: int) -> int {
    larger(less(smaller(soft * 5, remaining * 4 / 5), 50), soft)
}

/// The time that is given for a move.
pub open spec fn budget_of(l: SearchLimits, side: Color, fullmove: int) -> Budget {
    let (remaining, inc) = match side {
        Color::White => (l.wtime, l.winc),
        Color::Black => (l.btime, l.binc),
    };
    if l.infinite || l.ponder || (l.movetime is None && l.wtime is None && l.btime is None) {
        Budget::Unlimited
    } else if l.movetime is Some {
        Budget::Fixed(larger(less(l.movetime->0 as int, 50), 1))
    } else if remaining is None {
        Budget::Unlimited
    } else if remaining->0 < 1000 {
        Budget::Fixed(larger(less(remaining->0 as int / 3, 50), 1))
    } else {
        let left = match l.movestogo {
            Some(m) => m as int,
            None => moves_to_come(fullmove),
        };
        let i = match inc {
            Some(n) => n as int,
            None => 0,
        };
        let soft = clock_soft(remaining->0 as int, i, left);
        Budget::Clock { soft, hard: clock_hard(remaining->0 as int, soft) }
    }
}

/// The percentage of the soft limit to use once the best move has been
/// unchanged for a number of depths:
///
/// | depths | percent | effect |
/// |--------|---------|--------|
/// | 0 | 125 | the best move has changed: use more time |
/// | 1 | 110 | still uncertain |
/// | 2 | 100 | neutral |
/// | 3 | 85 | gaining confidence |
/// | 4 | 70 | confident |
/// | 5 | 55 | very confident: save time |
/// | 6 or more | 50 | the least that is used |
///
/// It falls strictly up to six depths, so that beyond five it does not stay at
/// the 55 percent of a very confident search.
pub open spec fn scale_percent(stability: int) -> int {
    if stability == 0 {
        125
    } else if stability == 1 {
        110
    } else if stability == 2 {
        100
    } else if stability == 3 {
        85
    } else if stability == 4 {
        70
    } else if stability == 5 {
        55
    } else {
        50
    }
}

/// Time scale, in percent, by how many consecutive depths the best move has
/// been unchanged.
pub fn stability_scale(stability: u32) -> (r: u64)
    ensures
        r == scale_percent(stability as int),
        50 <= r <= 125,
{
    if stability == 0 {
        125
    } else if stability == 1 {
        110
    } else if stability == 2 {
        100
    } else if stability == 3 {
        85
    } else if stability == 4 {
        70
    } else if stability == 5 {
        55
    } else {
        50
    }
}

/// The longer the best move has been the same, the less time is used.
pub proof fn law_scale_decreases(a: int, b: int)
    requires
        0 <= a <= b,
    ensures
        scale_percent(a) >= scale_percent(b),
        b <= 6 && a < b ==> scale_percent(a) > scale_percent(b),
{
}

/// Estimate how many moves remain in the game when `movestogo` is absent.
///
/// Between 5 and 40, fewer as the game goes on.
pub fn estimate_moves_remaining(fullmove: u16) -> (r: u64)
    ensures
        r == moves_to_come(fullmove as int),
        5 <= r <= 40,
{
    let played: u64 = (fullmove / 2) as u64;
    let remaining: u64 = if played <= 50 {
        50 - played
    } else {
        0
    };
    if remaining < 5 {
        5
    } else if remaining > 40 {
        40
    } else {
        remaining
    }
}

/// `a` less `b`, or 0.
fn less_ms(a: u64, b: u64) -> (r: u64)
    ensures
        r == less(a as int, b as int),
{
    if a >= b {
        a - b
    } else {
        0
    }
}

/// Manages the time budget for one move.
pub struct TimeManager {
    /// Milliseconds after which no new depth is begun.
    pub soft_ms: Option<u64>,
    /// Milliseconds after which the search is broken off.
    pub hard_ms: Option<u64>,
    /// The unscaled soft limit, kept to re-apply stability scaling.
    pub base_soft_ms: u64,
    /// Consecutive completed depths where the best move was unchanged.
    pub stability: u32,
    /// Best move reported at the end of the previous depth.
    pub prev_best: Option<Move>,
    /// If true, the soft limit is fixed and not scaled.
    pub is_fixed: bool,
}

/// Where the time of `side` is taken from a clock with a second or more, it is
/// small enough for the arithmetic, and there are moves to divide it by.
pub open spec fn sane(l: SearchLimits, side: Color) -> bool {
    let (remaining, inc) = match side {
        Color::White => (l.wtime, l.winc),
        Color::Black => (l.btime, l.binc),
    };
    !l.infinite && !l.ponder && l.movetime is None ==> (remaining matches Some(t) ==> t >= 1000 ==> {
        &&& t <= 0x00ff_ffff_ffff_ffff
        &&& inc matches Some(i) ==> i <= 0x00ff_ffff_ffff_ffff
        &&& l.movestogo matches Some(m) ==> m > 0
    })
}

/// The time manager for a move before its first depth.
pub open spec fn planned(l: SearchLimits, side: Color, fullmove: int) -> TimeManager {
    let (soft, hard, base, fixed) = match budget_of(l, side, fullmove) {
        Budget::Unlimited => (None, None, 0u64, true),
        Budget::Fixed(n) => (Some(n as u64), Some(n as u64), n as u64, true),
        Budget::Clock { soft, hard } => (Some(soft as u64), Some(hard as u64), soft as u64, false),
    };
    TimeManager {
        soft_ms: soft,
        hard_ms: hard,
        base_soft_ms: base,
        stability: 0,
        prev_best: None,
        is_fixed: fixed,
    }
}

impl TimeManager {
    /// The time manager after one more depth with the given best move.
    pub open spec fn updated(self, best_move: Option<Move>) -> TimeManager {
        if self.is_fixed {
            self
        } else {
            let kept = best_move is Some && best_move == self.prev_best;
            let s = if kept {
                smaller(self.stability + 1, 8)
            } else {
                0
            };
            TimeManager {
                stability: s as u32,
                prev_best: best_move,
                soft_ms: Some(
                    smaller(
                        larger(self.base_soft_ms * scale_percent(s) / 100, 1),
                        self.hard_ms->0 as int,
                    ) as u64,
                ),
                ..self
            }
        }
    }

    /// The soft limit is never above the hard one, and the unscaled limit is
    /// small enough to be scaled.
    pub open spec fn wf(&self) -> bool {
        &&& self.soft_ms is Some == self.hard_ms is Some
        &&& self.soft_ms is Some ==> self.soft_ms->0 <= self.hard_ms->0
        &&& !self.is_fixed ==> self.base_soft_ms <= 0x00ff_ffff_ffff_ffff && self.hard_ms is Some
            && 1 <= self.hard_ms->0
    }

    /// Build a time manager from the search limits.
    ///
    /// `fullmove_number` is used to estimate moves remaining when `movestogo`
    /// is absent.
    pub fn new(limits: &SearchLimits, side: Color, fullmove_number: u16) -> (r: TimeManager)
        requires
            sane(*limits, side),
        ensures
            r.wf(),
            r == planned(*limits, side, fullmove_number as int),
    {
        // Infinite / pondering / depth-only / node-only: no time pressure.
        if limits.infinite || limits.ponder || (limits.movetime.is_none() && limits.wtime.is_none()
            && limits.btime.is_none()) {
            return TimeManager::unlimited();
        }
        // Fixed movetime: use exactly that duration.
        if let Some(mt) = limits.movetime {
            let ms: u64 = less_ms(mt, MOVE_OVERHEAD_MS);
            return TimeManager::fixed(
                if ms >= 1 {
                    ms
                } else {
                    1
                },
            );
        }
        // Clock-based allocation.
        let (clock, increment) = match side {
            Color::White => (limits.wtime, limits.winc),
            Color::Black => (limits.btime, limits.binc),
        };
        let remaining: u64 = match clock {
            Some(t) => t,
            None => {
                return TimeManager::unlimited();
            },
        };
        let inc: u64 = match increment {
            Some(n) => n,
            None => 0,
        };
        // Less than a second left: be very conservative.
        if remaining < 1000 {
            let ms: u64 = less_ms(remaining / 3, MOVE_OVERHEAD_MS);
            return TimeManager::fixed(
                if ms >= 1 {
                    ms
                } else {
                    1
                },
            );
        }
        let moves_left: u64 = match limits.movestogo {
            Some(m) => m as u64,
            None => estimate_moves_remaining(fullmove_number),
        };
        let base: u64 = remaining / moves_left;
        let bonus: u64 = inc * 85 / 100;
        let max_alloc: u64 = remaining * 4 / 5;
        proof {
            assert(base <= remaining) by (nonlinear_arith)
                requires
                    base == remaining / moves_left,
                    moves_left >= 1,
            ;
        }
        let wish: u64 = base + bonus;
        let capped: u64 = if wish <= max_alloc {
            wish
        } else {
            max_alloc
        };
        let spare: u64 = less_ms(capped, MOVE_OVERHEAD_MS);
        let soft: u64 = if spare >= 1 {
            spare
        } else {
            1
        };
        let reach: u64 = if soft * HARD_MULTIPLIER <= max_alloc {
            soft * HARD_MULTIPLIER
        } else {
            max_alloc
        };
        let top: u64 = less_ms(reach, MOVE_OVERHEAD_MS);
        // The hard limit is never less than the soft one.
        let hard: u64 = if top >= soft {
            top
        } else {
            soft
        };
        TimeManager {
            soft_ms: Some(soft),
            hard_ms: Some(hard),
            base_soft_ms: soft,
            stability: 0,
            prev_best: None,
            is_fixed: false,
        }
    }

    /// No time constraint (depth/nodes/infinite mode).
    fn unlimited() -> (r: TimeManager)
        ensures
            r == (TimeManager {
                soft_ms: None,
                hard_ms: None,
                base_soft_ms: 0,
                stability: 0,
                prev_best: None,
                is_fixed: true,
            }),
    {
        TimeManager {
            soft_ms: None,
            hard_ms: None,
            base_soft_ms: 0,
            stability: 0,
            prev_best: None,
            is_fixed: true,
        }
    }

    /// The same soft and hard limit, which is not scaled.
    fn fixed(ms: u64) -> (r: TimeManager)
        ensures
            r == (TimeManager {
                soft_ms: Some(ms),
                hard_ms: Some(ms),
                base_soft_ms: ms,
                stability: 0,
                prev_best: None,
                is_fixed: true,
            }),
    {
        TimeManager {
            soft_ms: Some(ms),
            hard_ms: Some(ms),
            base_soft_ms: ms,
            stability: 0,
            prev_best: None,
            is_fixed: true,
        }
    }

    /// The hard limit, in milliseconds from the start of the move.
    pub fn hard_deadline(&self) -> (r: Option<u64>)
        ensures
            r == self.hard_ms,
    {
        self.hard_ms
    }

    /// The current soft limit, in milliseconds from the start of the move.
    pub fn soft_limit(&self) -> (r: Option<u64>)
        ensures
            r == self.soft_ms,
    {
        self.soft_ms
    }

    /// Track move stability and rescale the soft limit.
    ///
    /// Call this after every completed depth with the best move found.
    pub fn update(&mut self, best_move: Option<Move>)
        requires
            old(self).wf(),
            old(self).stability <= 8,
        ensures
            final(self).wf(),
            final(self).stability <= 8,
            *final(self) == old(self).updated(best_move),
    {
        if self.is_fixed {
            return;
        }
        let kept = best_move.is_some() && best_move == self.prev_best;
        if kept {
            if self.stability < 8 {
                self.stability = self.stability + 1;
            }
        } else {
            self.stability = 0;
        }
        self.prev_best = best_move;
        let percent: u64 = stability_scale(self.stability);
        let base: u64 = self.base_soft_ms;
        proof {
            assert(0 <= base * percent <= 0x00ff_ffff_ffff_ffff * 125) by (nonlinear_arith)
                requires
                    0 <= base <= 0x00ff_ffff_ffff_ffff,
                    0 <= percent <= 125,
            ;
        }
        let adjusted: u64 = base * percent / 100;
        let wish: u64 = if adjusted >= 1 {
            adjusted
        } else {
            1
        };
        // The soft limit is never above the hard one.
        self.soft_ms =
        match self.hard_ms {
            Some(hard) => Some(
                if wish <= hard {
                    wish
                } else {
                    hard
                },
            ),
            None => Some(wish),
        };
    }

    /// True if the elapsed time has reached or exceeded the soft limit.
    pub fn soft_limit_expired(&self, elapsed_ms: u64) -> (r: bool)
        ensures
            r == (self.soft_ms matches Some(lim) && elapsed_ms >= lim),
    {
        match self.soft_ms {
            Some(lim) => elapsed_ms >= lim,
            None => false,
        }
    }
}

/// The hard limit from the clock is never below the soft one, and neither uses
/// more than 80 percent of the clock, one millisecond apart.
pub proof fn law_clock_limits(remaining: int, inc: int, moves_left: int)
    requires
        remaining >= 1000,
        inc >= 0,
        moves_left > 0,
    ensures
        1 <= clock_soft(remaining, inc, moves_left) <= clock_hard(
            remaining,
            clock_soft(remaining, inc, moves_left),
        ),
        clock_hard(remaining, clock_soft(remaining, inc, moves_left)) <= remaining * 4 / 5,
{
}

/// More time on the clock never gives a smaller soft limit, nor does a larger
/// increment or fewer moves to go.
pub proof fn law_clock_monotone(r1: int, r2: int, i1: int, i2: int, m1: int, m2: int)
    requires
        0 <= r1 <= r2,
        0 <= i1 <= i2,
        0 < m2 <= m1,
    ensures
        clock_soft(r1, i1, m1) <= clock_soft(r2, i2, m2),
{
    assert(r1 / m1 <= r2 / m2) by {
        vstd::arithmetic::div_mod::lemma_div_is_ordered(r1, r2, m1);
        vstd::arithmetic::div_mod::lemma_div_is_ordered_by_denominator(r2, m2, m1);
    }
}

/// The clock of a side.
pub open spec fn clock_of(l: SearchLimits, side: Color) -> Option<u64> {
    if side == Color::Black {
        l.btime
    } else {
        l.wtime
    }
}

/// A side gets no limit exactly when the search is infinite or ponders, or when
/// there is neither a time for the move nor time on its own clock.
pub proof fn law_own_clock_limits(l: SearchLimits, side: Color, fullmove: int)
    ensures
        budget_of(l, side, fullmove) is Unlimited <==> l.infinite || l.ponder || (l.movetime is None
            && clock_of(l, side) is None),
        planned(l, side, fullmove).soft_ms is None <==> l.infinite || l.ponder || (l.movetime is None
            && clock_of(l, side) is None),
        planned(l, side, fullmove).hard_ms is None <==> l.infinite || l.ponder || (l.movetime is None
            && clock_of(l, side) is None),
{
}

/// Exchanging the colors together with the clocks and increments changes nothing,
/// and the clock and increment of the other side make no difference.
pub proof fn law_sides_alike(
    l: SearchLimits,
    fullmove: int,
    time: Option<u64>,
    inc: Option<u64>,
)
    ensures
        ({
            let m = SearchLimits {
                wtime: l.btime,
                btime: l.wtime,
                winc: l.binc,
                binc: l.winc,
                ..l
            };
            &&& budget_of(m, Color::White, fullmove) == budget_of(l, Color::Black, fullmove)
            &&& budget_of(m, Color::Black, fullmove) == budget_of(l, Color::White, fullmove)
        }),
        budget_of(SearchLimits { btime: time, binc: inc, ..l }, Color::White, fullmove)
            == budget_of(l, Color::White, fullmove),
        budget_of(SearchLimits { wtime: time, winc: inc, ..l }, Color::Black, fullmove)
            == budget_of(l, Color::Black, fullmove),
{
}

/// A time for the move is used up but for 50 milliseconds, whatever the clocks
/// say, and both limits are the same.
pub proof fn law_move_time(l: SearchLimits, side: Color, fullmove: int)
    requires
        !l.infinite,
        !l.ponder,
        l.movetime is Some,
    ensures
        ({
            let tm = planned(l, side, fullmove);
            let ms = l.movetime->0;
            &&& tm.soft_ms == tm.hard_ms
            &&& tm.is_fixed
            &&& ms > 51 ==> tm.soft_ms->0 + 50 == ms
            &&& ms <= 51 ==> tm.soft_ms == Some(1u64)
        }),
{
}

/// With less than a second on the clock, a third of it is used but for 50
/// milliseconds, and both limits are the same.
pub proof fn law_short_clock(l: SearchLimits, side: Color, fullmove: int)
    requires
        !l.infinite,
        !l.ponder,
        l.movetime is None,
        clock_of(l, side) matches Some(t) && t < 1000,
    ensures
        ({
            let tm = planned(l, side, fullmove);
            let t = clock_of(l, side)->0;
            &&& tm.soft_ms == tm.hard_ms
            &&& tm.is_fixed
            &&& t >= 156 ==> 3 * (tm.soft_ms->0 + 50) <= t < 3 * (tm.soft_ms->0 + 51)
            &&& t < 156 ==> tm.soft_ms == Some(1u64)
        }),
{
}

/// The moves that the clock is divided by: those to go until the next control, if
/// they are given, else 40 up to move 20, one less for every two moves from there
/// on, and no fewer than 5.
pub open spec fn shares(l: SearchLimits, fullmove: int, n: int) -> bool {
    match l.movestogo {
        Some(m) => n == m,
        None => {
            &&& fullmove <= 21 ==> n == 40
            &&& 20 <= fullmove <= 91 ==> 100 - fullmove <= 2 * n <= 101 - fullmove
            &&& fullmove >= 90 ==> n == 5
        },
    }
}

/// With a second or more on the clock, the soft limit is the share of one move in
/// what is left on the side's own clock, with 85 percent of its own increment, but
/// no more than 80 percent of the clock; 50 milliseconds are kept back. The hard
/// limit is five times the soft one, within the same 80 percent.
pub proof fn law_clock_share(l: SearchLimits, side: Color, fullmove: int, n: int)
    requires
        sane(l, side),
        !l.infinite,
        !l.ponder,
        l.movetime is None,
        clock_of(l, side) matches Some(t) && t >= 1000,
        fullmove >= 0,
        n > 0,
        shares(l, fullmove, n),
    ensures
        ({
            let tm = planned(l, side, fullmove);
            let t = clock_of(l, side)->0 as int;
            let own = if side == Color::Black {
                l.binc
            } else {
                l.winc
            };
            let inc = match own {
                Some(i) => i as int,
                None => 0,
            };
            let soft = tm.soft_ms->0 as int;
            let hard = tm.hard_ms->0 as int;
            &&& !tm.is_fixed
            &&& tm.base_soft_ms == soft
            &&& soft > 1 ==> soft + 50 <= t / n + inc * 85 / 100
            &&& soft > 1 ==> 5 * (soft + 50) <= 4 * t
            &&& soft + 50 >= t / n + inc * 85 / 100 || 5 * (soft + 51) > 4 * t
            &&& hard > soft ==> hard + 50 <= 5 * soft && 5 * (hard + 50) <= 4 * t
            &&& hard + 50 >= 5 * soft || 5 * (hard + 51) > 4 * t
            &&& hard >= soft >= 1
        }),
{
    let t = clock_of(l, side)->0 as int;
    let own = if side == Color::Black {
        l.binc
    } else {
        l.winc
    };
    let inc = match own {
        Some(i) => i as int,
        None => 0,
    };
    let left = match l.movestogo {
        Some(m) => m as int,
        None => moves_to_come(fullmove),
    };
    assert(left == n);
    law_clock_limits(t, inc, n);
}

/// After a depth, a limit that is not fixed is between half and one and a quarter of
/// the first one, never above the hard limit, and the less the longer the best move
/// has been the same; a change of the best move, or none, gives the most. A fixed one
/// never changes.
pub proof fn law_soft_limit_after_depth(tm: TimeManager, mv: Option<Move>)
    requires
        tm.wf(),
        tm.stability <= 8,
    ensures
        ({
            let next = tm.updated(mv);
            let ms = next.soft_ms->0;
            &&& next.hard_ms == tm.hard_ms
            &&& next.base_soft_ms == tm.base_soft_ms
            &&& tm.is_fixed ==> next == tm
            &&& !tm.is_fixed ==> {
                &&& next.prev_best == mv
                &&& ms <= tm.hard_ms->0
                &&& ms == tm.hard_ms->0 || 2 * ms + 2 > tm.base_soft_ms
                &&& ms == 1 || 4 * ms <= 5 * tm.base_soft_ms
                &&& mv is None || mv != tm.prev_best ==> next.stability == 0 && (ms
                    == tm.hard_ms->0 || 4 * (ms + 1) > 5 * tm.base_soft_ms)
                &&& mv is Some && mv == tm.prev_best && tm.stability < 8 ==> next.stability
                    == tm.stability + 1
                &&& next.stability >= 6 ==> ms <= 1 || 2 * ms <= tm.base_soft_ms
            }
        }),
{
}

/// The percentages of the table, and no less beyond it.
pub proof fn law_scale_table(depths: int)
    requires
        depths >= 0,
    ensures
        depths < 6 ==> scale_percent(depths) == seq![125int, 110, 100, 85, 70, 55][depths],
        depths >= 6 ==> scale_percent(depths) == 50,
{
}

/// After a depth the soft limit is the percentage of the table of the first one, where that
/// is at least a millisecond and does not exceed the hard limit.
pub proof fn law_soft_limit_scaled(tm: TimeManager, mv: Option<Move>)
    requires
        tm.wf(),
        !tm.is_fixed,
        tm.stability <= 8,
    ensures
        ({
            let next = tm.updated(mv);
            let ms = next.soft_ms->0 as int;
            let k = if next.stability < 6 {
                next.stability as int
            } else {
                6
            };
            let pct = seq![125int, 110, 100, 85, 70, 55, 50][k];
            ms == tm.hard_ms->0 || ms == 1 || 100 * ms <= tm.base_soft_ms * pct < 100 * (ms + 1)
        }),
{
    let next = tm.updated(mv);
    let pct = scale_percent(next.stability as int);
    let base = tm.base_soft_ms as int;
    assert(100 * (base * pct / 100) <= base * pct < 100 * (base * pct / 100 + 1));
}

} // verus!
