//! Move ordering.
//!
//! Alpha-beta prunes far more when the best move is tried first. Each move gets
//! a score, and the moves are searched highest first: the hash move, captures
//! that do not lose material, promotions, killer moves, the counter-move, quiet
//! moves by history, and last the captures that lose material.

use crate::board::{Board, Color, Pos};
use crate::eval::score::tdiv;
use crate::movegen::moves::Move;
use crate::search::params::clamped;
use crate::search::see::{law_see_bounds, see, see_score, see_value, SEE_VALUES};
use vstd::prelude::*;

verus! {

/// No move at any ply.
pub fn no_moves() -> (r: [Option<Move>; 128])
    ensures
        r@ == Seq::new(128, |i: int| None::<Move>),
{
    let r: [Option<Move>; 128] = [None; 128];
    proof {
        assert(r@ =~= Seq::new(128, |i: int| None::<Move>));
    }
    r
}

/// Maximum ply we track killer moves for (also bounds quiescence recursion).
pub const MAX_PLY: usize = 128;

/// The hash move.
pub const SCORE_TT: i32 = 2_000_000;

/// Winning / neutral captures: searched before quiet moves.
pub const SCORE_WIN_CAP: i32 = 1_000_000;

/// Promotions that capture nothing: searched after the winning and neutral
/// captures.
pub const SCORE_PROMO: i32 = 950_000;

/// The latest killer move.
pub const SCORE_KILLER_1: i32 = 900_000;

/// The earlier killer move.
pub const SCORE_KILLER_2: i32 = 800_000;

/// Counter-move: the quiet move that most recently refuted the predecessor move.
pub const SCORE_COUNTER: i32 = 700_000;

/// History scores stay below the counter-move band.
pub const HISTORY_MAX: i32 = 699_999;

/// Losing captures: searched after quiet moves.
pub const SCORE_LOSE_CAP: i32 = -1_000_000;

/// Another name for the winning-capture band.
pub const SCORE_CAPTURE: i32 = 1_000_000;

/// The size of a number.
pub open spec fn magnitude(n: int) -> int {
    if n >= 0 {
        n
    } else {
        -n
    }
}

/// A history entry after a bonus (or, if negative, a malus): the closer the
/// entry is to its limit, the less of it counts.
pub open spec fn gravity(entry: int, bonus: int) -> int {
    clamped(
        entry + (bonus - tdiv(entry * magnitude(bonus), HISTORY_MAX as int)),
        -HISTORY_MAX as int,
        HISTORY_MAX as int,
    )
}

/// The entry is within the limits.
pub open spec fn tame(entry: i32) -> bool {
    -HISTORY_MAX <= entry <= HISTORY_MAX
}

/// The entry after a bonus or malus, saturating at the limits.
pub fn history_update(entry: i32, bonus: i32) -> (r: i32)
    requires
        tame(entry),
    ensures
        r == gravity(entry as int, bonus as int),
        tame(r),
{
    let e: i64 = entry as i64;
    let b: i64 = bonus as i64;
    let size: i64 = if b >= 0 {
        b
    } else {
        -b
    };
    proof {
        assert(-699_999 * 0x8000_0000 <= e * size <= 699_999 * 0x8000_0000) by (nonlinear_arith)
            requires
                -699_999 <= e <= 699_999,
                0 <= size <= 0x8000_0000,
        ;
    }
    let prod: i64 = e * size;
    let part: i64 = if prod >= 0 {
        prod / 699_999
    } else {
        -((-prod) / 699_999)
    };
    let v: i64 = e + (b - part);
    if v < -699_999 {
        -HISTORY_MAX
    } else if v > 699_999 {
        HISTORY_MAX
    } else {
        v as i32
    }
}

/// A bonus never lowers an entry that is below its limit, nor does a malus
/// raise one.
pub proof fn law_gravity_direction(entry: int, bonus: int)
    requires
        -HISTORY_MAX <= entry <= HISTORY_MAX,
        -HISTORY_MAX <= bonus <= HISTORY_MAX,
    ensures
        bonus >= 0 ==> gravity(entry, bonus) >= entry,
        bonus <= 0 ==> gravity(entry, bonus) <= entry,
        -HISTORY_MAX <= gravity(entry, bonus) <= HISTORY_MAX,
{
    let m = magnitude(bonus);
    let q = tdiv(entry * m, 699_999);
    assert(-m <= q <= m) by {
        assert(-699_999 * m <= entry * m <= 699_999 * m) by (nonlinear_arith)
            requires
                -699_999 <= entry <= 699_999,
                m >= 0,
        ;
        if entry * m >= 0 {
            assert((entry * m) / 699_999 <= m) by (nonlinear_arith)
                requires
                    0 <= entry * m <= 699_999 * m,
            ;
        } else {
            assert((-(entry * m)) / 699_999 <= m) by (nonlinear_arith)
                requires
                    0 <= -(entry * m) <= 699_999 * m,
            ;
        }
    }
}

/// The bonus for a cutoff at a depth: its square, up to that of 13.
pub open spec fn depth_bonus(depth: int) -> int {
    if depth < 13 {
        depth * depth
    } else {
        169
    }
}

/// The bonus for a cutoff at a depth.
pub fn bonus_for(depth: u32) -> (r: i32)
    ensures
        r == depth_bonus(depth as int),
        0 <= r <= 169,
{
    if depth < 13 {
        proof {
            assert(0 <= depth * depth <= 169) by (nonlinear_arith)
                requires
                    0 <= depth < 13,
            ;
        }
        (depth * depth) as i32
    } else {
        169
    }
}

/// The quiescence score of a move.
pub open spec fn capture_value(p: Pos, mv: Move) -> int {
    if mv.captures() {
        see_score(p, mv) + (match mv.promo() {
            Some(pt) => see_value(pt),
            None => 0,
        })
    } else {
        match mv.promo() {
            Some(pt) => see_value(pt),
            None => -1,
        }
    }
}

/// Quiescence ordering.
///
/// Captures are ranked by what they win, promotions by the promoted piece, and
/// other moves come at -1.
pub fn capture_score(board: &Board, mv: Move) -> (r: i32)
    requires
        board.wf(),
    ensures
        r == capture_value(board@, mv),
        -20_000 <= r <= 50_000,
{
    if mv.is_capture() {
        let s: i32 = see(board, mv);
        match mv.promotion_piece() {
            Some(pt) => s + SEE_VALUES[pt.index()],
            None => s,
        }
    } else {
        match mv.promotion_piece() {
            Some(pt) => SEE_VALUES[pt.index()],
            None => -1,
        }
    }
}

/// The ordering score of a move in the main search.
pub open spec fn move_value(
    p: Pos,
    mv: Move,
    ply: int,
    tt_move: Option<Move>,
    killers: Seq<(Option<Move>, Option<Move>)>,
    history: Seq<i32>,
    counter: Option<Move>,
) -> int {
    if tt_move == Some(mv) {
        SCORE_TT as int
    } else if mv.captures() {
        let s = see_score(p, mv);
        if s >= 0 {
            SCORE_WIN_CAP + s
        } else {
            SCORE_LOSE_CAP + s
        }
    } else if mv.promo() is Some {
        SCORE_PROMO + see_value(mv.promo()->0)
    } else if killer_at(killers, ply).0 == Some(mv) {
        SCORE_KILLER_1 as int
    } else if killer_at(killers, ply).1 == Some(mv) {
        SCORE_KILLER_2 as int
    } else if counter == Some(mv) {
        SCORE_COUNTER as int
    } else {
        history[history_index(p.side, mv)] as int
    }
}

/// Full move ordering for the main search, highest score first:
///
/// 1. the hash move;
/// 2. winning or neutral captures, by what they win;
/// 3. promotions that capture nothing, by the promoted piece;
/// 4. killer moves;
/// 5. the counter-move;
/// 6. other quiet moves, by history;
/// 7. losing captures, the least bad first.
///
/// `counter_move` is the stored counter to the predecessor move, if any.
pub fn score_move(
    board: &Board,
    mv: Move,
    ply: usize,
    tt_move: Option<Move>,
    killers: &Killers,
    history: &History,
    counter_move: Option<Move>,
) -> (r: i32)
    requires
        board.wf(),
        history.wf(),
    ensures
        r == move_value(
            board@,
            mv,
            ply as int,
            tt_move,
            killers@,
            history@,
            counter_move,
        ),
        -2_000_000 <= r <= 2_000_000,
{
    if tt_move == Some(mv) {
        return SCORE_TT;
    }
    if mv.is_capture() {
        let see_val: i32 = see(board, mv);
        return if see_val >= 0 {
            SCORE_WIN_CAP + see_val
        } else {
            SCORE_LOSE_CAP + see_val
        };
    }
    if let Some(pt) = mv.promotion_piece() {
        return SCORE_PROMO + SEE_VALUES[pt.index()];
    }
    if killers.first(ply) == Some(mv) {
        return SCORE_KILLER_1;
    }
    if killers.second(ply) == Some(mv) {
        return SCORE_KILLER_2;
    }
    if counter_move == Some(mv) {
        return SCORE_COUNTER;
    }
    history.get(board.side_to_move, mv)
}

/// The hash move comes before every other move, captures that do not lose
/// material before quiet moves, and those that do after them.
pub proof fn law_ordering_bands(
    p: Pos,
    hash_move: Move,
    good: Move,
    quiet: Move,
    bad: Move,
    ply: int,
    killers: Seq<(Option<Move>, Option<Move>)>,
    history: Seq<i32>,
    counter: Option<Move>,
)
    requires
        history.len() == 8192,
        forall|i: int| 0 <= i < history.len() ==> tame(#[trigger] history[i]),
        good != hash_move,
        quiet != hash_move,
        bad != hash_move,
        good.captures(),
        see_score(p, good) >= 0,
        !quiet.captures(),
        quiet.promo() is None,
        bad.captures(),
        see_score(p, bad) < 0,
    ensures
        ({
            let v = |m: Move| move_value(p, m, ply, Some(hash_move), killers, history, counter);
            v(hash_move) > v(good) && v(good) > v(quiet) && v(quiet) > v(bad)
        }),
{
    crate::search::see::law_see_bounds(p, good);
    crate::search::see::law_see_bounds(p, bad);
    let i = history_index(p.side, quiet);
    assert(0 <= i < 8192);
    assert(tame(history[i]));
}

/// A winning or neutral capture comes before every promotion that captures
/// nothing, and such a promotion before every quiet move.
pub proof fn law_promotion_band(
    p: Pos,
    hash_move: Option<Move>,
    good: Move,
    promo: Move,
    quiet: Move,
    ply: int,
    killers: Seq<(Option<Move>, Option<Move>)>,
    history: Seq<i32>,
    counter: Option<Move>,
)
    requires
        history.len() == 8192,
        forall|i: int| 0 <= i < history.len() ==> tame(#[trigger] history[i]),
        hash_move != Some(good),
        hash_move != Some(promo),
        hash_move != Some(quiet),
        good.captures(),
        see_score(p, good) >= 0,
        !promo.captures(),
        promo.promo() is Some,
        !quiet.captures(),
        quiet.promo() is None,
    ensures
        ({
            let v = |m: Move| move_value(p, m, ply, hash_move, killers, history, counter);
            v(good) > v(promo) && v(promo) > v(quiet)
        }),
{
    let i = history_index(p.side, quiet);
    assert(0 <= i < 8192);
    assert(tame(history[i]));
}

/// The killers of a ply.
pub open spec fn killer_at(table: Seq<(Option<Move>, Option<Move>)>, ply: int) -> (
    Option<Move>,
    Option<Move>,
) {
    if 0 <= ply < 128 {
        table[ply]
    } else {
        (None, None)
    }
}

/// The killers after recording a move.
pub open spec fn killers_with(
    table: Seq<(Option<Move>, Option<Move>)>,
    ply: int,
    mv: Move,
) -> Seq<(Option<Move>, Option<Move>)> {
    if ply >= 128 || table[ply].0 == Some(mv) {
        table
    } else {
        table.update(ply, (Some(mv), table[ply].0))
    }
}

/// Two "killer" quiet moves per ply.
pub struct Killers {
    pub table: [(Option<Move>, Option<Move>); 128],
}

impl View for Killers {
    type V = Seq<(Option<Move>, Option<Move>)>;

    open spec fn view(&self) -> Seq<(Option<Move>, Option<Move>)> {
        self.table@
    }
}

impl Killers {
    /// No killers.
    pub fn new() -> (r: Killers)
        ensures
            r@ == Seq::new(128, |i: int| (None::<Move>, None::<Move>)),
    {
        let r = Killers { table: [(None, None); 128] };
        proof {
            assert(r@ =~= Seq::new(128, |i: int| (None::<Move>, None::<Move>)));
        }
        r
    }

    /// Record `mv` as the most recent killer at `ply`, shifting the previous one
    /// into the second slot.
    pub fn add(&mut self, ply: usize, mv: Move)
        ensures
            final(self)@ == killers_with(old(self)@, ply as int, mv),
    {
        if ply >= MAX_PLY {
            return;
        }
        let latest = self.table[ply].0;
        if latest == Some(mv) {
            return;
        }
        self.table[ply] = (Some(mv), latest);
    }

    /// The most recent killer at `ply`.
    pub fn first(&self, ply: usize) -> (r: Option<Move>)
        ensures
            r == killer_at(self@, ply as int).0,
    {
        if ply < MAX_PLY {
            self.table[ply].0
        } else {
            None
        }
    }

    /// The killer before the most recent one at `ply`.
    pub fn second(&self, ply: usize) -> (r: Option<Move>)
        ensures
            r == killer_at(self@, ply as int).1,
    {
        if ply < MAX_PLY {
            self.table[ply].1
        } else {
            None
        }
    }
}

/// The history entry of a move.
pub open spec fn history_index(side: Color, mv: Move) -> int {
    (side.idx() * 64 + mv.src().0) * 64 + mv.dst().0
}

/// The history after a bonus or malus for a move.
pub open spec fn history_with(h: Seq<i32>, side: Color, mv: Move, bonus: int) -> Seq<i32> {
    let i = history_index(side, mv);
    h.update(i, gravity(h[i] as int, bonus) as i32)
}

/// All entries halved.
pub open spec fn halved(h: Seq<i32>) -> Seq<i32> {
    h.map_values(|e: i32| tdiv(e as int, 2) as i32)
}

/// Every entry is within the limits.
pub open spec fn all_tame(h: Seq<i32>) -> bool {
    forall|i: int| 0 <= i < h.len() ==> tame(#[trigger] h[i])
}

/// Halve every entry, rounding toward zero.
fn halve_all(table: &mut Vec<i32>)
    requires
        all_tame(old(table)@),
    ensures
        final(table)@ == halved(old(table)@),
        all_tame(final(table)@),
{
    let ghost start = table@;
    let mut i: usize = 0;
    while i < table.len()
        invariant
            i <= table@.len(),
            table@.len() == start.len(),
            all_tame(start),
            forall|k: int| 0 <= k < i ==> #[trigger] table@[k] == halved(start)[k],
            forall|k: int| i <= k < table@.len() ==> #[trigger] table@[k] == start[k],
        decreases table@.len() - i,
    {
        let e: i32 = table[i];
        proof {
            assert(tame(start[i as int]));
        }
        let half: i32 = if e >= 0 {
            e / 2
        } else {
            -((-e) / 2)
        };
        table[i] = half;
        i += 1;
    }
    proof {
        assert(table@ =~= halved(start));
        assert forall|k: int| 0 <= k < table@.len() implies tame(#[trigger] table@[k]) by {
            assert(tame(start[k]));
        }
    }
}

/// History heuristic: how often a quiet move has produced a beta cutoff,
/// weighted by the depth at which it did, by side, source and target square.
pub struct History {
    pub table: Vec<i32>,
}

impl View for History {
    type V = Seq<i32>;

    open spec fn view(&self) -> Seq<i32> {
        self.table@
    }
}

impl History {
    /// There is an entry for each side and pair of squares, within the limits.
    pub open spec fn wf(&self) -> bool {
        self@.len() == 8192 && all_tame(self@)
    }

    /// All entries zero.
    pub fn new() -> (r: History)
        ensures
            r.wf(),
            r@ == Seq::new(8192, |i: int| 0i32),
    {
        let r = History { table: vec![0i32; 8192] };
        proof {
            assert(r@ =~= Seq::new(8192, |i: int| 0i32));
        }
        r
    }

    fn index(side: Color, mv: Move) -> (r: usize)
        ensures
            r == history_index(side, mv),
            r < 8192,
    {
        (side.index() * 64 + mv.from().index()) * 64 + mv.to().index()
    }

    /// Apply a bonus or malus to the entry of a move.
    pub fn adjust(&mut self, side: Color, mv: Move, bonus: i32)
        requires
            old(self).wf(),
        ensures
            final(self).wf(),
            final(self)@ == history_with(old(self)@, side, mv, bonus as int),
    {
        let ghost start = self@;
        let i: usize = History::index(side, mv);
        proof {
            assert(tame(start[i as int]));
        }
        let v: i32 = history_update(self.table[i], bonus);
        self.table[i] = v;
        proof {
            assert forall|k: int| 0 <= k < self@.len() implies tame(#[trigger] self@[k]) by {
                if k != i {
                    assert(tame(start[k]));
                }
            }
        }
    }

    /// Reward a quiet move that caused a cutoff.
    pub fn add(&mut self, side: Color, mv: Move, depth: u32)
        requires
            old(self).wf(),
        ensures
            final(self).wf(),
            final(self)@ == history_with(old(self)@, side, mv, depth_bonus(depth as int)),
    {
        self.adjust(side, mv, bonus_for(depth));
    }

    /// Penalise a quiet move that was searched but did NOT cause a cutoff.
    pub fn add_malus(&mut self, side: Color, mv: Move, depth: u32)
        requires
            old(self).wf(),
        ensures
            final(self).wf(),
            final(self)@ == history_with(old(self)@, side, mv, -depth_bonus(depth as int)),
    {
        self.adjust(side, mv, -bonus_for(depth));
    }

    /// Halve all history entries.
    pub fn decay(&mut self)
        requires
            old(self).wf(),
        ensures
            final(self).wf(),
            final(self)@ == halved(old(self)@),
    {
        halve_all(&mut self.table);
    }

    /// The entry of a move.
    pub fn get(&self, side: Color, mv: Move) -> (r: i32)
        requires
            self.wf(),
        ensures
            r == self@[history_index(side, mv)],
            tame(r),
    {
        let i: usize = History::index(side, mv);
        proof {
            assert(tame(self@[i as int]));
        }
        self.table[i]
    }
}

/// The continuation-history entry of a move after a predecessor.
pub open spec fn cont_index(prev_pt: int, prev_to: int, curr_pt: int, curr_to: int) -> int {
    ((prev_pt * 64 + prev_to) * 6 + curr_pt) * 64 + curr_to
}

/// The continuation history after a bonus or malus.
pub open spec fn cont_with(
    h: Seq<i32>,
    prev_pt: int,
    prev_to: int,
    curr_pt: int,
    curr_to: int,
    bonus: int,
) -> Seq<i32> {
    let i = cont_index(prev_pt, prev_to, curr_pt, curr_to);
    h.update(i, gravity(h[i] as int, bonus) as i32)
}

/// Continuation history: how well a piece moving to a square works after a
/// predecessor piece has moved to its square.
pub struct ContinuationHistory {
    pub table: Vec<i32>,
}

impl View for ContinuationHistory {
    type V = Seq<i32>;

    open spec fn view(&self) -> Seq<i32> {
        self.table@
    }
}

impl ContinuationHistory {
    /// There is an entry for each pair of pieces and squares, within the limits.
    pub open spec fn wf(&self) -> bool {
        self@.len() == 147_456 && all_tame(self@)
    }

    /// All entries zero.
    pub fn new() -> (r: ContinuationHistory)
        ensures
            r.wf(),
            r@ == Seq::new(147_456, |i: int| 0i32),
    {
        let r = ContinuationHistory { table: vec![0i32; 147_456] };
        proof {
            assert(r@ =~= Seq::new(147_456, |i: int| 0i32));
        }
        r
    }

    fn idx(prev_pt: usize, prev_to: usize, curr_pt: usize, curr_to: usize) -> (r: usize)
        requires
            prev_pt < 6,
            prev_to < 64,
            curr_pt < 6,
            curr_to < 64,
        ensures
            r == cont_index(prev_pt as int, prev_to as int, curr_pt as int, curr_to as int),
            r < 147_456,
    {
        ((prev_pt * 64 + prev_to) * 6 + curr_pt) * 64 + curr_to
    }

    /// The entry of a move after a predecessor.
    pub fn get(&self, prev_pt: usize, prev_to: usize, curr_pt: usize, curr_to: usize) -> (r: i32)
        requires
            self.wf(),
            prev_pt < 6,
            prev_to < 64,
            curr_pt < 6,
            curr_to < 64,
        ensures
            r == self@[cont_index(
                prev_pt as int,
                prev_to as int,
                curr_pt as int,
                curr_to as int,
            )],
            tame(r),
    {
        let i: usize = ContinuationHistory::idx(prev_pt, prev_to, curr_pt, curr_to);
        proof {
            assert(tame(self@[i as int]));
        }
        self.table[i]
    }

    /// Gravity-based update.  `bonus` is positive for a reward (cutoff) and
    /// negative for a malus (searched but failed).
    pub fn update(
        &mut self,
        prev_pt: usize,
        prev_to: usize,
        curr_pt: usize,
        curr_to: usize,
        bonus: i32,
    )
        requires
            old(self).wf(),
            prev_pt < 6,
            prev_to < 64,
            curr_pt < 6,
            curr_to < 64,
        ensures
            final(self).wf(),
            final(self)@ == cont_with(
                old(self)@,
                prev_pt as int,
                prev_to as int,
                curr_pt as int,
                curr_to as int,
                bonus as int,
            ),
    {
        let ghost start = self@;
        let i: usize = ContinuationHistory::idx(prev_pt, prev_to, curr_pt, curr_to);
        proof {
            assert(tame(start[i as int]));
        }
        let v: i32 = history_update(self.table[i], bonus);
        self.table[i] = v;
        proof {
            assert forall|k: int| 0 <= k < self@.len() implies tame(#[trigger] self@[k]) by {
                if k != i {
                    assert(tame(start[k]));
                }
            }
        }
    }

    /// Halve all entries.
    pub fn decay(&mut self)
        requires
            old(self).wf(),
        ensures
            final(self).wf(),
            final(self)@ == halved(old(self)@),
    {
        halve_all(&mut self.table);
    }
}

/// The counter-move entry of a predecessor move.
pub open spec fn counter_index(mv: Move) -> int {
    mv.src().0 * 64 + mv.dst().0
}

/// The stored counter to a predecessor move.
pub open spec fn counter_of(table: Seq<Option<Move>>, prev: Option<Move>) -> Option<Move> {
    match prev {
        Some(m) => table[counter_index(m)],
        None => None,
    }
}

/// For each predecessor move, the quiet move that most recently refuted it.
pub struct CounterMoves {
    pub table: Vec<Option<Move>>,
}

impl View for CounterMoves {
    type V = Seq<Option<Move>>;

    open spec fn view(&self) -> Seq<Option<Move>> {
        self.table@
    }
}

impl CounterMoves {
    /// There is an entry for each pair of squares.
    pub open spec fn wf(&self) -> bool {
        self@.len() == 4096
    }

    /// No counter-moves.
    pub fn new() -> (r: CounterMoves)
        ensures
            r.wf(),
            r@ == Seq::new(4096, |i: int| None::<Move>),
    {
        let mut table: Vec<Option<Move>> = Vec::new();
        let mut i: usize = 0;
        while i < 4096
            invariant
                i <= 4096,
                table@ == Seq::new(i as nat, |i: int| None::<Move>),
            decreases 4096 - i,
        {
            table.push(None);
            i += 1;
            proof {
                assert(table@ =~= Seq::new(i as nat, |i: int| None::<Move>));
            }
        }
        CounterMoves { table }
    }

    /// Returns the stored counter-move for `prev_mv`, or `None`.
    pub fn get(&self, prev_mv: Option<Move>) -> (r: Option<Move>)
        requires
            self.wf(),
        ensures
            r == counter_of(self@, prev_mv),
    {
        match prev_mv {
            Some(m) => self.table[m.from().index() * 64 + m.to().index()],
            None => None,
        }
    }

    /// Record `response` as the counter to `prev_mv`.
    pub fn set(&mut self, prev_mv: Move, response: Move)
        requires
            old(self).wf(),
        ensures
            final(self).wf(),
            final(self)@ == old(self)@.update(counter_index(prev_mv), Some(response)),
    {
        self.table[prev_mv.from().index() * 64 + prev_mv.to().index()] = Some(response);
    }
}

/// A stored counter-move is found again, and storing it changes no other.
pub proof fn law_counter_moves(table: Seq<Option<Move>>, prev: Move, response: Move, other: Move)
    requires
        table.len() == 4096,
    ensures
        counter_of(table.update(counter_index(prev), Some(response)), Some(prev)) == Some(response),
        counter_index(other) != counter_index(prev) ==> counter_of(
            table.update(counter_index(prev), Some(response)),
            Some(other),
        ) == counter_of(table, Some(other)),
{
}

/// Among quiet moves the first killer of the ply comes before the second, both before the
/// counter to the last move, and that before all others, which their history orders. Of
/// two captures that do not lose material the one that wins more comes first.
pub proof fn law_quiet_order(
    p: Pos,
    a: Move,
    b: Move,
    ply: int,
    killers: Seq<(Option<Move>, Option<Move>)>,
    history: Seq<i32>,
    counter: Option<Move>,
)
    requires
        history.len() == 8192,
        forall|i: int| 0 <= i < history.len() ==> tame(#[trigger] history[i]),
        killers.len() == 128,
        0 <= ply < 128,
        a != b,
    ensures
        ({
            let v = |m: Move| move_value(p, m, ply, None, killers, history, counter);
            let calm = |m: Move| !m.captures() && m.promo() is None;
            let (k1, k2) = killers[ply];
            &&& calm(a) && calm(b) && k1 == Some(a) ==> v(a) > v(b)
            &&& calm(a) && calm(b) && k2 == Some(a) && k1 != Some(b) ==> v(a) > v(b)
            &&& calm(a) && calm(b) && counter == Some(a) && k1 != Some(b) && k2 != Some(b) ==> v(a)
                > v(b)
            &&& a.captures() && b.captures() && see_score(p, a) > see_score(p, b) ==> v(a) > v(b)
            &&& calm(a) && calm(b) && k1 != Some(a) && k1 != Some(b) && k2 != Some(a) && k2 != Some(b)
                && counter != Some(a) && counter != Some(b) ==> (v(a) > v(b) <==> history[4096
                * p.side.idx() + 64 * a.src().0 + a.dst().0] > history[4096 * p.side.idx() + 64
                * b.src().0 + b.dst().0])
        }),
{
    law_see_bounds(p, a);
    law_see_bounds(p, b);
}

/// An entry without history takes a bonus as it is, and the bonus of a cutoff is the
/// square of the depth up to that of thirteen.
pub proof fn law_bonuses(bonus: int, depth: int)
    requires
        -HISTORY_MAX <= bonus <= HISTORY_MAX,
        0 <= depth,
    ensures
        gravity(0, bonus) == bonus,
        depth <= 13 ==> depth_bonus(depth) == depth * depth,
        depth >= 13 ==> depth_bonus(depth) == 169,
{
    let m = magnitude(bonus);
    assert(0 * m == 0) by (nonlinear_arith);
    if depth == 13 {
        assert(depth * depth == 169);
    }
}

/// Each side, source and target has a history entry of its own, and each pair of pieces with
/// their targets a continuation entry.
pub proof fn law_entries_apart(
    a: Color,
    b: Color,
    x: Move,
    y: Move,
    i: (int, int, int, int),
    j: (int, int, int, int),
)
    requires
        0 <= i.0 < 6 && 0 <= i.1 < 64 && 0 <= i.2 < 6 && 0 <= i.3 < 64,
        0 <= j.0 < 6 && 0 <= j.1 < 64 && 0 <= j.2 < 6 && 0 <= j.3 < 64,
    ensures
        history_index(a, x) == history_index(b, y) ==> a == b && x.src() == y.src() && x.dst()
            == y.dst(),
        0 <= history_index(a, x) < 8192,
        cont_index(i.0, i.1, i.2, i.3) == cont_index(j.0, j.1, j.2, j.3) ==> i == j,
        0 <= cont_index(i.0, i.1, i.2, i.3) < 147_456,
        counter_index(x) == counter_index(y) ==> x.src() == y.src() && x.dst() == y.dst(),
{
}

} // verus!
