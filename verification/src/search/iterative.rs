//! Iterative deepening.
//!
//! Depth 1 is searched, then 2, then 3 and so on, and the result of the last
//! completed depth counts. From depth 4 on the window is narrowed around the
//! previous score and widened again where the score falls outside it.

use crate::board::{position_key, Board, Pos};
use crate::eval::evaluator::{Evaluator, HandcraftedEvaluator, NnueEvaluator};
use crate::movegen::generate::in_check;
use crate::movegen::legal::legal;
use crate::movegen::make_move::apply;
use crate::movegen::find::{first_where, law_first_where, lemma_first_is, lemma_first_none};
use crate::movegen::moves::{Move, MoveList};
use crate::movegen::rules::{law_valid_moves_playable, valid};
use crate::nnue::network::Network;
use crate::search::clock::{measured, ms_after, ms_since, read_clock, started, worked_out};
use crate::search::limits::{SearchLimits, MAX_DEPTH};
use crate::search::model;
use crate::search::model::{no_oracle, Oracle, Script, SearchState};
use crate::search::negamax::{
    capped, follows, fresh_state, interrupted, law_node_cap, lemma_follows_self, lemma_play,
    node_cap, read_as, same_board, searchable, unhindered, within_budget, SearchResult, Searcher,
};
use crate::search::ordering::halved;
use crate::search::params::{asp_delta, SearchParams};
use crate::search::root::listed;
use crate::search::time::{budget_of, planned, sane, TimeManager};
use crate::search::tt::{fill, TableState, TranspositionTable};
use crate::tablebase::TbState;
use crate::search::visits::law_root_visits;
use crate::search::{is_mate_score, mate_score, INFINITY, MATE};
use std::sync::atomic::AtomicBool;
use std::sync::Arc;
use std::time::Instant;
use vstd::prelude::*;

verus! {

/// The depth from which on the window is narrowed.
pub const ASPIRATION_MIN_DEPTH: u32 = 4;

/// One completed depth of an iterative-deepening search.
pub struct SearchInfo {
    pub depth: u32,
    /// Maximum ply reached anywhere in the tree (includes quiescence).
    pub seldepth: u32,
    pub score: i32,
    pub nodes: u64,
    pub time_ms: u64,
    /// How full the transposition table is, in permille (0..=1000).
    pub hashfull: u32,
    /// Principal variation: the line the engine expects, walked out of the table.
    pub pv: Vec<Move>,
    /// Which line this is (1 = best).
    pub multipv: usize,
}

/// The line of stored best moves from a position on, at most `n` moves long,
/// as far as they are legal.
#[verifier::opaque]
pub open spec fn pv_line(p: Pos, t: TableState, n: int) -> Seq<Move>
    decreases n,
{
    if n <= 0 {
        Seq::empty()
    } else {
        match t.probe(position_key(p)) {
            None => Seq::empty(),
            Some(d) => match d.best() {
                None => Seq::empty(),
                Some(mv) => if legal(p).contains(mv) {
                    seq![mv] + pv_line(apply(p, mv), t, n - 1)
                } else {
                    Seq::empty()
                },
            },
        }
    }
}

/// Each move of a line is legal in the position that the moves before it lead
/// to.
pub open spec fn line_legal(p: Pos, line: Seq<Move>) -> bool
    decreases line.len(),
{
    line.len() == 0 || (legal(p).contains(line[0]) && line_legal(
        apply(p, line[0]),
        line.drop_first(),
    ))
}

/// The principal variation holds only legal moves, and no more than asked for.
pub proof fn law_pv_legal(p: Pos, t: TableState, n: int)
    ensures
        line_legal(p, pv_line(p, t, n)),
        n >= 0 ==> pv_line(p, t, n).len() <= n,
    decreases n,
{
    reveal(pv_line);
    let line = pv_line(p, t, n);
    if line.len() > 0 {
        let mv = line[0];
        law_pv_legal(apply(p, mv), t, n - 1);
        assert(line.drop_first() =~= pv_line(apply(p, mv), t, n - 1));
    }
}

/// The principal variation starts with the legal move that the table has for the
/// position.
pub proof fn law_pv_starts_with_known(p: Pos, t: TableState, n: int, mv: Move)
    requires
        n > 0,
        model::knows(t, p, mv),
        legal(p).contains(mv),
    ensures
        pv_line(p, t, n).len() > 0,
        pv_line(p, t, n)[0] == mv,
{
    reveal(pv_line);
}

/// Walk the principal variation out of the transposition table: repeatedly
/// follow the stored best move from the current position, as long as it is
/// legal.
pub fn extract_pv(board: &mut Board, tt: &TranspositionTable, max_len: u32) -> (r: Vec<Move>)
    requires
        old(board).wf(),
        old(board).hashed(),
        valid(old(board)@),
        tt.wf(),
    ensures
        same_board(*old(board), *final(board)),
        r@ == pv_line(old(board)@, tt@, max_len as int),
    decreases max_len,
{
    let ghost p = board@;
    let ghost hash = board.hash;
    proof {
        reveal(pv_line);
    }
    if max_len == 0 {
        return Vec::new();
    }
    let mv = match tt.probe(board.hash) {
        Some(d) => match d.best_move() {
            Some(m) => m,
            None => {
                return Vec::new();
            },
        },
        None => {
            return Vec::new();
        },
    };
    proof {
        law_valid_moves_playable(p);
    }
    if !board.legal_moves().contains(mv) {
        return Vec::new();
    }
    proof {
        lemma_play(p, hash, mv);
    }
    let undo = board.make_move(mv);
    let mut rest = extract_pv(board, tt, max_len - 1);
    board.unmake_move(mv, undo);
    rest.insert(0, mv);
    proof {
        assert(rest@ =~= pv_line(p, tt@, max_len as int));
    }
    rest
}

/// The state after a number of completed depths.
pub struct Deepened {
    pub best_move: Option<Move>,
    pub score: int,
    pub depth: int,
    pub s: SearchState,
}

/// The half-width after a widening.
pub open spec fn widened(delta: int) -> int {
    if delta < 1_000_000 {
        delta + delta / 2
    } else {
        delta
    }
}

/// The larger of two numbers.
pub open spec fn at_least(a: int, b: int) -> int {
    if a >= b {
        a
    } else {
        b
    }
}

/// The smaller of two numbers.
pub open spec fn at_most(a: int, b: int) -> int {
    if a <= b {
        a
    } else {
        b
    }
}

/// Search the root with a window that is widened, on the side where the score
/// falls outside, until the score is inside or that side is fully open.
pub open spec fn aspirate<E: Evaluator>(
    e: E,
    prm: SearchParams,
    p: Pos,
    s: SearchState,
    depth: int,
    pv_move: Option<Move>,
    excluded: Seq<Move>,
    lo: int,
    hi: int,
    delta: int,
) -> (Option<Move>, int, SearchState)
    decreases at_least(lo + 30_000, 0) + at_least(30_000 - hi, 0),
{
    let (m, v, s2) = model::root(e, prm, p, s, depth, pv_move, excluded, lo, hi);
    if v <= lo {
        if lo <= -INFINITY || delta <= 0 {
            (m, v, s2)
        } else {
            aspirate(
                e,
                prm,
                p,
                s2,
                depth,
                pv_move,
                excluded,
                at_least(lo - delta, -INFINITY as int),
                hi,
                widened(delta),
            )
        }
    } else if v >= hi {
        if hi >= INFINITY || delta <= 0 {
            (m, v, s2)
        } else {
            aspirate(
                e,
                prm,
                p,
                s2,
                depth,
                pv_move,
                excluded,
                lo,
                at_most(hi + delta, INFINITY as int),
                widened(delta),
            )
        }
    } else {
        (m, v, s2)
    }
}

/// The searches of the root with wider and wider windows follow one another.
proof fn lemma_aspirate_visits<E: Evaluator>(
    e: E,
    prm: SearchParams,
    p: Pos,
    s: SearchState,
    depth: int,
    pv_move: Option<Move>,
    excluded: Seq<Move>,
    lo: int,
    hi: int,
    delta: int,
)
    ensures
        ({
            let r = aspirate(e, prm, p, s, depth, pv_move, excluded, lo, hi, delta).2;
            &&& r.visits >= s.visits
            &&& r.visits >= model::root(
                e,
                prm,
                p,
                s,
                depth,
                pv_move,
                excluded,
                lo,
                hi,
            ).2.visits
        }),
    decreases at_least(lo + 30_000, 0) + at_least(30_000 - hi, 0),
{
    law_root_visits(e, prm, p, s, depth, pv_move, excluded, lo, hi);
    let (m, v, s2) = model::root(e, prm, p, s, depth, pv_move, excluded, lo, hi);
    if v <= lo {
        if !(lo <= -INFINITY || delta <= 0) {
            let lower = at_least(lo - delta, -INFINITY as int);
            let d = widened(delta);
            lemma_aspirate_visits(e, prm, p, s2, depth, pv_move, excluded, lower, hi, d);
        }
    } else if v >= hi {
        if !(hi >= INFINITY || delta <= 0) {
            let upper = at_most(hi + delta, INFINITY as int);
            let d = widened(delta);
            lemma_aspirate_visits(e, prm, p, s2, depth, pv_move, excluded, lo, upper, d);
        }
    }
}

/// The state in which a depth is begun: the deepest ply is forgotten, and from
/// depth 2 on the histories are halved.
pub open spec fn aged(s: SearchState, depth: int) -> SearchState {
    let s1 = SearchState { max_ply: 0, ..s };
    if depth > 1 {
        SearchState {
            history: halved(s1.history),
            cont_1: halved(s1.cont_1),
            cont_2: halved(s1.cont_2),
            ..s1
        }
    } else {
        s1
    }
}

/// A window is narrowed around the previous score.
pub open spec fn narrows(depth: int, d: Deepened) -> bool {
    depth >= ASPIRATION_MIN_DEPTH && d.depth > 0 && -45_000_000 <= d.score <= 45_000_000
}

/// The state after one more completed depth.
#[verifier::opaque]
pub open spec fn deepen_once<E: Evaluator>(
    e: E,
    prm: SearchParams,
    p: Pos,
    excluded: Seq<Move>,
    depth: int,
    d: Deepened,
) -> Deepened {
    let s = aged(d.s, depth);
    let (m, v, s2) = if narrows(depth, d) {
        aspirate(
            e,
            prm,
            p,
            s,
            depth,
            d.best_move,
            excluded,
            at_least(d.score - prm.asp_delta, -INFINITY as int),
            at_most(d.score + prm.asp_delta, INFINITY as int),
            prm.asp_delta as int,
        )
    } else {
        model::root(
            e,
            prm,
            p,
            s,
            depth,
            d.best_move,
            excluded,
            -INFINITY as int,
            INFINITY as int,
        )
    };
    Deepened { best_move: m, score: v, depth, s: s2 }
}

/// What a search starts from: the evaluator, the parameters, the position, the
/// hashes of the positions before it, the transposition table, the root moves that
/// are left out, and the tablebases.
pub struct Setup<E: Evaluator> {
    pub e: E,
    pub prm: SearchParams,
    pub p: Pos,
    pub path: Seq<u64>,
    pub t: TableState,
    pub excluded: Seq<Move>,
    pub oracle: Oracle,
}

/// Tablebases that give certain answers, before the first of them.
pub open spec fn oracle_of(tables: TbState, answers: Script) -> Oracle {
    Oracle {
        on: tables.tables is Some,
        limit: tables.piece_limit as int,
        answers,
        asked: 0,
    }
}

/// A search with the hand-crafted evaluator and the default parameters, without
/// tablebases, and with no root move left out.
pub open spec fn plain_setup(t: TableState, p: Pos, path: Seq<u64>) -> Setup<HandcraftedEvaluator> {
    Setup {
        e: HandcraftedEvaluator,
        prm: SearchParams::defaults(),
        p,
        path,
        t,
        excluded: Seq::empty(),
        oracle: no_oracle(),
    }
}

/// The state after `k` completed depths.
pub open spec fn deepened<E: Evaluator>(su: Setup<E>, k: int) -> Deepened
    decreases k,
{
    if k <= 0 {
        Deepened {
            best_move: None,
            score: 0,
            depth: 0,
            s: SearchState { oracle: su.oracle, ..fresh_state(su.path, su.t) },
        }
    } else {
        deepen_once(su.e, su.prm, su.p, su.excluded, k, deepened(su, k - 1))
    }
}

/// After `k` completed depths the depth is `k`.
pub proof fn lemma_deepened_depth<E: Evaluator>(su: Setup<E>, k: int)
    ensures
        deepened(su, k).depth == at_least(k, 0),
{
    reveal(deepen_once);
}

/// What is reported of a completed depth, but for the time.
pub open spec fn reports(info: SearchInfo, p: Pos, d: Deepened) -> bool {
    &&& info.depth == d.depth
    &&& info.score == d.score
    &&& info.nodes == d.s.nodes
    &&& info.seldepth == at_least(d.s.max_ply, d.depth)
    &&& info.hashfull == fill(d.s.tt)
    &&& info.hashfull <= 1000
    &&& info.pv@ == pv_line(p, d.s.tt, d.depth)
    &&& info.multipv == 1
}

/// The depths are worked through in order, without one before the last that
/// found a mate.
pub open spec fn depths_done<E: Evaluator>(su: Setup<E>, k: int) -> bool {
    forall|j: int| 1 <= j < k ==> !mate_score(#[trigger] deepened(su, j).score)
}

/// The search ends after `k` completed depths of its own accord: at the depth
/// limit or with a mate.
pub open spec fn comes_to_end<E: Evaluator>(su: Setup<E>, cap: int, k: int) -> bool {
    k == cap || (k >= 1 && mate_score(deepened(su, k).score))
}

/// The first depth from `k` on at which a search that nothing stops comes to its
/// end.
pub open spec fn last_depth<E: Evaluator>(su: Setup<E>, cap: int, k: int) -> int
    decreases cap - k,
{
    if k >= cap || (k >= 1 && mate_score(deepened(su, k).score)) {
        k
    } else {
        last_depth(su, cap, k + 1)
    }
}

/// The state at the end of a search that nothing stops.
pub open spec fn completed<E: Evaluator>(su: Setup<E>, cap: int) -> Deepened {
    deepened(su, last_depth(su, cap, 0))
}

/// A search that comes to its end after `k` depths, without a mate before, ends
/// at the first depth where it can.
pub proof fn lemma_last_depth<E: Evaluator>(su: Setup<E>, cap: int, k: int, j: int)
    requires
        0 <= j <= k <= cap,
        depths_done(su, k),
        comes_to_end(su, cap, k),
    ensures
        last_depth(su, cap, j) == k,
    decreases k - j,
{
    if j < k {
        if j >= 1 {
            assert(!mate_score(deepened(su, j).score));
        }
        lemma_last_depth(su, cap, k, j + 1);
    }
}

impl<E: Evaluator> Searcher<E> {
    /// What a search has come to after its last completed depth.
    pub open spec fn resumed(&self, best: SearchResult, t: TableState, sc: Script) -> Deepened {
        Deepened {
            best_move: best.best_move,
            score: best.score as int,
            depth: best.depth as int,
            s: self.state(t, sc),
        }
    }

    /// Search one depth, with a narrowed window where that applies.
    fn search_depth(
        &mut self,
        board: &mut Board,
        depth: u32,
        best: &SearchResult,
        tt: &mut TranspositionTable,
        excluded: &[Move],
    ) -> (r: (Option<Move>, i32))
        requires
            old(self).wf(),
            old(tt).wf(),
            searchable(*old(board), 0),
            1 <= depth <= MAX_DEPTH,
        ensures
            old(self).keeps(*final(self)),
            same_board(*old(board), *final(board)),
            final(tt).wf(),
            capped(r.1 as int),
            r.0 matches Some(m) ==> legal(old(board)@).contains(m) && !excluded@.contains(m),
            legal(old(board)@).len() == 0 ==> r.0 is None,
            !final(self).stopped ==> (r.0 matches Some(m) ==> model::knows(
                final(tt)@,
                old(board)@,
                m,
            )),
            forall|sc: Script| #[trigger]
                follows(final(self).log@, sc) && !old(self).stopped ==> {
                    let want = deepen_once(
                        old(self).evaluator,
                        old(self).params,
                        old(board)@,
                        excluded@,
                        depth as int,
                        old(self).resumed(*best, old(tt)@, sc),
                    );
                    if final(self).stopped {
                        final(self).visits@ <= want.s.visits
                    } else {
                        (Deepened {
                            best_move: r.0,
                            score: r.1 as int,
                            depth: depth as int,
                            s: final(self).state(final(tt)@, sc),
                        }) == want
                    }
                },
    {
        let ghost e = self.evaluator;
        let ghost prm = self.params;
        let ghost p = board@;
        let ghost hash = board.hash;
        proof {
            reveal(deepen_once);
        }
        self.max_ply = 0;
        if depth > 1 {
            self.history.decay();
            self.cont_hist_1.decay();
            self.cont_hist_2.decay();
        }
        let ghost first = *self;
        let ghost t1 = tt@;
        proof {
            assert forall|sc: Script| #[trigger] self.state(tt@, sc) == aged(
                old(self).state(old(tt)@, sc),
                depth as int,
            ) by {}
        }
        let narrow = depth >= ASPIRATION_MIN_DEPTH && best.depth > 0 && best.score >= -45_000_000
            && best.score <= 45_000_000;
        if !narrow {
            return self.search_root(
                board,
                depth,
                best.best_move,
                tt,
                excluded,
                -INFINITY,
                INFINITY,
            );
        }
        let mut delta: i32 = asp_delta(&self.params);
        let mut lo: i32 = if best.score - delta >= -INFINITY {
            best.score - delta
        } else {
            -INFINITY
        };
        let mut hi: i32 = if best.score + delta <= INFINITY {
            best.score + delta
        } else {
            INFINITY
        };
        let ghost lo0 = lo as int;
        let ghost hi0 = hi as int;
        loop
            invariant
                old(self).keeps(*self),
                tt.wf(),
                e == old(self).evaluator,
                prm == old(self).params,
                p == old(board)@,
                hash == old(board).hash,
                searchable(*board, 0),
                board@ == p,
                board.hash == hash,
                1 <= depth <= MAX_DEPTH,
                1 <= delta <= 1_500_000,
                -INFINITY <= lo <= 45_000_000,
                -45_000_000 <= hi <= INFINITY,
                !self.stopped || old(self).stopped,
                forall|sc: Script| #[trigger]
                    follows(self.log@, sc) && !old(self).stopped ==> aspirate(
                        e,
                        prm,
                        p,
                        first.state(t1, sc),
                        depth as int,
                        best.best_move,
                        excluded@,
                        lo0,
                        hi0,
                        prm.asp_delta as int,
                    ) == aspirate(
                        e,
                        prm,
                        p,
                        self.state(tt@, sc),
                        depth as int,
                        best.best_move,
                        excluded@,
                        lo as int,
                        hi as int,
                        delta as int,
                    ),
                forall|sc: Script| #[trigger]
                    first.state(t1, sc) == aged(old(self).state(old(tt)@, sc), depth as int),
                depth >= ASPIRATION_MIN_DEPTH,
                best.depth > 0,
                -45_000_000 <= best.score <= 45_000_000,
                lo0 == at_least(best.score - prm.asp_delta, -INFINITY as int),
                hi0 == at_most(best.score + prm.asp_delta, INFINITY as int),
            decreases at_least(lo + 30_000, 0) + at_least(30_000 - hi, 0),
        {
            let ghost head = *self;
            let ghost t0 = tt@;
            let (m, v) = self.search_root(
                board,
                depth,
                best.best_move,
                tt,
                excluded,
                lo,
                hi,
            );
            proof {
                reveal(deepen_once);
            }
            if self.stopped {
                proof {
                    assert forall|sc: Script| #[trigger]
                        follows(self.log@, sc) && !old(self).stopped implies self.visits@
                        <= aspirate(
                        e,
                        prm,
                        p,
                        first.state(t1, sc),
                        depth as int,
                        best.best_move,
                        excluded@,
                        lo0,
                        hi0,
                        prm.asp_delta as int,
                    ).2.visits by {
                        lemma_aspirate_visits(
                            e,
                            prm,
                            p,
                            head.state(t0, sc),
                            depth as int,
                            best.best_move,
                            excluded@,
                            lo as int,
                            hi as int,
                            delta as int,
                        );
                    }
                }
                return (m, v);
            }
            let wider: i32 = if delta < 1_000_000 {
                delta + delta / 2
            } else {
                delta
            };
            if v <= lo {
                if lo <= -INFINITY {
                    return (m, v);
                }
                lo =
                if lo - delta >= -INFINITY {
                    lo - delta
                } else {
                    -INFINITY
                };
                delta = wider;
            } else if v >= hi {
                if hi >= INFINITY {
                    return (m, v);
                }
                hi =
                if hi + delta <= INFINITY {
                    hi + delta
                } else {
                    INFINITY
                };
                delta = wider;
            } else {
                return (m, v);
            }
        }
    }
}

/// The move is not left out.
pub open spec fn allowed(excluded: Seq<Move>) -> spec_fn(Move) -> bool {
    |m: Move| !excluded.contains(m)
}

/// The first of the moves that is not left out.
fn first_allowed(ms: &MoveList, excluded: &[Move]) -> (r: Option<Move>)
    ensures
        r == first_where(ms@, allowed(excluded@)),
{
    let ghost q = allowed(excluded@);
    let mut i: usize = 0;
    while i < ms.len()
        invariant
            i <= ms@.len(),
            q == allowed(excluded@),
            forall|j: int| 0 <= j < i ==> !q(#[trigger] ms@[j]),
        decreases ms@.len() - i,
    {
        let mv = ms.get(i);
        if !listed(excluded, mv) {
            proof {
                lemma_first_is(ms@, q, i as int);
            }
            return Some(mv);
        }
        i += 1;
    }
    proof {
        lemma_first_none(ms@, q);
    }
    None
}

/// A search of depth 1 with nothing remembered but the transposition table, after
/// `asked` tablebase answers.
pub open spec fn fallback_root<E: Evaluator>(su: Setup<E>, t: TableState, asked: int) -> (
    Option<Move>,
    int,
    SearchState,
) {
    model::root(
        su.e,
        su.prm,
        su.p,
        SearchState {
            oracle: Oracle { asked, ..su.oracle },
            ..fresh_state(Seq::empty(), t)
        },
        1,
        None,
        su.excluded,
        -INFINITY as int,
        INFINITY as int,
    )
}

/// The sum of two counts; it starts again from 0 when it overflows.
pub open spec fn summed(a: u64, b: u64) -> int {
    if a + b > u64::MAX {
        a + b - 0x1_0000_0000_0000_0000
    } else {
        a + b
    }
}

/// A result comes from a search of depth 1, after `before` nodes; where no move
/// scores above the worst, the first one is taken.
pub open spec fn falls_back<E: Evaluator>(
    su: Setup<E>,
    t: TableState,
    asked: int,
    before: u64,
    r: SearchResult,
) -> bool {
    let (m, v, s) = fallback_root(su, t, asked);
    &&& r.best_move == (match m {
        Some(_) => m,
        None => first_where(legal(su.p), allowed(su.excluded)),
    })
    &&& r.score == v
    &&& r.depth == 1
    &&& r.nodes == summed(before, s.nodes)
}

/// The score of a position without legal moves.
pub open spec fn terminal_score(p: Pos) -> int {
    if in_check(p, p.side) {
        -MATE as int
    } else {
        0
    }
}

/// The move of a result is legal and not left out; there is one unless all legal
/// moves are left out. Without legal moves the score is that of mate or
/// stalemate. The score is within range.
pub open spec fn sound(p: Pos, excluded: Seq<Move>, r: SearchResult) -> bool {
    &&& r.best_move matches Some(m) ==> legal(p).contains(m) && !excluded.contains(m)
    &&& legal(p).len() == 0 ==> r.best_move is None && r.score == terminal_score(p)
    &&& r.best_move is None ==> forall|m: Move| #[trigger] legal(p).contains(m) ==> excluded.contains(
        m,
    )
    &&& capped(r.score as int)
}

/// A sound result has a legal move wherever there is one to play.
pub proof fn law_sound_has_move(p: Pos, r: SearchResult)
    requires
        sound(p, Seq::empty(), r),
        legal(p).len() > 0,
    ensures
        r.best_move matches Some(m) && legal(p).contains(m),
{
    assert(legal(p).contains(legal(p)[0]));
}

/// Within a node limit, every depth that is reported was completed before 4096
/// nodes more.
pub open spec fn within_nodes(l: SearchLimits, done: Seq<SearchInfo>) -> bool {
    l.nodes matches Some(n) ==> forall|i: int|
        0 <= i < done.len() ==> (#[trigger] done[i]).nodes < n + 4096
}

/// What an iterative-deepening search returns, where `done` are the reports of
/// the depths it completed: the result of the last of them, if it found a move;
/// else, in a position without legal moves the score of mate or stalemate, and
/// in any other the result of a search of depth 1.
pub open spec fn outcome_of<E: Evaluator>(
    su: Setup<E>,
    cap: int,
    done: Seq<SearchInfo>,
    r: SearchResult,
) -> bool {
    let k = done.len() as int;
    let d = deepened(su, k);
    &&& k <= cap
    &&& depths_done(su, k)
    &&& forall|i: int| 0 <= i < k ==> reports(#[trigger] done[i], su.p, deepened(su, i + 1))
    &&& match d.best_move {
        Some(_) => r.best_move == d.best_move && r.score == d.score && r.depth == k && r.nodes
            == d.s.nodes,
        None => if legal(su.p).len() == 0 {
            r.depth == k && r.nodes == d.s.nodes
        } else {
            exists|t: TableState, asked: int| #[trigger] falls_back(su, t, asked, d.s.nodes, r)
        },
    }
}

proof fn lemma_terminal<E: Evaluator>(su: Setup<E>, k: int)
    requires
        legal(su.p).len() == 0,
        k >= 1,
        depths_done(su, k),
    ensures
        deepened(su, k).best_move is None,
        deepened(su, k).score == terminal_score(su.p),
    decreases k,
{
    reveal(deepen_once);
    if k > 1 {
        lemma_terminal(su, k - 1);
        assert(!mate_score(deepened(su, k - 1).score));
    }
    lemma_deepened_depth(su, k - 1);
}

/// The reports of a search number the depths from 1 on, no more of them than the
/// depth limit allows. In each the selective depth is no less than the depth, the
/// table is at most full, and the line is one of legal moves, no longer than the
/// depth. The last one carries the depth and the score of the result, if that
/// depth found a move or there is none.
pub proof fn law_reports<E: Evaluator>(
    su: Setup<E>,
    cap: int,
    done: Seq<SearchInfo>,
    r: SearchResult,
)
    requires
        outcome_of(su, cap, done, r),
        sound(su.p, su.excluded, r),
    ensures
        done.len() <= cap,
        forall|i: int|
            0 <= i < done.len() ==> {
                let info = #[trigger] done[i];
                &&& info.depth == i + 1
                &&& info.seldepth >= info.depth
                &&& info.multipv == 1
                &&& info.hashfull <= 1000
                &&& info.pv@.len() <= info.depth
                &&& line_legal(su.p, info.pv@)
            },
        done.len() > 0 && (deepened(su, done.len() as int).best_move is Some || legal(su.p).len()
            == 0) ==> done.last().depth == r.depth && done.last().score == r.score,
{
    assert forall|i: int| 0 <= i < done.len() implies {
        let info = #[trigger] done[i];
        &&& info.depth == i + 1
        &&& info.seldepth >= info.depth
        &&& info.multipv == 1
        &&& info.hashfull <= 1000
        &&& info.pv@.len() <= info.depth
        &&& line_legal(su.p, info.pv@)
    } by {
        lemma_deepened_depth(su, i + 1);
        let d = deepened(su, i + 1);
        assert(reports(done[i], su.p, d));
        law_pv_legal(su.p, d.s.tt, d.depth);
    }
    if done.len() > 0 {
        let k = done.len() as int;
        assert(reports(done[k - 1], su.p, deepened(su, k)));
        if legal(su.p).len() == 0 {
            lemma_terminal(su, k);
        }
    }
}

/// The setup with tablebases that answer by a script.
pub open spec fn with_script<E: Evaluator>(su: Setup<E>, tables: TbState, sc: Script) -> Setup<E> {
    Setup { oracle: oracle_of(tables, sc), ..su }
}

/// The time manager after `k` completed depths.
pub open spec fn manager_after<E: Evaluator>(su: Setup<E>, tm: TimeManager, k: int) -> TimeManager
    decreases k,
{
    if k <= 0 {
        tm
    } else {
        manager_after(su, tm, k - 1).updated(deepened(su, k).best_move)
    }
}

/// The soft limit had passed at the last report.
pub open spec fn out_of_time(tm: TimeManager, done: Seq<SearchInfo>) -> bool {
    done.len() > 0 && (tm.soft_ms matches Some(lim) && done.last().time_ms >= lim)
}

/// No depth was begun once the soft limit, as the depths before had left it, had
/// passed at the report of the last of them.
pub open spec fn kept_time<E: Evaluator>(
    su: Setup<E>,
    tm: TimeManager,
    done: Seq<SearchInfo>,
) -> bool {
    forall|i: int|
        0 < i < done.len() ==> !out_of_time(
            manager_after(su, tm, i),
            #[trigger] done.take(i),
        )
}

/// The clock was read at the start; the deadline is the hard limit after it, if
/// there is one and the clock can represent it, and the times that are reported
/// were measured from there.
pub open spec fn timed(
    start: Instant,
    hard: Option<u64>,
    deadline: Option<Instant>,
    done: Seq<SearchInfo>,
) -> bool {
    &&& started(start)
    &&& match hard {
        Some(ms) => worked_out(start, ms, deadline),
        None => deadline is None,
    }
    &&& forall|i: int| 0 <= i < done.len() ==> measured(start, (#[trigger] done[i]).time_ms)
}

/// No depth was completed without a look at the flag and the clock, unless there was
/// no node to visit.
pub open spec fn looked(
    stop: Option<Arc<AtomicBool>>,
    deadline: Option<Instant>,
    done: Seq<SearchInfo>,
) -> bool {
    done.len() > 0 && done.last().nodes > 0 ==> unhindered(stop, deadline)
}

/// How a search ended, where `done` are the reports of the depths it completed,
/// `end` is the searcher and `t` the transposition table afterwards.
///
/// It ended of its own accord, or because the soft limit had passed at the last
/// report, or it was stopped within the next depth. Only if it was not stopped is
/// it known what the table holds.
pub open spec fn ended<E: Evaluator>(
    su: Setup<E>,
    cap: int,
    tm: TimeManager,
    done: Seq<SearchInfo>,
    end: Searcher<E>,
    t: TableState,
    r: SearchResult,
) -> bool {
    let k = done.len() as int;
    let d = deepened(su, k);
    &&& outcome_of(su, cap, done, r)
    &&& kept_time(su, tm, done)
    &&& k == last_depth(su, cap, 0) || end.stopped || out_of_time(manager_after(su, tm, k), done)
    &&& if end.stopped {
        k < cap && end.visits@ <= deepened(su, k + 1).s.visits
    } else if d.best_move is Some || legal(su.p).len() == 0 {
        &&& t == d.s.tt
        &&& d.best_move matches Some(m) ==> model::knows(t, su.p, m)
    } else {
        let asked = d.s.oracle.asked;
        &&& falls_back(su, d.s.tt, asked, d.s.nodes, r)
        &&& t == fallback_root(su, d.s.tt, asked).2.tt
    }
}

/// What the depths completed so far have come to.
#[verifier::opaque]
spec fn on_course<E: Evaluator>(
    su: Setup<E>,
    tm0: TimeManager,
    tm: TimeManager,
    done: Seq<SearchInfo>,
    best: SearchResult,
) -> bool {
    let k = best.depth as int;
    let d = deepened(su, k);
    &&& done.len() == k
    &&& depths_done(su, k)
    &&& d.best_move == best.best_move
    &&& d.score == best.score
    &&& d.depth == k
    &&& d.s.nodes == best.nodes
    &&& forall|i: int| 0 <= i < k ==> reports(#[trigger] done[i], su.p, deepened(su, i + 1))
    &&& tm == manager_after(su, tm0, k)
    &&& kept_time(su, tm0, done)
}

proof fn lemma_on_course_start<E: Evaluator>(
    su: Setup<E>,
    tm: TimeManager,
    best: SearchResult,
)
    requires
        best.best_move is None,
        best.score == 0,
        best.depth == 0,
        best.nodes == 0,
    ensures
        on_course(su, tm, tm, Seq::empty(), best),
{
    reveal(on_course);
}

/// One more depth is completed and reported.
proof fn lemma_on_course_step<E: Evaluator>(
    su: Setup<E>,
    tm0: TimeManager,
    tm: TimeManager,
    done: Seq<SearchInfo>,
    best: SearchResult,
    info: SearchInfo,
    next: SearchResult,
)
    requires
        on_course(su, tm0, tm, done, best),
        next.depth == best.depth + 1,
        best.depth >= 1 ==> !mate_score(best.score as int),
        !out_of_time(tm, done),
        ({
            let d = deepened(su, next.depth as int);
            &&& d.best_move == next.best_move
            &&& d.score == next.score
            &&& d.s.nodes == next.nodes
            &&& reports(info, su.p, d)
        }),
    ensures
        on_course(su, tm0, tm.updated(next.best_move), done.push(info), next),
{
    reveal(on_course);
    let k = best.depth as int;
    let longer = done.push(info);
    lemma_deepened_depth(su, k + 1);
    assert forall|i: int| 0 <= i < k + 1 implies reports(
        #[trigger] longer[i],
        su.p,
        deepened(su, i + 1),
    ) by {
        if i < k {
            assert(longer[i] == done[i]);
        }
    }
    assert forall|j: int| 1 <= j < k + 1 implies !mate_score(
        #[trigger] deepened(su, j).score,
    ) by {}
    assert forall|i: int| 0 < i < longer.len() implies !out_of_time(
        manager_after(su, tm0, i),
        #[trigger] longer.take(i),
    ) by {
        if i < k {
            assert(longer.take(i) =~= done.take(i));
        } else {
            assert(longer.take(i) =~= done);
        }
    }
}

/// Run an iterative-deepening search with the given evaluator, parameters and
/// tablebases.
///
/// Each completed depth is appended to `infos`. The result is that of the last
/// completed depth. If not even depth 1 was completed, or it found no move, a
/// search of depth 1 that nothing stops makes sure of a move.
///
/// The searcher is handed back. For every sequence of tablebase answers that those
/// in its log begin, the result is exactly that of as many depths as were
/// completed with those answers. The search is stopped only where the flag was
/// found set, the deadline was found reached or the node limit was reached.
#[verifier::rlimit(100)]
pub fn deepen_with<E: Evaluator>(
    board: &mut Board,
    limits: &SearchLimits,
    stop: Option<Arc<AtomicBool>>,
    tt: &mut TranspositionTable,
    game_history: &Vec<u64>,
    evaluator: E,
    params: SearchParams,
    tables: TbState,
    infos: &mut Vec<SearchInfo>,
) -> (r: (SearchResult, Searcher<E>))
    requires
        searchable(*old(board), 0),
        sane(*limits, old(board)@.side),
        old(tt).wf(),
        evaluator.ready(),
        params.wf(),
    ensures
        same_board(*old(board), *final(board)),
        final(tt).wf(),
        final(infos)@.len() >= old(infos)@.len(),
        final(infos)@.take(old(infos)@.len() as int) == old(infos)@,
        sound(old(board)@, limits.excluded_root_moves@, r.0),
        within_nodes(*limits, final(infos)@.skip(old(infos)@.len() as int)),
        r.1.stop == stop,
        r.1.node_limit == limits.nodes,
        tables.tables is None ==> r.1.log@ == Script::empty(),
        exists|start: Instant| #[trigger]
            timed(
                start,
                planned(*limits, old(board)@.side, old(board)@.fullmove).hard_ms,
                r.1.deadline,
                final(infos)@.skip(old(infos)@.len() as int),
            ),
        r.1.stopped ==> interrupted(stop, r.1.deadline, limits.nodes, r.1.visits@),
        looked(stop, r.1.deadline, final(infos)@.skip(old(infos)@.len() as int)),
        forall|sc: Script| #[trigger]
            follows(r.1.log@, sc) ==> ended(
                Setup {
                    e: evaluator,
                    prm: params,
                    p: old(board)@,
                    path: game_history@,
                    t: old(tt)@,
                    excluded: limits.excluded_root_moves@,
                    oracle: oracle_of(tables, sc),
                },
                limits.cap(),
                planned(*limits, old(board)@.side, old(board)@.fullmove),
                final(infos)@.skip(old(infos)@.len() as int),
                r.1,
                final(tt)@,
                r.0,
            ),
{
    let ghost p = board@;
    let ghost hash = board.hash;
    let ghost ex = limits.excluded_root_moves@;
    let ghost first = infos@;
    let ghost su0 = Setup {
        e: evaluator,
        prm: params,
        p,
        path: game_history@,
        t: tt@,
        excluded: ex,
        oracle: no_oracle(),
    };
    let start = read_clock();
    let mut tm = TimeManager::new(limits, board.side_to_move, board.fullmove_number);
    let ghost tm0 = tm;
    let max_depth: u32 = limits.max_depth();
    let deadline = match tm.hard_deadline() {
        Some(ms) => ms_after(&start, ms),
        None => None,
    };
    let mut searcher = Searcher::with_stop(
        game_history,
        deadline,
        stop,
        limits.nodes,
        evaluator,
    );
    let ghost fresh = searcher;
    searcher.params = params;
    searcher.tables = tables;
    let mut best = SearchResult { best_move: None, score: 0, depth: 0, nodes: 0 };
    let mut depth: u32 = 1;
    let mut go_on = true;
    let ghost mut done: Seq<SearchInfo> = Seq::empty();
    proof {
        assert forall|sc: Script| #[trigger] follows(searcher.log@, sc) implies on_course(
            with_script(su0, tables, sc),
            tm0,
            tm,
            done,
            best,
        ) && deepened(with_script(su0, tables, sc), 0).s == searcher.state(tt@, sc) by {
            lemma_on_course_start(with_script(su0, tables, sc), tm0, best);
            assert(fresh.state(tt@, sc).killers == searcher.state(tt@, sc).killers);
        }
    }
    while depth <= max_depth && go_on
        invariant
            p == old(board)@,
            hash == old(board).hash,
            ex == limits.excluded_root_moves@,
            first == old(infos)@,
            su0.e == evaluator,
            su0.prm == params,
            su0.p == p,
            su0.path == game_history@,
            su0.t == old(tt)@,
            su0.excluded == ex,
            searchable(*board, 0),
            board@ == p,
            board.hash == hash,
            tt.wf(),
            searcher.wf(),
            searcher.params == params,
            searcher.tables == tables,
            searcher.evaluator == evaluator,
            searcher.stop == stop,
            searcher.deadline == deadline,
            searcher.node_limit == limits.nodes,
            tables.tables is None ==> searcher.log@ == Script::empty(),
            !searcher.stopped ==> searcher.in_budget(),
            limits.nodes matches Some(n) ==> forall|i: int|
                0 <= i < done.len() ==> (#[trigger] done[i]).nodes <= node_cap(n),
            searcher.stopped ==> interrupted(stop, deadline, limits.nodes, searcher.visits@),
            looked(stop, deadline, done),
            tm.wf(),
            tm.stability <= 8,
            limits.infinite || limits.ponder ==> tm.soft_ms is None && tm.is_fixed,
            max_depth == limits.cap(),
            max_depth <= MAX_DEPTH,
            1 <= depth <= max_depth + 1,
            infos@ == first + done,
            done.len() == best.depth,
            forall|i: int| 0 <= i < done.len() ==> measured(start, (#[trigger] done[i]).time_ms),
            best.depth <= max_depth,
            capped(best.score as int),
            go_on ==> best.depth == depth - 1,
            go_on ==> !searcher.stopped,
            go_on && best.depth > 0 ==> !mate_score(best.score as int) && !out_of_time(tm, done),
            !go_on ==> searcher.stopped || (best.depth > 0 && mate_score(best.score as int))
                || out_of_time(tm, done),
            searcher.stopped ==> best.depth < max_depth,
            forall|sc: Script| #[trigger]
                follows(searcher.log@, sc) ==> {
                    let su = with_script(su0, tables, sc);
                    &&& on_course(su, tm0, tm, done, best)
                    &&& if searcher.stopped {
                        searcher.visits@ <= deepened(su, best.depth + 1).s.visits
                    } else {
                        deepened(su, best.depth as int).s == searcher.state(tt@, sc)
                    }
                },
            best.best_move matches Some(m) ==> legal(p).contains(m) && !ex.contains(m),
            !searcher.stopped ==> (best.best_move matches Some(m) ==> model::knows(tt@, p, m)),
            legal(p).len() == 0 ==> best.best_move is None,
        decreases max_depth + 1 - depth + (if go_on {
            1int
        } else {
            0int
        }),
    {
        let ghost head = searcher;
        let ghost t0 = tt@;
        let ghost before = (best, tm, done);
        let (mv, score) = searcher.search_depth(
            board,
            depth,
            &best,
            tt,
            limits.excluded_root_moves.as_slice(),
        );
        proof {
            reveal(within_budget);
            reveal(interrupted);
            assert forall|sc: Script| #[trigger] follows(searcher.log@, sc) implies {
                let su = with_script(su0, tables, sc);
                &&& on_course(su, tm0, tm, done, best)
                &&& deepened(su, depth as int) == deepen_once(
                    su.e,
                    su.prm,
                    p,
                    ex,
                    depth as int,
                    head.resumed(best, t0, sc),
                )
            } by {
                assert(follows(head.log@, sc));
                let su = with_script(su0, tables, sc);
                reveal(on_course);
                assert(deepened(su, depth - 1) == head.resumed(best, t0, sc));
            }
        }
        if searcher.stopped {
            // Partial iteration: keep the previous completed result.
            go_on = false;
        } else {
            tm.update(mv);
            best = SearchResult { best_move: mv, score, depth, nodes: searcher.nodes };
            let seldepth: u32 = if searcher.max_ply >= 0 && searcher.max_ply as u32 >= depth {
                searcher.max_ply as u32
            } else {
                depth
            };
            let spent: u64 = ms_since(&start);
            let pv = extract_pv(board, tt, depth);
            let info = SearchInfo {
                depth,
                seldepth,
                score,
                nodes: searcher.nodes,
                time_ms: spent,
                hashfull: tt.hashfull(),
                pv,
                multipv: 1,
            };
            infos.push(info);
            proof {
                assert forall|sc: Script| #[trigger] follows(searcher.log@, sc) implies {
                    let su = with_script(su0, tables, sc);
                    &&& on_course(su, tm0, tm, done.push(info), best)
                    &&& deepened(su, best.depth as int).s == searcher.state(tt@, sc)
                } by {
                    let su = with_script(su0, tables, sc);
                    lemma_on_course_step(
                        su,
                        tm0,
                        before.1,
                        before.2,
                        before.0,
                        info,
                        best,
                    );
                }
                done = done.push(info);
                assert(infos@ =~= first + done);
            }
            // A forced mate cannot be improved; otherwise a depth that is
            // unlikely to be finished in time is not begun.
            if is_mate_score(score) || (!limits.is_infinite() && tm.soft_limit_expired(spent)) {
                go_on = false;
            }
            depth += 1;
        }
    }
    proof {
        assert(infos@.take(first.len() as int) =~= first);
        assert(infos@.skip(first.len() as int) =~= done);
        assert(within_nodes(*limits, done)) by {
            if let Some(n) = limits.nodes {
                law_node_cap(n);
            }
        }
        assert(timed(start, tm0.hard_ms, searcher.deadline, done));
    }
    if best.best_move.is_none() {
        proof {
            law_valid_moves_playable(p);
        }
        let ms = board.legal_moves();
        if ms.is_empty() {
            // Terminal position: report the mate or stalemate score.
            best.score =
            if board.is_in_check() {
                -MATE
            } else {
                0
            };
            proof {
                assert forall|sc: Script| #[trigger] follows(searcher.log@, sc) implies ended(
                    with_script(su0, tables, sc),
                    max_depth as int,
                    tm0,
                    done,
                    searcher,
                    tt@,
                    best,
                ) by {
                    reveal(on_course);
                    lemma_end(with_script(su0, tables, sc), max_depth as int, tm0, tm, done, searcher);
                }
            }
            return (best, searcher);
        }
        // Make sure of a legal move even if there was no time for depth 1.
        let none: Vec<u64> = Vec::new();
        let ghost last = searcher;
        let ghost best0 = best;
        let mut fallback = Searcher::with_stop(&none, None, None, None, searcher.evaluator);
        let ghost renewed = fallback;
        fallback.params = params;
        fallback.tables = searcher.tables;
        fallback.log = searcher.log;
        let ghost t2 = tt@;
        let ghost log = searcher.log@;
        proof {
            assert(none@ =~= Seq::<u64>::empty());
            reveal(interrupted);
            assert forall|sc: Script| #[trigger] fallback.state(t2, sc) == (SearchState {
                oracle: Oracle { asked: log.len() as int, ..oracle_of(tables, sc) },
                ..fresh_state(Seq::empty(), t2)
            }) by {
                assert(renewed.state(t2, sc).killers == fallback.state(t2, sc).killers);
            }
        }
        let (mv, score) = fallback.search_root(
            board,
            1,
            None,
            tt,
            limits.excluded_root_moves.as_slice(),
            -INFINITY,
            INFINITY,
        );
        let sure = match mv {
            Some(_) => mv,
            None => first_allowed(&ms, limits.excluded_root_moves.as_slice()),
        };
        proof {
            law_first_where(legal(p), allowed(ex));
        }
        best =
        SearchResult {
            best_move: sure,
            score,
            depth: 1,
            nodes: best.nodes.wrapping_add(fallback.nodes),
        };
        searcher.evaluator = fallback.evaluator;
        searcher.tables = fallback.tables;
        searcher.log = fallback.log;
        proof {
            assert forall|sc: Script| #[trigger] follows(searcher.log@, sc) implies ended(
                with_script(su0, tables, sc),
                max_depth as int,
                tm0,
                done,
                searcher,
                tt@,
                best,
            ) by {
                reveal(on_course);
                let su = with_script(su0, tables, sc);
                assert(follows(log, sc));
                assert(falls_back(su, t2, log.len() as int, best0.nodes, best));
                lemma_end(su, max_depth as int, tm0, tm, done, last);
            }
        }
        return (best, searcher);
    }
    proof {
        assert forall|sc: Script| #[trigger] follows(searcher.log@, sc) implies ended(
            with_script(su0, tables, sc),
            max_depth as int,
            tm0,
            done,
            searcher,
            tt@,
            best,
        ) by {
            reveal(on_course);
            lemma_end(with_script(su0, tables, sc), max_depth as int, tm0, tm, done, searcher);
        }
    }
    (best, searcher)
}

/// A search that is neither stopped nor out of time has come to its end.
proof fn lemma_end<E: Evaluator>(
    su: Setup<E>,
    cap: int,
    tm0: TimeManager,
    tm: TimeManager,
    done: Seq<SearchInfo>,
    end: Searcher<E>,
)
    requires
        done.len() <= cap,
        depths_done(su, done.len() as int),
        tm == manager_after(su, tm0, done.len() as int),
        end.stopped || out_of_time(tm, done) || done.len() == cap || done.len() >= 1 && mate_score(
            deepened(su, done.len() as int).score,
        ),
    ensures
        done.len() == last_depth(su, cap, 0) || end.stopped || out_of_time(
            manager_after(su, tm0, done.len() as int),
            done,
        ),
{
    if !end.stopped && !out_of_time(tm, done) {
        lemma_last_depth(su, cap, done.len() as int, 0);
    }
}

/// Run an iterative-deepening search as [`deepen_with`] does, without handing back
/// the searcher.
///
/// There are answers of the tablebases with which the result is exactly that of as
/// many depths as were completed. A search without a flag, a clock and a node limit
/// goes on to its end; with a node limit alone it goes on to a depth that the limit
/// does not cover.
pub fn deepen<E: Evaluator>(
    board: &mut Board,
    limits: &SearchLimits,
    stop: Option<Arc<AtomicBool>>,
    tt: &mut TranspositionTable,
    game_history: &Vec<u64>,
    evaluator: E,
    params: SearchParams,
    tables: TbState,
    infos: &mut Vec<SearchInfo>,
) -> (r: SearchResult)
    requires
        searchable(*old(board), 0),
        sane(*limits, old(board)@.side),
        old(tt).wf(),
        evaluator.ready(),
        params.wf(),
    ensures
        same_board(*old(board), *final(board)),
        final(tt).wf(),
        final(infos)@.len() >= old(infos)@.len(),
        final(infos)@.take(old(infos)@.len() as int) == old(infos)@,
        sound(old(board)@, limits.excluded_root_moves@, r),
        within_nodes(*limits, final(infos)@.skip(old(infos)@.len() as int)),
        exists|sc: Script, end: Searcher<E>| #[trigger]
            deepened_to(
                Setup {
                    e: evaluator,
                    prm: params,
                    p: old(board)@,
                    path: game_history@,
                    t: old(tt)@,
                    excluded: limits.excluded_root_moves@,
                    oracle: oracle_of(tables, sc),
                },
                *limits,
                stop,
                final(infos)@.skip(old(infos)@.len() as int),
                end,
                final(tt)@,
                r,
            ) && (tables.tables is None ==> sc == Script::empty()),
{
    let (r, end) = deepen_with(
        board,
        limits,
        stop,
        tt,
        game_history,
        evaluator,
        params,
        tables,
        infos,
    );
    proof {
        let sc = end.log@;
        lemma_follows_self(sc);
        reveal(interrupted);
        let su = Setup {
            e: evaluator,
            prm: params,
            p: old(board)@,
            path: game_history@,
            t: old(tt)@,
            excluded: limits.excluded_root_moves@,
            oracle: oracle_of(tables, sc),
        };
        assert(deepened_to(
            su,
            *limits,
            stop,
            infos@.skip(old(infos)@.len() as int),
            end,
            tt@,
            r,
        ));
    }
    r
}

/// How a search within limits went, as [`ended`] says, with its deadline, that it
/// was looked at, and the reason if it was stopped.
pub open spec fn deepened_to<E: Evaluator>(
    su: Setup<E>,
    l: SearchLimits,
    stop: Option<Arc<AtomicBool>>,
    done: Seq<SearchInfo>,
    end: Searcher<E>,
    t: TableState,
    r: SearchResult,
) -> bool {
    let tm = planned(l, su.p.side, su.p.fullmove);
    &&& ended(su, l.cap(), tm, done, end, t, r)
    &&& exists|start: Instant| #[trigger] timed(start, tm.hard_ms, end.deadline, done)
    &&& looked(stop, end.deadline, done)
    &&& end.stopped ==> interrupted(
        stop,
        end.deadline,
        l.nodes,
        deepened(su, done.len() as int + 1).s.visits,
    )
}

/// A search without a clock has no deadline, and goes on to its end unless it is
/// stopped because the flag was found set or at a depth that the node limit does not
/// cover.
pub proof fn law_no_clock<E: Evaluator>(
    su: Setup<E>,
    l: SearchLimits,
    stop: Option<Arc<AtomicBool>>,
    done: Seq<SearchInfo>,
    end: Searcher<E>,
    t: TableState,
    r: SearchResult,
)
    requires
        deepened_to(su, l, stop, done, end, t, r),
        budget_of(l, su.p.side, su.p.fullmove) is Unlimited,
    ensures
        end.deadline is None,
        !end.stopped ==> done.len() == last_depth(su, l.cap(), 0),
        end.stopped ==> (stop matches Some(flag) && read_as(flag, true)) || (l.nodes matches Some(n)
            && deepened(su, done.len() as int + 1).s.visits >= n),
{
    reveal(interrupted);
    let tm = planned(l, su.p.side, su.p.fullmove);
    lemma_fixed_manager(su, tm, done.len() as int);
}

/// A search without a flag and a clock goes on to its end, or to a depth that the
/// node limit does not cover.
pub proof fn law_node_limit_alone<E: Evaluator>(
    su: Setup<E>,
    l: SearchLimits,
    done: Seq<SearchInfo>,
    end: Searcher<E>,
    t: TableState,
    r: SearchResult,
)
    requires
        deepened_to(su, l, None, done, end, t, r),
        budget_of(l, su.p.side, su.p.fullmove) is Unlimited,
    ensures
        ({
            let k = done.len() as int;
            k == last_depth(su, l.cap(), 0) || (l.nodes matches Some(n) && deepened(
                su,
                k + 1,
            ).s.visits >= n)
        }),
        l.nodes is None ==> done.len() == last_depth(su, l.cap(), 0) && !end.stopped,
{
    law_no_clock(su, l, None, done, end, t, r);
}

/// What a search that nothing stops returns, and the transposition table that it
/// leaves.
pub struct Ending {
    pub best_move: Option<Move>,
    pub score: int,
    pub depth: int,
    pub nodes: int,
    pub t: TableState,
}

/// What a search that nothing stops returns: the result of its last depth, if it
/// found a move; else, in a position without legal moves the score of mate or
/// stalemate, and in any other the result of a search of depth 1.
pub open spec fn ending<E: Evaluator>(su: Setup<E>, cap: int) -> Ending {
    let d = completed(su, cap);
    let k = last_depth(su, cap, 0);
    if d.best_move is Some {
        Ending { best_move: d.best_move, score: d.score, depth: k, nodes: d.s.nodes as int, t: d.s.tt }
    } else if legal(su.p).len() == 0 {
        Ending {
            best_move: None,
            score: terminal_score(su.p),
            depth: k,
            nodes: d.s.nodes as int,
            t: d.s.tt,
        }
    } else {
        let (m, v, s) = fallback_root(su, d.s.tt, d.s.oracle.asked);
        Ending {
            best_move: match m {
                Some(_) => m,
                None => first_where(legal(su.p), allowed(su.excluded)),
            },
            score: v,
            depth: 1,
            nodes: summed(d.s.nodes, s.nodes),
            t: s.tt,
        }
    }
}

/// Without a flag, a clock and a node limit, the result of a search and the table
/// that it leaves are those of a search that nothing stops.
pub proof fn law_unlimited_search<E: Evaluator>(
    su: Setup<E>,
    l: SearchLimits,
    done: Seq<SearchInfo>,
    end: Searcher<E>,
    t: TableState,
    r: SearchResult,
)
    requires
        deepened_to(su, l, None, done, end, t, r),
        sound(su.p, su.excluded, r),
        budget_of(l, su.p.side, su.p.fullmove) is Unlimited,
        l.nodes is None,
    ensures
        done.len() == last_depth(su, l.cap(), 0),
        ({
            let e = ending(su, l.cap());
            &&& r.best_move == e.best_move
            &&& r.score == e.score
            &&& r.depth == e.depth
            &&& r.nodes == e.nodes
            &&& t == e.t
        }),
        completed(su, l.cap()).best_move matches Some(m) ==> model::knows(t, su.p, m),
{
    law_node_limit_alone(su, l, done, end, t, r);
}

proof fn lemma_fixed_manager<E: Evaluator>(su: Setup<E>, tm: TimeManager, k: int)
    requires
        tm.is_fixed,
    ensures
        manager_after(su, tm, k) == tm,
    decreases k,
{
    if k > 0 {
        lemma_fixed_manager(su, tm, k - 1);
    }
}

/// Run a time-managed iterative-deepening search.
///
/// `game_history` holds the hashes of every position of the game so far, not
/// including the root. `nnue`, if given, evaluates in place of the hand-crafted
/// evaluator. Each completed depth is appended to `infos`.
///
/// There are answers of the tablebases with which the result is exactly that of as
/// many depths as were completed.
pub fn think(
    board: &mut Board,
    limits: &SearchLimits,
    stop: Arc<AtomicBool>,
    tt: &mut TranspositionTable,
    game_history: &Vec<u64>,
    nnue: Option<Arc<Network>>,
    params: &SearchParams,
    tables: &TbState,
    infos: &mut Vec<SearchInfo>,
) -> (r: SearchResult)
    requires
        searchable(*old(board), 0),
        sane(*limits, old(board)@.side),
        old(tt).wf(),
        nnue matches Some(net) ==> net.wf(),
        params.wf(),
    ensures
        same_board(*old(board), *final(board)),
        final(tt).wf(),
        final(infos)@.len() >= old(infos)@.len(),
        final(infos)@.take(old(infos)@.len() as int) == old(infos)@,
        sound(old(board)@, limits.excluded_root_moves@, r),
        within_nodes(*limits, final(infos)@.skip(old(infos)@.len() as int)),
        nnue is None ==> exists|sc: Script, end: Searcher<HandcraftedEvaluator>| #[trigger]
            deepened_to(
                Setup {
                    e: HandcraftedEvaluator,
                    prm: *params,
                    p: old(board)@,
                    path: game_history@,
                    t: old(tt)@,
                    excluded: limits.excluded_root_moves@,
                    oracle: oracle_of(*tables, sc),
                },
                *limits,
                Some(stop),
                final(infos)@.skip(old(infos)@.len() as int),
                end,
                final(tt)@,
                r,
            ) && (tables.tables is None ==> sc == Script::empty()),
        nnue matches Some(net) ==> exists|sc: Script, end: Searcher<NnueEvaluator>| #[trigger]
            deepened_to(
                Setup {
                    e: NnueEvaluator { network: net },
                    prm: *params,
                    p: old(board)@,
                    path: game_history@,
                    t: old(tt)@,
                    excluded: limits.excluded_root_moves@,
                    oracle: oracle_of(*tables, sc),
                },
                *limits,
                Some(stop),
                final(infos)@.skip(old(infos)@.len() as int),
                end,
                final(tt)@,
                r,
            ) && (tables.tables is None ==> sc == Script::empty()),
{
    match nnue {
        Some(net) => deepen(
            board,
            limits,
            Some(stop),
            tt,
            game_history,
            NnueEvaluator::new(net),
            *params,
            tables.share(),
            infos,
        ),
        None => deepen(
            board,
            limits,
            Some(stop),
            tt,
            game_history,
            HandcraftedEvaluator,
            *params,
            tables.share(),
            infos,
        ),
    }
}

} // verus!
