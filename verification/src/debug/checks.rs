//! Search correctness verifier.
//!
//! Runs the engine on positions with known answers and checks what the search
//! must uphold: the root move is legal, the principal variation is legal, two
//! identical searches agree, the score is within bounds, the transposition table
//! knows the root's best move, and the known answer is found.

use crate::board::fen::{fault_variant, parse_fen};
use crate::board::{position_key, Board, Pos};
use crate::debug::faults::{opt_text, Fault, VerificationFailure};
use crate::debug::suite::{standard, standard_positions};
use crate::epd::run::can_search;
use crate::eval::evaluator::HandcraftedEvaluator;
use crate::movegen::legal::legal;
use crate::movegen::make_move::apply;
use crate::movegen::moves::Move;
use crate::movegen::rules::{law_valid_moves_playable, valid};
use crate::search::iterative::{
    completed, deepen, deepened, deepened_to, ending, law_pv_legal, law_unlimited_search,
    lemma_deepened_depth, line_legal, oracle_of, plain_setup, pv_line, SearchInfo, Setup,
};
use crate::search::limits::{SearchLimits, MAX_DEPTH};
use crate::search::model;
use crate::search::model::{no_oracle, Script};
use crate::search::negamax::{
    capped, fresh_state, interrupted, lemma_follows_none, lemma_play, SearchResult, Searcher,
};
use crate::search::ordering::magnitude;
use crate::search::params::SearchParams;
use crate::search::tt::{
    empty_table, floor_pow2, wanted_clusters, TableState, TranspositionTable,
};
use crate::search::{
    is_mate_score, mate_distance_plies, mate_score, INFINITY, MATE,
};
use crate::tablebase::TbState;
use crate::text::{chars_of, push_chars, same_text, signed_chars, signed_text, string_of, texts};
use vstd::prelude::*;

verus! {

/// What a test position is expected to produce.
pub enum PositionKind {
    /// The engine must find a mate in at most this many moves.
    ForcedMateIn { at_most_moves: i32 },
    /// The engine must play exactly this move (UCI notation).
    BestMove { uci: String },
    /// Any legal move is acceptable.
    AnyLegal,
}

/// What a test position is expected to produce, with the text as a sequence.
pub enum Expectation {
    MateIn(int),
    Best(Seq<char>),
    Any,
}

impl View for PositionKind {
    type V = Expectation;

    open spec fn view(&self) -> Expectation {
        match self {
            PositionKind::ForcedMateIn { at_most_moves } => Expectation::MateIn(
                *at_most_moves as int,
            ),
            PositionKind::BestMove { uci } => Expectation::Best(uci@),
            PositionKind::AnyLegal => Expectation::Any,
        }
    }
}

impl PositionKind {
    /// The number of moves is small enough for the arithmetic.
    pub open spec fn wf(&self) -> bool {
        self matches PositionKind::ForcedMateIn { at_most_moves } ==> -0x3fff_ffff <= *at_most_moves
            <= 0x3fff_ffff
    }
}

/// A position with a known answer.
pub struct VerifyPosition {
    pub description: String,
    pub fen: String,
    /// Minimum search depth to use for this position.
    pub min_depth: u32,
    pub kind: PositionKind,
}

impl VerifyPosition {
    /// A position with a known answer.
    pub fn new(desc: &str, fen: &str, min_depth: u32, kind: PositionKind) -> (r: VerifyPosition)
        ensures
            r.description@ == desc@,
            r.fen@ == fen@,
            r.min_depth == min_depth,
            r.kind == kind,
    {
        VerifyPosition { description: copy_text(desc), fen: copy_text(fen), min_depth, kind }
    }
}

fn copy_text(s: &str) -> (r: String)
    ensures
        r@ == s@,
{
    string_of(&chars_of(s))
}

/// Counters of a search.
#[derive(Clone, Copy, Debug, PartialEq, Eq, Structural)]
pub struct SearchStats {
    pub nodes: u64,
    pub fail_highs: u64,
    pub researches: u64,
    pub tt_hits: u64,
    pub tt_cutoffs: u64,
}

/// Full report for one position.
pub struct VerificationResult {
    pub description: String,
    pub fen: String,
    pub depth_used: u32,
    pub best_move_uci: Option<String>,
    pub score: i32,
    pub pv_uci: Vec<String>,
    pub nodes: u64,
    pub stats: SearchStats,
    pub failures: Vec<VerificationFailure>,
}

impl VerificationResult {
    /// True if nothing is wrong.
    pub fn passed(&self) -> (r: bool)
        ensures
            r == (self.failures@.len() == 0),
    {
        self.failures.len() == 0
    }
}

/// The faults of a list of failures.
pub open spec fn faults(v: Seq<VerificationFailure>) -> Seq<Fault> {
    v.map_values(|f: VerificationFailure| f@)
}

/// What two searches of a position have shown.
pub struct Evidence {
    pub best: Option<Move>,
    pub score: int,
    pub pv: Seq<Move>,
    pub tt_move: Option<Move>,
    pub again_best: Option<Move>,
    pub again_score: int,
}

/// The text of a move, if there is one.
pub open spec fn uci_of(m: Option<Move>) -> Option<Seq<char>> {
    match m {
        Some(mv) => Some(mv.uci()),
        None => None,
    }
}

/// A move and a score as text.
pub open spec fn run_text(m: Option<Move>, score: int) -> Seq<char> {
    (match m {
        Some(mv) => mv.uci(),
        None => "(none)"@,
    }) + " score="@ + signed_text(score)
}

/// The table must know the root's best move.
pub open spec fn table_faults(ev: Evidence) -> Seq<Fault> {
    match ev.best {
        Some(mv) => if uci_of(ev.tt_move) == Some(mv.uci()) {
            Seq::empty()
        } else {
            seq![Fault::TtRootMismatch { search_move: mv.uci(), tt_move: uci_of(ev.tt_move) }]
        },
        None => Seq::empty(),
    }
}

/// The root move must be legal, and there must be one if there are legal moves.
pub open spec fn root_faults(p: Pos, ev: Evidence) -> Seq<Fault> {
    match ev.best {
        Some(mv) => if legal(p).contains(mv) {
            Seq::empty()
        } else {
            seq![Fault::IllegalRootMove { mv: mv.uci() }]
        },
        None => if legal(p).len() == 0 {
            Seq::empty()
        } else {
            seq![Fault::NoMoveReturned]
        },
    }
}

/// The score must not be beyond that of mate.
pub open spec fn bounds_faults(ev: Evidence) -> Seq<Fault> {
    if magnitude(ev.score) > MATE {
        seq![Fault::ScoreOutOfBounds { score: ev.score }]
    } else {
        Seq::empty()
    }
}

/// Each move of the principal variation must be legal where it is played.
pub open spec fn pv_faults(p: Pos, pv: Seq<Move>, i: int) -> Seq<Fault>
    decreases pv.len() - i,
{
    if i < 0 || i >= pv.len() {
        Seq::empty()
    } else if legal(p).contains(pv[i]) {
        pv_faults(apply(p, pv[i]), pv, i + 1)
    } else {
        seq![Fault::IllegalPvMove { mv: pv[i].uci(), at_ply: i }]
    }
}

/// Two identical searches must agree.
pub open spec fn repeat_faults(ev: Evidence) -> Seq<Fault> {
    let run1 = run_text(ev.best, ev.score);
    let run2 = run_text(ev.again_best, ev.again_score);
    if run1 == run2 {
        Seq::empty()
    } else {
        seq![Fault::NonDeterministic { run1, run2 }]
    }
}

/// The known answer must be found.
pub open spec fn answer_faults(kind: Expectation, ev: Evidence) -> Seq<Fault> {
    match kind {
        Expectation::MateIn(n) => if !mate_score(ev.score) || ev.score < 0 {
            seq![Fault::NotMateScore { score: ev.score }]
        } else if MATE - ev.score > 2 * n - 1 {
            seq![
                Fault::MateDistanceTooLong { expected_moves: n, actual_plies: MATE - ev.score },
            ]
        } else {
            Seq::empty()
        },
        Expectation::Best(uci) => if uci_of(ev.best) == Some(uci) {
            Seq::empty()
        } else {
            seq![Fault::WrongBestMove { expected: uci, found: uci_of(ev.best) }]
        },
        Expectation::Any => Seq::empty(),
    }
}

/// Everything that the evidence shows to be wrong, in the order of the checks.
pub open spec fn all_faults(p: Pos, kind: Expectation, ev: Evidence) -> Seq<Fault> {
    table_faults(ev) + root_faults(p, ev) + bounds_faults(ev) + pv_faults(p, ev.pv, 0)
        + repeat_faults(ev) + answer_faults(kind, ev)
}

/// The text of a move, if there is one.
fn uci_text(m: Option<Move>) -> (r: Option<String>)
    ensures
        opt_text(r) == uci_of(m),
{
    match m {
        Some(mv) => Some(mv.to_uci()),
        None => None,
    }
}

/// A move and a score as text.
fn describe_run(m: Option<Move>, score: i32) -> (r: String)
    ensures
        r@ == run_text(m, score as int),
{
    let mut out = match m {
        Some(mv) => mv.to_uci(),
        None => copy_text("(none)"),
    };
    push_chars(&mut out, &chars_of(" score="));
    push_chars(&mut out, &signed_chars(score as i64));
    out
}

/// Append a failure to the list.
fn report(list: &mut Vec<VerificationFailure>, f: VerificationFailure)
    ensures
        faults(final(list)@) == faults(old(list)@) + seq![f@],
{
    let ghost before = list@;
    list.push(f);
    proof {
        assert(faults(list@) =~= faults(before) + seq![f@]);
    }
}

/// Check each move of the principal variation.
fn check_pv(board: &Board, pv: &Vec<Move>, list: &mut Vec<VerificationFailure>)
    requires
        board.wf(),
        valid(board@),
    ensures
        faults(final(list)@) == faults(old(list)@) + pv_faults(board@, pv@, 0),
{
    let ghost p0 = board@;
    let ghost before = faults(list@);
    let mut at = *board;
    let mut i: usize = 0;
    while i < pv.len()
        invariant
            i <= pv@.len(),
            at.wf(),
            valid(at@),
            p0 == board@,
            before == faults(old(list)@),
            faults(list@) == before,
            pv_faults(p0, pv@, 0) == pv_faults(at@, pv@, i as int),
        decreases pv@.len() - i,
    {
        let mv = pv[i];
        proof {
            law_valid_moves_playable(at@);
        }
        if !at.legal_moves().contains(mv) {
            report(list, VerificationFailure::IllegalPvMove { mv: mv.to_uci(), at_ply: i });
            return;
        }
        proof {
            lemma_play(at@, at.hash, mv);
        }
        let _ = at.make_move(mv);
        i += 1;
    }
    proof {
        assert(before + Seq::<Fault>::empty() =~= before);
    }
}

/// Check what two searches of a position have shown.
pub fn check(
    board: &Board,
    kind: &PositionKind,
    best: Option<Move>,
    score: i32,
    pv: &Vec<Move>,
    tt_move: Option<Move>,
    again_best: Option<Move>,
    again_score: i32,
) -> (r: Vec<VerificationFailure>)
    requires
        board.wf(),
        valid(board@),
        kind.wf(),
        score > i32::MIN,
    ensures
        faults(r@) == all_faults(
            board@,
            kind@,
            Evidence {
                best,
                score: score as int,
                pv: pv@,
                tt_move,
                again_best,
                again_score: again_score as int,
            },
        ),
{
    let ghost p = board@;
    let ghost ev = Evidence {
        best,
        score: score as int,
        pv: pv@,
        tt_move,
        again_best,
        again_score: again_score as int,
    };
    let mut list: Vec<VerificationFailure> = Vec::new();
    proof {
        law_valid_moves_playable(p);
        assert(faults(list@) =~= Seq::empty());
    }
    if let Some(mv) = best {
        let same = match tt_move {
            Some(m) => same_text(&m.uci_chars(), &mv.uci_chars()),
            None => false,
        };
        if !same {
            report(
                &mut list,
                VerificationFailure::TtRootMismatch {
                    search_move: mv.to_uci(),
                    tt_move: uci_text(tt_move),
                },
            );
        }
    }
    proof {
        assert(faults(list@) =~= table_faults(ev));
    }
    let moves = board.legal_moves();
    match best {
        Some(mv) => {
            if !moves.contains(mv) {
                report(&mut list, VerificationFailure::IllegalRootMove { mv: mv.to_uci() });
            }
        },
        None => {
            if !moves.is_empty() {
                report(&mut list, VerificationFailure::NoMoveReturned);
            }
        },
    }
    proof {
        assert(faults(list@) =~= table_faults(ev) + root_faults(p, ev));
    }
    if score > MATE || score < -MATE {
        report(&mut list, VerificationFailure::ScoreOutOfBounds { score });
    }
    proof {
        assert(faults(list@) =~= table_faults(ev) + root_faults(p, ev) + bounds_faults(ev));
    }
    check_pv(board, pv, &mut list);
    let run1 = describe_run(best, score);
    let run2 = describe_run(again_best, again_score);
    let ghost four = faults(list@);
    if !same_text(&chars_of(run1.as_str()), &chars_of(run2.as_str())) {
        report(&mut list, VerificationFailure::NonDeterministic { run1, run2 });
    }
    proof {
        assert(faults(list@) =~= four + repeat_faults(ev));
    }
    let ghost five = faults(list@);
    match kind {
        PositionKind::ForcedMateIn { at_most_moves } => {
            if !is_mate_score(score) || score < 0 {
                report(&mut list, VerificationFailure::NotMateScore { score });
            } else {
                let plies: i32 = mate_distance_plies(score);
                let max_plies: i32 = 2 * *at_most_moves - 1;
                if plies > max_plies {
                    report(
                        &mut list,
                        VerificationFailure::MateDistanceTooLong {
                            expected_moves: *at_most_moves,
                            actual_plies: plies,
                        },
                    );
                }
            }
        },
        PositionKind::BestMove { uci } => {
            let found = match best {
                Some(mv) => same_text(&mv.uci_chars(), &chars_of(uci.as_str())),
                None => false,
            };
            if !found {
                report(
                    &mut list,
                    VerificationFailure::WrongBestMove {
                        expected: copy_text(uci.as_str()),
                        found: uci_text(best),
                    },
                );
            }
        },
        PositionKind::AnyLegal => {},
    }
    proof {
        assert(faults(list@) =~= five + answer_faults(kind@, ev));
    }
    list
}

/// What the search of a position in the verifier starts from.
pub open spec fn verify_setup(p: Pos) -> Setup<HandcraftedEvaluator> {
    plain_setup(empty_table(floor_pow2(wanted_clusters(8))), p, Seq::empty())
}

/// How deep iterative deepening goes for a given depth.
pub open spec fn depth_cap(depth: int) -> int {
    if depth < MAX_DEPTH {
        depth
    } else {
        MAX_DEPTH as int
    }
}

/// The move that a table has for a position.
pub open spec fn stored_move(t: TableState, p: Pos) -> Option<Move> {
    match t.probe(position_key(p)) {
        Some(d) => d.best(),
        None => None,
    }
}

/// What the searches of a position in the verifier show.
pub open spec fn shown(p: Pos, depth: int) -> Evidence {
    let su = verify_setup(p);
    let d = completed(su, depth_cap(depth));
    let e = ending(su, depth_cap(depth));
    Evidence {
        best: e.best_move,
        score: e.score,
        pv: pv_line(p, d.s.tt, d.depth),
        tt_move: stored_move(e.t, p),
        again_best: e.best_move,
        again_score: e.score,
    }
}

/// The counters of a direct search of a position.
pub open spec fn direct_stats(p: Pos, depth: int) -> SearchStats {
    let s = model::root(
        HandcraftedEvaluator,
        SearchParams::defaults(),
        p,
        fresh_state(Seq::empty(), empty_table(floor_pow2(wanted_clusters(4)))),
        if depth >= 1 {
            depth
        } else {
            1
        },
        None,
        Seq::empty(),
        -INFINITY as int,
        INFINITY as int,
    ).2;
    SearchStats {
        nodes: s.nodes,
        fail_highs: s.fail_highs,
        researches: s.researches,
        tt_hits: s.tt_hits,
        tt_cutoffs: s.tt_cutoffs,
    }
}

/// No counts.
pub open spec fn no_stats() -> SearchStats {
    SearchStats { nodes: 0, fail_highs: 0, researches: 0, tt_hits: 0, tt_cutoffs: 0 }
}

/// Run a search directly to collect its counters.
fn collect_stats(board_in: &Board, depth: u32) -> (r: SearchStats)
    requires
        board_in.wf(),
        board_in.hashed(),
        can_search(board_in@),
        depth <= 0x7000_0000,
    ensures
        r == direct_stats(board_in@, depth as int),
{
    let mut board = *board_in;
    let mut tt = TranspositionTable::new(4);
    let none: Vec<u64> = Vec::new();
    let no_moves: Vec<Move> = Vec::new();
    proof {
        assert(none@ =~= Seq::<u64>::empty());
        assert(no_moves@ =~= Seq::<Move>::empty());
    }
    let mut searcher = Searcher::with_stop(&none, None, None, None, HandcraftedEvaluator);
    let ghost t0 = tt@;
    proof {
        assert(searcher.state(t0, Seq::empty()) =~= fresh_state(Seq::empty(), t0));
        lemma_follows_none(Seq::empty());
        reveal(interrupted);
    }
    let _ = searcher.search_root(
        &mut board,
        if depth >= 1 {
            depth
        } else {
            1
        },
        None,
        &mut tt,
        no_moves.as_slice(),
        -INFINITY,
        INFINITY,
    );
    SearchStats {
        nodes: searcher.nodes,
        fail_highs: searcher.fail_highs,
        researches: searcher.researches,
        tt_hits: searcher.tt_hits,
        tt_cutoffs: searcher.tt_cutoffs,
    }
}

/// One search of a position: the result, the principal variation and the move
/// that the table has for the position.
#[verifier::rlimit(60)]
fn think_once(board_in: &Board, depth: u32) -> (r: (SearchResult, Vec<Move>, Option<Move>))
    requires
        board_in.wf(),
        board_in.hashed(),
        can_search(board_in@),
    ensures
        capped(r.0.score as int),
        r.1@.len() <= MAX_DEPTH,
        r.0.best_move matches Some(m) ==> legal(board_in@).contains(m),
        ({
            let p = board_in@;
            let d = completed(verify_setup(p), depth_cap(depth as int));
            let ev = shown(p, depth as int);
            &&& r.0.best_move == ev.best
            &&& r.0.score == ev.score
            &&& r.1@ == ev.pv
            &&& r.2 == ev.tt_move
            &&& r.0.nodes == ending(verify_setup(p), depth_cap(depth as int)).nodes
            &&& d.best_move is Some ==> ev.tt_move == ev.best && legal(p).contains(d.best_move->0)
        }),
{
    let ghost p = board_in@;
    let mut board = *board_in;
    let mut tt = TranspositionTable::new(8);
    let mut limits = SearchLimits::default();
    limits.depth = Some(depth);
    let none: Vec<u64> = Vec::new();
    let mut infos: Vec<SearchInfo> = Vec::new();
    proof {
        assert(none@ =~= Seq::<u64>::empty());
        assert(limits.excluded_root_moves@ =~= Seq::<Move>::empty());
        assert(limits.cap() == depth_cap(depth as int));
    }
    let ghost su = verify_setup(p);
    let result = deepen(
        &mut board,
        &limits,
        None,
        &mut tt,
        &none,
        HandcraftedEvaluator,
        SearchParams::default(),
        TbState::default(),
        &mut infos,
    );
    proof {
        assert(infos@.skip(0) =~= infos@);
        let (sc, end) = choose|sc: Script, end: Searcher<HandcraftedEvaluator>| #[trigger]
            deepened_to(
                Setup { oracle: oracle_of(TbState { tables: None, piece_limit: 6 }, sc), ..su },
                limits,
                None,
                infos@.skip(0),
                end,
                tt@,
                result,
            ) && sc == Script::empty();
        assert(oracle_of(TbState { tables: None, piece_limit: 6 }, sc) == no_oracle());
        assert(deepened_to(su, limits, None, infos@.skip(0), end, tt@, result));
        law_unlimited_search(su, limits, infos@.skip(0), end, tt@, result);
    }
    let tt_move = match tt.probe(board.hash) {
        Some(d) => d.best_move(),
        None => None,
    };
    let n: usize = infos.len();
    proof {
        assert(tt_move == stored_move(tt@, p));
        let k = n as int;
        lemma_deepened_depth(su, k);
        law_pv_legal(p, deepened(su, k).s.tt, k);
    }
    let pv = if n == 0 {
        proof {
            reveal(pv_line);
        }
        let v: Vec<Move> = Vec::new();
        proof {
            assert(v@ =~= Seq::<Move>::empty());
        }
        v
    } else {
        match infos.pop() {
            Some(info) => info.pv,
            None => Vec::new(),
        }
    };
    (result, pv, tt_move)
}

/// The texts of a list of moves.
pub open spec fn uci_list(ms: Seq<Move>) -> Seq<Seq<char>> {
    ms.map_values(|m: Move| m.uci())
}

fn uci_strings(ms: &Vec<Move>) -> (r: Vec<String>)
    ensures
        texts(r@) == uci_list(ms@),
{
    let mut out: Vec<String> = Vec::new();
    let mut i: usize = 0;
    while i < ms.len()
        invariant
            i <= ms@.len(),
            out@.len() == i,
            forall|k: int| 0 <= k < i ==> (#[trigger] out@[k])@ == ms@[k].uci(),
        decreases ms@.len() - i,
    {
        out.push(ms[i].to_uci());
        i += 1;
    }
    proof {
        assert(texts(out@) =~= uci_list(ms@));
    }
    out
}

/// The report of a position that cannot be searched.
fn without_search(pos: &VerifyPosition, depth: u32, f: VerificationFailure) -> (r:
    VerificationResult)
    ensures
        r.description@ == pos.description@,
        r.fen@ == pos.fen@,
        r.depth_used == depth,
        faults(r.failures@) == seq![f@],
        r.best_move_uci is None,
        r.score == 0,
        r.pv_uci@.len() == 0,
        r.nodes == 0,
        r.stats == no_stats(),
{
    let mut failures: Vec<VerificationFailure> = Vec::new();
    failures.push(f);
    proof {
        assert(faults(failures@) =~= seq![f@]);
    }
    VerificationResult {
        description: copy_text(pos.description.as_str()),
        fen: copy_text(pos.fen.as_str()),
        depth_used: depth,
        best_move_uci: None,
        score: 0,
        pv_uci: Vec::new(),
        nodes: 0,
        stats: SearchStats { nodes: 0, fail_highs: 0, researches: 0, tt_hits: 0, tt_cutoffs: 0 },
        failures,
    }
}

/// The report is the one for the position and the depth.
pub open spec fn reported(pos: VerifyPosition, depth: u32, r: VerificationResult) -> bool {
    &&& r.description@ == pos.description@
    &&& r.fen@ == pos.fen@
    &&& r.depth_used == depth
    &&& match parse_fen(pos.fen@) {
        Err(e) => {
            &&& faults(r.failures@) == seq![Fault::FenParseError(fault_variant(e))]
            &&& r.best_move_uci is None && r.score == 0 && r.pv_uci@.len() == 0 && r.nodes == 0
            &&& r.stats == no_stats()
        },
        Ok(p) => if can_search(p) {
            let d = completed(verify_setup(p), depth_cap(depth as int));
            let ev = shown(p, depth as int);
            &&& r.stats == direct_stats(p, depth as int)
            &&& opt_text(r.best_move_uci) == uci_of(ev.best)
            &&& r.score == ev.score
            &&& texts(r.pv_uci@) == uci_list(ev.pv)
            &&& r.nodes == ending(verify_setup(p), depth_cap(depth as int)).nodes
            &&& faults(r.failures@) == all_faults(p, pos.kind@, ev)
            &&& d.best_move is Some ==> faults(r.failures@) == bounds_faults(ev) + answer_faults(
                pos.kind@,
                ev,
            )
        } else {
            &&& faults(r.failures@) == seq![Fault::Unplayable]
            &&& r.best_move_uci is None && r.score == 0 && r.pv_uci@.len() == 0 && r.nodes == 0
            &&& r.stats == no_stats()
        },
    }
}

/// Positions with known answers.
pub struct SearchVerifier {
    pub positions: Vec<VerifyPosition>,
}

impl Default for SearchVerifier {
    /// The built-in positions.
    fn default() -> (r: SearchVerifier)
        ensures
            r.wf(),
            standard(r.positions@),
    {
        SearchVerifier::new()
    }
}

impl SearchVerifier {
    /// Every expectation is within range.
    pub open spec fn wf(&self) -> bool {
        forall|i: int|
            0 <= i < self.positions@.len() ==> (#[trigger] self.positions@[i]).kind.wf()
                && self.positions@[i].min_depth <= 0x7000_0000
    }

    /// The verifier with the built-in positions.
    pub fn new() -> (r: SearchVerifier)
        ensures
            r.wf(),
            standard(r.positions@),
    {
        SearchVerifier { positions: standard_positions() }
    }

    /// Run all positions at the given depth, or at their minimum depth if that is
    /// larger.
    pub fn run_all(&self, depth: u32) -> (r: Vec<VerificationResult>)
        requires
            self.wf(),
            depth <= 0x7000_0000,
        ensures
            r@.len() == self.positions@.len(),
            forall|i: int|
                0 <= i < r@.len() ==> reported(
                    self.positions@[i],
                    if depth >= self.positions@[i].min_depth {
                        depth
                    } else {
                        self.positions@[i].min_depth
                    },
                    #[trigger] r@[i],
                ),
            forall|i: int|
                0 <= i < r@.len() ==> (#[trigger] r@[i]).depth_used >= depth && r@[i].depth_used
                    >= self.positions@[i].min_depth,
    {
        let mut out: Vec<VerificationResult> = Vec::new();
        let mut i: usize = 0;
        while i < self.positions.len()
            invariant
                i <= self.positions@.len(),
                self.wf(),
                depth <= 0x7000_0000,
                out@.len() == i,
                forall|k: int|
                    0 <= k < i ==> reported(
                        self.positions@[k],
                        if depth >= self.positions@[k].min_depth {
                            depth
                        } else {
                            self.positions@[k].min_depth
                        },
                        #[trigger] out@[k],
                    ),
            decreases self.positions@.len() - i,
        {
            let pos = &self.positions[i];
            let used: u32 = if depth >= pos.min_depth {
                depth
            } else {
                pos.min_depth
            };
            out.push(self.verify_one(pos, used));
            i += 1;
        }
        out
    }

    /// Check one position.
    #[verifier::rlimit(40)]
    pub fn verify_one(&self, pos: &VerifyPosition, depth: u32) -> (r: VerificationResult)
        requires
            pos.kind.wf(),
            depth <= 0x7000_0000,
        ensures
            reported(*pos, depth, r),
    {
        let board = match Board::from_fen(pos.fen.as_str()) {
            Ok(b) => b,
            Err(e) => {
                return without_search(
                    pos,
                    depth,
                    VerificationFailure::FenParseError(e.variant()),
                );
            },
        };
        if !board.is_valid() {
            return without_search(pos, depth, VerificationFailure::Unplayable);
        }
        let (result, pv, tt_move) = think_once(&board, depth);
        let (again, _, _) = think_once(&board, depth);
        let failures = check(
            &board,
            &pos.kind,
            result.best_move,
            result.score,
            &pv,
            tt_move,
            again.best_move,
            again.score,
        );
        proof {
            if completed(verify_setup(board@), depth_cap(depth as int)).best_move is Some {
                law_search_faults(board@, pos.kind@, depth as int);
            }
        }
        let stats = collect_stats(&board, depth);
        VerificationResult {
            description: copy_text(pos.description.as_str()),
            fen: copy_text(pos.fen.as_str()),
            depth_used: depth,
            best_move_uci: uci_text(result.best_move),
            score: result.score,
            pv_uci: uci_strings(&pv),
            nodes: result.nodes,
            stats,
            failures,
        }
    }

    /// The number of reports without failures.
    pub fn count_passed(results: &Vec<VerificationResult>) -> (r: usize)
        ensures
            r == passed_in(results@, results@.len() as int),
            r <= results@.len(),
    {
        let mut n: usize = 0;
        let mut i: usize = 0;
        while i < results.len()
            invariant
                i <= results@.len(),
                n <= i,
                n == passed_in(results@, i as int),
            decreases results@.len() - i,
        {
            if results[i].passed() {
                n += 1;
            }
            i += 1;
        }
        n
    }
}

/// The number of reports without failures among the first `n`.
pub open spec fn passed_in(results: Seq<VerificationResult>, n: int) -> int
    decreases n,
{
    if n <= 0 {
        0
    } else {
        passed_in(results, n - 1) + (if results[n - 1].failures@.len() == 0 {
            1int
        } else {
            0
        })
    }
}

proof fn lemma_legal_pv(p: Pos, pv: Seq<Move>, i: int)
    requires
        0 <= i <= pv.len(),
        line_legal(p, pv.skip(i)),
    ensures
        pv_faults(p, pv, i) == Seq::<Fault>::empty(),
    decreases pv.len() - i,
{
    if i < pv.len() {
        let rest = pv.skip(i);
        assert(rest[0] == pv[i]);
        assert(rest.drop_first() =~= pv.skip(i + 1));
        lemma_legal_pv(apply(p, pv[i]), pv, i + 1);
    }
}

/// A search that finds a legal move which the table has for the root shows
/// nothing wrong but for the bounds of the score and the known answer: the root
/// move and the principal variation are legal, and the searches agree.
pub proof fn law_search_faults(p: Pos, kind: Expectation, depth: int)
    requires
        shown(p, depth).best matches Some(m) && legal(p).contains(m),
        shown(p, depth).tt_move == shown(p, depth).best,
    ensures
        all_faults(p, kind, shown(p, depth)) == bounds_faults(shown(p, depth)) + answer_faults(
            kind,
            shown(p, depth),
        ),
{
    let ev = shown(p, depth);
    let d = completed(verify_setup(p), depth_cap(depth));
    law_pv_legal(p, d.s.tt, d.depth);
    assert(ev.pv.skip(0) =~= ev.pv);
    lemma_legal_pv(p, ev.pv, 0);
    assert(all_faults(p, kind, ev) =~= bounds_faults(ev) + answer_faults(kind, ev));
}

/// A line of moves is legal from a position on.
pub open spec fn playable_line(p: Pos, pv: Seq<Move>, i: int) -> bool
    decreases pv.len() - i,
{
    i < 0 || i >= pv.len() || (legal(p).contains(pv[i]) && playable_line(
        apply(p, pv[i]),
        pv,
        i + 1,
    ))
}

proof fn lemma_pv_faults(p: Pos, pv: Seq<Move>, i: int)
    ensures
        pv_faults(p, pv, i).len() == 0 <==> playable_line(p, pv, i),
    decreases pv.len() - i,
{
    if 0 <= i < pv.len() && legal(p).contains(pv[i]) {
        lemma_pv_faults(apply(p, pv[i]), pv, i + 1);
    }
}

/// A search shows nothing wrong exactly when its move is legal, or there is none to play
/// and it gives none; when the table has that move; when the score is within that of mate;
/// when the line is legal; when it gives the same again; and when it finds what is
/// expected: a mate for the side to move in time, or the move.
pub proof fn law_nothing_wrong(p: Pos, kind: Expectation, ev: Evidence)
    ensures
        all_faults(p, kind, ev).len() == 0 <==> {
            &&& match ev.best {
                Some(m) => legal(p).contains(m) && (ev.tt_move matches Some(t) && t.uci() == m.uci()),
                None => legal(p).len() == 0,
            }
            &&& -29_000 <= ev.score <= 29_000
            &&& playable_line(p, ev.pv, 0)
            &&& run_text(ev.best, ev.score) == run_text(ev.again_best, ev.again_score)
            &&& match kind {
                Expectation::MateIn(n) => ev.score > 28_000 && ev.score >= 29_000 - (2 * n - 1),
                Expectation::Best(uci) => ev.best matches Some(m) && m.uci() == uci,
                Expectation::Any => true,
            }
        },
{
    lemma_pv_faults(p, ev.pv, 0);
    let (a, b, c, d, e, f) = (
        table_faults(ev),
        root_faults(p, ev),
        bounds_faults(ev),
        pv_faults(p, ev.pv, 0),
        repeat_faults(ev),
        answer_faults(kind, ev),
    );
    assert(all_faults(p, kind, ev).len() == a.len() + b.len() + c.len() + d.len() + e.len()
        + f.len());
}

/// The positions that passed are those without failures.
pub proof fn law_passed_counts(rs: Seq<VerificationResult>, n: int)
    requires
        0 <= n <= rs.len(),
    ensures
        passed_in(rs, n) == rs.take(n).filter(|r: VerificationResult| r.failures@.len() == 0).len(),
    decreases n,
{
    let q = |r: VerificationResult| r.failures@.len() == 0;
    reveal(Seq::filter);
    if n > 0 {
        law_passed_counts(rs, n - 1);
        assert(rs.take(n).drop_last() =~= rs.take(n - 1));
        assert(rs.take(n).last() == rs[n - 1]);
        assert(rs.take(n).filter(q).len() == rs.take(n - 1).filter(q).len() + (if q(rs[n - 1]) {
            1int
        } else {
            0
        }));
    } else {
        assert(rs.take(0) =~= Seq::<VerificationResult>::empty());
    }
}

} // verus!
