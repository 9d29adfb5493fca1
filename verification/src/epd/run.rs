//! Running EPD test positions: the settings, the search, and the verdict.

use crate::board::fen::{parse_fen, FenError};
use crate::board::{Board, Pos};
use crate::epd::san::{san_move, san_to_move};
use crate::epd::EpdPosition;
use crate::eval::evaluator::HandcraftedEvaluator;
use crate::movegen::legal::{generable, legal};
use crate::movegen::moves::Move;
use crate::movegen::rules::{law_valid_moves_playable, valid};
use crate::search::iterative::{
    deepened_to, last_depth, law_no_clock, oracle_of, plain_setup, think, SearchInfo, Setup,
};
use crate::search::limits::{SearchLimits, MAX_DEPTH};
use crate::search::model::{no_oracle, Script};
use crate::search::negamax::{read_as, SearchResult, Searcher};
use crate::search::params::SearchParams;
use crate::search::tt::{TableState, TranspositionTable};
use crate::tablebase::TbState;
use crate::text::{chars_of, parse_unsigned, same_text, text_is, texts, unsigned_value};
use std::sync::atomic::AtomicBool;
use std::sync::Arc;
use vstd::prelude::*;

verus! {

/// The found move is the one that the text stands for.
pub open spec fn played(p: Pos, found: Seq<char>, san: Seq<char>) -> bool {
    san_move(p, san) matches Some(m) && m.uci() == found
}

/// Whether a found move satisfies the constraints: it is one of the best moves,
/// if any are given, and none of those to avoid. Without constraints there is no
/// verdict.
pub open spec fn verdict(
    p: Pos,
    found: Seq<char>,
    best: Seq<Seq<char>>,
    avoid: Seq<Seq<char>>,
) -> Option<bool> {
    if best.len() == 0 && avoid.len() == 0 {
        None
    } else {
        Some(
            {
                &&& best.len() > 0 ==> exists|i: int|
                    0 <= i < best.len() && played(p, found, #[trigger] best[i])
                &&& forall|i: int| 0 <= i < avoid.len() ==> !played(p, found, #[trigger] avoid[i])
            },
        )
    }
}

/// True if the found move is among the given ones.
fn any_played(found: &Vec<char>, moves: &[String], board: &Board) -> (r: bool)
    requires
        board.wf(),
        generable(board@),
    ensures
        r == exists|i: int|
            0 <= i < moves@.len() && played(board@, found@, #[trigger] texts(moves@)[i]),
{
    let mut i: usize = 0;
    while i < moves.len()
        invariant
            i <= moves@.len(),
            board.wf(),
            generable(board@),
            forall|k: int| 0 <= k < i ==> !played(board@, found@, #[trigger] texts(moves@)[k]),
        decreases moves@.len() - i,
    {
        proof {
            assert(texts(moves@)[i as int] == moves@[i as int]@);
        }
        if let Some(m) = san_to_move(moves[i].as_str(), board) {
            if same_text(&m.uci_chars(), found) {
                proof {
                    assert(played(board@, found@, texts(moves@)[i as int]));
                }
                return true;
            }
        }
        i += 1;
    }
    false
}

/// Determine whether the engine's move satisfies the constraints.
///
/// * best moves present: the engine must play one of them;
/// * moves to avoid present: the engine must not play any of them;
/// * neither: `None`, the position is unchecked.
pub fn evaluate_result(
    found_uci: &str,
    best_moves: &[String],
    avoid_moves: &[String],
    board: &Board,
) -> (r: Option<bool>)
    requires
        board.wf(),
        generable(board@),
    ensures
        r == verdict(board@, found_uci@, texts(best_moves@), texts(avoid_moves@)),
{
    if best_moves.len() == 0 && avoid_moves.len() == 0 {
        return None;
    }
    let found = chars_of(found_uci);
    let matched = best_moves.len() == 0 || any_played(&found, best_moves, board);
    let avoided = !any_played(&found, avoid_moves, board);
    Some(matched && avoided)
}

/// Depth and time, in milliseconds, per position.
pub struct EpdOptions {
    pub depth: u32,
    pub time_ms: u64,
}

/// The text is that of one of two spellings of an option.
pub open spec fn names_time(s: Seq<char>) -> bool {
    s == seq!['-', '-', 't', 'i', 'm', 'e'] || s == seq!['-', 't']
}

/// The text is that of one of two spellings of an option.
pub open spec fn names_depth(s: Seq<char>) -> bool {
    s == seq!['-', '-', 'd', 'e', 'p', 't', 'h'] || s == seq!['-', 'd']
}

/// A number, or another one if the text is no number.
pub open spec fn number_or(s: Seq<char>, max: int, other: int) -> int {
    match unsigned_value(s, max) {
        Some(n) => n,
        None => other,
    }
}

/// Depth and time after the arguments from index `i` on.
pub open spec fn options_from(args: Seq<Seq<char>>, i: int, depth: int, time: int) -> (int, int)
    decreases args.len() - i,
{
    if i >= args.len() {
        (depth, time)
    } else if names_time(args[i]) {
        if i + 1 < args.len() {
            options_from(args, i + 2, 0, number_or(args[i + 1], u64::MAX as int, 1000))
        } else {
            (depth, time)
        }
    } else if names_depth(args[i]) {
        if i + 1 < args.len() {
            options_from(args, i + 2, number_or(args[i + 1], u32::MAX as int, 8), time)
        } else {
            (depth, time)
        }
    } else {
        options_from(args, i + 1, number_or(args[i], u32::MAX as int, depth), time)
    }
}

/// True for the option that sets a time.
pub fn is_time(s: &Vec<char>) -> (r: bool)
    ensures
        r == names_time(s@),
{
    proof {
        reveal_strlit("--time");
        reveal_strlit("-t");
        assert("--time"@ =~= seq!['-', '-', 't', 'i', 'm', 'e']);
        assert("-t"@ =~= seq!['-', 't']);
    }
    text_is(s, "--time") || text_is(s, "-t")
}

/// True for the option that sets a depth.
pub fn is_depth(s: &Vec<char>) -> (r: bool)
    ensures
        r == names_depth(s@),
{
    proof {
        reveal_strlit("--depth");
        reveal_strlit("-d");
        assert("--depth"@ =~= seq!['-', '-', 'd', 'e', 'p', 't', 'h']);
        assert("-d"@ =~= seq!['-', 'd']);
    }
    text_is(s, "--depth") || text_is(s, "-d")
}

/// A number, or another one if the text is no number.
pub fn parse_or(s: &Vec<char>, max: u64, other: u64) -> (r: u64)
    requires
        other <= max,
    ensures
        r == number_or(s@, max as int, other as int),
        r <= max,
{
    match parse_unsigned(s, max) {
        Some(n) => n,
        None => other,
    }
}

/// Read the arguments behind the file: `[depth | --depth N | --time N]`. The
/// depth is 8 where none is given; a time replaces it.
pub fn parse_options(args: &Vec<String>) -> (r: EpdOptions)
    ensures
        (r.depth as int, r.time_ms as int) == options_from(texts(args@), 0, 8, 0),
{
    let ghost ts = texts(args@);
    let mut depth: u32 = 8;
    let mut time_ms: u64 = 0;
    let mut i: usize = 0;
    while i < args.len()
        invariant
            i <= args@.len(),
            ts == texts(args@),
            ts.len() == args@.len(),
            forall|k: int| 0 <= k < ts.len() ==> #[trigger] ts[k] == args@[k]@,
            options_from(ts, i as int, depth as int, time_ms as int) == options_from(ts, 0, 8, 0),
        decreases args@.len() - i,
    {
        let a = chars_of(args[i].as_str());
        if is_time(&a) {
            if i + 1 >= args.len() {
                i = args.len();
            } else {
                time_ms = parse_or(&chars_of(args[i + 1].as_str()), u64::MAX, 1000);
                depth = 0;
                i += 2;
            }
        } else if is_depth(&a) {
            if i + 1 >= args.len() {
                i = args.len();
            } else {
                depth = parse_or(&chars_of(args[i + 1].as_str()), 0xffff_ffff, 8) as u32;
                i += 2;
            }
        } else {
            depth = parse_or(&a, 0xffff_ffff, depth as u64) as u32;
            i += 1;
        }
    }
    EpdOptions { depth, time_ms }
}

impl EpdOptions {
    /// The depth that the search of one position goes to at most.
    pub open spec fn cap(self) -> int {
        if 0 < self.depth < MAX_DEPTH {
            self.depth as int
        } else {
            MAX_DEPTH as int
        }
    }
}

/// The limits of the search of one position: a fixed depth, or a time if the
/// depth is 0, and nothing else.
pub open spec fn limits_agree(o: EpdOptions, l: SearchLimits) -> bool {
    &&& l.depth == (if o.depth == 0 {
        None::<u32>
    } else {
        Some(o.depth)
    })
    &&& l.movetime == (if o.depth == 0 {
        Some(o.time_ms)
    } else {
        None::<u64>
    })
    &&& l.wtime is None && l.btime is None && l.winc is None && l.binc is None
    &&& l.movestogo is None && l.nodes is None && !l.infinite && !l.ponder
    &&& l.excluded_root_moves@.len() == 0
}

/// The limits of the search of one position: a fixed depth, or a time if the
/// depth is 0.
pub fn limits_for(o: &EpdOptions) -> (r: SearchLimits)
    ensures
        limits_agree(*o, r),
{
    let mut l = SearchLimits::default();
    if o.depth == 0 {
        l.movetime = Some(o.time_ms);
    } else {
        l.depth = Some(o.depth);
    }
    l
}

/// Why a position was left out.
pub enum Skipped {
    /// The position cannot be read.
    BadFen(FenError),
    /// No game can go on from the position.
    Unplayable,
}

/// The engine's answer to a position: the move, and the verdict.
pub struct Answer {
    pub found: Option<Move>,
    pub pass: Option<bool>,
}

/// The text of a move, or nothing if there is none.
pub open spec fn move_text(m: Option<Move>) -> Seq<char> {
    match m {
        Some(mv) => mv.uci(),
        None => Seq::empty(),
    }
}

/// A position can be searched.
pub open spec fn can_search(p: Pos) -> bool {
    valid(p)
}

/// A move was found by a search of the position in a new generation of the table,
/// within the limits that the settings give, and the search left the table
/// `after`. A search to a fixed depth comes to its end, unless the flag was found
/// set.
pub open spec fn searched(
    before: TableState,
    after: TableState,
    p: Pos,
    o: EpdOptions,
    stop: Arc<AtomicBool>,
    found: Option<Move>,
) -> bool {
    let su = plain_setup(before.next_generation(), p, Seq::empty());
    exists|
        l: SearchLimits,
        done: Seq<SearchInfo>,
        end: Searcher<HandcraftedEvaluator>,
        res: SearchResult,
    |
        {
            &&& #[trigger] deepened_to(su, l, Some(stop), done, end, after, res)
            &&& limits_agree(o, l)
            &&& o.depth > 0 ==> if end.stopped {
                read_as(stop, true)
            } else {
                done.len() == last_depth(su, o.cap(), 0)
            }
            &&& found == res.best_move
        }
}

/// Search one position and judge the move that was found.
///
/// The search goes to the depth that is asked for; with a time in its place, it
/// goes as far as the machine does in that time. The table is carried on to the
/// next position; a position that is left out does not change it.
pub fn solve(pos: &EpdPosition, o: &EpdOptions, stop: Arc<AtomicBool>, tt: &mut TranspositionTable)
    -> (r: Result<Answer, Skipped>)
    requires
        old(tt).wf(),
    ensures
        final(tt).wf(),
        r is Err ==> final(tt)@ == old(tt)@,
        match parse_fen(pos.fen@) {
            Err(e) => r matches Err(Skipped::BadFen(f)) && f@ == e,
            Ok(p) => if can_search(p) {
                &&& r is Ok
                &&& r->Ok_0.found matches Some(m) ==> legal(p).contains(m)
                &&& legal(p).len() == 0 ==> r->Ok_0.found is None
                &&& legal(p).len() > 0 ==> r->Ok_0.found is Some
                &&& searched(old(tt)@, final(tt)@, p, *o, stop, r->Ok_0.found)
                &&& r->Ok_0.pass == verdict(
                    p,
                    move_text(r->Ok_0.found),
                    texts(pos.best_moves@),
                    texts(pos.avoid_moves@),
                )
            } else {
                r matches Err(Skipped::Unplayable)
            },
        },
{
    let mut board = match Board::from_fen(pos.fen.as_str()) {
        Ok(b) => b,
        Err(e) => {
            return Err(Skipped::BadFen(e));
        },
    };
    if !board.is_valid() {
        return Err(Skipped::Unplayable);
    }
    let limits = limits_for(o);
    tt.new_generation();
    let none: Vec<u64> = Vec::new();
    let mut infos: Vec<SearchInfo> = Vec::new();
    let result = think(
        &mut board,
        &limits,
        stop,
        tt,
        &none,
        None,
        &SearchParams::default(),
        &TbState::default(),
        &mut infos,
    );
    proof {
        let su = plain_setup(old(tt)@.next_generation(), board@, Seq::empty());
        assert(none@ =~= Seq::<u64>::empty());
        assert(limits.excluded_root_moves@ =~= Seq::<Move>::empty());
        let (sc, end) = choose|sc: Script, end: Searcher<HandcraftedEvaluator>| #[trigger]
            deepened_to(
                Setup { oracle: oracle_of(TbState { tables: None, piece_limit: 6 }, sc), ..su },
                limits,
                Some(stop),
                infos@.skip(0),
                end,
                tt@,
                result,
            ) && sc == Script::empty();
        assert(oracle_of(TbState { tables: None, piece_limit: 6 }, sc) == no_oracle());
        assert(deepened_to(su, limits, Some(stop), infos@.skip(0), end, tt@, result));
        if o.depth > 0 {
            law_no_clock(su, limits, Some(stop), infos@.skip(0), end, tt@, result);
        }
        if legal(board@).len() > 0 {
            assert(legal(board@).contains(legal(board@)[0]));
        }
        law_valid_moves_playable(board@);
    }
    let found = match result.best_move {
        Some(m) => m.to_uci(),
        None => String::new(),
    };
    proof {
        assert(found@ =~= move_text(result.best_move));
    }
    let pass = evaluate_result(
        found.as_str(),
        pos.best_moves.as_slice(),
        pos.avoid_moves.as_slice(),
        &board,
    );
    Ok(Answer { found: result.best_move, pass })
}

/// How many positions had constraints, and how many of them were solved.
pub struct EpdTally {
    pub tested: usize,
    pub solved: usize,
}

/// The number of verdicts among the first `n` results.
pub open spec fn tested_in(s: Seq<Option<bool>>, n: int) -> int
    decreases n,
{
    if n <= 0 {
        0
    } else {
        tested_in(s, n - 1) + (if s[n - 1] is Some {
            1int
        } else {
            0
        })
    }
}

/// The number of solved positions among the first `n` results.
pub open spec fn solved_in(s: Seq<Option<bool>>, n: int) -> int
    decreases n,
{
    if n <= 0 {
        0
    } else {
        solved_in(s, n - 1) + (if s[n - 1] == Some(true) {
            1int
        } else {
            0
        })
    }
}

/// Count the results.
pub fn tally(results: &Vec<Option<bool>>) -> (r: EpdTally)
    ensures
        r.tested == tested_in(results@, results@.len() as int),
        r.solved == solved_in(results@, results@.len() as int),
        r.solved <= r.tested <= results@.len(),
{
    let mut t = EpdTally { tested: 0, solved: 0 };
    let mut i: usize = 0;
    while i < results.len()
        invariant
            i <= results@.len(),
            t.solved <= t.tested <= i,
            t.tested == tested_in(results@, i as int),
            t.solved == solved_in(results@, i as int),
        decreases results@.len() - i,
    {
        match results[i] {
            Some(pass) => {
                t.tested = t.tested + 1;
                if pass {
                    t.solved = t.solved + 1;
                }
            },
            None => {},
        }
        i += 1;
    }
    t
}

} // verus!
