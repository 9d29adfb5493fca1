//! Syzygy endgame tablebases.
//!
//! The tables know the result of every position with few pieces. They are read
//! from disk by the `shakmaty_syzygy` crate; this module decides when to ask
//! them and what their answers mean for the search.

use crate::board::bitboard::{law_one_more_square, lemma_pick_skip};
use crate::board::fen::fen_text;
use crate::board::{Board, Piece, Pos};
use crate::eval::evaluator::share;
use shakmaty::fen::Fen;
use shakmaty::{CastlingMode, Chess};
use shakmaty_syzygy::{MaybeRounded, Tablebase, Wdl};
use std::path::Path;
use std::str::FromStr;
use std::sync::Arc;
use vstd::prelude::*;

verus! {

/// A position of the `shakmaty` crate.
#[verifier::external_type_specification]
#[verifier::external_body]
pub struct ExChess(shakmaty::Chess);

/// A collection of tables of the `shakmaty_syzygy` crate. Which positions the
/// tables hold depends on the files on disk, so nothing is stated of it.
#[verifier::external_body]
pub struct Tables {
    inner: Tablebase<Chess>,
}

/// Win/Draw/Loss result from a tablebase probe.
///
/// The `Cursed` and `Blessed` variants represent positions that are wins or
/// losses in perfect play but are drawn under the 50-move rule before mate
/// can be forced.
#[derive(Clone, Copy, PartialEq, Eq, Debug, Structural)]
pub enum WdlScore {
    /// The side to move wins with correct play, well within the 50-move limit.
    Win,
    /// The side to move wins in theory, but the 50-move rule makes it a draw.
    CursedWin,
    /// The position is exactly drawn with best play.
    Draw,
    /// The side to move loses in theory, but the 50-move rule makes it a draw.
    BlessedLoss,
    /// The side to move loses with correct play.
    Loss,
}

impl WdlScore {
    /// The result counts as a draw.
    pub open spec fn drawn(self) -> bool {
        self != WdlScore::Win && self != WdlScore::Loss
    }

    /// The score for the search, relative to the side to move.
    pub open spec fn worth(self) -> int {
        match self {
            WdlScore::Win => 20_000,
            WdlScore::Loss => -20_000,
            _ => 0,
        }
    }

    /// True when the result should be treated as a draw (50-move-rule cursed wins/losses).
    pub fn is_effective_draw(self) -> (r: bool)
        ensures
            r == self.drawn(),
    {
        match self {
            WdlScore::Win => false,
            WdlScore::Loss => false,
            _ => true,
        }
    }

    /// Convert to a centipawn score for the search (relative to side to move).
    pub fn to_search_score(self) -> (r: i32)
        ensures
            r == self.worth(),
    {
        match self {
            WdlScore::Win => 20_000,
            WdlScore::CursedWin => 0,
            WdlScore::Draw => 0,
            WdlScore::BlessedLoss => 0,
            WdlScore::Loss => -20_000,
        }
    }
}

/// A result is scored 0 exactly when it counts as a draw.
pub proof fn law_draws_score_zero(w: WdlScore)
    ensures
        w.drawn() <==> w.worth() == 0,
{
}

/// Running count of successful tablebase probes.
pub struct TbHits(pub u64);

impl Default for TbHits {
    /// No probes.
    fn default() -> (r: TbHits)
        ensures
            r.0 == 0,
    {
        TbHits(0)
    }
}

impl TbHits {
    /// Count one more.
    pub fn increment(&mut self)
        requires
            old(self).0 < u64::MAX,
        ensures
            final(self).0 == old(self).0 + 1,
    {
        self.0 = self.0 + 1;
    }

    /// Start again from 0.
    pub fn reset(&mut self)
        ensures
            final(self).0 == 0,
    {
        self.0 = 0;
    }
}

/// The loaded tables, if any, and the largest piece count to ask them about.
pub struct TbState {
    pub tables: Option<Arc<Tables>>,
    pub piece_limit: u32,
}

impl TbState {
    /// The same tables with the same limit.
    pub fn share(&self) -> (r: TbState)
        ensures
            r == *self,
    {
        TbState {
            tables: match &self.tables {
                Some(t) => Some(share(t)),
                None => None,
            },
            piece_limit: self.piece_limit,
        }
    }
}

impl Default for TbState {
    /// No tables, and a limit of six pieces.
    fn default() -> (r: TbState)
        ensures
            r.tables is None,
            r.piece_limit == 6,
    {
        TbState { tables: None, piece_limit: 6 }
    }
}

/// `Tablebase::add_directory` adds the table files that it finds in a directory
/// and returns their number. Which files there are depends on the disk, so
/// nothing is stated of the number; an error counts as none.
#[verifier::external_body]
fn open_tables(path: &str) -> (r: (Tables, usize))
{
    let mut inner = Tablebase::<Chess>::new();
    let added = inner.add_directory(Path::new(path)).unwrap_or(0);
    (Tables { inner }, added)
}

/// Opening the tables at `path` gave these tables, made of so many files.
pub closed spec fn opened(path: &str, r: (Tables, usize)) -> bool {
    call_ensures(open_tables, (path,), r)
}

/// Open the tables with a function that does so.
fn open_with<F: Fn(&str) -> (Tables, usize)>(f: F, path: &str) -> (r: (Tables, usize))
    requires
        call_requires(f, (path,)),
    ensures
        call_ensures(f, (path,), r),
{
    f(path)
}

/// Use tables made of `added` files from now on; without files, none.
pub fn install(tb: &mut TbState, tables: Tables, added: usize) -> (r: usize)
    ensures
        r == added,
        final(tb).piece_limit == old(tb).piece_limit,
        added == 0 ==> final(tb).tables is None,
        added > 0 ==> final(tb).tables == Some(Arc::new(tables)),
{
    tb.tables =
    if added > 0 {
        Some(Arc::new(tables))
    } else {
        None
    };
    added
}

/// Load Syzygy tables from `path`.  Returns the number of files found.
///
/// An empty path, or one without table files, disables probing.
pub fn init(tb: &mut TbState, path: &str) -> (r: usize)
    ensures
        path@.len() == 0 ==> r == 0 && final(tb).tables is None,
        path@.len() > 0 ==> exists|tables: Tables|
            {
                &&& #[trigger] opened(path, (tables, r))
                &&& final(tb).tables == (if r > 0 {
                    Some(Arc::new(tables))
                } else {
                    None
                })
            },
        final(tb).piece_limit == old(tb).piece_limit,
{
    if crate::text::chars_of(path).len() == 0 {
        tb.tables = None;
        return 0;
    }
    let (tables, added) = open_with(open_tables, path);
    proof {
        assert(opened(path, (tables, added)));
    }
    install(tb, tables, added)
}

/// The limit that a number of pieces gives: the nearest one that tables are made for.
pub open spec fn limit_for(n: u32) -> u32 {
    if n < 3 {
        3
    } else if n > 7 {
        7
    } else {
        n
    }
}

/// A limit is never below 3 nor above 7; between them it is the number that is asked for, and
/// a larger number never gives a smaller limit.
pub proof fn law_piece_limits(m: u32, n: u32)
    ensures
        3 <= limit_for(n) <= 7,
        3 <= n <= 7 ==> limit_for(n) == n,
        m <= n ==> limit_for(m) <= limit_for(n),
{
}

/// Set the maximum piece count for which probing is attempted, held within
/// 3..=7.
pub fn set_piece_limit(tb: &mut TbState, n: u32)
    ensures
        final(tb).piece_limit == (if n < 3 {
            3
        } else if n > 7 {
            7
        } else {
            n
        }),
        final(tb).piece_limit == limit_for(n),
        final(tb).tables == old(tb).tables,
{
    tb.piece_limit =
    if n < 3 {
        3
    } else if n > 7 {
        7
    } else {
        n
    };
}

/// The current piece limit for probing.
pub fn piece_limit(tb: &TbState) -> (r: u32)
    ensures
        r == tb.piece_limit,
{
    tb.piece_limit
}

/// True if tablebase files have been loaded.
pub fn is_available(tb: &TbState) -> (r: bool)
    ensures
        r == (tb.tables is Some),
{
    tb.tables.is_some()
}

/// The position that the `shakmaty` crate makes of a FEN, if it accepts it as one
/// of standard chess.
pub uninterp spec fn standard_position(fen: Seq<char>) -> Option<Chess>;

/// `Fen::from_str` reads a FEN, and `Fen::into_position` sets up the position under
/// the rules of standard chess. Whether they accept it, and what they make of it,
/// depends on the text alone.
#[verifier::external_body]
fn parse_standard(fen: &str) -> (r: Option<Chess>)
    ensures
        r == standard_position(fen@),
{
    Fen::from_str(fen).ok()?.into_position(CastlingMode::Standard).ok()
}

/// `Tablebase::probe_wdl_after_zeroing` looks the position up in the tables on
/// disk. Nothing is stated of what it finds there; an error is `None`.
#[verifier::external_body]
fn wdl_of(tables: &Tables, pos: &Chess) -> (r: Option<WdlScore>)
{
    match tables.inner.probe_wdl_after_zeroing(pos) {
        Ok(Wdl::Win) => Some(WdlScore::Win),
        Ok(Wdl::CursedWin) => Some(WdlScore::CursedWin),
        Ok(Wdl::Draw) => Some(WdlScore::Draw),
        Ok(Wdl::BlessedLoss) => Some(WdlScore::BlessedLoss),
        Ok(Wdl::Loss) => Some(WdlScore::Loss),
        Err(_) => None,
    }
}

/// `Tablebase::probe_dtz` looks up the distance to the next capture or pawn
/// move in the tables on disk. Nothing is stated of what it finds there; an
/// error is `None`.
#[verifier::external_body]
fn dtz_of(tables: &Tables, pos: &Chess) -> (r: Option<i32>)
{
    match tables.inner.probe_dtz(pos) {
        Ok(MaybeRounded::Rounded(dtz)) => Some(dtz.0),
        Ok(MaybeRounded::Precise(dtz)) => Some(dtz.0),
        Err(_) => None,
    }
}

/// Convert a board to a `shakmaty` position by way of its FEN.
pub fn board_to_shakmaty(board: &Board) -> (r: Option<Chess>)
    ensures
        r == standard_position(fen_text(board@)),
{
    parse_standard(board.to_fen().as_str())
}

/// The tables gave this result when they were asked about the position.
pub closed spec fn wdl_answered(tables: Tables, pos: Chess, r: Option<WdlScore>) -> bool {
    call_ensures(wdl_of, (&tables, &pos), r)
}

/// The tables gave this distance when they were asked about the position.
pub closed spec fn dtz_answered(tables: Tables, pos: Chess, r: Option<i32>) -> bool {
    call_ensures(dtz_of, (&tables, &pos), r)
}

/// Ask the tables about a position with one of their functions.
fn consult<R, F: Fn(&Tables, &Chess) -> R>(f: F, tables: &Tables, pos: &Chess) -> (r: R)
    requires
        call_requires(f, (tables, pos)),
    ensures
        call_ensures(f, (tables, pos), r),
{
    f(tables, pos)
}

/// Probe the WDL tablebase for `board`.
///
/// The result is correct when the half-move clock is 0. It is `None` if no
/// tables are loaded, if the position is not one of standard chess, or if the
/// tables do not hold it.
pub fn probe_wdl(tb: &TbState, board: &Board) -> (r: Option<WdlScore>)
    ensures
        match (tb.tables, standard_position(fen_text(board@))) {
            (Some(tables), Some(pos)) => wdl_answered(*tables, pos, r),
            _ => r is None,
        },
{
    match &tb.tables {
        Some(tables) => match board_to_shakmaty(board) {
            Some(pos) => consult(wdl_of, tables, &pos),
            None => None,
        },
        None => None,
    }
}

/// Probe the DTZ tablebase for `board`.
///
/// The value is positive when the side to move wins, and `None` as with
/// [`probe_wdl`].
pub fn probe_dtz(tb: &TbState, board: &Board) -> (r: Option<i32>)
    ensures
        match (tb.tables, standard_position(fen_text(board@))) {
            (Some(tables), Some(pos)) => dtz_answered(*tables, pos, r),
            _ => r is None,
        },
{
    match &tb.tables {
        Some(tables) => match board_to_shakmaty(board) {
            Some(pos) => consult(dtz_of, tables, &pos),
            None => None,
        },
        None => None,
    }
}

/// The number of pieces on the board.
pub open spec fn pieces_on(p: Pos) -> int {
    crate::board::bitboard::pick(|i: int| p.occupied(i), 0).len() as int
}

/// Count the total number of pieces on the board (both colors).
pub fn piece_count(board: &Board) -> (r: u32)
    requires
        board.wf(),
    ensures
        r == pieces_on(board@),
        r <= 64,
{
    let all = board.occupancy();
    proof {
        crate::board::bitboard::lemma_list_is(all, |i: int| board@.occupied(i));
    }
    all.count()
}

/// The search asks the tables about a position: few enough pieces, and the
/// half-move clock at 0.
pub open spec fn few_enough(limit: int, p: Pos) -> bool {
    limit > 0 && p.halfmove == 0 && pieces_on(p) <= limit
}

/// The pieces on the board: none on an empty one, and one more with each piece that is put on
/// an empty square, of whichever color and kind.
pub proof fn law_piece_count(p: Pos, i: int, pc: Piece)
    requires
        p.squares.len() == 64,
        0 <= i < 64,
        p.squares[i] is None,
    ensures
        pieces_on(Pos { squares: p.squares.update(i, Some(pc)), ..p }) == pieces_on(p) + 1,
        (forall|k: int| 0 <= k < 64 ==> #[trigger] p.squares[k] is None) ==> pieces_on(p) == 0,
{
    let r = Pos { squares: p.squares.update(i, Some(pc)), ..p };
    let f = |k: int| p.occupied(k);
    let g = |k: int| r.occupied(k);
    assert forall|k: int| 0 <= k < 64 && k != i implies #[trigger] f(k) == g(k) by {}
    law_one_more_square(f, g, i, 0);
    if forall|k: int| 0 <= k < 64 ==> #[trigger] p.squares[k] is None {
        assert forall|k: int| 0 <= k < 64 implies !(#[trigger] f(k)) by {}
        lemma_pick_skip(f, 0, 64);
    }
}

} // verus!
