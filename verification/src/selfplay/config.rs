//! How a match is played: time control, openings and limits.

use crate::epd::{epd_line, parse_line};
use crate::search::limits::SearchLimits;
use crate::selfplay::opening;
use crate::selfplay::opening::{opening_at, OPENINGS};
use crate::text::texts;
use vstd::prelude::*;

verus! {

/// How long each side may think per half-move.
#[derive(Clone, Copy, Debug, PartialEq, Eq, Structural)]
pub enum TimeControl {
    /// Fixed search depth.
    FixedDepth(u32),
    /// Fixed thinking time in milliseconds per move.
    MoveTime(u64),
}

impl Default for TimeControl {
    /// Depth 5.
    fn default() -> (r: TimeControl)
        ensures
            r == TimeControl::FixedDepth(5),
    {
        TimeControl::FixedDepth(5)
    }
}

/// The limits are those of the time control and no others.
pub open spec fn limits_match(tc: TimeControl, l: SearchLimits) -> bool {
    &&& match tc {
        TimeControl::FixedDepth(d) => l.depth == Some(d) && l.movetime is None,
        TimeControl::MoveTime(ms) => l.depth is None && l.movetime == Some(ms),
    }
    &&& l.wtime is None && l.btime is None && l.winc is None && l.binc is None
    &&& l.movestogo is None && l.nodes is None && !l.infinite && !l.ponder
    &&& l.excluded_root_moves@.len() == 0
}

/// The search limits of a time control.
pub fn tc_to_limits(tc: &TimeControl) -> (r: SearchLimits)
    ensures
        limits_match(*tc, r),
{
    let mut l = SearchLimits::default();
    match tc {
        TimeControl::FixedDepth(d) => {
            l.depth = Some(*d);
        },
        TimeControl::MoveTime(ms) => {
            l.movetime = Some(*ms);
        },
    }
    l
}

/// Where to draw opening positions from.
#[derive(Clone, Debug)]
pub enum OpeningSource {
    /// The built-in openings.
    Internal,
    /// Positions from an EPD file, as FEN.
    Epd(Vec<String>),
}

impl Default for OpeningSource {
    /// The built-in openings.
    fn default() -> (r: OpeningSource)
        ensures
            r is Internal,
    {
        OpeningSource::Internal
    }
}

/// The positions of the first `n` lines of an EPD file, as FEN.
pub open spec fn epd_fens(lines: Seq<Seq<char>>, n: int) -> Seq<Seq<char>>
    decreases n,
{
    if n <= 0 {
        Seq::empty()
    } else {
        match epd_line(lines[n - 1]) {
            None => epd_fens(lines, n - 1),
            Some(x) => epd_fens(lines, n - 1).push(x.0),
        }
    }
}

impl OpeningSource {
    /// The opening of game `i`.
    pub open spec fn at(&self, i: int) -> Seq<char> {
        match self {
            OpeningSource::Internal => opening_at(i),
            OpeningSource::Epd(fens) => if fens@.len() > 0 {
                fens@[i % fens@.len() as int]@
            } else {
                opening_at(i)
            },
        }
    }

    /// The number of openings.
    pub open spec fn count(&self) -> nat {
        match self {
            OpeningSource::Internal => OPENINGS@.len(),
            OpeningSource::Epd(fens) => fens@.len(),
        }
    }

    /// The opening of game `i` (wraps around). An empty list gives the built-in
    /// openings.
    pub fn pick(&self, i: usize) -> (r: &str)
        ensures
            r@ == self.at(i as int),
    {
        match self {
            OpeningSource::Internal => opening::pick(i),
            OpeningSource::Epd(fens) => {
                if fens.len() > 0 {
                    fens[i % fens.len()].as_str()
                } else {
                    opening::pick(i)
                }
            },
        }
    }

    /// The positions of the lines of an EPD file; the built-in openings if there
    /// are none.
    pub fn from_epd_lines(lines: &Vec<String>) -> (r: OpeningSource)
        ensures
            ({
                let fens = epd_fens(texts(lines@), lines@.len() as int);
                match r {
                    OpeningSource::Internal => fens.len() == 0,
                    OpeningSource::Epd(v) => fens.len() > 0 && texts(v@) == fens,
                }
            }),
    {
        let mut fens: Vec<String> = Vec::new();
        let mut i: usize = 0;
        proof {
            assert(texts(fens@) =~= Seq::empty());
        }
        while i < lines.len()
            invariant
                i <= lines@.len(),
                texts(fens@) == epd_fens(texts(lines@), i as int),
            decreases lines@.len() - i,
        {
            let ghost before = fens@;
            proof {
                assert(texts(lines@)[i as int] == lines@[i as int]@);
            }
            if let Some(e) = parse_line(lines[i].as_str()) {
                fens.push(e.fen);
                proof {
                    assert(texts(fens@) =~= texts(before).push(e.fen@));
                }
            }
            i += 1;
        }
        proof {
            assert(texts(fens@).len() == fens@.len());
        }
        if fens.len() == 0 {
            OpeningSource::Internal
        } else {
            OpeningSource::Epd(fens)
        }
    }

    /// The number of openings.
    pub fn len(&self) -> (r: usize)
        ensures
            r == self.count(),
    {
        match self {
            OpeningSource::Internal => OPENINGS.len(),
            OpeningSource::Epd(fens) => fens.len(),
        }
    }

    /// True if there is no opening.
    pub fn is_empty(&self) -> (r: bool)
        ensures
            r == (self.count() == 0),
    {
        self.len() == 0
    }
}

/// The openings of a source repeat in cycles.
pub proof fn law_source_cycles(s: OpeningSource, i: int)
    requires
        0 <= i,
        s.count() > 0,
    ensures
        s.at(i + s.count()) == s.at(i),
{
    match s {
        OpeningSource::Internal => {},
        OpeningSource::Epd(fens) => {
            let n = fens@.len() as int;
            assert((i + n) % n == i % n) by (nonlinear_arith)
                requires
                    n > 0,
                    i >= 0,
            ;
        },
    }
}

/// Configuration for a multi-game match.
pub struct MatchConfig {
    /// Total number of games to play.
    pub games: usize,
    /// Time or depth budget per half-move.
    pub tc: TimeControl,
    /// Opening source.
    pub openings: OpeningSource,
    /// Play each opening twice to reduce color bias.
    pub paired: bool,
    /// Centipawn score below which a position is considered drawish.
    pub adj_threshold: i32,
    /// Number of consecutive half-moves below `adj_threshold` before adjudication.
    pub adj_min_moves: usize,
    /// Hard cap on half-moves per game.
    pub max_moves: usize,
    /// A file to which one letter is appended for each game.
    pub save_file: Option<String>,
}

impl Default for MatchConfig {
    /// 20 games at depth 5 from the built-in openings.
    fn default() -> (r: MatchConfig)
        ensures
            r.games == 20,
            r.tc == TimeControl::FixedDepth(5),
            r.openings is Internal,
            !r.paired,
            r.adj_threshold == 10,
            r.adj_min_moves == 12,
            r.max_moves == 400,
            r.save_file is None,
    {
        MatchConfig {
            games: 20,
            tc: TimeControl::FixedDepth(5),
            openings: OpeningSource::Internal,
            paired: false,
            adj_threshold: 10,
            adj_min_moves: 12,
            max_moves: 400,
            save_file: None,
        }
    }
}

/// The openings of a source come in their order.
pub proof fn law_source_in_order(s: OpeningSource, i: int)
    requires
        0 <= i < s.count(),
    ensures
        s matches OpeningSource::Epd(fens) ==> s.at(i) == fens@[i]@,
        s is Internal ==> s.at(i) == OPENINGS[i]@,
{
    vstd::arithmetic::div_mod::lemma_small_mod(i as nat, s.count());
}

/// The openings of a file are those of its lines that say something, in their order.
pub proof fn law_file_openings(lines: Seq<Seq<char>>, n: int)
    requires
        0 <= n <= lines.len(),
    ensures
        epd_fens(lines, n) == lines.take(n).filter(
            |l: Seq<char>| epd_line(l) is Some,
        ).map_values(|l: Seq<char>| (epd_line(l)->0).0),
    decreases n,
{
    let q = |l: Seq<char>| epd_line(l) is Some;
    let f = |l: Seq<char>| (epd_line(l)->0).0;
    reveal(Seq::filter);
    if n > 0 {
        law_file_openings(lines, n - 1);
        assert(lines.take(n).drop_last() =~= lines.take(n - 1));
        assert(lines.take(n).last() == lines[n - 1]);
        assert(epd_fens(lines, n) =~= lines.take(n).filter(q).map_values(f));
    } else {
        assert(lines.take(0) =~= Seq::<Seq<char>>::empty());
        assert(epd_fens(lines, 0) =~= lines.take(0).filter(q).map_values(f));
    }
}

} // verus!
