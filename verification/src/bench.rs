//! Built-in benchmarking suite.
//!
//! * [`run_bench`] searches a fixed set of positions to a fixed depth. The total
//!   node count depends on the search alone, so it can be compared between
//!   versions.
//! * [`run_tactical`] counts the positions of a tactical suite whose expected
//!   move is found.

use crate::board::fen::{parse_fen, start_position};
use crate::board::Board;
use crate::epd::run::can_search;
use crate::eval::score::tdiv;
use crate::movegen::legal::{law_divide_adds_up, legal, lemma_wrapped_add, perft_count, wrapped};
use crate::movegen::moves::Move;
use crate::movegen::start::law_start_valid;
use crate::search::clock::{measured, ms_since, read_clock, started};
use crate::search::ordering::magnitude;
use crate::search::root::{fixed_depth, search_sized};
use crate::search::{is_mate_score, mate_distance_plies, mate_score, MATE};
use crate::text::{
    chars_of, digit_char, digits, number_chars, push_chars, same_text, signed_chars, signed_text,
    string_of,
};
use std::time::Instant;
use vstd::prelude::*;

verus! {

/// Positions from opening, middlegame and endgame. The set is stable, so that
/// node counts remain comparable.
pub const BENCH_POSITIONS: [&'static str; 15] = [
    "rnbqkbnr/pppppppp/8/8/8/8/PPPPPPPP/RNBQKBNR w KQkq - 0 1",
    "r1bqk2r/pppp1ppp/2n2n2/2b1p3/2B1P3/2N2N2/PPPP1PPP/R1BQK2R w KQkq - 4 5",
    "rnbqkb1r/1p2pppp/p2p1n2/8/3NP3/2N5/PPP2PPP/R1BQKB1R w KQkq - 0 6",
    "rnbqkb1r/pp3ppp/4pn2/2pp4/3PP3/2N5/PPP2PPP/R1BQKBNR w KQkq d6 0 5",
    "rnbq1rk1/ppp1ppbp/3p1np1/8/2PPP3/2N2N2/PP2BPPP/R1BQK2R w KQ - 0 7",
    "r1bq1rk1/ppp2ppp/2n1pn2/3p4/1bBP4/2N1PN2/PPQ2PPP/R1B2RK1 w - - 0 10",
    "8/r2k4/8/p7/P7/8/4K1R1/8 w - - 0 1",
    "8/8/1Q6/5k2/4p3/8/4K3/8 w - - 0 1",
    "8/5k2/4bn2/8/8/4BK2/8/8 w - - 0 1",
    "r2q1rk1/1pp2ppp/p2p1n2/2b1p3/4P1b1/1BPP1N2/PP3PPP/R1BQ1RK1 b - - 0 10",
    "r4rk1/ppp1qppp/2np1n2/2b1p3/4P1b1/2PP1N2/PPBNQPPP/R4RK1 b - - 0 1",
    "8/8/4k3/4p3/4P3/4K3/8/4R3 w - - 0 1",
    "8/1k6/1p6/1Pp5/2P5/8/6K1/8 w - - 0 1",
    "8/5k2/4b3/8/3B4/4K3/8/8 w - - 0 1",
    "r3k2r/p1ppqpb1/bn2pnp1/3PN3/1p2P3/2N2Q1p/PPPBBPPP/R3K2R w KQkq - 0 1",
];

/// Tactical positions: the position, the expected move (empty if every legal
/// move will do) and a description.
pub const TACTICAL_SUITE: [(&'static str, &'static str, &'static str); 11] = [
    ("r1bqkb1r/pppp1ppp/2n2n2/4p2Q/2B1P3/8/PPPP1PPP/RNB1K1NR w KQkq - 4 4", "h5f7", "Scholar's mate: Qxf7#"),
    ("6k1/5ppp/8/8/8/8/5PPP/4R1K1 w - - 0 1", "e1e8", "Back-rank mate: Re8#"),
    ("r5rk/5Rpp/p4R2/8/8/8/PPP3PP/6K1 w - - 0 1", "f7h7", "Double-rook mate: Rxh7#"),
    ("7k/8/8/8/8/8/8/R3K2R w KQ - 0 1", "a1a8", "Rook to back rank, mate next"),
    ("7k/6R1/6K1/8/8/8/8/8 w - - 0 1", "g7g8", "Rg8# immediate checkmate"),
    ("7k/8/6K1/8/8/8/8/Q7 w - - 0 1", "a1a8", "Driving mate: Qa8+ Kh7 Qa7+ Kh8 (any queen move mates)"),
    ("4k3/8/8/8/8/8/8/R3K2R w KQ - 0 1", "a1a8", "Rook to 8th rank — forces mate in 3"),
    ("3q1k2/8/8/8/8/8/8/3Q2K1 w - - 0 1", "d1d8", "Trade queens (hanging): Qxd8+"),
    ("rnb1kbnr/pppp1ppp/8/4p3/5PP1/8/PPPPP2P/RNBQKBNR b KQkq - 0 3", "e5f4", "Capture pawn: exf4 wins material (f4 is undefended)"),
    ("7k/8/8/3p4/4P3/8/8/7K w - - 0 1", "e4d5", "Pawn captures hanging pawn: exd5"),
    ("rnbqkbnr/pp2pppp/2p5/3p4/4P3/8/PPPP1PPP/RNBQKBNR w KQkq - 0 3", "", "Caro-Kann: engine should not immediately lose material"),
];

/// The number of nodes per second, as far as it fits in 64 bits.
pub open spec fn rate(nodes: int, ms: int) -> int {
    if ms == 0 {
        0
    } else if nodes * 1000 / ms <= u64::MAX {
        nodes * 1000 / ms
    } else {
        u64::MAX as int
    }
}

/// The number of nodes per second.
fn per_second(nodes: u64, ms: u64) -> (r: u64)
    ensures
        r == rate(nodes as int, ms as int),
{
    if ms == 0 {
        return 0;
    }
    let n: u128 = nodes as u128 * 1000 / ms as u128;
    if n <= 0xffff_ffff_ffff_ffff {
        n as u64
    } else {
        0xffff_ffff_ffff_ffff
    }
}

/// One searched position.
pub struct BenchLine {
    pub score: i32,
    pub nodes: u64,
    pub best_move: Option<Move>,
}

/// Summary of a full bench run across all standard positions.
pub struct BenchResult {
    pub depth: u32,
    pub total_nodes: u64,
    pub elapsed_ms: u64,
    /// The positions, in order; `None` where no search is possible.
    pub lines: Vec<Option<BenchLine>>,
}

impl BenchResult {
    /// Nodes per second.
    pub fn nps(&self) -> (r: u64)
        ensures
            r == rate(self.total_nodes as int, self.elapsed_ms as int),
    {
        per_second(self.total_nodes, self.elapsed_ms)
    }
}

/// So many milliseconds were measured from a reading of the clock.
pub open spec fn took(ms: u64) -> bool {
    exists|start: Instant| #[trigger] started(start) && measured(start, ms)
}

/// The number, but 1 where it is less.
pub open spec fn at_least_one(n: int) -> int {
    if n >= 1 {
        n
    } else {
        1
    }
}

/// A line holds what the fixed-depth search of the position finds; there is
/// none if the position cannot be read or played from.
#[verifier::opaque]
pub open spec fn line_of(
    fen: Seq<char>,
    depth: int,
    mb: int,
    line: Option<BenchLine>,
) -> bool {
    match parse_fen(fen) {
        Err(_) => line is None,
        Ok(p) => if can_search(p) {
            let found = fixed_depth(p, at_least_one(depth), mb);
            line matches Some(l) && l.best_move == found.0 && l.score == found.1 && l.nodes
                == found.2.nodes && (l.best_move matches Some(m) ==> legal(p).contains(m))
        } else {
            line is None
        },
    }
}

/// Search a position to a fixed depth.
fn search_line(fen: &str, depth: u32, mb: usize) -> (r: Option<BenchLine>)
    requires
        depth <= 0x7000_0000,
        mb * 1_048_576 <= usize::MAX,
    ensures
        line_of(fen@, depth as int, mb as int, r),
{
    proof {
        reveal(line_of);
    }
    let mut board = match Board::from_fen(fen) {
        Ok(b) => b,
        Err(_) => {
            return None;
        },
    };
    if !board.is_valid() {
        return None;
    }
    let result = search_sized(&mut board, depth, mb);
    Some(BenchLine { score: result.score, nodes: result.nodes, best_move: result.best_move })
}

/// The nodes of the first `n` lines.
pub open spec fn line_nodes(lines: Seq<Option<BenchLine>>, n: int) -> nat
    decreases n,
{
    if n <= 0 {
        0
    } else {
        line_nodes(lines, n - 1) + (match lines[n - 1] {
            Some(l) => l.nodes as nat,
            None => 0,
        })
    }
}

/// Search all standard positions at `depth`, each with an empty table of
/// `hash_mb` megabytes.
pub fn run_bench(depth: u32, hash_mb: usize) -> (r: BenchResult)
    requires
        depth <= 0x7000_0000,
        hash_mb * 1_048_576 <= usize::MAX,
    ensures
        r.depth == depth,
        r.lines@.len() == BENCH_POSITIONS@.len(),
        forall|i: int|
            0 <= i < r.lines@.len() ==> line_of(
                BENCH_POSITIONS[i]@,
                depth as int,
                hash_mb as int,
                #[trigger] r.lines@[i],
            ),
        r.total_nodes == wrapped(line_nodes(r.lines@, r.lines@.len() as int)),
        took(r.elapsed_ms),
{
    let start = read_clock();
    let mut total_nodes: u64 = 0;
    let mut lines: Vec<Option<BenchLine>> = Vec::new();
    let mut i: usize = 0;
    while i < BENCH_POSITIONS.len()
        invariant
            i <= BENCH_POSITIONS@.len(),
            depth <= 0x7000_0000,
            hash_mb * 1_048_576 <= usize::MAX,
            lines@.len() == i,
            forall|k: int|
                0 <= k < i ==> line_of(
                    BENCH_POSITIONS[k]@,
                    depth as int,
                    hash_mb as int,
                    #[trigger] lines@[k],
                ),
            total_nodes == wrapped(line_nodes(lines@, i as int)),
        decreases BENCH_POSITIONS@.len() - i,
    {
        let ghost before = lines@;
        let line = search_line(BENCH_POSITIONS[i], depth, hash_mb);
        let nodes: u64 = match &line {
            Some(l) => l.nodes,
            None => 0,
        };
        total_nodes = total_nodes.wrapping_add(nodes);
        lines.push(line);
        proof {
            lemma_line_nodes(before, lines@, i as int);
            lemma_wrapped_add(line_nodes(lines@, i as int), nodes as nat);
        }
        i += 1;
    }
    let elapsed_ms: u64 = ms_since(&start);
    proof {
        assert(started(start) && measured(start, elapsed_ms));
    }
    BenchResult { depth, total_nodes, elapsed_ms, lines }
}

proof fn lemma_line_nodes(a: Seq<Option<BenchLine>>, b: Seq<Option<BenchLine>>, n: int)
    requires
        0 <= n <= a.len(),
        n <= b.len(),
        forall|i: int| 0 <= i < n ==> a[i] == b[i],
    ensures
        line_nodes(a, n) == line_nodes(b, n),
    decreases n,
{
    if n > 0 {
        lemma_line_nodes(a, b, n - 1);
    }
}

/// Summary of a tactical test-suite run.
pub struct TacticalResult {
    pub solved: usize,
    pub total: usize,
    pub elapsed_ms: u64,
    /// The positions, in order; `None` where no search is possible.
    pub lines: Vec<Option<BenchLine>>,
}

/// The expected move was found; if none is expected, any move will do.
pub open spec fn solves(expected: Seq<char>, line: Option<BenchLine>) -> bool {
    line matches Some(l) && l.best_move matches Some(m) && (expected.len() == 0 || m.uci()
        == expected)
}

/// The number of solved positions among the first `n`.
pub open spec fn solved_lines(lines: Seq<Option<BenchLine>>, n: int) -> int
    decreases n,
{
    if n <= 0 {
        0
    } else {
        solved_lines(lines, n - 1) + (if solves(TACTICAL_SUITE[n - 1].1@, lines[n - 1]) {
            1int
        } else {
            0
        })
    }
}

proof fn lemma_solved_lines(a: Seq<Option<BenchLine>>, b: Seq<Option<BenchLine>>, n: int)
    requires
        0 <= n <= a.len(),
        n <= b.len(),
        forall|i: int| 0 <= i < n ==> a[i] == b[i],
    ensures
        solved_lines(a, n) == solved_lines(b, n),
    decreases n,
{
    if n > 0 {
        lemma_solved_lines(a, b, n - 1);
    }
}

/// True if the expected move was found; if none is expected, any move will do.
pub fn is_solved(expected: &str, line: &Option<BenchLine>) -> (r: bool)
    ensures
        r == solves(expected@, *line),
{
    match line {
        Some(l) => match l.best_move {
            Some(m) => {
                let wanted = chars_of(expected);
                wanted.len() == 0 || same_text(&m.uci_chars(), &wanted)
            },
            None => false,
        },
        None => false,
    }
}

/// Run the tactical test suite, searching each position to `max_depth`.
pub fn run_tactical(max_depth: u32) -> (r: TacticalResult)
    requires
        max_depth <= 0x7000_0000,
    ensures
        r.total == TACTICAL_SUITE@.len(),
        r.lines@.len() == TACTICAL_SUITE@.len(),
        forall|i: int|
            0 <= i < r.lines@.len() ==> line_of(
                TACTICAL_SUITE[i].0@,
                max_depth as int,
                8,
                #[trigger] r.lines@[i],
            ),
        r.solved == solved_lines(r.lines@, r.lines@.len() as int),
        took(r.elapsed_ms),
{
    let start = read_clock();
    let mut solved: usize = 0;
    let mut lines: Vec<Option<BenchLine>> = Vec::new();
    let mut i: usize = 0;
    while i < TACTICAL_SUITE.len()
        invariant
            i <= TACTICAL_SUITE@.len(),
            max_depth <= 0x7000_0000,
            lines@.len() == i,
            forall|k: int|
                0 <= k < i ==> line_of(
                    TACTICAL_SUITE[k].0@,
                    max_depth as int,
                    8,
                    #[trigger] lines@[k],
                ),
            solved <= i,
            solved == solved_lines(lines@, i as int),
        decreases TACTICAL_SUITE@.len() - i,
    {
        let ghost before = lines@;
        let line = search_line(TACTICAL_SUITE[i].0, max_depth, 8);
        if is_solved(TACTICAL_SUITE[i].1, &line) {
            solved += 1;
        }
        lines.push(line);
        proof {
            lemma_solved_lines(before, lines@, i as int);
        }
        i += 1;
    }
    let elapsed_ms: u64 = ms_since(&start);
    proof {
        assert(started(start) && measured(start, elapsed_ms));
    }
    TacticalResult { solved, total: TACTICAL_SUITE.len(), elapsed_ms, lines }
}

/// Quick speed measurement: depth-5 perft from the starting position, in nodes
/// per second. A time below a millisecond counts as one.
pub fn measure_nps() -> (r: u64)
    ensures
        exists|ms: u64| #[trigger]
            took(ms) && r == rate(
                wrapped(perft_count(start_position(), 5)) as int,
                at_least_one(ms as int),
            ),
{
    let mut board = Board::starting_position();
    proof {
        law_start_valid();
        law_divide_adds_up(start_position(), 5);
    }
    let start = read_clock();
    let (nodes, _) = board.perft_divide(5);
    let elapsed: u64 = ms_since(&start);
    proof {
        assert(started(start) && measured(start, elapsed));
        assert(took(elapsed));
    }
    let ms: u64 = if elapsed >= 1 {
        elapsed
    } else {
        1
    };
    per_second(nodes, ms)
}

/// The last three digits of a number.
pub open spec fn three_digits(n: int) -> Seq<char> {
    seq![digit_char((n / 100) % 10), digit_char((n / 10) % 10), digit_char(n % 10)]
}

/// A number with commas between groups of three digits.
pub open spec fn grouped(n: int) -> Seq<char>
    decreases n,
{
    if n < 1000 {
        digits(n)
    } else {
        grouped(n / 1000) + seq![','] + three_digits(n % 1000)
    }
}

fn grouped_chars(n: u64) -> (r: Vec<char>)
    ensures
        r@ == grouped(n as int),
    decreases n,
{
    if n < 1000 {
        return number_chars(n);
    }
    let mut out = grouped_chars(n / 1000);
    let rest: u64 = n % 1000;
    out.push(',');
    out.push(digit_of((rest / 100) % 10));
    out.push(digit_of((rest / 10) % 10));
    out.push(digit_of(rest % 10));
    proof {
        assert(out@ =~= grouped(n as int / 1000) + seq![','] + three_digits(n as int % 1000));
    }
    out
}

fn digit_of(d: u64) -> (r: char)
    requires
        d < 10,
    ensures
        r == digit_char(d as int),
{
    let c = number_chars(d);
    c[0]
}

/// A node count with commas: `4,581,234`.
pub fn fmt_nodes(n: u64) -> (r: String)
    ensures
        r@ == grouped(n as int),
{
    string_of(&grouped_chars(n))
}

/// A score as text: moves to mate, signed for who is winning, or centipawns.
pub open spec fn score_text(score: int) -> Seq<char> {
    if mate_score(score) {
        let moves = tdiv(MATE - magnitude(score) + 1, 2);
        seq!['m', 'a', 't', 'e', ' '] + signed_text(
            if score > 0 {
                moves
            } else {
                -moves
            },
        )
    } else {
        seq!['c', 'p', ' '] + signed_text(score)
    }
}

/// A score as text: `mate 3`, `mate -2` or `cp 35`.
pub fn fmt_score(score: i32) -> (r: String)
    requires
        score > i32::MIN,
    ensures
        r@ == score_text(score as int),
{
    proof {
        reveal_strlit("mate ");
        reveal_strlit("cp ");
    }
    let mut out = String::new();
    if is_mate_score(score) {
        let plies: i32 = mate_distance_plies(score);
        let moves: i32 = (plies + 1) / 2;
        push_chars(&mut out, &chars_of("mate "));
        push_chars(
            &mut out,
            &signed_chars(
                if score > 0 {
                    moves as i64
                } else {
                    -(moves as i64)
                },
            ),
        );
        proof {
            assert(out@ =~= score_text(score as int));
        }
    } else {
        push_chars(&mut out, &chars_of("cp "));
        push_chars(&mut out, &signed_chars(score as i64));
        proof {
            assert(out@ =~= score_text(score as int));
        }
    }
    out
}

/// The nodes per second: the largest number that does not take longer, unless it does not
/// fit or no time has passed.
pub proof fn law_rate(nodes: int, ms: int)
    requires
        0 <= nodes,
        0 < ms,
    ensures
        rate(nodes, ms) < u64::MAX ==> rate(nodes, ms) * ms <= 1000 * nodes < (rate(nodes, ms) + 1)
            * ms,
        rate(nodes, 0) == 0,
{
    let n = 1000 * nodes;
    assert(n / ms * ms <= n < (n / ms + 1) * ms) by (nonlinear_arith)
        requires
            ms > 0,
            n >= 0,
    ;
}

/// The characters but the commas.
pub open spec fn uncomma(s: Seq<char>) -> Seq<char> {
    s.filter(|c: char| c != ',')
}

proof fn lemma_uncomma(a: Seq<char>, c: char)
    ensures
        uncomma(a.push(c)) == (if c == ',' {
            uncomma(a)
        } else {
            uncomma(a).push(c)
        }),
{
    reveal(Seq::filter);
    assert(a.push(c).drop_last() =~= a);
}

proof fn lemma_no_comma(n: int)
    requires
        n >= 0,
    ensures
        uncomma(digits(n)) == digits(n),
        n < 1000 ==> digits(n).len() <= 3,
    decreases n,
{
    reveal(Seq::filter);
    reveal_with_fuel(digits, 4);
    if n >= 10 {
        lemma_no_comma(n / 10);
        lemma_uncomma(digits(n / 10), digit_char(n % 10));
    } else {
        lemma_uncomma(Seq::empty(), digit_char(n));
        assert(seq![digit_char(n)] =~= Seq::<char>::empty().push(digit_char(n)));
    }
}

proof fn lemma_groups(n: int)
    requires
        n >= 1000,
    ensures
        ({
            let g = grouped(n / 1000);
            let (a, b, c) = (digit_char(n / 100 % 10), digit_char(n / 10 % 10), digit_char(n % 10));
            &&& grouped(n) == g.push(',').push(a).push(b).push(c)
            &&& digits(n) == digits(n / 1000).push(a).push(b).push(c)
        }),
{
    let g = grouped(n / 1000);
    let r = n % 1000;
    assert((r / 100) % 10 == n / 100 % 10 && (r / 10) % 10 == n / 10 % 10 && r % 10 == n % 10);
    let (a, b, c) = (digit_char(n / 100 % 10), digit_char(n / 10 % 10), digit_char(n % 10));
    assert(three_digits(r) == seq![a, b, c]);
    assert(grouped(n) == g + seq![','] + three_digits(r));
    assert(grouped(n) =~= g.push(',').push(a).push(b).push(c));
    assert(n / 10 / 10 == n / 100 && n / 100 / 10 == n / 1000);
    assert(digits(n) == digits(n / 10).push(c));
    assert(digits(n / 10) == digits(n / 100).push(b));
    assert(digits(n / 100) == digits(n / 1000).push(a));
}

proof fn lemma_grouped_digits(n: int)
    requires
        n >= 0,
    ensures
        uncomma(grouped(n)) == digits(n),
        grouped(n).len() > 0,
        n < 1000 ==> grouped(n).len() <= 3,
    decreases n,
{
    lemma_no_comma(n);
    if n >= 1000 {
        lemma_groups(n);
        lemma_grouped_digits(n / 1000);
        let g = grouped(n / 1000);
        let (a, b, c) = (digit_char(n / 100 % 10), digit_char(n / 10 % 10), digit_char(n % 10));
        lemma_uncomma(g, ',');
        lemma_uncomma(g.push(','), a);
        lemma_uncomma(g.push(',').push(a), b);
        lemma_uncomma(g.push(',').push(a).push(b), c);
    }
}

/// A number with commas is the number in digits but for the commas, and there is one
/// before every third digit from the end.
pub proof fn law_grouped(n: int, k: int)
    requires
        n >= 0,
    ensures
        uncomma(grouped(n)) == digits(n),
        0 < 4 * k < grouped(n).len() ==> grouped(n)[grouped(n).len() - 4 * k] == ',',
    decreases n,
{
    lemma_grouped_digits(n);
    if n >= 1000 && 0 < 4 * k < grouped(n).len() {
        lemma_groups(n);
        let g = grouped(n / 1000);
        if k > 1 {
            law_grouped(n / 1000, k - 1);
            assert(grouped(n)[grouped(n).len() - 4 * k] == g[g.len() - 4 * (k - 1)]);
        }
    }
}

/// A mate is told in moves, negative for the side that is mated: one that is given in `n`
/// moves, and one that is suffered in `n` moves of the other side.
pub proof fn law_mate_texts(n: int)
    requires
        1 <= n <= 400,
    ensures
        score_text(MATE - (2 * n - 1)) == seq!['m', 'a', 't', 'e', ' '] + digits(n),
        score_text(-(MATE - 2 * n)) == seq!['m', 'a', 't', 'e', ' ', '-'] + digits(n),
{
    assert(seq!['m', 'a', 't', 'e', ' '] + (seq!['-'] + digits(n)) =~= seq![
        'm',
        'a',
        't',
        'e',
        ' ',
        '-',
    ] + digits(n));
}

/// A line is solved by the expected move alone, or by any move if none is expected, and never
/// without a move. The count of solved lines goes up by one with each of them, and the nodes
/// by those of the line.
pub proof fn law_solved_lines(
    expected: Seq<char>,
    line: Option<BenchLine>,
    lines: Seq<Option<BenchLine>>,
    n: int,
)
    requires
        0 <= n < lines.len(),
    ensures
        line is None ==> !solves(expected, line),
        line matches Some(l) ==> (l.best_move is None ==> !solves(expected, line)) && (
        l.best_move matches Some(m) ==> (solves(expected, line) <==> expected.len() == 0 || m.uci()
            == expected)),
        solved_lines(lines, 0) == 0,
        solved_lines(lines, n + 1) - solved_lines(lines, n) == (if solves(
            TACTICAL_SUITE[n].1@,
            lines[n],
        ) {
            1int
        } else {
            0
        }),
        line_nodes(lines, 0) == 0,
        lines[n] matches Some(l) ==> line_nodes(lines, n + 1) == line_nodes(lines, n) + l.nodes,
        lines[n] is None ==> line_nodes(lines, n + 1) == line_nodes(lines, n),
{
}

} // verus!
