//! What holds of matches and games as a whole.

use crate::board::{position_key, Color, Pos};
use crate::epd::run::number_or;
use crate::movegen::generate::in_check;
use crate::movegen::legal::legal;
use crate::movegen::make_move::apply;
use crate::movegen::moves::Move;
use crate::search::tt::TableState;
use crate::selfplay::config::{MatchConfig, TimeControl};
use crate::selfplay::engine::{cap_of, ChessEngine};
use crate::selfplay::game::{
    asked, either_asked, hashes_before, occurrences, position_after, standing, streak_before,
    turn_of, Reply, Transcript, Turn,
};
use crate::selfplay::matches::{lines_with, saved_result, tallied, MatchProgress};
use crate::selfplay::options::{chosen_from, default_choice, Chosen};
use crate::selfplay::outcome::{AbortReason, DrawReason, GameOutcome, GameRecord, MatchResult};
use crate::text::{digits, trim, unsigned_value, CharClass};
use vstd::prelude::*;

verus! {

/// The outcomes of games.
pub open spec fn outcomes(rs: Seq<GameRecord>) -> Seq<GameOutcome> {
    rs.map_values(|r: GameRecord| r.outcome)
}

/// The number of outcomes of a kind.
pub open spec fn how_many(os: Seq<GameOutcome>, kind: spec_fn(GameOutcome) -> bool) -> nat {
    os.filter(kind).len()
}

proof fn lemma_filter_push(os: Seq<GameOutcome>, o: GameOutcome, kind: spec_fn(GameOutcome) -> bool)
    ensures
        how_many(os.push(o), kind) == how_many(os, kind) + (if kind(o) {
            1nat
        } else {
            0
        }),
{
    reveal(Seq::filter);
    assert(os.push(o).drop_last() =~= os);
}

/// Each count of a match is that of the games with its outcome: White's wins, draws
/// for any reason, Black's wins, and games that were aborted.
pub proof fn law_counts_of_a_match(first: MatchResult, rs: Seq<GameRecord>, n: int)
    requires
        0 <= n <= rs.len(),
        first.white_wins + first.draws + first.black_wins + first.aborts + n <= u64::MAX,
    ensures
        ({
            let r = tallied(first, rs, n);
            let os = outcomes(rs).take(n);
            &&& r.white_wins == first.white_wins + how_many(
                os,
                |o: GameOutcome| o == GameOutcome::WhiteWins,
            )
            &&& r.draws == first.draws + how_many(os, |o: GameOutcome| o is Draw)
            &&& r.black_wins == first.black_wins + how_many(
                os,
                |o: GameOutcome| o == GameOutcome::BlackWins,
            )
            &&& r.aborts == first.aborts + how_many(os, |o: GameOutcome| o is Aborted)
            &&& r.white_wins + r.draws + r.black_wins + r.aborts == first.white_wins + first.draws
                + first.black_wins + first.aborts + n
        }),
    decreases n,
{
    let w = |o: GameOutcome| o == GameOutcome::WhiteWins;
    let d = |o: GameOutcome| o is Draw;
    let b = |o: GameOutcome| o == GameOutcome::BlackWins;
    let a = |o: GameOutcome| o is Aborted;
    if n > 0 {
        law_counts_of_a_match(first, rs, n - 1);
        let os = outcomes(rs).take(n - 1);
        let o = rs[n - 1].outcome;
        assert(outcomes(rs).take(n) =~= os.push(o));
        lemma_filter_push(os, o, w);
        lemma_filter_push(os, o, d);
        lemma_filter_push(os, o, b);
        lemma_filter_push(os, o, a);
    } else {
        assert(outcomes(rs).take(0) =~= Seq::<GameOutcome>::empty());
        reveal(Seq::filter);
    }
}

/// Recording one game counts it under its outcome and leaves the other counts; the
/// colors exchanged, it counts for the other side.
pub proof fn law_record_one_game(m: MatchResult, o: GameOutcome)
    requires
        m.white_wins + m.draws + m.black_wins + m.aborts < u64::MAX,
    ensures
        m.with(o).white_wins - m.white_wins == (if o == GameOutcome::WhiteWins {
            1int
        } else {
            0
        }),
        m.with(o).black_wins - m.black_wins == (if o == GameOutcome::BlackWins {
            1int
        } else {
            0
        }),
        m.with(o).draws - m.draws == (if o is Draw {
            1int
        } else {
            0
        }),
        m.with(o).aborts - m.aborts == (if o is Aborted {
            1int
        } else {
            0
        }),
        m.with(o.flipped()).white_wins - m.white_wins == m.with(o).black_wins - m.black_wins,
        m.with(o.flipped()).black_wins - m.black_wins == m.with(o).white_wins - m.white_wins,
        m.with(o.flipped()).draws == m.with(o).draws,
        o == GameOutcome::WhiteWins ==> o.flipped() == GameOutcome::BlackWins,
        o == GameOutcome::BlackWins ==> o.flipped() == GameOutcome::WhiteWins,
        o is Draw || o is Aborted ==> o.flipped() == o,
{
}

/// The log that games leave: a letter for each that was not aborted.
pub open spec fn log_of(os: Seq<GameOutcome>) -> Seq<Seq<char>>
    decreases os.len(),
{
    if os.len() == 0 {
        Seq::empty()
    } else {
        match os.last().letter() {
            Some(c) => log_of(os.drop_last()).push(seq![c]),
            None => log_of(os.drop_last()),
        }
    }
}

proof fn lemma_lines_prefix(a: Seq<Seq<char>>, l: Seq<char>, c: char, n: int)
    requires
        0 <= n <= a.len(),
    ensures
        lines_with(a.push(l), c, n) == lines_with(a, c, n),
    decreases n,
{
    if n > 0 {
        lemma_lines_prefix(a, l, c, n - 1);
    }
}

proof fn lemma_letter_trims(c: char)
    requires
        c == 'W' || c == 'D' || c == 'L',
    ensures
        trim(seq![c], CharClass::Space) == seq![c],
{
    reveal_with_fuel(crate::text::strip_front, 3);
    reveal_with_fuel(crate::text::strip_back, 3);
    assert(seq![c].drop_last() =~= Seq::<char>::empty());
    assert(seq![c].drop_first() =~= Seq::<char>::empty());
}

/// A log of results counts what was played: White's wins, draws and Black's wins are
/// read back as many as they were. Games that were aborted leave no trace.
pub proof fn law_log_is_read_back(os: Seq<GameOutcome>)
    requires
        os.len() <= u64::MAX,
    ensures
        ({
            let r = saved_result(log_of(os));
            &&& r.white_wins == how_many(os, |o: GameOutcome| o == GameOutcome::WhiteWins)
            &&& r.draws == how_many(os, |o: GameOutcome| o is Draw)
            &&& r.black_wins == how_many(os, |o: GameOutcome| o == GameOutcome::BlackWins)
            &&& r.aborts == 0
        }),
{
    lemma_log(os);
}

proof fn lemma_log(os: Seq<GameOutcome>)
    ensures
        ({
            let ls = log_of(os);
            let n = ls.len() as int;
            &&& lines_with(ls, 'W', n) == how_many(os, |o: GameOutcome| o == GameOutcome::WhiteWins)
            &&& lines_with(ls, 'D', n) == how_many(os, |o: GameOutcome| o is Draw)
            &&& lines_with(ls, 'L', n) == how_many(os, |o: GameOutcome| o == GameOutcome::BlackWins)
        }),
        how_many(os, |o: GameOutcome| o == GameOutcome::WhiteWins) <= os.len(),
        how_many(os, |o: GameOutcome| o is Draw) <= os.len(),
        how_many(os, |o: GameOutcome| o == GameOutcome::BlackWins) <= os.len(),
    decreases os.len(),
{
    let w = |o: GameOutcome| o == GameOutcome::WhiteWins;
    let d = |o: GameOutcome| o is Draw;
    let b = |o: GameOutcome| o == GameOutcome::BlackWins;
    if os.len() > 0 {
        let rest = os.drop_last();
        let o = os.last();
        lemma_log(rest);
        assert(os =~= rest.push(o));
        lemma_filter_push(rest, o, w);
        lemma_filter_push(rest, o, d);
        lemma_filter_push(rest, o, b);
        let before = log_of(rest);
        if let Some(c) = o.letter() {
            let n = before.len() as int;
            lemma_letter_trims(c);
            assert(before.push(seq![c])[n] == seq![c]);
            lemma_lines_prefix(before, seq![c], 'W', n);
            lemma_lines_prefix(before, seq![c], 'D', n);
            lemma_lines_prefix(before, seq![c], 'L', n);
            assert(seq!['W'][0] != seq!['D'][0]);
            assert(seq!['W'][0] != seq!['L'][0]);
            assert(seq!['D'][0] != seq!['L'][0]);
        }
    } else {
        reveal(Seq::filter);
    }
}

/// A game won by White leaves a `W`, one won by Black an `L`, a draw a `D`.
pub proof fn law_log_letters(o: GameOutcome)
    ensures
        o.letter() == Some('W') <==> o == GameOutcome::WhiteWins,
        o.letter() == Some('L') <==> o == GameOutcome::BlackWins,
        o.letter() == Some('D') <==> o is Draw,
        o.letter() is None <==> o is Aborted,
{
}

/// The hash occurs at two places among the first `n`.
pub open spec fn twice(hist: Seq<u64>, key: u64, n: int) -> bool {
    exists|i: int, j: int|
        0 <= i < j < n && #[trigger] hist[i] == key && #[trigger] hist[j] == key
}

proof fn lemma_occurrences(hist: Seq<u64>, key: u64, n: int)
    requires
        0 <= n <= hist.len(),
    ensures
        occurrences(hist, key, n) >= 0,
        occurrences(hist, key, n) >= 1 <==> exists|i: int| 0 <= i < n && #[trigger] hist[i] == key,
        occurrences(hist, key, n) >= 2 <==> twice(hist, key, n),
    decreases n,
{
    if n > 0 {
        lemma_occurrences(hist, key, n - 1);
        if hist[n - 1] == key {
            if occurrences(hist, key, n - 1) >= 1 {
                let i = choose|i: int| 0 <= i < n - 1 && #[trigger] hist[i] == key;
                assert(hist[i] == key && hist[n - 1] == key);
            }
        }
    }
}

/// How a game stands: the side to move that has no legal move loses when it is in
/// check and is stalemated when not. Otherwise a hundred half-moves without a
/// capture or a pawn move make a draw, then the third occurrence of the position,
/// then the cap on moves.
pub proof fn law_standing(q: Pos, hist: Seq<u64>, n: int, max: int)
    ensures
        ({
            let s = standing(q, hist, n, max);
            let stuck = legal(q).len() == 0;
            let third = twice(hist, position_key(q), hist.len() as int);
            &&& s == Some(GameOutcome::BlackWins) <==> stuck && in_check(q, q.side) && q.side
                == Color::White
            &&& s == Some(GameOutcome::WhiteWins) <==> stuck && in_check(q, q.side) && q.side
                == Color::Black
            &&& s == Some(GameOutcome::Draw(DrawReason::Stalemate)) <==> stuck && !in_check(q, q.side)
            &&& s == Some(GameOutcome::Draw(DrawReason::FiftyMoveDraw)) <==> !stuck && q.halfmove
                >= 100
            &&& s == Some(GameOutcome::Draw(DrawReason::Repetition)) <==> !stuck && q.halfmove < 100
                && third
            &&& s == Some(GameOutcome::Draw(DrawReason::Adjudicated)) <==> !stuck && q.halfmove
                < 100 && !third && n >= max
            &&& s is None <==> !stuck && q.halfmove < 100 && !third && n < max
        }),
{
    reveal(standing);
    lemma_occurrences(hist, position_key(q), hist.len() as int);
}

/// An answer without a move or with an illegal one ends the game as aborted, each
/// with its reason; every other one is recorded. The game is adjudicated only by a
/// score within the threshold, with enough of them in a row.
pub proof fn law_turn(
    ms: Seq<Move>,
    answer: Option<Move>,
    score: int,
    streak: int,
    threshold: int,
    min_moves: int,
)
    ensures
        ({
            let t = turn_of(ms, answer, score, streak, threshold, min_moves);
            let within = -threshold < score < threshold;
            &&& answer is None ==> t == Turn::End(GameOutcome::Aborted(AbortReason::NoMoveFound))
            &&& answer matches Some(m) ==> !ms.contains(m) ==> t == Turn::End(
                GameOutcome::Aborted(AbortReason::IllegalMove),
            )
            &&& answer matches Some(m) ==> ms.contains(m) ==> t == (if within && streak >= min_moves
                - 1 {
                Turn::Adjudicate(m)
            } else {
                Turn::Play(m)
            })
        }),
{
}

/// The drawish scores in a row at the end of the answers: the last ones are all
/// within the threshold, and the one before them, if there is one, is not.
pub proof fn law_streak(a: Seq<Reply>, n: int, threshold: int)
    requires
        0 <= n <= a.len(),
    ensures
        ({
            let k = streak_before(a, n, threshold);
            &&& 0 <= k <= n
            &&& forall|i: int| n - k <= i < n ==> -threshold < (#[trigger] a[i]).1 < threshold
            &&& k < n ==> !(-threshold < a[n - k - 1].1 < threshold)
        }),
    decreases n,
{
    if n > 0 {
        law_streak(a, n - 1, threshold);
    }
}

/// The progress after the games of some outcomes.
pub open spec fn progress_after(m: MatchProgress, os: Seq<GameOutcome>, paired: bool) -> MatchProgress
    decreases os.len(),
{
    if os.len() == 0 {
        m
    } else {
        progress_after(m, os.drop_last(), paired).after(os.last(), paired)
    }
}

/// A match that starts anew has played as many games as were counted, and goes on to
/// the next opening after every game, or after every second one if games are paired.
pub proof fn law_progress(m: MatchProgress, os: Seq<GameOutcome>, paired: bool)
    requires
        m.game_idx == 0,
        m.opening_idx == 0,
        os.len() <= usize::MAX,
    ensures
        progress_after(m, os, paired).game_idx == os.len(),
        !paired ==> progress_after(m, os, paired).opening_idx == os.len(),
        paired ==> 2 * progress_after(m, os, paired).opening_idx <= os.len() < 2 * progress_after(
            m,
            os,
            paired,
        ).opening_idx + 2,
    decreases os.len(),
{
    if os.len() > 0 {
        law_progress(m, os.drop_last(), paired);
    }
}

/// Each option of a match command that takes a text sets its own setting and no
/// other, whatever was set before.
pub proof fn law_text_options(v: Seq<char>, c: Chosen)
    ensures
        chosen_from(seq!["--vs"@, v], 0, c) == (Chosen { vs: Some(v), ..c }),
        chosen_from(seq!["--openings"@, v], 0, c) == (Chosen { epd: Some(v), ..c }),
        chosen_from(seq!["--save"@, v], 0, c) == (Chosen { save: Some(v), ..c }),
        chosen_from(seq!["--resume"@, v], 0, c) == (Chosen { resume: Some(v), ..c }),
        chosen_from(seq!["--paired"@], 0, c) == (Chosen { paired: true, ..c }),
        chosen_from(seq!["--no-sprt-stop"@], 0, c) == (Chosen { sprt_stop: false, ..c }),
{
    reveal_strlit("--vs");
    reveal_strlit("--openings");
    reveal_strlit("--save");
    reveal_strlit("--resume");
    reveal_strlit("--paired");
    reveal_strlit("--no-sprt-stop");
    reveal_with_fuel(chosen_from, 2);
    assert("--vs"@.len() == 4 && "--openings"@.len() == 10 && "--save"@.len() == 6
        && "--resume"@.len() == 8 && "--paired"@.len() == 8 && "--no-sprt-stop"@.len() == 14);
    assert("--resume"@[2] == 'r' && "--paired"@[2] == 'p');
}

/// A number alone sets the number of games, and a second one the depth; a time or a depth
/// behind its option is used in place of what was set.
pub proof fn law_number_options(v: Seq<char>, w: Seq<char>, c: Chosen)
    requires
        c.numbers == 0,
    ensures
        v.len() > 0 && v[0] != '-' && w.len() > 0 && w[0] != '-' ==> (unsigned_value(
            v,
            usize::MAX as int,
        ) matches Some(n) ==> unsigned_value(w, u32::MAX as int) matches Some(d) ==> chosen_from(
            seq![v, w],
            0,
            c,
        ) == (Chosen { games: n, depth: d, numbers: 2, ..c })),
        chosen_from(seq![seq!['-', 't'], v], 0, c) == (Chosen {
            time_ms: number_or(v, u64::MAX as int, 1000),
            use_time: true,
            ..c
        }),
        chosen_from(seq![seq!['-', 'd'], v], 0, c) == (Chosen {
            depth: number_or(v, u32::MAX as int, 5),
            ..c
        }),
{
    reveal_strlit("--vs");
    reveal_strlit("--openings");
    reveal_strlit("--save");
    reveal_strlit("--resume");
    reveal_strlit("--paired");
    reveal_strlit("--no-sprt-stop");
    reveal_with_fuel(chosen_from, 3);
    assert("--vs"@.len() == 4 && "--openings"@.len() == 10 && "--save"@.len() == 6
        && "--resume"@.len() == 8 && "--paired"@.len() == 8 && "--no-sprt-stop"@.len() == 14);
    assert("--vs"@[0] == '-' && "--openings"@[0] == '-' && "--save"@[0] == '-' && "--resume"@[0]
        == '-' && "--paired"@[0] == '-' && "--no-sprt-stop"@[0] == '-');
    assert(seq!['-', 't'][1] != seq!['-', 'd'][1]);
    assert(seq!['-', 't'].len() == 2 && seq!['-', 'd'].len() == 2);
    assert(seq!['-', 't'][0] == '-' && seq!['-', 'd'][0] == '-');
    assert(seq!['-', '-', 't', 'i', 'm', 'e'][0] == '-' && seq![
        '-',
        '-',
        'd',
        'e',
        'p',
        't',
        'h',
    ][0] == '-');
    assert(seq!['-', '-', 't', 'i', 'm', 'e'].len() == 6 && seq![
        '-',
        '-',
        'd',
        'e',
        'p',
        't',
        'h',
    ].len() == 7);
}

/// In a game the side to move is asked, and the other engine is left alone; against
/// another engine, the built-in one is asked for the color that the other does not have.
pub proof fn law_who_is_asked<W: ChessEngine, B: ChessEngine>(
    t: Transcript<W, B>,
    e: Seq<W>,
    tables: Seq<TableState>,
    a: Seq<Reply>,
    p: Pos,
    c: MatchConfig,
    ms: Seq<Move>,
    i: int,
)
    ensures
        ({
            let q = position_after(p, ms, i);
            let h = hashes_before(p, ms, i);
            &&& asked(t, p, c, ms, i) && q.side == Color::White ==> t.white[i].answers(
                q,
                ms.take(i),
                c.tc,
                h,
                t.answers[i],
                &t.white[i + 1],
            ) && t.black[i + 1] == t.black[i]
            &&& asked(t, p, c, ms, i) && q.side == Color::Black ==> t.black[i].answers(
                q,
                ms.take(i),
                c.tc,
                h,
                t.answers[i],
                &t.black[i + 1],
            ) && t.white[i + 1] == t.white[i]
            &&& either_asked(e, tables, a, true, p, c, ms, i) ==> (q.side == Color::White
                ==> tables[i + 1] == tables[i]) && (q.side == Color::Black ==> e[i + 1] == e[i])
            &&& either_asked(e, tables, a, false, p, c, ms, i) ==> (q.side == Color::White ==> e[i
                + 1] == e[i]) && (q.side == Color::Black ==> tables[i + 1] == tables[i])
        }),
{
    reveal(asked);
}

/// The moves of a game lead from one position to the next, and each position's hash is
/// handed on with those before it.
pub proof fn law_positions_of_a_game(p: Pos, ms: Seq<Move>, n: int)
    requires
        0 <= n < ms.len(),
    ensures
        position_after(p, ms, 0) == p,
        position_after(p, ms, n + 1) == apply(position_after(p, ms, n), ms[n]),
        hashes_before(p, ms, 0).len() == 0,
        hashes_before(p, ms, n + 1) == hashes_before(p, ms, n).push(
            position_key(position_after(p, ms, n)),
        ),
{
    assert(hashes_before(p, ms, n + 1) =~= hashes_before(p, ms, n).push(
        position_key(position_after(p, ms, n)),
    ));
}

/// The counts of a match are told as wins of White, draws, and wins of Black, and the games
/// that were aborted.
pub proof fn law_counts_text(m: MatchResult)
    ensures
        m.counts() == seq!['W', ':'] + digits(m.white_wins as int) + seq![' ', 'D', ':'] + digits(
            m.draws as int,
        ) + seq![' ', 'L', ':'] + digits(m.black_wins as int) + seq![
            ' ',
            ' ',
            'a',
            'b',
            'o',
            'r',
            't',
            's',
            ':',
        ] + digits(m.aborts as int),
{
    reveal_strlit("W:");
    reveal_strlit(" D:");
    reveal_strlit(" L:");
    reveal_strlit("  aborts:");
    assert("W:"@ =~= seq!['W', ':']);
    assert(" D:"@ =~= seq![' ', 'D', ':']);
    assert(" L:"@ =~= seq![' ', 'L', ':']);
    assert("  aborts:"@ =~= seq![' ', ' ', 'a', 'b', 'o', 'r', 't', 's', ':']);
}

/// Without arguments a match has 20 games at depth 5, between the built-in engine and itself,
/// and is not paired. An engine plays to the depth of its time control, no deeper than 64.
pub proof fn law_defaults(d: u32, ms: u64)
    ensures
        ({
            let c = chosen_from(Seq::empty(), 0, default_choice());
            &&& c.games == 20 && c.depth == 5 && !c.use_time && !c.paired && c.sprt_stop
            &&& c.vs is None && c.epd is None && c.save is None && c.resume is None
        }),
        d <= 64 ==> cap_of(TimeControl::FixedDepth(d)) == d,
        d >= 64 ==> cap_of(TimeControl::FixedDepth(d)) == 64,
        cap_of(TimeControl::MoveTime(ms)) == 64,
{
}

} // verus!
