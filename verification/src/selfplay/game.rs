//! Playing one game between two engines.

use crate::board::fen::parse_fen;
use crate::board::piece::Color;
use crate::board::{position_key, Board, Pos};
use crate::movegen::generate::in_check;
use crate::movegen::legal::legal;
use crate::movegen::make_move::apply;
use crate::movegen::moves::{Move, MoveList};
use crate::movegen::rules::{law_valid_moves_playable, valid};
use crate::search::negamax::lemma_play;
use crate::search::ordering::magnitude;
use crate::search::tt::TableState;
use crate::selfplay::config::MatchConfig;
use crate::selfplay::engine::{first_table, table_answers, ChessEngine, InternalEngine};
use crate::selfplay::outcome::{AbortReason, DrawReason, GameOutcome, GameRecord};
use vstd::prelude::*;

verus! {

/// How often `hash` occurs among the first `n` hashes.
pub open spec fn occurrences(hist: Seq<u64>, hash: u64, n: int) -> int
    decreases n,
{
    if n <= 0 {
        0
    } else {
        occurrences(hist, hash, n - 1) + (if hist[n - 1] == hash {
            1int
        } else {
            0
        })
    }
}

/// How a game stands after `n` moves in position `q`, when the positions before
/// had the hashes `hist`: won, drawn, cut off after `max` moves, or not over.
#[verifier::opaque]
pub open spec fn standing(q: Pos, hist: Seq<u64>, n: int, max: int) -> Option<GameOutcome> {
    if legal(q).len() == 0 {
        if in_check(q, q.side) {
            Some(
                if q.side == Color::White {
                    GameOutcome::BlackWins
                } else {
                    GameOutcome::WhiteWins
                },
            )
        } else {
            Some(GameOutcome::Draw(DrawReason::Stalemate))
        }
    } else if q.halfmove >= 100 {
        Some(GameOutcome::Draw(DrawReason::FiftyMoveDraw))
    } else if occurrences(hist, position_key(q), hist.len() as int) >= 2 {
        Some(GameOutcome::Draw(DrawReason::Repetition))
    } else if n >= max {
        Some(GameOutcome::Draw(DrawReason::Adjudicated))
    } else {
        None
    }
}

/// How a game stands before the next move.
pub fn judge(board: &Board, moves: &MoveList, history: &Vec<u64>, n: usize, max: usize) -> (r:
    Option<GameOutcome>)
    requires
        board.wf(),
        board.hashed(),
        moves@ == legal(board@),
    ensures
        r == standing(board@, history@, n as int, max as int),
{
    proof {
        reveal(standing);
    }
    if moves.is_empty() {
        return Some(
            if board.is_in_check() {
                if board.side_to_move == Color::White {
                    GameOutcome::BlackWins
                } else {
                    GameOutcome::WhiteWins
                }
            } else {
                GameOutcome::Draw(DrawReason::Stalemate)
            },
        );
    }
    if board.halfmove_clock >= 100 {
        return Some(GameOutcome::Draw(DrawReason::FiftyMoveDraw));
    }
    if count_hash(history, board.hash) >= 2 {
        return Some(GameOutcome::Draw(DrawReason::Repetition));
    }
    if n >= max {
        return Some(GameOutcome::Draw(DrawReason::Adjudicated));
    }
    None
}

fn count_hash(history: &Vec<u64>, hash: u64) -> (r: usize)
    ensures
        r == occurrences(history@, hash, history@.len() as int),
{
    let mut count: usize = 0;
    let mut i: usize = 0;
    while i < history.len()
        invariant
            i <= history@.len(),
            count <= i,
            count == occurrences(history@, hash, i as int),
        decreases history@.len() - i,
    {
        if history[i] == hash {
            count += 1;
        }
        i += 1;
    }
    count
}

/// What an engine answers: a move and its score.
pub type Reply = (Option<Move>, i32);

/// What follows from an engine's answer.
#[derive(Clone, Copy, Debug, PartialEq, Eq, Structural)]
pub enum Turn {
    /// The game is over without another move.
    End(GameOutcome),
    /// The move is recorded and the game adjudicated as drawn.
    Adjudicate(Move),
    /// The move is played.
    Play(Move),
}

/// The number of drawish scores in a row after one more score.
pub open spec fn next_streak(score: int, streak: int, threshold: int) -> int {
    if magnitude(score) < threshold {
        streak + 1
    } else {
        0
    }
}

/// What follows from an engine's answer: no move or an illegal one aborts the
/// game, enough drawish scores in a row end it, any other move is played.
pub open spec fn turn_of(
    ms: Seq<Move>,
    answer: Option<Move>,
    score: int,
    streak: int,
    threshold: int,
    min_moves: int,
) -> Turn {
    match answer {
        None => Turn::End(GameOutcome::Aborted(AbortReason::NoMoveFound)),
        Some(mv) => if !ms.contains(mv) {
            Turn::End(GameOutcome::Aborted(AbortReason::IllegalMove))
        } else if magnitude(score) < threshold && streak + 1 >= min_moves {
            Turn::Adjudicate(mv)
        } else {
            Turn::Play(mv)
        },
    }
}

/// What follows from an engine's answer, and the number of drawish scores in a
/// row.
pub fn take_turn(
    moves: &MoveList,
    answer: Option<Move>,
    score: i32,
    streak: usize,
    threshold: i32,
    min_moves: usize,
) -> (r: (Turn, usize))
    requires
        streak < usize::MAX,
    ensures
        r.0 == turn_of(
            moves@,
            answer,
            score as int,
            streak as int,
            threshold as int,
            min_moves as int,
        ),
        r.1 == next_streak(score as int, streak as int, threshold as int),
{
    let size: i64 = if score >= 0 {
        score as i64
    } else {
        -(score as i64)
    };
    let drawish = size < threshold as i64;
    let next: usize = if drawish {
        streak + 1
    } else {
        0
    };
    let turn = match answer {
        None => Turn::End(GameOutcome::Aborted(AbortReason::NoMoveFound)),
        Some(mv) => {
            if !moves.contains(mv) {
                Turn::End(GameOutcome::Aborted(AbortReason::IllegalMove))
            } else if drawish && next >= min_moves {
                Turn::Adjudicate(mv)
            } else {
                Turn::Play(mv)
            }
        },
    };
    (turn, next)
}

/// The number of drawish scores in a row at the end of the first `n` answers.
pub open spec fn streak_before(a: Seq<Reply>, n: int, threshold: int) -> int
    decreases n,
{
    if n <= 0 {
        0
    } else {
        next_streak(a[n - 1].1 as int, streak_before(a, n - 1, threshold), threshold)
    }
}

/// The position after the first `n` moves.
pub open spec fn position_after(p: Pos, ms: Seq<Move>, n: int) -> Pos
    decreases n,
{
    if n <= 0 {
        p
    } else {
        apply(position_after(p, ms, n - 1), ms[n - 1])
    }
}

/// The hashes of the positions before each of the first `n` moves.
pub open spec fn hashes_before(p: Pos, ms: Seq<Move>, n: int) -> Seq<u64> {
    Seq::new(n as nat, |i: int| position_key(position_after(p, ms, i)))
}

/// How a game stands after the first `n` moves.
pub open spec fn standing_after(p: Pos, ms: Seq<Move>, n: int, max: int) -> Option<GameOutcome> {
    standing(position_after(p, ms, n), hashes_before(p, ms, n), n, max)
}

/// Move `i` is legal, and the game was not over before it.
#[verifier::opaque]
pub open spec fn fair_at(p: Pos, ms: Seq<Move>, i: int, max: int) -> bool {
    legal(position_after(p, ms, i)).contains(ms[i]) && standing_after(p, ms, i, max) is None
}

/// The moves are legal, and the game was not over before any of them.
pub open spec fn played_fairly(p: Pos, ms: Seq<Move>, n: int, max: int) -> bool {
    forall|i: int| 0 <= i < n ==> #[trigger] fair_at(p, ms, i, max)
}

/// A game from `p` was played by the rules and ended as it should: as it stands
/// after the last move, by adjudication at the last move, or, if it was not
/// over, because of an engine's fault.
pub open spec fn fair_game(p: Pos, max: int, ms: Seq<Move>, o: GameOutcome) -> bool {
    let n = ms.len() as int;
    &&& played_fairly(p, ms, n, max)
    &&& {
        ||| standing_after(p, ms, n, max) == Some(o)
        ||| n > 0 && o == GameOutcome::Draw(DrawReason::Adjudicated)
        ||| standing_after(p, ms, n, max) is None && o is Aborted
    }
}

/// How a game went: the two engines at its start and after each answer, and the
/// answers.
pub struct Transcript<W, B> {
    pub white: Seq<W>,
    pub black: Seq<B>,
    pub answers: Seq<Reply>,
}

/// Before move `i` the game was not over, and the engine to move was asked: in
/// the position after the moves so far, with the moves and the hashes of the
/// positions before it. The other engine is left as it was.
#[verifier::opaque]
pub open spec fn asked<W: ChessEngine, B: ChessEngine>(
    t: Transcript<W, B>,
    p: Pos,
    c: MatchConfig,
    ms: Seq<Move>,
    i: int,
) -> bool {
    let q = position_after(p, ms, i);
    let h = hashes_before(p, ms, i);
    &&& standing_after(p, ms, i, c.max_moves as int) is None
    &&& if q.side == Color::White {
        &&& t.white[i].answers(q, ms.take(i), c.tc, h, t.answers[i], &t.white[i + 1])
        &&& t.black[i + 1] == t.black[i]
    } else {
        &&& t.black[i].answers(q, ms.take(i), c.tc, h, t.answers[i], &t.black[i + 1])
        &&& t.white[i + 1] == t.white[i]
    }
}

/// What follows from answer `i`.
#[verifier::opaque]
pub open spec fn turn_at(p: Pos, c: MatchConfig, ms: Seq<Move>, a: Seq<Reply>, i: int) -> Turn {
    turn_of(
        legal(position_after(p, ms, i)),
        a[i].0,
        a[i].1 as int,
        streak_before(a, i, c.adj_threshold as int),
        c.adj_threshold as int,
        c.adj_min_moves as int,
    )
}

/// Move `i` was asked for and played.
#[verifier::opaque]
pub open spec fn played_at<W: ChessEngine, B: ChessEngine>(
    t: Transcript<W, B>,
    p: Pos,
    c: MatchConfig,
    ms: Seq<Move>,
    i: int,
) -> bool {
    asked(t, p, c, ms, i) && turn_at(p, c, ms, t.answers, i) == Turn::Play(ms[i])
}

/// The first `n` moves were asked for and played.
#[verifier::opaque]
pub open spec fn played<W: ChessEngine, B: ChessEngine>(
    t: Transcript<W, B>,
    p: Pos,
    c: MatchConfig,
    ms: Seq<Move>,
    n: int,
) -> bool {
    forall|i: int| 0 <= i < n ==> #[trigger] played_at(t, p, c, ms, i)
}

/// The moves and the outcome of a game from `p` are what the engines' answers
/// make of it: the game ends as it stands after the moves, or with the first
/// answer that ends it, or with the first that makes it a draw by adjudication.
pub open spec fn game_of<W: ChessEngine, B: ChessEngine>(
    t: Transcript<W, B>,
    p: Pos,
    c: MatchConfig,
    ms: Seq<Move>,
    o: GameOutcome,
) -> bool {
    let n = ms.len() as int;
    let k = t.answers.len() as int;
    &&& t.white.len() == k + 1
    &&& t.black.len() == k + 1
    &&& {
        ||| {
            &&& k == n
            &&& played(t, p, c, ms, n)
            &&& standing_after(p, ms, n, c.max_moves as int) == Some(o)
        }
        ||| {
            &&& k == n + 1
            &&& played(t, p, c, ms, n)
            &&& asked(t, p, c, ms, n)
            &&& turn_at(p, c, ms, t.answers, n) == Turn::End(o)
        }
        ||| {
            &&& k == n
            &&& n > 0
            &&& played(t, p, c, ms, n - 1)
            &&& asked(t, p, c, ms, n - 1)
            &&& turn_at(p, c, ms, t.answers, n - 1) == Turn::Adjudicate(ms[n - 1])
            &&& o == GameOutcome::Draw(DrawReason::Adjudicated)
        }
    }
}

/// The position that a game from an opening starts with, if the opening can be
/// read and played from.
pub open spec fn start_of(fen: Seq<char>) -> Option<Pos> {
    match parse_fen(fen) {
        Ok(p) => if valid(p) {
            Some(p)
        } else {
            None
        },
        Err(_) => None,
    }
}

/// Two engines start a game from an opening and play it, and are left as they
/// are at its end.
#[verifier::opaque]
pub open spec fn game_between<W: ChessEngine, B: ChessEngine>(
    t: Transcript<W, B>,
    fen: Seq<char>,
    c: MatchConfig,
    white: W,
    black: B,
    white_after: W,
    black_after: B,
    ms: Seq<Move>,
    o: GameOutcome,
) -> bool {
    &&& start_of(fen) is Some
    &&& white.starts(fen, &t.white[0])
    &&& black.starts(fen, &t.black[0])
    &&& game_of(t, start_of(fen)->0, c, ms, o)
    &&& t.white.last() == white_after
    &&& t.black.last() == black_after
}

/// The first `n` answers lead to moves that are played.
pub open spec fn all_played(p: Pos, c: MatchConfig, ms: Seq<Move>, a: Seq<Reply>, n: int) -> bool {
    forall|i: int| 0 <= i < n ==> #[trigger] turn_at(p, c, ms, a, i) == Turn::Play(ms[i])
}

/// The moves and the outcome of a game from `p` are what the answers make of it,
/// whoever gives them.
pub open spec fn decided(
    p: Pos,
    c: MatchConfig,
    ms: Seq<Move>,
    a: Seq<Reply>,
    o: GameOutcome,
) -> bool {
    let n = ms.len() as int;
    let k = a.len() as int;
    let max = c.max_moves as int;
    &&& forall|i: int| 0 <= i < k ==> #[trigger] standing_after(p, ms, i, max) is None
    &&& {
        ||| k == n && all_played(p, c, ms, a, n) && standing_after(p, ms, n, max) == Some(o)
        ||| k == n + 1 && all_played(p, c, ms, a, n) && turn_at(p, c, ms, a, n) == Turn::End(o)
        ||| {
            &&& k == n
            &&& n > 0
            &&& all_played(p, c, ms, a, n - 1)
            &&& turn_at(p, c, ms, a, n - 1) == Turn::Adjudicate(ms[n - 1])
            &&& o == GameOutcome::Draw(DrawReason::Adjudicated)
        }
    }
}

/// Answer `i` of a game between two built-in engines with the tables `w` and `b`:
/// what the engine to move chooses in the position after the moves so far.
pub open spec fn tables_asked(
    w: Seq<TableState>,
    b: Seq<TableState>,
    a: Seq<Reply>,
    p: Pos,
    c: MatchConfig,
    ms: Seq<Move>,
    i: int,
) -> bool {
    let q = position_after(p, ms, i);
    let h = hashes_before(p, ms, i);
    if q.side == Color::White {
        table_answers(w[i], w[i + 1], q, h, c.tc, a[i]) && b[i + 1] == b[i]
    } else {
        table_answers(b[i], b[i + 1], q, h, c.tc, a[i]) && w[i + 1] == w[i]
    }
}

/// The moves and the outcome are those of a game between two built-in engines,
/// where `w` and `b` are their tables at the start and after each answer.
pub open spec fn table_game(
    w: Seq<TableState>,
    b: Seq<TableState>,
    a: Seq<Reply>,
    p: Pos,
    c: MatchConfig,
    ms: Seq<Move>,
    o: GameOutcome,
) -> bool {
    &&& w.len() == a.len() + 1
    &&& b.len() == a.len() + 1
    &&& w[0] == first_table().next_generation()
    &&& b[0] == first_table().next_generation()
    &&& forall|i: int| 0 <= i < a.len() ==> #[trigger] tables_asked(w, b, a, p, c, ms, i)
    &&& decided(p, c, ms, a, o)
}

/// The moves and the outcome are those of a game from an opening between two
/// built-in engines, each with an empty table at first.
pub open spec fn self_game(fen: Seq<char>, c: MatchConfig, ms: Seq<Move>, o: GameOutcome) -> bool {
    match start_of(fen) {
        None => ms.len() == 0 && o == GameOutcome::Aborted(AbortReason::NoMoveFound),
        Some(p) => {
            &&& !(o is Aborted)
            &&& exists|w: Seq<TableState>, b: Seq<TableState>, a: Seq<Reply>| #[trigger]
                table_game(w, b, a, p, c, ms, o)
        },
    }
}

/// Answer `i` of a game between another engine and a built-in one with the tables
/// `t`.
pub open spec fn either_asked<E: ChessEngine>(
    e: Seq<E>,
    t: Seq<TableState>,
    a: Seq<Reply>,
    engine_white: bool,
    p: Pos,
    c: MatchConfig,
    ms: Seq<Move>,
    i: int,
) -> bool {
    let q = position_after(p, ms, i);
    let h = hashes_before(p, ms, i);
    if (q.side == Color::White) == engine_white {
        e[i].answers(q, ms.take(i), c.tc, h, a[i], &e[i + 1]) && t[i + 1] == t[i]
    } else {
        table_answers(t[i], t[i + 1], q, h, c.tc, a[i]) && e[i + 1] == e[i]
    }
}

/// The moves and the outcome are those of a game between another engine and a
/// built-in one, where `e` is the other engine and `t` the table of the built-in
/// one, at the start and after each answer.
pub open spec fn mixed_game<E: ChessEngine>(
    e: Seq<E>,
    t: Seq<TableState>,
    a: Seq<Reply>,
    engine_white: bool,
    p: Pos,
    c: MatchConfig,
    ms: Seq<Move>,
    o: GameOutcome,
) -> bool {
    &&& e.len() == a.len() + 1
    &&& t.len() == a.len() + 1
    &&& t[0] == first_table().next_generation()
    &&& forall|i: int|
        0 <= i < a.len() ==> #[trigger] either_asked(e, t, a, engine_white, p, c, ms, i)
    &&& decided(p, c, ms, a, o)
}

/// The moves and the outcome are those of a game from an opening between another
/// engine and a built-in one with an empty table at first.
pub open spec fn game_against<E: ChessEngine>(
    fen: Seq<char>,
    c: MatchConfig,
    engine_white: bool,
    before: E,
    after: E,
    ms: Seq<Move>,
    o: GameOutcome,
) -> bool {
    match start_of(fen) {
        None => after == before && ms.len() == 0 && o == GameOutcome::Aborted(
            AbortReason::NoMoveFound,
        ),
        Some(p) => exists|e: Seq<E>, t: Seq<TableState>, a: Seq<Reply>|
            {
                &&& #[trigger] mixed_game(e, t, a, engine_white, p, c, ms, o)
                &&& before.starts(fen, &e[0])
                &&& e.last() == after
            },
    }
}

/// The record of a game from an opening: a fair game, or no game at all if the
/// opening cannot be read or played from.
pub open spec fn game_from(fen: Seq<char>, max: int, ms: Seq<Move>, o: GameOutcome) -> bool {
    match parse_fen(fen) {
        Err(_) => ms.len() == 0 && o == GameOutcome::Aborted(AbortReason::NoMoveFound),
        Ok(p) => if valid(p) {
            fair_game(p, max, ms, o)
        } else {
            ms.len() == 0 && o == GameOutcome::Aborted(AbortReason::NoMoveFound)
        },
    }
}

/// No game goes on beyond the cap on moves.
pub proof fn law_game_length(p: Pos, max: int, ms: Seq<Move>, o: GameOutcome)
    requires
        fair_game(p, max, ms, o),
        max >= 0,
    ensures
        ms.len() <= max,
{
    reveal(standing);
    reveal(fair_at);
    if ms.len() > max {
        assert(fair_at(p, ms, max, max));
    }
}

/// A game is won only by checkmate.
pub proof fn law_win_is_checkmate(p: Pos, max: int, ms: Seq<Move>, o: GameOutcome)
    requires
        fair_game(p, max, ms, o),
        o == GameOutcome::WhiteWins || o == GameOutcome::BlackWins,
    ensures
        ({
            let q = position_after(p, ms, ms.len() as int);
            legal(q).len() == 0 && in_check(q, q.side) && (o == GameOutcome::WhiteWins) == (q.side
                == Color::Black)
        }),
{
    reveal(standing);
}

proof fn lemma_position_prefix(p: Pos, a: Seq<Move>, b: Seq<Move>, n: int)
    requires
        n <= a.len(),
        n <= b.len(),
        forall|i: int| 0 <= i < n ==> a[i] == b[i],
    ensures
        position_after(p, a, n) == position_after(p, b, n),
        n >= 0 ==> hashes_before(p, a, n) == hashes_before(p, b, n),
    decreases n,
{
    if n > 0 {
        lemma_position_prefix(p, a, b, n - 1);
    }
    if n >= 0 {
        assert forall|i: int| 0 <= i < n implies #[trigger] hashes_before(p, a, n)[i]
            == hashes_before(p, b, n)[i] by {
            lemma_position_prefix(p, a, b, i);
        }
        assert(hashes_before(p, a, n) =~= hashes_before(p, b, n));
    }
}

proof fn lemma_hashes_push(p: Pos, ms: Seq<Move>, mv: Move)
    ensures
        hashes_before(p, ms.push(mv), ms.len() as int + 1) == hashes_before(
            p,
            ms,
            ms.len() as int,
        ).push(position_key(position_after(p, ms, ms.len() as int))),
{
    let b = ms.push(mv);
    let n = ms.len() as int;
    lemma_position_prefix(p, ms, b, n);
    let x = hashes_before(p, b, n + 1);
    let y = hashes_before(p, ms, n).push(position_key(position_after(p, ms, n)));
    assert forall|i: int| 0 <= i < n + 1 implies #[trigger] x[i] == y[i] by {
        if i < n {
            lemma_position_prefix(p, ms, b, i);
        }
    }
    assert(x =~= y);
}

proof fn lemma_going_on(p: Pos, ms: Seq<Move>, max: int)
    requires
        standing_after(p, ms, ms.len() as int, max) is None,
    ensures
        ms.len() < max,
{
    reveal(standing);
}

/// A game that the engines' answers make is one played by the rules.
pub proof fn law_game_is_fair<W: ChessEngine, B: ChessEngine>(
    t: Transcript<W, B>,
    p: Pos,
    c: MatchConfig,
    ms: Seq<Move>,
    o: GameOutcome,
)
    requires
        game_of(t, p, c, ms, o),
    ensures
        fair_game(p, c.max_moves as int, ms, o),
{
    reveal(played);
    reveal(played_at);
    reveal(asked);
    reveal(turn_at);
    reveal(fair_at);
    assert forall|i: int| 0 <= i < ms.len() implies #[trigger] fair_at(
        p,
        ms,
        i,
        c.max_moves as int,
    ) by {
        if i < ms.len() - 1 {
            assert(played_at(t, p, c, ms, i));
        } else if turn_at(p, c, ms, t.answers, i) != Turn::Adjudicate(ms[i]) {
            assert(played_at(t, p, c, ms, i));
        }
    }
}

proof fn lemma_streak_prefix(a: Seq<Reply>, b: Seq<Reply>, n: int, threshold: int)
    requires
        n <= a.len(),
        n <= b.len(),
        forall|i: int| 0 <= i < n ==> a[i] == b[i],
    ensures
        streak_before(a, n, threshold) == streak_before(b, n, threshold),
    decreases n,
{
    if n > 0 {
        lemma_streak_prefix(a, b, n - 1, threshold);
    }
}

proof fn lemma_played_prefix<W: ChessEngine, B: ChessEngine>(
    t: Transcript<W, B>,
    u: Transcript<W, B>,
    p: Pos,
    c: MatchConfig,
    a: Seq<Move>,
    b: Seq<Move>,
    n: int,
)
    requires
        0 <= n <= a.len(),
        n <= b.len(),
        n <= t.answers.len(),
        n <= u.answers.len(),
        forall|i: int| 0 <= i < n ==> a[i] == b[i],
        forall|i: int| 0 <= i < n ==> t.answers[i] == u.answers[i],
        forall|i: int| 0 <= i <= n ==> t.white[i] == u.white[i],
        forall|i: int| 0 <= i <= n ==> t.black[i] == u.black[i],
        played(t, p, c, a, n),
    ensures
        played(u, p, c, b, n),
{
    reveal(played);
    reveal(played_at);
    reveal(asked);
    reveal(turn_at);
    assert forall|i: int| 0 <= i < n implies #[trigger] played_at(u, p, c, b, i) by {
        assert(played_at(t, p, c, a, i));
        lemma_position_prefix(p, a, b, i);
        lemma_streak_prefix(t.answers, u.answers, i, c.adj_threshold as int);
        assert(a.take(i) =~= b.take(i));
    }
}

/// One more answer of the engine to move.
proof fn lemma_asked<W: ChessEngine, B: ChessEngine>(
    t: Transcript<W, B>,
    p: Pos,
    c: MatchConfig,
    ms: Seq<Move>,
    white: W,
    black: B,
    a: Reply,
) -> (u: Transcript<W, B>)
    requires
        t.answers.len() == ms.len(),
        t.white.len() == ms.len() + 1,
        t.black.len() == ms.len() + 1,
        played(t, p, c, ms, ms.len() as int),
        standing_after(p, ms, ms.len() as int, c.max_moves as int) is None,
        ({
            let q = position_after(p, ms, ms.len() as int);
            let h = hashes_before(p, ms, ms.len() as int);
            if q.side == Color::White {
                &&& t.white.last().answers(q, ms, c.tc, h, a, &white)
                &&& black == t.black.last()
            } else {
                &&& t.black.last().answers(q, ms, c.tc, h, a, &black)
                &&& white == t.white.last()
            }
        }),
    ensures
        u.white == t.white.push(white),
        u.black == t.black.push(black),
        u.answers == t.answers.push(a),
        played(u, p, c, ms, ms.len() as int),
        asked(u, p, c, ms, ms.len() as int),
        ({
            let x = c.adj_threshold as int;
            let k = streak_before(t.answers, ms.len() as int, x);
            &&& turn_at(p, c, ms, u.answers, ms.len() as int) == turn_of(
                legal(position_after(p, ms, ms.len() as int)),
                a.0,
                a.1 as int,
                k,
                x,
                c.adj_min_moves as int,
            )
            &&& streak_before(u.answers, ms.len() as int + 1, x) == next_streak(a.1 as int, k, x)
        }),
{
    reveal(asked);
    reveal(turn_at);
    let u = Transcript::<W, B> {
        white: t.white.push(white),
        black: t.black.push(black),
        answers: t.answers.push(a),
    };
    let n = ms.len() as int;
    lemma_played_prefix(t, u, p, c, ms, ms, n);
    lemma_streak_prefix(t.answers, u.answers, n, c.adj_threshold as int);
    assert(ms.take(n) =~= ms);
    u
}

/// The move of the last answer is added to the moves.
proof fn lemma_asked_push<W: ChessEngine, B: ChessEngine>(
    t: Transcript<W, B>,
    p: Pos,
    c: MatchConfig,
    ms: Seq<Move>,
    mv: Move,
)
    requires
        t.answers.len() == ms.len() + 1,
        played(t, p, c, ms, ms.len() as int),
        asked(t, p, c, ms, ms.len() as int),
    ensures
        played(t, p, c, ms.push(mv), ms.len() as int),
        asked(t, p, c, ms.push(mv), ms.len() as int),
        turn_at(p, c, ms.push(mv), t.answers, ms.len() as int) == turn_at(
            p,
            c,
            ms,
            t.answers,
            ms.len() as int,
        ),
        turn_at(p, c, ms, t.answers, ms.len() as int) == Turn::Play(mv) ==> played(
            t,
            p,
            c,
            ms.push(mv),
            ms.len() as int + 1,
        ),
{
    reveal(played);
    reveal(played_at);
    reveal(asked);
    reveal(turn_at);
    let b = ms.push(mv);
    let n = ms.len() as int;
    lemma_played_prefix(t, t, p, c, ms, b, n);
    lemma_position_prefix(p, ms, b, n);
    assert(b.take(n) =~= ms.take(n));
}

/// A draw by adjudication before the cap on moves comes only after enough scores
/// in a row within the threshold.
pub proof fn law_adjudication_needs_streak<W: ChessEngine, B: ChessEngine>(
    t: Transcript<W, B>,
    p: Pos,
    c: MatchConfig,
    ms: Seq<Move>,
)
    requires
        game_of(t, p, c, ms, GameOutcome::Draw(DrawReason::Adjudicated)),
        ms.len() < c.max_moves,
        c.adj_min_moves > 0,
    ensures
        c.adj_min_moves <= t.answers.len(),
        forall|i: int|
            t.answers.len() - c.adj_min_moves <= i < t.answers.len() ==> magnitude(
                (#[trigger] t.answers[i]).1 as int,
            ) < c.adj_threshold,
{
    reveal(standing);
    reveal(turn_at);
    let k = t.answers.len() as int;
    let n = ms.len() as int;
    assert(k == n && n > 0);
    assert(streak_before(t.answers, n, c.adj_threshold as int) >= c.adj_min_moves);
    lemma_streak(t.answers, n, c.adj_threshold as int);
}

proof fn lemma_streak(a: Seq<Reply>, n: int, threshold: int)
    requires
        0 <= n <= a.len(),
    ensures
        0 <= streak_before(a, n, threshold) <= n,
        forall|i: int|
            n - streak_before(a, n, threshold) <= i < n ==> magnitude((#[trigger] a[i]).1 as int)
                < threshold,
    decreases n,
{
    if n > 0 {
        lemma_streak(a, n - 1, threshold);
    }
}

/// The built-in engine has a legal move to answer with in every position that is
/// not over, so that a game between two of them is never aborted.
pub proof fn law_self_game_not_aborted(
    t: Transcript<InternalEngine, InternalEngine>,
    p: Pos,
    c: MatchConfig,
    ms: Seq<Move>,
    o: GameOutcome,
)
    requires
        game_of(t, p, c, ms, o),
    ensures
        !(o is Aborted),
{
    reveal(standing);
    reveal(asked);
    reveal(turn_at);
    let n = ms.len() as int;
    if t.answers.len() == n + 1 {
        let q = position_after(p, ms, n);
        assert(legal(q).len() > 0);
        assert(legal(q).contains(legal(q)[0]));
    }
}

/// The tables of a built-in engine at the start of a game and after each answer.
pub open spec fn tables_of(es: Seq<InternalEngine>) -> Seq<TableState> {
    es.map_values(|e: InternalEngine| e.tt@)
}

proof fn lemma_decided<W: ChessEngine, B: ChessEngine>(
    t: Transcript<W, B>,
    p: Pos,
    c: MatchConfig,
    ms: Seq<Move>,
    o: GameOutcome,
)
    requires
        game_of(t, p, c, ms, o),
    ensures
        decided(p, c, ms, t.answers, o),
        forall|i: int| 0 <= i < t.answers.len() ==> #[trigger] asked(t, p, c, ms, i),
{
    reveal(played);
    reveal(played_at);
    let n = ms.len() as int;
    assert forall|i: int| 0 <= i < t.answers.len() implies #[trigger] asked(t, p, c, ms, i) by {
        if i < n - 1 {
            assert(played_at(t, p, c, ms, i));
        } else if i == n - 1 {
            if !asked(t, p, c, ms, i) {
                assert(played_at(t, p, c, ms, i));
            }
        }
    }
    assert forall|i: int| 0 <= i < t.answers.len() implies #[trigger] standing_after(
        p,
        ms,
        i,
        c.max_moves as int,
    ) is None by {
        assert(asked(t, p, c, ms, i));
        reveal(asked);
    }
    if played(t, p, c, ms, n) {
        assert forall|i: int| 0 <= i < n implies #[trigger] turn_at(p, c, ms, t.answers, i)
            == Turn::Play(ms[i]) by {
            assert(played_at(t, p, c, ms, i));
        }
    } else {
        assert forall|i: int| 0 <= i < n - 1 implies #[trigger] turn_at(p, c, ms, t.answers, i)
            == Turn::Play(ms[i]) by {
            assert(played_at(t, p, c, ms, i));
        }
    }
}

/// Ask the engine to move, on a copy of the board, and see what follows.
fn ask<W: ChessEngine, B: ChessEngine>(
    board: &Board,
    legal_now: &MoveList,
    moves: &Vec<Move>,
    history: &Vec<u64>,
    streak: usize,
    config: &MatchConfig,
    white: &mut W,
    black: &mut B,
    Ghost(p): Ghost<Pos>,
    Ghost(t): Ghost<Transcript<W, B>>,
) -> (r: (Turn, usize, Ghost<Transcript<W, B>>))
    requires
        old(white).ready(),
        old(black).ready(),
        board.wf(),
        board.hashed(),
        valid(board@),
        legal_now@ == legal(board@),
        board@ == position_after(p, moves@, moves@.len() as int),
        history@ == hashes_before(p, moves@, moves@.len() as int),
        standing_after(p, moves@, moves@.len() as int, config.max_moves as int) is None,
        t.answers.len() == moves@.len(),
        t.white.len() == moves@.len() + 1,
        t.black.len() == moves@.len() + 1,
        t.white.last() == *old(white),
        t.black.last() == *old(black),
        played(t, p, *config, moves@, moves@.len() as int),
        streak < usize::MAX,
        streak == streak_before(t.answers, moves@.len() as int, config.adj_threshold as int),
    ensures
        final(white).ready(),
        final(black).ready(),
        ({
            let u = r.2@;
            let n = moves@.len() as int;
            &&& u.answers.len() == n + 1
            &&& u.white.len() == n + 2
            &&& u.black.len() == n + 2
            &&& u.white[0] == t.white[0]
            &&& u.black[0] == t.black[0]
            &&& u.white.last() == *final(white)
            &&& u.black.last() == *final(black)
            &&& played(u, p, *config, moves@, n)
            &&& asked(u, p, *config, moves@, n)
            &&& turn_at(p, *config, moves@, u.answers, n) == r.0
            &&& streak_before(u.answers, n + 1, config.adj_threshold as int) == r.1
        }),
        r.1 <= streak + 1,
        r.0 matches Turn::Play(mv) ==> legal(board@).contains(mv),
        r.0 matches Turn::Adjudicate(mv) ==> legal(board@).contains(mv),
        r.0 matches Turn::End(o) ==> o is Aborted,
{
    let mut shown = *board;
    let (answer, score) = if board.side_to_move == Color::White {
        white.get_move(&mut shown, moves, &config.tc, history)
    } else {
        black.get_move(&mut shown, moves, &config.tc, history)
    };
    let ghost u = lemma_asked(t, p, *config, moves@, *white, *black, (answer, score));
    let (turn, next) = take_turn(
        legal_now,
        answer,
        score,
        streak,
        config.adj_threshold,
        config.adj_min_moves,
    );
    (turn, next, Ghost(u))
}

/// Play a game from a position.
fn play_on<W: ChessEngine, B: ChessEngine>(
    start: Board,
    config: &MatchConfig,
    white: &mut W,
    black: &mut B,
) -> (r: (GameRecord, Ghost<Transcript<W, B>>))
    requires
        old(white).ready(),
        old(black).ready(),
        config.max_moves < usize::MAX,
        start.wf(),
        start.hashed(),
        valid(start@),
    ensures
        final(white).ready(),
        final(black).ready(),
        game_of(r.1@, start@, *config, r.0.moves@, r.0.outcome),
        r.1@.white[0] == *old(white),
        r.1@.black[0] == *old(black),
        r.1@.white.last() == *final(white),
        r.1@.black.last() == *final(black),
{
    let ghost p = start@;
    let max: usize = config.max_moves;
    let mut board = start;
    let mut moves: Vec<Move> = Vec::new();
    let mut history: Vec<u64> = Vec::new();
    let mut streak: usize = 0;
    let ghost mut t = Transcript::<W, B> {
        white: seq![*white],
        black: seq![*black],
        answers: Seq::empty(),
    };
    proof {
        reveal(played);
        assert(history@ =~= hashes_before(p, moves@, 0));
    }
    loop
        invariant
            p == start@,
            max == config.max_moves,
            max < usize::MAX,
            white.ready(),
            black.ready(),
            board.wf(),
            board.hashed(),
            valid(board@),
            board@ == position_after(p, moves@, moves@.len() as int),
            history@ == hashes_before(p, moves@, moves@.len() as int),
            moves@.len() <= max,
            streak <= moves@.len(),
            t.answers.len() == moves@.len(),
            t.white.len() == moves@.len() + 1,
            t.black.len() == moves@.len() + 1,
            t.white[0] == *old(white),
            t.black[0] == *old(black),
            t.white.last() == *white,
            t.black.last() == *black,
            played(t, p, *config, moves@, moves@.len() as int),
            streak == streak_before(
                t.answers,
                moves@.len() as int,
                config.adj_threshold as int,
            ),
        decreases max - moves@.len(),
    {
        let ghost before = moves@;
        proof {
            law_valid_moves_playable(board@);
        }
        let legal_now = board.legal_moves();
        if let Some(outcome) = judge(&board, &legal_now, &history, moves.len(), max) {
            return (GameRecord { moves, outcome }, Ghost(t));
        }
        proof {
            lemma_going_on(p, before, max as int);
        }
        let (turn, next, Ghost(u)) = ask(
            &board,
            &legal_now,
            &moves,
            &history,
            streak,
            config,
            white,
            black,
            Ghost(p),
            Ghost(t),
        );
        streak = next;
        match turn {
            Turn::End(outcome) => {
                return (GameRecord { moves, outcome }, Ghost(u));
            },
            Turn::Adjudicate(mv) => {
                proof {
                    lemma_asked_push(u, p, *config, before, mv);
                }
                moves.push(mv);
                return (
                    GameRecord { moves, outcome: GameOutcome::Draw(DrawReason::Adjudicated) },
                    Ghost(u),
                );
            },
            Turn::Play(mv) => {
                proof {
                    lemma_play(board@, board.hash, mv);
                    lemma_asked_push(u, p, *config, before, mv);
                    lemma_hashes_push(p, before, mv);
                    lemma_position_prefix(p, before, before.push(mv), before.len() as int);
                    t = u;
                }
                history.push(board.hash);
                let _ = board.make_move(mv);
                moves.push(mv);
            },
        }
    }
}

/// Play one game between `white` and `black` from an opening.
///
/// The engines get a copy of the board, so that nothing they do to it matters.
pub fn play_game_dyn<W: ChessEngine, B: ChessEngine>(
    opening_fen: &str,
    config: &MatchConfig,
    white: &mut W,
    black: &mut B,
) -> (r: GameRecord)
    requires
        old(white).ready(),
        old(black).ready(),
        config.max_moves < usize::MAX,
    ensures
        final(white).ready(),
        final(black).ready(),
        game_from(opening_fen@, config.max_moves as int, r.moves@, r.outcome),
        start_of(opening_fen@) is None ==> *final(white) == *old(white) && *final(black) == *old(
            black,
        ),
        start_of(opening_fen@) is Some ==> exists|t: Transcript<W, B>| #[trigger]
            game_between(
                t,
                opening_fen@,
                *config,
                *old(white),
                *old(black),
                *final(white),
                *final(black),
                r.moves@,
                r.outcome,
            ),
{
    let board = match Board::from_fen(opening_fen) {
        Ok(b) => b,
        Err(_) => {
            return GameRecord {
                moves: Vec::new(),
                outcome: GameOutcome::Aborted(AbortReason::NoMoveFound),
            };
        },
    };
    if !board.is_valid() {
        return GameRecord {
            moves: Vec::new(),
            outcome: GameOutcome::Aborted(AbortReason::NoMoveFound),
        };
    }
    white.new_game(opening_fen);
    black.new_game(opening_fen);
    let (record, Ghost(t)) = play_on(board, config, white, black);
    proof {
        reveal(game_between);
        law_game_is_fair(t, board@, *config, record.moves@, record.outcome);
        assert(game_between(
            t,
            opening_fen@,
            *config,
            *old(white),
            *old(black),
            *white,
            *black,
            record.moves@,
            record.outcome,
        ));
    }
    record
}

/// Play one game from an opening, with the built-in engine on both sides.
pub fn play_game(opening_fen: &str, config: &MatchConfig) -> (r: GameRecord)
    requires
        config.max_moves < usize::MAX,
    ensures
        game_from(opening_fen@, config.max_moves as int, r.moves@, r.outcome),
        self_game(opening_fen@, *config, r.moves@, r.outcome),
{
    let mut white = InternalEngine::new();
    let mut black = InternalEngine::new();
    let ghost fresh = (white, black);
    let r = play_game_dyn(opening_fen, config, &mut white, &mut black);
    proof {
        reveal(game_between);
        if start_of(opening_fen@) is Some {
            let t = choose|t: Transcript<InternalEngine, InternalEngine>| #[trigger]
                game_between(
                    t,
                    opening_fen@,
                    *config,
                    fresh.0,
                    fresh.1,
                    white,
                    black,
                    r.moves@,
                    r.outcome,
                );
            let p = start_of(opening_fen@)->0;
            law_self_game_not_aborted(t, p, *config, r.moves@, r.outcome);
            lemma_decided(t, p, *config, r.moves@, r.outcome);
            let w = tables_of(t.white);
            let b = tables_of(t.black);
            assert forall|i: int| 0 <= i < t.answers.len() implies #[trigger] tables_asked(
                w,
                b,
                t.answers,
                p,
                *config,
                r.moves@,
                i,
            ) by {
                assert(asked(t, p, *config, r.moves@, i));
                reveal(asked);
            }
            assert(table_game(w, b, t.answers, p, *config, r.moves@, r.outcome));
        }
    }
    r
}

/// Play one game from an opening between another engine and the built-in one.
pub fn play_against<E: ChessEngine>(
    opening_fen: &str,
    config: &MatchConfig,
    engine: &mut E,
    engine_white: bool,
) -> (r: GameRecord)
    requires
        old(engine).ready(),
        config.max_moves < usize::MAX,
    ensures
        final(engine).ready(),
        game_from(opening_fen@, config.max_moves as int, r.moves@, r.outcome),
        game_against(
            opening_fen@,
            *config,
            engine_white,
            *old(engine),
            *final(engine),
            r.moves@,
            r.outcome,
        ),
{
    let mut internal = InternalEngine::new();
    let ghost fresh = internal;
    let r = if engine_white {
        play_game_dyn(opening_fen, config, engine, &mut internal)
    } else {
        play_game_dyn(opening_fen, config, &mut internal, engine)
    };
    proof {
        reveal(game_between);
        if start_of(opening_fen@) is Some {
            let p = start_of(opening_fen@)->0;
            if engine_white {
                let t = choose|t: Transcript<E, InternalEngine>| #[trigger]
                    game_between(
                        t,
                        opening_fen@,
                        *config,
                        *old(engine),
                        fresh,
                        *engine,
                        internal,
                        r.moves@,
                        r.outcome,
                    );
                lemma_decided(t, p, *config, r.moves@, r.outcome);
                let b = tables_of(t.black);
                assert forall|i: int| 0 <= i < t.answers.len() implies #[trigger] either_asked(
                    t.white,
                    b,
                    t.answers,
                    true,
                    p,
                    *config,
                    r.moves@,
                    i,
                ) by {
                    assert(asked(t, p, *config, r.moves@, i));
                    reveal(asked);
                }
                assert(mixed_game(
                    t.white,
                    b,
                    t.answers,
                    true,
                    p,
                    *config,
                    r.moves@,
                    r.outcome,
                ));
            } else {
                let t = choose|t: Transcript<InternalEngine, E>| #[trigger]
                    game_between(
                        t,
                        opening_fen@,
                        *config,
                        fresh,
                        *old(engine),
                        internal,
                        *engine,
                        r.moves@,
                        r.outcome,
                    );
                lemma_decided(t, p, *config, r.moves@, r.outcome);
                let w = tables_of(t.white);
                assert forall|i: int| 0 <= i < t.answers.len() implies #[trigger] either_asked(
                    t.black,
                    w,
                    t.answers,
                    false,
                    p,
                    *config,
                    r.moves@,
                    i,
                ) by {
                    assert(asked(t, p, *config, r.moves@, i));
                    reveal(asked);
                }
                assert(mixed_game(
                    t.black,
                    w,
                    t.answers,
                    false,
                    p,
                    *config,
                    r.moves@,
                    r.outcome,
                ));
            }
        }
    }
    r
}

} // verus!
