//! Playing a match: the order of the games, the counts, and the log of results.

use crate::selfplay::config::MatchConfig;
use crate::selfplay::engine::ChessEngine;
use crate::selfplay::game::{game_against, game_from, play_against, play_game, self_game};
use crate::selfplay::outcome::{flip_outcome, GameOutcome, GameRecord, MatchResult};
use crate::text::{chars_of, text_is, texts, trim, trimmed, CharClass};
use vstd::prelude::*;

verus! {

/// How far a match has come.
#[derive(Clone, Copy, Debug, PartialEq, Eq, Structural)]
pub struct MatchProgress {
    /// Games played.
    pub game_idx: usize,
    /// The opening of the next game.
    pub opening_idx: usize,
    pub result: MatchResult,
}

impl MatchProgress {
    /// The start of a match.
    pub fn new() -> (r: MatchProgress)
        ensures
            r.game_idx == 0,
            r.opening_idx == 0,
            r.result.sum() == 0,
            r.result == none_played(),
    {
        MatchProgress { game_idx: 0, opening_idx: 0, result: MatchResult::default() }
    }

    /// A match that goes on from a log of results: every line counts as a game,
    /// and the letters `W`, `D` and `L` as results.
    pub fn resumed(lines: &Vec<String>, paired: bool) -> (r: MatchProgress)
        ensures
            r.game_idx == lines@.len(),
            r.opening_idx == (if paired {
                lines@.len() / 2
            } else {
                lines@.len()
            }),
            r.result == saved_result(texts(lines@)),
            r.result.sum() <= lines@.len(),
    {
        let (w, d, l) = read_saved_results(lines);
        let n: usize = lines.len();
        MatchProgress {
            game_idx: n,
            opening_idx: if paired {
                n / 2
            } else {
                n
            },
            result: MatchResult { white_wins: w, draws: d, black_wins: l, aborts: 0 },
        }
    }

    /// In a paired match every second game is played with the colors exchanged.
    pub fn is_flipped(&self, paired: bool) -> (r: bool)
        ensures
            r == (paired && self.game_idx % 2 == 1),
    {
        paired && self.game_idx % 2 == 1
    }

    /// The progress after one more game. The next opening follows after each
    /// game, or after each pair of games.
    pub open spec fn after(self, o: GameOutcome, paired: bool) -> MatchProgress {
        MatchProgress {
            game_idx: (self.game_idx + 1) as usize,
            opening_idx: if !paired || (self.game_idx + 1) % 2 == 0 {
                (self.opening_idx + 1) as usize
            } else {
                self.opening_idx
            },
            result: self.result.with(o),
        }
    }

    /// Count one more game.
    pub fn advance(&mut self, o: GameOutcome, paired: bool)
        requires
            can_advance(*old(self)),
        ensures
            *final(self) == old(self).after(o, paired),
            final(self).result.sum() == old(self).result.sum() + 1,
    {
        self.result.record(o);
        self.game_idx = self.game_idx + 1;
        if !paired || self.game_idx % 2 == 0 {
            self.opening_idx = self.opening_idx + 1;
        }
    }
}

/// The number of lines among the first `n` that hold only the letter `c`, apart
/// from space around it.
pub open spec fn lines_with(lines: Seq<Seq<char>>, c: char, n: int) -> int
    decreases n,
{
    if n <= 0 {
        0
    } else {
        lines_with(lines, c, n - 1) + (if trim(lines[n - 1], CharClass::Space) == seq![c] {
            1int
        } else {
            0
        })
    }
}

/// Count the wins, draws and losses in a log of results.
pub fn read_saved_results(lines: &Vec<String>) -> (r: (u64, u64, u64))
    ensures
        r.0 == lines_with(texts(lines@), 'W', lines@.len() as int),
        r.1 == lines_with(texts(lines@), 'D', lines@.len() as int),
        r.2 == lines_with(texts(lines@), 'L', lines@.len() as int),
        r.0 + r.1 + r.2 <= lines@.len(),
{
    let ghost ts = texts(lines@);
    let (mut w, mut d, mut l): (u64, u64, u64) = (0, 0, 0);
    let mut i: usize = 0;
    proof {
        reveal_strlit("W");
        reveal_strlit("D");
        reveal_strlit("L");
        assert("W"@ =~= seq!['W']);
        assert("D"@ =~= seq!['D']);
        assert("L"@ =~= seq!['L']);
        assert(seq!['W'][0] != seq!['D'][0]);
        assert(seq!['W'][0] != seq!['L'][0]);
        assert(seq!['D'][0] != seq!['L'][0]);
    }
    while i < lines.len()
        invariant
            i <= lines@.len(),
            ts == texts(lines@),
            w + d + l <= i,
            w == lines_with(ts, 'W', i as int),
            d == lines_with(ts, 'D', i as int),
            l == lines_with(ts, 'L', i as int),
            "W"@ == seq!['W'],
            "D"@ == seq!['D'],
            "L"@ == seq!['L'],
            seq!['W'] != seq!['D'],
            seq!['W'] != seq!['L'],
            seq!['D'] != seq!['L'],
        decreases lines@.len() - i,
    {
        proof {
            assert(ts[i as int] == lines@[i as int]@);
        }
        let t = trimmed(&chars_of(lines[i].as_str()), CharClass::Space);
        if text_is(&t, "W") {
            w += 1;
        } else if text_is(&t, "D") {
            d += 1;
        } else if text_is(&t, "L") {
            l += 1;
        }
        i += 1;
    }
    (w, d, l)
}

/// The opening that game `i` of a self-play match starts from.
pub open spec fn opening_of(i: int, paired: bool) -> int {
    if paired {
        i / 2
    } else {
        i
    }
}

/// A result with the first `n` games added to it.
pub open spec fn tallied(first: MatchResult, rs: Seq<GameRecord>, n: int) -> MatchResult
    decreases n,
{
    if n <= 0 {
        first
    } else {
        tallied(first, rs, n - 1).with(rs[n - 1].outcome)
    }
}

/// The result before any game.
pub open spec fn none_played() -> MatchResult {
    MatchResult { white_wins: 0, draws: 0, black_wins: 0, aborts: 0 }
}

proof fn lemma_tallied_prefix(first: MatchResult, a: Seq<GameRecord>, b: Seq<GameRecord>, n: int)
    requires
        n <= a.len(),
        n <= b.len(),
        forall|i: int| 0 <= i < n ==> a[i] == b[i],
    ensures
        tallied(first, a, n) == tallied(first, b, n),
    decreases n,
{
    if n > 0 {
        lemma_tallied_prefix(first, a, b, n - 1);
    }
}

/// The result that a log of results holds.
pub open spec fn saved_result(lines: Seq<Seq<char>>) -> MatchResult {
    MatchResult {
        white_wins: lines_with(lines, 'W', lines.len() as int) as u64,
        draws: lines_with(lines, 'D', lines.len() as int) as u64,
        black_wins: lines_with(lines, 'L', lines.len() as int) as u64,
        aborts: 0,
    }
}

/// The record is that of a game from an opening, seen from the other side if it
/// was played with the colors exchanged.
pub open spec fn seen_game(config: MatchConfig, opening: int, flipped: bool, r: GameRecord) -> bool {
    game_from(
        config.openings.at(opening),
        config.max_moves as int,
        r.moves@,
        if flipped {
            r.outcome.flipped()
        } else {
            r.outcome
        },
    )
}

/// The record is that of a self-play game from an opening, seen from the other
/// side if it counts as played with the colors exchanged.
pub open spec fn seen_self_game(
    config: MatchConfig,
    opening: int,
    flipped: bool,
    r: GameRecord,
) -> bool {
    self_game(
        config.openings.at(opening),
        config,
        r.moves@,
        if flipped {
            r.outcome.flipped()
        } else {
            r.outcome
        },
    )
}

/// The progress leaves room for one more game.
pub open spec fn can_advance(m: MatchProgress) -> bool {
    m.game_idx < usize::MAX && m.opening_idx < usize::MAX && m.result.sum() < u64::MAX
}

/// Play the next game of a self-play match and count it.
pub fn play_next_self(config: &MatchConfig, progress: &mut MatchProgress) -> (r: GameRecord)
    requires
        config.max_moves < usize::MAX,
        can_advance(*old(progress)),
    ensures
        seen_game(
            *config,
            old(progress).opening_idx as int,
            config.paired && old(progress).game_idx % 2 == 1,
            r,
        ),
        seen_self_game(
            *config,
            old(progress).opening_idx as int,
            config.paired && old(progress).game_idx % 2 == 1,
            r,
        ),
        *final(progress) == old(progress).after(r.outcome, config.paired),
        final(progress).result.sum() == old(progress).result.sum() + 1,
{
    let flipped = progress.is_flipped(config.paired);
    let raw = play_game(config.openings.pick(progress.opening_idx), config);
    let outcome = if flipped {
        flip_outcome(raw.outcome)
    } else {
        raw.outcome
    };
    progress.advance(outcome, config.paired);
    GameRecord { moves: raw.moves, outcome }
}

/// Play the next game of a match against another engine and count it. The
/// internal engine has White, and Black in every second game of a paired match;
/// the outcome is recorded from its point of view.
pub fn play_next_against<B: ChessEngine>(
    config: &MatchConfig,
    progress: &mut MatchProgress,
    baseline: &mut B,
) -> (r: GameRecord)
    requires
        config.max_moves < usize::MAX,
        can_advance(*old(progress)),
        old(baseline).ready(),
    ensures
        final(baseline).ready(),
        seen_game(
            *config,
            old(progress).opening_idx as int,
            config.paired && old(progress).game_idx % 2 == 1,
            r,
        ),
        ({
            let flipped = config.paired && old(progress).game_idx % 2 == 1;
            game_against(
                config.openings.at(old(progress).opening_idx as int),
                *config,
                flipped,
                *old(baseline),
                *final(baseline),
                r.moves@,
                if flipped {
                    r.outcome.flipped()
                } else {
                    r.outcome
                },
            )
        }),
        *final(progress) == old(progress).after(r.outcome, config.paired),
        final(progress).result.sum() == old(progress).result.sum() + 1,
{
    let flipped = progress.is_flipped(config.paired);
    let fen = config.openings.pick(progress.opening_idx);
    let raw = play_against(fen, config, baseline, flipped);
    let outcome = if flipped {
        flip_outcome(raw.outcome)
    } else {
        raw.outcome
    };
    progress.advance(outcome, config.paired);
    GameRecord { moves: raw.moves, outcome }
}

/// Play a self-play match of a fixed number of games (internal engine against
/// itself) and collect the games. The lines of `saved` are the results of games
/// that were played before: they count, and only the games that are still missing
/// are played.
pub fn play_match(config: &MatchConfig, saved: &Vec<String>) -> (r: (MatchResult, Vec<GameRecord>))
    requires
        config.max_moves < usize::MAX,
        config.games < usize::MAX,
    ensures
        r.1@.len() == (if saved@.len() < config.games {
            config.games - saved@.len()
        } else {
            0
        }),
        r.0 == tallied(saved_result(texts(saved@)), r.1@, r.1@.len() as int),
        r.0.sum() == saved_result(texts(saved@)).sum() + r.1@.len(),
        forall|i: int|
            0 <= i < r.1@.len() ==> {
                let k = saved@.len() + i;
                &&& seen_game(
                    *config,
                    opening_of(k, config.paired),
                    config.paired && k % 2 == 1,
                    #[trigger] r.1@[i],
                )
                &&& seen_self_game(
                    *config,
                    opening_of(k, config.paired),
                    config.paired && k % 2 == 1,
                    r.1@[i],
                )
            },
{
    let mut progress = MatchProgress::resumed(saved, config.paired);
    let ghost first = progress.result;
    let mut records: Vec<GameRecord> = Vec::new();
    while progress.game_idx < config.games
        invariant
            config.max_moves < usize::MAX,
            config.games < usize::MAX,
            first == saved_result(texts(saved@)),
            first.sum() <= saved@.len(),
            progress.game_idx == saved@.len() + records@.len(),
            progress.game_idx <= config.games || records@.len() == 0,
            progress.opening_idx == opening_of(progress.game_idx as int, config.paired),
            progress.result.sum() == first.sum() + records@.len(),
            progress.result == tallied(first, records@, records@.len() as int),
            forall|i: int|
                0 <= i < records@.len() ==> {
                    let k = saved@.len() + i;
                    &&& seen_game(
                        *config,
                        opening_of(k, config.paired),
                        config.paired && k % 2 == 1,
                        #[trigger] records@[i],
                    )
                    &&& seen_self_game(
                        *config,
                        opening_of(k, config.paired),
                        config.paired && k % 2 == 1,
                        records@[i],
                    )
                },
        decreases config.games - progress.game_idx,
    {
        let ghost before = records@;
        let record = play_next_self(config, &mut progress);
        records.push(record);
        proof {
            let n = before.len() as int;
            lemma_tallied_prefix(first, before, records@, n);
            assert forall|i: int| 0 <= i < records@.len() implies {
                let k = saved@.len() + i;
                &&& seen_game(
                    *config,
                    opening_of(k, config.paired),
                    config.paired && k % 2 == 1,
                    #[trigger] records@[i],
                )
                &&& seen_self_game(
                    *config,
                    opening_of(k, config.paired),
                    config.paired && k % 2 == 1,
                    records@[i],
                )
            } by {
                if i < n {
                    assert(records@[i] == before[i]);
                }
            }
        }
    }
    (progress.result, records)
}

/// A paired match plays each opening in turn exactly twice: in the two games of
/// a pair.
pub proof fn law_pairs_share_openings(i: int, k: int)
    requires
        0 <= i,
        0 <= k,
    ensures
        opening_of(i, true) == k <==> i == 2 * k || i == 2 * k + 1,
{
}

} // verus!
