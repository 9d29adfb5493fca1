//! How a game ends, and how a match is counted.

use crate::movegen::moves::Move;
use crate::text::{chars_of, digits, number_chars, push_chars, string_of};
use vstd::prelude::*;

verus! {

/// Why a game was drawn.
#[derive(Clone, Copy, Debug, PartialEq, Eq, Structural)]
pub enum DrawReason {
    Stalemate,
    FiftyMoveDraw,
    Repetition,
    /// The game was adjudicated before its natural end.
    Adjudicated,
}

/// Why a game was aborted (not a normal result).
#[derive(Clone, Copy, Debug, PartialEq, Eq, Structural)]
pub enum AbortReason {
    /// The engine returned a move that is not legal.
    IllegalMove,
    /// The engine returned no move although there are legal moves.
    NoMoveFound,
}

/// The final result of a single game.
#[derive(Clone, Copy, Debug, PartialEq, Eq, Structural)]
pub enum GameOutcome {
    /// The side playing White delivered checkmate.
    WhiteWins,
    /// The side playing Black delivered checkmate.
    BlackWins,
    Draw(DrawReason),
    /// Game ended abnormally.
    Aborted(AbortReason),
}

impl GameOutcome {
    /// The outcome in words.
    pub open spec fn words(self) -> Seq<char> {
        match self {
            GameOutcome::WhiteWins => "White wins"@,
            GameOutcome::BlackWins => "Black wins"@,
            GameOutcome::Draw(DrawReason::Stalemate) => "Draw (stalemate)"@,
            GameOutcome::Draw(DrawReason::FiftyMoveDraw) => "Draw (50-move)"@,
            GameOutcome::Draw(DrawReason::Repetition) => "Draw (repetition)"@,
            GameOutcome::Draw(DrawReason::Adjudicated) => "Draw (adjudicated)"@,
            GameOutcome::Aborted(AbortReason::IllegalMove) => "ABORT: illegal move"@,
            GameOutcome::Aborted(AbortReason::NoMoveFound) => "ABORT: no move"@,
        }
    }

    /// The outcome in words.
    pub fn text(self) -> (r: &'static str)
        ensures
            r@ == self.words(),
    {
        match self {
            GameOutcome::WhiteWins => "White wins",
            GameOutcome::BlackWins => "Black wins",
            GameOutcome::Draw(DrawReason::Stalemate) => "Draw (stalemate)",
            GameOutcome::Draw(DrawReason::FiftyMoveDraw) => "Draw (50-move)",
            GameOutcome::Draw(DrawReason::Repetition) => "Draw (repetition)",
            GameOutcome::Draw(DrawReason::Adjudicated) => "Draw (adjudicated)",
            GameOutcome::Aborted(AbortReason::IllegalMove) => "ABORT: illegal move",
            GameOutcome::Aborted(AbortReason::NoMoveFound) => "ABORT: no move",
        }
    }

    /// The outcome with the colors exchanged.
    pub open spec fn flipped(self) -> GameOutcome {
        match self {
            GameOutcome::WhiteWins => GameOutcome::BlackWins,
            GameOutcome::BlackWins => GameOutcome::WhiteWins,
            other => other,
        }
    }

    /// The letter that a finished game leaves in the log.
    pub open spec fn letter(self) -> Option<char> {
        match self {
            GameOutcome::WhiteWins => Some('W'),
            GameOutcome::BlackWins => Some('L'),
            GameOutcome::Draw(_) => Some('D'),
            GameOutcome::Aborted(_) => None,
        }
    }

    /// The letter that a finished game leaves in the log.
    pub fn log_letter(self) -> (r: Option<char>)
        ensures
            r == self.letter(),
    {
        match self {
            GameOutcome::WhiteWins => Some('W'),
            GameOutcome::BlackWins => Some('L'),
            GameOutcome::Draw(_) => Some('D'),
            GameOutcome::Aborted(_) => None,
        }
    }
}

/// The outcome with the colors exchanged.
pub fn flip_outcome(o: GameOutcome) -> (r: GameOutcome)
    ensures
        r == o.flipped(),
{
    match o {
        GameOutcome::WhiteWins => GameOutcome::BlackWins,
        GameOutcome::BlackWins => GameOutcome::WhiteWins,
        other => other,
    }
}

/// Exchanging the colors twice changes nothing.
pub proof fn law_flip_twice(o: GameOutcome)
    ensures
        o.flipped().flipped() == o,
{
}

/// Complete record of a single played game.
pub struct GameRecord {
    /// The moves played (may be partial for aborted games).
    pub moves: Vec<Move>,
    pub outcome: GameOutcome,
}

/// Aggregate statistics from a match.
#[derive(Clone, Copy, Debug, PartialEq, Eq, Structural)]
pub struct MatchResult {
    /// Games won by the side playing White.
    pub white_wins: u64,
    /// Games drawn for any reason.
    pub draws: u64,
    /// Games won by the side playing Black.
    pub black_wins: u64,
    /// Games that ended because of an engine fault.
    pub aborts: u64,
}

impl Default for MatchResult {
    /// No games.
    fn default() -> (r: MatchResult)
        ensures
            r == (MatchResult { white_wins: 0, draws: 0, black_wins: 0, aborts: 0 }),
    {
        MatchResult { white_wins: 0, draws: 0, black_wins: 0, aborts: 0 }
    }
}

impl MatchResult {
    /// The number of games.
    pub open spec fn sum(self) -> int {
        self.white_wins + self.draws + self.black_wins + self.aborts
    }

    /// Total games recorded (including aborts).
    pub fn total(&self) -> (r: u64)
        requires
            self.sum() <= u64::MAX,
        ensures
            r == self.sum(),
    {
        self.white_wins + self.draws + self.black_wins + self.aborts
    }

    /// The result with one more game.
    pub open spec fn with(self, o: GameOutcome) -> MatchResult {
        match o {
            GameOutcome::WhiteWins => MatchResult {
                white_wins: (self.white_wins + 1) as u64,
                ..self
            },
            GameOutcome::BlackWins => MatchResult {
                black_wins: (self.black_wins + 1) as u64,
                ..self
            },
            GameOutcome::Draw(_) => MatchResult { draws: (self.draws + 1) as u64, ..self },
            GameOutcome::Aborted(_) => MatchResult { aborts: (self.aborts + 1) as u64, ..self },
        }
    }

    /// Count one more game.
    pub fn record(&mut self, o: GameOutcome)
        requires
            old(self).sum() < u64::MAX,
        ensures
            *final(self) == old(self).with(o),
            final(self).sum() == old(self).sum() + 1,
    {
        match o {
            GameOutcome::WhiteWins => {
                self.white_wins = self.white_wins + 1;
            },
            GameOutcome::BlackWins => {
                self.black_wins = self.black_wins + 1;
            },
            GameOutcome::Draw(_) => {
                self.draws = self.draws + 1;
            },
            GameOutcome::Aborted(_) => {
                self.aborts = self.aborts + 1;
            },
        }
    }

    /// The counts as text.
    pub open spec fn counts(self) -> Seq<char> {
        "W:"@ + digits(self.white_wins as int) + " D:"@ + digits(self.draws as int) + " L:"@
            + digits(self.black_wins as int) + "  aborts:"@ + digits(self.aborts as int)
    }

    /// The counts as text, such as `W:4 D:6 L:3  aborts:1`.
    pub fn text(&self) -> (r: String)
        ensures
            r@ == self.counts(),
    {
        let mut out = string_of(&chars_of("W:"));
        push_chars(&mut out, &number_chars(self.white_wins));
        push_chars(&mut out, &chars_of(" D:"));
        push_chars(&mut out, &number_chars(self.draws));
        push_chars(&mut out, &chars_of(" L:"));
        push_chars(&mut out, &number_chars(self.black_wins));
        push_chars(&mut out, &chars_of("  aborts:"));
        push_chars(&mut out, &number_chars(self.aborts));
        out
    }
}

} // verus!
