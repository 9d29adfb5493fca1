//! What a check of the search can find wrong, and how it is told.

use crate::search::MATE;
use crate::text::{chars_of, digits, number_chars, push_chars, signed_chars, signed_text};
use vstd::prelude::*;

verus! {

/// What a check of the search can find wrong.
#[derive(Debug)]
pub enum VerificationFailure {
    /// The position cannot be read; the message says why.
    FenParseError(String),
    /// No game can go on from the position.
    Unplayable,
    /// The engine returned a move that is not legal.
    IllegalRootMove { mv: String },
    /// The engine returned no move although there are legal moves.
    NoMoveReturned,
    /// The score is beyond that of mate.
    ScoreOutOfBounds { score: i32 },
    /// The principal variation holds an illegal move at the given ply.
    IllegalPvMove { mv: String, at_ply: usize },
    /// Two identical searches gave different moves or scores.
    NonDeterministic { run1: String, run2: String },
    /// The position is a forced mate but the score is not that of a mate.
    NotMateScore { score: i32 },
    /// The mate takes longer than expected.
    MateDistanceTooLong { expected_moves: i32, actual_plies: i32 },
    /// The engine played another move than expected.
    WrongBestMove { expected: String, found: Option<String> },
    /// The transposition table holds another move for the root.
    TtRootMismatch { search_move: String, tt_move: Option<String> },
}

/// What a check of the search can find wrong, with texts as sequences.
pub enum Fault {
    FenParseError(Seq<char>),
    Unplayable,
    IllegalRootMove { mv: Seq<char> },
    NoMoveReturned,
    ScoreOutOfBounds { score: int },
    IllegalPvMove { mv: Seq<char>, at_ply: int },
    NonDeterministic { run1: Seq<char>, run2: Seq<char> },
    NotMateScore { score: int },
    MateDistanceTooLong { expected_moves: int, actual_plies: int },
    WrongBestMove { expected: Seq<char>, found: Option<Seq<char>> },
    TtRootMismatch { search_move: Seq<char>, tt_move: Option<Seq<char>> },
}

/// The text of an optional string.
pub open spec fn opt_text(s: Option<String>) -> Option<Seq<char>> {
    match s {
        Some(t) => Some(t@),
        None => None,
    }
}

impl View for VerificationFailure {
    type V = Fault;

    open spec fn view(&self) -> Fault {
        match self {
            VerificationFailure::FenParseError(e) => Fault::FenParseError(e@),
            VerificationFailure::Unplayable => Fault::Unplayable,
            VerificationFailure::IllegalRootMove { mv } => Fault::IllegalRootMove { mv: mv@ },
            VerificationFailure::NoMoveReturned => Fault::NoMoveReturned,
            VerificationFailure::ScoreOutOfBounds { score } => Fault::ScoreOutOfBounds {
                score: *score as int,
            },
            VerificationFailure::IllegalPvMove { mv, at_ply } => Fault::IllegalPvMove {
                mv: mv@,
                at_ply: *at_ply as int,
            },
            VerificationFailure::NonDeterministic { run1, run2 } => Fault::NonDeterministic {
                run1: run1@,
                run2: run2@,
            },
            VerificationFailure::NotMateScore { score } => Fault::NotMateScore {
                score: *score as int,
            },
            VerificationFailure::MateDistanceTooLong { expected_moves, actual_plies } =>
                Fault::MateDistanceTooLong {
                expected_moves: *expected_moves as int,
                actual_plies: *actual_plies as int,
            },
            VerificationFailure::WrongBestMove { expected, found } => Fault::WrongBestMove {
                expected: expected@,
                found: opt_text(*found),
            },
            VerificationFailure::TtRootMismatch { search_move, tt_move } => Fault::TtRootMismatch {
                search_move: search_move@,
                tt_move: opt_text(*tt_move),
            },
        }
    }
}

/// An optional text in quotes.
pub open spec fn quoted(t: Option<Seq<char>>) -> Seq<char> {
    match t {
        Some(s) => "Some(\""@ + s + "\")"@,
        None => "None"@,
    }
}

/// How a fault is told.
pub open spec fn fault_text(f: Fault) -> Seq<char> {
    match f {
        Fault::FenParseError(e) => "FEN parse error: "@ + e,
        Fault::Unplayable => "no game can go on from the position"@,
        Fault::IllegalRootMove { mv } => "illegal root move returned: "@ + mv,
        Fault::NoMoveReturned => "no move returned despite legal moves"@,
        Fault::ScoreOutOfBounds { score } => "score "@ + signed_text(score)
            + " out of bounds (±MATE=29000)"@,
        Fault::IllegalPvMove { mv, at_ply } => "illegal PV move "@ + mv + " at ply "@ + digits(
            at_ply,
        ),
        Fault::NonDeterministic { run1, run2 } => "non-deterministic: '"@ + run1 + "' vs '"@ + run2
            + "'"@,
        Fault::NotMateScore { score } => "expected mate score, got cp "@ + signed_text(score),
        Fault::MateDistanceTooLong { expected_moves, actual_plies } => "mate in >"@ + signed_text(
            expected_moves,
        ) + " moves (plies="@ + signed_text(actual_plies) + ")"@,
        Fault::WrongBestMove { expected, found } => "expected "@ + expected + " found "@
            + match found {
            Some(s) => s,
            None => "(none)"@,
        },
        Fault::TtRootMismatch { search_move, tt_move } => "TT has "@ + quoted(tt_move)
            + " but search returned "@ + search_move,
    }
}

fn say(out: &mut String, s: &str)
    ensures
        final(out)@ == old(out)@ + s@,
{
    push_chars(out, &chars_of(s));
}

fn say_number(out: &mut String, n: i32)
    ensures
        final(out)@ == old(out)@ + signed_text(n as int),
{
    push_chars(out, &signed_chars(n as i64));
}

impl VerificationFailure {
    /// How the fault is told.
    pub fn message(&self) -> (r: String)
        ensures
            r@ == fault_text(self@),
    {
        let mut out = String::new();
        match self {
            VerificationFailure::FenParseError(e) => {
                say(&mut out, "FEN parse error: ");
                say(&mut out, e.as_str());
            },
            VerificationFailure::Unplayable => {
                say(&mut out, "no game can go on from the position");
            },
            VerificationFailure::IllegalRootMove { mv } => {
                say(&mut out, "illegal root move returned: ");
                say(&mut out, mv.as_str());
            },
            VerificationFailure::NoMoveReturned => {
                say(&mut out, "no move returned despite legal moves");
            },
            VerificationFailure::ScoreOutOfBounds { score } => {
                say(&mut out, "score ");
                say_number(&mut out, *score);
                say(&mut out, " out of bounds (±MATE=29000)");
            },
            VerificationFailure::IllegalPvMove { mv, at_ply } => {
                say(&mut out, "illegal PV move ");
                say(&mut out, mv.as_str());
                say(&mut out, " at ply ");
                push_chars(&mut out, &number_chars(*at_ply as u64));
            },
            VerificationFailure::NonDeterministic { run1, run2 } => {
                say(&mut out, "non-deterministic: '");
                say(&mut out, run1.as_str());
                say(&mut out, "' vs '");
                say(&mut out, run2.as_str());
                say(&mut out, "'");
            },
            VerificationFailure::NotMateScore { score } => {
                say(&mut out, "expected mate score, got cp ");
                say_number(&mut out, *score);
            },
            VerificationFailure::MateDistanceTooLong { expected_moves, actual_plies } => {
                say(&mut out, "mate in >");
                say_number(&mut out, *expected_moves);
                say(&mut out, " moves (plies=");
                say_number(&mut out, *actual_plies);
                say(&mut out, ")");
            },
            VerificationFailure::WrongBestMove { expected, found } => {
                say(&mut out, "expected ");
                say(&mut out, expected.as_str());
                say(&mut out, " found ");
                match found {
                    Some(s) => say(&mut out, s.as_str()),
                    None => say(&mut out, "(none)"),
                }
            },
            VerificationFailure::TtRootMismatch { search_move, tt_move } => {
                say(&mut out, "TT has ");
                match tt_move {
                    Some(s) => {
                        say(&mut out, "Some(\"");
                        say(&mut out, s.as_str());
                        say(&mut out, "\")");
                    },
                    None => say(&mut out, "None"),
                }
                say(&mut out, " but search returned ");
                say(&mut out, search_move.as_str());
            },
        }
        proof {
            assert(out@ =~= fault_text(self@));
        }
        out
    }
}

} // verus!
