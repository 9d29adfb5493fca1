//! The lines that are exchanged with another engine.

use crate::movegen::find::{first_where, law_first_where};
use crate::movegen::moves::{Move, MoveList};
use crate::selfplay::config::TimeControl;
use crate::text::{
    chars_of, digits, number_chars, parse_i32, push_chars, signed_chars, signed_text, signed_value,
    slice_of, split_words, string_of, text_is, words,
};
use crate::uci::parser::{parse_move, written_as};
use vstd::prelude::*;

verus! {

/// The moves of a list, each behind a space.
pub open spec fn spaced_moves(ms: Seq<Move>, n: int) -> Seq<char>
    decreases n,
{
    if n <= 0 {
        Seq::empty()
    } else {
        spaced_moves(ms, n - 1) + seq![' '] + ms[n - 1].uci()
    }
}

/// The command that sets up a position: the opening and the moves from there.
pub open spec fn position_text(fen: Seq<char>, ms: Seq<Move>) -> Seq<char> {
    if ms.len() == 0 {
        "position fen "@ + fen
    } else {
        "position fen "@ + fen + " moves"@ + spaced_moves(ms, ms.len() as int)
    }
}

/// The command that sets up a position.
pub fn position_command(fen: &str, moves: &Vec<Move>) -> (r: String)
    ensures
        r@ == position_text(fen@, moves@),
{
    let mut out = string_of(&chars_of("position fen "));
    push_chars(&mut out, &chars_of(fen));
    if moves.len() > 0 {
        push_chars(&mut out, &chars_of(" moves"));
        let ghost head = out@;
        let mut i: usize = 0;
        proof {
            assert(head + Seq::<char>::empty() =~= head);
        }
        while i < moves.len()
            invariant
                i <= moves@.len(),
                out@ == head + spaced_moves(moves@, i as int),
            decreases moves@.len() - i,
        {
            out.push(' ');
            push_chars(&mut out, &moves[i].uci_chars());
            proof {
                assert(out@ =~= head + spaced_moves(moves@, i + 1));
            }
            i += 1;
        }
    }
    out
}

/// The command that starts a search.
pub open spec fn go_text(tc: TimeControl) -> Seq<char> {
    match tc {
        TimeControl::FixedDepth(d) => "go depth "@ + digits(d as int),
        TimeControl::MoveTime(ms) => "go movetime "@ + digits(ms as int),
    }
}

/// The command that starts a search.
pub fn go_command(tc: &TimeControl) -> (r: String)
    ensures
        r@ == go_text(*tc),
{
    match tc {
        TimeControl::FixedDepth(d) => {
            let mut out = string_of(&chars_of("go depth "));
            push_chars(&mut out, &number_chars(*d as u64));
            out
        },
        TimeControl::MoveTime(ms) => {
            let mut out = string_of(&chars_of("go movetime "));
            push_chars(&mut out, &number_chars(*ms));
            out
        },
    }
}

/// The command that sets an option to a number.
pub fn setoption_command(name: &str, value: i32) -> (r: String)
    ensures
        r@ == "setoption name "@ + name@ + " value "@ + signed_text(value as int),
{
    let mut out = string_of(&chars_of("setoption name "));
    push_chars(&mut out, &chars_of(name));
    push_chars(&mut out, &chars_of(" value "));
    push_chars(&mut out, &signed_chars(value as i64));
    out
}

/// The value behind the first `score cp` at or behind word `i`, if it is a
/// number. The word behind another `score` is skipped.
pub open spec fn score_in(ws: Seq<Seq<char>>, i: int) -> Option<int>
    decreases ws.len() - i,
{
    if i >= ws.len() {
        None
    } else if ws[i] != "score"@ {
        score_in(ws, i + 1)
    } else if i + 1 >= ws.len() {
        None
    } else if ws[i + 1] != "cp"@ {
        score_in(ws, i + 2)
    } else if i + 2 >= ws.len() {
        None
    } else {
        signed_value(ws[i + 2], i32::MIN as int, i32::MAX as int)
    }
}

/// The score that an `info` line tells.
pub open spec fn line_score(line: Seq<char>) -> Option<int> {
    score_in(words(line), 0)
}

/// Extract the `score cp N` value from a UCI `info` line, if present.
pub fn parse_score_cp(info: &str) -> (r: Option<i32>)
    ensures
        match r {
            Some(n) => line_score(info@) == Some(n as int),
            None => line_score(info@) is None,
        },
{
    let ws = split_words(&chars_of(info));
    let ghost spec_ws = words(info@);
    let mut i: usize = 0;
    while i < ws.len()
        invariant
            i <= ws@.len() + 1,
            spec_ws == words(info@),
            ws@.len() == spec_ws.len(),
            forall|k: int| 0 <= k < ws@.len() ==> #[trigger] ws@[k]@ == spec_ws[k],
            score_in(spec_ws, i as int) == line_score(info@),
        decreases ws@.len() + 1 - i,
    {
        if !text_is(&ws[i], "score") {
            i += 1;
        } else if ws.len() - i == 1 {
            return None;
        } else if !text_is(&ws[i + 1], "cp") {
            i += 2;
        } else if ws.len() - i == 2 {
            return None;
        } else {
            return parse_i32(&ws[i + 2]);
        }
    }
    None
}

/// What a line of an engine's answer says.
#[derive(Clone, Copy, Debug, PartialEq, Eq, Structural)]
pub enum EngineLine {
    /// An `info` line, with its score if it has one.
    Info(Option<i32>),
    /// The engine's choice, if it is a legal move.
    BestMove(Option<Move>),
    /// Anything else.
    Other,
}

/// The text starts with `head`.
pub open spec fn starts_with(s: Seq<char>, head: Seq<char>) -> bool {
    s.len() >= head.len() && s.take(head.len() as int) == head
}

/// The move that a `bestmove` line names, if it is one of the given ones.
pub open spec fn named_move(rest: Seq<char>, ms: Seq<Move>) -> Option<Move> {
    let ws = words(rest);
    if ws.len() == 0 || ws[0] == "(none)"@ {
        None
    } else {
        first_where(ms, written_as(ws[0]))
    }
}

/// What a line of an engine's answer says.
pub open spec fn line_meaning(line: Seq<char>, ms: Seq<Move>, r: EngineLine) -> bool {
    if starts_with(line, "info"@) {
        match line_score(line) {
            Some(n) => r matches EngineLine::Info(Some(k)) && k == n,
            None => r == EngineLine::Info(None),
        }
    } else if starts_with(line, "bestmove "@) {
        r == EngineLine::BestMove(named_move(line.skip("bestmove "@.len() as int), ms))
    } else {
        r == EngineLine::Other
    }
}

fn has_prefix(s: &Vec<char>, head: &Vec<char>) -> (r: bool)
    ensures
        r == starts_with(s@, head@),
{
    if s.len() < head.len() {
        return false;
    }
    proof {
        assert(s@.subrange(0, head@.len() as int) =~= s@.take(head@.len() as int));
    }
    crate::text::same_text(&slice_of(s, 0, head.len()), head)
}

/// Read a line of an engine's answer, in a position with the given legal moves.
pub fn read_engine_line(line: &str, legal: &MoveList) -> (r: EngineLine)
    ensures
        line_meaning(line@, legal@, r),
{
    let s = chars_of(line);
    if has_prefix(&s, &chars_of("info")) {
        return EngineLine::Info(parse_score_cp(line));
    }
    let head = chars_of("bestmove ");
    if has_prefix(&s, &head) {
        proof {
            assert(s@.subrange(head@.len() as int, s@.len() as int) =~= s@.skip(
                head@.len() as int,
            ));
        }
        let ws = split_words(&slice_of(&s, head.len(), s.len()));
        if ws.len() == 0 || text_is(&ws[0], "(none)") {
            return EngineLine::BestMove(None);
        }
        let name = string_of(&ws[0]);
        return EngineLine::BestMove(parse_move(name.as_str(), legal));
    }
    EngineLine::Other
}

/// The words of an `info` line tell the score behind the first `score cp`, and none if
/// there is no `score`.
pub proof fn law_first_score(ws: Seq<Seq<char>>, i: int, k: int)
    requires
        0 <= i <= k <= ws.len(),
        forall|j: int| i <= j < k ==> #[trigger] ws[j] != "score"@,
    ensures
        k == ws.len() ==> score_in(ws, i) is None,
        k + 2 < ws.len() && ws[k] == "score"@ && ws[k + 1] == "cp"@ ==> score_in(ws, i)
            == signed_value(ws[k + 2], -0x8000_0000, 0x7fff_ffff),
    decreases k - i,
{
    if i < k {
        law_first_score(ws, i + 1, k);
    }
}

/// An engine is told to search to a depth or for a time, with the number in digits.
pub proof fn law_go_texts(d: u32, ms: u64)
    ensures
        go_text(TimeControl::FixedDepth(d)) == seq!['g', 'o', ' ', 'd', 'e', 'p', 't', 'h', ' ']
            + digits(d as int),
        go_text(TimeControl::MoveTime(ms)) == seq![
            'g',
            'o',
            ' ',
            'm',
            'o',
            'v',
            'e',
            't',
            'i',
            'm',
            'e',
            ' ',
        ] + digits(ms as int),
{
    reveal_strlit("go depth ");
    reveal_strlit("go movetime ");
    assert("go depth "@ =~= seq!['g', 'o', ' ', 'd', 'e', 'p', 't', 'h', ' ']);
    assert("go movetime "@ =~= seq!['g', 'o', ' ', 'm', 'o', 'v', 'e', 't', 'i', 'm', 'e', ' ']);
}

/// Another move makes the list of moves longer by a space and the move.
pub proof fn law_moves_listed(fen: Seq<char>, ms: Seq<Move>, m: Move)
    ensures
        ms.len() > 0 ==> position_text(fen, ms.push(m)) == position_text(fen, ms) + seq![' ']
            + m.uci(),
        position_text(fen, seq![m]) == position_text(fen, Seq::empty()) + seq![
            ' ',
            'm',
            'o',
            'v',
            'e',
            's',
            ' ',
        ] + m.uci(),
{
    reveal_strlit(" moves");
    assert(" moves"@ =~= seq![' ', 'm', 'o', 'v', 'e', 's']);
    lemma_spaced(ms, m, ms.len() as int);
    reveal_with_fuel(spaced_moves, 2);
    if ms.len() > 0 {
        assert(position_text(fen, ms.push(m)) =~= position_text(fen, ms) + seq![' '] + m.uci());
    }
    assert(position_text(fen, seq![m]) =~= position_text(fen, Seq::empty()) + seq![
        ' ',
        'm',
        'o',
        'v',
        'e',
        's',
        ' ',
    ] + m.uci());
}

proof fn lemma_spaced(ms: Seq<Move>, m: Move, n: int)
    requires
        0 <= n <= ms.len(),
    ensures
        spaced_moves(ms.push(m), n) == spaced_moves(ms, n),
    decreases n,
{
    if n > 0 {
        lemma_spaced(ms, m, n - 1);
    }
}

/// The move that a `bestmove` line names is one of the given ones and is written as its first
/// word; `(none)` names no move.
pub proof fn law_named_moves(rest: Seq<char>, ms: Seq<Move>)
    ensures
        named_move(rest, ms) matches Some(m) ==> ms.contains(m) && words(rest).len() > 0 && m.uci()
            == words(rest)[0],
        words(rest).len() > 0 && words(rest)[0] == seq!['(', 'n', 'o', 'n', 'e', ')'] ==> named_move(
            rest,
            ms,
        ) is None,
        words(rest).len() > 0 && words(rest)[0] != seq!['(', 'n', 'o', 'n', 'e', ')'] && (
        exists|m: Move| #[trigger] ms.contains(m) && m.uci() == words(rest)[0]) ==> named_move(
            rest,
            ms,
        ) is Some,
{
    reveal_strlit("(none)");
    assert("(none)"@ =~= seq!['(', 'n', 'o', 'n', 'e', ')']);
    if words(rest).len() > 0 {
        let q = written_as(words(rest)[0]);
        law_first_where(ms, q);
        if exists|m: Move| #[trigger] ms.contains(m) && m.uci() == words(rest)[0] {
            let m = choose|m: Move| #[trigger] ms.contains(m) && m.uci() == words(rest)[0];
            assert(q(m));
        }
    }
}

} // verus!
