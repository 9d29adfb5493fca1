//! Reading moves in standard algebraic notation.

use crate::board::piece::PieceType;
use crate::board::square::{algebraic_square, Square};
use crate::board::{Board, Pos};
use crate::movegen::find::{first_where, law_first_where, lemma_first_is, lemma_first_none};
use crate::movegen::legal::{generable, legal};
use crate::movegen::moves::{Move, MoveFlag, MoveList};
use crate::text::{chars_of, slice_of, strip_back, text_is, trim_end, CharClass};
use vstd::prelude::*;

verus! {

/// The piece type that a letter stands for.
pub open spec fn letter_piece(c: char) -> Option<PieceType> {
    if c == 'N' {
        Some(PieceType::Knight)
    } else if c == 'B' {
        Some(PieceType::Bishop)
    } else if c == 'R' {
        Some(PieceType::Rook)
    } else if c == 'Q' {
        Some(PieceType::Queen)
    } else if c == 'K' {
        Some(PieceType::King)
    } else {
        None
    }
}

/// The piece type that a letter stands for.
fn char_to_piece_type(c: char) -> (r: Option<PieceType>)
    ensures
        r == letter_piece(c),
{
    match c {
        'N' => Some(PieceType::Knight),
        'B' => Some(PieceType::Bishop),
        'R' => Some(PieceType::Rook),
        'Q' => Some(PieceType::Queen),
        'K' => Some(PieceType::King),
        _ => None,
    }
}

/// The index of the last `c` in the text, or -1.
pub open spec fn last_index(s: Seq<char>, c: char) -> int
    decreases s.len(),
{
    if s.len() == 0 {
        -1
    } else if s.last() == c {
        s.len() - 1
    } else {
        last_index(s.drop_last(), c)
    }
}

/// The text without the character `c`.
pub open spec fn without(s: Seq<char>, c: char) -> Seq<char>
    decreases s.len(),
{
    if s.len() == 0 {
        Seq::empty()
    } else if s.last() == c {
        without(s.drop_last(), c)
    } else {
        without(s.drop_last(), c).push(s.last())
    }
}

/// The file that the first lowercase letter of the text names.
pub open spec fn file_hint(s: Seq<char>) -> Option<int>
    decreases s.len(),
{
    if s.len() == 0 {
        None
    } else if 'a' <= s[0] && s[0] <= 'z' {
        Some(s[0] as u32 - 97)
    } else {
        file_hint(s.drop_first())
    }
}

/// The rank that the first digit of the text names.
pub open spec fn rank_hint(s: Seq<char>) -> Option<int>
    decreases s.len(),
{
    if s.len() == 0 {
        None
    } else if '0' <= s[0] && s[0] <= '9' {
        Some(s[0] as u32 - 49)
    } else {
        rank_hint(s.drop_first())
    }
}

/// What the text of a move, other than castling, asks for.
pub struct Request {
    pub piece: PieceType,
    pub promo: Option<PieceType>,
    pub to: Square,
    pub file: Option<int>,
    pub rank: Option<int>,
}

/// The move is one that the request asks for.
pub open spec fn meets(p: Pos, q: Request) -> spec_fn(Move) -> bool {
    |m: Move|
        {
            &&& m.dst() == q.to
            &&& p.holds(p.side, q.piece, m.src().0 as int)
            &&& m.promo() == q.promo
            &&& (q.file matches Some(f) ==> m.src().f() == f)
            &&& (q.rank matches Some(r) ==> m.src().r() == r)
        }
}

/// What the squares of a move ask for: the last two characters name the target,
/// those before it may name the file and the rank of the source; `x` is left
/// out.
pub open spec fn squares_request(
    s: Seq<char>,
    piece: PieceType,
    promo: Option<PieceType>,
) -> Option<Request> {
    let t = without(s, 'x');
    if t.len() < 2 {
        None
    } else {
        match algebraic_square(t.skip(t.len() - 2)) {
            None => None,
            Some(to) => {
                let hint = t.take(t.len() - 2);
                Some(Request { piece, promo, to, file: file_hint(hint), rank: rank_hint(hint) })
            },
        }
    }
}

/// What the text of a move, other than castling, asks for: the letter of the
/// piece (none for a pawn), the squares, and the promotion behind a `=`.
pub open spec fn request(s: Seq<char>) -> Option<Request> {
    if s.len() == 0 {
        None
    } else {
        let (piece, rest) = match letter_piece(s[0]) {
            Some(pt) => (pt, s.drop_first()),
            None => (PieceType::Pawn, s),
        };
        let eq = last_index(rest, '=');
        if eq < 0 {
            squares_request(rest, piece, None)
        } else if eq + 1 >= rest.len() {
            None
        } else {
            match letter_piece(rest[eq + 1]) {
                None => None,
                Some(pt) => squares_request(rest.take(eq), piece, Some(pt)),
            }
        }
    }
}

/// The text is that of castling on the queen's side.
pub open spec fn long_castle(s: Seq<char>) -> bool {
    s == seq!['O', '-', 'O', '-', 'O'] || s == seq!['0', '-', '0', '-', '0']
}

/// The text is that of castling on the king's side.
pub open spec fn short_castle(s: Seq<char>) -> bool {
    s == seq!['O', '-', 'O'] || s == seq!['0', '-', '0']
}

/// The move has the given flag.
pub open spec fn flagged_as(flag: MoveFlag) -> spec_fn(Move) -> bool {
    |m: Move| m.flagged(flag)
}

/// The first legal move that a text in standard algebraic notation stands for.
/// Trailing `+`, `#`, `!` and `?` do not count.
pub open spec fn san_move(p: Pos, san: Seq<char>) -> Option<Move> {
    let s = strip_back(san, CharClass::Annotation);
    if long_castle(s) {
        first_where(legal(p), flagged_as(MoveFlag::QueenCastle))
    } else if short_castle(s) {
        first_where(legal(p), flagged_as(MoveFlag::KingCastle))
    } else {
        match request(s) {
            None => None,
            Some(q) => first_where(legal(p), meets(p, q)),
        }
    }
}

/// The first of the moves with the given flag code.
fn find_flagged(ms: &MoveList, flag: MoveFlag) -> (r: Option<Move>)
    ensures
        r == first_where(ms@, flagged_as(flag)),
{
    let ghost q = flagged_as(flag);
    let code: u16 = flag.bits();
    let mut i: usize = 0;
    while i < ms.len()
        invariant
            i <= ms@.len(),
            code == flag.code(),
            q == flagged_as(flag),
            forall|j: int| 0 <= j < i ==> !q(#[trigger] ms@[j]),
        decreases ms@.len() - i,
    {
        let mv = ms.get(i);
        if mv.bits() / 4096 == code {
            proof {
                lemma_first_is(ms@, q, i as int);
            }
            return Some(mv);
        }
        i += 1;
    }
    proof {
        lemma_first_none(ms@, q);
    }
    None
}

/// The index of the last `c`.
fn find_last(s: &Vec<char>, c: char) -> (r: Option<usize>)
    ensures
        match r {
            None => last_index(s@, c) == -1,
            Some(i) => i < s@.len() && last_index(s@, c) == i,
        },
{
    let mut n: usize = s.len();
    proof {
        assert(s@.take(n as int) =~= s@);
    }
    while n > 0
        invariant
            n <= s@.len(),
            last_index(s@.take(n as int), c) == last_index(s@, c),
        decreases n,
    {
        proof {
            assert(s@.take(n as int).last() == s@[n - 1]);
            assert(s@.take(n as int).drop_last() =~= s@.take(n - 1));
        }
        if s[n - 1] == c {
            return Some(n - 1);
        }
        n -= 1;
    }
    None
}

/// The text without the character `c`.
fn remove_char(s: &Vec<char>, c: char) -> (r: Vec<char>)
    ensures
        r@ == without(s@, c),
{
    let mut out: Vec<char> = Vec::new();
    let mut i: usize = 0;
    proof {
        assert(s@.take(0) =~= Seq::empty());
        assert(out@ =~= without(s@.take(0), c));
    }
    while i < s.len()
        invariant
            i <= s@.len(),
            out@ == without(s@.take(i as int), c),
        decreases s@.len() - i,
    {
        proof {
            assert(s@.take(i + 1).last() == s@[i as int]);
            assert(s@.take(i + 1).drop_last() =~= s@.take(i as int));
        }
        if s[i] != c {
            out.push(s[i]);
        }
        i += 1;
    }
    proof {
        assert(s@.take(i as int) =~= s@);
    }
    out
}

/// The file that the first lowercase letter of the text names.
fn hinted_file(s: &Vec<char>) -> (r: Option<i32>)
    ensures
        match r {
            None => file_hint(s@) is None,
            Some(f) => file_hint(s@) == Some(f as int),
        },
{
    let mut i: usize = 0;
    proof {
        assert(s@.skip(0) =~= s@);
    }
    while i < s.len()
        invariant
            i <= s@.len(),
            file_hint(s@.skip(i as int)) == file_hint(s@),
        decreases s@.len() - i,
    {
        let c = s[i];
        proof {
            assert(s@.skip(i as int).drop_first() =~= s@.skip(i + 1));
        }
        if 'a' <= c && c <= 'z' {
            return Some((c as u32 - 97) as i32);
        }
        i += 1;
    }
    None
}

/// The rank that the first digit of the text names.
fn hinted_rank(s: &Vec<char>) -> (r: Option<i32>)
    ensures
        match r {
            None => rank_hint(s@) is None,
            Some(k) => rank_hint(s@) == Some(k as int),
        },
{
    let mut i: usize = 0;
    proof {
        assert(s@.skip(0) =~= s@);
    }
    while i < s.len()
        invariant
            i <= s@.len(),
            rank_hint(s@.skip(i as int)) == rank_hint(s@),
        decreases s@.len() - i,
    {
        let c = s[i];
        proof {
            assert(s@.skip(i as int).drop_first() =~= s@.skip(i + 1));
        }
        if '0' <= c && c <= '9' {
            return Some(c as u32 as i32 - 49);
        }
        i += 1;
    }
    None
}

/// The first of the moves that meets the request made of these parts.
fn find_requested(
    board: &Board,
    ms: &MoveList,
    piece: PieceType,
    promo: Option<PieceType>,
    rest: &Vec<char>,
) -> (r: Option<Move>)
    requires
        board.wf(),
    ensures
        r == match squares_request(rest@, piece, promo) {
            None => None,
            Some(q) => first_where(ms@, meets(board@, q)),
        },
{
    let t = remove_char(rest, 'x');
    if t.len() < 2 {
        return None;
    }
    let n: usize = t.len() - 2;
    proof {
        assert(t@.subrange(n as int, t@.len() as int) =~= t@.skip(n as int));
        assert(t@.subrange(0, n as int) =~= t@.take(n as int));
    }
    let to = match Square::from_algebraic_chars(&slice_of(&t, n, t.len())) {
        Some(sq) => sq,
        None => {
            return None;
        },
    };
    let hint = slice_of(&t, 0, n);
    let file = hinted_file(&hint);
    let rank = hinted_rank(&hint);
    let ghost q = Request { piece, promo, to, file: file_hint(hint@), rank: rank_hint(hint@) };
    let ghost f = meets(board@, q);
    let mut i: usize = 0;
    while i < ms.len()
        invariant
            i <= ms@.len(),
            board.wf(),
            f == meets(board@, q),
            squares_request(rest@, piece, promo) == Some(q),
            q == (Request { piece, promo, to, file: file_hint(hint@), rank: rank_hint(hint@) }),
            match file {
                None => file_hint(hint@) is None,
                Some(k) => file_hint(hint@) == Some(k as int),
            },
            match rank {
                None => rank_hint(hint@) is None,
                Some(k) => rank_hint(hint@) == Some(k as int),
            },
            forall|j: int| 0 <= j < i ==> !f(#[trigger] ms@[j]),
        decreases ms@.len() - i,
    {
        let mv = ms.get(i);
        let from = mv.from();
        let right_piece = match board.piece_at(from) {
            Some(pc) => pc.color == board.side_to_move && pc.piece_type == piece,
            None => false,
        };
        let right_file = match file {
            Some(k) => from.file() as i32 == k,
            None => true,
        };
        let right_rank = match rank {
            Some(k) => from.rank() as i32 == k,
            None => true,
        };
        if mv.to() == to && right_piece && mv.promotion_piece() == promo && right_file
            && right_rank {
            proof {
                assert(f(mv));
                lemma_first_is(ms@, f, i as int);
            }
            return Some(mv);
        }
        i += 1;
    }
    proof {
        lemma_first_none(ms@, f);
    }
    None
}

/// Convert a move in standard algebraic notation to a [`Move`] of `board`.
///
/// * Castling: `O-O`, `O-O-O` (also `0-0`, `0-0-0`)
/// * Promotions: `e8=Q`, `exd8=N`
/// * File, rank and full-square disambiguation: `Ndf3`, `N3f3`, `Nd1f3`
/// * Pawn captures: `exd5`
/// * Annotation suffixes (`+`, `#`, `!`, `?`) are ignored.
///
/// There is none if the text does not match any legal move.
pub fn san_to_move(san: &str, board: &Board) -> (r: Option<Move>)
    requires
        board.wf(),
        generable(board@),
    ensures
        r == san_move(board@, san@),
{
    let ms = board.legal_moves();
    let s = trim_end(&chars_of(san), CharClass::Annotation);
    proof {
        reveal_strlit("O-O-O");
        reveal_strlit("0-0-0");
        reveal_strlit("O-O");
        reveal_strlit("0-0");
        assert("O-O-O"@ =~= seq!['O', '-', 'O', '-', 'O']);
        assert("0-0-0"@ =~= seq!['0', '-', '0', '-', '0']);
        assert("O-O"@ =~= seq!['O', '-', 'O']);
        assert("0-0"@ =~= seq!['0', '-', '0']);
    }
    if text_is(&s, "O-O-O") || text_is(&s, "0-0-0") {
        return find_flagged(&ms, MoveFlag::QueenCastle);
    }
    if text_is(&s, "O-O") || text_is(&s, "0-0") {
        return find_flagged(&ms, MoveFlag::KingCastle);
    }
    if s.len() == 0 {
        return None;
    }
    proof {
        assert(s@.subrange(1, s@.len() as int) =~= s@.drop_first());
        assert(s@.subrange(0, s@.len() as int) =~= s@);
    }
    let (piece, rest) = match char_to_piece_type(s[0]) {
        Some(pt) => (pt, slice_of(&s, 1, s.len())),
        None => (PieceType::Pawn, slice_of(&s, 0, s.len())),
    };
    match find_last(&rest, '=') {
        None => find_requested(board, &ms, piece, None, &rest),
        Some(eq) => {
            if eq + 1 >= rest.len() {
                return None;
            }
            match char_to_piece_type(rest[eq + 1]) {
                None => None,
                Some(pt) => {
                    proof {
                        assert(rest@.subrange(0, eq as int) =~= rest@.take(eq as int));
                    }
                    find_requested(board, &ms, piece, Some(pt), &slice_of(&rest, 0, eq))
                },
            }
        },
    }
}

/// A text in standard algebraic notation stands for a legal move or for none.
pub proof fn law_san_legal(p: Pos, san: Seq<char>)
    ensures
        san_move(p, san) matches Some(m) ==> legal(p).contains(m),
{
    let s = strip_back(san, CharClass::Annotation);
    law_first_where(legal(p), flagged_as(MoveFlag::QueenCastle));
    law_first_where(legal(p), flagged_as(MoveFlag::KingCastle));
    match request(s) {
        None => {},
        Some(q) => law_first_where(legal(p), meets(p, q)),
    }
}

/// The texts of castling stand for castling moves only, each for its own side of
/// the board.
pub proof fn law_san_castling(p: Pos, san: Seq<char>)
    ensures
        ({
            let s = strip_back(san, CharClass::Annotation);
            &&& long_castle(s) ==> (san_move(p, san) matches Some(m) ==> m.flagged(
                MoveFlag::QueenCastle,
            ))
            &&& short_castle(s) ==> (san_move(p, san) matches Some(m) ==> m.flagged(
                MoveFlag::KingCastle,
            ))
        }),
{
    let s = strip_back(san, CharClass::Annotation);
    law_first_where(legal(p), flagged_as(MoveFlag::QueenCastle));
    law_first_where(legal(p), flagged_as(MoveFlag::KingCastle));
    assert(!(long_castle(s) && short_castle(s))) by {
        if long_castle(s) {
            assert(s.len() == 5);
        }
        if short_castle(s) {
            assert(s.len() == 3);
        }
    }
}

/// An annotation behind a move makes no difference.
pub proof fn law_san_suffix(p: Pos, san: Seq<char>, c: char)
    requires
        CharClass::Annotation.covers(c),
    ensures
        san_move(p, san.push(c)) == san_move(p, san),
{
    assert(san.push(c).drop_last() =~= san);
}

} // verus!
