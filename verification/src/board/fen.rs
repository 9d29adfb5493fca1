//! Forsyth-Edwards notation.

use crate::board::piece::{
    char_piece, law_piece_char_round_trip, piece_char, Color, Piece, PieceType,
};
use crate::board::square::{algebraic_square, law_algebraic_round_trip, Square};
use crate::board::{Board, CastlingRights, Pos, STARTING_FEN};
use crate::text::{
    chars_of, digit, digit_char, digit_value, digits, is_space, lemma_digits_decimal,
    lemma_split_first, lemma_words_first, number_chars, parse_unsigned, split, split_on,
    split_words, string_of, text_is, unsigned_value, words,
};
use vstd::prelude::*;

verus! {

/// Why a FEN string could not be parsed.
#[derive(Debug, PartialEq, Eq)]
pub enum FenError {
    /// A required field was absent.
    MissingField(&'static str),
    /// Piece placement did not have exactly 8 ranks.
    BadRankCount(usize),
    /// A rank did not describe exactly 8 files.
    BadFileCount { rank: u8, found: usize },
    /// An unrecognized piece letter.
    UnknownPiece(char),
    /// Side-to-move field was not `w` or `b`.
    BadSideToMove(String),
    /// Castling field had an illegal character.
    BadCastling(String),
    /// En-passant field was neither `-` nor a valid square.
    BadEnPassant(String),
    /// A clock field was not a valid number.
    BadNumber(String),
}

/// What a [`FenError`] says.
pub enum FenFault {
    MissingField(Seq<char>),
    BadRankCount(int),
    BadFileCount { rank: int, found: int },
    UnknownPiece(char),
    BadSideToMove(Seq<char>),
    BadCastling(Seq<char>),
    BadEnPassant(Seq<char>),
    BadNumber(Seq<char>),
}

impl View for FenError {
    type V = FenFault;

    open spec fn view(&self) -> FenFault {
        match *self {
            FenError::MissingField(s) => FenFault::MissingField(s@),
            FenError::BadRankCount(n) => FenFault::BadRankCount(n as int),
            FenError::BadFileCount { rank, found } => FenFault::BadFileCount {
                rank: rank as int,
                found: found as int,
            },
            FenError::UnknownPiece(c) => FenFault::UnknownPiece(c),
            FenError::BadSideToMove(s) => FenFault::BadSideToMove(s@),
            FenError::BadCastling(s) => FenFault::BadCastling(s@),
            FenError::BadEnPassant(s) => FenFault::BadEnPassant(s@),
            FenError::BadNumber(s) => FenFault::BadNumber(s@),
        }
    }
}

impl FenError {
    /// The error as its variant with its fields, in the form that `Debug` gives.
    pub fn variant(&self) -> (r: String)
        ensures
            r@ == fault_variant(self@),
    {
        let mut s = String::new();
        match self {
            FenError::MissingField(name) => {
                s.append("MissingField(");
                s.append(quote_text(name).as_str());
                s.append(")");
            },
            FenError::BadRankCount(n) => {
                s.append("BadRankCount(");
                s.append(string_of(&number_chars(*n as u64)).as_str());
                s.append(")");
            },
            FenError::BadFileCount { rank, found } => {
                s.append("BadFileCount { rank: ");
                s.append(string_of(&number_chars(*rank as u64)).as_str());
                s.append(", found: ");
                s.append(string_of(&number_chars(*found as u64)).as_str());
                s.append(" }");
            },
            FenError::UnknownPiece(c) => {
                s.append("UnknownPiece(");
                s.append(quote_letter(*c).as_str());
                s.append(")");
            },
            FenError::BadSideToMove(t) => {
                s.append("BadSideToMove(");
                s.append(quote_text(t.as_str()).as_str());
                s.append(")");
            },
            FenError::BadCastling(t) => {
                s.append("BadCastling(");
                s.append(quote_text(t.as_str()).as_str());
                s.append(")");
            },
            FenError::BadEnPassant(t) => {
                s.append("BadEnPassant(");
                s.append(quote_text(t.as_str()).as_str());
                s.append(")");
            },
            FenError::BadNumber(t) => {
                s.append("BadNumber(");
                s.append(quote_text(t.as_str()).as_str());
                s.append(")");
            },
        }
        proof {
            assert(s@ =~= fault_variant(self@));
        }
        s
    }

    /// The error as a sentence.
    pub fn message(&self) -> (r: String)
        ensures
            r@ == fault_message(self@),
    {
        let mut s = String::new();
        match self {
            FenError::MissingField(name) => {
                s.append("missing FEN field: ");
                s.append(name);
            },
            FenError::BadRankCount(n) => {
                s.append("piece placement has ");
                s.append(string_of(&number_chars(*n as u64)).as_str());
                s.append(" ranks, expected 8");
            },
            FenError::BadFileCount { rank, found } => {
                s.append("rank ");
                s.append(string_of(&number_chars(*rank as u64)).as_str());
                s.append(" describes ");
                s.append(string_of(&number_chars(*found as u64)).as_str());
                s.append(" files, expected 8");
            },
            FenError::UnknownPiece(c) => {
                s.append("unknown piece letter '");
                s.push(*c);
                s.append("'");
            },
            FenError::BadSideToMove(t) => {
                s.append("invalid side to move '");
                s.append(t.as_str());
                s.append("'");
            },
            FenError::BadCastling(t) => {
                s.append("invalid castling field '");
                s.append(t.as_str());
                s.append("'");
            },
            FenError::BadEnPassant(t) => {
                s.append("invalid en passant field '");
                s.append(t.as_str());
                s.append("'");
            },
            FenError::BadNumber(t) => {
                s.append("invalid number '");
                s.append(t.as_str());
                s.append("'");
            },
        }
        proof {
            assert(s@ =~= fault_message(self@));
        }
        s
    }
}

/// The error as a sentence.
pub open spec fn fault_message(e: FenFault) -> Seq<char> {
    match e {
        FenFault::MissingField(name) => "missing FEN field: "@ + name,
        FenFault::BadRankCount(n) => "piece placement has "@ + digits(n) + " ranks, expected 8"@,
        FenFault::BadFileCount { rank, found } => "rank "@ + digits(rank) + " describes "@
            + digits(found) + " files, expected 8"@,
        FenFault::UnknownPiece(c) => "unknown piece letter '"@.push(c) + "'"@,
        FenFault::BadSideToMove(t) => "invalid side to move '"@ + t + "'"@,
        FenFault::BadCastling(t) => "invalid castling field '"@ + t + "'"@,
        FenFault::BadEnPassant(t) => "invalid en passant field '"@ + t + "'"@,
        FenFault::BadNumber(t) => "invalid number '"@ + t + "'"@,
    }
}

/// The text of a string with quotes around it and special characters escaped, as
/// `Debug` writes it.
pub uninterp spec fn quoted_text(s: Seq<char>) -> Seq<char>;

/// The text of a character with quotes around it and a special character
/// escaped, as `Debug` writes it.
pub uninterp spec fn quoted_letter(c: char) -> Seq<char>;

/// The `Debug` impl of `str` writes the string in double quotes and escapes what
/// cannot stand there as it is; what it writes depends on the string alone.
#[verifier::external_body]
fn quote_text(s: &str) -> (r: String)
    ensures
        r@ == quoted_text(s@),
{
    format!("{:?}", s)
}

/// The `Debug` impl of `char` writes the character in single quotes and escapes
/// it if it cannot stand there as it is; what it writes depends on the character
/// alone.
#[verifier::external_body]
fn quote_letter(c: char) -> (r: String)
    ensures
        r@ == quoted_letter(c),
{
    format!("{:?}", c)
}

/// The error as its variant with its fields.
pub open spec fn fault_variant(e: FenFault) -> Seq<char> {
    match e {
        FenFault::MissingField(name) => "MissingField("@ + quoted_text(name) + ")"@,
        FenFault::BadRankCount(n) => "BadRankCount("@ + digits(n) + ")"@,
        FenFault::BadFileCount { rank, found } => "BadFileCount { rank: "@ + digits(rank)
            + ", found: "@ + digits(found) + " }"@,
        FenFault::UnknownPiece(c) => "UnknownPiece("@ + quoted_letter(c) + ")"@,
        FenFault::BadSideToMove(t) => "BadSideToMove("@ + quoted_text(t) + ")"@,
        FenFault::BadCastling(t) => "BadCastling("@ + quoted_text(t) + ")"@,
        FenFault::BadEnPassant(t) => "BadEnPassant("@ + quoted_text(t) + ")"@,
        FenFault::BadNumber(t) => "BadNumber("@ + quoted_text(t) + ")"@,
    }
}

/// A count of files, as far as it can be told.
pub open spec fn clip(n: int) -> int {
    if n > usize::MAX {
        usize::MAX as int
    } else {
        n
    }
}

/// Put the pieces of one rank's text on the squares, from `file` on.
pub open spec fn place_rank(
    sq: Seq<Option<Piece>>,
    rank: int,
    s: Seq<char>,
    file: int,
) -> Result<Seq<Option<Piece>>, FenFault>
    decreases s.len(),
{
    if s.len() == 0 {
        if file != 8 {
            Err(FenFault::BadFileCount { rank: rank + 1, found: file })
        } else {
            Ok(sq)
        }
    } else {
        match digit_value(s[0]) {
            Some(d) => place_rank(sq, rank, s.drop_first(), clip(file + d)),
            None => match char_piece(s[0]) {
                None => Err(FenFault::UnknownPiece(s[0])),
                Some(p) => if file > 7 {
                    Err(FenFault::BadFileCount { rank: rank + 1, found: clip(file + 1) })
                } else {
                    place_rank(
                        sq.update(rank * 8 + file, Some(p)),
                        rank,
                        s.drop_first(),
                        file + 1,
                    )
                },
            },
        }
    }
}

/// Put the pieces of the ranks' texts from number `i` on, the eighth rank being
/// number 0.
pub open spec fn place_ranks(sq: Seq<Option<Piece>>, ranks: Seq<Seq<char>>, i: int) -> Result<
    Seq<Option<Piece>>,
    FenFault,
>
    decreases 8 - i,
{
    if i >= 8 {
        Ok(sq)
    } else {
        match place_rank(sq, 7 - i, ranks[i], 0) {
            Err(e) => Err(e),
            Ok(next) => place_ranks(next, ranks, i + 1),
        }
    }
}

/// The squares that a piece-placement field describes.
pub open spec fn parse_placement(s: Seq<char>) -> Result<Seq<Option<Piece>>, FenFault> {
    let ranks = split(s, '/');
    if ranks.len() != 8 {
        Err(FenFault::BadRankCount(ranks.len() as int))
    } else {
        place_ranks(Seq::new(64, |i: int| None), ranks, 0)
    }
}

/// The side that a field names.
pub open spec fn parse_side(s: Seq<char>) -> Result<Color, FenFault> {
    if s == "w"@ {
        Ok(Color::White)
    } else if s == "b"@ {
        Ok(Color::Black)
    } else {
        Err(FenFault::BadSideToMove(s))
    }
}

/// The rights that the letters of `s` add to `acc`.
pub open spec fn add_rights(s: Seq<char>, acc: u8) -> Option<u8>
    decreases s.len(),
{
    if s.len() == 0 {
        Some(acc)
    } else if s[0] == 'K' {
        add_rights(s.drop_first(), acc | 1)
    } else if s[0] == 'Q' {
        add_rights(s.drop_first(), acc | 2)
    } else if s[0] == 'k' {
        add_rights(s.drop_first(), acc | 4)
    } else if s[0] == 'q' {
        add_rights(s.drop_first(), acc | 8)
    } else {
        None
    }
}

/// The castling rights that a field names.
pub open spec fn parse_castling(s: Seq<char>) -> Result<CastlingRights, FenFault> {
    if s == "-"@ {
        Ok(CastlingRights(0))
    } else {
        match add_rights(s, 0) {
            Some(c) => Ok(CastlingRights(c)),
            None => Err(FenFault::BadCastling(s)),
        }
    }
}

/// The en-passant target that a field names.
pub open spec fn parse_ep(s: Seq<char>) -> Result<Option<Square>, FenFault> {
    if s == "-"@ {
        Ok(None)
    } else {
        match algebraic_square(s) {
            Some(q) => Ok(Some(q)),
            None => Err(FenFault::BadEnPassant(s)),
        }
    }
}

/// The value of a clock field.
pub open spec fn parse_clock(s: Seq<char>) -> Result<int, FenFault> {
    match unsigned_value(s, 65535) {
        Some(n) => Ok(n),
        None => Err(FenFault::BadNumber(s)),
    }
}

/// The position that the fields describe.
pub open spec fn parse_fields(
    placement: Seq<char>,
    side: Seq<char>,
    castling: Seq<char>,
    ep: Seq<char>,
    halfmove: Seq<char>,
    fullmove: Seq<char>,
) -> Result<Pos, FenFault> {
    match parse_placement(placement) {
        Err(e) => Err(e),
        Ok(squares) => match parse_side(side) {
            Err(e) => Err(e),
            Ok(side) => match parse_castling(castling) {
                Err(e) => Err(e),
                Ok(castling) => match parse_ep(ep) {
                    Err(e) => Err(e),
                    Ok(ep) => match parse_clock(halfmove) {
                        Err(e) => Err(e),
                        Ok(halfmove) => match parse_clock(fullmove) {
                            Err(e) => Err(e),
                            Ok(fullmove) => Ok(
                                Pos { squares, side, castling, ep, halfmove, fullmove },
                            ),
                        },
                    },
                },
            },
        },
    }
}

/// The position that a FEN describes, or what is wrong with it. Of the six
/// fields the two clocks may be left out.
pub open spec fn parse_fen(s: Seq<char>) -> Result<Pos, FenFault> {
    let w = words(s);
    if w.len() < 1 {
        Err(FenFault::MissingField("piece placement"@))
    } else if w.len() < 2 {
        Err(FenFault::MissingField("side to move"@))
    } else if w.len() < 3 {
        Err(FenFault::MissingField("castling"@))
    } else if w.len() < 4 {
        Err(FenFault::MissingField("en passant"@))
    } else {
        parse_fields(
            w[0],
            w[1],
            w[2],
            w[3],
            if w.len() > 4 {
                w[4]
            } else {
                "0"@
            },
            if w.len() > 5 {
                w[5]
            } else {
                "1"@
            },
        )
    }
}

/// The text of a rank from `file` on, after `empty` empty squares.
pub open spec fn rank_text(p: Pos, rank: int, file: int, empty: int) -> Seq<char>
    decreases 8 - file,
{
    let run = if empty > 0 {
        seq![digit_char(empty)]
    } else {
        Seq::empty()
    };
    if file >= 8 {
        run
    } else {
        match p.at(rank * 8 + file) {
            Some(pc) => run + seq![piece_char(pc)] + rank_text(p, rank, file + 1, 0),
            None => rank_text(p, rank, file + 1, empty + 1),
        }
    }
}

/// The texts of the lowest `n` ranks, from the top one down.
pub open spec fn ranks_text(p: Pos, n: int) -> Seq<char>
    decreases n,
{
    if n <= 1 {
        rank_text(p, 0, 0, 0)
    } else {
        rank_text(p, n - 1, 0, 0) + seq!['/'] + ranks_text(p, n - 1)
    }
}

/// The castling rights as a FEN field.
pub open spec fn castling_text(c: CastlingRights) -> Seq<char> {
    if c.0 == 0 {
        seq!['-']
    } else {
        let k = if c.holds(1) {
            seq!['K']
        } else {
            Seq::empty()
        };
        let kq = if c.holds(2) {
            k.push('Q')
        } else {
            k
        };
        let kqk = if c.holds(4) {
            kq.push('k')
        } else {
            kq
        };
        if c.holds(8) {
            kqk.push('q')
        } else {
            kqk
        }
    }
}

/// The side to move as a FEN field.
pub open spec fn side_text(c: Color) -> Seq<char> {
    if c == Color::White {
        seq!['w']
    } else {
        seq!['b']
    }
}

/// The en-passant target as a FEN field.
pub open spec fn ep_text(ep: Option<Square>) -> Seq<char> {
    match ep {
        Some(s) => s.name(),
        None => seq!['-'],
    }
}

/// The FEN of a position.
pub open spec fn fen_text(p: Pos) -> Seq<char> {
    ranks_text(p, 8) + seq![' '] + (side_text(p.side) + seq![' '] + (castling_text(p.castling)
        + seq![' '] + (ep_text(p.ep) + seq![' '] + (digits(p.halfmove) + seq![' '] + digits(
        p.fullmove,
    )))))
}

/// Placing a rank leaves the other ranks alone.
proof fn lemma_place_rank_frame(sq: Seq<Option<Piece>>, rank: int, s: Seq<char>, file: int)
    requires
        sq.len() == 64,
        0 <= rank < 8,
        0 <= file,
    ensures
        place_rank(sq, rank, s, file) matches Ok(n) ==> n.len() == 64 && forall|i: int|
            0 <= i < 64 && i / 8 != rank ==> #[trigger] n[i] == sq[i],
    decreases s.len(),
{
    if s.len() > 0 {
        match digit_value(s[0]) {
            Some(d) => {
                lemma_place_rank_frame(sq, rank, s.drop_first(), clip(file + d));
            },
            None => {
                if let Some(p) = char_piece(s[0]) {
                    if file <= 7 {
                        lemma_place_rank_frame(
                            sq.update(rank * 8 + file, Some(p)),
                            rank,
                            s.drop_first(),
                            file + 1,
                        );
                    }
                }
            },
        }
    }
}

/// The squares of `sq` with the pieces of `p` on the rank from `file` on.
spec fn overlay(sq: Seq<Option<Piece>>, p: Pos, rank: int, file: int) -> Seq<Option<Piece>> {
    Seq::new(
        64,
        |i: int|
            if i / 8 == rank && i % 8 >= file && p.at(i) is Some {
                p.at(i)
            } else {
                sq[i]
            },
    )
}

/// Reading back the text of a rank puts its pieces where they were.
proof fn lemma_rank_round_trip(
    sq: Seq<Option<Piece>>,
    p: Pos,
    rank: int,
    file: int,
    empty: int,
)
    requires
        sq.len() == 64,
        p.wf(),
        0 <= rank < 8,
        0 <= empty <= file <= 8,
    ensures
        place_rank(sq, rank, rank_text(p, rank, file, empty), file - empty) == Ok::<
            Seq<Option<Piece>>,
            FenFault,
        >(overlay(sq, p, rank, file)),
    decreases 8 - file,
{
    let t = rank_text(p, rank, file, empty);
    if file >= 8 {
        assert(overlay(sq, p, rank, file) =~= sq);
        if empty > 0 {
            assert(t[0] == digit_char(empty));
            assert(digit_value(t[0]) == Some(empty));
            assert(t.drop_first() =~= Seq::<char>::empty());
            assert(place_rank(sq, rank, t.drop_first(), 8) == Ok::<Seq<Option<Piece>>, FenFault>(
                sq,
            ));
        }
    } else {
        let i = rank * 8 + file;
        match p.at(i) {
            Some(pc) => {
                let rest = rank_text(p, rank, file + 1, 0);
                let sq2 = sq.update(i, Some(pc));
                lemma_rank_round_trip(sq2, p, rank, file + 1, 0);
                assert(overlay(sq2, p, rank, file + 1) =~= overlay(sq, p, rank, file)) by {
                    assert forall|k: int| 0 <= k < 64 implies overlay(sq2, p, rank, file + 1)[k]
                        == overlay(sq, p, rank, file)[k] by {
                        if k / 8 == rank && k % 8 == file {
                            assert(k == i);
                        }
                    }
                }
                law_piece_char_round_trip(pc, 'x');
                let u = seq![piece_char(pc)] + rest;
                assert(u[0] == piece_char(pc));
                assert(digit_value(u[0]) is None);
                assert(u.drop_first() =~= rest);
                assert(place_rank(sq, rank, u, file) == place_rank(sq2, rank, rest, file + 1));
                if empty > 0 {
                    assert(t[0] == digit_char(empty));
                    assert(digit_value(t[0]) == Some(empty));
                    assert(t.drop_first() =~= u);
                } else {
                    assert(t =~= u);
                }
            },
            None => {
                lemma_rank_round_trip(sq, p, rank, file + 1, empty + 1);
                assert(overlay(sq, p, rank, file + 1) =~= overlay(sq, p, rank, file)) by {
                    assert forall|k: int| 0 <= k < 64 implies overlay(sq, p, rank, file + 1)[k]
                        == overlay(sq, p, rank, file)[k] by {
                        if k / 8 == rank && k % 8 == file {
                            assert(k == i);
                        }
                    }
                }
            },
        }
    }
}

/// The characters of a rank's text are neither spaces nor slashes.
proof fn lemma_rank_text_chars(p: Pos, rank: int, file: int, empty: int)
    requires
        0 <= empty <= file <= 8,
    ensures
        file - empty < 8 ==> rank_text(p, rank, file, empty).len() > 0,
        forall|i: int|
            0 <= i < rank_text(p, rank, file, empty).len() ==> !is_space(
                #[trigger] rank_text(p, rank, file, empty)[i],
            ) && rank_text(p, rank, file, empty)[i] != '/',
    decreases 8 - file,
{
    if file < 8 {
        match p.at(rank * 8 + file) {
            Some(pc) => {
                let rest = rank_text(p, rank, file + 1, 0);
                let t = rank_text(p, rank, file, empty);
                lemma_rank_text_chars(p, rank, file + 1, 0);
                let n = if empty > 0 {
                    2int
                } else {
                    1int
                };
                assert forall|i: int| 0 <= i < t.len() implies !is_space(#[trigger] t[i]) && t[i]
                    != '/' by {
                    if i >= n {
                        assert(t[i] == rest[i - n]);
                    } else if i == n - 1 {
                        assert(t[i] == piece_char(pc));
                    } else {
                        assert(t[i] == digit_char(empty));
                    }
                }
            },
            None => {
                lemma_rank_text_chars(p, rank, file + 1, empty + 1);
            },
        }
    }
}

proof fn lemma_ranks_text_chars(p: Pos, n: int)
    requires
        1 <= n,
    ensures
        ranks_text(p, n).len() > 0,
        forall|i: int|
            0 <= i < ranks_text(p, n).len() ==> !is_space(#[trigger] ranks_text(p, n)[i]),
    decreases n,
{
    lemma_rank_text_chars(p, n - 1, 0, 0);
    if n > 1 {
        lemma_ranks_text_chars(p, n - 1);
    }
}

proof fn lemma_split_ranks(p: Pos, n: int)
    requires
        1 <= n,
    ensures
        split(ranks_text(p, n), '/').len() == n,
        forall|i: int|
            0 <= i < n ==> #[trigger] split(ranks_text(p, n), '/')[i] == rank_text(
                p,
                n - 1 - i,
                0,
                0,
            ),
    decreases n,
{
    lemma_rank_text_chars(p, n - 1, 0, 0);
    if n <= 1 {
        lemma_split_first(rank_text(p, 0, 0, 0), Seq::empty(), '/');
    } else {
        lemma_split_ranks(p, n - 1);
        lemma_split_first(rank_text(p, n - 1, 0, 0), ranks_text(p, n - 1), '/');
        let a = split(ranks_text(p, n), '/');
        let b = split(ranks_text(p, n - 1), '/');
        assert forall|i: int| 0 <= i < n implies #[trigger] a[i] == rank_text(p, n - 1 - i, 0, 0) by {
            if i > 0 {
                assert(a[i] == b[i - 1]);
            }
        }
    }
}

/// The squares of the top `i` ranks of `p`, and nothing below.
spec fn upper(p: Pos, i: int) -> Seq<Option<Piece>> {
    Seq::new(
        64,
        |k: int|
            if k / 8 > 7 - i {
                p.at(k)
            } else {
                None
            },
    )
}

proof fn lemma_placement_round_trip(p: Pos, ranks: Seq<Seq<char>>, i: int)
    requires
        p.wf(),
        0 <= i <= 8,
        ranks.len() == 8,
        forall|k: int| 0 <= k < 8 ==> #[trigger] ranks[k] == rank_text(p, 7 - k, 0, 0),
    ensures
        place_ranks(upper(p, i), ranks, i) == Ok::<Seq<Option<Piece>>, FenFault>(p.squares),
    decreases 8 - i,
{
    if i >= 8 {
        assert(upper(p, 8) =~= p.squares);
    } else {
        lemma_rank_round_trip(upper(p, i), p, 7 - i, 0, 0);
        assert(ranks[i] == rank_text(p, 7 - i, 0, 0));
        assert(overlay(upper(p, i), p, 7 - i, 0) =~= upper(p, i + 1));
        lemma_placement_round_trip(p, ranks, i + 1);
    }
}

proof fn bv_rights_sum(c: u8)
    by (bit_vector)
    requires
        c < 16,
    ensures
        c & 1 != 0u8 || c & 2 != 0u8 || c & 4 != 0u8 || c & 8 != 0u8 || c == 0,
        ({
            let a = if c & 1 != 0u8 {
                0u8 | 1u8
            } else {
                0u8
            };
            let b = if c & 2 != 0u8 {
                a | 2u8
            } else {
                a
            };
            let d = if c & 4 != 0u8 {
                b | 4u8
            } else {
                b
            };
            let e = if c & 8 != 0u8 {
                d | 8u8
            } else {
                d
            };
            e == c
        }),
{
}

proof fn lemma_add_rights_push(s: Seq<char>, ch: char, f: u8, acc: u8)
    requires
        (ch == 'K' && f == 1) || (ch == 'Q' && f == 2) || (ch == 'k' && f == 4) || (ch == 'q' && f
            == 8),
    ensures
        add_rights(s, acc) matches Some(c) ==> add_rights(s.push(ch), acc) == Some(c | f),
    decreases s.len(),
{
    if s.len() == 0 {
        assert(s.push(ch).drop_first() =~= s);
        assert(add_rights(s.push(ch).drop_first(), acc | f) == Some(acc | f));
    } else {
        assert(s.push(ch).drop_first() =~= s.drop_first().push(ch));
        assert(s.push(ch)[0] == s[0]);
        if s[0] == 'K' {
            lemma_add_rights_push(s.drop_first(), ch, f, acc | 1);
        } else if s[0] == 'Q' {
            lemma_add_rights_push(s.drop_first(), ch, f, acc | 2);
        } else if s[0] == 'k' {
            lemma_add_rights_push(s.drop_first(), ch, f, acc | 4);
        } else if s[0] == 'q' {
            lemma_add_rights_push(s.drop_first(), ch, f, acc | 8);
        }
    }
}

proof fn lemma_castling_round_trip(c: CastlingRights)
    requires
        c.0 < 16,
    ensures
        parse_castling(castling_text(c)) == Ok::<CastlingRights, FenFault>(c),
        castling_text(c).len() > 0,
        forall|i: int|
            0 <= i < castling_text(c).len() ==> !is_space(#[trigger] castling_text(c)[i]),
{
    reveal_strlit("-");
    let t = castling_text(c);
    if c.0 == 0 {
        assert(t =~= "-"@);
    } else {
        bv_rights_sum(c.0);
        let e = Seq::<char>::empty();
        assert(add_rights(e, 0) == Some(0u8));
        lemma_add_rights_push(e, 'K', 1, 0);
        assert(e.push('K') =~= seq!['K']);
        let k = if c.holds(1) {
            seq!['K']
        } else {
            e
        };
        lemma_add_rights_push(k, 'Q', 2, 0);
        let kq = if c.holds(2) {
            k.push('Q')
        } else {
            k
        };
        lemma_add_rights_push(kq, 'k', 4, 0);
        let kqk = if c.holds(4) {
            kq.push('k')
        } else {
            kq
        };
        lemma_add_rights_push(kqk, 'q', 8, 0);
        assert(t[0] != '-');
    }
}

proof fn lemma_clock_round_trip(n: int)
    requires
        0 <= n <= 65535,
    ensures
        parse_clock(digits(n)) == Ok::<int, FenFault>(n),
        digits(n).len() > 0,
        forall|i: int| 0 <= i < digits(n).len() ==> !is_space(#[trigger] digits(n)[i]),
{
    lemma_digits_decimal(n);
    assert(digit_value(digits(n)[0]) is Some);
    assert forall|i: int| 0 <= i < digits(n).len() implies !is_space(#[trigger] digits(n)[i]) by {
        assert(digit_value(digits(n)[i]) is Some);
    }
}

/// Writing a position as a FEN and reading it back gives the position.
pub proof fn law_fen_round_trip(p: Pos)
    requires
        p.wf(),
        p.castling.0 < 16,
        0 <= p.halfmove <= 65535,
        0 <= p.fullmove <= 65535,
    ensures
        parse_fen(fen_text(p)) == Ok::<Pos, FenFault>(p),
{
    let a = ranks_text(p, 8);
    let b = side_text(p.side);
    let c = castling_text(p.castling);
    let d = ep_text(p.ep);
    let e = digits(p.halfmove);
    let f = digits(p.fullmove);
    lemma_ranks_text_chars(p, 8);
    lemma_castling_round_trip(p.castling);
    lemma_clock_round_trip(p.halfmove);
    lemma_clock_round_trip(p.fullmove);
    let sp = seq![' '];
    lemma_words_first(f, Seq::empty());
    lemma_words_first(e, f);
    lemma_words_first(d, e + sp + f);
    lemma_words_first(c, d + sp + (e + sp + f));
    lemma_words_first(b, c + sp + (d + sp + (e + sp + f)));
    lemma_words_first(a, b + sp + (c + sp + (d + sp + (e + sp + f))));
    assert(words(fen_text(p)) =~= seq![a, b, c, d, e, f]);
    // Placement.
    lemma_split_ranks(p, 8);
    assert(upper(p, 0) =~= Seq::new(64, |i: int| None::<Piece>));
    lemma_placement_round_trip(p, split(a, '/'), 0);
    // Side.
    reveal_strlit("w");
    reveal_strlit("b");
    assert(p.side == Color::White ==> b =~= "w"@);
    assert(p.side == Color::Black ==> b =~= "b"@);
    assert("w"@[0] != "b"@[0]);
    // En passant.
    reveal_strlit("-");
    match p.ep {
        Some(s) => {
            law_algebraic_round_trip(s);
            assert(d.len() == 2);
            assert("-"@.len() == 1);
        },
        None => {
            assert(d =~= "-"@);
        },
    }
}

impl Board {
    /// The castling rights rendered as a FEN field (`"KQkq"`, `"-"`, ...).
    pub fn castling_string(&self) -> (r: String)
        ensures
            r@ == castling_text(self.castling),
    {
        let c = self.castling;
        let mut s = String::new();
        if c.0 == 0 {
            s.push('-');
            proof {
                assert(s@ =~= castling_text(c));
            }
            return s;
        }
        if c.has(CastlingRights::WHITE_KING) {
            s.push('K');
        }
        proof {
            assert(s@ =~= (if c.holds(1) {
                seq!['K']
            } else {
                Seq::empty()
            }));
        }
        if c.has(CastlingRights::WHITE_QUEEN) {
            s.push('Q');
        }
        if c.has(CastlingRights::BLACK_KING) {
            s.push('k');
        }
        if c.has(CastlingRights::BLACK_QUEEN) {
            s.push('q');
        }
        s
    }

    /// Put the pieces of one rank's text on the board.
    fn read_rank(&mut self, rank: u8, text: &Vec<char>) -> (r: Result<(), FenError>)
        requires
            old(self).wf(),
            rank < 8,
            forall|f: int| 0 <= f < 8 ==> #[trigger] old(self)@.vacant(rank * 8 + f),
        ensures
            match place_rank(old(self)@.squares, rank as int, text@, 0) {
                Ok(n) => r is Ok && final(self).wf() && final(self)@ == (Pos {
                    squares: n,
                    ..old(self)@
                }),
                Err(e) => r is Err && r->Err_0@ == e,
            },
    {
        let ghost start = self@;
        let mut file: usize = 0;
        let mut i: usize = 0;
        proof {
            assert(text@.skip(0) =~= text@);
        }
        while i < text.len()
            invariant
                self.wf(),
                rank < 8,
                i <= text.len(),
                start == old(self)@,
                self@ == (Pos { squares: self@.squares, ..start }),
                place_rank(start.squares, rank as int, text@, 0) == place_rank(
                    self@.squares,
                    rank as int,
                    text@.skip(i as int),
                    file as int,
                ),
                forall|f: int| file <= f < 8 ==> #[trigger] self@.vacant(rank * 8 + f),
            decreases text.len() - i,
        {
            let ch = text[i];
            let ghost rest = text@.skip(i as int);
            proof {
                assert(rest[0] == ch);
                assert(rest.drop_first() =~= text@.skip(i + 1));
            }
            match digit(ch) {
                Some(skip) => {
                    file = file.saturating_add(skip as usize);
                },
                None => {
                    match Piece::from_char(ch) {
                        None => {
                            return Err(FenError::UnknownPiece(ch));
                        },
                        Some(piece) => {
                            if file > 7 {
                                return Err(
                                    FenError::BadFileCount {
                                        rank: rank + 1,
                                        found: file.saturating_add(1),
                                    },
                                );
                            }
                            proof {
                                assert(self@.vacant(rank * 8 + file));
                            }
                            let ghost before = self@;
                            self.put_piece(Square::from_file_rank(file as u8, rank), piece);
                            proof {
                                assert forall|f: int| file < f < 8 implies #[trigger] self@.vacant(
                                    rank * 8 + f,
                                ) by {
                                    assert(before.vacant(rank * 8 + f));
                                }
                            }
                            file += 1;
                        },
                    }
                },
            }
            i += 1;
        }
        proof {
            assert(text@.skip(i as int) =~= Seq::<char>::empty());
        }
        if file != 8 {
            return Err(FenError::BadFileCount { rank: rank + 1, found: file });
        }
        Ok(())
    }

    /// Put the pieces of a piece-placement field on an empty board.
    fn read_placement(text: &Vec<char>) -> (r: Result<Board, FenError>)
        ensures
            match parse_placement(text@) {
                Ok(n) => r is Ok && r->Ok_0.wf() && r->Ok_0@.squares == n,
                Err(e) => r is Err && r->Err_0@ == e,
            },
    {
        let ranks = split_on(text, '/');
        if ranks.len() != 8 {
            return Err(FenError::BadRankCount(ranks.len()));
        }
        let ghost all = split(text@, '/');
        let mut board = Board::empty();
        let mut i: u8 = 0;
        while i < 8
            invariant
                i <= 8,
                board.wf(),
                ranks@.len() == 8,
                all.len() == 8,
                forall|k: int| 0 <= k < 8 ==> #[trigger] ranks@[k]@ == all[k],
                parse_placement(text@) == place_ranks(board@.squares, all, i as int),
                forall|k: int| 0 <= k < 64 && k / 8 <= 7 - i ==> #[trigger] board@.squares[k]
                    is None,
            decreases 8 - i,
        {
            let ghost before = board@.squares;
            proof {
                lemma_place_rank_frame(before, 7 - i, all[i as int], 0);
            }
            match board.read_rank(7 - i, &ranks[i as usize]) {
                Err(e) => {
                    return Err(e);
                },
                Ok(_) => {},
            }
            i += 1;
        }
        Ok(board)
    }

    /// The castling rights that a field names.
    fn read_castling(text: &Vec<char>) -> (r: Result<CastlingRights, FenError>)
        ensures
            match parse_castling(text@) {
                Ok(c) => r == Ok::<CastlingRights, FenError>(c),
                Err(e) => r is Err && r->Err_0@ == e,
            },
    {
        let mut rights = CastlingRights::none();
        if text_is(text, "-") {
            return Ok(rights);
        }
        let mut i: usize = 0;
        proof {
            assert(text@.skip(0) =~= text@);
        }
        while i < text.len()
            invariant
                i <= text.len(),
                text@ != "-"@,
                add_rights(text@, 0) == add_rights(text@.skip(i as int), rights.0),
            decreases text.len() - i,
        {
            let ch = text[i];
            let ghost rest = text@.skip(i as int);
            proof {
                assert(rest[0] == ch);
                assert(rest.drop_first() =~= text@.skip(i + 1));
            }
            if ch == 'K' {
                rights.add(CastlingRights::WHITE_KING);
            } else if ch == 'Q' {
                rights.add(CastlingRights::WHITE_QUEEN);
            } else if ch == 'k' {
                rights.add(CastlingRights::BLACK_KING);
            } else if ch == 'q' {
                rights.add(CastlingRights::BLACK_QUEEN);
            } else {
                return Err(FenError::BadCastling(string_of(text)));
            }
            i += 1;
        }
        proof {
            assert(text@.skip(i as int) =~= Seq::<char>::empty());
        }
        Ok(rights)
    }

    /// The value of a clock field.
    fn read_clock(text: &Vec<char>) -> (r: Result<u16, FenError>)
        ensures
            match parse_clock(text@) {
                Ok(n) => r is Ok && r->Ok_0 == n,
                Err(e) => r is Err && r->Err_0@ == e,
            },
    {
        match parse_unsigned(text, 65535) {
            Some(n) => Ok(n as u16),
            None => Err(FenError::BadNumber(string_of(text))),
        }
    }

    /// Parse a position from FEN.
    pub fn from_fen(fen: &str) -> (r: Result<Board, FenError>)
        ensures
            match parse_fen(fen@) {
                Ok(p) => r is Ok && r->Ok_0@ == p,
                Err(e) => r is Err && r->Err_0@ == e,
            },
            r matches Ok(b) ==> b.wf() && b.hashed(),
    {
        let fields = split_words(&chars_of(fen));
        if fields.len() < 1 {
            return Err(FenError::MissingField("piece placement"));
        }
        if fields.len() < 2 {
            return Err(FenError::MissingField("side to move"));
        }
        if fields.len() < 3 {
            return Err(FenError::MissingField("castling"));
        }
        if fields.len() < 4 {
            return Err(FenError::MissingField("en passant"));
        }
        // The clock fields are optional; they have defaults.
        let zero = chars_of("0");
        let one = chars_of("1");
        let halfmove = if fields.len() > 4 {
            &fields[4]
        } else {
            &zero
        };
        let fullmove = if fields.len() > 5 {
            &fields[5]
        } else {
            &one
        };
        let ghost w = words(fen@);
        proof {
            assert(fields@[0]@ == w[0]);
            assert(fields@[1]@ == w[1]);
            assert(fields@[2]@ == w[2]);
            assert(fields@[3]@ == w[3]);
        }

        let mut board = match Board::read_placement(&fields[0]) {
            Err(e) => {
                return Err(e);
            },
            Ok(b) => b,
        };
        proof {
            reveal_strlit("w");
            reveal_strlit("b");
            assert("w"@[0] != "b"@[0]);
        }
        let side = if text_is(&fields[1], "w") {
            Color::White
        } else if text_is(&fields[1], "b") {
            Color::Black
        } else {
            return Err(FenError::BadSideToMove(string_of(&fields[1])));
        };
        let castling = match Board::read_castling(&fields[2]) {
            Err(e) => {
                return Err(e);
            },
            Ok(c) => c,
        };
        let ep: Option<Square> = if text_is(&fields[3], "-") {
            None
        } else {
            match Square::from_algebraic_chars(&fields[3]) {
                Some(q) => Some(q),
                None => {
                    return Err(FenError::BadEnPassant(string_of(&fields[3])));
                },
            }
        };
        let half: u16 = match Board::read_clock(halfmove) {
            Err(e) => {
                return Err(e);
            },
            Ok(n) => n,
        };
        let full: u16 = match Board::read_clock(fullmove) {
            Err(e) => {
                return Err(e);
            },
            Ok(n) => n,
        };
        board.side_to_move = side;
        board.castling = castling;
        board.ep_square = ep;
        board.halfmove_clock = half;
        board.fullmove_number = full;
        board.hash = board.compute_hash();
        Ok(board)
    }

    /// The text of one rank, appended to `s`.
    fn write_rank(&self, s: &mut Vec<char>, rank: u8)
        requires
            rank < 8,
        ensures
            final(s)@ == old(s)@ + rank_text(self@, rank as int, 0, 0),
    {
        let ghost start = s@;
        let mut empty: u8 = 0;
        let mut file: u8 = 0;
        proof {
            assert(start + rank_text(self@, rank as int, 0, 0) =~= s@ + rank_text(
                self@,
                rank as int,
                0,
                0,
            ));
        }
        while file < 8
            invariant
                rank < 8,
                empty <= file <= 8,
                start + rank_text(self@, rank as int, 0, 0) == s@ + rank_text(
                    self@,
                    rank as int,
                    file as int,
                    empty as int,
                ),
            decreases 8 - file,
        {
            let ghost before = s@;
            match self.piece_at(Square::from_file_rank(file, rank)) {
                Some(p) => {
                    if empty > 0 {
                        push_digit(s, empty);
                    }
                    s.push(p.to_char());
                    proof {
                        assert(s@ + rank_text(self@, rank as int, file + 1, 0) =~= before
                            + rank_text(self@, rank as int, file as int, empty as int));
                    }
                    empty = 0;
                },
                None => {
                    empty += 1;
                },
            }
            file += 1;
        }
        if empty > 0 {
            push_digit(s, empty);
        }
        proof {
            assert(s@ =~= start + rank_text(self@, rank as int, 0, 0));
        }
    }

    /// Serialize the position back to FEN. Round-trips with [`Board::from_fen`].
    pub fn to_fen(&self) -> (r: String)
        ensures
            r@ == fen_text(self@),
    {
        let mut s: Vec<char> = Vec::new();
        let mut n: u8 = 8;
        while n > 1
            invariant
                1 <= n <= 8,
                s@ + ranks_text(self@, n as int) == ranks_text(self@, 8),
            decreases n,
        {
            self.write_rank(&mut s, n - 1);
            s.push('/');
            n -= 1;
            proof {
                assert(s@ + ranks_text(self@, n as int) =~= ranks_text(self@, 8));
            }
        }
        self.write_rank(&mut s, 0);
        proof {
            assert(s@ =~= ranks_text(self@, 8));
        }
        s.push(' ');
        s.push(
            if self.side_to_move == Color::White {
                'w'
            } else {
                'b'
            },
        );
        s.push(' ');
        let mut castling = chars_of(self.castling_string().as_str());
        s.append(&mut castling);
        s.push(' ');
        match self.ep_square {
            Some(sq) => {
                let mut name = sq.name_chars();
                s.append(&mut name);
            },
            None => {
                s.push('-');
            },
        }
        s.push(' ');
        let mut half = number_chars(self.halfmove_clock as u64);
        s.append(&mut half);
        s.push(' ');
        let mut full = number_chars(self.fullmove_number as u64);
        s.append(&mut full);
        proof {
            assert(s@ =~= fen_text(self@));
        }
        string_of(&s)
    }
}

/// Append a digit between 1 and 8.
fn push_digit(s: &mut Vec<char>, d: u8)
    requires
        1 <= d <= 8,
    ensures
        final(s)@ == old(s)@.push(digit_char(d as int)),
{
    let mut t = number_chars(d as u64);
    let ghost start = s@;
    s.append(&mut t);
    proof {
        assert(s@ =~= start.push(digit_char(d as int)));
    }
}

/// The piece that stands on the given file of the back ranks at the start.
pub open spec fn back_rank(file: int) -> PieceType {
    if file == 0 || file == 7 {
        PieceType::Rook
    } else if file == 1 || file == 6 {
        PieceType::Knight
    } else if file == 2 || file == 5 {
        PieceType::Bishop
    } else if file == 3 {
        PieceType::Queen
    } else {
        PieceType::King
    }
}

/// The standard starting position.
pub open spec fn start_position() -> Pos {
    Pos {
        squares: Seq::new(
            64,
            |i: int|
                if i / 8 == 0 {
                    Some(Piece { color: Color::White, piece_type: back_rank(i % 8) })
                } else if i / 8 == 1 {
                    Some(Piece { color: Color::White, piece_type: PieceType::Pawn })
                } else if i / 8 == 6 {
                    Some(Piece { color: Color::Black, piece_type: PieceType::Pawn })
                } else if i / 8 == 7 {
                    Some(Piece { color: Color::Black, piece_type: back_rank(i % 8) })
                } else {
                    None
                },
        ),
        side: Color::White,
        castling: CastlingRights(15),
        ep: None,
        halfmove: 0,
        fullmove: 1,
    }
}

proof fn lemma_start_rank(rank: int)
    requires
        0 <= rank < 8,
    ensures
        rank_text(start_position(), rank, 0, 0) == (if rank == 0 {
            seq!['R', 'N', 'B', 'Q', 'K', 'B', 'N', 'R']
        } else if rank == 1 {
            seq!['P', 'P', 'P', 'P', 'P', 'P', 'P', 'P']
        } else if rank == 6 {
            seq!['p', 'p', 'p', 'p', 'p', 'p', 'p', 'p']
        } else if rank == 7 {
            seq!['r', 'n', 'b', 'q', 'k', 'b', 'n', 'r']
        } else {
            seq!['8']
        }),
{
    reveal_with_fuel(rank_text, 9);
    let p = start_position();
    assert forall|f: int| 0 <= f < 8 implies (rank * 8 + f) / 8 == rank && #[trigger] ((rank * 8 + f)
        % 8) == f by {}
    assert(rank_text(p, rank, 0, 0) =~= (if rank == 0 {
        seq!['R', 'N', 'B', 'Q', 'K', 'B', 'N', 'R']
    } else if rank == 1 {
        seq!['P', 'P', 'P', 'P', 'P', 'P', 'P', 'P']
    } else if rank == 6 {
        seq!['p', 'p', 'p', 'p', 'p', 'p', 'p', 'p']
    } else if rank == 7 {
        seq!['r', 'n', 'b', 'q', 'k', 'b', 'n', 'r']
    } else {
        seq!['8']
    }));
}

proof fn bv_all_rights()
    by (bit_vector)
    ensures
        15u8 & 1u8 != 0u8,
        15u8 & 2u8 != 0u8,
        15u8 & 4u8 != 0u8,
        15u8 & 8u8 != 0u8,
{
}

/// `STARTING_FEN` is the FEN of the standard starting position.
pub proof fn law_starting_fen()
    ensures
        fen_text(start_position()) == STARTING_FEN@,
        parse_fen(STARTING_FEN@) == Ok::<Pos, FenFault>(start_position()),
{
    let p = start_position();
    reveal_strlit("rnbqkbnr/pppppppp/8/8/8/8/PPPPPPPP/RNBQKBNR w KQkq - 0 1");
    lemma_start_rank(0);
    lemma_start_rank(1);
    lemma_start_rank(2);
    lemma_start_rank(3);
    lemma_start_rank(4);
    lemma_start_rank(5);
    lemma_start_rank(6);
    lemma_start_rank(7);
    reveal_with_fuel(ranks_text, 9);
    bv_all_rights();
    assert(castling_text(p.castling) =~= seq!['K', 'Q', 'k', 'q']);
    assert(digits(0) =~= seq!['0']);
    assert(digits(1) =~= seq!['1']);
    let lit = seq!['r', 'n', 'b', 'q', 'k', 'b', 'n', 'r', '/', 'p', 'p', 'p', 'p', 'p', 'p', 'p', 'p', '/', '8', '/', '8', '/', '8', '/', '8', '/', 'P', 'P', 'P', 'P', 'P', 'P', 'P', 'P', '/', 'R', 'N', 'B', 'Q', 'K', 'B', 'N', 'R', ' ', 'w', ' ', 'K', 'Q', 'k', 'q', ' ', '-', ' ', '0', ' ', '1'];
    assert(fen_text(p) =~= lit);
    assert(lit =~= STARTING_FEN@);
    law_fen_round_trip(p);
}

impl Board {
    /// The standard chess starting position.
    pub fn starting_position() -> (r: Board)
        ensures
            r@ == start_position(),
            r.wf(),
            r.hashed(),
    {
        proof {
            law_starting_fen();
        }
        match Board::from_fen(STARTING_FEN) {
            Ok(b) => b,
            Err(_) => Board::empty(),
        }
    }
}

} // verus!
