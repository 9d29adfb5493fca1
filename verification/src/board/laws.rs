//! What FEN texts say, and what the hash of a position is made of.

use crate::board::{
    cells_key, lemma_cells_key_update, lemma_xor, position_key, state_key, CastlingRights, Pos,
};
use crate::board::fen::{
    add_rights, castling_text, parse_castling, parse_ep, parse_fen, parse_placement, place_rank,
    place_ranks, FenFault,
};
use crate::board::piece::{char_piece, piece_char, Color, Piece, PieceType};
use crate::board::square::Square;
use crate::board::zobrist::stream;
use crate::text::{digit_value, split, unsigned_value, words};
use vstd::prelude::*;

verus! {

/// The letters of pieces: capitals for White, small ones for Black, the same for each
/// kind.
pub proof fn law_piece_letters(pt: PieceType)
    ensures
        piece_char(Piece { color: Color::White, piece_type: pt }) == (match pt {
            PieceType::Pawn => 'P',
            PieceType::Knight => 'N',
            PieceType::Bishop => 'B',
            PieceType::Rook => 'R',
            PieceType::Queen => 'Q',
            PieceType::King => 'K',
        }),
        piece_char(Piece { color: Color::Black, piece_type: pt }) as u32 == piece_char(
            Piece { color: Color::White, piece_type: pt },
        ) as u32 + 32,
        char_piece(piece_char(Piece { color: Color::White, piece_type: pt })) == Some(
            Piece { color: Color::White, piece_type: pt },
        ),
        char_piece(piece_char(Piece { color: Color::Black, piece_type: pt })) == Some(
            Piece { color: Color::Black, piece_type: pt },
        ),
{
}

/// A square is named by a letter that counts its files from `a` and a digit that
/// counts its ranks from `1`; its number counts along the ranks from a1.
pub proof fn law_square_names(s: Square)
    requires
        s.ok(),
    ensures
        s.name().len() == 2,
        s.name()[0] as u32 == 97 + s.0 % 8,
        s.name()[1] as u32 == 49 + s.0 / 8,
{
}

/// The cells that the text of a rank describes: a piece for each letter, and as many
/// empty ones for a digit as it says.
pub open spec fn cells_of(s: Seq<char>) -> Seq<Option<Piece>>
    decreases s.len(),
{
    if s.len() == 0 {
        Seq::empty()
    } else if 48 <= s[0] as u32 <= 57 {
        Seq::new((s[0] as u32 - 48) as nat, |i: int| None::<Piece>) + cells_of(s.drop_first())
    } else {
        seq![char_piece(s[0])] + cells_of(s.drop_first())
    }
}

proof fn lemma_rank_cells(sq: Seq<Option<Piece>>, rank: int, s: Seq<char>, file: int)
    requires
        sq.len() == 64,
        0 <= rank < 8,
        0 <= file,
        place_rank(sq, rank, s, file) is Ok,
        forall|f: int| file <= f < 8 ==> #[trigger] sq[rank * 8 + f] is None,
    ensures
        ({
            let n = place_rank(sq, rank, s, file)->Ok_0;
            &&& file <= 8
            &&& n.len() == 64
            &&& cells_of(s).len() == 8 - file
            &&& forall|f: int|
                file <= f < 8 ==> #[trigger] n[rank * 8 + f] == cells_of(s)[f - file]
            &&& forall|i: int|
                0 <= i < 64 && !(rank * 8 + file <= i < rank * 8 + 8) ==> #[trigger] n[i] == sq[i]
        }),
    decreases s.len(),
{
    if s.len() > 0 {
        match digit_value(s[0]) {
            Some(d) => {
                lemma_rank_cells(sq, rank, s.drop_first(), crate::board::fen::clip(file + d));
                let n = place_rank(sq, rank, s, file)->Ok_0;
                assert forall|f: int| file <= f < 8 implies #[trigger] n[rank * 8 + f] == cells_of(
                    s,
                )[f - file] by {
                    if f < file + d {
                        assert(n[rank * 8 + f] == sq[rank * 8 + f]);
                    }
                }
            },
            None => {
                let p = char_piece(s[0])->0;
                let next = sq.update(rank * 8 + file, Some(p));
                lemma_rank_cells(next, rank, s.drop_first(), file + 1);
                let n = place_rank(sq, rank, s, file)->Ok_0;
                assert forall|f: int| file <= f < 8 implies #[trigger] n[rank * 8 + f] == cells_of(
                    s,
                )[f - file] by {
                    if f == file {
                        assert(n[rank * 8 + f] == next[rank * 8 + f]);
                    }
                }
            },
        }
    }
}

proof fn lemma_ranks_cells(sq: Seq<Option<Piece>>, ranks: Seq<Seq<char>>, i: int)
    requires
        sq.len() == 64,
        0 <= i <= 8,
        place_ranks(sq, ranks, i) is Ok,
        forall|k: int| 0 <= k < 8 * (8 - i) ==> #[trigger] sq[k] is None,
    ensures
        ({
            let n = place_ranks(sq, ranks, i)->Ok_0;
            &&& n.len() == 64
            &&& forall|r: int| i <= r < 8 ==> (#[trigger] cells_of(ranks[r])).len() == 8
            &&& forall|r: int, f: int|
                i <= r < 8 && 0 <= f < 8 ==> n[(7 - r) * 8 + f] == #[trigger] cells_of(ranks[r])[f]
            &&& forall|k: int| 8 * (8 - i) <= k < 64 ==> #[trigger] n[k] == sq[k]
        }),
    decreases 8 - i,
{
    if i < 8 {
        lemma_rank_cells(sq, 7 - i, ranks[i], 0);
        let next = place_rank(sq, 7 - i, ranks[i], 0)->Ok_0;
        lemma_ranks_cells(next, ranks, i + 1);
        let n = place_ranks(sq, ranks, i)->Ok_0;
        assert(n == place_ranks(next, ranks, i + 1)->Ok_0);
        assert forall|r: int, f: int| i <= r < 8 && 0 <= f < 8 implies n[(7 - r) * 8 + f]
            == #[trigger] cells_of(ranks[r])[f] by {
            if r == i {
                let k = (7 - i) * 8 + f;
                assert(n[k] == next[k]);
                assert(next[(7 - i) * 8 + f] == cells_of(ranks[i])[f]);
            }
        }
        assert forall|r: int| i <= r < 8 implies (#[trigger] cells_of(ranks[r])).len() == 8 by {}
    }
}

/// The first field of a FEN describes the ranks from the eighth down to the first, and
/// each rank from the a-file to the h-file.
pub proof fn law_fen_placement(s: Seq<char>, r: int, f: int)
    requires
        parse_fen(s) is Ok,
        0 <= r < 8,
        0 <= f < 8,
    ensures
        ({
            let ranks = split(words(s)[0], '/');
            &&& ranks.len() == 8
            &&& cells_of(ranks[7 - r]).len() == 8
            &&& parse_fen(s)->Ok_0.squares[8 * r + f] == cells_of(ranks[7 - r])[f]
        }),
{
    let ranks = split(words(s)[0], '/');
    let none = Seq::new(64, |i: int| None::<Piece>);
    assert(parse_placement(words(s)[0]) is Ok);
    lemma_ranks_cells(none, ranks, 0);
    let n = place_ranks(none, ranks, 0)->Ok_0;
    assert(n[(7 - (7 - r)) * 8 + f] == cells_of(ranks[7 - r])[f]);
}

proof fn lemma_or(acc: u8, f: u8, g: u8)
    by (bit_vector)
    requires
        f == 1 || f == 2 || f == 4 || f == 8,
        g == 1 || g == 2 || g == 4 || g == 8,
    ensures
        ((acc | f) & g != 0) <==> (acc & g != 0 || f == g),
        acc < 16 ==> (acc | f) < 16,
        0u8 & g == 0,
{
}

proof fn lemma_rights(s: Seq<char>, acc: u8)
    requires
        add_rights(s, acc) is Some,
        acc < 16,
    ensures
        ({
            let r = add_rights(s, acc)->0;
            &&& r < 16
            &&& (r & 1 != 0) <==> acc & 1 != 0 || s.contains('K')
            &&& (r & 2 != 0) <==> acc & 2 != 0 || s.contains('Q')
            &&& (r & 4 != 0) <==> acc & 4 != 0 || s.contains('k')
            &&& (r & 8 != 0) <==> acc & 8 != 0 || s.contains('q')
        }),
    decreases s.len(),
{
    if s.len() > 0 {
        let f: u8 = if s[0] == 'K' {
            1
        } else if s[0] == 'Q' {
            2
        } else if s[0] == 'k' {
            4
        } else {
            8
        };
        lemma_or(acc, f, 1);
        lemma_or(acc, f, 2);
        lemma_or(acc, f, 4);
        lemma_or(acc, f, 8);
        let rest = s.drop_first();
        lemma_rights(rest, acc | f);
        assert forall|c: char| #[trigger] s.contains(c) <==> s[0] == c || rest.contains(c) by {
            if s.contains(c) && s[0] != c {
                let n = choose|n: int| 0 <= n < s.len() && s[n] == c;
                assert(rest[n - 1] == c);
            }
            if rest.contains(c) {
                let n = choose|n: int| 0 <= n < rest.len() && rest[n] == c;
                assert(s[n + 1] == c);
            }
        }
    }
}

/// The other fields of a FEN: `w` or `b` for the side to move; `K`, `Q`, `k` and `q`
/// for the right to castle of White and Black on the king's and the queen's side; the
/// en passant square by its name; the two clocks as numbers, where 0 and 1 stand for
/// those that are left out.
pub proof fn law_fen_fields(s: Seq<char>)
    requires
        parse_fen(s) is Ok,
    ensures
        ({
            let p = parse_fen(s)->Ok_0;
            let w = words(s);
            &&& w.len() >= 4
            &&& w[1] == seq!['w'] && p.side == Color::White || w[1] == seq!['b'] && p.side
                == Color::Black
            &&& p.castling.holds(CastlingRights::WHITE_KING) <==> w[2].contains('K')
            &&& p.castling.holds(CastlingRights::WHITE_QUEEN) <==> w[2].contains('Q')
            &&& p.castling.holds(CastlingRights::BLACK_KING) <==> w[2].contains('k')
            &&& p.castling.holds(CastlingRights::BLACK_QUEEN) <==> w[2].contains('q')
            &&& p.castling.0 < 16
            &&& p.ep is None <==> w[3] == seq!['-']
            &&& p.ep matches Some(e) ==> w[3].len() == 2 && w[3][0] as u32 == 97 + e.f() && w[3][1] as u32
                == 49 + e.r()
            &&& w.len() > 4 ==> unsigned_value(w[4], 65535) == Some(p.halfmove)
            &&& w.len() == 4 ==> p.halfmove == 0
            &&& w.len() > 5 ==> unsigned_value(w[5], 65535) == Some(p.fullmove)
            &&& w.len() <= 5 ==> p.fullmove == 1
        }),
{
    let w = words(s);
    reveal_strlit("w");
    reveal_strlit("b");
    reveal_strlit("-");
    reveal_strlit("0");
    reveal_strlit("1");
    assert("w"@ =~= seq!['w']);
    assert("b"@ =~= seq!['b']);
    assert("-"@ =~= seq!['-']);
    assert("0"@ =~= seq!['0']);
    assert("1"@ =~= seq!['1']);
    assert(parse_castling(w[2]) is Ok);
    assert(parse_ep(w[3]) is Ok);
    lemma_or(0, 1, 1);
    lemma_or(0, 1, 2);
    lemma_or(0, 1, 4);
    lemma_or(0, 1, 8);
    if w[2] != seq!['-'] {
        lemma_rights(w[2], 0);
    } else {
        assert(forall|c: char| #[trigger] w[2].contains(c) ==> c == '-');
    }
    reveal_with_fuel(crate::text::decimal, 3);
    assert(seq!['0'].drop_last() =~= Seq::<char>::empty());
    assert(seq!['1'].drop_last() =~= Seq::<char>::empty());
    assert(unsigned_value(seq!['0'], 65535) == Some(0int));
    assert(unsigned_value(seq!['1'], 65535) == Some(1int));
}

/// The castling rights are written in the order `KQkq`, or as `-` if there are none.
pub proof fn law_castling_order(c: CastlingRights, i: int, j: int)
    requires
        0 <= i < j < castling_text(c).len(),
        0 < c.0 < 16,
    ensures
        ({
            let place = |x: char|
                if x == 'K' {
                    0int
                } else if x == 'Q' {
                    1
                } else if x == 'k' {
                    2
                } else {
                    3
                };
            place(castling_text(c)[i]) < place(castling_text(c)[j])
        }),
{
}

/// A piece that is put on an empty square changes the hash by a number of its own:
/// 64 for each kind of White's pieces from pawn to king, then as many for Black's.
pub proof fn law_key_of_pieces(p: Pos, i: int, pc: Piece)
    requires
        p.squares.len() == 64,
        0 <= i < 64,
        p.squares[i] is None,
    ensures
        ({
            let kind = match pc.piece_type {
                PieceType::Pawn => 0int,
                PieceType::Knight => 64,
                PieceType::Bishop => 128,
                PieceType::Rook => 192,
                PieceType::Queen => 256,
                PieceType::King => 320,
            };
            let side = if pc.color == Color::White {
                0int
            } else {
                384
            };
            position_key(Pos { squares: p.squares.update(i, Some(pc)), ..p }) == position_key(p)
                ^ stream((side + kind + i) as nat)
        }),
{
    lemma_cells_key_update(p.squares, i, Some(pc), 64);
    let a = cells_key(p.squares, 64);
    let k = crate::board::cell_key(Some(pc), i);
    let st = state_key(p.side, p.castling, p.ep);
    lemma_xor(a, 0, 0);
    lemma_xor(a, k, st);
}

/// The side to move, the castling rights and the file of the en passant square change
/// the hash by numbers of their own.
pub proof fn law_key_of_state(p: Pos, rights: u8, e: Square)
    requires
        rights < 16,
        e.ok(),
    ensures
        position_key(Pos { side: Color::Black, ..p }) == position_key(
            Pos { side: Color::White, ..p },
        ) ^ stream(768),
        position_key(Pos { castling: CastlingRights(rights), ..p }) == position_key(
            Pos { castling: CastlingRights(0), ..p },
        ) ^ stream(769) ^ stream((769 + rights) as nat),
        position_key(Pos { ep: Some(e), ..p }) == position_key(Pos { ep: None, ..p }) ^ stream(
            (785 + e.f()) as nat,
        ),
{
    let a = cells_key(p.squares, 64);
    let s = if p.side == Color::Black {
        stream(768)
    } else {
        0
    };
    let x = match p.ep {
        Some(q) => crate::board::zobrist::ep_key(q.f()),
        None => 0,
    };
    let c = crate::board::zobrist::castling_key(p.castling.0);
    lemma_state(a, s, c, x, stream(768), stream(769), stream((769 + rights) as nat));
    lemma_state(a, s, c, stream((785 + e.f()) as nat), 0, 0, 0);
}

proof fn lemma_state(a: u64, s: u64, c: u64, x: u64, b: u64, r: u64, t: u64)
    by (bit_vector)
    ensures
        a ^ (b ^ c ^ x) == (a ^ (0u64 ^ c ^ x)) ^ b,
        a ^ (s ^ t ^ x) == (a ^ (s ^ r ^ x)) ^ r ^ t,
        a ^ (s ^ c ^ x) == (a ^ (s ^ c ^ 0u64)) ^ x,
{
}

/// The letter is one of a piece, or the character a digit.
pub open spec fn rank_letter(c: char) -> bool {
    48 <= c as u32 <= 57 || c == 'P' || c == 'N' || c == 'B' || c == 'R' || c == 'Q' || c == 'K' || c
        == 'p' || c == 'n' || c == 'b' || c == 'r' || c == 'q' || c == 'k'
}

proof fn lemma_rank_letters(sq: Seq<Option<Piece>>, rank: int, s: Seq<char>, file: int)
    requires
        place_rank(sq, rank, s, file) is Ok,
    ensures
        forall|i: int| 0 <= i < s.len() ==> rank_letter(#[trigger] s[i]),
    decreases s.len(),
{
    if s.len() > 0 {
        let rest = s.drop_first();
        match digit_value(s[0]) {
            Some(d) => {
                lemma_rank_letters(sq, rank, rest, crate::board::fen::clip(file + d));
            },
            None => {
                let p = char_piece(s[0])->0;
                lemma_rank_letters(sq.update(rank * 8 + file, Some(p)), rank, rest, file + 1);
            },
        }
        assert forall|i: int| 0 <= i < s.len() implies rank_letter(#[trigger] s[i]) by {
            if i > 0 {
                assert(rank_letter(rest[i - 1]));
            }
        }
    }
}

proof fn lemma_ranks_letters(sq: Seq<Option<Piece>>, ranks: Seq<Seq<char>>, i: int)
    requires
        0 <= i <= 8,
        place_ranks(sq, ranks, i) is Ok,
    ensures
        forall|r: int, k: int|
            i <= r < 8 && 0 <= k < ranks[r].len() ==> rank_letter(#[trigger] ranks[r][k]),
    decreases 8 - i,
{
    if i < 8 {
        lemma_rank_letters(sq, 7 - i, ranks[i], 0);
        lemma_ranks_letters(place_rank(sq, 7 - i, ranks[i], 0)->Ok_0, ranks, i + 1);
    }
}

proof fn lemma_right_letters(s: Seq<char>, acc: u8)
    requires
        add_rights(s, acc) is Some,
    ensures
        forall|i: int|
            0 <= i < s.len() ==> (#[trigger] s[i] == 'K' || s[i] == 'Q' || s[i] == 'k' || s[i]
                == 'q'),
    decreases s.len(),
{
    if s.len() > 0 {
        let rest = s.drop_first();
        let f: u8 = if s[0] == 'K' {
            1
        } else if s[0] == 'Q' {
            2
        } else if s[0] == 'k' {
            4
        } else {
            8
        };
        lemma_right_letters(rest, acc | f);
        assert forall|i: int| 0 <= i < s.len() implies (#[trigger] s[i] == 'K' || s[i] == 'Q' || s[i]
            == 'k' || s[i] == 'q') by {
            if i > 0 {
                assert(rest[i - 1] == s[i]);
            }
        }
    }
}

/// Nothing else is read as a FEN: the ranks hold letters of pieces and digits alone, the
/// castling field is `-` or made of the four letters, and no field is missing.
pub proof fn law_fen_letters(s: Seq<char>, r: int, k: int)
    requires
        parse_fen(s) is Ok,
        0 <= r < 8,
        0 <= k < split(words(s)[0], '/')[r].len(),
    ensures
        rank_letter(split(words(s)[0], '/')[r][k]),
        ({
            let c = words(s)[2];
            c == seq!['-'] || forall|i: int|
                0 <= i < c.len() ==> (#[trigger] c[i] == 'K' || c[i] == 'Q' || c[i] == 'k' || c[i]
                    == 'q')
        }),
{
    let ranks = split(words(s)[0], '/');
    let none = Seq::new(64, |i: int| None::<Piece>);
    assert(parse_placement(words(s)[0]) is Ok);
    lemma_ranks_letters(none, ranks, 0);
    reveal_strlit("-");
    assert("-"@ =~= seq!['-']);
    assert(parse_castling(words(s)[2]) is Ok);
    if words(s)[2] != seq!['-'] {
        lemma_right_letters(words(s)[2], 0);
    }
}

/// What is wrong with a text that is no FEN: the first field that is missing, a side other
/// than `w` and `b`, or a number of ranks other than eight.
pub proof fn law_fen_faults(s: Seq<char>)
    ensures
        ({
            let w = words(s);
            &&& w.len() == 0 ==> parse_fen(s) == Err::<Pos, FenFault>(
                FenFault::MissingField("piece placement"@),
            )
            &&& w.len() == 1 ==> parse_fen(s) == Err::<Pos, FenFault>(
                FenFault::MissingField("side to move"@),
            )
            &&& w.len() == 2 ==> parse_fen(s) == Err::<Pos, FenFault>(
                FenFault::MissingField("castling"@),
            )
            &&& w.len() == 3 ==> parse_fen(s) == Err::<Pos, FenFault>(
                FenFault::MissingField("en passant"@),
            )
            &&& w.len() >= 4 && split(w[0], '/').len() != 8 ==> parse_fen(s) == Err::<Pos, FenFault>(
                FenFault::BadRankCount(split(w[0], '/').len() as int),
            )
            &&& w.len() >= 4 && parse_placement(w[0]) is Ok && w[1] != seq!['w'] && w[1] != seq!['b']
                ==> parse_fen(s) == Err::<Pos, FenFault>(FenFault::BadSideToMove(w[1]))
        }),
{
    reveal_strlit("w");
    reveal_strlit("b");
    assert("w"@ =~= seq!['w']);
    assert("b"@ =~= seq!['b']);
}

} // verus!
