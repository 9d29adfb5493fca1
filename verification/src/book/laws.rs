//! What holds of Polyglot keys, words and records.

use crate::board::{ep_captor, lemma_xor, CastlingRights, Pos};
use crate::board::piece::{Color, Piece, PieceType};
use crate::board::square::Square;
use crate::book::entries::{big_endian, record_of, records_of, PolyEntry};
use crate::book::legal_hits;
use crate::book::polyglot::{
    book_castling, book_cells, book_ep, book_key, book_word, number_if, piece_row, worded_as,
};
use crate::book::polyglot_random::{lemma_file_numbers, lemma_start_numbers, number, RANDOM};
use crate::movegen::find::{first_where, law_first_where};
use crate::movegen::legal::{law_legal_moves, legal};
use crate::movegen::moves::Move;
use crate::movegen::rules::{law_pseudo_moves_shape, shape, valid};
use vstd::prelude::*;

verus! {

proof fn lemma_add_right(c: u8, f: u8, g: u8)
    by (bit_vector)
    requires
        f == 1 || f == 2 || f == 4 || f == 8,
        g == 1 || g == 2 || g == 4 || g == 8,
        c & f == 0,
    ensures
        (c | f) & f != 0,
        f != g ==> ((c | f) & g != 0) == (c & g != 0),
{
}

proof fn lemma_insert(a: u64, b: u64, c: u64, d: u64, e: u64, n: u64)
    by (bit_vector)
    ensures
        (a ^ n) ^ b ^ c ^ d == (a ^ b ^ c ^ d) ^ n,
        a ^ (b ^ n) ^ c ^ d == (a ^ b ^ c ^ d) ^ n,
        a ^ b ^ (c ^ n) ^ d == (a ^ b ^ c ^ d) ^ n,
        b ^ n ^ d ^ e == (b ^ 0u64 ^ d ^ e) ^ n,
        n ^ c ^ d ^ e == (0u64 ^ c ^ d ^ e) ^ n,
        b ^ c ^ n ^ e == (b ^ c ^ 0u64 ^ e) ^ n,
        b ^ c ^ d ^ n == (b ^ c ^ d ^ 0u64) ^ n,
{
}

/// The number by which a castling right that is added changes the key.
pub open spec fn right_number(flag: u8) -> u64 {
    if flag == CastlingRights::WHITE_KING {
        0x31d71dce64b2c310
    } else if flag == CastlingRights::WHITE_QUEEN {
        0xf165b587df898190
    } else if flag == CastlingRights::BLACK_KING {
        0xa57e6339dd2cf3a0
    } else {
        0x1ef6e6dbb1961ec9
    }
}

/// Each castling right has a number of its own: a position that has it besides
/// others has the key of the position without it, changed by that number.
pub proof fn law_castling_numbers(p: Pos, flag: u8)
    requires
        flag == 1 || flag == 2 || flag == 4 || flag == 8,
        p.castling.0 & flag == 0,
    ensures
        book_key(Pos { castling: CastlingRights(p.castling.0 | flag), ..p }) == book_key(p)
            ^ right_number(flag),
        flag == 1 ==> right_number(flag) == 0x31d71dce64b2c310u64,
        flag == 2 ==> right_number(flag) == 0xf165b587df898190u64,
        flag == 4 ==> right_number(flag) == 0xa57e6339dd2cf3a0u64,
        flag == 8 ==> right_number(flag) == 0x1ef6e6dbb1961ec9u64,
{
    lemma_start_numbers();
    let c = p.castling;
    let d = CastlingRights(c.0 | flag);
    let q = Pos { castling: d, ..p };
    lemma_add_right(c.0, flag, 1);
    lemma_add_right(c.0, flag, 2);
    lemma_add_right(c.0, flag, 4);
    lemma_add_right(c.0, flag, 8);
    let (k, l, m, n) = (
        number_if(c.holds(1), 768),
        number_if(c.holds(2), 769),
        number_if(c.holds(4), 770),
        number_if(c.holds(8), 771),
    );
    let x = right_number(flag);
    lemma_insert(0, k, l, m, n, x);
    assert(book_castling(d) == book_castling(c) ^ x);
    assert(book_ep(q) == book_ep(p));
    lemma_insert(
        book_cells(p.squares, 64),
        book_castling(c),
        book_ep(p),
        number_if(p.side == Color::White, 780),
        0,
        x,
    );
}

/// A pawn of the side to move stands beside the pawn that has just passed.
pub open spec fn can_take(p: Pos, e: Square) -> bool {
    exists|s: Square|
        {
            &&& s.ok()
            &&& #[trigger] p.holds(p.side, PieceType::Pawn, s.0 as int)
            &&& s.f() == e.f() - 1 || s.f() == e.f() + 1
            &&& p.side == Color::White ==> s.r() == e.r() - 1
            &&& p.side == Color::Black ==> s.r() == e.r() + 1
        }
}

/// An en passant square changes the key by the number of its file, if a pawn can
/// take there, and not at all if none can.
pub proof fn law_ep_numbers(p: Pos, e: Square)
    requires
        p.ep is None,
        e.ok(),
    ensures
        !can_take(p, e) ==> book_key(Pos { ep: Some(e), ..p }) == book_key(p),
        can_take(p, e) ==> book_key(Pos { ep: Some(e), ..p }) == book_key(p) ^ seq![
            0x70cc73d90bc26e24u64,
            0xe21a6b35df0c3ad7u64,
            0x003a93d8b2806962u64,
            0x1c99ded33cb890a1u64,
            0xcf3145de0add4289u64,
            0xd0e4427a5514fb72u64,
            0x77c621cc9fb3a483u64,
            0x67a34dac4356550bu64,
        ][e.f()],
{
    lemma_file_numbers();
    let q = Pos { ep: Some(e), ..p };
    let behind = if p.side == Color::White {
        e.r() - 1
    } else {
        e.r() + 1
    };
    if ep_captor(q, e) {
        let g = if e.f() > 0 && p.holds(p.side, PieceType::Pawn, behind * 8 + e.f() - 1) {
            behind * 8 + e.f() - 1
        } else {
            behind * 8 + e.f() + 1
        };
        assert(p.holds(p.side, PieceType::Pawn, Square(g as u8).0 as int));
        assert(can_take(p, e));
        let x = number(772 + e.f());
        lemma_xor(x, 0, 0);
        lemma_insert(
            book_cells(p.squares, 64),
            book_castling(p.castling),
            0,
            number_if(p.side == Color::White, 780),
            0,
            x,
        );
    } else {
        assert forall|s: Square| s.ok() && #[trigger] p.holds(p.side, PieceType::Pawn, s.0 as int)
            && (s.f() == e.f() - 1 || s.f() == e.f() + 1) && s.r() == behind implies false by {
            assert(s.0 == behind * 8 + s.f());
        }
        assert(!can_take(p, e));
    }
}

/// White to move changes the key by one number.
pub proof fn law_side_number(p: Pos)
    requires
        p.ep is None,
    ensures
        book_key(Pos { side: Color::White, ..p }) == book_key(Pos { side: Color::Black, ..p })
            ^ 0xf8d626aaaf278509u64,
{
    lemma_start_numbers();
    let a = book_cells(p.squares, 64) ^ book_castling(p.castling) ^ 0u64;
    lemma_xor(a, 0, 0);
}

/// The place of a piece among the numbers: each kind takes 64 of them, Black's pawns
/// first, then White's, and so on up to White's king.
pub open spec fn place_of(pc: Piece) -> int {
    match (pc.piece_type, pc.color) {
        (PieceType::Pawn, Color::Black) => 0,
        (PieceType::Pawn, Color::White) => 64,
        (PieceType::Knight, Color::Black) => 128,
        (PieceType::Knight, Color::White) => 192,
        (PieceType::Bishop, Color::Black) => 256,
        (PieceType::Bishop, Color::White) => 320,
        (PieceType::Rook, Color::Black) => 384,
        (PieceType::Rook, Color::White) => 448,
        (PieceType::Queen, Color::Black) => 512,
        (PieceType::Queen, Color::White) => 576,
        (PieceType::King, Color::Black) => 640,
        (PieceType::King, Color::White) => 704,
    }
}

proof fn lemma_cells(s: Seq<Option<Piece>>, i: int, pc: Piece, n: int)
    requires
        0 <= i < s.len(),
        n <= s.len(),
        s[i] is None,
    ensures
        book_cells(s.update(i, Some(pc)), n) == (if i < n {
            book_cells(s, n) ^ number(place_of(pc) + i)
        } else {
            book_cells(s, n)
        }),
    decreases n,
{
    if n > 0 {
        lemma_cells(s, i, pc, n - 1);
        if i < n - 1 {
            if let Some(other) = s[n - 1] {
                lemma_xor(
                    book_cells(s, n - 1),
                    number(place_of(pc) + i),
                    number(piece_row(other) * 64 + n - 1),
                );
            }
        }
    }
}

/// A piece that is put on an empty square changes the key by the number of the piece
/// on that square.
pub proof fn law_piece_numbers(p: Pos, i: int, pc: Piece)
    requires
        p.squares.len() == 64,
        p.ep is None,
        0 <= i < 64,
        p.squares[i] is None,
    ensures
        book_key(Pos { squares: p.squares.update(i, Some(pc)), ..p }) == book_key(p)
            ^ RANDOM[place_of(pc) + i],
{
    reveal(number);
    lemma_cells(p.squares, i, pc, 64);
    lemma_insert(
        book_cells(p.squares, 64),
        book_castling(p.castling),
        0,
        number_if(p.side == Color::White, 780),
        0,
        number(place_of(pc) + i),
    );
}

proof fn lemma_two(b: Seq<u8>)
    requires
        b.len() == 2,
    ensures
        big_endian(b) == b[0] * 256 + b[1],
{
    reveal_with_fuel(big_endian, 3);
    assert(b.drop_last().drop_last() =~= Seq::<u8>::empty());
}

proof fn lemma_four(b: Seq<u8>)
    requires
        b.len() == 4,
    ensures
        big_endian(b) == b[0] * 0x100_0000 + b[1] * 0x1_0000 + b[2] * 0x100 + b[3],
{
    let t = b.drop_last().drop_last();
    lemma_two(t);
    reveal_with_fuel(big_endian, 3);
}

proof fn lemma_eight(b: Seq<u8>)
    requires
        b.len() == 8,
    ensures
        big_endian(b) == b[0] * 0x100_0000_0000_0000 + b[1] * 0x1_0000_0000_0000 + b[2]
            * 0x100_0000_0000 + b[3] * 0x1_0000_0000 + b[4] * 0x100_0000 + b[5] * 0x1_0000 + b[6]
            * 0x100 + b[7],
{
    let t = b.drop_last().drop_last().drop_last().drop_last();
    lemma_four(t);
    reveal_with_fuel(big_endian, 5);
}

/// The records of a file follow each other every 16 bytes: the key in eight of them,
/// the move and the weight in two each and the rest in four, the most significant
/// byte first. Fewer than 16 bytes at the end are left out.
pub proof fn law_record_bytes(b: Seq<u8>, i: int)
    requires
        0 <= i,
        16 * i + 16 <= b.len(),
    ensures
        16 * records_of(b).len() <= b.len() < 16 * records_of(b).len() + 16,
        ({
            let o = 16 * i;
            let e = records_of(b)[i];
            &&& e.key == b[o] * 0x100_0000_0000_0000 + b[o + 1] * 0x1_0000_0000_0000 + b[o + 2]
                * 0x100_0000_0000 + b[o + 3] * 0x1_0000_0000 + b[o + 4] * 0x100_0000 + b[o + 5]
                * 0x1_0000 + b[o + 6] * 0x100 + b[o + 7]
            &&& e.mv == b[o + 8] * 0x100 + b[o + 9]
            &&& e.weight == b[o + 10] * 0x100 + b[o + 11]
            &&& e.learn == b[o + 12] * 0x100_0000 + b[o + 13] * 0x1_0000 + b[o + 14] * 0x100 + b[o
                + 15]
        }),
{
    let r = b.subrange(i * 16, i * 16 + 16);
    lemma_eight(r.subrange(0, 8));
    lemma_two(r.subrange(8, 10));
    lemma_two(r.subrange(10, 12));
    lemma_four(r.subrange(12, 16));
    assert(records_of(b)[i] == record_of(r));
}

/// The word of a legal move holds the target in its lowest six bits, the source in
/// the next six and the promotion above them; a king that castles goes to the square
/// of its rook.
pub proof fn law_book_words(p: Pos, mv: Move)
    requires
        valid(p),
        legal(p).contains(mv),
    ensures
        ({
            let promo = match mv.promo() {
                Some(PieceType::Knight) => 0x1000int,
                Some(PieceType::Bishop) => 0x2000,
                Some(PieceType::Rook) => 0x3000,
                Some(PieceType::Queen) => 0x4000,
                _ => 0,
            };
            let (s, d) = (mv.src().0 as int, mv.dst().0 as int);
            &&& !mv.castles() ==> book_word(mv) == promo + 64 * s + d
            &&& mv.castles() ==> (s == 4 || s == 60) && (d == s + 2 || d == s - 2)
            &&& mv.castles() && d == s + 2 ==> book_word(mv) == 64 * s + s + 3
            &&& mv.castles() && d == s - 2 ==> book_word(mv) == 64 * s + s - 4
        }),
{
    reveal(valid);
    law_legal_moves(p, mv);
    law_pseudo_moves_shape(p);
    assert(shape(p, mv));
}

/// The move that a word stands for has the source and the promotion of the word, and
/// its target too, but for the four words that give a castling king the square of its
/// rook.
pub proof fn law_decoded_words(ms: Seq<Move>, word: u16)
    ensures
        first_where(ms, worded_as(word as int)) matches Some(m) ==> {
            let from = word as int / 64 % 64;
            let to = word as int % 64;
            &&& ms.contains(m)
            &&& m.src().0 == from
            &&& (from == 4 && (to == 7 || to == 0)) || (from == 60 && (to == 63 || to == 56)) || m.dst().0
                == to
            &&& from == 4 && to == 7 ==> m.dst().0 == 6
            &&& from == 4 && to == 0 ==> m.dst().0 == 2
            &&& from == 60 && to == 63 ==> m.dst().0 == 62
            &&& from == 60 && to == 56 ==> m.dst().0 == 58
            &&& m.promo() == Some(PieceType::Knight) <==> word as int / 4096 % 8 == 1
            &&& m.promo() == Some(PieceType::Bishop) <==> word as int / 4096 % 8 == 2
            &&& m.promo() == Some(PieceType::Rook) <==> word as int / 4096 % 8 == 3
            &&& m.promo() == Some(PieceType::Queen) <==> word as int / 4096 % 8 == 4
        },
{
    law_first_where(ms, worded_as(word as int));
}

/// The entry stands for one of the moves.
pub open spec fn stands_for_one(ms: Seq<Move>) -> spec_fn(PolyEntry) -> bool {
    |e: PolyEntry| first_where(ms, worded_as(e.mv as int)) is Some
}

/// The candidates are the entries that stand for a legal move, in their order, each
/// with its own weight.
pub proof fn law_candidates(hits: Seq<PolyEntry>, ms: Seq<Move>, n: int)
    requires
        0 <= n <= hits.len(),
    ensures
        legal_hits(hits, ms, n) == hits.take(n).filter(stands_for_one(ms)).map_values(
            |e: PolyEntry| (first_where(ms, worded_as(e.mv as int))->0, e.weight),
        ),
    decreases n,
{
    let q = stands_for_one(ms);
    let f = |e: PolyEntry| (first_where(ms, worded_as(e.mv as int))->0, e.weight);
    reveal(Seq::filter);
    if n > 0 {
        law_candidates(hits, ms, n - 1);
        assert(hits.take(n).drop_last() =~= hits.take(n - 1));
        assert(hits.take(n).last() == hits[n - 1]);
        assert(hits.take(n).filter(q) == if q(hits[n - 1]) {
            hits.take(n - 1).filter(q).push(hits[n - 1])
        } else {
            hits.take(n - 1).filter(q)
        });
        assert(legal_hits(hits, ms, n) =~= hits.take(n).filter(q).map_values(f));
    } else {
        assert(hits.take(0) =~= Seq::<PolyEntry>::empty());
        assert(legal_hits(hits, ms, 0) =~= hits.take(0).filter(q).map_values(f));
    }
}

} // verus!
