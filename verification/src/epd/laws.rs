//! What EPD operations, verdicts and moves in standard notation say.

use crate::board::Pos;
use crate::board::fen::parse_fen;
use crate::board::piece::PieceType;
use crate::board::square::Square;
use crate::epd::{
    all_operations, epd_line, operations, readable, unreadable, with_op, Operations,
};
use crate::epd::run::{
    limits_agree, number_or, options_from, played, solved_in, tested_in, verdict, EpdOptions,
};
use crate::epd::san::{
    file_hint, last_index, letter_piece, meets, rank_hint, request, san_move, without, Request,
};
use crate::movegen::find::{first_where, law_first_where};
use crate::movegen::legal::legal;
use crate::movegen::moves::Move;
use crate::search::limits::SearchLimits;
use crate::text::{
    is_space, lemma_run_len_is, run_len, split_in, strip_back, strip_front, trim, words, CharClass,
};
use vstd::prelude::*;

verus! {

/// A move passes exactly when it is one of the best moves, if there are any, and none of
/// those to avoid; without either there is no verdict.
pub proof fn law_verdicts(p: Pos, found: Seq<char>, best: Seq<Seq<char>>, avoid: Seq<Seq<char>>)
    ensures
        ({
            let among = |ms: Seq<Seq<char>>|
                exists|i: int| 0 <= i < ms.len() && played(p, found, #[trigger] ms[i]);
            let v = verdict(p, found, best, avoid);
            &&& best.len() == 0 && avoid.len() == 0 ==> v is None
            &&& best.len() > 0 && avoid.len() == 0 ==> v == Some(among(best))
            &&& best.len() == 0 && avoid.len() > 0 ==> v == Some(!among(avoid))
            &&& best.len() > 0 && avoid.len() > 0 ==> v == Some(among(best) && !among(avoid))
        }),
{
}

/// The positions that count are those with a verdict, the solved ones those whose move
/// passed.
pub proof fn law_epd_counts(s: Seq<Option<bool>>, n: int)
    requires
        0 <= n <= s.len(),
    ensures
        tested_in(s, n) == s.take(n).filter(|v: Option<bool>| v is Some).len(),
        solved_in(s, n) == s.take(n).filter(|v: Option<bool>| v == Some(true)).len(),
    decreases n,
{
    let t = |v: Option<bool>| v is Some;
    let y = |v: Option<bool>| v == Some(true);
    reveal(Seq::filter);
    if n > 0 {
        law_epd_counts(s, n - 1);
        assert(s.take(n).drop_last() =~= s.take(n - 1));
        assert(s.take(n).last() == s[n - 1]);
        assert(s.take(n).filter(t).len() == s.take(n - 1).filter(t).len() + (if t(s[n - 1]) {
            1int
        } else {
            0
        }));
        assert(s.take(n).filter(y).len() == s.take(n - 1).filter(y).len() + (if y(s[n - 1]) {
            1int
        } else {
            0
        }));
    } else {
        assert(s.take(0) =~= Seq::<Option<bool>>::empty());
    }
}

proof fn lemma_tight(s: Seq<char>, class: CharClass)
    requires
        s.len() > 0,
        !class.covers(s[0]),
        !class.covers(s.last()),
    ensures
        trim(s, class) == s,
{
}

proof fn lemma_code(a: char, b: char, v: Seq<char>)
    requires
        !is_space(a),
        !is_space(b),
        v.len() > 0,
        !is_space(v[0]),
        !is_space(v.last()),
    ensures
        ({
            let op = seq![a, b, ' '] + v;
            &&& trim(op, CharClass::Space) == op
            &&& run_len(op, ' ') == 2
            &&& op.take(2) == seq![a, b]
            &&& trim(op.skip(3), CharClass::Space) == v
        }),
{
    let op = seq![a, b, ' '] + v;
    lemma_tight(op, CharClass::Space);
    assert(is_space(' '));
    lemma_run_len_is(op, ' ', 2);
    assert(op.take(2) =~= seq![a, b]);
    assert(op.skip(3) =~= v);
    lemma_tight(v, CharClass::Space);
}

/// `bm` adds to the best moves, `am` to those to avoid, each word a move; `id` names the
/// position. Each leaves the rest as it was.
pub proof fn law_operations(ops: Operations, v: Seq<char>)
    requires
        v.len() > 0,
        !is_space(v[0]),
        !is_space(v.last()),
    ensures
        with_op(ops, seq!['b', 'm', ' '] + v) == (Operations { best: ops.best + words(v), ..ops }),
        with_op(ops, seq!['a', 'm', ' '] + v) == (Operations { avoid: ops.avoid + words(v), ..ops }),
        with_op(ops, seq!['i', 'd', ' '] + v) == (Operations {
            id: trim(v, CharClass::Quote),
            ..ops
        }),
{
    lemma_code('b', 'm', v);
    lemma_code('a', 'm', v);
    lemma_code('i', 'd', v);
    assert(seq!['b', 'm'][0] != seq!['a', 'm'][0]);
    assert(seq!['b', 'm'][0] != seq!['i', 'd'][0]);
    assert(seq!['a', 'm'][0] != seq!['i', 'd'][0]);
}

/// A quoted name is taken without its quotes.
pub proof fn law_quotes(v: Seq<char>)
    requires
        v.len() > 0,
        v[0] != '"',
        v.last() != '"',
    ensures
        trim(seq!['"'] + v + seq!['"'], CharClass::Quote) == v,
{
    let s = seq!['"'] + v + seq!['"'];
    reveal_with_fuel(strip_front, 3);
    reveal_with_fuel(strip_back, 3);
    assert(s.drop_first() =~= v + seq!['"']);
    assert((v + seq!['"']).drop_last() =~= v);
    assert(strip_front(s, CharClass::Quote) == v + seq!['"']);
}

/// A depth or a time that is given replaces what was set: a time makes the depth 0, a
/// number alone is a depth.
pub proof fn law_epd_options(v: Seq<char>, depth: int, time: int)
    ensures
        options_from(seq![seq!['-', 't'], v], 0, depth, time) == (
            0int,
            number_or(v, u64::MAX as int, 1000),
        ),
        options_from(seq![seq!['-', 'd'], v], 0, depth, time) == (
            number_or(v, u32::MAX as int, 8),
            time,
        ),
        v.len() > 0 && v[0] != '-' ==> options_from(seq![v], 0, depth, time) == (
            number_or(v, u32::MAX as int, depth),
            time,
        ),
{
    reveal_with_fuel(options_from, 2);
    assert(seq!['-', 't'][1] != seq!['-', 'd'][1]);
    assert(seq!['-', 't'].len() == 2 && seq!['-', '-', 'd', 'e', 'p', 't', 'h'].len() == 7 && seq![
        '-',
        '-',
        't',
        'i',
        'm',
        'e',
    ].len() == 6);
    if v.len() > 0 && v[0] != '-' {
        assert(seq!['-', 't'][0] == '-' && seq!['-', 'd'][0] == '-' && seq![
            '-',
            '-',
            't',
            'i',
            'm',
            'e',
        ][0] == '-' && seq!['-', '-', 'd', 'e', 'p', 't', 'h'][0] == '-');
    }
}

/// The piece that a capital letter stands for.
pub open spec fn capital(pt: PieceType) -> char {
    match pt {
        PieceType::Knight => 'N',
        PieceType::Bishop => 'B',
        PieceType::Rook => 'R',
        PieceType::Queen => 'Q',
        _ => 'K',
    }
}

/// A move is one of a piece of a kind to a square.
pub open spec fn goes(p: Pos, m: Move, pt: PieceType, to: Square, promo: Option<PieceType>) -> bool {
    &&& legal(p).contains(m)
    &&& m.dst() == to
    &&& p.holds(p.side, pt, m.src().0 as int)
    &&& m.promo() == promo
}

proof fn lemma_asked(p: Pos, q: Request, san: Seq<char>)
    requires
        san_move(p, san) == first_where(legal(p), meets(p, q)),
        q.file is None,
        q.rank is None,
    ensures
        san_move(p, san) matches Some(m) ==> goes(p, m, q.piece, q.to, q.promo),
        (exists|m: Move| #[trigger] goes(p, m, q.piece, q.to, q.promo)) ==> san_move(p, san) is Some,
{
    law_first_where(legal(p), meets(p, q));
    if exists|m: Move| #[trigger] goes(p, m, q.piece, q.to, q.promo) {
        let m = choose|m: Move| #[trigger] goes(p, m, q.piece, q.to, q.promo);
        assert(meets(p, q)(m));
    }
}

proof fn lemma_plain(s: Seq<char>)
    requires
        s.len() > 0,
        !CharClass::Annotation.covers(s.last()),
    ensures
        strip_back(s, CharClass::Annotation) == s,
{
}

/// A capital letter and a square name a move of that kind of piece to that square: a legal
/// one, and there is one whenever such a move is legal.
pub proof fn law_san_pieces(p: Pos, pt: PieceType, to: Square)
    requires
        pt != PieceType::Pawn,
        to.ok(),
    ensures
        ({
            let san = seq![capital(pt), to.name()[0], to.name()[1]];
            &&& san_move(p, san) matches Some(m) ==> goes(p, m, pt, to, None)
            &&& (exists|m: Move| #[trigger] goes(p, m, pt, to, None)) ==> san_move(p, san) is Some
        }),
{
    let s = seq![capital(pt), to.name()[0], to.name()[1]];
    lemma_plain(s);
    crate::board::square::law_algebraic_round_trip(to);
    let rest = s.drop_first();
    assert(rest =~= to.name());
    lemma_square_text(to);
    assert(s[0] != 'O' && s[0] != '0');
    assert(seq!['O', '-', 'O'][0] == 'O' && seq!['0', '-', '0'][0] == '0');
    assert(seq!['O', '-', 'O', '-', 'O'][0] == 'O' && seq!['0', '-', '0', '-', '0'][0] == '0');
    let q = Request { piece: pt, promo: None, to, file: None, rank: None };
    assert(request(s) == Some(q));
    lemma_asked(p, q, s);
}

proof fn lemma_square_text(to: Square)
    requires
        to.ok(),
    ensures
        last_index(to.name(), '=') < 0,
        without(to.name(), 'x') == to.name(),
        to.name().skip(0) == to.name(),
        file_hint(to.name().take(0)) is None,
        rank_hint(to.name().take(0)) is None,
        letter_piece(to.name()[0]) is None,
        to.name().len() == 2,
{
    let t = to.name();
    reveal_with_fuel(last_index, 4);
    reveal_with_fuel(without, 4);
    assert(t.skip(0) =~= t);
    assert(t.take(0) =~= Seq::<char>::empty());
    assert(t.drop_last().drop_last() =~= Seq::<char>::empty());
    assert(t.drop_last().last() == t[0]);
    assert(t.drop_last() =~= seq![t[0]]);
    assert(Seq::<char>::empty().push(t[0]).push(t[1]) =~= t);
}

/// A square alone names a pawn move to that square, and with `=` and a capital letter
/// behind it the promotion to that kind of piece.
pub proof fn law_san_pawns(p: Pos, to: Square, promo: PieceType)
    requires
        to.ok(),
        promo != PieceType::Pawn,
    ensures
        ({
            let san = to.name();
            &&& san_move(p, san) matches Some(m) ==> goes(p, m, PieceType::Pawn, to, None)
            &&& (exists|m: Move| #[trigger] goes(p, m, PieceType::Pawn, to, None)) ==> san_move(
                p,
                san,
            ) is Some
        }),
        ({
            let san = seq![to.name()[0], to.name()[1], '=', capital(promo)];
            &&& san_move(p, san) matches Some(m) ==> goes(p, m, PieceType::Pawn, to, Some(promo))
            &&& (exists|m: Move| #[trigger] goes(p, m, PieceType::Pawn, to, Some(promo))) ==> san_move(
                p,
                san,
            ) is Some
        }),
{
    let t = to.name();
    crate::board::square::law_algebraic_round_trip(to);
    lemma_square_text(to);
    lemma_plain(t);
    assert(seq!['O', '-', 'O'][0] == 'O' && seq!['0', '-', '0'][0] == '0');
    assert(seq!['O', '-', 'O', '-', 'O'][0] == 'O' && seq!['0', '-', '0', '-', '0'][0] == '0');
    assert(t[0] != 'O' && t[0] != '0');
    let q = Request { piece: PieceType::Pawn, promo: None, to, file: None, rank: None };
    assert(request(t) == Some(q));
    lemma_asked(p, q, t);
    let s = seq![t[0], t[1], '=', capital(promo)];
    lemma_plain(s);
    reveal_with_fuel(last_index, 3);
    assert(s.drop_last().last() == '=');
    assert(last_index(s, '=') == 2);
    assert(s.take(2) =~= t);
    let r = Request { piece: PieceType::Pawn, promo: Some(promo), to, file: None, rank: None };
    assert(request(s) == Some(r));
    lemma_asked(p, r, s);
}

/// Between the letter of the piece and the square of the target, the letter of a file or
/// the digit of a rank says where the piece comes from; an `x` says nothing.
pub proof fn law_san_sources(p: Pos, pt: PieceType, from: Square, to: Square)
    requires
        pt != PieceType::Pawn,
        from.ok(),
        to.ok(),
    ensures
        ({
            let san = seq![capital(pt), from.name()[0], to.name()[0], to.name()[1]];
            san_move(p, san) matches Some(m) ==> goes(p, m, pt, to, None) && m.src().f() == from.f()
        }),
        ({
            let san = seq![capital(pt), from.name()[1], to.name()[0], to.name()[1]];
            san_move(p, san) matches Some(m) ==> goes(p, m, pt, to, None) && m.src().r() == from.r()
        }),
        san_move(p, seq![capital(pt), 'x', to.name()[0], to.name()[1]]) == san_move(
            p,
            seq![capital(pt), to.name()[0], to.name()[1]],
        ),
{
    let t = to.name();
    let (f, r) = (from.name()[0], from.name()[1]);
    crate::board::square::law_algebraic_round_trip(to);
    lemma_square_text(to);
    assert(seq!['O', '-', 'O'][0] == 'O' && seq!['0', '-', '0'][0] == '0');
    assert(seq!['O', '-', 'O', '-', 'O'][0] == 'O' && seq!['0', '-', '0', '-', '0'][0] == '0');
    let (a, b, c, d) = (
        seq![capital(pt), f, t[0], t[1]],
        seq![capital(pt), r, t[0], t[1]],
        seq![capital(pt), 'x', t[0], t[1]],
        seq![capital(pt), t[0], t[1]],
    );
    lemma_plain(a);
    lemma_plain(b);
    lemma_plain(c);
    lemma_plain(d);
    lemma_hinted(f, to);
    lemma_hinted(r, to);
    lemma_hinted('x', to);
    assert(a.drop_first() =~= seq![f, t[0], t[1]]);
    assert(b.drop_first() =~= seq![r, t[0], t[1]]);
    assert(c.drop_first() =~= seq!['x', t[0], t[1]]);
    assert(d.drop_first() =~= t);
    reveal_with_fuel(file_hint, 3);
    reveal_with_fuel(rank_hint, 3);
    assert(seq![f].drop_first() =~= Seq::<char>::empty());
    assert(seq![r].drop_first() =~= Seq::<char>::empty());
    let x = Request { piece: pt, promo: None, to, file: Some(from.f()), rank: None };
    let y = Request { piece: pt, promo: None, to, file: None, rank: Some(from.r()) };
    assert(request(a) == Some(x));
    assert(request(b) == Some(y));
    law_first_where(legal(p), meets(p, x));
    law_first_where(legal(p), meets(p, y));
    assert(request(c) == request(d));
}

proof fn lemma_hinted(h: char, to: Square)
    requires
        to.ok(),
        h != '=',
    ensures
        ({
            let t = to.name();
            let s = seq![h, t[0], t[1]];
            &&& last_index(s, '=') < 0
            &&& h != 'x' ==> without(s, 'x') == s && s.skip(1) == t && s.take(1) == seq![h]
            &&& h == 'x' ==> without(s, 'x') == t
        }),
{
    let t = to.name();
    let s = seq![h, t[0], t[1]];
    lemma_square_text(to);
    reveal_with_fuel(last_index, 5);
    reveal_with_fuel(without, 5);
    assert(s.drop_last() =~= seq![h, t[0]]);
    assert(seq![h, t[0]].drop_last() =~= seq![h]);
    assert(seq![h].drop_last() =~= Seq::<char>::empty());
    assert(s.skip(1) =~= t);
    assert(s.take(1) =~= seq![h]);
    assert(Seq::<char>::empty().push(h).push(t[0]).push(t[1]) =~= s);
    assert(Seq::<char>::empty().push(t[0]).push(t[1]) =~= t);
}

/// A line of four fields, and operations behind them, is read as a FEN with the clocks 0
/// and 1, and with the operations.
pub proof fn law_epd_fields(
    a: Seq<char>,
    b: Seq<char>,
    c: Seq<char>,
    d: Seq<char>,
    ops: Seq<char>,
)
    requires
        is_field(a),
        is_field(b),
        is_field(c),
        is_field(d),
        a[0] != '#',
        ops.len() > 0,
        !is_space(ops.last()),
    ensures
        ({
            let g = seq![' '];
            epd_line(a + g + (b + g + (c + g + (d + g + ops)))) == Some(
                (a + g + b + g + c + g + d + seq![' ', '0', ' ', '1'], all_operations(ops)),
            )
        }),
{
    let g = seq![' '];
    let x4 = d + g + ops;
    let x3 = c + g + x4;
    let x2 = b + g + x3;
    let x1 = a + g + x2;
    lemma_tight(x1, CharClass::Space);
    lemma_cut(a, x2, 5);
    lemma_cut(b, x3, 4);
    lemma_cut(c, x4, 3);
    lemma_cut(d, ops, 2);
    assert(split_in(ops, ' ', 1) =~= seq![ops]);
    let t = split_in(x1, ' ', 5);
    assert(t =~= seq![a, b, c, d, ops]);
}

/// A text without spaces, and not empty.
pub open spec fn is_field(s: Seq<char>) -> bool {
    s.len() > 0 && forall|i: int| 0 <= i < s.len() ==> !is_space(#[trigger] s[i])
}

proof fn lemma_cut(w: Seq<char>, rest: Seq<char>, n: nat)
    requires
        is_field(w),
        n >= 2,
    ensures
        split_in(w + seq![' '] + rest, ' ', n) == seq![w] + split_in(rest, ' ', (n - 1) as nat),
{
    let s = w + seq![' '] + rest;
    assert(is_space(' '));
    assert forall|i: int| 0 <= i < w.len() implies #[trigger] s[i] != ' ' by {
        assert(!is_space(w[i]));
    }
    lemma_run_len_is(s, ' ', w.len());
    assert(s.take(w.len() as int) =~= w);
    assert(s.skip(w.len() as int + 1) =~= rest);
}

/// Blank lines and comments say nothing.
pub proof fn law_epd_silent(s: Seq<char>)
    requires
        s.len() > 0 ==> s[0] == '#',
    ensures
        epd_line(s) is None,
{
    if s.len() > 0 {
        assert(strip_front(s, CharClass::Space) == s);
        lemma_strip_keeps_first(s);
    }
}

proof fn lemma_strip_keeps_first(s: Seq<char>)
    requires
        s.len() > 0,
        s[0] == '#',
    ensures
        strip_back(s, CharClass::Space).len() > 0,
        strip_back(s, CharClass::Space)[0] == '#',
    decreases s.len(),
{
    if is_space(s.last()) {
        if s.len() > 1 {
            lemma_strip_keeps_first(s.drop_last());
        }
    }
}

/// The operations of a list take effect one after the other.
pub proof fn law_operations_in_order(pieces: Seq<Seq<char>>, x: Seq<char>)
    ensures
        operations(Seq::empty(), 0).best.len() == 0,
        operations(Seq::empty(), 0).avoid.len() == 0,
        operations(Seq::empty(), 0).id.len() == 0,
        operations(pieces.push(x), pieces.len() as int + 1) == with_op(
            operations(pieces, pieces.len() as int),
            x,
        ),
{
    lemma_operations(pieces, x, pieces.len() as int);
    assert(pieces.push(x)[pieces.len() as int] == x);
}

proof fn lemma_operations(pieces: Seq<Seq<char>>, x: Seq<char>, n: int)
    requires
        0 <= n <= pieces.len(),
    ensures
        operations(pieces.push(x), n) == operations(pieces, n),
    decreases n,
{
    if n > 0 {
        lemma_operations(pieces, x, n - 1);
        assert(pieces.push(x)[n - 1] == pieces[n - 1]);
    }
}

/// The positions of a file are those of its lines that say something and can be read; those
/// that cannot are listed apart. Both keep their order.
pub proof fn law_file_positions(lines: Seq<Seq<char>>, n: int)
    requires
        0 <= n <= lines.len(),
    ensures
        readable(lines, n) == lines.take(n).filter(
            |l: Seq<char>| epd_line(l) is Some && parse_fen((epd_line(l)->0).0) is Ok,
        ).map_values(|l: Seq<char>| epd_line(l)->0),
        unreadable(lines, n).len() == lines.take(n).filter(
            |l: Seq<char>| epd_line(l) is Some && parse_fen((epd_line(l)->0).0) is Err,
        ).len(),
    decreases n,
{
    let q = |l: Seq<char>| epd_line(l) is Some && parse_fen((epd_line(l)->0).0) is Ok;
    let r = |l: Seq<char>| epd_line(l) is Some && parse_fen((epd_line(l)->0).0) is Err;
    let f = |l: Seq<char>| epd_line(l)->0;
    reveal(Seq::filter);
    if n > 0 {
        law_file_positions(lines, n - 1);
        assert(lines.take(n).drop_last() =~= lines.take(n - 1));
        assert(lines.take(n).last() == lines[n - 1]);
        assert(readable(lines, n) =~= lines.take(n).filter(q).map_values(f));
        assert(lines.take(n).filter(r).len() == lines.take(n - 1).filter(r).len() + (if r(
            lines[n - 1],
        ) {
            1int
        } else {
            0
        }));
    } else {
        assert(lines.take(0) =~= Seq::<Seq<char>>::empty());
        assert(readable(lines, 0) =~= lines.take(0).filter(q).map_values(f));
    }
}

/// A position is searched to the depth that is asked for and no further than 64, without a
/// clock; or, where that is 0, for the time.
pub proof fn law_epd_limits(o: EpdOptions, l: SearchLimits)
    requires
        limits_agree(o, l),
    ensures
        o.depth > 0 ==> l.depth == Some(o.depth) && l.movetime is None,
        o.depth == 0 ==> l.depth is None && l.movetime == Some(o.time_ms),
        l.cap() == o.cap(),
        0 < o.depth <= 64 ==> o.cap() == o.depth,
        o.depth == 0 || o.depth > 64 ==> o.cap() == 64,
        l.nodes is None && !l.infinite && !l.ponder,
        l.wtime is None && l.btime is None,
{
}

} // verus!
