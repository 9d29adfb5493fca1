//! What holds of the features of every position.

use crate::board::bitboard::{lemma_pick_contains, lemma_pick_members, pick};
use crate::board::{Color, PieceType, Pos, Square};
use crate::eval::mirror::{
    flip, lemma_flip, lemma_holds, lemma_king, lemma_mirror, lemma_symmetric, mirror, reflects,
};
use crate::nnue::features::{
    feature_at, feature_of, features_of, seen, type_features, INPUT_FEATURES,
};
use vstd::prelude::*;

verus! {

/// The features of the pieces of one color and type.
spec fn part(p: Pos, side: Color, king: int, owner: Color, pt: PieceType) -> Seq<usize> {
    p.pieces(owner, pt).map_values(feature_at(side, king, owner, pt))
}

/// Which piece type and owner a feature speaks of.
spec fn block(x: usize) -> int {
    x as int % 640 / 64
}

/// The block of a piece type and an owner.
spec fn block_of(side: Color, owner: Color, pt: PieceType) -> int {
    2 * pt.idx() + (if owner == side {
        0int
    } else {
        1int
    })
}

/// The features are different, in range, and of the blocks from `lo` to before
/// `hi`.
spec fn tidy(a: Seq<usize>, lo: int, hi: int) -> bool {
    &&& a.no_duplicates()
    &&& forall|i: int|
        0 <= i < a.len() ==> (#[trigger] a[i]) < INPUT_FEATURES && lo <= block(a[i]) < hi
}

proof fn lemma_block(k: int, b: int, s: int)
    requires
        0 <= k < 64,
        0 <= b < 10,
        0 <= s < 64,
    ensures
        (k * 640 + b * 64 + s) % 640 / 64 == b,
        0 <= k * 640 + b * 64 + s < 40960,
{
    let y = b * 64 + s;
    assert(0 <= y < 640);
    assert((k * 640 + y) % 640 == y);
    assert(y / 64 == b);
}

proof fn lemma_feature(side: Color, king: int, owner: Color, pt: PieceType, s: int)
    requires
        0 <= king < 64,
        pt != PieceType::King,
        0 <= s < 64,
    ensures
        0 <= seen(side, s) < 64,
        feature_at(side, king, owner, pt)(Square(s as u8)) == feature_of(
            king,
            pt.idx(),
            owner == side,
            seen(side, s),
        ),
        feature_at(side, king, owner, pt)(Square(s as u8)) < INPUT_FEATURES,
        block(feature_at(side, king, owner, pt)(Square(s as u8))) == block_of(side, owner, pt),
{
    assert(0 <= pt.idx() < 5) by {
        match pt {
            PieceType::Pawn => {},
            PieceType::Knight => {},
            PieceType::Bishop => {},
            PieceType::Rook => {},
            PieceType::Queen => {},
            PieceType::King => {},
        }
    }
    let z = seen(side, s);
    assert(0 <= z < 64);
    let b = block_of(side, owner, pt);
    lemma_block(king, b, z);
    assert(feature_of(king, pt.idx(), owner == side, z) == king * 640 + b * 64 + z);
    assert((Square(s as u8)).0 as int == s);
}

proof fn lemma_part(p: Pos, side: Color, king: int, owner: Color, pt: PieceType)
    requires
        0 <= king < 64,
        pt != PieceType::King,
    ensures
        part(p, side, king, owner, pt).len() == p.pieces(owner, pt).len(),
        tidy(
            part(p, side, king, owner, pt),
            block_of(side, owner, pt),
            block_of(side, owner, pt) + 1,
        ),
{
    let f = feature_at(side, king, owner, pt);
    let a = part(p, side, king, owner, pt);
    let h = |i: int| p.holds(owner, pt, i);
    let sq = pick(h, 0);
    assert(sq == p.pieces(owner, pt));
    lemma_pick_members(h, 0);
    assert forall|i: int| 0 <= i < a.len() implies (#[trigger] a[i]) < INPUT_FEATURES && block(a[i])
        == block_of(side, owner, pt) by {
        assert(a[i] == f(sq[i]));
        assert(sq[i] == Square(sq[i].0 as int as u8));
        lemma_feature(side, king, owner, pt, sq[i].0 as int);
    }
    assert forall|i: int, j: int| 0 <= i < a.len() && 0 <= j < a.len() && i != j implies a[i]
        != a[j] by {
        assert(a[i] == f(sq[i]) && a[j] == f(sq[j]));
        assert(sq[i] == Square(sq[i].0 as int as u8) && sq[j] == Square(sq[j].0 as int as u8));
        lemma_feature(side, king, owner, pt, sq[i].0 as int);
        lemma_feature(side, king, owner, pt, sq[j].0 as int);
        assert(sq[i].0 != sq[j].0);
    }
}

proof fn lemma_join(a: Seq<usize>, b: Seq<usize>, lo: int, mid: int, hi: int)
    requires
        lo <= mid <= hi,
        tidy(a, lo, mid) && tidy(b, mid, hi) || tidy(a, mid, hi) && tidy(b, lo, mid),
    ensures
        tidy(a + b, lo, hi),
        forall|x: usize| #[trigger] (a + b).contains(x) <==> a.contains(x) || b.contains(x),
{
    let c = a + b;
    assert forall|i: int| 0 <= i < c.len() implies (#[trigger] c[i]) < INPUT_FEATURES && lo <= block(
        c[i],
    ) < hi by {
        if i < a.len() {
            assert(c[i] == a[i]);
        } else {
            assert(c[i] == b[i - a.len()]);
        }
    }
    assert forall|i: int, j: int| 0 <= i < c.len() && 0 <= j < c.len() && i != j implies c[i]
        != c[j] by {
        if i < a.len() {
            assert(c[i] == a[i]);
        } else {
            assert(c[i] == b[i - a.len()]);
        }
        if j < a.len() {
            assert(c[j] == a[j]);
        } else {
            assert(c[j] == b[j - a.len()]);
        }
    }
    assert forall|x: usize| #[trigger] c.contains(x) <==> a.contains(x) || b.contains(x) by {
        if a.contains(x) {
            let i = choose|i: int| 0 <= i < a.len() && a[i] == x;
            assert(c[i] == x);
        }
        if b.contains(x) {
            let i = choose|i: int| 0 <= i < b.len() && b[i] == x;
            assert(c[a.len() + i] == x);
        }
        if c.contains(x) {
            let i = choose|i: int| 0 <= i < c.len() && c[i] == x;
            if i < a.len() {
                assert(a[i] == x);
            } else {
                assert(b[i - a.len()] == x);
            }
        }
    }
}

proof fn lemma_type(p: Pos, side: Color, king: int, pt: PieceType)
    requires
        0 <= king < 64,
        pt != PieceType::King,
    ensures
        tidy(type_features(p, side, king, pt), 2 * pt.idx(), 2 * pt.idx() + 2),
        type_features(p, side, king, pt).len() == p.pieces(Color::White, pt).len() + p.pieces(
            Color::Black,
            pt,
        ).len(),
        forall|x: usize| #[trigger]
            type_features(p, side, king, pt).contains(x) <==> part(
                p,
                side,
                king,
                Color::White,
                pt,
            ).contains(x) || part(p, side, king, Color::Black, pt).contains(x),
{
    let a = part(p, side, king, Color::White, pt);
    let b = part(p, side, king, Color::Black, pt);
    lemma_part(p, side, king, Color::White, pt);
    lemma_part(p, side, king, Color::Black, pt);
    lemma_join(a, b, 2 * pt.idx(), 2 * pt.idx() + 1, 2 * pt.idx() + 2);
    assert(type_features(p, side, king, pt) == a + b);
}

/// The number of pieces that are no kings.
pub open spec fn men(p: Pos) -> nat {
    type_men(p, PieceType::Pawn) + type_men(p, PieceType::Knight) + type_men(p, PieceType::Bishop)
        + type_men(p, PieceType::Rook) + type_men(p, PieceType::Queen)
}

/// The number of pieces of one type.
pub open spec fn type_men(p: Pos, pt: PieceType) -> nat {
    p.pieces(Color::White, pt).len() + p.pieces(Color::Black, pt).len()
}

/// The feature is one of a piece of one of the types.
spec fn shown(p: Pos, side: Color, king: int, x: usize) -> bool {
    ||| type_features(p, side, king, PieceType::Pawn).contains(x)
    ||| type_features(p, side, king, PieceType::Knight).contains(x)
    ||| type_features(p, side, king, PieceType::Bishop).contains(x)
    ||| type_features(p, side, king, PieceType::Rook).contains(x)
    ||| type_features(p, side, king, PieceType::Queen).contains(x)
}

proof fn lemma_features(p: Pos, side: Color)
    requires
        p.king(Color::White) is Some,
        p.king(Color::Black) is Some,
    ensures
        tidy(features_of(p, side), 0, 10),
        features_of(p, side).len() == men(p),
        forall|x: usize| #[trigger]
            features_of(p, side).contains(x) <==> shown(
                p,
                side,
                seen(side, (p.king(side)->0).0 as int),
                x,
            ),
{
    let ki = (p.king(side)->0).0 as int;
    crate::movegen::rules::lemma_king(p, side);
    let k = seen(side, ki);
    assert(0 <= k < 64);
    lemma_type(p, side, k, PieceType::Pawn);
    lemma_type(p, side, k, PieceType::Knight);
    lemma_type(p, side, k, PieceType::Bishop);
    lemma_type(p, side, k, PieceType::Rook);
    lemma_type(p, side, k, PieceType::Queen);
    let a = type_features(p, side, k, PieceType::Pawn);
    let b = type_features(p, side, k, PieceType::Knight);
    let c = type_features(p, side, k, PieceType::Bishop);
    let d = type_features(p, side, k, PieceType::Rook);
    let e = type_features(p, side, k, PieceType::Queen);
    lemma_join(a, b, 0, 2, 4);
    lemma_join(a + b, c, 0, 4, 6);
    lemma_join(a + b + c, d, 0, 6, 8);
    lemma_join(a + b + c + d, e, 0, 8, 10);
    assert(features_of(p, side) == a + b + c + d + e);
}

/// The features of a side are all different and in range, and there is one for
/// each piece that is no king.
pub proof fn law_features_distinct(p: Pos, side: Color)
    requires
        p.king(Color::White) is Some,
        p.king(Color::Black) is Some,
    ensures
        features_of(p, side).no_duplicates(),
        features_of(p, side).len() == men(p),
        forall|i: int|
            0 <= i < features_of(p, side).len() ==> (#[trigger] features_of(p, side)[i])
                < INPUT_FEATURES,
{
    lemma_features(p, side);
}

proof fn lemma_part_one(
    q: Pos,
    m: Pos,
    side: Color,
    king: int,
    owner: Color,
    pt: PieceType,
    x: usize,
)
    requires
        reflects(q, m),
        0 <= king < 64,
        pt != PieceType::King,
        part(q, side, king, owner, pt).contains(x),
    ensures
        part(m, side.other(), king, owner.other(), pt).contains(x),
{
    let f = feature_at(side, king, owner, pt);
    let g = feature_at(side.other(), king, owner.other(), pt);
    let h = |i: int| q.holds(owner, pt, i);
    let h2 = |i: int| m.holds(owner.other(), pt, i);
    lemma_pick_members(h, 0);
    let i = choose|i: int|
        0 <= i < part(q, side, king, owner, pt).len() && part(q, side, king, owner, pt)[i] == x;
    let s = pick(h, 0)[i].0 as int;
    assert(x == f(pick(h, 0)[i]));
    assert(pick(h, 0)[i] == Square(s as u8));
    assert(h(s));
    lemma_flip(s);
    lemma_holds(q, m, owner, pt, s);
    assert(h2(flip(s)));
    lemma_pick_contains(h2, 0, flip(s));
    let j = choose|j: int| 0 <= j < pick(h2, 0).len() && pick(h2, 0)[j] == Square(flip(s) as u8);
    lemma_feature(side, king, owner, pt, s);
    lemma_feature(side.other(), king, owner.other(), pt, flip(s));
    assert(seen(side.other(), flip(s)) == seen(side, s));
    assert(part(m, side.other(), king, owner.other(), pt)[j] == g(pick(h2, 0)[j]));
}

proof fn lemma_type_one(q: Pos, m: Pos, side: Color, king: int, pt: PieceType, x: usize)
    requires
        reflects(q, m),
        0 <= king < 64,
        pt != PieceType::King,
        type_features(q, side, king, pt).contains(x),
    ensures
        type_features(m, side.other(), king, pt).contains(x),
{
    lemma_type(q, side, king, pt);
    lemma_type(m, side.other(), king, pt);
    assert(Color::White.other() == Color::Black && Color::Black.other() == Color::White);
    if part(q, side, king, Color::White, pt).contains(x) {
        lemma_part_one(q, m, side, king, Color::White, pt, x);
    } else {
        lemma_part_one(q, m, side, king, Color::Black, pt, x);
    }
}

proof fn lemma_shown_one(q: Pos, m: Pos, side: Color, king: int, x: usize)
    requires
        reflects(q, m),
        0 <= king < 64,
        shown(q, side, king, x),
    ensures
        shown(m, side.other(), king, x),
{
    if type_features(q, side, king, PieceType::Pawn).contains(x) {
        lemma_type_one(q, m, side, king, PieceType::Pawn, x);
    } else if type_features(q, side, king, PieceType::Knight).contains(x) {
        lemma_type_one(q, m, side, king, PieceType::Knight, x);
    } else if type_features(q, side, king, PieceType::Bishop).contains(x) {
        lemma_type_one(q, m, side, king, PieceType::Bishop, x);
    } else if type_features(q, side, king, PieceType::Rook).contains(x) {
        lemma_type_one(q, m, side, king, PieceType::Rook, x);
    } else {
        lemma_type_one(q, m, side, king, PieceType::Queen, x);
    }
}

proof fn lemma_same_multiset(a: Seq<usize>, b: Seq<usize>)
    requires
        a.no_duplicates(),
        b.no_duplicates(),
        forall|x: usize| #[trigger] a.contains(x) <==> b.contains(x),
    ensures
        a.to_multiset() == b.to_multiset(),
{
    broadcast use vstd::seq_lib::group_to_multiset_ensures;

    a.lemma_multiset_has_no_duplicates();
    b.lemma_multiset_has_no_duplicates();
    assert forall|x: usize| a.to_multiset().count(x) == b.to_multiset().count(x) by {
        assert(a.contains(x) <==> a.to_multiset().count(x) > 0);
        assert(b.contains(x) <==> b.to_multiset().count(x) > 0);
        if a.contains(x) {
            assert(b.contains(x));
            assert(a.to_multiset().contains(x) && b.to_multiset().contains(x));
        }
    }
    assert(a.to_multiset() =~= b.to_multiset());
}

/// With the colors exchanged and the board turned upside down, each side has the
/// features that the other side had. There is one king of each color.
pub proof fn law_features_mirror(p: Pos, side: Color)
    requires
        p.squares.len() == 64,
        p.pieces(Color::White, PieceType::King).len() == 1,
        p.pieces(Color::Black, PieceType::King).len() == 1,
    ensures
        features_of(mirror(p), side.other()).to_multiset() == features_of(p, side).to_multiset(),
{
    let m = mirror(p);
    let e = side.other();
    assert(Color::White.other() == Color::Black && Color::Black.other() == Color::White);
    lemma_mirror(p);
    lemma_symmetric(p, m);
    lemma_king(p, m, Color::White);
    lemma_king(p, m, Color::Black);
    lemma_features(p, side);
    lemma_features(m, e);
    let ki = (p.king(side)->0).0 as int;
    lemma_flip(ki);
    let k = seen(side, ki);
    assert((m.king(e)->0).0 as int == flip(ki));
    assert(seen(e, flip(ki)) == k);
    let a = features_of(m, e);
    let b = features_of(p, side);
    assert forall|x: usize| #[trigger] a.contains(x) <==> b.contains(x) by {
        if b.contains(x) {
            lemma_shown_one(p, m, side, k, x);
        }
        if a.contains(x) {
            lemma_shown_one(m, p, e, k, x);
        }
    }
    lemma_same_multiset(a, b);
}

} // verus!
