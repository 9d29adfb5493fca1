//! Sets of squares, one bit for each square of the board.

use crate::board::square::Square;
use std::ops::{BitAnd, BitOr, BitXor, Not, Shl, Shr};
use vstd::prelude::*;
use vstd::std_specs::bits::{axiom_u64_trailing_zeros, u64_trailing_zeros};

verus! {

/// Bit `i` of `x` is set.
pub open spec fn bit(x: u64, i: int) -> bool {
    (x >> (i as u64)) & 1u64 == 1u64
}

/// The squares from `i` on that satisfy `p`, in ascending order.
pub open spec fn pick(p: spec_fn(int) -> bool, i: int) -> Seq<Square>
    decreases 64 - i,
{
    if i >= 64 {
        Seq::empty()
    } else if p(i) {
        seq![Square(i as u8)] + pick(p, i + 1)
    } else {
        pick(p, i + 1)
    }
}

/// Two predicates that agree pick the same squares.
pub proof fn lemma_pick_ext(p: spec_fn(int) -> bool, q: spec_fn(int) -> bool, i: int)
    requires
        0 <= i,
        forall|k: int| i <= k < 64 ==> #[trigger] p(k) == q(k),
    ensures
        pick(p, i) == pick(q, i),
    decreases 64 - i,
{
    if i < 64 {
        assert(p(i) == q(i));
        lemma_pick_ext(p, q, i + 1);
    }
}

/// Squares that fail the predicate may be skipped.
pub proof fn lemma_pick_skip(p: spec_fn(int) -> bool, i: int, k: int)
    requires
        i <= k <= 64,
        forall|j: int| i <= j < k ==> !(#[trigger] p(j)),
    ensures
        pick(p, i) == pick(p, k),
    decreases k - i,
{
    if i < k {
        assert(!p(i));
        lemma_pick_skip(p, i + 1, k);
    }
}

/// What is picked satisfies the predicate and comes in ascending order.
pub proof fn lemma_pick_members(p: spec_fn(int) -> bool, i: int)
    requires
        0 <= i,
    ensures
        forall|n: int|
            0 <= n < pick(p, i).len() ==> {
                let s = #[trigger] pick(p, i)[n];
                s.ok() && i <= s.0 && p(s.0 as int)
            },
        forall|m: int, n: int|
            0 <= m < n < pick(p, i).len() ==> (#[trigger] pick(p, i)[m]).0 < (#[trigger] pick(
                p,
                i,
            )[n]).0,
        pick(p, i).len() <= (if i <= 64 {
            64 - i
        } else {
            0
        }),
    decreases 64 - i,
{
    if i < 64 {
        lemma_pick_members(p, i + 1);
        let rest = pick(p, i + 1);
        if p(i) {
            let all = pick(p, i);
            assert forall|n: int| 0 <= n < all.len() implies {
                let s = #[trigger] all[n];
                s.ok() && i <= s.0 && p(s.0 as int)
            } by {
                if n > 0 {
                    assert(all[n] == rest[n - 1]);
                }
            }
            assert forall|m: int, n: int| 0 <= m < n < all.len() implies (#[trigger] all[m]).0 < (
            #[trigger] all[n]).0 by {
                assert(all[n] == rest[n - 1]);
                if m > 0 {
                    assert(all[m] == rest[m - 1]);
                }
            }
        }
    }
}

/// Every square that satisfies the predicate is picked.
pub proof fn lemma_pick_contains(p: spec_fn(int) -> bool, i: int, s: int)
    requires
        0 <= i <= s < 64,
        p(s),
    ensures
        pick(p, i).contains(Square(s as u8)),
    decreases 64 - i,
{
    if i == s {
        assert(pick(p, i)[0] == Square(s as u8));
    } else {
        lemma_pick_contains(p, i + 1, s);
        let rest = pick(p, i + 1);
        let n = choose|n: int| 0 <= n < rest.len() && rest[n] == Square(s as u8);
        if p(i) {
            assert(pick(p, i)[n + 1] == rest[n]);
        } else {
            assert(pick(p, i)[n] == rest[n]);
        }
    }
}

proof fn bv_set(x: u64, s: u64, i: u64)
    by (bit_vector)
    requires
        s < 64,
        i < 64,
    ensures
        (((x | (1u64 << s)) >> i) & 1u64 == 1u64) == (((x >> i) & 1u64 == 1u64) || i == s),
{
}

proof fn bv_clear(x: u64, s: u64, i: u64)
    by (bit_vector)
    requires
        s < 64,
        i < 64,
    ensures
        (((x & !(1u64 << s)) >> i) & 1u64 == 1u64) == (((x >> i) & 1u64 == 1u64) && i != s),
{
}

proof fn bv_algebra(x: u64, y: u64, i: u64)
    by (bit_vector)
    requires
        i < 64,
    ensures
        (((x & y) >> i) & 1u64 == 1u64) == (((x >> i) & 1u64 == 1u64) && ((y >> i) & 1u64 == 1u64)),
        (((x | y) >> i) & 1u64 == 1u64) == (((x >> i) & 1u64 == 1u64) || ((y >> i) & 1u64 == 1u64)),
        (((x ^ y) >> i) & 1u64 == 1u64) == (((x >> i) & 1u64 == 1u64) != ((y >> i) & 1u64 == 1u64)),
        (((!x) >> i) & 1u64 == 1u64) == !((x >> i) & 1u64 == 1u64),
        (0u64 >> i) & 1u64 == 0u64,
{
}

proof fn bv_shift(x: u64, k: u64, i: u64)
    by (bit_vector)
    requires
        i < 64,
        k < 64,
    ensures
        i >= k ==> (((x << k) >> i) & 1u64) == (x >> ((i - k) as u64)) & 1u64,
        i < k ==> (((x << k) >> i) & 1u64) == 0u64,
        i + k < 64 ==> (((x >> k) >> i) & 1u64) == (x >> ((i + k) as u64)) & 1u64,
        i + k >= 64 ==> (((x >> k) >> i) & 1u64) == 0u64,
{
}

proof fn bv_drop_low(x: u64, t: u64, i: u64)
    by (bit_vector)
    requires
        x != 0,
        t < 64,
        i < 64,
        (x >> t) & 1u64 == 1u64,
        x << ((64 - t) as u64) == 0u64,
    ensures
        (((x & ((x - 1) as u64)) >> i) & 1u64 == 1u64) == (((x >> i) & 1u64 == 1u64) && i != t),
{
}

pub proof fn bv_xor_zero(x: u64, y: u64)
    by (bit_vector)
    ensures
        (x ^ y == 0u64) == (x == y),
{
}

/// Two words with the same bits are equal.
pub proof fn lemma_bits_ext(x: u64, y: u64)
    requires
        forall|i: int| 0 <= i < 64 ==> #[trigger] bit(x, i) == bit(y, i),
    ensures
        x == y,
{
    bv_xor_zero(x, y);
    if x != y {
        let d = x ^ y;
        axiom_u64_trailing_zeros(d);
        let t = u64_trailing_zeros(d) as u64;
        bv_algebra(x, y, t);
        assert(bit(x, t as int) == bit(y, t as int));
    }
}

/// A set of squares, one bit per square.
#[derive(Clone, Copy, PartialEq, Eq, Hash, Debug, Structural)]
pub struct Bitboard(pub u64);

impl Default for Bitboard {
    /// The empty set.
    fn default() -> (r: Bitboard)
        ensures
            r == Bitboard(0),
    {
        Bitboard(0)
    }
}

impl Bitboard {
    /// Square `i` is a member.
    pub open spec fn has(self, i: int) -> bool {
        0 <= i < 64 && bit(self.0, i)
    }

    /// The members in ascending order.
    pub open spec fn list(self) -> Seq<Square> {
        pick(|i: int| self.has(i), 0)
    }

    /// The empty set.
    pub fn empty() -> (r: Bitboard)
        ensures
            r == Bitboard(0),
            forall|i: int| !(#[trigger] r.has(i)),
    {
        proof {
            lemma_empty();
        }
        Bitboard(0)
    }

    /// Every square.
    pub fn full() -> (r: Bitboard)
        ensures
            forall|i: int| #[trigger] r.has(i) == (0 <= i < 64),
    {
        Bitboard::empty().complement()
    }

    /// A bitboard containing exactly the given square.
    pub fn from_square(sq: Square) -> (r: Bitboard)
        requires
            sq.ok(),
        ensures
            forall|i: int| #[trigger] r.has(i) == (i == sq.0),
    {
        let mut r = Bitboard::empty();
        r.set(sq);
        r
    }

    /// True if no squares are set.
    pub fn is_empty(self) -> (r: bool)
        ensures
            r == (self.0 == 0),
            r <==> forall|i: int| !(#[trigger] self.has(i)),
    {
        proof {
            lemma_empty();
            lemma_nonempty(self);
        }
        self.0 == 0
    }

    /// True if at least one square is set.
    pub fn any(self) -> (r: bool)
        ensures
            r == (self.0 != 0),
            r <==> exists|i: int| #[trigger] self.has(i),
    {
        proof {
            lemma_empty();
            lemma_nonempty(self);
        }
        self.0 != 0
    }

    /// True if `sq` is a member of the set.
    pub fn contains(self, sq: Square) -> (r: bool)
        requires
            sq.ok(),
        ensures
            r == self.has(sq.0 as int),
    {
        (self.0 >> (sq.0 as u64)) & 1u64 == 1u64
    }

    /// Number of squares in the set (population count).
    pub fn count(self) -> (r: u32)
        ensures
            r == self.list().len(),
            r <= 64,
    {
        let mut rest = self;
        let mut n: u32 = 0;
        proof {
            lemma_pick_members(|i: int| self.has(i), 0);
        }
        while rest.0 != 0
            invariant
                n + rest.list().len() == self.list().len(),
                self.list().len() <= 64,
            decreases rest.list().len(),
        {
            let _ = rest.pop_lsb();
            n += 1;
        }
        proof {
            lemma_empty_list(rest);
        }
        n
    }

    /// Add `sq` to the set.
    pub fn set(&mut self, sq: Square)
        requires
            sq.ok(),
        ensures
            final(self).0 == old(self).0 | (1u64 << (sq.0 as u64)),
            forall|i: int| #[trigger] final(self).has(i) == (old(self).has(i) || i == sq.0),
    {
        let ghost x = self.0;
        self.0 = self.0 | (1u64 << (sq.0 as u64));
        proof {
            assert forall|i: int| #[trigger] self.has(i) == ((0 <= i < 64 && bit(x, i)) || i
                == sq.0) by {
                if 0 <= i < 64 {
                    bv_set(x, sq.0 as u64, i as u64);
                }
            }
        }
    }

    /// Remove `sq` from the set.
    pub fn clear(&mut self, sq: Square)
        requires
            sq.ok(),
        ensures
            final(self).0 == old(self).0 & !(1u64 << (sq.0 as u64)),
            forall|i: int| #[trigger] final(self).has(i) == (old(self).has(i) && i != sq.0),
    {
        let ghost x = self.0;
        self.0 = self.0 & !(1u64 << (sq.0 as u64));
        proof {
            assert forall|i: int| #[trigger] self.has(i) == ((0 <= i < 64 && bit(x, i)) && i
                != sq.0) by {
                if 0 <= i < 64 {
                    bv_clear(x, sq.0 as u64, i as u64);
                }
            }
        }
    }

    /// The lowest-indexed set square, if any (least-significant bit).
    pub fn lsb(self) -> (r: Option<Square>)
        ensures
            r is None <==> self.0 == 0,
            r is None <==> self.list().len() == 0,
            r matches Some(s) ==> s.ok() && self.has(s.0 as int) && s == self.list()[0] && (forall|
                i: int,
            |
                0 <= i < s.0 ==> !(#[trigger] self.has(i))),
    {
        if self.0 == 0 {
            proof {
                lemma_empty_list(self);
            }
            None
        } else {
            let t: u32 = self.0.trailing_zeros();
            proof {
                lemma_low(self);
                lemma_pick_skip(|i: int| self.has(i), 0, t as int);
            }
            Some(Square(t as u8))
        }
    }

    /// Remove and return the lowest-indexed set square.
    pub fn pop_lsb(&mut self) -> (r: Option<Square>)
        ensures
            r is None <==> old(self).0 == 0,
            r is None ==> *final(self) == *old(self),
            r matches Some(s) ==> {
                &&& s.ok()
                &&& old(self).has(s.0 as int)
                &&& forall|i: int| 0 <= i < s.0 ==> !(#[trigger] old(self).has(i))
                &&& forall|i: int| #[trigger] final(self).has(i) == (old(self).has(i) && i != s.0)
                &&& old(self).list() == seq![s] + final(self).list()
            },
    {
        if self.0 == 0 {
            return None;
        }
        let ghost b = *self;
        let t: u32 = self.0.trailing_zeros();
        self.0 = self.0 & (self.0 - 1);
        proof {
            lemma_low(b);
            let c = *self;
            assert forall|i: int| #[trigger] c.has(i) == (b.has(i) && i != t) by {
                if 0 <= i < 64 {
                    bv_drop_low(b.0, t as u64, i as u64);
                }
            }
            let p = |i: int| b.has(i);
            let q = |i: int| c.has(i);
            lemma_pick_skip(p, 0, t as int);
            lemma_pick_skip(q, 0, t + 1);
            lemma_pick_ext(p, q, t + 1);
        }
        Some(Square(t as u8))
    }

    /// The members in ascending order.
    pub fn squares(self) -> (r: Vec<Square>)
        ensures
            r@ == self.list(),
            forall|n: int| 0 <= n < r@.len() ==> (#[trigger] r@[n]).ok(),
    {
        let mut out: Vec<Square> = Vec::new();
        let mut rest = self;
        while rest.0 != 0
            invariant
                out@ + rest.list() == self.list(),
            decreases rest.list().len(),
        {
            if let Some(s) = rest.pop_lsb() {
                out.push(s);
                proof {
                    assert(out@ + rest.list() =~= self.list());
                }
            }
        }
        proof {
            lemma_empty_list(rest);
            assert(out@ =~= self.list());
            lemma_pick_members(|i: int| self.has(i), 0);
        }
        out
    }

    /// The squares in both sets.
    pub fn and(self, rhs: Bitboard) -> (r: Bitboard)
        ensures
            r.0 == self.0 & rhs.0,
            forall|i: int| #[trigger] r.has(i) == (self.has(i) && rhs.has(i)),
    {
        proof {
            assert forall|i: int| #[trigger] Bitboard(self.0 & rhs.0).has(i) == (self.has(i)
                && rhs.has(i)) by {
                if 0 <= i < 64 {
                    bv_algebra(self.0, rhs.0, i as u64);
                }
            }
        }
        Bitboard(self.0 & rhs.0)
    }

    /// The squares in either set.
    pub fn or(self, rhs: Bitboard) -> (r: Bitboard)
        ensures
            r.0 == self.0 | rhs.0,
            forall|i: int| #[trigger] r.has(i) == (self.has(i) || rhs.has(i)),
    {
        proof {
            assert forall|i: int| #[trigger] Bitboard(self.0 | rhs.0).has(i) == (self.has(i)
                || rhs.has(i)) by {
                if 0 <= i < 64 {
                    bv_algebra(self.0, rhs.0, i as u64);
                }
            }
        }
        Bitboard(self.0 | rhs.0)
    }

    /// The squares in exactly one of the sets.
    pub fn xor(self, rhs: Bitboard) -> (r: Bitboard)
        ensures
            r.0 == self.0 ^ rhs.0,
            forall|i: int| #[trigger] r.has(i) == (self.has(i) != rhs.has(i)),
    {
        proof {
            assert forall|i: int| #[trigger] Bitboard(self.0 ^ rhs.0).has(i) == (self.has(i)
                != rhs.has(i)) by {
                if 0 <= i < 64 {
                    bv_algebra(self.0, rhs.0, i as u64);
                }
            }
        }
        Bitboard(self.0 ^ rhs.0)
    }

    /// The squares that are not in the set.
    pub fn complement(self) -> (r: Bitboard)
        ensures
            r.0 == !self.0,
            forall|i: int| #[trigger] r.has(i) == (0 <= i < 64 && !self.has(i)),
    {
        proof {
            assert forall|i: int| #[trigger] Bitboard(!self.0).has(i) == (0 <= i < 64 && !self.has(
                i,
            )) by {
                if 0 <= i < 64 {
                    bv_algebra(self.0, self.0, i as u64);
                }
            }
        }
        Bitboard(!self.0)
    }

    /// The set moved `k` squares up the board.
    pub fn up(self, k: u32) -> (r: Bitboard)
        requires
            k < 64,
        ensures
            r.0 == self.0 << k,
            forall|i: int| #[trigger] r.has(i) == (0 <= i < 64 && self.has(i - k)),
    {
        proof {
            assert forall|i: int| #[trigger] Bitboard(self.0 << k).has(i) == (0 <= i < 64
                && self.has(i - k)) by {
                if 0 <= i < 64 {
                    bv_shift(self.0, k as u64, i as u64);
                }
            }
        }
        Bitboard(self.0 << k)
    }

    /// The set moved `k` squares down the board.
    pub fn down(self, k: u32) -> (r: Bitboard)
        requires
            k < 64,
        ensures
            r.0 == self.0 >> k,
            forall|i: int| #[trigger] r.has(i) == (0 <= i < 64 && self.has(i + k)),
    {
        proof {
            assert forall|i: int| #[trigger] Bitboard(self.0 >> k).has(i) == (0 <= i < 64
                && self.has(i + k)) by {
                if 0 <= i < 64 {
                    bv_shift(self.0, k as u64, i as u64);
                }
            }
        }
        Bitboard(self.0 >> k)
    }

    /// A diagram with rank 8 on top and `1`/`.` for set/unset squares.
    pub fn diagram(self) -> (r: String)
        ensures
            r@ == diagram_rows(self, 8),
    {
        let mut s = String::new();
        let mut rank: u8 = 8;
        while rank > 0
            invariant
                rank <= 8,
                diagram_rows(self, 8) == s@ + diagram_rows(self, rank as int),
            decreases rank,
        {
            let ghost start = s@;
            let mut file: u8 = 0;
            while file < 8
                invariant
                    0 < rank <= 8,
                    file <= 8,
                    s@ == start + diagram_row(self, rank - 1, file as int),
                decreases 8 - file,
            {
                let member = self.contains(Square::from_file_rank(file, rank - 1));
                s.push(
                    if member {
                        '1'
                    } else {
                        '.'
                    },
                );
                s.push(' ');
                file += 1;
                proof {
                    assert(s@ =~= start + diagram_row(self, rank - 1, file as int));
                }
            }
            s.push('\n');
            rank -= 1;
            proof {
                assert(diagram_rows(self, 8) =~= s@ + diagram_rows(self, rank as int));
            }
        }
        proof {
            assert(s@ =~= diagram_rows(self, 8));
        }
        s
    }
}

/// The first `n` cells of one rank of a diagram.
pub open spec fn diagram_row(b: Bitboard, rank: int, n: int) -> Seq<char>
    decreases n,
{
    if n <= 0 {
        Seq::empty()
    } else {
        diagram_row(b, rank, n - 1).push(
            if b.has(rank * 8 + n - 1) {
                '1'
            } else {
                '.'
            },
        ).push(' ')
    }
}

/// The lowest `n` ranks of a diagram, from the top one down.
pub open spec fn diagram_rows(b: Bitboard, n: int) -> Seq<char>
    decreases n,
{
    if n <= 0 {
        Seq::empty()
    } else {
        diagram_row(b, n - 1, 8).push('\n') + diagram_rows(b, n - 1)
    }
}

proof fn lemma_empty()
    ensures
        forall|i: int| !(#[trigger] Bitboard(0).has(i)),
{
    assert forall|i: int| !(#[trigger] Bitboard(0).has(i)) by {
        if 0 <= i < 64 {
            bv_algebra(0, 0, i as u64);
        }
    }
}

proof fn lemma_low(b: Bitboard)
    requires
        b.0 != 0,
    ensures
        u64_trailing_zeros(b.0) < 64,
        b.has(u64_trailing_zeros(b.0) as int),
        forall|i: int| 0 <= i < u64_trailing_zeros(b.0) ==> !(#[trigger] b.has(i)),
        b.0 << ((64 - u64_trailing_zeros(b.0)) as u64) == 0,
{
    axiom_u64_trailing_zeros(b.0);
    let t = u64_trailing_zeros(b.0);
    assert forall|i: int| 0 <= i < t implies !(#[trigger] b.has(i)) by {
        assert((b.0 >> (i as u64)) & 1u64 == 0u64);
    }
}

proof fn lemma_nonempty(b: Bitboard)
    ensures
        b.0 != 0 ==> exists|i: int| #[trigger] b.has(i),
{
    if b.0 != 0 {
        lemma_low(b);
    }
}

/// A set whose word is zero lists no square.
pub proof fn lemma_empty_list(b: Bitboard)
    ensures
        b.0 == 0 ==> b.list() == Seq::<Square>::empty(),
        b.0 != 0 ==> b.list().len() > 0,
{
    if b.0 == 0 {
        lemma_empty();
        lemma_pick_skip(|i: int| b.has(i), 0, 64);
    } else {
        lemma_low(b);
        lemma_pick_contains(|i: int| b.has(i), 0, u64_trailing_zeros(b.0) as int);
    }
}

/// A set lists the squares that satisfy a predicate which its members share.
pub proof fn lemma_list_is(b: Bitboard, p: spec_fn(int) -> bool)
    requires
        forall|i: int| 0 <= i < 64 ==> #[trigger] b.has(i) == p(i),
    ensures
        b.list() == pick(p, 0),
{
    let q = |i: int| b.has(i);
    assert forall|i: int| 0 <= i < 64 implies #[trigger] q(i) == p(i) by {
        assert(b.has(i) == p(i));
    }
    lemma_pick_ext(q, p, 0);
}

/// Two sets with the same members are equal.
pub proof fn law_bitboard_ext(a: Bitboard, b: Bitboard)
    requires
        forall|i: int| 0 <= i < 64 ==> #[trigger] a.has(i) == b.has(i),
    ensures
        a == b,
{
    assert forall|i: int| 0 <= i < 64 implies #[trigger] bit(a.0, i) == bit(b.0, i) by {
        assert(a.has(i) == b.has(i));
    }
    lemma_bits_ext(a.0, b.0);
}

impl vstd::std_specs::ops::BitAndSpecImpl for Bitboard {
    open spec fn obeys_bitand_spec() -> bool {
        true
    }

    open spec fn bitand_req(self, rhs: Bitboard) -> bool {
        true
    }

    open spec fn bitand_spec(self, rhs: Bitboard) -> Bitboard {
        Bitboard(self.0 & rhs.0)
    }
}

impl BitAnd for Bitboard {
    type Output = Bitboard;

    fn bitand(self, rhs: Bitboard) -> Bitboard {
        self.and(rhs)
    }
}

impl vstd::std_specs::ops::BitOrSpecImpl for Bitboard {
    open spec fn obeys_bitor_spec() -> bool {
        true
    }

    open spec fn bitor_req(self, rhs: Bitboard) -> bool {
        true
    }

    open spec fn bitor_spec(self, rhs: Bitboard) -> Bitboard {
        Bitboard(self.0 | rhs.0)
    }
}

impl BitOr for Bitboard {
    type Output = Bitboard;

    fn bitor(self, rhs: Bitboard) -> Bitboard {
        self.or(rhs)
    }
}

impl vstd::std_specs::ops::BitXorSpecImpl for Bitboard {
    open spec fn obeys_bitxor_spec() -> bool {
        true
    }

    open spec fn bitxor_req(self, rhs: Bitboard) -> bool {
        true
    }

    open spec fn bitxor_spec(self, rhs: Bitboard) -> Bitboard {
        Bitboard(self.0 ^ rhs.0)
    }
}

impl BitXor for Bitboard {
    type Output = Bitboard;

    fn bitxor(self, rhs: Bitboard) -> Bitboard {
        self.xor(rhs)
    }
}

impl vstd::std_specs::ops::NotSpecImpl for Bitboard {
    open spec fn obeys_not_spec() -> bool {
        true
    }

    open spec fn not_req(self) -> bool {
        true
    }

    open spec fn not_spec(self) -> Bitboard {
        Bitboard(!self.0)
    }
}

impl Not for Bitboard {
    type Output = Bitboard;

    fn not(self) -> Bitboard {
        self.complement()
    }
}

impl vstd::std_specs::ops::ShlSpecImpl<u32> for Bitboard {
    open spec fn obeys_shl_spec() -> bool {
        true
    }

    open spec fn shl_req(self, rhs: u32) -> bool {
        rhs < 64
    }

    open spec fn shl_spec(self, rhs: u32) -> Bitboard {
        Bitboard(self.0 << rhs)
    }
}

impl Shl<u32> for Bitboard {
    type Output = Bitboard;

    fn shl(self, rhs: u32) -> Bitboard {
        self.up(rhs)
    }
}

impl vstd::std_specs::ops::ShrSpecImpl<u32> for Bitboard {
    open spec fn obeys_shr_spec() -> bool {
        true
    }

    open spec fn shr_req(self, rhs: u32) -> bool {
        rhs < 64
    }

    open spec fn shr_spec(self, rhs: u32) -> Bitboard {
        Bitboard(self.0 >> rhs)
    }
}

impl Shr<u32> for Bitboard {
    type Output = Bitboard;

    fn shr(self, rhs: u32) -> Bitboard {
        self.down(rhs)
    }
}

/// One more square that satisfies a predicate is one more that is picked.
pub proof fn law_one_more_square(
    p: spec_fn(int) -> bool,
    q: spec_fn(int) -> bool,
    s: int,
    i: int,
)
    requires
        0 <= i,
        0 <= s < 64,
        !p(s),
        q(s),
        forall|k: int| 0 <= k < 64 && k != s ==> #[trigger] p(k) == q(k),
    ensures
        pick(q, i).len() == pick(p, i).len() + (if i <= s {
            1int
        } else {
            0
        }),
    decreases 64 - i,
{
    if i < 64 {
        law_one_more_square(p, q, s, i + 1);
        assert(i != s ==> p(i) == q(i));
    }
}

} // verus!
