//! Opening book.
//!
//! An [`OpeningBook`] holds the entries of a Polyglot file or the built-in
//! lines. [`OpeningBook::probe`] gives the entries of a position, and
//! [`OpeningBook::pick_move`] draws one of their moves by weight.

pub mod entries;
pub mod internal;
pub mod laws;
pub mod polyglot;
pub mod polyglot_random;

use crate::board::{Board, Pos};
use crate::movegen::find::{first_where, law_first_where};
use crate::movegen::legal::{generable, legal};
use crate::movegen::moves::{Move, MoveList};
use entries::{probe_entries, read_polyglot, records_of, sort_entries, sorted, with_key, PolyEntry};
use internal::{build_internal_entries, line_entries};
use polyglot::{book_key, decode_move, ep_inside, poly_hash, worded_as};
use rand::rngs::StdRng;
use rand::Rng;
use vstd::prelude::*;

verus! {

/// The random number generator of the `rand` crate.
#[verifier::external_type_specification]
#[verifier::external_body]
pub struct ExStdRng(rand::rngs::StdRng);

/// `Rng::gen_range` draws a number of the range `0..total`; it panics on an
/// empty range. Which number comes is left open.
#[verifier::external_body]
fn draw(rng: &mut StdRng, total: u32) -> (r: u32)
    requires
        total > 0,
    ensures
        r < total,
{
    rng.gen_range(0..total)
}

/// A number was drawn from `0..total`.
pub closed spec fn drawn(total: u32, k: u32) -> bool {
    exists|rng: &mut StdRng| #[trigger] call_ensures(draw, (rng, total), k)
}

/// Draw a number with a function that does so.
fn draw_with<F: Fn(&mut StdRng, u32) -> u32>(f: F, rng: &mut StdRng, total: u32) -> (r: u32)
    requires
        forall|g: &mut StdRng| #[trigger] call_requires(f, (g, total)),
    ensures
        exists|g: &mut StdRng| #[trigger] call_ensures(f, (g, total), r),
{
    f(rng, total)
}

/// The moves of the first `n` entries that are among the legal ones, each with
/// its weight.
pub open spec fn legal_hits(hits: Seq<PolyEntry>, ms: Seq<Move>, n: int) -> Seq<(Move, u16)>
    decreases n,
{
    if n <= 0 {
        Seq::empty()
    } else {
        match first_where(ms, worded_as(hits[n - 1].mv as int)) {
            None => legal_hits(hits, ms, n - 1),
            Some(mv) => legal_hits(hits, ms, n - 1).push((mv, hits[n - 1].weight)),
        }
    }
}

/// The sum of the first `n` weights.
pub open spec fn weight_below(c: Seq<(Move, u16)>, n: int) -> int
    decreases n,
{
    if n <= 0 {
        0
    } else {
        weight_below(c, n - 1) + c[n - 1].1
    }
}

/// The sum of all weights.
pub open spec fn total_weight(c: Seq<(Move, u16)>) -> int {
    weight_below(c, c.len() as int)
}

/// The candidate with index `i` is the one that the number `r` selects: the
/// candidates take up consecutive stretches, each as long as its weight.
pub open spec fn selects(c: Seq<(Move, u16)>, r: int, i: int) -> bool {
    0 <= i < c.len() && weight_below(c, i) <= r < weight_below(c, i + 1)
}

proof fn lemma_weight_monotone(c: Seq<(Move, u16)>, i: int, j: int)
    requires
        0 <= i <= j <= c.len(),
    ensures
        0 <= weight_below(c, i) <= weight_below(c, j),
    decreases j,
{
    if i < j {
        lemma_weight_monotone(c, i, j - 1);
    } else if j > 0 {
        lemma_weight_monotone(c, i - 1, j - 1);
    }
}

/// Every number below the total weight selects exactly one candidate, and each
/// candidate is selected by as many numbers as its weight says.
pub proof fn law_selection_by_weight(c: Seq<(Move, u16)>, r: int)
    requires
        0 <= r < total_weight(c),
    ensures
        exists|i: int| selects(c, r, i),
        forall|i: int, j: int| selects(c, r, i) && selects(c, r, j) ==> i == j,
        forall|i: int|
            0 <= i < c.len() ==> #[trigger] weight_below(c, i + 1) - weight_below(c, i) == c[i].1,
{
    lemma_some_selected(c, r, c.len() as int);
    assert forall|i: int, j: int| selects(c, r, i) && selects(c, r, j) implies i == j by {
        if i < j {
            lemma_weight_monotone(c, i + 1, j);
        } else if j < i {
            lemma_weight_monotone(c, j + 1, i);
        }
    }
}

proof fn lemma_some_selected(c: Seq<(Move, u16)>, r: int, n: int)
    requires
        0 <= n <= c.len(),
        0 <= r < weight_below(c, n),
    ensures
        exists|i: int| selects(c, r, i),
    decreases n,
{
    if r < weight_below(c, n - 1) {
        lemma_some_selected(c, r, n - 1);
    } else {
        assert(selects(c, r, n - 1));
    }
}

/// The weights of no more than 65537 entries add up to a number of 32 bits.
pub proof fn law_weights_fit(hits: Seq<PolyEntry>, ms: Seq<Move>)
    requires
        hits.len() <= 65537,
    ensures
        total_weight(legal_hits(hits, ms, hits.len() as int)) <= u32::MAX,
{
    lemma_hits_len(hits, ms, hits.len() as int);
    let c = legal_hits(hits, ms, hits.len() as int);
    lemma_weight_bound(c, c.len() as int);
}

proof fn lemma_hits_len(hits: Seq<PolyEntry>, ms: Seq<Move>, n: int)
    requires
        0 <= n,
    ensures
        legal_hits(hits, ms, n).len() <= n,
    decreases n,
{
    if n > 0 {
        lemma_hits_len(hits, ms, n - 1);
    }
}

proof fn lemma_weight_bound(c: Seq<(Move, u16)>, n: int)
    requires
        0 <= n,
    ensures
        weight_below(c, n) <= n * 65535,
    decreases n,
{
    if n > 0 {
        lemma_weight_bound(c, n - 1);
    }
}

/// The candidates among the book entries: those whose move is legal.
pub fn candidates(hits: &[PolyEntry], legal: &MoveList) -> (r: Vec<(Move, u16)>)
    ensures
        r@ == legal_hits(hits@, legal@, hits@.len() as int),
{
    let mut out: Vec<(Move, u16)> = Vec::new();
    let mut i: usize = 0;
    while i < hits.len()
        invariant
            i <= hits@.len(),
            out@ == legal_hits(hits@, legal@, i as int),
        decreases hits@.len() - i,
    {
        if let Some(mv) = decode_move(hits[i].mv, legal) {
            out.push((mv, hits[i].weight));
        }
        i += 1;
    }
    out
}

/// The sum of the weights.
pub fn weight_sum(c: &Vec<(Move, u16)>) -> (r: u32)
    requires
        total_weight(c@) <= u32::MAX,
    ensures
        r == total_weight(c@),
{
    let mut total: u32 = 0;
    let mut i: usize = 0;
    while i < c.len()
        invariant
            i <= c@.len(),
            total == weight_below(c@, i as int),
            total_weight(c@) <= u32::MAX,
        decreases c@.len() - i,
    {
        proof {
            lemma_weight_monotone(c@, i + 1, c@.len() as int);
        }
        total = total + c[i].1 as u32;
        i += 1;
    }
    total
}

/// The move that the number `r` selects.
pub fn select(c: &Vec<(Move, u16)>, r: u32) -> (m: Move)
    requires
        r < total_weight(c@),
    ensures
        exists|i: int| #[trigger] selects(c@, r as int, i) && m == c@[i].0,
{
    let mut left: u32 = r;
    let mut i: usize = 0;
    while i < c.len()
        invariant
            i <= c@.len(),
            left == r - weight_below(c@, i as int),
            r < total_weight(c@),
        decreases c@.len() - i,
    {
        let w: u32 = c[i].1 as u32;
        if left < w {
            proof {
                assert(selects(c@, r as int, i as int));
            }
            return c[i].0;
        }
        left = left - w;
        i += 1;
    }
    c[0].0
}

/// An opening book.
pub struct OpeningBook {
    /// All entries, sorted by their keys.
    pub entries: Vec<PolyEntry>,
}

impl OpeningBook {
    /// The entries are sorted.
    pub open spec fn wf(&self) -> bool {
        sorted(self.entries@)
    }

    /// The entries of a position.
    pub open spec fn hits(&self, p: Pos) -> Seq<PolyEntry> {
        with_key(self.entries@, book_key(p))
    }

    /// The moves that may be picked in a position, with their weights.
    pub open spec fn choices(&self, p: Pos) -> Seq<(Move, u16)> {
        legal_hits(self.hits(p), legal(p), self.hits(p).len() as int)
    }

    /// Build a book from the built-in lines only.
    pub fn new_internal() -> (r: OpeningBook)
        ensures
            r.wf(),
            r.entries@.to_multiset() == line_entries(20).to_multiset(),
    {
        OpeningBook { entries: build_internal_entries() }
    }

    /// Build a book from the bytes of a Polyglot file.
    pub fn from_polyglot(bytes: &[u8]) -> (r: OpeningBook)
        ensures
            r.wf(),
            r.entries@.to_multiset() == records_of(bytes@).to_multiset(),
    {
        OpeningBook { entries: sort_entries(&read_polyglot(bytes)) }
    }

    /// All book entries for the position of `board`. There are none if the
    /// position is unknown to the book.
    pub fn probe<'a>(&'a self, board: &Board) -> (r: &'a [PolyEntry])
        requires
            self.wf(),
            board.wf(),
            ep_inside(board@),
        ensures
            r@ == self.hits(board@),
    {
        probe_entries(self.entries.as_slice(), poly_hash(board))
    }

    /// Pick one book move for `board` at random, by weight.
    ///
    /// Only legal moves are considered. There is none if the position is not in
    /// the book or no entry is legal. If all weights are 0, the first is taken.
    pub fn pick_move(&self, board: &Board, rng: &mut StdRng) -> (r: Option<Move>)
        requires
            self.wf(),
            board.wf(),
            ep_inside(board@),
            generable(board@),
            total_weight(self.choices(board@)) <= u32::MAX,
        ensures
            match r {
                None => self.choices(board@).len() == 0,
                Some(m) => {
                    let c = self.choices(board@);
                    &&& c.len() > 0
                    &&& if total_weight(c) == 0 {
                        m == c[0].0
                    } else {
                        exists|k: u32, i: int|
                            {
                                &&& drawn(total_weight(c) as u32, k)
                                &&& k < total_weight(c)
                                &&& #[trigger] selects(c, k as int, i)
                                &&& m == c[i].0
                            }
                    }
                },
            },
    {
        let hits = self.probe(board);
        if hits.len() == 0 {
            return None;
        }
        let c = candidates(hits, &board.legal_moves());
        if c.len() == 0 {
            return None;
        }
        let total: u32 = weight_sum(&c);
        if total == 0 {
            return Some(c[0].0);
        }
        let k: u32 = draw_with(draw, rng, total);
        proof {
            assert(drawn(total, k));
        }
        Some(select(&c, k))
    }
}

proof fn lemma_hits_legal(hits: Seq<PolyEntry>, ms: Seq<Move>, n: int)
    ensures
        forall|i: int|
            0 <= i < legal_hits(hits, ms, n).len() ==> ms.contains(
                (#[trigger] legal_hits(hits, ms, n)[i]).0,
            ),
    decreases n,
{
    if n > 0 {
        lemma_hits_legal(hits, ms, n - 1);
        law_first_where(ms, worded_as(hits[n - 1].mv as int));
        let before = legal_hits(hits, ms, n - 1);
        assert forall|i: int| 0 <= i < legal_hits(hits, ms, n).len() implies ms.contains(
            (#[trigger] legal_hits(hits, ms, n)[i]).0,
        ) by {
            if i < before.len() {
                assert(legal_hits(hits, ms, n)[i] == before[i]);
            }
        }
    }
}

/// A book offers only legal moves.
pub proof fn law_book_moves_legal(b: OpeningBook, p: Pos, i: int)
    requires
        0 <= i < b.choices(p).len(),
    ensures
        legal(p).contains(b.choices(p)[i].0),
{
    lemma_hits_legal(b.hits(p), legal(p), b.hits(p).len() as int);
}

} // verus!
