//! Legal moves, terminal positions, and perft.

use crate::board::Color;
use crate::board::{Board, Pos};
use crate::movegen::attacks::is_square_attacked;
use crate::movegen::generate::{in_check, pseudo_moves};
use crate::movegen::make_move::{apply, law_unmake_undoes_make};
use crate::movegen::moves::{Move, MoveList};
use crate::movegen::rules::{
    law_legal_move_keeps_valid, law_pseudo_moves_shape, law_valid_moves_playable, moves_playable,
    playable, shape, valid,
};
use vstd::prelude::*;

verus! {

/// Those of the first `n` moves of `ms` that do not leave the mover's king in
/// check.
pub open spec fn legal_of(p: Pos, ms: Seq<Move>, n: int) -> Seq<Move>
    decreases n,
{
    if n <= 0 {
        Seq::empty()
    } else if in_check(apply(p, ms[n - 1]), p.side) {
        legal_of(p, ms, n - 1)
    } else {
        legal_of(p, ms, n - 1).push(ms[n - 1])
    }
}

/// The legal moves: the pseudo-legal ones, in their order, that do not leave
/// the mover's king in check.
pub open spec fn legal(p: Pos) -> Seq<Move> {
    legal_of(p, pseudo_moves(p), pseudo_moves(p).len() as int)
}

/// Legal moves can be generated: the side to move has a king or no pseudo-legal
/// move, and every pseudo-legal move can be played.
pub open spec fn generable(p: Pos) -> bool {
    p.wf() && (p.king(p.side) is Some || pseudo_moves(p).len() == 0) && moves_playable(p)
}

/// The side to move is in check and has no legal move.
pub open spec fn checkmated(p: Pos) -> bool {
    in_check(p, p.side) && legal(p).len() == 0
}

/// The side to move is not in check and has no legal move.
pub open spec fn stalemated(p: Pos) -> bool {
    !in_check(p, p.side) && legal(p).len() == 0
}

/// A legal move is a pseudo-legal move that leaves the mover's king safe.
proof fn lemma_legal_of(p: Pos, ms: Seq<Move>, n: int)
    requires
        0 <= n <= ms.len(),
    ensures
        legal_of(p, ms, n).len() <= n,
        forall|i: int|
            0 <= i < legal_of(p, ms, n).len() ==> {
                let m = #[trigger] legal_of(p, ms, n)[i];
                ms.contains(m) && !in_check(apply(p, m), p.side)
            },
        forall|j: int|
            0 <= j < n && !in_check(apply(p, #[trigger] ms[j]), p.side) ==> legal_of(
                p,
                ms,
                n,
            ).contains(ms[j]),
    decreases n,
{
    if n > 0 {
        lemma_legal_of(p, ms, n - 1);
        let r = legal_of(p, ms, n - 1);
        let s = legal_of(p, ms, n);
        assert forall|j: int| 0 <= j < n && !in_check(apply(p, #[trigger] ms[j]), p.side) implies s.contains(
        ms[j]) by {
            if j < n - 1 {
                let k = choose|k: int| 0 <= k < r.len() && r[k] == ms[j];
                assert(s[k] == ms[j]);
            } else {
                assert(s[r.len() as int] == ms[j]);
            }
        }
    }
}

/// The legal moves are exactly the pseudo-legal ones after which the mover's
/// king is not attacked.
pub proof fn law_legal_moves(p: Pos, m: Move)
    ensures
        legal(p).contains(m) <==> (pseudo_moves(p).contains(m) && !in_check(apply(p, m), p.side)),
{
    let ms = pseudo_moves(p);
    lemma_legal_of(p, ms, ms.len() as int);
    if legal(p).contains(m) {
        let i = choose|i: int| 0 <= i < legal(p).len() && legal(p)[i] == m;
    }
    if ms.contains(m) && !in_check(apply(p, m), p.side) {
        let j = choose|j: int| 0 <= j < ms.len() && ms[j] == m;
        assert(legal(p).contains(ms[j]));
    }
}

/// There are never more than 20000 legal moves.
pub proof fn law_legal_count(p: Pos)
    ensures
        legal(p).len() <= 20_000,
{
    let ms = pseudo_moves(p);
    lemma_legal_of(p, ms, ms.len() as int);
    crate::movegen::rules::law_move_count(p);
}

/// In a valid position every legal move can be played, leads to a valid
/// position, and can be taken back.
pub proof fn law_legal_play(p: Pos, m: Move)
    requires
        valid(p),
        legal(p).contains(m),
    ensures
        shape(p, m),
        playable(p, m),
        valid(apply(p, m)),
{
    reveal(valid);
    law_legal_moves(p, m);
    law_pseudo_moves_shape(p);
    let ms = pseudo_moves(p);
    let j = choose|j: int| 0 <= j < ms.len() && ms[j] == m;
    assert(shape(p, ms[j]));
    law_legal_move_keeps_valid(p, m);
}

/// The number of leaves of the tree of legal moves at depth `d`.
pub open spec fn perft_count(p: Pos, d: nat) -> nat
    decreases d, 1nat, 0nat,
{
    if d == 0 {
        1
    } else {
        perft_sum(p, legal(p), d, legal(p).len())
    }
}

/// The leaves below the first `n` moves of `ms`.
pub open spec fn perft_sum(p: Pos, ms: Seq<Move>, d: nat, n: nat) -> nat
    decreases d, 0nat, n,
{
    if n == 0 || d == 0 {
        0
    } else {
        perft_sum(p, ms, d, (n - 1) as nat) + perft_count(apply(p, ms[n - 1]), (d - 1) as nat)
    }
}

/// A count as a 64-bit counter shows it, which wraps around.
pub open spec fn wrapped(n: nat) -> u64 {
    (n % 0x1_0000_0000_0000_0000) as u64
}

/// How a counter that wraps around adds.
pub proof fn lemma_wrapped_add(a: nat, b: nat)
    ensures
        wrapped(a + b) == (if wrapped(a) + wrapped(b) > u64::MAX {
            (wrapped(a) + wrapped(b) - 0x1_0000_0000_0000_0000) as u64
        } else {
            (wrapped(a) + wrapped(b)) as u64
        }),
{
}

proof fn lemma_perft_one(p: Pos, ms: Seq<Move>, n: nat)
    ensures
        perft_sum(p, ms, 1, n) == n,
    decreases n,
{
    if n > 0 {
        lemma_perft_one(p, ms, (n - 1) as nat);
        assert(perft_count(apply(p, ms[n - 1]), 0) == 1);
    }
}

/// At depth 0 there is one leaf, at depth 1 one for each legal move.
pub proof fn law_perft_small(p: Pos)
    ensures
        perft_count(p, 0) == 1,
        perft_count(p, 1) == legal(p).len(),
{
    lemma_perft_one(p, legal(p), legal(p).len());
}

/// What `perft_divide` reports for a move.
pub open spec fn divide_count(p: Pos, m: Move, depth: nat) -> nat {
    if depth <= 1 {
        1
    } else {
        perft_count(apply(p, m), (depth - 1) as nat)
    }
}

/// The sum of what `perft_divide` reports for the first `n` legal moves.
pub open spec fn divide_total(p: Pos, depth: nat, n: nat) -> nat
    decreases n,
{
    if n == 0 {
        0
    } else {
        divide_total(p, depth, (n - 1) as nat) + divide_count(p, legal(p)[n - 1], depth)
    }
}

proof fn lemma_divide_sum(p: Pos, d: nat, n: nat)
    requires
        d >= 1,
    ensures
        divide_total(p, d, n) == perft_sum(p, legal(p), d, n),
    decreases n,
{
    if n > 0 {
        lemma_divide_sum(p, d, (n - 1) as nat);
        assert(perft_count(apply(p, legal(p)[n - 1]), 0) == 1);
    }
}

/// The count that `perft_divide` reports for a move is the perft count after it,
/// one level less deep.
pub proof fn law_divide_counts(p: Pos, m: Move, d: nat)
    requires
        d >= 1,
    ensures
        divide_count(p, m, d) == perft_count(apply(p, m), (d - 1) as nat),
{
    assert(perft_count(apply(p, m), 0) == 1);
}

/// The counts that `perft_divide` reports add up to the perft count.
pub proof fn law_divide_adds_up(p: Pos, d: nat)
    requires
        d >= 1,
    ensures
        divide_total(p, d, legal(p).len()) == perft_count(p, d),
{
    lemma_divide_sum(p, d, legal(p).len());
}

impl Board {
    /// Is the king of color `c` attacked?
    pub fn is_king_attacked(&self, c: Color) -> (r: bool)
        requires
            self.wf(),
        ensures
            r == in_check(self@, c),
    {
        match self.king_square(c) {
            Some(k) => is_square_attacked(self, k, c.opposite()),
            None => false,
        }
    }

    /// The side to move is checkmated: in check with no legal reply.
    pub fn is_checkmate(&self) -> (r: bool)
        requires
            self.wf(),
            generable(self@),
        ensures
            r == checkmated(self@),
    {
        self.is_in_check() && self.legal_moves().is_empty()
    }

    /// The side to move is stalemated: not in check but has no legal move.
    pub fn is_stalemate(&self) -> (r: bool)
        requires
            self.wf(),
            generable(self@),
        ensures
            r == stalemated(self@),
    {
        !self.is_in_check() && self.legal_moves().is_empty()
    }

    /// All fully legal moves for the side to move.
    pub fn legal_moves(&self) -> (r: MoveList)
        requires
            self.wf(),
            generable(self@),
        ensures
            r@ == legal(self@),
    {
        let ghost p = self@;
        let us = self.side_to_move;
        let pseudo = self.pseudo_legal_moves();
        let mut out = MoveList::new();
        // Work on a copy so this method can take `&self`.
        let mut board = *self;
        let mut i: usize = 0;
        while i < pseudo.len()
            invariant
                board.wf(),
                board@ == p,
                us == p.side,
                generable(p),
                pseudo@ == pseudo_moves(p),
                i <= pseudo@.len(),
                out@ == legal_of(p, pseudo_moves(p), i as int),
            decreases pseudo@.len() - i,
        {
            let mv = pseudo.get(i);
            let ghost h = board.hash;
            proof {
                assert(playable(p, pseudo_moves(p)[i as int]));
            }
            let undo = board.make_move(mv);
            let exposed = board.is_king_attacked(us);
            if !exposed {
                out.push(mv);
            }
            proof {
                law_unmake_undoes_make(p, h, mv);
            }
            board.unmake_move(mv, undo);
            i += 1;
        }
        out
    }

    /// Count leaf nodes of the legal-move tree at the given `depth`.
    ///
    /// `perft(0) == 1`. The `depth == 1` shortcut just counts the legal moves
    /// instead of recursing into each.
    pub fn perft(&mut self, depth: u32) -> (r: u64)
        requires
            old(self).wf(),
            valid(old(self)@),
        ensures
            r == wrapped(perft_count(old(self)@, depth as nat)),
            final(self).wf(),
            final(self)@ == old(self)@,
            final(self).hash == old(self).hash,
        decreases depth,
    {
        let ghost p = self@;
        let ghost h = self.hash;
        if depth == 0 {
            return 1;
        }
        proof {
            law_valid_moves_playable(p);
        }
        let moves = self.legal_moves();
        if depth == 1 {
            proof {
                law_perft_small(p);
            }
            return moves.len() as u64;
        }
        let ghost d = depth as nat;
        let mut nodes: u64 = 0;
        let mut i: usize = 0;
        while i < moves.len()
            invariant
                self.wf(),
                self@ == p,
                self.hash == h,
                valid(p),
                d == depth,
                depth > 1,
                moves@ == legal(p),
                i <= moves@.len(),
                nodes == wrapped(perft_sum(p, legal(p), d, i as nat)),
            decreases moves@.len() - i,
        {
            let mv = moves.get(i);
            proof {
                assert(legal(p).contains(mv));
                law_legal_play(p, mv);
                law_unmake_undoes_make(p, h, mv);
                lemma_wrapped_add(
                    perft_sum(p, legal(p), d, i as nat),
                    perft_count(apply(p, mv), (d - 1) as nat),
                );
            }
            let undo = self.make_move(mv);
            let below: u64 = self.perft(depth - 1);
            nodes = nodes.wrapping_add(below);
            self.unmake_move(mv, undo);
            i += 1;
        }
        nodes
    }

    /// The number of leaves below one legal move.
    fn count_below(&mut self, mv: Move, depth: u32) -> (r: u64)
        requires
            old(self).wf(),
            valid(old(self)@),
            legal(old(self)@).contains(mv),
        ensures
            r == wrapped(divide_count(old(self)@, mv, depth as nat)),
            final(self).wf(),
            final(self)@ == old(self)@,
            final(self).hash == old(self).hash,
    {
        proof {
            law_legal_play(self@, mv);
            law_unmake_undoes_make(self@, self.hash, mv);
        }
        let undo = self.make_move(mv);
        let count: u64 = if depth <= 1 {
            1
        } else {
            self.perft(depth - 1)
        };
        self.unmake_move(mv, undo);
        count
    }

    /// Perft, but broken down by first move: the total, and for each legal move
    /// the number of leaves below it.
    #[verifier::rlimit(40)]
    pub fn perft_divide(&mut self, depth: u32) -> (r: (u64, Vec<(Move, u64)>))
        requires
            old(self).wf(),
            valid(old(self)@),
        ensures
            r.0 == wrapped(divide_total(old(self)@, depth as nat, legal(old(self)@).len())),
            r.1@.len() == legal(old(self)@).len(),
            forall|i: int|
                0 <= i < r.1@.len() ==> (#[trigger] r.1@[i]).0 == legal(old(self)@)[i] && r.1@[i].1
                    == wrapped(divide_count(old(self)@, legal(old(self)@)[i], depth as nat)),
            final(self).wf(),
            final(self)@ == old(self)@,
            final(self).hash == old(self).hash,
    {
        let ghost p = self@;
        let ghost h = self.hash;
        let ghost d = depth as nat;
        proof {
            law_valid_moves_playable(p);
        }
        let moves = self.legal_moves();
        let mut total: u64 = 0;
        let mut breakdown: Vec<(Move, u64)> = Vec::new();
        let mut i: usize = 0;
        while i < moves.len()
            invariant
                self.wf(),
                self@ == p,
                self.hash == h,
                valid(p),
                d == depth,
                moves@ == legal(p),
                i <= moves@.len(),
                total == wrapped(divide_total(p, d, i as nat)),
                breakdown@.len() == i,
                forall|k: int|
                    0 <= k < i ==> (#[trigger] breakdown@[k]).0 == legal(p)[k] && breakdown@[k].1
                        == wrapped(divide_count(p, legal(p)[k], d)),
            decreases moves@.len() - i,
        {
            let mv = moves.get(i);
            proof {
                assert(legal(p).contains(mv));
                lemma_wrapped_add(divide_total(p, d, i as nat), divide_count(p, mv, d));
            }
            let count: u64 = self.count_below(mv, depth);
            total = total.wrapping_add(count);
            breakdown.push((mv, count));
            i += 1;
        }
        (total, breakdown)
    }
}

} // verus!
