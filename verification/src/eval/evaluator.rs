//! The [`Evaluator`] trait and its two implementations.

use crate::board::{Board, Pos};
use crate::eval::{eval_score, evaluate};
use crate::nnue::accumulator::{fresh, AccumulatorStack, FeatureWeights};
use crate::nnue::network::{network_output, Network};
use std::sync::Arc;
use vstd::prelude::*;

verus! {

/// No evaluation is larger in size than this.
pub const EVAL_LIMIT: i32 = 40_000_100;

/// Assign a static score (centipawns, side-to-move perspective) to a position.
pub trait Evaluator {
    /// The evaluator is ready for use.
    open spec fn ready(&self) -> bool {
        true
    }

    /// The score that the evaluator gives a position.
    open spec fn score(&self, p: Pos) -> int {
        0
    }

    /// The score of a position.
    fn evaluate(&self, board: &Board) -> (r: i32)
        requires
            self.ready(),
            board.wf(),
        ensures
            r == self.score(board@),
            -EVAL_LIMIT <= r <= EVAL_LIMIT,
    ;
}

/// The classical hand-crafted evaluator.
#[derive(Clone, Copy, Debug)]
pub struct HandcraftedEvaluator;

impl Evaluator for HandcraftedEvaluator {
    open spec fn ready(&self) -> bool {
        true
    }

    open spec fn score(&self, p: Pos) -> int {
        eval_score(p)
    }

    fn evaluate(&self, board: &Board) -> (r: i32) {
        evaluate(board)
    }
}

/// A neural-network evaluator.
pub struct NnueEvaluator {
    pub network: Arc<Network>,
}

/// `Arc::clone` makes another pointer to the same value.
#[verifier::external_body]
pub(crate) fn share<T>(a: &Arc<T>) -> (r: Arc<T>)
    ensures
        r == *a,
{
    Arc::clone(a)
}

impl NnueEvaluator {
    /// Wrap a pre-loaded network.
    pub fn new(network: Arc<Network>) -> (r: NnueEvaluator)
        ensures
            r.network == network,
            r.ready() == network.wf(),
    {
        NnueEvaluator { network }
    }

    /// The network.
    pub fn network(&self) -> (r: Arc<Network>)
        ensures
            r == self.network,
    {
        share(&self.network)
    }
}

/// The network's score of a position: the sums of the first layer computed from
/// scratch, and the inference from them for the side to move.
pub open spec fn nnue_score(net: Network, p: Pos) -> int {
    network_output(net@, fresh(p, net.feature_weights), p.side)
}

impl Evaluator for NnueEvaluator {
    open spec fn ready(&self) -> bool {
        self.network.wf()
    }

    open spec fn score(&self, p: Pos) -> int {
        nnue_score(*self.network, p)
    }

    fn evaluate(&self, board: &Board) -> (r: i32) {
        let weights: &FeatureWeights = &self.network.feature_weights;
        let mut stack = AccumulatorStack::new(weights);
        stack.refresh(board, weights);
        self.network.evaluate(&stack.current, board.side_to_move)
    }
}

/// A boxed evaluator evaluates as what is in the box does.
impl<E: Evaluator + ?Sized> Evaluator for Box<E> {
    open spec fn ready(&self) -> bool {
        (**self).ready()
    }

    open spec fn score(&self, p: Pos) -> int {
        (**self).score(p)
    }

    fn evaluate(&self, board: &Board) -> (r: i32) {
        (**self).evaluate(board)
    }
}

} // verus!
