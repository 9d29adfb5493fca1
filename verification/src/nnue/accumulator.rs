//! The first layer, kept up to date as features come and go.

use crate::board::{Board, Color, Pos};
use crate::nnue::features::{active_features, features_of, HIDDEN_SIZE, INPUT_FEATURES};
use vstd::prelude::*;

verus! {

/// Weights for the feature-transformer (first) layer.
///
/// The weight of feature `f` for neuron `i` has index `f * HIDDEN_SIZE + i`.
pub struct FeatureWeights {
    /// Bias for each of the `HIDDEN_SIZE` neurons.
    pub bias: Vec<i16>,
    /// `INPUT_FEATURES` rows of `HIDDEN_SIZE` weights.
    pub weight: Vec<i16>,
}

impl FeatureWeights {
    /// The lists have the right lengths.
    pub open spec fn wf(&self) -> bool {
        self.bias@.len() == 512 && self.weight@.len() == 40960 * 512
    }

    /// The weight of feature `f` for neuron `i`.
    pub open spec fn at(&self, f: int, i: int) -> int {
        self.weight@[f * 512 + i] as int
    }

    /// All-zeros weights.
    pub fn zeros() -> (r: FeatureWeights)
        ensures
            r.wf(),
            forall|i: int| 0 <= i < r.bias@.len() ==> r.bias@[i] == 0,
            forall|i: int| 0 <= i < r.weight@.len() ==> r.weight@[i] == 0,
    {
        FeatureWeights { bias: vec![0i16; 512], weight: vec![0i16; 20_971_520] }
    }

    /// The weight row for feature `feature_idx` (a slice of length `HIDDEN_SIZE`).
    pub fn row(&self, feature_idx: usize) -> (r: &[i16])
        requires
            self.wf(),
            feature_idx < INPUT_FEATURES,
        ensures
            r@.len() == 512,
            forall|i: int| 0 <= i < 512 ==> #[trigger] r@[i] == self.at(feature_idx as int, i),
    {
        let start: usize = feature_idx * HIDDEN_SIZE;
        vstd::slice::slice_subrange(self.weight.as_slice(), start, start + HIDDEN_SIZE)
    }
}

/// A sum held within the range of 16 bits.
pub open spec fn sat16(n: int) -> int {
    if n < -32768 {
        -32768
    } else if n > 32767 {
        32767
    } else {
        n
    }
}

/// The values after adding the row of a feature.
pub open spec fn with_feature(v: Seq<i16>, w: FeatureWeights, f: int) -> Seq<i16> {
    Seq::new(512, |i: int| sat16(v[i] + w.at(f, i)) as i16)
}

/// The values after subtracting the row of a feature.
pub open spec fn without_feature(v: Seq<i16>, w: FeatureWeights, f: int) -> Seq<i16> {
    Seq::new(512, |i: int| sat16(v[i] - w.at(f, i)) as i16)
}

/// The values after adding the first `n` features of a list.
pub open spec fn with_features(v: Seq<i16>, w: FeatureWeights, fs: Seq<usize>, n: int) -> Seq<i16>
    decreases n,
{
    if n <= 0 {
        v
    } else {
        with_feature(with_features(v, w, fs, n - 1), w, fs[n - 1] as int)
    }
}

/// The values after subtracting the first `n` features of a list.
pub open spec fn without_features(
    v: Seq<i16>,
    w: FeatureWeights,
    fs: Seq<usize>,
    n: int,
) -> Seq<i16>
    decreases n,
{
    if n <= 0 {
        v
    } else {
        without_feature(without_features(v, w, fs, n - 1), w, fs[n - 1] as int)
    }
}

/// Subtracting a feature that was just added restores the values, as long as
/// the addition did not run into the limits.
pub proof fn law_sub_undoes_add(v: Seq<i16>, w: FeatureWeights, f: int)
    requires
        v.len() == 512,
        forall|i: int| 0 <= i < 512 ==> -32768 <= #[trigger] v[i] + w.at(f, i) <= 32767,
    ensures
        without_feature(with_feature(v, w, f), w, f) == v,
{
    let u = without_feature(with_feature(v, w, f), w, f);
    assert forall|i: int| 0 <= i < 512 implies u[i] == v[i] by {
        assert(-32768 <= v[i] + w.at(f, i) <= 32767);
    }
    assert(u =~= v);
}

/// A single-side accumulator: the first-layer sums for one king.
pub struct HalfAccumulator {
    pub values: Vec<i16>,
}

/// A copy of a list of values.
fn copy_values(v: &Vec<i16>) -> (r: Vec<i16>)
    ensures
        r@ == v@,
{
    let mut out: Vec<i16> = Vec::new();
    let mut i: usize = 0;
    while i < v.len()
        invariant
            i <= v@.len(),
            out@ == v@.take(i as int),
        decreases v@.len() - i,
    {
        out.push(v[i]);
        proof {
            assert(v@.take(i + 1) =~= v@.take(i as int).push(v@[i as int]));
        }
        i += 1;
    }
    proof {
        assert(v@.take(i as int) =~= v@);
    }
    out
}

impl HalfAccumulator {
    /// There is a value for each neuron.
    pub open spec fn wf(&self) -> bool {
        self.values@.len() == 512
    }

    pub fn from_bias(bias: &Vec<i16>) -> (r: HalfAccumulator)
        ensures
            r.values@ == bias@,
    {
        HalfAccumulator { values: copy_values(bias) }
    }

    /// Add the weight row for `feature_idx` to this accumulator.
    pub fn add_feature(&mut self, feature_idx: usize, weights: &FeatureWeights)
        requires
            old(self).wf(),
            weights.wf(),
            feature_idx < INPUT_FEATURES,
        ensures
            final(self).wf(),
            final(self).values@ == with_feature(old(self).values@, *weights, feature_idx as int),
    {
        let ghost start = self.values@;
        let row = weights.row(feature_idx);
        let mut i: usize = 0;
        while i < 512
            invariant
                i <= 512,
                self.values@.len() == 512,
                start.len() == 512,
                row@.len() == 512,
                forall|k: int| 0 <= k < 512 ==> #[trigger] row@[k] == weights.at(
                    feature_idx as int,
                    k,
                ),
                forall|k: int| 0 <= k < i ==> #[trigger] self.values@[k] == sat16(
                    start[k] + weights.at(feature_idx as int, k),
                ),
                forall|k: int| i <= k < 512 ==> #[trigger] self.values@[k] == start[k],
            decreases 512 - i,
        {
            let sum: i32 = self.values[i] as i32 + row[i] as i32;
            let v: i16 = clamp16(sum);
            self.values[i] = v;
            i += 1;
        }
        proof {
            assert(self.values@ =~= with_feature(start, *weights, feature_idx as int));
        }
    }

    /// Subtract the weight row for `feature_idx` from this accumulator.
    pub fn sub_feature(&mut self, feature_idx: usize, weights: &FeatureWeights)
        requires
            old(self).wf(),
            weights.wf(),
            feature_idx < INPUT_FEATURES,
        ensures
            final(self).wf(),
            final(self).values@ == without_feature(
                old(self).values@,
                *weights,
                feature_idx as int,
            ),
    {
        let ghost start = self.values@;
        let row = weights.row(feature_idx);
        let mut i: usize = 0;
        while i < 512
            invariant
                i <= 512,
                self.values@.len() == 512,
                start.len() == 512,
                row@.len() == 512,
                forall|k: int| 0 <= k < 512 ==> #[trigger] row@[k] == weights.at(
                    feature_idx as int,
                    k,
                ),
                forall|k: int| 0 <= k < i ==> #[trigger] self.values@[k] == sat16(
                    start[k] - weights.at(feature_idx as int, k),
                ),
                forall|k: int| i <= k < 512 ==> #[trigger] self.values@[k] == start[k],
            decreases 512 - i,
        {
            let sum: i32 = self.values[i] as i32 - row[i] as i32;
            let v: i16 = clamp16(sum);
            self.values[i] = v;
            i += 1;
        }
        proof {
            assert(self.values@ =~= without_feature(start, *weights, feature_idx as int));
        }
    }

    /// Add the rows of all the listed features.
    fn add_all(&mut self, fs: &[usize], weights: &FeatureWeights)
        requires
            old(self).wf(),
            weights.wf(),
            forall|i: int| 0 <= i < fs@.len() ==> #[trigger] fs@[i] < INPUT_FEATURES,
        ensures
            final(self).wf(),
            final(self).values@ == with_features(
                old(self).values@,
                *weights,
                fs@,
                fs@.len() as int,
            ),
    {
        let ghost start = self.values@;
        let mut i: usize = 0;
        while i < fs.len()
            invariant
                i <= fs@.len(),
                self.wf(),
                weights.wf(),
                forall|k: int| 0 <= k < fs@.len() ==> #[trigger] fs@[k] < INPUT_FEATURES,
                self.values@ == with_features(start, *weights, fs@, i as int),
            decreases fs@.len() - i,
        {
            self.add_feature(fs[i], weights);
            i += 1;
        }
    }

    /// Subtract the rows of all the listed features.
    fn sub_all(&mut self, fs: &[usize], weights: &FeatureWeights)
        requires
            old(self).wf(),
            weights.wf(),
            forall|i: int| 0 <= i < fs@.len() ==> #[trigger] fs@[i] < INPUT_FEATURES,
        ensures
            final(self).wf(),
            final(self).values@ == without_features(
                old(self).values@,
                *weights,
                fs@,
                fs@.len() as int,
            ),
    {
        let ghost start = self.values@;
        let mut i: usize = 0;
        while i < fs.len()
            invariant
                i <= fs@.len(),
                self.wf(),
                weights.wf(),
                forall|k: int| 0 <= k < fs@.len() ==> #[trigger] fs@[k] < INPUT_FEATURES,
                self.values@ == without_features(start, *weights, fs@, i as int),
            decreases fs@.len() - i,
        {
            self.sub_feature(fs[i], weights);
            i += 1;
        }
    }
}

/// The number held within the range of 16 bits.
fn clamp16(n: i32) -> (r: i16)
    ensures
        r == sat16(n as int),
{
    if n < -32768 {
        -32768
    } else if n > 32767 {
        32767
    } else {
        n as i16
    }
}

/// The values of both halves.
pub struct Halves {
    pub white: Seq<i16>,
    pub black: Seq<i16>,
}

/// The full two-sided accumulator: one half for each king.
pub struct Accumulator {
    /// First-layer sums from White's king perspective.
    pub white: HalfAccumulator,
    /// First-layer sums from Black's king perspective.
    pub black: HalfAccumulator,
}

impl View for Accumulator {
    type V = Halves;

    open spec fn view(&self) -> Halves {
        Halves { white: self.white.values@, black: self.black.values@ }
    }
}

/// The first-layer sums of a position.
pub open spec fn fresh(p: Pos, w: FeatureWeights) -> Halves {
    let wf = features_of(p, Color::White);
    let bf = features_of(p, Color::Black);
    Halves {
        white: with_features(w.bias@, w, wf, wf.len() as int),
        black: with_features(w.bias@, w, bf, bf.len() as int),
    }
}

impl Accumulator {
    /// Both halves have a value for each neuron.
    pub open spec fn wf(&self) -> bool {
        self.white.wf() && self.black.wf()
    }

    pub fn from_weights(weights: &FeatureWeights) -> (r: Accumulator)
        ensures
            r@ == (Halves { white: weights.bias@, black: weights.bias@ }),
    {
        Accumulator {
            white: HalfAccumulator::from_bias(&weights.bias),
            black: HalfAccumulator::from_bias(&weights.bias),
        }
    }

    fn copy(&self) -> (r: Accumulator)
        ensures
            r@ == self@,
    {
        Accumulator {
            white: HalfAccumulator { values: copy_values(&self.white.values) },
            black: HalfAccumulator { values: copy_values(&self.black.values) },
        }
    }

    /// Recompute both halves from scratch for the given position.
    pub fn refresh(&mut self, board: &Board, weights: &FeatureWeights)
        requires
            board.wf(),
            weights.wf(),
        ensures
            final(self).wf(),
            final(self)@ == fresh(board@, *weights),
    {
        let (wf, bf) = active_features(board);
        let mut white = HalfAccumulator::from_bias(&weights.bias);
        let mut black = HalfAccumulator::from_bias(&weights.bias);
        white.add_all(wf.as_slice(), weights);
        black.add_all(bf.as_slice(), weights);
        self.white = white;
        self.black = black;
    }
}

/// An accumulator maintained as a push-down stack, mirroring the search tree.
pub struct AccumulatorStack {
    /// The accumulator for the current node in the search tree.
    pub current: Accumulator,
    pub stack: Vec<Accumulator>,
}

impl AccumulatorStack {
    /// The current accumulator and the saved ones have all their values.
    pub open spec fn wf(&self) -> bool {
        self.current.wf() && forall|i: int|
            0 <= i < self.stack@.len() ==> (#[trigger] self.stack@[i]).wf()
    }

    /// The saved accumulators, the latest last.
    pub open spec fn saved(&self) -> Seq<Halves> {
        self.stack@.map_values(|a: Accumulator| a@)
    }

    /// Create a new stack with the accumulator pre-populated from `weights`'
    /// bias vector.
    pub fn new(weights: &FeatureWeights) -> (r: AccumulatorStack)
        requires
            weights.wf(),
        ensures
            r.wf(),
            r.current@ == (Halves { white: weights.bias@, black: weights.bias@ }),
            r.saved() == Seq::<Halves>::empty(),
    {
        let r = AccumulatorStack {
            current: Accumulator::from_weights(weights),
            stack: Vec::new(),
        };
        proof {
            assert(r.saved() =~= Seq::<Halves>::empty());
        }
        r
    }

    /// Rebuild the current accumulator for `board` from scratch.
    pub fn refresh(&mut self, board: &Board, weights: &FeatureWeights)
        requires
            old(self).wf(),
            board.wf(),
            weights.wf(),
        ensures
            final(self).wf(),
            final(self).current@ == fresh(board@, *weights),
            final(self).saved() == old(self).saved(),
    {
        self.current.refresh(board, weights);
    }

    /// Save the current accumulator and apply incremental feature deltas.
    ///
    /// `removed_*` and `added_*` are feature indices for the White and Black
    /// perspectives respectively that were removed / added by the move.
    pub fn push_with_deltas(
        &mut self,
        removed_white: &[usize],
        added_white: &[usize],
        removed_black: &[usize],
        added_black: &[usize],
        weights: &FeatureWeights,
    )
        requires
            old(self).wf(),
            weights.wf(),
            forall|i: int| 0 <= i < removed_white@.len() ==> #[trigger] removed_white@[i]
                < INPUT_FEATURES,
            forall|i: int| 0 <= i < added_white@.len() ==> #[trigger] added_white@[i]
                < INPUT_FEATURES,
            forall|i: int| 0 <= i < removed_black@.len() ==> #[trigger] removed_black@[i]
                < INPUT_FEATURES,
            forall|i: int| 0 <= i < added_black@.len() ==> #[trigger] added_black@[i]
                < INPUT_FEATURES,
        ensures
            final(self).wf(),
            final(self).saved() == old(self).saved().push(old(self).current@),
            final(self).current@ == (Halves {
                white: with_features(
                    without_features(
                        old(self).current@.white,
                        *weights,
                        removed_white@,
                        removed_white@.len() as int,
                    ),
                    *weights,
                    added_white@,
                    added_white@.len() as int,
                ),
                black: with_features(
                    without_features(
                        old(self).current@.black,
                        *weights,
                        removed_black@,
                        removed_black@.len() as int,
                    ),
                    *weights,
                    added_black@,
                    added_black@.len() as int,
                ),
            }),
    {
        let ghost start = *self;
        let saved = self.current.copy();
        self.stack.push(saved);
        proof {
            assert(self.saved() =~= start.saved().push(start.current@));
        }
        self.current.white.sub_all(removed_white, weights);
        self.current.white.add_all(added_white, weights);
        self.current.black.sub_all(removed_black, weights);
        self.current.black.add_all(added_black, weights);
    }

    /// Restore the accumulator to the state before the last `push_with_deltas`.
    pub fn pop(&mut self)
        requires
            old(self).wf(),
            old(self).saved().len() > 0,
        ensures
            final(self).wf(),
            final(self).current@ == old(self).saved().last(),
            final(self).saved() == old(self).saved().drop_last(),
    {
        let ghost start = *self;
        if let Some(a) = self.stack.pop() {
            self.current = a;
        }
        proof {
            assert(self.saved() =~= start.saved().drop_last());
        }
    }

    /// Current stack depth (number of saved frames).
    pub fn depth(&self) -> (r: usize)
        ensures
            r == self.saved().len(),
    {
        self.stack.len()
    }
}

} // verus!
