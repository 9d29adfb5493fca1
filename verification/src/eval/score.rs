//! Tapered scores: a middlegame and an endgame value, blended by how much
//! material is left.

use std::ops::{Add, Neg, Sub};
use vstd::prelude::*;

verus! {

/// The maximum game phase (full starting material). See [`taper`].
///
/// Knight/bishop = 1, rook = 2, queen = 4; two of each per side -> 24.
pub const TOTAL_PHASE: i32 = 24;

/// A middlegame and an endgame value.
pub struct Pair {
    pub mg: int,
    pub eg: int,
}

impl Pair {
    /// No value.
    pub open spec fn zero() -> Pair {
        Pair { mg: 0, eg: 0 }
    }

    /// The sum.
    pub open spec fn plus(self, o: Pair) -> Pair {
        Pair { mg: self.mg + o.mg, eg: self.eg + o.eg }
    }

    /// The difference.
    pub open spec fn minus(self, o: Pair) -> Pair {
        Pair { mg: self.mg - o.mg, eg: self.eg - o.eg }
    }

    /// `n` times the value.
    pub open spec fn times(self, n: int) -> Pair {
        Pair { mg: self.mg * n, eg: self.eg * n }
    }

    /// Neither part exceeds `b` in size.
    pub open spec fn within(self, b: int) -> bool {
        -b <= self.mg <= b && -b <= self.eg <= b
    }
}

/// A paired middlegame / endgame score, in centipawns.
#[derive(Clone, Copy, PartialEq, Eq, Debug, Structural)]
pub struct Score {
    pub mg: i32,
    pub eg: i32,
}

impl View for Score {
    type V = Pair;

    open spec fn view(&self) -> Pair {
        Pair { mg: self.mg as int, eg: self.eg as int }
    }
}

impl Default for Score {
    /// No value.
    fn default() -> (r: Score)
        ensures
            r@ == Pair::zero(),
    {
        Score { mg: 0, eg: 0 }
    }
}

/// The value fits in 32 bits.
pub open spec fn fits(n: int) -> bool {
    i32::MIN <= n <= i32::MAX
}

impl Score {
    /// A score with the given parts.
    pub fn new(mg: i32, eg: i32) -> (r: Score)
        ensures
            r == (Score { mg, eg }),
    {
        Score { mg, eg }
    }

    /// No value.
    pub fn zero() -> (r: Score)
        ensures
            r@ == Pair::zero(),
    {
        Score { mg: 0, eg: 0 }
    }

    /// The sum.
    pub fn plus(self, o: Score) -> (r: Score)
        requires
            fits(self.mg + o.mg),
            fits(self.eg + o.eg),
        ensures
            r@ == self@.plus(o@),
    {
        Score { mg: self.mg + o.mg, eg: self.eg + o.eg }
    }

    /// The difference.
    pub fn minus(self, o: Score) -> (r: Score)
        requires
            fits(self.mg - o.mg),
            fits(self.eg - o.eg),
        ensures
            r@ == self@.minus(o@),
    {
        Score { mg: self.mg - o.mg, eg: self.eg - o.eg }
    }

    /// The score scaled by an integer count (e.g. per mobility square).
    pub fn times(self, n: i32) -> (r: Score)
        requires
            fits(self.mg * n),
            fits(self.eg * n),
        ensures
            r@ == self@.times(n as int),
    {
        Score { mg: self.mg * n, eg: self.eg * n }
    }
}

impl vstd::std_specs::ops::AddSpecImpl for Score {
    open spec fn obeys_add_spec() -> bool {
        true
    }

    open spec fn add_req(self, rhs: Score) -> bool {
        fits(self.mg + rhs.mg) && fits(self.eg + rhs.eg)
    }

    open spec fn add_spec(self, rhs: Score) -> Score {
        Score { mg: (self.mg + rhs.mg) as i32, eg: (self.eg + rhs.eg) as i32 }
    }
}

impl Add for Score {
    type Output = Score;

    fn add(self, rhs: Score) -> Score {
        self.plus(rhs)
    }
}

impl vstd::std_specs::ops::SubSpecImpl for Score {
    open spec fn obeys_sub_spec() -> bool {
        true
    }

    open spec fn sub_req(self, rhs: Score) -> bool {
        fits(self.mg - rhs.mg) && fits(self.eg - rhs.eg)
    }

    open spec fn sub_spec(self, rhs: Score) -> Score {
        Score { mg: (self.mg - rhs.mg) as i32, eg: (self.eg - rhs.eg) as i32 }
    }
}

impl Sub for Score {
    type Output = Score;

    fn sub(self, rhs: Score) -> Score {
        self.minus(rhs)
    }
}

impl vstd::std_specs::ops::NegSpecImpl for Score {
    open spec fn obeys_neg_spec() -> bool {
        true
    }

    open spec fn neg_req(self) -> bool {
        self.mg > i32::MIN && self.eg > i32::MIN
    }

    open spec fn neg_spec(self) -> Score {
        Score { mg: (-self.mg) as i32, eg: (-self.eg) as i32 }
    }
}

impl Neg for Score {
    type Output = Score;

    fn neg(self) -> Score {
        Score { mg: -self.mg, eg: -self.eg }
    }
}

/// Division that rounds toward zero.
pub open spec fn tdiv(a: int, b: int) -> int {
    if a >= 0 {
        a / b
    } else {
        -((-a) / b)
    }
}

/// Division that rounds toward zero.
pub fn div_toward_zero(a: i32, b: i32) -> (r: i32)
    requires
        b > 0,
        a > i32::MIN,
    ensures
        r == tdiv(a as int, b as int),
{
    if a >= 0 {
        a / b
    } else {
        -((-a) / b)
    }
}

/// The phase held within `0..=TOTAL_PHASE`.
pub open spec fn clamp_phase(phase: int) -> int {
    if phase < 0 {
        0
    } else if phase > 24 {
        24
    } else {
        phase
    }
}

/// The blend of the two values for a game phase.
pub open spec fn tapered(s: Pair, phase: int) -> int {
    let ph = clamp_phase(phase);
    tdiv(s.mg * ph + s.eg * (24 - ph), 24)
}

/// Collapse a paired score into a single centipawn value for the given game
/// `phase` (0 = pure endgame .. [`TOTAL_PHASE`] = full middlegame).
pub fn taper(score: Score, phase: i32) -> (r: i32)
    requires
        score@.within(40_000_000),
    ensures
        r == tapered(score@, phase as int),
        -40_000_000 <= r <= 40_000_000,
{
    let ph: i32 = if phase < 0 {
        0
    } else if phase > TOTAL_PHASE {
        TOTAL_PHASE
    } else {
        phase
    };
    proof {
        let m = score.mg as int;
        let e = score.eg as int;
        assert(-40_000_000 * 24 <= m * ph + e * (24 - ph) <= 40_000_000 * 24) by (nonlinear_arith)
            requires
                -40_000_000 <= m <= 40_000_000,
                -40_000_000 <= e <= 40_000_000,
                0 <= ph <= 24,
        ;
        assert(-40_000_000 * 24 <= m * ph <= 40_000_000 * 24) by (nonlinear_arith)
            requires
                -40_000_000 <= m <= 40_000_000,
                0 <= ph <= 24,
        ;
        assert(-40_000_000 * 24 <= e * (24 - ph) <= 40_000_000 * 24) by (nonlinear_arith)
            requires
                -40_000_000 <= e <= 40_000_000,
                0 <= ph <= 24,
        ;
    }
    div_toward_zero(score.mg * ph + score.eg * (TOTAL_PHASE - ph), TOTAL_PHASE)
}

/// With all pieces on the board the middlegame value counts alone, with bare
/// kings the endgame value.
pub proof fn law_taper_ends(s: Pair)
    ensures
        tapered(s, 24) == s.mg,
        tapered(s, 0) == s.eg,
{
    assert(tdiv(s.mg * 24 + s.eg * 0, 24) == s.mg);
    assert(tdiv(s.mg * 0 + s.eg * 24, 24) == s.eg);
}

/// Division drops what is behind the point: the quotient is nearer to zero than the
/// exact one, by less than one.
pub proof fn law_tdiv(n: int, d: int)
    requires
        d > 0,
    ensures
        n >= 0 ==> 0 <= d * tdiv(n, d) <= n < d * tdiv(n, d) + d,
        n <= 0 ==> d * tdiv(n, d) - d < n <= d * tdiv(n, d) <= 0,
        tdiv(-n, d) == -tdiv(n, d),
{
    assert(n >= 0 ==> 0 <= d * (n / d) <= n < d * (n / d) + d) by (nonlinear_arith)
        requires
            d > 0,
    ;
    assert(n <= 0 ==> 0 <= d * (-n / d) <= -n < d * (-n / d) + d) by (nonlinear_arith)
        requires
            d > 0,
    ;
    assert(d * -(-n / d) == -(d * (-n / d))) by (nonlinear_arith);
    assert(d * -(n / d) == -(d * (n / d))) by (nonlinear_arith);
}

} // verus!
