//! Binary logarithms in fixed point.

use vstd::arithmetic::power::{
    lemma1_pow, lemma_pow1, lemma_pow_adds, lemma_pow_distributes, lemma_pow_multiplies,
    lemma_pow_positive, pow,
};
use vstd::arithmetic::power2::{
    lemma2_to64, lemma2_to64_rest, lemma_pow2, lemma_pow2_adds, lemma_pow2_pos,
    lemma_pow2_strictly_increases, lemma_pow2_unfold, pow2,
};
use vstd::prelude::*;

verus! {

/// The binary digits behind the point of a logarithm, `bits` of them, found by
/// squaring: `m` is a number from 1 to 2, scaled by 2 to the 62nd power.
pub open spec fn log2_digits(m: int, bits: nat, acc: int) -> int
    decreases bits,
{
    if bits == 0 {
        acc
    } else {
        let sq = m * m / 0x4000_0000_0000_0000;
        if sq >= 0x8000_0000_0000_0000 {
            log2_digits(sq / 2, (bits - 1) as nat, 2 * acc + 1)
        } else {
            log2_digits(sq, (bits - 1) as nat, 2 * acc)
        }
    }
}

/// The number doubled until it reaches 2 to the 62nd power, and how far the
/// binary logarithm is from 62 then.
pub open spec fn normalized(m: int, e: int) -> (int, int)
    decreases e,
{
    if m >= 0x4000_0000_0000_0000 || m <= 0 || e <= 0 {
        (m, e)
    } else {
        normalized(2 * m, e - 1)
    }
}

/// The binary logarithm of `n`, scaled by 2 to the 40th power.
pub open spec fn log2_fixed(n: int) -> int {
    let (m, e) = normalized(n, 62);
    log2_digits(m, 40, e)
}

/// The digits behind the point do not reach the next whole number.
proof fn lemma_digits_range(m: int, bits: nat, acc: int)
    ensures
        acc * pow2(bits) <= log2_digits(m, bits, acc) < (acc + 1) * pow2(bits),
    decreases bits,
{
    if bits == 0 {
        lemma2_to64();
    } else {
        let sq = m * m / 0x4000_0000_0000_0000;
        let half = pow2((bits - 1) as nat) as int;
        lemma_pow2_unfold(bits);
        lemma_pow2_pos((bits - 1) as nat);
        if sq >= 0x8000_0000_0000_0000 {
            lemma_digits_range(sq / 2, (bits - 1) as nat, 2 * acc + 1);
        } else {
            lemma_digits_range(sq, (bits - 1) as nat, 2 * acc);
        }
        assert(acc * (2 * half) == (2 * acc) * half) by (nonlinear_arith);
        assert((acc + 1) * (2 * half) == (2 * acc + 2) * half) by (nonlinear_arith);
        assert((2 * acc) * half <= (2 * acc + 1) * half <= (2 * acc + 2) * half)
            by (nonlinear_arith)
            requires
                half > 0,
        ;
    }
}

/// The digits of a larger number are no less.
proof fn lemma_digits_monotone(a: int, b: int, bits: nat, acc: int)
    requires
        0 <= a <= b,
    ensures
        log2_digits(a, bits, acc) <= log2_digits(b, bits, acc),
    decreases bits,
{
    if bits > 0 {
        let low = a * a / 0x4000_0000_0000_0000;
        let high = b * b / 0x4000_0000_0000_0000;
        assert(0 <= a * a <= b * b) by (nonlinear_arith)
            requires
                0 <= a <= b,
        ;
        let rest = (bits - 1) as nat;
        if low >= 0x8000_0000_0000_0000 {
            lemma_digits_monotone(low / 2, high / 2, rest, 2 * acc + 1);
        } else if high >= 0x8000_0000_0000_0000 {
            lemma_digits_range(low, rest, 2 * acc);
            lemma_digits_range(high / 2, rest, 2 * acc + 1);
        } else {
            lemma_digits_monotone(low, high, rest, 2 * acc);
        }
    }
}

/// Doubling keeps the product with the power that is left, and ends between two
/// neighbouring powers.
proof fn lemma_normalized(m: int, e: int)
    requires
        1 <= m < 0x8000_0000_0000_0000,
        0 <= e <= 62,
        m * pow2(e as nat) >= 0x4000_0000_0000_0000,
    ensures
        ({
            let (k, f) = normalized(m, e);
            &&& 0 <= f <= e
            &&& 0x4000_0000_0000_0000 <= k < 0x8000_0000_0000_0000
            &&& k == m * pow2((e - f) as nat)
        }),
    decreases e,
{
    lemma2_to64();
    if m < 0x4000_0000_0000_0000 && e > 0 {
        lemma_pow2_unfold(e as nat);
        let half = pow2((e - 1) as nat) as int;
        assert((2 * m) * half == m * (2 * half)) by (nonlinear_arith);
        lemma_normalized(2 * m, e - 1);
        let f = normalized(2 * m, e - 1).1;
        lemma_pow2_unfold((e - f) as nat);
        let rest = pow2((e - 1 - f) as nat) as int;
        assert((2 * m) * rest == m * (2 * rest)) by (nonlinear_arith);
    } else {
        assert(m * pow2(0) == m) by (nonlinear_arith)
            requires
                pow2(0) == 1,
        ;
    }
}

/// Of two numbers, the larger one is normalized to the larger one, or is further
/// from 0 by a factor of two.
proof fn lemma_normalized_monotone(a: int, b: int, e: int)
    requires
        0 < a <= b,
        e >= 0,
    ensures
        ({
            let (ka, fa) = normalized(a, e);
            let (kb, fb) = normalized(b, e);
            fa < fb || (fa == fb && 0 < ka <= kb)
        }),
    decreases e,
{
    if a < 0x4000_0000_0000_0000 && e > 0 {
        if b < 0x4000_0000_0000_0000 {
            lemma_normalized_monotone(2 * a, 2 * b, e - 1);
        } else {
            lemma_normalized_falls(2 * a, e - 1);
        }
    }
}

proof fn lemma_normalized_falls(m: int, e: int)
    ensures
        normalized(m, e).1 <= e,
    decreases e,
{
    if m < 0x4000_0000_0000_0000 && m > 0 && e > 0 {
        lemma_normalized_falls(2 * m, e - 1);
    }
}

/// The whole part of the logarithm of `n` is `e`, where 2 to the power of `e` is
/// the largest power of two that is at most `n`.
pub proof fn law_log2_whole_part(n: int, e: nat)
    requires
        n < 0x8000_0000_0000_0000,
        pow2(e) <= n < pow2(e + 1),
    ensures
        log2_fixed(n) / 0x100_0000_0000 == e,
{
    lemma2_to64();
    lemma2_to64_rest();
    lemma_pow2_pos(e);
    assert(n * pow2(62) >= 0x4000_0000_0000_0000) by (nonlinear_arith)
        requires
            n >= 1,
            pow2(62) == 0x4000_0000_0000_0000,
    ;
    lemma_normalized(n, 62);
    let (k, f) = normalized(n, 62);
    let scale = pow2((62 - f) as nat) as int;
    lemma_pow2_pos((62 - f) as nat);
    lemma_pow2_adds(e, (62 - f) as nat);
    lemma_pow2_adds(e + 1, (62 - f) as nat);
    assert(pow2(e) * scale <= k) by (nonlinear_arith)
        requires
            k == n * scale,
            pow2(e) <= n,
            scale > 0,
    ;
    assert(k < pow2(e + 1) * scale) by (nonlinear_arith)
        requires
            k == n * scale,
            n < pow2(e + 1),
            scale > 0,
    ;
    if f < e {
        if e + 62 - f > 63 {
            lemma_pow2_strictly_increases(63, (e + 62 - f) as nat);
        }
    } else if e < f {
        if e + 1 + 62 - f < 62 {
            lemma_pow2_strictly_increases((e + 1 + 62 - f) as nat, 62);
        }
    }
    assert(f == e);
    lemma_digits_range(k, 40, f);
    let r = log2_fixed(n);
    assert(f * 0x100_0000_0000 <= r < (f + 1) * 0x100_0000_0000);
}

/// The logarithm of a larger number is no less.
pub proof fn law_log2_monotone(a: int, b: int)
    requires
        0 < a <= b,
    ensures
        0 <= log2_fixed(a) <= log2_fixed(b),
{
    lemma2_to64();
    lemma2_to64_rest();
    lemma_normalized_monotone(a, b, 62);
    lemma_normalized_bottom(a, 62);
    let (ka, fa) = normalized(a, 62);
    let (kb, fb) = normalized(b, 62);
    lemma_digits_range(ka, 40, fa);
    lemma_digits_range(kb, 40, fb);
    assert(fa * 0x100_0000_0000 >= 0);
    if fa == fb {
        lemma_digits_monotone(ka, kb, 40, fa);
    } else {
        assert((fa + 1) * 0x100_0000_0000 <= fb * 0x100_0000_0000);
    }
}

proof fn lemma_normalized_bottom(m: int, e: int)
    requires
        e >= 0,
    ensures
        normalized(m, e).1 >= 0,
    decreases e,
{
    if m < 0x4000_0000_0000_0000 && m > 0 && e > 0 {
        lemma_normalized_bottom(2 * m, e - 1);
    }
}

/// The digits come on top of the whole part.
proof fn lemma_digits_shift(m: int, bits: nat, acc: int)
    ensures
        log2_digits(m, bits, acc) == acc * pow2(bits) + log2_digits(m, bits, 0),
    decreases bits,
{
    if bits == 0 {
        lemma2_to64();
    } else {
        let sq = m * m / 0x4000_0000_0000_0000;
        let rest = (bits - 1) as nat;
        let half = pow2(rest) as int;
        lemma_pow2_unfold(bits);
        assert(acc * (2 * half) == (2 * acc) * half) by (nonlinear_arith);
        assert((2 * acc + 1) * half == (2 * acc) * half + half) by (nonlinear_arith);
        if sq >= 0x8000_0000_0000_0000 {
            lemma_digits_shift(sq / 2, rest, 2 * acc + 1);
            lemma_digits_shift(sq / 2, rest, 1);
        } else {
            lemma_digits_shift(sq, rest, 2 * acc);
        }
    }
}

/// Powers grow with the base.
proof fn lemma_pow_base(a: int, b: int, e: nat)
    requires
        0 <= a <= b,
    ensures
        0 <= pow(a, e) <= pow(b, e),
    decreases e,
{
    reveal(pow);
    if e > 0 {
        lemma_pow_base(a, b, (e - 1) as nat);
        let (x, y) = (pow(a, (e - 1) as nat), pow(b, (e - 1) as nat));
        assert(0 <= a * x <= b * y) by (nonlinear_arith)
            requires
                0 <= a <= b,
                0 <= x <= y,
        ;
    }
}

/// One digit: the square of `m`, halved where it reaches 2, lies within a factor
/// of what is kept of it.
proof fn lemma_one_digit(m: int, kept: int, c: int)
    requires
        0x4000_0000_0000_0000 <= m < 0x8000_0000_0000_0000,
        ({
            let sq = m * m / 0x4000_0000_0000_0000;
            if sq >= 0x8000_0000_0000_0000 {
                kept == sq / 2 && c == 2
            } else {
                kept == sq && c == 1
            }
        }),
    ensures
        0x4000_0000_0000_0000 <= kept < 0x8000_0000_0000_0000,
        c * kept * 0x4000_0000_0000_0000 <= m * m <= c * kept * 0x4000_0000_0000_0001,
{
    assert(0x4000_0000_0000_0000 * 0x4000_0000_0000_0000 <= m * m < 0x8000_0000_0000_0000
        * 0x8000_0000_0000_0000) by (nonlinear_arith)
        requires
            0x4000_0000_0000_0000 <= m < 0x8000_0000_0000_0000,
    ;
}

/// The power of a product of three, and of a square.
proof fn lemma_pow_split(c: int, a: int, b: int, m: int, e: nat)
    ensures
        pow(c * a * b, e) == pow(c, e) * pow(a, e) * pow(b, e),
        pow(m * m, e) == pow(m, 2 * e),
{
    lemma_pow_distributes(c * a, b, e);
    lemma_pow_distributes(c, a, e);
    lemma_pow_distributes(m, m, e);
    lemma_pow_adds(m, e, e);
}

/// Of `bits` digits of the logarithm of `m`, none is too large.
proof fn lemma_digits_below(m: int, bits: nat)
    requires
        0x4000_0000_0000_0000 <= m < 0x8000_0000_0000_0000,
    ensures
        log2_digits(m, bits, 0) >= 0,
        pow2(log2_digits(m, bits, 0) as nat) * pow(0x4000_0000_0000_0000, pow2(bits)) <= pow(
            m,
            pow2(bits),
        ),
    decreases bits,
{
    let s: int = 0x4000_0000_0000_0000;
    lemma_digits_range(m, bits, 0);
    lemma2_to64();
    if bits == 0 {
        lemma_pow1(s);
        lemma_pow1(m);
    } else {
        let sq = m * m / s;
        let rest = (bits - 1) as nat;
        let half = pow2(rest);
        let c: int = if sq >= 2 * s {
            2
        } else {
            1
        };
        let kept = if sq >= 2 * s {
            sq / 2
        } else {
            sq
        };
        lemma_one_digit(m, kept, c);
        lemma_pow2_unfold(bits);
        lemma_digits_below(kept, rest);
        lemma_digits_shift(kept, rest, 1);
        lemma_digits_range(kept, rest, 0);
        let d = log2_digits(kept, rest, 0) as nat;
        lemma_pow_base(c * kept * s, m * m, half);
        lemma_pow_split(c, kept, s, m, half);
        lemma_pow_adds(s, half, half);
        lemma_step_power(c, half, d);
        let (u, v, w, x) = (pow(c, half), pow(kept, half), pow(s, half), pow2(d) as int);
        lemma_pow_positive(c, half);
        lemma_pow_positive(s, half);
        assert(u * x * (w * w) <= u * v * w) by (nonlinear_arith)
            requires
                x * w <= v,
                u > 0,
                w > 0,
        ;
    }
}

/// A digit of 1 doubles as often as it counts.
proof fn lemma_step_power(c: int, half: nat, d: nat)
    requires
        c == 1 || c == 2,
    ensures
        pow(c, half) * pow2(d) == pow2(
            if c == 2 {
                half + d
            } else {
                d
            },
        ),
{
    if c == 2 {
        lemma_pow2(half);
        lemma_pow2_adds(half, d);
    } else {
        lemma1_pow(half);
    }
}

/// Of `bits` digits of the logarithm of `m`, none is too small but for what is
/// lost by rounding.
proof fn lemma_digits_above(m: int, bits: nat)
    requires
        0x4000_0000_0000_0000 <= m < 0x8000_0000_0000_0000,
    ensures
        log2_digits(m, bits, 0) >= 0,
        pow(m, pow2(bits)) < pow2((log2_digits(m, bits, 0) + 1) as nat) * pow(
            0x4000_0000_0000_0001,
            pow2(bits),
        ),
    decreases bits,
{
    let s: int = 0x4000_0000_0000_0000;
    let t: int = 0x4000_0000_0000_0001;
    lemma_digits_range(m, bits, 0);
    lemma2_to64();
    if bits == 0 {
        lemma_pow1(t);
        lemma_pow1(m);
    } else {
        let sq = m * m / s;
        let rest = (bits - 1) as nat;
        let half = pow2(rest);
        let c: int = if sq >= 2 * s {
            2
        } else {
            1
        };
        let kept = if sq >= 2 * s {
            sq / 2
        } else {
            sq
        };
        lemma_one_digit(m, kept, c);
        lemma_pow2_unfold(bits);
        lemma_digits_above(kept, rest);
        lemma_digits_shift(kept, rest, 1);
        lemma_digits_range(kept, rest, 0);
        let d = (log2_digits(kept, rest, 0) + 1) as nat;
        lemma_pow_base(m * m, c * kept * t, half);
        lemma_pow_split(c, kept, t, m, half);
        lemma_pow_adds(t, half, half);
        lemma_step_power(c, half, d);
        let (u, v, w, x) = (pow(c, half), pow(kept, half), pow(t, half), pow2(d) as int);
        lemma_pow_positive(c, half);
        lemma_pow_positive(t, half);
        assert(u * v * w < u * x * (w * w)) by (nonlinear_arith)
            requires
                v < x * w,
                u > 0,
                w > 0,
        ;
    }
}

/// What is lost by rounding stays below a factor: adding 1 to a base that is larger
/// than the exponent.
proof fn lemma_rounding(s: int, e: nat)
    requires
        s > 0,
        e <= s,
    ensures
        pow(s + 1, e) * (s - e) <= s * pow(s, e),
    decreases e,
{
    reveal(pow);
    if e > 0 {
        lemma_rounding(s, (e - 1) as nat);
        let (x, y) = (pow(s + 1, (e - 1) as nat), pow(s, (e - 1) as nat));
        lemma_pow_positive(s + 1, (e - 1) as nat);
        assert((s + 1) * (s - e) <= s * (s - (e - 1))) by (nonlinear_arith)
            requires
                s > 0,
                e >= 1,
        ;
        assert(((s + 1) * x) * (s - e) == x * ((s + 1) * (s - e))) by (nonlinear_arith);
        assert(x * ((s + 1) * (s - e)) <= x * (s * (s - (e - 1)))) by (nonlinear_arith)
            requires
                x > 0,
                (s + 1) * (s - e) <= s * (s - (e - 1)),
        ;
        assert(x * (s * (s - (e - 1))) == s * (x * (s - (e - 1)))) by (nonlinear_arith);
        assert(s * (x * (s - (e - 1))) <= s * (s * y)) by (nonlinear_arith)
            requires
                s > 0,
                x * (s - (e - 1)) <= s * y,
        ;
    }
}

/// The logarithm is exact to about the last of its 40 binary digits behind the
/// point: as a power of two it does not exceed `n`, and two units more exceed it,
/// where both are raised to the power by which the logarithm is scaled.
pub proof fn law_log2_exact(n: int)
    requires
        1 <= n < 0x8000_0000_0000_0000,
    ensures
        log2_fixed(n) >= 0,
        pow2(log2_fixed(n) as nat) <= pow(n, 0x100_0000_0000) < pow2((log2_fixed(n) + 2) as nat),
{
    let s: int = 0x4000_0000_0000_0000;
    lemma2_to64();
    lemma2_to64_rest();
    assert(n * pow2(62) >= 0x4000_0000_0000_0000) by (nonlinear_arith)
        requires
            n >= 1,
            pow2(62) == 0x4000_0000_0000_0000,
    ;
    lemma_normalized(n, 62);
    let (k, f) = normalized(n, 62);
    let big = pow2(40);
    let up = (62 - f) as nat;
    lemma_digits_below(k, 40);
    lemma_digits_above(k, 40);
    lemma_digits_shift(k, 40, f);
    let d = log2_digits(k, 40, 0) as nat;
    let r = log2_fixed(n) as nat;
    lemma_cancel(n, k, s, up, big, d, r);
}

/// Take the common power of two away on both sides.
proof fn lemma_cancel(n: int, k: int, s: int, up: nat, big: nat, d: nat, r: nat)
    requires
        n >= 1,
        s == pow2(62),
        up <= 62,
        k == n * pow2(up),
        r == (62 - up) * big + d,
        2 * big <= s,
        pow2(d) * pow(s, big) <= pow(k, big),
        pow(k, big) < pow2(d + 1) * pow(s + 1, big),
    ensures
        pow2(r) <= pow(n, big) < pow2(r + 2),
{
    let q = pow(n, big);
    let z = pow2(up * big) as int;
    lemma_pow2_pos(62);
    lemma_pow_distributes(n, pow2(up) as int, big);
    lemma_pow2(up);
    lemma_pow_multiplies(2, up, big);
    lemma_pow2(up * big);
    lemma_pow2_pos(up * big);
    assert(pow(k, big) == q * z);
    lemma_pow2(62);
    lemma_pow_multiplies(2, 62, big);
    lemma_pow2(62 * big);
    assert(pow(s, big) == pow2(62 * big));
    assert(d + 62 * big == r + up * big) by (nonlinear_arith)
        requires
            r == (62 - up) * big + d,
            up <= 62,
    ;
    lemma_pow2_adds(d, 62 * big);
    lemma_pow2_adds(r, up * big);
    assert(pow2(r) <= q) by (nonlinear_arith)
        requires
            pow2(r) * z <= q * z,
            z > 0,
    ;
    lemma_rounding(s, big);
    let (x, y) = (pow(s + 1, big), pow(s, big));
    lemma_pow_positive(s + 1, big);
    assert(x <= 2 * y) by (nonlinear_arith)
        requires
            x * (s - big) <= s * y,
            2 * big <= s,
            s > 0,
            x > 0,
    ;
    lemma_pow2_pos(d + 1);
    assert(pow2(d + 1) * x <= pow2(d + 1) * (2 * y)) by (nonlinear_arith)
        requires
            x <= 2 * y,
            pow2(d + 1) > 0,
    ;
    assert(pow2(d + 1) * (2 * y) == (2 * pow2(d + 1)) * y) by (nonlinear_arith);
    lemma_pow2_unfold(d + 2);
    lemma_pow2_adds(d + 2, 62 * big);
    lemma_pow2_adds(r + 2, up * big);
    assert(d + 2 + 62 * big == r + 2 + up * big);
    assert(q < pow2(r + 2)) by (nonlinear_arith)
        requires
            q * z < pow2(r + 2) * z,
            z > 0,
    ;
}

/// The binary logarithm of `n`, scaled by 2 to the 40th power.
pub(crate) fn log2_of(n: u64) -> (r: u64)
    requires
        1 <= n <= 0x1_0000_0000,
    ensures
        r == log2_fixed(n as int),
        r <= 0x4000_0000_0000,
{
    let mut m: u128 = n as u128;
    let mut e: u64 = 62;
    while m < 0x4000_0000_0000_0000 && e > 0
        invariant
            1 <= m < 0x8000_0000_0000_0000,
            e <= 62,
            normalized(n as int, 62) == normalized(m as int, e as int),
        decreases e,
    {
        m = 2 * m;
        e -= 1;
    }
    let mut acc: u64 = e;
    let mut bits: u64 = 40;
    let ghost mut cap: int = 63;
    proof {
        lemma2_to64();
        lemma2_to64_rest();
        assert(cap * pow2(40) == 63 * 0x100_0000_0000);
    }
    while bits > 0
        invariant
            bits <= 40,
            m < 0x8000_0000_0000_0000,
            log2_fixed(n as int) == log2_digits(m as int, bits as nat, acc as int),
            acc < cap,
            cap * pow2(bits as nat) == 63 * 0x100_0000_0000,
        decreases bits,
    {
        proof {
            assert(0 <= m * m < 0x4000_0000_0000_0000_0000_0000_0000_0000) by (nonlinear_arith)
                requires
                    0 <= m < 0x8000_0000_0000_0000,
            ;
            let half = pow2((bits - 1) as nat) as int;
            lemma_pow2_unfold(bits as nat);
            lemma_pow2_pos((bits - 1) as nat);
            assert((2 * cap) * half == cap * (2 * half)) by (nonlinear_arith);
            assert(2 * cap <= 63 * 0x100_0000_0000) by (nonlinear_arith)
                requires
                    (2 * cap) * half == 63 * 0x100_0000_0000,
                    half >= 1,
                    cap >= 0,
            ;
            cap = 2 * cap;
        }
        let sq: u128 = m * m / 0x4000_0000_0000_0000;
        if sq >= 0x8000_0000_0000_0000 {
            m = sq / 2;
            acc = 2 * acc + 1;
        } else {
            m = sq;
            acc = 2 * acc;
        }
        bits -= 1;
    }
    proof {
        lemma2_to64();
        let one = pow2(0) as int;
        assert(bits == 0);
        assert(cap * one == 63 * 0x100_0000_0000);
        assert(cap == 63 * 0x100_0000_0000) by (nonlinear_arith)
            requires
                one == 1,
                cap * one == 63 * 0x100_0000_0000,
        ;
    }
    acc
}

} // verus!
