//! Fixed-point arithmetic helpers: the scale constants used throughout the
//! crate, an integer square root, and rounding division for density scaling.

use vstd::prelude::*;

verus! {

/// Fixed-point scale: all lengths, areas and statistical values carry three
/// decimal places, so `1000` stands for one unit.
pub const MILLI: i64 = 1000;

/// Scale used for the trigonometric constants of the hexagonal lattice.
pub const MICRO: i64 = 1_000_000;

/// sqrt(3)/2 at `MICRO` scale: the horizontal spacing factor of a hexagonal
/// row relative to the sampling radius.
pub const HEX_SIDE_MICRO: i64 = 866_025;

/// pi at `MICRO` scale.
pub const PI_MICRO: u64 = 3_141_593;

/// Upper bound on every doubled polygon area handled by the crate; chosen so
/// that density scaling by an area ratio cannot overflow 128-bit arithmetic.
pub const AREA2_LIMIT: u128 = 20_000_000_000_000_000_000_000_000_000;

/// A product of two factors of magnitude at most `m` has magnitude at most
/// `m * m`.
pub proof fn lemma_mul_bounds(u: int, v: int, m: int)
    requires
        0 <= m,
        -m <= u <= m,
        -m <= v <= m,
    ensures
        -(m * m) <= u * v <= m * m,
{
    assert(-(m * m) <= u * v <= m * m) by (nonlinear_arith)
        requires
            0 <= m,
            -m <= u <= m,
            -m <= v <= m,
    ;
}

/// Multiplying both sides of `a <= b` by a non-negative factor keeps the
/// order.
pub proof fn lemma_mul_le(a: int, b: int, t: int)
    requires
        a <= b,
        0 <= t,
    ensures
        a * t <= b * t,
{
    assert(a * t <= b * t) by (nonlinear_arith)
        requires
            a <= b,
            0 <= t,
    ;
}

/// A product is bounded by the product of the factors' bounds.
pub proof fn lemma_mul_bounds2(u: int, v: int, mu: int, mv: int)
    requires
        0 <= mu,
        0 <= mv,
        -mu <= u <= mu,
        -mv <= v <= mv,
    ensures
        -(mu * mv) <= u * v <= mu * mv,
{
    assert(-(mu * mv) <= u * v <= mu * mv) by (nonlinear_arith)
        requires
            0 <= mu,
            0 <= mv,
            -mu <= u <= mu,
            -mv <= v <= mv,
    ;
}

/// Scaling down by a factor of at most one (as a `f / scale` ratio) cannot
/// grow a non-negative value.
pub proof fn lemma_scale_le(v: int, f: int, scale: int)
    requires
        0 <= v,
        0 <= f <= scale,
        1 <= scale,
    ensures
        0 <= v * f / scale <= v,
{
    assert(0 <= v * f / scale <= v) by (nonlinear_arith)
        requires
            0 <= v,
            0 <= f <= scale,
            1 <= scale,
    ;
}

/// Scaling a non-negative value by a ratio of at most `k` keeps it under
/// `k` times the value.
pub proof fn lemma_scale_le_k(v: int, f: int, scale: int, k: int)
    requires
        0 <= v,
        0 <= k,
        0 <= f <= k * scale,
        1 <= scale,
    ensures
        0 <= f * v / scale <= k * v,
{
    assert(0 <= f * v / scale <= k * v) by (nonlinear_arith)
        requires
            0 <= v,
            0 <= k,
            0 <= f <= k * scale,
            1 <= scale,
    ;
}

/// A quotient of non-negative values is at most the dividend.
pub proof fn lemma_div_le(a: int, d: int)
    requires
        0 <= a,
        1 <= d,
    ensures
        0 <= a / d <= a,
{
    assert(0 <= a / d <= a) by (nonlinear_arith)
        requires
            0 <= a,
            1 <= d,
    ;
}

/// `r` is the integer square root of `x`.
pub open spec fn is_sqrt(r: nat, x: nat) -> bool {
    r * r <= x && x < (r + 1) * (r + 1)
}

/// Integer square root by bisection.
pub fn isqrt_u128(x: u128) -> (r: u128)
    ensures
        is_sqrt(r as nat, x as nat),
{
    let mut lo: u128 = 0;
    let mut hi: u128 = u64::MAX as u128;
    proof {
        assert((u64::MAX as int + 1) * (u64::MAX as int + 1) > u128::MAX) by (nonlinear_arith);
    }
    while lo < hi
        invariant
            lo <= hi,
            hi <= u64::MAX,
            lo * lo <= x,
            x < (hi + 1) * (hi + 1),
        decreases hi - lo,
    {
        let mid = lo + (hi - lo + 1) / 2;
        assert(lo < mid <= hi);
        if mid <= x / mid {
            proof {
                assert(mid * mid <= x) by (nonlinear_arith)
                    requires mid >= 1 && mid <= x / mid && x / mid == x as int / mid as int
                ;
            }
            lo = mid;
        } else {
            proof {
                assert(x < mid * mid) by (nonlinear_arith)
                    requires mid >= 1 && mid > x / mid && x / mid == x as int / mid as int
                ;
            }
            hi = mid - 1;
        }
    }
    lo
}

/// Rounded division `round(a / b)`, rounding halves up.
pub open spec fn spec_round_div(a: int, b: int) -> int
    recommends
        b > 0,
{
    (2 * a + b) / (2 * b)
}

/// Scales a stem-count target `n` by the ratio `num / den`, rounding to the
/// nearest integer (halves up).  This is how a stratum's target is reduced
/// when its stand is clipped to a fraction of its original area.
pub fn scale_by_ratio(n: u32, num: u128, den: u128) -> (r: u32)
    requires
        0 < den,
        num <= den,
        den <= AREA2_LIMIT,
    ensures
        r == spec_round_div(n as int * num as int, den as int),
        r <= n,
{
    proof {
        assert(2 * (n as int) * (num as int) + den as int <= u128::MAX) by (nonlinear_arith)
            requires
                n <= u32::MAX,
                num <= den,
                0 < den <= AREA2_LIMIT as int,
        ;
    }
    let wide: u128 = 2 * (n as u128) * num + den;
    let q: u128 = wide / (2 * den);
    proof {
        assert(q <= n && q == spec_round_div(n as int * num as int, den as int)) by (nonlinear_arith)
            requires
                0 < den,
                num <= den,
                q == (2 * (n as int) * (num as int) + den as int) / (2 * den as int),
        ;
    }
    q as u32
}

} // verus!
