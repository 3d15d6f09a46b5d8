//! Fixed-point numbers.
//!
//! Every quantity of the simulation (a coordinate in pixels, a colour channel,
//! a radius, a wind component, a random draw) is an `i64` that counts
//! millionths: the number `1.0` is [`UNIT`], `2.5` is `2_500_000`. Sums
//! saturate at the ends of `i64` and products are truncated toward zero, so
//! every operation is total.

use vstd::arithmetic::power2::{lemma2_to64, lemma_pow2_strictly_increases, lemma_pow2_unfold, pow2};
use vstd::prelude::*;

verus! {

/// The fixed-point representation of `1.0`.
pub const UNIT: i64 = 1_000_000;

/// The nearest value to `v` that an `i64` can hold.
pub open spec fn sat(v: int) -> int {
    if v < i64::MIN {
        i64::MIN as int
    } else if v > i64::MAX {
        i64::MAX as int
    } else {
        v
    }
}

/// The quotient of `n` by a positive `d`, rounded toward zero.
pub open spec fn trunc_div(n: int, d: int) -> int
    recommends
        d > 0,
{
    if n >= 0 {
        n / d
    } else {
        -((-n) / d)
    }
}

/// The fixed-point product of `a` and `b`, before saturation.
pub open spec fn product(a: int, b: int) -> int {
    trunc_div(a * b, UNIT as int)
}

/// `value` bounded to the range from `min` to `max`.
pub open spec fn clamped(value: int, min: int, max: int) -> int {
    if value < min {
        min
    } else if value > max {
        max
    } else {
        value
    }
}

/// The base-2 logarithm of `n`, rounded down; 0 for `n <= 1`.
pub open spec fn log2_floor(n: nat) -> nat
    decreases n,
{
    if n <= 1 {
        0
    } else {
        1 + log2_floor(n / 2)
    }
}

/// Saturating sum.
pub fn sat_add(a: i64, b: i64) -> (r: i64)
    ensures
        r == sat(a + b),
{
    let s: i128 = a as i128 + b as i128;
    if s < i64::MIN as i128 {
        i64::MIN
    } else if s > i64::MAX as i128 {
        i64::MAX
    } else {
        s as i64
    }
}

/// Saturating difference.
pub fn sat_sub(a: i64, b: i64) -> (r: i64)
    ensures
        r == sat(a - b),
{
    let s: i128 = a as i128 - b as i128;
    if s < i64::MIN as i128 {
        i64::MIN
    } else if s > i64::MAX as i128 {
        i64::MAX
    } else {
        s as i64
    }
}

/// Half of `v`, rounded toward zero.
pub fn half(v: i64) -> (r: i64)
    ensures
        r == trunc_div(v as int, 2),
{
    v / 2
}

/// Saturating fixed-point product: `a * b / UNIT`, rounded toward zero.
pub fn fx_mul(a: i64, b: i64) -> (r: i64)
    ensures
        r == sat(product(a as int, b as int)),
{
    assert(-0x4000_0000_0000_0000_0000_0000_0000_0000 <= a * b
        <= 0x4000_0000_0000_0000_0000_0000_0000_0000) by (nonlinear_arith)
        requires
            -0x8000_0000_0000_0000 <= a <= 0x8000_0000_0000_0000,
            -0x8000_0000_0000_0000 <= b <= 0x8000_0000_0000_0000,
    ;
    let p: i128 = (a as i128) * (b as i128);
    let q: i128 = p / (UNIT as i128);
    if q < i64::MIN as i128 {
        i64::MIN
    } else if q > i64::MAX as i128 {
        i64::MAX
    } else {
        q as i64
    }
}

/// Bounds `value` to the range from `min` to `max`. Where `min > max` the
/// lower bound is tested first.
pub fn clamp(value: i64, min: i64, max: i64) -> (r: i64)
    ensures
        r == clamped(value as int, min as int, max as int),
{
    if value < min {
        min
    } else if value > max {
        max
    } else {
        value
    }
}

/// The base-2 logarithm of a positive `n`, rounded down.
pub fn floor_log2(n: u64) -> (r: u32)
    requires
        n > 0,
    ensures
        r == log2_floor(n as nat),
        r < 64,
{
    let mut m: u64 = n;
    let mut r: u32 = 0;
    proof {
        lemma2_to64();
    }
    while m > 1
        invariant
            m > 0,
            log2_floor(n as nat) == r + log2_floor(m as nat),
            m * pow2(r as nat) <= n,
            r < 64,
        decreases m,
    {
        proof {
            let k = r as nat;
            lemma_pow2_unfold(k + 1);
            assert((m / 2) * pow2(k + 1) <= m * pow2(k)) by (nonlinear_arith)
                requires
                    pow2(k + 1) == 2 * pow2(k),
                    m >= 0,
            ;
            if r >= 63 {
                lemma2_to64();
                if k + 1 > 64 {
                    lemma_pow2_strictly_increases(64, k + 1);
                }
                assert((m / 2) * pow2(k + 1) >= pow2(k + 1)) by (nonlinear_arith)
                    requires
                        m / 2 >= 1,
                ;
            }
        }
        m = m / 2;
        r = r + 1;
    }
    r
}

/// A positive `n` lies between two to the power of its logarithm and twice
/// that power.
pub proof fn lemma_log2_floor_brackets(n: nat)
    requires
        n > 0,
    ensures
        pow2(log2_floor(n)) <= n < 2 * pow2(log2_floor(n)),
    decreases n,
{
    if n > 1 {
        lemma_log2_floor_brackets(n / 2);
        lemma_pow2_unfold(log2_floor(n));
    } else {
        lemma2_to64();
    }
}

} // verus!
