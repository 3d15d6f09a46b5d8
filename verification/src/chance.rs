//! The chance that a bot mutates.
//!
//! In a scan that began with `n` bots the chance is one over the base-2
//! logarithm of `n`, and a bot mutates when a draw from `[0, 1)` is below it.
//! The draw `f / UNIT` is below `1 / log2(n)` exactly when `n` to the power
//! `f` is below two to the power `UNIT`, and this is how the library states
//! and decides it: first with bounds on the logarithm, which settle all but
//! the closest calls, and then exactly, with long multiplication.
//!
//! One bot alone has the logarithm 0 and a chance without bound: it always
//! mutates.

use vstd::arithmetic::power::{
    lemma1_pow,
    lemma_pow0,
    lemma_pow1,
    lemma_pow_adds,
    lemma_pow_increases,
    lemma_pow_multiplies,
    lemma_pow_positive,
    pow,
};
use vstd::arithmetic::power2::{
    lemma2_to64,
    lemma2_to64_rest,
    lemma_pow2,
    lemma_pow2_adds,
    lemma_pow2_pos,
    lemma_pow2_strictly_increases,
    lemma_pow2_unfold,
    pow2,
};
use vstd::prelude::*;
use crate::fixed::{floor_log2, lemma_log2_floor_brackets, log2_floor, UNIT};

verus! {

/// The number of squarings that bound the logarithm.
pub const SQUARINGS: u32 = 40;

/// Two to the power [`SQUARINGS`].
pub const SCALE: u128 = 0x100_0000_0000;

/// The number of 64-bit digits of two to the power [`UNIT`].
pub const UNIT_DIGITS: usize = 15_625;

/// Whether a draw of `fraction` lets a bot mutate in a scan that began with
/// `n` bots: whether `fraction / UNIT` is below `1 / log2(n)`.
pub open spec fn mutation_allowed(n: nat, fraction: int) -> bool {
    fraction <= 0 || pow(n as int, fraction as nat) < pow2(UNIT as nat)
}

/// Whether a scan that began with `n` bots copies every bot it keeps, as
/// long as the cap allows: the chance is 1 or more.
pub open spec fn mutation_certain(n: nat) -> bool {
    n <= 2
}

/// The number that the digits `s` stand for, the lowest digit first, in
/// base two to the power 64.
pub open spec fn value(s: Seq<u64>) -> nat
    decreases s.len(),
{
    if s.len() == 0 {
        0
    } else {
        (value(s.drop_last()) + s.last() * pow2((64 * (s.len() - 1)) as nat)) as nat
    }
}

/// A power does not fall when its base rises.
pub proof fn lemma_pow_base_increases(a: nat, b: nat, e: nat)
    requires
        a <= b,
    ensures
        0 <= pow(a as int, e) <= pow(b as int, e),
    decreases e,
{
    reveal(pow);
    if e > 0 {
        lemma_pow_base_increases(a, b, (e - 1) as nat);
        let x = pow(a as int, (e - 1) as nat);
        let y = pow(b as int, (e - 1) as nat);
        assert(0 <= a * x <= b * y) by (nonlinear_arith)
            requires
                0 <= a <= b,
                0 <= x <= y,
        ;
    }
}

/// A power with a positive exponent rises with its base.
pub proof fn lemma_pow_base_strictly_increases(a: nat, b: nat, e: nat)
    requires
        a < b,
        e > 0,
    ensures
        pow(a as int, e) < pow(b as int, e),
{
    reveal(pow);
    lemma_pow_base_increases(a, b, (e - 1) as nat);
    lemma_pow_positive(b as int, (e - 1) as nat);
    let x = pow(a as int, (e - 1) as nat);
    let y = pow(b as int, (e - 1) as nat);
    assert(a * x < b * y) by (nonlinear_arith)
        requires
            0 <= a < b,
            0 <= x <= y,
            0 < y,
    ;
}

/// A lower bound on the logarithm refuses a draw: where two to the power
/// `a` is at most `n` to the power `e`, and `f * a` is at least
/// `UNIT * e`, `n` to the power `f` is not below two to the power `UNIT`.
pub proof fn lemma_refused_by_lower_bound(n: nat, f: nat, e: nat, a: nat)
    requires
        e > 0,
        pow2(a) <= pow(n as int, e),
        f * a >= UNIT * e,
    ensures
        pow(n as int, f) >= pow2(UNIT as nat),
{
    let u = UNIT as nat;
    lemma_pow_base_increases(n, n, f);
    if pow(n as int, f) < pow2(u) {
        let x = pow(n as int, f) as nat;
        lemma_pow_base_strictly_increases(x, pow2(u), e);
        lemma_pow_multiplies(n as int, f, e);
        lemma_pow2(u);
        lemma_pow_multiplies(2, u, e);
        // n^(f e) < 2^(u e)
        lemma_pow_base_increases(n, n, e);
        lemma_pow_base_increases(pow2(a), pow(n as int, e) as nat, f);
        lemma_pow_multiplies(n as int, e, f);
        lemma_pow2(a);
        lemma_pow_multiplies(2, a, f);
        // 2^(a f) <= n^(e f)
        assert(f * e == e * f) by (nonlinear_arith);
        assert(a * f == f * a) by (nonlinear_arith);
        assert(u * e == UNIT * e);
        lemma_pow_increases(2, u * e, a * f);
        assert(false);
    }
}

/// An upper bound on the logarithm allows a draw: where `n` to the power
/// `e` is below two to the power `a`, and `f * a` is at most `UNIT * e`,
/// `n` to the power `f` is below two to the power `UNIT`.
pub proof fn lemma_allowed_by_upper_bound(n: nat, f: nat, e: nat, a: nat)
    requires
        f > 0,
        pow(n as int, e) < pow2(a),
        f * a <= UNIT * e,
    ensures
        pow(n as int, f) < pow2(UNIT as nat),
{
    let u = UNIT as nat;
    lemma_pow_base_increases(n, n, f);
    lemma_pow_base_increases(n, n, e);
    if pow(n as int, f) >= pow2(u) {
        let x = pow(n as int, f) as nat;
        lemma_pow_base_increases(pow2(u), x, e);
        lemma_pow_multiplies(n as int, f, e);
        lemma_pow2(u);
        lemma_pow_multiplies(2, u, e);
        // 2^(u e) <= n^(f e)
        lemma_pow_base_strictly_increases(pow(n as int, e) as nat, pow2(a), f);
        lemma_pow_multiplies(n as int, e, f);
        lemma_pow2(a);
        lemma_pow_multiplies(2, a, f);
        // n^(e f) < 2^(a f)
        assert(f * e == e * f) by (nonlinear_arith);
        assert(a * f == f * a) by (nonlinear_arith);
        assert(u * e == UNIT * e);
        lemma_pow_increases(2, a * f, u * e);
        assert(false);
    }
}

/// One bot alone always mutates, and so do two: where the chance is 1 or
/// more, every draw is below it.
pub proof fn lemma_certain_allows(n: nat, fraction: int)
    requires
        mutation_certain(n),
        fraction < UNIT,
    ensures
        mutation_allowed(n, fraction),
{
    if fraction > 0 {
        lemma_pow_base_increases(n, 2, fraction as nat);
        lemma_pow2(fraction as nat);
        lemma_pow2_strictly_increases(fraction as nat, UNIT as nat);
    }
}

/// Where the number of bots is a power of two the chance is one over the
/// exponent: among `2^a` bots a draw `f` is below it exactly when `f * a`
/// is below [`UNIT`].
pub proof fn lemma_chance_of_power_of_two(a: nat, fraction: int)
    ensures
        mutation_allowed(pow2(a), fraction) <==> fraction <= 0 || fraction * a < UNIT,
{
    if fraction > 0 {
        let f = fraction as nat;
        let u = UNIT as nat;
        lemma_pow2(a);
        lemma_pow2(u);
        lemma_pow_multiplies(2, a, f);
        assert(a * f == fraction * a) by (nonlinear_arith)
            requires
                f == fraction,
        ;
        if a * f < u {
            lemma_pow2(a * f);
            lemma_pow2_strictly_increases(a * f, u);
        } else {
            lemma_pow_increases(2, u, a * f);
        }
    }
}

/// Among two bots or more a draw of 1 or more is never below the chance.
pub proof fn lemma_whole_draw_refused(n: nat, fraction: int)
    requires
        n >= 2,
        fraction >= UNIT,
    ensures
        !mutation_allowed(n, fraction),
{
    lemma_pow_base_increases(2, n, fraction as nat);
    lemma_pow2(fraction as nat);
    if fraction > UNIT {
        lemma_pow2_strictly_increases(UNIT as nat, fraction as nat);
    }
}

/// Halves `x` until it is below two to the power 64, rounding down: the
/// result times two to the power of the number of halvings is at most `x`.
fn shrink_down(x: u128) -> (r: (u128, u128))
    ensures
        r.1 <= 128,
        r.0 * pow2(r.1 as nat) <= x,
{
    let mut m: u128 = x;
    let mut s: u128 = 0;
    proof {
        lemma2_to64();
    }
    while m >= 0x1_0000_0000_0000_0000 && s < 128
        invariant
            s <= 128,
            m * pow2(s as nat) <= x,
        decreases 128 - s,
    {
        proof {
            lemma_pow2_unfold((s + 1) as nat);
            assert((m / 2) * (2 * pow2(s as nat)) <= m * pow2(s as nat)) by (nonlinear_arith);
        }
        m = m / 2;
        s = s + 1;
    }
    (m, s)
}

/// Halves `x` until it is below two to the power 64, rounding up: the
/// result times two to the power of the number of halvings is at least
/// `x`.
fn shrink_up(x: u128) -> (r: (u128, u128))
    ensures
        r.1 <= 128,
        r.0 * pow2(r.1 as nat) >= x,
{
    let mut m: u128 = x;
    let mut s: u128 = 0;
    proof {
        lemma2_to64();
    }
    while m >= 0x1_0000_0000_0000_0000 && s < 128
        invariant
            s <= 128,
            m * pow2(s as nat) >= x,
        decreases 128 - s,
    {
        proof {
            lemma_pow2_unfold((s + 1) as nat);
            assert((m / 2 + 1) * (2 * pow2(s as nat)) >= m * pow2(s as nat)) by (nonlinear_arith);
        }
        m = m / 2 + 1;
        s = s + 1;
    }
    (m, s)
}

/// Bounds on [`SCALE`] times the logarithm of `n`: two exponents `lower`
/// and `upper` with `2^lower <= n^SCALE < 2^upper`, or nothing where the
/// arithmetic of the bounds runs out of room.
pub fn logarithm_bounds(n: u64) -> (bounds: Option<(u128, u128)>)
    requires
        n > 0,
    ensures
        bounds matches Some((lower, upper)) ==> pow2(lower as nat) <= pow(
            n as int,
            SCALE as nat,
        ) < pow2(upper as nat) && lower <= 0x1_0000_0000_0000_0000 && upper
            <= 0x1_0000_0000_0000_0000,
{
    let mut lo: u128 = n as u128;
    let mut le: u128 = 0;
    let mut hi: u128 = n as u128;
    let mut he: u128 = 0;
    let mut k: u32 = 0;
    proof {
        lemma2_to64();
        lemma2_to64_rest();
        lemma_pow1(n as int);
    }
    while k < SQUARINGS
        invariant
            k <= SQUARINGS,
            0 < lo < 0x1_0000_0000_0000_0000,
            0 < hi < 0x1_0000_0000_0000_0000,
            le + 128 <= 128 * pow2(k as nat),
            he + 128 <= 128 * pow2(k as nat),
            pow2(k as nat) <= 0x100_0000_0000,
            lo * pow2(le as nat) <= pow(n as int, pow2(k as nat)) <= hi * pow2(he as nat),
        decreases SQUARINGS - k,
    {
        assert(lo * lo < 0x1_0000_0000_0000_0000_0000_0000_0000_0000 && hi * hi
            < 0x1_0000_0000_0000_0000_0000_0000_0000_0000) by (nonlinear_arith)
            requires
                0 < lo < 0x1_0000_0000_0000_0000,
                0 < hi < 0x1_0000_0000_0000_0000,
        ;
        let (l2, ls) = shrink_down(lo * lo);
        let (h2, hs) = shrink_up(hi * hi);
        if l2 == 0 || l2 >= 0x1_0000_0000_0000_0000 || h2 == 0 || h2 >= 0x1_0000_0000_0000_0000 {
            return None;
        }
        proof {
            let e = pow2(k as nat);
            let p = pow(n as int, e);
            lemma_pow2_unfold((k + 1) as nat);
            lemma_pow_adds(n as int, e, e);
            assert(pow(n as int, pow2((k + 1) as nat)) == p * p);
            lemma2_to64_rest();
            if k + 1 < 40 {
                lemma_pow2_strictly_increases((k + 1) as nat, 40);
            }
            lemma_pow2_adds(le as nat, le as nat);
            lemma_pow2_adds((2 * le) as nat, ls as nat);
            lemma_pow2_adds(he as nat, he as nat);
            lemma_pow2_adds((2 * he) as nat, hs as nat);
            lemma_scaled_square_below(l2 as nat, pow2(ls as nat), lo as nat, pow2(le as nat), p);
            lemma_scaled_square_above(h2 as nat, pow2(hs as nat), hi as nat, pow2(he as nat), p);
        }
        lo = l2;
        le = 2 * le + ls;
        hi = h2;
        he = 2 * he + hs;
        k = k + 1;
    }
    let lower: u128 = floor_log2(lo as u64) as u128 + le;
    let upper: u128 = floor_log2(hi as u64) as u128 + 1 + he;
    proof {
        let p = pow(n as int, SCALE as nat);
        let a = log2_floor(lo as nat);
        let b = log2_floor(hi as nat);
        lemma_log2_floor_brackets(lo as nat);
        lemma_log2_floor_brackets(hi as nat);
        lemma_pow2_adds(a, le as nat);
        lemma_pow2_adds(b + 1, he as nat);
        lemma_pow2_unfold(b + 1);
        lemma_pow2_pos(le as nat);
        lemma_pow2_pos(he as nat);
        assert(pow2(a) * pow2(le as nat) <= lo * pow2(le as nat)) by (nonlinear_arith)
            requires
                pow2(a) <= lo,
        ;
        assert(hi * pow2(he as nat) < (2 * pow2(b)) * pow2(he as nat)) by (nonlinear_arith)
            requires
                hi < 2 * pow2(b),
                pow2(he as nat) > 0,
        ;
    }
    Some((lower, upper))
}

/// The square of a lower bound, scaled down, is a lower bound of the
/// square.
proof fn lemma_scaled_square_below(m2: nat, s: nat, m: nat, t: nat, p: int)
    requires
        m2 * s <= m * m,
        m * t <= p,
    ensures
        m2 * ((t * t) * s) <= p * p,
{
    assert((m * t) * (m * t) <= p * p) by (nonlinear_arith)
        requires
            0 <= m * t <= p,
    ;
    assert(m2 * ((t * t) * s) == (m2 * s) * (t * t)) by (nonlinear_arith);
    assert((m * t) * (m * t) == (m * m) * (t * t)) by (nonlinear_arith);
    assert((m2 * s) * (t * t) <= (m * m) * (t * t)) by (nonlinear_arith)
        requires
            m2 * s <= m * m,
    ;
}

/// The square of an upper bound, scaled up, is an upper bound of the
/// square.
proof fn lemma_scaled_square_above(m2: nat, s: nat, m: nat, t: nat, p: int)
    requires
        m2 * s >= m * m,
        0 <= p <= m * t,
    ensures
        m2 * ((t * t) * s) >= p * p,
{
    assert((m * t) * (m * t) >= p * p) by (nonlinear_arith)
        requires
            0 <= p <= m * t,
    ;
    assert(m2 * ((t * t) * s) == (m2 * s) * (t * t)) by (nonlinear_arith);
    assert((m * t) * (m * t) == (m * m) * (t * t)) by (nonlinear_arith);
    assert((m2 * s) * (t * t) >= (m * m) * (t * t)) by (nonlinear_arith)
        requires
            m2 * s >= m * m,
    ;
}

/// Digits that stand for a number below two to the power of their bits.
pub proof fn lemma_value_is_bounded(s: Seq<u64>)
    ensures
        value(s) < pow2((64 * s.len()) as nat),
    decreases s.len(),
{
    lemma2_to64();
    if s.len() > 0 {
        lemma_value_is_bounded(s.drop_last());
        let w = pow2((64 * (s.len() - 1)) as nat);
        lemma_pow2_adds((64 * (s.len() - 1)) as nat, 64);
        assert(value(s.drop_last()) + s.last() * w < w * 0x1_0000_0000_0000_0000)
            by (nonlinear_arith)
            requires
                value(s.drop_last()) < w,
                s.last() < 0x1_0000_0000_0000_0000,
        ;
    }
}

/// Multiplies the number that `digits` stand for by `n`, in place, and
/// returns the digit that is carried out at the top.
fn multiply_digits(digits: &mut Vec<u64>, n: u64) -> (carry: u64)
    ensures
        final(digits)@.len() == old(digits)@.len(),
        value(final(digits)@) + carry * pow2((64 * old(digits)@.len()) as nat) == n * value(
            old(digits)@,
        ),
{
    let ghost before = digits@;
    let mut carry: u64 = 0;
    let mut i: usize = 0;
    proof {
        lemma2_to64();
        assert(digits@.take(0) =~= Seq::<u64>::empty());
        assert(value(digits@.take(0)) == 0);
    }
    while i < digits.len()
        invariant
            i <= digits@.len() == before.len(),
            forall|j: int| i <= j < before.len() ==> digits@[j] == before[j],
            value(digits@.take(i as int)) + carry * pow2((64 * i) as nat) == n * value(
                before.take(i as int),
            ),
        decreases digits@.len() - i,
    {
        let ghost so_far = digits@.take(i as int);
        let digit: u64 = digits[i];
        assert(digit * n + carry < 0x1_0000_0000_0000_0000_0000_0000_0000_0000)
            by (nonlinear_arith)
            requires
                digit < 0x1_0000_0000_0000_0000,
                n < 0x1_0000_0000_0000_0000,
                carry < 0x1_0000_0000_0000_0000,
        ;
        let t: u128 = digit as u128 * n as u128 + carry as u128;
        let low: u64 = (t % 0x1_0000_0000_0000_0000) as u64;
        let high: u64 = (t / 0x1_0000_0000_0000_0000) as u64;
        digits[i] = low;
        proof {
            let w = pow2((64 * i) as nat);
            lemma2_to64();
            lemma_pow2_adds((64 * i) as nat, 64);
            assert(pow2((64 * (i + 1)) as nat) == w * 0x1_0000_0000_0000_0000);
            assert(digits@.take(i + 1).drop_last() =~= so_far);
            assert(before.take(i + 1).drop_last() =~= before.take(i as int));
            assert(digits@.take(i + 1).last() == low);
            assert(before.take(i + 1).last() == digit);
            let v = value(so_far);
            let b = value(before.take(i as int));
            assert(value(digits@.take(i + 1)) == v + low * w);
            assert(value(before.take(i + 1)) == b + digit * w);
            assert(v + low * w + high * (w * 0x1_0000_0000_0000_0000) == n * (b + digit * w))
                by (nonlinear_arith)
                requires
                    v + carry * w == n * b,
                    digit * n + carry == high * 0x1_0000_0000_0000_0000 + low,
            ;
        }
        carry = high;
        i = i + 1;
    }
    proof {
        assert(digits@.take(i as int) =~= digits@);
        assert(before.take(i as int) =~= before);
    }
    carry
}

/// Decides exactly, by long multiplication, whether `n` to the power `f`
/// is below two to the power `64 * limit`. The work grows with `f` times
/// `limit`.
pub fn power_is_below(n: u64, f: u64, limit: usize) -> (below: bool)
    requires
        n > 0,
        0 < limit <= 0x400_0000,
    ensures
        below == (pow(n as int, f as nat) < pow2((64 * limit) as nat)),
{
    let mut digits: Vec<u64> = Vec::new();
    digits.push(1);
    let mut k: u64 = 0;
    proof {
        lemma2_to64();
        lemma_pow0(n as int);
        assert(digits@.drop_last() =~= Seq::<u64>::empty());
        assert(value(digits@.drop_last()) == 0);
        assert(value(digits@) == 1);
    }
    while k < f
        invariant
            k <= f,
            n > 0,
            0 < digits@.len() <= limit <= 0x400_0000,
            value(digits@) == pow(n as int, k as nat),
        decreases f - k,
    {
        let ghost before = digits@;
        let carry: u64 = multiply_digits(&mut digits, n);
        proof {
            reveal(pow);
            assert(pow(n as int, (k + 1) as nat) == n * pow(n as int, k as nat));
        }
        if carry != 0 {
            if digits.len() == limit {
                proof {
                    let top = pow2((64 * limit) as nat);
                    assert(carry * top >= top) by (nonlinear_arith)
                        requires
                            carry >= 1,
                            top >= 0,
                    ;
                    lemma_pow_increases(n as nat, (k + 1) as nat, f as nat);
                }
                return false;
            }
            let ghost low = digits@;
            digits.push(carry);
            proof {
                assert(digits@.drop_last() =~= low);
            }
        }
        k = k + 1;
    }
    proof {
        lemma_value_is_bounded(digits@);
        if digits@.len() < limit {
            lemma_pow2_strictly_increases((64 * digits@.len()) as nat, (64 * limit) as nat);
        }
    }
    true
}

/// Tests a draw against the chance of mutation in a scan that began with
/// `n` bots.
pub fn mutation_chance_met(n: usize, fraction: i64) -> (met: bool)
    requires
        n > 0,
    ensures
        met == mutation_allowed(n as nat, fraction as int),
{
    if fraction <= 0 {
        return true;
    }
    if n <= 2 && fraction < UNIT {
        proof {
            lemma_certain_allows(n as nat, fraction as int);
        }
        return true;
    }
    if fraction >= UNIT {
        proof {
            if n == 1 {
                lemma1_pow(fraction as nat);
                lemma2_to64();
                lemma_pow2_strictly_increases(0, UNIT as nat);
            } else {
                lemma_whole_draw_refused(n as nat, fraction as int);
            }
        }
        return n == 1;
    }
    let base: u64 = n as u64;
    let f: u128 = fraction as u128;
    match logarithm_bounds(base) {
        Some((lower, upper)) => {
            assert(f * lower <= 0x10_0000 * 0x1_0000_0000_0000_0000 && f * upper <= 0x10_0000
                * 0x1_0000_0000_0000_0000) by (nonlinear_arith)
                requires
                    0 <= f < 0x10_0000,
                    0 <= lower <= 0x1_0000_0000_0000_0000,
                    0 <= upper <= 0x1_0000_0000_0000_0000,
            ;
            if f * lower >= (UNIT as u128) * SCALE {
                proof {
                    lemma_refused_by_lower_bound(
                        n as nat,
                        fraction as nat,
                        SCALE as nat,
                        lower as nat,
                    );
                }
                return false;
            }
            if f * upper <= (UNIT as u128) * SCALE {
                proof {
                    lemma_allowed_by_upper_bound(
                        n as nat,
                        fraction as nat,
                        SCALE as nat,
                        upper as nat,
                    );
                }
                return true;
            }
        },
        None => {},
    }
    power_is_below(base, fraction as u64, UNIT_DIGITS)
}

} // verus!
