//! Fixed-point arithmetic in millionths of a unit.
//!
//! A value `x` in this representation stands for the real number
//! `x / SCALE`. Division by `SCALE` rounds toward zero, as Rust's integer
//! division does; `tdiv_scale` is the specification of that rounding.

use vstd::prelude::*;
use vstd::arithmetic::div_mod::lemma_div_is_ordered;
use vstd::arithmetic::div_mod::lemma_div_is_ordered_by_denominator;
use vstd::arithmetic::div_mod::lemma_div_pos_is_pos;
use vstd::arithmetic::div_mod::lemma_div_multiples_vanish;
use vstd::arithmetic::div_mod::lemma_fundamental_div_mod;
use vstd::arithmetic::mul::lemma_mul_inequality;
use vstd::arithmetic::mul::lemma_mul_nonnegative;
use vstd::arithmetic::power::lemma_pow_positive;
use vstd::arithmetic::power::pow;

verus! {

/// Number of fixed-point steps per unit: values are held in millionths.
pub const SCALE: i64 = 1_000_000;

/// Truncating (toward zero) division of `x` by a positive `d`.
pub open spec fn tdiv(x: int, d: int) -> int {
    if x >= 0 {
        x / d
    } else {
        -((-x) / d)
    }
}

/// Truncating (toward zero) division of `x` by `SCALE`.
pub open spec fn tdiv_scale(x: int) -> int {
    tdiv(x, SCALE as int)
}

/// Divide `x` by a positive `d`, rounding toward zero.
pub fn div_trunc(x: i64, d: i64) -> (r: i64)
    requires
        i64::MIN < x,
        1 <= d,
    ensures
        r == tdiv(x as int, d as int),
        x >= 0 ==> 0 <= r <= x,
        x < 0 ==> x <= r <= 0,
{
    if x >= 0 {
        proof {
            lemma_div_pos_is_pos(x as int, d as int);
            lemma_div_is_ordered_by_denominator(x as int, 1, d as int);
        }
        let q: u64 = (x as u64) / (d as u64);
        q as i64
    } else {
        proof {
            lemma_div_pos_is_pos(-(x as int), d as int);
            lemma_div_is_ordered_by_denominator(-(x as int), 1, d as int);
        }
        let m: u64 = (-x) as u64;
        let q: u64 = m / (d as u64);
        -(q as i64)
    }
}

/// Divide a fixed-point value by `SCALE`, rounding toward zero.
pub fn div_scale(x: i64) -> (r: i64)
    requires
        i64::MIN < x,
    ensures
        r == tdiv_scale(x as int),
        x >= 0 ==> 0 <= r <= x,
        x < 0 ==> x <= r <= 0,
{
    div_trunc(x, SCALE)
}

/// Product magnitude bound: `|x * y| <= xb * yb` when `|x| <= xb` and
/// `|y| <= yb`.
pub proof fn lemma_mul_bound(x: int, y: int, xb: int, yb: int)
    requires
        -xb <= x <= xb,
        -yb <= y <= yb,
    ensures
        -(xb * yb) <= x * y <= xb * yb,
{
    assert(-(xb * yb) <= x * y <= xb * yb) by (nonlinear_arith)
        requires
            -xb <= x <= xb,
            -yb <= y <= yb,
    ;
}

/// Quotient magnitude bound: `|tdiv_scale(x)| <= b / SCALE` when `|x| <= b`.
pub proof fn lemma_tdiv_scale_bound(x: int, b: int)
    requires
        0 <= b,
        -b <= x <= b,
    ensures
        -(b / (SCALE as int)) <= tdiv_scale(x) <= b / (SCALE as int),
{
    lemma_div_pos_is_pos(b, SCALE as int);
    if x >= 0 {
        lemma_div_pos_is_pos(x, SCALE as int);
        lemma_div_is_ordered(x, b, SCALE as int);
    } else {
        lemma_div_pos_is_pos(-x, SCALE as int);
        lemma_div_is_ordered(-x, b, SCALE as int);
    }
}

/// One multiplicative decay step of a nonnegative rate `e` by a factor
/// `d`, both in fixed point: `(e * d) / SCALE`, rounded toward zero.
pub open spec fn decayed(e: int, d: int) -> int {
    tdiv_scale(e * d)
}

/// Law: one decay step by a factor of at most one never increases a
/// nonnegative rate, and never drives it below zero.
pub proof fn lemma_decay_monotone(e: int, d: int)
    requires
        0 <= e,
        0 <= d <= SCALE,
    ensures
        0 <= decayed(e, d) <= e,
{
    lemma_mul_nonnegative(e, d);
    lemma_div_pos_is_pos(e * d, SCALE as int);
    lemma_mul_inequality(d, SCALE as int, e);
    lemma_div_is_ordered(e * d, (SCALE as int) * e, SCALE as int);
    lemma_div_multiples_vanish(e, SCALE as int);
}

/// `k` decay steps in sequence, as performed by `k` training updates.
pub open spec fn decay_iter(e: int, d: int, k: nat) -> int
    decreases k,
{
    if k == 0 {
        e
    } else {
        decayed(decay_iter(e, d, (k - 1) as nat), d)
    }
}

/// Law: repeated decay of a nonnegative rate by a factor of at most one
/// is monotone non-increasing in the number of steps, and the rate stays
/// between zero and its starting value.
pub proof fn lemma_decay_iter_monotone(e: int, d: int, k: nat)
    requires
        0 <= e,
        0 <= d <= SCALE,
    ensures
        0 <= decay_iter(e, d, k) <= e,
        decay_iter(e, d, (k + 1) as nat) <= decay_iter(e, d, k),
    decreases k,
{
    if k == 0 {
        lemma_decay_monotone(e, d);
    } else {
        lemma_decay_iter_monotone(e, d, (k - 1) as nat);
        lemma_decay_monotone(decay_iter(e, d, (k - 1) as nat), d);
        lemma_decay_monotone(decay_iter(e, d, k), d);
    }
}

/// Law: decay steps compose: `k2` steps applied after `k1` steps are
/// `k1 + k2` steps.
pub proof fn lemma_decay_iter_add(e: int, d: int, k1: nat, k2: nat)
    ensures
        decay_iter(decay_iter(e, d, k1), d, k2) == decay_iter(e, d, (k1 + k2) as nat),
    decreases k2,
{
    if k2 > 0 {
        lemma_decay_iter_add(e, d, k1, (k2 - 1) as nat);
        assert(decay_iter(e, d, (k1 + k2) as nat) == decayed(
            decay_iter(e, d, (k1 + k2 - 1) as nat),
            d,
        ));
    }
}

/// A power of a nonnegative base is nonnegative.
proof fn lemma_pow_nonneg(b: int, e: nat)
    requires
        0 <= b,
    ensures
        0 <= pow(b, e),
    decreases e,
{
    reveal(pow);
    if e > 0 {
        lemma_pow_nonneg(b, (e - 1) as nat);
        lemma_mul_nonnegative(b, pow(b, (e - 1) as nat));
    }
}

/// Law: `k` decay steps never leave a nonnegative rate above the exact
/// power it stands for: `decay_iter(e, d, k) * SCALE^k <= e * d^k`, so
/// the fixed-point rate is `e * (d / SCALE)^k` up to the rounding that
/// each truncating step loses.
pub proof fn lemma_decay_iter_power_bound(e: int, d: int, k: nat)
    requires
        0 <= e,
        0 <= d <= SCALE,
    ensures
        0 <= decay_iter(e, d, k),
        decay_iter(e, d, k) * pow(SCALE as int, k) <= e * pow(d, k),
    decreases k,
{
    let s = SCALE as int;
    reveal(pow);
    if k == 0 {
        assert(pow(s, 0) == 1);
        assert(pow(d, 0) == 1);
    } else {
        let km = (k - 1) as nat;
        lemma_decay_iter_power_bound(e, d, km);
        let x = decay_iter(e, d, km);
        let y = decay_iter(e, d, k);
        lemma_mul_nonnegative(x, d);
        assert(y == (x * d) / s);
        lemma_div_pos_is_pos(x * d, s);
        lemma_fundamental_div_mod(x * d, s);
        assert(y * s <= x * d);
        lemma_pow_positive(s, km);
        lemma_pow_nonneg(d, km);
        lemma_mul_nonnegative(d, pow(d, km));
        assert(pow(s, k) == s * pow(s, km));
        assert(pow(d, k) == d * pow(d, km));
        assert(y * (s * pow(s, km)) <= e * (d * pow(d, km))) by (nonlinear_arith)
            requires
                y * s <= x * d,
                x * pow(s, km) <= e * pow(d, km),
                0 <= y,
                0 <= d,
                0 < pow(s, km),
        ;
    }
}

/// Law: `k` decay steps lose at most one fixed-point unit each to
/// rounding: `decay_iter(e, d, k) * SCALE^k >= e * d^k - k * SCALE^k`.
/// With the matching upper bound, the rate after `k` steps is
/// `e * (d / SCALE)^k` to within `k` units.
pub proof fn lemma_decay_iter_power_lower_bound(e: int, d: int, k: nat)
    requires
        0 <= e,
        0 <= d <= SCALE,
    ensures
        decay_iter(e, d, k) * pow(SCALE as int, k) >= e * pow(d, k) - k * pow(SCALE as int, k),
    decreases k,
{
    let s = SCALE as int;
    reveal(pow);
    if k == 0 {
        assert(pow(s, 0) == 1);
        assert(pow(d, 0) == 1);
    } else {
        let km = (k - 1) as nat;
        lemma_decay_iter_power_lower_bound(e, d, km);
        lemma_decay_iter_power_bound(e, d, km);
        let x = decay_iter(e, d, km);
        let y = decay_iter(e, d, k);
        lemma_mul_nonnegative(x, d);
        assert(y == (x * d) / s);
        lemma_fundamental_div_mod(x * d, s);
        assert(y * s >= x * d - s);
        lemma_pow_positive(s, km);
        lemma_pow_nonneg(d, km);
        assert(pow(s, k) == s * pow(s, km));
        assert(pow(d, k) == d * pow(d, km));
        assert(y * (s * pow(s, km)) >= e * (d * pow(d, km)) - k * (s * pow(s, km)))
            by (nonlinear_arith)
            requires
                y * s >= x * d - s,
                x * pow(s, km) >= e * pow(d, km) - km * pow(s, km),
                0 <= d <= s,
                0 < pow(s, km),
                0 <= pow(d, km),
                0 <= x,
                k == km + 1,
        ;
    }
}

} // verus!
