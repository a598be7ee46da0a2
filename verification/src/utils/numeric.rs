//! Numeric helpers over scaled values.

use vstd::prelude::*;

verus! {

use crate::arith::round_div;
use crate::arith::round_div_i128;
use crate::arith::round_step;
use crate::arith::lemma_round_div_bound;
use crate::arith::lemma_round_step_idempotent;
use crate::arith::VALUE_CAP;
use crate::indicators::ints_of;
use crate::indicators::sma_at;

/// Rounds a scaled value to the nearest multiple of `step`, ties away from
/// zero: rounding to `d` decimals at scale `10^q` is `step == 10^(q-d)`.
pub fn round_to(value: i64, step: i64) -> (r: i64)
    requires
        1 <= step <= 1_000_000_000_000_000_000,
        -1_000_000_000_000_000_000 <= value <= 1_000_000_000_000_000_000,
    ensures
        r == round_step(value as int, step as int),
{
    proof {
        let c = if value >= 0 {
            value as int
        } else {
            -(value as int)
        };
        assert(-(step * (c + 1)) <= value <= step * (c + 1)) by (nonlinear_arith)
            requires
                1 <= step,
                c == (if value >= 0 {
                    value as int
                } else {
                    -(value as int)
                }),
        ;
        lemma_round_div_bound(value as int, step as int, c + 1);
        assert(-(2_000_000_000_000_000_000_000_000_000_000_000_000) <= round_div(
            value as int,
            step as int,
        ) * step <= 2_000_000_000_000_000_000_000_000_000_000_000_000) by (nonlinear_arith)
            requires
                -(c + 1) <= round_div(value as int, step as int) <= c + 1,
                0 <= c <= 1_000_000_000_000_000_000,
                1 <= step <= 1_000_000_000_000_000_000,
        ;
    }
    let q: i128 = round_div_i128(value as i128, step as i128);
    proof {
        lemma_round_step_bound(value as int, step as int);
    }
    let r128: i128 = q * step as i128;
    r128 as i64
}

/// The rounded value stays within one step of the original.
proof fn lemma_round_step_bound(v: int, step: int)
    requires
        1 <= step,
    ensures
        v - step < round_step(v, step) < v + step,
{
    let q = round_div(v, step);
    vstd::arithmetic::div_mod::lemma_fundamental_div_mod(2 * v + step, 2 * step);
    vstd::arithmetic::div_mod::lemma_mod_division_less_than_divisor(2 * v + step, 2 * step);
    if v >= 0 {
        assert(2 * v + step == (2 * step) * ((2 * v + step) / (2 * step)) + (2 * v + step) % (2
            * step));
        assert(v - step < q * step < v + step) by (nonlinear_arith)
            requires
                2 * v + step == (2 * step) * q + (2 * v + step) % (2 * step),
                0 <= (2 * v + step) % (2 * step) < 2 * step,
                1 <= step,
        ;
    } else {
        let v2 = -v;
        vstd::arithmetic::div_mod::lemma_fundamental_div_mod(2 * v2 + step, 2 * step);
        vstd::arithmetic::div_mod::lemma_mod_division_less_than_divisor(2 * v2 + step, 2 * step);
        let q2 = (2 * v2 + step) / (2 * step);
        assert(v2 - step < q2 * step < v2 + step) by (nonlinear_arith)
            requires
                2 * v2 + step == (2 * step) * q2 + (2 * v2 + step) % (2 * step),
                0 <= (2 * v2 + step) % (2 * step) < 2 * step,
                1 <= step,
        ;
        assert(q * step == -(q2 * step)) by (nonlinear_arith)
            requires
                q == -q2,
        ;
    }
}

/// Rounding is idempotent: a value already on the grid stays put.
pub proof fn lemma_round_to_idempotent(v: int, step: int)
    requires
        1 <= step,
    ensures
        round_step(round_step(v, step), step) == round_step(v, step),
{
    lemma_round_step_idempotent(v, step);
}

/// Scaled percent change from `old_value` to `new_value`; zero when the old
/// value is zero. The divisor may be negative, as in an exact fraction.
pub fn percent_change(old_value: i64, new_value: i64, pow: i64) -> (r: i128)
    requires
        1 <= pow <= 100_000_000,
        -VALUE_CAP <= old_value <= VALUE_CAP,
        -VALUE_CAP <= new_value <= VALUE_CAP,
    ensures
        old_value == 0 ==> r == 0,
        old_value > 0 ==> r == round_div(
            (new_value - old_value) * 100 * pow,
            old_value as int,
        ),
        old_value < 0 ==> r == round_div(
            -((new_value - old_value) * 100 * pow),
            -(old_value as int),
        ),
{
    if old_value == 0 {
        return 0;
    }
    proof {
        assert((new_value as int - old_value) * 100 * (pow as int)
            <= 20_000_000_000_000_000_000_000_000 && -(20_000_000_000_000_000_000_000_000) <= (
        new_value as int - old_value) * 100 * (pow as int)) by (nonlinear_arith)
            requires
                -2 * VALUE_CAP <= new_value as int - old_value <= 2 * VALUE_CAP,
                1 <= pow as int <= 100_000_000,
        ;
    }
    let num: i128 = (new_value as i128 - old_value as i128) * 100 * pow as i128;
    if old_value > 0 {
        round_div_i128(num, old_value as i128)
    } else {
        round_div_i128(-num, -(old_value as i128))
    }
}

/// The ratio `numerator / denominator` at the given scale, or the fallback
/// when the denominator is zero.
pub fn safe_divide(numerator: i64, denominator: i64, default: i64, pow: i64) -> (r: i128)
    requires
        1 <= pow <= 100_000_000,
        -VALUE_CAP <= numerator <= VALUE_CAP,
        -VALUE_CAP <= denominator <= VALUE_CAP,
    ensures
        denominator == 0 ==> r == default,
        denominator > 0 ==> r == round_div(numerator * pow, denominator as int),
        denominator < 0 ==> r == round_div(-(numerator as int * pow), -(denominator as int)),
{
    if denominator == 0 {
        return default as i128;
    }
    proof {
        assert((numerator as int) * (pow as int) <= 10_000_000_000_000_000_000_000 && -(
        10_000_000_000_000_000_000_000) <= (numerator as int) * (pow as int))
            by (nonlinear_arith)
            requires
                -VALUE_CAP <= numerator as int <= VALUE_CAP,
                1 <= pow as int <= 100_000_000,
        ;
    }
    let num: i128 = numerator as i128 * pow as i128;
    if denominator > 0 {
        round_div_i128(num, denominator as i128)
    } else {
        round_div_i128(-num, -(denominator as i128))
    }
}

/// A plain moving average: the same sliding-window mean as the simple
/// moving average indicator, placeholder zeros until the window fills.
pub fn moving_average(values: &Vec<i64>, window: usize) -> (r: Vec<i64>)
    requires
        1 <= window,
        forall|j: int|
            0 <= j < values@.len() ==> -VALUE_CAP <= #[trigger] values@[j] <= VALUE_CAP,
    ensures
        r@.len() == values@.len(),
        forall|i: int|
            0 <= i < r@.len() ==> #[trigger] r@[i] == sma_at(
                ints_of(values@),
                window as int,
                i,
            ),
{
    let calc = crate::indicators::TechnicalIndicators::new();
    calc.calculate_sma(values, window)
}

} // verus!
