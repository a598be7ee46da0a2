//! Fixed-point arithmetic shared by every computation in the crate.
//!
//! A scaled value `v` at precision `p` stands for the real number
//! `v / 10^p`. Rounding a real result to the configured precision is then
//! rounding to the nearest integer in scaled units, ties away from zero:
//! exactly what `round_div` states for exact fractions and what `sqrt_round`
//! states for square roots of fractions.

use vstd::prelude::*;

verus! {

use vstd::arithmetic::div_mod::lemma_div_pos_is_pos;
use vstd::arithmetic::div_mod::lemma_fundamental_div_mod_converse;
use vstd::arithmetic::div_mod::lemma_multiply_divide_le;
use vstd::arithmetic::div_mod::lemma_multiply_divide_lt;
use vstd::arithmetic::div_mod::lemma_div_is_ordered_by_denominator;
use vstd::arithmetic::div_mod::lemma_div_basics;
use vstd::arithmetic::div_mod::lemma_div_is_ordered;

/// Largest magnitude accepted for one scaled input value of an indicator.
pub const VALUE_CAP: i64 = 100_000_000_000_000;

/// Largest decimal precision the fixed-point scale supports.
pub const MAX_PRECISION: usize = 8;

/// Most observations one analysis call accepts.
pub const MAX_POINTS: usize = 100_000;

/// Magnitude cap on the operands of the exact rounding division.
pub const DIV_LIM: i128 = 10_000_000_000_000_000_000_000_000_000_000_000_000;

/// Cap on the numerator handed to the rounded square root.
pub const SQRT_LIM: u128 = 1_200_000_000_000_000_000_000_000_000_000_000_000;

/// `10^p`.
pub open spec fn pow10(p: nat) -> int
    decreases p,
{
    if p == 0 {
        1
    } else {
        10 * pow10((p - 1) as nat)
    }
}

/// The integer nearest to the exact fraction `a / b`, ties away from zero.
///
/// This is the crate's rounding policy: for a value at a finer scale, dividing
/// by the scale ratio with `round_div` rounds it to the configured precision.
pub open spec fn round_div(a: int, b: int) -> int
    recommends
        1 <= b,
{
    if a >= 0 {
        (2 * a + b) / (2 * b)
    } else {
        -((2 * (-a) + b) / (2 * b))
    }
}

/// `v` rounded to the nearest multiple of `step`, ties away from zero.
pub open spec fn round_step(v: int, step: int) -> int
    recommends
        1 <= step,
{
    round_div(v, step) * step
}

pub proof fn lemma_pow10_pos(p: nat)
    ensures
        pow10(p) >= 1,
    decreases p,
{
    if p > 0 {
        lemma_pow10_pos((p - 1) as nat);
    }
}

pub proof fn lemma_pow10_mono(p: nat, q: nat)
    requires
        p <= q,
    ensures
        pow10(p) <= pow10(q),
    decreases q,
{
    lemma_pow10_pos(p);
    if p < q {
        lemma_pow10_mono(p, (q - 1) as nat);
        lemma_pow10_pos((q - 1) as nat);
    }
}

pub proof fn lemma_pow10_le_max(p: nat)
    requires
        p <= 8,
    ensures
        1 <= pow10(p) <= 100_000_000,
{
    reveal_with_fuel(pow10, 10);
    lemma_pow10_pos(p);
    lemma_pow10_mono(p, 8);
    assert(pow10(8) == 100_000_000);
}

/// `10^p` as a machine integer, for the supported precisions.
pub fn pow10_i64(p: usize) -> (r: i64)
    requires
        p <= MAX_PRECISION,
    ensures
        r == pow10(p as nat),
        1 <= r <= 100_000_000,
{
    proof {
        reveal_with_fuel(pow10, 10);
    }
    if p == 0 {
        1
    } else if p == 1 {
        10
    } else if p == 2 {
        100
    } else if p == 3 {
        1_000
    } else if p == 4 {
        10_000
    } else if p == 5 {
        100_000
    } else if p == 6 {
        1_000_000
    } else if p == 7 {
        10_000_000
    } else {
        100_000_000
    }
}

pub proof fn lemma_round_div_nonneg(a: int, b: int)
    requires
        0 <= a,
        1 <= b,
    ensures
        0 <= round_div(a, b),
{
    lemma_div_pos_is_pos(2 * a + b, 2 * b);
}

/// Rounding cannot leave an interval with integer endpoints.
pub proof fn lemma_round_div_bound(a: int, b: int, c: int)
    requires
        1 <= b,
        0 <= c,
        -(b * c) <= a <= b * c,
    ensures
        -c <= round_div(a, b) <= c,
{
    if a >= 0 {
        lemma_round_div_nonneg(a, b);
        assert(2 * a + b < (2 * b) * (c + 1)) by (nonlinear_arith)
            requires
                a <= b * c,
                1 <= b,
        ;
        lemma_multiply_divide_lt(2 * a + b, 2 * b, c + 1);
    } else {
        let a2 = -a;
        lemma_round_div_nonneg(a2, b);
        assert(2 * a2 + b < (2 * b) * (c + 1)) by (nonlinear_arith)
            requires
                a2 <= b * c,
                1 <= b,
        ;
        lemma_multiply_divide_lt(2 * a2 + b, 2 * b, c + 1);
    }
}

/// A fraction that is exactly an integer rounds to that integer.
pub proof fn lemma_round_div_exact(k: int, b: int)
    requires
        1 <= b,
    ensures
        round_div(k * b, b) == k,
{
    if k >= 0 {
        assert(2 * (k * b) + b == k * (2 * b) + b) by (nonlinear_arith);
        assert(k * b >= 0) by (nonlinear_arith)
            requires
                k >= 0,
                b >= 1,
        ;
        lemma_fundamental_div_mod_converse(2 * (k * b) + b, 2 * b, k, b);
    } else {
        let k2 = -k;
        assert(2 * (k2 * b) + b == k2 * (2 * b) + b) by (nonlinear_arith);
        assert(k2 * b >= 0) by (nonlinear_arith)
            requires
                k2 >= 0,
                b >= 1,
        ;
        lemma_fundamental_div_mod_converse(2 * (k2 * b) + b, 2 * b, k2, b);
        assert(k * b == -(k2 * b)) by (nonlinear_arith)
            requires
                k2 == -k,
        ;
        assert(k * b < 0) by (nonlinear_arith)
            requires
                k <= -1,
                b >= 1,
        ;
    }
}

/// The exact rounding division, executable: nearest integer to `a / b`,
/// ties away from zero.
pub fn round_div_i128(a: i128, b: i128) -> (r: i128)
    requires
        1 <= b <= DIV_LIM,
        -DIV_LIM <= a <= DIV_LIM,
    ensures
        r == round_div(a as int, b as int),
{
    let den: u128 = (2 * b) as u128;
    if a >= 0 {
        let num: u128 = (2 * a + b) as u128;
        let q: u128 = num / den;
        proof {
            assert(num <= den * (DIV_LIM + 1)) by (nonlinear_arith)
                requires
                    num == 2 * a + b,
                    den == 2 * b,
                    0 <= a <= DIV_LIM,
                    1 <= b,
            ;
            lemma_multiply_divide_le(num as int, den as int, DIV_LIM as int + 1);
        }
        q as i128
    } else {
        let num: u128 = (2 * (-a) + b) as u128;
        let q: u128 = num / den;
        proof {
            assert(num <= den * (DIV_LIM + 1)) by (nonlinear_arith)
                requires
                    num == 2 * (-a) + b,
                    den == 2 * b,
                    -DIV_LIM <= a < 0,
                    1 <= b,
            ;
            lemma_multiply_divide_le(num as int, den as int, DIV_LIM as int + 1);
        }
        -(q as i128)
    }
}

/// Floor of the square root, defined value by value.
pub open spec fn sqrt_floor(a: nat) -> nat
    decreases a,
{
    if a == 0 {
        0
    } else {
        let p = sqrt_floor((a - 1) as nat);
        if (p + 1) * (p + 1) <= a {
            (p + 1) as nat
        } else {
            p
        }
    }
}

pub proof fn lemma_sqrt_floor(a: nat)
    ensures
        sqrt_floor(a) * sqrt_floor(a) <= a,
        a < (sqrt_floor(a) + 1) * (sqrt_floor(a) + 1),
    decreases a,
{
    if a == 0 {
        assert(sqrt_floor(0) == 0);
        assert(sqrt_floor(a) * sqrt_floor(a) <= a);
        assert(a < (sqrt_floor(a) + 1) * (sqrt_floor(a) + 1)) by (nonlinear_arith)
            requires
                a == 0,
                sqrt_floor(a) == 0,
        ;
    } else {
        lemma_sqrt_floor((a - 1) as nat);
        let p = sqrt_floor((a - 1) as nat);
        assert(p * p <= a - 1);
        assert(a - 1 < (p + 1) * (p + 1));
        if (p + 1) * (p + 1) <= a {
            assert(sqrt_floor(a) == (p + 1) as nat);
            assert((p + 1) * (p + 1) < (p + 2) * (p + 2)) by (nonlinear_arith)
                requires
                    p >= 0,
            ;
            assert(sqrt_floor(a) * sqrt_floor(a) <= a);
            assert(a < (sqrt_floor(a) + 1) * (sqrt_floor(a) + 1));
        } else {
            assert(sqrt_floor(a) == p);
            assert(sqrt_floor(a) * sqrt_floor(a) <= a);
            assert(a < (sqrt_floor(a) + 1) * (sqrt_floor(a) + 1));
        }
    }
}

pub proof fn lemma_sqrt_floor_unique(a: nat, s: nat)
    requires
        s * s <= a,
        a < (s + 1) * (s + 1),
    ensures
        s == sqrt_floor(a),
{
    lemma_sqrt_floor(a);
    let f = sqrt_floor(a);
    if s < f {
        assert((s + 1) * (s + 1) <= f * f) by (nonlinear_arith)
            requires
                s + 1 <= f,
        ;
    }
    if f < s {
        assert((f + 1) * (f + 1) <= s * s) by (nonlinear_arith)
            requires
                f + 1 <= s,
        ;
    }
}

/// Floor of the square root, executable, by bisection.
pub fn isqrt_u128(a: u128) -> (r: u128)
    requires
        a < 5_000_000_000_000_000_000_000_000_000_000_000_000,
    ensures
        r == sqrt_floor(a as nat),
        r < 2_305_843_009_213_693_952,
{
    let mut lo: u128 = 0;
    let mut hi: u128 = 2_305_843_009_213_693_952;
    proof {
        assert((2_305_843_009_213_693_952 as int) * 2_305_843_009_213_693_952
            > 5_000_000_000_000_000_000_000_000_000_000_000_000) by (nonlinear_arith);
    }
    while lo + 1 < hi
        invariant
            lo < hi <= 2_305_843_009_213_693_952,
            lo * lo <= a,
            (a as int) < (hi as int) * (hi as int),
        decreases hi - lo,
    {
        let mid: u128 = lo + (hi - lo) / 2;
        proof {
            assert(lo < mid < hi);
            assert((mid as int) * (mid as int)
                <= (2_305_843_009_213_693_952 as int) * 2_305_843_009_213_693_952)
                by (nonlinear_arith)
                requires
                    0 <= mid <= 2_305_843_009_213_693_952,
            ;
        }
        if mid * mid <= a {
            lo = mid;
        } else {
            hi = mid;
        }
    }
    proof {
        lemma_sqrt_floor_unique(a as nat, lo as nat);
    }
    lo
}

/// Nearest integer to the real square root of the fraction `a / b`,
/// ties away from zero; the rounding policy applied to a root.
pub open spec fn sqrt_round(a: int, b: int) -> int
    recommends
        0 <= a,
        1 <= b,
{
    ((sqrt_floor(((4 * a) / b) as nat) + 1) / 2) as int
}

pub proof fn lemma_sqrt_round_nonneg(a: int, b: int)
    ensures
        0 <= sqrt_round(a, b),
{
}

/// The rounded root of an average of squares bounded by `c * c` is at most `c`.
pub proof fn lemma_sqrt_round_bound(a: int, b: int, c: int)
    requires
        0 <= a,
        1 <= b,
        0 <= c,
        a <= b * (c * c),
    ensures
        0 <= sqrt_round(a, b) <= c,
{
    assert(4 * a <= b * ((2 * c) * (2 * c))) by (nonlinear_arith)
        requires
            a <= b * (c * c),
    ;
    lemma_multiply_divide_le(4 * a, b, (2 * c) * (2 * c));
    lemma_div_pos_is_pos(4 * a, b);
    let q = ((4 * a) / b) as nat;
    lemma_sqrt_floor(q);
    let s = sqrt_floor(q);
    assert(s <= 2 * c) by (nonlinear_arith)
        requires
            s * s <= (2 * c) * (2 * c),
            0 <= c,
    ;
    assert((s + 1) / 2 <= c) by {
        lemma_div_is_ordered(s + 1 as int, 2 * c + 1, 2);
        lemma_fundamental_div_mod_converse(2 * c + 1, 2, c as int, 1);
    }
}

/// The rounded square root, executable.
pub fn sqrt_round_u128(a: u128, b: u128) -> (r: u128)
    requires
        1 <= b,
        a <= SQRT_LIM,
    ensures
        r == sqrt_round(a as int, b as int),
{
    let q: u128 = (4 * a) / b;
    proof {
        lemma_div_is_ordered_by_denominator(4 * a as int, 1, b as int);
        lemma_div_basics(4 * a as int);
    }
    let s: u128 = isqrt_u128(q);
    (s + 1) / 2
}

/// Rounding to a step is idempotent: a value already on the grid stays put.
pub proof fn lemma_round_step_idempotent(v: int, step: int)
    requires
        1 <= step,
    ensures
        round_step(round_step(v, step), step) == round_step(v, step),
{
    lemma_round_div_exact(round_div(v, step), step);
}

} // verus!
