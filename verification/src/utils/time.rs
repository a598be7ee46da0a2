//! Time arithmetic over milliseconds since the Unix epoch.
//!
//! The calendar here is the proleptic Gregorian calendar in UTC without leap
//! seconds: hour, minute and weekday of an instant are pure arithmetic on its
//! millisecond timestamp, and are specified as such.

use vstd::prelude::*;

verus! {

use vstd::arithmetic::div_mod::lemma_div_basics;
use vstd::arithmetic::div_mod::lemma_div_is_ordered_by_denominator;
use vstd::arithmetic::div_mod::lemma_fundamental_div_mod;
use vstd::arithmetic::div_mod::lemma_fundamental_div_mod_converse;
use vstd::arithmetic::div_mod::lemma_mod_division_less_than_divisor;
use vstd::arithmetic::div_mod::lemma_multiply_divide_le;
use vstd::arithmetic::div_mod::lemma_div_plus_one;
use vstd::arithmetic::div_mod::lemma_add_mod_noop;
use vstd::string::StringExecFns;
use crate::errors::AlphaError;
use crate::errors::AlphaResult;

pub const DAY_MS: i64 = 86_400_000;

pub const HOUR_MS: i64 = 3_600_000;

pub const MINUTE_MS: i64 = 60_000;

/// Timestamps within this bound of the epoch are always representable.
pub const TIMESTAMP_BOUND: i64 = 1_000_000_000_000_000;

/// Current UTC time in milliseconds since the epoch.
///
/// Relies on chrono's `Utc::now` and `DateTime::timestamp_millis`; nothing
/// can be promised of the clock's value.
#[verifier::external_body]
pub fn current_timestamp_ms() -> i64 {
    chrono::Utc::now().timestamp_millis()
}

/// Relies on chrono's `DateTime::from_timestamp_millis`, whose documentation
/// guarantees a round trip with `timestamp_millis` and rejects only instants
/// more than about 262,000 years from the common era, far beyond
/// `TIMESTAMP_BOUND` (about 31,700 years).
#[verifier::external_body]
fn datetime_roundtrip_millis(ts: i64) -> (r: Option<i64>)
    ensures
        r matches Some(t) ==> t == ts,
        -TIMESTAMP_BOUND <= ts <= TIMESTAMP_BOUND ==> r is Some,
{
    match chrono::DateTime::<chrono::Utc>::from_timestamp_millis(ts) {
        Some(d) => Some(d.timestamp_millis()),
        None => None,
    }
}

/// A timestamp is accepted exactly when the calendar can represent it; the
/// value comes back unchanged.
pub fn timestamp_to_datetime(timestamp: i64) -> (r: AlphaResult<i64>)
    ensures
        r matches Ok(t) ==> t == timestamp,
        -TIMESTAMP_BOUND <= timestamp <= TIMESTAMP_BOUND ==> r is Ok,
        r matches Err(e) ==> e matches AlphaError::InvalidInput(m) && m@
            == "Invalid timestamp"@,
{
    match datetime_roundtrip_millis(timestamp) {
        Some(t) => Ok(t),
        None => Err(AlphaError::invalid_input(String::from_str("Invalid timestamp"))),
    }
}

/// Floor division by a positive divisor, also for negative dividends.
pub fn floor_div_i64(a: i64, b: i64) -> (r: i64)
    requires
        1 <= b,
    ensures
        r as int == (a as int) / (b as int),
{
    let bb: u128 = b as u128;
    if a >= 0 {
        let q: u128 = (a as u128) / bb;
        proof {
            lemma_div_is_ordered_by_denominator(a as int, 1, b as int);
            lemma_div_basics(a as int);
        }
        q as i64
    } else {
        let n: u128 = (-(a as i128)) as u128;
        let q: u128 = (n + bb - 1) / bb;
        proof {
            let ni = n as int;
            let bi = b as int;
            let qi = q as int;
            lemma_fundamental_div_mod(ni + bi - 1, bi);
            lemma_mod_division_less_than_divisor(ni + bi - 1, bi);
            let s = (ni + bi - 1) % bi;
            assert(a as int == (-qi) * bi + (bi - 1 - s)) by (nonlinear_arith)
                requires
                    ni + bi - 1 == bi * qi + s,
                    a as int == -ni,
            ;
            lemma_fundamental_div_mod_converse(a as int, bi, -qi, bi - 1 - s);
            assert(ni + bi - 1 <= bi * ni) by (nonlinear_arith)
                requires
                    ni >= 1,
                    bi >= 1,
            ;
            lemma_multiply_divide_le(ni + bi - 1, bi, ni);
        }
        (-(q as i128)) as i64
    }
}

/// Euclidean remainder by a positive divisor: always in `[0, b)`.
pub fn floor_mod_i64(a: i64, b: i64) -> (r: i64)
    requires
        1 <= b,
    ensures
        r as int == (a as int) % (b as int),
        0 <= r < b,
{
    let q: i64 = floor_div_i64(a, b);
    proof {
        lemma_fundamental_div_mod(a as int, b as int);
        lemma_mod_division_less_than_divisor(a as int, b as int);
        vstd::arithmetic::mul::lemma_mul_is_commutative(q as int, b as int);
        assert((q as i128) * (b as i128) == (a as int) - (a as int) % (b as int));
    }
    let m: i128 = (a as i128) - (q as i128) * (b as i128);
    m as i64
}

/// Hour of day of an instant, in UTC.
pub open spec fn hour_of(ts: int) -> int {
    (ts / (HOUR_MS as int)) % 24
}

/// Minute of hour of an instant, in UTC.
pub open spec fn minute_of(ts: int) -> int {
    (ts / (MINUTE_MS as int)) % 60
}

/// Weekday of an instant, Monday counted as 0; the epoch day was a Thursday.
pub open spec fn weekday_of(ts: int) -> int {
    (ts / (DAY_MS as int) + 3) % 7
}

/// The simplified United States session, expressed in UTC: 14:30 up to and
/// including 21:00.
pub open spec fn is_trading_time_spec(ts: int) -> bool {
    let h = hour_of(ts);
    let m = minute_of(ts);
    (h == 14 && m >= 30) || (h > 14 && h < 21) || (h == 21 && m == 0)
}

pub fn is_trading_time(ts: i64) -> (r: bool)
    ensures
        r == is_trading_time_spec(ts as int),
{
    let hour: i64 = floor_mod_i64(floor_div_i64(ts, HOUR_MS), 24);
    let minute: i64 = floor_mod_i64(floor_div_i64(ts, MINUTE_MS), 60);
    (hour == 14 && minute >= 30) || (hour > 14 && hour < 21) || (hour == 21 && minute == 0)
}

pub fn weekday_i64(ts: i64) -> (r: i64)
    ensures
        r as int == weekday_of(ts as int),
        0 <= r < 7,
{
    let d: i64 = floor_div_i64(ts, DAY_MS);
    proof {
        lemma_div_is_ordered_by_denominator(if ts >= 0 {
            ts as int
        } else {
            -(ts as int)
        }, 1, DAY_MS as int);
    }
    floor_mod_i64(d + 3, 7)
}

proof fn lemma_weekday_step(ts: int)
    ensures
        weekday_of(ts + DAY_MS as int) == (weekday_of(ts) + 1) % 7,
{
    let d = DAY_MS as int;
    lemma_div_plus_one(ts, d);
    assert((ts + d) / d + 3 == (ts / d + 3) + 1);
    lemma_add_mod_noop(ts / d + 3, 1, 7);
    lemma_fundamental_div_mod_converse(1, 7, 0, 1);
    lemma_mod_division_less_than_divisor(ts / d + 3, 7);
    lemma_fundamental_div_mod_converse(
        (ts / d + 3) % 7 + 1,
        7,
        if (ts / d + 3) % 7 + 1 == 7 {
            1
        } else {
            0
        },
        if (ts / d + 3) % 7 + 1 == 7 {
            0
        } else {
            (ts / d + 3) % 7 + 1
        },
    );
}

/// One or more whole days ahead, the first day that is not a Saturday or
/// Sunday; every day skipped was one.
pub fn next_trading_day(ts: i64) -> (r: i64)
    requires
        ts <= i64::MAX - 3 * DAY_MS,
    ensures
        ts < r <= ts + 3 * DAY_MS,
        weekday_of(r as int) < 5,
        (r - ts) % (DAY_MS as int) == 0,
        forall|t: int|
            ts < t < r && (t - ts) % (DAY_MS as int) == 0 ==> #[trigger] weekday_of(t)
                >= 5,
{
    let mut nd: i64 = ts + DAY_MS;
    let mut j: i64 = 1;
    let mut w: i64 = weekday_i64(nd);
    proof {
        let d = DAY_MS as int;
        assert forall|t: int| ts < t < nd && (t - ts) % d == 0 implies #[trigger] weekday_of(
            t,
        ) >= 5 by {
            vstd::arithmetic::div_mod::lemma_small_mod((t - ts) as nat, d as nat);
        }
    }
    while w >= 5
        invariant
            1 <= j <= 3,
            nd == ts + j * DAY_MS,
            ts <= i64::MAX - 3 * DAY_MS,
            w as int == weekday_of(nd as int),
            0 <= w < 7,
            w >= 5 ==> j + 6 - w <= 2,
            forall|t: int|
                ts < t < nd && (t - ts) % (DAY_MS as int) == 0 ==> #[trigger] weekday_of(
                    t,
                ) >= 5,
        decreases 3 - j,
    {
        proof {
            lemma_weekday_step(nd as int);
            let d = DAY_MS as int;
            assert forall|t: int|
                ts < t < nd + DAY_MS && (t - ts) % d == 0 implies #[trigger] weekday_of(t)
                >= 5 by {
                if t >= nd {
                    let x = t - ts;
                    lemma_fundamental_div_mod(x, d);
                    assert(x / d == j) by (nonlinear_arith)
                        requires
                            x == d * (x / d) + x % d,
                            x % d == 0,
                            (j as int) * d <= x < (j as int) * d + d,
                            d > 0,
                    ;
                    assert(x == (j as int) * d);
                    assert(t == nd);
                }
            }
        }
        nd = nd + DAY_MS;
        j = j + 1;
        w = weekday_i64(nd);
    }
    proof {
        let d = DAY_MS as int;
        assert(nd - ts == j * d);
        lemma_fundamental_div_mod_converse(j * d, d, j as int, 0);
    }
    nd
}

} // verus!
