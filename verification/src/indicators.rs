//! The indicator library: pure functions over one scaled price sequence.
//!
//! Every function returns a sequence of the input's length; indices without
//! enough history hold the documented placeholder `0`. Each output value is
//! specified exactly: the real-number recurrence of the indicator, rounded to
//! the configured precision at every step with the shared policy (nearest,
//! ties away from zero).

use vstd::prelude::*;

verus! {

use crate::arith::round_div;
use crate::arith::round_div_i128;
use crate::arith::sqrt_round;
use crate::arith::sqrt_round_u128;
use crate::arith::pow10;
use crate::arith::pow10_i64;
use crate::arith::lemma_round_div_bound;
use crate::arith::lemma_round_div_nonneg;
use crate::arith::lemma_sqrt_round_bound;
use crate::arith::VALUE_CAP;
use crate::arith::MAX_PRECISION;
use crate::errors::AlphaError;
use crate::models::IndicatorResult;
use crate::models::MarketData;
use crate::models::SignalType;
use vstd::string::StringExecFns;

/// The values of a scaled vector as unbounded integers.
pub open spec fn ints_of(s: Seq<i64>) -> Seq<int> {
    s.map_values(|x: i64| x as int)
}

/// The scaled prices of a series of observations.
pub open spec fn prices_of(data: Seq<MarketData>) -> Seq<int> {
    data.map_values(|d: MarketData| d.price as int)
}

/// Sum of `s[lo..hi]`.
pub open spec fn window_sum(s: Seq<int>, lo: int, hi: int) -> int
    decreases hi - lo,
{
    if lo >= hi {
        0
    } else {
        window_sum(s, lo, hi - 1) + s[hi - 1]
    }
}

/// Simple moving average at one index: the mean of the trailing window,
/// rounded; `0` while the window is not yet full, or when the whole series
/// is shorter than the window.
pub open spec fn sma_at(s: Seq<int>, period: int, i: int) -> int
    recommends
        1 <= period,
{
    if s.len() < period || i < period - 1 {
        0
    } else {
        round_div(window_sum(s, i - period + 1, i + 1), period)
    }
}

/// Exponential moving average at one index: seeded with the first value,
/// then `ema + (price - ema) * 2 / (period + 1)`, rounded at every step.
/// Every index has a value; there is no warm-up gap.
pub open spec fn ema_at(s: Seq<int>, period: int, i: int) -> int
    decreases i,
{
    if i <= 0 {
        if s.len() > 0 {
            s[0]
        } else {
            0
        }
    } else {
        round_div(ema_at(s, period, i - 1) * (period - 1) + 2 * s[i], period + 1)
    }
}

pub open spec fn gain_of(delta: int) -> int {
    if delta > 0 {
        delta
    } else {
        0
    }
}

pub open spec fn loss_of(delta: int) -> int {
    if delta < 0 {
        -delta
    } else {
        0
    }
}

/// Sum of the gains over the first `k` consecutive deltas.
pub open spec fn sum_gains(s: Seq<int>, k: int) -> int
    decreases k,
{
    if k <= 0 {
        0
    } else {
        sum_gains(s, k - 1) + gain_of(s[k] - s[k - 1])
    }
}

/// Sum of the losses over the first `k` consecutive deltas.
pub open spec fn sum_losses(s: Seq<int>, k: int) -> int
    decreases k,
{
    if k <= 0 {
        0
    } else {
        sum_losses(s, k - 1) + loss_of(s[k] - s[k - 1])
    }
}

/// Wilder average gain once index `i` is reached: seeded from the first
/// `period` deltas, then `(avg * (period - 1) + gain) / period`, rounded.
pub open spec fn avg_gain_at(s: Seq<int>, period: int, i: int) -> int
    recommends
        1 <= period <= i,
    decreases i - period,
{
    if i <= period {
        round_div(sum_gains(s, period), period)
    } else {
        round_div(avg_gain_at(s, period, i - 1) * (period - 1) + gain_of(s[i] - s[i - 1]), period)
    }
}

/// Wilder average loss, the mirror of `avg_gain_at`.
pub open spec fn avg_loss_at(s: Seq<int>, period: int, i: int) -> int
    recommends
        1 <= period <= i,
    decreases i - period,
{
    if i <= period {
        round_div(sum_losses(s, period), period)
    } else {
        round_div(avg_loss_at(s, period, i - 1) * (period - 1) + loss_of(s[i] - s[i - 1]), period)
    }
}

/// Relative strength index at one index, scaled to `[0, 100 * pow]`:
/// `100` when the average loss is zero, else `100 * gain / (gain + loss)`;
/// `0` while fewer than `period` deltas exist.
pub open spec fn rsi_at(s: Seq<int>, period: int, pow: int, i: int) -> int
    recommends
        1 <= period,
        1 <= pow,
{
    if s.len() < period + 1 || i < period {
        0
    } else {
        let ag = avg_gain_at(s, period, i);
        let al = avg_loss_at(s, period, i);
        if al == 0 {
            100 * pow
        } else {
            round_div(100 * pow * ag, ag + al)
        }
    }
}

/// MACD line: difference of the fast and slow exponential averages.
pub open spec fn macd_line_at(s: Seq<int>, fast: int, slow: int, i: int) -> int {
    ema_at(s, fast, i) - ema_at(s, slow, i)
}

pub open spec fn macd_seq(s: Seq<int>, fast: int, slow: int) -> Seq<int> {
    Seq::new(s.len(), |i: int| macd_line_at(s, fast, slow, i))
}

/// Signal line: the exponential average of the MACD line.
pub open spec fn signal_at(s: Seq<int>, fast: int, slow: int, sp: int, i: int) -> int {
    ema_at(macd_seq(s, fast, slow), sp, i)
}

/// Histogram: the gap between MACD line and signal line, scaled up a
/// thousandfold for display; the factor is a compatibility convention.
pub open spec fn histogram_at(s: Seq<int>, fast: int, slow: int, sp: int, i: int) -> int {
    (macd_line_at(s, fast, slow, i) - signal_at(s, fast, slow, sp, i)) * 1000
}

/// Sum of squared deviations from `m` over `s[lo..hi]`.
pub open spec fn dev_sq_sum(s: Seq<int>, m: int, lo: int, hi: int) -> int
    decreases hi - lo,
{
    if lo >= hi {
        0
    } else {
        dev_sq_sum(s, m, lo, hi - 1) + (s[hi - 1] - m) * (s[hi - 1] - m)
    }
}

/// The band offset at one computed index: `k` times the rounded population
/// standard deviation of the trailing window, rounded to the scale.
pub open spec fn boll_band_at(s: Seq<int>, period: int, k: int, pow: int, i: int) -> int
    recommends
        1 <= period,
        1 <= pow,
{
    let m = sma_at(s, period, i);
    round_div(k * sqrt_round(dev_sq_sum(s, m, i - period + 1, i + 1), period), pow)
}

/// Upper Bollinger band: the moving average plus the band offset; `0` while
/// the window is not yet full.
pub open spec fn boll_upper_at(s: Seq<int>, period: int, k: int, pow: int, i: int) -> int {
    if s.len() < period || i < period - 1 {
        0
    } else {
        sma_at(s, period, i) + boll_band_at(s, period, k, pow, i)
    }
}

/// Lower Bollinger band: the moving average minus the band offset.
pub open spec fn boll_lower_at(s: Seq<int>, period: int, k: int, pow: int, i: int) -> int {
    if s.len() < period || i < period - 1 {
        0
    } else {
        sma_at(s, period, i) - boll_band_at(s, period, k, pow, i)
    }
}

/// The per-point signal derived from one scaled RSI value.
pub open spec fn rsi_signal(v: int, pow: int) -> SignalType {
    if v > 70 * pow {
        SignalType::Sell
    } else if v < 30 * pow {
        SignalType::Buy
    } else {
        SignalType::Hold
    }
}

proof fn lemma_window_sum_low(s: Seq<int>, lo: int, hi: int)
    requires
        lo < hi,
    ensures
        window_sum(s, lo, hi) == s[lo] + window_sum(s, lo + 1, hi),
    decreases hi - lo,
{
    if lo + 1 < hi {
        lemma_window_sum_low(s, lo, hi - 1);
    } else {
        assert(window_sum(s, lo, hi - 1) == 0);
        assert(window_sum(s, lo + 1, hi) == 0);
    }
}

proof fn lemma_window_sum_bound(s: Seq<int>, lo: int, hi: int, c: int)
    requires
        0 <= c,
        lo <= hi,
        forall|j: int| lo <= j < hi ==> -c <= #[trigger] s[j] <= c,
    ensures
        -((hi - lo) * c) <= window_sum(s, lo, hi) <= (hi - lo) * c,
    decreases hi - lo,
{
    if lo >= hi {
        assert((hi - lo) * c == 0) by (nonlinear_arith)
            requires
                hi == lo,
        ;
    } else {
        lemma_window_sum_bound(s, lo, hi - 1, c);
        assert(-c <= s[hi - 1] <= c);
        assert(window_sum(s, lo, hi) == window_sum(s, lo, hi - 1) + s[hi - 1]);
        assert((hi - lo) * c == (hi - 1 - lo) * c + c) by (nonlinear_arith);
    }
}

proof fn lemma_sum_gains_nonneg(s: Seq<int>, k: int)
    ensures
        sum_gains(s, k) >= 0,
        sum_losses(s, k) >= 0,
    decreases k,
{
    if k > 0 {
        lemma_sum_gains_nonneg(s, k - 1);
    }
}

proof fn lemma_sum_gains_bound(s: Seq<int>, k: int, c: int)
    requires
        0 <= c,
        0 <= k,
        forall|j: int| 0 <= j < s.len() ==> -c <= #[trigger] s[j] <= c,
        k < s.len(),
    ensures
        sum_gains(s, k) <= k * 2 * c,
        sum_losses(s, k) <= k * 2 * c,
    decreases k,
{
    if k == 0 {
        assert(0 * 2 * c == 0) by (nonlinear_arith);
    } else {
        lemma_sum_gains_bound(s, k - 1, c);
        assert(k * 2 * c == (k - 1) * 2 * c + 2 * c) by (nonlinear_arith);
    }
}

/// The Wilder averages stay within `[0, 2c]` when the values stay within
/// `[-c, c]`.
proof fn lemma_avg_range(s: Seq<int>, period: int, i: int, c: int)
    requires
        1 <= period <= i,
        0 <= c,
        i < s.len(),
        forall|j: int| 0 <= j < s.len() ==> -c <= #[trigger] s[j] <= c,
    ensures
        0 <= avg_gain_at(s, period, i) <= 2 * c,
        0 <= avg_loss_at(s, period, i) <= 2 * c,
    decreases i,
{
    if i <= period {
        lemma_sum_gains_nonneg(s, period);
        lemma_sum_gains_bound(s, period, c);
        assert(period * 2 * c == period * (2 * c)) by (nonlinear_arith);
        lemma_round_div_bound(sum_gains(s, period), period, 2 * c);
        lemma_round_div_bound(sum_losses(s, period), period, 2 * c);
        lemma_round_div_nonneg(sum_gains(s, period), period);
        lemma_round_div_nonneg(sum_losses(s, period), period);
    } else {
        lemma_avg_range(s, period, i - 1, c);
        let ag = avg_gain_at(s, period, i - 1);
        let al = avg_loss_at(s, period, i - 1);
        let g = gain_of(s[i] - s[i - 1]);
        let l = loss_of(s[i] - s[i - 1]);
        assert(0 <= g <= 2 * c && 0 <= l <= 2 * c);
        assert(ag * (period - 1) + g <= period * (2 * c)) by (nonlinear_arith)
            requires
                0 <= ag <= 2 * c,
                0 <= g <= 2 * c,
                period >= 1,
        ;
        assert(ag * (period - 1) + g >= 0) by (nonlinear_arith)
            requires
                0 <= ag,
                0 <= g,
                period >= 1,
        ;
        assert(al * (period - 1) + l <= period * (2 * c)) by (nonlinear_arith)
            requires
                0 <= al <= 2 * c,
                0 <= l <= 2 * c,
                period >= 1,
        ;
        assert(al * (period - 1) + l >= 0) by (nonlinear_arith)
            requires
                0 <= al,
                0 <= l,
                period >= 1,
        ;
        lemma_round_div_bound(ag * (period - 1) + g, period, 2 * c);
        lemma_round_div_nonneg(ag * (period - 1) + g, period);
        lemma_round_div_bound(al * (period - 1) + l, period, 2 * c);
        lemma_round_div_nonneg(al * (period - 1) + l, period);
    }
}

/// Every RSI value lies within the scaled `[0, 100]` band, placeholders
/// included.
pub proof fn lemma_rsi_range(s: Seq<int>, period: int, pow: int, i: int, c: int)
    requires
        1 <= period,
        1 <= pow,
        0 <= c,
        forall|j: int| 0 <= j < s.len() ==> -c <= #[trigger] s[j] <= c,
        0 <= i < s.len(),
    ensures
        0 <= rsi_at(s, period, pow, i) <= 100 * pow,
{
    if s.len() < period + 1 || i < period {
    } else {
        lemma_avg_range(s, period, i, c);
        let ag = avg_gain_at(s, period, i);
        let al = avg_loss_at(s, period, i);
        if al != 0 {
            assert(100 * pow * ag <= (ag + al) * (100 * pow)) by (nonlinear_arith)
                requires
                    0 <= ag,
                    1 <= al,
                    1 <= pow,
            ;
            assert(0 <= 100 * pow * ag) by (nonlinear_arith)
                requires
                    0 <= ag,
                    1 <= pow,
            ;
            lemma_round_div_bound(100 * pow * ag, ag + al, 100 * pow);
            lemma_round_div_nonneg(100 * pow * ag, ag + al);
        }
    }
}

/// Bollinger bands keep their order at every computed index when the width
/// factor is not negative.
pub proof fn lemma_bollinger_order(s: Seq<int>, period: int, k: int, pow: int, i: int)
    requires
        1 <= period,
        1 <= pow,
        0 <= k,
        s.len() >= period,
        period - 1 <= i < s.len(),
    ensures
        boll_upper_at(s, period, k, pow, i) >= sma_at(s, period, i),
        sma_at(s, period, i) >= boll_lower_at(s, period, k, pow, i),
{
    let m = sma_at(s, period, i);
    let t = sqrt_round(dev_sq_sum(s, m, i - period + 1, i + 1), period);
    crate::arith::lemma_sqrt_round_nonneg(dev_sq_sum(s, m, i - period + 1, i + 1), period);
    assert(0 <= k * t) by (nonlinear_arith)
        requires
            0 <= k,
            0 <= t,
    ;
    lemma_round_div_nonneg(k * t, pow);
}

/// On a strictly increasing series every computed RSI value is exactly the
/// scaled `100`: no losses ever enter the Wilder average.
pub proof fn lemma_rsi_strictly_increasing(s: Seq<int>, period: int, pow: int, i: int)
    requires
        1 <= period,
        1 <= pow,
        forall|j: int| 0 < j < s.len() ==> #[trigger] s[j] > s[j - 1],
        period <= i < s.len(),
        s.len() >= period + 1,
    ensures
        rsi_at(s, period, pow, i) == 100 * pow,
{
    lemma_avg_loss_zero(s, period, i);
}

proof fn lemma_sum_losses_zero(s: Seq<int>, k: int)
    requires
        forall|j: int| 0 < j < s.len() ==> #[trigger] s[j] > s[j - 1],
        k < s.len(),
    ensures
        sum_losses(s, k) == 0,
    decreases k,
{
    if k > 0 {
        lemma_sum_losses_zero(s, k - 1);
    }
}

proof fn lemma_avg_loss_zero(s: Seq<int>, period: int, i: int)
    requires
        1 <= period <= i,
        i < s.len(),
        forall|j: int| 0 < j < s.len() ==> #[trigger] s[j] > s[j - 1],
    ensures
        avg_loss_at(s, period, i) == 0,
    decreases i,
{
    if i <= period {
        lemma_sum_losses_zero(s, period);
        crate::arith::lemma_round_div_exact(0, period);
        assert(0 * period == 0) by (nonlinear_arith);
    } else {
        lemma_avg_loss_zero(s, period, i - 1);
        assert(loss_of(s[i] - s[i - 1]) == 0);
        assert(0 * (period - 1) + 0 == 0) by (nonlinear_arith);
        crate::arith::lemma_round_div_exact(0, period);
        assert(0 * period == 0) by (nonlinear_arith);
    }
}

/// The three oscillator families all return one value per input value: the
/// lengths of SMA, EMA and RSI all equal the series length.
pub proof fn lemma_indicator_lengths(s: Seq<int>, period: int, pow: int)
    ensures
        Seq::new(s.len(), |i: int| sma_at(s, period, i)).len() == s.len(),
        Seq::new(s.len(), |i: int| ema_at(s, period, i)).len() == s.len(),
        Seq::new(s.len(), |i: int| rsi_at(s, period, pow, i)).len() == s.len(),
{
}

/// The indicator calculator: carries the fixed-point precision that every
/// computation rounds to.
#[derive(Debug, Clone)]
pub struct TechnicalIndicators {
    pub precision: usize,
}

impl TechnicalIndicators {
    /// The precision must leave room for the scale in 64-bit arithmetic.
    pub open spec fn wf(&self) -> bool {
        self.precision <= MAX_PRECISION
    }

    /// The scale factor `10^precision`.
    pub open spec fn pow(&self) -> int {
        pow10(self.precision as nat)
    }

    pub fn new() -> (r: Self)
        ensures
            r.precision == 4,
            r.wf(),
    {
        TechnicalIndicators { precision: 4 }
    }

    pub fn with_precision(precision: usize) -> (r: Self)
        requires
            precision <= MAX_PRECISION,
        ensures
            r.precision == precision,
            r.wf(),
    {
        TechnicalIndicators { precision }
    }

    /// Simple moving average over a sliding window: one pass, a running sum.
    /// A window must have at least one value to have a mean.
    pub fn calculate_sma(&self, prices: &Vec<i64>, period: usize) -> (r: Vec<i64>)
        requires
            1 <= period,
            forall|j: int|
                0 <= j < prices@.len() ==> -VALUE_CAP <= #[trigger] prices@[j] <= VALUE_CAP,
        ensures
            r@.len() == prices@.len(),
            forall|i: int|
                0 <= i < r@.len() ==> #[trigger] r@[i] == sma_at(
                    ints_of(prices@),
                    period as int,
                    i,
                ),
            forall|i: int| 0 <= i < r@.len() ==> -VALUE_CAP <= #[trigger] r@[i] <= VALUE_CAP,
    {
        let ghost s = ints_of(prices@);
        let n: usize = prices.len();
        let mut out: Vec<i64> = Vec::new();
        if n < period {
            let mut i: usize = 0;
            while i < n
                invariant
                    0 <= i <= n,
                    n == prices@.len(),
                    n < period,
                    out@.len() == i,
                    s.len() == n,
                    forall|j: int| 0 <= j < i ==> #[trigger] out@[j] == 0,
                decreases n - i,
            {
                out.push(0);
                i = i + 1;
            }
            return out;
        }
        let mut sum: i128 = 0;
        let mut i: usize = 0;
        while i < n
            invariant
                0 <= i <= n,
                n == prices@.len(),
                s.len() == n,
                s == ints_of(prices@),
                period <= n,
                1 <= period,
                forall|j: int| 0 <= j < n ==> -VALUE_CAP <= #[trigger] s[j] <= VALUE_CAP,
                forall|j: int|
                    0 <= j < n ==> -VALUE_CAP <= #[trigger] prices@[j] <= VALUE_CAP,
                sum == window_sum(s, if i <= period {
                    0
                } else {
                    i - period
                }, i as int),
                -(period * VALUE_CAP) <= sum <= period * VALUE_CAP,
                out@.len() == i,
                forall|j: int|
                    0 <= j < i ==> #[trigger] out@[j] == sma_at(s, period as int, j),
                forall|j: int| 0 <= j < i ==> -VALUE_CAP <= #[trigger] out@[j] <= VALUE_CAP,
            decreases n - i,
        {
            let ghost lo = if i <= period {
                0int
            } else {
                i - period
            };
            proof {
                lemma_window_sum_bound(s, lo, i as int, VALUE_CAP as int);
                assert((i as int - lo) * VALUE_CAP <= period * VALUE_CAP) by (nonlinear_arith)
                    requires
                        0 <= i as int - lo <= period,
                        VALUE_CAP > 0,
                ;
                assert((period as int) * VALUE_CAP <= 36_893_488_147_419_103_232 * VALUE_CAP && 0
                    <= (period as int) * VALUE_CAP) by (nonlinear_arith)
                    requires
                        1 <= period as int <= 36_893_488_147_419_103_232,
                ;
            }
            sum = sum + prices[i] as i128;
            if i >= period {
                proof {
                    lemma_window_sum_low(s, i - period, i as int + 1);
                }
                sum = sum - prices[i - period] as i128;
            }
            proof {
                let lo2 = i as int + 1 - period;
                if lo2 >= 0 {
                    lemma_window_sum_bound(s, lo2, i as int + 1, VALUE_CAP as int);
                    assert((i as int + 1 - lo2) * VALUE_CAP == period * VALUE_CAP)
                        by (nonlinear_arith)
                        requires
                            i as int + 1 - lo2 == period,
                    ;
                } else {
                    lemma_window_sum_bound(s, 0, i as int + 1, VALUE_CAP as int);
                    assert((i as int + 1) * VALUE_CAP <= period * VALUE_CAP) by (nonlinear_arith)
                        requires
                            0 <= i as int + 1 <= period,
                            VALUE_CAP > 0,
                    ;
                }
            }
            let v: i64 = if i + 1 >= period {
                proof {
                    assert(period * VALUE_CAP == (period as int) * (VALUE_CAP as int));
                    lemma_round_div_bound(sum as int, period as int, VALUE_CAP as int);
                }
                round_div_i128(sum, period as i128) as i64
            } else {
                0
            };
            out.push(v);
            i = i + 1;
        }
        out
    }

    /// Exponential moving average; every index is defined from the seed on.
    /// The smoothing factor `2 / (period + 1)` must stay at most one, so the
    /// values stay within the range of the inputs: the period is positive.
    pub fn calculate_ema(&self, prices: &Vec<i64>, period: usize) -> (r: Vec<i64>)
        requires
            1 <= period,
            forall|j: int|
                0 <= j < prices@.len() ==> -VALUE_CAP <= #[trigger] prices@[j] <= VALUE_CAP,
        ensures
            r@.len() == prices@.len(),
            forall|i: int|
                0 <= i < r@.len() ==> #[trigger] r@[i] == ema_at(
                    ints_of(prices@),
                    period as int,
                    i,
                ),
            forall|i: int| 0 <= i < r@.len() ==> -VALUE_CAP <= #[trigger] r@[i] <= VALUE_CAP,
    {
        ema_core(prices, period, VALUE_CAP)
    }

    /// Relative strength index with Wilder smoothing; the running averages
    /// are themselves kept at the configured precision, and their seed
    /// averages over a positive period.
    pub fn calculate_rsi(&self, prices: &Vec<i64>, period: usize) -> (r: Vec<i64>)
        requires
            self.wf(),
            1 <= period,
            forall|j: int|
                0 <= j < prices@.len() ==> -VALUE_CAP <= #[trigger] prices@[j] <= VALUE_CAP,
        ensures
            r@.len() == prices@.len(),
            forall|i: int|
                0 <= i < r@.len() ==> #[trigger] r@[i] == rsi_at(
                    ints_of(prices@),
                    period as int,
                    self.pow(),
                    i,
                ),
            forall|i: int| 0 <= i < r@.len() ==> 0 <= #[trigger] r@[i] <= 100 * self.pow(),
    {
        let ghost s = ints_of(prices@);
        let pw: i64 = pow10_i64(self.precision);
        let n: usize = prices.len();
        let mut out: Vec<i64> = Vec::new();
        if n <= period {
            let mut i: usize = 0;
            while i < n
                invariant
                    0 <= i <= n,
                    n == prices@.len(),
                    s.len() == n,
                    n <= period,
                    out@.len() == i,
                    forall|j: int| 0 <= j < i ==> #[trigger] out@[j] == 0,
                decreases n - i,
            {
                out.push(0);
                i = i + 1;
            }
            return out;
        }
        let mut gains: i128 = 0;
        let mut losses: i128 = 0;
        let mut i: usize = 1;
        while i <= period
            invariant
                1 <= i <= period + 1,
                period < n,
                n == prices@.len(),
                s.len() == n,
                s == ints_of(prices@),
                forall|j: int| 0 <= j < n ==> -VALUE_CAP <= #[trigger] s[j] <= VALUE_CAP,
                forall|j: int|
                    0 <= j < n ==> -VALUE_CAP <= #[trigger] prices@[j] <= VALUE_CAP,
                gains == sum_gains(s, i as int - 1),
                losses == sum_losses(s, i as int - 1),
                0 <= gains <= (i - 1) * (2 * VALUE_CAP),
                0 <= losses <= (i - 1) * (2 * VALUE_CAP),
            decreases period + 1 - i,
        {
            proof {
                assert((i as int - 1) * (2 * VALUE_CAP) <= 36_893_488_147_419_103_232 * (2
                    * VALUE_CAP)) by (nonlinear_arith)
                    requires
                        0 <= i as int - 1 <= 36_893_488_147_419_103_232,
                ;
            }
            let change: i128 = prices[i] as i128 - prices[i - 1] as i128;
            if change > 0 {
                gains = gains + change;
            } else {
                losses = losses - change;
            }
            proof {
                assert((i as int) * (2 * VALUE_CAP) == (i as int - 1) * (2 * VALUE_CAP) + 2
                    * VALUE_CAP) by (nonlinear_arith);
            }
            i = i + 1;
        }
        proof {
            assert((period as int) * (2 * VALUE_CAP) >= 0 && (period as int) * (2 * VALUE_CAP)
                == (period as int) * (2 * VALUE_CAP)) by (nonlinear_arith)
                requires
                    period >= 1,
            ;
            assert(gains <= (period as int) * (2 * VALUE_CAP) && losses <= (period as int) * (2
                * VALUE_CAP));
            lemma_round_div_bound(gains as int, period as int, 2 * VALUE_CAP);
            lemma_round_div_bound(losses as int, period as int, 2 * VALUE_CAP);
            lemma_round_div_nonneg(gains as int, period as int);
            lemma_round_div_nonneg(losses as int, period as int);
        }
        let mut ag: i64 = round_div_i128(gains, period as i128) as i64;
        let mut al: i64 = round_div_i128(losses, period as i128) as i64;
        let mut k: usize = 0;
        while k < period
            invariant
                0 <= k <= period,
                out@.len() == k,
                forall|j: int| 0 <= j < k ==> #[trigger] out@[j] == 0,
            decreases period - k,
        {
            out.push(0);
            k = k + 1;
        }
        let mut i: usize = period;
        while i < n
            invariant
                period <= i <= n,
                1 <= period < n,
                n == prices@.len(),
                s.len() == n,
                s == ints_of(prices@),
                self.wf(),
                pw == self.pow(),
                1 <= pw <= 100_000_000,
                forall|j: int| 0 <= j < n ==> -VALUE_CAP <= #[trigger] s[j] <= VALUE_CAP,
                forall|j: int|
                    0 <= j < n ==> -VALUE_CAP <= #[trigger] prices@[j] <= VALUE_CAP,
                i < n ==> ag == avg_gain_at(s, period as int, i as int),
                i < n ==> al == avg_loss_at(s, period as int, i as int),
                0 <= ag <= 2 * VALUE_CAP,
                0 <= al <= 2 * VALUE_CAP,
                out@.len() == i,
                forall|j: int|
                    0 <= j < i ==> #[trigger] out@[j] == rsi_at(
                        s,
                        period as int,
                        self.pow(),
                        j,
                    ),
                forall|j: int| 0 <= j < i ==> 0 <= #[trigger] out@[j] <= 100 * self.pow(),
            decreases n - i,
        {
            let v: i64 = if al == 0 {
                100 * pw
            } else {
                proof {
                    assert(100 * (pw as int) * ag <= (ag as int + al) * (100 * pw) && 0 <= 100 * (
                    pw as int) * ag <= 3_000_000_000_000_000_000_000_000) by (nonlinear_arith)
                        requires
                            0 <= ag <= 2 * VALUE_CAP,
                            1 <= al,
                            1 <= pw <= 100_000_000,
                    ;
                    lemma_round_div_bound(
                        100 * (pw as int) * ag,
                        ag as int + al,
                        100 * pw,
                    );
                    lemma_round_div_nonneg(100 * (pw as int) * ag, ag as int + al);
                }
                round_div_i128(100 * pw as i128 * ag as i128, ag as i128 + al as i128) as i64
            };
            out.push(v);
            if i + 1 < n {
                let change: i128 = prices[i + 1] as i128 - prices[i] as i128;
                let g: i128 = if change > 0 {
                    change
                } else {
                    0
                };
                let l: i128 = if change < 0 {
                    -change
                } else {
                    0
                };
                proof {
                    assert(ag * (period as int - 1) + g <= (period as int) * (2 * VALUE_CAP) && 0
                        <= ag * (period as int - 1) && ag * (period as int - 1) + g >= 0)
                        by (nonlinear_arith)
                        requires
                            0 <= ag <= 2 * VALUE_CAP,
                            0 <= g <= 2 * VALUE_CAP,
                            period >= 1,
                    ;
                    assert(al * (period as int - 1) + l <= (period as int) * (2 * VALUE_CAP) && 0
                        <= al * (period as int - 1) && al * (period as int - 1) + l >= 0)
                        by (nonlinear_arith)
                        requires
                            0 <= al <= 2 * VALUE_CAP,
                            0 <= l <= 2 * VALUE_CAP,
                            period >= 1,
                    ;
                    assert((period as int) * (2 * VALUE_CAP) <= 36_893_488_147_419_103_232 * (2
                        * VALUE_CAP) && 0 <= (period as int) * (2 * VALUE_CAP))
                        by (nonlinear_arith)
                        requires
                            1 <= period as int <= 36_893_488_147_419_103_232,
                    ;
                    lemma_round_div_bound(
                        ag * (period as int - 1) + g,
                        period as int,
                        2 * VALUE_CAP,
                    );
                    lemma_round_div_nonneg(ag * (period as int - 1) + g, period as int);
                    lemma_round_div_bound(
                        al * (period as int - 1) + l,
                        period as int,
                        2 * VALUE_CAP,
                    );
                    lemma_round_div_nonneg(al * (period as int - 1) + l, period as int);
                }
                ag = round_div_i128(ag as i128 * (period as i128 - 1) + g, period as i128) as i64;
                al = round_div_i128(al as i128 * (period as i128 - 1) + l, period as i128) as i64;
            }
            i = i + 1;
        }
        out
    }

    /// Bollinger bands: the moving average in the middle, `std_dev` rounded
    /// standard deviations (population variance) on either side. Returned in
    /// the order upper, middle, lower.
    pub fn calculate_bollinger_bands(
        &self,
        prices: &Vec<i64>,
        period: usize,
        std_dev: i64,
    ) -> (r: (Vec<i64>, Vec<i64>, Vec<i64>))
        requires
            self.wf(),
            1 <= period <= 10_000_000,
            -1000 * self.pow() <= std_dev <= 1000 * self.pow(),
            forall|j: int|
                0 <= j < prices@.len() ==> -VALUE_CAP <= #[trigger] prices@[j] <= VALUE_CAP,
        ensures
            r.0@.len() == prices@.len(),
            r.1@.len() == prices@.len(),
            r.2@.len() == prices@.len(),
            forall|i: int|
                0 <= i < prices@.len() ==> #[trigger] r.0@[i] == boll_upper_at(
                    ints_of(prices@),
                    period as int,
                    std_dev as int,
                    self.pow(),
                    i,
                ),
            forall|i: int|
                0 <= i < prices@.len() ==> #[trigger] r.1@[i] == sma_at(
                    ints_of(prices@),
                    period as int,
                    i,
                ),
            forall|i: int|
                0 <= i < prices@.len() ==> #[trigger] r.2@[i] == boll_lower_at(
                    ints_of(prices@),
                    period as int,
                    std_dev as int,
                    self.pow(),
                    i,
                ),
    {
        let ghost s = ints_of(prices@);
        let pw: i64 = pow10_i64(self.precision);
        let n: usize = prices.len();
        let sma = self.calculate_sma(prices, period);
        let mut upper: Vec<i64> = Vec::new();
        let mut lower: Vec<i64> = Vec::new();
        let mut i: usize = 0;
        while i < n
            invariant
                0 <= i <= n,
                n == prices@.len(),
                s.len() == n,
                s == ints_of(prices@),
                self.wf(),
                pw == self.pow(),
                1 <= pw <= 100_000_000,
                1 <= period <= 10_000_000,
                -1000 * self.pow() <= std_dev <= 1000 * self.pow(),
                sma@.len() == n,
                forall|j: int|
                    0 <= j < n ==> #[trigger] sma@[j] == sma_at(s, period as int, j),
                forall|j: int| 0 <= j < n ==> -VALUE_CAP <= #[trigger] sma@[j] <= VALUE_CAP,
                forall|j: int| 0 <= j < n ==> -VALUE_CAP <= #[trigger] s[j] <= VALUE_CAP,
                forall|j: int|
                    0 <= j < n ==> -VALUE_CAP <= #[trigger] prices@[j] <= VALUE_CAP,
                upper@.len() == i,
                lower@.len() == i,
                forall|j: int|
                    0 <= j < i ==> #[trigger] upper@[j] == boll_upper_at(
                        s,
                        period as int,
                        std_dev as int,
                        self.pow(),
                        j,
                    ),
                forall|j: int|
                    0 <= j < i ==> #[trigger] lower@[j] == boll_lower_at(
                        s,
                        period as int,
                        std_dev as int,
                        self.pow(),
                        j,
                    ),
            decreases n - i,
        {
            if n < period || i + 1 < period {
                upper.push(0);
                lower.push(0);
            } else {
                let m: i64 = sma[i];
                let lo: usize = i + 1 - period;
                let mut s2: u128 = 0;
                let mut j: usize = lo;
                while j <= i
                    invariant
                        lo <= j <= i + 1,
                        i < n,
                        n == prices@.len(),
                        s.len() == n,
                        s == ints_of(prices@),
                        lo == i + 1 - period,
                        1 <= period <= 10_000_000,
                        -VALUE_CAP <= m <= VALUE_CAP,
                        forall|q: int| 0 <= q < n ==> -VALUE_CAP <= #[trigger] s[q] <= VALUE_CAP,
                        forall|q: int|
                            0 <= q < n ==> -VALUE_CAP <= #[trigger] prices@[q] <= VALUE_CAP,
                        s2 == dev_sq_sum(s, m as int, lo as int, j as int),
                        s2 <= (j - lo) * ((2 * VALUE_CAP) * (2 * VALUE_CAP)),
                    decreases i + 1 - j,
                {
                    let d: i128 = prices[j] as i128 - m as i128;
                    proof {
                        assert((2 * VALUE_CAP) * (2 * VALUE_CAP)
                            == 40_000_000_000_000_000_000_000_000_000) by (nonlinear_arith);
                        assert(0 <= d * d <= (2 * VALUE_CAP) * (2 * VALUE_CAP))
                            by (nonlinear_arith)
                            requires
                                -2 * VALUE_CAP <= d <= 2 * VALUE_CAP,
                        ;
                        assert((j as int + 1 - lo) * ((2 * VALUE_CAP) * (2 * VALUE_CAP)) == (j
                            as int - lo) * ((2 * VALUE_CAP) * (2 * VALUE_CAP)) + (2 * VALUE_CAP)
                            * (2 * VALUE_CAP)) by (nonlinear_arith);
                        assert((j as int - lo) * ((2 * VALUE_CAP) * (2 * VALUE_CAP)) <= 10_000_000
                            * ((2 * VALUE_CAP) * (2 * VALUE_CAP)) && 0 <= (j as int - lo) * ((2
                            * VALUE_CAP) * (2 * VALUE_CAP))) by (nonlinear_arith)
                            requires
                                0 <= j as int - lo <= 10_000_000,
                        ;
                    }
                    s2 = s2 + (d * d) as u128;
                    j = j + 1;
                }
                proof {
                    assert((i as int + 1 - lo) * ((2 * VALUE_CAP) * (2 * VALUE_CAP)) <= (
                    10_000_000) * ((2 * VALUE_CAP) * (2 * VALUE_CAP))) by (nonlinear_arith)
                        requires
                            0 <= i as int + 1 - lo <= 10_000_000,
                    ;
                    lemma_sqrt_round_bound(s2 as int, period as int, 2 * VALUE_CAP);
                    assert(s2 <= (period as int) * ((2 * VALUE_CAP) * (2 * VALUE_CAP)))
                        by (nonlinear_arith)
                        requires
                            s2 <= (i as int + 1 - lo) * ((2 * VALUE_CAP) * (2 * VALUE_CAP)),
                            i as int + 1 - lo == period as int,
                    ;
                }
                let t: u128 = sqrt_round_u128(s2, period as u128);
                proof {
                    let ti = t as int;
                    assert(-((pw as int) * (1000 * (2 * VALUE_CAP))) <= (std_dev as int) * ti <= (
                    pw as int) * (1000 * (2 * VALUE_CAP)) && (pw as int) * (1000 * (2
                        * VALUE_CAP)) <= 20_000_000_000_000_000_000_000_000) by (nonlinear_arith)
                        requires
                            0 <= ti <= 2 * VALUE_CAP,
                            -1000 * (pw as int) <= std_dev as int <= 1000 * (pw as int),
                            1 <= pw <= 100_000_000,
                    ;
                    lemma_round_div_bound(
                        (std_dev as int) * ti,
                        pw as int,
                        1000 * (2 * VALUE_CAP),
                    );
                }
                let band: i64 = round_div_i128(std_dev as i128 * t as i128, pw as i128) as i64;
                upper.push(m + band);
                lower.push(m - band);
            }
            i = i + 1;
        }
        (upper, sma, lower)
    }

    /// MACD: the line is the gap between fast and slow EMA; the signal line
    /// smooths the line; the histogram scales their gap for display. Returned
    /// in the order line, signal, histogram.
    pub fn calculate_macd(
        &self,
        prices: &Vec<i64>,
        fast_period: usize,
        slow_period: usize,
        signal_period: usize,
    ) -> (r: (Vec<i64>, Vec<i64>, Vec<i64>))
        requires
            1 <= fast_period,
            1 <= slow_period,
            1 <= signal_period,
            forall|j: int|
                0 <= j < prices@.len() ==> -VALUE_CAP <= #[trigger] prices@[j] <= VALUE_CAP,
        ensures
            r.0@.len() == prices@.len(),
            r.1@.len() == prices@.len(),
            r.2@.len() == prices@.len(),
            forall|i: int|
                0 <= i < prices@.len() ==> #[trigger] r.0@[i] == macd_line_at(
                    ints_of(prices@),
                    fast_period as int,
                    slow_period as int,
                    i,
                ),
            forall|i: int|
                0 <= i < prices@.len() ==> #[trigger] r.1@[i] == signal_at(
                    ints_of(prices@),
                    fast_period as int,
                    slow_period as int,
                    signal_period as int,
                    i,
                ),
            forall|i: int|
                0 <= i < prices@.len() ==> #[trigger] r.2@[i] == histogram_at(
                    ints_of(prices@),
                    fast_period as int,
                    slow_period as int,
                    signal_period as int,
                    i,
                ),
            forall|i: int|
                0 <= i < prices@.len() ==> -2 * VALUE_CAP <= #[trigger] r.0@[i] <= 2
                    * VALUE_CAP,
    {
        let ghost s = ints_of(prices@);
        let n: usize = prices.len();
        let ema_fast = ema_core(prices, fast_period, VALUE_CAP);
        let ema_slow = ema_core(prices, slow_period, VALUE_CAP);
        let mut macd_line: Vec<i64> = Vec::new();
        let mut i: usize = 0;
        while i < n
            invariant
                0 <= i <= n,
                n == prices@.len(),
                s == ints_of(prices@),
                s.len() == n,
                ema_fast@.len() == n,
                ema_slow@.len() == n,
                forall|j: int|
                    0 <= j < n ==> #[trigger] ema_fast@[j] == ema_at(s, fast_period as int, j),
                forall|j: int|
                    0 <= j < n ==> #[trigger] ema_slow@[j] == ema_at(s, slow_period as int, j),
                forall|j: int| 0 <= j < n ==> -VALUE_CAP <= #[trigger] ema_fast@[j] <= VALUE_CAP,
                forall|j: int| 0 <= j < n ==> -VALUE_CAP <= #[trigger] ema_slow@[j] <= VALUE_CAP,
                macd_line@.len() == i,
                forall|j: int|
                    0 <= j < i ==> #[trigger] macd_line@[j] == macd_line_at(
                        s,
                        fast_period as int,
                        slow_period as int,
                        j,
                    ),
                forall|j: int|
                    0 <= j < i ==> -2 * VALUE_CAP <= #[trigger] macd_line@[j] <= 2 * VALUE_CAP,
            decreases n - i,
        {
            macd_line.push(ema_fast[i] - ema_slow[i]);
            i = i + 1;
        }
        proof {
            assert(ints_of(macd_line@) =~= macd_seq(s, fast_period as int, slow_period as int));
        }
        let signal_line = ema_core(&macd_line, signal_period, 2 * VALUE_CAP);
        let mut histogram: Vec<i64> = Vec::new();
        let mut i: usize = 0;
        while i < n
            invariant
                0 <= i <= n,
                n == prices@.len(),
                s == ints_of(prices@),
                s.len() == n,
                macd_line@.len() == n,
                signal_line@.len() == n,
                forall|j: int|
                    0 <= j < n ==> #[trigger] macd_line@[j] == macd_line_at(
                        s,
                        fast_period as int,
                        slow_period as int,
                        j,
                    ),
                forall|j: int|
                    0 <= j < n ==> #[trigger] signal_line@[j] == signal_at(
                        s,
                        fast_period as int,
                        slow_period as int,
                        signal_period as int,
                        j,
                    ),
                forall|j: int|
                    0 <= j < n ==> -2 * VALUE_CAP <= #[trigger] macd_line@[j] <= 2 * VALUE_CAP,
                forall|j: int|
                    0 <= j < n ==> -2 * VALUE_CAP <= #[trigger] signal_line@[j] <= 2 * VALUE_CAP,
                histogram@.len() == i,
                forall|j: int|
                    0 <= j < i ==> #[trigger] histogram@[j] == histogram_at(
                        s,
                        fast_period as int,
                        slow_period as int,
                        signal_period as int,
                        j,
                    ),
            decreases n - i,
        {
            histogram.push((macd_line[i] - signal_line[i]) * 1000);
            i = i + 1;
        }
        (macd_line, signal_line, histogram)
    }

    /// Builds the RSI(14) indicator series of one observation list, with a
    /// per-point signal from the 70/30 thresholds; an empty list is the one
    /// invalid input.
    pub fn calculate_from_market_data(&self, data: &Vec<MarketData>, symbol: &str) -> (r: Result<
        IndicatorResult,
        AlphaError,
    >)
        requires
            self.wf(),
            forall|j: int|
                0 <= j < data@.len() ==> -VALUE_CAP <= #[trigger] data@[j].price <= VALUE_CAP,
        ensures
            r is Err <==> data@.len() == 0,
            r matches Err(e) ==> e matches AlphaError::InvalidInput(m) && m@
                == "Empty market data"@,
            r matches Ok(ind) ==> {
                &&& ind.name@ == "RSI(14)"@
                &&& ind.timestamps@.len() == data@.len()
                &&& forall|i: int|
                    0 <= i < data@.len() ==> #[trigger] ind.timestamps@[i] == data@[i].timestamp
                &&& ind.values@.len() == data@.len()
                &&& forall|i: int|
                    0 <= i < data@.len() ==> #[trigger] ind.values@[i] == rsi_at(
                        prices_of(data@),
                        14,
                        self.pow(),
                        i,
                    )
                &&& ind.signals@.len() == data@.len()
                &&& forall|i: int|
                    0 <= i < data@.len() ==> #[trigger] ind.signals@[i] == rsi_signal(
                        ind.values@[i] as int,
                        self.pow(),
                    )
            },
    {
        let n: usize = data.len();
        if n == 0 {
            return Err(AlphaError::invalid_input(String::from_str("Empty market data")));
        }
        let pw: i64 = pow10_i64(self.precision);
        let mut prices: Vec<i64> = Vec::new();
        let mut timestamps: Vec<i64> = Vec::new();
        let mut i: usize = 0;
        while i < n
            invariant
                0 <= i <= n,
                n == data@.len(),
                forall|j: int|
                    0 <= j < n ==> -VALUE_CAP <= #[trigger] data@[j].price <= VALUE_CAP,
                prices@.len() == i,
                timestamps@.len() == i,
                forall|j: int| 0 <= j < i ==> #[trigger] prices@[j] == data@[j].price,
                forall|j: int| 0 <= j < i ==> #[trigger] timestamps@[j] == data@[j].timestamp,
            decreases n - i,
        {
            prices.push(data[i].price);
            timestamps.push(data[i].timestamp);
            i = i + 1;
        }
        proof {
            assert(ints_of(prices@) =~= prices_of(data@));
        }
        let rsi_values = self.calculate_rsi(&prices, 14);
        let mut signals: Vec<SignalType> = Vec::new();
        let mut i: usize = 0;
        while i < n
            invariant
                0 <= i <= n,
                n == data@.len(),
                rsi_values@.len() == n,
                self.wf(),
                pw == self.pow(),
                1 <= pw <= 100_000_000,
                signals@.len() == i,
                forall|j: int|
                    0 <= j < i ==> #[trigger] signals@[j] == rsi_signal(
                        rsi_values@[j] as int,
                        self.pow(),
                    ),
            decreases n - i,
        {
            let v: i64 = rsi_values[i];
            let sig: SignalType = if v > 70 * pw {
                SignalType::Sell
            } else if v < 30 * pw {
                SignalType::Buy
            } else {
                SignalType::Hold
            };
            signals.push(sig);
            i = i + 1;
        }
        Ok(
            IndicatorResult {
                name: String::from_str("RSI(14)"),
                timestamps,
                values: rsi_values,
                signals,
            },
        )
    }
}

impl Default for TechnicalIndicators {
    fn default() -> (r: Self)
        ensures
            r.precision == 4,
            r.wf(),
    {
        TechnicalIndicators::new()
    }
}

/// The EMA recurrence shared by the public EMA and the MACD internals: the
/// output stays within the cap its input obeys.
fn ema_core(values: &Vec<i64>, period: usize, cap: i64) -> (r: Vec<i64>)
    requires
        1 <= period,
        1 <= cap <= 1_000_000_000_000_000,
        forall|j: int| 0 <= j < values@.len() ==> -cap <= #[trigger] values@[j] <= cap,
    ensures
        r@.len() == values@.len(),
        forall|i: int|
            0 <= i < r@.len() ==> #[trigger] r@[i] == ema_at(ints_of(values@), period as int, i),
        forall|i: int| 0 <= i < r@.len() ==> -cap <= #[trigger] r@[i] <= cap,
{
    let ghost s = ints_of(values@);
    let n: usize = values.len();
    let mut out: Vec<i64> = Vec::new();
    if n == 0 {
        return out;
    }
    let mut prev: i64 = values[0];
    out.push(prev);
    let mut i: usize = 1;
    while i < n
        invariant
            1 <= i <= n,
            n == values@.len(),
            s == ints_of(values@),
            s.len() == n,
            1 <= period,
            1 <= cap <= 1_000_000_000_000_000,
            forall|j: int| 0 <= j < n ==> -cap <= #[trigger] s[j] <= cap,
            forall|j: int| 0 <= j < n ==> -cap <= #[trigger] values@[j] <= cap,
            prev == ema_at(s, period as int, i as int - 1),
            -cap <= prev <= cap,
            out@.len() == i,
            forall|j: int| 0 <= j < i ==> #[trigger] out@[j] == ema_at(s, period as int, j),
            forall|j: int| 0 <= j < i ==> -cap <= #[trigger] out@[j] <= cap,
        decreases n - i,
    {
        proof {
            let pi = period as int;
            let pv = prev as int;
            let vi = s[i as int];
            assert(vi == values@[i as int] as int);
            assert(-((pi + 1) * cap) <= pv * (pi - 1) + 2 * vi <= (pi + 1) * cap && -((pi + 1)
                * cap) <= pv * (pi - 1) <= (pi + 1) * cap) by (nonlinear_arith)
                requires
                    -cap <= pv <= cap,
                    -cap <= vi <= cap,
                    pi >= 1,
            ;
            assert((pi + 1) * (cap as int) <= 36_893_488_147_419_103_232
                * 1_000_000_000_000_000 && 0 <= (pi + 1) * (cap as int)) by (nonlinear_arith)
                requires
                    1 <= pi + 1 <= 36_893_488_147_419_103_232,
                    1 <= cap as int <= 1_000_000_000_000_000,
            ;
        }
        let num: i128 = prev as i128 * (period as i128 - 1) + 2 * values[i] as i128;
        proof {
            lemma_round_div_bound(num as int, period as int + 1, cap as int);
        }
        let v: i64 = round_div_i128(num, period as i128 + 1) as i64;
        out.push(v);
        prev = v;
        i = i + 1;
    }
    out
}

} // verus!

