//! The analysis engine: one instrument's series in, one result out.
//!
//! The engine runs the indicator library over the series, derives risk
//! metrics from the raw prices, fuses the indicator outputs into a single
//! recommendation by counted votes, and scores how much of the indicator set
//! had data to offer. Everything is fixed-point at the engine's precision.

use vstd::prelude::*;

verus! {

use crate::arith::round_div;
use crate::arith::round_div_i128;
use crate::arith::sqrt_round;
use crate::arith::sqrt_round_u128;
use crate::arith::pow10_i64;
use crate::arith::lemma_round_div_bound;
use crate::arith::lemma_round_div_nonneg;
use crate::arith::lemma_round_div_exact;
use crate::arith::lemma_sqrt_round_bound;
use crate::arith::lemma_pow10_le_max;
use crate::arith::VALUE_CAP;
use crate::arith::MAX_PRECISION;
use crate::arith::MAX_POINTS;
use crate::errors::AlphaError;
use crate::errors::AlphaResult;
use crate::indicators::ints_of;
use crate::indicators::prices_of;
use crate::indicators::sma_at;
use crate::indicators::macd_line_at;
use crate::indicators::rsi_at;
use crate::indicators::rsi_signal;
use crate::indicators::TechnicalIndicators;
use crate::models::AnalysisResult;
use crate::models::IndicatorResult;
use crate::models::MarketData;
use crate::models::RiskMetrics;
use crate::models::SignalType;
use crate::models::TradingStrategy;
use crate::utils::time::current_timestamp_ms;
use vstd::string::StringExecFns;

/// A scaled price the risk arithmetic can accept: positive, at most a
/// million once unscaled, and large enough against the scale that every
/// simple return stays representable.
pub open spec fn price_in_range(p: int, pow: int) -> bool {
    &&& 1 <= p <= 1_000_000 * pow
    &&& pow * pow <= 100_000_000 * p
}

/// Scaled simple return `(p[i] - p[i-1]) / p[i-1]`.
pub open spec fn return_at(p: Seq<int>, pow: int, i: int) -> int
    recommends
        1 <= i < p.len(),
        p[i - 1] >= 1,
{
    round_div((p[i] - p[i - 1]) * pow, p[i - 1])
}

/// Sum of the first `k` returns.
pub open spec fn sum_returns(p: Seq<int>, pow: int, k: int) -> int
    decreases k,
{
    if k <= 0 {
        0
    } else {
        sum_returns(p, pow, k - 1) + return_at(p, pow, k)
    }
}

/// The mean return, itself held at the configured precision.
pub open spec fn mean_return(p: Seq<int>, pow: int) -> int
    recommends
        p.len() >= 2,
{
    round_div(sum_returns(p, pow, p.len() - 1), p.len() - 1)
}

/// Sum of squared deviations of the first `k` returns from `mu`.
pub open spec fn sum_dev_sq(p: Seq<int>, pow: int, mu: int, k: int) -> int
    decreases k,
{
    if k <= 0 {
        0
    } else {
        sum_dev_sq(p, pow, mu, k - 1) + (return_at(p, pow, k) - mu) * (return_at(p, pow, k)
            - mu)
    }
}

/// Annualized volatility: the square root of 252 times the sample variance
/// of the returns, rounded to the scale. With fewer than two returns the
/// sample variance has no divisor and the volatility is zero.
pub open spec fn volatility_spec(p: Seq<int>, pow: int) -> int {
    if p.len() < 3 {
        0
    } else {
        sqrt_round(
            252 * sum_dev_sq(p, pow, mean_return(p, pow), p.len() - 1),
            p.len() - 2,
        )
    }
}

/// Largest value among `p[0..=i]`.
pub open spec fn prefix_max(p: Seq<int>, i: int) -> int
    decreases i,
{
    if i <= 0 {
        p[0]
    } else {
        let m = prefix_max(p, i - 1);
        if p[i] > m {
            p[i]
        } else {
            m
        }
    }
}

/// Scaled drawdown at one index: the fall from the running peak, as a
/// fraction of that peak.
pub open spec fn drawdown_at(p: Seq<int>, pow: int, i: int) -> int
    recommends
        prefix_max(p, i) >= 1,
{
    round_div((prefix_max(p, i) - p[i]) * pow, prefix_max(p, i))
}

/// The deepest drawdown over `p[0..=i]`.
pub open spec fn max_drawdown_spec(p: Seq<int>, pow: int, i: int) -> int
    decreases i,
{
    if i <= 0 {
        0
    } else {
        let d = drawdown_at(p, pow, i);
        let m = max_drawdown_spec(p, pow, i - 1);
        if d > m {
            d
        } else {
            m
        }
    }
}

/// Numerator of the Sharpe ratio: the annualized return
/// `(last/first - 1) * 252 / n` minus the two percent risk-free rate, over
/// the common denominator `50 * first * n`, scaled twice.
pub open spec fn sharpe_num(p: Seq<int>, pow: int) -> int {
    (12_600 * (p[p.len() - 1] - p[0]) - p[0] * p.len()) * pow * pow
}

/// The scaled Sharpe ratio against a positive scaled volatility.
pub open spec fn sharpe_spec(p: Seq<int>, pow: int, vol: int) -> int
    recommends
        p.len() >= 1,
        p[0] >= 1,
        vol >= 1,
{
    round_div(sharpe_num(p, pow), 50 * p[0] * p.len() * vol)
}

/// What the risk metrics of a series must be: zeros and absences for fewer
/// than two points, the specified statistics otherwise; beta always absent.
pub open spec fn risk_metrics_spec(p: Seq<int>, pow: int, r: RiskMetrics) -> bool {
    if p.len() < 2 {
        &&& r.volatility == 0
        &&& r.sharpe_ratio is None
        &&& r.max_drawdown == 0
        &&& r.beta is None
    } else {
        &&& r.volatility == volatility_spec(p, pow)
        &&& r.max_drawdown == max_drawdown_spec(p, pow, p.len() - 1)
        &&& r.beta is None
        &&& (volatility_spec(p, pow) > 0 ==> (r.sharpe_ratio matches Some(sv) && sv
            == sharpe_spec(p, pow, volatility_spec(p, pow))))
        &&& (volatility_spec(p, pow) <= 0 ==> r.sharpe_ratio is None)
    }
}

/// The buy vote of one indicator series: RSI votes when its latest value is
/// under the scaled 30; MACD votes when its latest value exceeds the value
/// nine bars earlier; other series never vote.
pub open spec fn ind_buy_vote(ind: IndicatorResult, pow: int) -> int {
    if ind.values@.len() == 0 {
        0
    } else {
        let last = ind.values@[ind.values@.len() - 1] as int;
        if ind.name@ == "RSI(14)"@ {
            if last < 30 * pow {
                1
            } else {
                0
            }
        } else if ind.name@ == "MACD"@ {
            let back = if ind.values@.len() >= 9 {
                ind.values@.len() - 9
            } else {
                0
            };
            if last > ind.values@[back as int] as int {
                1
            } else {
                0
            }
        } else {
            0
        }
    }
}

/// The sell vote of one indicator series, the mirror of the buy vote: RSI
/// above the scaled 70, MACD not above its nine-bars-back value.
pub open spec fn ind_sell_vote(ind: IndicatorResult, pow: int) -> int {
    if ind.values@.len() == 0 {
        0
    } else {
        let last = ind.values@[ind.values@.len() - 1] as int;
        if ind.name@ == "RSI(14)"@ {
            if last > 70 * pow {
                1
            } else {
                0
            }
        } else if ind.name@ == "MACD"@ {
            let back = if ind.values@.len() >= 9 {
                ind.values@.len() - 9
            } else {
                0
            };
            if last > ind.values@[back as int] as int {
                0
            } else {
                1
            }
        } else {
            0
        }
    }
}

pub open spec fn buy_votes(inds: Seq<IndicatorResult>, pow: int, k: int) -> int
    decreases k,
{
    if k <= 0 {
        0
    } else {
        buy_votes(inds, pow, k - 1) + ind_buy_vote(inds[k - 1], pow)
    }
}

pub open spec fn sell_votes(inds: Seq<IndicatorResult>, pow: int, k: int) -> int
    decreases k,
{
    if k <= 0 {
        0
    } else {
        sell_votes(inds, pow, k - 1) + ind_sell_vote(inds[k - 1], pow)
    }
}

/// The fused recommendation: count votes, halve the buy count under high
/// volatility (above one half), add a sell vote under a deep drawdown
/// (above one fifth), and let the majority decide; ties hold.
pub open spec fn recommendation_spec(
    inds: Seq<IndicatorResult>,
    risk: RiskMetrics,
    pow: int,
) -> SignalType {
    let b0 = buy_votes(inds, pow, inds.len() as int);
    let s0 = sell_votes(inds, pow, inds.len() as int);
    let b = if 2 * risk.volatility > pow {
        b0 / 2
    } else {
        b0
    };
    let s = if 5 * risk.max_drawdown > pow {
        s0 + 1
    } else {
        s0
    };
    if b > s {
        SignalType::Buy
    } else if s > b {
        SignalType::Sell
    } else {
        SignalType::Hold
    }
}

/// A series counts as available when some value in it is not the
/// placeholder zero.
pub open spec fn has_value(v: Seq<i64>) -> bool {
    exists|j: int| 0 <= j < v.len() && v[j] != 0
}

pub open spec fn valid_count(inds: Seq<IndicatorResult>, k: int) -> int
    decreases k,
{
    if k <= 0 {
        0
    } else {
        valid_count(inds, k - 1) + if has_value(inds[k - 1].values@) {
            1int
        } else {
            0int
        }
    }
}

/// Confidence: the share of indicator series with at least one available
/// value, as a scaled percentage, clamped to the scaled `[0, 100]`.
pub open spec fn confidence_spec(inds: Seq<IndicatorResult>, pow: int) -> int {
    if inds.len() == 0 {
        0
    } else {
        let c = round_div(valid_count(inds, inds.len() as int) * (100 * pow), inds.len() as int);
        if c > 100 * pow {
            100 * pow
        } else if c < 0 {
            0
        } else {
            c
        }
    }
}

/// What one successful analysis must contain, indicator by indicator.
pub open spec fn analysis_matches(data: Seq<MarketData>, pow: int, a: AnalysisResult) -> bool {
    let p = prices_of(data);
    &&& a.symbol@ == data[0].symbol@
    &&& a.indicators@.len() == 4
    &&& a.indicators@[0].name@ == "RSI(14)"@
    &&& a.indicators@[1].name@ == "SMA(20)"@
    &&& a.indicators@[2].name@ == "SMA(50)"@
    &&& a.indicators@[3].name@ == "MACD"@
    &&& forall|q: int, i: int|
        0 <= q < 4 && 0 <= i < data.len() ==> #[trigger] a.indicators@[q].timestamps@[i]
            == data[i].timestamp
    &&& forall|q: int|
        0 <= q < 4 ==> #[trigger] a.indicators@[q].timestamps@.len() == data.len()
    &&& forall|q: int| 0 <= q < 4 ==> #[trigger] a.indicators@[q].values@.len() == data.len()
    &&& forall|i: int|
        0 <= i < data.len() ==> #[trigger] a.indicators@[0].values@[i] == rsi_at(p, 14, pow, i)
    &&& forall|i: int|
        0 <= i < data.len() ==> #[trigger] a.indicators@[1].values@[i] == sma_at(p, 20, i)
    &&& forall|i: int|
        0 <= i < data.len() ==> #[trigger] a.indicators@[2].values@[i] == sma_at(p, 50, i)
    &&& forall|i: int|
        0 <= i < data.len() ==> #[trigger] a.indicators@[3].values@[i] == macd_line_at(
            p,
            12,
            26,
            i,
        )
    &&& a.indicators@[0].signals@.len() == data.len()
    &&& forall|i: int|
        0 <= i < data.len() ==> #[trigger] a.indicators@[0].signals@[i] == rsi_signal(
            a.indicators@[0].values@[i] as int,
            pow,
        )
    &&& a.indicators@[1].signals@.len() == 0
    &&& a.indicators@[2].signals@.len() == 0
    &&& a.indicators@[3].signals@.len() == 0
    &&& risk_metrics_spec(p, pow, a.risk_metrics)
    &&& a.recommendation == recommendation_spec(a.indicators@, a.risk_metrics, pow)
    &&& a.confidence == confidence_spec(a.indicators@, pow)
    &&& 0 <= a.confidence <= 100 * pow
    &&& (a.recommendation == SignalType::Buy || a.recommendation == SignalType::Sell
        || a.recommendation == SignalType::Hold)
}

/// The market data analysis engine.
#[derive(Debug, Clone)]
pub struct AnalysisEngine {
    pub indicators: TechnicalIndicators,
}

impl AnalysisEngine {
    pub open spec fn wf(&self) -> bool {
        self.indicators.wf()
    }

    pub open spec fn pow(&self) -> int {
        self.indicators.pow()
    }

    pub fn new() -> (r: Self)
        ensures
            r.wf(),
            r.indicators.precision == 4,
    {
        AnalysisEngine { indicators: TechnicalIndicators::new() }
    }

    pub fn with_precision(precision: usize) -> (r: Self)
        requires
            precision <= MAX_PRECISION,
        ensures
            r.wf(),
            r.indicators.precision == precision,
    {
        AnalysisEngine { indicators: TechnicalIndicators::with_precision(precision) }
    }

    /// The full analysis of one symbol's series: four indicator series, the
    /// risk metrics, the fused recommendation and the confidence score. The
    /// one rejected input is the empty series.
    pub fn analyze_symbol(&self, data: &Vec<MarketData>, strategy: Option<&TradingStrategy>) -> (r:
        AlphaResult<AnalysisResult>)
        requires
            self.wf(),
            data@.len() <= MAX_POINTS,
            forall|j: int|
                0 <= j < data@.len() ==> price_in_range(
                    #[trigger] data@[j].price as int,
                    self.pow(),
                ),
        ensures
            r is Err <==> data@.len() == 0,
            r matches Err(e) ==> e matches AlphaError::InvalidInput(m) && m@
                == "No market data provided"@,
            r matches Ok(a) ==> analysis_matches(data@, self.pow(), a),
    {
        if data.len() == 0 {
            return Err(
                AlphaError::invalid_input(String::from_str("No market data provided")),
            );
        }
        proof {
            lemma_pow10_le_max(self.indicators.precision as nat);
            assert forall|j: int| 0 <= j < data@.len() implies -VALUE_CAP <= #[trigger] data@[
                j
            ].price <= VALUE_CAP by {
                assert(price_in_range(data@[j].price as int, self.pow()));
                assert(1_000_000 * self.pow() <= 1_000_000 * 100_000_000) by (nonlinear_arith)
                    requires
                        self.pow() <= 100_000_000,
                ;
            }
        }
        let symbol: String = data[0].symbol.clone();
        let rsi_result = match self.indicators.calculate_from_market_data(data, symbol.as_str()) {
            Ok(ind) => ind,
            Err(e) => {
                proof {
                    assert(false);
                }
                return Err(e);
            },
        };
        let n: usize = data.len();
        let mut prices: Vec<i64> = Vec::new();
        let mut timestamps: Vec<i64> = Vec::new();
        let mut i: usize = 0;
        while i < n
            invariant
                0 <= i <= n,
                n == data@.len(),
                forall|j: int|
                    0 <= j < n ==> -VALUE_CAP <= #[trigger] data@[j].price <= VALUE_CAP,
                prices@.len() == i,
                timestamps@.len() == i,
                forall|j: int| 0 <= j < i ==> #[trigger] prices@[j] == data@[j].price,
                forall|j: int| 0 <= j < i ==> #[trigger] timestamps@[j] == data@[j].timestamp,
            decreases n - i,
        {
            prices.push(data[i].price);
            timestamps.push(data[i].timestamp);
            i = i + 1;
        }
        proof {
            assert(ints_of(prices@) =~= prices_of(data@));
        }
        let sma_short = self.indicators.calculate_sma(&prices, 20);
        let sma_long = self.indicators.calculate_sma(&prices, 50);
        let macd_parts = self.indicators.calculate_macd(&prices, 12, 26, 9);
        let macd_line = macd_parts.0;
        let mut indicators: Vec<IndicatorResult> = Vec::new();
        indicators.push(rsi_result);
        indicators.push(
            IndicatorResult {
                name: String::from_str("SMA(20)"),
                timestamps: timestamps.clone(),
                values: sma_short,
                signals: Vec::new(),
            },
        );
        indicators.push(
            IndicatorResult {
                name: String::from_str("SMA(50)"),
                timestamps: timestamps.clone(),
                values: sma_long,
                signals: Vec::new(),
            },
        );
        indicators.push(
            IndicatorResult {
                name: String::from_str("MACD"),
                timestamps: timestamps.clone(),
                values: macd_line,
                signals: Vec::new(),
            },
        );
        let risk_metrics = self.calculate_risk_metrics(&prices);
        let recommendation = self.generate_recommendation(&indicators, &risk_metrics);
        let confidence = self.calculate_confidence(&indicators, &risk_metrics);
        Ok(
            AnalysisResult {
                symbol,
                analyzed_at: current_timestamp_ms(),
                indicators,
                risk_metrics,
                recommendation,
                confidence,
            },
        )
    }

    /// Risk metrics of the raw price sequence: annualized volatility and
    /// Sharpe ratio from the simple returns, the deepest drawdown from the
    /// running peak. Fewer than two points yield the zero metrics.
    pub fn calculate_risk_metrics(&self, prices: &Vec<i64>) -> (r: RiskMetrics)
        requires
            self.wf(),
            prices@.len() <= MAX_POINTS,
            forall|j: int|
                0 <= j < prices@.len() ==> price_in_range(
                    #[trigger] prices@[j] as int,
                    self.pow(),
                ),
        ensures
            risk_metrics_spec(ints_of(prices@), self.pow(), r),
            0 <= r.volatility <= 5_000_000_000_000_000,
            0 <= r.max_drawdown <= self.pow(),
    {
        let ghost p = ints_of(prices@);
        proof {
            lemma_pow10_le_max(self.indicators.precision as nat);
        }
        let n: usize = prices.len();
        if n < 2 {
            return RiskMetrics {
                volatility: 0,
                sharpe_ratio: None,
                max_drawdown: 0,
                beta: None,
            };
        }
        let pw: i64 = pow10_i64(self.indicators.precision);
        let mut rets: Vec<i64> = Vec::new();
        let mut sum: i128 = 0;
        let mut i: usize = 1;
        while i < n
            invariant
                1 <= i <= n,
                2 <= n,
                n == prices@.len(),
                p == ints_of(prices@),
                p.len() == n,
                self.wf(),
                pw == self.pow(),
                1 <= pw <= 100_000_000,
                forall|j: int|
                    0 <= j < n ==> price_in_range(#[trigger] prices@[j] as int, self.pow()),
                rets@.len() == i - 1,
                forall|j: int|
                    0 <= j < i - 1 ==> #[trigger] rets@[j] == return_at(p, self.pow(), j + 1),
                forall|j: int| 0 <= j < i - 1 ==> -VALUE_CAP <= #[trigger] rets@[j] <= VALUE_CAP,
                sum == sum_returns(p, self.pow(), i as int - 1),
                -((i - 1) * VALUE_CAP) <= sum <= (i - 1) * VALUE_CAP,
            decreases n - i,
        {
            proof {
                let pi = p[i as int];
                let pp = p[i as int - 1];
                assert(price_in_range(prices@[i as int] as int, self.pow()));
                assert(price_in_range(prices@[i as int - 1] as int, self.pow()));
                assert(-(pp * VALUE_CAP) <= (pi - pp) * (pw as int) <= pp * VALUE_CAP)
                    by (nonlinear_arith)
                    requires
                        1 <= pp <= 1_000_000 * (pw as int),
                        1 <= pi <= 1_000_000 * (pw as int),
                        (pw as int) * (pw as int) <= 100_000_000 * pp,
                        1 <= pw,
                        VALUE_CAP == 100_000_000_000_000,
                ;
                lemma_round_div_bound((pi - pp) * (pw as int), pp, VALUE_CAP as int);
                assert((pi - pp) * (pw as int) <= 200_000_000_000_000_000_000_000
                    && -200_000_000_000_000_000_000_000 <= (pi - pp) * (pw as int))
                    by (nonlinear_arith)
                    requires
                        -1_000_000 * (pw as int) <= pi - pp <= 1_000_000 * (pw as int),
                        1 <= pw <= 100_000_000,
                ;
                assert((i as int - 1) * VALUE_CAP <= 36_893_488_147_419_103_232 * VALUE_CAP && 0
                    <= (i as int) * VALUE_CAP && (i as int) * VALUE_CAP == (i as int - 1)
                    * VALUE_CAP + VALUE_CAP) by (nonlinear_arith)
                    requires
                        1 <= i as int <= 36_893_488_147_419_103_232,
                ;
            }
            let num: i128 = (prices[i] as i128 - prices[i - 1] as i128) * pw as i128;
            let ret: i64 = round_div_i128(num, prices[i - 1] as i128) as i64;
            rets.push(ret);
            sum = sum + ret as i128;
            i = i + 1;
        }
        let nr: usize = n - 1;
        proof {
            assert((nr as int) * VALUE_CAP <= 36_893_488_147_419_103_232 * VALUE_CAP && 0 <= (
            nr as int) * VALUE_CAP) by (nonlinear_arith)
                requires
                    1 <= nr as int <= 36_893_488_147_419_103_232,
            ;
            lemma_round_div_bound(sum as int, nr as int, VALUE_CAP as int);
        }
        let mu: i64 = round_div_i128(sum, nr as i128) as i64;
        let volatility: i64 = if n < 3 {
            0
        } else {
            let mut dev2: u128 = 0;
            let mut j: usize = 0;
            while j < nr
                invariant
                    0 <= j <= nr,
                    nr == n - 1,
                    3 <= n <= MAX_POINTS,
                    n == prices@.len(),
                    p == ints_of(prices@),
                    p.len() == n,
                    self.wf(),
                    pw == self.pow(),
                    mu == mean_return(p, self.pow()),
                    -VALUE_CAP <= mu <= VALUE_CAP,
                    rets@.len() == nr,
                    forall|q: int|
                        0 <= q < nr ==> #[trigger] rets@[q] == return_at(
                            p,
                            self.pow(),
                            q + 1,
                        ),
                    forall|q: int|
                        0 <= q < nr ==> -VALUE_CAP <= #[trigger] rets@[q] <= VALUE_CAP,
                    dev2 == sum_dev_sq(p, self.pow(), mu as int, j as int),
                    dev2 <= (j as int) * ((2 * VALUE_CAP) * (2 * VALUE_CAP)),
                decreases nr - j,
            {
                let d: i128 = rets[j] as i128 - mu as i128;
                proof {
                    assert((2 * VALUE_CAP) * (2 * VALUE_CAP)
                        == 40_000_000_000_000_000_000_000_000_000) by (nonlinear_arith);
                    assert(0 <= d * d <= (2 * VALUE_CAP) * (2 * VALUE_CAP)) by (nonlinear_arith)
                        requires
                            -2 * VALUE_CAP <= d <= 2 * VALUE_CAP,
                    ;
                    assert((j as int + 1) * ((2 * VALUE_CAP) * (2 * VALUE_CAP)) == (j as int) * ((2
                        * VALUE_CAP) * (2 * VALUE_CAP)) + (2 * VALUE_CAP) * (2 * VALUE_CAP))
                        by (nonlinear_arith);
                    assert((j as int) * ((2 * VALUE_CAP) * (2 * VALUE_CAP)) <= 100_000 * ((2
                        * VALUE_CAP) * (2 * VALUE_CAP)) && 0 <= (j as int) * ((2 * VALUE_CAP) * (2
                        * VALUE_CAP))) by (nonlinear_arith)
                        requires
                            0 <= j as int <= 100_000,
                    ;
                }
                dev2 = dev2 + (d * d) as u128;
                j = j + 1;
            }
            proof {
                assert((nr as int) * ((2 * VALUE_CAP) * (2 * VALUE_CAP)) <= 100_000 * ((2
                    * VALUE_CAP) * (2 * VALUE_CAP)) && (2 * VALUE_CAP) * (2 * VALUE_CAP)
                    == 40_000_000_000_000_000_000_000_000_000) by (nonlinear_arith)
                    requires
                        0 <= nr as int <= 100_000,
                ;
                let c = 5_000_000_000_000_000int;
                assert(252 * (dev2 as int) <= (n as int - 2) * (c * c)) by (nonlinear_arith)
                    requires
                        dev2 <= (nr as int) * ((2 * VALUE_CAP) * (2 * VALUE_CAP)),
                        nr == n - 1,
                        3 <= n <= 100_000,
                        VALUE_CAP == 100_000_000_000_000,
                        c == 5_000_000_000_000_000,
                ;
                lemma_sqrt_round_bound(252 * (dev2 as int), n as int - 2, c);
            }
            sqrt_round_u128(252 * dev2, (n - 2) as u128) as i64
        };
        let mut max_price: i64 = prices[0];
        let mut max_drawdown: i64 = 0;
        let mut i: usize = 1;
        while i < n
            invariant
                1 <= i <= n,
                2 <= n,
                n == prices@.len(),
                p == ints_of(prices@),
                p.len() == n,
                self.wf(),
                pw == self.pow(),
                1 <= pw <= 100_000_000,
                forall|j: int|
                    0 <= j < n ==> price_in_range(#[trigger] prices@[j] as int, self.pow()),
                max_price == prefix_max(p, i as int - 1),
                1 <= max_price <= 1_000_000 * pw,
                max_drawdown == max_drawdown_spec(p, self.pow(), i as int - 1),
                0 <= max_drawdown <= pw,
            decreases n - i,
        {
            proof {
                assert(price_in_range(prices@[i as int] as int, self.pow()));
            }
            if prices[i] > max_price {
                max_price = prices[i];
            }
            proof {
                let mp = max_price as int;
                let pi = p[i as int];
                assert(0 <= (mp - pi) * (pw as int) <= mp * (pw as int)
                    && -(mp * (pw as int)) <= (mp - pi) * (pw as int) && mp * (pw as int)
                    <= 10_000_000_000_000_000_000_000) by (nonlinear_arith)
                    requires
                        1 <= pi <= mp <= 100_000_000_000_000,
                        1 <= pw <= 100_000_000,
                ;
                lemma_round_div_bound((mp - pi) * (pw as int), mp, pw as int);
                lemma_round_div_nonneg((mp - pi) * (pw as int), mp);
            }
            let dd: i64 = round_div_i128(
                (max_price as i128 - prices[i] as i128) * pw as i128,
                max_price as i128,
            ) as i64;
            if dd > max_drawdown {
                max_drawdown = dd;
            }
            i = i + 1;
        }
        let sharpe_ratio: Option<i128> = if volatility > 0 {
            proof {
                assert(price_in_range(prices@[0] as int, self.pow()));
                assert(price_in_range(prices@[n as int - 1] as int, self.pow()));
                let p0 = p[0];
                let pl = p[p.len() - 1];
                assert((12_600 * (pl - p0) - p0 * (n as int)) * (pw as int) * (pw as int)
                    <= 10_000_000_000_000_000_000_000_000_000_000_000_000 && -(
                10_000_000_000_000_000_000_000_000_000_000_000_000) <= (12_600 * (pl - p0) - p0 * (
                n as int)) * (pw as int) * (pw as int) && 1 <= p0 * (n as int)
                    <= 10_000_000_000_000_000_000 && -(3_000_000_000_000_000_000_000_000_000) <= (
                12_600 * (pl - p0) - p0 * (n as int)) * (pw as int)
                    <= 3_000_000_000_000_000_000_000_000_000) by (nonlinear_arith)
                    requires
                        1 <= p0 <= 100_000_000_000_000,
                        1 <= pl <= 100_000_000_000_000,
                        2 <= n as int <= 100_000,
                        1 <= pw <= 100_000_000,
                ;
                assert(1 <= 50 * p0 * (n as int) * (volatility as int)
                    <= 10_000_000_000_000_000_000_000_000_000_000_000_000 && 1 <= 50 * p0 * (
                n as int) <= 1_000_000_000_000_000_000_000) by (nonlinear_arith)
                    requires
                        1 <= p0 <= 100_000_000_000_000,
                        2 <= n as int <= 100_000,
                        1 <= volatility as int <= 5_000_000_000_000_000,
                ;
            }
            let num: i128 = (12_600 * (prices[n - 1] as i128 - prices[0] as i128) - prices[0]
                as i128 * n as i128) * pw as i128 * pw as i128;
            let den: i128 = 50 * prices[0] as i128 * n as i128 * volatility as i128;
            Some(round_div_i128(num, den))
        } else {
            None
        };
        RiskMetrics { volatility, sharpe_ratio, max_drawdown, beta: None }
    }

    /// Counts the buy and sell votes of the indicator series, weighs in the
    /// risk metrics, and lets the majority decide; a tie holds.
    pub fn generate_recommendation(
        &self,
        indicators: &Vec<IndicatorResult>,
        risk_metrics: &RiskMetrics,
    ) -> (r: SignalType)
        requires
            self.wf(),
            indicators@.len() <= 1_000_000_000,
            0 <= risk_metrics.volatility <= 1_000_000_000_000_000_000,
            0 <= risk_metrics.max_drawdown <= 1_000_000_000_000_000_000,
        ensures
            r == recommendation_spec(indicators@, *risk_metrics, self.pow()),
            r == SignalType::Buy || r == SignalType::Sell || r == SignalType::Hold,
    {
        let pw: i64 = pow10_i64(self.indicators.precision);
        let rsi_name = String::from_str("RSI(14)");
        let macd_name = String::from_str("MACD");
        let n: usize = indicators.len();
        let mut buy_signals: usize = 0;
        let mut sell_signals: usize = 0;
        let mut i: usize = 0;
        while i < n
            invariant
                0 <= i <= n,
                n == indicators@.len(),
                self.wf(),
                pw == self.pow(),
                1 <= pw <= 100_000_000,
                rsi_name@ == "RSI(14)"@,
                macd_name@ == "MACD"@,
                buy_signals == buy_votes(indicators@, self.pow(), i as int),
                sell_signals == sell_votes(indicators@, self.pow(), i as int),
                buy_signals <= i,
                sell_signals <= i,
            decreases n - i,
        {
            let ind = &indicators[i];
            let len: usize = ind.values.len();
            if len > 0 {
                let latest: i64 = ind.values[len - 1];
                if ind.name == rsi_name {
                    if latest < 30 * pw {
                        buy_signals = buy_signals + 1;
                    } else if latest > 70 * pw {
                        sell_signals = sell_signals + 1;
                    }
                } else if ind.name == macd_name {
                    let back: usize = if len >= 9 {
                        len - 9
                    } else {
                        0
                    };
                    if latest > ind.values[back] {
                        buy_signals = buy_signals + 1;
                    } else {
                        sell_signals = sell_signals + 1;
                    }
                }
            }
            i = i + 1;
        }
        if 2 * risk_metrics.volatility > pw {
            buy_signals = buy_signals / 2;
        }
        if 5 * risk_metrics.max_drawdown > pw {
            sell_signals = sell_signals + 1;
        }
        if buy_signals > sell_signals {
            SignalType::Buy
        } else if sell_signals > buy_signals {
            SignalType::Sell
        } else {
            SignalType::Hold
        }
    }

    /// The share of indicator series that have any value to offer, as a
    /// scaled percentage in the scaled `[0, 100]`.
    pub fn calculate_confidence(
        &self,
        indicators: &Vec<IndicatorResult>,
        risk_metrics: &RiskMetrics,
    ) -> (r: i64)
        requires
            self.wf(),
        ensures
            r == confidence_spec(indicators@, self.pow()),
            0 <= r <= 100 * self.pow(),
    {
        let pw: i64 = pow10_i64(self.indicators.precision);
        let n: usize = indicators.len();
        if n == 0 {
            return 0;
        }
        let mut valid: usize = 0;
        let mut i: usize = 0;
        while i < n
            invariant
                0 <= i <= n,
                n == indicators@.len(),
                valid == valid_count(indicators@, i as int),
                valid <= i,
            decreases n - i,
        {
            if has_nonzero(&indicators[i].values) {
                valid = valid + 1;
            }
            i = i + 1;
        }
        proof {
            assert(0 <= valid_count(indicators@, n as int) <= n as int);
            assert((valid as int) * (100 * (pw as int)) <= (n as int) * (100 * (pw as int)) && 0
                <= (valid as int) * (100 * (pw as int)) && (n as int) * (100 * (pw as int))
                <= 36_893_488_147_419_103_232 * 10_000_000_000) by (nonlinear_arith)
                requires
                    0 <= valid as int <= n as int <= 36_893_488_147_419_103_232,
                    1 <= pw <= 100_000_000,
            ;
            lemma_round_div_bound(
                (valid as int) * (100 * (pw as int)),
                n as int,
                100 * (pw as int),
            );
            lemma_round_div_nonneg((valid as int) * (100 * (pw as int)), n as int);
        }
        let c: i64 = round_div_i128(valid as i128 * (100 * pw as i128), n as i128) as i64;
        if c > 100 * pw {
            100 * pw
        } else if c < 0 {
            0
        } else {
            c
        }
    }
}

impl Default for AnalysisEngine {
    fn default() -> (r: Self)
        ensures
            r.wf(),
            r.indicators.precision == 4,
    {
        AnalysisEngine::new()
    }
}

/// Whether any entry of the vector differs from the placeholder zero.
fn has_nonzero(values: &Vec<i64>) -> (b: bool)
    ensures
        b == has_value(values@),
{
    let n: usize = values.len();
    let mut i: usize = 0;
    while i < n
        invariant
            0 <= i <= n,
            n == values@.len(),
            forall|j: int| 0 <= j < i ==> #[trigger] values@[j] == 0,
        decreases n - i,
    {
        if values[i] != 0 {
            return true;
        }
        i = i + 1;
    }
    false
}

/// A series that never falls keeps a drawdown of zero: the running peak is
/// always the current price.
pub proof fn lemma_drawdown_nondecreasing(p: Seq<int>, pow: int, i: int)
    requires
        1 <= pow,
        p.len() >= 1,
        p[0] >= 1,
        forall|j: int| 0 < j < p.len() ==> #[trigger] p[j] >= p[j - 1],
        0 <= i < p.len(),
    ensures
        max_drawdown_spec(p, pow, i) == 0,
    decreases i,
{
    if i > 0 {
        lemma_drawdown_nondecreasing(p, pow, i - 1);
        lemma_prefix_max_nondecreasing(p, i);
        assert(drawdown_at(p, pow, i) == round_div(0 * pow, p[i]));
        assert(0 * pow == 0) by (nonlinear_arith);
        assert(0 * p[i] == 0) by (nonlinear_arith);
        lemma_round_div_exact(0, p[i]);
    }
}

proof fn lemma_prefix_max_nondecreasing(p: Seq<int>, i: int)
    requires
        p.len() >= 1,
        p[0] >= 1,
        forall|j: int| 0 < j < p.len() ==> #[trigger] p[j] >= p[j - 1],
        0 <= i < p.len(),
    ensures
        prefix_max(p, i) == p[i],
        p[i] >= 1,
    decreases i,
{
    if i > 0 {
        lemma_prefix_max_nondecreasing(p, i - 1);
    }
}

} // verus!
