//! Data model: one instrument's observations and the derived results.
//!
//! All numeric fields are fixed-point values: an `i64` value `v` at the
//! engine's precision `p` stands for `v / 10^p`. Timestamps are milliseconds
//! since the Unix epoch.

use vstd::prelude::*;

verus! {

use crate::utils::time::current_timestamp_ms;

/// One observation: a trade of one instrument at one instant.
///
/// The caller supplies points of a single symbol, sorted ascending by
/// timestamp, with positive prices; the engine assumes this and does not
/// check it.
#[derive(Debug, Clone)]
pub struct MarketData {
    pub symbol: String,
    pub timestamp: i64,
    /// Scaled price; positive for a valid observation.
    pub price: i64,
    pub volume: u64,
    pub bid: Option<i64>,
    pub ask: Option<i64>,
    pub open: Option<i64>,
    pub high: Option<i64>,
    pub low: Option<i64>,
}

impl MarketData {
    /// A bare observation stamped with the current clock.
    pub fn new(symbol: String, price: i64, volume: u64) -> (r: Self)
        ensures
            r.symbol == symbol,
            r.price == price,
            r.volume == volume,
            r.bid is None,
            r.ask is None,
            r.open is None,
            r.high is None,
            r.low is None,
    {
        MarketData {
            symbol,
            timestamp: current_timestamp_ms(),
            price,
            volume,
            bid: None,
            ask: None,
            open: None,
            high: None,
            low: None,
        }
    }

    /// An observation carrying a full candle; the close is the price.
    pub fn with_ohlcv(
        symbol: String,
        timestamp: i64,
        open: i64,
        high: i64,
        low: i64,
        close: i64,
        volume: u64,
    ) -> (r: Self)
        ensures
            r.symbol == symbol,
            r.timestamp == timestamp,
            r.price == close,
            r.volume == volume,
            r.open == Some(open),
            r.high == Some(high),
            r.low == Some(low),
            r.bid is None,
            r.ask is None,
    {
        MarketData {
            symbol,
            timestamp,
            price: close,
            volume,
            bid: None,
            ask: None,
            open: Some(open),
            high: Some(high),
            low: Some(low),
        }
    }
}

/// One computed indicator series, aligned index by index with the input.
///
/// `values` always has the input's length; a leading `0` is the documented
/// placeholder for "not enough history yet", not a computed zero. `signals`
/// is either empty or aligned with `values`.
#[derive(Debug, Clone)]
pub struct IndicatorResult {
    pub name: String,
    pub timestamps: Vec<i64>,
    pub values: Vec<i64>,
    pub signals: Vec<SignalType>,
}

/// A per-point or fused trading signal.
#[derive(Debug, Clone, Copy, PartialEq, Eq, Structural)]
pub enum SignalType {
    Buy,
    Sell,
    Hold,
    NoSignal,
}

/// The terminal output of one analysis call.
#[derive(Debug, Clone)]
pub struct AnalysisResult {
    pub symbol: String,
    pub analyzed_at: i64,
    pub indicators: Vec<IndicatorResult>,
    pub risk_metrics: RiskMetrics,
    pub recommendation: SignalType,
    /// Scaled: between 0 and 100 times the scale.
    pub confidence: i64,
}

/// Risk summary of one series.
#[derive(Debug, Clone)]
pub struct RiskMetrics {
    /// Scaled annualized volatility, never negative.
    pub volatility: i64,
    /// Scaled; absent when volatility is zero. Wide type: an extreme series
    /// can pair a large excess return with a tiny volatility.
    pub sharpe_ratio: Option<i128>,
    /// Scaled fraction in `[0, 1]`.
    pub max_drawdown: i64,
    /// Always absent: no benchmark series reaches this engine.
    pub beta: Option<i64>,
}

/// A stored strategy definition.
#[derive(Debug, Clone)]
pub struct TradingStrategy {
    pub id: String,
    pub name: String,
    pub description: String,
    pub parameters: StrategyParameters,
    pub indicators: Vec<String>,
    pub created_at: i64,
    pub updated_at: i64,
}

/// Named scaled parameters with their descriptions, keys unique.
#[derive(Debug, Clone)]
pub struct StrategyParameters {
    pub params: Vec<(String, i64)>,
    pub descriptions: Vec<(String, String)>,
}

/// The first value stored under a key, scanning left to right.
pub open spec fn lookup_param(entries: Seq<(String, i64)>, key: Seq<char>) -> Option<i64>
    decreases entries.len(),
{
    if entries.len() == 0 {
        None
    } else if entries[0].0@ == key {
        Some(entries[0].1)
    } else {
        lookup_param(entries.drop_first(), key)
    }
}

impl StrategyParameters {
    /// Keys occur at most once in each list.
    pub open spec fn wf(&self) -> bool {
        &&& forall|i: int, j: int|
            0 <= i < j < self.params@.len() ==> self.params@[i].0@ != self.params@[j].0@
        &&& forall|i: int, j: int|
            0 <= i < j < self.descriptions@.len() ==> self.descriptions@[i].0@
                != self.descriptions@[j].0@
    }

    pub fn new() -> (r: Self)
        ensures
            r.wf(),
            r.params@.len() == 0,
            r.descriptions@.len() == 0,
    {
        StrategyParameters { params: Vec::new(), descriptions: Vec::new() }
    }

    /// Stores `value` under `key`, replacing an earlier value; every other
    /// key keeps its value.
    pub fn set_param(&mut self, key: String, value: i64, description: String)
        requires
            old(self).wf(),
        ensures
            final(self).wf(),
            lookup_param(final(self).params@, key@) == Some(value),
            forall|k: Seq<char>|
                k != key@ ==> #[trigger] lookup_param(final(self).params@, k) == lookup_param(
                    old(self).params@,
                    k,
                ),
    {
        let mut i: usize = 0;
        let n: usize = self.params.len();
        while i < n
            invariant
                0 <= i <= n,
                n == self.params@.len(),
                self.wf(),
                *self == *old(self),
                forall|j: int| 0 <= j < i ==> self.params@[j].0@ != key@,
            decreases n - i,
        {
            if self.params[i].0 == key {
                let k0 = self.params[i].0.clone();
                self.params[i] = (k0, value);
                proof {
                    lemma_lookup_set(old(self).params@, self.params@, key@, value, i as int);
                }
                self.set_description(key, description);
                return ;
            }
            i = i + 1;
        }
        let entry = (key.clone(), value);
        proof {
            lemma_lookup_append(self.params@, entry, key@);
        }
        self.params.push(entry);
        self.set_description(key, description);
    }

    /// The stored value under `key`, if any.
    pub fn get_param(&self, key: &str) -> (r: Option<i64>)
        ensures
            r == lookup_param(self.params@, key@),
    {
        let kk = String::from_str(key);
        let mut i: usize = 0;
        let n: usize = self.params.len();
        proof {
            assert(self.params@.skip(0) =~= self.params@);
        }
        while i < n
            invariant
                0 <= i <= n,
                n == self.params@.len(),
                kk@ == key@,
                lookup_param(self.params@, key@) == lookup_param(
                    self.params@.skip(i as int),
                    key@,
                ),
            decreases n - i,
        {
            proof {
                assert(self.params@.skip(i as int).drop_first() =~= self.params@.skip(
                    i as int + 1,
                ));
                assert(self.params@.skip(i as int)[0] == self.params@[i as int]);
            }
            if self.params[i].0 == kk {
                return Some(self.params[i].1);
            }
            i = i + 1;
        }
        None
    }

    fn set_description(&mut self, key: String, description: String)
        requires
            old(self).wf(),
        ensures
            final(self).wf(),
            final(self).params == old(self).params,
    {
        let mut i: usize = 0;
        let n: usize = self.descriptions.len();
        while i < n
            invariant
                0 <= i <= n,
                n == self.descriptions@.len(),
                self.wf(),
                *self == *old(self),
                forall|j: int| 0 <= j < i ==> self.descriptions@[j].0@ != key@,
            decreases n - i,
        {
            if self.descriptions[i].0 == key {
                let k0 = self.descriptions[i].0.clone();
                self.descriptions[i] = (k0, description);
                return ;
            }
            i = i + 1;
        }
        self.descriptions.push((key, description));
        proof {
            assert(self.descriptions@.drop_last() =~= old(self).descriptions@);
        }
    }
}

proof fn lemma_lookup_set(
    before: Seq<(String, i64)>,
    after: Seq<(String, i64)>,
    key: Seq<char>,
    value: i64,
    at: int,
)
    requires
        0 <= at < before.len(),
        after.len() == before.len(),
        before[at].0@ == key,
        after[at].1 == value,
        after[at].0 == before[at].0,
        forall|j: int| 0 <= j < before.len() && j != at ==> after[j] == before[j],
        forall|j: int| 0 <= j < at ==> before[j].0@ != key,
        forall|i: int, j: int| 0 <= i < j < before.len() ==> before[i].0@ != before[j].0@,
    ensures
        lookup_param(after, key) == Some(value),
        forall|k: Seq<char>|
            k != key ==> #[trigger] lookup_param(after, k) == lookup_param(before, k),
    decreases at,
{
    if at == 0 {
        assert(lookup_param(after, key) == Some(after[0].1));
        assert forall|k: Seq<char>| k != key implies #[trigger] lookup_param(after, k)
            == lookup_param(before, k) by {
            assert(after.drop_first() =~= before.drop_first());
        }
    } else {
        assert forall|i: int, j: int|
            0 <= i < j < before.drop_first().len() implies before.drop_first()[i].0@
            != before.drop_first()[j].0@ by {
            assert(before.drop_first()[i] == before[i + 1]);
            assert(before.drop_first()[j] == before[j + 1]);
        }
        lemma_lookup_set(before.drop_first(), after.drop_first(), key, value, at - 1);
        assert(after[0] == before[0]);
        assert(before[0].0@ != key);
        assert(lookup_param(after, key) == lookup_param(after.drop_first(), key));
        assert forall|k: Seq<char>| k != key implies #[trigger] lookup_param(after, k)
            == lookup_param(before, k) by {
            assert(lookup_param(after.drop_first(), k) == lookup_param(
                before.drop_first(),
                k,
            ));
        }
    }
}

proof fn lemma_lookup_append(entries: Seq<(String, i64)>, added: (String, i64), key: Seq<char>)
    requires
        added.0@ == key,
        forall|j: int| 0 <= j < entries.len() ==> entries[j].0@ != key,
    ensures
        lookup_param(entries.push(added), key) == Some(added.1),
        forall|k: Seq<char>|
            k != key ==> #[trigger] lookup_param(entries.push(added), k) == lookup_param(
                entries,
                k,
            ),
    decreases entries.len(),
{
    if entries.len() > 0 {
        lemma_lookup_append(entries.drop_first(), added, key);
        assert(entries.push(added).drop_first() =~= entries.drop_first().push(added));
        assert(entries.push(added)[0] == entries[0]);
        assert forall|k: Seq<char>| k != key implies #[trigger] lookup_param(
            entries.push(added),
            k,
        ) == lookup_param(entries, k) by {
            assert(lookup_param(entries.drop_first().push(added), k) == lookup_param(
                entries.drop_first(),
                k,
            ));
        }
    } else {
        assert(entries.push(added)[0] == added);
        assert(entries.push(added).drop_first() =~= entries);
        assert forall|k: Seq<char>| k != key implies #[trigger] lookup_param(
            entries.push(added),
            k,
        ) == lookup_param(entries, k) by {
            assert(lookup_param(entries.push(added), k) == lookup_param(entries, k));
        }
    }
}

/// A span of time, closed on both ends.
#[derive(Debug, Clone)]
pub struct TimeRange {
    pub start: i64,
    pub end: i64,
}

impl TimeRange {
    pub fn new(start: i64, end: i64) -> (r: Self)
        ensures
            r.start == start,
            r.end == end,
    {
        TimeRange { start, end }
    }

    /// Length of the span in milliseconds.
    pub fn duration(&self) -> (r: i64)
        requires
            self.end - self.start <= i64::MAX,
            self.end - self.start >= i64::MIN,
        ensures
            r == self.end - self.start,
    {
        self.end - self.start
    }
}

/// Where a series of observations came from.
#[derive(Debug, Clone, PartialEq)]
pub enum DataSource {
    Realtime,
    Historical,
    Cache,
    File,
    API(String),
}

} // verus!
