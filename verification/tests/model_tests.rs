//! Model types: construction, parameters, ranges.

use alpha_core::models::DataSource;
use alpha_core::models::MarketData;
use alpha_core::models::StrategyParameters;
use alpha_core::models::TimeRange;

#[test]
fn test_market_data_construction() {
    let d = MarketData::new("AAPL".to_string(), 1_500_000, 900);
    assert_eq!(d.symbol, "AAPL");
    assert_eq!(d.price, 1_500_000);
    assert_eq!(d.volume, 900);
    assert_eq!(d.bid, None);
    assert_eq!(d.open, None);

    let c = MarketData::with_ohlcv("MSFT".to_string(), 42, 10, 30, 5, 20, 7);
    assert_eq!(c.timestamp, 42);
    assert_eq!(c.price, 20);
    assert_eq!(c.open, Some(10));
    assert_eq!(c.high, Some(30));
    assert_eq!(c.low, Some(5));
}

#[test]
fn test_strategy_parameters() {
    let mut params = StrategyParameters::new();
    assert_eq!(params.get_param("rsi_period"), None);
    params.set_param("rsi_period".to_string(), 14_0000, "window length".to_string());
    params.set_param("threshold".to_string(), 70_0000, "sell level".to_string());
    assert_eq!(params.get_param("rsi_period"), Some(14_0000));
    assert_eq!(params.get_param("threshold"), Some(70_0000));
    params.set_param("rsi_period".to_string(), 21_0000, "wider window".to_string());
    assert_eq!(params.get_param("rsi_period"), Some(21_0000));
    assert_eq!(params.get_param("threshold"), Some(70_0000));
    assert_eq!(params.get_param("missing"), None);
}

#[test]
fn test_time_range_duration() {
    let r = TimeRange::new(1_000, 4_600);
    assert_eq!(r.duration(), 3_600);
}

#[test]
fn test_data_source_equality() {
    assert_eq!(DataSource::Realtime, DataSource::Realtime);
    assert_ne!(DataSource::Cache, DataSource::File);
    assert_eq!(
        DataSource::API("alpha".to_string()),
        DataSource::API("alpha".to_string())
    );
}
