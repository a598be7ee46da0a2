//! Analysis engine behavior on concrete series, at the default precision
//! of four decimals.

use alpha_core::analytics::AnalysisEngine;
use alpha_core::errors::AlphaError;
use alpha_core::models::MarketData;
use alpha_core::models::SignalType;

fn scaled(x: f64) -> i64 {
    (x * 10000.0).round() as i64
}

fn series(prices: &[f64]) -> Vec<MarketData> {
    prices
        .iter()
        .enumerate()
        .map(|(i, &p)| MarketData::with_ohlcv("AAPL".to_string(), i as i64 * 60_000, scaled(p), scaled(p), scaled(p), scaled(p), 1000 + 100 * i as u64))
        .collect()
}

#[test]
fn test_analysis_engine() {
    let engine = AnalysisEngine::new();
    let data = vec![
        MarketData::new("AAPL".to_string(), scaled(100.0), 1000),
        MarketData::new("AAPL".to_string(), scaled(101.0), 1100),
        MarketData::new("AAPL".to_string(), scaled(102.0), 1200),
        MarketData::new("AAPL".to_string(), scaled(103.0), 1300),
        MarketData::new("AAPL".to_string(), scaled(104.0), 1400),
    ];

    let result = engine.analyze_symbol(&data, None);

    assert!(result.is_ok());
    let analysis = result.unwrap();
    assert_eq!(analysis.symbol, "AAPL");
    assert!(!analysis.indicators.is_empty());
    assert!(matches!(
        analysis.recommendation,
        SignalType::Buy | SignalType::Sell | SignalType::Hold
    ));
}

#[test]
fn test_risk_metrics() {
    let engine = AnalysisEngine::new();
    let prices: Vec<i64> = [100.0, 102.0, 98.0, 105.0, 95.0, 110.0]
        .iter()
        .map(|&x| scaled(x))
        .collect();

    let risk = engine.calculate_risk_metrics(&prices);
    assert!(risk.volatility >= 0);
    assert!(risk.max_drawdown >= 0);
}

#[test]
fn test_analyze_empty_series() {
    // The single error of the core: an empty series is invalid input.
    let engine = AnalysisEngine::new();
    let data: Vec<MarketData> = Vec::new();
    let result = engine.analyze_symbol(&data, None);
    match result {
        Err(AlphaError::InvalidInput(m)) => {
            assert_eq!(m, "No market data provided");
        }
        _ => panic!("expected invalid input"),
    }
}

#[test]
fn test_analyze_monotonic_series() {
    // Fifty rising points: a recommendation among buy, sell and hold, and
    // a confidence within the scaled [0, 100].
    let engine = AnalysisEngine::new();
    let raw: Vec<f64> = (0..50).map(|i| 100.0 + i as f64).collect();
    let data = series(&raw);
    let analysis = engine.analyze_symbol(&data, None).unwrap();
    assert!(analysis.confidence >= 0 && analysis.confidence <= scaled(100.0));
    assert!(matches!(
        analysis.recommendation,
        SignalType::Buy | SignalType::Sell | SignalType::Hold
    ));
    assert_eq!(analysis.indicators.len(), 4);
    assert_eq!(analysis.indicators[0].name, "RSI(14)");
    assert_eq!(analysis.indicators[1].name, "SMA(20)");
    assert_eq!(analysis.indicators[2].name, "SMA(50)");
    assert_eq!(analysis.indicators[3].name, "MACD");
}

#[test]
fn test_recommendation_on_rising_series() {
    // Five rising points: the placeholder RSI of zero counts as a buy, the
    // rising MACD line counts as a buy, nothing sells; and the exact
    // annualized volatility of the four near-one-percent returns is 0.0022.
    let engine = AnalysisEngine::new();
    let data = series(&[100.0, 101.0, 102.0, 103.0, 104.0]);
    let analysis = engine.analyze_symbol(&data, None).unwrap();
    assert_eq!(analysis.recommendation, SignalType::Buy);
    assert_eq!(analysis.risk_metrics.volatility, 22);
    assert_eq!(analysis.risk_metrics.max_drawdown, 0);
    // Only the MACD series has a non-placeholder value in five points, so
    // one of the four series counts: a quarter, scaled.
    assert_eq!(analysis.confidence, scaled(25.0));
}

#[test]
fn test_risk_metrics_exact_values() {
    // Prices [100, 200, 100]: returns 1 and -0.5, rounded mean 0.25,
    // deviations 0.75 apart, annualized volatility 16.8375, drawdown one
    // half, Sharpe ratio -12 in scaled units.
    let engine = AnalysisEngine::new();
    let prices: Vec<i64> = vec![scaled(100.0), scaled(200.0), scaled(100.0)];
    let risk = engine.calculate_risk_metrics(&prices);
    assert_eq!(risk.volatility, 168375);
    assert_eq!(risk.max_drawdown, scaled(0.5));
    assert_eq!(risk.sharpe_ratio, Some(-12));
    assert_eq!(risk.beta, None);
}

#[test]
fn test_max_drawdown_monotonic_series() {
    // A series that never falls has a drawdown of exactly zero.
    let engine = AnalysisEngine::new();
    let prices: Vec<i64> = [50.0, 50.0, 51.0, 53.0, 53.0, 60.0]
        .iter()
        .map(|&x| scaled(x))
        .collect();
    let risk = engine.calculate_risk_metrics(&prices);
    assert_eq!(risk.max_drawdown, 0);
}

#[test]
fn test_risk_metrics_single_point() {
    // One observation: zero volatility, zero drawdown, no Sharpe ratio,
    // no beta.
    let engine = AnalysisEngine::new();
    let prices: Vec<i64> = vec![scaled(123.45)];
    let risk = engine.calculate_risk_metrics(&prices);
    assert_eq!(risk.volatility, 0);
    assert_eq!(risk.max_drawdown, 0);
    assert_eq!(risk.sharpe_ratio, None);
    assert_eq!(risk.beta, None);
}

#[test]
fn test_confidence_all_available() {
    // Sixty points: all four series have computed values, so the
    // confidence is the scaled 100.
    let engine = AnalysisEngine::new();
    let raw: Vec<f64> = (0..60).map(|i| 100.0 + (i % 7) as f64).collect();
    let data = series(&raw);
    let analysis = engine.analyze_symbol(&data, None).unwrap();
    assert_eq!(analysis.confidence, scaled(100.0));
}

#[test]
fn test_with_precision_two_decimals() {
    // At precision 2 a value `v` stands for `v / 100`: the same
    // placeholder-then-value SMA shape at the coarser scale.
    let engine = AnalysisEngine::with_precision(2);
    let prices: Vec<i64> = vec![100, 200, 300, 400, 500];
    let sma = engine.indicators.calculate_sma(&prices, 3);
    assert_eq!(sma, vec![0, 0, 200, 300, 400]);
}
