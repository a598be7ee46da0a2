//! Indicator library behavior on concrete series, at the default precision
//! of four decimals: a value `v` stands for `v / 10000`.

use alpha_core::indicators::TechnicalIndicators;
use alpha_core::models::MarketData;

fn scaled(x: f64) -> i64 {
    (x * 10000.0).round() as i64
}

#[test]
fn test_sma_calculation() {
    let indicators = TechnicalIndicators::new();
    let prices: Vec<i64> = vec![scaled(1.0), scaled(2.0), scaled(3.0), scaled(4.0), scaled(5.0)];
    let sma = indicators.calculate_sma(&prices, 3);

    assert_eq!(sma[2], scaled(2.0));
    assert_eq!(sma[3], scaled(3.0));
    assert_eq!(sma[4], scaled(4.0));
}

#[test]
fn test_rsi_calculation() {
    let indicators = TechnicalIndicators::new();
    let raw = [
        44.0, 44.5, 45.0, 44.8, 45.2, 45.8, 46.2, 46.5, 46.0, 45.8, 45.5, 45.2, 44.8, 44.5, 44.0,
    ];
    let prices: Vec<i64> = raw.iter().map(|&x| scaled(x)).collect();
    let rsi = indicators.calculate_rsi(&prices, 14);

    assert!(!rsi.is_empty());
    assert!(rsi[14] >= 0 && rsi[14] <= scaled(100.0));
}

#[test]
fn test_market_data_indicators() {
    let indicators = TechnicalIndicators::new();
    let data = vec![
        MarketData::new("AAPL".to_string(), scaled(100.0), 1000),
        MarketData::new("AAPL".to_string(), scaled(101.0), 1100),
        MarketData::new("AAPL".to_string(), scaled(102.0), 1200),
    ];

    let result = indicators.calculate_from_market_data(&data, "AAPL");
    assert!(result.is_ok());
}

#[test]
fn test_sma_placeholder_prefix() {
    // The documented placeholder-then-value shape: SMA([1,2,3,4,5], 3)
    // is [0, 0, 2, 3, 4].
    let indicators = TechnicalIndicators::new();
    let prices: Vec<i64> = vec![scaled(1.0), scaled(2.0), scaled(3.0), scaled(4.0), scaled(5.0)];
    let sma = indicators.calculate_sma(&prices, 3);
    assert_eq!(sma, vec![0, 0, scaled(2.0), scaled(3.0), scaled(4.0)]);
}

#[test]
fn test_indicator_lengths_match_input() {
    let indicators = TechnicalIndicators::new();
    let prices: Vec<i64> = (0..37).map(|i| scaled(50.0 + i as f64)).collect();
    for period in [1usize, 3, 14, 20, 50] {
        assert_eq!(indicators.calculate_sma(&prices, period).len(), prices.len());
        assert_eq!(indicators.calculate_ema(&prices, period).len(), prices.len());
        assert_eq!(indicators.calculate_rsi(&prices, period).len(), prices.len());
    }
}

#[test]
fn test_ema_exact_values() {
    // EMA(period 3) of [1, 2]: seeded with 1, then
    // 1 + (2 - 1) * 2/4 = 1.5.
    let indicators = TechnicalIndicators::new();
    let prices: Vec<i64> = vec![scaled(1.0), scaled(2.0)];
    let ema = indicators.calculate_ema(&prices, 3);
    assert_eq!(ema, vec![scaled(1.0), scaled(1.5)]);
}

#[test]
fn test_rsi_exact_small_period() {
    // Period 1 over [1, 2, 1.5]: one full gain gives 100, then one full
    // loss gives 0; index 0 stays a placeholder.
    let indicators = TechnicalIndicators::new();
    let prices: Vec<i64> = vec![scaled(1.0), scaled(2.0), scaled(1.5)];
    let rsi = indicators.calculate_rsi(&prices, 1);
    assert_eq!(rsi, vec![0, scaled(100.0), 0]);
}

#[test]
fn test_rsi_trends_to_hundred() {
    // On a strictly increasing series every computed RSI value is exactly
    // the scaled 100: no loss ever enters the average.
    let indicators = TechnicalIndicators::new();
    let prices: Vec<i64> = (0..20).map(|i| scaled(10.0 + i as f64)).collect();
    let rsi = indicators.calculate_rsi(&prices, 14);
    for i in 0..prices.len() {
        if i < 14 {
            assert_eq!(rsi[i], 0);
        } else {
            assert_eq!(rsi[i], scaled(100.0));
        }
    }
}

#[test]
fn test_rsi_range() {
    let indicators = TechnicalIndicators::new();
    let raw = [5.0, 3.0, 8.0, 2.0, 9.0, 1.0, 7.0, 4.0, 6.0, 2.5];
    let prices: Vec<i64> = raw.iter().map(|&x| scaled(x)).collect();
    let rsi = indicators.calculate_rsi(&prices, 3);
    for v in rsi {
        assert!(v >= 0 && v <= scaled(100.0));
    }
}

#[test]
fn test_macd_exact_values() {
    // Prices [1, 2], fast 1, slow 3, signal 3: the fast EMA follows the
    // prices, the slow EMA reaches 1.5, the line is [0, 0.5], the signal
    // line smooths it to [0, 0.25], the histogram scales the gap by 1000.
    let indicators = TechnicalIndicators::new();
    let prices: Vec<i64> = vec![scaled(1.0), scaled(2.0)];
    let (line, signal, histogram) = indicators.calculate_macd(&prices, 1, 3, 3);
    assert_eq!(line, vec![0, scaled(0.5)]);
    assert_eq!(signal, vec![0, scaled(0.25)]);
    assert_eq!(histogram, vec![0, scaled(0.25) * 1000]);
}

#[test]
fn test_bollinger_exact_values() {
    // Prices [0, 2], window 2, two standard deviations: the mean is 1, the
    // population deviation is 1, so the bands sit at 3 and -1.
    let indicators = TechnicalIndicators::new();
    let prices: Vec<i64> = vec![0, scaled(2.0)];
    let (upper, middle, lower) = indicators.calculate_bollinger_bands(&prices, 2, scaled(2.0));
    assert_eq!(middle, vec![0, scaled(1.0)]);
    assert_eq!(upper, vec![0, scaled(3.0)]);
    assert_eq!(lower, vec![0, scaled(-1.0)]);
}

#[test]
fn test_bollinger_band_order() {
    // With a nonnegative width factor the bands never cross.
    let indicators = TechnicalIndicators::new();
    let raw = [12.0, 9.5, 14.0, 11.0, 13.5, 10.0, 12.5, 11.5];
    let prices: Vec<i64> = raw.iter().map(|&x| scaled(x)).collect();
    let (upper, middle, lower) = indicators.calculate_bollinger_bands(&prices, 3, scaled(2.0));
    for i in 2..prices.len() {
        assert!(upper[i] >= middle[i]);
        assert!(middle[i] >= lower[i]);
    }
}

#[test]
fn test_from_market_data_empty_is_error() {
    let indicators = TechnicalIndicators::new();
    let data: Vec<MarketData> = Vec::new();
    let result = indicators.calculate_from_market_data(&data, "AAPL");
    assert!(result.is_err());
}

#[test]
fn test_core_functionality() {
    let indicator = TechnicalIndicators::new();
    let data: Vec<i64> = vec![
        scaled(100.0),
        scaled(101.0),
        scaled(102.0),
        scaled(103.0),
        scaled(104.0),
    ];

    let sma = indicator.calculate_sma(&data, 3);
    assert!(!sma.is_empty());
}
