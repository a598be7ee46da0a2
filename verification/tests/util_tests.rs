//! Utility function behavior: numerics, strings, time and validation.

use alpha_core::models::MarketData;
use alpha_core::utils::numeric;
use alpha_core::utils::string;
use alpha_core::utils::time;
use alpha_core::utils::validation;
use alpha_core::errors::AlphaError;

fn scaled(x: f64) -> i64 {
    (x * 10000.0).round() as i64
}

#[test]
fn test_numeric_utils() {
    // 3.14159 held at five decimals, rounded to two decimals: 3.14.
    assert_eq!(numeric::round_to(314159, 1000), 314000);
    // 100 to 110 is a ten percent change, scaled.
    assert_eq!(
        numeric::percent_change(scaled(100.0), scaled(110.0), 10000),
        scaled(10.0) as i128
    );
    assert_eq!(
        numeric::safe_divide(scaled(10.0), scaled(2.0), 0, 10000),
        scaled(5.0) as i128
    );
    assert_eq!(
        numeric::safe_divide(scaled(10.0), 0, scaled(-1.0), 10000),
        scaled(-1.0) as i128
    );
}

#[test]
fn test_round_to_idempotent() {
    // Rounding an already-rounded value at the same step changes nothing.
    for v in [314159i64, -271828, 0, 999, -1000, 123450000] {
        for step in [1i64, 10, 1000, 10000] {
            let once = numeric::round_to(v, step);
            assert_eq!(numeric::round_to(once, step), once);
        }
    }
}

#[test]
fn test_round_to_half_away_from_zero() {
    assert_eq!(numeric::round_to(25, 10), 30);
    assert_eq!(numeric::round_to(-25, 10), -30);
    assert_eq!(numeric::round_to(24, 10), 20);
    assert_eq!(numeric::round_to(-24, 10), -20);
}

#[test]
fn test_moving_average_matches_sma() {
    let values: Vec<i64> = vec![scaled(1.0), scaled(2.0), scaled(3.0), scaled(4.0), scaled(5.0)];
    let avg = numeric::moving_average(&values, 3);
    assert_eq!(avg, vec![0, 0, scaled(2.0), scaled(3.0), scaled(4.0)]);
}

#[test]
fn test_string_utils() {
    assert_eq!(string::safe_truncate("hello world", 5), "he...");
    assert_eq!(string::trim_whitespace(" hello  world "), "helloworld");
    assert!(string::is_valid_symbol("AAPL"));
    assert!(!string::is_valid_symbol(""));
    assert!(!string::is_valid_symbol("TOO_LONG_SYMBOL_12345"));
}

#[test]
fn test_symbol_character_rule() {
    assert!(string::is_valid_symbol("BRK.B"));
    assert!(!string::is_valid_symbol("AB!"));
    assert!(!string::is_valid_symbol("A B"));
}

#[test]
fn test_time_utils() {
    let now = chrono::Utc::now();
    let timestamp = time::current_timestamp_ms();
    let dt = time::timestamp_to_datetime(timestamp).unwrap();

    assert!((now.timestamp_millis() - dt).abs() < 1000);
}

#[test]
fn test_timestamp_out_of_range() {
    let result = time::timestamp_to_datetime(i64::MAX);
    match result {
        Err(alpha_core::errors::AlphaError::InvalidInput(m)) => {
            assert_eq!(m, "Invalid timestamp");
        }
        _ => panic!("expected invalid input"),
    }
}

#[test]
fn test_trading_time_boundaries() {
    // 2021-06-07 is a Monday; 14:30 UTC opens the session and 21:00 closes
    // it, both inclusive.
    let monday_midnight: i64 = 1623024000000;
    let open = monday_midnight + (14 * 60 + 30) * 60_000;
    let close = monday_midnight + 21 * 60 * 60_000;
    assert!(!time::is_trading_time(open - 60_000));
    assert!(time::is_trading_time(open));
    assert!(time::is_trading_time(close));
    assert!(!time::is_trading_time(close + 60_000));
}

#[test]
fn test_next_trading_day_skips_weekend() {
    // From that Monday: the next trading day is Tuesday; from Friday, the
    // following Monday.
    let monday_noon: i64 = 1623024000000 + 12 * 60 * 60_000;
    let day = 86_400_000;
    assert_eq!(time::next_trading_day(monday_noon), monday_noon + day);
    let friday_noon = monday_noon + 4 * day;
    assert_eq!(time::next_trading_day(friday_noon), friday_noon + 3 * day);
}

#[test]
fn test_validation() {
    let valid_data = MarketData {
        symbol: "AAPL".to_string(),
        timestamp: time::current_timestamp_ms(),
        price: scaled(150.0),
        volume: 1000,
        bid: Some(scaled(149.5)),
        ask: Some(scaled(150.5)),
        open: Some(scaled(149.0)),
        high: Some(scaled(151.0)),
        low: Some(scaled(148.5)),
    };

    assert!(validation::validate_market_data(&valid_data).is_ok());
    assert!(validation::validate_price_range(scaled(150.0), "AAPL", 10000).is_ok());
    assert!(validation::validate_price_range(0, "AAPL", 10000).is_err());
}

#[test]
fn test_validation_rejects_future_timestamp() {
    let data = MarketData {
        symbol: "AAPL".to_string(),
        timestamp: time::current_timestamp_ms() + 3_600_000,
        price: scaled(150.0),
        volume: 1000,
        bid: None,
        ask: None,
        open: None,
        high: None,
        low: None,
    };
    assert!(validation::validate_market_data(&data).is_err());
}

#[test]
fn test_error_messages() {
    assert_eq!(
        AlphaError::network("down".to_string()).message(),
        "Network error: down"
    );
    assert_eq!(
        AlphaError::not_found("row".to_string()).message(),
        "Data not found: row"
    );
    assert_eq!(
        AlphaError::invalid_input("bad".to_string()).message(),
        "Invalid input: bad"
    );
    assert_eq!(
        AlphaError::internal("oops".to_string()).message(),
        "Internal error: oops"
    );
}
