//! Validation of incoming observations.

use vstd::prelude::*;

verus! {

use crate::errors::AlphaError;
use crate::errors::AlphaResult;
use crate::models::MarketData;
use crate::utils::time::current_timestamp_ms;
use vstd::string::StringExecFns;

/// Accepts an observation with a symbol, a positive price, and a timestamp
/// not ahead of the clock read during the call. The timestamp check depends
/// on the clock, so an input that passes the first two checks is promised
/// nothing stronger than one of the two stated outcomes.
pub fn validate_market_data(data: &MarketData) -> (r: AlphaResult<()>)
    ensures
        data.symbol@.len() == 0 ==> (r matches Err(e) && e matches AlphaError::InvalidInput(m)
            && m@ == "Symbol cannot be empty"@),
        data.symbol@.len() > 0 && data.price <= 0 ==> (r matches Err(e) && e matches AlphaError::InvalidInput(
            m,
        ) && m@ == "Price must be positive"@),
        data.symbol@.len() > 0 && data.price > 0 ==> (r is Ok || (r matches Err(e)
            && e matches AlphaError::InvalidInput(m) && m@
            == "Timestamp cannot be in the future"@)),
        r is Ok ==> data.symbol@.len() > 0 && data.price > 0,
{
    if data.symbol.as_str().is_empty() {
        return Err(AlphaError::invalid_input(String::from_str("Symbol cannot be empty")));
    }
    if data.price <= 0 {
        return Err(AlphaError::invalid_input(String::from_str("Price must be positive")));
    }
    let now: i64 = current_timestamp_ms();
    if data.timestamp > now {
        return Err(
            AlphaError::invalid_input(String::from_str("Timestamp cannot be in the future")),
        );
    }
    Ok(())
}

/// Accepts a scaled price exactly when it is positive and at most a million
/// once unscaled.
pub fn validate_price_range(price: i64, symbol: &str, pow: i64) -> (r: AlphaResult<()>)
    requires
        1 <= pow <= 100_000_000,
    ensures
        r is Ok <==> 0 < price <= 1_000_000 * pow,
        price <= 0 ==> (r matches Err(e) && e matches AlphaError::InvalidInput(m) && m@
            == "Price must be positive"@),
        price > 1_000_000 * pow ==> (r matches Err(e) && e matches AlphaError::InvalidInput(m)
            && m@ == "Price seems unreasonably high"@),
{
    if price <= 0 {
        return Err(AlphaError::invalid_input(String::from_str("Price must be positive")));
    }
    if price > 1_000_000 * pow {
        return Err(
            AlphaError::invalid_input(String::from_str("Price seems unreasonably high")),
        );
    }
    Ok(())
}

} // verus!
