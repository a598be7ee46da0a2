//! Deterministic technical-indicator and risk-analytics engine.
//!
//! All quantities are fixed-point values: an `i64` value `v` at precision `p`
//! stands for the real number `v / 10^p`. The engine computes moving averages,
//! oscillators and risk metrics over one instrument's price series, and fuses
//! them into a recommendation with a confidence score. Every computation is
//! specified and verified against an exact mathematical model of the shared
//! rounding policy: round half away from zero, at the configured precision.

pub mod analytics;
pub mod arith;
pub mod codegen;
pub mod errors;
pub mod indicators;
pub mod models;
pub mod utils;
