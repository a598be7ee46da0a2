//! Utility functions: time arithmetic, scaled-integer numerics, strings and
//! input validation.

pub mod numeric;
pub mod string;
pub mod time;
pub mod validation;
