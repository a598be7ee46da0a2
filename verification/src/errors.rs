//! The error family shared by every part of the engine.
//!
//! The computation core itself only ever produces `InvalidInput`; the other
//! kinds exist for the surrounding adapters that feed and transport data.

use vstd::prelude::*;

verus! {

use vstd::string::StringExecFns;

#[derive(Debug, Clone)]
pub enum AlphaError {
    InvalidInput(String),
    DataNotFound(String),
    CalculationError(String),
    NetworkError(String),
    StorageError(String),
    ConfigurationError(String),
    AuthenticationError(String),
    PermissionDenied(String),
    RateLimited(String),
    ServiceUnavailable(String),
    InternalError(String),
    PlatformError(String),
    WasmError(String),
    JniError(String),
    SerializationError(String),
}

pub type AlphaResult<T> = Result<T, AlphaError>;

/// The human-readable form of an error, one prefix per kind.
pub open spec fn message_of(e: AlphaError) -> Seq<char> {
    match e {
        AlphaError::InvalidInput(m) => "Invalid input: "@ + m@,
        AlphaError::DataNotFound(m) => "Data not found: "@ + m@,
        AlphaError::CalculationError(m) => "Calculation error: "@ + m@,
        AlphaError::NetworkError(m) => "Network error: "@ + m@,
        AlphaError::StorageError(m) => "Storage error: "@ + m@,
        AlphaError::ConfigurationError(m) => "Configuration error: "@ + m@,
        AlphaError::AuthenticationError(m) => "Authentication error: "@ + m@,
        AlphaError::PermissionDenied(m) => "Permission denied: "@ + m@,
        AlphaError::RateLimited(m) => "Rate limited: "@ + m@,
        AlphaError::ServiceUnavailable(m) => "Service unavailable: "@ + m@,
        AlphaError::InternalError(m) => "Internal error: "@ + m@,
        AlphaError::PlatformError(m) => "Platform error: "@ + m@,
        AlphaError::WasmError(m) => "WASM error: "@ + m@,
        AlphaError::JniError(m) => "JNI error: "@ + m@,
        AlphaError::SerializationError(m) => "Serialization error: "@ + m@,
    }
}

impl AlphaError {
    pub fn network(msg: String) -> (r: Self)
        ensures
            r == AlphaError::NetworkError(msg),
    {
        AlphaError::NetworkError(msg)
    }

    pub fn not_found(msg: String) -> (r: Self)
        ensures
            r == AlphaError::DataNotFound(msg),
    {
        AlphaError::DataNotFound(msg)
    }

    pub fn invalid_input(msg: String) -> (r: Self)
        ensures
            r == AlphaError::InvalidInput(msg),
    {
        AlphaError::InvalidInput(msg)
    }

    pub fn internal(msg: String) -> (r: Self)
        ensures
            r == AlphaError::InternalError(msg),
    {
        AlphaError::InternalError(msg)
    }

    /// The error rendered as text, in place of a display impl.
    pub fn message(&self) -> (r: String)
        ensures
            r@ == message_of(*self),
    {
        match self {
            AlphaError::InvalidInput(m) => String::from_str("Invalid input: ").concat(
                m.as_str(),
            ),
            AlphaError::DataNotFound(m) => String::from_str("Data not found: ").concat(
                m.as_str(),
            ),
            AlphaError::CalculationError(m) => String::from_str("Calculation error: ").concat(
                m.as_str(),
            ),
            AlphaError::NetworkError(m) => String::from_str("Network error: ").concat(
                m.as_str(),
            ),
            AlphaError::StorageError(m) => String::from_str("Storage error: ").concat(
                m.as_str(),
            ),
            AlphaError::ConfigurationError(m) => String::from_str("Configuration error: ").concat(
                m.as_str(),
            ),
            AlphaError::AuthenticationError(m) => String::from_str(
                "Authentication error: ",
            ).concat(m.as_str()),
            AlphaError::PermissionDenied(m) => String::from_str("Permission denied: ").concat(
                m.as_str(),
            ),
            AlphaError::RateLimited(m) => String::from_str("Rate limited: ").concat(
                m.as_str(),
            ),
            AlphaError::ServiceUnavailable(m) => String::from_str("Service unavailable: ").concat(
                m.as_str(),
            ),
            AlphaError::InternalError(m) => String::from_str("Internal error: ").concat(
                m.as_str(),
            ),
            AlphaError::PlatformError(m) => String::from_str("Platform error: ").concat(
                m.as_str(),
            ),
            AlphaError::WasmError(m) => String::from_str("WASM error: ").concat(m.as_str()),
            AlphaError::JniError(m) => String::from_str("JNI error: ").concat(m.as_str()),
            AlphaError::SerializationError(m) => String::from_str("Serialization error: ").concat(
                m.as_str(),
            ),
        }
    }
}

} // verus!
