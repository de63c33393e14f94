//! Error taxonomy surfaced to callers of the engine.

use vstd::prelude::*;

verus! {

/// Failure classes reported by the service layer: store failures are
/// propagated, external-source failures are tolerated while a cached
/// value exists, and cache/parse problems are reported as such.
#[derive(Debug, Clone)]
pub enum ApiError {
    DatabaseError(String),
    ExternalServiceError(String),
    CacheError(String),
    ParseError(String),
}

impl ApiError {
    pub fn database_error(msg: String) -> (e: ApiError)
        ensures
            e == ApiError::DatabaseError(msg),
    {
        ApiError::DatabaseError(msg)
    }

    pub fn external_error(msg: String) -> (e: ApiError)
        ensures
            e == ApiError::ExternalServiceError(msg),
    {
        ApiError::ExternalServiceError(msg)
    }

    pub fn cache_error(msg: String) -> (e: ApiError)
        ensures
            e == ApiError::CacheError(msg),
    {
        ApiError::CacheError(msg)
    }

    pub fn parse_error(msg: String) -> (e: ApiError)
        ensures
            e == ApiError::ParseError(msg),
    {
        ApiError::ParseError(msg)
    }

    /// The message the error was built with.
    pub open spec fn message_view(self) -> Seq<char> {
        match self {
            ApiError::DatabaseError(m) => m@,
            ApiError::ExternalServiceError(m) => m@,
            ApiError::CacheError(m) => m@,
            ApiError::ParseError(m) => m@,
        }
    }

    /// Borrow the message the error was built with.
    pub fn message(&self) -> (m: &String)
        ensures
            m@ == self.message_view(),
    {
        match self {
            ApiError::DatabaseError(m) => m,
            ApiError::ExternalServiceError(m) => m,
            ApiError::CacheError(m) => m,
            ApiError::ParseError(m) => m,
        }
    }
}

/// The one hard failure of the metrics engine: it was asked for
/// metrics over an empty annual series.
#[derive(Debug, Clone, Copy, PartialEq, Eq, Structural)]
pub enum MetricsError {
    InsufficientData,
}

} // verus!
