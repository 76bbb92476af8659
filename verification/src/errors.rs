//! The failure taxonomy of the fetch engine.

use vstd::prelude::*;

verus! {

/// A classified failure of a fetch or of a source's pipeline.
#[derive(Clone, Debug)]
pub enum FetchError {
    /// The request never produced a response.
    NetworkFailure,
    /// A response arrived with a non-success status; its status code and a
    /// snapshot of its headers are kept.
    HttpStatusFailure { status: u16, headers: Vec<(String, String)> },
    /// The payload could not be decoded into the requested shape.
    DecodeFailure,
    /// A rate-limit response asked for a wait longer than the ceiling; the
    /// fetch was aborted rather than retried.
    RateLimitAborted { retry_after_s: u64 },
    /// A window boundary could not be turned into a cursor.
    WindowComputationFailure,
    /// A required linked-resource id was absent from a payload.
    SourceMetadataMissing,
}

impl FetchError {
    /// Whether the retry policy may try again after this failure.
    pub fn is_retryable(&self) -> (r: bool)
        ensures
            r == (self is NetworkFailure || self is HttpStatusFailure),
    {
        match self {
            FetchError::NetworkFailure => true,
            FetchError::HttpStatusFailure { .. } => true,
            _ => false,
        }
    }
}

} // verus!
