//! The error surface of the library.
//!
//! A single category with machine-distinguishable kinds. Validation errors
//! surface synchronously; fetch-time errors surface through the byte stream
//! and terminate it.

use vstd::prelude::*;

verus! {

/// The error kinds a download can end with.
#[derive(Debug, Clone, Copy, PartialEq, Eq, Structural)]
pub enum CondowError {
    /// A user-supplied range failed validation (a closed range whose end
    /// lies before its start).
    InvalidRange,
    /// The configuration is unusable: zero `part_size_bytes` or zero
    /// `max_concurrency`.
    InvalidConfig,
    /// The blob's size was required but could not be obtained.
    SizeUnavailable,
    /// The client failed while fetching a part.
    ClientFetch,
    /// A client fetch produced fewer bytes than its range asked for.
    ShortRead,
    /// A client fetch produced more bytes than its range asked for.
    OverRead,
}

impl CondowError {
    /// A short, stable description of the kind, for diagnostics at the
    /// boundary.
    pub fn describe(&self) -> (r: &'static str)
        ensures
            r@.len() > 0,
    {
        proof {
            reveal_strlit("invalid range");
            reveal_strlit("invalid configuration");
            reveal_strlit("size unavailable");
            reveal_strlit("client fetch failed");
            reveal_strlit("short read");
            reveal_strlit("over read");
        }
        match self {
            CondowError::InvalidRange => "invalid range",
            CondowError::InvalidConfig => "invalid configuration",
            CondowError::SizeUnavailable => "size unavailable",
            CondowError::ClientFetch => "client fetch failed",
            CondowError::ShortRead => "short read",
            CondowError::OverRead => "over read",
        }
    }
}

} // verus!
