//! A concurrent ranged-object downloader, verified.
//!
//! Given a storage client able to fetch byte ranges of a named blob, the
//! library splits a logical download into fixed-size parts, hands them out
//! for concurrent fetching with bounded parallelism, and reassembles the
//! results into an in-order byte stream.
//!
//! The verified core covers:
//! - the range model: user-facing range shapes, validation, and resolution
//!   into a canonical inclusive byte interval;
//! - the part planner: splitting the interval into dense, gap-free part
//!   requests;
//! - the download state machine: bounded-concurrency admission, ordered
//!   emission with bounded buffering, and failure propagation.
//!
//! Asynchronous plumbing (actually issuing fetches, awaiting completions)
//! lives outside the library and drives the state machine.

pub mod config;
pub mod download_range;
pub mod errors;
pub mod machine;
pub mod range_stream;
pub mod text;

pub use config::{
    AlwaysGetSize, BufferSize, BuffersFullDelay, Config, Gibi, Giga, Kibi, Kilo, MaxConcurrency,
    Mebi, Mega, Millis, PartSizeBytes,
};
pub use download_range::{ClosedRange, DownloadRange, InclusiveRange, OffsetRange, OpenRange};
pub use errors::CondowError;
pub use machine::{needs_size_request, start_download, DownloadMachine, PartPayload};
pub use range_stream::{calc_num_parts, plan_requests, RangeRequest};
