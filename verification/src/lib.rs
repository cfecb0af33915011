//! A client library for a rate-limited catalog API: per-destination request
//! throttling, retry handling for server-side rate limiting, paginated
//! metadata aggregation, and an integrity-checked asset download pipeline.
//!
//! All time-dependent logic takes explicit clock readings (milliseconds or
//! Unix seconds) as arguments, so the whole decision layer is verified; the
//! caller supplies the clock, performs the HTTP requests and writes the files.

pub mod api;
pub mod chapter;
pub mod coverart;
pub mod image;
pub mod manga;
pub mod metadata;
pub mod mime;
pub mod ratelimits;
pub mod requester;
pub mod text;
pub mod types;
pub mod utils;
