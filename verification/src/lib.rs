//! Composable partition filters for a compaction pipeline.
//!
//! A filter decides, from a partition's identity and its file metadata,
//! whether the partition proceeds to the next compaction stage. Filters
//! compose with short-circuiting boolean combinators and can be wrapped in
//! logging and metrics decorators that observe an outcome without changing
//! it. An error means no decision could be reached; the caller records the
//! partition as skipped rather than filtered out.

pub mod data;
pub mod error;
pub mod filter;
pub mod laws;
pub mod observe;
