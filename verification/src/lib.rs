//! Core of a concurrent byte-range downloader.
//!
//! A resource of known length is split into contiguous byte ranges
//! ("buckets"); each bucket is fetched independently and written at its own
//! offset of a pre-sized destination file. This crate holds the decision
//! logic of that design — range planning, per-bucket progress accounting,
//! the round-robin progress stream, cancellation bookkeeping, and the
//! client state machine — each function carrying a proved contract. The
//! network and filesystem sit behind a caller that feeds observed events in
//! as plain values.

pub mod assembly;
pub mod bucket;
pub mod delay;
pub mod download_client;
pub mod models;
pub mod planner;
