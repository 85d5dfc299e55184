//! Reader for an append-only archive of blockchain checkpoints.
//!
//! The archive is a set of remote files, listed by a manifest, that hold
//! checkpoint summaries and checkpoint contents as length-prefixed frames.
//! This crate holds the rules of reading it: the frame format, the choice of
//! files for a range of sequence numbers, and the verification of each
//! checkpoint against its predecessor before it enters a local store.

pub mod checkpoint;
pub mod codec;
pub mod determined;
pub mod error;
pub mod fetch;
pub mod frame;
pub mod ingest;
pub mod laws;
pub mod manifest;
pub mod planner;
pub mod progress;
pub mod reader;
pub mod store;
pub mod wire;
