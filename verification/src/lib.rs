//! Core logic of a concurrent single-file copier.
//!
//! A large file is split into contiguous byte ranges, one per worker; each
//! worker copies its range with positional reads and writes while a shared
//! counter tracks progress, and an optional post-copy pass streams both files
//! to confirm byte-for-byte equality.  This crate holds the decisions of that
//! pipeline — range planning, worker-loop bookkeeping, outcome collection,
//! progress arithmetic and chunk comparison — as verified functions; the
//! threads and the file descriptors live with the caller.

pub mod error;
pub mod job;
pub mod progress;
pub mod range;
pub mod verify;
pub mod worker;
