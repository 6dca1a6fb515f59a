//! Disk-usage auditing library.
//!
//! A scan walks a directory tree, keeps only the most specific directories
//! (no ancestor/descendant pairs), ranks them by total size and appends the
//! top entries, together with a timing record, to a durable store.  This
//! crate holds the verified core of that pipeline: path containment,
//! frontier deduplication, folding of per-directory sizing outcomes,
//! ranking, and the orchestration decisions.  Filesystem traversal, sizing
//! and the store itself are outside collaborators that hand the core plain
//! values.

pub mod config;
pub mod frontier;
pub mod paths;
pub mod rank;
pub mod run;
