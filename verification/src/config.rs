//! The resolved configuration of one audit run.
//!
//! An outside collaborator (command-line and environment parsing) fills
//! this record before the core runs; the core only reads it.

use vstd::prelude::*;

verus! {

/// Options of one run: where to scan, how deep, whether to stay on the
/// root's filesystem, how many directories to report, and where the
/// store lives.
pub struct Opts {
    /// Root of the traversal.
    pub watcher_path: String,
    /// How many levels below the root the traversal may descend.
    pub watcher_depth: usize,
    /// Stay on the filesystem of the root; do not cross mount points.
    pub watcher_same_fs: bool,
    /// How many of the largest directories to record.
    pub watcher_count: usize,
    /// Location of the persistent store.
    pub db_path: String,
}

} // verus!
