//! Verified core of a file/directory inspector: directory-tree walking over
//! an in-memory snapshot, pattern filtering, record normalization, sorting,
//! aggregate statistics and size-based duplicate detection.
pub mod analysis;
pub mod collect;
pub mod fstree;
pub mod laws;
pub mod pattern;
pub mod records;
pub mod sort;
pub mod text;
pub mod types;
