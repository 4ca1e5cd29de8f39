//! Compares the file trees rooted at two directories and reports which
//! relative paths exist in one tree but not the other.
//!
//! The library works on plain values: a caller walks each root and hands in
//! the entries it saw (relative path, kind, depth). The library filters them
//! by kind and depth, builds the two path sets, and computes the paths
//! exclusive to each side together with their counts.

pub mod collect;
pub mod diff;
pub mod pathset;
