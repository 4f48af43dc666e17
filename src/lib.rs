//! A local on-disk cache for downloaded package files.
//!
//! Cached files are named `<package>#<version>#<descriptor>`. The library parses
//! such names, selects entries by package-name pattern, plans removals and
//! computes the staging paths for new downloads. The file system itself is
//! touched by the caller, which hands the library the directory listing.
pub mod naming;
pub mod cache;
pub mod laws;
