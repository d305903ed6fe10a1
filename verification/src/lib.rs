//! Verified comparison engine for two filesystem trees.
//!
//! The library works on plain snapshots of filesystem entries: metadata
//! records, symlink targets, file contents and relative path sets.  An
//! unverified front end gathers those snapshots from the operating system
//! and hands them in; everything that decides what was added, deleted or
//! changed is verified here.

pub mod comparator;
pub mod decimal;
pub mod diff;
