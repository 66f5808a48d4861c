//! A verified core for a directory-tidying tool.
//!
//! Files at the top level of a target directory are sorted into category
//! subfolders (`Images`, `Videos`, and so on) chosen by file extension.
//! This crate holds the decision logic, fully verified: extension
//! classification, collision-safe destination naming, and the per-entry
//! planning that skips directories and the running executable.  The
//! filesystem work itself (listing, creating folders, renaming) is left to
//! the surrounding binary, which feeds plain values in and carries the
//! decisions out.

pub mod category;
pub mod naming;
pub mod resolve;
pub mod organize;
