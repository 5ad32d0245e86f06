//! Move and rename files by filename pattern.
//!
//! The library matches filenames against a wildcard pattern (`*` is the only
//! metacharacter), captures the substrings each wildcard consumed, and renders
//! a new name from an output template whose markers `#1`, `#2`, ... refer to
//! those captures.  Everything here is pure string logic; directory listing
//! and the actual renames are left to the caller.

use vstd::prelude::*;

pub mod errors;
pub mod manager;
pub mod matched;
pub mod modified;
pub mod operations;
pub mod paths;
pub mod text;

verus! {

/// Command-line arguments, already parsed into plain values.
#[derive(Debug)]
pub struct Arguments {
    /// Path to directory where files lie & template of changes
    pub input_template: String,

    /// Template of future file names
    pub output_template: String,

    /// Override existing files
    pub force: bool,
}

} // verus!
