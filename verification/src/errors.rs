//! Errors that the rename pipeline can report.

use vstd::prelude::*;

verus! {

/// Everything that can go wrong while matching, validating and renaming.
#[derive(Debug)]
pub enum CommonError {
    /// The directory part of a template does not name an existing directory.
    InvalidDirectoryPath { path: String },
    /// The template has no filename component.
    InvalidNamePattern,
    /// No filename in the batch matched the input pattern.
    NoMatchingFiles { pattern: String },
    /// The destination file already exists and overwriting is disabled.
    FilenameAlreadyExists { filename: String },
    /// An underlying filesystem operation failed.
    IOError { message: String },
    /// The input path is empty or has no parent directory.
    EmptyInput,
    /// A marker's digits do not fit into a machine integer.
    InvalidMarkersValue,
    /// A marker's value is zero or greater than the fragment count.
    TooBigMarkerValue,
}

} // verus!
