//! The ways a search can fail.
use vstd::prelude::*;

verus! {

/// Why a search could not produce its list of matching lines.
#[derive(Debug, Clone, Copy, PartialEq, Eq, Structural)]
pub enum ScanError {
    /// The regular expression does not compile.
    PatternError,
    /// No file to search was named.
    MissingArgument,
    /// The file could not be read.
    IoError,
}

} // verus!
