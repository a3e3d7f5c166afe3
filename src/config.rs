//! What a search needs before it starts: a compiled pattern and a file.
use vstd::prelude::*;
use crate::error::ScanError;
use crate::pattern::{regex_compiles, Pattern};

verus! {

/// A compiled pattern and the path of the file to search.
pub struct Config {
    pub pattern: Pattern,
    pub path: String,
}

impl Config {
    /// Builds the configuration from the pattern text and the file path, if
    /// one was given. The pattern is compiled first, so a bad pattern is
    /// reported as `PatternError` whether or not a path was given.
    pub fn new(pattern: &str, path: Option<String>) -> (r: Result<Config, ScanError>)
        ensures
            !regex_compiles(pattern@) ==> r == Err::<Config, ScanError>(ScanError::PatternError),
            regex_compiles(pattern@) && path is None ==> r == Err::<Config, ScanError>(
                ScanError::MissingArgument,
            ),
            regex_compiles(pattern@) && path is Some ==> r is Ok,
            r matches Ok(c) ==> c.pattern@ == pattern@ && path == Some(c.path),
    {
        let compiled = match Pattern::new(pattern) {
            Ok(p) => p,
            Err(e) => {
                return Err(e);
            },
        };
        match path {
            Some(path) => Ok(Config { pattern: compiled, path }),
            None => Err(ScanError::MissingArgument),
        }
    }
}

} // verus!
