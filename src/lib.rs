//! Line-oriented pattern search over the contents of a file.
//!
//! `config` builds what a search needs, `lines` splits decoded text into
//! lines, `pattern` wraps a compiled regular expression, and `scan` picks
//! out the lines that the pattern matches.
pub mod config;
pub mod error;
pub mod lines;
pub mod pattern;
pub mod scan;
