//! Compiled regular expressions, used as a yes/no test on a line of text.
use vstd::prelude::*;
use crate::error::ScanError;

verus! {

/// Whether the regular expression written as `pattern` compiles.
pub uninterp spec fn regex_compiles(pattern: Seq<char>) -> bool;

/// Whether the regular expression written as `pattern` matches somewhere in
/// `haystack`.
pub uninterp spec fn regex_matches(pattern: Seq<char>, haystack: Seq<char>) -> bool;

#[verifier::external_type_specification]
#[verifier::external_body]
pub struct ExRegex(regex::Regex);

#[verifier::external_type_specification]
#[verifier::external_body]
pub struct ExRegexError(regex::Error);

/// Relies on `regex::Regex::new`: whether it succeeds depends on the pattern
/// text alone.
#[verifier::external_body]
fn compile_regex(src: &str) -> (r: Result<regex::Regex, regex::Error>)
    ensures
        r is Ok <==> regex_compiles(src@),
{
    regex::Regex::new(src)
}

/// A regular expression together with the text it was compiled from.
pub struct Pattern {
    source: String,
    re: regex::Regex,
}

impl View for Pattern {
    type V = Seq<char>;

    /// The text of the regular expression.
    closed spec fn view(&self) -> Seq<char> {
        self.source@
    }
}

/// Relies on `regex::Regex::is_match`, called on the regex that
/// `Pattern::new` compiled from `p@` (the fields are private and set only
/// there): the answer depends on the pattern text and the line alone.
#[verifier::external_body]
pub(crate) fn regex_is_match(p: &Pattern, line: &str) -> (r: bool)
    ensures
        r == regex_matches(p@, line@),
{
    p.re.is_match(line)
}

impl Pattern {
    /// Compiles `src`; fails with `PatternError` when it is not a valid
    /// regular expression.
    pub fn new(src: &str) -> (r: Result<Pattern, ScanError>)
        ensures
            r is Ok <==> regex_compiles(src@),
            r matches Ok(p) ==> p@ == src@,
            r matches Err(e) ==> e == ScanError::PatternError,
    {
        match compile_regex(src) {
            Ok(re) => Ok(Pattern { source: src.to_owned(), re }),
            Err(_) => Err(ScanError::PatternError),
        }
    }

    /// The text the pattern was compiled from.
    pub fn as_str(&self) -> (r: &str)
        ensures
            r@ == self@,
    {
        self.source.as_str()
    }
}

} // verus!
