//! Compiled regular expressions, as the `regex` crate builds and runs them.

use regex::Regex;
use vstd::prelude::*;

verus! {

#[verifier::external_type_specification]
#[verifier::external_body]
pub struct ExRegex(Regex);

/// Whether `regex::Regex::new` accepts `pattern` (it rejects bad syntax and
/// patterns whose compiled form exceeds the crate's fixed size limits).
pub uninterp spec fn regex_is_valid(pattern: Seq<char>) -> bool;

/// What `regex::Regex::is_match` answers for the regex compiled from
/// `pattern`, asked about `haystack`: whether the pattern matches anywhere in it.
pub uninterp spec fn regex_is_match(pattern: Seq<char>, haystack: Seq<char>) -> bool;

/// The display text of the error that `regex::Regex::new` returns for a
/// pattern it rejects (the syntax error, or the size limit that the compiled
/// form exceeds).
pub uninterp spec fn regex_error_message(pattern: Seq<char>) -> Seq<char>;

/// A regular expression together with the text it was compiled from.
///
/// The fields are private: the only way to obtain a `Pattern` is `compile`,
/// so `regex` is always the compilation of `source`.
#[derive(Debug)]
pub struct Pattern {
    source: String,
    regex: Regex,
}

impl View for Pattern {
    type V = Seq<char>;

    closed spec fn view(&self) -> Seq<char> {
        self.source@
    }
}

/// Compiles `source` with `regex::Regex::new`.
///
/// Trusted: succeeds exactly when the regex crate accepts the pattern, and the
/// result remembers `source`; on failure the error's display text is returned,
/// which is `regex_error_message` of the pattern.
#[verifier::external_body]
pub(crate) fn compile(source: &str) -> (res: Result<Pattern, String>)
    ensures
        res is Ok <==> regex_is_valid(source@),
        res matches Ok(p) ==> p@ == source@,
        res matches Err(message) ==> message@ == regex_error_message(source@),
{
    match Regex::new(source) {
        Ok(regex) => Ok(Pattern { source: source.to_string(), regex }),
        Err(err) => Err(err.to_string()),
    }
}

impl Pattern {
    /// Runs `regex::Regex::is_match` on `haystack`.
    ///
    /// Trusted: the answer is the regex crate's, for the regex compiled from
    /// this pattern's source.
    #[verifier::external_body]
    pub(crate) fn is_match(&self, haystack: &str) -> (res: bool)
        ensures
            res == regex_is_match(self@, haystack@),
    {
        self.regex.is_match(haystack)
    }
}

} // verus!
