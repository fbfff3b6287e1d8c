//! Regular expressions, compiled with the `regex` crate.

use vstd::prelude::*;

verus! {

#[verifier::external_type_specification]
#[verifier::external_body]
pub struct ExRegex(regex::Regex);

#[verifier::external_type_specification]
#[verifier::external_body]
pub struct ExRegexError(regex::Error);

/// Whether `regex::Regex::new` accepts `pattern` (it is valid syntax and within
/// the default size limit).
pub uninterp spec fn regex_compiles(pattern: Seq<char>) -> bool;

/// What `regex::Regex::is_match` answers for the expression compiled from
/// `pattern` on `text`: whether the expression matches anywhere in `text`.
pub uninterp spec fn regex_matches(pattern: Seq<char>, text: Seq<char>) -> bool;

/// What `regex::Regex::captures_iter` yields for the expression compiled from
/// `pattern` on `text`: for each successive non-overlapping match, the texts of
/// capture groups 1, 2 and 3 (`None` where a group did not take part).
pub uninterp spec fn regex_captures(pattern: Seq<char>, text: Seq<char>) -> Seq<
    (Option<Seq<char>>, Option<Seq<char>>, Option<Seq<char>>),
>;

/// A compiled regular expression together with the pattern it was compiled from.
pub struct CompiledPattern {
    source: String,
    regex: regex::Regex,
}

impl CompiledPattern {
    /// The pattern the expression was compiled from.
    pub closed spec fn pattern(&self) -> Seq<char> {
        self.source@
    }
}

/// Calls `regex::Regex::new(pattern)`, keeping `pattern` beside the compiled
/// expression. States that it succeeds exactly when `regex_compiles(pattern)`;
/// the error value is passed on as the crate gives it.
#[verifier::external_body]
pub(crate) fn compile_pattern(pattern: &str) -> (r: Result<CompiledPattern, regex::Error>)
    ensures
        r is Ok <==> regex_compiles(pattern@),
        r matches Ok(c) ==> c.pattern() == pattern@,
{
    match regex::Regex::new(pattern) {
        Ok(regex) => Ok(CompiledPattern { source: pattern.to_string(), regex }),
        Err(e) => Err(e),
    }
}

/// Calls `regex::Regex::is_match` on the compiled expression; the answer is
/// named `regex_matches` of the pattern and the text.
#[verifier::external_body]
pub(crate) fn pattern_is_match(c: &CompiledPattern, text: &str) -> (r: bool)
    ensures
        r == regex_matches(c.pattern(), text@),
{
    c.regex.is_match(text)
}

/// The characters of an optional capture.
pub open spec fn opt_view(s: Option<String>) -> Option<Seq<char>> {
    match s {
        Some(t) => Some(t@),
        None => None,
    }
}

/// The characters of each capture of each match.
pub open spec fn captures_view(v: Seq<(Option<String>, Option<String>, Option<String>)>) -> Seq<
    (Option<Seq<char>>, Option<Seq<char>>, Option<Seq<char>>),
> {
    v.map_values(|c: (Option<String>, Option<String>, Option<String>)| (opt_view(c.0), opt_view(c.1), opt_view(c.2)))
}

/// Calls `regex::Regex::captures_iter` on the compiled expression and copies out
/// groups 1 to 3 of every match (`Captures::get`, `Match::as_str`); the result
/// is named `regex_captures` of the pattern and the text.
#[verifier::external_body]
pub(crate) fn pattern_captures(c: &CompiledPattern, text: &str) -> (r: Vec<(Option<String>, Option<String>, Option<String>)>)
    ensures
        captures_view(r@) == regex_captures(c.pattern(), text@),
{
    c.regex.captures_iter(text).map(|cap| (
        cap.get(1).map(|m| m.as_str().to_string()),
        cap.get(2).map(|m| m.as_str().to_string()),
        cap.get(3).map(|m| m.as_str().to_string()),
    )).collect()
}

} // verus!
