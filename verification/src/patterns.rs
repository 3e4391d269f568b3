//! Regular expressions of the `regex` crate.

use regex::{Captures, Regex};
use vstd::prelude::*;

verus! {

/// A compiled regular expression, `regex::Regex`.
#[verifier::external_type_specification]
#[verifier::external_body]
pub struct ExRegex(Regex);

/// The groups of a match, `regex::Captures`.
#[verifier::external_type_specification]
#[verifier::external_body]
pub struct ExCaptures<'h>(Captures<'h>);

/// The error of `Regex::new`.
#[verifier::external_type_specification]
#[verifier::external_body]
pub struct ExRegexError(regex::Error);

/// What `Regex::new` makes of a pattern.
pub uninterp spec fn compiled_regex(pattern: Seq<char>) -> Result<Regex, regex::Error>;

/// Whether an expression matches somewhere in a text, so that `Regex::captures`
/// finds something.
pub uninterp spec fn regex_matches(expression: Regex, haystack: Seq<char>) -> bool;

/// What `Regex::replacen` gives: the text with up to `limit` matches replaced, all
/// of them where `limit` is zero. In the replacement `$1` and the like stand for
/// capture groups.
pub uninterp spec fn regex_replaced(
    expression: Regex,
    haystack: Seq<char>,
    limit: usize,
    replacement: Seq<char>,
) -> Seq<char>;

/// `Regex::new` compiles a pattern. Its result depends on the pattern alone.
pub assume_specification[ Regex::new ](re: &str) -> (compiled: Result<Regex, regex::Error>)
    ensures
        compiled == compiled_regex(re@),
;

/// `Regex::captures` finds the first match, if there is one.
pub assume_specification<'h>[ Regex::captures ](expression: &Regex, haystack: &'h str) -> (found:
    Option<Captures<'h>>)
    ensures
        found is Some <==> regex_matches(*expression, haystack@),
;

/// `Regex::replacen` with a template for the replacement. Its result depends on
/// its arguments alone.
#[verifier::external_body]
pub(crate) fn replace_matches(
    expression: &Regex,
    haystack: &str,
    limit: usize,
    replacement: &str,
) -> (replaced: String)
    ensures
        replaced@ == regex_replaced(*expression, haystack@, limit, replacement@),
{
    expression.replacen(haystack, limit, replacement).into_owned()
}

} // verus!
