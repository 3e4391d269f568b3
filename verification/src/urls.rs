//! URLs of the `url` crate.

use url::Url;
use vstd::prelude::*;

verus! {

/// A parsed URL, `url::Url`.
#[verifier::external_type_specification]
#[verifier::external_body]
pub struct ExUrl(Url);

/// The error of `Url::parse`.
#[verifier::external_type_specification]
#[verifier::external_body]
pub struct ExUrlParseError(url::ParseError);

/// The text that a URL holds: its serialization, which `Url::as_str` shows.
pub uninterp spec fn url_text(url: Url) -> Seq<char>;

/// What `Url::parse` makes of a text: the serialization of the URL, or
/// the reason why the text is none.
pub uninterp spec fn parsed_url(input: Seq<char>) -> Result<Seq<char>, url::ParseError>;

/// The outcome of a parse, with the URL shown by its text.
pub open spec fn parse_outcome(parsed: Result<Url, url::ParseError>) -> Result<
    Seq<char>,
    url::ParseError,
> {
    match parsed {
        Ok(u) => Ok(url_text(u)),
        Err(e) => Err(e),
    }
}

/// `Url::parse` reads an absolute URL. Its result depends on the text alone.
pub assume_specification[ Url::parse ](input: &str) -> (parsed: Result<Url, url::ParseError>)
    ensures
        parse_outcome(parsed) == parsed_url(input@),
;

/// `Url::as_str` shows the serialization of the URL.
pub assume_specification[ Url::as_str ](url: &Url) -> (shown: &str)
    ensures
        shown@ == url_text(*url),
;

/// The outcome of a parse is the text of the URL, or the error as it is.
pub proof fn outcome_tells_the_parse(parsed: Result<Url, url::ParseError>)
    ensures
        parsed matches Ok(u) ==> parse_outcome(parsed) == Ok::<_, url::ParseError>(url_text(u)),
        parsed matches Err(e) ==> parse_outcome(parsed) == Err::<Seq<char>, _>(e),
{
}

} // verus!
