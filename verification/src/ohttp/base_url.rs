//! The URL under which an endpoint is reached.

use crate::text;
use crate::urls;
use url::Url;
use vstd::prelude::*;
use vstd::string::*;

verus! {

broadcast use vstd::string::group_string_axioms;

/// An endpoint of the network: a host and a port.
#[derive(Debug, Clone, PartialEq)]
pub struct TngEndpoint {
    pub host: String,
    pub port: u16,
}

/// A base URL that is none.
#[derive(Debug)]
pub struct BaseUrlError {
    pub url: String,
    pub cause: url::ParseError,
}

impl BaseUrlError {
    /// The message of the error.
    pub fn message(&self) -> (message: String)
        ensures
            message@ == "Not a valid URL: "@ + self.url@,
    {
        let mut message = String::from_str("Not a valid URL: ");
        message.append(self.url.as_str());
        message
    }
}

/// The path of the base URL: the rewritten path, from the root, or the root itself
/// where no rule rewrites the path.
pub open spec fn base_path(rewritten: Option<Seq<char>>) -> Seq<char> {
    match rewritten {
        Some(path) => text::rooted(path),
        None => seq!['/'],
    }
}

/// The text of the base URL.
pub open spec fn base_url_text(endpoint: TngEndpoint, rewritten: Option<Seq<char>>) -> Seq<char> {
    "http://"@ + endpoint.host@ + seq![':'] + text::decimal(endpoint.port as nat) + base_path(
        rewritten,
    )
}

/// The outcome is what a parse of the URL text leads to.
pub open spec fn is_base_url(
    outcome: Result<Url, BaseUrlError>,
    url: Seq<char>,
    parsed: Result<Seq<char>, url::ParseError>,
) -> bool {
    match parsed {
        Ok(serialized) => outcome matches Ok(u) && urls::url_text(u) == serialized,
        Err(e) => outcome matches Err(b) && b.url@ == url && b.cause == e,
    }
}

/// Writes the base URL of an endpoint, given what rewriting the path of the request
/// gave.
pub fn write_base_url(endpoint: &TngEndpoint, rewritten: Option<String>) -> (url: String)
    ensures
        url@ == base_url_text(*endpoint, text::optional_string_text(rewritten)),
{
    proof {
        reveal_strlit(":");
        assert(":"@ == seq![':']);
        reveal_strlit("/");
        assert("/"@ == seq!['/']);
    }
    let mut url = String::from_str("http://");
    url.append(endpoint.host.as_str());
    url.append(":");
    text::push_decimal(&mut url, endpoint.port);
    match rewritten {
        Some(path) => text::push_rooted(&mut url, path.as_str()),
        None => url.append("/"),
    }
    url
}

/// Turns the parse of a URL text into a base URL.
pub fn accept_base_url(url: String, parsed: Result<Url, url::ParseError>) -> (outcome: Result<
    Url,
    BaseUrlError,
>)
    ensures
        is_base_url(outcome, url@, urls::parse_outcome(parsed)),
{
    match parsed {
        Ok(parsed_url) => Ok(parsed_url),
        Err(cause) => Err(BaseUrlError { url, cause }),
    }
}

/// The base URL names the endpoint, directly followed by a slash.
pub proof fn base_url_names_endpoint(endpoint: TngEndpoint, rewritten: Option<Seq<char>>)
    ensures
        ({
            let authority = "http://"@ + endpoint.host@ + seq![':'] + text::decimal(
                endpoint.port as nat,
            );
            let url = base_url_text(endpoint, rewritten);
            &&& url.len() > authority.len()
            &&& url.take(authority.len() as int) == authority
            &&& url[authority.len() as int] == '/'
        }),
{
    let authority = "http://"@ + endpoint.host@ + seq![':'] + text::decimal(endpoint.port as nat);
    let url = base_url_text(endpoint, rewritten);
    assert(url.take(authority.len() as int) =~= authority);
}

/// The base URL ends with the whole path that a rule rewrites the path of the request to.
/// What stands before is the authority, and one slash where the path has none. Where no
/// rule rewrites the path, one slash is all that follows the authority.
pub proof fn base_url_ends_with_rewritten_path(
    endpoint: TngEndpoint,
    rewritten: Option<Seq<char>>,
)
    ensures
        ({
            let authority = "http://"@ + endpoint.host@ + seq![':'] + text::decimal(
                endpoint.port as nat,
            );
            let url = base_url_text(endpoint, rewritten);
            match rewritten {
                Some(path) => {
                    let before = url.take(url.len() - path.len());
                    &&& url.len() >= path.len()
                    &&& url.skip(url.len() - path.len()) == path
                    &&& path.len() > 0 && path[0] == '/' ==> before == authority
                    &&& path.len() == 0 || path[0] != '/' ==> before == authority + seq!['/']
                },
                None => url == authority + seq!['/'],
            }
        }),
{
    let authority = "http://"@ + endpoint.host@ + seq![':'] + text::decimal(endpoint.port as nat);
    let url = base_url_text(endpoint, rewritten);
    if let Some(path) = rewritten {
        let before = url.take(url.len() - path.len());
        assert(url.skip(url.len() - path.len()) =~= path);
        if path.len() > 0 && path[0] == '/' {
            assert(before =~= authority);
        } else {
            assert(before =~= authority + seq!['/']);
        }
    }
}

/// Different paths from the root lead to different base URLs of an endpoint.
pub proof fn different_paths_different_base_urls(
    endpoint: TngEndpoint,
    path: Seq<char>,
    other: Seq<char>,
)
    requires
        path.len() > 0 && path[0] == '/',
        other.len() > 0 && other[0] == '/',
        path != other,
    ensures
        base_url_text(endpoint, Some(path)) != base_url_text(endpoint, Some(other)),
{
    base_url_ends_with_rewritten_path(endpoint, Some(path));
    base_url_ends_with_rewritten_path(endpoint, Some(other));
    let url = base_url_text(endpoint, Some(path));
    if url == base_url_text(endpoint, Some(other)) {
        let authority = url.take(url.len() - path.len());
        assert(authority.len() == url.len() - other.len());
    }
}

/// Different ports of a host lead to different base URLs, whatever the paths.
pub proof fn different_ports_different_base_urls(
    endpoint: TngEndpoint,
    other: TngEndpoint,
    rewritten: Option<Seq<char>>,
    other_rewritten: Option<Seq<char>>,
)
    requires
        endpoint.host@ == other.host@,
        endpoint.port != other.port,
    ensures
        base_url_text(endpoint, rewritten) != base_url_text(other, other_rewritten),
{
    let host = "http://"@ + endpoint.host@ + seq![':'];
    let port = text::decimal(endpoint.port as nat);
    let other_port = text::decimal(other.port as nat);
    let url = base_url_text(endpoint, rewritten);
    base_url_names_endpoint(endpoint, rewritten);
    base_url_names_endpoint(other, other_rewritten);
    text::decimal_has_the_digits(endpoint.port as nat);
    text::decimal_has_the_digits(other.port as nat);
    if url == base_url_text(other, other_rewritten) {
        assert(url.take((host + port).len() as int) == host + port);
        assert(url.take((host + other_port).len() as int) == host + other_port);
        let shorter = if port.len() <= other_port.len() {
            port
        } else {
            other_port
        };
        let longer = if port.len() <= other_port.len() {
            other_port
        } else {
            port
        };
        if shorter.len() < longer.len() {
            let at = (host.len() + shorter.len()) as int;
            assert(url[at] == '/');
            assert(url.take((host + longer).len() as int)[at] == longer[shorter.len() as int]);
            assert(longer[longer.len() - 1 - (longer.len() - 1 - shorter.len())] == '/');
            let back = (longer.len() - 1 - shorter.len()) as nat;
            assert(longer[longer.len() - 1 - back] as int >= 48);
        }
        assert(port =~= (host + port).skip(host.len() as int));
        assert(other_port =~= (host + other_port).skip(host.len() as int));
        text::decimal_tells_numbers_apart(endpoint.port as nat, other.port as nat);
    }
}

/// The outcome holds the URL as it is parsed, or the text that is none and the cause.
pub proof fn outcome_follows_the_parse(
    outcome: Result<Url, BaseUrlError>,
    url: Seq<char>,
    parsed: Result<Seq<char>, url::ParseError>,
)
    requires
        is_base_url(outcome, url, parsed),
    ensures
        outcome is Ok <==> parsed is Ok,
        outcome matches Ok(u) ==> parsed == Ok::<_, url::ParseError>(urls::url_text(u)),
        outcome matches Err(b) ==> b.url@ == url && parsed == Err::<Seq<char>, _>(b.cause),
{
}

} // verus!
