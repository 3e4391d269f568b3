//! The decisions of an HTTP load balancer with path matching and rewriting.
//!
//! A request must carry the required headers, and its path must match a regular
//! expression. The path is then rewritten, and the request goes to the next
//! upstream server in round-robin order. Every other request is not found.

use crate::balancer::{BalancerState, UpstreamBalancer};
use crate::headers;
use crate::patterns;
use crate::text;
use crate::urls;
use http::header::{HeaderName, HeaderValue, MaxSizeReached};
use http::HeaderMap;
use regex::Regex;
use url::Url;
use vstd::prelude::*;
use vstd::string::*;

verus! {

broadcast use vstd::string::group_string_axioms;

/// An answer that the load balancer gives by itself.
#[derive(Clone, Copy, Debug, PartialEq, Eq, Structural)]
pub enum Reply {
    /// The request is not one that is forwarded.
    NotFound,
    /// There is no upstream server.
    BadGateway,
    /// The upstream server could not be reached.
    UpstreamUnreachable,
    /// The response of the upstream server could not be passed on.
    ResponseBuildFailed,
}

impl Reply {
    /// The status code of the answer.
    pub open spec fn status_code(self) -> u16 {
        match self {
            Reply::NotFound => 404,
            Reply::BadGateway => 502,
            Reply::UpstreamUnreachable => 504,
            Reply::ResponseBuildFailed => 500,
        }
    }

    /// The body of the answer.
    pub open spec fn body_text(self) -> Seq<char> {
        match self {
            Reply::NotFound => "Not Found"@,
            Reply::BadGateway => "Bad Gateway"@,
            Reply::UpstreamUnreachable => "Upstream unreachable"@,
            Reply::ResponseBuildFailed => "Response build failed"@,
        }
    }

    /// The status code of the answer.
    pub fn status(self) -> (code: u16)
        ensures
            code == self.status_code(),
    {
        match self {
            Reply::NotFound => 404,
            Reply::BadGateway => 502,
            Reply::UpstreamUnreachable => 504,
            Reply::ResponseBuildFailed => 500,
        }
    }

    /// The body of the answer.
    pub fn body(self) -> (body: &'static str)
        ensures
            body@ == self.body_text(),
    {
        match self {
            Reply::NotFound => "Not Found",
            Reply::BadGateway => "Bad Gateway",
            Reply::UpstreamUnreachable => "Upstream unreachable",
            Reply::ResponseBuildFailed => "Response build failed",
        }
    }
}

/// Why a load balancer cannot be launched.
#[derive(Debug)]
pub enum LaunchError {
    /// The path matcher is not a regular expression.
    InvalidRegex(regex::Error),
    /// The list of upstream servers is empty.
    NoUpstream,
}

impl LaunchError {
    /// The message of the error.
    pub fn message(&self) -> (message: &'static str)
        ensures
            *self is InvalidRegex ==> message@ == "Invalid regex"@,
            *self is NoUpstream ==> message@ == "At least one upstream server must be provided"@,
    {
        match self {
            LaunchError::InvalidRegex(_) => "Invalid regex",
            LaunchError::NoUpstream => "At least one upstream server must be provided",
        }
    }
}

/// What to do with a request.
#[derive(Debug)]
pub enum RouteAction {
    /// Answer it at once.
    Answer(Reply),
    /// Forward it to this URL.
    Forward(Url),
    /// It was to be forwarded, but the text is no URL.
    NotAUrl { text: String, cause: url::ParseError },
}

/// What can go wrong once a request is forwarded.
#[derive(Clone, Copy, Debug, PartialEq, Eq, Structural)]
pub enum UpstreamFailure {
    /// The upstream server could not be reached.
    Unreachable,
    /// It responded, but no response could be built from that.
    Unbuildable,
}

/// Where a request goes.
pub enum Route {
    /// Nowhere: it is not found.
    NotFound,
    /// Nowhere: there is no upstream server.
    NoUpstream,
    /// To the URL with this text.
    To(Seq<char>),
}

/// Some headers carry a required one: the first value under the name that it is
/// looked up by is the required value, byte by byte.
pub open spec fn carries(
    fields: Map<Seq<char>, Seq<Seq<u8>>>,
    required: (String, String),
) -> bool {
    match headers::lookup_name(required.0@) {
        Some(name) => fields.contains_key(name) && fields[name][0] == vstd::utf8::encode_utf8(
            required.1@,
        ),
        None => false,
    }
}

/// Some headers carry all that is required.
pub open spec fn carries_all(
    fields: Map<Seq<char>, Seq<Seq<u8>>>,
    required: Seq<(String, String)>,
) -> bool {
    forall|i: int| 0 <= i < required.len() ==> carries(fields, #[trigger] required[i])
}

/// The path to which the matcher rewrites a path, if it matches: the first match
/// is replaced.
pub open spec fn rewritten_path(
    path_matcher: Regex,
    path: Seq<char>,
    rewrite_to: Seq<char>,
) -> Option<Seq<char>> {
    if patterns::regex_matches(path_matcher, path) {
        Some(patterns::regex_replaced(path_matcher, path, 1, rewrite_to))
    } else {
        None
    }
}

/// The path of a request that is to be forwarded: none where the request lacks a
/// required header or its path does not match.
pub open spec fn forwarded_path(
    fields: Map<Seq<char>, Seq<Seq<u8>>>,
    required: Seq<(String, String)>,
    path_matcher: Regex,
    path: Seq<char>,
    rewrite_to: Seq<char>,
) -> Option<Seq<char>> {
    if carries_all(fields, required) {
        rewritten_path(path_matcher, path, rewrite_to)
    } else {
        None
    }
}

/// A path together with its query.
pub open spec fn path_and_query(path: Seq<char>, query: Option<Seq<char>>) -> Seq<char> {
    match query {
        Some(q) => path + seq!['?'] + q,
        None => path,
    }
}

/// The URL of a path on an upstream server.
pub open spec fn upstream_url_text(
    backend: Seq<char>,
    path: Seq<char>,
    query: Option<Seq<char>>,
) -> Seq<char> {
    "http://"@ + backend + text::rooted(path_and_query(path, query))
}

/// Where a request goes when `forwarded` is its forwarded path, if it has one.
pub open spec fn route(
    forwarded: Option<Seq<char>>,
    query: Option<Seq<char>>,
    state: BalancerState,
) -> Route {
    match forwarded {
        None => Route::NotFound,
        Some(path) => match state.current() {
            None => Route::NoUpstream,
            Some(backend) => Route::To(upstream_url_text(backend, path, query)),
        },
    }
}

/// The state of the balancer after such a request.
pub open spec fn state_after_request(
    forwarded: Option<Seq<char>>,
    state: BalancerState,
) -> BalancerState {
    match forwarded {
        None => state,
        Some(_) => state.advanced(),
    }
}

/// The state of the balancer after a sequence of requests.
pub open spec fn state_after_requests(
    requests: Seq<Option<Seq<char>>>,
    state: BalancerState,
) -> BalancerState
    decreases requests.len(),
{
    if requests.len() == 0 {
        state
    } else {
        state_after_request(
            requests.last(),
            state_after_requests(requests.drop_last(), state),
        )
    }
}

/// How many of the requests have a path to be forwarded to.
pub open spec fn forwarded_count(requests: Seq<Option<Seq<char>>>) -> nat
    decreases requests.len(),
{
    if requests.len() == 0 {
        0
    } else {
        forwarded_count(requests.drop_last()) + if requests.last() is Some {
            1nat
        } else {
            0nat
        }
    }
}

/// The action that a parse of the URL text leads to.
pub open spec fn is_forward_action(
    action: RouteAction,
    url: Seq<char>,
    parsed: Result<Seq<char>, url::ParseError>,
) -> bool {
    match parsed {
        Ok(serialized) => action matches RouteAction::Forward(u) && urls::url_text(u) == serialized,
        Err(e) => action matches RouteAction::NotAUrl { text: t, cause } && t@ == url && cause == e,
    }
}

/// The action is what the route asks for.
pub open spec fn is_action_for(action: RouteAction, route: Route) -> bool {
    match route {
        Route::NotFound => action == RouteAction::Answer(Reply::NotFound),
        Route::NoUpstream => action == RouteAction::Answer(Reply::BadGateway),
        Route::To(url) => is_forward_action(action, url, urls::parsed_url(url)),
    }
}

/// What a launch leads to: the error of the compilation, or else the lack of an
/// upstream server, or else the matcher and a balancer whose first server has the
/// turn.
pub open spec fn is_launch(
    prepared: Result<(Regex, UpstreamBalancer), LaunchError>,
    compiled: Result<Regex, regex::Error>,
    upstreams: Seq<(String, u16)>,
) -> bool {
    match compiled {
        Err(e) => prepared == Err::<(Regex, UpstreamBalancer), _>(LaunchError::InvalidRegex(e)),
        Ok(matcher) => if upstreams.len() == 0 {
            prepared == Err::<(Regex, UpstreamBalancer), _>(LaunchError::NoUpstream)
        } else {
            &&& prepared is Ok
            &&& prepared->Ok_0.0 == matcher
            &&& prepared->Ok_0.1@ == BalancerState::initial(upstreams)
        },
    }
}

/// The name of the header that names the server.
pub open spec fn server_header_name() -> Seq<char> {
    "server"@
}

/// The value of the header that names the server.
pub open spec fn server_header_value() -> Seq<u8> {
    vstd::utf8::encode_utf8("tng-testsuite-loadbalancer"@)
}

/// Checks what a load balancer is to be launched with, given what compiling the path
/// matcher gave: it must be a regular expression, and there must be an upstream
/// server.
pub fn accept_launch(
    compiled: Result<Regex, regex::Error>,
    upstream_servers: &[(String, u16)],
) -> (prepared: Result<(Regex, UpstreamBalancer), LaunchError>)
    ensures
        is_launch(prepared, compiled, upstream_servers@),
{
    match compiled {
        Err(e) => Err(LaunchError::InvalidRegex(e)),
        Ok(matcher) => {
            if upstream_servers.len() == 0 {
                return Err(LaunchError::NoUpstream);
            }
            Ok((matcher, UpstreamBalancer::new(upstream_servers)))
        },
    }
}

/// Checks what a load balancer is to be launched with: the path matcher must be a
/// regular expression, and there must be an upstream server.
pub fn prepare_launch(path_matcher: &str, upstream_servers: &[(String, u16)]) -> (prepared: Result<
    (Regex, UpstreamBalancer),
    LaunchError,
>)
    ensures
        is_launch(prepared, patterns::compiled_regex(path_matcher@), upstream_servers@),
{
    accept_launch(Regex::new(path_matcher), upstream_servers)
}

/// Whether the headers of a request carry all that is required.
pub fn required_headers_met(
    request_headers: &HeaderMap<HeaderValue>,
    required_headers: &[(String, String)],
) -> (met: bool)
    ensures
        met == carries_all(headers::header_fields(*request_headers), required_headers@),
{
    let ghost fields = headers::header_fields(*request_headers);
    let mut i: usize = 0;
    while i < required_headers.len()
        invariant
            i <= required_headers@.len(),
            fields == headers::header_fields(*request_headers),
            forall|j: int| 0 <= j < i ==> carries(fields, #[trigger] required_headers@[j]),
        decreases required_headers.len() - i,
    {
        let required = &required_headers[i];
        let met = match headers::first_value_by_text(request_headers, required.0.as_str()) {
            None => false,
            Some(actual) => text::compare_bytes(actual.as_bytes(), required.1.as_str().as_bytes())
                == text::Standing::Same,
        };
        assert(met == carries(fields, required_headers@[i as int]));
        if !met {
            return false;
        }
        i += 1;
    }
    true
}

/// Rewrites the path of a request, if the matcher matches it.
pub fn rewrite_path(path_matcher: &Regex, path: &str, rewrite_to: &str) -> (rewritten: Option<
    String,
>)
    ensures
        text::optional_string_text(rewritten) == rewritten_path(*path_matcher, path@, rewrite_to@),
{
    if path_matcher.captures(path).is_none() {
        return None;
    }
    Some(patterns::replace_matches(path_matcher, path, 1, rewrite_to))
}

/// Writes the URL of a path on an upstream server.
pub fn upstream_url(backend: &str, path: &str, query: Option<&str>) -> (url: String)
    ensures
        url@ == upstream_url_text(backend@, path@, text::optional_text(query)),
{
    let mut full_path = String::from_str(path);
    if let Some(query) = query {
        proof {
            reveal_strlit("?");
            assert("?"@ == seq!['?']);
        }
        full_path.append("?");
        full_path.append(query);
    }
    let mut url = String::from_str("http://");
    url.append(backend);
    text::push_rooted(&mut url, full_path.as_str());
    url
}

/// Chooses where a request with a path to be forwarded to goes. The balancer moves
/// on.
pub fn choose_upstream(balancer: &mut UpstreamBalancer, path: &str, query: Option<&str>) -> (chosen:
    Result<String, Reply>)
    ensures
        final(balancer)@ == old(balancer)@.advanced(),
        match old(balancer)@.current() {
            None => chosen == Err::<String, _>(Reply::BadGateway),
            Some(backend) => {
                &&& chosen is Ok
                &&& chosen->Ok_0@ == upstream_url_text(backend, path@, text::optional_text(query))
            },
        },
{
    match balancer.pick() {
        None => Err(Reply::BadGateway),
        Some(backend) => Ok(upstream_url(backend, path, query)),
    }
}

/// Turns the parse of a URL text into an action.
pub fn forward_action(url: String, parsed: Result<Url, url::ParseError>) -> (action: RouteAction)
    ensures
        is_forward_action(action, url@, urls::parse_outcome(parsed)),
{
    match parsed {
        Ok(parsed_url) => RouteAction::Forward(parsed_url),
        Err(cause) => RouteAction::NotAUrl { text: url, cause },
    }
}

/// Tries to match a request and to rewrite its path. A request that does not match is
/// answered at once.
pub fn match_request(
    request_headers: &HeaderMap<HeaderValue>,
    path: &str,
    path_matcher: &Regex,
    rewrite_to: &str,
    required_headers: &[(String, String)],
) -> (matched: Result<String, Reply>)
    ensures
        match forwarded_path(
            headers::header_fields(*request_headers),
            required_headers@,
            *path_matcher,
            path@,
            rewrite_to@,
        ) {
            None => matched == Err::<String, _>(Reply::NotFound),
            Some(forwarded) => matched is Ok && matched->Ok_0@ == forwarded,
        },
{
    if !required_headers_met(request_headers, required_headers) {
        return Err(Reply::NotFound);
    }
    match rewrite_path(path_matcher, path, rewrite_to) {
        None => Err(Reply::NotFound),
        Some(forwarded) => Ok(forwarded),
    }
}

/// Chooses what to do with a request that matches, given its rewritten path. The
/// balancer moves on.
pub fn dispatch_request(balancer: &mut UpstreamBalancer, path: &str, query: Option<&str>) -> (action:
    RouteAction)
    ensures
        final(balancer)@ == state_after_request(Some(path@), old(balancer)@),
        is_action_for(action, route(Some(path@), text::optional_text(query), old(balancer)@)),
{
    match choose_upstream(balancer, path, query) {
        Err(reply) => RouteAction::Answer(reply),
        Ok(url) => {
            let parsed = Url::parse(url.as_str());
            forward_action(url, parsed)
        },
    }
}

/// Handles an incoming request: tries to match and rewrite its path, and chooses
/// the upstream server that it goes to.
pub fn handle_request_with_rewrite(
    request_headers: &HeaderMap<HeaderValue>,
    path: &str,
    query: Option<&str>,
    balancer: &mut UpstreamBalancer,
    path_matcher: &Regex,
    rewrite_to: &str,
    required_headers: &[(String, String)],
) -> (action: RouteAction)
    ensures
        final(balancer)@ == state_after_request(
            forwarded_path(
                headers::header_fields(*request_headers),
                required_headers@,
                *path_matcher,
                path@,
                rewrite_to@,
            ),
            old(balancer)@,
        ),
        is_action_for(
            action,
            route(
                forwarded_path(
                    headers::header_fields(*request_headers),
                    required_headers@,
                    *path_matcher,
                    path@,
                    rewrite_to@,
                ),
                text::optional_text(query),
                old(balancer)@,
            ),
        ),
{
    match match_request(request_headers, path, path_matcher, rewrite_to, required_headers) {
        Err(reply) => RouteAction::Answer(reply),
        Ok(forwarded) => dispatch_request(balancer, forwarded.as_str(), query),
    }
}

/// Decides what to send back downstream: what came from the upstream server, as it
/// is, or the answer to the failure.
pub fn relay<T>(upstream: Result<T, UpstreamFailure>) -> (relayed: Result<T, Reply>)
    ensures
        relayed == match upstream {
            Ok(response) => Ok(response),
            Err(UpstreamFailure::Unreachable) => Err(Reply::UpstreamUnreachable),
            Err(UpstreamFailure::Unbuildable) => Err(Reply::ResponseBuildFailed),
        },
{
    match upstream {
        Ok(response) => Ok(response),
        Err(UpstreamFailure::Unreachable) => Err(Reply::UpstreamUnreachable),
        Err(UpstreamFailure::Unbuildable) => Err(Reply::ResponseBuildFailed),
    }
}

/// Names the server in the headers of a response, in place of whatever named it
/// there. This fails only where the headers have no room for another name.
pub fn add_server_header(response_headers: &mut HeaderMap<HeaderValue>) -> (added: Result<
    (),
    MaxSizeReached,
>)
    ensures
        added is Ok ==> headers::header_fields(*final(response_headers)) == headers::header_fields(
            *old(response_headers),
        ).insert(server_header_name(), seq![server_header_value()]),
        added is Ok ==> headers::header_marks(*final(response_headers)) == headers::header_marks(
            *old(response_headers),
        ).insert(server_header_name(), seq![false]),
        added is Err ==> headers::header_fields(*final(response_headers)) == headers::header_fields(
            *old(response_headers),
        ),
        added is Err ==> headers::header_marks(*final(response_headers)) == headers::header_marks(
            *old(response_headers),
        ),
        headers::header_fields(*old(response_headers)).dom().len() <= headers::ALWAYS_ROOM
            ==> added is Ok,
{
    proof {
        server_name_is_spelled();
        reveal_strlit("tng-testsuite-loadbalancer");
    }
    let value = HeaderValue::from_static("tng-testsuite-loadbalancer");
    match headers::parse_header_name("Server") {
        Ok(name) => match headers::put_value(response_headers, &name, &value) {
            Ok(_) => Ok(()),
            Err(full) => Err(full),
        },
        Err(_) => {
            assert(false);
            Ok(())
        },
    }
}

proof fn server_name_is_spelled()
    ensures
        headers::header_name_of("Server"@) == Some(server_header_name()),
{
    reveal_strlit("Server");
    reveal_strlit("server");
    let bytes = vstd::utf8::encode_utf8("Server"@);
    vstd::utf8::is_ascii_chars_encode_utf8("Server"@);
    assert forall|i: int| 0 <= i < bytes.len() implies headers::is_token_byte(
        #[trigger] bytes[i],
    ) by {}
    assert(bytes.map_values(|b: u8| headers::lowercase(b)) =~= "server"@);
}

/// Requests that lack a required header, or whose path does not match, are not
/// found, and take no turn of an upstream server.
pub proof fn unmatched_request_is_not_found(
    fields: Map<Seq<char>, Seq<Seq<u8>>>,
    required: Seq<(String, String)>,
    path_matcher: Regex,
    path: Seq<char>,
    rewrite_to: Seq<char>,
    query: Option<Seq<char>>,
    state: BalancerState,
)
    requires
        !carries_all(fields, required) || !patterns::regex_matches(path_matcher, path),
    ensures
        route(
            forwarded_path(fields, required, path_matcher, path, rewrite_to),
            query,
            state,
        ) == Route::NotFound,
        state_after_request(
            forwarded_path(fields, required, path_matcher, path, rewrite_to),
            state,
        ) == state,
{
}

/// A sequence of requests passes the turn on as often as one of them is forwarded:
/// those that are not found take no turn.
pub proof fn forwarded_requests_take_turns(requests: Seq<Option<Seq<char>>>, state: BalancerState)
    ensures
        state_after_requests(requests, state) == state.after(forwarded_count(requests)),
    decreases requests.len(),
{
    if requests.len() > 0 {
        forwarded_requests_take_turns(requests.drop_last(), state);
    }
}

/// A load balancer that was launched never lacks an upstream server, whatever
/// requests it has handled: the request that follows goes to one of its servers
/// in turn, or is not found.
pub proof fn launched_balancer_has_upstream(
    upstreams: Seq<(String, u16)>,
    requests: Seq<Option<Seq<char>>>,
    forwarded: Option<Seq<char>>,
    query: Option<Seq<char>>,
)
    requires
        upstreams.len() > 0,
    ensures
        ({
            let state = state_after_requests(requests, BalancerState::initial(upstreams));
            let turn = forwarded_count(requests) as int % upstreams.len() as int;
            match forwarded {
                None => route(forwarded, query, state) == Route::NotFound,
                Some(path) => route(forwarded, query, state) == Route::To(
                    upstream_url_text(
                        crate::balancer::server_name(upstreams[turn]),
                        path,
                        query,
                    ),
                ),
            }
        }),
{
    let start = BalancerState::initial(upstreams);
    forwarded_requests_take_turns(requests, start);
    crate::balancer::turn_after(start, forwarded_count(requests));
}

/// The URL of a forwarded request names the upstream server, directly followed by
/// a slash.
pub proof fn upstream_url_names_backend(
    backend: Seq<char>,
    path: Seq<char>,
    query: Option<Seq<char>>,
)
    ensures
        ({
            let authority = "http://"@ + backend;
            let url = upstream_url_text(backend, path, query);
            &&& url.len() > authority.len()
            &&& url.take(authority.len() as int) == authority
            &&& url[authority.len() as int] == '/'
        }),
{
    let authority = "http://"@ + backend;
    let url = upstream_url_text(backend, path, query);
    assert(url.take(authority.len() as int) =~= authority);
}

/// One required header is enough to refuse a request: where the request lacks the header,
/// or the first value under its name is another, the request is not found, and takes no
/// turn.
pub proof fn one_unmet_header_is_not_found(
    fields: Map<Seq<char>, Seq<Seq<u8>>>,
    required: Seq<(String, String)>,
    i: int,
    path_matcher: Regex,
    path: Seq<char>,
    rewrite_to: Seq<char>,
    query: Option<Seq<char>>,
    state: BalancerState,
)
    requires
        0 <= i < required.len(),
        match headers::lookup_name(required[i].0@) {
            Some(name) => !fields.contains_key(name) || fields[name][0]
                != vstd::utf8::encode_utf8(required[i].1@),
            None => true,
        },
    ensures
        !carries_all(fields, required),
        forwarded_path(fields, required, path_matcher, path, rewrite_to) is None,
        route(
            forwarded_path(fields, required, path_matcher, path, rewrite_to),
            query,
            state,
        ) == Route::NotFound,
        state_after_request(
            forwarded_path(fields, required, path_matcher, path, rewrite_to),
            state,
        ) == state,
{
    assert(!carries(fields, required[i]));
}

/// A request that carries each of the required headers, and whose path matches, is
/// forwarded: the first match in its path is replaced, the server whose turn it is gets
/// the request, and the turn passes on to the next.
pub proof fn matching_request_is_forwarded(
    fields: Map<Seq<char>, Seq<Seq<u8>>>,
    required: Seq<(String, String)>,
    path_matcher: Regex,
    path: Seq<char>,
    rewrite_to: Seq<char>,
    query: Option<Seq<char>>,
    state: BalancerState,
)
    requires
        forall|i: int|
            0 <= i < required.len() ==> {
                let name = headers::lookup_name((#[trigger] required[i]).0@);
                &&& name is Some
                &&& fields.contains_key(name->Some_0)
                &&& fields[name->Some_0][0] == vstd::utf8::encode_utf8(required[i].1@)
            },
        patterns::regex_matches(path_matcher, path),
        0 <= state.turn < state.servers.len(),
    ensures
        carries_all(fields, required),
        ({
            let forwarded = forwarded_path(fields, required, path_matcher, path, rewrite_to);
            let rewritten = patterns::regex_replaced(path_matcher, path, 1, rewrite_to);
            let after = state_after_request(forwarded, state);
            &&& forwarded == Some(rewritten)
            &&& route(forwarded, query, state) == Route::To(
                upstream_url_text(state.servers[state.turn], rewritten, query),
            )
            &&& after.servers == state.servers
            &&& after.turn == (state.turn + 1) % state.servers.len() as int
        }),
{
    assert forall|i: int| 0 <= i < required.len() implies carries(
        fields,
        #[trigger] required[i],
    ) by {}
    crate::balancer::each_pick_passes_the_turn_on(state, 0);
}

/// Where there is no server, a request that is to be forwarded goes nowhere.
pub proof fn no_upstream_without_servers(
    path: Seq<char>,
    query: Option<Seq<char>>,
    state: BalancerState,
)
    requires
        state.servers.len() == 0,
    ensures
        route(Some(path), query, state) == Route::NoUpstream,
        state_after_request(Some(path), state) == state,
{
}

/// Requirements add up: two lists of required headers are met together exactly when each
/// of them is met.
pub proof fn requirements_add_up(
    fields: Map<Seq<char>, Seq<Seq<u8>>>,
    some: Seq<(String, String)>,
    more: Seq<(String, String)>,
)
    ensures
        carries_all(fields, some + more) <==> carries_all(fields, some) && carries_all(
            fields,
            more,
        ),
{
    let both = some + more;
    if carries_all(fields, both) {
        assert forall|i: int| 0 <= i < some.len() implies carries(fields, #[trigger] some[i]) by {
            assert(both[i] == some[i]);
        }
        assert forall|i: int| 0 <= i < more.len() implies carries(fields, #[trigger] more[i]) by {
            assert(both[some.len() + i] == more[i]);
        }
    }
    if carries_all(fields, some) && carries_all(fields, more) {
        assert forall|i: int| 0 <= i < both.len() implies carries(fields, #[trigger] both[i]) by {
            if i < some.len() {
                assert(both[i] == some[i]);
            } else {
                assert(both[i] == more[i - some.len()]);
            }
        }
    }
}

/// The URL of a forwarded request ends with the whole query behind a question mark, and
/// before that with the whole path. Nothing else follows the server but the slash that a
/// path without one gets.
pub proof fn upstream_url_keeps_path_and_query(
    backend: Seq<char>,
    path: Seq<char>,
    query: Option<Seq<char>>,
)
    ensures
        ({
            let url = upstream_url_text(backend, path, query);
            let authority = "http://"@ + backend;
            let rest = match query {
                Some(q) => path + seq!['?'] + q,
                None => path,
            };
            let slash = if rest.len() > 0 && rest[0] == '/' {
                0int
            } else {
                1int
            };
            &&& url.len() == authority.len() + slash + rest.len()
            &&& url.take(authority.len() as int) == authority
            &&& url[authority.len() as int] == '/'
            &&& url.skip(url.len() - rest.len()) == rest
            &&& query matches Some(q) ==> url.skip(url.len() - q.len() - 1) == seq!['?'] + q
            &&& query is None ==> url.skip(url.len() - path.len()) == path
        }),
{
    let url = upstream_url_text(backend, path, query);
    let authority = "http://"@ + backend;
    let rest = match query {
        Some(q) => path + seq!['?'] + q,
        None => path,
    };
    assert(url.take(authority.len() as int) =~= authority);
    assert(url.skip(url.len() - rest.len()) =~= rest);
    if let Some(q) = query {
        assert(url.skip(url.len() - q.len() - 1) =~= seq!['?'] + q);
    }
}

/// Requests to one path with different queries, or with and without a query, go to
/// different URLs.
pub proof fn different_queries_different_urls(
    backend: Seq<char>,
    path: Seq<char>,
    query: Option<Seq<char>>,
    other: Option<Seq<char>>,
)
    requires
        query != other,
    ensures
        upstream_url_text(backend, path, query) != upstream_url_text(backend, path, other),
{
    upstream_url_keeps_path_and_query(backend, path, query);
    upstream_url_keeps_path_and_query(backend, path, other);
    let url = upstream_url_text(backend, path, query);
    if url == upstream_url_text(backend, path, other) {
        match (query, other) {
            (Some(q), Some(o)) => {
                assert(q.len() == o.len());
                assert((seq!['?'] + q).skip(1) =~= q);
                assert((seq!['?'] + o).skip(1) =~= o);
            },
            _ => {},
        }
    }
}

/// Requests with different paths from the root go to different URLs, where they have the
/// same query, and so do requests that different servers get.
pub proof fn different_paths_different_urls(
    backend: Seq<char>,
    path: Seq<char>,
    other_backend: Seq<char>,
    other_path: Seq<char>,
    query: Option<Seq<char>>,
)
    requires
        path.len() > 0 && path[0] == '/',
        other_path.len() > 0 && other_path[0] == '/',
        (backend == other_backend && path != other_path) || (backend != other_backend && path
            == other_path),
    ensures
        upstream_url_text(backend, path, query) != upstream_url_text(
            other_backend,
            other_path,
            query,
        ),
{
    upstream_url_keeps_path_and_query(backend, path, query);
    upstream_url_keeps_path_and_query(other_backend, other_path, query);
    let url = upstream_url_text(backend, path, query);
    if url == upstream_url_text(other_backend, other_path, query) {
        let rest = path_and_query(path, query);
        let other_rest = path_and_query(other_path, query);
        if backend == other_backend {
            assert(rest == other_rest);
            assert(rest.take(path.len() as int) =~= path);
            assert(other_rest.take(other_path.len() as int) =~= other_path);
        } else {
            let scheme = "http://"@;
            assert((scheme + backend).skip(scheme.len() as int) =~= backend);
            assert((scheme + other_backend).skip(scheme.len() as int) =~= other_backend);
        }
    }
}

/// A launch succeeds exactly when the path matcher compiles and an upstream server is
/// listed. A matcher that does not compile is reported before a list that is empty.
pub proof fn launch_needs_matcher_and_upstream(
    prepared: Result<(Regex, UpstreamBalancer), LaunchError>,
    compiled: Result<Regex, regex::Error>,
    upstreams: Seq<(String, u16)>,
)
    requires
        is_launch(prepared, compiled, upstreams),
    ensures
        prepared is Ok <==> compiled is Ok && upstreams.len() > 0,
        prepared matches Ok(launched) ==> compiled == Ok::<_, regex::Error>(launched.0),
        compiled matches Err(e) ==> (prepared matches Err(LaunchError::InvalidRegex(cause)) && cause
            == e),
        compiled is Ok && upstreams.len() == 0 ==> prepared matches Err(LaunchError::NoUpstream),
{
}

/// A load balancer that was launched sends the requests that it forwards to the listed
/// upstream servers in turn, all of them, whatever else it is asked in between: the
/// request that follows `forwarded_count(requests)` forwarded ones goes to the server at
/// that position, counted round the list.
pub proof fn launched_balancer_goes_round_the_list(
    prepared: Result<(Regex, UpstreamBalancer), LaunchError>,
    compiled: Result<Regex, regex::Error>,
    upstreams: Seq<(String, u16)>,
    requests: Seq<Option<Seq<char>>>,
    path: Seq<char>,
    query: Option<Seq<char>>,
)
    requires
        is_launch(prepared, compiled, upstreams),
        prepared is Ok,
    ensures
        ({
            let state = state_after_requests(requests, prepared->Ok_0.1@);
            let upstream = upstreams[forwarded_count(requests) as int % upstreams.len() as int];
            let backend = upstream.0@ + seq![':'] + text::decimal(upstream.1 as nat);
            &&& state.servers.len() == upstreams.len()
            &&& state.current() == Some(backend)
            &&& route(Some(path), query, state) == Route::To(
                upstream_url_text(backend, path, query),
            )
        }),
{
    launched_balancer_has_upstream(upstreams, requests, Some(path), query);
    let start = prepared->Ok_0.1@;
    crate::balancer::new_balancer_lists_all_upstreams(upstreams);
    forwarded_requests_take_turns(requests, start);
    crate::balancer::turn_after(start, forwarded_count(requests));
}

/// The picks of a balancer that was launched go through the list of upstream servers, and
/// in the first round each of them is picked once, at its own position.
pub proof fn launched_balancer_picks_each_upstream_once(
    prepared: Result<(Regex, UpstreamBalancer), LaunchError>,
    compiled: Result<Regex, regex::Error>,
    upstreams: Seq<(String, u16)>,
    picks: nat,
)
    requires
        is_launch(prepared, compiled, upstreams),
        prepared is Ok,
    ensures
        ({
            let state = prepared->Ok_0.1@.after(picks);
            let position = picks as int % upstreams.len() as int;
            let upstream = upstreams[position];
            &&& state.turn == position
            &&& picks < upstreams.len() ==> position == picks
            &&& state.current() == Some(
                upstream.0@ + seq![':'] + text::decimal(upstream.1 as nat),
            )
        }),
{
    let start = prepared->Ok_0.1@;
    crate::balancer::new_balancer_lists_all_upstreams(upstreams);
    crate::balancer::turn_after(start, picks);
    if picks < upstreams.len() {
        vstd::arithmetic::div_mod::lemma_small_mod(picks, upstreams.len());
    }
}

/// Requests count one by one: one that has a path to be forwarded to takes a turn, and
/// any other takes none.
pub proof fn requests_count_one_by_one(
    requests: Seq<Option<Seq<char>>>,
    next: Option<Seq<char>>,
    state: BalancerState,
)
    ensures
        forwarded_count(Seq::<Option<Seq<char>>>::empty()) == 0,
        state_after_requests(Seq::<Option<Seq<char>>>::empty(), state) == state,
        forwarded_count(requests.push(next)) == forwarded_count(requests) + if next is Some {
            1int
        } else {
            0int
        },
        state_after_requests(requests.push(next), state) == state_after_request(
            next,
            state_after_requests(requests, state),
        ),
{
    assert(requests.push(next).drop_last() =~= requests);
}

/// A request that goes to a URL is forwarded to that URL as it is parsed. Where the text is
/// no URL, the text and the cause are reported. What goes nowhere is answered.
pub proof fn action_follows_the_route(action: RouteAction, route: Route)
    requires
        is_action_for(action, route),
    ensures
        route matches Route::To(url) ==> match urls::parsed_url(url) {
            Ok(serialized) => action matches RouteAction::Forward(u) && urls::url_text(u)
                == serialized,
            Err(e) => action matches RouteAction::NotAUrl { text: t, cause } && t@ == url && cause
                == e,
        },
        route is NotFound ==> (action matches RouteAction::Answer(reply) && reply
            == Reply::NotFound),
        route is NoUpstream ==> (action matches RouteAction::Answer(reply) && reply
            == Reply::BadGateway),
{
}

/// The answers have status codes of their own. A request that is not found is the fault of
/// the client, and all else is that of a server.
pub proof fn replies_have_their_own_status(reply: Reply, other: Reply)
    ensures
        reply != other ==> reply.status_code() != other.status_code(),
        reply is NotFound <==> 400 <= reply.status_code() < 500,
        !(reply is NotFound) <==> 500 <= reply.status_code() < 600,
{
}

} // verus!
