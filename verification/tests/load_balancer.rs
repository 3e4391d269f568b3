use http::{HeaderMap, HeaderValue};
use regex::Regex;
use tng_ingress::balancer::UpstreamBalancer;
use tng_ingress::load_balancer::{
    accept_launch, add_server_header, choose_upstream, dispatch_request, forward_action,
    handle_request_with_rewrite, match_request, prepare_launch, relay, required_headers_met,
    rewrite_path, upstream_url, LaunchError, Reply, RouteAction, UpstreamFailure,
};

fn upstreams(list: &[(&str, u16)]) -> Vec<(String, u16)> {
    list.iter().map(|(host, port)| (host.to_string(), *port)).collect()
}

fn pairs(list: &[(&str, &str)]) -> Vec<(String, String)> {
    list.iter().map(|(name, value)| (name.to_string(), value.to_string())).collect()
}

fn headers(list: &[(&'static str, &'static str)]) -> HeaderMap {
    let mut map = HeaderMap::new();
    for (name, value) in list {
        map.append(*name, HeaderValue::from_static(value));
    }
    map
}

#[test]
fn picks_go_round() {
    let mut balancer =
        UpstreamBalancer::new(&upstreams(&[("a", 0), ("b.example", 65535), ("::1", 8080)]));
    let picked: Vec<String> = (0..7).map(|_| balancer.pick().unwrap().to_string()).collect();
    assert_eq!(
        picked,
        ["a:0", "b.example:65535", "::1:8080", "a:0", "b.example:65535", "::1:8080", "a:0"]
    );
}

#[test]
fn each_server_is_picked_once_a_round() {
    let mut balancer = UpstreamBalancer::new(&upstreams(&[("a", 1), ("b", 20), ("c", 300), ("d", 4001)]));
    balancer.pick();
    balancer.pick();
    for _ in 0..3 {
        let mut round: Vec<String> = (0..4).map(|_| balancer.pick().unwrap().to_string()).collect();
        assert_eq!(round[0], "c:300");
        round.sort();
        assert_eq!(round, ["a:1", "b:20", "c:300", "d:4001"]);
    }
}

#[test]
fn one_server_is_always_picked() {
    let mut balancer = UpstreamBalancer::new(&upstreams(&[("only", 12345)]));
    for _ in 0..3 {
        assert_eq!(balancer.pick(), Some("only:12345"));
    }
}

#[test]
fn nothing_is_picked_without_servers() {
    let mut balancer = UpstreamBalancer::new(&[]);
    assert_eq!(balancer.pick(), None);
    assert_eq!(balancer.pick(), None);
}

#[test]
fn launch_needs_a_regex_first() {
    match prepare_launch("(", &[]) {
        Err(error @ LaunchError::InvalidRegex(_)) => assert_eq!(error.message(), "Invalid regex"),
        other => panic!("{other:?}"),
    }
}

#[test]
fn launch_needs_an_upstream() {
    match prepare_launch("^/api/(.*)$", &[]) {
        Err(error @ LaunchError::NoUpstream) => {
            assert_eq!(error.message(), "At least one upstream server must be provided")
        }
        other => panic!("{other:?}"),
    }
}

#[test]
fn a_compiled_matcher_is_accepted_with_upstreams() {
    assert!(matches!(
        accept_launch(Err(regex::Error::CompiledTooBig(7)), &upstreams(&[("a", 1)])),
        Err(LaunchError::InvalidRegex(regex::Error::CompiledTooBig(7)))
    ));
    assert!(matches!(accept_launch(Regex::new("x"), &[]), Err(LaunchError::NoUpstream)));
    let (matcher, mut balancer) =
        accept_launch(Regex::new("x"), &upstreams(&[("a", 1), ("b", 2)])).unwrap();
    assert_eq!(matcher.as_str(), "x");
    assert_eq!(balancer.pick(), Some("a:1"));
}

#[test]
fn launch_prepares_matcher_and_balancer() {
    let (matcher, mut balancer) =
        prepare_launch("^/api/(.*)$", &upstreams(&[("127.0.0.1", 30001)])).unwrap();
    assert_eq!(matcher.as_str(), "^/api/(.*)$");
    assert_eq!(balancer.pick(), Some("127.0.0.1:30001"));
}

#[test]
fn required_headers_are_compared_with_the_first_value() {
    let request = headers(&[("x-routing-key", "route-a"), ("x-routing-key", "route-b")]);
    assert!(required_headers_met(&request, &[]));
    assert!(required_headers_met(&request, &pairs(&[("X-Routing-Key", "route-a")])));
    assert!(!required_headers_met(&request, &pairs(&[("x-routing-key", "route-b")])));
    assert!(!required_headers_met(&request, &pairs(&[("x-routing-key", "route")])));
    assert!(!required_headers_met(&request, &pairs(&[("x-not-present", "")])));
    assert!(!required_headers_met(&request, &pairs(&[("not a name", "")])));
    assert!(!required_headers_met(&request, &pairs(&[("", "")])));
    assert!(!required_headers_met(
        &request,
        &pairs(&[("x-routing-key", "route-a"), ("x-other", "1")])
    ));
}

#[test]
fn long_required_names_are_looked_up_unchecked() {
    // Sixty-five bytes and more are not checked to spell a header name.
    let long = "x long name with spaces that goes on until it has sixty-five bytes";
    assert!(long.len() > 64);
    let mut request = HeaderMap::new();
    request.insert(long, HeaderValue::from_static("v"));
    assert!(required_headers_met(&request, &pairs(&[(long, "v")])));
    assert!(required_headers_met(&request, &pairs(&[(&long.to_uppercase(), "v")])));
    assert!(required_headers_met(&request, &pairs(&[(&long.replace(' ', "("), "v")])));
    assert!(!required_headers_met(&request, &pairs(&[(&long.replace(' ', "-"), "v")])));
    assert!(!required_headers_met(&request, &pairs(&[(long, "w")])));
    assert!(!required_headers_met(&headers(&[("x", "v")]), &pairs(&[(long, "v")])));
    let longest = "a".repeat(65535);
    let mut request = HeaderMap::new();
    request.insert(longest.parse::<http::HeaderName>().unwrap(), HeaderValue::from_static("v"));
    assert!(required_headers_met(&request, &pairs(&[(&longest, "v")])));
    assert!(!required_headers_met(&request, &pairs(&[(&"a".repeat(65536), "v")])));
}

#[test]
fn short_required_names_are_checked() {
    // A quotation mark may stand in a name that is given in lower case.
    let quoted = http::HeaderName::from_static("a\"b");
    let mut request = HeaderMap::new();
    request.insert(quoted, HeaderValue::from_static("v"));
    assert!(!required_headers_met(&request, &pairs(&[("a\"b", "v")])));
    let edge = "b".repeat(64);
    request.insert(edge.parse::<http::HeaderName>().unwrap(), HeaderValue::from_static("v"));
    assert!(required_headers_met(&request, &pairs(&[(&edge.to_uppercase(), "v")])));
}

#[test]
fn paths_are_rewritten_once() {
    let matcher = Regex::new("/v([0-9])").unwrap();
    assert_eq!(rewrite_path(&matcher, "/v1/v2", "/api$1").as_deref(), Some("/api1/v2"));
    assert_eq!(rewrite_path(&matcher, "/v1/v2", "/api").as_deref(), Some("/api/v2"));
    assert_eq!(rewrite_path(&matcher, "/w1", "/api$1"), None);
}

#[test]
fn upstream_urls_have_one_slash_after_the_backend() {
    assert_eq!(upstream_url("b:80", "/x", None), "http://b:80/x");
    assert_eq!(upstream_url("b:80", "x", None), "http://b:80/x");
    assert_eq!(upstream_url("b:80", "", None), "http://b:80/");
    assert_eq!(upstream_url("b:80", "//x", None), "http://b:80//x");
    assert_eq!(upstream_url("b:80", "/x", Some("a=1")), "http://b:80/x?a=1");
    assert_eq!(upstream_url("b:80", "", Some("")), "http://b:80/?");
}

#[test]
fn forwarded_requests_take_turns() {
    let mut balancer = UpstreamBalancer::new(&upstreams(&[("a", 1), ("b", 2)]));
    assert_eq!(
        choose_upstream(&mut balancer, "/p", Some("q")),
        Ok("http://a:1/p?q".to_string())
    );
    assert_eq!(choose_upstream(&mut balancer, "p", None), Ok("http://b:2/p".to_string()));
    assert_eq!(choose_upstream(&mut balancer, "", None), Ok("http://a:1/".to_string()));
    assert_eq!(
        choose_upstream(&mut UpstreamBalancer::new(&[]), "/p", None),
        Err(Reply::BadGateway)
    );
}

#[test]
fn requests_are_routed() {
    let matcher = Regex::new("^/api/(.*)$").unwrap();
    let required = pairs(&[("x-routing-key", "route-a")]);
    let good = headers(&[("x-routing-key", "route-a")]);
    let bad = headers(&[("x-routing-key", "route-b")]);
    let mut balancer = UpstreamBalancer::new(&upstreams(&[("127.0.0.1", 1), ("127.0.0.1", 2)]));

    let mut route = |request: &HeaderMap, path: &str, query: Option<&str>| {
        handle_request_with_rewrite(request, path, query, &mut balancer, &matcher, "/v1/$1", &required)
    };
    assert!(matches!(route(&bad, "/api/chat", None), RouteAction::Answer(Reply::NotFound)));
    assert!(matches!(route(&good, "/other", None), RouteAction::Answer(Reply::NotFound)));
    match route(&good, "/api/chat", Some("stream=1")) {
        RouteAction::Forward(url) => assert_eq!(url.as_str(), "http://127.0.0.1:1/v1/chat?stream=1"),
        other => panic!("{other:?}"),
    }
    match route(&good, "/api/models", None) {
        RouteAction::Forward(url) => assert_eq!(url.as_str(), "http://127.0.0.1:2/v1/models"),
        other => panic!("{other:?}"),
    }
}

#[test]
fn matching_and_dispatching_are_separate() {
    let matcher = Regex::new("^/api/(.*)$").unwrap();
    let required = pairs(&[("x-a", "1")]);
    let request = headers(&[("x-a", "1")]);
    assert_eq!(
        match_request(&request, "/api/chat", &matcher, "/v1/$1", &required),
        Ok("/v1/chat".to_string())
    );
    assert_eq!(
        match_request(&request, "/other", &matcher, "/v1/$1", &required),
        Err(Reply::NotFound)
    );
    assert_eq!(
        match_request(&HeaderMap::new(), "/api/chat", &matcher, "/v1/$1", &required),
        Err(Reply::NotFound)
    );

    let mut balancer = UpstreamBalancer::new(&upstreams(&[("a", 1), ("b", 2)]));
    assert!(matches!(
        dispatch_request(&mut UpstreamBalancer::new(&[]), "/v1/chat", None),
        RouteAction::Answer(Reply::BadGateway)
    ));
    match dispatch_request(&mut balancer, "/v1/chat", Some("q")) {
        RouteAction::Forward(url) => assert_eq!(url.as_str(), "http://a:1/v1/chat?q"),
        other => panic!("{other:?}"),
    }
    assert_eq!(balancer.pick(), Some("b:2"));
}

#[test]
fn a_request_without_upstream_is_a_bad_gateway() {
    let action = handle_request_with_rewrite(
        &HeaderMap::new(),
        "/",
        None,
        &mut UpstreamBalancer::new(&[]),
        &Regex::new("").unwrap(),
        "",
        &[],
    );
    assert!(matches!(action, RouteAction::Answer(Reply::BadGateway)));
}

#[test]
fn a_backend_that_gives_no_url_is_reported() {
    let mut balancer = UpstreamBalancer::new(&upstreams(&[("not a host", 1), ("b", 2)]));
    let matcher = Regex::new("^/x$").unwrap();
    match handle_request_with_rewrite(&HeaderMap::new(), "/x", None, &mut balancer, &matcher, "/x", &[]) {
        RouteAction::NotAUrl { text, cause } => {
            assert_eq!(text, "http://not a host:1/x");
            assert_eq!(cause, url::ParseError::IdnaError);
        }
        other => panic!("{other:?}"),
    }
    assert_eq!(balancer.pick(), Some("b:2"));
}

#[test]
fn parses_become_actions() {
    let url = url::Url::parse("HTTP://Example.COM").unwrap();
    match forward_action("HTTP://Example.COM".to_string(), Ok(url)) {
        RouteAction::Forward(url) => assert_eq!(url.as_str(), "http://example.com/"),
        other => panic!("{other:?}"),
    }
    match forward_action("x".to_string(), Err(url::ParseError::EmptyHost)) {
        RouteAction::NotAUrl { text, cause } => {
            assert_eq!((text.as_str(), cause), ("x", url::ParseError::EmptyHost))
        }
        other => panic!("{other:?}"),
    }
}

#[test]
fn replies_have_status_and_body() {
    let shown: Vec<(u16, &str)> = [
        Reply::NotFound,
        Reply::BadGateway,
        Reply::UpstreamUnreachable,
        Reply::ResponseBuildFailed,
    ]
    .iter()
    .map(|reply| (reply.status(), reply.body()))
    .collect();
    assert_eq!(
        shown,
        [
            (404, "Not Found"),
            (502, "Bad Gateway"),
            (504, "Upstream unreachable"),
            (500, "Response build failed"),
        ]
    );
}

#[test]
fn responses_are_passed_on() {
    assert_eq!(relay(Ok((418, "body"))), Ok((418, "body")));
    assert_eq!(
        relay::<()>(Err(UpstreamFailure::Unreachable)),
        Err(Reply::UpstreamUnreachable)
    );
    assert_eq!(
        relay::<()>(Err(UpstreamFailure::Unbuildable)),
        Err(Reply::ResponseBuildFailed)
    );
}

#[test]
fn the_server_header_is_replaced() {
    let mut response = headers(&[("server", "one"), ("server", "two"), ("x-a", "1")]);
    assert!(add_server_header(&mut response).is_ok());
    assert_eq!(response, headers(&[("server", "tng-testsuite-loadbalancer"), ("x-a", "1")]));

    let mut empty = HeaderMap::new();
    assert!(add_server_header(&mut empty).is_ok());
    assert_eq!(empty, headers(&[("server", "tng-testsuite-loadbalancer")]));
    assert!(!empty.get("server").unwrap().is_sensitive());
}

#[test]
fn a_full_map_takes_no_server_header() {
    let mut response = HeaderMap::new();
    let mut count: usize = 0;
    while response
        .try_insert(
            http::HeaderName::from_bytes(format!("x-{count}").as_bytes()).unwrap(),
            HeaderValue::from_static("v"),
        )
        .is_ok()
    {
        count += 1;
    }
    assert!(count > 6553);
    assert!(add_server_header(&mut response).is_err());
    assert_eq!(response.keys_len(), count);
    assert!(response.get("server").is_none());
}
