use axum::body::Body;
use http::{HeaderMap, HeaderName, HeaderValue};
use tng_ingress::headers::parse_header_name;
use tng_ingress::ingress::OHttpArgs;
use tng_ingress::ohttp::base_url::{accept_base_url, write_base_url, TngEndpoint};
use tng_ingress::ohttp::client_cache::{power_of_two, OHttpClientCache, OHttpClientCacheKey};
use tng_ingress::ohttp::forward_headers::parse_forward_headers;
use tng_ingress::ohttp::security::{ForwardError, OHttpSecurityLayer};
use url::Url;

fn strings(list: &[&str]) -> Vec<String> {
    list.iter().map(|s| s.to_string()).collect()
}

fn layer(names: &[&str]) -> OHttpSecurityLayer {
    OHttpSecurityLayer::new(&OHttpArgs { path_rewrites: vec![], forward_headers: strings(names) })
        .unwrap()
}

fn endpoint(host: &str, port: u16) -> TngEndpoint {
    TngEndpoint { host: host.to_string(), port }
}

fn key(url: &str, headers: &[(&str, &str)]) -> OHttpClientCacheKey {
    OHttpClientCacheKey {
        base_url: url.parse::<Url>().unwrap(),
        forwarded_headers: headers.iter().map(|(n, v)| (n.to_string(), v.to_string())).collect(),
    }
}

#[test]
fn test_extract_forward_headers() {
    let request = axum::extract::Request::builder()
        .uri("http://example.com/v1/chat/completions")
        .header("x-routing-key", "route-a")
        .header("x-unrelated", "ignored")
        .body(Body::empty())
        .expect("request should be built");
    let header_names = vec![
        HeaderName::from_static("x-routing-key"),
        HeaderName::from_static("x-not-present"),
    ];

    let (forward_headers, cache_key_forwarded_headers) =
        OHttpSecurityLayer::extract_forward_headers(request.headers(), &header_names)
            .expect("headers should fit");

    assert_eq!(forward_headers.len(), 1);
    assert_eq!(
        forward_headers.get("x-routing-key").and_then(|value| value.to_str().ok()),
        Some("route-a")
    );
    assert_eq!(
        cache_key_forwarded_headers,
        vec![("x-routing-key".to_owned(), "route-a".to_owned())]
    );
}

#[test]
fn test_ohttp_client_cache_key_depends_on_forwarded_headers() {
    let base_url = "http://127.0.0.1:30001/".parse::<Url>().expect("base url should be valid");
    let key_for_route_a = OHttpClientCacheKey {
        base_url: base_url.clone(),
        forwarded_headers: vec![("x-routing-key".to_owned(), "route-a".to_owned())],
    };
    let key_for_route_b = OHttpClientCacheKey {
        base_url,
        forwarded_headers: vec![("x-routing-key".to_owned(), "route-b".to_owned())],
    };

    assert_ne!(key_for_route_a, key_for_route_b);
}

#[test]
fn keys_compare_urls_and_all_headers() {
    let one = key("http://h:1/", &[("a", "1"), ("b", "2")]);
    assert_eq!(one, key("HTTP://H:1", &[("a", "1"), ("b", "2")]));
    assert_ne!(one, key("http://h:2/", &[("a", "1"), ("b", "2")]));
    assert_ne!(one, key("http://h:1/", &[("a", "1")]));
    assert_ne!(one, key("http://h:1/", &[("a", "1"), ("c", "2")]));
    assert_ne!(one, key("http://h:1/", &[("a", "1"), ("b", "2"), ("c", "3")]));
}

#[test]
fn header_names_are_normalized() {
    assert_eq!(parse_header_name("X-Routing-KEY").unwrap().as_str(), "x-routing-key");
    assert_eq!(parse_header_name("!#$%&'*+-.^_`|~09azAZ").unwrap().as_str(), "!#$%&'*+-.^_`|~09azaz");
    for bad in ["", " ", "a b", "a:", "\"", "(", ")", "/", "@", "[", "{", "\u{e9}", "a\n"] {
        assert!(parse_header_name(bad).is_err(), "{bad:?}");
    }
    let long = "A".repeat(65535);
    assert_eq!(parse_header_name(&long).unwrap().as_str(), "a".repeat(65535));
    assert!(parse_header_name(&"a".repeat(65536)).is_err());
    assert!(parse_header_name(&format!("{} ", "a".repeat(100))).is_err());
    let name = parse_header_name("Content-Type").unwrap();
    assert_eq!(parse_header_name(name.as_str()).unwrap(), name);
}

#[test]
fn forward_headers_are_sorted_and_unique() {
    let names = parse_forward_headers(&strings(&["X-B", "x-a", "x-b", "X-A", "accept", "x"])).unwrap();
    let shown: Vec<&str> = names.iter().map(|n| n.as_str()).collect();
    assert_eq!(shown, ["accept", "x", "x-a", "x-b"]);
    let again = parse_forward_headers(&strings(&["x-a", "X", "Accept", "x-b"])).unwrap();
    assert_eq!(names, again);
    assert!(parse_forward_headers(&[]).unwrap().is_empty());
}

#[test]
fn the_first_invalid_forward_header_is_reported() {
    let error = OHttpSecurityLayer::new(&OHttpArgs {
        path_rewrites: vec![],
        forward_headers: strings(&["x-a", "not valid", "", "x-b"]),
    })
    .unwrap_err();
    assert_eq!(error.entry, "not valid");
    assert_eq!(error.message(), "Invalid forward_headers entry: not valid");
    assert_eq!(error.cause.to_string(), "invalid HTTP header name");
}

#[test]
fn the_first_value_is_forwarded() {
    let mut request = HeaderMap::new();
    request.append("x-a", HeaderValue::from_static("one"));
    request.append("x-a", HeaderValue::from_static("two"));
    request.append("x-b", HeaderValue::from_bytes(b"caf\xc3\xa9").unwrap());
    request.append("x-c", HeaderValue::from_bytes(b"caf\xe9").unwrap());
    let names: Vec<HeaderName> =
        ["x-c", "x-a", "x-b", "x-a"].iter().map(|n| HeaderName::from_static(n)).collect();
    let (forward, pairs) = OHttpSecurityLayer::extract_forward_headers(&request, &names).unwrap();
    assert_eq!(forward.len(), 3);
    assert_eq!(forward.get_all("x-a").iter().collect::<Vec<_>>(), ["one"]);
    assert_eq!(forward.get("x-c").unwrap().as_bytes(), b"caf\xe9");
    assert_eq!(
        pairs,
        [("x-c", "caf\u{fffd}"), ("x-a", "one"), ("x-b", "caf\u{e9}"), ("x-a", "one")]
            .map(|(n, v)| (n.to_string(), v.to_string()))
    );
}

#[test]
fn sensitive_values_stay_marked() {
    let mut secret = HeaderValue::from_static("secret");
    secret.set_sensitive(true);
    let mut request = HeaderMap::new();
    request.insert("x-secret", secret);
    request.insert("x-open", HeaderValue::from_static("open"));
    let names = [HeaderName::from_static("x-open"), HeaderName::from_static("x-secret")];
    let (forward, _) = OHttpSecurityLayer::extract_forward_headers(&request, &names).unwrap();
    assert!(forward.get("x-secret").unwrap().is_sensitive());
    assert!(!forward.get("x-open").unwrap().is_sensitive());
}

#[test]
fn values_that_are_not_text_may_share_a_key() {
    let layer = layer(&["x-a"]);
    let prepare = |value: &[u8]| {
        let mut request = HeaderMap::new();
        request.insert("x-a", HeaderValue::from_bytes(value).unwrap());
        layer.prepare_forward(&endpoint("h", 1), None, &request).unwrap().cache_key
    };
    assert_eq!(prepare(b"\xff"), prepare(b"\xff"));
    assert_eq!(prepare(b"\xff"), prepare(b"\xfe"));
    assert_ne!(prepare(b"\xff"), prepare(b"a"));
}

#[test]
fn base_urls_are_written() {
    let e = endpoint("127.0.0.1", 30001);
    assert_eq!(write_base_url(&e, None), "http://127.0.0.1:30001/");
    assert_eq!(write_base_url(&e, Some(String::new())), "http://127.0.0.1:30001/");
    assert_eq!(write_base_url(&e, Some("/a/b".to_string())), "http://127.0.0.1:30001/a/b");
    assert_eq!(write_base_url(&e, Some("a/b".to_string())), "http://127.0.0.1:30001/a/b");
}

#[test]
fn base_urls_are_parsed() {
    let url =
        OHttpSecurityLayer::construct_base_url(&endpoint("Example.COM", 80), Some("x y".to_string()))
            .unwrap();
    assert_eq!(url.as_str(), "http://example.com/x%20y");

    let error = OHttpSecurityLayer::construct_base_url(&endpoint("a b", 1), None).unwrap_err();
    assert_eq!(error.url, "http://a b:1/");
    assert_eq!(error.message(), "Not a valid URL: http://a b:1/");
    assert_eq!(error.cause, url::ParseError::IdnaError);

    let refused = accept_base_url("u".to_string(), Err(url::ParseError::EmptyHost)).unwrap_err();
    assert_eq!((refused.url.as_str(), refused.cause), ("u", url::ParseError::EmptyHost));
}

#[test]
fn requests_are_prepared() {
    let layer = layer(&["X-Tenant", "x-routing-key"]);
    let mut request = HeaderMap::new();
    request.insert("x-routing-key", HeaderValue::from_static("route-a"));
    request.insert("x-tenant", HeaderValue::from_static("t"));
    request.insert("x-unrelated", HeaderValue::from_static("ignored"));

    let prepared = layer.prepare_forward(&endpoint("h", 8080), None, &request).unwrap();
    assert_eq!(
        prepared.cache_key,
        key("http://h:8080/", &[("x-routing-key", "route-a"), ("x-tenant", "t")])
    );
    assert_eq!(prepared.forward_headers.len(), 2);
    assert!(prepared.forward_headers.get("x-unrelated").is_none());

    request.insert("x-unrelated", HeaderValue::from_static("other"));
    let same = layer.prepare_forward(&endpoint("h", 8080), Some("/".to_string()), &request).unwrap();
    assert_eq!(same.cache_key, prepared.cache_key);

    request.insert("x-tenant", HeaderValue::from_static("u"));
    let other = layer.prepare_forward(&endpoint("h", 8080), None, &request).unwrap();
    assert_ne!(other.cache_key, prepared.cache_key);

    match layer.prepare_forward(&endpoint("", 1), None, &request) {
        Err(ForwardError::BaseUrl(error)) => assert_eq!(error.cause, url::ParseError::EmptyHost),
        other => panic!("{other:?}"),
    }
}

#[test]
fn repeated_names_need_no_more_room() {
    let mut request = HeaderMap::new();
    request.insert("x-a", HeaderValue::from_static("1"));
    request.insert("x-b", HeaderValue::from_static("2"));
    let names: Vec<HeaderName> = (0..40000)
        .map(|n| HeaderName::from_static(if n % 2 == 0 { "x-a" } else { "x-b" }))
        .collect();
    let (forward, pairs) = OHttpSecurityLayer::extract_forward_headers(&request, &names).unwrap();
    assert_eq!(forward.len(), 2);
    assert_eq!(pairs.len(), 40000);
}

#[test]
fn too_many_present_headers_are_reported() {
    let mut request = HeaderMap::new();
    let mut names: Vec<HeaderName> = vec![];
    loop {
        let name = HeaderName::from_bytes(format!("x-{}", names.len()).as_bytes()).unwrap();
        if request.try_insert(name.clone(), HeaderValue::from_static("v")).is_err() {
            break;
        }
        names.push(name);
    }
    let extra = names.len();
    assert!(extra > 6553);
    assert!(OHttpSecurityLayer::extract_forward_headers(&request, &names[..6553]).is_ok());
    let mut repeated = names.clone();
    repeated.extend(names);
    assert!(OHttpSecurityLayer::extract_forward_headers(&request, &repeated).is_err());
}

#[test]
fn powers_of_two_are_recognized() {
    for k in 0..usize::BITS {
        assert!(power_of_two(1 << k));
    }
    for n in [0, 3, 5, 6, 7, 9, 100, 127, 129, usize::MAX] {
        assert!(!power_of_two(n), "{n}");
    }
}

#[test]
fn the_same_key_shares_a_cell() {
    let mut cache: OHttpClientCache<u32> = OHttpClientCache::new();
    assert_eq!(cache.len(), 0);
    assert_eq!(cache.get(&key("http://h:1/", &[])), None);

    let first = cache.entry(key("http://h:1/", &[]), 10);
    assert_eq!((*first.cell, first.alarm), (10, None));
    let other = cache.entry(key("http://h:1/", &[("a", "1")]), 20);
    assert_eq!((*other.cell, other.alarm), (20, None));
    let again = cache.entry(key("http://h:1/", &[]), 30);
    assert_eq!((*again.cell, again.alarm), (10, None));

    assert_eq!(cache.len(), 2);
    assert_eq!(cache.get(&key("http://h:1/", &[])), Some(&10));
    assert_eq!(cache.get(&key("http://h:1/", &[("a", "1")])), Some(&20));
    assert_eq!(cache.get(&key("http://h:2/", &[])), None);
}

#[test]
fn a_large_cache_raises_an_alarm_at_powers_of_two() {
    let mut cache: OHttpClientCache<usize> = OHttpClientCache::new();
    let mut alarms: Vec<usize> = vec![];
    for n in 0..300 {
        if let Some(size) = cache.entry(key("http://h:1/", &[("n", &n.to_string())]), n).alarm {
            alarms.push(size);
        }
    }
    assert_eq!(alarms, [128, 256]);

    let mut cache: OHttpClientCache<usize> = OHttpClientCache::new();
    for n in 0..128 {
        cache.entry(key("http://h:1/", &[("n", &n.to_string())]), n);
    }
    assert_eq!(cache.entry(key("http://h:1/", &[("n", "5")]), 0).alarm, Some(128));
}
