use pvcli::args::{Args, Method, RequestArgs, ResolveOverride};
use pvcli::bhttp::Field;
use pvcli::client::cert::X509ConnectionHook;
use pvcli::client::http2::url_parts;
use pvcli::client::http3::H3ConnectionLogger;
use pvcli::client::ohttp::{
    check_gateway_response, check_key_response, outer_request, trim_end_char, trim_start_char, OHttpEndpoints, OuterHop,
};
use pvcli::client::request::RequestHandler;
use pvcli::client::resolver::{resolve_target, Resolver};
use pvcli::client::{
    log_verbosity, redact_args, redact_header, redact_headers, redact_headers_vec, redact_request_args, select_http_client,
    HttpClientKind, HttpResponse, HttpVersion, LogVerbosity,
};
use pvcli::error::PvcliError;
use pvcli::text::decimal;

fn resolver(overrides: &[(&str, u16, &[&str])]) -> Resolver {
    Resolver::new(
        overrides
            .iter()
            .map(|(host, port, addrs)| ((*host).to_owned(), *port, addrs.iter().map(|a| a.to_string()).collect()))
            .collect(),
    )
}

fn strings(v: &[&str]) -> Vec<String> {
    v.iter().map(|s| s.to_string()).collect()
}

fn base_args() -> Args {
    Args {
        url: "https://example.com/".to_string(),
        verbosity: 0,
        silent: false,
        method: None,
        header: vec![],
        data: None,
        ohttp: false,
        http3: false,
        proxy: None,
        proxy_http3: false,
        proxy_header: vec![],
        gateway_path: "/gateway".to_string(),
        config_path: "/ohttp-configs".to_string(),
        first_hop: None,
        first_hop_header: vec![],
        resolve: vec![],
    }
}

#[test]
fn override_hit_returns_addresses_in_order() {
    let resolver = resolver(&[("test.invalid", 443, &["127.0.0.1:443", "[::1]:443"])]);
    let addresses = resolver.resolve_override("test.invalid", 443).unwrap();
    assert_eq!(
        addresses,
        strings(&["127.0.0.1:443", "[::1]:443"]),
        "override should preserving order and address family"
    );
}

#[test]
fn overrides_are_keyed_on_host_and_port() {
    let resolver = resolver(&[("test.invalid", 443, &["127.0.0.1:443", "[::1]:443"])]);
    let result = resolver.resolve_override("test.invalid", 8443);
    assert!(result.is_none(), "port mismatch should fall through to DNS, got {result:?}");
}

#[test]
fn empty_resolver_falls_through_to_dns() {
    let resolver = Resolver::new(vec![]);
    let result = resolver.resolve_override("test.invalid", 443);
    assert!(result.is_none(), "no overrides means system DNS, got {result:?}");
}

#[test]
fn resolve_url_infers_port_from_scheme() {
    let resolver = resolver(&[
        ("test.invalid", 443, &["127.0.0.1:443"]),
        ("test2.invalid", 80, &["[::1]:80"]),
        ("test2.invalid", 8443, &["[::2]:8443"]),
    ]);
    for (url, expected) in [
        ("https://test.invalid/path?q=1", "127.0.0.1:443"),
        ("http://test2.invalid", "[::1]:80"),
        ("https://test2.invalid:8443", "[::2]:8443"),
    ] {
        let (host, port) = resolve_target(url).unwrap();
        assert_eq!(resolver.resolve_override(&host, port).unwrap(), strings(&[expected]), "unexpected resolution for {url}");
    }
}

#[test]
fn wildcard_override_matches() {
    let resolver = resolver(&[("non-matching.invalid", 443, &["127.0.0.1:443"]), ("*", 443, &["10.0.0.1:443"])]);
    let addresses = resolver.resolve_override("test.invalid", 443).unwrap();
    assert_eq!(addresses, strings(&["10.0.0.1:443"]), "wildcard should be matched");
}

#[test]
fn wildcard_override_matches_last() {
    let resolver = resolver(&[("*", 443, &["10.0.0.1:443"]), ("test.invalid", 443, &["127.0.0.1:443"])]);
    let addresses = resolver.resolve_override("test.invalid", 443).unwrap();
    assert_eq!(addresses, strings(&["127.0.0.1:443"]), "specific override should have precendence");
}

#[test]
fn wildcard_override_is_keyed_by_port() {
    let resolver = resolver(&[("*", 443, &["[::1]:443"])]);
    let result = resolver.resolve_override("test.invalid", 8443);
    assert!(result.is_none(), "port mismatch should fall through to DNS, got {result:?}");
}

#[test]
fn later_override_of_the_same_key_wins() {
    let resolver = resolver(&[("a.invalid", 443, &["10.0.0.1:443"]), ("a.invalid", 443, &["10.0.0.2:443"])]);
    assert_eq!(resolver.resolve_override("a.invalid", 443).unwrap(), strings(&["10.0.0.2:443"]));
}

#[test]
fn resolve_target_needs_a_host() {
    assert!(resolve_target("not a url").is_err());
    assert!(resolve_target("data:text/plain,hi").is_err());
    assert_eq!(resolve_target("https://example.com").unwrap(), ("example.com".to_string(), 443));
    assert_eq!(resolve_target("http://example.com:8080/x").unwrap(), ("example.com".to_string(), 8080));
}

#[test]
fn authorization_headers_are_redacted() {
    assert_eq!(redact_header(&"Authorization: Bearer abc".to_string()), "Authorization: REDACTED");
    assert_eq!(redact_header(&"  Proxy-Authorization : xyz".to_string()), "Proxy-Authorization: REDACTED");
    assert_eq!(redact_header(&"Accept: */*".to_string()), "Accept: */*");
    assert_eq!(redact_header(&"no colon authorization".to_string()), "no colon authorization");
    let v = redact_headers_vec(&strings(&["X-Auth: 1", "authorization:2"]));
    assert_eq!(v, strings(&["X-Auth: 1", "authorization: REDACTED"]));
}

#[test]
fn redacted_args_keep_everything_else() {
    let mut args = base_args();
    args.header = strings(&["Authorization: secret", "Accept: */*"]);
    args.proxy_header = strings(&["proxy-authorization: p"]);
    args.first_hop_header = strings(&["x: y"]);
    args.data = Some("body".to_string());
    args.verbosity = 2;
    let r = redact_args(&args);
    assert_eq!(r.header, strings(&["Authorization: REDACTED", "Accept: */*"]));
    assert_eq!(r.proxy_header, strings(&["proxy-authorization: REDACTED"]));
    assert_eq!(r.first_hop_header, strings(&["x: y"]));
    assert_eq!(r.data, Some("body".to_string()));
    assert_eq!(r.verbosity, 2);
    assert_eq!(r.url, args.url);

    let req = RequestArgs {
        method: Method::Get,
        url: "https://example.com/".to_string(),
        headers: strings(&["authorization: t"]),
        body: None,
        proxy_connect: None,
        proxy_header: vec![],
    };
    let r = redact_request_args(&req);
    assert_eq!(r.headers, strings(&["authorization: REDACTED"]));
    assert_eq!(r.url, req.url);
}

#[test]
fn http_client_selection() {
    let mut args = base_args();
    assert_eq!(select_http_client(&args), Ok(HttpClientKind::Http2));
    args.http3 = true;
    assert_eq!(select_http_client(&args), Ok(HttpClientKind::Http3));
    args.proxy = Some("https://proxy.example".to_string());
    assert_eq!(select_http_client(&args), Ok(HttpClientKind::Http2));
    args.proxy_http3 = true;
    assert!(select_http_client(&args).is_err());
    args.ohttp = true;
    assert_eq!(select_http_client(&args), Ok(HttpClientKind::OHttp));
}

#[test]
fn log_levels() {
    assert_eq!(log_verbosity(true, 3), LogVerbosity::Critical);
    assert_eq!(log_verbosity(false, 0), LogVerbosity::Warning);
    assert_eq!(log_verbosity(false, 1), LogVerbosity::Info);
    assert_eq!(log_verbosity(false, 2), LogVerbosity::Debug);
    assert_eq!(log_verbosity(false, 9), LogVerbosity::Trace);
}

#[test]
fn endpoints_below_the_proxy() {
    let e = OHttpEndpoints::new(Some("https://relay.example//".to_string()), "//gateway", "ohttp-configs").unwrap();
    assert_eq!(e.gateway_url, "https://relay.example/gateway");
    assert_eq!(e.config_url, "https://relay.example/ohttp-configs");
    assert!(OHttpEndpoints::new(None, "/gateway", "/ohttp-configs").is_err());
    assert_eq!(trim_end_char("a//", '/'), "a");
    assert_eq!(trim_start_char("//a/", '/'), "a/");
    assert_eq!(trim_start_char("", '/'), "");
}

#[test]
fn unexpected_statuses() {
    assert!(check_key_response("https://x/ohttp-configs", 200, "").is_ok());
    match check_key_response("https://x/ohttp-configs", 404, "not found") {
        Err(PvcliError::UnexpectedStatus { status, message }) => {
            assert_eq!(status, 404);
            assert_eq!(
                message,
                "Fetching OHTTP gateway key at https://x/ohttp-configs returned error not found, use -vvv to debug raw response body"
            );
        }
        other => panic!("unexpected {other:?}"),
    }
    assert!(check_gateway_response(200, "").is_ok());
    let e = check_gateway_response(526, "x").unwrap_err();
    assert_eq!(
        e.message(),
        "Unexpected status 526: OHTTP Gateway returned error, try disabling WARP or use a different wifi network and try again: x"
    );
    let e = check_gateway_response(403, "y").unwrap_err();
    assert_eq!(
        e.message(),
        "Unexpected status 403: OHTTP Gateway returned error, check if the endpoint is a relay with a path: y"
    );
    let e = check_gateway_response(500, "z").unwrap_err();
    assert_eq!(e.message(), "Unexpected status 500: OHTTP Gateway returned error: z");
}

#[test]
fn error_messages() {
    assert_eq!(PvcliError::Todo("x".to_string()).message(), "TODO: x");
    assert_eq!(PvcliError::HpkeError("bad".to_string()).message(), "HPKE error: bad");
    assert_eq!(decimal(0), "0");
    assert_eq!(decimal(18446744073709551615), "18446744073709551615");
}

#[test]
fn response_bodies_as_text() {
    let r = HttpResponse {
        version: HttpVersion::H2,
        status: 200,
        headers: vec![],
        body: vec![b'a', b' ', 0x00, 0xff, b'\n', b'~'],
    };
    assert_eq!(r.body_as_string_escaped(), "a \\x00\\xff\\x0a~");
    assert_eq!(r.body_as_hex(), "612000ff0a7e");
    assert_eq!(r.body_as_string_lossy(), "a \u{0}\u{fffd}\n~");
}

#[test]
fn tls_material() {
    let none = X509ConnectionHook { cacert: None, client: None, key: None };
    assert_eq!(none.mtls_files(), Ok(None));
    let half = X509ConnectionHook { cacert: None, client: Some("c.pem".to_string()), key: None };
    assert!(half.mtls_files().is_err());
    let both = X509ConnectionHook {
        cacert: Some("ca.pem".to_string()),
        client: Some("c.pem".to_string()),
        key: Some("k.pem".to_string()),
    };
    assert_eq!(both.mtls_files(), Ok(Some(("c.pem".to_string(), "k.pem".to_string()))));
    assert_eq!(H3ConnectionLogger::line("connected"), "---HTTP/3--- connected");
}

#[test]
fn header_lines_become_fields() {
    let fields =
        RequestHandler::consume_headers(&strings(&["Content-Type: text/plain", "nocolon", " X-A :  b "])).unwrap();
    assert_eq!(
        fields,
        vec![
            Field { name: b"content-type".to_vec(), value: b"text/plain".to_vec() },
            Field { name: b"x-a".to_vec(), value: b"b".to_vec() },
        ]
    );
    assert!(RequestHandler::consume_headers(&strings(&["bad name: v"])).is_err());
}

#[test]
fn requests_from_the_command_line() {
    let (head, body) = RequestHandler::build_request(
        "GET",
        "https://example.com:8443/a/b?c=d".to_string(),
        strings(&["Accept: */*"]),
        None,
    )
    .unwrap();
    assert_eq!(head.method, b"GET".to_vec());
    assert_eq!(head.scheme, b"https".to_vec());
    assert_eq!(head.authority, b"example.com:8443".to_vec());
    assert_eq!(head.path, b"/a/b?c=d".to_vec());
    assert!(body.is_empty());

    assert!(RequestHandler::build_request("GET", "/relative".to_string(), vec![], None).is_err());
    assert!(RequestHandler::build_request("GET", "example.com".to_string(), vec![], None).is_err());

    let post = RequestArgs {
        method: Method::Post,
        url: "http://example.com".to_string(),
        headers: vec![],
        body: None,
        proxy_connect: None,
        proxy_header: vec![],
    };
    assert!(RequestHandler::build_request_wrapper(post.clone()).is_err());
    let post = RequestArgs { body: Some(b"x".to_vec()), ..post };
    let (head, body) = RequestHandler::build_request_wrapper(post).unwrap();
    assert_eq!(head.method, b"POST".to_vec());
    assert_eq!(head.path, b"/".to_vec());
    assert_eq!(body, b"x".to_vec());
}


#[test]
fn resolver_from_command_line_overrides() {
    let overrides = vec![
        ResolveOverride { host: "relay.internal".to_string(), port: 80, addresses: strings(&["127.0.0.1:8080"]) },
        ResolveOverride { host: "*".to_string(), port: 443, addresses: strings(&["10.0.0.1:443", "10.0.0.2:443"]) },
    ];
    let resolver = Resolver::from_overrides(&overrides);
    assert_eq!(resolver.resolve_override("relay.internal", 80).unwrap(), strings(&["127.0.0.1:8080"]));
    assert_eq!(resolver.resolve_override("any.invalid", 443).unwrap(), strings(&["10.0.0.1:443", "10.0.0.2:443"]));
    assert!(resolver.resolve_override("relay.internal", 81).is_none());

    let mut args = base_args();
    args.resolve = overrides;
    let r = redact_args(&args);
    assert_eq!(r.resolve.len(), 2);
    assert_eq!(r.resolve[1].addresses, strings(&["10.0.0.1:443", "10.0.0.2:443"]));
}

#[test]
fn connect_requests_target_host_and_port() {
    let (head, body) =
        RequestHandler::build_request("CONNECT", "https://example.com/x?y".to_string(), strings(&["a: b"]), None).unwrap();
    assert_eq!(head.method, b"CONNECT".to_vec());
    assert_eq!(head.scheme, b"".to_vec());
    assert_eq!(head.authority, b"example.com:443".to_vec());
    assert_eq!(head.path, b"".to_vec());
    assert_eq!(head.headers, vec![Field { name: b"a".to_vec(), value: b"b".to_vec() }]);
    assert!(body.is_empty());
    let (head, _) = RequestHandler::build_request("CONNECT", "http://example.com".to_string(), vec![], None).unwrap();
    assert_eq!(head.authority, b"example.com:80".to_vec());
    let (head, _) =
        RequestHandler::build_request("CONNECT", "http://example.com:8080".to_string(), vec![], None).unwrap();
    assert_eq!(head.authority, b"example.com:8080".to_vec());
}

#[test]
fn header_maps_are_redacted_for_logs() {
    let f = |n: &[u8], v: &[u8]| Field { name: n.to_vec(), value: v.to_vec() };
    let headers = vec![
        f(b"authorization", b"Bearer x"),
        f(b"accept", b"a"),
        f(b"accept", b"b"),
        f(b"proxy-authorization", b"y"),
        f(b"x-bin", &[0x61, 0xff]),
    ];
    let mut r = redact_headers(&headers);
    r.sort();
    let pair = |a: &str, b: &str| (a.to_string(), b.to_string());
    assert_eq!(
        r,
        vec![
            pair("accept", "b"),
            pair("authorization", "REDACTED"),
            pair("proxy-authorization", "REDACTED"),
            pair("x-bin", "a\u{fffd}"),
        ]
    );
}

#[test]
fn connection_targets() {
    assert_eq!(url_parts("https://example.com/a").unwrap(), (b"https".to_vec(), b"example.com".to_vec(), 443));
    assert_eq!(url_parts("http://example.com").unwrap(), (b"http".to_vec(), b"example.com".to_vec(), 80));
    assert_eq!(url_parts("http://example.com:8080").unwrap(), (b"http".to_vec(), b"example.com".to_vec(), 8080));
    assert_eq!(url_parts("/relative").unwrap_err(), "Peer URL must include host");
    assert_eq!(url_parts("example.com:443").unwrap_err(), "Peer URL must include scheme (http or https)");
    assert_eq!(url_parts("http://exa mple.com").unwrap_err(), "Failed to parse peer URL");
}

#[test]
fn methods_and_header_values_are_validated() {
    assert!(RequestHandler::build_request("G ET", "http://example.com".to_string(), vec![], None).is_err());
    assert!(RequestHandler::consume_headers(&strings(&["x: a\nb"])).is_err());
    let (head, _) = RequestHandler::build_request("PATCH", "http://example.com".to_string(), vec![], None).unwrap();
    assert_eq!(head.method, b"PATCH".to_vec());
}

#[test]
fn redacted_header_name_loses_unicode_white_space() {
    let line = "\u{3000}\tAuthorization\u{2003} : Bearer secret".to_string();
    assert_eq!(redact_header(&line), "Authorization: REDACTED");
    let plain = " X-Other : value".to_string();
    assert_eq!(redact_header(&plain), " X-Other : value");
}

#[test]
fn outer_request_goes_to_the_first_hop_or_the_gateway() {
    let endpoints = OHttpEndpoints::new(Some("https://proxy.example/".to_string()), "gateway", "ohttp-keys").unwrap();
    let (via_gateway, hop) = outer_request(&endpoints, None, vec!["A: 1".to_string()], vec!["B: 2".to_string()], vec![1, 2, 3]);
    assert_eq!(hop, OuterHop::Proxy);
    assert_eq!(via_gateway.method, Method::Post);
    assert_eq!(via_gateway.url, "https://proxy.example/gateway");
    assert_eq!(via_gateway.headers, vec!["B: 2".to_string(), "Content-Type: message/ohttp-req".to_string()]);
    assert_eq!(via_gateway.body, Some(vec![1, 2, 3]));
    assert!(via_gateway.proxy_connect.is_none());
    let (via_relay, hop) = outer_request(
        &endpoints,
        Some("https://relay.example/".to_string()),
        vec!["A: 1".to_string()],
        vec!["B: 2".to_string()],
        vec![4],
    );
    assert_eq!(hop, OuterHop::FirstHop);
    assert_eq!(via_relay.url, "https://relay.example/");
    assert_eq!(via_relay.headers, vec!["A: 1".to_string(), "Content-Type: message/ohttp-req".to_string()]);
    assert_eq!(via_relay.body, Some(vec![4]));
}
