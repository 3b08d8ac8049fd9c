use axum_reverse_proxy::message::HttpVersion;
use axum_reverse_proxy::rfc9110::{
    add_via_header, detect_loop, handle_layer_request, is_end_to_end_header,
    is_hop_by_hop_header, parse_via_header, process_connection_header, process_max_forwards,
    process_response_headers, LayerAnswer, LayerRequest, LayerStep, Pending, ViaEntry,
};
use axum_reverse_proxy::{Rfc9110Config, Rfc9110Layer};
use http::{HeaderMap, HeaderName, HeaderValue};

fn headers(pairs: &[(&str, &str)]) -> HeaderMap {
    let mut map = HeaderMap::new();
    for (k, v) in pairs {
        map.append(
            HeaderName::try_from(*k).unwrap(),
            HeaderValue::from_str(v).unwrap(),
        );
    }
    map
}

fn request(method: &str, pairs: &[(&str, &str)]) -> LayerRequest {
    LayerRequest {
        method: method.to_string(),
        host: None,
        version: HttpVersion::Http11,
        headers: headers(pairs),
    }
}

fn answered(config: &Rfc9110Config, req: &mut LayerRequest) -> LayerAnswer {
    match handle_layer_request(config, req) {
        LayerStep::Answer(answer) => answer,
        LayerStep::Forward(_) => panic!("forwarded"),
    }
}

fn forwarded(config: &Rfc9110Config, req: &mut LayerRequest) -> Pending {
    match handle_layer_request(config, req) {
        LayerStep::Forward(pending) => pending,
        LayerStep::Answer(_) => panic!("answered"),
    }
}

/// The headers of the response to a request, where the service inside answers with `status` and
/// no headers.
fn response_to(config: &Rfc9110Config, req: &mut LayerRequest, status: u16) -> HeaderMap {
    let pending = forwarded(config, req);
    let mut response = HeaderMap::new();
    process_response_headers(&mut response, status, &pending);
    response
}

fn with_pseudonym(pseudonym: &str) -> Rfc9110Config {
    Rfc9110Config { pseudonym: Some(pseudonym.to_string()), ..Default::default() }
}

#[test]
fn test_connection_header_removal() {
    let mut req = request(
        "GET",
        &[("connection", "close, x-custom-header"), ("x-custom-header", "value")],
    );
    let response = response_to(&Rfc9110Config::default(), &mut req, 502);
    assert!(!response.contains_key("connection"));
    assert!(!response.contains_key("x-custom-header"));
    assert!(!req.headers.contains_key("connection"));
    assert!(!req.headers.contains_key("x-custom-header"));
}

#[test]
fn test_hop_by_hop_header_removal() {
    let mut req = request(
        "GET",
        &[
            ("keep-alive", "timeout=5"),
            ("transfer-encoding", "chunked"),
            ("te", "trailers"),
            ("upgrade", "websocket"),
            ("proxy-connection", "keep-alive"),
        ],
    );
    let response = response_to(&Rfc9110Config::default(), &mut req, 502);
    for name in ["keep-alive", "transfer-encoding", "te", "upgrade", "proxy-connection"] {
        assert!(!response.contains_key(name));
        assert!(!req.headers.contains_key(name));
    }
}

#[test]
fn test_max_forwards_trace() {
    let config = Rfc9110Config::default();
    let mut req = request("TRACE", &[("max-forwards", "0")]);
    let answer = answered(&config, &mut req);
    assert!(matches!(answer, LayerAnswer::TraceEcho { .. }));
    assert_eq!(answer.status(), 200);

    let mut req = request("TRACE", &[("max-forwards", "5")]);
    let response = response_to(&config, &mut req, 502);
    assert_eq!(req.headers.get("max-forwards").unwrap(), "4");
    assert_eq!(response.get("max-forwards").unwrap(), "4");
}

#[test]
fn test_max_forwards_options() {
    let mut req = request("OPTIONS", &[("max-forwards", "3")]);
    let response = response_to(&Rfc9110Config::default(), &mut req, 502);
    assert_eq!(response.get("max-forwards").unwrap(), "2");
}

#[test]
fn test_max_forwards_ignored_for_other_methods() {
    let mut req = request("GET", &[("max-forwards", "5")]);
    let response = response_to(&Rfc9110Config::default(), &mut req, 502);
    assert_eq!(response.get("max-forwards").unwrap(), "5");
    assert_eq!(req.headers.get("max-forwards").unwrap(), "5");
    let mut req = request("GET", &[("max-forwards", "0")]);
    forwarded(&Rfc9110Config::default(), &mut req);
}

#[test]
fn test_via_header_basic() {
    let mut req = request("GET", &[]);
    let response = response_to(&Rfc9110Config::default(), &mut req, 502);
    assert_eq!(response.get("via").unwrap(), "1.1 proxy");
    assert_eq!(req.headers.get("via").unwrap(), "1.1 proxy");
}

#[test]
fn test_via_header_custom_pseudonym() {
    let response = response_to(&with_pseudonym("test-proxy"), &mut request("GET", &[]), 502);
    assert_eq!(response.get("via").unwrap(), "1.1 test-proxy");
}

#[test]
fn test_via_header_combining() {
    let mut req = request("GET", &[("via", "1.1 proxy1, 1.1 proxy2")]);
    let response = response_to(&with_pseudonym("test-proxy"), &mut req, 502);
    assert_eq!(response.get("via").unwrap(), "1.1 test-proxy");
}

#[test]
fn test_loop_detection() {
    let config = Rfc9110Config {
        server_names: Some(vec!["example.com".to_string()]),
        ..Default::default()
    };
    let mut req = request("GET", &[]);
    req.host = Some("example.com".to_string());
    let answer = answered(&config, &mut req);
    assert!(matches!(answer, LayerAnswer::LoopDetected));
    assert_eq!(answer.status(), 508);
}

#[test]
fn test_unknown_headers_forwarded() {
    let mut req = request("GET", &[("x-custom-unknown", "value")]);
    forwarded(&Rfc9110Config::default(), &mut req);
    assert_eq!(req.headers.get("x-custom-unknown").unwrap(), "value");
}

#[test]
fn test_end_to_end_headers_preserved() {
    let mut req = request(
        "GET",
        &[("cache-control", "no-cache"), ("authorization", "Bearer token")],
    );
    forwarded(&Rfc9110Config::default(), &mut req);
    assert_eq!(req.headers.get("cache-control").unwrap(), "no-cache");
    assert_eq!(req.headers.get("authorization").unwrap(), "Bearer token");
}

#[test]
fn test_connection_header_case_insensitive() {
    let mut req = request(
        "GET",
        &[("CONNECTION", "Close, X-Custom-Header"), ("X-CUSTOM-HEADER", "value")],
    );
    let response = response_to(&Rfc9110Config::default(), &mut req, 502);
    assert!(!response.contains_key("connection"));
    assert!(!response.contains_key("x-custom-header"));
}

#[test]
fn test_via_header_protocol_version_detection() {
    for (version, expected) in [
        (HttpVersion::Http10, "1.0 proxy"),
        (HttpVersion::Http11, "1.1 proxy"),
        (HttpVersion::Http2, "2.0 proxy"),
        (HttpVersion::Http09, "0.9 proxy"),
        (HttpVersion::Http3, "3.0 proxy"),
        (HttpVersion::Other, "1.1 proxy"),
    ] {
        let mut req = request("GET", &[]);
        req.version = version;
        let response = response_to(&Rfc9110Config::default(), &mut req, 502);
        assert_eq!(response.get("via").unwrap(), expected);
    }
}

#[test]
fn test_via_header_multiple_protocols() {
    let mut req = request(
        "GET",
        &[("via", "1.0 old-proxy, 1.1 modern-proxy, 2.0 new-proxy")],
    );
    let response = response_to(&with_pseudonym("test-proxy"), &mut req, 502);
    // Should not combine headers with different protocol versions
    assert_eq!(
        response.get("via").unwrap(),
        "1.0 old-proxy, 1.1 modern-proxy, 2.0 new-proxy, 1.1 test-proxy"
    );
}

#[test]
fn test_via_header_with_comments() {
    let mut req = request(
        "GET",
        &[("via", "1.1 proxy1 (Proxy Software 1.0), 1.1 proxy2 (Gateway)")],
    );
    let response = response_to(&Rfc9110Config::default(), &mut req, 502);
    // Comments should be preserved
    assert!(response.get("via").unwrap().to_str().unwrap().contains("("));
    assert_eq!(
        response.get("via").unwrap(),
        "1.1 proxy1 (Proxy Software 1.0), 1.1 proxy2 (Gateway), 1.1 proxy"
    );
}

#[test]
fn test_via_header_with_ports() {
    let response =
        response_to(&with_pseudonym("test-proxy:8080"), &mut request("GET", &[]), 502);
    assert_eq!(response.get("via").unwrap(), "1.1 test-proxy:8080");
}

#[test]
fn test_max_forwards_zero_trace_response() {
    let mut req = request(
        "TRACE",
        &[
            ("max-forwards", "0"),
            ("authorization", "Basic c2VjcmV0"),
            ("proxy-authorization", "x"),
            ("cookie", "a=b"),
            ("set-cookie", "c=d"),
            ("x-kept", "1"),
        ],
    );
    let answer = answered(&Rfc9110Config::default(), &mut req);
    assert_eq!(answer.status(), 200);
    match answer {
        LayerAnswer::TraceEcho { headers } => {
            assert_eq!(headers.get("max-forwards").unwrap(), "0");
            assert_eq!(headers.get("x-kept").unwrap(), "1");
            assert_eq!(headers.keys_len(), 2);
        }
        _ => panic!("not echoed"),
    }
}

#[test]
fn test_max_forwards_zero_options_response() {
    let mut req = request("OPTIONS", &[("max-forwards", "0")]);
    let answer = answered(&Rfc9110Config::default(), &mut req);
    assert_eq!(answer.status(), 200);
    match answer {
        LayerAnswer::Options { allow } => assert_eq!(allow, "GET, HEAD, OPTIONS, TRACE"),
        _ => panic!("not answered as OPTIONS"),
    }
}

#[test]
fn test_loop_detection_with_aliases() {
    let config = Rfc9110Config {
        server_names: Some(vec![
            "example.com".to_string(),
            "www.example.com".to_string(),
            "example.net".to_string(),
        ]),
        ..Default::default()
    };
    let mut req = request("GET", &[]);
    req.host = Some("example.net".to_string());
    let answer = answered(&config, &mut req);
    assert!(matches!(answer, LayerAnswer::LoopDetected));
    assert_eq!(answer.status(), 508);
    assert!(detect_loop(Some("example.net"), &HeaderMap::new(), &config));
    assert!(!detect_loop(Some("example.org"), &HeaderMap::new(), &config));
    assert!(!detect_loop(None, &HeaderMap::new(), &config));
}

#[test]
fn test_loop_detection_with_ip() {
    let config = Rfc9110Config {
        server_names: Some(vec!["127.0.0.1".to_string(), "localhost".to_string()]),
        ..Default::default()
    };
    let mut req = request("GET", &[]);
    req.host = Some("127.0.0.1".to_string());
    assert_eq!(answered(&config, &mut req).status(), 508);
    assert!(detect_loop(Some("127.0.0.1"), &HeaderMap::new(), &config));
}

#[test]
fn test_connection_header_with_end_to_end_field() {
    let mut req = request(
        "GET",
        &[("connection", "Cache-Control"), ("cache-control", "no-cache")],
    );
    forwarded(&Rfc9110Config::default(), &mut req);
    assert!(req.headers.contains_key("cache-control"));
    assert!(!req.headers.contains_key("connection"));
}

#[test]
fn test_via_header_firewall_mode() {
    let mut req = request("GET", &[("via", "1.1 internal-proxy.local")]);
    let response = response_to(&with_pseudonym("firewall"), &mut req, 502);
    // Internal proxy name should be replaced with pseudonym
    assert_eq!(response.get("via").unwrap(), "1.1 firewall");
}

#[test]
fn entries_are_appended_where_they_are_not_combined() {
    let config = Rfc9110Config { combine_via: false, ..with_pseudonym("me") };
    let mut req = request("GET", &[("via", "1.1 a,1.1 b")]);
    let response = response_to(&config, &mut req, 200);
    assert_eq!(response.get("via").unwrap(), "1.1 a, 1.1 b, 1.1 me");
}

#[test]
fn test_via_header_combining_same_protocol() {
    let mut req = request(
        "GET",
        &[("via", "1.1 proxy1 (comment1), 1.1 proxy2 (comment2), 1.1 proxy3")],
    );
    let response = response_to(&with_pseudonym("merged-proxy"), &mut req, 502);
    assert_eq!(response.get("via").unwrap(), "1.1 merged-proxy");
}

#[test]
fn test_unknown_protocol_elements() {
    let mut req = request("CUSTOM_METHOD", &[("x-custom-protocol", "value")]);
    forwarded(&Rfc9110Config::default(), &mut req);
    assert!(req.headers.contains_key("x-custom-protocol"));
}

#[test]
fn test_connection_specific_field_without_connection_header() {
    let mut req = request("GET", &[("proxy-connection", "keep-alive")]);
    let response = response_to(&Rfc9110Config::default(), &mut req, 502);
    assert!(!response.contains_key("proxy-connection"));
    assert!(!req.headers.contains_key("proxy-connection"));
}

#[test]
fn via_loops_are_detected_by_pseudonym() {
    let via = headers(&[("via", "1.1 a, 1.1 me (x)")]);
    assert!(detect_loop(None, &via, &with_pseudonym("me")));
    assert!(!detect_loop(None, &via, &with_pseudonym("x")));
    assert!(detect_loop(None, &headers(&[("via", "1.1 proxy")]), &Rfc9110Config::default()));
    // A request that was handed on is recognised when it comes back.
    let config = with_pseudonym("me");
    let mut req = request("GET", &[("via", "1.0 a, 1.1 b")]);
    forwarded(&config, &mut req);
    assert!(detect_loop(None, &req.headers, &config));
}

#[test]
fn invalid_max_forwards_pass() {
    for value in ["x", "-1", "4294967296", ""] {
        let mut map = headers(&[("max-forwards", value)]);
        assert!(process_max_forwards("TRACE", &mut map).is_none());
        assert_eq!(map.get("max-forwards").unwrap(), value);
    }
    let mut map = headers(&[("max-forwards", "4294967295")]);
    assert!(process_max_forwards("OPTIONS", &mut map).is_none());
    assert_eq!(map.get("max-forwards").unwrap(), "4294967294");
    let mut map = headers(&[("max-forwards", "+007")]);
    assert!(process_max_forwards("TRACE", &mut map).is_none());
    assert_eq!(map.get("max-forwards").unwrap(), "6");
}

#[test]
fn upgrade_headers_survive_where_they_are_preserved() {
    let ws = [
        ("connection", "Upgrade, x-hop"),
        ("upgrade", "websocket"),
        ("x-hop", "1"),
        ("sec-websocket-key", "k"),
        ("sec-websocket-version", "13"),
    ];
    let mut req = request("GET", &ws);
    let pending = forwarded(&Rfc9110Config::default(), &mut req);
    assert!(pending.is_websocket);
    assert!(req.headers.contains_key("connection"));
    assert!(req.headers.contains_key("upgrade"));
    assert!(!req.headers.contains_key("x-hop"));
    let mut response = headers(&[("connection", "Upgrade"), ("upgrade", "websocket")]);
    process_response_headers(&mut response, 101, &pending);
    assert!(response.contains_key("upgrade"));
    let mut response = headers(&[("connection", "Upgrade"), ("upgrade", "websocket")]);
    process_response_headers(&mut response, 200, &pending);
    assert!(!response.contains_key("upgrade"));

    let config = Rfc9110Config { preserve_websocket_headers: false, ..Default::default() };
    let mut req = request("GET", &ws);
    forwarded(&config, &mut req);
    assert!(!req.headers.contains_key("upgrade"));
}

#[test]
fn end_to_end_headers_come_back_with_their_last_line() {
    let mut req = request("GET", &[("x-a", "1"), ("x-a", "2"), ("accept", "*/*")]);
    let pending = forwarded(&Rfc9110Config::default(), &mut req);
    let mut response = headers(&[("x-a", "upstream"), ("x-b", "b"), ("via", "1.1 up")]);
    process_response_headers(&mut response, 200, &pending);
    let lines: Vec<&HeaderValue> = response.get_all("x-a").iter().collect();
    assert_eq!(lines, vec!["2"]);
    assert_eq!(response.get("x-b").unwrap(), "b");
    assert_eq!(response.get("accept").unwrap(), "*/*");
    assert_eq!(response.get("via").unwrap(), "1.1 proxy");
}

#[test]
fn what_comes_back_is_a_copy_of_what_was_sent() {
    let odd = "x-a-name-of-more-than-sixty-four-bytes with-a-space-in-it-that-no-peer-could-send";
    let mut req = request("GET", &[]);
    req.host = Some("example.org".to_string());
    req.headers.append(odd, HeaderValue::from_static("1"));
    req.headers.append(odd, HeaderValue::from_static("2"));
    let mut max_forwards = HeaderValue::from_static("7");
    max_forwards.set_sensitive(true);
    req.headers.append("max-forwards", max_forwards);
    req.headers.append("max-forwards", HeaderValue::from_static("8"));
    req.headers.append("connection", HeaderValue::from_static("max-forwards"));
    let name = req.headers.keys().next().unwrap().clone();
    let pending = forwarded(&Rfc9110Config::default(), &mut req);
    assert_eq!(req.method, "GET");
    assert_eq!(req.host.as_deref(), Some("example.org"));
    assert_eq!(req.version, HttpVersion::Http11);
    assert_eq!(req.headers.get_all(&name).iter().count(), 2);
    assert!(!req.headers.contains_key("max-forwards"));
    let mut response = HeaderMap::new();
    response.append(odd, HeaderValue::from_static("upstream"));
    process_response_headers(&mut response, 200, &pending);
    let lines: Vec<&HeaderValue> = response.get_all(&name).iter().collect();
    assert_eq!(lines, vec!["2"]);
    let lines: Vec<&HeaderValue> = response.get_all("max-forwards").iter().collect();
    assert_eq!(lines, vec!["7"]);
    assert!(lines[0].is_sensitive());
}

#[test]
fn via_entries_read_back() {
    for text in ["1.1 p", " 1.0\tp:80  x", "HTTP/2 : (a (b) c) d)e", "1.1 p) (c)", "1.1 p( x"] {
        let entry = ViaEntry::parse(text).unwrap();
        let again = ViaEntry::parse(&entry.text()).unwrap();
        assert_eq!(again.protocol, entry.protocol);
        assert_eq!(again.pseudonym, entry.pseudonym);
        assert_eq!(again.port, entry.port);
        assert_eq!(again.comment, entry.comment);
    }
}

#[test]
fn only_the_first_connection_line_counts() {
    let mut map = headers(&[
        ("connection", "x-one"),
        ("connection", "x-two"),
        ("x-one", "1"),
        ("x-two", "2"),
    ]);
    process_connection_header(&mut map, false);
    assert!(!map.contains_key("x-one"));
    assert!(map.contains_key("x-two"));
}

#[test]
fn headers_are_classified() {
    assert!(is_hop_by_hop_header("via"));
    assert!(is_hop_by_hop_header("te"));
    assert!(!is_hop_by_hop_header("etag"));
    assert!(is_end_to_end_header("etag"));
    assert!(is_end_to_end_header("set-cookie"));
    assert!(!is_end_to_end_header("x-custom"));
}

#[test]
fn pseudonyms_that_make_no_header_are_left_out() {
    let mut map = headers(&[("via", "1.0 a")]);
    let via = add_via_header(&mut map, HttpVersion::Http11, &with_pseudonym("a\nb"));
    assert!(via.is_none());
    assert_eq!(map.get("via").unwrap(), "1.0 a");
}

#[test]
fn via_entries_parse_and_print() {
    let entry = ViaEntry::parse("1.1 proxy1:8080 (Proxy Software 1.0)").unwrap();
    assert_eq!(entry.protocol, "1.1");
    assert_eq!(entry.pseudonym, "proxy1");
    assert_eq!(entry.port.as_deref(), Some("8080"));
    assert_eq!(entry.comment.as_deref(), Some("(Proxy Software 1.0)"));
    assert_eq!(entry.text(), "1.1 proxy1:8080 (Proxy Software 1.0)");
    assert!(ViaEntry::parse("1.1").is_none());
    // Without two words there is no entry, whatever its parentheses.
    assert!(ViaEntry::parse(")(").is_none());
    assert!(parse_via_header(")(, ,x)y(").is_empty());
    let entries = parse_via_header("1.0 fred , bad, HTTP/1.1 p.example.net");
    assert_eq!(entries.len(), 2);
    assert_eq!(entries[1].text(), "HTTP/1.1 p.example.net");
    assert_eq!(entries[0].comment, None);
}

#[test]
fn layers_wrap_services() {
    let layer = Rfc9110Layer::with_config(with_pseudonym("me")).clone();
    let service = layer.layer("inner");
    assert_eq!(*service.inner(), "inner");
    let mut req = request("GET", &[]);
    match service.on_request(&mut req) {
        LayerStep::Forward(_) => assert_eq!(req.headers.get("via").unwrap(), "1.1 me"),
        LayerStep::Answer(_) => panic!("answered"),
    }
    let service = Rfc9110Layer::new().layer(());
    let mut req = request("GET", &[]);
    match service.on_request(&mut req) {
        LayerStep::Forward(_) => assert_eq!(req.headers.get("via").unwrap(), "1.1 proxy"),
        LayerStep::Answer(_) => panic!("answered"),
    }
    let _ = Rfc9110Layer::default();
}
