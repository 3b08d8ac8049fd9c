use axum_reverse_proxy::forward::{
    build_forward_headers, conclude, error_chain, forward_request, hop_by_hop_headers,
    strip_hop_by_hop_response_headers, BodyCap, ForwardStep, OutgoingRequest, Outcome,
    UpstreamEvent,
};
use axum_reverse_proxy::headers::{room_for, room_for_all};
use axum_reverse_proxy::message::{Answer, HttpVersion, RequestHead};
use axum_reverse_proxy::uri::UriParts;
use axum_reverse_proxy::{HostBehaviour, ProxyPolicy, ReverseProxy, XForwardedFor};
use http::{HeaderMap, HeaderName, HeaderValue};
use std::time::Duration;

fn headers(pairs: &[(&str, &str)]) -> HeaderMap {
    let mut map = HeaderMap::new();
    for (k, v) in pairs {
        map.append(
            HeaderName::try_from(*k).unwrap(),
            HeaderValue::from_str(v).unwrap(),
        );
    }
    map
}

fn request(method: &str, pairs: &[(&str, &str)], client: Option<&str>) -> RequestHead {
    RequestHead {
        method: method.to_string(),
        scheme: None,
        authority: None,
        path_and_query: "/test".to_string(),
        version: HttpVersion::Http11,
        headers: headers(pairs),
        client_address: client.map(|c| c.to_string()),
    }
}

fn upstream() -> UriParts {
    UriParts::parse("http://127.0.0.1:4000/test").unwrap()
}

fn sent(req: &RequestHead, policy: &ProxyPolicy) -> OutgoingRequest {
    match forward_request(upstream(), req, policy) {
        ForwardStep::Send(out) => out,
        _ => panic!("not forwarded"),
    }
}

fn answered(req: &RequestHead, policy: &ProxyPolicy) -> Answer {
    match forward_request(upstream(), req, policy) {
        ForwardStep::Answer(answer) => answer,
        _ => panic!("not answered"),
    }
}

#[test]
fn strips_standard_and_nominated_hop_by_hop_headers() {
    let client_headers = headers(&[
        ("connection", "close, x-internal"),
        ("keep-alive", "timeout=5"),
        ("x-internal", "secret"),
        ("x-app", "value"),
    ]);
    let forwarded = build_forward_headers(&client_headers, None, &ProxyPolicy::default());
    assert!(!forwarded.contains_key("connection"));
    assert!(!forwarded.contains_key("keep-alive"));
    assert!(!forwarded.contains_key("x-internal"));
    assert_eq!(forwarded.get("x-app").unwrap(), "value");
}

#[test]
fn preserves_te_trailers_for_grpc() {
    let client_headers = headers(&[("te", "trailers"), ("content-type", "application/grpc")]);
    let forwarded = build_forward_headers(&client_headers, None, &ProxyPolicy::default());
    assert_eq!(forwarded.get("te").unwrap(), "trailers");

    let client_headers = headers(&[("te", "gzip")]);
    let forwarded = build_forward_headers(&client_headers, None, &ProxyPolicy::default());
    assert!(!forwarded.contains_key("te"));
}

#[test]
fn te_trailers_in_any_case_but_not_when_nominated() {
    let forwarded = build_forward_headers(
        &headers(&[("te", " Trailers ")]),
        None,
        &ProxyPolicy::default(),
    );
    assert!(forwarded.contains_key("te"));
    let forwarded = build_forward_headers(
        &headers(&[("te", "trailers"), ("connection", "TE")]),
        None,
        &ProxyPolicy::default(),
    );
    assert!(!forwarded.contains_key("te"));
}

#[test]
fn appends_client_ip_to_x_forwarded_for() {
    let client_headers = headers(&[("x-forwarded-for", "10.0.0.1"), ("host", "example.com")]);
    let forwarded =
        build_forward_headers(&client_headers, Some("192.168.1.5"), &ProxyPolicy::default());
    assert_eq!(
        forwarded.get("x-forwarded-for").unwrap(),
        "10.0.0.1, 192.168.1.5"
    );
    assert_eq!(forwarded.get("x-forwarded-host").unwrap(), "example.com");
}

#[test]
fn x_forwarded_for_preserve_mode_leaves_headers_untouched() {
    let client_headers = headers(&[("x-forwarded-for", "10.0.0.1")]);
    let policy = ProxyPolicy::new().with_x_forwarded_for(XForwardedFor::Preserve);
    let forwarded = build_forward_headers(&client_headers, Some("192.168.1.5"), &policy);
    assert_eq!(forwarded.get("x-forwarded-for").unwrap(), "10.0.0.1");
    assert!(!forwarded.contains_key("x-forwarded-host"));
}

#[test]
fn host_dropped_unless_preserved() {
    let client_headers = headers(&[("host", "client.example.com")]);
    let forwarded = build_forward_headers(&client_headers, None, &ProxyPolicy::default());
    assert!(!forwarded.contains_key("host"));

    let policy = ProxyPolicy::new().with_host_behaviour(HostBehaviour::Preserve);
    let forwarded = build_forward_headers(&client_headers, None, &policy);
    assert_eq!(forwarded.get("host").unwrap(), "client.example.com");
}

#[test]
fn repeated_lines_keep_their_order_and_unreadable_lines_pass() {
    let mut client_headers = headers(&[("x-multi", "a"), ("x-other", "o"), ("x-multi", "b")]);
    client_headers.append("x-bytes", HeaderValue::from_bytes(b"\xff\xfe").unwrap());
    let forwarded = build_forward_headers(&client_headers, None, &ProxyPolicy::default());
    let lines: Vec<&HeaderValue> = forwarded.get_all("x-multi").iter().collect();
    assert_eq!(lines, vec!["a", "b"]);
    assert_eq!(forwarded.get("x-bytes").unwrap().as_bytes(), b"\xff\xfe");
}

#[test]
fn sensitive_values_stay_sensitive() {
    let mut client_headers = HeaderMap::new();
    let mut value = HeaderValue::from_static("Bearer token");
    value.set_sensitive(true);
    client_headers.insert("authorization", value);
    let forwarded = build_forward_headers(&client_headers, None, &ProxyPolicy::default());
    assert!(forwarded.get("authorization").unwrap().is_sensitive());

    let mut host = HeaderValue::from_static("example.com");
    host.set_sensitive(true);
    client_headers.insert("host", host);
    let policy = ProxyPolicy::default();
    let forwarded = build_forward_headers(&client_headers, Some("192.0.2.1"), &policy);
    let host = forwarded.get("x-forwarded-host").unwrap();
    assert_eq!(host, "example.com");
    assert!(host.is_sensitive());
}

#[test]
fn names_and_values_that_no_text_writes_are_copied() {
    // A header map takes a long static name as it is, and holds it with a NUL in it.
    let odd = "x-a-name-of-more-than-sixty-four-bytes with-a-space-in-it-that-no-peer-could-send";
    let mut client_headers = HeaderMap::new();
    client_headers.append(odd, HeaderValue::from_static("1"));
    client_headers.append(odd, HeaderValue::from_static("2"));
    client_headers.append("x-plain", HeaderValue::from_static("p"));
    let name = client_headers.keys().next().unwrap().clone();
    assert!(name.as_str().contains('\0'));
    client_headers.insert("host", HeaderValue::from(name.clone()));
    let policy = ProxyPolicy::default();
    let forwarded = build_forward_headers(&client_headers, Some("192.0.2.1"), &policy);
    let lines: Vec<&HeaderValue> = forwarded.get_all(&name).iter().collect();
    assert_eq!(lines, vec!["1", "2"]);
    assert_eq!(forwarded.get("x-plain").unwrap(), "p");
    assert_eq!(
        forwarded.get("x-forwarded-host").unwrap().as_bytes(),
        name.as_str().as_bytes()
    );
    let names: Vec<&str> = forwarded.keys().map(|k| k.as_str()).collect();
    assert_eq!(names, vec![name.as_str(), "x-plain", "x-forwarded-for", "x-forwarded-host"]);
}

#[test]
fn names_in_the_strip_list_are_those_nominated_on_every_line() {
    let names = hop_by_hop_headers(&headers(&[
        ("connection", "X-One,, b@d ,x-two"),
        ("connection", "x-three, Upgrade"),
    ]));
    for name in [
        "connection",
        "keep-alive",
        "proxy-connection",
        "transfer-encoding",
        "te",
        "trailer",
        "upgrade",
        "x-one",
        "x-two",
        "x-three",
    ] {
        assert!(names.iter().any(|n| n == name), "{name}");
    }
    assert_eq!(names.len(), 10);
}

#[test]
fn response_headers_are_stripped() {
    let mut response = headers(&[
        ("connection", "x-hop"),
        ("x-hop", "1"),
        ("upgrade", "h2c"),
        ("set-cookie", "a"),
        ("set-cookie", "b"),
    ]);
    strip_hop_by_hop_response_headers(&mut response);
    assert_eq!(response.keys_len(), 1);
    assert_eq!(response.get_all("set-cookie").iter().count(), 2);
}

#[test]
fn test_hop_by_hop_headers_stripped_by_default() {
    let req = request(
        "GET",
        &[
            ("connection", "keep-alive, x-hop"),
            ("x-hop", "should-not-forward"),
            ("keep-alive", "timeout=5"),
            ("proxy-connection", "keep-alive"),
            ("x-end-to-end", "kept"),
        ],
        None,
    );
    let out = sent(&req, &ProxyPolicy::default());
    assert!(!out.headers.contains_key("x-hop"));
    assert!(!out.headers.contains_key("keep-alive"));
    assert!(!out.headers.contains_key("proxy-connection"));
    assert_eq!(out.headers.get("x-end-to-end").unwrap(), "kept");
}

#[test]
fn test_x_forwarded_for_appended_with_connect_info() {
    let req = request(
        "GET",
        &[("x-forwarded-for", "203.0.113.7"), ("host", "127.0.0.1:3000")],
        Some("127.0.0.1"),
    );
    let out = sent(&req, &ProxyPolicy::default());
    assert_eq!(
        out.headers.get("x-forwarded-for").unwrap(),
        "203.0.113.7, 127.0.0.1"
    );
    assert_eq!(out.headers.get("x-forwarded-host").unwrap(), "127.0.0.1:3000");
}

#[test]
fn test_proxy_header_handling() {
    let mut req = request("GET", &[], None);
    for i in 0..10 {
        req.headers.insert(
            HeaderName::from_bytes(format!("x-test-{i}").as_bytes()).unwrap(),
            HeaderValue::from_str(&format!("value-{i}")).unwrap(),
        );
    }
    let out = sent(&req, &ProxyPolicy::default());
    for (key, value) in req.headers.iter() {
        assert_eq!(out.headers.get(key).unwrap(), value);
    }
}

#[test]
fn test_proxy_special_headers() {
    let req = request(
        "GET",
        &[
            ("x-forwarded-for", "192.168.1.1"),
            ("x-real-ip", "192.168.1.1"),
            ("x-request-id", "test-request-1"),
            ("accept-encoding", "gzip, deflate"),
        ],
        None,
    );
    let out = sent(&req, &ProxyPolicy::default());
    assert_eq!(out.headers.get("x-forwarded-for").unwrap(), "192.168.1.1");
    assert_eq!(out.headers.get("x-real-ip").unwrap(), "192.168.1.1");
    assert_eq!(out.headers.get("x-request-id").unwrap(), "test-request-1");
    assert!(out.headers.contains_key("accept-encoding"));
}

#[test]
fn host_header_with_default_policy_replaces_host_with_upstream_authority() {
    let req = request("GET", &[("host", "client.example.com")], None);
    let out = sent(&req, &ProxyPolicy::default());
    // Without a Host the client takes it from the URI.
    assert!(!out.headers.contains_key("host"));
    assert_eq!(out.uri.authority.as_deref(), Some("127.0.0.1:4000"));
}

#[test]
fn host_header_with_preserve_policy_forwards_client_host() {
    let req = request("GET", &[("host", "client.example.com")], None);
    let policy = ProxyPolicy::new().with_host_behaviour(HostBehaviour::Preserve);
    let out = sent(&req, &policy);
    assert_eq!(out.headers.get("host").unwrap(), "client.example.com");
}

#[test]
fn via_appended_to_forwarded_request() {
    let policy = ProxyPolicy::new().with_via("my-proxy");
    let out = sent(&request("GET", &[], None), &policy);
    assert_eq!(out.headers.get("via").unwrap(), "1.1 my-proxy");

    let out = sent(&request("GET", &[("via", "1.0 earlier-proxy")], None), &policy);
    assert_eq!(
        out.headers.get("via").unwrap(),
        "1.0 earlier-proxy, 1.1 my-proxy"
    );
}

#[test]
fn via_appended_to_response() {
    let policy = ProxyPolicy::new().with_via("my-proxy");
    let event = UpstreamEvent::Responded {
        status: 200,
        version: HttpVersion::Http11,
        headers: HeaderMap::new(),
    };
    match conclude(event, &policy) {
        Outcome::Relay { status, headers, .. } => {
            assert_eq!(status, 200);
            assert_eq!(headers.get("via").unwrap(), "1.1 my-proxy");
        }
        Outcome::Answer(_) => panic!("not relayed"),
    }
}

#[test]
fn own_pseudonym_in_via_chain_returns_508() {
    let policy = ProxyPolicy::new().with_via("my-proxy");
    let req = request("GET", &[("via", "1.1 other-proxy, 1.1 my-proxy")], None);
    let answer = answered(&req, &policy);
    assert_eq!(answer.status, 508);
    assert!(answer.error.is_none());

    // A different pseudonym in the chain is not a loop
    sent(&request("GET", &[("via", "1.1 other-proxy")], None), &policy);
    // A later line counts too
    let req = request("GET", &[("via", "1.1 a"), ("via", "1.0 b,1.1 my-proxy (x)")], None);
    assert_eq!(answered(&req, &policy).status, 508);
}

#[test]
fn no_via_handling_without_pseudonym() {
    let out = sent(
        &request("GET", &[("via", "1.1 some-proxy")], None),
        &ProxyPolicy::default(),
    );
    // Passed through untouched, no element appended
    assert_eq!(out.headers.get("via").unwrap(), "1.1 some-proxy");
}

#[test]
fn forwarded_requests_are_recognised_when_they_come_back() {
    let policy = ProxyPolicy::new().with_via("my-proxy");
    let first = request("GET", &[("via", "1.1 a"), ("via", "2.0 b (c)")], None);
    let out = sent(&first, &policy);
    assert_eq!(
        out.headers.get("via").unwrap(),
        "1.1 a, 2.0 b (c), 1.1 my-proxy"
    );
    let again = RequestHead { headers: out.headers, ..first };
    assert_eq!(answered(&again, &policy).status, 508);
}

#[test]
fn upstream_timeout_returns_504() {
    let policy = ProxyPolicy::new().with_upstream_timeout(Duration::from_millis(200));
    let out = sent(&request("GET", &[], None), &policy);
    assert_eq!(out.timeout, Some(Duration::from_millis(200)));
    match conclude(UpstreamEvent::TimedOut, &policy) {
        Outcome::Answer(answer) => {
            assert_eq!(answer.status, 504);
            assert_eq!(answer.body, "Gateway Timeout");
            assert!(answer.error.is_none());
        }
        Outcome::Relay { .. } => panic!("relayed"),
    }
}

#[test]
fn declared_oversize_body_rejected_with_413() {
    let policy = ProxyPolicy::new().with_max_request_body_bytes(1024);
    let answer = answered(&request("POST", &[("content-length", "4096")], None), &policy);
    assert_eq!(answer.status, 413);

    // Under the cap passes through
    let out = sent(&request("POST", &[("content-length", "512")], None), &policy);
    assert_eq!(out.body_limit, Some(1024));
    // At the cap too
    sent(&request("POST", &[("content-length", "1024")], None), &policy);
}

#[test]
fn streaming_oversize_body_does_not_reach_upstream_complete() {
    let mut cap = BodyCap::new(1024);
    assert!(!cap.admit_chunk(4096));
    assert!(cap.admit_chunk(1000));
    assert!(cap.admit_chunk(24));
    assert!(!cap.admit_chunk(1));
    assert!(cap.admit_chunk(0));
}

#[test]
fn x_forwarded_proto_and_forwarded_set_with_public_scheme() {
    let policy = ProxyPolicy::new().with_public_scheme("https");
    let req = request("GET", &[("host", "127.0.0.1:3000")], Some("127.0.0.1"));
    let out = sent(&req, &policy);
    assert_eq!(out.headers.get("x-forwarded-proto").unwrap(), "https");
    assert_eq!(out.headers.get("x-forwarded-for").unwrap(), "127.0.0.1");
    assert_eq!(
        out.headers.get("forwarded").unwrap(),
        "for=127.0.0.1;host=\"127.0.0.1:3000\";proto=https"
    );
}

#[test]
fn forwarded_quotes_addresses_and_hosts_and_extends_the_list() {
    let policy = ProxyPolicy::new().with_public_scheme("http");
    let req = request(
        "GET",
        &[
            ("host", "a\"b\\c"),
            ("forwarded", "for=10.0.0.1"),
            ("x-forwarded-proto", "https"),
        ],
        Some("2001:db8::1"),
    );
    let out = sent(&req, &policy);
    assert_eq!(out.headers.get("x-forwarded-proto").unwrap(), "https");
    assert_eq!(
        out.headers.get("forwarded").unwrap(),
        "for=10.0.0.1, for=\"[2001:db8::1]\";host=\"a\\\"b\\\\c\";proto=http"
    );
    let out = sent(&request("GET", &[], Some("10.1.1.1")), &policy);
    assert_eq!(
        out.headers.get("forwarded").unwrap(),
        "for=10.1.1.1;proto=http"
    );
    assert!(!out.headers.contains_key("x-forwarded-host"));
}

#[test]
fn connect_method_is_rejected_with_501() {
    let proxy = ReverseProxy::new("/", "http://127.0.0.1:4000");
    let mut req = request("CONNECT", &[], None);
    req.path_and_query = "/anywhere".to_string();
    match proxy.proxy_request(&req) {
        ForwardStep::Answer(answer) => assert_eq!(answer.status, 501),
        _ => panic!("not answered"),
    }
}

#[test]
fn failures_are_generic_and_carry_the_error() {
    let chain = vec![
        "client error (Connect)".to_string(),
        "tcp connect error".to_string(),
        "Connection refused".to_string(),
    ];
    assert_eq!(
        error_chain(&chain),
        "client error (Connect): tcp connect error: Connection refused"
    );
    let event = UpstreamEvent::Failed { chain, is_connect: true };
    match conclude(event, &ProxyPolicy::default()) {
        Outcome::Answer(answer) => {
            assert_eq!(answer.status, 502);
            assert_eq!(answer.body, "Bad Gateway");
            let error = answer.error.unwrap();
            assert!(error.is_connect());
            assert_eq!(
                error.message(),
                "client error (Connect): tcp connect error: Connection refused"
            );
            assert_eq!(error.clone().message(), error.message());
        }
        Outcome::Relay { .. } => panic!("relayed"),
    }
}

#[test]
fn header_maps_have_room_until_they_are_large() {
    assert!(room_for(&HeaderMap::new(), 6553));
    assert!(!room_for(&HeaderMap::new(), 6554));
    assert!(!room_for(&headers(&[("a", "1"), ("b", "2"), ("a", "3")]), 6552));
    assert!(room_for(&headers(&[("a", "1"), ("b", "2"), ("a", "3")]), 6551));
    assert!(room_for_all(&headers(&[("a", "1")]), &headers(&[("b", "2")]), 6551));
    assert!(!room_for_all(&headers(&[("a", "1")]), &headers(&[("b", "2")]), 6552));
}
