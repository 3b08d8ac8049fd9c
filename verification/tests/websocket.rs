use axum_reverse_proxy::forward::{forward_request, upgrade_failed, ForwardStep};
use axum_reverse_proxy::message::{HttpVersion, RequestHead};
use axum_reverse_proxy::uri::UriParts;
use axum_reverse_proxy::websocket::{
    handle_websocket, holds_token, is_websocket_upgrade, plan_upgrade, upgrade_url,
    websocket_accept, Delivery, Incoming, Relay, Session, Side, UpgradeError, UpgradePlan, UrlHost,
    SWITCHING_PROTOCOLS,
};
use axum_reverse_proxy::{HostBehaviour, ProxyPolicy, ReverseProxy};
use http::{HeaderMap, HeaderName, HeaderValue};
use std::time::Duration;

fn headers(pairs: &[(&str, &str)]) -> HeaderMap {
    let mut map = HeaderMap::new();
    for (k, v) in pairs {
        map.append(
            HeaderName::try_from(*k).unwrap(),
            HeaderValue::from_str(v).unwrap(),
        );
    }
    map
}

fn handshake(connection: &str, host: &str) -> HeaderMap {
    headers(&[
        ("host", host),
        ("connection", connection),
        ("upgrade", "websocket"),
        ("sec-websocket-key", "dGhlIHNhbXBsZSBub25jZQ=="),
        ("sec-websocket-version", "13"),
        ("x-extra", "1"),
    ])
}

fn planned(headers: HeaderMap, upstream: &str, policy: &ProxyPolicy) -> UpgradePlan {
    let req = RequestHead {
        method: "GET".to_string(),
        scheme: None,
        authority: None,
        path_and_query: "/ws".to_string(),
        version: HttpVersion::Http11,
        headers,
        client_address: None,
    };
    match forward_request(UriParts::parse(upstream).unwrap(), &req, policy) {
        ForwardStep::Upgrade(plan) => plan,
        _ => panic!("no upgrade"),
    }
}

fn hosts(plan: &UpgradePlan) -> Vec<&str> {
    plan.headers.get_all("host").iter().map(|v| v.to_str().unwrap()).collect()
}

#[test]
fn test_websocket_upgrade() {
    let plan = planned(
        handshake("Upgrade", "client.example.com"),
        "http://127.0.0.1:4000/ws",
        &ProxyPolicy::default(),
    );
    assert_eq!(plan.url, "ws://127.0.0.1:4000/ws");
    assert_eq!(plan.connect_timeout, Duration::from_secs(5));
    assert_eq!(SWITCHING_PROTOCOLS, 101);
    assert_eq!(plan.response_headers.get("upgrade").unwrap(), "websocket");
    assert_eq!(plan.response_headers.get("connection").unwrap(), "Upgrade");
    assert_eq!(
        plan.response_headers.get("sec-websocket-accept").unwrap(),
        "s3pPLMBiTxaQ9kYGzzhZRbK+xOo="
    );
    assert_eq!(plan.response_headers.len(), 3);
    assert_eq!(plan.headers.get("x-extra").unwrap(), "1");
    assert_eq!(plan.headers.len(), 6);
}

#[test]
fn names_that_no_text_writes_are_asked_of_the_upstream_too() {
    let mut map = handshake("Upgrade", "c");
    map.insert(
        "x-a-name-of-more-than-sixty-four-bytes with-a-space-in-it-that-no-peer-could-send",
        HeaderValue::from_static("1"),
    );
    let name = map.keys().find(|k| k.as_str().contains('\0')).unwrap().clone();
    let plan = planned(map, "http://127.0.0.1:4000/ws", &ProxyPolicy::default());
    assert_eq!(plan.headers.get(&name).unwrap(), "1");
}

#[test]
fn accept_keys_follow_the_key() {
    assert_eq!(
        websocket_accept("dGhlIHNhbXBsZSBub25jZQ=="),
        "s3pPLMBiTxaQ9kYGzzhZRbK+xOo="
    );
    assert_eq!(
        websocket_accept("x3JJHMbDL1EzLkh9GBhXDw=="),
        "HSmrc0sMlYUkAGmm5OPpG2HaGWk="
    );
}

#[test]
fn test_websocket_path_query_join_parity() {
    let proxy = ReverseProxy::new("/base", "http://127.0.0.1:4000/api");
    for (path_and_query, url) in [
        ("/ws?foo=bar", "ws://127.0.0.1:4000/api/ws?foo=bar"),
        ("/base/ws?x=y", "ws://127.0.0.1:4000/api/ws?x=y"),
    ] {
        let req = RequestHead {
            method: "GET".to_string(),
            scheme: None,
            authority: None,
            path_and_query: path_and_query.to_string(),
            version: HttpVersion::Http11,
            headers: handshake("Upgrade", "c"),
            client_address: None,
        };
        match proxy.proxy_request(&req) {
            ForwardStep::Upgrade(plan) => assert_eq!(plan.url, url),
            _ => panic!("no upgrade"),
        }
    }
}

#[test]
fn test_websocket_close() {
    let mut relay = Relay::Receiving;
    relay.on_incoming(Incoming::Frame);
    assert_eq!(relay, Relay::Delivering { last: false });
    relay.on_delivery(Delivery::InTime);
    assert_eq!(relay, Relay::Receiving);
    relay.on_incoming(Incoming::Close);
    assert_eq!(relay, Relay::Delivering { last: true });
    relay.on_delivery(Delivery::InTime);
    assert_eq!(relay, Relay::Finished);
}

#[test]
fn relays_end_on_errors_ends_and_timeouts() {
    let mut relay = Relay::Receiving;
    relay.on_incoming(Incoming::Failed);
    assert_eq!(relay, Relay::Finished);
    let mut relay = Relay::Receiving;
    relay.on_incoming(Incoming::Ended);
    assert_eq!(relay, Relay::Finished);
    let mut relay = Relay::Delivering { last: false };
    relay.on_delivery(Delivery::TimedOut);
    assert_eq!(relay, Relay::Finished);
}

#[test]
fn sessions_end_for_both_sides() {
    let mut session = Session::new();
    assert!(session.on_incoming(Side::Client, Incoming::Frame));
    // The other direction goes on meanwhile.
    assert!(session.on_incoming(Side::Upstream, Incoming::Frame));
    session.on_delivery(Side::Upstream, Delivery::InTime);
    session.on_delivery(Side::Client, Delivery::InTime);
    assert!(!session.is_over());
    assert!(session.on_incoming(Side::Upstream, Incoming::Close));
    assert!(!session.is_over());
    session.on_delivery(Side::Upstream, Delivery::InTime);
    assert!(session.is_over());
    assert!(!session.on_incoming(Side::Client, Incoming::Frame));
    assert_eq!(session.from_client, Relay::Receiving);

    let mut session = Session::new();
    assert!(!session.on_incoming(Side::Client, Incoming::Ended));
    assert!(session.is_over());
}

#[test]
fn test_websocket_with_complex_connection_header() {
    assert!(is_websocket_upgrade(&handshake("keep-alive, Upgrade", "h")));
    assert!(holds_token("keep-alive, Upgrade", "upgrade"));
    assert!(!holds_token("keep-alive, Upgraded", "upgrade"));
}

#[test]
fn incomplete_handshakes_are_no_upgrades() {
    for missing in ["connection", "upgrade", "sec-websocket-key", "sec-websocket-version"] {
        let mut map = handshake("Upgrade", "h");
        map.remove(missing);
        assert!(!is_websocket_upgrade(&map), "{missing}");
    }
    let mut map = handshake("Upgrade", "h");
    map.insert("upgrade", HeaderValue::from_static("WebSocket"));
    assert!(is_websocket_upgrade(&map));
    map.insert("upgrade", HeaderValue::from_static("h2c"));
    assert!(!is_websocket_upgrade(&map));
    assert!(!is_websocket_upgrade(&handshake("keep-alive", "h")));
}

#[test]
fn test_websocket_with_https_returns_error() {
    let plan = planned(
        handshake("Upgrade", "h"),
        "https://127.0.0.1:4000/ws",
        &ProxyPolicy::default(),
    );
    assert_eq!(plan.url, "wss://127.0.0.1:4000/ws");
    // Where the connection fails, the client is answered with an error.
    let answer = upgrade_failed("TLS support not compiled in");
    assert_eq!(answer.status, 502);
    assert_eq!(answer.body, "WebSocket upgrade failed");
    let error = answer.error.unwrap();
    assert_eq!(error.message(), "TLS support not compiled in");
    assert!(!error.is_connect());
}

#[test]
fn test_websocket_with_explicit_ws() {
    let uri = UriParts::parse("ws://127.0.0.1:4000/ws").unwrap();
    assert_eq!(upgrade_url(&uri), "ws://127.0.0.1:4000/ws");
    let uri = UriParts { scheme: None, ..uri };
    assert_eq!(upgrade_url(&uri), "ws://127.0.0.1:4000/ws");
}

#[test]
fn test_websocket_with_trailing_slash() {
    let proxy = ReverseProxy::new("/", "http://127.0.0.1:4000");
    assert_eq!(
        upgrade_url(&proxy.transform_uri("/ws/")),
        "ws://127.0.0.1:4000/ws/"
    );
}

#[test]
fn websocket_host_header_with_default_policy_replaces_host_with_upstream_authority() {
    let plan = planned(
        handshake("Upgrade", "client.example.com"),
        "http://127.0.0.1:4000/ws",
        &ProxyPolicy::default(),
    );
    assert_eq!(hosts(&plan), vec!["127.0.0.1:4000"]);
}

#[test]
fn websocket_host_header_with_preserve_policy_forwards_single_client_host() {
    let policy = ProxyPolicy::new().with_host_behaviour(HostBehaviour::Preserve);
    let plan = planned(
        handshake("Upgrade", "client.example.com"),
        "http://127.0.0.1:4000/ws",
        &policy,
    );
    assert_eq!(hosts(&plan), vec!["client.example.com"]);
}

#[test]
fn default_ports_are_left_out_of_the_host() {
    for (upstream, host) in [
        ("http://example.com/ws", "example.com"),
        ("http://example.com:80/ws", "example.com"),
        ("https://example.com:443/ws", "example.com"),
        ("https://example.com:80/ws", "example.com"),
        ("http://example.com:443/ws", "example.com:443"),
        ("http://[::1]:9000/ws", "[::1]:9000"),
    ] {
        let plan = planned(handshake("Upgrade", "c"), upstream, &ProxyPolicy::default());
        assert_eq!(hosts(&plan), vec![host], "{upstream}");
    }
}

#[test]
fn upgrades_that_cannot_be_asked_for_are_refused() {
    let policy = ProxyPolicy::default();
    let mut map = handshake("Upgrade", "c");
    map.insert("sec-websocket-key", HeaderValue::from_bytes(b"\xff").unwrap());
    let upstream = UriParts::parse("http://127.0.0.1:4000/ws").unwrap();
    assert_eq!(
        handle_websocket(&map, None, &upstream, &policy).err(),
        Some(UpgradeError::MissingKey)
    );
    let map = handshake("Upgrade", "c");
    let bad = UriParts { authority: Some("a b".to_string()), ..upstream.clone() };
    let why = handle_websocket(&map, None, &bad, &policy).err().unwrap();
    assert_eq!(why.message(), url::Url::parse("ws://a b/ws").unwrap_err().to_string());
    assert!(matches!(why, UpgradeError::InvalidUrl { .. }));
    let far = UriParts::parse("http://example.com:70000/ws").unwrap();
    assert_eq!(
        handle_websocket(&map, None, &far, &policy).err(),
        Some(UpgradeError::InvalidUrl { message: "invalid port number".to_string() })
    );
    let url = "ws://x/".to_string();
    assert_eq!(
        plan_upgrade(&map, None, url.clone(), Err("wrong".to_string()), &policy).err(),
        Some(UpgradeError::InvalidUrl { message: "wrong".to_string() })
    );
    let no_host = UrlHost { host: None, port: None };
    assert_eq!(
        plan_upgrade(&map, None, url.clone(), Ok(no_host), &policy).err(),
        Some(UpgradeError::MissingHost)
    );
    let odd = UrlHost { host: Some("a\nb".to_string()), port: Some(1) };
    assert_eq!(
        plan_upgrade(&map, None, url, Ok(odd), &policy).err(),
        Some(UpgradeError::InvalidHost)
    );
    assert_eq!(
        UpgradeError::MissingKey.message(),
        "Missing or invalid Sec-WebSocket-Key header"
    );
    assert_eq!(UpgradeError::MissingHost.message(), "Missing host in URL");
    assert_eq!(
        UpgradeError::InvalidHost.message(),
        HeaderValue::from_str("a\nb").unwrap_err().to_string()
    );

    // Through the proxy this is a generic 502, with the error attached.
    let mut unreadable = handshake("Upgrade", "c");
    unreadable.insert("sec-websocket-key", HeaderValue::from_bytes(b"\xff").unwrap());
    let req = RequestHead {
        method: "GET".to_string(),
        scheme: None,
        authority: None,
        path_and_query: "/ws".to_string(),
        version: HttpVersion::Http11,
        headers: unreadable,
        client_address: None,
    };
    match forward_request(upstream, &req, &policy) {
        ForwardStep::Answer(answer) => {
            assert_eq!(answer.status, 502);
            assert_eq!(answer.body, "WebSocket upgrade failed");
        }
        _ => panic!("not answered"),
    }
    let req = RequestHead { headers: handshake("Upgrade", "c"), ..req };
    match forward_request(far, &req, &policy) {
        ForwardStep::Answer(answer) => {
            assert_eq!(answer.status, 502);
            assert_eq!(answer.body, "WebSocket upgrade failed");
            let error = answer.error.unwrap();
            assert_eq!(error.message(), "invalid port number");
            assert!(!error.is_connect());
        }
        _ => panic!("not answered"),
    }
}
