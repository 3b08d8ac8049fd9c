use axum_reverse_proxy::proxy::{ProxyOptions, TargetError};
use axum_reverse_proxy::uri::UriParts;
use axum_reverse_proxy::{HostBehaviour, ProxyPolicy, ReverseProxy, XForwardedFor};
use std::time::Duration;

fn headers_with_host(host: Option<&str>) -> http::HeaderMap {
    let mut headers = http::HeaderMap::new();
    if let Some(host) = host {
        headers.insert(http::header::HOST, host.parse().unwrap());
    }
    headers
}

fn uri(parts: UriParts) -> http::Uri {
    parts.text().parse().unwrap()
}

#[test]
fn upstream_host_with_replace_policy_uses_upstream_authority() {
    let policy = ProxyPolicy::default();
    let headers = headers_with_host(Some("client.example.com"));
    assert_eq!(
        policy.forwarded_host(&headers, None, "upstream:8080".to_string()),
        "upstream:8080"
    );
}

#[test]
fn upstream_host_with_preserve_policy_uses_client_host() {
    let policy = ProxyPolicy::new().with_host_behaviour(HostBehaviour::Preserve);
    let headers = headers_with_host(Some("client.example.com"));
    assert_eq!(
        policy.forwarded_host(&headers, None, "upstream:8080".to_string()),
        "client.example.com"
    );
}

#[test]
fn upstream_host_with_preserve_policy_and_no_client_host_falls_back_to_authority() {
    let policy = ProxyPolicy::new().with_host_behaviour(HostBehaviour::Preserve);
    let headers = headers_with_host(None);
    assert_eq!(
        policy.forwarded_host(&headers, None, "upstream:8080".to_string()),
        "upstream:8080"
    );
}

#[test]
fn preserved_host_prefers_the_request_authority_to_the_upstream() {
    let policy = ProxyPolicy::new().with_host_behaviour(HostBehaviour::Preserve);
    assert_eq!(
        policy.forwarded_host(
            &headers_with_host(None),
            Some("h2.example.com"),
            "upstream:8080".to_string()
        ),
        "h2.example.com"
    );
    assert_eq!(
        policy.forwarded_host(
            &headers_with_host(Some("client.example.com")),
            Some("h2.example.com"),
            "upstream:8080".to_string()
        ),
        "client.example.com"
    );
}

#[test]
#[should_panic(expected = "must include an authority")]
fn invalid_target_panics_at_construction() {
    if let Err(e) = ReverseProxy::try_new("/api", "/not-a-url") {
        panic!("ReverseProxy target {:?} {}", "/not-a-url", e.message());
    }
}

#[test]
fn targets_are_refused_with_a_reason() {
    assert_eq!(
        ReverseProxy::try_new("/api", "/not-a-url").err(),
        Some(TargetError::MissingAuthority)
    );
    assert_eq!(
        ReverseProxy::try_new("/api", "http://bad host/").err(),
        Some(TargetError::InvalidUri)
    );
    assert_eq!(TargetError::InvalidUri.message(), "is not a valid URI");
    let proxy = ReverseProxy::try_new("/api", "https://api.example.com/v1").ok().unwrap();
    assert_eq!(proxy.path(), "/api");
    assert_eq!(proxy.target(), "https://api.example.com/v1");
    assert!(!proxy.buffer_bodies());
    assert!(!proxy.mounts_at_root());
}

#[test]
fn target_without_scheme_is_plain_http() {
    let proxy = ReverseProxy::new("/", "backend:8080");
    assert_eq!(proxy.transform_uri("/x").text(), "http://backend:8080/x");
    assert!(proxy.mounts_at_root());
}

#[test]
fn options_and_policy_are_kept() {
    let options = ProxyOptions { buffer_bodies: true };
    let proxy = ReverseProxy::new_with_options("", "http://target", options)
        .with_policy(ProxyPolicy::new().with_via("me"));
    assert!(proxy.buffer_bodies());
    assert!(proxy.mounts_at_root());
    assert_eq!(proxy.policy().via.as_deref(), Some("me"));
    let copy = proxy.clone();
    assert_eq!(copy.target(), "http://target");
    assert_eq!(copy.policy(), proxy.policy());
}

#[test]
fn policy_defaults_and_builders() {
    let policy = ProxyPolicy::new();
    assert_eq!(policy, ProxyPolicy::default());
    assert_eq!(policy.host_behaviour, HostBehaviour::Replace);
    assert_eq!(policy.x_forwarded_for, XForwardedFor::Append);
    assert_eq!(policy.websocket_connect_timeout, Duration::from_secs(5));
    assert_eq!(policy.public_scheme, None);
    assert_eq!(policy.upstream_timeout, None);
    assert_eq!(policy.max_request_body_bytes, None);
    assert_eq!(policy.via, None);

    let policy = policy
        .with_host_behaviour(HostBehaviour::Preserve)
        .with_x_forwarded_for(XForwardedFor::Preserve)
        .with_public_scheme("https")
        .with_upstream_timeout(Duration::from_secs(30))
        .with_max_request_body_bytes(10 * 1024 * 1024)
        .with_websocket_connect_timeout(Duration::from_secs(10))
        .with_via("my-proxy");
    assert_eq!(policy.host_behaviour, HostBehaviour::Preserve);
    assert_eq!(policy.x_forwarded_for, XForwardedFor::Preserve);
    assert_eq!(policy.public_scheme.as_deref(), Some("https"));
    assert_eq!(policy.upstream_timeout, Some(Duration::from_secs(30)));
    assert_eq!(policy.max_request_body_bytes, Some(10 * 1024 * 1024));
    assert_eq!(policy.websocket_connect_timeout, Duration::from_secs(10));
    assert_eq!(policy.via.as_deref(), Some("my-proxy"));
    assert_eq!(policy.clone(), policy);
}

#[test]
fn transform_uri_with_and_without_trailing_slash() {
    let proxy = ReverseProxy::new("/api/", "http://target");
    assert_eq!(uri(proxy.transform_uri("/api/test")), "http://target/test");

    let proxy_no_slash = ReverseProxy::new("/api", "http://target");
    assert_eq!(
        uri(proxy_no_slash.transform_uri("/api/test")),
        "http://target/test"
    );
}

#[test]
fn transform_uri_root() {
    let proxy = ReverseProxy::new("/", "http://target");
    assert_eq!(uri(proxy.transform_uri("/test")), "http://target/test");
}

#[test]
fn transform_uri_with_query() {
    let proxy_root = ReverseProxy::new("/", "http://target");

    assert_eq!(
        uri(proxy_root.transform_uri("?query=test")),
        "http://target?query=test"
    );
    assert_eq!(
        uri(proxy_root.transform_uri("/?query=test")),
        "http://target/?query=test"
    );
    assert_eq!(
        uri(proxy_root.transform_uri("/test?query=test")),
        "http://target/test?query=test"
    );

    let proxy_root_no_slash = ReverseProxy::new("/", "http://target/api");
    assert_eq!(
        uri(proxy_root_no_slash.transform_uri("/test?query=test")),
        "http://target/api/test?query=test"
    );
    assert_eq!(
        uri(proxy_root_no_slash.transform_uri("?query=test")),
        "http://target/api?query=test"
    );

    let proxy_root_slash = ReverseProxy::new("/", "http://target/api/");
    assert_eq!(
        uri(proxy_root_slash.transform_uri("/test?query=test")),
        "http://target/api/test?query=test"
    );
    assert_eq!(
        uri(proxy_root_slash.transform_uri("?query=test")),
        "http://target/api/?query=test"
    );

    let proxy_no_slash = ReverseProxy::new("/test", "http://target/api");
    assert_eq!(
        uri(proxy_no_slash.transform_uri("/test?query=test")),
        "http://target/api?query=test"
    );
    assert_eq!(
        uri(proxy_no_slash.transform_uri("/test/?query=test")),
        "http://target/api/?query=test"
    );
    assert_eq!(
        uri(proxy_no_slash.transform_uri("?query=test")),
        "http://target/api?query=test"
    );

    let proxy_with_slash = ReverseProxy::new("/test", "http://target/api/");
    assert_eq!(
        uri(proxy_with_slash.transform_uri("/test?query=test")),
        "http://target/api/?query=test"
    );
    assert_eq!(
        uri(proxy_with_slash.transform_uri("/test/?query=test")),
        "http://target/api/?query=test"
    );
    assert_eq!(
        uri(proxy_with_slash.transform_uri("/something")),
        "http://target/api/something"
    );
    assert_eq!(
        uri(proxy_with_slash.transform_uri("/test/something")),
        "http://target/api/something"
    );
}

#[test]
fn transform_uri_preserves_scheme_authority_and_query() {
    let bases = ["/", "/api", "/api/", "/api/v1", "/qwe"];
    let paths = ["/", "/a", "/a/", "/api/v1/x", "/x.y_z~-/b", "/api/"];
    let queries = [None, Some(""), Some("a=b&c_d-e"), Some("x")];
    for base in bases {
        for target_path in paths {
            for req_path in paths {
                for query in queries {
                    let proxy = ReverseProxy::new(base, &format!("http://target{target_path}"));
                    let pq = match query {
                        Some(q) => format!("{req_path}?{q}"),
                        None => req_path.to_string(),
                    };
                    let uri = uri(proxy.transform_uri(&pq));
                    assert_eq!(uri.scheme_str(), Some("http"));
                    assert_eq!(uri.authority().map(|a| a.as_str()), Some("target"));
                    assert!(uri.path().starts_with('/'), "path was {:?}", uri.path());
                    assert_eq!(uri.query(), query);
                }
            }
        }
    }
}

#[test]
fn transform_uri_strips_base_at_boundary() {
    for target_path in ["/", "/v2", "/v2/", "/a/b"] {
        for remainder in ["/x", "/x/y.z", "/api/~"] {
            let proxy = ReverseProxy::new("/api", &format!("http://target{target_path}"));
            let upstream = proxy.transform_uri(&format!("/api{remainder}"));
            let target_base = if target_path == "/" {
                String::new()
            } else {
                target_path.trim_end_matches('/').to_string()
            };
            assert_eq!(upstream.path, format!("{target_base}{remainder}"));
        }
    }
}

#[test]
fn transform_uri_never_strips_similar_prefixes() {
    let proxy = ReverseProxy::new("/api", "http://target");
    for suffix in ["ary", "X", "0", "apiapi"] {
        let path = format!("/api{suffix}");
        assert_eq!(proxy.transform_uri(&path).path, path);
    }
}

#[test]
fn mounted_and_fallback_requests_agree() {
    let proxy = ReverseProxy::new("/base", "http://target/api");
    assert_eq!(proxy.transform_uri("/base/ws?x=1"), proxy.transform_uri("/ws?x=1"));
    assert_eq!(proxy.transform_uri("/base?x=1"), proxy.transform_uri("/?x=1"));
    // A bare slash behind the mount path is kept, one that a router leaves is not.
    assert_eq!(proxy.transform_uri("/base/").path, "/api/");
    assert_eq!(proxy.transform_uri("/").path, "/api");
}

#[test]
fn transform_uri_drops_a_fragment_and_refuses_what_is_no_path() {
    let proxy = ReverseProxy::new("/", "http://target/api");
    let parts = proxy.transform_uri("/x#y?z");
    assert_eq!(parts.path, "/api/x");
    assert_eq!(parts.query, None);
    assert_eq!(proxy.try_transform_uri("/a b"), None);
    assert_eq!(proxy.try_transform_uri("*").map(|u| u.path), Some("/api*".to_string()));
    let root = ReverseProxy::new("/", "http://target");
    assert_eq!(root.try_transform_uri("*").map(|u| u.path), Some("*".to_string()));
    assert_eq!(root.try_transform_uri("foo"), None);
    assert_eq!(
        root.try_transform_uri("/foo").map(|u| u.text()),
        Some("http://target/foo".to_string())
    );
}

#[test]
fn uri_parts_parse_and_print() {
    let uri = UriParts::parse("HTTPS://user@Example.com:8443/a/b?c=d#e").unwrap();
    assert_eq!(uri.scheme.as_deref(), Some("https"));
    assert_eq!(uri.authority.as_deref(), Some("user@Example.com:8443"));
    assert_eq!(uri.path, "/a/b");
    assert_eq!(uri.query.as_deref(), Some("c=d"));
    assert_eq!(uri.text(), "https://user@Example.com:8443/a/b?c=d");
    assert!(UriParts::parse("").is_none());
    assert!(UriParts::parse("http://").is_none());
}
