use axum_reverse_proxy::forward::ForwardStep;
use axum_reverse_proxy::message::{HttpVersion, RequestHead};
use axum_reverse_proxy::ReverseProxy;

fn upstream_path(proxy: &ReverseProxy, path_and_query: &str) -> String {
    proxy.transform_uri(path_and_query).path
}

#[test]
fn test_proxy_nested_routing() {
    let proxy = ReverseProxy::new("/proxy", "http://127.0.0.1:4000");
    assert_eq!(upstream_path(&proxy, "/proxy/test"), "/test");
    // As a router hands it on, without the mount path.
    assert_eq!(upstream_path(&proxy, "/test"), "/test");
}

#[test]
fn test_proxy_path_handling() {
    let proxy = ReverseProxy::new("", "http://127.0.0.1:4000");
    for path in ["/", "/test//double", "/test/%20space", "/test/special!%40%23%24"] {
        assert_eq!(upstream_path(&proxy, path), path);
    }
}

#[test]
fn test_proxy_exact_path_handling() {
    let target = "http://127.0.0.1:4000";
    let api = ReverseProxy::new("/api", target);
    assert_eq!(upstream_path(&api, "/api/_test"), "/_test");
    assert_eq!(upstream_path(&api, "/api/_test/"), "/_test/");
    let test = ReverseProxy::new("/_test", &format!("{target}/_test"));
    assert_eq!(upstream_path(&test, "/_test"), "/_test");
    let foo = ReverseProxy::new("/foo", &format!("{target}/bar"));
    assert_eq!(upstream_path(&foo, "/foo"), "/bar");
}

#[test]
fn test_proxy_query_parameters() {
    let proxy = ReverseProxy::new("/", "http://127.0.0.1:4000");
    for query in [
        "foo=bar",
        "foo=bar&baz=qux&special=hello%20world",
        "empty=",
        "special=%21%40%23%24%25%5E%26",
    ] {
        let uri = proxy.transform_uri(&format!("/echo?{query}"));
        assert_eq!(uri.query.as_deref(), Some(query));
        assert_eq!(uri.path, "/echo");
    }
}

#[test]
fn test_no_extra_slash_for_empty_path_with_query() {
    let proxy = ReverseProxy::new("/proxy", "http://127.0.0.1:4000/api");
    assert_eq!(upstream_path(&proxy, "/proxy?foo=bar"), "/api");
}

#[test]
fn test_similar_prefix_is_not_stripped() {
    let proxy = ReverseProxy::new("/api", "http://127.0.0.1:4000");
    assert_eq!(upstream_path(&proxy, "/apiary"), "/apiary");
    assert_eq!(upstream_path(&proxy, "/apix/foo"), "/apix/foo");
}

#[test]
fn test_root_base_query_only_no_slash() {
    let proxy = ReverseProxy::new("/", "http://127.0.0.1:4000/api");
    assert_eq!(upstream_path(&proxy, "/?q=1"), "/api");
}

#[test]
fn test_encoded_boundary_stripping() {
    let proxy = ReverseProxy::new("/foo%20bar", "http://127.0.0.1:4000");
    assert_eq!(upstream_path(&proxy, "/foo%20bar"), "/");
    assert_eq!(upstream_path(&proxy, "/foo%20bar/baz"), "/baz");
    assert_eq!(upstream_path(&proxy, "/foo%20barista"), "/foo%20barista");
}

#[test]
fn test_root_base_matrix() {
    let proxy = ReverseProxy::new("/", "http://127.0.0.1:4000/api");
    let cases = [("/", "/api"), ("/x", "/api/x"), ("/x/", "/api/x/")];
    for (req_path, expected) in cases {
        assert_eq!(upstream_path(&proxy, req_path), expected);
    }
}

#[test]
fn test_methods_preserve_join() {
    let proxy = ReverseProxy::new("/api", "http://127.0.0.1:4000/tgt");
    let cases = [
        ("GET", "/api/x", "/tgt/x"),
        ("POST", "/api/x", "/tgt/x"),
        ("PUT", "/api/x/", "/tgt/x/"),
        ("DELETE", "/api?flag=1", "/tgt"),
    ];
    for (method, path_and_query, expected) in cases {
        let step = proxy.proxy_request(&RequestHead {
            method: method.to_string(),
            scheme: None,
            authority: None,
            path_and_query: path_and_query.to_string(),
            version: HttpVersion::Http11,
            headers: http::HeaderMap::new(),
            client_address: None,
        });
        match step {
            ForwardStep::Send(out) => assert_eq!(out.uri.path, expected),
            _ => panic!("{method} {path_and_query} is not forwarded"),
        }
    }
}
