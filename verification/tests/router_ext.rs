use axum_reverse_proxy::forward::{ForwardStep, OutgoingRequest};
use axum_reverse_proxy::message::{HttpVersion, RequestHead};
use axum_reverse_proxy::router_ext::{
    build_upstream_uri, encode_parameter, forward_to_target, proxy_request, route_literal_prefix,
    route_request, strip_route_prefix, UpstreamUriError,
};
use axum_reverse_proxy::uri::UriParts;
use axum_reverse_proxy::{proxy_template, HostBehaviour, ProxyPolicy, TargetResolver};
use http::{HeaderMap, Uri};

fn request(path_and_query: &str) -> RequestHead {
    RequestHead {
        method: "GET".to_string(),
        scheme: None,
        authority: None,
        path_and_query: path_and_query.to_string(),
        version: HttpVersion::Http11,
        headers: HeaderMap::new(),
        client_address: None,
    }
}

fn dummy_request() -> RequestHead {
    request("/test")
}

fn params(pairs: &[(&str, &str)]) -> Vec<(String, String)> {
    pairs.iter().map(|(k, v)| (k.to_string(), v.to_string())).collect()
}

fn parse(text: &str) -> UriParts {
    UriParts::parse(text).unwrap()
}

fn routed<T: TargetResolver>(
    pattern: &str,
    target: T,
    params: &[(String, String)],
    req: &RequestHead,
) -> OutgoingRequest {
    let step = proxy_request(
        &target,
        params,
        req,
        &ProxyPolicy::default(),
        &route_literal_prefix(pattern),
    );
    match step {
        ForwardStep::Send(out) => out,
        _ => panic!("not forwarded"),
    }
}

#[test]
fn test_static_string_resolver() {
    let resolver = "https://example.com".to_string();
    let req = dummy_request();
    let params = vec![("id".to_string(), "123".to_string())];
    assert_eq!(resolver.resolve(&req, &params), "https://example.com");
    assert!(resolver.is_base_url());
}

#[test]
fn test_static_str_resolver() {
    let resolver: &'static str = "https://example.com";
    let req = dummy_request();
    let params = vec![("id".to_string(), "123".to_string())];
    assert_eq!(resolver.resolve(&req, &params), "https://example.com");
    assert!(resolver.is_base_url());
}

#[test]
fn test_template_resolver_single_param() {
    let resolver = proxy_template("https://example.com/users/{id}");
    let req = dummy_request();
    let params = vec![("id".to_string(), "123".to_string())];
    assert_eq!(
        resolver.resolve(&req, &params),
        "https://example.com/users/123"
    );
    assert!(!resolver.is_base_url());
}

#[test]
fn test_template_resolver_multiple_params() {
    let resolver = proxy_template("https://cdn.example.com/{id}/quality_{quality}");
    let req = dummy_request();
    let params = vec![
        ("id".to_string(), "video123".to_string()),
        ("quality".to_string(), "720p".to_string()),
    ];
    assert_eq!(
        resolver.resolve(&req, &params),
        "https://cdn.example.com/video123/quality_720p"
    );
}

#[test]
fn test_template_resolver_missing_param() {
    let resolver = proxy_template("https://example.com/{id}/{missing}");
    let req = dummy_request();
    let params = vec![("id".to_string(), "123".to_string())];
    // Missing params are left as-is (placeholder remains)
    assert_eq!(
        resolver.resolve(&req, &params),
        "https://example.com/123/{missing}"
    );
}

#[test]
fn test_template_resolver_no_params() {
    let resolver = proxy_template("https://example.com/static/path");
    let req = dummy_request();
    let params = vec![("id".to_string(), "123".to_string())];
    assert_eq!(
        resolver.resolve(&req, &params),
        "https://example.com/static/path"
    );
}

#[test]
fn test_route_literal_prefix() {
    assert_eq!(route_literal_prefix("/api/{*rest}"), "/api");
    assert_eq!(route_literal_prefix("/users/{id}/profile"), "/users");
    assert_eq!(route_literal_prefix("/proxy"), "/proxy");
    assert_eq!(route_literal_prefix("/{*rest}"), "");
    assert_eq!(route_literal_prefix("/"), "");
}

#[test]
fn test_build_upstream_uri_with_target_query() {
    let target = parse("https://example.com/path?foo=bar");
    let original = parse("/request?baz=qux");
    let result = build_upstream_uri(&target, original.query.as_deref(), None).unwrap();
    // Target query takes precedence
    assert_eq!(result.text(), "https://example.com/path?foo=bar");
}

#[test]
fn test_build_upstream_uri_with_original_query() {
    let target = parse("https://example.com/path");
    let original = parse("/request?baz=qux");
    let result = build_upstream_uri(&target, original.query.as_deref(), None).unwrap();
    // Falls back to original query
    assert_eq!(result.text(), "https://example.com/path?baz=qux");
}

#[test]
fn test_build_upstream_uri_no_query() {
    let target = parse("https://example.com/path");
    let original = parse("/request");
    let result = build_upstream_uri(&target, original.query.as_deref(), None).unwrap();
    assert_eq!(result.text(), "https://example.com/path");
}

#[test]
fn test_build_upstream_uri_appends_remaining_path() {
    let target = parse("https://example.com");
    let original = parse("/api/foo/bar?x=1");
    let query = original.query.as_deref();
    let result = build_upstream_uri(&target, query, Some("/foo/bar")).unwrap();
    assert_eq!(result.text(), "https://example.com/foo/bar?x=1");

    let target = parse("https://example.com/v2/");
    let result = build_upstream_uri(&target, query, Some("/foo/bar")).unwrap();
    assert_eq!(result.text(), "https://example.com/v2/foo/bar?x=1");
}

#[test]
fn test_build_upstream_uri_rejects_missing_authority() {
    let target = parse("/just-a-path");
    let original = parse("/request");
    assert!(build_upstream_uri(&target, original.query.as_deref(), None).is_err());
    assert_eq!(
        build_upstream_uri(&target, None, None).err(),
        Some(UpstreamUriError::MissingAuthority)
    );
    let target = parse("https://example.com");
    assert_eq!(
        build_upstream_uri(&target, None, Some("no-slash")).err(),
        Some(UpstreamUriError::Invalid)
    );
}

#[test]
fn test_strip_route_prefix() {
    assert_eq!(strip_route_prefix("/api/foo", "/api"), "/foo");
    assert_eq!(strip_route_prefix("/api", "/api"), "");
    assert_eq!(strip_route_prefix("/apifoo", "/api"), "/apifoo");
    assert_eq!(strip_route_prefix("/other", "/api"), "/other");
    assert_eq!(strip_route_prefix("/anything", ""), "/anything");
}

#[test]
fn test_template_encodes_at_sign_prevents_ssrf() {
    // A template like "http://my-app-{env}/api" with env="@attacker.com"
    // must NOT resolve to "http://my-app-@attacker.com/api" (host=attacker.com).
    // The @ must be percent-encoded to prevent authority rewriting.
    let resolver = proxy_template("http://my-app-{env}/api");
    let req = dummy_request();
    let params = vec![("env".to_string(), "@attacker.com".to_string())];
    let resolved = resolver.resolve(&req, &params);
    assert_eq!(resolved, "http://my-app-%40attacker.com/api");

    // The encoded URL will fail URI parsing (InvalidAuthority), which means
    // the proxy returns a 500 instead of making the SSRF request.
    assert!(resolved.parse::<Uri>().is_err());
    match proxy_request(&resolver, &params, &req, &ProxyPolicy::default(), "") {
        ForwardStep::Answer(answer) => {
            assert_eq!(answer.status, 500);
            assert_eq!(answer.body, "Invalid proxy target");
        }
        _ => panic!("not answered"),
    }

    // Verify the unencoded version WOULD have parsed with the attacker as host
    let malicious = "http://my-app-@attacker.com/api";
    let malicious_uri: Uri = malicious.parse().unwrap();
    assert_eq!(malicious_uri.host(), Some("attacker.com"));
}

#[test]
fn test_template_encodes_fragment_injection() {
    let resolver = proxy_template("https://backend.com/path/{id}/data");
    let req = dummy_request();
    let params = vec![("id".to_string(), "x#evil".to_string())];
    let resolved = resolver.resolve(&req, &params);
    assert_eq!(resolved, "https://backend.com/path/x%23evil/data");
}

#[test]
fn test_template_encodes_query_injection() {
    let resolver = proxy_template("https://backend.com/path/{id}");
    let req = dummy_request();
    let params = vec![("id".to_string(), "x?admin=true".to_string())];
    let resolved = resolver.resolve(&req, &params);
    assert_eq!(resolved, "https://backend.com/path/x%3Fadmin=true");
}

#[test]
fn test_template_preserves_slashes_for_catch_all() {
    // Slashes are intentionally NOT encoded to support {*rest} catch-all routes
    let resolver = proxy_template("https://backend.com/api/{rest}");
    let req = dummy_request();
    let params = vec![("rest".to_string(), "foo/bar/baz".to_string())];
    assert_eq!(
        resolver.resolve(&req, &params),
        "https://backend.com/api/foo/bar/baz"
    );
}

#[test]
fn test_template_safe_values_unchanged() {
    // Normal alphanumeric values, hyphens, dots, underscores pass through unmodified
    let resolver = proxy_template("https://{service}.example.com/{id}");
    let req = dummy_request();
    let params = vec![
        ("service".to_string(), "my-app_v2.1".to_string()),
        ("id".to_string(), "abc-123".to_string()),
    ];
    assert_eq!(
        resolver.resolve(&req, &params),
        "https://my-app_v2.1.example.com/abc-123"
    );
}

#[test]
fn parameters_are_encoded_byte_by_byte() {
    assert_eq!(encode_parameter("a b@c#d?e\\f[g]h"), "a%20b%40c%23d%3Fe%5Cf%5Bg%5Dh");
    assert_eq!(encode_parameter("\u{0}\u{1f}\u{7f}"), "%00%1F%7F");
    assert_eq!(encode_parameter("é/ü%"), "%C3%A9/%C3%BC%");
    assert_eq!(encode_parameter(""), "");
}

#[test]
fn structure_is_that_of_the_template() {
    let structure = |s: &str| -> String {
        s.chars().filter(|c| "@?#\\[] ".contains(*c) || c.is_ascii_control()).collect()
    };
    let template = "http://u@[::1]/{a}?q={b}#{a}";
    let req = dummy_request();
    let resolved = proxy_template(template)
        .resolve(&req, &params(&[("a", "x@y?z#"), ("b", "[ \\]\n")]));
    assert_eq!(resolved, "http://u@[::1]/x%40y%3Fz%23?q=%5B%20%5C%5D%0A#x%40y%3Fz%23");
    assert_eq!(structure(&resolved), "@[]?#");
    assert_eq!(structure(&resolved), structure(template));
}

#[test]
fn placeholders_are_replaced_one_parameter_after_the_other() {
    let req = dummy_request();
    let resolver = proxy_template("http://h/{a}{a}/{b}/{}").clone();
    assert_eq!(
        resolver.resolve(&req, &params(&[("a", "{b}"), ("b", "x"), ("", "y")])),
        "http://h/xx/x/y"
    );
    assert_eq!(resolver.resolve(&req, &Vec::new()), "http://h/{a}{a}/{b}/{}");
}

#[test]
fn build_upstream_uri_joins_cleanly() {
    for target_path in ["", "/", "/v2", "/v2/"] {
        for rest in ["", "/a", "/a.b/~c", "/x_/y-/z"] {
            let target = parse(&format!("https://backend{target_path}"));
            let append = if rest.is_empty() { None } else { Some(rest) };
            let uri = build_upstream_uri(&target, None, append).unwrap();
            assert_eq!(uri.scheme.as_deref(), Some("https"));
            assert_eq!(uri.authority.as_deref(), Some("backend"));
            assert!(!uri.path.contains("//"), "path was {:?}", uri.path);
            if let Some(rest) = append {
                assert!(uri.path.ends_with(rest));
            }
        }
    }
}

#[test]
fn strip_route_prefix_respects_boundaries() {
    for suffix in ["a", "Z9", "apiapi"] {
        let joined = format!("/api{suffix}");
        assert_eq!(strip_route_prefix(&joined, "/api"), joined);
        let nested = format!("/api/{suffix}");
        assert_eq!(strip_route_prefix(&nested, "/api"), format!("/{suffix}"));
    }
}

#[test]
fn test_static_target_proxy() {
    let out = routed("/proxy", "http://127.0.0.1:4000".to_string(), &[], &request("/proxy"));
    assert_eq!(out.uri.text(), "http://127.0.0.1:4000/");
}

#[test]
fn test_template_target_single_param() {
    let target = proxy_template("http://127.0.0.1:4000/users/{id}");
    let out = routed("/u/{id}", target, &params(&[("id", "123")]), &request("/u/123"));
    assert_eq!(out.uri.path, "/users/123");
}

#[test]
fn test_template_target_multiple_params() {
    let target = proxy_template("http://127.0.0.1:4000/videos/{id}/{quality}");
    let params = params(&[("id", "abc123"), ("quality", "720p")]);
    let out = routed("/v/{id}/{quality}", target, &params, &request("/v/abc123/720p"));
    assert_eq!(out.uri.path, "/videos/abc123/720p");
}

#[test]
fn test_wildcard_path() {
    let target = proxy_template("http://127.0.0.1:4000/api/{rest}");
    let params = params(&[("rest", "foo/bar/baz")]);
    let out = routed("/gateway/{*rest}", target, &params, &request("/gateway/foo/bar/baz"));
    assert_eq!(out.uri.path, "/api/foo/bar/baz");
}

#[derive(Clone)]
struct PrefixResolver {
    base: String,
    prefix: String,
}

impl TargetResolver for PrefixResolver {
    fn resolve(&self, _req: &RequestHead, params: &[(String, String)]) -> String {
        let id = params
            .iter()
            .find(|(k, _)| k == "id")
            .map(|(_, v)| v.as_str())
            .unwrap_or("unknown");
        format!("{}/users/{}{}", self.base, self.prefix, id)
    }
}

#[test]
fn test_custom_resolver() {
    let resolver = PrefixResolver {
        base: "http://127.0.0.1:4000".to_string(),
        prefix: "user_".to_string(),
    };
    assert!(!resolver.is_base_url());
    let out = routed("/custom/{id}", resolver, &params(&[("id", "42")]), &request("/custom/42"));
    assert_eq!(out.uri.path, "/users/user_42");
}

#[derive(Clone)]
struct HeaderResolver {
    default_backend: String,
    premium_backend: String,
}

impl TargetResolver for HeaderResolver {
    fn resolve(&self, req: &RequestHead, _params: &[(String, String)]) -> String {
        if req.headers.get("x-premium").is_some() {
            self.premium_backend.clone()
        } else {
            self.default_backend.clone()
        }
    }
}

#[test]
fn test_header_based_resolver() {
    let resolver = HeaderResolver {
        default_backend: "http://127.0.0.1:4000/users/default".to_string(),
        premium_backend: "http://127.0.0.1:4000/users/premium".to_string(),
    };
    let out = routed("/account", resolver.clone(), &[], &request("/account"));
    assert_eq!(out.uri.path, "/users/default");
    let mut premium = request("/account");
    premium.headers.insert("x-premium", "true".parse().unwrap());
    let out = routed("/account", resolver, &[], &premium);
    assert_eq!(out.uri.path, "/users/premium");
}

#[test]
fn proxy_route_with_preserve_policy_forwards_client_host() {
    let mut req = request("/echo-host");
    req.headers.insert("host", "client.example.com".parse().unwrap());
    let policy = ProxyPolicy::new().with_host_behaviour(HostBehaviour::Preserve);
    let step = route_request(
        "http://127.0.0.1:4000/echo-host",
        true,
        &req,
        &policy,
        "/echo-host",
    );
    match step {
        ForwardStep::Send(out) => {
            assert_eq!(out.headers.get("host").unwrap(), "client.example.com");
            assert_eq!(out.uri.path, "/echo-host");
        }
        _ => panic!("not forwarded"),
    }
}

#[test]
fn proxy_route_with_default_policy_replaces_host_with_upstream_authority() {
    let mut req = request("/echo-host");
    req.headers.insert("host", "client.example.com".parse().unwrap());
    let target = "http://127.0.0.1:4000/echo-host".to_string();
    let out = routed("/echo-host", target, &[], &req);
    assert!(!out.headers.contains_key("host"));
    assert_eq!(out.uri.authority.as_deref(), Some("127.0.0.1:4000"));
}

#[test]
fn test_static_target_wildcard_appends_path() {
    let out = routed(
        "/gateway/{*rest}",
        "http://127.0.0.1:4000".to_string(),
        &params(&[("rest", "api/foo/bar")]),
        &request("/gateway/api/foo/bar"),
    );
    assert_eq!(out.uri.path, "/api/foo/bar");
}

#[test]
fn test_static_target_with_base_path_appends_remainder() {
    let out = routed(
        "/gateway/{*rest}",
        "http://127.0.0.1:4000/api".to_string(),
        &params(&[("rest", "foo/bar")]),
        &request("/gateway/foo/bar"),
    );
    assert_eq!(out.uri.path, "/api/foo/bar");
}

#[test]
fn test_static_target_wildcard_preserves_query() {
    let out = routed(
        "/gateway/{*rest}",
        "http://127.0.0.1:4000",
        &params(&[("rest", "echo-query")]),
        &request("/gateway/echo-query?a=1&b=2"),
    );
    assert_eq!(out.uri.path, "/echo-query");
    assert_eq!(out.uri.query.as_deref(), Some("a=1&b=2"));
}

#[test]
fn targets_without_an_authority_are_answered_with_500() {
    let policy = ProxyPolicy::default();
    for target in [None, UriParts::parse("/just-a-path")] {
        match forward_to_target(target, true, &dummy_request(), &policy, "") {
            ForwardStep::Answer(answer) => {
                assert_eq!(answer.status, 500);
                assert_eq!(answer.body, "Invalid proxy target");
            }
            _ => panic!("not answered"),
        }
    }
}
