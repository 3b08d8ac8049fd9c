//! The proxy itself: where it forwards to, and how it behaves.
use crate::balanced_proxy::micros_of;
use crate::forward::{forward_request, is_first_step, ForwardStep};
use crate::headers::{
    first_text, has_room, header_first_text, header_lines, is_stored_name, Headers, Lines,
};
use crate::message::RequestHead;
use crate::text::{
    after, before, chars_of, clone_text, find_from, opt_str, opt_text, same_text, starts_with,
    text_of, trim_end_matches, without_trailing,
};
use crate::uri::{
    build_uri, built_uri, is_parsed, is_path_and_query, opt_uri, parse_uri, parsed_uri,
    scheme_or_http, UriParts, UriView,
};
use core::time::Duration;
use vstd::prelude::*;

verus! {

/// The duration of a number of whole seconds.
pub uninterp spec fn seconds(n: u64) -> Duration;

/// `Duration::from_secs`: the duration of `secs` whole seconds, of a million microseconds each.
pub assume_specification[ Duration::from_secs ](secs: u64) -> (d: Duration)
    ensures
        d == seconds(secs),
        micros_of(d) == secs as nat * 1000000,
;

/// Controls the value of the `Host` header sent to the upstream server.
#[derive(Clone, Copy, Debug, PartialEq, Eq, Structural)]
pub enum HostBehaviour {
    /// Forward the client's original `Host` header unchanged.
    Preserve,
    /// Replace `Host` with the upstream target's authority (the default).
    Replace,
}

impl Default for HostBehaviour {
    fn default() -> (r: Self)
        ensures
            r == HostBehaviour::Replace,
    {
        HostBehaviour::Replace
    }
}

/// Controls how the `X-Forwarded-For` header is handled for forwarded requests.
///
/// The client's address is only known when the server was started with connect info; without
/// it, no address is available and the header is left untouched in either mode.
#[derive(Clone, Copy, Debug, PartialEq, Eq, Structural)]
pub enum XForwardedFor {
    /// Append the connecting client's IP address to `X-Forwarded-For` (creating the header if
    /// absent), and set `X-Forwarded-Host` from the client's `Host` header when not already
    /// present. This is the default and matches conventional reverse proxy behaviour.
    Append,
    /// Leave `X-Forwarded-For` and `X-Forwarded-Host` exactly as the client sent them.
    Preserve,
}

impl Default for XForwardedFor {
    fn default() -> (r: Self)
        ensures
            r == XForwardedFor::Append,
    {
        XForwardedFor::Append
    }
}

/// Configuration options for the reverse proxy.
#[derive(Debug)]
pub struct ProxyOptions {
    /// Whether to buffer the entire request and response bodies in memory. If false (default),
    /// requests and responses are streamed.
    pub buffer_bodies: bool,
}

impl Clone for ProxyOptions {
    fn clone(&self) -> (r: Self)
        ensures
            r == *self,
    {
        ProxyOptions { buffer_bodies: self.buffer_bodies }
    }
}

impl Default for ProxyOptions {
    fn default() -> (r: Self)
        ensures
            !r.buffer_bodies,
    {
        ProxyOptions { buffer_bodies: false }
    }
}

/// Proxy route and behavioural config applied to every request a [`ReverseProxy`] forwards.
#[derive(Debug, PartialEq, Eq)]
#[non_exhaustive]
pub struct ProxyPolicy {
    /// How the upstream `Host` header is derived. See [`HostBehaviour`].
    pub host_behaviour: HostBehaviour,
    /// How `X-Forwarded-For` is handled. See [`XForwardedFor`].
    pub x_forwarded_for: XForwardedFor,
    /// How long to wait when establishing an upstream WebSocket connection before failing the
    /// client's upgrade request. Default: 5 seconds.
    pub websocket_connect_timeout: Duration,
    /// The scheme (`http`/`https`) this proxy is publicly served over, used for
    /// `X-Forwarded-Proto` and the `proto=` directive of the `Forwarded` header under
    /// [`XForwardedFor::Append`]. Default: `None` (proto is not set).
    pub public_scheme: Option<String>,
    /// Maximum time to wait for the upstream's response headers before answering
    /// `504 Gateway Timeout`. Response bodies stream without a deadline. Default: `None`.
    pub upstream_timeout: Option<Duration>,
    /// Maximum request body size in bytes. Requests declaring a larger `Content-Length` are
    /// rejected with `413 Payload Too Large` without contacting the upstream; a body that
    /// exceeds the cap mid-stream is cut off, failing the upstream request. Default: `None`.
    pub max_request_body_bytes: Option<u64>,
    /// Pseudonym for `Via` header emission. When set, the proxy appends
    /// `<protocol-version> <pseudonym>` to the `Via` header of forwarded requests and returned
    /// responses, and answers `508 Loop Detected` when its own pseudonym already appears in an
    /// incoming request's `Via` chain. Default: `None` (no Via handling).
    pub via: Option<String>,
}

/// Whether a policy has the default behaviour throughout.
pub open spec fn is_default_policy(p: ProxyPolicy) -> bool {
    &&& p.host_behaviour == HostBehaviour::Replace
    &&& p.x_forwarded_for == XForwardedFor::Append
    &&& p.websocket_connect_timeout == seconds(5)
    &&& p.public_scheme is None
    &&& p.upstream_timeout is None
    &&& p.max_request_body_bytes is None
    &&& p.via is None
}

impl Default for ProxyPolicy {
    fn default() -> (r: Self)
        ensures
            is_default_policy(r),
    {
        ProxyPolicy {
            host_behaviour: HostBehaviour::Replace,
            x_forwarded_for: XForwardedFor::Append,
            websocket_connect_timeout: Duration::from_secs(5),
            public_scheme: None,
            upstream_timeout: None,
            max_request_body_bytes: None,
            via: None,
        }
    }
}

impl Clone for ProxyPolicy {
    fn clone(&self) -> (r: Self)
        ensures
            r == *self,
    {
        ProxyPolicy {
            host_behaviour: self.host_behaviour,
            x_forwarded_for: self.x_forwarded_for,
            websocket_connect_timeout: self.websocket_connect_timeout,
            public_scheme: clone_text(&self.public_scheme),
            upstream_timeout: self.upstream_timeout,
            max_request_body_bytes: self.max_request_body_bytes,
            via: clone_text(&self.via),
        }
    }
}

/// The one `Host` value to send upstream: where the client's host is kept, the client's `Host`
/// header if it reads as text, else the authority of the request's own URI; else the upstream
/// authority.
pub open spec fn host_to_send(
    behaviour: HostBehaviour,
    client: Lines,
    client_authority: Option<Seq<char>>,
    upstream_authority: Seq<char>,
) -> Seq<char> {
    match behaviour {
        HostBehaviour::Replace => upstream_authority,
        HostBehaviour::Preserve => match (first_text(client, "host"@), client_authority) {
            (Some(host), _) => host,
            (None, Some(authority)) => authority,
            (None, None) => upstream_authority,
        },
    }
}

impl ProxyPolicy {
    /// Create a policy with default behaviour.
    pub fn new() -> (r: Self)
        ensures
            is_default_policy(r),
    {
        Self::default()
    }

    /// Set how the upstream `Host` header is derived.
    #[must_use]
    pub fn with_host_behaviour(self, behaviour: HostBehaviour) -> (r: Self)
        ensures
            r == (ProxyPolicy { host_behaviour: behaviour, ..self }),
    {
        ProxyPolicy { host_behaviour: behaviour, ..self }
    }

    /// Set how `X-Forwarded-For` is handled.
    #[must_use]
    pub fn with_x_forwarded_for(self, mode: XForwardedFor) -> (r: Self)
        ensures
            r == (ProxyPolicy { x_forwarded_for: mode, ..self }),
    {
        ProxyPolicy { x_forwarded_for: mode, ..self }
    }

    /// Set the upstream WebSocket connect timeout.
    #[must_use]
    pub fn with_websocket_connect_timeout(self, timeout: Duration) -> (r: Self)
        ensures
            r == (ProxyPolicy { websocket_connect_timeout: timeout, ..self }),
    {
        ProxyPolicy { websocket_connect_timeout: timeout, ..self }
    }

    /// Declare the scheme (`"http"` or `"https"`) this proxy is publicly served over, enabling
    /// `X-Forwarded-Proto` and `proto=` in `Forwarded`.
    #[must_use]
    pub fn with_public_scheme(self, scheme: &str) -> (r: Self)
        ensures
            opt_text(r.public_scheme) == Some(scheme@),
            r == (ProxyPolicy { public_scheme: r.public_scheme, ..self }),
    {
        ProxyPolicy { public_scheme: Some(scheme.to_owned()), ..self }
    }

    /// Set a deadline for receiving the upstream's response headers; on expiry the client gets
    /// `504 Gateway Timeout`.
    #[must_use]
    pub fn with_upstream_timeout(self, timeout: Duration) -> (r: Self)
        ensures
            r == (ProxyPolicy { upstream_timeout: Some(timeout), ..self }),
    {
        ProxyPolicy { upstream_timeout: Some(timeout), ..self }
    }

    /// Cap the request body size in bytes (`413 Payload Too Large` for larger declared bodies;
    /// mid-stream cutoff for chunked bodies that exceed it).
    #[must_use]
    pub fn with_max_request_body_bytes(self, max: u64) -> (r: Self)
        ensures
            r == (ProxyPolicy { max_request_body_bytes: Some(max), ..self }),
    {
        ProxyPolicy { max_request_body_bytes: Some(max), ..self }
    }

    /// Enable `Via` header emission and loop detection under the given pseudonym. A request
    /// whose `Via` chain already contains this pseudonym is answered with `508 Loop Detected`.
    #[must_use]
    pub fn with_via(self, pseudonym: &str) -> (r: Self)
        ensures
            opt_text(r.via) == Some(pseudonym@),
            r == (ProxyPolicy { via: r.via, ..self }),
    {
        ProxyPolicy { via: Some(pseudonym.to_owned()), ..self }
    }

    /// Whether the client's original `Host` header is forwarded upstream rather than replaced
    /// with the upstream authority.
    pub fn forwards_client_host(&self) -> (r: bool)
        ensures
            r == (self.host_behaviour == HostBehaviour::Preserve),
    {
        match self.host_behaviour {
            HostBehaviour::Preserve => true,
            HostBehaviour::Replace => false,
        }
    }

    /// Resolve the single `Host` header value to send upstream, given the client's request
    /// headers, the request URI's authority (where HTTP/2 carries the host), and the upstream
    /// authority to fall back to.
    pub fn forwarded_host(
        &self,
        client_headers: &Headers,
        client_authority: Option<&str>,
        upstream_authority: String,
    ) -> (r: String)
        ensures
            r@ == host_to_send(
                self.host_behaviour,
                header_lines(*client_headers),
                opt_str(client_authority),
                upstream_authority@,
            ),
    {
        if !self.forwards_client_host() {
            return upstream_authority;
        }
        proof {
            reveal_strlit("host");
            assert(is_stored_name("host"@));
        }
        match header_first_text(client_headers, "host") {
            Some(host) => host,
            None => match client_authority {
                Some(authority) => authority.to_owned(),
                None => upstream_authority,
            },
        }
    }
}

/// The base path of a target: its path without trailing slashes.
pub open spec fn base_of(path: Seq<char>) -> Seq<char> {
    if path == seq!['/'] {
        Seq::empty()
    } else {
        trim_end_matches(path, '/')
    }
}

/// Whether a target's path ends in a slash that is not all of it.
pub open spec fn ends_in_slash(path: Seq<char>) -> bool {
    path.len() > 0 && path.last() == '/' && path != seq!['/']
}

/// Whether `target` can be forwarded to: it is a URI with an authority.
pub open spec fn is_target(target: Seq<char>) -> bool {
    parsed_uri(target) matches Some(u) && u.authority is Some
}

/// What a [`ReverseProxy`] is made of.
pub struct ProxyView {
    /// The path under which the proxy is mounted.
    pub path: Seq<char>,
    /// The target as it was given.
    pub target: Seq<char>,
    /// The target's scheme.
    pub scheme: Seq<char>,
    /// The target's authority.
    pub authority: Seq<char>,
    /// The target's path without trailing slashes.
    pub base_path: Seq<char>,
    /// Whether the target's path ends in a slash that is not all of it.
    pub trailing_slash: bool,
    /// Whether bodies are buffered.
    pub buffer_bodies: bool,
    /// How requests are forwarded.
    pub policy: ProxyPolicy,
}

/// Whether the parts of a proxy are those of its target, and the target can be forwarded to.
pub open spec fn is_proxy(v: ProxyView) -> bool {
    parsed_uri(v.target) matches Some(u) && {
        &&& is_parsed(u)
        &&& u.authority == Some(v.authority)
        &&& v.scheme == scheme_or_http(u)
        &&& v.base_path == base_of(u.path)
        &&& v.trailing_slash == ends_in_slash(u.path)
    }
}

/// The part of the request path behind the path under which the proxy is mounted. The mount
/// path is taken off only where it ends at a segment boundary; a bare slash counts as nothing
/// unless the proxy is mounted at the empty path.
pub open spec fn remaining_path(mount: Seq<char>, path: Seq<char>) -> Seq<char> {
    let base = trim_end_matches(mount, '/');
    if path == seq!['/'] && mount.len() > 0 {
        Seq::empty()
    } else if is_under(base, path) {
        path.skip(base.len() as int)
    } else {
        path
    }
}

/// Whether `path` is `base` or goes on behind it with a slash, where `base` is not empty.
pub open spec fn is_under(base: Seq<char>, path: Seq<char>) -> bool {
    &&& base.len() > 0
    &&& base.is_prefix_of(path)
    &&& path.len() == base.len() || path[base.len() as int] == '/'
}

/// The target's path with the remaining path behind it; the target's path as it was written
/// where nothing remains.
pub open spec fn joined_path(
    base_path: Seq<char>,
    trailing_slash: bool,
    remaining: Seq<char>,
) -> Seq<char> {
    if remaining.len() > 0 {
        base_path + remaining
    } else if base_path.len() == 0 {
        seq!['/']
    } else if trailing_slash {
        base_path.push('/')
    } else {
        base_path
    }
}

/// `path` with a question mark and the query behind it, where there is a query.
pub open spec fn with_query(path: Seq<char>, query: Option<Seq<char>>) -> Seq<char> {
    match query {
        Some(q) => path.push('?') + q,
        None => path,
    }
}

/// The path and query to ask the upstream for, given those of the request.
pub open spec fn upstream_path_and_query(v: ProxyView, path_and_query: Seq<char>) -> Seq<char> {
    with_query(
        joined_path(
            v.base_path,
            v.trailing_slash,
            remaining_path(v.path, before(path_and_query, '?')),
        ),
        after(path_and_query, '?'),
    )
}

/// The upstream URI for a request's path and query.
pub open spec fn upstream_uri(v: ProxyView, path_and_query: Seq<char>) -> UriView {
    built_uri(v.scheme, v.authority, upstream_path_and_query(v, path_and_query))
}

/// Why a target cannot be forwarded to.
#[derive(Clone, Copy, Debug, PartialEq, Eq, Structural)]
pub enum TargetError {
    /// The target is not a valid URI.
    InvalidUri,
    /// The target has no authority.
    MissingAuthority,
}

impl TargetError {
    /// What is wrong with the target.
    pub fn message(&self) -> (r: &'static str)
        ensures
            r@ == match *self {
                TargetError::InvalidUri => "is not a valid URI"@,
                TargetError::MissingAuthority => "must include an authority (host)"@,
            },
    {
        match self {
            TargetError::InvalidUri => "is not a valid URI",
            TargetError::MissingAuthority => "must include an authority (host)",
        }
    }
}

/// A reverse proxy that forwards HTTP requests from a path to an upstream server.
pub struct ReverseProxy {
    path: String,
    target: String,
    scheme: String,
    authority: String,
    target_base_path: String,
    target_trailing_slash: bool,
    options: ProxyOptions,
    policy: ProxyPolicy,
}

impl View for ReverseProxy {
    type V = ProxyView;

    closed spec fn view(&self) -> ProxyView {
        ProxyView {
            path: self.path@,
            target: self.target@,
            scheme: self.scheme@,
            authority: self.authority@,
            base_path: self.target_base_path@,
            trailing_slash: self.target_trailing_slash,
            buffer_bodies: self.options.buffer_bodies,
            policy: self.policy,
        }
    }
}

impl Clone for ReverseProxy {
    fn clone(&self) -> (r: Self)
        ensures
            r@ == self@,
    {
        proof {
            use_type_invariant(self);
        }
        ReverseProxy {
            path: self.path.clone(),
            target: self.target.clone(),
            scheme: self.scheme.clone(),
            authority: self.authority.clone(),
            target_base_path: self.target_base_path.clone(),
            target_trailing_slash: self.target_trailing_slash,
            options: self.options.clone(),
            policy: self.policy.clone(),
        }
    }
}

impl ReverseProxy {
    #[verifier::type_invariant]
    spec fn inv(self) -> bool {
        is_proxy(self@)
    }

    /// Creates a proxy with default options and the default policy.
    ///
    /// * `path` - The base path to match incoming requests against (e.g., "/api")
    /// * `target` - The upstream server URL to forward to (e.g., "https://api.example.com")
    ///
    /// The target must be a valid URI with an authority (host): it is validated once, here or in
    /// [`ReverseProxy::try_new`].
    pub fn new(path: &str, target: &str) -> (r: Self)
        requires
            is_target(target@),
        ensures
            r@.path == path@,
            r@.target == target@,
            !r@.buffer_bodies,
            is_default_policy(r@.policy),
            is_proxy(r@),
    {
        Self::new_with_options(path, target, ProxyOptions::default())
    }

    /// Creates a proxy with the given options and the default policy.
    pub fn new_with_options(path: &str, target: &str, options: ProxyOptions) -> (r: Self)
        requires
            is_target(target@),
        ensures
            r@.path == path@,
            r@.target == target@,
            r@.buffer_bodies == options.buffer_bodies,
            is_default_policy(r@.policy),
            is_proxy(r@),
    {
        let parsed = parse_uri(target);
        proof {
            assert(opt_uri(parsed) == parsed_uri(target@));
        }
        let (scheme, authority, uri_path) = match parsed {
            Ok(UriParts { scheme, authority: Some(authority), path, .. }) => (
                scheme,
                authority,
                path,
            ),
            _ => {
                assert(false);
                (None, String::new(), String::new())
            },
        };
        let scheme: String = match scheme {
            Some(s) => s,
            None => "http".to_owned(),
        };
        let uri_path_chars = chars_of(uri_path.as_str());
        let only_slash = uri_path_chars.len() == 1 && uri_path_chars[0] == '/';
        proof {
            assert(only_slash <==> uri_path@ =~= seq!['/']);
        }
        let n: usize = uri_path_chars.len();
        let target_trailing_slash = n > 0 && uri_path_chars[n - 1] == '/' && !only_slash;
        let target_base_path: String = if only_slash {
            String::new()
        } else {
            without_trailing(uri_path.as_str(), '/')
        };
        proof {
            assert(only_slash ==> target_base_path@ =~= Seq::empty());
        }
        ReverseProxy {
            path: path.to_owned(),
            target: target.to_owned(),
            scheme,
            authority,
            target_base_path,
            target_trailing_slash,
            options,
            policy: ProxyPolicy::default(),
        }
    }

    /// Creates a proxy, or says why the target cannot be forwarded to.
    pub fn try_new(path: &str, target: &str) -> (r: Result<Self, TargetError>)
        ensures
            r is Ok <==> is_target(target@),
            r matches Ok(p) ==> p@.path == path@ && p@.target == target@ && !p@.buffer_bodies
                && is_default_policy(p@.policy) && is_proxy(p@),
            r == Err::<Self, TargetError>(TargetError::InvalidUri) <==> parsed_uri(target@) is None,
    {
        match parse_uri(target) {
            Err(_) => Err(TargetError::InvalidUri),
            Ok(uri) => {
                if uri.authority.is_some() {
                    Ok(Self::new(path, target))
                } else {
                    Err(TargetError::MissingAuthority)
                }
            },
        }
    }

    /// Apply a [`ProxyPolicy`] to this proxy, overriding the default behaviour.
    #[must_use]
    pub fn with_policy(self, policy: ProxyPolicy) -> (r: Self)
        ensures
            r@ == (ProxyView { policy, ..self@ }),
    {
        proof {
            use_type_invariant(&self);
        }
        ReverseProxy {
            path: self.path,
            target: self.target,
            scheme: self.scheme,
            authority: self.authority,
            target_base_path: self.target_base_path,
            target_trailing_slash: self.target_trailing_slash,
            options: self.options,
            policy,
        }
    }

    /// Get the base path this proxy is configured to handle.
    pub fn path(&self) -> (r: &str)
        ensures
            r@ == self@.path,
    {
        self.path.as_str()
    }

    /// Get the target URL this proxy forwards requests to.
    pub fn target(&self) -> (r: &str)
        ensures
            r@ == self@.target,
    {
        self.target.as_str()
    }

    /// Whether the proxy takes all requests, rather than those under a path of their own.
    pub fn mounts_at_root(&self) -> (r: bool)
        ensures
            r == (self@.path == ""@ || self@.path == "/"@),
    {
        same_text(self.path.as_str(), "") || same_text(self.path.as_str(), "/")
    }

    /// Get the policy this proxy applies.
    pub fn policy(&self) -> (r: &ProxyPolicy)
        ensures
            *r == self@.policy,
    {
        &self.policy
    }

    /// Whether this proxy buffers bodies.
    pub fn buffer_bodies(&self) -> (r: bool)
        ensures
            r == self@.buffer_bodies,
    {
        self.options.buffer_bodies
    }

    /// The part of the request path behind the mount path.
    fn remaining(&self, path: &str) -> (r: String)
        ensures
            r@ == remaining_path(self@.path, path@),
    {
        let base = without_trailing(self.path.as_str(), '/');
        let chars = chars_of(path);
        let base_len: usize = chars_of(base.as_str()).len();
        let only_slash = chars.len() == 1 && chars[0] == '/';
        proof {
            assert(only_slash <==> path@ =~= seq!['/']);
        }
        if only_slash && !same_text(self.path.as_str(), "") {
            proof {
                reveal_strlit("");
                assert(self.path@.len() == 0 ==> self.path@ =~= ""@);
            }
            String::new()
        } else {
            proof {
                reveal_strlit("");
            }
            if base_len > 0 && starts_with(path, base.as_str()) && (chars.len() == base_len
                || chars[base_len] == '/') {
                proof {
                    assert(path@.skip(base@.len() as int) =~= path@.subrange(
                        base@.len() as int,
                        path@.len() as int,
                    ));
                }
                text_of(&chars, base_len, chars.len())
            } else {
                path.to_owned()
            }
        }
    }

    /// The path and query to ask the upstream for.
    pub fn upstream_target(&self, path_and_query: &str) -> (r: String)
        ensures
            r@ == upstream_path_and_query(self@, path_and_query@),
    {
        let chars = chars_of(path_and_query);
        assert(chars@.skip(0) =~= chars@);
        let mark: usize = find_from(&chars, 0, '?');
        let path_part = text_of(&chars, 0, mark);
        assert(path_part@ =~= before(path_and_query@, '?'));
        let remaining = self.remaining(path_part.as_str());
        let mut r: String = self.target_base_path.clone();
        if same_text(remaining.as_str(), "") {
            proof {
                reveal_strlit("");
                reveal_strlit("/");
                assert("/"@ =~= seq!['/']);
            }
            if same_text(self.target_base_path.as_str(), "") {
                r.push('/');
                assert(r@ =~= seq!['/']);
            } else {
                assert(self.target_base_path@.len() > 0) by {
                    if self.target_base_path@.len() == 0 {
                        assert(self.target_base_path@ =~= ""@);
                    }
                }
                if self.target_trailing_slash {
                    r.push('/');
                }
            }
        } else {
            proof {
                reveal_strlit("");
                if remaining@.len() == 0 {
                    assert(remaining@ =~= ""@);
                }
            }
            r.append(remaining.as_str());
        }
        if mark < chars.len() {
            let query = text_of(&chars, mark + 1, chars.len());
            assert(query@ =~= path_and_query@.skip(mark + 1));
            r.push('?');
            r.append(query.as_str());
        }
        r
    }

    /// Transform an incoming request path and query into the upstream URI.
    ///
    /// - The mount path is stripped at a segment boundary.
    /// - What remains is appended to the target's path, whose trailing slash is dropped first.
    /// - Where nothing remains, the target's path is used as it was written, and a query does
    ///   not add a slash to it.
    pub fn transform_uri(&self, path_and_query: &str) -> (r: UriParts)
        requires
            is_path_and_query(upstream_path_and_query(self@, path_and_query@)),
        ensures
            r@ == upstream_uri(self@, path_and_query@),
    {
        proof {
            use_type_invariant(self);
        }
        let rest = self.upstream_target(path_and_query);
        match build_uri(self.scheme.as_str(), self.authority.as_str(), rest.as_str()) {
            Some(uri) => uri,
            None => {
                assert(false);
                UriParts { scheme: None, authority: None, path: rest, query: None }
            },
        }
    }

    /// Transform an incoming request path and query into the upstream URI, where that is one.
    pub fn try_transform_uri(&self, path_and_query: &str) -> (r: Option<UriParts>)
        ensures
            r is Some <==> is_path_and_query(upstream_path_and_query(self@, path_and_query@)),
            r matches Some(u) ==> u@ == upstream_uri(self@, path_and_query@),
    {
        proof {
            use_type_invariant(self);
        }
        let rest = self.upstream_target(path_and_query);
        build_uri(self.scheme.as_str(), self.authority.as_str(), rest.as_str())
    }

    /// The first step of proxying a single request: its path and query are transformed into the
    /// upstream URI, and the request is forwarded there under this proxy's policy.
    pub fn proxy_request(&self, req: &RequestHead) -> (r: ForwardStep)
        requires
            is_path_and_query(upstream_path_and_query(self@, req.path_and_query@)),
            has_room(header_lines(req.headers), 4),
        ensures
            is_first_step(r, upstream_uri(self@, req.path_and_query@), *req, self@.policy),
    {
        let upstream = self.transform_uri(req.path_and_query.as_str());
        forward_request(upstream, req, &self.policy)
    }
}

} // verus!
