//! Proxy routes with dynamic target resolution.
//!
//! A route's target is a static base URL, to which the part of the request path beyond the
//! route's literal prefix is appended, or a resolver that constructs the full upstream URL.
use crate::forward::{forward_request, is_first_step, ForwardStep};
use crate::headers::{has_room, header_lines};
use crate::message::{plain_answer, Answer, RequestHead};
use crate::proxy::{is_under, with_query, ProxyPolicy};
use crate::text::{
    before, chars_of, find_from, opt_str, starts_with, text_of, trim_end_matches, without_trailing,
};
use crate::uri::{
    build_uri, built_uri, is_path_and_query, origin_builds, parse_uri, parsed_uri, path_part,
    query_of, query_part, request_path, scheme_or_http, UriParts, UriView,
};
use vstd::prelude::*;
use vstd::utf8::encode_utf8;

verus! {

/// The digit that writes a number below 16, in upper case.
pub open spec fn hex_digit(n: int) -> char {
    if n < 10 {
        ((48 + n) as u8) as char
    } else {
        ((55 + n) as u8) as char
    }
}

/// A byte as a percent sign and two hexadecimal digits.
pub open spec fn percent_byte(b: u8) -> Seq<char> {
    seq!['%', hex_digit(b as int / 16), hex_digit(b as int % 16)]
}

/// `percent_encode_byte`: a percent sign and the two hexadecimal digits of the byte, in upper
/// case.
pub assume_specification[ percent_encoding::percent_encode_byte ](byte: u8) -> (r: &'static str)
    ensures
        r@ == percent_byte(byte),
;

/// Whether a byte of a template parameter is percent-encoded, so that the parameter cannot alter
/// the authority, the query or the fragment of the resolved URL: control characters, bytes
/// outside ASCII, and space, `@`, `#`, `?`, `\`, `[` and `]`. A slash is not, so that catch-all
/// parameters keep their segments.
pub open spec fn is_encoded(b: u8) -> bool {
    b < 32 || b >= 127 || b == 32 || b == 64 || b == 35 || b == 63 || b == 92 || b == 91 || b == 93
}

/// What a byte of a template parameter becomes.
pub open spec fn encoded_byte(b: u8) -> Seq<char> {
    if is_encoded(b) {
        percent_byte(b)
    } else {
        seq![b as char]
    }
}

/// What the bytes of a template parameter become.
pub open spec fn encoded_bytes(b: Seq<u8>) -> Seq<char>
    decreases b.len(),
{
    if b.len() == 0 {
        Seq::empty()
    } else {
        encoded_bytes(b.drop_last()) + encoded_byte(b.last())
    }
}

/// What a template parameter becomes.
pub open spec fn encoded(value: Seq<char>) -> Seq<char> {
    encoded_bytes(encode_utf8(value))
}

/// A template parameter, percent-encoded.
pub fn encode_parameter(value: &str) -> (r: String)
    ensures
        r@ == encoded(value@),
{
    let bytes = value.as_bytes();
    let mut r: String = String::new();
    let mut i: usize = 0;
    while i < bytes.len()
        invariant
            i <= bytes@.len(),
            r@ == encoded_bytes(bytes@.take(i as int)),
        decreases bytes.len() - i,
    {
        let b: u8 = bytes[i];
        proof {
            assert(bytes@.take(i + 1).drop_last() =~= bytes@.take(i as int));
        }
        let ghost so_far = r@;
        if b < 32 || b >= 127 || b == 32 || b == 64 || b == 35 || b == 63 || b == 92 || b == 91 || b
            == 93 {
            r.append(percent_encoding::percent_encode_byte(b));
        } else {
            r.push(b as char);
            assert(r@ =~= so_far + seq![b as char]);
        }
        i = i + 1;
    }
    assert(bytes@.take(bytes@.len() as int) =~= bytes@);
    r
}

/// `s` with every occurrence of `pattern` replaced by `with`, from the left, where occurrences do
/// not overlap.
pub open spec fn replaced(s: Seq<char>, pattern: Seq<char>, with: Seq<char>) -> Seq<char>
    recommends
        pattern.len() > 0,
    decreases s.len(),
{
    if s.len() == 0 {
        Seq::empty()
    } else if pattern.len() > 0 && pattern.is_prefix_of(s) {
        with + replaced(s.skip(pattern.len() as int), pattern, with)
    } else {
        seq![s[0]] + replaced(s.skip(1), pattern, with)
    }
}

/// Whether `pattern` stands in `v` at position `i`.
fn stands_at(v: &Vec<char>, i: usize, pattern: &Vec<char>) -> (r: bool)
    requires
        i <= v@.len(),
    ensures
        r == pattern@.is_prefix_of(v@.skip(i as int)),
{
    let ghost rest = v@.skip(i as int);
    if pattern.len() > v.len() - i {
        return false;
    }
    let mut j: usize = 0;
    while j < pattern.len()
        invariant
            i + pattern@.len() <= v.len(),
            j <= pattern@.len(),
            rest == v@.skip(i as int),
            forall|k: int| 0 <= k < j ==> rest[k] == #[trigger] pattern@[k],
        decreases pattern.len() - j,
    {
        assert(rest[j as int] == v@[i + j]);
        if v[i + j] != pattern[j] {
            return false;
        }
        j = j + 1;
    }
    assert(pattern@ =~= rest.take(pattern@.len() as int));
    true
}

/// `s` with every occurrence of `pattern` replaced by `with`.
fn replace(s: &str, pattern: &str, with: &str) -> (r: String)
    requires
        pattern@.len() > 0,
    ensures
        r@ == replaced(s@, pattern@, with@),
{
    let v = chars_of(s);
    let p = chars_of(pattern);
    let mut r: String = String::new();
    let mut i: usize = 0;
    assert(v@.skip(0) =~= v@);
    assert(r@ + replaced(v@, p@, with@) =~= replaced(v@, p@, with@));
    while i < v.len()
        invariant
            i <= v@.len(),
            p@.len() > 0,
            r@ + replaced(v@.skip(i as int), p@, with@) == replaced(v@, p@, with@),
        decreases v.len() - i,
    {
        let ghost rest = v@.skip(i as int);
        let ghost so_far = r@;
        if stands_at(&v, i, &p) {
            r.append(with);
            proof {
                assert(rest.skip(p@.len() as int) =~= v@.skip(i + p@.len()));
                assert(r@ + replaced(v@.skip(i + p@.len()), p@, with@) =~= so_far + replaced(
                    rest,
                    p@,
                    with@,
                ));
            }
            i = i + p.len();
        } else {
            r.push(v[i]);
            proof {
                assert(rest.skip(1) =~= v@.skip(i + 1));
                assert(rest[0] == v@[i as int]);
                assert(r@ + replaced(v@.skip(i + 1), p@, with@) =~= so_far + replaced(
                    rest,
                    p@,
                    with@,
                ));
            }
            i = i + 1;
        }
    }
    assert(v@.skip(v@.len() as int).len() == 0);
    assert(r@ =~= replaced(v@, p@, with@));
    r
}

/// The names and values of path parameters, as texts.
pub open spec fn param_texts(params: Seq<(String, String)>) -> Seq<(Seq<char>, Seq<char>)> {
    params.map_values(|p: (String, String)| (p.0@, p.1@))
}

/// A template with the placeholders of the parameters replaced by the percent-encoded values, one
/// parameter after the other. Placeholders without a parameter stay.
pub open spec fn resolved(template: Seq<char>, params: Seq<(Seq<char>, Seq<char>)>) -> Seq<char>
    decreases params.len(),
{
    if params.len() == 0 {
        template
    } else {
        replaced(
            resolved(template, params.drop_last()),
            placeholder(params.last().0),
            encoded(params.last().1),
        )
    }
}

/// How a template writes a parameter: its name in braces.
pub open spec fn placeholder(name: Seq<char>) -> Seq<char> {
    seq!['{'] + name + seq!['}']
}

/// A trait for resolving the target URL for a proxy request.
///
/// Implement this trait to provide custom target URL resolution logic. The resolver receives the
/// head of the request and the path parameters.
///
/// - `String` and `&'static str` are static base URLs: the part of the request path not covered
///   by the route's literal prefix is appended to the target's path.
/// - [`TemplateTarget`] is a URL with `{param}` substitution, used verbatim.
pub trait TargetResolver: Clone + Send + Sync + 'static {
    /// Resolve the target URL based on the request and path parameters.
    fn resolve(&self, req: &RequestHead, params: &[(String, String)]) -> String;

    /// Whether the resolved URL is a base URL that the request's remaining path should be
    /// appended to. When false (the default), the resolved URL's path is used verbatim.
    fn is_base_url(&self) -> (r: bool)
        default_ensures
            !r,
    {
        false
    }
}

impl TargetResolver for String {
    fn resolve(&self, req: &RequestHead, params: &[(String, String)]) -> (r: String)
        ensures
            r@ == self@,
    {
        self.clone()
    }

    fn is_base_url(&self) -> (r: bool)
        ensures
            r,
    {
        true
    }
}

impl TargetResolver for &'static str {
    fn resolve(&self, req: &RequestHead, params: &[(String, String)]) -> (r: String)
        ensures
            r@ == self@,
    {
        (*self).to_owned()
    }

    fn is_base_url(&self) -> (r: bool)
        ensures
            r,
    {
        true
    }
}

/// A template-based target resolver that substitutes path parameters into a URL template.
///
/// Template placeholders use the format `{param_name}` and are replaced with the corresponding
/// path parameter values from the request, percent-encoded so that they cannot alter the URL's
/// authority, query or fragment.
pub struct TemplateTarget {
    template: String,
}

impl View for TemplateTarget {
    type V = Seq<char>;

    closed spec fn view(&self) -> Seq<char> {
        self.template@
    }
}

impl Clone for TemplateTarget {
    fn clone(&self) -> (r: Self)
        ensures
            r@ == self@,
    {
        TemplateTarget { template: self.template.clone() }
    }
}

impl TemplateTarget {
    /// Create a new template target with the given URL template.
    pub fn new(template: &str) -> (r: Self)
        ensures
            r@ == template@,
    {
        TemplateTarget { template: template.to_owned() }
    }
}

impl TargetResolver for TemplateTarget {
    fn resolve(&self, req: &RequestHead, params: &[(String, String)]) -> (r: String)
        ensures
            r@ == resolved(self@, param_texts(params@)),
    {
        let ghost all = param_texts(params@);
        let mut result: String = self.template.clone();
        let mut i: usize = 0;
        assert(all.take(0) =~= Seq::empty());
        while i < params.len()
            invariant
                i <= params@.len(),
                all == param_texts(params@),
                result@ == resolved(self@, all.take(i as int)),
            decreases params.len() - i,
        {
            let mut pattern: String = String::new();
            pattern.push('{');
            pattern.append(params[i].0.as_str());
            pattern.push('}');
            let value = encode_parameter(params[i].1.as_str());
            proof {
                assert(all.take(i + 1).drop_last() =~= all.take(i as int));
                assert(pattern@ =~= placeholder(all[i as int].0));
            }
            result = replace(result.as_str(), pattern.as_str(), value.as_str());
            i = i + 1;
        }
        assert(all.take(all.len() as int) =~= all);
        result
    }

    fn is_base_url(&self) -> (r: bool)
        ensures
            !r,
    {
        false
    }
}

/// Create a new [`TemplateTarget`] with the given URL template.
pub fn proxy_template(template: &str) -> (r: TemplateTarget)
    ensures
        r@ == template@,
{
    TemplateTarget::new(template)
}

/// The literal prefix of a route pattern: everything before the first path parameter, without a
/// trailing slash.
pub open spec fn literal_prefix(pattern: Seq<char>) -> Seq<char> {
    trim_end_matches(before(pattern, '{'), '/')
}

/// The literal prefix of a route pattern. E.g. `/api/{*rest}` -> `/api`.
pub fn route_literal_prefix(pattern: &str) -> (r: String)
    ensures
        r@ == literal_prefix(pattern@),
{
    let v = chars_of(pattern);
    assert(v@.skip(0) =~= v@);
    let i: usize = find_from(&v, 0, '{');
    assert(v@.subrange(0, i as int) =~= v@.take(i as int));
    without_trailing(text_of(&v, 0, i).as_str(), '/')
}

/// The path without the prefix, where that ends at a segment boundary; the whole path otherwise.
pub open spec fn without_prefix(path: Seq<char>, prefix: Seq<char>) -> Seq<char> {
    if is_under(prefix, path) {
        path.skip(prefix.len() as int)
    } else {
        path
    }
}

/// Strip the route's literal prefix from a request path at a segment boundary. Returns the
/// remainder, or the full path when the prefix does not apply.
pub fn strip_route_prefix(path: &str, prefix: &str) -> (r: String)
    ensures
        r@ == without_prefix(path@, prefix@),
{
    let v = chars_of(path);
    let n: usize = chars_of(prefix).len();
    if n > 0 && starts_with(path, prefix) && (v.len() == n || v[n] == '/') {
        assert(path@.skip(n as int) =~= path@.subrange(n as int, path@.len() as int));
        text_of(&v, n, v.len())
    } else {
        path.to_owned()
    }
}

/// Why there is no upstream URI.
#[derive(Clone, Copy, Debug, PartialEq, Eq, Structural)]
pub enum UpstreamUriError {
    /// The target URL has no authority (host).
    MissingAuthority,
    /// The parts do not make a URI.
    Invalid,
}

/// The path to ask for: the target's path with what is to be appended behind it.
pub open spec fn target_path(target: UriView, append: Option<Seq<char>>) -> Seq<char> {
    match append {
        Some(rest) => if rest.len() == 0 {
            target.path
        } else {
            trim_end_matches(target.path, '/') + rest
        },
        None => target.path,
    }
}

/// The path and query to ask for: the target's query, or else the request's.
pub open spec fn target_path_and_query(
    target: UriView,
    query: Option<Seq<char>>,
    append: Option<Seq<char>>,
) -> Seq<char> {
    with_query(
        target_path(target, append),
        match target.query {
            Some(q) => Some(q),
            None => query,
        },
    )
}

/// Whether a target can be asked: it has an authority, and its parts make a URI.
pub open spec fn can_build(
    target: UriView,
    query: Option<Seq<char>>,
    append: Option<Seq<char>>,
) -> bool {
    &&& target.authority is Some
    &&& origin_builds(scheme_or_http(target), target.authority->0)
    &&& is_path_and_query(target_path_and_query(target, query, append))
}

/// The upstream URI for a target.
pub open spec fn target_uri(
    target: UriView,
    query: Option<Seq<char>>,
    append: Option<Seq<char>>,
) -> UriView {
    built_uri(
        scheme_or_http(target),
        target.authority->0,
        target_path_and_query(target, query, append),
    )
}

/// Build the upstream URI from the target and the request's query.
///
/// When `append_path` is given (base-URL targets), it is joined onto the target's path. The query
/// string is the target's own, falling back to the request's.
pub fn build_upstream_uri(
    target: &UriParts,
    request_query: Option<&str>,
    append_path: Option<&str>,
) -> (r: Result<UriParts, UpstreamUriError>)
    ensures
        r is Ok <==> can_build(target@, opt_str(request_query), opt_str(append_path)),
        r matches Ok(u) ==> u@ == target_uri(
            target@,
            opt_str(request_query),
            opt_str(append_path),
        ),
        r == Err::<UriParts, UpstreamUriError>(UpstreamUriError::MissingAuthority)
            <==> target.authority is None,
{
    let scheme: &str = match &target.scheme {
        Some(s) => s.as_str(),
        None => "http",
    };
    let authority: &str = match &target.authority {
        Some(a) => a.as_str(),
        None => {
            return Err(UpstreamUriError::MissingAuthority);
        },
    };
    let mut rest: String = match append_path {
        Some(append) => {
            if chars_of(append).len() == 0 {
                target.path.clone()
            } else {
                let mut base = without_trailing(target.path.as_str(), '/');
                base.append(append);
                base
            }
        },
        None => target.path.clone(),
    };
    match (&target.query, request_query) {
        (Some(q), _) => {
            rest.push('?');
            rest.append(q.as_str());
        },
        (None, Some(q)) => {
            rest.push('?');
            rest.append(q);
        },
        (None, None) => {},
    }
    assert(rest@ == target_path_and_query(target@, opt_str(request_query), opt_str(append_path)));
    match build_uri(scheme, authority, rest.as_str()) {
        Some(uri) => Ok(uri),
        None => Err(UpstreamUriError::Invalid),
    }
}

/// What is appended to a target: for a base URL the request's path beyond the route's literal
/// prefix, otherwise nothing.
pub open spec fn appended_path(
    is_base_url: bool,
    path_and_query: Seq<char>,
    route_prefix: Seq<char>,
) -> Option<Seq<char>> {
    if is_base_url {
        Some(without_prefix(request_path(path_and_query), route_prefix))
    } else {
        None
    }
}

/// Whether `step` is the first step of forwarding `req` to the target that parsed as `target`: a
/// 500 where there is no such target, or none that can be asked.
pub open spec fn is_routed_step(
    step: ForwardStep,
    target: Option<UriView>,
    is_base_url: bool,
    req: RequestHead,
    policy: ProxyPolicy,
    route_prefix: Seq<char>,
) -> bool {
    let query = query_of(req.path_and_query@);
    let append = appended_path(is_base_url, req.path_and_query@, route_prefix);
    match target {
        Some(t) => if can_build(t, query, append) {
            is_first_step(step, target_uri(t, query, append), req, policy)
        } else {
            step matches ForwardStep::Answer(a) && a@ == plain_answer(500, "Invalid proxy target"@)
        },
        None => step matches ForwardStep::Answer(a) && a@ == plain_answer(
            500,
            "Invalid proxy target"@,
        ),
    }
}

/// The first step of forwarding a request to a target that was resolved, given the parts of the
/// target URL where it is valid.
pub fn forward_to_target(
    target: Option<UriParts>,
    is_base_url: bool,
    req: &RequestHead,
    policy: &ProxyPolicy,
    route_prefix: &str,
) -> (r: ForwardStep)
    requires
        has_room(header_lines(req.headers), 4),
    ensures
        is_routed_step(
            r,
            match target {
                Some(t) => Some(t@),
                None => None,
            },
            is_base_url,
            *req,
            *policy,
            route_prefix@,
        ),
{
    let uri = match target {
        Some(uri) => uri,
        None => {
            return ForwardStep::Answer(Answer::plain(500, "Invalid proxy target"));
        },
    };
    let query = query_part(req.path_and_query.as_str());
    let append: Option<String> = if is_base_url {
        Some(strip_route_prefix(path_part(req.path_and_query.as_str()).as_str(), route_prefix))
    } else {
        None
    };
    match build_upstream_uri(
        &uri,
        crate::text::as_str_opt(&query),
        crate::text::as_str_opt(&append),
    ) {
        Ok(upstream) => forward_request(upstream, req, policy),
        Err(_) => ForwardStep::Answer(Answer::plain(500, "Invalid proxy target")),
    }
}

/// The first step of forwarding a request to the target URL that was resolved for it.
pub fn route_request(
    target_url: &str,
    is_base_url: bool,
    req: &RequestHead,
    policy: &ProxyPolicy,
    route_prefix: &str,
) -> (r: ForwardStep)
    requires
        has_room(header_lines(req.headers), 4),
    ensures
        is_routed_step(r, parsed_uri(target_url@), is_base_url, *req, *policy, route_prefix@),
{
    let target: Option<UriParts> = match parse_uri(target_url) {
        Ok(uri) => Some(uri),
        Err(_) => None,
    };
    forward_to_target(target, is_base_url, req, policy, route_prefix)
}

/// The first step of proxying a request on a route: the resolver says where to, and the request
/// is forwarded there.
pub fn proxy_request<T: TargetResolver>(
    target: &T,
    params: &[(String, String)],
    req: &RequestHead,
    policy: &ProxyPolicy,
    route_prefix: &str,
) -> (r: ForwardStep)
    requires
        has_room(header_lines(req.headers), 4),
    ensures
        exists|url: String, is_base_url: bool|
            call_ensures(T::resolve, (target, req, params), url) && call_ensures(
                T::is_base_url,
                (target,),
                is_base_url,
            ) && #[trigger] is_routed_step(
                r,
                parsed_uri(url@),
                is_base_url,
                *req,
                *policy,
                route_prefix@,
            ),
{
    let url = target.resolve(req, params);
    let is_base_url = target.is_base_url();
    let step = route_request(url.as_str(), is_base_url, req, policy, route_prefix);
    assert(is_routed_step(step, parsed_uri(url@), is_base_url, *req, *policy, route_prefix@));
    step
}

} // verus!
