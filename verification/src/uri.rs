//! URIs by their parts.
use crate::text::{after, before, chars_of, clone_text, find_from, opt_text, text_of};
use vstd::prelude::*;
use vstd::utf8::encode_utf8;

verus! {

/// `http::uri::InvalidUri`, opaque.
#[verifier::external_type_specification]
#[verifier::external_body]
pub struct ExInvalidUri(http::uri::InvalidUri);

/// The parts of a URI as texts.
pub struct UriView {
    pub scheme: Option<Seq<char>>,
    pub authority: Option<Seq<char>>,
    pub path: Seq<char>,
    pub query: Option<Seq<char>>,
}

/// The parts of a URI.
#[derive(Debug, PartialEq, Eq)]
pub struct UriParts {
    pub scheme: Option<String>,
    pub authority: Option<String>,
    pub path: String,
    pub query: Option<String>,
}

impl Clone for UriParts {
    fn clone(&self) -> (r: Self)
        ensures
            r == *self,
    {
        UriParts {
            scheme: clone_text(&self.scheme),
            authority: clone_text(&self.authority),
            path: self.path.clone(),
            query: clone_text(&self.query),
        }
    }
}

impl View for UriParts {
    type V = UriView;

    open spec fn view(&self) -> UriView {
        UriView {
            scheme: opt_text(self.scheme),
            authority: opt_text(self.authority),
            path: self.path@,
            query: opt_text(self.query),
        }
    }
}

/// The parts of the URI that `text` writes, if it writes one.
pub uninterp spec fn parsed_uri(text: Seq<char>) -> Option<UriView>;

/// Whether a URI can be built with this scheme and this authority.
pub uninterp spec fn origin_builds(scheme: Seq<char>, authority: Seq<char>) -> bool;

/// A character that a path may hold.
pub open spec fn is_path_char(c: char) -> bool {
    ||| c == '!'
    ||| c == '"'
    ||| '$' <= c <= ';'
    ||| c == '='
    ||| '@' <= c <= '_'
    ||| 'a' <= c <= '~'
    ||| c >= '\u{80}'
}

/// A character that a query may hold.
pub open spec fn is_query_char(c: char) -> bool {
    ||| c == '!'
    ||| '$' <= c <= ';'
    ||| c == '='
    ||| '?' <= c <= '~'
    ||| c >= '\u{80}'
}

/// Whether a path may hold every character of `s`.
pub open spec fn all_path_chars(s: Seq<char>) -> bool {
    forall|i: int| 0 <= i < s.len() ==> #[trigger] is_path_char(s[i])
}

/// Whether a query may hold every character of `s`.
pub open spec fn all_query_chars(s: Seq<char>) -> bool {
    forall|i: int| 0 <= i < s.len() ==> #[trigger] is_query_char(s[i])
}

/// Whether `s` can stand behind the authority of a URI: a path from a slash on, or no path, then
/// a query if there is a question mark; what follows a number sign is free. A lone asterisk can
/// stand there too.
pub open spec fn is_path_and_query(s: Seq<char>) -> bool {
    let kept = before(s, '#');
    &&& encode_utf8(s).len() <= 65534
    &&& s.len() == 0 || s == seq!['*'] || {
        &&& s[0] == '/' || s[0] == '?' || s[0] == '#'
        &&& all_path_chars(before(kept, '?'))
        &&& after(kept, '?') matches Some(q) ==> all_query_chars(q)
    }
}

/// The path of a path and query: what stands in front of the query and the fragment, `/` if
/// nothing does.
pub open spec fn path_of(s: Seq<char>) -> Seq<char> {
    let p = before(before(s, '#'), '?');
    if p.len() == 0 {
        seq!['/']
    } else {
        p
    }
}

/// The query of a path and query, without the fragment.
pub open spec fn query_of(s: Seq<char>) -> Option<Seq<char>> {
    after(before(s, '#'), '?')
}

/// The scheme of a URI, `http` if it has none.
pub open spec fn scheme_or_http(u: UriView) -> Seq<char> {
    match u.scheme {
        Some(s) => s,
        None => "http"@,
    }
}

/// The parts of the URI made of a scheme, an authority, and a path and query.
pub open spec fn built_uri(
    scheme: Seq<char>,
    authority: Seq<char>,
    path_and_query: Seq<char>,
) -> UriView {
    UriView {
        scheme: Some(scheme),
        authority: Some(authority),
        path: path_of(path_and_query),
        query: query_of(path_and_query),
    }
}

/// What holds of the parts of every URI that parses: the path holds path characters and neither
/// `?` nor `#`; the query holds query characters and no `#`; where there is an authority, the path
/// is empty or starts with a slash, and a URI can be built again with that authority and the
/// scheme; where there is a scheme, the path is not empty.
pub open spec fn is_parsed(u: UriView) -> bool {
    &&& all_path_chars(u.path)
    &&& !u.path.contains('?')
    &&& !u.path.contains('#')
    &&& u.query matches Some(q) ==> all_query_chars(q) && !q.contains('#')
    &&& u.authority matches Some(a) ==> (u.path.len() == 0 || u.path[0] == '/') && origin_builds(
        scheme_or_http(u),
        a,
    )
    &&& u.scheme is Some ==> u.path.len() > 0
}

/// The parts of a URI that parsed, as texts.
pub open spec fn opt_uri(r: Result<UriParts, http::uri::InvalidUri>) -> Option<UriView> {
    match r {
        Ok(u) => Some(u@),
        Err(_) => None,
    }
}

/// `Uri::from_str`: the parts of the URI that `text` writes. Of the parts, `is_parsed` is
/// claimed: the parser refuses other characters in a path and in a query, ends a path at `?` and
/// both at `#`, starts a path at the first slash behind the authority, and checks scheme and
/// authority as `uri::Builder` does; `Uri::path` is `/` where a URI with a scheme writes no path.
#[verifier::external_body]
pub(crate) fn parse_uri(text: &str) -> (r: Result<UriParts, http::uri::InvalidUri>)
    ensures
        opt_uri(r) == parsed_uri(text@),
        r matches Ok(u) ==> is_parsed(u@),
{
    let uri: http::Uri = text.parse()?;
    Ok(UriParts {
        scheme: uri.scheme_str().map(str::to_owned),
        authority: uri.authority().map(|a| a.as_str().to_owned()),
        path: uri.path().to_owned(),
        query: uri.query().map(str::to_owned),
    })
}

/// `uri::Builder` with a scheme, an authority, and a path and query: it fails where it refuses
/// scheme or authority, which `origin_builds` names, or where the third is no path and query.
/// Otherwise the URI has the scheme and the authority as they are given, and the path and the
/// query of the third without a fragment.
#[verifier::external_body]
pub(crate) fn build_uri(scheme: &str, authority: &str, rest: &str) -> (r: Option<UriParts>)
    ensures
        (r is Some) == (origin_builds(scheme@, authority@) && is_path_and_query(rest@)),
        r matches Some(u) ==> u@ == built_uri(scheme@, authority@, rest@),
{
    let builder = http::uri::Builder::new().scheme(scheme).authority(authority);
    let uri = builder.path_and_query(rest).build().ok()?;
    Some(UriParts {
        scheme: uri.scheme_str().map(str::to_owned),
        authority: uri.authority().map(|a| a.as_str().to_owned()),
        path: uri.path().to_owned(),
        query: uri.query().map(str::to_owned),
    })
}

/// The text of a URI: scheme and `://`, authority, path, `?` and query, as far as they are
/// present.
pub open spec fn uri_text(u: UriView) -> Seq<char> {
    let scheme = match u.scheme {
        Some(s) => s + "://"@,
        None => Seq::empty(),
    };
    let authority = match u.authority {
        Some(a) => a,
        None => Seq::empty(),
    };
    let query = match u.query {
        Some(q) => "?"@ + q,
        None => Seq::empty(),
    };
    scheme + authority + u.path + query
}

impl UriParts {
    /// The parts of the URI that a text writes, if it writes one.
    pub fn parse(text: &str) -> (r: Option<UriParts>)
        ensures
            (r is Some) == (parsed_uri(text@) is Some),
            r matches Some(u) ==> parsed_uri(text@) == Some(u@) && is_parsed(u@),
    {
        match parse_uri(text) {
            Ok(u) => Some(u),
            Err(_) => None,
        }
    }

    /// The text of this URI.
    pub fn text(&self) -> (r: String)
        ensures
            r@ == uri_text(self@),
    {
        let mut r: String = String::new();
        if let Some(s) = &self.scheme {
            r.append(s.as_str());
            r.append("://");
        }
        if let Some(a) = &self.authority {
            r.append(a.as_str());
        }
        r.append(self.path.as_str());
        if let Some(q) = &self.query {
            r.append("?");
            r.append(q.as_str());
        }
        proof {
            assert(r@ =~= uri_text(self@));
        }
        r
    }
}

/// The path of a request: what stands in front of its query, `/` if nothing does; empty where
/// the request has neither.
pub open spec fn request_path(path_and_query: Seq<char>) -> Seq<char> {
    if path_and_query.len() == 0 {
        Seq::empty()
    } else {
        path_of(path_and_query)
    }
}

/// What stands in front of the first `c`.
fn front_of(s: &str, c: char) -> (r: String)
    ensures
        r@ == before(s@, c),
{
    let v = chars_of(s);
    assert(v@.skip(0) =~= v@);
    let i: usize = find_from(&v, 0, c);
    assert(v@.subrange(0, i as int) =~= v@.take(i as int));
    text_of(&v, 0, i)
}

/// The path of a request's path and query.
pub fn path_part(path_and_query: &str) -> (r: String)
    ensures
        r@ == request_path(path_and_query@),
{
    if chars_of(path_and_query).len() == 0 {
        return String::new();
    }
    let path = front_of(front_of(path_and_query, '#').as_str(), '?');
    if chars_of(path.as_str()).len() == 0 {
        let mut r: String = String::new();
        r.push('/');
        assert(r@ =~= seq!['/']);
        r
    } else {
        path
    }
}

/// The query of a request's path and query.
pub fn query_part(path_and_query: &str) -> (r: Option<String>)
    ensures
        opt_text(r) == query_of(path_and_query@),
{
    let kept = front_of(path_and_query, '#');
    let v = chars_of(kept.as_str());
    assert(v@.skip(0) =~= v@);
    let i: usize = find_from(&v, 0, '?');
    if i < v.len() {
        let q = text_of(&v, i + 1, v.len());
        assert(q@ =~= v@.skip(i + 1));
        Some(q)
    } else {
        None
    }
}

} // verus!
