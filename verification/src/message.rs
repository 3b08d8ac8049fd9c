//! Requests and answers, as far as the proxy's decisions read them.
use crate::headers::{header_lines, header_map_clone, Headers, Lines};
use crate::text::{clone_text, opt_text};
use vstd::prelude::*;

verus! {

/// The version of HTTP over which a message was received.
#[derive(Clone, Copy, Debug, PartialEq, Eq, Structural)]
pub enum HttpVersion {
    Http09,
    Http10,
    Http11,
    Http2,
    Http3,
    /// Any version that this library does not know.
    Other,
}

/// How a version is written in a `Via` header; unknown versions count as 1.1.
pub open spec fn version_text(v: HttpVersion) -> Seq<char> {
    match v {
        HttpVersion::Http09 => "0.9"@,
        HttpVersion::Http10 => "1.0"@,
        HttpVersion::Http11 => "1.1"@,
        HttpVersion::Http2 => "2.0"@,
        HttpVersion::Http3 => "3.0"@,
        HttpVersion::Other => "1.1"@,
    }
}

impl HttpVersion {
    /// How this version is written in a `Via` header.
    pub fn text(&self) -> (r: &'static str)
        ensures
            r@ == version_text(*self),
    {
        match self {
            HttpVersion::Http09 => "0.9",
            HttpVersion::Http10 => "1.0",
            HttpVersion::Http11 => "1.1",
            HttpVersion::Http2 => "2.0",
            HttpVersion::Http3 => "3.0",
            HttpVersion::Other => "1.1",
        }
    }
}

/// A request without its body.
pub struct RequestHead {
    /// The method, as it was sent.
    pub method: String,
    /// The scheme of the request's URI, where it has one.
    pub scheme: Option<String>,
    /// The authority of the request's URI, where it has one.
    pub authority: Option<String>,
    /// The path and query of the request's URI, empty where it has none.
    pub path_and_query: String,
    /// The version over which the request came.
    pub version: HttpVersion,
    /// The header fields.
    pub headers: Headers,
    /// The IP address of the client, where it is known.
    pub client_address: Option<String>,
}

/// What a [`RequestHead`] holds.
pub struct HeadView {
    pub method: Seq<char>,
    pub scheme: Option<Seq<char>>,
    pub authority: Option<Seq<char>>,
    pub path_and_query: Seq<char>,
    pub version: HttpVersion,
    pub headers: Lines,
    pub client_address: Option<Seq<char>>,
}

impl View for RequestHead {
    type V = HeadView;

    open spec fn view(&self) -> HeadView {
        HeadView {
            method: self.method@,
            scheme: opt_text(self.scheme),
            authority: opt_text(self.authority),
            path_and_query: self.path_and_query@,
            version: self.version,
            headers: header_lines(self.headers),
            client_address: opt_text(self.client_address),
        }
    }
}

impl Clone for RequestHead {
    fn clone(&self) -> (r: Self)
        ensures
            r@ == self@,
    {
        RequestHead {
            method: self.method.clone(),
            scheme: clone_text(&self.scheme),
            authority: clone_text(&self.authority),
            path_and_query: self.path_and_query.clone(),
            version: self.version,
            headers: header_map_clone(&self.headers),
            client_address: clone_text(&self.client_address),
        }
    }
}

/// Error details for a request the proxy failed to forward.
///
/// When forwarding fails, the proxy responds with a generic `502 Bad Gateway` and attaches this
/// to the response. Retries use it to tell a failure to reach the upstream from a genuine 502
/// returned by the upstream.
#[derive(Debug)]
pub struct ProxyError {
    message: String,
    is_connect: bool,
}

/// What a [`ProxyError`] says.
pub struct ErrorView {
    pub message: Seq<char>,
    pub is_connect: bool,
}

impl View for ProxyError {
    type V = ErrorView;

    closed spec fn view(&self) -> ErrorView {
        ErrorView { message: self.message@, is_connect: self.is_connect }
    }
}

impl Clone for ProxyError {
    fn clone(&self) -> (r: Self)
        ensures
            r@ == self@,
    {
        ProxyError { message: self.message.clone(), is_connect: self.is_connect }
    }
}

impl ProxyError {
    /// An error with its message, and whether it came up while connecting.
    pub(crate) fn new(message: &str, is_connect: bool) -> (r: Self)
        ensures
            r@ == (ErrorView { message: message@, is_connect }),
    {
        ProxyError { message: message.to_owned(), is_connect }
    }

    /// Whether the error occurred while establishing the upstream connection, meaning the
    /// request was never sent and is safe to retry regardless of method.
    pub fn is_connect(&self) -> (r: bool)
        ensures
            r == self@.is_connect,
    {
        self.is_connect
    }

    /// The underlying error message. This may contain internal details (addresses, hostnames);
    /// expose it to clients deliberately, if at all.
    pub fn message(&self) -> (r: &str)
        ensures
            r@ == self@.message,
    {
        self.message.as_str()
    }
}

/// A response that the proxy makes itself.
pub struct Answer {
    pub status: u16,
    pub body: &'static str,
    /// What went wrong, where the request could not be forwarded.
    pub error: Option<ProxyError>,
}

/// What an [`Answer`] says.
pub struct AnswerView {
    pub status: u16,
    pub body: Seq<char>,
    pub error: Option<ErrorView>,
}

impl View for Answer {
    type V = AnswerView;

    open spec fn view(&self) -> AnswerView {
        AnswerView {
            status: self.status,
            body: self.body@,
            error: match self.error {
                Some(e) => Some(e@),
                None => None,
            },
        }
    }
}

/// An answer with a status and a text, and no error attached.
pub open spec fn plain_answer(status: u16, body: Seq<char>) -> AnswerView {
    AnswerView { status, body, error: None }
}

/// An answer with status 502, a generic text, and the error attached.
pub open spec fn failed_answer(
    body: Seq<char>,
    message: Seq<char>,
    is_connect: bool,
) -> AnswerView {
    AnswerView { status: 502, body, error: Some(ErrorView { message, is_connect }) }
}

impl Answer {
    /// An answer with no error attached.
    pub(crate) fn plain(status: u16, body: &'static str) -> (r: Self)
        ensures
            r@ == plain_answer(status, body@),
    {
        Answer { status, body, error: None }
    }

    /// A 502 with the error attached.
    pub(crate) fn failed(body: &'static str, message: &str, is_connect: bool) -> (r: Self)
        ensures
            r@ == failed_answer(body@, message@, is_connect),
    {
        Answer { status: 502, body, error: Some(ProxyError::new(message, is_connect)) }
    }
}

} // verus!
