//! WebSocket upgrades: when a request asks for one, what is asked of the upstream, what the
//! client is answered, and how the two connections are relayed.
use crate::headers::{
    copy_without, first_text, has_room, header_first_text, header_insert, header_lines,
    header_map_new, header_present, is_stored_name, lemma_text_value_reads_back, no_lines,
    text_value, value_of_text, Headers, Lines,
};
use crate::proxy::{host_to_send, ProxyPolicy};
use crate::text::{
    decimal, decimal_text, lower, opt_str, opt_text, same_ignoring_case, same_text, split, split_on,
    texts, trim, trimmed,
};
use crate::uri::{uri_text, UriParts, UriView};
use core::time::Duration;
use vstd::prelude::*;
use vstd::utf8::encode_utf8;

verus! {

/// The SHA-1 digest of some bytes.
pub uninterp spec fn sha1_digest(data: Seq<u8>) -> Seq<u8>;

/// Host and port of the URL that `text` writes, the port only where it differs from the default
/// of the scheme; or what is wrong with it.
pub uninterp spec fn parsed_url(text: Seq<char>) -> Result<
    (Option<Seq<char>>, Option<u16>),
    Seq<char>,
>;

/// Host and port of a URL.
pub struct UrlHost {
    pub host: Option<String>,
    pub port: Option<u16>,
}

/// Host and port of a URL, or what is wrong with it, as texts.
pub open spec fn url_view(r: Result<UrlHost, String>) -> Result<
    (Option<Seq<char>>, Option<u16>),
    Seq<char>,
> {
    match r {
        Ok(u) => Ok((opt_text(u.host), u.port)),
        Err(message) => Err(message@),
    }
}

/// `Sha1::digest`: the SHA-1 digest of the bytes, which has 20 bytes.
#[verifier::external_body]
pub(crate) fn sha1(data: &Vec<u8>) -> (r: Vec<u8>)
    ensures
        r@ == sha1_digest(data@),
        r@.len() == 20,
{
    <sha1::Sha1 as sha1::Digest>::digest(data).to_vec()
}

/// `Url::parse`, `Url::host_str` and `Url::port`: host and port of the URL that `text` writes, or
/// the text of the `url::ParseError`.
#[verifier::external_body]
pub(crate) fn parse_url(text: &str) -> (r: Result<UrlHost, String>)
    ensures
        url_view(r) == parsed_url(text@),
{
    let url = url::Url::parse(text).map_err(|e| e.to_string())?;
    Ok(UrlHost { host: url.host_str().map(str::to_owned), port: url.port() })
}

/// The character that stands for six bits in base 64.
pub open spec fn base64_char(n: int) -> char {
    if n < 26 {
        ((65 + n) as u8) as char
    } else if n < 52 {
        ((97 + n - 26) as u8) as char
    } else if n < 62 {
        ((48 + n - 52) as u8) as char
    } else if n == 62 {
        '+'
    } else {
        '/'
    }
}

/// Bytes in base 64: three bytes make four characters of six bits each, from the highest bits
/// on; one or two bytes at the end are filled up with zero bits and then with `=`.
pub open spec fn base64_text(b: Seq<u8>) -> Seq<char>
    decreases b.len(),
{
    if b.len() == 0 {
        Seq::empty()
    } else if b.len() == 1 {
        seq![base64_char(b[0] as int / 4), base64_char(b[0] as int % 4 * 16), '=', '=']
    } else if b.len() == 2 {
        seq![
            base64_char(b[0] as int / 4),
            base64_char(b[0] as int % 4 * 16 + b[1] as int / 16),
            base64_char(b[1] as int % 16 * 4),
            '=',
        ]
    } else {
        seq![
            base64_char(b[0] as int / 4),
            base64_char(b[0] as int % 4 * 16 + b[1] as int / 16),
            base64_char(b[1] as int % 16 * 4 + b[2] as int / 64),
            base64_char(b[2] as int % 64),
        ] + base64_text(b.skip(3))
    }
}

/// `Engine::encode` of `base64`'s `STANDARD` engine: the bytes in base 64, with padding.
#[verifier::external_body]
pub(crate) fn base64_encode(data: &Vec<u8>) -> (r: String)
    requires
        data@.len() <= 0x1000_0000,
    ensures
        r@ == base64_text(data@),
{
    base64::Engine::encode(&base64::engine::general_purpose::STANDARD, data)
}

/// Text in base 64 is printable.
proof fn lemma_base64_is_printable(b: Seq<u8>)
    ensures
        forall|i: int|
            0 <= i < base64_text(b).len() ==> ' ' <= #[trigger] base64_text(b)[i] < '\u{7f}',
    decreases b.len(),
{
    if b.len() > 2 {
        lemma_base64_is_printable(b.skip(3));
        let rest = base64_text(b.skip(3));
        assert forall|i: int| 0 <= i < base64_text(b).len() implies ' ' <= #[trigger] base64_text(
            b,
        )[i] < '\u{7f}' by {
            if i >= 4 {
                assert(base64_text(b)[i] == rest[i - 4]);
            }
        }
    }
}

/// The key that a WebSocket server appends to the client's.
pub open spec fn websocket_guid() -> Seq<char> {
    "258EAFA5-E914-47DA-95CA-C5AB0DC85B11"@
}

/// The answer to a client's WebSocket key.
pub open spec fn accept_key(key: Seq<char>) -> Seq<char> {
    base64_text(sha1_digest(encode_utf8(key) + encode_utf8(websocket_guid())))
}

/// The answer to a client's WebSocket key: the SHA-1 digest of the key and a fixed text, in base
/// 64.
pub fn websocket_accept(key: &str) -> (r: String)
    ensures
        r@ == accept_key(key@),
{
    let mut data: Vec<u8> = Vec::new();
    let a = key.as_bytes();
    let b = "258EAFA5-E914-47DA-95CA-C5AB0DC85B11".as_bytes();
    data.extend_from_slice(a);
    data.extend_from_slice(b);
    assert(data@ =~= encode_utf8(key@) + encode_utf8(websocket_guid()));
    let digest = sha1(&data);
    base64_encode(&digest)
}

/// Whether a list of tokens, with commas between them, holds `token`, whatever the case.
pub open spec fn has_token(list: Seq<char>, token: Seq<char>) -> bool {
    exists|i: int|
        0 <= i < split(list, ',').len() && lower(trim(#[trigger] split(list, ',')[i])) == lower(
            token,
        )
}

/// Whether a list of tokens holds `token`.
pub fn holds_token(list: &str, token: &str) -> (r: bool)
    ensures
        r == has_token(list@, token@),
{
    let parts = split_on(list, ',');
    let ghost all = texts(parts@);
    let mut i: usize = 0;
    while i < parts.len()
        invariant
            i <= parts@.len(),
            all == texts(parts@),
            all == split(list@, ','),
            forall|j: int| 0 <= j < i ==> lower(trim(#[trigger] all[j])) != lower(token@),
        decreases parts.len() - i,
    {
        assert(all[i as int] == parts@[i as int]@);
        if same_ignoring_case(trimmed(parts[i].as_str()).as_str(), token) {
            return true;
        }
        i = i + 1;
    }
    false
}

/// Whether a request asks for an upgrade to WebSocket: `Upgrade` is `websocket`, `Connection`
/// holds the token `upgrade`, and key and version of the handshake are there.
pub open spec fn asks_for_websocket(m: Lines) -> bool {
    &&& first_text(m, "upgrade"@) matches Some(t) && lower(t) == lower("websocket"@)
    &&& first_text(m, "connection"@) matches Some(t) && has_token(t, "upgrade"@)
    &&& m.contains_key("sec-websocket-key"@)
    &&& m.contains_key("sec-websocket-version"@)
}

/// The names of the handshake are stored names.
pub proof fn lemma_websocket_names()
    ensures
        is_stored_name("upgrade"@),
        is_stored_name("connection"@),
        is_stored_name("host"@),
        is_stored_name("sec-websocket-key"@),
        is_stored_name("sec-websocket-version"@),
        is_stored_name("sec-websocket-accept"@),
{
    reveal_strlit("upgrade");
    reveal_strlit("connection");
    reveal_strlit("host");
    reveal_strlit("sec-websocket-key");
    reveal_strlit("sec-websocket-version");
    reveal_strlit("sec-websocket-accept");
}

/// Check if a request is a WebSocket upgrade request.
pub fn is_websocket_upgrade(headers: &Headers) -> (r: bool)
    ensures
        r == asks_for_websocket(header_lines(*headers)),
{
    proof {
        lemma_websocket_names();
    }
    let has_upgrade = match header_first_text(headers, "upgrade") {
        Some(t) => same_ignoring_case(t.as_str(), "websocket"),
        None => false,
    };
    let has_connection = match header_first_text(headers, "connection") {
        Some(t) => holds_token(t.as_str(), "upgrade"),
        None => false,
    };
    has_upgrade && has_connection && header_present(headers, "sec-websocket-key") && header_present(
        headers,
        "sec-websocket-version",
    )
}

/// The scheme of a WebSocket URL to the same server.
pub open spec fn websocket_scheme(scheme: Option<Seq<char>>) -> Seq<char> {
    match scheme {
        Some(s) => if s == "http"@ {
            "ws"@
        } else if s == "https"@ {
            "wss"@
        } else {
            s
        },
        None => "ws"@,
    }
}

/// The WebSocket URL for an upstream URI: the same but for the scheme.
pub open spec fn websocket_url(u: UriView) -> Seq<char> {
    uri_text(UriView { scheme: Some(websocket_scheme(u.scheme)), ..u })
}

/// A host with its port, unless that is 80 or the default.
pub open spec fn host_and_port(host: Seq<char>, port: Option<u16>) -> Seq<char> {
    match port {
        Some(p) => if p == 80 {
            host
        } else {
            host + ":"@ + decimal(p as nat)
        },
        None => host,
    }
}

/// Why an upgrade cannot be asked of the upstream.
#[derive(Debug, PartialEq, Eq)]
pub enum UpgradeError {
    /// The request carries no WebSocket key that reads as text.
    MissingKey,
    /// The upstream URL is not a valid URL, for the reason that `url` gives.
    InvalidUrl { message: String },
    /// The upstream URL has no host.
    MissingHost,
    /// The host to send is not a field value.
    InvalidHost,
}

/// Why an upgrade cannot be asked of the upstream.
pub enum UpgradeErrorView {
    MissingKey,
    InvalidUrl { message: Seq<char> },
    MissingHost,
    InvalidHost,
}

impl View for UpgradeError {
    type V = UpgradeErrorView;

    open spec fn view(&self) -> UpgradeErrorView {
        match self {
            UpgradeError::MissingKey => UpgradeErrorView::MissingKey,
            UpgradeError::InvalidUrl { message } => UpgradeErrorView::InvalidUrl {
                message: message@,
            },
            UpgradeError::MissingHost => UpgradeErrorView::MissingHost,
            UpgradeError::InvalidHost => UpgradeErrorView::InvalidHost,
        }
    }
}

/// The message of an upgrade error. An invalid URL is described as `url` does, an invalid host
/// as `http` does.
pub open spec fn upgrade_error_text(e: UpgradeErrorView) -> Seq<char> {
    match e {
        UpgradeErrorView::MissingKey => "Missing or invalid Sec-WebSocket-Key header"@,
        UpgradeErrorView::InvalidUrl { message } => message,
        UpgradeErrorView::MissingHost => "Missing host in URL"@,
        UpgradeErrorView::InvalidHost => "failed to parse header value"@,
    }
}

impl UpgradeError {
    /// What is wrong with the upgrade.
    pub fn message(&self) -> (r: &str)
        ensures
            r@ == upgrade_error_text(self@),
    {
        match self {
            UpgradeError::MissingKey => "Missing or invalid Sec-WebSocket-Key header",
            UpgradeError::InvalidUrl { message } => message.as_str(),
            UpgradeError::MissingHost => "Missing host in URL",
            UpgradeError::InvalidHost => "failed to parse header value",
        }
    }
}

/// The `Host` line of the handshake with the upstream, or why there is none. `url` is host and
/// port of the upstream URL, or what is wrong with that.
pub open spec fn upgrade_host(
    client: Lines,
    client_authority: Option<Seq<char>>,
    url: Result<(Option<Seq<char>>, Option<u16>), Seq<char>>,
    policy: ProxyPolicy,
) -> Result<Seq<u8>, UpgradeErrorView> {
    if first_text(client, "sec-websocket-key"@) is None {
        Err(UpgradeErrorView::MissingKey)
    } else {
        match url {
            Err(message) => Err(UpgradeErrorView::InvalidUrl { message }),
            Ok((None, _)) => Err(UpgradeErrorView::MissingHost),
            Ok((Some(host), port)) => match text_value(
                host_to_send(
                    policy.host_behaviour,
                    client,
                    client_authority,
                    host_and_port(host, port),
                ),
            ) {
                Some(v) => Ok(v),
                None => Err(UpgradeErrorView::InvalidHost),
            },
        }
    }
}

/// The lines of the handshake with the upstream: the client's, with this `Host` and no other.
pub open spec fn upgrade_lines(client: Lines, host: Seq<u8>) -> Lines {
    client.insert("host"@, seq![host])
}

/// The lines that answer the client's handshake.
pub open spec fn switching_lines(key: Seq<char>) -> Lines {
    no_lines().insert("upgrade"@, seq![encode_utf8("websocket"@)]).insert(
        "connection"@,
        seq![encode_utf8("Upgrade"@)],
    ).insert("sec-websocket-accept"@, seq![encode_utf8(accept_key(key))])
}

/// An upgrade to ask of the upstream. Once it is connected, the client is answered with
/// [`SWITCHING_PROTOCOLS`] and `response_headers`.
pub struct UpgradePlan {
    /// Where to connect to.
    pub url: String,
    /// The header fields of the handshake with the upstream.
    pub headers: Headers,
    /// The header fields of the answer to the client.
    pub response_headers: Headers,
    /// How long to wait for the upstream.
    pub connect_timeout: Duration,
}

/// Whether a plan asks the upstream at `url` with this `Host` line, and answers the client's key.
pub open spec fn is_upgrade_plan(
    plan: UpgradePlan,
    url: Seq<char>,
    client: Lines,
    host: Seq<u8>,
    policy: ProxyPolicy,
) -> bool {
    &&& plan.url@ == url
    &&& header_lines(plan.headers) == upgrade_lines(client, host)
    &&& header_lines(plan.response_headers) == switching_lines(
        first_text(client, "sec-websocket-key"@)->0,
    )
    &&& plan.connect_timeout == policy.websocket_connect_timeout
}

/// Sets `name` to a printable text.
fn set_text(m: &mut Headers, name: &str, text: &str)
    requires
        is_stored_name(name@),
        has_room(header_lines(*old(m)), 0),
        forall|i: int| 0 <= i < text@.len() ==> ' ' <= #[trigger] text@[i] < '\u{7f}',
    ensures
        header_lines(*final(m)) == header_lines(*old(m)).insert(name@, seq![encode_utf8(text@)]),
{
    proof {
        lemma_text_value_reads_back(text@);
    }
    if let Some(v) = value_of_text(text) {
        header_insert(m, name, &v);
    }
}

/// The header fields that answer the client's handshake.
fn switching_headers(key: &str) -> (r: Headers)
    ensures
        header_lines(r) == switching_lines(key@),
{
    proof {
        lemma_websocket_names();
        reveal_strlit("websocket");
        reveal_strlit("Upgrade");
    }
    let accept = websocket_accept(key);
    proof {
        lemma_base64_is_printable(
            sha1_digest(encode_utf8(key@) + encode_utf8(websocket_guid())),
        );
    }
    let mut r = header_map_new();
    set_text(&mut r, "upgrade", "websocket");
    set_text(&mut r, "connection", "Upgrade");
    set_text(&mut r, "sec-websocket-accept", accept.as_str());
    r
}

/// The WebSocket URL for an upstream URI.
pub fn upgrade_url(upstream: &UriParts) -> (r: String)
    ensures
        r@ == websocket_url(upstream@),
{
    let scheme: String = match &upstream.scheme {
        Some(s) => {
            if same_text(s.as_str(), "http") {
                "ws".to_owned()
            } else if same_text(s.as_str(), "https") {
                "wss".to_owned()
            } else {
                s.clone()
            }
        },
        None => "ws".to_owned(),
    };
    let mut with_scheme = upstream.clone();
    with_scheme.scheme = Some(scheme);
    with_scheme.text()
}

/// A host with its port, unless that is 80 or the default.
fn host_header(host: String, port: Option<u16>) -> (r: String)
    ensures
        r@ == host_and_port(host@, port),
{
    match port {
        Some(p) => {
            if p == 80 {
                host
            } else {
                let mut r = host;
                r.append(":");
                r.append(decimal_text(p as u64).as_str());
                r
            }
        },
        None => host,
    }
}

/// The upgrade to ask of the upstream at `url`, given host and port of that URL or what is wrong
/// with it: the client's header fields with exactly one `Host`.
pub fn plan_upgrade(
    client_headers: &Headers,
    client_authority: Option<&str>,
    url: String,
    url_host: Result<UrlHost, String>,
    policy: &ProxyPolicy,
) -> (r: Result<UpgradePlan, UpgradeError>)
    requires
        has_room(header_lines(*client_headers), 1),
    ensures
        match upgrade_host(
            header_lines(*client_headers),
            opt_str(client_authority),
            url_view(url_host),
            *policy,
        ) {
            Ok(host) => r matches Ok(plan) && is_upgrade_plan(
                plan,
                url@,
                header_lines(*client_headers),
                host,
                *policy,
            ),
            Err(e) => r matches Err(why) && why@ == e,
        },
{
    proof {
        lemma_websocket_names();
    }
    let ghost client = header_lines(*client_headers);
    let key = match header_first_text(client_headers, "sec-websocket-key") {
        Some(key) => key,
        None => {
            return Err(UpgradeError::MissingKey);
        },
    };
    let (host, port) = match url_host {
        Ok(UrlHost { host: Some(host), port }) => (host, port),
        Ok(UrlHost { host: None, .. }) => {
            return Err(UpgradeError::MissingHost);
        },
        Err(message) => {
            return Err(UpgradeError::InvalidUrl { message });
        },
    };
    let sent = policy.forwarded_host(client_headers, client_authority, host_header(host, port));
    let value = match value_of_text(sent.as_str()) {
        Some(value) => value,
        None => {
            return Err(UpgradeError::InvalidHost);
        },
    };
    let mut skip: Vec<String> = Vec::new();
    skip.push("host".to_owned());
    let mut headers = copy_without(client_headers, &skip);
    proof {
        assert(texts(skip@) =~= seq!["host"@]);
        assert(texts(skip@)[0] == "host"@);
        assert(texts(skip@).to_set() =~= set!["host"@]);
        assert(header_lines(headers) =~= client.remove("host"@));
    }
    header_insert(&mut headers, "host", &value);
    assert(client.remove("host"@).insert("host"@, seq![value@]) =~= upgrade_lines(client, value@));
    Ok(
        UpgradePlan {
            url,
            headers,
            response_headers: switching_headers(key.as_str()),
            connect_timeout: policy.websocket_connect_timeout,
        },
    )
}

/// The upgrade to ask of the upstream.
pub fn handle_websocket(
    client_headers: &Headers,
    client_authority: Option<&str>,
    upstream: &UriParts,
    policy: &ProxyPolicy,
) -> (r: Result<UpgradePlan, UpgradeError>)
    requires
        has_room(header_lines(*client_headers), 1),
    ensures
        match upgrade_host(
            header_lines(*client_headers),
            opt_str(client_authority),
            parsed_url(websocket_url(upstream@)),
            *policy,
        ) {
            Ok(host) => r matches Ok(plan) && is_upgrade_plan(
                plan,
                websocket_url(upstream@),
                header_lines(*client_headers),
                host,
                *policy,
            ),
            Err(e) => r matches Err(why) && why@ == e,
        },
{
    let url = upgrade_url(upstream);
    let url_host = parse_url(url.as_str());
    plan_upgrade(client_headers, client_authority, url, url_host, policy)
}

/// The status with which a client's upgrade is answered: switching protocols.
pub const SWITCHING_PROTOCOLS: u16 = 101;

/// How long an upgrade of the client's connection, or the delivery of one frame, may take.
pub const RELAY_TIMEOUT_SECS: u64 = 5;

/// What came from one side of a relayed connection.
#[derive(Clone, Copy, Debug, PartialEq, Eq, Structural)]
pub enum Incoming {
    /// A frame that closes the connection.
    Close,
    /// Any other frame.
    Frame,
    /// An error.
    Failed,
    /// The end of the stream.
    Ended,
}

/// What became of a frame that was handed to the other side.
#[derive(Clone, Copy, Debug, PartialEq, Eq, Structural)]
pub enum Delivery {
    /// It was handed over in time, whether or not the other side took it.
    InTime,
    /// The other side did not take it in time.
    TimedOut,
}

/// Where the relay of one direction stands.
#[derive(Clone, Copy, Debug, PartialEq, Eq, Structural)]
pub enum Relay {
    /// The next frame is awaited.
    Receiving,
    /// A frame is handed to the other side as it is; `last` if it closes the connection.
    Delivering { last: bool },
    /// The session is over.
    Finished,
}

/// The relay after something came in.
pub open spec fn after_incoming(event: Incoming) -> Relay {
    match event {
        Incoming::Close => Relay::Delivering { last: true },
        Incoming::Frame => Relay::Delivering { last: false },
        Incoming::Failed => Relay::Finished,
        Incoming::Ended => Relay::Finished,
    }
}

/// The relay after a frame was handed on.
pub open spec fn after_delivery(last: bool, outcome: Delivery) -> Relay {
    if last || outcome == Delivery::TimedOut {
        Relay::Finished
    } else {
        Relay::Receiving
    }
}

impl Relay {
    /// Something came in: the frame is to be handed on as it is, or the session is over.
    pub fn on_incoming(&mut self, event: Incoming)
        requires
            *old(self) is Receiving,
        ensures
            *final(self) == after_incoming(event),
    {
        *self = match event {
            Incoming::Close => Relay::Delivering { last: true },
            Incoming::Frame => Relay::Delivering { last: false },
            Incoming::Failed | Incoming::Ended => Relay::Finished,
        };
    }

    /// The frame was handed on: the next one is awaited, unless this was the last or it was not
    /// taken in time.
    pub fn on_delivery(&mut self, outcome: Delivery)
        requires
            *old(self) is Delivering,
        ensures
            *final(self) == after_delivery(old(self)->last, outcome),
    {
        let last = match self {
            Relay::Delivering { last } => *last,
            _ => true,
        };
        *self = if last {
            Relay::Finished
        } else {
            match outcome {
                Delivery::TimedOut => Relay::Finished,
                Delivery::InTime => Relay::Receiving,
            }
        };
    }
}

/// One of the two ends of a relayed connection.
#[derive(Clone, Copy, Debug, PartialEq, Eq, Structural)]
pub enum Side {
    Client,
    Upstream,
}

/// A relayed connection: one relay for what comes from each side.
#[derive(Clone, Copy, Debug, PartialEq, Eq, Structural)]
pub struct Session {
    pub from_client: Relay,
    pub from_upstream: Relay,
}

impl Session {
    /// The relay for what comes from a side.
    pub open spec fn relay_from(self, side: Side) -> Relay {
        match side {
            Side::Client => self.from_client,
            Side::Upstream => self.from_upstream,
        }
    }

    /// The session where the relay for what comes from a side is another one.
    pub open spec fn with_relay(self, side: Side, relay: Relay) -> Session {
        match side {
            Side::Client => Session { from_client: relay, ..self },
            Side::Upstream => Session { from_upstream: relay, ..self },
        }
    }

    /// Whether the session is over: one direction is.
    pub open spec fn over(self) -> bool {
        self.from_client is Finished || self.from_upstream is Finished
    }

    /// A session in which nothing has come in yet.
    pub fn new() -> (r: Self)
        ensures
            r.from_client is Receiving,
            r.from_upstream is Receiving,
    {
        Session { from_client: Relay::Receiving, from_upstream: Relay::Receiving }
    }

    /// Whether the session is over: both connections are to be dropped as soon as one direction
    /// has ended.
    pub fn is_over(&self) -> (r: bool)
        ensures
            r == self.over(),
    {
        match (self.from_client, self.from_upstream) {
            (Relay::Finished, _) => true,
            (_, Relay::Finished) => true,
            _ => false,
        }
    }

    /// Something came from a side. Returns whether it is to be handed to the other side, as it
    /// is; nothing is once the session is over.
    pub fn on_incoming(&mut self, from: Side, event: Incoming) -> (r: bool)
        ensures
            r <==> !old(self).over() && old(self).relay_from(from) is Receiving && after_incoming(
                event,
            ) is Delivering,
            *final(self) == (if !old(self).over() && old(self).relay_from(from) is Receiving {
                old(self).with_relay(from, after_incoming(event))
            } else {
                *old(self)
            }),
    {
        if self.is_over() {
            return false;
        }
        let mut relay = match from {
            Side::Client => self.from_client,
            Side::Upstream => self.from_upstream,
        };
        match relay {
            Relay::Receiving => {},
            _ => {
                return false;
            },
        }
        relay.on_incoming(event);
        match from {
            Side::Client => {
                self.from_client = relay;
            },
            Side::Upstream => {
                self.from_upstream = relay;
            },
        }
        match relay {
            Relay::Delivering { .. } => true,
            _ => false,
        }
    }

    /// What came from a side was handed on.
    pub fn on_delivery(&mut self, from: Side, outcome: Delivery)
        requires
            old(self).relay_from(from) is Delivering,
        ensures
            *final(self) == old(self).with_relay(
                from,
                after_delivery(old(self).relay_from(from)->last, outcome),
            ),
    {
        let mut relay = match from {
            Side::Client => self.from_client,
            Side::Upstream => self.from_upstream,
        };
        relay.on_delivery(outcome);
        match from {
            Side::Client => {
                self.from_client = relay;
            },
            Side::Upstream => {
                self.from_upstream = relay;
            },
        }
    }
}

/// Once a frame that closes the connection was handed on, from whichever side it came, the
/// session is over for both.
pub proof fn law_close_ends_both_directions(session: Session, from: Side, outcome: Delivery)
    requires
        !session.over(),
        session.relay_from(from) is Receiving,
    ensures
        session.with_relay(from, after_incoming(Incoming::Close)).relay_from(from)
            == (Relay::Delivering { last: true }),
        session.with_relay(from, after_incoming(Incoming::Close)).with_relay(
            from,
            after_delivery(true, outcome),
        ).over(),
{
}

/// How many of the incoming events are handed to the other side, given what becomes of each.
pub open spec fn relayed(events: Seq<(Incoming, Delivery)>) -> nat
    decreases events.len(),
{
    if events.len() == 0 {
        0
    } else {
        match after_incoming(events[0].0) {
            Relay::Delivering { last } => if after_delivery(last, events[0].1) is Finished {
                1
            } else {
                1 + relayed(events.skip(1))
            },
            _ => 0,
        }
    }
}

/// Frames are relayed from the first on without a gap, and nothing is relayed behind a frame
/// that closes the connection; the closing frame itself is relayed where all in front of it was
/// taken in time.
pub proof fn law_close_is_relayed_and_ends_the_session(events: Seq<(Incoming, Delivery)>, k: int)
    requires
        0 <= k < events.len(),
        events[k].0 == Incoming::Close,
        forall|i: int| 0 <= i < k ==> (#[trigger] events[i]).0 == Incoming::Frame,
    ensures
        relayed(events) <= k + 1,
        (forall|i: int| 0 <= i < k ==> (#[trigger] events[i]).1 == Delivery::InTime) ==> relayed(events)
            == k + 1,
    decreases k,
{
    if k > 0 {
        let rest = events.skip(1);
        assert(rest[k - 1] == events[k]);
        assert forall|i: int| 0 <= i < k - 1 implies (#[trigger] rest[i]).0 == Incoming::Frame by {
            assert(rest[i] == events[i + 1]);
        }
        law_close_is_relayed_and_ends_the_session(rest, k - 1);
        if forall|i: int| 0 <= i < k ==> (#[trigger] events[i]).1 == Delivery::InTime {
            assert forall|i: int| 0 <= i < k - 1 implies (#[trigger] rest[i]).1
                == Delivery::InTime by {
                assert(rest[i] == events[i + 1]);
            }
            assert(events[0].1 == Delivery::InTime);
        }
        assert(events[0].0 == Incoming::Frame);
    } else {
        assert(events[0].0 == Incoming::Close);
    }
}

} // verus!
