//! What holds of every upgrade to WebSocket and of every relayed connection.
use crate::headers::{first_text, lemma_text_value_reads_back, lines_of, text_value, Lines};
use crate::proxy::{host_to_send, ProxyPolicy};
use crate::text::{decimal, lower, split, trim};
use crate::uri::{uri_text, UriView};
use crate::websocket::{
    accept_key, after_delivery, after_incoming, asks_for_websocket, base64_text, has_token,
    host_and_port, relayed, sha1_digest, switching_lines, upgrade_host, websocket_url, Delivery,
    Incoming, Relay, Session, Side, UpgradeErrorView,
};
use vstd::prelude::*;
use vstd::utf8::encode_utf8;

verus! {

/// Whether the piece at position `i` of the first `Connection` line is `upgrade`, in any case.
pub open spec fn is_upgrade_at(m: Lines, i: int) -> bool {
    first_text(m, "connection"@) matches Some(t) && 0 <= i < split(t, ',').len() && lower(
        trim(split(t, ',')[i]),
    ) == "upgrade"@
}

/// A request asks for an upgrade exactly where its first `Upgrade` line is `websocket` in any case,
/// some piece of its first `Connection` line is `upgrade`, wherever it stands, and it has a key and
/// a version of the handshake.
pub proof fn law_what_asks_for_websocket(m: Lines)
    ensures
        asks_for_websocket(m) <==> first_text(m, "upgrade"@) is Some && lower(
            first_text(m, "upgrade"@)->0,
        ) == "websocket"@ && (exists|i: int| #[trigger] is_upgrade_at(m, i)) && m.contains_key(
            "sec-websocket-key"@,
        ) && m.contains_key("sec-websocket-version"@),
{
    reveal_strlit("websocket");
    reveal_strlit("upgrade");
    assert(lower("websocket"@) =~= "websocket"@);
    assert(lower("upgrade"@) =~= "upgrade"@);
    if first_text(m, "connection"@) is Some {
        let t = first_text(m, "connection"@)->0;
        let pieces = split(t, ',');
        if has_token(t, "upgrade"@) {
            let i = choose|i: int|
                0 <= i < pieces.len() && lower(trim(#[trigger] pieces[i])) == lower("upgrade"@);
            assert(is_upgrade_at(m, i));
        }
        if exists|i: int| #[trigger] is_upgrade_at(m, i) {
            let i = choose|i: int| #[trigger] is_upgrade_at(m, i);
            assert(lower(trim(pieces[i])) == lower("upgrade"@));
            assert(has_token(t, "upgrade"@));
        }
    }
}

/// The text of a URI is its scheme, a colon and two slashes, its authority, its path, and a
/// question mark and its query, as far as it has them.
pub proof fn law_uri_text(
    scheme: Seq<char>,
    authority: Seq<char>,
    path: Seq<char>,
    query: Seq<char>,
)
    ensures
        uri_text(UriView { scheme: None, authority: None, path, query: None }) == path,
        uri_text(
            UriView { scheme: Some(scheme), authority: Some(authority), path, query: None },
        ) == scheme + seq![':', '/', '/'] + authority + path,
        uri_text(
            UriView { scheme: Some(scheme), authority: Some(authority), path, query: Some(query) },
        ) == scheme + seq![':', '/', '/'] + authority + path + seq!['?'] + query,
        uri_text(UriView { scheme: None, authority: Some(authority), path, query: None })
            == authority + path,
        uri_text(UriView { scheme: None, authority: None, path, query: Some(query) }) == path
            + seq!['?'] + query,
{
    reveal_strlit("://");
    reveal_strlit("?");
    assert("://"@ =~= seq![':', '/', '/']);
    assert("?"@ =~= seq!['?']);
    assert(uri_text(UriView { scheme: None, authority: None, path, query: None }) =~= path);
    assert(uri_text(
        UriView { scheme: Some(scheme), authority: Some(authority), path, query: None },
    ) =~= scheme + seq![':', '/', '/'] + authority + path);
    assert(uri_text(
        UriView { scheme: Some(scheme), authority: Some(authority), path, query: Some(query) },
    ) =~= scheme + seq![':', '/', '/'] + authority + path + seq!['?'] + query);
    assert(uri_text(UriView { scheme: None, authority: Some(authority), path, query: None })
        =~= authority + path);
    assert(uri_text(UriView { scheme: None, authority: None, path, query: Some(query) }) =~= path
        + seq!['?'] + query);
}

/// The WebSocket URL of an upstream URI is its text with `ws` for `http` and for no scheme, and
/// `wss` for `https`; any other scheme stays, and so does all that comes behind the scheme.
pub proof fn law_websocket_url(u: UriView)
    ensures
        u.scheme is None || u.scheme == Some("http"@) ==> websocket_url(u) == uri_text(
            UriView { scheme: Some("ws"@), ..u },
        ),
        u.scheme == Some("https"@) ==> websocket_url(u) == uri_text(
            UriView { scheme: Some("wss"@), ..u },
        ),
        u.scheme is Some && u.scheme != Some("http"@) && u.scheme != Some("https"@)
            ==> websocket_url(u) == uri_text(u),
{
    reveal_strlit("http");
    reveal_strlit("https");
    assert("http"@.len() == 4);
    assert("https"@.len() == 5);
    if u.scheme is Some {
        assert(UriView { scheme: Some(u.scheme->0), ..u } == u);
    }
}

/// A host is sent with a colon and its port in digits, unless the port is 80 or none is given.
pub proof fn law_host_and_port(host: Seq<char>, port: u16)
    ensures
        host_and_port(host, None) == host,
        port == 80 ==> host_and_port(host, Some(port)) == host,
        port != 80 ==> host_and_port(host, Some(port)) == host + seq![':'] + decimal(port as nat),
{
    reveal_strlit(":");
    assert(":"@ =~= seq![':']);
}

/// What the handshake with the upstream carries as `Host`, or why there is no handshake: first of
/// all the key has to read as text; then the URL has to parse and to have a host; then the host
/// that is to be sent has to make a field value.
pub proof fn law_upgrade_host(
    client: Lines,
    authority: Option<Seq<char>>,
    message: Seq<char>,
    host: Seq<char>,
    port: Option<u16>,
    policy: ProxyPolicy,
)
    ensures
        ({
            let keyed = first_text(client, "sec-websocket-key"@) is Some;
            let sent = text_value(
                host_to_send(policy.host_behaviour, client, authority, host_and_port(host, port)),
            );
            let r = upgrade_host(client, authority, Ok((Some(host), port)), policy);
            &&& !keyed ==> r == Err::<Seq<u8>, UpgradeErrorView>(UpgradeErrorView::MissingKey)
            &&& !keyed ==> upgrade_host(client, authority, Err(message), policy) == Err::<
                Seq<u8>,
                UpgradeErrorView,
            >(UpgradeErrorView::MissingKey)
            &&& keyed ==> upgrade_host(client, authority, Err(message), policy) == Err::<
                Seq<u8>,
                UpgradeErrorView,
            >(UpgradeErrorView::InvalidUrl { message })
            &&& keyed ==> upgrade_host(client, authority, Ok((None, port)), policy) == Err::<
                Seq<u8>,
                UpgradeErrorView,
            >(UpgradeErrorView::MissingHost)
            &&& keyed && sent is Some ==> r == Ok::<Seq<u8>, UpgradeErrorView>(sent->0)
            &&& keyed && sent is None ==> r == Err::<Seq<u8>, UpgradeErrorView>(
                UpgradeErrorView::InvalidHost,
            )
        }),
{
}

/// The answer to a handshake has three headers and no others: `Upgrade` with `websocket`,
/// `Connection` with `Upgrade`, and the key of the handshake with the fixed identifier behind it,
/// hashed and in base 64.
pub proof fn law_switching_lines(key: Seq<char>, name: Seq<char>)
    ensures
        ({
            let lines = switching_lines(key);
            &&& first_text(lines, "upgrade"@) == Some("websocket"@)
            &&& first_text(lines, "connection"@) == Some("Upgrade"@)
            &&& lines_of(lines, "upgrade"@).len() == 1
            &&& lines_of(lines, "connection"@).len() == 1
            &&& lines_of(lines, "sec-websocket-accept"@) == seq![encode_utf8(accept_key(key))]
            &&& lines.contains_key(name) ==> name == "upgrade"@ || name == "connection"@ || name
                == "sec-websocket-accept"@
        }),
        accept_key(key) == base64_text(
            sha1_digest(encode_utf8(key) + encode_utf8("258EAFA5-E914-47DA-95CA-C5AB0DC85B11"@)),
        ),
{
    reveal_strlit("upgrade");
    reveal_strlit("connection");
    reveal_strlit("sec-websocket-accept");
    reveal_strlit("websocket");
    reveal_strlit("Upgrade");
    assert("upgrade"@.len() == 7);
    assert("connection"@.len() == 10);
    assert("sec-websocket-accept"@.len() == 20);
    lemma_text_value_reads_back("websocket"@);
    lemma_text_value_reads_back("Upgrade"@);
}

/// How a relay goes on: a frame is handed over, and once it was taken in time the next is awaited;
/// a closing frame is handed over as the last one; an error, the end of the stream and a frame that
/// was not taken in time finish it.
pub proof fn law_relay_steps(last: bool, outcome: Delivery)
    ensures
        after_incoming(Incoming::Frame) == (Relay::Delivering { last: false }),
        after_incoming(Incoming::Close) == (Relay::Delivering { last: true }),
        after_incoming(Incoming::Failed) == Relay::Finished,
        after_incoming(Incoming::Ended) == Relay::Finished,
        after_delivery(false, Delivery::InTime) == Relay::Receiving,
        after_delivery(true, outcome) == Relay::Finished,
        after_delivery(last, Delivery::TimedOut) == Relay::Finished,
{
}

/// A step in one direction leaves the other direction as it is; and a session is over where one of
/// its directions is finished, and not before.
pub proof fn law_directions_are_separate(session: Session, relay: Relay)
    ensures
        session.with_relay(Side::Client, relay) == (Session { from_client: relay, ..session }),
        session.with_relay(Side::Upstream, relay) == (Session { from_upstream: relay, ..session }),
        session.relay_from(Side::Client) == session.from_client,
        session.relay_from(Side::Upstream) == session.from_upstream,
        session.over() <==> session.from_client == Relay::Finished || session.from_upstream
            == Relay::Finished,
{
}

/// A frame that is taken in time is relayed, and what comes behind it goes on as if it were the
/// first; a frame that is not taken in time is the last one that is handed over.
pub proof fn law_frames_are_relayed(
    event: Incoming,
    outcome: Delivery,
    rest: Seq<(Incoming, Delivery)>,
)
    ensures
        event == Incoming::Frame && outcome == Delivery::InTime ==> relayed(
            seq![(event, outcome)] + rest,
        ) == 1 + relayed(rest),
        event == Incoming::Frame && outcome == Delivery::TimedOut ==> relayed(
            seq![(event, outcome)] + rest,
        ) == 1,
        event == Incoming::Failed || event == Incoming::Ended ==> relayed(
            seq![(event, outcome)] + rest,
        ) == 0,
{
    let all = seq![(event, outcome)] + rest;
    assert(all[0] == (event, outcome));
    assert(all.skip(1) =~= rest);
}

/// The text of any URI, part by part.
pub proof fn law_uri_text_parts(
    u: UriView,
    scheme: Seq<char>,
    authority: Seq<char>,
    query: Seq<char>,
)
    ensures
        u.scheme == Some(scheme) ==> uri_text(u) == scheme + seq![':', '/', '/'] + uri_text(
            UriView { scheme: None, ..u },
        ),
        u.query == Some(query) ==> uri_text(u) == uri_text(UriView { query: None, ..u }) + seq!['?']
            + query,
        u.scheme is None && u.query is None && u.authority == Some(authority) ==> uri_text(u)
            == authority + u.path,
        u.scheme is None && u.query is None && u.authority is None ==> uri_text(u) == u.path,
{
    reveal_strlit("://");
    reveal_strlit("?");
    assert("://"@ =~= seq![':', '/', '/']);
    assert("?"@ =~= seq!['?']);
    if u.scheme == Some(scheme) {
        assert(uri_text(u) =~= scheme + seq![':', '/', '/'] + uri_text(
            UriView { scheme: None, ..u },
        ));
    }
    if u.query == Some(query) {
        assert(uri_text(u) =~= uri_text(UriView { query: None, ..u }) + seq!['?'] + query);
    }
    if u.scheme is None && u.query is None {
        if u.authority == Some(authority) {
            assert(uri_text(u) =~= authority + u.path);
        }
        if u.authority is None {
            assert(uri_text(u) =~= u.path);
        }
    }
}

} // verus!
