//! RFC 9110 (HTTP Semantics) compliance layer: message routing and forwarding.
//!
//! - Connection header handling: `Connection`, the headers it names and the standard hop-by-hop
//!   headers are removed.
//! - Via header handling: an entry for this proxy is added, optionally combined with others.
//! - Max-Forwards handling: counted down for TRACE and OPTIONS, answered directly at zero.
//! - Loop detection: by `Via` entries and by server names.
//! - End-to-end headers are preserved.
use crate::forward::{
    lemma_standard_names, line_is_from, line_names, standard_hop_by_hop, standard_names,
};
use crate::headers::{
    copy_without, first_of, first_text, has_room, header_count_at, header_first_text,
    header_insert, header_insert_at, header_insert_from, header_lines, header_map_clone,
    header_map_new, header_name, header_names, header_order, header_present, holds_name,
    is_stored_name, is_value, lemma_contains_push,
    lemma_header_name_is_stored, lemma_take_set, lists_names, no_lines, opt_bytes,
    parse_header_name, remove_names, text_value, value_of_text, Headers, Lines,
};
use crate::message::{version_text, HttpVersion};
use crate::text::{
    after, as_str_opt, before, behind_last, chars_of, clone_text, decimal, decimal_text, find,
    find_behind_last, find_from, join, joined, lower, number, opt_str, opt_text, parse_number,
    same_ignoring_case, same_text, split, split_on, starts_with, text_of, texts, trim, trimmed,
    words, words_of,
};
use crate::websocket::SWITCHING_PROTOCOLS;
use vstd::prelude::*;

verus! {

/// Configuration for RFC 9110 middleware.
#[derive(Debug)]
pub struct Rfc9110Config {
    /// Server names to check for loop detection.
    pub server_names: Option<Vec<String>>,
    /// Pseudonym to use in Via headers.
    pub pseudonym: Option<String>,
    /// Whether to combine Via headers with the same protocol version.
    pub combine_via: bool,
    /// Whether to preserve WebSocket upgrade headers (Connection, Upgrade). When true, the layer
    /// will detect WebSocket upgrade requests and preserve the hop-by-hop headers needed for the
    /// upgrade to work. Default: true.
    pub preserve_websocket_headers: bool,
}

/// Copies of strings, in order.
fn clone_texts(v: &Vec<String>) -> (r: Vec<String>)
    ensures
        r@ == v@,
{
    let mut r: Vec<String> = Vec::new();
    let mut i: usize = 0;
    while i < v.len()
        invariant
            i <= v@.len(),
            r@ == v@.take(i as int),
        decreases v.len() - i,
    {
        r.push(v[i].clone());
        i = i + 1;
    }
    assert(v@.take(v@.len() as int) =~= v@);
    r
}

/// The server names of a configuration, none if it has none.
pub open spec fn server_names_of(c: Rfc9110Config) -> Seq<Seq<char>> {
    match c.server_names {
        Some(v) => texts(v@),
        None => Seq::empty(),
    }
}

/// Whether two configurations make the layer do the same.
pub open spec fn same_config(a: Rfc9110Config, b: Rfc9110Config) -> bool {
    &&& server_names_of(a) == server_names_of(b)
    &&& opt_text(a.pseudonym) == opt_text(b.pseudonym)
    &&& a.combine_via == b.combine_via
    &&& a.preserve_websocket_headers == b.preserve_websocket_headers
}

impl Clone for Rfc9110Config {
    fn clone(&self) -> (r: Self)
        ensures
            same_config(r, *self),
    {
        Rfc9110Config {
            server_names: match &self.server_names {
                Some(names) => Some(clone_texts(names)),
                None => None,
            },
            pseudonym: clone_text(&self.pseudonym),
            combine_via: self.combine_via,
            preserve_websocket_headers: self.preserve_websocket_headers,
        }
    }
}

/// Whether a configuration is the default one.
pub open spec fn is_default_config(c: Rfc9110Config) -> bool {
    c.server_names is None && c.pseudonym is None && c.combine_via && c.preserve_websocket_headers
}

impl Default for Rfc9110Config {
    fn default() -> (r: Self)
        ensures
            is_default_config(r),
    {
        Rfc9110Config {
            server_names: None,
            pseudonym: None,
            combine_via: true,
            preserve_websocket_headers: true,
        }
    }
}

/// The pseudonym of a configuration, `proxy` if it has none.
pub open spec fn pseudonym_of(c: Rfc9110Config) -> Seq<char> {
    match c.pseudonym {
        Some(p) => p@,
        None => "proxy"@,
    }
}

/// A request as the layer reads it.
pub struct LayerRequest {
    /// The method, as it was sent.
    pub method: String,
    /// The host of the request's URI, where it has one.
    pub host: Option<String>,
    /// The version over which the request came.
    pub version: HttpVersion,
    /// The header fields.
    pub headers: Headers,
}

/// Whether a request is one that has been here already: it asks for one of the server names, or
/// an entry of its first `Via` line carries the pseudonym.
pub open spec fn is_loop(host: Option<Seq<char>>, m: Lines, config: Rfc9110Config) -> bool {
    ||| host matches Some(h) && server_names_of(config).contains(h)
    ||| first_text(m, "via"@) matches Some(line) && line_is_from(line, pseudonym_of(config))
}

/// Detect request loops based on Via headers and server names.
pub fn detect_loop(host: Option<&str>, headers: &Headers, config: &Rfc9110Config) -> (r: bool)
    ensures
        r == is_loop(opt_str(host), header_lines(*headers), *config),
{
    proof {
        reveal_strlit("via");
        assert(is_stored_name("via"@));
    }
    if let Some(names) = &config.server_names {
        if let Some(h) = host {
            if holds_name(names, h) {
                return true;
            }
        }
    }
    let pseudonym: &str = match &config.pseudonym {
        Some(p) => p.as_str(),
        None => "proxy",
    };
    match header_first_text(headers, "via") {
        Some(line) => line_names(line.as_str(), pseudonym),
        None => false,
    }
}

/// What `Max-Forwards` asks for.
#[derive(Clone, Copy, Debug, PartialEq, Eq, Structural)]
pub enum MaxForwards {
    /// Nothing: the method is another one, or there is no such number.
    Pass,
    /// The request may go this many hops further.
    Left(u32),
    /// The request must be answered here.
    Spent,
}

/// What `Max-Forwards` asks for in a request with this method and these lines.
pub open spec fn max_forwards_of(method: Seq<char>, m: Lines) -> MaxForwards {
    if method != "TRACE"@ && method != "OPTIONS"@ {
        MaxForwards::Pass
    } else {
        match first_text(m, "max-forwards"@) {
            Some(t) => match number(t, u32::MAX as nat) {
                Some(n) => if n == 0 {
                    MaxForwards::Spent
                } else {
                    MaxForwards::Left((n - 1) as u32)
                },
                None => MaxForwards::Pass,
            },
            None => MaxForwards::Pass,
        }
    }
}

/// The lines of a request after its hops were counted down.
pub open spec fn counted_down(method: Seq<char>, m: Lines) -> Lines {
    match max_forwards_of(method, m) {
        MaxForwards::Left(n) => m.insert(
            "max-forwards"@,
            seq![text_value(decimal(n as nat))->0],
        ),
        _ => m,
    }
}

/// The headers that are not echoed to a TRACE client.
pub open spec fn credential_names() -> Seq<Seq<char>> {
    seq!["authorization"@, "proxy-authorization"@, "cookie"@, "set-cookie"@]
}

fn credentials() -> (r: Vec<String>)
    ensures
        texts(r@) == credential_names(),
{
    let mut r: Vec<String> = Vec::new();
    r.push("authorization".to_owned());
    r.push("proxy-authorization".to_owned());
    r.push("cookie".to_owned());
    r.push("set-cookie".to_owned());
    assert(texts(r@) =~= credential_names());
    r
}

/// A response that the layer makes itself.
pub enum LayerAnswer {
    /// No body.
    LoopDetected,
    /// No body, and an `Allow` header with this value.
    Options { allow: &'static str },
    /// The body is the request as it came, with these headers.
    TraceEcho { headers: Headers },
}

/// The status of a response that the layer makes itself.
pub open spec fn answer_status(a: LayerAnswer) -> u16 {
    match a {
        LayerAnswer::LoopDetected => 508,
        LayerAnswer::Options { .. } => 200,
        LayerAnswer::TraceEcho { .. } => 200,
    }
}

impl LayerAnswer {
    /// The status of this response: 508 for a loop, and 200 otherwise.
    pub fn status(&self) -> (r: u16)
        ensures
            r == answer_status(*self),
    {
        match self {
            LayerAnswer::LoopDetected => 508,
            LayerAnswer::Options { .. } => 200,
            LayerAnswer::TraceEcho { .. } => 200,
        }
    }
}

proof fn lemma_decimal_is_printable(n: nat)
    ensures
        forall|i: int| 0 <= i < decimal(n).len() ==> '0' <= #[trigger] decimal(n)[i] <= '9',
    decreases n,
{
    if n >= 10 {
        lemma_decimal_is_printable(n / 10);
        let less = decimal(n / 10);
        assert forall|i: int| 0 <= i < decimal(n).len() implies '0' <= #[trigger] decimal(n)[i]
            <= '9' by {
            if i < less.len() {
                assert(decimal(n)[i] == less[i]);
            }
        }
    }
}

/// A number makes a field value.
pub proof fn lemma_decimal_is_a_value(n: nat)
    ensures
        text_value(decimal(n)) is Some,
        crate::headers::value_text(text_value(decimal(n))->0) == Some(decimal(n)),
{
    lemma_decimal_is_printable(n);
    crate::headers::lemma_text_value_reads_back(decimal(n));
}

/// Process Max-Forwards for TRACE and OPTIONS requests: it is counted down, or the request is
/// answered here. A TRACE is echoed without its credentials.
pub fn process_max_forwards(method: &str, headers: &mut Headers) -> (r: Option<LayerAnswer>)
    requires
        has_room(header_lines(*old(headers)), 0),
    ensures
        header_lines(*final(headers)) == counted_down(method@, header_lines(*old(headers))),
        match max_forwards_of(method@, header_lines(*old(headers))) {
            MaxForwards::Spent => if method@ == "TRACE"@ {
                r matches Some(LayerAnswer::TraceEcho { headers: echoed }) && header_lines(echoed)
                    == header_lines(*old(headers)).remove_keys(credential_names().to_set())
            } else {
                r matches Some(LayerAnswer::Options { allow }) && allow@
                    == "GET, HEAD, OPTIONS, TRACE"@
            },
            _ => r is None,
        },
{
    proof {
        reveal_strlit("max-forwards");
        assert(is_stored_name("max-forwards"@));
    }
    let is_trace = same_text(method, "TRACE");
    if !is_trace && !same_text(method, "OPTIONS") {
        return None;
    }
    let text = match header_first_text(headers, "max-forwards") {
        Some(text) => text,
        None => {
            return None;
        },
    };
    match parse_number(text.as_str(), u32::MAX as u64) {
        Some(0) => {
            if is_trace {
                let echoed = copy_without(headers, &credentials());
                Some(LayerAnswer::TraceEcho { headers: echoed })
            } else {
                Some(LayerAnswer::Options { allow: "GET, HEAD, OPTIONS, TRACE" })
            }
        },
        Some(n) => {
            proof {
                lemma_decimal_is_a_value((n - 1) as nat);
            }
            if let Some(v) = value_of_text(decimal_text(n - 1).as_str()) {
                header_insert(headers, "max-forwards", &v);
            }
            None
        },
        None => None,
    }
}

/// Whether a name is that of a hop-by-hop header; `via` counts as one.
pub open spec fn is_hop_name(n: Seq<char>) -> bool {
    standard_hop_by_hop().contains(n) || n == "via"@
}

/// The names of known end-to-end headers.
pub open spec fn end_to_end_names() -> Seq<Seq<char>> {
    seq![
        "cache-control"@,
        "authorization"@,
        "content-length"@,
        "content-type"@,
        "content-encoding"@,
        "accept"@,
        "accept-encoding"@,
        "accept-language"@,
        "range"@,
        "cookie"@,
        "set-cookie"@,
        "etag"@,
    ]
}

/// Check if a header is a hop-by-hop header.
pub fn is_hop_by_hop_header(name: &str) -> (r: bool)
    ensures
        r == is_hop_name(name@),
{
    holds_name(&standard_names(), name) || same_text(name, "via")
}

/// Check if a header is a known end-to-end header.
pub fn is_end_to_end_header(name: &str) -> (r: bool)
    ensures
        r == end_to_end_names().contains(name@),
{
    let mut names: Vec<String> = Vec::new();
    names.push("cache-control".to_owned());
    names.push("authorization".to_owned());
    names.push("content-length".to_owned());
    names.push("content-type".to_owned());
    names.push("content-encoding".to_owned());
    names.push("accept".to_owned());
    names.push("accept-encoding".to_owned());
    names.push("accept-language".to_owned());
    names.push("range".to_owned());
    names.push("cookie".to_owned());
    names.push("set-cookie".to_owned());
    names.push("etag".to_owned());
    assert(texts(names@) =~= end_to_end_names());
    holds_name(&names, name)
}

/// Check if a request appears to be a WebSocket upgrade request, by the headers that every
/// WebSocket handshake carries.
pub open spec fn looks_like_websocket(m: Lines) -> bool {
    m.contains_key("sec-websocket-key"@) && m.contains_key("sec-websocket-version"@)
}

/// Check if a request appears to be a WebSocket upgrade request.
pub fn is_websocket_upgrade_request(headers: &Headers) -> (r: bool)
    ensures
        r == looks_like_websocket(header_lines(*headers)),
{
    proof {
        crate::websocket::lemma_websocket_names();
    }
    header_present(headers, "sec-websocket-key") && header_present(headers, "sec-websocket-version")
}

/// Whether a text is `connection` or `upgrade`, whatever the case.
pub open spec fn is_upgrade_header(s: Seq<char>) -> bool {
    lower(s) == "connection"@ || lower(s) == "upgrade"@
}

/// Whether an element of a `Connection` list has the header `n` removed: it names `n`, `n` is not
/// known to be end-to-end, and the upgrade headers are exempt where they are kept.
pub open spec fn element_removes(element: Seq<char>, keep_upgrade: bool, n: Seq<char>) -> bool {
    &&& !(keep_upgrade && is_upgrade_header(trim(element)))
    &&& header_name(trim(element)) == Some(n)
    &&& is_hop_name(n) || !end_to_end_names().contains(n)
}

/// Whether an element of a `Connection` list has the header `n` removed.
pub open spec fn list_removes(elements: Seq<Seq<char>>, keep_upgrade: bool, n: Seq<char>) -> bool {
    exists|i: int|
        0 <= i < elements.len() && element_removes(#[trigger] elements[i], keep_upgrade, n)
}

/// The headers to remove: the standard hop-by-hop headers, without the upgrade headers where
/// they are kept, and those that the first `Connection` line has removed.
pub open spec fn removals(m: Lines, keep_upgrade: bool) -> Set<Seq<char>> {
    Set::new(
        |n: Seq<char>|
            (standard_hop_by_hop().contains(n) && !(keep_upgrade && is_upgrade_header(n))) || (
            first_text(m, "connection"@) is Some && list_removes(
                split(first_text(m, "connection"@)->0, ','),
                keep_upgrade,
                n,
            )),
    )
}

/// Whether a text is `connection` or `upgrade`, whatever the case.
fn upgrade_header(s: &str) -> (r: bool)
    ensures
        r == is_upgrade_header(s@),
{
    proof {
        reveal_strlit("connection");
        reveal_strlit("upgrade");
        assert(lower("connection"@) =~= "connection"@);
        assert(lower("upgrade"@) =~= "upgrade"@);
    }
    same_ignoring_case(s, "connection") || same_ignoring_case(s, "upgrade")
}

proof fn lemma_list_removes_step(
    elements: Seq<Seq<char>>,
    keep_upgrade: bool,
    i: int,
    n: Seq<char>,
)
    requires
        0 <= i < elements.len(),
    ensures
        list_removes(elements.take(i + 1), keep_upgrade, n) <==> list_removes(
            elements.take(i),
            keep_upgrade,
            n,
        ) || element_removes(elements[i], keep_upgrade, n),
{
    let more = elements.take(i + 1);
    let less = elements.take(i);
    if list_removes(more, keep_upgrade, n) {
        let j = choose|j: int|
            0 <= j < more.len() && element_removes(#[trigger] more[j], keep_upgrade, n);
        if j < i {
            assert(less[j] == more[j]);
        }
    }
    if list_removes(less, keep_upgrade, n) {
        let j = choose|j: int|
            0 <= j < less.len() && element_removes(#[trigger] less[j], keep_upgrade, n);
        assert(more[j] == less[j]);
    }
    assert(more[i] == elements[i]);
}

/// The standard hop-by-hop headers to remove.
fn standard_removals(keep_upgrade: bool) -> (r: Vec<String>)
    ensures
        forall|n: Seq<char>| #[trigger]
            texts(r@).contains(n) <==> standard_hop_by_hop().contains(n) && !(keep_upgrade
                && is_upgrade_header(n)),
        forall|i: int| 0 <= i < r@.len() ==> is_stored_name(#[trigger] r@[i]@),
{
    let all = standard_names();
    let ghost std = texts(all@);
    proof {
        lemma_standard_names();
    }
    let mut r: Vec<String> = Vec::new();
    let mut i: usize = 0;
    while i < all.len()
        invariant
            i <= all@.len(),
            std == texts(all@),
            std == standard_hop_by_hop(),
            forall|i: int| 0 <= i < std.len() ==> is_stored_name(#[trigger] std[i]),
            forall|n: Seq<char>| #[trigger]
                texts(r@).contains(n) <==> std.take(i as int).contains(n) && !(keep_upgrade
                    && is_upgrade_header(n)),
            forall|i: int| 0 <= i < r@.len() ==> is_stored_name(#[trigger] r@[i]@),
        decreases all.len() - i,
    {
        let ghost was = texts(r@);
        let name = all[i].as_str();
        proof {
            assert(std[i as int] == name@);
            assert(std.take(i + 1) =~= std.take(i as int).push(name@));
        }
        if !(keep_upgrade && upgrade_header(name)) {
            r.push(all[i].clone());
            assert(texts(r@) =~= was.push(name@));
        }
        proof {
            assert forall|n: Seq<char>| #[trigger] texts(r@).contains(n) <==> std.take(
                i + 1,
            ).contains(n) && !(keep_upgrade && is_upgrade_header(n)) by {
                lemma_contains_push(was, name@, n);
                lemma_contains_push(std.take(i as int), name@, n);
            }
        }
        i = i + 1;
    }
    assert(std.take(std.len() as int) =~= std);
    r
}

/// The headers to remove.
fn headers_to_remove(headers: &Headers, keep_upgrade: bool) -> (r: Vec<String>)
    ensures
        texts(r@).to_set() == removals(header_lines(*headers), keep_upgrade),
        forall|i: int| 0 <= i < r@.len() ==> is_stored_name(#[trigger] r@[i]@),
{
    proof {
        crate::websocket::lemma_websocket_names();
    }
    let ghost m = header_lines(*headers);
    let mut r = standard_removals(keep_upgrade);
    let ghost base = texts(r@);
    match header_first_text(headers, "connection") {
        Some(list) => {
            let elements = split_on(list.as_str(), ',');
            let ghost all = texts(elements@);
            let mut i: usize = 0;
            while i < elements.len()
                invariant
                    i <= elements@.len(),
                    all == texts(elements@),
                    forall|n: Seq<char>| #[trigger]
                        texts(r@).contains(n) <==> base.contains(n) || list_removes(
                            all.take(i as int),
                            keep_upgrade,
                            n,
                        ),
                    forall|i: int| 0 <= i < r@.len() ==> is_stored_name(#[trigger] r@[i]@),
                decreases elements.len() - i,
            {
                let ghost was = texts(r@);
                let element = trimmed(elements[i].as_str());
                assert(all[i as int] == elements@[i as int]@);
                let ghost mut added: Option<Seq<char>> = None;
                if !(keep_upgrade && upgrade_header(element.as_str())) {
                    proof {
                        lemma_header_name_is_stored(element@);
                    }
                    if let Some(name) = parse_header_name(element.as_str()) {
                        if is_hop_by_hop_header(name.as_str()) || !is_end_to_end_header(
                            name.as_str(),
                        ) {
                            proof {
                                added = Some(name@);
                            }
                            r.push(name);
                            assert(texts(r@) =~= was.push(name@));
                        }
                    }
                }
                proof {
                    assert forall|n: Seq<char>| #[trigger] texts(r@).contains(n) <==> base.contains(
                        n,
                    ) || list_removes(all.take(i + 1), keep_upgrade, n) by {
                        lemma_list_removes_step(all, keep_upgrade, i as int, n);
                        if added is Some {
                            lemma_contains_push(was, added->0, n);
                        }
                    }
                }
                i = i + 1;
            }
            assert(all.take(all.len() as int) =~= all);
        },
        None => {},
    }
    proof {
        assert forall|n: Seq<char>| #[trigger] texts(r@).to_set().contains(n) <==> removals(
            m,
            keep_upgrade,
        ).contains(n) by {
            assert(texts(r@).to_set().contains(n) == texts(r@).contains(n));
        }
        assert(texts(r@).to_set() =~= removals(m, keep_upgrade));
    }
    r
}

/// Process the Connection header and remove hop-by-hop headers. The same is done for requests
/// and for responses.
pub fn process_connection_header(headers: &mut Headers, preserve_websocket: bool)
    ensures
        header_lines(*final(headers)) == header_lines(*old(headers)).remove_keys(
            removals(header_lines(*old(headers)), preserve_websocket),
        ),
{
    let names = headers_to_remove(headers, preserve_websocket);
    remove_names(headers, &names);
}

/// The pieces without white space around them.
pub open spec fn trim_all(v: Seq<Seq<char>>) -> Seq<Seq<char>> {
    v.map_values(|s: Seq<char>| trim(s))
}

/// Whether every piece starts with `prefix`.
pub open spec fn all_start_with(v: Seq<Seq<char>>, prefix: Seq<char>) -> bool {
    forall|i: int| 0 <= i < v.len() ==> prefix.is_prefix_of(#[trigger] v[i])
}

/// The entry for this proxy in a `Via` list.
pub open spec fn own_entry(version: HttpVersion, config: Rfc9110Config) -> Seq<char> {
    version_text(version) + " "@ + pseudonym_of(config)
}

/// The `Via` text to send. Where entries are combined under a pseudonym and all of those that
/// came have the version of this request, the entry for this proxy replaces them; otherwise it
/// comes behind them.
pub open spec fn via_text(
    existing: Option<Seq<char>>,
    version: HttpVersion,
    config: Rfc9110Config,
) -> Seq<char> {
    match existing {
        Some(line) => {
            let entries = trim_all(split(line, ','));
            if config.combine_via && config.pseudonym is Some && all_start_with(
                entries,
                version_text(version),
            ) {
                own_entry(version, config)
            } else {
                join(entries.push(own_entry(version, config)), ", "@)
            }
        },
        None => own_entry(version, config),
    }
}

/// The pieces without white space around them.
fn trimmed_all(v: &Vec<String>) -> (r: Vec<String>)
    ensures
        texts(r@) == trim_all(texts(v@)),
{
    let mut r: Vec<String> = Vec::new();
    let mut i: usize = 0;
    while i < v.len()
        invariant
            i <= v@.len(),
            texts(r@) == trim_all(texts(v@)).take(i as int),
        decreases v.len() - i,
    {
        let ghost was = texts(r@);
        let t = trimmed(v[i].as_str());
        r.push(t);
        assert(texts(r@) =~= was.push(t@));
        assert(trim_all(texts(v@)).take(i + 1) =~= was.push(t@));
        i = i + 1;
    }
    assert(texts(r@) =~= trim_all(texts(v@)));
    r
}

/// Whether every piece starts with `prefix`.
fn each_starts_with(v: &Vec<String>, prefix: &str) -> (r: bool)
    ensures
        r == all_start_with(texts(v@), prefix@),
{
    let ghost all = texts(v@);
    let mut i: usize = 0;
    while i < v.len()
        invariant
            i <= v@.len(),
            all == texts(v@),
            forall|j: int| 0 <= j < i ==> prefix@.is_prefix_of(#[trigger] all[j]),
        decreases v.len() - i,
    {
        assert(all[i as int] == v@[i as int]@);
        if !starts_with(v[i].as_str(), prefix) {
            return false;
        }
        i = i + 1;
    }
    true
}

/// Add the Via header to the request. Returns its value, which the response gets too; where the
/// text is no field value the header stays as it is.
pub fn add_via_header(headers: &mut Headers, version: HttpVersion, config: &Rfc9110Config) -> (r:
    Option<Vec<u8>>)
    requires
        has_room(header_lines(*old(headers)), 0),
    ensures
        opt_bytes(r) == text_value(
            via_text(first_text(header_lines(*old(headers)), "via"@), version, *config),
        ),
        r matches Some(v) ==> is_value(v@),
        header_lines(*final(headers)) == match r {
            Some(v) => header_lines(*old(headers)).insert("via"@, seq![v@]),
            None => header_lines(*old(headers)),
        },
{
    proof {
        reveal_strlit("via");
        assert(is_stored_name("via"@));
    }
    let mut own: String = version.text().to_owned();
    own.append(" ");
    match &config.pseudonym {
        Some(p) => own.append(p.as_str()),
        None => own.append("proxy"),
    }
    let text: String = match header_first_text(headers, "via") {
        Some(line) => {
            let mut entries = trimmed_all(&split_on(line.as_str(), ','));
            if config.combine_via && config.pseudonym.is_some() && each_starts_with(
                &entries,
                version.text(),
            ) {
                own
            } else {
                let ghost was = texts(entries@);
                entries.push(own);
                assert(texts(entries@) =~= was.push(own@));
                joined(&entries, ", ")
            }
        },
        None => own,
    };
    let value = value_of_text(text.as_str());
    if let Some(v) = &value {
        header_insert(headers, "via", v);
    }
    value
}

/// What the layer keeps of a request until its response comes.
pub struct Pending {
    /// The `Max-Forwards` value that the request had once it was counted down, as the only line
    /// here.
    pub max_forwards: Headers,
    /// Whether the upgrade headers were kept.
    pub is_websocket: bool,
    /// The header fields that were sent on, without the `Via` entry of this proxy.
    pub preserved: Headers,
    /// The `Via` value that was sent on.
    pub via: Option<Vec<u8>>,
}

/// What the layer does with a request.
pub enum LayerStep {
    /// Answer it here.
    Answer(LayerAnswer),
    /// Hand it on, with its headers as they are now.
    Forward(Pending),
}

/// Whether the upgrade headers of a request are kept.
pub open spec fn keeps_upgrade(m: Lines, config: Rfc9110Config) -> bool {
    config.preserve_websocket_headers && looks_like_websocket(m)
}

/// The lines of a request after counting down and removing hop-by-hop headers.
pub open spec fn preserved_lines(method: Seq<char>, m: Lines, config: Rfc9110Config) -> Lines {
    let counted = counted_down(method, m);
    counted.remove_keys(removals(counted, keeps_upgrade(counted, config)))
}

/// The `Via` value of a request that is handed on.
pub open spec fn via_value(
    method: Seq<char>,
    version: HttpVersion,
    m: Lines,
    config: Rfc9110Config,
) -> Option<Seq<u8>> {
    text_value(via_text(first_text(preserved_lines(method, m, config), "via"@), version, config))
}

/// `m` with a `Via` value in place of its own, where there is one.
pub open spec fn via_replaced(m: Lines, via: Option<Seq<u8>>) -> Lines {
    match via {
        Some(v) => m.insert("via"@, seq![v]),
        None => m,
    }
}

/// Whether a step is the one to take for a request, and `after` the lines it is handed on with.
pub open spec fn is_layer_step(
    step: LayerStep,
    req: LayerRequest,
    after: Lines,
    config: Rfc9110Config,
) -> bool {
    let m = header_lines(req.headers);
    let method = req.method@;
    if is_loop(opt_text(req.host), m, config) {
        step matches LayerStep::Answer(LayerAnswer::LoopDetected) && after == m
    } else if max_forwards_of(method, m) == MaxForwards::Spent {
        &&& after == m
        &&& if method == "TRACE"@ {
            step matches LayerStep::Answer(LayerAnswer::TraceEcho { headers }) && header_lines(
                headers,
            ) == m.remove_keys(credential_names().to_set())
        } else {
            step matches LayerStep::Answer(LayerAnswer::Options { allow }) && allow@
                == "GET, HEAD, OPTIONS, TRACE"@
        }
    } else {
        let kept = preserved_lines(method, m, config);
        let via = via_value(method, req.version, m, config);
        &&& after == via_replaced(kept, via)
        &&& step matches LayerStep::Forward(p) && {
            &&& header_lines(p.max_forwards) == only_first(
                counted_down(method, m),
                "max-forwards"@,
            )
            &&& p.is_websocket == keeps_upgrade(counted_down(method, m), config)
            &&& header_lines(p.preserved) == kept
            &&& opt_bytes(p.via) == via
            &&& is_pending(p)
        }
    }
}

/// The first line of `name`, and nothing else.
pub open spec fn only_first(m: Lines, name: Seq<char>) -> Lines {
    match first_of(m, name) {
        Some(v) => no_lines().insert(name, seq![v]),
        None => no_lines(),
    }
}

/// Whether two requests have the same method, host and version.
pub open spec fn same_but_headers(a: LayerRequest, b: LayerRequest) -> bool {
    a.method@ == b.method@ && opt_text(a.host) == opt_text(b.host) && a.version == b.version
}

/// What holds of everything the layer keeps: the `Via` value is a field value, and the header
/// fields are no more than a map takes.
pub open spec fn is_pending(p: Pending) -> bool {
    &&& p.via matches Some(v) ==> is_value(v@)
    &&& has_room(header_lines(p.preserved), 0)
}

/// The lines of a response to hand back. Hop-by-hop headers are removed; `Via` and
/// `Max-Forwards` are those of the request that was sent on; and of each end-to-end header that
/// was sent on, the response has the last line.
pub open spec fn answered_lines(
    m: Lines,
    status: u16,
    max_forwards: Option<Seq<u8>>,
    is_websocket: bool,
    preserved: Lines,
    via: Option<Seq<u8>>,
) -> Lines {
    let removed = m.remove_keys(removals(m, is_websocket && status == SWITCHING_PROTOCOLS));
    let with_via = via_replaced(removed, via);
    let with_max = match max_forwards {
        Some(v) => with_via.insert("max-forwards"@, seq![v]),
        None => with_via,
    };
    with_max.union_prefer_right(last_lines(preserved))
}

/// The last line of each end-to-end header.
pub open spec fn last_lines(m: Lines) -> Lines {
    Map::new(|n: Seq<char>| m.contains_key(n) && !is_hop_name(n), |n: Seq<char>| seq![m[n].last()])
}

/// Layer that applies RFC 9110 middleware.
pub struct Rfc9110Layer {
    config: Rfc9110Config,
}

impl Clone for Rfc9110Layer {
    fn clone(&self) -> (r: Self)
        ensures
            same_config(r.configuration(), self.configuration()),
    {
        Rfc9110Layer { config: self.config.clone() }
    }
}

impl Default for Rfc9110Layer {
    fn default() -> (r: Self)
        ensures
            is_default_config(r.configuration()),
    {
        Self::new()
    }
}

impl Rfc9110Layer {
    /// The configuration of the layer.
    pub closed spec fn configuration(&self) -> Rfc9110Config {
        self.config
    }

    /// Create a new layer with default configuration.
    pub fn new() -> (r: Self)
        ensures
            is_default_config(r.configuration()),
    {
        Rfc9110Layer { config: Rfc9110Config::default() }
    }

    /// Create a new layer with custom configuration.
    pub fn with_config(config: Rfc9110Config) -> (r: Self)
        ensures
            r.configuration() == config,
    {
        Rfc9110Layer { config }
    }

    /// Put the layer around a service.
    pub fn layer<S>(&self, inner: S) -> (r: Rfc9110<S>)
        ensures
            r.service() == inner,
            same_config(r.configuration(), self.configuration()),
    {
        Rfc9110 { inner, config: self.config.clone() }
    }
}

/// RFC 9110 middleware service.
pub struct Rfc9110<S> {
    inner: S,
    config: Rfc9110Config,
}

impl<S> Rfc9110<S> {
    /// The service inside.
    pub closed spec fn service(&self) -> S {
        self.inner
    }

    /// The configuration of the layer.
    pub closed spec fn configuration(&self) -> Rfc9110Config {
        self.config
    }

    /// The service inside.
    pub fn inner(&self) -> (r: &S)
        ensures
            *r == self.service(),
    {
        &self.inner
    }

    /// What to do with a request before the service inside sees it.
    pub fn on_request(&self, req: &mut LayerRequest) -> (r: LayerStep)
        requires
            has_room(header_lines(old(req).headers), 1),
        ensures
            is_layer_step(r, *old(req), header_lines(final(req).headers), self.configuration()),
            same_but_headers(*final(req), *old(req)),
    {
        handle_layer_request(&self.config, req)
    }
}

/// What to do with a request: answer it, or hand it on with its headers processed.
pub fn handle_layer_request(config: &Rfc9110Config, req: &mut LayerRequest) -> (r: LayerStep)
    requires
        has_room(header_lines(old(req).headers), 1),
    ensures
        is_layer_step(r, *old(req), header_lines(final(req).headers), *config),
        same_but_headers(*final(req), *old(req)),
{
    proof {
        reveal_strlit("max-forwards");
        assert(is_stored_name("max-forwards"@));
    }
    if detect_loop(as_str_opt(&req.host), &req.headers, config) {
        return LayerStep::Answer(LayerAnswer::LoopDetected);
    }
    if let Some(answer) = process_max_forwards(req.method.as_str(), &mut req.headers) {
        return LayerStep::Answer(answer);
    }
    let ghost counted = header_lines(req.headers);
    let mut max_forwards = header_map_new();
    if header_present(&req.headers, "max-forwards") {
        header_insert_from(&mut max_forwards, "max-forwards", &req.headers, "max-forwards");
    }
    assert(header_lines(max_forwards) =~= only_first(counted, "max-forwards"@));
    let is_websocket = config.preserve_websocket_headers && is_websocket_upgrade_request(
        &req.headers,
    );
    process_connection_header(&mut req.headers, is_websocket);
    proof {
        let kept = counted.remove_keys(removals(counted, is_websocket));
        assert(kept.dom().subset_of(counted.dom()));
        vstd::set_lib::lemma_len_subset(kept.dom(), counted.dom());
    }
    let preserved = header_map_clone(&req.headers);
    let via = add_via_header(&mut req.headers, req.version, config);
    LayerStep::Forward(Pending { max_forwards, is_websocket, preserved, via })
}

/// Process response headers: hop-by-hop headers are removed, `Via` and `Max-Forwards` are set,
/// and the end-to-end headers of the request are put back.
pub fn process_response_headers(headers: &mut Headers, status: u16, pending: &Pending)
    requires
        is_pending(*pending),
        has_room(
            header_lines(*old(headers)),
            header_lines(pending.preserved).dom().len() as int + 2,
        ),
    ensures
        header_lines(*final(headers)) == answered_lines(
            header_lines(*old(headers)),
            status,
            first_of(header_lines(pending.max_forwards), "max-forwards"@),
            pending.is_websocket,
            header_lines(pending.preserved),
            opt_bytes(pending.via),
        ),
{
    proof {
        reveal_strlit("max-forwards");
        assert(is_stored_name("max-forwards"@));
        reveal_strlit("via");
        assert(is_stored_name("via"@));
    }
    let ghost m = header_lines(*headers);
    process_connection_header(headers, pending.is_websocket && status == SWITCHING_PROTOCOLS);
    proof {
        let removed = header_lines(*headers);
        assert(removed.dom().subset_of(m.dom()));
        vstd::set_lib::lemma_len_subset(removed.dom(), m.dom());
    }
    if let Some(via) = &pending.via {
        header_insert(headers, "via", via);
    }
    if header_present(&pending.max_forwards, "max-forwards") {
        header_insert_from(headers, "max-forwards", &pending.max_forwards, "max-forwards");
    }
    restore_headers(headers, &pending.preserved);
}

/// Puts back the last line of each end-to-end header of `from`.
fn restore_headers(headers: &mut Headers, from: &Headers)
    requires
        has_room(header_lines(*old(headers)), header_lines(*from).dom().len() as int),
    ensures
        header_lines(*final(headers)) == header_lines(*old(headers)).union_prefer_right(
            last_lines(header_lines(*from)),
        ),
{
    let ghost start = header_lines(*headers);
    let ghost source = header_lines(*from);
    let ghost last = last_lines(source);
    let names = header_names(from);
    let ghost all = texts(names@);
    proof {
        assert(all.len() == source.dom().len()) by {
            all.unique_seq_to_set();
        }
        assert(start =~= start.union_prefer_right(last.restrict(all.take(0).to_set())));
    }
    let mut i: usize = 0;
    while i < names.len()
        invariant
            i <= names@.len(),
            all == texts(names@),
            source == header_lines(*from),
            last == last_lines(source),
            lists_names(all, source),
            all == header_order(*from),
            all.len() == source.dom().len(),
            start.dom().finite(),
            start.dom().len() + all.len() <= crate::headers::MAX_NAMES,
            header_lines(*headers).dom().finite(),
            header_lines(*headers).dom().len() <= start.dom().len() + i,
            header_lines(*headers) == start.union_prefer_right(
                last.restrict(all.take(i as int).to_set()),
            ),
        decreases names.len() - i,
    {
        let name = names[i].as_str();
        let ghost n = name@;
        proof {
            assert(all[i as int] == n);
            assert(all.to_set().contains(n));
            assert(source.contains_key(n));
            lemma_take_set(all, i as int);
        }
        let ghost was = header_lines(*headers);
        if !is_hop_by_hop_header(name) {
            let count: usize = header_count_at(from, i);
            header_insert_at(headers, from, i, count - 1);
            proof {
                assert(header_lines(*headers) =~= was.insert(n, seq![source[n].last()]));
                assert(header_lines(*headers) =~= start.union_prefer_right(
                    last.restrict(all.take(i + 1).to_set()),
                ));
            }
        } else {
            assert(header_lines(*headers) =~= start.union_prefer_right(
                last.restrict(all.take(i + 1).to_set()),
            ));
        }
        i = i + 1;
    }
    proof {
        assert(all.take(all.len() as int) =~= all);
        assert(header_lines(*headers) =~= start.union_prefer_right(last));
    }
}

/// A single entry of a Via header, as texts.
pub struct EntryView {
    pub protocol: Seq<char>,
    pub pseudonym: Seq<char>,
    pub port: Option<Seq<char>>,
    pub comment: Option<Seq<char>>,
}

/// A single entry of a Via header.
#[derive(Debug)]
pub struct ViaEntry {
    /// For example "1.1".
    pub protocol: String,
    /// For example "proxy1".
    pub pseudonym: String,
    /// For example "8080".
    pub port: Option<String>,
    /// For example "(Proxy Software 1.0)".
    pub comment: Option<String>,
}

impl View for ViaEntry {
    type V = EntryView;

    open spec fn view(&self) -> EntryView {
        EntryView {
            protocol: self.protocol@,
            pseudonym: self.pseudonym@,
            port: opt_text(self.port),
            comment: opt_text(self.comment),
        }
    }
}

/// The comment of an entry: from its first opening to its last closing parenthesis.
pub open spec fn comment_of(s: Seq<char>) -> Option<Seq<char>> {
    if find(s, '(') < s.len() && behind_last(s, ')') > 0 {
        Some(s.subrange(find(s, '('), behind_last(s, ')')))
    } else {
        None
    }
}

/// Whether the parentheses of an entry are in order: none opens behind the last that closes.
pub open spec fn comment_in_order(s: Seq<char>) -> bool {
    find(s, '(') < s.len() && behind_last(s, ')') > 0 ==> find(s, '(') <= behind_last(s, ')')
}

/// The entry that a text writes: protocol, pseudonym and port in its first two words, and the
/// comment.
pub open spec fn entry_of(s: Seq<char>) -> Option<EntryView> {
    if words(s).len() < 2 {
        None
    } else {
        Some(
            EntryView {
                protocol: words(s)[0],
                pseudonym: before(words(s)[1], ':'),
                port: after(words(s)[1], ':'),
                comment: comment_of(s),
            },
        )
    }
}

/// The text of an entry.
pub open spec fn entry_text(e: EntryView) -> Seq<char> {
    let name = e.protocol + " "@ + e.pseudonym;
    let with_port = match e.port {
        Some(p) => name + ":"@ + p,
        None => name,
    };
    match e.comment {
        Some(c) => with_port + " "@ + c,
        None => with_port,
    }
}

/// The texts of an optional entry.
pub open spec fn opt_entry(o: Option<ViaEntry>) -> Option<EntryView> {
    match o {
        Some(e) => Some(e@),
        None => None,
    }
}

impl ViaEntry {
    /// The entry that a text writes.
    pub fn parse(entry: &str) -> (r: Option<Self>)
        requires
            words(entry@).len() >= 2 ==> comment_in_order(entry@),
        ensures
            opt_entry(r) == entry_of(entry@),
    {
        let parts = words_of(entry);
        let ghost all = texts(parts@);
        assert(all.len() == parts@.len());
        if parts.len() < 2 {
            return None;
        }
        assert(all[0] == parts@[0]@);
        assert(all[1] == parts@[1]@);
        let name = chars_of(parts[1].as_str());
        assert(name@.skip(0) =~= name@);
        let colon: usize = find_from(&name, 0, ':');
        let pseudonym = text_of(&name, 0, colon);
        assert(pseudonym@ =~= before(name@, ':'));
        let port: Option<String> = if colon < name.len() {
            let p = text_of(&name, colon + 1, name.len());
            assert(p@ =~= name@.skip(colon + 1));
            Some(p)
        } else {
            None
        };
        let chars = chars_of(entry);
        assert(chars@.skip(0) =~= chars@);
        let open: usize = find_from(&chars, 0, '(');
        let close: usize = find_behind_last(&chars, ')');
        let comment: Option<String> = if open < chars.len() && close > 0 {
            Some(text_of(&chars, open, close))
        } else {
            None
        };
        Some(ViaEntry { protocol: parts[0].clone(), pseudonym, port, comment })
    }

    /// The text of this entry.
    pub fn text(&self) -> (r: String)
        ensures
            r@ == entry_text(self@),
    {
        let mut r: String = self.protocol.clone();
        r.append(" ");
        r.append(self.pseudonym.as_str());
        if let Some(port) = &self.port {
            r.append(":");
            r.append(port.as_str());
        }
        if let Some(comment) = &self.comment {
            r.append(" ");
            r.append(comment.as_str());
        }
        r
    }
}

/// The entries that the pieces of a list write, in order; pieces that write none are left out.
pub open spec fn entries_of(pieces: Seq<Seq<char>>) -> Seq<EntryView>
    decreases pieces.len(),
{
    if pieces.len() == 0 {
        Seq::empty()
    } else {
        match entry_of(trim(pieces.last())) {
            Some(e) => entries_of(pieces.drop_last()).push(e),
            None => entries_of(pieces.drop_last()),
        }
    }
}

/// The texts of a list of entries.
pub open spec fn entry_views(v: Seq<ViaEntry>) -> Seq<EntryView> {
    v.map_values(|e: ViaEntry| e@)
}

/// Parse a Via header value into its entries.
pub fn parse_via_header(header: &str) -> (r: Vec<ViaEntry>)
    requires
        forall|i: int|
            0 <= i < split(header@, ',').len() && words(
                trim(#[trigger] split(header@, ',')[i]),
            ).len() >= 2 ==> comment_in_order(trim(split(header@, ',')[i])),
    ensures
        entry_views(r@) == entries_of(split(header@, ',')),
{
    let pieces = split_on(header, ',');
    let ghost all = texts(pieces@);
    let mut r: Vec<ViaEntry> = Vec::new();
    let mut i: usize = 0;
    assert(entry_views(r@) =~= entries_of(all.take(0)));
    while i < pieces.len()
        invariant
            i <= pieces@.len(),
            all == texts(pieces@),
            all == split(header@, ','),
            forall|i: int|
                0 <= i < all.len() && words(trim(#[trigger] all[i])).len() >= 2
                    ==> comment_in_order(trim(all[i])),
            entry_views(r@) == entries_of(all.take(i as int)),
        decreases pieces.len() - i,
    {
        let ghost was = r@;
        proof {
            assert(all[i as int] == pieces@[i as int]@);
            assert(all.take(i + 1).drop_last() =~= all.take(i as int));
        }
        if let Some(e) = ViaEntry::parse(trimmed(pieces[i].as_str()).as_str()) {
            r.push(e);
            assert(entry_views(r@) =~= entry_views(was).push(e@));
        }
        i = i + 1;
    }
    assert(all.take(all.len() as int) =~= all);
    r
}

} // verus!
