//! What is forwarded: the headers that go upstream and come back, and the answers that the
//! proxy gives itself.
use crate::headers::{
    append_element, copy_without, first_of, first_text, has_room, header_first_text,
    header_insert, header_insert_from, header_lines, header_name, header_present, header_texts, holds_name,
    is_stored_name, lemma_contains_push, lemma_header_name_is_stored, lines_of, parse_header_name,
    readable, remove_names, text_value, value_of_text, with_element, Headers, Lines,
};
use crate::message::{failed_answer, plain_answer, version_text, Answer, HttpVersion, RequestHead};
use crate::proxy::{HostBehaviour, ProxyPolicy, XForwardedFor};
use crate::text::{
    as_str_opt, join, joined, lower, number, opt_str, opt_text, parse_number, same_ignoring_case,
    same_text, split, split_on, texts, trim, trimmed, words, words_of,
};
use crate::uri::{UriParts, UriView};
use crate::websocket::{
    asks_for_websocket, handle_websocket, is_upgrade_plan, is_websocket_upgrade, parsed_url,
    upgrade_error_text, upgrade_host, websocket_url, UpgradePlan,
};
use core::time::Duration;
use vstd::prelude::*;

verus! {

/// The standard hop-by-hop headers: meaningful only for a single connection, and not forwarded.
pub open spec fn standard_hop_by_hop() -> Seq<Seq<char>> {
    seq![
        "connection"@,
        "keep-alive"@,
        "proxy-connection"@,
        "transfer-encoding"@,
        "te"@,
        "trailer"@,
        "upgrade"@,
    ]
}

/// The standard hop-by-hop names are stored names, each different from the others.
pub proof fn lemma_standard_names()
    ensures
        forall|i: int|
            0 <= i < standard_hop_by_hop().len() ==> is_stored_name(
                #[trigger] standard_hop_by_hop()[i],
            ),
        standard_hop_by_hop().no_duplicates(),
{
    reveal_strlit("connection");
    reveal_strlit("keep-alive");
    reveal_strlit("proxy-connection");
    reveal_strlit("transfer-encoding");
    reveal_strlit("te");
    reveal_strlit("trailer");
    reveal_strlit("upgrade");
    assert("connection"@[0] != "keep-alive"@[0]);
    assert("trailer"@[0] != "upgrade"@[0]);
    assert(is_stored_name("connection"@));
    assert(is_stored_name("keep-alive"@));
    assert(is_stored_name("proxy-connection"@));
    assert(is_stored_name("transfer-encoding"@));
    assert(is_stored_name("te"@));
    assert(is_stored_name("trailer"@));
    assert(is_stored_name("upgrade"@));
}

/// The standard hop-by-hop names.
pub fn standard_names() -> (r: Vec<String>)
    ensures
        texts(r@) == standard_hop_by_hop(),
{
    let mut r: Vec<String> = Vec::new();
    r.push("connection".to_owned());
    r.push("keep-alive".to_owned());
    r.push("proxy-connection".to_owned());
    r.push("transfer-encoding".to_owned());
    r.push("te".to_owned());
    r.push("trailer".to_owned());
    r.push("upgrade".to_owned());
    assert(texts(r@) =~= standard_hop_by_hop());
    r
}

/// Whether the first `TE` line asks for `trailers` and nothing else, which gRPC needs upstream.
pub open spec fn te_is_trailers(m: Lines) -> bool {
    first_text(m, "te"@) matches Some(t) && lower(trim(t)) == "trailers"@
}

/// Whether one of the elements of a list writes the name `n`.
pub open spec fn nominates(elements: Seq<Seq<char>>, n: Seq<char>) -> bool {
    exists|i: int| 0 <= i < elements.len() && header_name(trim(#[trigger] elements[i])) == Some(n)
}

/// Whether a `Connection` line names `n`.
pub open spec fn is_nominated(m: Lines, n: Seq<char>) -> bool {
    exists|k: int|
        0 <= k < readable(lines_of(m, "connection"@)).len() && nominates(
            split(#[trigger] readable(lines_of(m, "connection"@))[k], ','),
            n,
        )
}

/// The headers not to forward: the standard hop-by-hop headers, but for `te: trailers`, and those
/// that a `Connection` line names.
pub open spec fn hop_by_hop(m: Lines) -> Set<Seq<char>> {
    Set::new(
        |n: Seq<char>|
            (standard_hop_by_hop().contains(n) && !(n == "te"@ && te_is_trailers(m)))
                || is_nominated(m, n),
    )
}

/// The headers not to forward.
pub fn hop_by_hop_headers(headers: &Headers) -> (r: Vec<String>)
    ensures
        texts(r@).to_set() == hop_by_hop(header_lines(*headers)),
        texts(r@).no_duplicates(),
        forall|i: int| 0 <= i < r@.len() ==> is_stored_name(#[trigger] r@[i]@),
{
    proof {
        lemma_standard_names();
        assert(is_stored_name(standard_hop_by_hop()[0]));
        assert(is_stored_name(standard_hop_by_hop()[4]));
    }
    let ghost m = header_lines(*headers);
    let mut strip = standard_names();
    let keep_te = match header_first_text(headers, "te") {
        Some(te) => {
            proof {
                reveal_strlit("trailers");
                assert(lower("trailers"@) =~= "trailers"@);
            }
            same_ignoring_case(trimmed(te.as_str()).as_str(), "trailers")
        },
        None => false,
    };
    assert(keep_te == te_is_trailers(m));
    let ghost std = standard_hop_by_hop();
    if keep_te {
        let _ = strip.remove(4);
        proof {
            assert(texts(strip@) =~= std.remove(4));
            assert forall|n: Seq<char>| #[trigger] texts(strip@).contains(n) <==> std.contains(n)
                && n != "te"@ by {
                lemma_remove_one(std, 4, n);
            }
        }
    }
    proof {
        assert forall|i: int| 0 <= i < strip@.len() implies is_stored_name(
            #[trigger] strip@[i]@,
        ) by {
            assert(texts(strip@)[i] == strip@[i]@);
            assert(texts(strip@).contains(strip@[i]@));
            let j = choose|j: int| 0 <= j < std.len() && std[j] == strip@[i]@;
            assert(is_stored_name(std[j]));
        }
        assert(texts(strip@).no_duplicates());
    }
    let ghost base = texts(strip@).to_set();
    let lines = header_texts(headers, "connection");
    let ghost conn = readable(lines_of(m, "connection"@));
    let mut k: usize = 0;
    while k < lines.len()
        invariant
            k <= lines@.len(),
            texts(lines@) == conn,
            texts(strip@).no_duplicates(),
            forall|i: int| 0 <= i < strip@.len() ==> is_stored_name(#[trigger] strip@[i]@),
            forall|n: Seq<char>| #[trigger]
                texts(strip@).contains(n) <==> base.contains(n) || nominated_in(
                    conn.take(k as int),
                    n,
                ),
        decreases lines.len() - k,
    {
        let elements = split_on(lines[k].as_str(), ',');
        assert(conn[k as int] == lines@[k as int]@);
        add_nominated(&mut strip, &elements);
        proof {
            assert forall|n: Seq<char>| #[trigger] texts(strip@).contains(n) <==> base.contains(n)
                || nominated_in(conn.take(k + 1), n) by {
                lemma_nominated_in_step(conn, k as int, n);
            }
        }
        k = k + 1;
    }
    proof {
        assert(conn.take(conn.len() as int) =~= conn);
        assert forall|n: Seq<char>| #[trigger] texts(strip@).to_set().contains(n) <==> hop_by_hop(
            m,
        ).contains(n) by {
            assert(texts(strip@).contains(n) <==> base.contains(n) || nominated_in(conn, n));
        }
        assert(texts(strip@).to_set() =~= hop_by_hop(m));
    }
    strip
}

/// Whether one of the lines names `n`.
spec fn nominated_in(lines: Seq<Seq<char>>, n: Seq<char>) -> bool {
    exists|k: int| 0 <= k < lines.len() && nominates(split(#[trigger] lines[k], ','), n)
}

proof fn lemma_nominated_in_step(lines: Seq<Seq<char>>, k: int, n: Seq<char>)
    requires
        0 <= k < lines.len(),
    ensures
        nominated_in(lines.take(k + 1), n) <==> nominated_in(lines.take(k), n) || nominates(
            split(lines[k], ','),
            n,
        ),
{
    let more = lines.take(k + 1);
    let less = lines.take(k);
    if nominated_in(more, n) {
        let j = choose|j: int| 0 <= j < more.len() && nominates(split(#[trigger] more[j], ','), n);
        if j < k {
            assert(less[j] == more[j]);
        }
    }
    if nominated_in(less, n) {
        let j = choose|j: int| 0 <= j < less.len() && nominates(split(#[trigger] less[j], ','), n);
        assert(more[j] == less[j]);
    }
    assert(more[k] == lines[k]);
}

proof fn lemma_remove_one(s: Seq<Seq<char>>, i: int, n: Seq<char>)
    requires
        0 <= i < s.len(),
        s.no_duplicates(),
    ensures
        s.remove(i).contains(n) <==> s.contains(n) && n != s[i],
        s.remove(i).no_duplicates(),
{
    let t = s.remove(i);
    if t.contains(n) {
        let j = choose|j: int| 0 <= j < t.len() && t[j] == n;
        assert(s[if j < i {
            j
        } else {
            j + 1
        }] == n);
    }
    if s.contains(n) && n != s[i] {
        let j = choose|j: int| 0 <= j < s.len() && s[j] == n;
        assert(t[if j < i {
            j
        } else {
            j - 1
        }] == n);
    }
}

/// Adds to `names` every name that an element writes and that is not there yet.
fn add_nominated(names: &mut Vec<String>, elements: &Vec<String>)
    requires
        texts(old(names)@).no_duplicates(),
        forall|i: int| 0 <= i < old(names)@.len() ==> is_stored_name(#[trigger] old(names)@[i]@),
    ensures
        texts(final(names)@).no_duplicates(),
        forall|i: int|
            0 <= i < final(names)@.len() ==> is_stored_name(#[trigger] final(names)@[i]@),
        forall|n: Seq<char>| #[trigger]
            texts(final(names)@).contains(n) <==> texts(old(names)@).contains(n) || nominates(
                texts(elements@),
                n,
            ),
{
    let ghost before = texts(names@);
    let ghost all = texts(elements@);
    let mut i: usize = 0;
    while i < elements.len()
        invariant
            i <= elements@.len(),
            all == texts(elements@),
            texts(names@).no_duplicates(),
            forall|i: int| 0 <= i < names@.len() ==> is_stored_name(#[trigger] names@[i]@),
            forall|n: Seq<char>| #[trigger]
                texts(names@).contains(n) <==> before.contains(n) || nominates(
                    all.take(i as int),
                    n,
                ),
        decreases elements.len() - i,
    {
        let ghost was = names@;
        let element = trimmed(elements[i].as_str());
        assert(all[i as int] == elements@[i as int]@);
        let parsed = parse_header_name(element.as_str());
        proof {
            lemma_header_name_is_stored(element@);
            assert forall|n: Seq<char>| #[trigger] nominates(all.take(i + 1), n) <==> nominates(
                all.take(i as int),
                n,
            ) || header_name(element@) == Some(n) by {
                lemma_nominates_step(all, i as int, n);
            }
        }
        if let Some(name) = parsed {
            if !holds_name(names, name.as_str()) {
                names.push(name);
                assert(texts(names@) =~= texts(was).push(name@));
                assert forall|n: Seq<char>| #[trigger] texts(names@).contains(n) <==> texts(
                    was,
                ).contains(n) || n == name@ by {
                    lemma_contains_push(texts(was), name@, n);
                }
            }
        }
        i = i + 1;
    }
    assert(all.take(all.len() as int) =~= all);
}

proof fn lemma_nominates_step(elements: Seq<Seq<char>>, i: int, n: Seq<char>)
    requires
        0 <= i < elements.len(),
    ensures
        nominates(elements.take(i + 1), n) <==> nominates(elements.take(i), n) || header_name(
            trim(elements[i]),
        ) == Some(n),
{
    let more = elements.take(i + 1);
    let less = elements.take(i);
    if nominates(more, n) {
        let j = choose|j: int|
            0 <= j < more.len() && header_name(trim(#[trigger] more[j])) == Some(n);
        if j < i {
            assert(less[j] == more[j]);
        }
    }
    if nominates(less, n) {
        let j = choose|j: int|
            0 <= j < less.len() && header_name(trim(#[trigger] less[j])) == Some(n);
        assert(more[j] == less[j]);
    }
    assert(more[i] == elements[i]);
}

/// Strip hop-by-hop headers from a response's header map in place.
pub fn strip_hop_by_hop_response_headers(headers: &mut Headers)
    ensures
        header_lines(*final(headers)) == header_lines(*old(headers)).remove_keys(
            hop_by_hop(header_lines(*old(headers))),
        ),
{
    let names = hop_by_hop_headers(headers);
    remove_names(headers, &names);
}

/// A text in double quotes, with a backslash in front of each quote and each backslash in it.
pub open spec fn quoted(s: Seq<char>) -> Seq<char> {
    seq!['"'] + escaped(s) + seq!['"']
}

/// A text with a backslash in front of each quote and each backslash in it.
pub open spec fn escaped(s: Seq<char>) -> Seq<char>
    decreases s.len(),
{
    if s.len() == 0 {
        Seq::empty()
    } else if s.last() == '"' || s.last() == '\\' {
        escaped(s.drop_last()).push('\\').push(s.last())
    } else {
        escaped(s.drop_last()).push(s.last())
    }
}

/// An address as a `Forwarded` node: in brackets and quotes where it holds a colon.
pub open spec fn forwarded_node(address: Seq<char>) -> Seq<char> {
    if address.contains(':') {
        "\"["@ + address + "]\""@
    } else {
        address
    }
}

/// The element that this proxy adds to the `Forwarded` list: who asked, for which host if that is
/// known, and over which scheme.
pub open spec fn forwarded_element(
    address: Seq<char>,
    host: Option<Seq<char>>,
    scheme: Seq<char>,
) -> Seq<char> {
    let node = "for="@ + forwarded_node(address);
    let with_host = match host {
        Some(h) => node + ";host="@ + quoted(h),
        None => node,
    };
    with_host + ";proto="@ + scheme
}

/// The client's lines that are kept: all but the hop-by-hop headers, and `Host` only where the
/// policy forwards it.
pub open spec fn kept_lines(client: Lines, policy: ProxyPolicy) -> Lines {
    if policy.host_behaviour == HostBehaviour::Preserve {
        client.remove_keys(hop_by_hop(client))
    } else {
        client.remove_keys(hop_by_hop(client).insert("host"@))
    }
}

/// `m` with `X-Forwarded-Host` set from the client's `Host`, unless it is there already or the
/// client sent no `Host`.
pub open spec fn with_forwarded_host(m: Lines, client: Lines) -> Lines {
    match first_of(client, "host"@) {
        Some(host) => if m.contains_key("x-forwarded-host"@) {
            m
        } else {
            m.insert("x-forwarded-host"@, seq![host])
        },
        None => m,
    }
}

/// `m` with `X-Forwarded-Proto` set to the public scheme, unless it is there already or the
/// scheme is no field value.
pub open spec fn with_forwarded_proto(m: Lines, scheme: Seq<char>) -> Lines {
    match text_value(scheme) {
        Some(v) => if m.contains_key("x-forwarded-proto"@) {
            m
        } else {
            m.insert("x-forwarded-proto"@, seq![v])
        },
        None => m,
    }
}

/// `m` with what tells the upstream about the client at `address`.
pub open spec fn with_client_lines(
    m: Lines,
    client: Lines,
    address: Seq<char>,
    public_scheme: Option<Seq<char>>,
) -> Lines {
    let known = with_forwarded_host(with_element(m, "x-forwarded-for"@, address), client);
    match public_scheme {
        Some(scheme) => with_element(
            with_forwarded_proto(known, scheme),
            "forwarded"@,
            forwarded_element(address, first_text(client, "host"@), scheme),
        ),
        None => known,
    }
}

/// The lines to send upstream, given those that the client sent and the client's address where it
/// is known.
pub open spec fn forward_lines(
    client: Lines,
    address: Option<Seq<char>>,
    policy: ProxyPolicy,
) -> Lines {
    match address {
        Some(a) => if policy.x_forwarded_for == XForwardedFor::Append {
            with_client_lines(kept_lines(client, policy), client, a, opt_text(policy.public_scheme))
        } else {
            kept_lines(client, policy)
        },
        None => kept_lines(client, policy),
    }
}

/// A text in double quotes.
fn quote(s: &str) -> (r: String)
    ensures
        r@ == quoted(s@),
{
    let mut r: String = String::new();
    r.push('"');
    for c in it: s.chars()
        invariant
            it.seq() == s@,
            r@ == seq!['"'] + escaped(s@.take(it.index() as int)),
    {
        proof {
            assert(s@.take(it.index() + 1).drop_last() =~= s@.take(it.index() as int));
        }
        if c == '"' || c == '\\' {
            r.push('\\');
        }
        r.push(c);
        assert(r@ =~= seq!['"'] + escaped(s@.take(it.index() + 1)));
    }
    assert(s@.take(s@.len() as int) =~= s@);
    r.push('"');
    assert(r@ =~= quoted(s@));
    r
}

/// An address as a `Forwarded` node.
fn node(address: &str) -> (r: String)
    ensures
        r@ == forwarded_node(address@),
{
    let mut colon = false;
    for c in it: address.chars()
        invariant
            it.seq() == address@,
            colon == address@.take(it.index() as int).contains(':'),
    {
        proof {
            let less = address@.take(it.index() as int);
            let more = address@.take(it.index() + 1);
            assert(more =~= less.push(c));
            assert(more[it.index() as int] == c);
            if less.contains(':') {
                let j = choose|j: int| 0 <= j < less.len() && less[j] == ':';
                assert(more[j] == ':');
            }
        }
        if c == ':' {
            colon = true;
        }
    }
    assert(address@.take(address@.len() as int) =~= address@);
    if colon {
        let mut r: String = "\"[".to_owned();
        r.append(address);
        r.append("]\"");
        r
    } else {
        address.to_owned()
    }
}

/// The element that this proxy adds to the `Forwarded` list.
fn element_of_forwarded(address: &str, host: Option<String>, scheme: &str) -> (r: String)
    ensures
        r@ == forwarded_element(address@, opt_text(host), scheme@),
{
    let mut r: String = "for=".to_owned();
    r.append(node(address).as_str());
    if let Some(h) = host {
        r.append(";host=");
        r.append(quote(h.as_str()).as_str());
    }
    r.append(";proto=");
    r.append(scheme);
    r
}

/// The names that the proxy sets itself are stored names.
proof fn lemma_forwarded_names()
    ensures
        is_stored_name("host"@),
        is_stored_name("via"@),
        is_stored_name("forwarded"@),
        is_stored_name("x-forwarded-for"@),
        is_stored_name("x-forwarded-host"@),
        is_stored_name("x-forwarded-proto"@),
{
    reveal_strlit("host");
    reveal_strlit("via");
    reveal_strlit("forwarded");
    reveal_strlit("x-forwarded-for");
    reveal_strlit("x-forwarded-host");
    reveal_strlit("x-forwarded-proto");
}

/// Build the header map to send upstream: client headers minus hop-by-hop headers, with `Host`
/// and `X-Forwarded-*` handled per policy.
pub fn build_forward_headers(
    client_headers: &Headers,
    client_address: Option<&str>,
    policy: &ProxyPolicy,
) -> (r: Headers)
    requires
        has_room(header_lines(*client_headers), 4),
    ensures
        header_lines(r) == forward_lines(
            header_lines(*client_headers),
            opt_str(client_address),
            *policy,
        ),
        header_lines(r).dom().finite(),
        header_lines(r).dom().len() <= header_lines(*client_headers).dom().len() + 4,
{
    let ghost client = header_lines(*client_headers);
    proof {
        lemma_forwarded_names();
    }
    let mut skip = hop_by_hop_headers(client_headers);
    let ghost hops = texts(skip@);
    if !policy.forwards_client_host() {
        skip.push("host".to_owned());
        proof {
            assert(texts(skip@) =~= hops.push("host"@));
            assert forall|n: Seq<char>| #[trigger] texts(skip@).to_set().contains(n)
                <==> hops.to_set().insert("host"@).contains(n) by {
                lemma_contains_push(hops, "host"@, n);
            }
            assert(texts(skip@).to_set() =~= hop_by_hop(client).insert("host"@));
        }
    }
    let mut headers = copy_without(client_headers, &skip);
    let ghost kept = header_lines(headers);
    assert(kept == kept_lines(client, *policy));
    match (client_address, policy.x_forwarded_for) {
        (Some(address), XForwardedFor::Append) => {
            add_client_lines(&mut headers, client_headers, address, &policy.public_scheme);
        },
        _ => {},
    }
    headers
}

/// Adds what tells the upstream about the client at `address`.
fn add_client_lines(
    headers: &mut Headers,
    client_headers: &Headers,
    address: &str,
    public_scheme: &Option<String>,
)
    requires
        has_room(header_lines(*old(headers)), 4),
    ensures
        header_lines(*final(headers)) == with_client_lines(
            header_lines(*old(headers)),
            header_lines(*client_headers),
            address@,
            opt_text(*public_scheme),
        ),
        header_lines(*final(headers)).dom().finite(),
        header_lines(*final(headers)).dom().len() <= header_lines(*old(headers)).dom().len() + 4,
{
    proof {
        lemma_forwarded_names();
    }
    append_element(headers, "x-forwarded-for", address);
    if header_present(client_headers, "host") && !header_present(headers, "x-forwarded-host") {
        header_insert_from(headers, "x-forwarded-host", client_headers, "host");
    }
    if let Some(scheme) = public_scheme {
        if let Some(v) = value_of_text(scheme.as_str()) {
            if !header_present(headers, "x-forwarded-proto") {
                header_insert(headers, "x-forwarded-proto", &v);
            }
        }
        let element = element_of_forwarded(
            address,
            header_first_text(client_headers, "host"),
            scheme.as_str(),
        );
        append_element(headers, "forwarded", element.as_str());
    }
}

/// The element that this proxy adds to a `Via` list.
pub open spec fn via_element(version: HttpVersion, pseudonym: Seq<char>) -> Seq<char> {
    version_text(version) + " "@ + pseudonym
}

/// `m` with this proxy in its `Via` list, where the policy names it.
pub open spec fn with_via(m: Lines, via: Option<Seq<char>>, version: HttpVersion) -> Lines {
    match via {
        Some(pseudonym) => with_element(m, "via"@, via_element(version, pseudonym)),
        None => m,
    }
}

/// Puts this proxy at the end of the `Via` list, where the policy names it.
fn add_via(headers: &mut Headers, policy: &ProxyPolicy, version: HttpVersion)
    requires
        has_room(header_lines(*old(headers)), 0),
    ensures
        header_lines(*final(headers)) == with_via(
            header_lines(*old(headers)),
            opt_text(policy.via),
            version,
        ),
{
    proof {
        lemma_forwarded_names();
    }
    if let Some(pseudonym) = &policy.via {
        let mut element: String = version.text().to_owned();
        element.append(" ");
        element.append(pseudonym.as_str());
        append_element(headers, "via", element.as_str());
    }
}

/// Whether an element of a `Via` list was written by `pseudonym`: that is its second word.
pub open spec fn is_from(element: Seq<char>, pseudonym: Seq<char>) -> bool {
    words(element).len() >= 2 && words(element)[1] == pseudonym
}

/// Whether an element of a `Via` list in one line was written by `pseudonym`.
pub open spec fn line_is_from(line: Seq<char>, pseudonym: Seq<char>) -> bool {
    exists|i: int|
        0 <= i < split(line, ',').len() && is_from(trim(#[trigger] split(line, ',')[i]), pseudonym)
}

/// Whether the `Via` chain holds `pseudonym`.
pub open spec fn via_holds(m: Lines, pseudonym: Seq<char>) -> bool {
    exists|k: int|
        0 <= k < readable(lines_of(m, "via"@)).len() && line_is_from(
            #[trigger] readable(lines_of(m, "via"@))[k],
            pseudonym,
        )
}

/// Whether an element of a `Via` list in one line was written by `pseudonym`.
pub fn line_names(line: &str, pseudonym: &str) -> (r: bool)
    ensures
        r == line_is_from(line@, pseudonym@),
{
    let parts = split_on(line, ',');
    let ghost all = texts(parts@);
    let mut i: usize = 0;
    while i < parts.len()
        invariant
            i <= parts@.len(),
            all == texts(parts@),
            all == split(line@, ','),
            forall|j: int| 0 <= j < i ==> !is_from(trim(#[trigger] all[j]), pseudonym@),
        decreases parts.len() - i,
    {
        assert(all[i as int] == parts@[i as int]@);
        let element = trimmed(parts[i].as_str());
        let element_words = words_of(element.as_str());
        assert(texts(element_words@).len() == element_words@.len());
        if element_words.len() >= 2 {
            assert(words(element@)[1] == element_words@[1]@);
            if same_text(element_words[1].as_str(), pseudonym) {
                return true;
            }
        }
        i = i + 1;
    }
    false
}

/// Whether the `Via` chain of a request holds `pseudonym`.
pub fn via_names(headers: &Headers, pseudonym: &str) -> (r: bool)
    ensures
        r == via_holds(header_lines(*headers), pseudonym@),
{
    proof {
        lemma_forwarded_names();
    }
    let lines = header_texts(headers, "via");
    let ghost all = texts(lines@);
    let mut k: usize = 0;
    while k < lines.len()
        invariant
            k <= lines@.len(),
            all == texts(lines@),
            all == readable(lines_of(header_lines(*headers), "via"@)),
            forall|j: int| 0 <= j < k ==> !line_is_from(#[trigger] all[j], pseudonym@),
        decreases lines.len() - k,
    {
        assert(all[k as int] == lines@[k as int]@);
        if line_names(lines[k].as_str(), pseudonym) {
            return true;
        }
        k = k + 1;
    }
    false
}

/// The body length that a request declares, where it declares one.
pub open spec fn declared_length(m: Lines) -> Option<nat> {
    match first_text(m, "content-length"@) {
        Some(t) => number(t, u64::MAX as nat),
        None => None,
    }
}

/// The body length that a request declares.
pub fn content_length(headers: &Headers) -> (r: Option<u64>)
    ensures
        r is Some <==> declared_length(header_lines(*headers)) is Some,
        r matches Some(n) ==> declared_length(header_lines(*headers)) == Some(n as nat),
{
    proof {
        reveal_strlit("content-length");
        assert(is_stored_name("content-length"@));
    }
    match header_first_text(headers, "content-length") {
        Some(t) => parse_number(t.as_str(), u64::MAX),
        None => None,
    }
}

/// What is to become of a request.
#[derive(Clone, Copy, Debug, PartialEq, Eq, Structural)]
pub enum Verdict {
    /// It is a `CONNECT`, which a reverse proxy does not serve.
    NotImplemented,
    /// It has been here already.
    LoopDetected,
    /// It declares a body above the cap.
    TooLarge,
    /// It asks for an upgrade to WebSocket.
    Upgrade,
    /// It is to be forwarded.
    Forward,
}

/// What is to become of a request with this method and these header lines.
pub open spec fn verdict(method: Seq<char>, m: Lines, policy: ProxyPolicy) -> Verdict {
    if method == "CONNECT"@ {
        Verdict::NotImplemented
    } else if opt_text(policy.via) is Some && via_holds(m, opt_text(policy.via)->0) {
        Verdict::LoopDetected
    } else if policy.max_request_body_bytes is Some && declared_length(m) is Some
        && declared_length(m)->0 > policy.max_request_body_bytes->0 {
        Verdict::TooLarge
    } else if asks_for_websocket(m) {
        Verdict::Upgrade
    } else {
        Verdict::Forward
    }
}

/// What is to become of a request.
pub fn judge(method: &str, headers: &Headers, policy: &ProxyPolicy) -> (r: Verdict)
    ensures
        r == verdict(method@, header_lines(*headers), *policy),
{
    if same_text(method, "CONNECT") {
        return Verdict::NotImplemented;
    }
    if let Some(pseudonym) = &policy.via {
        if via_names(headers, pseudonym.as_str()) {
            return Verdict::LoopDetected;
        }
    }
    if let Some(max) = policy.max_request_body_bytes {
        if let Some(declared) = content_length(headers) {
            if declared > max {
                return Verdict::TooLarge;
            }
        }
    }
    if is_websocket_upgrade(headers) {
        Verdict::Upgrade
    } else {
        Verdict::Forward
    }
}

/// A request to send upstream; method and body are those of the client's request.
pub struct OutgoingRequest {
    pub uri: UriParts,
    pub headers: Headers,
    /// How long to wait for the response headers, where there is a limit.
    pub timeout: Option<Duration>,
    /// How many bytes of the body to send at most, where there is a limit.
    pub body_limit: Option<u64>,
}

/// The first step of forwarding a request.
pub enum ForwardStep {
    /// Answer the client without asking the upstream.
    Answer(Answer),
    /// Connect to the upstream for an upgrade.
    Upgrade(UpgradePlan),
    /// Send this to the upstream.
    Send(OutgoingRequest),
}

/// The lines to send upstream: those of the client as [`forward_lines`] has them, with this proxy
/// in the `Via` list where the policy names it.
pub open spec fn outgoing_lines(
    client: Lines,
    address: Option<Seq<char>>,
    version: HttpVersion,
    policy: ProxyPolicy,
) -> Lines {
    with_via(forward_lines(client, address, policy), opt_text(policy.via), version)
}

/// Whether `step` is the first step of forwarding `req` to `upstream`.
pub open spec fn is_first_step(
    step: ForwardStep,
    upstream: UriView,
    req: RequestHead,
    policy: ProxyPolicy,
) -> bool {
    let client = header_lines(req.headers);
    match verdict(req.method@, client, policy) {
        Verdict::NotImplemented => step matches ForwardStep::Answer(a) && a@ == plain_answer(
            501,
            "Not Implemented"@,
        ),
        Verdict::LoopDetected => step matches ForwardStep::Answer(a) && a@ == plain_answer(
            508,
            "Loop Detected"@,
        ),
        Verdict::TooLarge => step matches ForwardStep::Answer(a) && a@ == plain_answer(
            413,
            "Payload Too Large"@,
        ),
        Verdict::Upgrade => match upgrade_host(
            client,
            opt_text(req.authority),
            parsed_url(websocket_url(upstream)),
            policy,
        ) {
            Ok(host) => step matches ForwardStep::Upgrade(plan) && is_upgrade_plan(
                plan,
                websocket_url(upstream),
                client,
                host,
                policy,
            ),
            Err(e) => step matches ForwardStep::Answer(a) && a@ == failed_answer(
                "WebSocket upgrade failed"@,
                upgrade_error_text(e),
                false,
            ),
        },
        Verdict::Forward => step matches ForwardStep::Send(out) && {
            &&& out.uri@ == upstream
            &&& header_lines(out.headers) == outgoing_lines(
                client,
                opt_text(req.client_address),
                req.version,
                policy,
            )
            &&& out.timeout == policy.upstream_timeout
            &&& out.body_limit == policy.max_request_body_bytes
        },
    }
}

/// The first step of forwarding a request to an upstream URI: an answer where the request is
/// refused, an upgrade where it asks for one, and otherwise the request to send, without
/// hop-by-hop headers.
pub fn forward_request(upstream: UriParts, req: &RequestHead, policy: &ProxyPolicy) -> (r:
    ForwardStep)
    requires
        has_room(header_lines(req.headers), 4),
    ensures
        is_first_step(r, upstream@, *req, *policy),
{
    match judge(req.method.as_str(), &req.headers, policy) {
        Verdict::NotImplemented => ForwardStep::Answer(Answer::plain(501, "Not Implemented")),
        Verdict::LoopDetected => ForwardStep::Answer(Answer::plain(508, "Loop Detected")),
        Verdict::TooLarge => ForwardStep::Answer(Answer::plain(413, "Payload Too Large")),
        Verdict::Upgrade => {
            let authority: Option<&str> = as_str_opt(&req.authority);
            match handle_websocket(&req.headers, authority, &upstream, policy) {
                Ok(plan) => ForwardStep::Upgrade(plan),
                Err(e) => ForwardStep::Answer(
                    Answer::failed("WebSocket upgrade failed", e.message(), false),
                ),
            }
        },
        Verdict::Forward => {
            let address: Option<&str> = as_str_opt(&req.client_address);
            let mut headers = build_forward_headers(&req.headers, address, policy);
            add_via(&mut headers, policy, req.version);
            ForwardStep::Send(
                OutgoingRequest {
                    uri: upstream,
                    headers,
                    timeout: policy.upstream_timeout,
                    body_limit: policy.max_request_body_bytes,
                },
            )
        },
    }
}

/// What came back from the upstream.
pub enum UpstreamEvent {
    /// Response headers.
    Responded { status: u16, version: HttpVersion, headers: Headers },
    /// The request failed: the messages of the error and of its causes, outermost first, and
    /// whether it failed while connecting.
    Failed { chain: Vec<String>, is_connect: bool },
    /// No response headers came in time.
    TimedOut,
}

/// How a forwarded request ends.
pub enum Outcome {
    /// The upstream's response is passed on, with these headers.
    Relay { status: u16, version: HttpVersion, headers: Headers },
    /// The client is answered by the proxy.
    Answer(Answer),
}

/// The lines of a response to pass on.
pub open spec fn response_lines(m: Lines, version: HttpVersion, policy: ProxyPolicy) -> Lines {
    with_via(m.remove_keys(hop_by_hop(m)), opt_text(policy.via), version)
}

/// Whether an event leaves room for the `Via` line.
pub open spec fn event_has_room(event: UpstreamEvent) -> bool {
    match event {
        UpstreamEvent::Responded { headers, .. } => has_room(header_lines(headers), 0),
        _ => true,
    }
}

/// Render an error with its causes, outermost first.
pub fn error_chain(chain: &Vec<String>) -> (r: String)
    ensures
        r@ == join(texts(chain@), ": "@),
{
    joined(chain, ": ")
}

/// How a forwarded request ends: the upstream's response is passed on without hop-by-hop
/// headers; a failure is answered with a generic 502, to which the error is attached; a timeout
/// is answered with 504.
pub fn conclude(event: UpstreamEvent, policy: &ProxyPolicy) -> (r: Outcome)
    requires
        event_has_room(event),
    ensures
        match event {
            UpstreamEvent::Responded { status, version, headers } => r matches Outcome::Relay {
                status: s,
                version: v,
                headers: h,
            } && s == status && v == version && header_lines(h) == response_lines(
                header_lines(headers),
                version,
                *policy,
            ),
            UpstreamEvent::Failed { chain, is_connect } => r matches Outcome::Answer(a) && a@
                == failed_answer("Bad Gateway"@, join(texts(chain@), ": "@), is_connect),
            UpstreamEvent::TimedOut => r matches Outcome::Answer(a) && a@ == plain_answer(
                504,
                "Gateway Timeout"@,
            ),
        },
{
    match event {
        UpstreamEvent::Responded { status, version, headers } => {
            let mut headers = headers;
            let ghost m = header_lines(headers);
            strip_hop_by_hop_response_headers(&mut headers);
            proof {
                let kept = m.remove_keys(hop_by_hop(m));
                assert(kept.dom().subset_of(m.dom()));
                vstd::set_lib::lemma_len_subset(kept.dom(), m.dom());
            }
            add_via(&mut headers, policy, version);
            Outcome::Relay { status, version, headers }
        },
        UpstreamEvent::Failed { chain, is_connect } => {
            let message = error_chain(&chain);
            Outcome::Answer(Answer::failed("Bad Gateway", message.as_str(), is_connect))
        },
        UpstreamEvent::TimedOut => Outcome::Answer(Answer::plain(504, "Gateway Timeout")),
    }
}

/// The answer to a client whose upgrade failed after it was planned: the upstream could not be
/// connected, or not in time.
pub fn upgrade_failed(message: &str) -> (r: Answer)
    ensures
        r@ == failed_answer("WebSocket upgrade failed"@, message@, false),
{
    Answer::failed("WebSocket upgrade failed", message, false)
}

/// The answer where a request body is to be buffered whole and cannot be read.
pub fn body_not_buffered() -> (r: Answer)
    ensures
        r@ == plain_answer(500, ""@),
{
    Answer::plain(500, "")
}

/// Counts the bytes of a request body against a limit.
pub struct BodyCap {
    limit: u64,
    seen: u64,
}

/// What a [`BodyCap`] has counted.
pub struct CapView {
    pub limit: nat,
    pub seen: nat,
}

impl View for BodyCap {
    type V = CapView;

    closed spec fn view(&self) -> CapView {
        CapView { limit: self.limit as nat, seen: self.seen as nat }
    }
}

impl BodyCap {
    #[verifier::type_invariant]
    spec fn inv(self) -> bool {
        self.seen <= self.limit
    }

    /// A count that starts at zero.
    pub fn new(limit: u64) -> (r: Self)
        ensures
            r@ == (CapView { limit: limit as nat, seen: 0 }),
    {
        BodyCap { limit, seen: 0 }
    }

    /// Whether `len` more bytes can be sent; if so they are counted, if not the body is to be cut
    /// off.
    pub fn admit_chunk(&mut self, len: u64) -> (r: bool)
        ensures
            r == (old(self)@.seen + len <= old(self)@.limit),
            final(self)@ == (if r {
                CapView { seen: (old(self)@.seen + len) as nat, ..old(self)@ }
            } else {
                old(self)@
            }),
            final(self)@.seen <= final(self)@.limit,
    {
        proof {
            use_type_invariant(&*self);
        }
        if len <= self.limit - self.seen {
            self.seen = self.seen + len;
            true
        } else {
            false
        }
    }
}

} // verus!
