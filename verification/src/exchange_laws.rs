//! What becomes of each header of a request and of its response, line by line and name by name.
use crate::forward::{
    declared_length, escaped, forward_lines, forwarded_element, hop_by_hop, is_from, line_is_from,
    nominates, outgoing_lines, quoted, response_lines, standard_hop_by_hop, verdict, via_element,
    via_holds, Verdict,
};
use crate::forward_laws::{is_printable, is_pseudonym, lemma_version_is_a_word};
use crate::header_laws::{law_element_goes_to_the_end, law_element_text, list_text};
use crate::headers::{
    first_text, header_name, lemma_text_value_reads_back, lines_of, readable, text_value,
    value_text, Lines,
};
use crate::message::{version_text, HttpVersion};
use crate::proxy::{HostBehaviour, ProxyPolicy, XForwardedFor};
use crate::text::{join, lower, number, opt_text, split, trim, words};
use crate::websocket::asks_for_websocket;
use vstd::prelude::*;

verus! {

/// The names of the hop-by-hop headers, each by itself.
pub open spec fn is_standard_name(n: Seq<char>) -> bool {
    ||| n == "connection"@
    ||| n == "keep-alive"@
    ||| n == "proxy-connection"@
    ||| n == "transfer-encoding"@
    ||| n == "te"@
    ||| n == "trailer"@
    ||| n == "upgrade"@
}

/// Whether the element at position `i` of the `Connection` line at position `k` writes the name
/// `n`.
pub open spec fn is_named_at(m: Lines, k: int, i: int, n: Seq<char>) -> bool {
    let lines = lines_of(m, "connection"@);
    &&& 0 <= k < lines.len()
    &&& value_text(lines[k]) matches Some(t) && 0 <= i < split(t, ',').len() && header_name(
        trim(split(t, ',')[i]),
    ) == Some(n)
}

/// Whether the element at position `i` of the `Via` line at position `k` has `pseudonym` as its
/// second word.
pub open spec fn is_by_at(m: Lines, k: int, i: int, pseudonym: Seq<char>) -> bool {
    let lines = lines_of(m, "via"@);
    &&& 0 <= k < lines.len()
    &&& value_text(lines[k]) matches Some(t) && 0 <= i < split(t, ',').len() && words(
        trim(split(t, ',')[i]),
    ).len() >= 2 && words(trim(split(t, ',')[i]))[1] == pseudonym
}

/// The standard names are these.
pub proof fn lemma_standard_names_are(n: Seq<char>)
    ensures
        standard_hop_by_hop().contains(n) <==> is_standard_name(n),
{
    let std = standard_hop_by_hop();
    assert(std[0] == "connection"@ && std[1] == "keep-alive"@ && std[2] == "proxy-connection"@
        && std[3] == "transfer-encoding"@ && std[4] == "te"@ && std[5] == "trailer"@ && std[6]
        == "upgrade"@);
    if std.contains(n) {
        let i = choose|i: int| 0 <= i < std.len() && std[i] == n;
        assert(0 <= i < 7);
    }
}

/// A text is read of some lines exactly where one of them reads as it.
proof fn lemma_readable_from(lines: Seq<Seq<u8>>)
    ensures
        forall|j: int|
            0 <= j < readable(lines).len() ==> exists|k: int|
                0 <= k < lines.len() && value_text(#[trigger] lines[k]) == Some(
                    #[trigger] readable(lines)[j],
                ),
        forall|k: int|
            0 <= k < lines.len() && value_text(#[trigger] lines[k]) is Some ==> exists|j: int|
                0 <= j < readable(lines).len() && #[trigger] readable(lines)[j] == value_text(
                    lines[k],
                )->0,
    decreases lines.len(),
{
    if lines.len() > 0 {
        let less = lines.drop_last();
        lemma_readable_from(less);
        let all = readable(lines);
        let few = readable(less);
        assert forall|j: int| 0 <= j < all.len() implies exists|k: int|
            0 <= k < lines.len() && value_text(#[trigger] lines[k]) == Some(#[trigger] all[j]) by {
            if j < few.len() {
                assert(all[j] == few[j]);
                let k = choose|k: int|
                    0 <= k < less.len() && value_text(#[trigger] less[k]) == Some(few[j]);
                assert(value_text(lines[k]) == Some(all[j]));
            } else {
                assert(value_text(lines[lines.len() - 1]) == Some(all[j]));
            }
        }
        assert forall|k: int|
            0 <= k < lines.len() && value_text(#[trigger] lines[k]) is Some implies exists|j: int|
            0 <= j < all.len() && #[trigger] all[j] == value_text(lines[k])->0 by {
            if k < less.len() {
                assert(less[k] == lines[k]);
                let j = choose|j: int|
                    0 <= j < few.len() && #[trigger] few[j] == value_text(less[k])->0;
                assert(all[j] == few[j]);
            } else {
                assert(all[all.len() - 1] == value_text(lines[k])->0);
            }
        }
    }
}

/// Every element of every `Connection` line that reads as text counts: the header that it names is
/// hop-by-hop. So is each of the standard ones, `te` apart where it is `trailers`. No other header
/// is.
pub proof fn law_what_is_hop_by_hop(m: Lines, n: Seq<char>)
    ensures
        forall|k: int, i: int| #[trigger] is_named_at(m, k, i, n) ==> hop_by_hop(m).contains(n),
        is_standard_name(n) && n != "te"@ ==> hop_by_hop(m).contains(n),
        n == "te"@ && (first_text(m, "te"@) is None || lower(trim(first_text(m, "te"@)->0))
            != "trailers"@) ==> hop_by_hop(m).contains(n),
        hop_by_hop(m).contains(n) ==> is_standard_name(n) || exists|k: int, i: int| #[trigger]
            is_named_at(m, k, i, n),
        hop_by_hop(m).contains("te"@) && first_text(m, "te"@) is Some && lower(
            trim(first_text(m, "te"@)->0),
        ) == "trailers"@ ==> exists|k: int, i: int| #[trigger] is_named_at(m, k, i, "te"@),
{
    lemma_standard_names_are(n);
    let lines = lines_of(m, "connection"@);
    let texts = readable(lines);
    lemma_readable_from(lines);
    assert forall|k: int, i: int| #[trigger] is_named_at(m, k, i, n) implies hop_by_hop(
        m,
    ).contains(n) by {
        let t = value_text(lines[k])->0;
        let j = choose|j: int| 0 <= j < texts.len() && #[trigger] texts[j] == t;
        assert(header_name(trim(split(texts[j], ',')[i])) == Some(n));
        assert(nominates(split(texts[j], ','), n));
    }
    assert forall|x: Seq<char>|
        crate::forward::is_nominated(m, x) implies exists|k: int, i: int| #[trigger]
        is_named_at(m, k, i, x) by {
        let j = choose|j: int|
            0 <= j < texts.len() && nominates(split(#[trigger] texts[j], ','), x);
        let pieces = split(texts[j], ',');
        let i = choose|i: int|
            0 <= i < pieces.len() && header_name(trim(#[trigger] pieces[i])) == Some(x);
        let k = choose|k: int|
            0 <= k < lines.len() && value_text(#[trigger] lines[k]) == Some(texts[j]);
        assert(is_named_at(m, k, i, x));
    }
}

/// A request has come by under a pseudonym exactly where one of the elements of one of its `Via`
/// lines says so.
pub proof fn law_via_holds(m: Lines, pseudonym: Seq<char>)
    ensures
        via_holds(m, pseudonym) <==> exists|k: int, i: int| #[trigger]
            is_by_at(m, k, i, pseudonym),
{
    let lines = lines_of(m, "via"@);
    let texts = readable(lines);
    lemma_readable_from(lines);
    if via_holds(m, pseudonym) {
        let j = choose|j: int|
            0 <= j < texts.len() && line_is_from(#[trigger] texts[j], pseudonym);
        let pieces = split(texts[j], ',');
        let i = choose|i: int|
            0 <= i < pieces.len() && is_from(trim(#[trigger] pieces[i]), pseudonym);
        let k = choose|k: int|
            0 <= k < lines.len() && value_text(#[trigger] lines[k]) == Some(texts[j]);
        assert(is_by_at(m, k, i, pseudonym));
    }
    if exists|k: int, i: int| #[trigger] is_by_at(m, k, i, pseudonym) {
        let (k, i) = choose|k: int, i: int| #[trigger] is_by_at(m, k, i, pseudonym);
        let t = value_text(lines[k])->0;
        let j = choose|j: int| 0 <= j < texts.len() && #[trigger] texts[j] == t;
        assert(is_from(trim(split(texts[j], ',')[i]), pseudonym));
        assert(line_is_from(texts[j], pseudonym));
    }
}

/// Lengths and first differing letters of the names that the proxy sets.
proof fn lemma_names_differ()
    ensures
        "x-forwarded-for"@ != "x-forwarded-host"@,
        "x-forwarded-for"@ != "x-forwarded-proto"@,
        "x-forwarded-for"@ != "forwarded"@,
        "x-forwarded-for"@ != "via"@,
        "x-forwarded-for"@ != "host"@,
        "x-forwarded-host"@ != "x-forwarded-proto"@,
        "x-forwarded-host"@ != "forwarded"@,
        "x-forwarded-host"@ != "via"@,
        "x-forwarded-host"@ != "host"@,
        "x-forwarded-proto"@ != "forwarded"@,
        "x-forwarded-proto"@ != "via"@,
        "x-forwarded-proto"@ != "host"@,
        "forwarded"@ != "via"@,
        "forwarded"@ != "host"@,
        "via"@ != "host"@,
{
    reveal_strlit("x-forwarded-for");
    reveal_strlit("x-forwarded-host");
    reveal_strlit("x-forwarded-proto");
    reveal_strlit("forwarded");
    reveal_strlit("via");
    reveal_strlit("host");
    assert("x-forwarded-for"@.len() == 15);
    assert("x-forwarded-host"@.len() == 16);
    assert("x-forwarded-proto"@.len() == 17);
    assert("forwarded"@.len() == 9);
    assert("via"@.len() == 3);
    assert("host"@.len() == 4);
}

/// Each header of the client that is not hop-by-hop goes upstream with all its lines, in order,
/// whatever its name: `Host` only where the policy preserves it, and the headers about the client
/// only where the proxy does not write them itself. A hop-by-hop header does not go upstream,
/// unless the proxy writes it itself.
pub proof fn law_client_lines_go_upstream(
    client: Lines,
    address: Option<Seq<char>>,
    policy: ProxyPolicy,
    name: Seq<char>,
)
    ensures
        ({
            let out = forward_lines(client, address, policy);
            let tells = address is Some && policy.x_forwarded_for == XForwardedFor::Append;
            let written = tells && (name == "x-forwarded-for"@ || name == "x-forwarded-host"@ || (
            policy.public_scheme is Some && (name == "x-forwarded-proto"@ || name
                == "forwarded"@)));
            let sent = !hop_by_hop(client).contains(name) && (name != "host"@
                || policy.host_behaviour == HostBehaviour::Preserve);
            &&& !written && sent ==> lines_of(out, name) == lines_of(client, name)
            &&& !written && sent ==> (out.contains_key(name) <==> client.contains_key(name))
            &&& !written && !sent ==> !out.contains_key(name)
        }),
{
    lemma_names_differ();
}

/// Where the client's address is known and to be told, `X-Forwarded-For` is one line: what of the
/// client's own lines reads as text, unless that header is hop-by-hop, and the address behind it.
pub proof fn law_x_forwarded_for(client: Lines, address: Seq<char>, policy: ProxyPolicy)
    requires
        policy.x_forwarded_for == XForwardedFor::Append,
        is_printable(address),
    ensures
        ({
            let name = "x-forwarded-for"@;
            let out = forward_lines(client, Some(address), policy);
            let had = readable(lines_of(client, name));
            &&& lines_of(out, name).len() == 1
            &&& !hop_by_hop(client).contains(name) && had.len() > 0 ==> first_text(out, name)
                == Some(join(had, seq![',', ' ']) + seq![',', ' '] + address)
            &&& hop_by_hop(client).contains(name) || had.len() == 0 ==> first_text(out, name)
                == Some(address)
        }),
{
    lemma_names_differ();
    let name = "x-forwarded-for"@;
    let kept = crate::forward::kept_lines(client, policy);
    law_element_goes_to_the_end(kept, name, address, name);
    let out = forward_lines(client, Some(address), policy);
    assert(lines_of(out, name) == lines_of(
        crate::headers::with_element(kept, name, address),
        name,
    ));
    if hop_by_hop(client).contains(name) {
        assert(lines_of(kept, name) =~= Seq::<Seq<u8>>::empty());
        assert(readable(lines_of(kept, name)) =~= Seq::<Seq<char>>::empty());
    } else {
        assert(lines_of(kept, name) == lines_of(client, name));
    }
}

/// Where the client's address is known and to be told, `X-Forwarded-Host` is what the client sent
/// under that name, unless that is hop-by-hop; otherwise the first line of the client's `Host`,
/// where there is one.
pub proof fn law_x_forwarded_host(client: Lines, address: Seq<char>, policy: ProxyPolicy)
    requires
        policy.x_forwarded_for == XForwardedFor::Append,
    ensures
        ({
            let name = "x-forwarded-host"@;
            let out = forward_lines(client, Some(address), policy);
            let sent = client.contains_key(name) && !hop_by_hop(client).contains(name);
            let hosts = lines_of(client, "host"@);
            &&& sent ==> lines_of(out, name) == client[name]
            &&& !sent && hosts.len() > 0 ==> lines_of(out, name) == seq![hosts[0]]
            &&& !sent && hosts.len() == 0 ==> !out.contains_key(name)
        }),
{
    lemma_names_differ();
}

/// Under a public scheme that is printable, `X-Forwarded-Proto` is what the client sent under that
/// name, unless that is hop-by-hop; otherwise the scheme. Without a public scheme the proxy writes
/// neither that header nor `Forwarded`.
pub proof fn law_x_forwarded_proto(client: Lines, address: Seq<char>, policy: ProxyPolicy)
    requires
        policy.x_forwarded_for == XForwardedFor::Append,
        policy.public_scheme is Some,
        is_printable(opt_text(policy.public_scheme)->0),
    ensures
        ({
            let name = "x-forwarded-proto"@;
            let out = forward_lines(client, Some(address), policy);
            let sent = client.contains_key(name) && !hop_by_hop(client).contains(name);
            &&& sent ==> lines_of(out, name) == client[name]
            &&& !sent ==> lines_of(out, name).len() == 1 && first_text(out, name) == Some(
                opt_text(policy.public_scheme)->0,
            )
        }),
{
    lemma_names_differ();
    let scheme = opt_text(policy.public_scheme)->0;
    lemma_text_value_reads_back(scheme);
}

/// An address that holds a colon stands in brackets and quotes.
pub open spec fn node_text(address: Seq<char>) -> Seq<char> {
    if address.contains(':') {
        seq!['"', '['] + address + seq![']', '"']
    } else {
        address
    }
}

/// What a `Forwarded` element says, in this order: `for=` and the address, `host=` and the quoted
/// host where there is one, `proto=` and the scheme, with semicolons between them.
pub proof fn law_forwarded_element(
    address: Seq<char>,
    host: Seq<char>,
    scheme: Seq<char>,
    a: Seq<char>,
    b: Seq<char>,
    c: char,
)
    ensures
        forwarded_element(address, None, scheme) == "for="@ + node_text(address) + ";proto="@
            + scheme,
        forwarded_element(address, Some(host), scheme) == "for="@ + node_text(address) + ";host="@
            + quoted(host) + ";proto="@ + scheme,
        quoted(host) == seq!['"'] + escaped(host) + seq!['"'],
        escaped(a + b) == escaped(a) + escaped(b),
        c == '"' || c == '\\' ==> escaped(seq![c]) == seq!['\\', c],
        c != '"' && c != '\\' ==> escaped(seq![c]) == seq![c],
{
    reveal_strlit("\"[");
    reveal_strlit("]\"");
    assert("\"["@ =~= seq!['"', '[']);
    assert("]\""@ =~= seq![']', '"']);
    lemma_escaped(a, b);
    let one = seq![c];
    assert(one.drop_last() =~= Seq::<char>::empty());
    assert(escaped(one.drop_last()) =~= Seq::<char>::empty());
    assert(c == '"' || c == '\\' ==> escaped(one) =~= seq!['\\', c]);
    assert(c != '"' && c != '\\' ==> escaped(one) =~= seq![c]);
}

proof fn lemma_escaped(a: Seq<char>, b: Seq<char>)
    ensures
        escaped(a + b) == escaped(a) + escaped(b),
    decreases b.len(),
{
    if b.len() == 0 {
        assert(a + b =~= a);
        assert(escaped(a + b) =~= escaped(a) + escaped(b));
    } else {
        lemma_escaped(a, b.drop_last());
        assert((a + b).drop_last() =~= a + b.drop_last());
        assert(escaped(a + b) =~= escaped(a) + escaped(b));
    }
}

/// Under a public scheme, and where all is printable, `Forwarded` is one line: what of the
/// client's own lines reads as text, unless that header is hop-by-hop, and an element about the
/// client behind it, which names the client's `Host` where that reads as text.
pub proof fn law_forwarded(client: Lines, address: Seq<char>, policy: ProxyPolicy)
    requires
        policy.x_forwarded_for == XForwardedFor::Append,
        policy.public_scheme is Some,
        is_printable(
            forwarded_element(
                address,
                first_text(client, "host"@),
                opt_text(policy.public_scheme)->0,
            ),
        ),
    ensures
        ({
            let name = "forwarded"@;
            let out = forward_lines(client, Some(address), policy);
            let had = readable(lines_of(client, name));
            let element = forwarded_element(
                address,
                first_text(client, "host"@),
                opt_text(policy.public_scheme)->0,
            );
            &&& lines_of(out, name).len() == 1
            &&& !hop_by_hop(client).contains(name) && had.len() > 0 ==> first_text(out, name)
                == Some(join(had, seq![',', ' ']) + seq![',', ' '] + element)
            &&& hop_by_hop(client).contains(name) || had.len() == 0 ==> first_text(out, name)
                == Some(element)
        }),
{
    lemma_names_differ();
    let name = "forwarded"@;
    let scheme = opt_text(policy.public_scheme)->0;
    let element = forwarded_element(address, first_text(client, "host"@), scheme);
    let kept = crate::forward::kept_lines(client, policy);
    let known = crate::forward::with_forwarded_proto(
        crate::forward::with_forwarded_host(
            crate::headers::with_element(kept, "x-forwarded-for"@, address),
            client,
        ),
        scheme,
    );
    law_element_goes_to_the_end(known, name, element, name);
    assert(lines_of(known, name) == lines_of(kept, name));
    if hop_by_hop(client).contains(name) {
        assert(lines_of(kept, name) =~= Seq::<Seq<u8>>::empty());
        assert(readable(lines_of(kept, name)) =~= Seq::<Seq<char>>::empty());
    } else {
        assert(lines_of(kept, name) == lines_of(client, name));
    }
}

/// The version of a message, as a `Via` list writes it.
pub proof fn law_version_text(version: HttpVersion)
    ensures
        version == HttpVersion::Http09 ==> version_text(version) == "0.9"@,
        version == HttpVersion::Http10 ==> version_text(version) == "1.0"@,
        version == HttpVersion::Http11 ==> version_text(version) == "1.1"@,
        version == HttpVersion::Http2 ==> version_text(version) == "2.0"@,
        version == HttpVersion::Http3 ==> version_text(version) == "3.0"@,
        version == HttpVersion::Other ==> version_text(version) == "1.1"@,
{
}

/// Under a pseudonym the `Via` list that goes upstream, and the one that comes back, is one line:
/// what of the lines that came reads as text, unless that header is hop-by-hop, and behind it the
/// version of the message, a space and the pseudonym. All other headers stay as they are; and
/// without a pseudonym so does this one.
pub proof fn law_via_is_extended(
    client: Lines,
    address: Option<Seq<char>>,
    response: Lines,
    version: HttpVersion,
    policy: ProxyPolicy,
    other: Seq<char>,
)
    ensures
        ({
            let name = "via"@;
            let sent = outgoing_lines(client, address, version, policy);
            let back = response_lines(response, version, policy);
            let entry = version_text(version) + seq![' '] + opt_text(policy.via)->0;
            let had = readable(lines_of(client, name));
            let got = readable(lines_of(response, name));
            let adds = policy.via is Some && is_pseudonym(opt_text(policy.via)->0);
            let goes_out = !hop_by_hop(client).contains(name);
            let comes_back = !hop_by_hop(response).contains(name);
            &&& adds && goes_out && had.len() > 0 ==> first_text(sent, name) == Some(
                join(had, seq![',', ' ']) + seq![',', ' '] + entry,
            )
            &&& adds && (!goes_out || had.len() == 0) ==> first_text(sent, name) == Some(entry)
            &&& adds ==> lines_of(sent, name).len() == 1 && lines_of(back, name).len() == 1
            &&& adds && comes_back && got.len() > 0 ==> first_text(back, name) == Some(
                join(got, seq![',', ' ']) + seq![',', ' '] + entry,
            )
            &&& adds && (!comes_back || got.len() == 0) ==> first_text(back, name) == Some(entry)
            &&& adds && other != name ==> lines_of(sent, other) == lines_of(
                forward_lines(client, address, policy),
                other,
            )
            &&& (policy.via is None || (adds && other != name)) ==> lines_of(back, other) == (
            if hop_by_hop(response).contains(other) {
                Seq::empty()
            } else {
                lines_of(response, other)
            })
            &&& policy.via is None ==> sent == forward_lines(client, address, policy)
        }),
{
    lemma_names_differ();
    let name = "via"@;
    reveal_strlit(" ");
    assert(" "@ =~= seq![' ']);
    let kept = forward_lines(client, address, policy);
    let rest = response.remove_keys(hop_by_hop(response));
    if policy.via is Some && is_pseudonym(opt_text(policy.via)->0) {
        let p = opt_text(policy.via)->0;
        let entry = via_element(version, p);
        lemma_version_is_a_word(version);
        assert(is_printable(entry)) by {
            assert forall|i: int| 0 <= i < entry.len() implies ' ' <= #[trigger] entry[i]
                < '\u{7f}' || entry[i] == '\t' by {
                if i < 3 {
                    assert(entry[i] == version_text(version)[i]);
                } else if i > 3 {
                    assert(entry[i] == p[i - 4]);
                }
            }
        }
        law_element_goes_to_the_end(kept, name, entry, other);
        law_element_goes_to_the_end(rest, name, entry, other);
    }
    law_client_lines_go_upstream(client, address, policy, name);
    assert(readable(Seq::<Seq<u8>>::empty()) =~= Seq::<Seq<char>>::empty());
    if hop_by_hop(client).contains(name) {
        assert(lines_of(kept, name) =~= Seq::<Seq<u8>>::empty());
    }
    if hop_by_hop(response).contains(name) {
        assert(lines_of(rest, name) =~= Seq::<Seq<u8>>::empty());
    }
}

/// The length that a request declares is the number in its first `Content-Length` line.
pub proof fn law_declared_length(m: Lines, n: nat)
    ensures
        declared_length(m) == Some(n) <==> first_text(m, "content-length"@) is Some && number(
            first_text(m, "content-length"@)->0,
            0xffff_ffff_ffff_ffff,
        ) == Some(n),
{
}

/// What becomes of a request: `CONNECT` is not supported, whatever else holds; a request that came
/// by under the policy's pseudonym is a loop; one that declares a longer body than the policy
/// admits is refused, and none that declares no longer one; then an upgrade to WebSocket is asked
/// for; everything else is forwarded.
pub proof fn law_verdicts(method: Seq<char>, m: Lines, policy: ProxyPolicy)
    ensures
        ({
            let r = verdict(method, m, policy);
            let connect = method == "CONNECT"@;
            let looped = policy.via is Some && via_holds(m, opt_text(policy.via)->0);
            let too_large = exists|n: nat|
                declared_length(m) == Some(n) && policy.max_request_body_bytes is Some && n
                    > policy.max_request_body_bytes->0;
            &&& r == Verdict::NotImplemented <==> connect
            &&& r == Verdict::LoopDetected <==> !connect && looped
            &&& r == Verdict::TooLarge <==> !connect && !looped && too_large
            &&& r == Verdict::Upgrade <==> !connect && !looped && !too_large
                && asks_for_websocket(m)
            &&& r == Verdict::Forward <==> !connect && !looped && !too_large
                && !asks_for_websocket(m)
        }),
{
    if declared_length(m) is Some {
        let n = declared_length(m)->0;
        assert(declared_length(m) == Some(n));
    }
}

/// The lines of a header that the proxy sends on, none where it is hop-by-hop.
pub open spec fn sent_lines(m: Lines, name: Seq<char>) -> Seq<Seq<u8>> {
    if hop_by_hop(m).contains(name) {
        Seq::empty()
    } else {
        lines_of(m, name)
    }
}

/// Whatever the address, the scheme and the pseudonym hold, each list that the proxy extends is the
/// list of what was sent on and could be read, with the own element behind it, in one line, where
/// that makes a field value; and what was sent on where it does not.
pub proof fn law_extended_lists(
    client: Lines,
    address: Seq<char>,
    response: Lines,
    version: HttpVersion,
    policy: ProxyPolicy,
)
    ensures
        ({
            let told = forward_lines(client, Some(address), policy);
            let sent = outgoing_lines(client, Some(address), version, policy);
            let back = response_lines(response, version, policy);
            let scheme = opt_text(policy.public_scheme)->0;
            let entry = version_text(version) + seq![' '] + opt_text(policy.via)->0;
            let about = forwarded_element(address, first_text(client, "host"@), scheme);
            let appends = policy.x_forwarded_for == XForwardedFor::Append;
            let proto = "x-forwarded-proto"@;
            &&& appends ==> is_extended(
                lines_of(told, "x-forwarded-for"@),
                sent_lines(client, "x-forwarded-for"@),
                address,
            )
            &&& appends && policy.public_scheme is Some ==> is_extended(
                lines_of(told, "forwarded"@),
                sent_lines(client, "forwarded"@),
                about,
            )
            &&& appends && policy.public_scheme is Some && (!client.contains_key(proto)
                || hop_by_hop(client).contains(proto)) ==> lines_of(told, proto) == (match text_value(
                scheme,
            ) {
                Some(v) => seq![v],
                None => Seq::empty(),
            })
            &&& policy.via is Some ==> is_extended(
                lines_of(sent, "via"@),
                sent_lines(client, "via"@),
                entry,
            )
            &&& policy.via is Some ==> is_extended(
                lines_of(back, "via"@),
                sent_lines(response, "via"@),
                entry,
            )
        }),
{
    lemma_names_differ();
    reveal_strlit(" ");
    assert(" "@ =~= seq![' ']);
    let kept = crate::forward::kept_lines(client, policy);
    let told = forward_lines(client, Some(address), policy);
    let rest = response.remove_keys(hop_by_hop(response));
    let scheme = opt_text(policy.public_scheme)->0;
    let about = forwarded_element(address, first_text(client, "host"@), scheme);
    assert(lines_of(kept, "x-forwarded-for"@) =~= sent_lines(client, "x-forwarded-for"@));
    assert(lines_of(kept, "forwarded"@) =~= sent_lines(client, "forwarded"@));
    assert(lines_of(kept, "via"@) =~= sent_lines(client, "via"@));
    assert(lines_of(rest, "via"@) =~= sent_lines(response, "via"@));
    law_element_text(kept, "x-forwarded-for"@, address, "forwarded"@);
    law_client_lines_go_upstream(client, Some(address), policy, "via"@);
    assert(lines_of(told, "via"@) =~= sent_lines(client, "via"@));
    if policy.x_forwarded_for == XForwardedFor::Append && policy.public_scheme is Some {
        let known = crate::forward::with_forwarded_proto(
            crate::forward::with_forwarded_host(
                crate::headers::with_element(kept, "x-forwarded-for"@, address),
                client,
            ),
            scheme,
        );
        law_element_text(known, "forwarded"@, about, "x-forwarded-for"@);
        assert(lines_of(known, "forwarded"@) == lines_of(kept, "forwarded"@));
    }
    if policy.via is Some {
        let p = opt_text(policy.via)->0;
        let entry = via_element(version, p);
        law_element_text(told, "via"@, entry, "host"@);
        law_element_text(rest, "via"@, entry, "host"@);
    }
}

/// Whether some lines are the list that others write with one more element, or the others where
/// that makes no field value.
pub open spec fn is_extended(
    lines: Seq<Seq<u8>>,
    others: Seq<Seq<u8>>,
    element: Seq<char>,
) -> bool {
    match text_value(list_text(readable(others), element)) {
        Some(v) => lines == seq![v],
        None => lines == others,
    }
}

} // verus!
