//! What holds of every request and response that is forwarded.
use crate::forward::{
    forward_lines, hop_by_hop, is_from, is_nominated, kept_lines, line_is_from, outgoing_lines,
    response_lines, standard_hop_by_hop, te_is_trailers, verdict, via_element, via_holds, Verdict,
};
use crate::headers::{
    first_of, first_text, is_text_byte, lemma_text_value_reads_back, lines_of, readable, value_text,
    with_element, Lines,
};
use crate::message::{version_text, HttpVersion};
use crate::proxy::{HostBehaviour, ProxyPolicy, XForwardedFor};
use crate::text::{
    before, find, is_space, join, lemma_find, lemma_find_is, lemma_trim_start_skip, lemma_word_len,
    opt_text, split, trim, trim_end, trim_start, word_len, words,
};
use crate::websocket::upgrade_lines;
use vstd::prelude::*;

verus! {

/// The names that the proxy sets itself.
pub open spec fn own_names() -> Set<Seq<char>> {
    set![
        "x-forwarded-for"@,
        "x-forwarded-host"@,
        "x-forwarded-proto"@,
        "forwarded"@,
        "via"@,
    ]
}

proof fn lemma_own_name_lengths(name: Seq<char>)
    requires
        own_names().contains(name),
    ensures
        name.len() == 3 || name.len() == 9 || name.len() >= 15,
{
    reveal_strlit("x-forwarded-for");
    reveal_strlit("x-forwarded-host");
    reveal_strlit("x-forwarded-proto");
    reveal_strlit("forwarded");
    reveal_strlit("via");
    assert("x-forwarded-for"@.len() == 15);
    assert("x-forwarded-host"@.len() == 16);
    assert("x-forwarded-proto"@.len() == 17);
    assert("forwarded"@.len() == 9);
    assert("via"@.len() == 3);
}

/// No hop-by-hop header reaches the upstream: neither a standard one (`te: trailers` apart) nor
/// one that the client's `Connection` header names, unless the proxy sets it itself.
pub proof fn law_hop_by_hop_headers_are_not_forwarded(
    client: Lines,
    address: Option<Seq<char>>,
    version: HttpVersion,
    policy: ProxyPolicy,
    name: Seq<char>,
)
    requires
        hop_by_hop(client).contains(name),
        !own_names().contains(name),
    ensures
        !outgoing_lines(client, address, version, policy).contains_key(name),
{
}

/// Every other header goes upstream with all its lines, in order, `Host` apart; and no header
/// goes upstream that the client did not send and the proxy does not set.
pub proof fn law_end_to_end_headers_are_forwarded(
    client: Lines,
    address: Option<Seq<char>>,
    version: HttpVersion,
    policy: ProxyPolicy,
    name: Seq<char>,
)
    requires
        !hop_by_hop(client).contains(name),
        !own_names().contains(name),
        name != "host"@,
    ensures
        lines_of(outgoing_lines(client, address, version, policy), name) == lines_of(client, name),
{
}

/// `te: trailers` goes upstream, unless the client's `Connection` header names it.
pub proof fn law_te_trailers_is_forwarded(
    client: Lines,
    address: Option<Seq<char>>,
    version: HttpVersion,
    policy: ProxyPolicy,
)
    requires
        te_is_trailers(client),
        !is_nominated(client, "te"@),
    ensures
        lines_of(outgoing_lines(client, address, version, policy), "te"@) == lines_of(
            client,
            "te"@,
        ),
{
    reveal_strlit("te");
    reveal_strlit("host");
    assert("te"@.len() == 2);
    assert("host"@.len() == 4);
    if own_names().contains("te"@) {
        lemma_own_name_lengths("te"@);
    }
    law_end_to_end_headers_are_forwarded(client, address, version, policy, "te"@);
}

/// The client's `Host` goes upstream exactly where the policy preserves it, unless the client's
/// `Connection` header names it.
pub proof fn law_host_is_dropped_unless_preserved(
    client: Lines,
    address: Option<Seq<char>>,
    version: HttpVersion,
    policy: ProxyPolicy,
)
    requires
        !is_nominated(client, "host"@),
    ensures
        lines_of(outgoing_lines(client, address, version, policy), "host"@) == (
        if policy.host_behaviour == HostBehaviour::Preserve {
            lines_of(client, "host"@)
        } else {
            Seq::empty()
        }),
{
    reveal_strlit("host");
    assert("host"@.len() == 4);
    if own_names().contains("host"@) {
        lemma_own_name_lengths("host"@);
    }
    assert(!own_names().contains("host"@));
    reveal_strlit("connection");
    reveal_strlit("keep-alive");
    reveal_strlit("proxy-connection");
    reveal_strlit("transfer-encoding");
    reveal_strlit("te");
    reveal_strlit("trailer");
    reveal_strlit("upgrade");
    let std = standard_hop_by_hop();
    assert forall|i: int| 0 <= i < std.len() implies std[i] != "host"@ by {
        assert(std[i].len() != "host"@.len());
    }
    assert(!std.contains("host"@));
    assert(!hop_by_hop(client).contains("host"@));
    assert(lines_of(outgoing_lines(client, address, version, policy), "host"@) == lines_of(
        kept_lines(client, policy),
        "host"@,
    ));
}

/// Without the client's address, and where the policy says so, the headers about the client go
/// upstream as the client sent them.
pub proof fn law_client_headers_are_untouched_without_append(
    client: Lines,
    address: Option<Seq<char>>,
    policy: ProxyPolicy,
)
    requires
        address is None || policy.x_forwarded_for == XForwardedFor::Preserve,
    ensures
        forward_lines(client, address, policy) == kept_lines(client, policy),
{
}

/// Without a pseudonym the `Via` header is left alone in both directions, and no request counts
/// as a loop.
pub proof fn law_no_via_without_a_pseudonym(
    method: Seq<char>,
    client: Lines,
    address: Option<Seq<char>>,
    response: Lines,
    version: HttpVersion,
    policy: ProxyPolicy,
)
    requires
        policy.via is None,
    ensures
        outgoing_lines(client, address, version, policy) == forward_lines(client, address, policy),
        response_lines(response, version, policy) == response.remove_keys(hop_by_hop(response)),
        verdict(method, client, policy) != Verdict::LoopDetected,
{
}

/// No hop-by-hop header of a response reaches the client, and every other header does with all
/// its lines, `Via` apart.
pub proof fn law_responses_lose_hop_by_hop_headers_only(
    response: Lines,
    version: HttpVersion,
    policy: ProxyPolicy,
    name: Seq<char>,
)
    requires
        name != "via"@,
    ensures
        hop_by_hop(response).contains(name) ==> !response_lines(
            response,
            version,
            policy,
        ).contains_key(name),
        !hop_by_hop(response).contains(name) ==> lines_of(
            response_lines(response, version, policy),
            name,
        ) == lines_of(response, name),
{
}

/// A word that can name a proxy in a `Via` list: printable characters, no comma among them.
pub open spec fn is_pseudonym(p: Seq<char>) -> bool {
    p.len() > 0 && forall|i: int| 0 <= i < p.len() ==> '!' <= #[trigger] p[i] <= '~' && p[i] != ','
}

/// A text of printable ASCII characters and tabs.
pub open spec fn is_printable(s: Seq<char>) -> bool {
    forall|i: int| 0 <= i < s.len() ==> ' ' <= #[trigger] s[i] < '\u{7f}' || s[i] == '\t'
}

/// Lines that read as text are printable.
pub proof fn lemma_readable_is_printable(lines: Seq<Seq<u8>>)
    ensures
        forall|k: int|
            0 <= k < readable(lines).len() ==> is_printable(#[trigger] readable(lines)[k]),
    decreases lines.len(),
{
    if lines.len() > 0 {
        lemma_readable_is_printable(lines.drop_last());
        let v = lines.last();
        if value_text(v) is Some {
            let t = value_text(v)->0;
            assert forall|i: int| 0 <= i < t.len() implies ' ' <= #[trigger] t[i] < '\u{7f}' || t[i]
                == '\t' by {
                assert(is_text_byte(v[i]));
            }
            let all = readable(lines);
            let less = readable(lines.drop_last());
            assert forall|k: int| 0 <= k < all.len() implies is_printable(#[trigger] all[k]) by {
                if k < less.len() {
                    assert(all[k] == less[k]);
                }
            }
        }
    }
}

/// Printable texts with a printable separator join to a printable text.
pub proof fn lemma_join_is_printable(v: Seq<Seq<char>>, sep: Seq<char>)
    requires
        is_printable(sep),
        forall|k: int| 0 <= k < v.len() ==> is_printable(#[trigger] v[k]),
    ensures
        is_printable(join(v, sep)),
    decreases v.len(),
{
    if v.len() == 1 {
        assert(is_printable(v[0]));
    } else if v.len() > 1 {
        let less = v.drop_last();
        assert forall|k: int| 0 <= k < less.len() implies is_printable(#[trigger] less[k]) by {
            assert(is_printable(v[k]));
        }
        lemma_join_is_printable(less, sep);
        assert(is_printable(v[v.len() - 1]));
        let a = join(less, sep);
        let b = a + sep;
        let all = b + v.last();
        assert forall|i: int| 0 <= i < b.len() implies ' ' <= #[trigger] b[i] < '\u{7f}' || b[i]
            == '\t' by {
            if i < a.len() {
                assert(b[i] == a[i]);
            } else {
                assert(b[i] == sep[i - a.len()]);
            }
        }
        assert forall|i: int| 0 <= i < all.len() implies ' ' <= #[trigger] all[i] < '\u{7f}'
            || all[i] == '\t' by {
            if i < b.len() {
                assert(all[i] == b[i]);
            } else {
                assert(all[i] == v.last()[i - b.len()]);
            }
        }
    }
}

/// What follows the last comma is the last piece.
pub proof fn lemma_split_last(a: Seq<char>, c: char, b: Seq<char>)
    requires
        forall|i: int| 0 <= i < b.len() ==> #[trigger] b[i] != c,
    ensures
        split(a.push(c) + b, c).len() > 0,
        split(a.push(c) + b, c).last() == b,
        split(b, c) == seq![b],
    decreases a.len(),
{
    let s = a.push(c) + b;
    lemma_find_is(b, c, b.len() as int);
    lemma_find(s, c);
    let i = find(s, c);
    assert(s[a.len() as int] == c);
    let rest = s.skip(i + 1);
    if i < a.len() {
        let a2 = a.skip(i + 1);
        assert(rest =~= a2.push(c) + b);
        lemma_split_last(a2, c, b);
    } else {
        assert(rest =~= b);
    }
    let pieces = split(rest, c);
    assert(split(s, c) == seq![before(s, c)] + pieces);
    assert(split(s, c).last() == pieces.last());
}

/// A text without white space at its ends is its own trimmed form.
proof fn lemma_trim_nothing(s: Seq<char>)
    requires
        s.len() > 0,
        !is_space(s[0]),
        !is_space(s.last()),
    ensures
        trim_start(s) == s,
        trim(s) == s,
{
    assert(trim_end(s) == s);
}

/// Two words with a space between them are those two words.
#[verifier::rlimit(30)]
pub proof fn lemma_two_words(a: Seq<char>, b: Seq<char>)
    requires
        a.len() > 0,
        b.len() > 0,
        forall|i: int| 0 <= i < a.len() ==> !is_space(#[trigger] a[i]),
        forall|i: int| 0 <= i < b.len() ==> !is_space(#[trigger] b[i]),
    ensures
        words(a.push(' ') + b) == seq![a, b],
        trim(a.push(' ') + b) == a.push(' ') + b,
        trim(seq![' '] + (a.push(' ') + b)) == a.push(' ') + b,
{
    let s = a.push(' ') + b;
    assert(s[0] == a[0]);
    assert(s.last() == b[b.len() - 1]);
    lemma_trim_nothing(s);
    let spaced = seq![' '] + s;
    lemma_trim_start_skip(spaced, 1);
    assert(spaced.skip(1) =~= s);
    lemma_word_len(s);
    assert(s[a.len() as int] == ' ');
    if word_len(s) < a.len() {
        assert(s[word_len(s)] == a[word_len(s)]);
    }
    assert(word_len(s) == a.len());
    assert(s.take(a.len() as int) =~= a);
    let rest = s.skip(a.len() as int);
    assert(rest =~= seq![' '] + b);
    lemma_trim_start_skip(rest, 1);
    assert(rest.skip(1) =~= b);
    lemma_word_len(b);
    if word_len(b) < b.len() {
        assert(!is_space(b[word_len(b)]));
    }
    assert(b.take(b.len() as int) =~= b);
    let none = b.skip(b.len() as int);
    assert(none.len() == 0);
    assert(words(none) =~= Seq::<Seq<char>>::empty());
    assert(words(rest) =~= seq![b]);
    assert(words(s) =~= seq![a, b]);
}

/// A version is written in three printable characters, no comma among them.
pub proof fn lemma_version_is_a_word(version: HttpVersion)
    ensures
        version_text(version).len() == 3,
        forall|i: int|
            0 <= i < 3 ==> '!' <= #[trigger] version_text(version)[i] <= '~' && version_text(
                version,
            )[i] != ',',
{
    reveal_strlit("0.9");
    reveal_strlit("1.0");
    reveal_strlit("1.1");
    reveal_strlit("2.0");
    reveal_strlit("3.0");
}

/// A request that this proxy has forwarded under its pseudonym is recognised when it comes back:
/// it is refused as a loop.
pub proof fn law_forwarded_request_is_recognised(
    method: Seq<char>,
    client: Lines,
    address: Option<Seq<char>>,
    version: HttpVersion,
    policy: ProxyPolicy,
)
    requires
        method != "CONNECT"@,
        policy.via is Some,
        is_pseudonym(opt_text(policy.via)->0),
    ensures
        verdict(method, outgoing_lines(client, address, version, policy), policy)
            == Verdict::LoopDetected,
{
    let p = opt_text(policy.via)->0;
    let m = forward_lines(client, address, policy);
    lemma_via_is_recognised(m, version, p);
}

/// A `Via` chain to which a pseudonym was added holds that pseudonym.
pub proof fn lemma_via_is_recognised(m: Lines, version: HttpVersion, p: Seq<char>)
    requires
        is_pseudonym(p),
    ensures
        via_holds(with_element(m, "via"@, via_element(version, p)), p),
{
    let version_word = version_text(version);
    let e = via_element(version, p);
    let existing = readable(lines_of(m, "via"@));
    let all = existing.push(e);
    let c = join(all, ", "@);
    reveal_strlit(" ");
    reveal_strlit(", ");
    assert(" "@ =~= seq![' ']);
    assert(", "@ =~= seq![',', ' ']);
    assert(e =~= version_word.push(' ') + p);
    lemma_version_is_a_word(version);
    lemma_two_words(version_word, p);
    assert forall|i: int| 0 <= i < e.len() implies ' ' <= #[trigger] e[i] < '\u{7f}' && e[i]
        != ',' by {
        if i < 3 {
            assert(e[i] == version_word[i]);
        } else if i > 3 {
            assert(e[i] == p[i - 4]);
        }
    }
    lemma_element_reads(m, "via"@, e);
    let lines = lines_of(with_element(m, "via"@, e), "via"@);
    assert(lines.drop_last() =~= Seq::<Seq<u8>>::empty());
    assert(readable(lines.drop_last()) =~= Seq::<Seq<char>>::empty());
    assert(readable(lines) =~= seq![c]);
    let pieces = split(c, ',');
    if existing.len() == 0 {
        assert(c == e);
        lemma_split_last(Seq::empty(), ',', e);
        assert(pieces[0] == e);
        assert(is_from(trim(pieces[0]), p));
    } else {
        assert(all.drop_last() =~= existing);
        let a = join(existing, ", "@);
        let tail = seq![' '] + e;
        assert(c =~= a.push(',') + tail);
        assert forall|i: int| 0 <= i < tail.len() implies #[trigger] tail[i] != ',' by {
            if i > 0 {
                assert(tail[i] == e[i - 1]);
            }
        }
        lemma_split_last(a, ',', tail);
        let k = pieces.len() - 1;
        assert(pieces[k] == tail);
        assert(is_from(trim(pieces[k]), p));
    }
    assert(line_is_from(c, p));
    assert(readable(lines)[0] == c);
}

/// A list that got one more printable element is written in one line, which reads as the elements
/// that could be read and then the new one.
pub proof fn lemma_element_reads(m: Lines, name: Seq<char>, element: Seq<char>)
    requires
        is_printable(element),
    ensures
        lines_of(with_element(m, name, element), name).len() == 1,
        first_text(with_element(m, name, element), name) == Some(
            join(readable(lines_of(m, name)).push(element), ", "@),
        ),
{
    let existing = readable(lines_of(m, name));
    let all = existing.push(element);
    reveal_strlit(", ");
    lemma_readable_is_printable(lines_of(m, name));
    assert forall|k: int| 0 <= k < all.len() implies is_printable(#[trigger] all[k]) by {
        if k < existing.len() {
            assert(all[k] == existing[k]);
        }
    }
    lemma_join_is_printable(all, ", "@);
    lemma_text_value_reads_back(join(all, ", "@));
}

/// Where the client's address is known and to be appended, the upstream gets one
/// `X-Forwarded-For` line: what the client sent, as far as it reads as text, and the address
/// behind it.
pub proof fn law_x_forwarded_for_ends_with_the_client(
    client: Lines,
    address: Seq<char>,
    policy: ProxyPolicy,
)
    requires
        policy.x_forwarded_for == XForwardedFor::Append,
        is_printable(address),
    ensures
        ({
            let name = "x-forwarded-for"@;
            let out = forward_lines(client, Some(address), policy);
            &&& lines_of(out, name).len() == 1
            &&& first_text(out, name) == Some(
                join(readable(lines_of(kept_lines(client, policy), name)).push(address), ", "@),
            )
        }),
{
    let name = "x-forwarded-for"@;
    let kept = kept_lines(client, policy);
    lemma_element_reads(kept, name, address);
    reveal_strlit("x-forwarded-for");
    reveal_strlit("x-forwarded-host");
    reveal_strlit("x-forwarded-proto");
    reveal_strlit("forwarded");
    assert(name.len() == 15);
    assert("x-forwarded-host"@.len() == 16);
    assert("x-forwarded-proto"@.len() == 17);
    assert("forwarded"@.len() == 9);
    let out = forward_lines(client, Some(address), policy);
    assert(lines_of(out, name) == lines_of(with_element(kept, name, address), name));
}

/// Where the client's address is known and to be appended, `X-Forwarded-Host` is what the client
/// sent under that name, or else the client's `Host`.
pub proof fn law_x_forwarded_host_is_the_clients_host(
    client: Lines,
    address: Seq<char>,
    policy: ProxyPolicy,
    host: Seq<u8>,
)
    requires
        policy.x_forwarded_for == XForwardedFor::Append,
        first_of(client, "host"@) == Some(host),
    ensures
        lines_of(forward_lines(client, Some(address), policy), "x-forwarded-host"@) == (
        if kept_lines(client, policy).contains_key("x-forwarded-host"@) {
            kept_lines(client, policy)["x-forwarded-host"@]
        } else {
            seq![host]
        }),
{
    reveal_strlit("x-forwarded-for");
    reveal_strlit("x-forwarded-host");
    reveal_strlit("x-forwarded-proto");
    reveal_strlit("forwarded");
    assert("x-forwarded-for"@.len() == 15);
    assert("x-forwarded-host"@.len() == 16);
    assert("x-forwarded-proto"@.len() == 17);
    assert("forwarded"@.len() == 9);
}

/// Under a pseudonym, the `Via` chain that goes upstream is the one that came, as far as it reads
/// as text, with this proxy behind it.
pub proof fn law_via_chain_is_extended(
    client: Lines,
    address: Option<Seq<char>>,
    version: HttpVersion,
    policy: ProxyPolicy,
)
    requires
        policy.via is Some,
        is_pseudonym(opt_text(policy.via)->0),
    ensures
        first_text(outgoing_lines(client, address, version, policy), "via"@) == Some(
            join(
                readable(lines_of(forward_lines(client, address, policy), "via"@)).push(
                    via_element(version, opt_text(policy.via)->0),
                ),
                ", "@,
            ),
        ),
{
    let p = opt_text(policy.via)->0;
    let e = via_element(version, p);
    reveal_strlit(" ");
    assert(" "@ =~= seq![' ']);
    lemma_version_is_a_word(version);
    assert forall|i: int| 0 <= i < e.len() implies ' ' <= #[trigger] e[i] < '\u{7f}' || e[i]
        == '\t' by {
        if i < 3 {
            assert(e[i] == version_text(version)[i]);
        } else if i > 3 {
            assert(e[i] == p[i - 4]);
        }
    }
    lemma_element_reads(forward_lines(client, address, policy), "via"@, e);
}

/// The handshake with a WebSocket upstream carries exactly one `Host`, and every other header of
/// the client with all its lines.
pub proof fn law_upgrade_carries_one_host(client: Lines, host: Seq<u8>, name: Seq<char>)
    ensures
        lines_of(upgrade_lines(client, host), "host"@) == seq![host],
        name != "host"@ ==> lines_of(upgrade_lines(client, host), name) == lines_of(client, name),
{
}

} // verus!
