//! What becomes of each header under the RFC 9110 layer, name by name and entry by entry.
use crate::exchange_laws::{is_standard_name, lemma_standard_names_are};
use crate::headers::{first_text, header_name, lines_of, text_value, Lines};
use crate::message::{version_text, HttpVersion};
use crate::rfc9110::{
    answered_lines, comment_of, counted_down, credential_names, element_removes, end_to_end_names,
    entries_of, entry_of, entry_text, is_hop_name, is_loop, keeps_upgrade, lemma_decimal_is_a_value,
    list_removes, max_forwards_of, own_entry, preserved_lines, pseudonym_of, removals,
    server_names_of, trim_all, via_replaced, via_text, via_value, EntryView, MaxForwards,
    Rfc9110Config,
};
use crate::rfc9110_laws::lemma_words_in_front;
use crate::text::{
    decimal, join, lemma_behind_last_is, lemma_find_is, lower, number, split, trim, words,
};
use crate::text_laws::{is_solid, law_first_occurrence, law_join};
use vstd::prelude::*;

verus! {

/// The names of the known end-to-end headers, each by itself.
pub open spec fn is_end_to_end_name(n: Seq<char>) -> bool {
    ||| n == "cache-control"@
    ||| n == "authorization"@
    ||| n == "content-length"@
    ||| n == "content-type"@
    ||| n == "content-encoding"@
    ||| n == "accept"@
    ||| n == "accept-encoding"@
    ||| n == "accept-language"@
    ||| n == "range"@
    ||| n == "cookie"@
    ||| n == "set-cookie"@
    ||| n == "etag"@
}

/// Whether the piece at position `i` of the first `Connection` line writes the name `n`.
pub open spec fn is_listed_at(m: Lines, i: int, n: Seq<char>) -> bool {
    first_text(m, "connection"@) matches Some(t) && 0 <= i < split(t, ',').len() && header_name(
        trim(split(t, ',')[i]),
    ) == Some(n)
}

proof fn lemma_end_to_end_names_are(n: Seq<char>)
    ensures
        end_to_end_names().contains(n) <==> is_end_to_end_name(n),
{
    let all = end_to_end_names();
    assert(all[0] == "cache-control"@ && all[1] == "authorization"@ && all[2]
        == "content-length"@ && all[3] == "content-type"@ && all[4] == "content-encoding"@
        && all[5] == "accept"@ && all[6] == "accept-encoding"@ && all[7] == "accept-language"@
        && all[8] == "range"@ && all[9] == "cookie"@ && all[10] == "set-cookie"@ && all[11]
        == "etag"@);
    if all.contains(n) {
        let i = choose|i: int| 0 <= i < all.len() && all[i] == n;
        assert(0 <= i < 12);
    }
}

/// Which headers count as hop-by-hop and which as end-to-end.
pub proof fn law_header_kinds(n: Seq<char>)
    ensures
        is_hop_name(n) <==> is_standard_name(n) || n == "via"@,
        end_to_end_names().contains(n) <==> is_end_to_end_name(n),
{
    lemma_standard_names_are(n);
    lemma_end_to_end_names_are(n);
}

/// Every element of the first `Connection` line counts, wherever it stands: the header that it
/// names is gone afterwards, unless it is known to be end-to-end.
pub proof fn law_every_listed_header_is_removed(m: Lines, i: int, n: Seq<char>)
    requires
        is_listed_at(m, i, n),
        !is_end_to_end_name(n),
    ensures
        !m.remove_keys(removals(m, false)).contains_key(n),
        n != "connection"@ && n != "upgrade"@ ==> !m.remove_keys(removals(m, true)).contains_key(n),
{
    lemma_end_to_end_names_are(n);
    let t = first_text(m, "connection"@)->0;
    let pieces = split(t, ',');
    assert(element_removes(pieces[i], false, n));
    assert(list_removes(pieces, false, n));
    if n != "connection"@ && n != "upgrade"@ {
        assert(element_removes(pieces[i], true, n));
        assert(list_removes(pieces, true, n));
    }
}

/// A header is removed only where it is a standard hop-by-hop header, or an element of the first
/// `Connection` line names it and it is not known to be end-to-end. Where the upgrade headers are
/// kept, they are not removed. All others keep their lines.
pub proof fn law_no_other_header_is_removed(m: Lines, keep_upgrade: bool, n: Seq<char>)
    requires
        !is_standard_name(n) || (keep_upgrade && (n == "connection"@ || n == "upgrade"@)),
        (keep_upgrade && (n == "connection"@ || n == "upgrade"@)) || is_end_to_end_name(n)
            || !exists|i: int| is_listed_at(m, i, n),
    ensures
        m.remove_keys(removals(m, keep_upgrade)).contains_key(n) <==> m.contains_key(n),
        lines_of(m.remove_keys(removals(m, keep_upgrade)), n) == lines_of(m, n),
{
    lemma_standard_names_are(n);
    lemma_end_to_end_names_are(n);
    reveal_strlit("connection");
    reveal_strlit("upgrade");
    assert(lower("connection"@) =~= "connection"@);
    assert(lower("upgrade"@) =~= "upgrade"@);
    if is_end_to_end_name(n) {
        crate::rfc9110_laws::law_end_to_end_headers_are_kept(m, keep_upgrade, n);
    } else if removals(m, keep_upgrade).contains(n) {
        let t = first_text(m, "connection"@)->0;
        let pieces = split(t, ',');
        assert(list_removes(pieces, keep_upgrade, n));
        let i = choose|i: int|
            0 <= i < pieces.len() && element_removes(#[trigger] pieces[i], keep_upgrade, n);
        assert(is_listed_at(m, i, n));
    }
}

/// The standard hop-by-hop headers are removed by their names, the upgrade headers apart where
/// they are kept.
pub proof fn law_standard_headers_are_removed(m: Lines, keep_upgrade: bool, n: Seq<char>)
    requires
        is_standard_name(n),
        !keep_upgrade || (n != "connection"@ && n != "upgrade"@),
    ensures
        !m.remove_keys(removals(m, keep_upgrade)).contains_key(n),
{
    lemma_standard_names_are(n);
    reveal_strlit("connection");
    reveal_strlit("keep-alive");
    reveal_strlit("proxy-connection");
    reveal_strlit("transfer-encoding");
    reveal_strlit("te");
    reveal_strlit("trailer");
    reveal_strlit("upgrade");
    assert(lower(n) =~= n);
}

/// The upgrade headers of a request are kept where the configuration says so and the request
/// carries both headers of a WebSocket handshake.
pub proof fn law_when_upgrade_headers_are_kept(m: Lines, config: Rfc9110Config)
    ensures
        keeps_upgrade(m, config) <==> config.preserve_websocket_headers && m.contains_key(
            "sec-websocket-key"@,
        ) && m.contains_key("sec-websocket-version"@),
{
}

/// What of a request is handed on besides `Via`: its headers once `Max-Forwards` was counted down,
/// without those that are removed.
pub proof fn law_preserved_lines(
    method: Seq<char>,
    m: Lines,
    config: Rfc9110Config,
    n: Seq<char>,
)
    ensures
        ({
            let counted = counted_down(method, m);
            let removed = removals(counted, keeps_upgrade(counted, config)).contains(n);
            let kept = preserved_lines(method, m, config);
            &&& removed ==> !kept.contains_key(n)
            &&& !removed ==> lines_of(kept, n) == lines_of(counted, n)
            &&& !removed ==> (kept.contains_key(n) <==> counted.contains_key(n))
            &&& n != "max-forwards"@ ==> lines_of(counted, n) == lines_of(m, n)
            &&& n != "max-forwards"@ ==> (counted.contains_key(n) <==> m.contains_key(n))
        }),
{
}

/// `Max-Forwards` counts for TRACE and OPTIONS alone, and only where its first line writes a number
/// below two to the power of 32: zero is spent, and any other number is sent on less one, as the
/// only line. Otherwise the request stays as it is.
pub proof fn law_max_forwards(method: Seq<char>, m: Lines)
    ensures
        ({
            let text = first_text(m, "max-forwards"@);
            let n = if text is Some {
                number(text->0, 0xffff_ffff)
            } else {
                None
            };
            let counts = (method == "TRACE"@ || method == "OPTIONS"@) && n is Some;
            let after = counted_down(method, m);
            &&& max_forwards_of(method, m) == MaxForwards::Spent <==> counts && n->0 == 0
            &&& counts && n->0 > 0 ==> lines_of(after, "max-forwards"@).len() == 1 && first_text(
                after,
                "max-forwards"@,
            ) == Some(decimal((n->0 - 1) as nat))
            &&& !counts || n->0 == 0 ==> after == m
        }),
{
    let text = first_text(m, "max-forwards"@);
    if text is Some && number(text->0, 0xffff_ffff) is Some && number(text->0, 0xffff_ffff)->0
        > 0 {
        let k = (number(text->0, 0xffff_ffff)->0 - 1) as nat;
        lemma_decimal_is_a_value(k);
    }
}

/// The echo of a TRACE request leaves out these four headers and no other.
pub proof fn law_credentials(m: Lines, n: Seq<char>)
    ensures
        ({
            let echo = m.remove_keys(credential_names().to_set());
            let secret = n == "authorization"@ || n == "proxy-authorization"@ || n == "cookie"@ || n
                == "set-cookie"@;
            &&& secret ==> !echo.contains_key(n)
            &&& !secret ==> (echo.contains_key(n) <==> m.contains_key(n))
            &&& !secret ==> lines_of(echo, n) == lines_of(m, n)
        }),
{
    let all = credential_names();
    assert(all[0] == "authorization"@ && all[1] == "proxy-authorization"@ && all[2] == "cookie"@
        && all[3] == "set-cookie"@);
    if all.contains(n) {
        let i = choose|i: int| 0 <= i < all.len() && all[i] == n;
        assert(0 <= i < 4);
    }
}

/// A request is a loop where it asks for one of the server names, or where some entry of its first
/// `Via` line has the pseudonym as its second word; and in no other case.
pub proof fn law_loops(host: Option<Seq<char>>, m: Lines, config: Rfc9110Config)
    ensures
        is_loop(host, m, config) <==> (exists|k: int|
            0 <= k < server_names_of(config).len() && host == Some(
                #[trigger] server_names_of(config)[k],
            )) || (exists|i: int| #[trigger] is_by_pseudonym(m, i, pseudonym_of(config))),
        config.pseudonym is None ==> pseudonym_of(config) == "proxy"@,
        config.pseudonym matches Some(p) ==> pseudonym_of(config) == p@,
{
    let names = server_names_of(config);
    if first_text(m, "via"@) is Some {
        let pieces = split(first_text(m, "via"@)->0, ',');
        if crate::forward::line_is_from(first_text(m, "via"@)->0, pseudonym_of(config)) {
            let i = choose|i: int|
                0 <= i < pieces.len() && crate::forward::is_from(
                    trim(#[trigger] pieces[i]),
                    pseudonym_of(config),
                );
            assert(is_by_pseudonym(m, i, pseudonym_of(config)));
        }
        if exists|i: int| #[trigger] is_by_pseudonym(m, i, pseudonym_of(config)) {
            let i = choose|i: int| #[trigger] is_by_pseudonym(m, i, pseudonym_of(config));
            assert(crate::forward::is_from(trim(pieces[i]), pseudonym_of(config)));
        }
    }
    if host is Some && names.contains(host->0) {
        let k = choose|k: int| 0 <= k < names.len() && names[k] == host->0;
        assert(host == Some(names[k]));
    }
}

/// Whether the entry at position `i` of the first `Via` line has `pseudonym` as its second word.
pub open spec fn is_by_pseudonym(m: Lines, i: int, pseudonym: Seq<char>) -> bool {
    first_text(m, "via"@) matches Some(t) && 0 <= i < split(t, ',').len() && words(
        trim(split(t, ',')[i]),
    ).len() >= 2 && words(trim(split(t, ',')[i]))[1] == pseudonym
}

/// The entry of this proxy is its version, a space and its pseudonym. Where the first `Via` line
/// has an entry that does not start with the version, or entries are not combined, all the entries
/// stay, trimmed and in order with a comma and a space between them, and the own entry comes behind
/// them. It stands alone where there is no such line, or where entries are combined under a
/// pseudonym and every one starts with the version.
pub proof fn law_via_text(
    line: Seq<char>,
    version: HttpVersion,
    config: Rfc9110Config,
    i: int,
)
    ensures
        ({
            let pieces = split(line, ',');
            let entries = Seq::new(pieces.len(), |k: int| trim(pieces[k]));
            let own = version_text(version) + seq![' '] + pseudonym_of(config);
            let stays = 0 <= i < pieces.len() && !version_text(version).is_prefix_of(
                trim(pieces[i]),
            );
            let text = via_text(Some(line), version, config);
            &&& stays || !config.combine_via || config.pseudonym is None ==> text == join(
                entries,
                seq![',', ' '],
            ) + seq![',', ' '] + own
            &&& config.combine_via && config.pseudonym is Some && (forall|k: int|
                0 <= k < pieces.len() ==> version_text(version).is_prefix_of(
                    trim(#[trigger] pieces[k]),
                )) ==> text == own
            &&& via_text(None, version, config) == own
            &&& own_entry(version, config) == own
        }),
{
    reveal_strlit(" ");
    reveal_strlit(", ");
    assert(" "@ =~= seq![' ']);
    assert(", "@ =~= seq![',', ' ']);
    let pieces = split(line, ',');
    crate::text_laws::law_pieces_make_the_text(line, ',');
    let entries = Seq::new(pieces.len(), |k: int| trim(pieces[k]));
    let all = trim_all(pieces);
    assert(all =~= entries);
    let own = own_entry(version, config);
    law_join(entries, seq![own], own, seq![',', ' ']);
    assert(entries.push(own) =~= entries + seq![own]);
    if 0 <= i < pieces.len() && !version_text(version).is_prefix_of(trim(pieces[i])) {
        assert(!version_text(version).is_prefix_of(all[i]));
    }
    if forall|k: int|
        0 <= k < pieces.len() ==> version_text(version).is_prefix_of(trim(#[trigger] pieces[k])) {
        assert forall|k: int| 0 <= k < all.len() implies version_text(version).is_prefix_of(
            #[trigger] all[k],
        ) by {
            assert(all[k] == trim(pieces[k]));
        }
    }
}

/// `Via` is replaced by the new value, where there is one, and nothing else is touched.
pub proof fn law_via_is_replaced(m: Lines, value: Option<Seq<u8>>, n: Seq<char>)
    ensures
        value is None ==> via_replaced(m, value) == m,
        value matches Some(v) ==> lines_of(via_replaced(m, value), "via"@) == seq![v],
        n != "via"@ ==> lines_of(via_replaced(m, value), n) == lines_of(m, n),
        n != "via"@ ==> (via_replaced(m, value).contains_key(n) <==> m.contains_key(n)),
{
}

/// Each header of a response that is handed back, by its name: the last line that the request had,
/// where the request was sent on with that header and it is not hop-by-hop; else the `Max-Forwards`
/// value or the `Via` value of the request, where there is one; else nothing where the header is
/// removed; else what the response had.
pub proof fn law_answered_lines(
    m: Lines,
    status: u16,
    max_forwards: Option<Seq<u8>>,
    is_websocket: bool,
    preserved: Lines,
    via: Option<Seq<u8>>,
    n: Seq<char>,
)
    ensures
        ({
            let out = answered_lines(m, status, max_forwards, is_websocket, preserved, via);
            let restored = preserved.contains_key(n) && !is_standard_name(n) && n != "via"@;
            let counted = n == "max-forwards"@ && max_forwards is Some;
            let named = n == "via"@ && via is Some;
            let gone = removals(m, is_websocket && status == 101).contains(n);
            &&& restored ==> lines_of(out, n) == seq![preserved[n].last()]
            &&& !restored && counted ==> lines_of(out, n) == seq![max_forwards->0]
            &&& named ==> lines_of(out, n) == seq![via->0]
            &&& !restored && !counted && !named && gone ==> !out.contains_key(n)
            &&& !restored && !counted && !named && !gone ==> lines_of(out, n) == lines_of(m, n)
            &&& !restored && !counted && !named && !gone ==> (out.contains_key(n)
                <==> m.contains_key(n))
        }),
{
    lemma_standard_names_are(n);
    reveal_strlit("via");
    reveal_strlit("max-forwards");
    assert("via"@.len() == 3);
    assert("max-forwards"@.len() == 12);
}

/// What a `Via` entry says: the first word is the protocol, the second the pseudonym up to a colon
/// and the port behind it; the comment goes from the first opening to the last closing parenthesis.
/// A text of fewer than two words is no entry.
pub proof fn law_via_entry(
    protocol: Seq<char>,
    pseudonym: Seq<char>,
    port: Seq<char>,
    comment: Seq<char>,
    tail: Seq<char>,
)
    requires
        is_solid(protocol) && protocol.len() > 0,
        is_solid(pseudonym) && pseudonym.len() > 0 && !pseudonym.contains(':'),
        is_solid(port),
        !protocol.contains('(') && !pseudonym.contains('(') && !port.contains('('),
        !protocol.contains(')') && !pseudonym.contains(')') && !port.contains(')'),
        !tail.contains(')'),
    ensures
        entry_of(protocol) is None,
        entry_of(protocol + seq![' '] + pseudonym) == Some(
            EntryView { protocol, pseudonym, port: None, comment: None },
        ),
        entry_of(protocol + seq![' '] + (pseudonym.push(':') + port)) == Some(
            EntryView { protocol, pseudonym, port: Some(port), comment: None },
        ),
        entry_of(
            protocol + seq![' '] + pseudonym + (seq![' ', '('] + comment + seq![')'] + tail),
        ) == Some(
            EntryView {
                protocol,
                pseudonym,
                port: None,
                comment: Some(seq!['('] + comment + seq![')']),
            },
        ),
{
    let none = Seq::<char>::empty();
    crate::text_laws::law_words(none, protocol, none);
    assert(none + protocol + none =~= protocol);
    assert(words(none) =~= Seq::<Seq<char>>::empty());
    assert(words(protocol) =~= seq![protocol]);
    let plain = protocol + seq![' '] + pseudonym;
    lemma_words_in_front(protocol, pseudonym, none);
    assert(plain + none =~= plain);
    law_first_occurrence(pseudonym, ':', port);
    lemma_no_comment(plain);
    let name = pseudonym.push(':') + port;
    assert(is_solid(name));
    let ported = protocol + seq![' '] + name;
    lemma_words_in_front(protocol, name, none);
    assert(ported + none =~= ported);
    assert(!name.contains('(')) by {
        if name.contains('(') {
            let k = choose|k: int| 0 <= k < name.len() && name[k] == '(';
            if k < pseudonym.len() {
                assert(pseudonym[k] == '(');
            } else if k > pseudonym.len() {
                assert(port[k - pseudonym.len() - 1] == '(');
            }
        }
    }
    assert(!plain.contains('(')) by {
        lemma_two_hold_no(protocol, pseudonym, '(');
    }
    assert(!ported.contains('(')) by {
        lemma_two_hold_no(protocol, name, '(');
    }
    lemma_no_comment(ported);
    let rest = seq![' ', '('] + comment + seq![')'] + tail;
    let s = plain + rest;
    lemma_words_in_front(protocol, pseudonym, rest);
    let start = plain.len() + 1;
    assert forall|j: int| 0 <= j < start implies s[j] != '(' by {
        if j < plain.len() {
            assert(s[j] == plain[j]);
            assert(plain.contains(plain[j]));
        }
    }
    lemma_find_is(s, '(', start as int);
    let end = start + 1 + comment.len() + 1;
    assert(s[end - 1] == ')');
    assert forall|j: int| end <= j < s.len() implies s[j] != ')' by {
        assert(s[j] == tail[j - end]);
        assert(tail.contains(tail[j - end]));
    }
    lemma_behind_last_is(s, ')', end as int);
    assert(s.subrange(start as int, end as int) =~= seq!['('] + comment + seq![')']);
}

proof fn lemma_two_hold_no(a: Seq<char>, b: Seq<char>, c: char)
    requires
        !a.contains(c),
        !b.contains(c),
        c != ' ',
    ensures
        !(a + seq![' '] + b).contains(c),
{
    let s = a + seq![' '] + b;
    if s.contains(c) {
        let k = choose|k: int| 0 <= k < s.len() && s[k] == c;
        if k < a.len() {
            assert(a[k] == c);
        } else if k > a.len() {
            assert(b[k - a.len() - 1] == c);
        }
    }
}

proof fn lemma_no_comment(s: Seq<char>)
    ensures
        !s.contains('(') ==> comment_of(s) is None,
{
    if !s.contains('(') {
        law_first_occurrence(s, '(', Seq::empty());
    }
}

/// The entries of a list are those of its pieces, in order; a piece that writes none is left out.
pub proof fn law_entries(a: Seq<Seq<char>>, b: Seq<Seq<char>>, piece: Seq<char>)
    ensures
        entries_of(a + b) == entries_of(a) + entries_of(b),
        entry_of(trim(piece)) matches Some(e) ==> entries_of(seq![piece]) == seq![e],
        entry_of(trim(piece)) is None ==> entries_of(seq![piece]) == Seq::<EntryView>::empty(),
    decreases b.len(),
{
    let one = seq![piece];
    assert(one.drop_last() =~= Seq::<Seq<char>>::empty());
    assert(entries_of(one.drop_last()) =~= Seq::<EntryView>::empty());
    assert(entry_of(trim(piece)) matches Some(e) ==> entries_of(one) =~= seq![e]);
    if b.len() == 0 {
        assert(a + b =~= a);
        assert(entries_of(a + b) =~= entries_of(a) + entries_of(b));
    } else {
        law_entries(a, b.drop_last(), piece);
        assert((a + b).drop_last() =~= a + b.drop_last());
        assert(entries_of(a + b) =~= entries_of(a) + entries_of(b));
    }
}

/// The `Via` value of a request that is handed on is made from the first `Via` line that it still
/// has once its headers were removed.
pub proof fn law_via_value(
    method: Seq<char>,
    version: HttpVersion,
    m: Lines,
    config: Rfc9110Config,
    line: Seq<char>,
)
    ensures
        ({
            let had = first_text(preserved_lines(method, m, config), "via"@);
            let value = via_value(method, version, m, config);
            &&& had == Some(line) ==> value == text_value(via_text(Some(line), version, config))
            &&& had is None ==> value == text_value(
                version_text(version) + seq![' '] + pseudonym_of(config),
            )
        }),
{
    reveal_strlit(" ");
    assert(" "@ =~= seq![' ']);
}

/// The fields of any `Via` entry: a text of two words or more is one, and no other is; its first
/// word is the protocol, and its second is cut at the first colon.
pub proof fn law_via_entry_fields(s: Seq<char>, pseudonym: Seq<char>, port: Seq<char>)
    requires
        !pseudonym.contains(':'),
    ensures
        entry_of(s) is Some <==> words(s).len() >= 2,
        entry_of(s) matches Some(e) ==> {
            &&& e.protocol == words(s)[0]
            &&& e.comment == comment_of(s)
            &&& words(s)[1] == pseudonym ==> e.pseudonym == pseudonym && e.port is None
            &&& words(s)[1] == pseudonym.push(':') + port ==> e.pseudonym == pseudonym && e.port
                == Some(port)
        },
{
    law_first_occurrence(pseudonym, ':', port);
}

/// A comment goes from the first opening parenthesis to the last closing one, both of them with it;
/// where one of the two is missing there is no comment.
pub proof fn law_comment(a: Seq<char>, inside: Seq<char>, b: Seq<char>)
    requires
        !a.contains('('),
        !b.contains(')'),
    ensures
        comment_of(a.push('(') + inside + seq![')'] + b) == Some(seq!['('] + inside + seq![')']),
        comment_of(a) is None,
        comment_of(b) is None,
{
    let s = a.push('(') + inside + seq![')'] + b;
    let start = a.len() as int;
    let end = start + inside.len() + 2;
    assert forall|j: int| 0 <= j < start implies s[j] != '(' by {
        assert(a.contains(a[j]));
    }
    lemma_find_is(s, '(', start);
    assert(s[end - 1] == ')');
    assert forall|j: int| end <= j < s.len() implies s[j] != ')' by {
        assert(s[j] == b[j - end]);
        assert(b.contains(b[j - end]));
    }
    lemma_behind_last_is(s, ')', end);
    assert(s.subrange(start, end) =~= seq!['('] + inside + seq![')']);
    law_first_occurrence(a, '(', a);
    crate::text_laws::law_last_occurrence(b, ')', b);
}

/// How a `Via` entry is written: the protocol, one space, the pseudonym, a colon and the port where
/// there is one, and one space and the comment where there is one.
pub proof fn law_entry_text(
    protocol: Seq<char>,
    pseudonym: Seq<char>,
    number: Seq<char>,
    note: Seq<char>,
    port: Option<Seq<char>>,
)
    ensures
        entry_text(EntryView { protocol, pseudonym, port: None, comment: None }) == protocol + seq![
            ' ',
        ] + pseudonym,
        entry_text(EntryView { protocol, pseudonym, port: Some(number), comment: None })
            == protocol + seq![' '] + pseudonym + seq![':'] + number,
        entry_text(EntryView { protocol, pseudonym, port, comment: Some(note) }) == entry_text(
            EntryView { protocol, pseudonym, port, comment: None },
        ) + seq![' '] + note,
{
    reveal_strlit(" ");
    reveal_strlit(":");
    assert(" "@ =~= seq![' ']);
    assert(":"@ =~= seq![':']);
}

} // verus!
