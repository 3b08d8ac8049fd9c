//! What holds of every message that passes the RFC 9110 layer.
use crate::forward::{is_from, line_is_from, standard_hop_by_hop};
use crate::forward_laws::{
    is_printable, is_pseudonym, lemma_join_is_printable, lemma_split_last, lemma_two_words,
    lemma_version_is_a_word,
};
use crate::headers::{
    first_of, first_text, lemma_text_value_reads_back, lines_of, text_value, Lines,
};
use crate::message::{version_text, HttpVersion};
use crate::rfc9110::{
    answered_lines, comment_in_order, comment_of, counted_down, credential_names, end_to_end_names,
    entry_of, entry_text, is_hop_name, is_loop, is_upgrade_header, lemma_decimal_is_a_value,
    max_forwards_of, own_entry, pseudonym_of, removals, trim_all, via_replaced, via_text,
    MaxForwards, Rfc9110Config,
};
use crate::text::{
    after, before, behind_last, decimal, find, is_space, join, lemma_behind_last_is,
    lemma_decimal_is_a_number, lemma_find, lemma_find_is, lemma_trim_start, lemma_trim_start_skip,
    lemma_word_len, lower, number, split, trim, trim_end, trim_start, word_len, words,
};
use crate::websocket::SWITCHING_PROTOCOLS;
use vstd::prelude::*;

verus! {

/// A TRACE or OPTIONS request that is handed on may go one hop less than it could: so it is
/// answered after as many hops as it asked for.
pub proof fn law_max_forwards_counts_down(method: Seq<char>, m: Lines, n: nat)
    requires
        method == "TRACE"@ || method == "OPTIONS"@,
        first_text(m, "max-forwards"@) is Some,
        number(first_text(m, "max-forwards"@)->0, u32::MAX as nat) == Some(n),
    ensures
        n == 0 ==> max_forwards_of(method, m) == MaxForwards::Spent && counted_down(method, m) == m,
        n > 0 ==> first_text(counted_down(method, m), "max-forwards"@) is Some && number(
            first_text(counted_down(method, m), "max-forwards"@)->0,
            u32::MAX as nat,
        ) == Some((n - 1) as nat),
{
    if n > 0 {
        let k = (n - 1) as nat;
        lemma_decimal_is_a_value(k);
        lemma_decimal_is_a_number(k, u32::MAX as nat);
        assert(max_forwards_of(method, m) == MaxForwards::Left(k as u32));
        assert(first_of(counted_down(method, m), "max-forwards"@) == Some(
            text_value(decimal(k))->0,
        ));
    }
}

/// Requests with other methods are handed on with `Max-Forwards` as it came.
pub proof fn law_max_forwards_is_ignored_for_other_methods(method: Seq<char>, m: Lines)
    requires
        method != "TRACE"@,
        method != "OPTIONS"@,
    ensures
        max_forwards_of(method, m) == MaxForwards::Pass,
        counted_down(method, m) == m,
{
}

/// The echo of a TRACE request holds no credentials, and every other header.
pub proof fn law_trace_echo_hides_credentials(m: Lines, name: Seq<char>)
    ensures
        credential_names().contains(name) ==> !m.remove_keys(
            credential_names().to_set(),
        ).contains_key(name),
        !credential_names().contains(name) ==> lines_of(
            m.remove_keys(credential_names().to_set()),
            name,
        ) == lines_of(m, name),
{
}

/// No known end-to-end header is a hop-by-hop header.
proof fn lemma_end_to_end_is_not_hop(n: Seq<char>)
    requires
        end_to_end_names().contains(n),
    ensures
        !is_hop_name(n),
{
    reveal_strlit("cache-control");
    reveal_strlit("authorization");
    reveal_strlit("content-length");
    reveal_strlit("content-type");
    reveal_strlit("content-encoding");
    reveal_strlit("accept");
    reveal_strlit("accept-encoding");
    reveal_strlit("accept-language");
    reveal_strlit("range");
    reveal_strlit("cookie");
    reveal_strlit("set-cookie");
    reveal_strlit("etag");
    lemma_hop_shapes(n);
    let i = choose|i: int| 0 <= i < end_to_end_names().len() && end_to_end_names()[i] == n;
    assert(end_to_end_names()[i] == n);
    assert(0 <= i < 12);
}

/// Length and first letter of the hop-by-hop names.
proof fn lemma_hop_shapes(n: Seq<char>)
    ensures
        is_hop_name(n) ==> {
            ||| n.len() == 10 && (n[0] == 'c' || n[0] == 'k')
            ||| n.len() == 16 && n[0] == 'p'
            ||| n.len() == 17
            ||| n.len() == 2
            ||| n.len() == 7
            ||| n.len() == 3
        },
{
    reveal_strlit("connection");
    reveal_strlit("keep-alive");
    reveal_strlit("proxy-connection");
    reveal_strlit("transfer-encoding");
    reveal_strlit("te");
    reveal_strlit("trailer");
    reveal_strlit("upgrade");
    reveal_strlit("via");
    if standard_hop_by_hop().contains(n) {
        let std = standard_hop_by_hop();
        let i = choose|i: int| 0 <= i < std.len() && std[i] == n;
        assert(std[i] == n);
        assert(0 <= i < 7);
    }
}

/// A known end-to-end header is not removed, even where `Connection` names it.
pub proof fn law_end_to_end_headers_are_kept(m: Lines, keep_upgrade: bool, name: Seq<char>)
    requires
        end_to_end_names().contains(name),
    ensures
        !removals(m, keep_upgrade).contains(name),
{
    lemma_end_to_end_is_not_hop(name);
}

/// The standard hop-by-hop headers are removed, the upgrade headers apart where they are kept.
pub proof fn law_hop_by_hop_headers_are_removed(m: Lines, keep_upgrade: bool, name: Seq<char>)
    requires
        standard_hop_by_hop().contains(name),
        !(keep_upgrade && is_upgrade_header(name)),
    ensures
        !m.remove_keys(removals(m, keep_upgrade)).contains_key(name),
{
}

/// Where the upgrade headers are kept, neither is removed, whatever `Connection` names.
pub proof fn law_upgrade_headers_survive(m: Lines)
    ensures
        !removals(m, true).contains("connection"@),
        !removals(m, true).contains("upgrade"@),
{
    reveal_strlit("connection");
    reveal_strlit("upgrade");
    assert(lower("connection"@) =~= "connection"@);
    assert(lower("upgrade"@) =~= "upgrade"@);
}

/// The response that is handed back carries the last line of each end-to-end header that was
/// sent on, and of the hop-by-hop headers none, the upgrade headers of a completed upgrade and
/// `Via` apart.
pub proof fn law_response_headers(
    m: Lines,
    status: u16,
    max_forwards: Option<Seq<u8>>,
    is_websocket: bool,
    preserved: Lines,
    via: Option<Seq<u8>>,
    name: Seq<char>,
)
    ensures
        preserved.contains_key(name) && !is_hop_name(name) ==> lines_of(
            answered_lines(m, status, max_forwards, is_websocket, preserved, via),
            name,
        ) == seq![preserved[name].last()],
        standard_hop_by_hop().contains(name) && name != "max-forwards"@ && name != "via"@ && !(
        is_websocket && status == SWITCHING_PROTOCOLS && is_upgrade_header(name)) ==> !answered_lines(
            m,
            status,
            max_forwards,
            is_websocket,
            preserved,
            via,
        ).contains_key(name),
{
}

proof fn lemma_trim_is_printable(s: Seq<char>)
    requires
        is_printable(s),
    ensures
        is_printable(trim(s)),
{
    lemma_trim_start_is_printable(s);
    lemma_trim_end_is_printable(trim_start(s));
}

proof fn lemma_trim_start_is_printable(s: Seq<char>)
    requires
        is_printable(s),
    ensures
        is_printable(trim_start(s)),
    decreases s.len(),
{
    if s.len() > 0 && crate::text::is_space(s[0]) {
        let t = s.skip(1);
        assert forall|i: int| 0 <= i < t.len() implies ' ' <= #[trigger] t[i] < '\u{7f}' || t[i]
            == '\t' by {
            assert(t[i] == s[i + 1]);
        }
        lemma_trim_start_is_printable(t);
    }
}

proof fn lemma_trim_end_is_printable(s: Seq<char>)
    requires
        is_printable(s),
    ensures
        is_printable(trim_end(s)),
    decreases s.len(),
{
    if s.len() > 0 && crate::text::is_space(s.last()) {
        let t = s.drop_last();
        assert forall|i: int| 0 <= i < t.len() implies ' ' <= #[trigger] t[i] < '\u{7f}' || t[i]
            == '\t' by {
            assert(t[i] == s[i]);
        }
        lemma_trim_end_is_printable(t);
    }
}

proof fn lemma_split_is_printable(s: Seq<char>, c: char)
    requires
        is_printable(s),
    ensures
        forall|k: int| 0 <= k < split(s, c).len() ==> is_printable(#[trigger] split(s, c)[k]),
    decreases s.len(),
{
    lemma_find(s, c);
    let i = find(s, c);
    if i < s.len() {
        let rest = s.skip(i + 1);
        assert forall|j: int| 0 <= j < rest.len() implies ' ' <= #[trigger] rest[j] < '\u{7f}'
            || rest[j] == '\t' by {
            assert(rest[j] == s[i + 1 + j]);
        }
        lemma_split_is_printable(rest, c);
        let head = s.take(i);
        assert forall|j: int| 0 <= j < head.len() implies ' ' <= #[trigger] head[j] < '\u{7f}'
            || head[j] == '\t' by {
            assert(head[j] == s[j]);
        }
        let all = split(s, c);
        assert forall|k: int| 0 <= k < all.len() implies is_printable(#[trigger] all[k]) by {
            if k > 0 {
                assert(all[k] == split(rest, c)[k - 1]);
            }
        }
    }
}

/// A request that the layer has handed on is recognised as a loop when it comes back.
pub proof fn law_forwarded_request_is_a_loop(
    host: Option<Seq<char>>,
    kept: Lines,
    version: HttpVersion,
    config: Rfc9110Config,
)
    requires
        is_pseudonym(pseudonym_of(config)),
    ensures
        is_loop(
            host,
            via_replaced(kept, text_value(via_text(first_text(kept, "via"@), version, config))),
            config,
        ),
{
    let p = pseudonym_of(config);
    let version_word = version_text(version);
    let e = own_entry(version, config);
    let existing = first_text(kept, "via"@);
    let c = via_text(existing, version, config);
    reveal_strlit(" ");
    reveal_strlit(", ");
    assert(" "@ =~= seq![' ']);
    assert(", "@ =~= seq![',', ' ']);
    assert(e =~= version_word.push(' ') + p);
    lemma_version_is_a_word(version);
    lemma_two_words(version_word, p);
    assert forall|i: int| 0 <= i < e.len() implies ' ' <= #[trigger] e[i] < '\u{7f}' && e[i]
        != ',' by {
        if i < 3 {
            assert(e[i] == version_word[i]);
        } else if i > 3 {
            assert(e[i] == p[i - 4]);
        }
    }
    if c == e {
        lemma_split_last(Seq::empty(), ',', e);
        assert(split(c, ',')[0] == e);
        assert(is_from(trim(split(c, ',')[0]), p));
        assert(is_printable(c));
    } else {
        let line = existing->0;
        let v = first_of(kept, "via"@)->0;
        assert forall|i: int| 0 <= i < line.len() implies ' ' <= #[trigger] line[i] < '\u{7f}'
            || line[i] == '\t' by {
            assert(crate::headers::is_text_byte(v[i]));
        }
        let pieces = split(line, ',');
        lemma_split_is_printable(line, ',');
        let entries = trim_all(pieces);
        let all = entries.push(e);
        assert forall|k: int| 0 <= k < all.len() implies is_printable(#[trigger] all[k]) by {
            if k < entries.len() {
                assert(all[k] == trim(pieces[k]));
                lemma_trim_is_printable(pieces[k]);
            }
        }
        lemma_join_is_printable(all, ", "@);
        assert(all.drop_last() =~= entries);
        let a = join(entries, ", "@);
        let tail = seq![' '] + e;
        assert(entries.len() > 0) by {
            lemma_find(line, ',');
            assert(pieces.len() > 0);
        }
        assert(c =~= a.push(',') + tail);
        assert forall|i: int| 0 <= i < tail.len() implies #[trigger] tail[i] != ',' by {
            if i > 0 {
                assert(tail[i] == e[i - 1]);
            }
        }
        lemma_split_last(a, ',', tail);
        let k = split(c, ',').len() - 1;
        assert(split(c, ',')[k] == tail);
        assert(is_from(trim(split(c, ',')[k]), p));
    }
    lemma_text_value_reads_back(c);
    let v = text_value(c)->0;
    assert(first_of(via_replaced(kept, Some(v)), "via"@) == Some(v));
    assert(line_is_from(c, p));
}

/// The first two words are not empty, hold no white space, and hold only what the text holds.
proof fn lemma_first_two_words(s: Seq<char>)
    requires
        words(s).len() >= 2,
    ensures
        forall|k: int| 0 <= k < 2 ==> (#[trigger] words(s)[k]).len() > 0,
        forall|k: int, i: int|
            0 <= k < 2 && 0 <= i < words(s)[k].len() ==> !is_space(#[trigger] words(s)[k][i])
                && s.contains(words(s)[k][i]),
{
    let t = trim_start(s);
    lemma_trim_start(s);
    lemma_word_len(t);
    let u = t.skip(word_len(t));
    let v = trim_start(u);
    lemma_trim_start(u);
    lemma_word_len(v);
    assert(words(s) == seq![t.take(word_len(t))] + words(u));
    assert(words(u).len() >= 1);
    assert(words(s)[0] == t.take(word_len(t)));
    assert(words(s)[1] == v.take(word_len(v)));
    assert forall|k: int, i: int| 0 <= k < 2 && 0 <= i < words(s)[k].len() implies !is_space(
        #[trigger] words(s)[k][i],
    ) && s.contains(words(s)[k][i]) by {
        if k == 0 {
            assert(words(s)[k][i] == t[i]);
            assert(t[i] == s[s.len() - t.len() + i]);
        } else {
            assert(words(s)[k][i] == v[i]);
            assert(v[i] == u[u.len() - v.len() + i]);
            assert(v[i] == t[word_len(t) + u.len() - v.len() + i]);
            assert(v[i] == s[s.len() - t.len() + word_len(t) + u.len() - v.len() + i]);
        }
    }
}

/// A text of two words and what comes behind them, after a space, has these first words.
pub proof fn lemma_words_in_front(a: Seq<char>, b: Seq<char>, rest: Seq<char>)
    requires
        a.len() > 0,
        b.len() > 0,
        forall|i: int| 0 <= i < a.len() ==> !is_space(#[trigger] a[i]),
        forall|i: int| 0 <= i < b.len() ==> !is_space(#[trigger] b[i]),
        rest.len() > 0 ==> is_space(rest[0]),
    ensures
        words(a + seq![' '] + b + rest).len() >= 2,
        words(a + seq![' '] + b + rest)[0] == a,
        words(a + seq![' '] + b + rest)[1] == b,
{
    let s = a + seq![' '] + b + rest;
    assert(s[0] == a[0]);
    lemma_trim_start_skip(s, 0);
    assert(s.skip(0) =~= s);
    lemma_word_len(s);
    assert(s[a.len() as int] == ' ');
    if word_len(s) < a.len() {
        assert(s[word_len(s)] == a[word_len(s)]);
    }
    assert(s.take(a.len() as int) =~= a);
    let u = s.skip(a.len() as int);
    assert(u =~= seq![' '] + b + rest);
    assert(u[1] == b[0]);
    lemma_trim_start_skip(u, 1);
    let v = u.skip(1);
    assert(v =~= b + rest);
    lemma_word_len(v);
    if word_len(v) < b.len() {
        assert(v[word_len(v)] == b[word_len(v)]);
    } else if word_len(v) > b.len() {
        assert(v[b.len() as int] == rest[0]);
    }
    assert(v.take(b.len() as int) =~= b);
    assert(words(s) == seq![a] + words(u));
    assert(words(u) == seq![b] + words(v.skip(b.len() as int)));
}

/// `behind_last` is a position with a `c` or nothing in front and no `c` behind it.
pub proof fn lemma_behind_last(s: Seq<char>, c: char)
    ensures
        0 <= behind_last(s, c) <= s.len(),
        forall|j: int| behind_last(s, c) <= j < s.len() ==> s[j] != c,
        behind_last(s, c) > 0 ==> s[behind_last(s, c) - 1] == c,
    decreases s.len(),
{
    if s.len() > 0 && s.last() != c {
        let less = s.drop_last();
        lemma_behind_last(less, c);
        assert forall|j: int| behind_last(s, c) <= j < s.len() implies s[j] != c by {
            if j < less.len() {
                assert(less[j] == s[j]);
            }
        }
    }
}

/// A `Via` entry that was read from a text and is written out reads as the same entry. Where it
/// has a comment, that is for comments that are not empty and do not begin inside the first two
/// words.
pub proof fn law_via_entries_read_back(s: Seq<char>)
    requires
        entry_of(s) is Some,
        comment_in_order(s),
        comment_of(s) matches Some(c) ==> c.len() > 0 && !words(s)[0].contains('(') && !words(
            s,
        )[1].contains('('),
    ensures
        comment_in_order(entry_text(entry_of(s)->0)),
        entry_of(entry_text(entry_of(s)->0)) == entry_of(s),
{
    let v = entry_of(s)->0;
    let a = words(s)[0];
    let b = words(s)[1];
    lemma_first_two_words(s);
    reveal_strlit(" ");
    reveal_strlit(":");
    assert(" "@ =~= seq![' ']);
    assert(":"@ =~= seq![':']);
    lemma_find(b, ':');
    let front = a + seq![' '] + b;
    let with_port = match v.port {
        Some(p) => a + " "@ + v.pseudonym + ":"@ + p,
        None => a + " "@ + v.pseudonym,
    };
    assert(with_port =~= front) by {
        if v.port is Some {
            assert(b =~= before(b, ':') + seq![':'] + after(b, ':')->0);
        } else {
            assert(b =~= before(b, ':'));
        }
    }
    let rest = match v.comment {
        Some(c) => seq![' '] + c,
        None => Seq::<char>::empty(),
    };
    let t = entry_text(v);
    assert(t =~= front + rest);
    lemma_words_in_front(a, b, rest);
    match v.comment {
        Some(c) => {
            lemma_comment_shape(s);
            lemma_comment_behind(a, b, c);
        },
        None => lemma_no_comment_in_words(s),
    }
}

/// A comment that is not empty starts and ends with its parentheses.
proof fn lemma_comment_shape(s: Seq<char>)
    requires
        comment_in_order(s),
        comment_of(s) is Some,
        comment_of(s)->0.len() > 0,
    ensures
        comment_of(s)->0[0] == '(',
        comment_of(s)->0.last() == ')',
{
    lemma_find(s, '(');
    lemma_behind_last(s, ')');
}

/// A comment behind two words that open no parenthesis is the comment of all.
proof fn lemma_comment_behind(a: Seq<char>, b: Seq<char>, c: Seq<char>)
    requires
        !a.contains('('),
        !b.contains('('),
        c.len() > 0,
        c[0] == '(',
        c.last() == ')',
    ensures
        comment_in_order(a + seq![' '] + b + (seq![' '] + c)),
        comment_of(a + seq![' '] + b + (seq![' '] + c)) == Some(c),
{
    let t = a + seq![' '] + b + (seq![' '] + c);
    let start = a.len() as int + b.len() + 2;
    assert forall|j: int| 0 <= j < start implies t[j] != '(' by {
        if j < a.len() {
            assert(a.contains(a[j]));
        } else if a.len() < j < start - 1 {
            assert(b.contains(b[j - a.len() - 1]));
        }
    }
    assert(t[start] == c[0]);
    lemma_find_is(t, '(', start);
    assert(t[t.len() - 1] == c.last());
    lemma_behind_last_is(t, ')', t.len() as int);
    assert(t.subrange(start, t.len() as int) =~= c);
}

/// Where a text has no comment, its first two words have none.
proof fn lemma_no_comment_in_words(s: Seq<char>)
    requires
        words(s).len() >= 2,
        comment_of(s) is None,
    ensures
        comment_of(words(s)[0] + seq![' '] + words(s)[1] + Seq::empty()) is None,
{
    let a = words(s)[0];
    let b = words(s)[1];
    let t = a + seq![' '] + b + Seq::empty();
    lemma_first_two_words(s);
    lemma_find(s, '(');
    lemma_behind_last(s, ')');
    lemma_find(t, '(');
    lemma_behind_last(t, ')');
    assert forall|j: int| 0 <= j < t.len() implies t[j] == ' ' || s.contains(t[j]) by {
        if j < a.len() {
            assert(t[j] == words(s)[0][j]);
        } else if j > a.len() {
            assert(t[j] == words(s)[1][j - a.len() - 1]);
        }
    }
    if comment_of(t) is Some {
        assert(s.contains(t[find(t, '(')]));
        assert(s.contains(t[behind_last(t, ')') - 1]));
        let i = choose|i: int| 0 <= i < s.len() && s[i] == '(';
        let k = choose|k: int| 0 <= k < s.len() && s[k] == ')';
        assert(s[i] == '(' && s[k] == ')');
    }
}

} // verus!
