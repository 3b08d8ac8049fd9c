//! What holds of every proxy route.
use crate::path_laws::{
    lemma_parts, lemma_query_of_with_query, lemma_split_behind, lemma_trim_end_matches,
};
use crate::proxy::{is_under, with_query};
use crate::router_ext::{
    appended_path, can_build, encoded, encoded_byte, encoded_bytes, is_encoded, literal_prefix,
    percent_byte, placeholder, replaced, resolved, target_path, target_path_and_query, target_uri,
    without_prefix,
};
use crate::text::{after, before, lemma_find, trim_end_matches};
use crate::text_laws::{law_first_occurrence, law_trim_matches, run_of};
use crate::uri::{
    all_path_chars, all_query_chars, is_parsed, is_path_and_query, is_path_char, path_of, query_of,
    request_path, scheme_or_http, UriView,
};
use vstd::prelude::*;
use vstd::utf8::{encode_utf8, is_ascii_chars, is_ascii_chars_encode_utf8};

verus! {

/// A character that a template parameter never brings into the resolved URL: a control
/// character, or one of space, `@`, `#`, `?`, `\`, `[` and `]`.
pub open spec fn is_structural(c: char) -> bool {
    c < '\u{20}' || c == '\u{7f}' || c == ' ' || c == '@' || c == '#' || c == '?' || c == '\\' || c
        == '[' || c == ']'
}

proof fn lemma_encoded_bytes_hold_no(b: Seq<u8>, c: char)
    requires
        is_structural(c),
    ensures
        !encoded_bytes(b).contains(c),
    decreases b.len(),
{
    if b.len() > 0 {
        lemma_encoded_bytes_hold_no(b.drop_last(), c);
        let head = encoded_bytes(b.drop_last());
        let tail = encoded_byte(b.last());
        let all = head + tail;
        assert forall|i: int| 0 <= i < all.len() implies all[i] != c by {
            if i < head.len() {
                assert(head.contains(head[i]));
            } else {
                assert(all[i] == tail[i - head.len()]);
            }
        }
    }
}

proof fn lemma_replaced_holds_no(s: Seq<char>, pattern: Seq<char>, with: Seq<char>, c: char)
    requires
        !s.contains(c),
        !with.contains(c),
    ensures
        !replaced(s, pattern, with).contains(c),
    decreases s.len(),
{
    if s.len() > 0 {
        if pattern.len() > 0 && pattern.is_prefix_of(s) {
            let rest = s.skip(pattern.len() as int);
            assert forall|i: int| 0 <= i < rest.len() implies rest[i] != c by {
                assert(s.contains(s[pattern.len() + i]));
            }
            lemma_replaced_holds_no(rest, pattern, with, c);
            let tail = replaced(rest, pattern, with);
            let all = with + tail;
            assert forall|i: int| 0 <= i < all.len() implies all[i] != c by {
                if i < with.len() {
                    assert(with.contains(with[i]));
                } else {
                    assert(tail.contains(tail[i - with.len()]));
                }
            }
        } else {
            let rest = s.skip(1);
            assert forall|i: int| 0 <= i < rest.len() implies rest[i] != c by {
                assert(s.contains(s[1 + i]));
            }
            lemma_replaced_holds_no(rest, pattern, with, c);
            let tail = replaced(rest, pattern, with);
            let all = seq![s[0]] + tail;
            assert(s.contains(s[0]));
            assert forall|i: int| 0 <= i < all.len() implies all[i] != c by {
                if i > 0 {
                    assert(tail.contains(tail[i - 1]));
                }
            }
        }
    }
}

/// No path parameter can bring userinfo, a query, a fragment or an address literal into a URL
/// whose template has none: the characters that mark them appear in the resolved URL only where
/// the template has them.
pub proof fn law_parameters_add_no_structure(
    template: Seq<char>,
    params: Seq<(Seq<char>, Seq<char>)>,
    c: char,
)
    requires
        is_structural(c),
        !template.contains(c),
    ensures
        !resolved(template, params).contains(c),
    decreases params.len(),
{
    if params.len() > 0 {
        law_parameters_add_no_structure(template, params.drop_last(), c);
        lemma_encoded_bytes_hold_no(encode_utf8(params.last().1), c);
        lemma_replaced_holds_no(
            resolved(template, params.drop_last()),
            placeholder(params.last().0),
            encoded(params.last().1),
            c,
        );
    }
}

/// The structural characters of a text, in order.
pub open spec fn structure(s: Seq<char>) -> Seq<char> {
    s.filter(|c: char| is_structural(c))
}

proof fn lemma_structure_of_sum(a: Seq<char>, b: Seq<char>)
    ensures
        structure(a + b) == structure(a) + structure(b),
{
    Seq::filter_distributes_over_add(a, b, |c: char| is_structural(c));
}

proof fn lemma_no_structure(s: Seq<char>)
    requires
        forall|i: int| 0 <= i < s.len() ==> !is_structural(#[trigger] s[i]),
    ensures
        structure(s) == Seq::<char>::empty(),
    decreases s.len(),
{
    reveal(Seq::filter);
    if s.len() > 0 {
        assert(!is_structural(s[s.len() - 1]));
        lemma_no_structure(s.drop_last());
    }
}

proof fn lemma_replaced_keeps_structure(s: Seq<char>, pattern: Seq<char>, with: Seq<char>)
    requires
        structure(pattern) == Seq::<char>::empty(),
        structure(with) == Seq::<char>::empty(),
    ensures
        structure(replaced(s, pattern, with)) == structure(s),
    decreases s.len(),
{
    if s.len() > 0 {
        if pattern.len() > 0 && pattern.is_prefix_of(s) {
            let rest = s.skip(pattern.len() as int);
            lemma_replaced_keeps_structure(rest, pattern, with);
            lemma_structure_of_sum(with, replaced(rest, pattern, with));
            lemma_structure_of_sum(pattern, rest);
            assert(s =~= pattern + rest);
            assert(structure(with) + structure(rest) =~= structure(pattern) + structure(rest));
        } else {
            let rest = s.skip(1);
            lemma_replaced_keeps_structure(rest, pattern, with);
            lemma_structure_of_sum(seq![s[0]], replaced(rest, pattern, with));
            lemma_structure_of_sum(seq![s[0]], rest);
            assert(s =~= seq![s[0]] + rest);
        }
    }
}

/// The characters that mark userinfo, a query, a fragment or an address literal are those of the
/// template, no more and no fewer and in the same order, whatever the values of the parameters
/// hold; for parameters in whose names there are none.
pub proof fn law_parameters_keep_the_structure(
    template: Seq<char>,
    params: Seq<(Seq<char>, Seq<char>)>,
)
    requires
        forall|i: int| 0 <= i < params.len() ==> structure((#[trigger] params[i]).0).len() == 0,
    ensures
        structure(resolved(template, params)) == structure(template),
    decreases params.len(),
{
    if params.len() > 0 {
        let front = params.drop_last();
        let (name, value) = params.last();
        assert forall|i: int| 0 <= i < front.len() implies structure(
            (#[trigger] front[i]).0,
        ).len() == 0 by {
            assert(front[i] == params[i]);
        }
        law_parameters_keep_the_structure(template, front);
        assert(structure(params[params.len() - 1].0).len() == 0);
        lemma_structure_of_sum(seq!['{'] + name, seq!['}']);
        lemma_structure_of_sum(seq!['{'], name);
        lemma_no_structure(seq!['{']);
        lemma_no_structure(seq!['}']);
        assert(structure(placeholder(name)) =~= Seq::empty());
        let with = encoded(value);
        assert forall|i: int| 0 <= i < with.len() implies !is_structural(#[trigger] with[i]) by {
            if is_structural(with[i]) {
                lemma_encoded_bytes_hold_no(encode_utf8(value), with[i]);
                assert(with.contains(with[i]));
            }
        }
        lemma_no_structure(with);
        lemma_replaced_keeps_structure(resolved(template, front), placeholder(name), with);
    }
}

/// A parameter of ASCII characters none of which needs encoding, slashes among them, is put in
/// as it is.
pub proof fn law_safe_values_are_unchanged(value: Seq<char>)
    requires
        forall|i: int| 0 <= i < value.len() ==> #[trigger] value[i] < '\u{7f}' && !is_structural(
            value[i],
        ),
    ensures
        encoded(value) == value,
{
    assert(is_ascii_chars(value));
    is_ascii_chars_encode_utf8(value);
    let b = encode_utf8(value);
    assert forall|i: int| 0 <= i < b.len() implies !is_encoded(#[trigger] b[i]) && b[i] as char
        == value[i] by {
        assert(b[i] == value[i] as u8);
    }
    lemma_encoded_bytes_unchanged(b, value);
}

proof fn lemma_encoded_bytes_unchanged(b: Seq<u8>, value: Seq<char>)
    requires
        b.len() == value.len(),
        forall|i: int|
            0 <= i < b.len() ==> !is_encoded(#[trigger] b[i]) && b[i] as char == value[i],
    ensures
        encoded_bytes(b) == value,
    decreases b.len(),
{
    if b.len() > 0 {
        lemma_encoded_bytes_unchanged(b.drop_last(), value.drop_last());
        assert(!is_encoded(b[b.len() - 1]));
        assert(encoded_bytes(b) =~= value);
    } else {
        assert(value =~= Seq::empty());
    }
}

/// A text with no two slashes in a row.
pub open spec fn no_double_slash(s: Seq<char>) -> bool {
    forall|i: int| 0 <= i < s.len() - 1 ==> !(#[trigger] s[i] == '/' && s[i + 1] == '/')
}

/// Joining a remaining path to a target's path doubles no slash, and the remaining path is the
/// end of what comes out.
pub proof fn law_join_doubles_no_slash(target: UriView, rest: Seq<char>)
    requires
        rest.len() > 0,
        no_double_slash(target.path),
        no_double_slash(rest),
    ensures
        no_double_slash(target_path(target, Some(rest))),
        rest.is_suffix_of(target_path(target, Some(rest))),
{
    let base = trim_end_matches(target.path, '/');
    lemma_trim_end_matches(target.path, '/');
    let all = base + rest;
    assert forall|i: int| 0 <= i < all.len() - 1 implies !(#[trigger] all[i] == '/' && all[i + 1]
        == '/') by {
        if i + 1 < base.len() {
            assert(all[i] == target.path[i]);
            assert(all[i + 1] == target.path[i + 1]);
        } else if i >= base.len() {
            assert(all[i] == rest[i - base.len()]);
        } else {
            assert(all[i] == base.last());
        }
    }
    assert(rest =~= all.subrange(all.len() - rest.len(), all.len() as int));
}

/// The prefix of a route is taken off a path that goes on behind it with a slash or ends there,
/// and off no other.
pub proof fn law_route_prefix_is_stripped_at_a_boundary(prefix: Seq<char>, suffix: Seq<char>)
    requires
        prefix.len() > 0,
    ensures
        suffix.len() == 0 || suffix[0] == '/' ==> without_prefix(prefix + suffix, prefix) == suffix,
        suffix.len() > 0 && suffix[0] != '/' ==> without_prefix(prefix + suffix, prefix) == prefix
            + suffix,
{
    let path = prefix + suffix;
    assert(prefix =~= path.take(prefix.len() as int));
    assert(path.skip(prefix.len() as int) =~= suffix);
    if suffix.len() > 0 {
        assert(path[prefix.len() as int] == suffix[0]);
    }
}

/// A static target keeps its scheme and authority, and every request can be asked of it, but for
/// the length of what comes out.
pub proof fn law_base_target_accepts_every_request(
    target: UriView,
    path_and_query: Seq<char>,
    route_prefix: Seq<char>,
)
    requires
        is_parsed(target),
        target.authority is Some,
        is_path_and_query(path_and_query),
        !path_and_query.contains('#'),
        path_and_query.len() > 0 ==> path_and_query[0] == '/' || path_and_query[0] == '?',
        encode_utf8(
            target_path_and_query(
                target,
                query_of(path_and_query),
                appended_path(true, path_and_query, route_prefix),
            ),
        ).len() <= 65534,
    ensures
        can_build(
            target,
            query_of(path_and_query),
            appended_path(true, path_and_query, route_prefix),
        ),
        target_uri(
            target,
            query_of(path_and_query),
            appended_path(true, path_and_query, route_prefix),
        ).scheme == Some(scheme_or_http(target)),
        target_uri(
            target,
            query_of(path_and_query),
            appended_path(true, path_and_query, route_prefix),
        ).authority == target.authority,
{
    let s = path_and_query;
    let query = query_of(s);
    lemma_split_behind(s, '#', Seq::empty());
    lemma_parts(s, '?');
    lemma_find(s, '?');
    let path = request_path(s);
    let front = before(s, '?');
    if s.len() == 0 {
        assert(query is None);
    } else {
        assert(path == front || path == seq!['/']);
    }
    assert(all_path_chars(path));
    assert(path.len() > 0 ==> path[0] == '/');
    assert(!path.contains('#') && !path.contains('?')) by {
        if path.contains('#') {
            let k = choose|k: int| 0 <= k < path.len() && path[k] == '#';
            assert(is_path_char(path[k]));
        }
        if path.contains('?') {
            let k = choose|k: int| 0 <= k < path.len() && path[k] == '?';
            assert(is_path_char(path[k]));
        }
    }
    let rest = without_prefix(path, route_prefix);
    assert(rest.len() > 0 ==> rest[0] == '/');
    assert forall|i: int| 0 <= i < rest.len() implies #[trigger] is_path_char(rest[i]) by {
        if is_under(route_prefix, path) {
            assert(is_path_char(path[i + route_prefix.len()]));
        } else {
            assert(is_path_char(path[i]));
        }
    }
    lemma_trim_end_matches(target.path, '/');
    let base = trim_end_matches(target.path, '/');
    let joined = if rest.len() == 0 {
        target.path
    } else {
        base + rest
    };
    assert forall|i: int| 0 <= i < joined.len() implies #[trigger] is_path_char(joined[i]) by {
        if rest.len() == 0 || i < base.len() {
            assert(is_path_char(target.path[i]));
        } else {
            assert(is_path_char(rest[i - base.len()]));
        }
    }
    assert(!joined.contains('?') && !joined.contains('#')) by {
        if joined.contains('#') {
            let k = choose|k: int| 0 <= k < joined.len() && joined[k] == '#';
            assert(is_path_char(joined[k]));
        }
        if joined.contains('?') {
            let k = choose|k: int| 0 <= k < joined.len() && joined[k] == '?';
            assert(is_path_char(joined[k]));
        }
    }
    assert(joined.len() > 0 ==> joined[0] == '/');
    let q = match target.query {
        Some(t) => Some(t),
        None => query,
    };
    let up = with_query(joined, q);
    assert(up == target_path_and_query(target, query, Some(rest)));
    assert(q matches Some(t) ==> all_query_chars(t) && !t.contains('#')) by {
        if target.query is None && query is Some {
            assert(query == after(s, '?'));
        }
    }
    assert(!up.contains('#')) by {
        if up.contains('#') {
            let k = choose|k: int| 0 <= k < up.len() && up[k] == '#';
            if k < joined.len() {
                assert(joined[k] == '#');
            } else if q is Some && k > joined.len() {
                assert(q->0[k - joined.len() - 1] == '#');
            }
        }
    }
    lemma_split_behind(up, '#', Seq::empty());
    lemma_query_of_with_query(joined, q);
}

/// What is asked of a target, for every target and every rest. Let the target's path be `base` and
/// slashes behind it, where `base` does not end in a slash. With a rest to append, the path is
/// `base` and the rest, both whole; without one, or with an empty one, it is the target's path as
/// it is. The query is the target's, or else the request's.
pub proof fn law_target_path(
    target: UriView,
    base: Seq<char>,
    slashes: nat,
    rest: Seq<char>,
    query: Option<Seq<char>>,
    own: Seq<char>,
)
    requires
        target.path == base + run_of('/', slashes),
        base.len() > 0 ==> base.last() != '/',
    ensures
        rest.len() > 0 ==> target_path(target, Some(rest)) == base + rest,
        target_path(target, Some(Seq::empty())) == target.path,
        target_path(target, None) == target.path,
        target.query == Some(own) ==> target_path_and_query(target, query, Some(rest))
            == target_path(target, Some(rest)) + seq!['?'] + own,
        target.query is None && query == Some(own) ==> target_path_and_query(
            target,
            query,
            Some(rest),
        ) == target_path(target, Some(rest)) + seq!['?'] + own,
        target.query is None && query is None ==> target_path_and_query(target, query, Some(rest))
            == target_path(target, Some(rest)),
        target.query == Some(own) ==> target_path_and_query(target, query, None) == target.path
            + seq!['?'] + own,
        target.query is None && query == Some(own) ==> target_path_and_query(target, query, None)
            == target.path + seq!['?'] + own,
        target.query is None && query is None ==> target_path_and_query(target, query, None)
            == target.path,
{
    law_trim_matches(base, '/', slashes);
    if base.len() == 0 {
        assert(target.path =~= run_of('/', slashes));
        assert(base =~= Seq::<char>::empty());
    }
    let p = target_path(target, Some(rest));
    assert(p.push('?') + own =~= p + seq!['?'] + own);
    assert(target.path.push('?') + own =~= target.path + seq!['?'] + own);
}

/// The upstream URI for a target has the target's scheme, `http` where it has none, the target's
/// authority, and path and query as they are asked for.
pub proof fn law_target_uri(
    target: UriView,
    query: Option<Seq<char>>,
    append: Option<Seq<char>>,
)
    requires
        target.authority is Some,
        !target_path(target, append).contains('?'),
        !target_path(target, append).contains('#'),
        target.query matches Some(q) ==> !q.contains('#'),
        query matches Some(q) ==> !q.contains('#'),
    ensures
        ({
            let u = target_uri(target, query, append);
            let path = target_path(target, append);
            &&& target.scheme is Some ==> u.scheme == target.scheme
            &&& target.scheme is None ==> u.scheme == Some("http"@)
            &&& u.authority == target.authority
            &&& path.len() > 0 ==> u.path == path
            &&& path.len() == 0 ==> u.path == seq!['/']
            &&& target.query is Some ==> u.query == target.query
            &&& target.query is None ==> u.query == query
        }),
{
    let path = target_path(target, append);
    match (target.query, query) {
        (Some(q), _) => law_parts_of_a_request(path, q, Seq::empty()),
        (None, Some(q)) => law_parts_of_a_request(path, q, Seq::empty()),
        (None, None) => law_parts_of_a_request(path, Seq::empty(), Seq::empty()),
    }
}

/// The path of a request is what stands in front of the query and the fragment, a slash where that
/// is nothing; the query is what stands between the question mark and the fragment. A request that
/// has neither has an empty path.
pub proof fn law_parts_of_a_request(path: Seq<char>, query: Seq<char>, fragment: Seq<char>)
    requires
        !path.contains('?'),
        !path.contains('#'),
        !query.contains('#'),
    ensures
        path.len() > 0 ==> path_of(path) == path && request_path(path) == path,
        path.len() > 0 ==> path_of(path.push('?') + query) == path && request_path(
            path.push('?') + query,
        ) == path,
        path_of(Seq::empty()) == seq!['/'],
        request_path(Seq::empty()) == Seq::<char>::empty(),
        path.len() == 0 ==> path_of(path.push('?') + query) == seq!['/'] && request_path(
            path.push('?') + query,
        ) == seq!['/'],
        query_of(path) is None,
        query_of(path.push('?') + query) == Some(query),
        path_of((path.push('?') + query).push('#') + fragment) == path_of(path.push('?') + query),
        query_of((path.push('?') + query).push('#') + fragment) == Some(query),
        path.len() > 0 ==> path_of(path.push('#') + fragment) == path,
        query_of(path.push('#') + fragment) is None,
{
    let all = path.push('?') + query;
    assert(!all.contains('#')) by {
        if all.contains('#') {
            let k = choose|k: int| 0 <= k < all.len() && all[k] == '#';
            if k < path.len() {
                assert(path[k] == '#');
            } else if k > path.len() {
                assert(query[k - path.len() - 1] == '#');
            }
        }
    }
    law_first_occurrence(path, '#', fragment);
    law_first_occurrence(path, '?', query);
    law_first_occurrence(all, '#', fragment);
    let none = Seq::<char>::empty();
    law_first_occurrence(none, '#', none);
    law_first_occurrence(none, '?', none);
    if path.len() == 0 {
        assert(path =~= none);
    }
}

/// The literal prefix of a route is what stands in front of the first parameter, without the
/// slashes at its end; all of the route where it has no parameter.
pub proof fn law_literal_prefix(prefix: Seq<char>, slashes: nat, rest: Seq<char>)
    requires
        !prefix.contains('{'),
        prefix.len() > 0 ==> prefix.last() != '/',
    ensures
        literal_prefix((prefix + run_of('/', slashes)).push('{') + rest) == prefix,
        literal_prefix(prefix + run_of('/', slashes)) == prefix,
{
    let front = prefix + run_of('/', slashes);
    assert(!front.contains('{')) by {
        if front.contains('{') {
            let k = choose|k: int| 0 <= k < front.len() && front[k] == '{';
            if k < prefix.len() {
                assert(prefix[k] == '{');
            }
        }
    }
    law_first_occurrence(front, '{', rest);
    law_trim_matches(prefix, '/', slashes);
    if prefix.len() == 0 {
        assert(front =~= run_of('/', slashes));
        assert(prefix =~= Seq::<char>::empty());
    }
}

/// A path that does not start with the prefix, or whose prefix is empty, stays whole.
pub proof fn law_other_paths_stay_whole(path: Seq<char>, prefix: Seq<char>)
    requires
        prefix.len() == 0 || path.len() < prefix.len() || path.take(prefix.len() as int) != prefix,
    ensures
        without_prefix(path, prefix) == path,
{
    if prefix.len() > 0 && prefix.is_prefix_of(path) {
        assert(path.take(prefix.len() as int) =~= prefix);
    }
}

/// What is appended to a base URL is the part of the request's path that goes on behind the prefix
/// of the route, without the query; to any other target nothing is appended.
pub proof fn law_appended_path(prefix: Seq<char>, rest: Seq<char>, query: Seq<char>)
    requires
        prefix.len() > 0,
        rest.len() > 0 ==> rest[0] == '/',
        !(prefix + rest).contains('?'),
        !(prefix + rest).contains('#'),
        !query.contains('#'),
    ensures
        appended_path(true, prefix + rest, prefix) == Some(rest),
        appended_path(true, (prefix + rest).push('?') + query, prefix) == Some(rest),
        appended_path(false, prefix + rest, prefix) is None,
{
    law_parts_of_a_request(prefix + rest, query, Seq::empty());
    law_route_prefix_is_stripped_at_a_boundary(prefix, rest);
}

/// Values are encoded byte by byte: a control character, a byte outside ASCII, a space, and each of
/// `@`, `#`, `?`, `\`, `[` and `]` becomes a percent sign and two digits, and every other byte
/// stays the character that it is.
pub proof fn law_encoded_bytes(a: Seq<u8>, b: Seq<u8>, byte: u8)
    ensures
        encoded_bytes(a + b) == encoded_bytes(a) + encoded_bytes(b),
        byte < 0x20 || byte >= 0x7f || byte as char == ' ' || byte as char == '@' || byte as char
            == '#' || byte as char == '?' || byte as char == '\\' || byte as char == '[' || byte
            as char == ']' ==> encoded_bytes(seq![byte]) == percent_byte(byte),
        !(byte < 0x20 || byte >= 0x7f || byte as char == ' ' || byte as char == '@' || byte as char
            == '#' || byte as char == '?' || byte as char == '\\' || byte as char == '[' || byte
            as char == ']') ==> encoded_bytes(seq![byte]) == seq![byte as char],
    decreases b.len(),
{
    let one = seq![byte];
    assert(one.drop_last() =~= Seq::<u8>::empty());
    assert(encoded_bytes(one.drop_last()) =~= Seq::<char>::empty());
    assert(encoded_bytes(one) =~= encoded_byte(byte));
    if b.len() == 0 {
        assert(a + b =~= a);
        assert(encoded_bytes(a + b) =~= encoded_bytes(a) + encoded_bytes(b));
    } else {
        law_encoded_bytes(a, b.drop_last(), byte);
        assert((a + b).drop_last() =~= a + b.drop_last());
        assert(encoded_bytes(a + b) =~= encoded_bytes(a) + encoded_bytes(b));
    }
}

/// A value is encoded character by character, and a character outside ASCII byte by byte, as UTF-8
/// writes it.
pub proof fn law_encoded_value(a: Seq<char>, b: Seq<char>, value: Seq<char>)
    ensures
        encoded(a + b) == encoded(a) + encoded(b),
        encoded(value) == encoded_bytes(encode_utf8(value)),
{
    lemma_encode_utf8_sum(a, b);
    law_encoded_bytes(encode_utf8(a), encode_utf8(b), 0);
}

proof fn lemma_encode_utf8_sum(a: Seq<char>, b: Seq<char>)
    ensures
        encode_utf8(a + b) == encode_utf8(a) + encode_utf8(b),
    decreases a.len(),
{
    if a.len() == 0 {
        assert(a + b =~= b);
        assert(encode_utf8(a) =~= Seq::<u8>::empty());
        assert(encode_utf8(a) + encode_utf8(b) =~= encode_utf8(b));
    } else {
        let less = a.skip(1);
        assert(a.drop_first() =~= less);
        assert((a + b).drop_first() =~= less + b);
        assert((a + b)[0] == a[0]);
        lemma_encode_utf8_sum(less, b);
        assert(encode_utf8(a + b) =~= encode_utf8(a) + encode_utf8(b));
    }
}

/// Every occurrence is replaced, from the left: what stands in front of the first one stays, and
/// what stands behind it is treated in the same way. A text without an occurrence stays whole.
#[verifier::rlimit(40)]
pub proof fn law_replaced(s: Seq<char>, pattern: Seq<char>, with: Seq<char>, at: int)
    requires
        pattern.len() > 0,
        0 <= at <= s.len(),
        forall|j: int| 0 <= j < at ==> !#[trigger] occurs_at(s, pattern, j),
        at == s.len() || occurs_at(s, pattern, at),
    ensures
        at == s.len() ==> replaced(s, pattern, with) == s,
        at < s.len() ==> replaced(s, pattern, with) == s.take(at) + with + replaced(
            s.skip(at + pattern.len()),
            pattern,
            with,
        ),
    decreases at,
{
    assert(s.skip(0) =~= s);
    if s.len() == 0 {
        assert(s =~= Seq::<char>::empty());
    } else if at == 0 {
        let tail = replaced(s.skip(pattern.len() as int), pattern, with);
        assert(replaced(s, pattern, with) == with + tail);
        assert(with + tail =~= s.take(0) + with + tail);
    } else {
        let t = s.skip(1);
        assert(!occurs_at(s, pattern, 0));
        assert forall|j: int| 0 <= j < at - 1 implies !#[trigger] occurs_at(t, pattern, j) by {
            assert(t.skip(j) =~= s.skip(j + 1));
            assert(!occurs_at(s, pattern, j + 1));
        }
        if at < s.len() {
            assert(t.skip(at - 1) =~= s.skip(at));
        }
        law_replaced(t, pattern, with, at - 1);
        let rest = replaced(t, pattern, with);
        assert(replaced(s, pattern, with) == seq![s[0]] + rest);
        if at == s.len() {
            assert(seq![s[0]] + t =~= s);
        } else {
            let tail = replaced(s.skip(at + pattern.len()), pattern, with);
            assert(t.skip(at - 1 + pattern.len()) =~= s.skip(at + pattern.len()));
            assert(rest == t.take(at - 1) + with + tail);
            assert(seq![s[0]] + (t.take(at - 1) + with + tail) =~= s.take(at) + with + tail);
        }
    }
}

/// Whether `pattern` stands in `s` at position `i`.
pub open spec fn occurs_at(s: Seq<char>, pattern: Seq<char>, i: int) -> bool {
    pattern.is_prefix_of(s.skip(i))
}

/// A parameter takes the place of its name in braces: what stands around it stays, and the value is
/// put in encoded. Parameters are put in one after the other, and without parameters the template
/// stays as it is.
pub proof fn law_resolved(
    front: Seq<char>,
    name: Seq<char>,
    value: Seq<char>,
    back: Seq<char>,
    template: Seq<char>,
    params: Seq<(Seq<char>, Seq<char>)>,
)
    requires
        !front.contains('{'),
        !back.contains('{'),
    ensures
        resolved(template, Seq::empty()) == template,
        resolved(template, params.push((name, value))) == resolved(
            resolved(template, params),
            seq![(name, value)],
        ),
        resolved(front.push('{') + name + seq!['}'] + back, seq![(name, value)]) == front + encoded(
            value,
        ) + back,
        resolved(front, seq![(name, value)]) == front,
        resolved(template, seq![(name, value)]) == replaced(
            template,
            seq!['{'] + name + seq!['}'],
            encoded(value),
        ),
{
    let pattern = placeholder(name);
    let with = encoded(value);
    let one = seq![(name, value)];
    assert(one.drop_last() =~= Seq::<(Seq<char>, Seq<char>)>::empty());
    assert(params.push((name, value)).drop_last() =~= params);
    assert(one.last() == (name, value));
    assert forall|x: Seq<char>| #[trigger] resolved(x, one) == replaced(x, pattern, with) by {
        assert(resolved(x, one.drop_last()) == x);
    }
    let s = front.push('{') + name + seq!['}'] + back;
    assert forall|j: int| 0 <= j < front.len() implies !occurs_at(s, pattern, j) && !occurs_at(
        front,
        pattern,
        j,
    ) by {
        assert(front.contains(front[j]));
        if occurs_at(s, pattern, j) {
            assert(s.skip(j)[0] == pattern[0]);
            assert(s.skip(j)[0] == front[j]);
        }
        if occurs_at(front, pattern, j) {
            assert(front.skip(j)[0] == pattern[0]);
        }
    }
    let here = s.skip(front.len() as int);
    assert(here =~= pattern + back);
    assert(pattern =~= here.take(pattern.len() as int));
    law_replaced(s, pattern, with, front.len() as int);
    assert(s.take(front.len() as int) =~= front);
    assert(s.skip(front.len() as int + pattern.len()) =~= back);
    assert forall|j: int| 0 <= j < back.len() implies !occurs_at(back, pattern, j) by {
        assert(back.contains(back[j]));
        if occurs_at(back, pattern, j) {
            assert(back.skip(j)[0] == pattern[0]);
        }
    }
    law_replaced(back, pattern, with, back.len() as int);
    law_replaced(front, pattern, with, front.len() as int);
}

} // verus!
