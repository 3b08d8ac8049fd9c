//! What holds of every proxy's way from a request's path to an upstream URI.
use crate::proxy::{
    is_proxy, is_under, joined_path, remaining_path, upstream_path_and_query, upstream_uri,
    with_query, ProxyView,
};
use crate::text::{after, before, find, lemma_find, lemma_find_is, trim_end_matches};
use crate::text_laws::{law_first_occurrence, law_trim_matches, run_of};
use crate::uri::{
    all_path_chars, is_path_and_query, is_path_char, origin_builds, parsed_uri, scheme_or_http,
    UriView,
};
use vstd::prelude::*;
use vstd::utf8::encode_utf8;

verus! {

/// What is left is a prefix and does not end in `c`.
pub proof fn lemma_trim_end_matches(s: Seq<char>, c: char)
    ensures
        trim_end_matches(s, c).len() <= s.len(),
        trim_end_matches(s, c) == s.take(trim_end_matches(s, c).len() as int),
        trim_end_matches(s, c).len() > 0 ==> trim_end_matches(s, c).last() != c,
    decreases s.len(),
{
    if s.len() > 0 && s.last() == c {
        lemma_trim_end_matches(s.drop_last(), c);
        let t = trim_end_matches(s, c);
        assert(s.drop_last().take(t.len() as int) =~= s.take(t.len() as int));
    } else {
        assert(s.take(s.len() as int) =~= s);
    }
}

/// Where `p` holds no `c`, the first `c` of `p`, `c`, `q` is the one behind `p`.
pub proof fn lemma_split_behind(p: Seq<char>, c: char, q: Seq<char>)
    requires
        !p.contains(c),
    ensures
        before(p.push(c) + q, c) == p,
        after(p.push(c) + q, c) == Some(q),
        before(p, c) == p,
        after(p, c) is None,
{
    let s = p.push(c) + q;
    assert forall|j: int| 0 <= j < p.len() implies s[j] != c by {
        assert(p.contains(p[j]));
    }
    lemma_find_is(s, c, p.len() as int);
    assert(s.take(p.len() as int) =~= p);
    assert(s.skip(p.len() as int + 1) =~= q);
    assert forall|j: int| 0 <= j < p.len() implies p[j] != c by {
        assert(p.contains(p[j]));
    }
    lemma_find_is(p, c, p.len() as int);
    assert(p.take(p.len() as int) =~= p);
}

/// The parts of a text in front of and behind the first `c`.
pub proof fn lemma_parts(s: Seq<char>, c: char)
    ensures
        !before(s, c).contains(c),
        before(s, c).is_prefix_of(s),
        s == with_query(before(s, '?'), after(s, '?')),
        after(s, c) matches Some(q) ==> forall|x: char| q.contains(x) ==> s.contains(x),
        forall|x: char| before(s, c).contains(x) ==> s.contains(x),
{
    lemma_find(s, c);
    lemma_find(s, '?');
    let i = find(s, c);
    assert(before(s, c) =~= s.subrange(0, i));
    assert forall|x: char| before(s, c).contains(x) implies s.contains(x) && x != c by {
        let j = choose|j: int| 0 <= j < before(s, c).len() && before(s, c)[j] == x;
        assert(s[j] == x);
    }
    if i < s.len() {
        let q = s.skip(i + 1);
        assert forall|x: char| q.contains(x) implies s.contains(x) by {
            let j = choose|j: int| 0 <= j < q.len() && q[j] == x;
            assert(s[i + 1 + j] == x);
        }
    }
    let m = find(s, '?');
    if m < s.len() {
        assert(s =~= s.take(m).push('?') + s.skip(m + 1));
    } else {
        assert(s =~= s.take(m));
    }
}

/// A target's base path is empty, or starts with a slash and does not end with one, so that
/// joining a remaining path never doubles a slash.
pub proof fn law_base_path_is_plain(v: ProxyView)
    requires
        is_proxy(v),
    ensures
        v.base_path.len() > 0 ==> v.base_path[0] == '/' && v.base_path.last() != '/',
        all_path_chars(v.base_path),
        !v.base_path.contains('?'),
        !v.base_path.contains('#'),
{
    let u = parsed_uri(v.target)->0;
    lemma_trim_end_matches(u.path, '/');
    assert forall|x: char| v.base_path.contains(x) implies u.path.contains(x) by {
        let j = choose|j: int| 0 <= j < v.base_path.len() && v.base_path[j] == x;
        assert(u.path[j] == x);
    }
    assert forall|i: int| 0 <= i < v.base_path.len() implies #[trigger] is_path_char(
        v.base_path[i],
    ) by {
        assert(is_path_char(u.path[i]));
    }
}

/// What remains of a path is empty, the whole path, or a suffix that starts with a slash.
proof fn lemma_remaining(mount: Seq<char>, path: Seq<char>)
    ensures
        ({
            let r = remaining_path(mount, path);
            &&& r.len() == 0 || r == path || r[0] == '/'
            &&& forall|x: char| r.contains(x) ==> path.contains(x)
            &&& all_path_chars(path) ==> all_path_chars(r)
        }),
{
    let base = trim_end_matches(mount, '/');
    let r = remaining_path(mount, path);
    let k = base.len() as int;
    if path == seq!['/'] && mount.len() > 0 {
    } else if is_under(base, path) {
        assert(r =~= path.skip(k));
        assert forall|x: char| r.contains(x) implies path.contains(x) by {
            let j = choose|j: int| 0 <= j < r.len() && r[j] == x;
            assert(path[k + j] == x);
        }
        if all_path_chars(path) {
            assert forall|i: int| 0 <= i < r.len() implies #[trigger] is_path_char(r[i]) by {
                assert(is_path_char(path[k + i]));
            }
        }
    }
}

/// The joined path holds no `?` and no `#`, and starts with a slash unless the request asked
/// for `*`, where the request's path is empty, a bare asterisk, or starts with a slash.
proof fn lemma_joined(v: ProxyView, path: Seq<char>)
    requires
        is_proxy(v),
        !path.contains('?'),
        !path.contains('#'),
    ensures
        ({
            let j = joined_path(v.base_path, v.trailing_slash, remaining_path(v.path, path));
            &&& !j.contains('?')
            &&& !j.contains('#')
            &&& j.len() > 0
            &&& path.len() == 0 || path[0] == '/' ==> j[0] == '/'
            &&& path == seq!['*'] ==> j == seq!['*'] || j[0] == '/'
            &&& all_path_chars(path) ==> all_path_chars(j)
        }),
{
    let b = v.base_path;
    let r = remaining_path(v.path, path);
    let j = joined_path(b, v.trailing_slash, r);
    law_base_path_is_plain(v);
    lemma_remaining(v.path, path);
    assert forall|x: char| j.contains(x) implies b.contains(x) || r.contains(x) || x == '/' by {
        let i = choose|i: int| 0 <= i < j.len() && j[i] == x;
        if r.len() > 0 {
            if i < b.len() {
                assert(b[i] == x);
            } else {
                assert(r[i - b.len()] == x);
            }
        } else if i < b.len() {
            assert(b[i] == x);
        }
    }
    if all_path_chars(path) {
        assert forall|i: int| 0 <= i < j.len() implies #[trigger] is_path_char(j[i]) by {
            if i < b.len() {
                assert(is_path_char(b[i]));
            } else if r.len() > 0 {
                assert(is_path_char(r[i - b.len()]));
            }
        }
    }
    if path == seq!['*'] && b.len() == 0 && r.len() > 0 {
        assert(r == path || r[0] == '/');
        if r[0] == '/' && r != path {
            assert(r.contains('/'));
            assert(path.contains('/'));
            assert(false);
        }
        assert(j =~= path);
    }
}

/// No request can make the transformation fail, but for the length of what comes out: where a
/// path and query can stand in a request, the one that is asked of the upstream can stand in a
/// URI.
pub proof fn law_transform_accepts_every_request(v: ProxyView, path_and_query: Seq<char>)
    requires
        is_proxy(v),
        is_path_and_query(path_and_query),
        !path_and_query.contains('#'),
        encode_utf8(upstream_path_and_query(v, path_and_query)).len() <= 65534,
    ensures
        is_path_and_query(upstream_path_and_query(v, path_and_query)),
        origin_builds(v.scheme, v.authority),
{
    let s = path_and_query;
    let path = before(s, '?');
    let query = after(s, '?');
    lemma_parts(s, '?');
    lemma_split_behind(s, '#', Seq::empty());
    lemma_joined(v, path);
    let j = joined_path(v.base_path, v.trailing_slash, remaining_path(v.path, path));
    let up = upstream_path_and_query(v, s);
    assert(up == with_query(j, query));
    if s == seq!['*'] {
        assert(!s.contains('?')) by {
            if s.contains('?') {
                let k = choose|k: int| 0 <= k < s.len() && s[k] == '?';
                assert(s[k] == '*');
            }
        }
        lemma_split_behind(s, '?', Seq::empty());
        assert forall|i: int| 0 <= i < path.len() implies #[trigger] is_path_char(path[i]) by {}
    }
    if s.len() > 0 && s[0] == '/' {
        lemma_find(s, '?');
        assert(path[0] == '/');
    }
    if s.len() > 0 && s[0] == '?' {
        lemma_find(s, '?');
        assert(path.len() == 0);
    }
    assert(all_path_chars(path));
    match query {
        Some(q) => {
            lemma_split_behind(j, '?', q);
            assert(!up.contains('#')) by {
                if up.contains('#') {
                    let k = choose|k: int| 0 <= k < up.len() && up[k] == '#';
                    if k < j.len() {
                        assert(j[k] == '#');
                    } else if k > j.len() {
                        assert(q[k - j.len() - 1] == '#');
                        assert(q.contains('#'));
                    }
                }
            }
        },
        None => {
            lemma_split_behind(j, '?', Seq::empty());
        },
    }
    lemma_split_behind(up, '#', Seq::empty());
}

/// The upstream URI has the scheme and the authority of the target, a path that starts with a
/// slash, and the query of the request, letter for letter.
pub proof fn law_transform_keeps_origin_and_query(v: ProxyView, path_and_query: Seq<char>)
    requires
        is_proxy(v),
        !path_and_query.contains('#'),
        path_and_query.len() == 0 || path_and_query[0] == '/' || path_and_query[0] == '?',
    ensures
        upstream_uri(v, path_and_query).scheme == Some(scheme_or_http(parsed_uri(v.target)->0)),
        upstream_uri(v, path_and_query).authority == parsed_uri(v.target)->0.authority,
        upstream_uri(v, path_and_query).path.len() > 0,
        upstream_uri(v, path_and_query).path[0] == '/',
        upstream_uri(v, path_and_query).query == after(path_and_query, '?'),
{
    lemma_upstream_uri(v, path_and_query);
    let path = before(path_and_query, '?');
    lemma_parts(path_and_query, '?');
    lemma_joined(v, path);
    if path_and_query.len() > 0 {
        lemma_find(path_and_query, '?');
    }
}

/// The upstream path is the joined path, and the upstream query the request's.
proof fn lemma_upstream_uri(v: ProxyView, path_and_query: Seq<char>)
    requires
        is_proxy(v),
        !path_and_query.contains('#'),
    ensures
        upstream_uri(v, path_and_query).path == joined_path(
            v.base_path,
            v.trailing_slash,
            remaining_path(v.path, before(path_and_query, '?')),
        ),
        upstream_uri(v, path_and_query).query == after(path_and_query, '?'),
{
    let path = before(path_and_query, '?');
    let query = after(path_and_query, '?');
    lemma_parts(path_and_query, '?');
    lemma_joined(v, path);
    let j = joined_path(v.base_path, v.trailing_slash, remaining_path(v.path, path));
    let up = upstream_path_and_query(v, path_and_query);
    assert(!up.contains('#')) by {
        if up.contains('#') {
            let k = choose|k: int| 0 <= k < up.len() && up[k] == '#';
            if k < j.len() {
                assert(j[k] == '#');
            } else if query is Some && k > j.len() {
                assert(query->0[k - j.len() - 1] == '#');
                assert(query->0.contains('#'));
            }
        }
    }
    lemma_split_behind(up, '#', Seq::empty());
    match query {
        Some(q) => lemma_split_behind(j, '?', q),
        None => lemma_split_behind(j, '?', Seq::empty()),
    }
}

/// Where the request's path goes on behind the mount path with a slash, the upstream path is
/// the target's base path with that remainder behind it.
pub proof fn law_mount_path_is_stripped_at_a_boundary(
    v: ProxyView,
    remainder: Seq<char>,
    query: Option<Seq<char>>,
)
    requires
        is_proxy(v),
        trim_end_matches(v.path, '/').len() > 0,
        !trim_end_matches(v.path, '/').contains('?'),
        remainder.len() > 0,
        remainder[0] == '/',
        !remainder.contains('?'),
    ensures
        upstream_path_and_query(
            v,
            with_query(trim_end_matches(v.path, '/') + remainder, query),
        ) == with_query(v.base_path + remainder, query),
{
    let base = trim_end_matches(v.path, '/');
    let path = base + remainder;
    lemma_no_mark(base, remainder);
    lemma_query_of_with_query(path, query);
    assert(base =~= path.take(base.len() as int));
    assert(path.skip(base.len() as int) =~= remainder);
    lemma_trim_end_matches(v.path, '/');
    assert(path.len() > 1);
}

/// A path that merely starts with the same letters as the mount path is not stripped.
pub proof fn law_similar_prefix_is_not_stripped(
    v: ProxyView,
    suffix: Seq<char>,
    query: Option<Seq<char>>,
)
    requires
        is_proxy(v),
        trim_end_matches(v.path, '/').len() > 0,
        !trim_end_matches(v.path, '/').contains('?'),
        suffix.len() > 0,
        suffix[0] != '/',
        !suffix.contains('?'),
    ensures
        upstream_path_and_query(v, with_query(trim_end_matches(v.path, '/') + suffix, query))
            == with_query(v.base_path + trim_end_matches(v.path, '/') + suffix, query),
{
    let base = trim_end_matches(v.path, '/');
    let path = base + suffix;
    lemma_no_mark(base, suffix);
    lemma_query_of_with_query(path, query);
    lemma_trim_end_matches(v.path, '/');
    assert(path.len() > 1);
    assert(path[base.len() as int] == suffix[0]);
    assert(!is_under(base, path));
    assert(v.base_path + path =~= v.base_path + base + suffix);
}

/// A request for the mount path itself goes to the target's path as it was written (`/` where
/// it has none), and a query adds no slash to it.
pub proof fn law_empty_remainder_adds_no_slash(v: ProxyView, query: Option<Seq<char>>)
    requires
        is_proxy(v),
        trim_end_matches(v.path, '/').len() > 0,
        !trim_end_matches(v.path, '/').contains('?'),
    ensures
        upstream_path_and_query(v, with_query(trim_end_matches(v.path, '/'), query)) == with_query(
            joined_path(v.base_path, v.trailing_slash, Seq::empty()),
            query,
        ),
{
    let base = trim_end_matches(v.path, '/');
    lemma_query_of_with_query(base, query);
    lemma_trim_end_matches(v.path, '/');
    assert(base =~= base.take(base.len() as int));
    assert(base.skip(base.len() as int) =~= Seq::empty());
}

/// It makes no difference whether the request's path still carries the mount path or a router
/// has taken it off already (leaving `/` where nothing remains), unless what remains is a bare
/// slash or repeats the mount path.
pub proof fn law_mounted_and_fallback_agree(
    v: ProxyView,
    remainder: Seq<char>,
    query: Option<Seq<char>>,
)
    requires
        is_proxy(v),
        trim_end_matches(v.path, '/').len() > 0,
        !trim_end_matches(v.path, '/').contains('?'),
        remainder.len() > 0 ==> remainder[0] == '/',
        !remainder.contains('?'),
        remainder != seq!['/'],
        !is_under(trim_end_matches(v.path, '/'), remainder),
    ensures
        upstream_path_and_query(
            v,
            with_query(trim_end_matches(v.path, '/') + remainder, query),
        ) == upstream_path_and_query(
            v,
            with_query(
                if remainder.len() == 0 {
                    seq!['/']
                } else {
                    remainder
                },
                query,
            ),
        ),
{
    let base = trim_end_matches(v.path, '/');
    lemma_trim_end_matches(v.path, '/');
    if remainder.len() == 0 {
        law_empty_remainder_adds_no_slash(v, query);
        assert(base + remainder =~= base);
        let slash = seq!['/'];
        assert(!slash.contains('?')) by {
            if slash.contains('?') {
                let k = choose|k: int| 0 <= k < slash.len() && slash[k] == '?';
                assert(slash[k] == '/');
            }
        }
        lemma_query_of_with_query(slash, query);
    } else {
        law_mount_path_is_stripped_at_a_boundary(v, remainder, query);
        lemma_query_of_with_query(remainder, query);
    }
}

proof fn lemma_no_mark(a: Seq<char>, b: Seq<char>)
    requires
        !a.contains('?'),
        !b.contains('?'),
    ensures
        !(a + b).contains('?'),
{
    let s = a + b;
    if s.contains('?') {
        let k = choose|k: int| 0 <= k < s.len() && s[k] == '?';
        if k < a.len() {
            assert(a[k] == '?');
        } else {
            assert(b[k - a.len()] == '?');
        }
    }
}

/// Path and query come apart where they were put together.
pub proof fn lemma_query_of_with_query(path: Seq<char>, query: Option<Seq<char>>)
    requires
        !path.contains('?'),
    ensures
        before(with_query(path, query), '?') == path,
        after(with_query(path, query), '?') == query,
{
    match query {
        Some(q) => lemma_split_behind(path, '?', q),
        None => lemma_split_behind(path, '?', Seq::empty()),
    }
}

/// What is asked of the upstream, for every request. Let the target's path be `base` and slashes
/// behind it, and the mount path `mount` and slashes behind it, where neither `base` nor `mount`
/// ends in a slash. A request for the mount path itself, with or without a slash behind it where
/// that is all, goes to the target's path as it was written, with one slash at most; a path that
/// goes on behind the mount path goes to `base` and what goes on; every other path goes to `base`
/// and the whole path. The query follows letter for letter.
pub proof fn law_upstream_path(
    v: ProxyView,
    base: Seq<char>,
    base_slashes: nat,
    mount: Seq<char>,
    mount_slashes: nat,
    path: Seq<char>,
    query: Seq<char>,
)
    requires
        is_proxy(v),
        parsed_uri(v.target)->0.path == base + run_of('/', base_slashes),
        base.len() > 0 ==> base.last() != '/',
        v.path == mount + run_of('/', mount_slashes),
        mount.len() > 0 ==> mount.last() != '/',
        !path.contains('?'),
    ensures
        ({
            let asked = upstream_path_and_query(v, path);
            let nothing_remains = path.len() == 0 || (path == seq!['/'] && v.path.len() > 0) || (
            mount.len() > 0 && path == mount);
            let goes_on = mount.len() > 0 && mount.len() < path.len() && path.take(
                mount.len() as int,
            ) == mount && path[mount.len() as int] == '/';
            &&& nothing_remains && base.len() == 0 ==> asked == seq!['/']
            &&& nothing_remains && base.len() > 0 && base_slashes == 0 ==> asked == base
            &&& nothing_remains && base.len() > 0 && base_slashes > 0 ==> asked == base.push('/')
            &&& goes_on ==> asked == base + path.skip(mount.len() as int)
            &&& !nothing_remains && !goes_on ==> asked == base + path
            &&& upstream_path_and_query(v, path.push('?') + query) == asked.push('?') + query
        }),
{
    let u = parsed_uri(v.target)->0;
    let slashes = run_of('/', base_slashes);
    law_trim_matches(base, '/', base_slashes);
    law_trim_matches(mount, '/', mount_slashes);
    if base.len() == 0 {
        assert(u.path =~= slashes);
        assert(base =~= Seq::<char>::empty());
    }
    if mount.len() == 0 {
        assert(v.path =~= run_of('/', mount_slashes));
        assert(mount =~= Seq::<char>::empty());
    }
    assert(trim_end_matches(v.path, '/') == mount);
    assert(v.base_path == base) by {
        if u.path == seq!['/'] && base.len() > 0 {
            assert(u.path[0] == base[0]);
            assert(base.len() == 1);
            assert(base.last() == '/');
        }
    }
    if base.len() > 0 {
        if base_slashes > 0 {
            assert(u.path.last() == '/');
            assert(u.path.len() > 1);
        } else {
            assert(u.path =~= base);
        }
    }
    law_first_occurrence(path, '?', query);
    if mount.len() > 0 && path == mount {
        assert(mount =~= path.take(mount.len() as int));
        assert(path.skip(mount.len() as int) =~= Seq::<char>::empty());
    }
    if mount.is_prefix_of(path) {
        assert(path.take(mount.len() as int) =~= mount);
        if mount.len() == path.len() {
            assert(path =~= mount);
        }
    }
}

/// The upstream URI has the target's scheme, `http` where it has none, and the target's authority;
/// its path and query are those that are asked of the upstream.
pub proof fn law_upstream_uri(v: ProxyView, path: Seq<char>, query: Seq<char>)
    requires
        is_proxy(v),
        !path.contains('?'),
        !path.contains('#'),
        !query.contains('#'),
    ensures
        ({
            let target = parsed_uri(v.target)->0;
            let plain = upstream_uri(v, path);
            let queried = upstream_uri(v, path.push('?') + query);
            &&& target.scheme is Some ==> plain.scheme == target.scheme
            &&& target.scheme is None ==> plain.scheme == Some("http"@)
            &&& target.authority is Some
            &&& plain.authority == target.authority
            &&& plain.path == upstream_path_and_query(v, path)
            &&& plain.query is None
            &&& queried == (UriView { query: Some(query), ..plain })
        }),
{
    let all = path.push('?') + query;
    law_first_occurrence(path, '?', query);
    lemma_upstream_uri(v, path);
    if all.contains('#') {
        let k = choose|k: int| 0 <= k < all.len() && all[k] == '#';
        if k < path.len() {
            assert(path[k] == '#');
        } else if k > path.len() {
            assert(query[k - path.len() - 1] == '#');
        }
    }
    lemma_upstream_uri(v, all);
}

} // verus!
