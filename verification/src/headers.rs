//! Header fields: what a header map holds, and the operations on it that the
//! proxy is built from.
//!
//! A map is seen as a function from field names to lists of field lines. Names
//! are lower case, a name that is present has at least one line, and the lines
//! of one name are in order. The order between different names is left open.
use crate::text::{
    chars_of, is_digit, join, joined, lower, lower_char, opt_text, same_text, texts, to_lower,
};
use vstd::prelude::*;
use vstd::utf8::{encode_utf8, is_ascii_chars, is_ascii_chars_encode_utf8};

verus! {

/// `http::HeaderMap`, opaque but for [`header_lines`].
#[verifier::external_type_specification]
#[verifier::external_body]
#[verifier::reject_recursive_types(T)]
pub struct ExHeaderMap<T>(http::HeaderMap<T>);

/// `http::HeaderValue`, opaque.
#[verifier::external_type_specification]
#[verifier::external_body]
pub struct ExHeaderValue(http::HeaderValue);

/// A header map, as `http` has it.
pub type Headers = http::HeaderMap<http::HeaderValue>;

/// The field lines of each name, as bytes.
pub type Lines = Map<Seq<char>, Seq<Seq<u8>>>;

/// The field lines that a header map holds.
pub uninterp spec fn header_lines(m: http::HeaderMap<http::HeaderValue>) -> Map<
    Seq<char>,
    Seq<Seq<u8>>,
>;

/// The names that a header map holds, in the order in which it walks them.
pub uninterp spec fn header_order(m: http::HeaderMap<http::HeaderValue>) -> Seq<Seq<char>>;

/// A header map takes an insertion for certain while it holds no more names than this. Beyond it,
/// whether the map can still grow depends on how its names hash.
pub const MAX_NAMES: usize = 6553;

/// A character that a token may hold, in lower case.
pub open spec fn is_lower_token_char(c: char) -> bool {
    ||| is_digit(c)
    ||| 'a' <= c <= 'z'
    ||| c == '!'
    ||| c == '#'
    ||| c == '$'
    ||| c == '%'
    ||| c == '&'
    ||| c == '\''
    ||| c == '*'
    ||| c == '+'
    ||| c == '-'
    ||| c == '.'
    ||| c == '^'
    ||| c == '_'
    ||| c == '`'
    ||| c == '|'
    ||| c == '~'
}

/// The form of a name that can be looked up by its text: lower case, of bounded length. Beside
/// the characters of a token it may hold `"`, which an HTTP/2 peer can send. A header map can also
/// hold names that are not of this form.
pub open spec fn is_stored_name(s: Seq<char>) -> bool {
    &&& 1 <= s.len() <= 65535
    &&& forall|i: int| 0 <= i < s.len() ==> #[trigger] is_stored_name_char(s[i])
}

/// A character of a name in stored form.
pub open spec fn is_stored_name_char(c: char) -> bool {
    is_lower_token_char(c) || c == '"'
}

/// A byte that a field value may hold: anything but control characters, tab excepted.
pub open spec fn is_value_byte(b: u8) -> bool {
    (b >= 32 && b != 127) || b == 9
}

/// Whether `v` can be a field value.
pub open spec fn is_value(v: Seq<u8>) -> bool {
    forall|i: int| 0 <= i < v.len() ==> #[trigger] is_value_byte(v[i])
}

/// The lines of `name`, none if the name is absent.
pub open spec fn lines_of(m: Lines, name: Seq<char>) -> Seq<Seq<u8>> {
    if m.contains_key(name) {
        m[name]
    } else {
        Seq::empty()
    }
}

/// The first line of `name`, if the name is present.
pub open spec fn first_of(m: Lines, name: Seq<char>) -> Option<Seq<u8>> {
    if lines_of(m, name).len() > 0 {
        Some(lines_of(m, name)[0])
    } else {
        None
    }
}

/// `m` with one more line of `name` behind those it has.
pub open spec fn appended(m: Lines, name: Seq<char>, value: Seq<u8>) -> Lines {
    m.insert(name, lines_of(m, name).push(value))
}

/// Whether `m` takes `extra` more names.
pub open spec fn has_room(m: Lines, extra: int) -> bool {
    m.dom().finite() && m.dom().len() + extra <= MAX_NAMES
}

/// No field lines at all.
pub open spec fn no_lines() -> Lines {
    Map::empty()
}

/// Whether `names` holds every name of `m` once, and nothing else.
pub open spec fn lists_names(names: Seq<Seq<char>>, m: Lines) -> bool {
    &&& m.dom().finite()
    &&& names.no_duplicates()
    &&& names.to_set() == m.dom()
}

/// Whether `m` has `n` names.
pub open spec fn counts_names(n: int, m: Lines) -> bool {
    m.dom().finite() && n == m.dom().len()
}

/// The lists of bytes that a list of byte vectors holds.
pub open spec fn byte_lists(v: Seq<Vec<u8>>) -> Seq<Seq<u8>> {
    v.map_values(|x: Vec<u8>| x@)
}

/// `HeaderMap::new`: an empty map.
#[verifier::external_body]
pub(crate) fn header_map_new() -> (r: Headers)
    ensures
        header_lines(r) == no_lines(),
{
    http::HeaderMap::new()
}

/// `HeaderMap::clone`: a map that holds the same lines.
#[verifier::external_body]
pub(crate) fn header_map_clone(m: &Headers) -> (r: Headers)
    ensures
        header_lines(r) == header_lines(*m),
{
    m.clone()
}

/// `HeaderMap::keys`: every name once, and nothing else, in the order in which the map walks
/// them.
#[verifier::external_body]
pub(crate) fn header_names(m: &Headers) -> (r: Vec<String>)
    ensures
        texts(r@) == header_order(*m),
        lists_names(texts(r@), header_lines(*m)),
{
    m.keys().map(|k| k.as_str().to_owned()).collect()
}

/// `HeaderMap::keys_len`: the number of different names.
#[verifier::external_body]
pub(crate) fn header_name_count(m: &Headers) -> (r: usize)
    ensures
        counts_names(r as int, header_lines(*m)),
{
    m.keys_len()
}

/// `HeaderMap::get_all`: the values of a name, in order.
#[verifier::external_body]
pub(crate) fn header_values(m: &Headers, name: &str) -> (r: Vec<Vec<u8>>)
    requires
        is_stored_name(name@),
    ensures
        byte_lists(r@) == lines_of(header_lines(*m), name@),
        header_lines(*m).contains_key(name@) ==> r@.len() > 0,
{
    let key = http::HeaderName::from_lowercase(name.as_bytes()).unwrap();
    m.get_all(key).iter().map(|v| v.as_bytes().to_vec()).collect()
}

/// `HeaderMap::insert`: the name has this value afterwards and no other. The call panics where
/// the map cannot grow, which takes more than `MAX_NAMES` names.
#[verifier::external_body]
pub(crate) fn header_insert(m: &mut Headers, name: &str, value: &Vec<u8>)
    requires
        is_stored_name(name@),
        is_value(value@),
        has_room(header_lines(*old(m)), 0),
    ensures
        header_lines(*final(m)) == header_lines(*old(m)).insert(name@, seq![value@]),
{
    let key = http::HeaderName::from_lowercase(name.as_bytes()).unwrap();
    m.insert(key, http::HeaderValue::from_bytes(value).unwrap());
}

/// `HeaderMap::insert` of a copy of the first value that another name has in another map: the
/// name has this value afterwards and no other. The call panics where the map cannot grow, which
/// takes more than `MAX_NAMES` names.
#[verifier::external_body]
pub(crate) fn header_insert_from(m: &mut Headers, name: &str, from: &Headers, source: &str)
    requires
        is_stored_name(name@),
        is_stored_name(source@),
        header_lines(*from).contains_key(source@),
        has_room(header_lines(*old(m)), 0),
    ensures
        header_lines(*final(m)) == header_lines(*old(m)).insert(
            name@,
            seq![lines_of(header_lines(*from), source@)[0]],
        ),
{
    let key = http::HeaderName::from_lowercase(name.as_bytes()).unwrap();
    let source = http::HeaderName::from_lowercase(source.as_bytes()).unwrap();
    m.insert(key, from.get(source).unwrap().clone());
}

/// `HeaderMap::get_all` of the name at position `i`: the number of its values, of which every
/// name in a map has one at least.
#[verifier::external_body]
pub(crate) fn header_count_at(m: &Headers, i: usize) -> (r: usize)
    requires
        i < header_order(*m).len(),
    ensures
        r == lines_of(header_lines(*m), header_order(*m)[i as int]).len(),
        r > 0,
{
    let key = m.keys().nth(i).unwrap();
    m.get_all(key).iter().count()
}

/// `HeaderMap::append` of a copy of the value at position `k` of the name at position `i` of
/// another map, under the same name: it comes behind the values that the name has. The call
/// panics where the map cannot grow, which takes more than `MAX_NAMES` names.
#[verifier::external_body]
pub(crate) fn header_append_at(m: &mut Headers, from: &Headers, i: usize, k: usize)
    requires
        i < header_order(*from).len(),
        k < lines_of(header_lines(*from), header_order(*from)[i as int]).len(),
        has_room(header_lines(*old(m)), 0),
    ensures
        header_lines(*final(m)) == appended(
            header_lines(*old(m)),
            header_order(*from)[i as int],
            lines_of(header_lines(*from), header_order(*from)[i as int])[k as int],
        ),
{
    let key = from.keys().nth(i).unwrap();
    m.append(key.clone(), from.get_all(key).iter().nth(k).unwrap().clone());
}

/// `HeaderMap::insert` of a copy of the value at position `k` of the name at position `i` of
/// another map, under the same name: the name has this value afterwards and no other. The call
/// panics where the map cannot grow, which takes more than `MAX_NAMES` names.
#[verifier::external_body]
pub(crate) fn header_insert_at(m: &mut Headers, from: &Headers, i: usize, k: usize)
    requires
        i < header_order(*from).len(),
        k < lines_of(header_lines(*from), header_order(*from)[i as int]).len(),
        has_room(header_lines(*old(m)), 0),
    ensures
        header_lines(*final(m)) == header_lines(*old(m)).insert(
            header_order(*from)[i as int],
            seq![lines_of(header_lines(*from), header_order(*from)[i as int])[k as int]],
        ),
{
    let key = from.keys().nth(i).unwrap();
    m.insert(key.clone(), from.get_all(key).iter().nth(k).unwrap().clone());
}

/// `HeaderMap::remove`: the name is absent afterwards, with all its values.
#[verifier::external_body]
pub(crate) fn header_remove(m: &mut Headers, name: &str)
    requires
        is_stored_name(name@),
    ensures
        header_lines(*final(m)) == header_lines(*old(m)).remove(name@),
{
    let key = http::HeaderName::from_lowercase(name.as_bytes()).unwrap();
    m.remove(key);
}

/// A byte that reads as text: printable ASCII or a tab.
pub open spec fn is_text_byte(b: u8) -> bool {
    32 <= b < 127 || b == 9
}

/// A field value as text, where every byte of it reads as text.
pub open spec fn value_text(v: Seq<u8>) -> Option<Seq<char>> {
    if forall|i: int| 0 <= i < v.len() ==> #[trigger] is_text_byte(v[i]) {
        Some(Seq::new(v.len(), |i: int| v[i] as char))
    } else {
        None
    }
}

/// The first line of `name` as text, where the name is present and the line reads as text.
pub open spec fn first_text(m: Lines, name: Seq<char>) -> Option<Seq<char>> {
    match first_of(m, name) {
        Some(v) => value_text(v),
        None => None,
    }
}

/// The field value that a text makes, where it holds no control character but tabs.
pub open spec fn text_value(s: Seq<char>) -> Option<Seq<u8>> {
    if is_value(encode_utf8(s)) {
        Some(encode_utf8(s))
    } else {
        None
    }
}

/// The name that a text writes, in lower case, where the text is a token of acceptable length.
pub open spec fn header_name(s: Seq<char>) -> Option<Seq<char>> {
    if 1 <= s.len() <= 65535 && forall|i: int|
        0 <= i < s.len() ==> #[trigger] is_lower_token_char(lower_char(s[i])) {
        Some(lower(s))
    } else {
        None
    }
}

/// The bytes that an optional byte vector holds.
pub open spec fn opt_bytes(o: Option<Vec<u8>>) -> Option<Seq<u8>> {
    match o {
        Some(v) => Some(v@),
        None => None,
    }
}

/// A text of printable ASCII characters and tabs makes a field value that reads as that text.
pub proof fn lemma_text_value_reads_back(s: Seq<char>)
    requires
        forall|i: int| 0 <= i < s.len() ==> ' ' <= #[trigger] s[i] < '\u{7f}' || s[i] == '\t',
    ensures
        text_value(s) is Some,
        value_text(text_value(s)->0) == Some(s),
{
    assert(is_ascii_chars(s));
    is_ascii_chars_encode_utf8(s);
    let b = encode_utf8(s);
    assert forall|i: int| 0 <= i < b.len() implies #[trigger] is_value_byte(b[i]) && is_text_byte(
        b[i],
    ) by {
        assert(b[i] == s[i] as u8);
    }
    assert(value_text(b)->0 =~= s);
}

/// A name that a text writes has stored form.
pub proof fn lemma_header_name_is_stored(s: Seq<char>)
    ensures
        header_name(s) matches Some(n) ==> is_stored_name(n),
{
    if header_name(s) is Some {
        assert forall|i: int| 0 <= i < s.len() implies #[trigger] is_stored_name_char(
            lower(s)[i],
        ) by {
            assert(is_lower_token_char(lower_char(s[i])));
        }
    }
}

/// A field value as text.
pub fn text_of_value(v: &Vec<u8>) -> (r: Option<String>)
    ensures
        opt_text(r) == value_text(v@),
{
    let mut r: String = String::new();
    let mut i: usize = 0;
    while i < v.len()
        invariant
            i <= v@.len(),
            forall|j: int| 0 <= j < i ==> #[trigger] is_text_byte(v@[j]),
            r@ == Seq::new(i as nat, |j: int| v@[j] as char),
        decreases v.len() - i,
    {
        let b: u8 = v[i];
        if !((32 <= b && b < 127) || b == 9) {
            assert(!is_text_byte(v@[i as int]));
            return None;
        }
        r.push(b as char);
        assert(r@ =~= Seq::new((i + 1) as nat, |j: int| v@[j] as char));
        i = i + 1;
    }
    Some(r)
}

/// The field value that a text makes.
pub fn value_of_text(s: &str) -> (r: Option<Vec<u8>>)
    ensures
        opt_bytes(r) == text_value(s@),
{
    let b = s.as_bytes();
    let mut r: Vec<u8> = Vec::new();
    let mut i: usize = 0;
    while i < b.len()
        invariant
            i <= b@.len(),
            b@ == encode_utf8(s@),
            forall|j: int| 0 <= j < i ==> #[trigger] is_value_byte(b@[j]),
            r@ == b@.take(i as int),
        decreases b.len() - i,
    {
        let x: u8 = b[i];
        if !((x >= 32 && x != 127) || x == 9) {
            assert(!is_value_byte(b@[i as int]));
            return None;
        }
        r.push(x);
        i = i + 1;
    }
    assert(r@ =~= b@);
    Some(r)
}

/// Whether `c` is a character that a token may hold, in lower case.
fn lower_token_char(c: char) -> (r: bool)
    ensures
        r == is_lower_token_char(c),
{
    ('0' <= c && c <= '9') || ('a' <= c && c <= 'z') || c == '!' || c == '#' || c == '$' || c == '%'
        || c == '&' || c == '\'' || c == '*' || c == '+' || c == '-' || c == '.' || c == '^' || c
        == '_' || c == '`' || c == '|' || c == '~'
}

/// The name that a text writes.
pub fn parse_header_name(s: &str) -> (r: Option<String>)
    ensures
        opt_text(r) == header_name(s@),
{
    let v = chars_of(s);
    if v.len() == 0 || v.len() > 65535 {
        return None;
    }
    let mut r: String = String::new();
    let mut i: usize = 0;
    while i < v.len()
        invariant
            i <= v@.len(),
            1 <= v@.len() <= 65535,
            v@ == s@,
            forall|j: int| 0 <= j < i ==> #[trigger] is_lower_token_char(lower_char(s@[j])),
            r@ == lower(s@.take(i as int)),
        decreases v.len() - i,
    {
        let c = to_lower(v[i]);
        if !lower_token_char(c) {
            assert(!is_lower_token_char(lower_char(s@[i as int])));
            return None;
        }
        r.push(c);
        assert(r@ =~= lower(s@.take(i + 1)));
        i = i + 1;
    }
    assert(s@.take(s@.len() as int) =~= s@);
    Some(r)
}

/// The first line of `name`, if the name is present.
pub fn header_first(m: &Headers, name: &str) -> (r: Option<Vec<u8>>)
    requires
        is_stored_name(name@),
    ensures
        opt_bytes(r) == first_of(header_lines(*m), name@),
{
    let mut all = header_values(m, name);
    let ghost lines = byte_lists(all@);
    if all.len() == 0 {
        None
    } else {
        assert(lines[0] == all@[0]@);
        Some(all.swap_remove(0))
    }
}

/// The first line of `name` as text, where the name is present and the line reads as text.
pub fn header_first_text(m: &Headers, name: &str) -> (r: Option<String>)
    requires
        is_stored_name(name@),
    ensures
        opt_text(r) == first_text(header_lines(*m), name@),
{
    match header_first(m, name) {
        Some(v) => text_of_value(&v),
        None => None,
    }
}

/// Whether the name is present.
pub fn header_present(m: &Headers, name: &str) -> (r: bool)
    requires
        is_stored_name(name@),
    ensures
        r == header_lines(*m).contains_key(name@),
        r == (lines_of(header_lines(*m), name@).len() > 0),
{
    let all = header_values(m, name);
    assert(byte_lists(all@).len() == all@.len());
    all.len() > 0
}

/// Whether `names` holds `name`.
pub fn holds_name(names: &Vec<String>, name: &str) -> (r: bool)
    ensures
        r == texts(names@).contains(name@),
{
    let mut i: usize = 0;
    while i < names.len()
        invariant
            i <= names@.len(),
            forall|j: int| 0 <= j < i ==> #[trigger] texts(names@)[j] != name@,
        decreases names.len() - i,
    {
        assert(texts(names@)[i as int] == names@[i as int]@);
        if same_text(names[i].as_str(), name) {
            return true;
        }
        i = i + 1;
    }
    false
}

/// One more element of a sequence is one more element of the set of its elements.
pub proof fn lemma_take_set<A>(s: Seq<A>, i: int)
    requires
        0 <= i < s.len(),
    ensures
        s.take(i + 1).to_set() == s.take(i).to_set().insert(s[i]),
{
    let more = s.take(i + 1);
    assert(more[i] == s[i]);
    assert forall|x: A| more.contains(x) implies s.take(i).contains(x) || x == s[i] by {
        let j = choose|j: int| 0 <= j < more.len() && more[j] == x;
        if j < i {
            assert(s.take(i)[j] == x);
        }
    }
    assert forall|x: A| s.take(i).contains(x) implies more.contains(x) by {
        let j = choose|j: int| 0 <= j < i && s.take(i)[j] == x;
        assert(more[j] == x);
    }
    assert(more.to_set() =~= s.take(i).to_set().insert(s[i]));
}

/// One more element at the end of a sequence.
pub proof fn lemma_contains_push<A>(s: Seq<A>, x: A, n: A)
    ensures
        s.push(x).contains(n) <==> s.contains(n) || n == x,
{
    let t = s.push(x);
    if s.contains(n) {
        let j = choose|j: int| 0 <= j < s.len() && s[j] == n;
        assert(t[j] == n);
    }
    assert(t[s.len() as int] == x);
    if t.contains(n) {
        let j = choose|j: int| 0 <= j < t.len() && t[j] == n;
        if j < s.len() {
            assert(s[j] == n);
        }
    }
}

/// Appends to `m` all the lines that the name at position `i` has in `from`.
fn copy_lines(m: &mut Headers, from: &Headers, i: usize)
    requires
        i < header_order(*from).len(),
        !header_lines(*old(m)).contains_key(header_order(*from)[i as int]),
        header_lines(*from).contains_key(header_order(*from)[i as int]),
        has_room(header_lines(*old(m)), 1),
    ensures
        header_lines(*final(m)) == header_lines(*old(m)).insert(
            header_order(*from)[i as int],
            header_lines(*from)[header_order(*from)[i as int]],
        ),
{
    let ghost before = header_lines(*m);
    let ghost name = header_order(*from)[i as int];
    let ghost lines = header_lines(*from)[name];
    let count: usize = header_count_at(from, i);
    header_append_at(m, from, i, 0);
    assert(lines_of(before, name).push(lines[0]) =~= lines.take(1));
    let mut k: usize = 1;
    while k < count
        invariant
            1 <= k <= count == lines.len(),
            i < header_order(*from).len(),
            name == header_order(*from)[i as int],
            has_room(before, 1),
            header_lines(*from).contains_key(name),
            lines == header_lines(*from)[name],
            header_lines(*m) == before.insert(name, lines.take(k as int)),
        decreases count - k,
    {
        header_append_at(m, from, i, k);
        assert(lines.take(k as int).push(lines[k as int]) =~= lines.take(k + 1));
        assert(before.insert(name, lines.take(k as int)).insert(name, lines.take(k + 1))
            =~= before.insert(name, lines.take(k + 1)));
        k = k + 1;
    }
    assert(lines.take(lines.len() as int) =~= lines);
}

/// A copy of `from` without the names in `skip`.
pub fn copy_without(from: &Headers, skip: &Vec<String>) -> (r: Headers)
    requires
        has_room(header_lines(*from), 0),
    ensures
        header_lines(r) == header_lines(*from).remove_keys(texts(skip@).to_set()),
        header_lines(r).dom().finite(),
        header_lines(r).dom().len() <= header_lines(*from).dom().len(),
{
    let ghost source = header_lines(*from);
    let ghost left_out = texts(skip@).to_set();
    let names = header_names(from);
    let ghost all = texts(names@);
    let mut r = header_map_new();
    let mut i: usize = 0;
    assert(header_lines(r) =~= source.restrict(all.take(0).to_set()).remove_keys(left_out));
    while i < names.len()
        invariant
            i <= names@.len(),
            all == texts(names@),
            source == header_lines(*from),
            left_out == texts(skip@).to_set(),
            lists_names(all, source),
            all == header_order(*from),
            has_room(source, 0),
            header_lines(r) == source.restrict(all.take(i as int).to_set()).remove_keys(left_out),
        decreases names.len() - i,
    {
        let name = names[i].as_str();
        let ghost n = name@;
        proof {
            assert(all[i as int] == n);
            assert(all.to_set().contains(n));
            assert(source.contains_key(n));
            lemma_take_set(all, i as int);
            assert(!all.take(i as int).contains(n));
        }
        if !holds_name(skip, name) {
            proof {
                let have = header_lines(r).dom();
                assert(have.insert(n).subset_of(source.dom()));
                vstd::set_lib::lemma_len_subset(have.insert(n), source.dom());
                vstd::set_lib::lemma_set_subset_finite(source.dom(), have);
            }
            copy_lines(&mut r, from, i);
            assert(left_out.contains(n) == texts(skip@).contains(n));
            assert(header_lines(r) =~= source.restrict(all.take(i + 1).to_set()).remove_keys(
                left_out,
            ));
        } else {
            assert(left_out.contains(n));
            assert(header_lines(r) =~= source.restrict(all.take(i + 1).to_set()).remove_keys(
                left_out,
            ));
        }
        i = i + 1;
    }
    assert(all.take(all.len() as int) =~= all);
    assert(header_lines(r) =~= source.remove_keys(left_out));
    proof {
        vstd::set_lib::lemma_len_subset(header_lines(r).dom(), source.dom());
    }
    r
}

/// Removes every name in `names`.
pub fn remove_names(m: &mut Headers, names: &Vec<String>)
    requires
        forall|i: int| 0 <= i < names@.len() ==> is_stored_name(#[trigger] names@[i]@),
    ensures
        header_lines(*final(m)) == header_lines(*old(m)).remove_keys(texts(names@).to_set()),
{
    let ghost before = header_lines(*m);
    let ghost all = texts(names@);
    let mut i: usize = 0;
    assert(header_lines(*m) =~= before.remove_keys(all.take(0).to_set()));
    while i < names.len()
        invariant
            i <= names@.len(),
            all == texts(names@),
            forall|i: int| 0 <= i < names@.len() ==> is_stored_name(#[trigger] names@[i]@),
            header_lines(*m) == before.remove_keys(all.take(i as int).to_set()),
        decreases names.len() - i,
    {
        header_remove(m, names[i].as_str());
        proof {
            lemma_take_set(all, i as int);
            assert(all[i as int] == names@[i as int]@);
            assert(header_lines(*m) =~= before.remove_keys(all.take(i + 1).to_set()));
        }
        i = i + 1;
    }
    assert(all.take(all.len() as int) =~= all);
}

/// The lines that read as text, in order.
pub open spec fn readable(lines: Seq<Seq<u8>>) -> Seq<Seq<char>>
    decreases lines.len(),
{
    if lines.len() == 0 {
        Seq::empty()
    } else {
        match value_text(lines.last()) {
            Some(t) => readable(lines.drop_last()).push(t),
            None => readable(lines.drop_last()),
        }
    }
}

/// The lines of `name` that read as text, in order.
pub fn header_texts(m: &Headers, name: &str) -> (r: Vec<String>)
    requires
        is_stored_name(name@),
    ensures
        texts(r@) == readable(lines_of(header_lines(*m), name@)),
{
    let all = header_values(m, name);
    let ghost lines = byte_lists(all@);
    let mut r: Vec<String> = Vec::new();
    let mut i: usize = 0;
    assert(texts(r@) =~= readable(lines.take(0)));
    while i < all.len()
        invariant
            i <= all@.len(),
            lines == byte_lists(all@),
            texts(r@) == readable(lines.take(i as int)),
        decreases all.len() - i,
    {
        let ghost so_far = r@;
        proof {
            assert(lines.take(i + 1).drop_last() =~= lines.take(i as int));
            assert(lines.take(i + 1).last() == all@[i as int]@);
        }
        if let Some(t) = text_of_value(&all[i]) {
            r.push(t);
            assert(texts(r@) =~= texts(so_far).push(t@));
        }
        i = i + 1;
    }
    assert(lines.take(lines.len() as int) =~= lines);
    r
}

/// `m` where the list that `name` writes has one more element: the lines that read as text, then
/// the element, with commas between them, in one line. Where that is no field value, `m` stays
/// as it is.
pub open spec fn with_element(m: Lines, name: Seq<char>, element: Seq<char>) -> Lines {
    match text_value(join(readable(lines_of(m, name)).push(element), ", "@)) {
        Some(v) => m.insert(name, seq![v]),
        None => m,
    }
}

/// Puts one more element at the end of the list that `name` writes.
pub fn append_element(m: &mut Headers, name: &str, element: &str)
    requires
        is_stored_name(name@),
        has_room(header_lines(*old(m)), 0),
    ensures
        header_lines(*final(m)) == with_element(header_lines(*old(m)), name@, element@),
{
    let mut elements = header_texts(m, name);
    let ghost existing = elements@;
    elements.push(element.to_owned());
    assert(texts(elements@) =~= texts(existing).push(element@));
    let combined = joined(&elements, ", ");
    if let Some(v) = value_of_text(combined.as_str()) {
        header_insert(m, name, &v);
    }
}

/// Whether a header map is small enough to take `extra` more names.
pub fn room_for(m: &Headers, extra: usize) -> (r: bool)
    ensures
        r == has_room(header_lines(*m), extra as int),
{
    header_name_count(m) <= MAX_NAMES && extra <= MAX_NAMES - header_name_count(m)
}

/// Whether a header map is small enough to take as many names as `other` has, and `extra` more.
pub fn room_for_all(m: &Headers, other: &Headers, extra: usize) -> (r: bool)
    ensures
        r == has_room(header_lines(*m), header_lines(*other).dom().len() as int + extra),
{
    let names: usize = header_name_count(other);
    names <= MAX_NAMES && extra <= MAX_NAMES - names && room_for(m, names + extra)
}

} // verus!
