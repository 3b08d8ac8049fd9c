//! What holds of every header line, name and value.
use crate::forward_laws::{
    is_printable, lemma_element_reads, lemma_join_is_printable, lemma_readable_is_printable,
};
use crate::headers::{
    first_of, first_text, header_name, is_lower_token_char, is_text_byte, is_value, is_value_byte,
    lines_of, readable, text_value, value_text, with_element, Lines,
};
use crate::proxy::{host_to_send, HostBehaviour};
use crate::text::{join, lower, lower_char};
use crate::text_laws::law_join;
use vstd::prelude::*;
use vstd::utf8::{encode_utf8, is_ascii_chars, is_ascii_chars_encode_utf8};

verus! {

/// A character that a header name may hold: an ASCII letter or digit, or one of fifteen signs.
pub open spec fn is_name_char(c: char) -> bool {
    ||| 'a' <= c <= 'z'
    ||| 'A' <= c <= 'Z'
    ||| '0' <= c <= '9'
    ||| "!#$%&'*+-.^_`|~"@.contains(c)
}

/// A value reads as text where each of its bytes is printable ASCII or a tab, and each character
/// is that byte.
pub proof fn law_value_reads_as_text(v: Seq<u8>)
    ensures
        value_text(v) is Some <==> forall|i: int|
            0 <= i < v.len() ==> #[trigger] v[i] == 9 || (v[i] >= 32 && v[i] <= 126),
        value_text(v) matches Some(t) ==> t.len() == v.len() && forall|i: int|
            0 <= i < v.len() ==> #[trigger] t[i] as u32 == v[i],
{
    if forall|i: int| 0 <= i < v.len() ==> #[trigger] v[i] == 9 || (v[i] >= 32 && v[i] <= 126) {
        assert forall|i: int| 0 <= i < v.len() implies #[trigger] is_text_byte(v[i]) by {}
    }
    if value_text(v) is Some {
        assert forall|i: int| 0 <= i < v.len() implies #[trigger] v[i] == 9 || (v[i] >= 32 && v[i]
            <= 126) by {
            assert(is_text_byte(v[i]));
        }
    }
}

/// A text makes a field value of its UTF-8 bytes, unless one of them is a control character other
/// than tab.
pub proof fn law_text_makes_a_value(s: Seq<char>)
    ensures
        (exists|i: int|
            0 <= i < encode_utf8(s).len() && ((#[trigger] encode_utf8(s)[i]) < 32 || encode_utf8(
                s,
            )[i] == 127) && encode_utf8(s)[i] != 9) <==> text_value(s) is None,
        text_value(s) matches Some(b) ==> b == encode_utf8(s),
{
    let b = encode_utf8(s);
    if text_value(s) is None {
        let i = choose|i: int| 0 <= i < b.len() && !is_value_byte(#[trigger] b[i]);
        assert(b[i] < 32 || b[i] == 127);
    } else {
        assert forall|i: int| 0 <= i < b.len() implies !(((#[trigger] b[i]) < 32 || b[i] == 127)
            && b[i] != 9) by {
            assert(is_value_byte(b[i]));
        }
    }
}

/// A text is a header name where it has between one and 65535 characters that a name may hold;
/// the name is its lower case.
pub proof fn law_header_names(s: Seq<char>, i: int)
    ensures
        1 <= s.len() <= 65535 && (forall|j: int|
            0 <= j < s.len() ==> is_name_char(#[trigger] s[j])) ==> header_name(s) == Some(lower(s)),
        s.len() == 0 || s.len() > 65535 ==> header_name(s) is None,
        0 <= i < s.len() && !is_name_char(s[i]) ==> header_name(s) is None,
{
    reveal_strlit("!#$%&'*+-.^_`|~");
    let signs = "!#$%&'*+-.^_`|~"@;
    assert(signs.len() == 15);
    assert forall|c: char| #[trigger] is_name_char(c) == is_lower_token_char(lower_char(c)) by {
        if signs.contains(c) {
            let k = choose|k: int| 0 <= k < signs.len() && signs[k] == c;
            assert(0 <= k < 15);
        }
        assert(signs[0] == '!' && signs[1] == '#' && signs[2] == '$' && signs[3] == '%' && signs[4]
            == '&' && signs[5] == '\'' && signs[6] == '*' && signs[7] == '+' && signs[8] == '-'
            && signs[9] == '.' && signs[10] == '^' && signs[11] == '_' && signs[12] == '`'
            && signs[13] == '|' && signs[14] == '~');
    }
    if 1 <= s.len() <= 65535 && (forall|j: int|
        0 <= j < s.len() ==> is_name_char(#[trigger] s[j])) {
        assert forall|j: int| 0 <= j < s.len() implies #[trigger] is_lower_token_char(
            lower_char(s[j]),
        ) by {
            assert(is_name_char(s[j]));
        }
    }
    if 0 <= i < s.len() && !is_name_char(s[i]) {
        assert(!is_lower_token_char(lower_char(s[i])));
    }
}

/// The first line of a name is the one at the front of its lines, and a name that is absent has
/// none.
pub proof fn law_first_line(m: Lines, name: Seq<char>, line: Seq<u8>, others: Seq<Seq<u8>>)
    ensures
        first_of(m.insert(name, seq![line] + others), name) == Some(line),
        first_text(m.insert(name, seq![line] + others), name) == value_text(line),
        lines_of(m.insert(name, seq![line] + others), name) == seq![line] + others,
        first_of(m.remove(name), name) is None,
        first_text(m.remove(name), name) is None,
        lines_of(m.remove(name), name) == Seq::<Seq<u8>>::empty(),
{
    let lines = seq![line] + others;
    assert(lines[0] == line);
}

/// Of some lines those are read that read as text, in order, each as its text.
pub proof fn law_readable_lines(a: Seq<Seq<u8>>, b: Seq<Seq<u8>>, line: Seq<u8>)
    ensures
        readable(a + b) == readable(a) + readable(b),
        value_text(line) matches Some(t) ==> readable(seq![line]) == seq![t],
        value_text(line) is None ==> readable(seq![line]) == Seq::<Seq<char>>::empty(),
    decreases b.len(),
{
    let one = seq![line];
    assert(one.drop_last() =~= Seq::<Seq<u8>>::empty());
    assert(readable(one.drop_last()) =~= Seq::<Seq<char>>::empty());
    assert(value_text(line) matches Some(t) ==> readable(one) =~= seq![t]);
    if b.len() == 0 {
        assert(a + b =~= a);
        assert(readable(a + b) =~= readable(a) + readable(b));
    } else {
        law_readable_lines(a, b.drop_last(), line);
        assert((a + b).drop_last() =~= a + b.drop_last());
        assert(readable(a + b) =~= readable(a) + readable(b));
    }
}

/// An element is put at the end of the list that a name writes: where all is printable, the name
/// has one line afterwards, in which the elements that could be read stand with a comma and a
/// space between them, and the new one behind them. Every other name keeps its lines.
pub proof fn law_element_goes_to_the_end(
    m: Lines,
    name: Seq<char>,
    element: Seq<char>,
    other: Seq<char>,
)
    requires
        is_printable(element),
    ensures
        ({
            let after = with_element(m, name, element);
            let had = readable(lines_of(m, name));
            &&& lines_of(after, name).len() == 1
            &&& had.len() == 0 ==> first_text(after, name) == Some(element)
            &&& had.len() > 0 ==> first_text(after, name) == Some(
                join(had, seq![',', ' ']) + seq![',', ' '] + element,
            )
            &&& other != name ==> lines_of(after, other) == lines_of(m, other)
            &&& other != name ==> (after.contains_key(other) <==> m.contains_key(other))
        }),
{
    lemma_element_reads(m, name, element);
    reveal_strlit(", ");
    assert(", "@ =~= seq![',', ' ']);
    let had = readable(lines_of(m, name));
    law_join(had, seq![element], element, seq![',', ' ']);
    assert(had.push(element) =~= had + seq![element]);
    if had.len() == 0 {
        assert(had.push(element) =~= seq![element]);
    }
}

/// An element with a control character in it changes nothing.
pub proof fn law_unprintable_element_is_left_out(
    m: Lines,
    name: Seq<char>,
    element: Seq<char>,
    i: int,
)
    requires
        is_ascii_chars(element),
        0 <= i < element.len(),
        element[i] < ' ' || element[i] == '\u{7f}',
        element[i] != '\t',
    ensures
        with_element(m, name, element) == m,
{
    reveal_strlit(", ");
    assert(", "@ =~= seq![',', ' ']);
    let had = readable(lines_of(m, name));
    let all = join(had.push(element), ", "@);
    lemma_readable_is_printable(lines_of(m, name));
    lemma_join_is_printable(had, ", "@);
    law_join(had, seq![element], element, seq![',', ' ']);
    assert(had.push(element) =~= had + seq![element]);
    let front = if had.len() == 0 {
        assert(had.push(element) =~= seq![element]);
        Seq::empty()
    } else {
        join(had, ", "@) + ", "@
    };
    assert(all =~= front + element);
    assert forall|k: int| 0 <= k < all.len() implies (#[trigger] all[k]) as u32 <= 127 by {
        if k < front.len() {
            if k < front.len() - 2 {
                assert(front[k] == join(had, ", "@)[k]);
            }
            assert(all[k] == front[k]);
        } else {
            assert(all[k] == element[k - front.len()]);
        }
    }
    assert(is_ascii_chars(all));
    is_ascii_chars_encode_utf8(all);
    let at = front.len() + i;
    assert(all[at] == element[i]);
    assert(!is_value_byte(encode_utf8(all)[at]));
    assert(!is_value(encode_utf8(all)));
}

/// The host that goes upstream: the upstream's own, unless the client's is preserved; then the
/// text of the client's first `Host` line, or else the authority of the client's URI, or else the
/// upstream's own.
pub proof fn law_host_to_send(
    client: Lines,
    line: Seq<u8>,
    others: Seq<Seq<u8>>,
    text: Seq<char>,
    authority: Seq<char>,
    client_authority: Option<Seq<char>>,
    upstream: Seq<char>,
)
    ensures
        host_to_send(HostBehaviour::Replace, client, client_authority, upstream) == upstream,
        value_text(line) == Some(text) ==> host_to_send(
            HostBehaviour::Preserve,
            client.insert("host"@, seq![line] + others),
            client_authority,
            upstream,
        ) == text,
        value_text(line) is None ==> host_to_send(
            HostBehaviour::Preserve,
            client.insert("host"@, seq![line] + others),
            Some(authority),
            upstream,
        ) == authority,
        value_text(line) is None ==> host_to_send(
            HostBehaviour::Preserve,
            client.insert("host"@, seq![line] + others),
            None,
            upstream,
        ) == upstream,
        host_to_send(
            HostBehaviour::Preserve,
            client.remove("host"@),
            Some(authority),
            upstream,
        ) == authority,
        host_to_send(HostBehaviour::Preserve, client.remove("host"@), None, upstream) == upstream,
{
    law_first_line(client, "host"@, line, others);
}

/// The text of a list that got one more element: the elements that could be read with a comma and a
/// space between them, and the new one behind them.
pub open spec fn list_text(had: Seq<Seq<char>>, element: Seq<char>) -> Seq<char> {
    if had.len() == 0 {
        element
    } else {
        join(had, seq![',', ' ']) + seq![',', ' '] + element
    }
}

/// Whatever the element holds, the name has that list as its only line where it makes a field
/// value, and keeps its lines where it does not. Every other name keeps its lines.
pub proof fn law_element_text(m: Lines, name: Seq<char>, element: Seq<char>, other: Seq<char>)
    ensures
        ({
            let after = with_element(m, name, element);
            let value = text_value(list_text(readable(lines_of(m, name)), element));
            &&& value matches Some(v) ==> lines_of(after, name) == seq![v]
            &&& value is None ==> after == m
            &&& other != name ==> lines_of(after, other) == lines_of(m, other)
            &&& other != name ==> (after.contains_key(other) <==> m.contains_key(other))
        }),
{
    reveal_strlit(", ");
    assert(", "@ =~= seq![',', ' ']);
    let had = readable(lines_of(m, name));
    law_join(had, seq![element], element, seq![',', ' ']);
    assert(had.push(element) =~= had + seq![element]);
    if had.len() == 0 {
        assert(had.push(element) =~= seq![element]);
    }
}

} // verus!
