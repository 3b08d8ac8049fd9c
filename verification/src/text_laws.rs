//! What holds of every text that is searched, cut, joined or read as a number.
use crate::path_laws::lemma_split_behind;
use crate::text::{
    after, all_digits, before, behind_last, decimal, digits_value, find, is_digit, is_space, join,
    lemma_behind_last_is, lemma_decimal_is_a_number, lemma_find, lemma_find_is,
    lemma_trim_end_matches_take, lemma_trim_end_take, lemma_trim_start_matches_skip,
    lemma_trim_start_skip, lemma_word_len, lower, number, split, trim, trim_end_matches, trim_start,
    trim_start_matches, without_plus, word_len, words,
};
use vstd::prelude::*;

verus! {

/// `n` times the same character.
pub open spec fn run_of(c: char, n: nat) -> Seq<char> {
    Seq::new(n, |i: int| c)
}

/// Whether a text is white space throughout.
pub open spec fn is_blank(s: Seq<char>) -> bool {
    forall|i: int| 0 <= i < s.len() ==> is_space(#[trigger] s[i])
}

/// Whether a text holds no white space.
pub open spec fn is_solid(s: Seq<char>) -> bool {
    forall|i: int| 0 <= i < s.len() ==> !is_space(#[trigger] s[i])
}

/// A text is cut at the first occurrence of a character: what is in front of it does not hold
/// the character, and what is behind it is free.
pub proof fn law_first_occurrence(p: Seq<char>, c: char, q: Seq<char>)
    requires
        !p.contains(c),
    ensures
        find(p.push(c) + q, c) == p.len(),
        before(p.push(c) + q, c) == p,
        after(p.push(c) + q, c) == Some(q),
        find(p, c) == p.len(),
        before(p, c) == p,
        after(p, c) is None,
{
    lemma_split_behind(p, c, q);
    let s = p.push(c) + q;
    assert forall|j: int| 0 <= j < p.len() implies s[j] != c && p[j] != c by {
        assert(p.contains(p[j]));
    }
    lemma_find_is(s, c, p.len() as int);
    lemma_find_is(p, c, p.len() as int);
}

/// The position behind the last occurrence of a character, zero where there is none.
pub proof fn law_last_occurrence(p: Seq<char>, c: char, q: Seq<char>)
    requires
        !q.contains(c),
    ensures
        behind_last(p.push(c) + q, c) == p.len() + 1,
        behind_last(q, c) == 0,
{
    let s = p.push(c) + q;
    assert forall|j: int| p.len() + 1 <= j < s.len() implies s[j] != c by {
        assert(q.contains(q[j - p.len() - 1]));
    }
    lemma_behind_last_is(s, c, p.len() as int + 1);
    assert forall|j: int| 0 <= j < q.len() implies q[j] != c by {
        assert(q.contains(q[j]));
    }
    lemma_behind_last_is(q, c, 0);
}

/// Texts are joined in order, with the separator between two neighbours and nowhere else.
pub proof fn law_join(a: Seq<Seq<char>>, b: Seq<Seq<char>>, x: Seq<char>, sep: Seq<char>)
    ensures
        join(Seq::empty(), sep) == Seq::<char>::empty(),
        join(seq![x], sep) == x,
        a.len() > 0 && b.len() > 0 ==> join(a + b, sep) == join(a, sep) + sep + join(b, sep),
    decreases b.len(),
{
    if a.len() > 0 && b.len() > 0 {
        assert((a + b).drop_last() =~= a + b.drop_last());
        if b.len() == 1 {
            assert(a + b.drop_last() =~= a);
        } else {
            law_join(a, b.drop_last(), x, sep);
            assert(join(a + b, sep) =~= join(a, sep) + sep + join(b, sep));
        }
    }
}

/// The pieces of a text, put together again with the character at which it was cut, are the
/// text; and no piece holds that character.
pub proof fn law_pieces_make_the_text(s: Seq<char>, c: char)
    ensures
        split(s, c).len() > 0,
        join(split(s, c), seq![c]) == s,
        forall|i: int| 0 <= i < split(s, c).len() ==> !(#[trigger] split(s, c)[i]).contains(c),
    decreases s.len(),
{
    lemma_find(s, c);
    let k = find(s, c);
    let pieces = split(s, c);
    if k < s.len() {
        let rest = s.skip(k + 1);
        law_pieces_make_the_text(rest, c);
        let head = seq![before(s, c)];
        law_join(head, split(rest, c), before(s, c), seq![c]);
        assert(s =~= before(s, c) + seq![c] + rest);
        assert forall|i: int| 0 <= i < pieces.len() implies !(#[trigger] pieces[i]).contains(c) by {
            if i > 0 {
                assert(pieces[i] == split(rest, c)[i - 1]);
            } else if pieces[0].contains(c) {
                let j = choose|j: int| 0 <= j < pieces[0].len() && pieces[0][j] == c;
                assert(s[j] == c);
            }
        }
    } else {
        assert(pieces =~= seq![s]);
        if s.contains(c) {
            let j = choose|j: int| 0 <= j < s.len() && s[j] == c;
            assert(s[j] == c);
        }
    }
}

/// What stands between two separators, or between one and an end of the text, is a piece.
pub proof fn law_what_is_between_is_a_piece(a: Seq<char>, x: Seq<char>, b: Seq<char>, c: char)
    requires
        !x.contains(c),
    ensures
        split(x, c) == seq![x],
        split(x.push(c) + b, c) == seq![x] + split(b, c),
        split(a.push(c) + x, c) == split(a, c) + seq![x],
        split(a.push(c) + b, c) == split(a, c) + split(b, c),
    decreases a.len(),
{
    law_first_occurrence(x, c, b);
    assert((x.push(c) + b).skip(x.len() as int + 1) =~= b);
    lemma_find(a, c);
    let s = a.push(c) + x;
    let t = a.push(c) + b;
    let k = find(a, c);
    if k < a.len() {
        let less = a.skip(k + 1);
        law_what_is_between_is_a_piece(less, x, b, c);
        lemma_find_is(s, c, k);
        lemma_find_is(t, c, k);
        assert(s.skip(k + 1) =~= less.push(c) + x);
        assert(t.skip(k + 1) =~= less.push(c) + b);
        assert(s.take(k) =~= a.take(k));
        assert(t.take(k) =~= a.take(k));
        assert(split(s, c) =~= split(a, c) + seq![x]);
        assert(split(t, c) =~= split(a, c) + split(b, c));
    } else {
        assert(!a.contains(c));
        law_first_occurrence(a, c, x);
        law_first_occurrence(a, c, b);
        assert(s.skip(a.len() as int + 1) =~= x);
        assert(t.skip(a.len() as int + 1) =~= b);
        assert(split(a, c) == seq![a]);
    }
}

/// Trimming takes off the white space at both ends, all of it and nothing else.
pub proof fn law_trim(a: Seq<char>, t: Seq<char>, b: Seq<char>)
    requires
        is_blank(a),
        is_blank(b),
        t.len() > 0 ==> !is_space(t[0]) && !is_space(t.last()),
    ensures
        trim(a + t + b) == t,
{
    let s = a + t + b;
    if t.len() > 0 {
        assert(s[a.len() as int] == t[0]);
        lemma_trim_start_skip(s, a.len() as int);
        let u = s.skip(a.len() as int);
        assert(u =~= t + b);
        assert(u[t.len() - 1] == t.last());
        lemma_trim_end_take(u, t.len() as int);
        assert(u.take(t.len() as int) =~= t);
    } else {
        assert forall|j: int| 0 <= j < s.len() implies is_space(#[trigger] s[j]) by {
            if j < a.len() {
                assert(s[j] == a[j]);
            } else {
                assert(s[j] == b[j - a.len()]);
            }
        }
        lemma_trim_start_skip(s, s.len() as int);
        assert(s.skip(s.len() as int) =~= t);
        assert(trim_start(s) =~= t);
    }
}

/// Trimming a character takes off every occurrence of it at that end, and nothing else.
pub proof fn law_trim_matches(t: Seq<char>, c: char, n: nat)
    ensures
        t.len() > 0 && t.last() != c ==> trim_end_matches(t + run_of(c, n), c) == t,
        t.len() > 0 && t[0] != c ==> trim_start_matches(run_of(c, n) + t, c) == t,
        trim_end_matches(run_of(c, n), c) == Seq::<char>::empty(),
        trim_start_matches(run_of(c, n), c) == Seq::<char>::empty(),
{
    let r = run_of(c, n);
    if t.len() > 0 && t.last() != c {
        lemma_trim_end_matches_take(t + r, c, t.len() as int);
        assert((t + r).take(t.len() as int) =~= t);
    }
    if t.len() > 0 && t[0] != c {
        lemma_trim_start_matches_skip(r + t, c, n as int);
        assert((r + t).skip(n as int) =~= t);
    }
    lemma_trim_end_matches_take(r, c, 0);
    assert(r.take(0) =~= Seq::<char>::empty());
    lemma_trim_start_matches_skip(r, c, n as int);
    assert(r.skip(n as int) =~= Seq::<char>::empty());
}

/// The first word of a text is what comes behind the white space in front and goes up to the next
/// white space; the other words are those of the rest. White space alone has no words.
pub proof fn law_words(blank: Seq<char>, word: Seq<char>, rest: Seq<char>)
    requires
        is_blank(blank),
        is_solid(word),
        word.len() > 0,
        rest.len() > 0 ==> is_space(rest[0]),
    ensures
        words(blank) == Seq::<Seq<char>>::empty(),
        words(blank + word + rest) == seq![word] + words(rest),
{
    lemma_trim_start_skip(blank, blank.len() as int);
    assert(blank.skip(blank.len() as int) =~= Seq::<char>::empty());
    let s = blank + word + rest;
    assert(s[blank.len() as int] == word[0]);
    lemma_trim_start_skip(s, blank.len() as int);
    let t = s.skip(blank.len() as int);
    assert(t =~= word + rest);
    lemma_word_len(t);
    if word_len(t) < word.len() {
        assert(t[word_len(t)] == word[word_len(t)]);
    } else if word_len(t) > word.len() {
        assert(t[word.len() as int] == rest[0]);
    }
    assert(t.take(word.len() as int) =~= word);
    assert(t.skip(word.len() as int) =~= rest);
}

/// Of the ASCII characters, space and the controls from tab to carriage return are white space; of
/// the others, those that Unicode counts as such.
pub proof fn law_white_space(c: char)
    ensures
        c < '\u{80}' ==> (is_space(c) <==> c == ' ' || c == '\t' || c == '\n' || c == '\u{b}' || c
            == '\u{c}' || c == '\r'),
        c >= '\u{80}' ==> (is_space(c) <==> c == '\u{85}' || c == '\u{a0}' || c == '\u{1680}' || (
        '\u{2000}' <= c && c <= '\u{200a}') || c == '\u{2028}' || c == '\u{2029}' || c == '\u{202f}'
            || c == '\u{205f}' || c == '\u{3000}'),
{
}

/// Lower case changes the letters from A to Z, each to the letter 32 places further on, and
/// nothing else.
pub proof fn law_lower(s: Seq<char>, i: int)
    requires
        0 <= i < s.len(),
    ensures
        lower(s).len() == s.len(),
        'A' <= s[i] <= 'Z' ==> lower(s)[i] as u32 == s[i] as u32 + 32,
        !('A' <= s[i] <= 'Z') ==> lower(s)[i] == s[i],
        lower(lower(s)) == lower(s),
{
    assert(lower(lower(s)) =~= lower(s));
}

/// One more digit makes the number ten times as large and adds the digit; a plus sign in front
/// changes nothing.
pub proof fn law_number(s: Seq<char>, d: char, max: nat)
    requires
        s.len() > 0 ==> s[0] != '+',
        '0' <= d <= '9',
    ensures
        number(seq![d], 9) == Some((d as u32 - '0' as u32) as nat),
        number(seq!['+'] + s, max) == number(s, max),
        s.len() > 0 ==> number(s.push(d), max) == match number(s, max) {
            Some(n) => if n * 10 + (d as u32 - '0' as u32) <= max {
                Some((n * 10 + (d as u32 - '0' as u32)) as nat)
            } else {
                None
            },
            None => None,
        },
{
    let one = seq![d];
    assert(one.drop_last() =~= Seq::<char>::empty());
    assert(digits_value(one.drop_last()) == 0);
    assert(all_digits(one));
    assert((seq!['+'] + s).skip(1) =~= s);
    if s.len() > 0 {
        let t = s.push(d);
        assert(t[0] == s[0]);
        assert(t.drop_last() =~= s);
        assert(without_plus(t) == t);
        assert(without_plus(s) == s);
        if all_digits(t) {
            assert forall|i: int| 0 <= i < s.len() implies is_digit(#[trigger] s[i]) by {
                assert(is_digit(t[i]));
            }
        }
        if all_digits(s) {
            assert forall|i: int| 0 <= i < t.len() implies is_digit(#[trigger] t[i]) by {
                if i < s.len() {
                    assert(is_digit(s[i]));
                }
            }
        }
    }
}

/// A text that holds anything but digits behind an optional plus sign writes no number, nor does
/// one without digits.
pub proof fn law_only_digits_make_a_number(s: Seq<char>, i: int, max: nat)
    requires
        s.len() == 0 || s == seq!['+'] || (0 <= i < s.len() && !('0' <= s[i] <= '9') && (i > 0
            || s[i] != '+')),
    ensures
        number(s, max) is None,
{
    let d = without_plus(s);
    if s.len() > 0 && s != seq!['+'] {
        if s[0] == '+' {
            assert(d[i - 1] == s[i]);
        } else {
            assert(!is_digit(d[i]));
        }
    } else if s.len() > 0 {
        assert(d =~= Seq::<char>::empty());
    }
}

/// A number is written in digits, without a zero in front, and reads as that number.
pub proof fn law_decimal(n: nat, max: nat)
    requires
        n <= max,
    ensures
        number(decimal(n), max) == Some(n),
        forall|i: int| 0 <= i < decimal(n).len() ==> '0' <= #[trigger] decimal(n)[i] <= '9',
        n > 0 ==> decimal(n)[0] != '0',
        decimal(n).len() > 0,
    decreases n,
{
    lemma_decimal_is_a_number(n, max);
    if n >= 10 {
        law_decimal(n / 10, max);
        assert forall|i: int| 0 <= i < decimal(n).len() implies '0' <= #[trigger] decimal(n)[i]
            <= '9' by {
            if i < decimal(n / 10).len() {
                assert(decimal(n)[i] == decimal(n / 10)[i]);
            }
        }
        assert(decimal(n)[0] == decimal(n / 10)[0]);
    }
}

} // verus!
