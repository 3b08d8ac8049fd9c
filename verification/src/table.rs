//! Tables from texts to values.
use crate::text::{chars_of, same_text, starts_with, texts};
use vstd::prelude::*;

verus! {

/// A table from texts to values. Keys are distinct.
pub struct TextTable<V> {
    entries: Vec<(String, V)>,
}

/// The position of the first entry with this key, or the number of entries.
spec fn index_of<V>(s: Seq<(String, V)>, key: Seq<char>) -> int
    decreases s.len(),
{
    if s.len() == 0 || s[0].0@ == key {
        0
    } else {
        1 + index_of(s.skip(1), key)
    }
}

spec fn distinct<V>(s: Seq<(String, V)>) -> bool {
    forall|i: int, j: int| 0 <= i < j < s.len() ==> (#[trigger] s[i]).0@ != (#[trigger] s[j]).0@
}

spec fn table_of<V>(s: Seq<(String, V)>) -> Map<Seq<char>, V> {
    Map::new(|k: Seq<char>| index_of(s, k) < s.len(), |k: Seq<char>| s[index_of(s, k)].1)
}

proof fn lemma_index<V>(s: Seq<(String, V)>, key: Seq<char>)
    ensures
        0 <= index_of(s, key) <= s.len(),
        forall|j: int| 0 <= j < index_of(s, key) ==> (#[trigger] s[j]).0@ != key,
        index_of(s, key) < s.len() ==> s[index_of(s, key)].0@ == key,
    decreases s.len(),
{
    if s.len() > 0 && s[0].0@ != key {
        let t = s.skip(1);
        lemma_index(t, key);
        assert forall|j: int| 0 <= j < index_of(s, key) implies (#[trigger] s[j]).0@ != key by {
            if j > 0 {
                assert(s[j] == t[j - 1]);
            }
        }
    }
}

proof fn lemma_index_is<V>(s: Seq<(String, V)>, key: Seq<char>, i: int)
    requires
        0 <= i <= s.len(),
        forall|j: int| 0 <= j < i ==> (#[trigger] s[j]).0@ != key,
        i < s.len() ==> s[i].0@ == key,
    ensures
        index_of(s, key) == i,
{
    lemma_index(s, key);
    if index_of(s, key) < i {
        assert(s[index_of(s, key)].0@ != key);
    }
}

/// With distinct keys every entry is the first with its key.
proof fn lemma_entry<V>(s: Seq<(String, V)>, i: int)
    requires
        distinct(s),
        0 <= i < s.len(),
    ensures
        index_of(s, s[i].0@) == i,
        table_of(s).contains_key(s[i].0@),
        table_of(s)[s[i].0@] == s[i].1,
{
    lemma_index_is(s, s[i].0@, i);
}

impl<V> View for TextTable<V> {
    type V = Map<Seq<char>, V>;

    closed spec fn view(&self) -> Map<Seq<char>, V> {
        table_of(self.entries@)
    }
}

/// Whether `key` is the longest key of `m` with which `text` starts.
pub open spec fn is_longest_prefix<V>(
    m: Map<Seq<char>, V>,
    text: Seq<char>,
    key: Seq<char>,
) -> bool {
    &&& m.contains_key(key)
    &&& key.is_prefix_of(text)
    &&& forall|k: Seq<char>| #[trigger]
        m.contains_key(k) && k.is_prefix_of(text) ==> k.len() <= key.len()
}

impl<V> TextTable<V> {
    #[verifier::type_invariant]
    spec fn inv(self) -> bool {
        distinct(self.entries@)
    }

    /// An empty table.
    pub fn new() -> (r: Self)
        ensures
            r@ == Map::<Seq<char>, V>::empty(),
    {
        let r = TextTable { entries: Vec::new() };
        assert(r@ =~= Map::<Seq<char>, V>::empty());
        r
    }

    /// The position of a key, or the number of entries.
    fn find(&self, key: &str) -> (r: usize)
        ensures
            r == index_of(self.entries@, key@),
            r <= self.entries@.len(),
    {
        let mut i: usize = 0;
        while i < self.entries.len()
            invariant
                i <= self.entries@.len(),
                forall|j: int| 0 <= j < i ==> (#[trigger] self.entries@[j]).0@ != key@,
            decreases self.entries.len() - i,
        {
            if same_text(self.entries[i].0.as_str(), key) {
                proof {
                    lemma_index_is(self.entries@, key@, i as int);
                }
                return i;
            }
            i = i + 1;
        }
        proof {
            lemma_index_is(self.entries@, key@, i as int);
        }
        i
    }

    /// The value of a key.
    pub fn get(&self, key: &str) -> (r: Option<&V>)
        ensures
            r is Some <==> self@.contains_key(key@),
            r matches Some(v) ==> *v == self@[key@],
    {
        let i: usize = self.find(key);
        if i < self.entries.len() {
            Some(&self.entries[i].1)
        } else {
            None
        }
    }

    /// Set the value of a key.
    pub fn insert(&mut self, key: String, value: V)
        ensures
            final(self)@ == old(self)@.insert(key@, value),
    {
        proof {
            use_type_invariant(&*self);
        }
        let i: usize = self.find(key.as_str());
        let mut entries: Vec<(String, V)> = Vec::new();
        core::mem::swap(&mut self.entries, &mut entries);
        let ghost before = entries@;
        proof {
            lemma_index(before, key@);
        }
        if i < entries.len() {
            let _ = entries.remove(i);
            entries.insert(i, (key, value));
            assert(entries@ =~= before.update(i as int, (key, value)));
        } else {
            entries.push((key, value));
        }
        proof {
            let after = entries@;
            assert(distinct(after)) by {
                assert forall|a: int, b: int| 0 <= a < b < after.len() implies (#[trigger] after[a]).0@
                    != (#[trigger] after[b]).0@ by {
                    if b < before.len() {
                        assert(after[a].0@ == before[a].0@);
                        assert(after[b].0@ == before[b].0@);
                    } else {
                        assert(after[a] == before[a]);
                    }
                }
            }
            assert forall|k: Seq<char>| #[trigger] table_of(after).contains_key(k) == table_of(
                before,
            ).insert(key@, value).contains_key(k) && (table_of(after).contains_key(k) ==> table_of(
                after,
            )[k] == table_of(before).insert(key@, value)[k]) by {
                lemma_index(before, k);
                lemma_index(after, k);
                let j = index_of(before, k);
                let l = index_of(after, k);
                if k == key@ {
                    lemma_index_is(after, k, i as int);
                } else {
                    if j < before.len() {
                        assert(after[j] == before[j]);
                        lemma_entry(after, j);
                    } else if l < after.len() {
                        assert(l != i);
                        assert(before[l].0@ == k);
                    }
                }
            }
            assert(table_of(after) =~= table_of(before).insert(key@, value));
        }
        self.entries = entries;
    }

    /// Remove a key.
    pub fn remove(&mut self, key: &str)
        ensures
            final(self)@ == old(self)@.remove(key@),
    {
        proof {
            use_type_invariant(&*self);
        }
        let i: usize = self.find(key);
        let mut entries: Vec<(String, V)> = Vec::new();
        core::mem::swap(&mut self.entries, &mut entries);
        let ghost before = entries@;
        if i < entries.len() {
            let _ = entries.remove(i);
        }
        proof {
            let after = entries@;
            lemma_index(before, key@);
            if i < before.len() {
                assert(after =~= before.remove(i as int));
                assert forall|a: int, b: int| 0 <= a < b < after.len() implies (#[trigger] after[a]).0@
                    != (#[trigger] after[b]).0@ by {
                    let a2 = if a < i {
                        a
                    } else {
                        a + 1
                    };
                    let b2 = if b < i {
                        b
                    } else {
                        b + 1
                    };
                    assert(after[a] == before[a2]);
                    assert(after[b] == before[b2]);
                }
                assert forall|k: Seq<char>| #[trigger] table_of(after).contains_key(k) == table_of(
                    before,
                ).remove(key@).contains_key(k) && (table_of(after).contains_key(k) ==> table_of(
                    after,
                )[k] == table_of(before).remove(key@)[k]) by {
                    lemma_index(before, k);
                    lemma_index(after, k);
                    let j = index_of(before, k);
                    let l = index_of(after, k);
                    if l < after.len() {
                        let l2 = if l < i {
                            l
                        } else {
                            l + 1
                        };
                        assert(after[l] == before[l2]);
                        lemma_entry(before, l2);
                        assert(l2 != i);
                        assert(before[i as int].0@ == key@);
                        assert(before[l2].0@ != before[i as int].0@);
                    } else if j < before.len() && k != key@ {
                        let j2 = if j < i {
                            j
                        } else {
                            j - 1
                        };
                        assert(after[j2] == before[j]);
                    }
                }
                assert(table_of(after) =~= table_of(before).remove(key@));
            } else {
                assert(after == before);
                assert(table_of(before) =~= table_of(before).remove(key@));
            }
        }
        self.entries = entries;
    }

    /// Every key once.
    pub fn keys(&self) -> (r: Vec<String>)
        ensures
            texts(r@).no_duplicates(),
            texts(r@).to_set() == self@.dom(),
    {
        proof {
            use_type_invariant(self);
        }
        let mut r: Vec<String> = Vec::new();
        let mut i: usize = 0;
        while i < self.entries.len()
            invariant
                i <= self.entries@.len(),
                r@.len() == i,
                forall|j: int| 0 <= j < i ==> (#[trigger] r@[j])@ == self.entries@[j].0@,
            decreases self.entries.len() - i,
        {
            r.push(self.entries[i].0.clone());
            i = i + 1;
        }
        proof {
            let s = self.entries@;
            let t = texts(r@);
            assert forall|j: int| 0 <= j < t.len() implies #[trigger] t[j] == s[j].0@ by {
                assert(t[j] == r@[j]@);
            }
            assert forall|a: int, b: int| 0 <= a < t.len() && 0 <= b < t.len() && a != b implies t[a]
                != t[b] by {
                if a < b {
                    assert(s[a].0@ != s[b].0@);
                } else {
                    assert(s[b].0@ != s[a].0@);
                }
            }
            assert forall|k: Seq<char>| #[trigger] t.to_set().contains(k) <==> self@.dom().contains(
                k,
            ) by {
                lemma_index(s, k);
                if t.contains(k) {
                    let j = choose|j: int| 0 <= j < t.len() && t[j] == k;
                    lemma_entry(s, j);
                }
                if index_of(s, k) < s.len() {
                    assert(t[index_of(s, k)] == k);
                }
            }
            assert(t.to_set() =~= self@.dom());
        }
        r
    }

    /// The value under the longest key with which `text` starts.
    pub fn longest_prefix(&self, text: &str) -> (r: Option<&V>)
        ensures
            match r {
                Some(v) => exists|k: Seq<char>| #[trigger]
                    is_longest_prefix(self@, text@, k) && *v == self@[k],
                None => forall|k: Seq<char>| #[trigger]
                    self@.contains_key(k) ==> !k.is_prefix_of(text@),
            },
    {
        proof {
            use_type_invariant(self);
        }
        let mut best: Option<usize> = None;
        let mut best_len: usize = 0;
        let mut i: usize = 0;
        while i < self.entries.len()
            invariant
                i <= self.entries@.len(),
                match best {
                    Some(b) => b < i && self.entries@[b as int].0@.is_prefix_of(text@) && best_len
                        == self.entries@[b as int].0@.len() && forall|j: int|
                        0 <= j < i && (#[trigger] self.entries@[j]).0@.is_prefix_of(text@)
                            ==> self.entries@[j].0@.len() <= best_len,
                    None => forall|j: int|
                        0 <= j < i ==> !(#[trigger] self.entries@[j]).0@.is_prefix_of(text@),
                },
            decreases self.entries.len() - i,
        {
            let key = self.entries[i].0.as_str();
            if starts_with(text, key) {
                let n: usize = chars_of(key).len();
                let better = match best {
                    Some(_) => n > best_len,
                    None => true,
                };
                if better {
                    best = Some(i);
                    best_len = n;
                }
            }
            i = i + 1;
        }
        proof {
            let s = self.entries@;
            assert forall|k: Seq<char>| #[trigger] self@.contains_key(k) implies exists|j: int|
                0 <= j < s.len() && (#[trigger] s[j]).0@ == k by {
                lemma_index(s, k);
                assert(s[index_of(s, k)].0@ == k);
            }
            if best is Some {
                let b = best->0 as int;
                lemma_entry(s, b);
                assert(is_longest_prefix(self@, text@, s[b].0@));
            }
        }
        match best {
            Some(b) => Some(&self.entries[b].1),
            None => None,
        }
    }
}

} // verus!
