//! What holds after every run of a discovery.
use crate::balanced_proxy::{
    after_event, distinct_keys, law_insert_keeps_keys_distinct,
    law_remove_keeps_keys_distinct, law_remove_leaves_others_alone, lemma_position, position_of,
    without_key, Change, Discovered,
};
use vstd::prelude::*;
use vstd::std_specs::cmp::PartialEqSpec;

verus! {

/// The endpoints after some events, where there were none before.
pub open spec fn discovered<K: PartialEq, E>(events: Seq<Discovered<K, E>>) -> Seq<(K, E)>
    decreases events.len(),
{
    if events.len() == 0 {
        Seq::empty()
    } else {
        after_event(discovered(events.drop_last()), events.last())
    }
}

/// Whether an event is a change under this key.
pub open spec fn concerns<K: PartialEq, E>(event: Discovered<K, E>, key: K) -> bool {
    match event {
        Discovered::Change(Change::Insert(k, _)) => k.eq_spec(&key),
        Discovered::Change(Change::Remove(k)) => k.eq_spec(&key),
        _ => false,
    }
}

/// The position of the last change under this key, or -1.
pub open spec fn last_on<K: PartialEq, E>(events: Seq<Discovered<K, E>>, key: K) -> int
    decreases events.len(),
{
    if events.len() == 0 {
        -1
    } else if concerns(events.last(), key) {
        events.len() - 1
    } else {
        last_on(events.drop_last(), key)
    }
}

/// The endpoint that the last change under this key inserted, if it was an insertion.
pub open spec fn endpoint_of<K: PartialEq, E>(events: Seq<Discovered<K, E>>, key: K) -> Option<E> {
    if last_on(events, key) < 0 {
        None
    } else {
        match events[last_on(events, key)] {
            Discovered::Change(Change::Insert(_, endpoint)) => Some(endpoint),
            _ => None,
        }
    }
}

/// Whether the event at this position inserts an endpoint, and no later one is a change under the
/// same key.
pub open spec fn is_left<K: PartialEq, E>(events: Seq<Discovered<K, E>>, i: int) -> bool {
    match events[i] {
        Discovered::Change(Change::Insert(k, _)) => last_on(events, k) == i,
        _ => false,
    }
}

/// The positions of the insertions whose key was neither removed nor inserted again since: one
/// for each key that was inserted and not removed since.
pub open spec fn insertions_left<K: PartialEq, E>(events: Seq<Discovered<K, E>>) -> Set<int> {
    Set::new(|i: int| 0 <= i < events.len() && is_left(events, i))
}

/// Whether keys are compared by an equivalence.
pub open spec fn keys_are_compared<K: PartialEq>() -> bool {
    &&& forall|a: K| #[trigger] a.eq_spec(&a)
    &&& forall|a: K, b: K| #[trigger] a.eq_spec(&b) ==> b.eq_spec(&a)
    &&& forall|a: K, b: K, c: K| #[trigger]
        a.eq_spec(&b) && #[trigger] b.eq_spec(&c) ==> a.eq_spec(&c)
}

proof fn lemma_last_on<K: PartialEq, E>(events: Seq<Discovered<K, E>>, key: K)
    ensures
        -1 <= last_on(events, key) < events.len(),
        last_on(events, key) >= 0 ==> concerns(events[last_on(events, key)], key),
    decreases events.len(),
{
    if events.len() > 0 {
        lemma_last_on(events.drop_last(), key);
    }
}

proof fn lemma_last_on_same_key<K: PartialEq, E>(events: Seq<Discovered<K, E>>, a: K, b: K)
    requires
        keys_are_compared::<K>(),
        a.eq_spec(&b),
    ensures
        last_on(events, a) == last_on(events, b),
    decreases events.len(),
{
    if events.len() > 0 {
        lemma_last_on_same_key(events.drop_last(), a, b);
        assert(b.eq_spec(&a));
        match events.last() {
            Discovered::Change(Change::Insert(k, _)) => {
                assert(k.eq_spec(&a) == k.eq_spec(&b));
            },
            Discovered::Change(Change::Remove(k)) => {
                assert(k.eq_spec(&a) == k.eq_spec(&b));
            },
            _ => {},
        }
    }
}

proof fn lemma_keys_stay_distinct<K: PartialEq, E>(events: Seq<Discovered<K, E>>)
    ensures
        distinct_keys(discovered(events)),
    decreases events.len(),
{
    if events.len() > 0 {
        lemma_keys_stay_distinct(events.drop_last());
        let s = discovered(events.drop_last());
        match events.last() {
            Discovered::Change(Change::Insert(k, e)) => law_insert_keeps_keys_distinct(s, k, e),
            Discovered::Change(Change::Remove(k)) => law_remove_keeps_keys_distinct(s, k),
            _ => {},
        }
    }
}

proof fn lemma_removed_key_is_gone<K: PartialEq, E>(s: Seq<(K, E)>, key: K)
    ensures
        forall|i: int|
            0 <= i < without_key(s, key).len() ==> !(#[trigger] without_key(s, key)[i]).0.eq_spec(
                &key,
            ),
    decreases s.len(),
{
    if s.len() > 0 {
        lemma_removed_key_is_gone(s.drop_last(), key);
        let kept = without_key(s.drop_last(), key);
        assert forall|i: int| 0 <= i < without_key(s, key).len() implies !(#[trigger] without_key(
            s,
            key,
        )[i]).0.eq_spec(&key) by {
            if i < kept.len() {
                assert(without_key(s, key)[i] == kept[i]);
            }
        }
    }
}

proof fn lemma_endpoint_of<K: PartialEq, E>(events: Seq<Discovered<K, E>>, key: K)
    requires
        keys_are_compared::<K>(),
    ensures
        forall|p: int|
            0 <= p < discovered(events).len() && (#[trigger] discovered(events)[p]).0.eq_spec(&key)
                ==> endpoint_of(events, key) == Some(discovered(events)[p].1),
        endpoint_of(events, key) is Some ==> exists|p: int|
            0 <= p < discovered(events).len() && (#[trigger] discovered(events)[p]).0.eq_spec(&key),
    decreases events.len(),
{
    if events.len() > 0 {
        let before = events.drop_last();
        let s = discovered(before);
        let t = discovered(events);
        lemma_endpoint_of(before, key);
        lemma_keys_stay_distinct(before);
        lemma_last_on(before, key);
        if !concerns(events.last(), key) {
            assert(endpoint_of(events, key) == endpoint_of(before, key));
        }
        match events.last() {
            Discovered::Change(Change::Insert(k, e)) => {
                lemma_position(s, k);
                let at = position_of(s, k);
                assert forall|p: int|
                    0 <= p < t.len() && (#[trigger] t[p]).0.eq_spec(&key) implies endpoint_of(
                    events,
                    key,
                ) == Some(t[p].1) by {
                    if p < s.len() {
                        assert(t[p].0 == s[p].0);
                        if k.eq_spec(&key) {
                            assert(key.eq_spec(&k));
                            assert(s[p].0.eq_spec(&k));
                            if p != at {
                                assert(k.eq_spec(&s[at].0));
                                assert(s[p].0.eq_spec(&s[at].0));
                                assert(s[at].0.eq_spec(&s[p].0));
                            }
                        } else if p == at {
                            assert(k.eq_spec(&s[p].0));
                        }
                    }
                }
                if endpoint_of(events, key) is Some {
                    if k.eq_spec(&key) {
                        assert(t[at].0.eq_spec(&key));
                    } else {
                        let p = choose|p: int|
                            0 <= p < s.len() && (#[trigger] s[p]).0.eq_spec(&key);
                        assert(t[p].0.eq_spec(&key));
                    }
                }
            },
            Discovered::Change(Change::Remove(k)) => {
                lemma_removed_key_is_gone(s, k);
                law_remove_keeps_keys_distinct(s, k);
                assert forall|p: int|
                    0 <= p < t.len() && (#[trigger] t[p]).0.eq_spec(&key) implies endpoint_of(
                    events,
                    key,
                ) == Some(t[p].1) by {
                    assert(s.contains(t[p]));
                    let q = choose|q: int| 0 <= q < s.len() && s[q] == t[p];
                    assert(s[q].0.eq_spec(&key));
                    if k.eq_spec(&key) {
                        assert(key.eq_spec(&k));
                        assert(t[p].0.eq_spec(&k));
                    }
                }
                if endpoint_of(events, key) is Some {
                    let p = choose|p: int| 0 <= p < s.len() && (#[trigger] s[p]).0.eq_spec(&key);
                    if s[p].0.eq_spec(&k) {
                        assert(k.eq_spec(&s[p].0));
                    }
                    law_remove_leaves_others_alone(s, k, s[p]);
                    let q = choose|q: int| 0 <= q < t.len() && t[q] == s[p];
                    assert(t[q].0.eq_spec(&key));
                }
            },
            _ => {
                assert(t == s);
                if endpoint_of(events, key) is Some {
                    let p = choose|p: int| 0 <= p < s.len() && (#[trigger] s[p]).0.eq_spec(&key);
                    assert(t[p].0.eq_spec(&key));
                }
            },
        }
    }
}

/// After any run of events, no key has two endpoints; there is an endpoint under a key exactly
/// where the last change under that key inserted one, and it is that one; and there are as many
/// endpoints as keys that were inserted and not removed since. Errors change nothing.
pub proof fn law_endpoints_are_those_discovered<K: PartialEq, E>(events: Seq<Discovered<K, E>>)
    requires
        keys_are_compared::<K>(),
    ensures
        distinct_keys(discovered(events)),
        forall|key: K| #[trigger]
            endpoint_of(events, key) is Some <==> exists|p: int|
                0 <= p < discovered(events).len() && (#[trigger] discovered(events)[p]).0.eq_spec(
                    &key,
                ),
        forall|p: int|
            0 <= p < discovered(events).len() ==> endpoint_of(
                events,
                (#[trigger] discovered(events)[p]).0,
            ) == Some(discovered(events)[p].1),
        insertions_left(events).finite(),
        discovered(events).len() == insertions_left(events).len(),
{
    let s = discovered(events);
    lemma_keys_stay_distinct(events);
    assert forall|key: K| #[trigger] endpoint_of(events, key) is Some <==> exists|p: int|
        0 <= p < s.len() && (#[trigger] s[p]).0.eq_spec(&key) by {
        lemma_endpoint_of(events, key);
    }
    assert forall|p: int| 0 <= p < s.len() implies endpoint_of(events, (#[trigger] s[p]).0) == Some(
        s[p].1,
    ) by {
        lemma_endpoint_of(events, s[p].0);
        assert(s[p].0.eq_spec(&s[p].0));
    }
    let at = Seq::new(s.len(), |p: int| last_on(events, s[p].0));
    assert forall|p: int| 0 <= p < s.len() implies insertions_left(events).contains(
        #[trigger] at[p],
    ) by {
        let key = s[p].0;
        assert(endpoint_of(events, key) is Some);
        lemma_last_on(events, key);
        match events[at[p]] {
            Discovered::Change(Change::Insert(k, _)) => lemma_last_on_same_key(events, k, key),
            _ => {},
        }
    }
    assert(at.no_duplicates()) by {
        assert forall|p: int, q: int| 0 <= p < q < s.len() implies at[p] != at[q] by {
            if at[p] == at[q] {
                lemma_last_on(events, s[p].0);
                lemma_last_on(events, s[q].0);
                assert(insertions_left(events).contains(at[p]));
                match events[at[p]] {
                    Discovered::Change(Change::Insert(k, _)) => {
                        assert(s[p].0.eq_spec(&k));
                        assert(s[p].0.eq_spec(&s[q].0));
                    },
                    _ => {},
                }
            }
        }
    }
    assert(at.to_set() =~= insertions_left(events)) by {
        assert forall|i: int| insertions_left(events).contains(i) implies at.to_set().contains(
            i,
        ) by {
            match events[i] {
                Discovered::Change(Change::Insert(k, _)) => {
                    assert(endpoint_of(events, k) is Some);
                    let p = choose|p: int| 0 <= p < s.len() && (#[trigger] s[p]).0.eq_spec(&k);
                    lemma_last_on_same_key(events, s[p].0, k);
                    assert(at[p] == i);
                },
                _ => {},
            }
        }
        assert forall|i: int| at.to_set().contains(i) implies insertions_left(events).contains(
            i,
        ) by {
            let p = choose|p: int| 0 <= p < at.len() && at[p] == i;
            assert(insertions_left(events).contains(at[p]));
        }
    }
    at.unique_seq_to_set();
}

} // verus!
