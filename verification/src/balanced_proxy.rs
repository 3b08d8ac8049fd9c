//! Balancing requests over several upstreams, fixed or discovered at runtime.
use crate::message::{plain_answer, Answer};
use crate::proxy::{
    is_default_policy, is_proxy, is_target, ProxyPolicy, ProxyView, ReverseProxy, TargetError,
};
use crate::text::texts;
use crate::uri::{parse_uri, parsed_uri};
use core::time::Duration;
use vstd::prelude::*;
use vstd::std_specs::cmp::PartialEqSpec;

verus! {

/// The whole microseconds of a duration.
pub uninterp spec fn micros_of(d: Duration) -> nat;

/// `Duration::as_micros`: the number of whole microseconds of the duration.
pub assume_specification[ Duration::as_micros ](d: &Duration) -> (r: u128)
    ensures
        r == micros_of(*d),
;

/// `Rng::random_range` of the thread's generator over `0..n`: some number below `n`. The call
/// panics where the range is empty. Which number it is rests on chance.
#[verifier::external_body]
pub(crate) fn random_below(n: usize) -> (r: usize)
    requires
        n > 0,
    ensures
        r < n,
{
    rand::Rng::random_range(&mut rand::rng(), 0..n)
}

/// Load balancing strategy for distributing requests across discovered services.
#[derive(Debug, Clone, Copy, PartialEq, Eq, Structural)]
pub enum LoadBalancingStrategy {
    /// Simple round-robin distribution (default).
    RoundRobin,
    /// Power of Two Choices with pending request count as load metric.
    P2cPendingRequests,
    /// Power of Two Choices with peak EWMA latency as load metric.
    P2cPeakEwma,
}

impl Default for LoadBalancingStrategy {
    fn default() -> (r: Self)
        ensures
            r == LoadBalancingStrategy::RoundRobin,
    {
        LoadBalancingStrategy::RoundRobin
    }
}

impl LoadBalancingStrategy {
    /// Whether requests take turns under this strategy.
    pub fn takes_turns(&self) -> (r: bool)
        ensures
            r == (*self == LoadBalancingStrategy::RoundRobin),
    {
        match self {
            LoadBalancingStrategy::RoundRobin => true,
            _ => false,
        }
    }

    /// Whether pending requests are counted under this strategy.
    pub fn counts_pending(&self) -> (r: bool)
        ensures
            r == (*self == LoadBalancingStrategy::P2cPendingRequests),
    {
        match self {
            LoadBalancingStrategy::P2cPendingRequests => true,
            _ => false,
        }
    }

    /// Whether latencies are measured under this strategy.
    pub fn measures_latency(&self) -> (r: bool)
        ensures
            r == (*self == LoadBalancingStrategy::P2cPeakEwma),
    {
        match self {
            LoadBalancingStrategy::P2cPeakEwma => true,
            _ => false,
        }
    }
}

/// The answer where there is no upstream.
pub fn no_upstream() -> (r: Answer)
    ensures
        r@ == plain_answer(503, "No upstream services available"@),
{
    Answer::plain(503, "No upstream services available")
}

/// What the proxies of a list are made of.
pub open spec fn proxy_views(v: Seq<ReverseProxy>) -> Seq<ProxyView> {
    v.map_values(|p: ReverseProxy| p@)
}

/// Whether `proxies` forward from `path` to `targets`, in order, with the default policy.
pub open spec fn are_proxies_for(
    proxies: Seq<ProxyView>,
    path: Seq<char>,
    targets: Seq<Seq<char>>,
) -> bool {
    &&& proxies.len() == targets.len()
    &&& forall|i: int|
        0 <= i < proxies.len() ==> {
            let p = #[trigger] proxies[i];
            &&& p.path == path
            &&& p.target == targets[i]
            &&& !p.buffer_bodies
            &&& is_default_policy(p.policy)
            &&& is_proxy(p)
        }
}

/// Whether every target can be forwarded to.
pub open spec fn are_targets(targets: Seq<Seq<char>>) -> bool {
    forall|i: int| 0 <= i < targets.len() ==> #[trigger] is_target(targets[i])
}

/// A proxy that hands requests to its upstreams in turn.
pub struct BalancedProxy {
    path: String,
    proxies: Vec<ReverseProxy>,
}

/// What a [`BalancedProxy`] is made of.
pub struct BalancedView {
    pub path: Seq<char>,
    pub proxies: Seq<ProxyView>,
}

impl View for BalancedProxy {
    type V = BalancedView;

    closed spec fn view(&self) -> BalancedView {
        BalancedView { path: self.path@, proxies: proxy_views(self.proxies@) }
    }
}

impl Clone for BalancedProxy {
    fn clone(&self) -> (r: Self)
        ensures
            r@ == self@,
    {
        let mut proxies: Vec<ReverseProxy> = Vec::new();
        let mut i: usize = 0;
        while i < self.proxies.len()
            invariant
                i <= self.proxies@.len(),
                proxy_views(proxies@) == proxy_views(self.proxies@).take(i as int),
            decreases self.proxies.len() - i,
        {
            let ghost was = proxies@;
            let p = self.proxies[i].clone();
            proxies.push(p);
            assert(proxy_views(proxies@) =~= proxy_views(was).push(p@));
            assert(proxy_views(self.proxies@).take(i + 1) =~= proxy_views(self.proxies@).take(
                i as int,
            ).push(p@));
            i = i + 1;
        }
        assert(proxy_views(self.proxies@).take(self.proxies@.len() as int) =~= proxy_views(
            self.proxies@,
        ));
        BalancedProxy { path: self.path.clone(), proxies }
    }
}

impl BalancedProxy {
    /// A proxy from `path` to each of the targets, with the default policy.
    pub fn new(path: &str, targets: &Vec<String>) -> (r: Self)
        requires
            are_targets(texts(targets@)),
        ensures
            r@.path == path@,
            are_proxies_for(r@.proxies, path@, texts(targets@)),
    {
        let ghost all = texts(targets@);
        let mut proxies: Vec<ReverseProxy> = Vec::new();
        let mut i: usize = 0;
        while i < targets.len()
            invariant
                i <= targets@.len(),
                all == texts(targets@),
                are_targets(all),
                are_proxies_for(proxy_views(proxies@), path@, all.take(i as int)),
            decreases targets.len() - i,
        {
            let ghost was = proxies@;
            assert(all[i as int] == targets@[i as int]@);
            assert(is_target(all[i as int]));
            let p = ReverseProxy::new(path, targets[i].as_str());
            proxies.push(p);
            proof {
                let more = proxy_views(proxies@);
                assert(more =~= proxy_views(was).push(p@));
                assert forall|j: int| 0 <= j < more.len() implies {
                    let q = #[trigger] more[j];
                    &&& q.path == path@
                    &&& q.target == all.take(i + 1)[j]
                    &&& !q.buffer_bodies
                    &&& is_default_policy(q.policy)
                    &&& is_proxy(q)
                } by {
                    if j < i {
                        assert(more[j] == proxy_views(was)[j]);
                    }
                }
            }
            i = i + 1;
        }
        assert(all.take(all.len() as int) =~= all);
        BalancedProxy { path: path.to_owned(), proxies }
    }

    /// A proxy from `path` to each of the targets, or why the first of the targets that cannot be
    /// forwarded to cannot.
    pub fn try_new(path: &str, targets: &Vec<String>) -> (r: Result<Self, TargetError>)
        ensures
            r is Ok <==> are_targets(texts(targets@)),
            r matches Ok(b) ==> b@.path == path@ && are_proxies_for(
                b@.proxies,
                path@,
                texts(targets@),
            ),
            r matches Err(e) ==> exists|i: int|
                0 <= i < targets@.len() && !is_target(#[trigger] texts(targets@)[i]) && are_targets(
                    texts(targets@).take(i),
                ) && (e == TargetError::InvalidUri <==> parsed_uri(texts(targets@)[i]) is None),
    {
        let ghost all = texts(targets@);
        let mut i: usize = 0;
        while i < targets.len()
            invariant
                i <= targets@.len(),
                all == texts(targets@),
                are_targets(all.take(i as int)),
            decreases targets.len() - i,
        {
            assert(all[i as int] == targets@[i as int]@);
            match parse_uri(targets[i].as_str()) {
                Err(_) => {
                    assert(!is_target(all[i as int]));
                    return Err(TargetError::InvalidUri);
                },
                Ok(uri) => {
                    if uri.authority.is_none() {
                        assert(!is_target(all[i as int]));
                        return Err(TargetError::MissingAuthority);
                    }
                    proof {
                        let more = all.take(i + 1);
                        assert forall|j: int| 0 <= j < more.len() implies #[trigger] is_target(
                            more[j],
                        ) by {
                            if j < i {
                                assert(is_target(all.take(i as int)[j]));
                            }
                        }
                    }
                },
            }
            i = i + 1;
        }
        assert(all.take(all.len() as int) =~= all);
        Ok(Self::new(path, targets))
    }

    /// Apply a [`ProxyPolicy`] to every upstream of this proxy.
    #[must_use]
    pub fn with_policy(self, policy: ProxyPolicy) -> (r: Self)
        ensures
            r@.path == self@.path,
            r@.proxies == self@.proxies.map_values(|p: ProxyView| ProxyView { policy, ..p }),
    {
        let ghost want = self@.proxies.map_values(|p: ProxyView| ProxyView { policy, ..p });
        let mut proxies: Vec<ReverseProxy> = Vec::new();
        let mut i: usize = 0;
        while i < self.proxies.len()
            invariant
                i <= self.proxies@.len(),
                want == self@.proxies.map_values(|p: ProxyView| ProxyView { policy, ..p }),
                proxy_views(proxies@) == want.take(i as int),
            decreases self.proxies.len() - i,
        {
            let ghost was = proxies@;
            let p = self.proxies[i].clone().with_policy(policy.clone());
            proxies.push(p);
            assert(proxy_views(proxies@) =~= proxy_views(was).push(p@));
            assert(want.take(i + 1) =~= want.take(i as int).push(want[i as int]));
            i = i + 1;
        }
        assert(want.take(want.len() as int) =~= want);
        BalancedProxy { path: self.path, proxies }
    }

    /// The path under which this proxy is mounted.
    pub fn path(&self) -> (r: &str)
        ensures
            r@ == self@.path,
    {
        self.path.as_str()
    }

    /// The upstream for the request with this number, counted from zero: they take turns. There
    /// is none where there are no upstreams.
    pub fn next_proxy(&self, ticket: usize) -> (r: Option<&ReverseProxy>)
        ensures
            r is None <==> self@.proxies.len() == 0,
            r matches Some(p) ==> p@ == self@.proxies[turn(ticket as nat, self@.proxies.len())],
    {
        if self.proxies.len() == 0 {
            None
        } else {
            Some(&self.proxies[ticket % self.proxies.len()])
        }
    }
}

/// Whose turn it is among `n` upstreams.
pub open spec fn turn(ticket: nat, n: nat) -> int
    recommends
        n > 0,
{
    ticket as int % n as int
}

/// Whose turn it is `k` requests after the one with number `first`.
pub open spec fn turn_after(first: nat, k: int, n: nat) -> int {
    turn((first + k) as nat, n)
}

/// Of any `n` requests in a row, each of `n` upstreams gets exactly one.
pub proof fn law_round_robin_is_fair(first: nat, n: nat, upstream: int)
    requires
        n > 0,
        0 <= upstream < n,
    ensures
        exists|k: int|
            0 <= k < n && #[trigger] turn_after(first, k, n) == upstream && forall|j: int|
                0 <= j < n && j != k ==> #[trigger] turn_after(first, j, n) != upstream,
{
    let r = first as int % n as int;
    let k = if upstream >= r {
        upstream - r
    } else {
        upstream - r + n
    };
    assert(turn_after(first, k, n) == upstream) by {
        lemma_turn(first, n, k);
    }
    assert forall|j: int| 0 <= j < n && j != k implies #[trigger] turn_after(first, j, n)
        != upstream by {
        lemma_turn(first, n, j);
    }
}

/// `j` requests later it is the turn of the one `j` places further on.
proof fn lemma_turn(first: nat, n: nat, j: int)
    requires
        n > 0,
        0 <= j < n,
    ensures
        turn((first + j) as nat, n) == (if first as int % n as int + j < n {
            first as int % n as int + j
        } else {
            first as int % n as int + j - n
        }),
{
    let f = first as int;
    let m = n as int;
    let r = f % m;
    let q = f / m;
    assert(f == q * m + r) by (nonlinear_arith)
        requires
            m > 0,
            r == f % m,
            q == f / m,
    ;
    if r + j < m {
        assert((q * m + (r + j)) % m == r + j) by (nonlinear_arith)
            requires
                m > 0,
                0 <= r + j < m,
        ;
        assert(f + j == q * m + (r + j));
    } else {
        let s = r + j - m;
        assert(((q + 1) * m + s) % m == s) by (nonlinear_arith)
            requires
                m > 0,
                0 <= s < m,
        ;
        assert((q + 1) * m == q * m + m) by (nonlinear_arith);
        assert(f + j == (q + 1) * m + s);
    }
}

/// The endpoints that were discovered, in the order in which they came, each under its own key.
pub struct Endpoints<K, E> {
    entries: Vec<(K, E)>,
}

impl<K, E> View for Endpoints<K, E> {
    type V = Seq<(K, E)>;

    closed spec fn view(&self) -> Seq<(K, E)> {
        self.entries@
    }
}

/// The position of the first entry with this key, or the number of entries.
pub open spec fn position_of<K: PartialEq, E>(s: Seq<(K, E)>, key: K) -> int
    decreases s.len(),
{
    if s.len() == 0 || s[0].0.eq_spec(&key) {
        0
    } else {
        1 + position_of(s.skip(1), key)
    }
}

/// The entries without those with this key, in order.
pub open spec fn without_key<K: PartialEq, E>(s: Seq<(K, E)>, key: K) -> Seq<(K, E)>
    decreases s.len(),
{
    if s.len() == 0 {
        Seq::empty()
    } else if s.last().0.eq_spec(&key) {
        without_key(s.drop_last(), key)
    } else {
        without_key(s.drop_last(), key).push(s.last())
    }
}

/// The entries with this endpoint under this key: in the place of the one that had the key, or
/// behind all others.
pub open spec fn with_key<K: PartialEq, E>(s: Seq<(K, E)>, key: K, endpoint: E) -> Seq<(K, E)> {
    let i = position_of(s, key);
    if 0 <= i < s.len() {
        s.update(i, (s[i].0, endpoint))
    } else {
        s.push((key, endpoint))
    }
}

/// Whether no two entries have the same key.
pub open spec fn distinct_keys<K: PartialEq, E>(s: Seq<(K, E)>) -> bool {
    forall|i: int, j: int|
        0 <= i < j < s.len() ==> !(#[trigger] s[i]).0.eq_spec(&(#[trigger] s[j]).0)
}

proof fn lemma_position_is<K: PartialEq, E>(s: Seq<(K, E)>, key: K, i: int)
    requires
        0 <= i <= s.len(),
        forall|j: int| 0 <= j < i ==> !(#[trigger] s[j]).0.eq_spec(&key),
        i < s.len() ==> s[i].0.eq_spec(&key),
    ensures
        position_of(s, key) == i,
    decreases i,
{
    if i > 0 {
        let t = s.skip(1);
        assert(!s[0].0.eq_spec(&key));
        assert forall|j: int| 0 <= j < i - 1 implies !(#[trigger] t[j]).0.eq_spec(&key) by {
            assert(t[j] == s[j + 1]);
        }
        lemma_position_is(t, key, i - 1);
    }
}

/// `position_of` is the first position with the key, if there is one.
pub proof fn lemma_position<K: PartialEq, E>(s: Seq<(K, E)>, key: K)
    ensures
        0 <= position_of(s, key) <= s.len(),
        forall|j: int| 0 <= j < position_of(s, key) ==> !(#[trigger] s[j]).0.eq_spec(&key),
        position_of(s, key) < s.len() ==> s[position_of(s, key)].0.eq_spec(&key),
    decreases s.len(),
{
    if s.len() > 0 && !s[0].0.eq_spec(&key) {
        let t = s.skip(1);
        lemma_position(t, key);
        assert forall|j: int| 0 <= j < position_of(s, key) implies !(#[trigger] s[j]).0.eq_spec(
            &key,
        ) by {
            if j > 0 {
                assert(s[j] == t[j - 1]);
            }
        }
    }
}

impl<K: PartialEq, E> Endpoints<K, E> {
    /// No endpoints.
    pub fn new() -> (r: Self)
        ensures
            r@.len() == 0,
            distinct_keys(r@),
    {
        Endpoints { entries: Vec::new() }
    }

    /// The number of endpoints.
    pub fn len(&self) -> (r: usize)
        ensures
            r == self@.len(),
    {
        self.entries.len()
    }

    /// The endpoint at a position.
    pub fn get(&self, i: usize) -> (r: &E)
        requires
            i < self@.len(),
        ensures
            *r == self@[i as int].1,
    {
        &self.entries[i].1
    }

    /// Put an endpoint under a key, in the place of the one that has the key.
    pub fn insert(&mut self, key: K, endpoint: E)
        requires
            K::obeys_eq_spec(),
        ensures
            final(self)@ == with_key(old(self)@, key, endpoint),
            distinct_keys(old(self)@) ==> distinct_keys(final(self)@),
    {
        proof {
            if distinct_keys(self@) {
                law_insert_keeps_keys_distinct(self@, key, endpoint);
            }
        }
        let ghost before = self.entries@;
        let mut i: usize = 0;
        while i < self.entries.len()
            invariant
                i <= self.entries@.len(),
                self.entries@ == before,
                before == old(self)@,
                distinct_keys(before) ==> distinct_keys(with_key(before, key, endpoint)),
                K::obeys_eq_spec(),
                forall|j: int| 0 <= j < i ==> !(#[trigger] before[j]).0.eq_spec(&key),
            decreases self.entries.len() - i,
        {
            if self.entries[i].0 == key {
                proof {
                    lemma_position_is(before, key, i as int);
                }
                let old_entry = self.entries.remove(i);
                self.entries.insert(i, (old_entry.0, endpoint));
                assert(self.entries@ =~= before.update(i as int, (before[i as int].0, endpoint)));
                return ;
            }
            i = i + 1;
        }
        proof {
            lemma_position_is(before, key, i as int);
        }
        self.entries.push((key, endpoint));
    }

    /// Remove the endpoint under a key.
    pub fn remove(&mut self, key: &K)
        requires
            K::obeys_eq_spec(),
        ensures
            final(self)@ == without_key(old(self)@, *key),
            distinct_keys(old(self)@) ==> distinct_keys(final(self)@),
    {
        proof {
            if distinct_keys(self@) {
                law_remove_keeps_keys_distinct(self@, *key);
            }
        }
        let ghost before = self.entries@;
        let ghost mut done: int = 0;
        let mut i: usize = 0;
        assert(before.take(0) =~= Seq::empty());
        while i < self.entries.len()
            invariant
                i <= self.entries@.len(),
                0 <= done <= before.len(),
                before.len() - done == self.entries@.len() - i,
                K::obeys_eq_spec(),
                forall|j: int| 0 <= j < before.len() - done ==> #[trigger] self.entries@[i + j]
                    == before[done + j],
                self.entries@.take(i as int) == without_key(before.take(done), *key),
            decreases self.entries.len() - i,
        {
            let ghost was = self.entries@;
            proof {
                assert(was[i + 0] == before[done + 0]);
                assert(before.take(done + 1).drop_last() =~= before.take(done));
                assert(before.take(done + 1).last() == before[done]);
            }
            if self.entries[i].0 == *key {
                let _ = self.entries.remove(i);
                proof {
                    assert(self.entries@.take(i as int) =~= was.take(i as int));
                    assert forall|j: int| 0 <= j < before.len() - (done + 1) implies #[trigger] self.entries@[i
                        + j] == before[done + 1 + j] by {
                        assert(self.entries@[i + j] == was[i + (j + 1)]);
                    }
                }
            } else {
                proof {
                    assert(was.take(i + 1) =~= was.take(i as int).push(was[i as int]));
                    assert forall|j: int| 0 <= j < before.len() - (done + 1) implies #[trigger] self.entries@[i
                        + 1 + j] == before[done + 1 + j] by {
                        assert(self.entries@[i + (1 + j)] == before[done + (1 + j)]);
                    }
                }
                i = i + 1;
            }
            proof {
                done = done + 1;
            }
        }
        assert(before.take(done) =~= before);
        assert(self.entries@.take(i as int) =~= self.entries@);
    }
}

/// Keys stay distinct, whatever is inserted.
pub proof fn law_insert_keeps_keys_distinct<K: PartialEq, E>(s: Seq<(K, E)>, key: K, endpoint: E)
    requires
        distinct_keys(s),
    ensures
        distinct_keys(with_key(s, key, endpoint)),
{
    lemma_position(s, key);
    let t = with_key(s, key, endpoint);
    assert forall|i: int, j: int| 0 <= i < j < t.len() implies !(#[trigger] t[i]).0.eq_spec(
        &(#[trigger] t[j]).0,
    ) by {
        if j < s.len() {
            assert(t[i].0 == s[i].0);
            assert(t[j].0 == s[j].0);
        } else {
            assert(t[i] == s[i]);
        }
    }
}

/// Keys stay distinct, whatever is removed.
pub proof fn law_remove_keeps_keys_distinct<K: PartialEq, E>(s: Seq<(K, E)>, key: K)
    requires
        distinct_keys(s),
    ensures
        distinct_keys(without_key(s, key)),
        forall|i: int|
            0 <= i < without_key(s, key).len() ==> s.contains(#[trigger] without_key(s, key)[i]),
    decreases s.len(),
{
    if s.len() > 0 {
        let less = s.drop_last();
        law_remove_keeps_keys_distinct(less, key);
        let kept = without_key(less, key);
        let t = without_key(s, key);
        assert forall|i: int| 0 <= i < t.len() implies s.contains(#[trigger] t[i]) by {
            if i < kept.len() {
                assert(less.contains(kept[i]));
                let k = choose|k: int| 0 <= k < less.len() && less[k] == kept[i];
                assert(s[k] == kept[i]);
            } else {
                assert(s[s.len() - 1] == t[i]);
            }
        }
        assert forall|i: int, j: int| 0 <= i < j < t.len() implies !(#[trigger] t[i]).0.eq_spec(
            &(#[trigger] t[j]).0,
        ) by {
            if j < kept.len() {
                assert(t[i] == kept[i]);
                assert(t[j] == kept[j]);
            } else {
                assert(t[i] == kept[i]);
                assert(less.contains(kept[i]));
                let k = choose|k: int| 0 <= k < less.len() && less[k] == kept[i];
                assert(s[k] == kept[i]);
                assert(s[s.len() - 1] == t[j]);
            }
        }
    }
}

/// Inserting under one key leaves every other endpoint where it was, as it was.
pub proof fn law_insert_leaves_others_alone<K: PartialEq, E>(
    s: Seq<(K, E)>,
    key: K,
    endpoint: E,
    i: int,
)
    requires
        0 <= i < s.len(),
        !s[i].0.eq_spec(&key),
    ensures
        with_key(s, key, endpoint)[i] == s[i],
{
    lemma_position(s, key);
}

/// Removing one key leaves every other endpoint as it was.
pub proof fn law_remove_leaves_others_alone<K: PartialEq, E>(s: Seq<(K, E)>, key: K, e: (K, E))
    requires
        s.contains(e),
        !e.0.eq_spec(&key),
    ensures
        without_key(s, key).contains(e),
    decreases s.len(),
{
    let less = s.drop_last();
    let kept = without_key(less, key);
    if s.last() == e {
        assert(without_key(s, key)[kept.len() as int] == e);
    } else {
        let k = choose|k: int| 0 <= k < s.len() && s[k] == e;
        assert(less[k] == e);
        law_remove_leaves_others_alone(less, key, e);
        let j = choose|j: int| 0 <= j < kept.len() && kept[j] == e;
        assert(without_key(s, key)[j] == e);
    }
}

/// A change that a discovery reports.
pub enum Change<K, E> {
    /// This endpoint is under this key now.
    Insert(K, E),
    /// There is no endpoint under this key any more.
    Remove(K),
}

/// The endpoints after a change.
pub open spec fn changed<K: PartialEq, E>(s: Seq<(K, E)>, change: Change<K, E>) -> Seq<(K, E)> {
    match change {
        Change::Insert(key, endpoint) => with_key(s, key, endpoint),
        Change::Remove(key) => without_key(s, key),
    }
}

/// What a discovery reports.
pub enum Discovered<K, E> {
    /// The endpoints changed.
    Change(Change<K, E>),
    /// There was an error.
    Failed,
    /// Nothing more will be reported.
    Ended,
}

/// The endpoints after an event: only a change changes them.
pub open spec fn after_event<K: PartialEq, E>(
    s: Seq<(K, E)>,
    event: Discovered<K, E>,
) -> Seq<(K, E)> {
    match event {
        Discovered::Change(change) => changed(s, change),
        _ => s,
    }
}

/// A balanced proxy whose upstreams are discovered at runtime.
pub struct DiscoverableBalancedProxy<K, E> {
    path: String,
    strategy: LoadBalancingStrategy,
    policy: ProxyPolicy,
    discovery: Option<ProxyPolicy>,
    endpoints: Endpoints<K, E>,
}

/// What a [`DiscoverableBalancedProxy`] is made of.
pub struct DiscoverableView<K, E> {
    pub path: Seq<char>,
    pub strategy: LoadBalancingStrategy,
    pub policy: ProxyPolicy,
    /// Whether discovery was started.
    pub started: bool,
    /// The policy of the upstreams that are discovered.
    pub discovery_policy: ProxyPolicy,
    pub endpoints: Seq<(K, E)>,
}

impl<K, E> View for DiscoverableBalancedProxy<K, E> {
    type V = DiscoverableView<K, E>;

    closed spec fn view(&self) -> DiscoverableView<K, E> {
        DiscoverableView {
            path: self.path@,
            strategy: self.strategy,
            policy: self.policy,
            started: self.discovery is Some,
            discovery_policy: match self.discovery {
                Some(policy) => policy,
                None => self.policy,
            },
            endpoints: self.endpoints@,
        }
    }
}

impl<K: PartialEq, E> DiscoverableBalancedProxy<K, E> {
    /// A proxy with no upstreams yet, with round-robin balancing.
    pub fn new(path: &str) -> (r: Self)
        ensures
            r@.path == path@,
            r@.strategy == LoadBalancingStrategy::RoundRobin,
            is_default_policy(r@.policy),
            r@.discovery_policy == r@.policy,
            !r@.started,
            r@.endpoints == Seq::<(K, E)>::empty(),
    {
        Self::new_with_strategy(path, LoadBalancingStrategy::default())
    }

    /// A proxy with no upstreams yet, with the given balancing.
    pub fn new_with_strategy(path: &str, strategy: LoadBalancingStrategy) -> (r: Self)
        ensures
            r@.path == path@,
            r@.strategy == strategy,
            is_default_policy(r@.policy),
            r@.discovery_policy == r@.policy,
            !r@.started,
            r@.endpoints == Seq::<(K, E)>::empty(),
    {
        let endpoints = Endpoints::new();
        assert(endpoints@ =~= Seq::<(K, E)>::empty());
        DiscoverableBalancedProxy {
            path: path.to_owned(),
            strategy,
            policy: ProxyPolicy::default(),
            discovery: None,
            endpoints,
        }
    }

    /// Apply a [`ProxyPolicy`] to every discovered upstream, where discovery was not started yet.
    #[must_use]
    pub fn with_policy(self, policy: ProxyPolicy) -> (r: Self)
        ensures
            r@ == (DiscoverableView {
                policy,
                discovery_policy: if self@.started {
                    self@.discovery_policy
                } else {
                    policy
                },
                ..self@
            }),
    {
        DiscoverableBalancedProxy { policy, ..self }
    }

    /// The path under which this proxy is mounted.
    pub fn path(&self) -> (r: &str)
        ensures
            r@ == self@.path,
    {
        self.path.as_str()
    }

    /// The load balancing strategy being used.
    pub fn strategy(&self) -> (r: LoadBalancingStrategy)
        ensures
            r == self@.strategy,
    {
        self.strategy
    }

    /// The number of upstreams that are known.
    pub fn service_count(&self) -> (r: usize)
        ensures
            r == self@.endpoints.len(),
    {
        self.endpoints.len()
    }

    /// The endpoint at a position.
    pub fn endpoint(&self, i: usize) -> (r: &E)
        requires
            i < self@.endpoints.len(),
        ensures
            *r == self@.endpoints[i as int].1,
    {
        self.endpoints.get(i)
    }

    /// Start discovery, unless it was started before: it runs once, under the policy that is set
    /// now.
    pub fn begin_discovery(&mut self) -> (r: bool)
        ensures
            r == !old(self)@.started,
            final(self)@ == (DiscoverableView { started: true, ..old(self)@ }),
    {
        match self.discovery {
            Some(_) => false,
            None => {
                self.discovery = Some(self.policy.clone());
                true
            },
        }
    }

    /// The proxy to an upstream that was discovered, under this proxy's path and the policy with
    /// which discovery was started.
    pub fn proxy_to(&self, target: &str) -> (r: Result<ReverseProxy, TargetError>)
        ensures
            r is Ok <==> is_target(target@),
            r matches Ok(p) ==> p@.path == self@.path && p@.target == target@ && p@.policy
                == self@.discovery_policy && !p@.buffer_bodies && is_proxy(p@),
            r == Err::<ReverseProxy, TargetError>(TargetError::InvalidUri) <==> parsed_uri(
                target@,
            ) is None,
    {
        let policy: &ProxyPolicy = match &self.discovery {
            Some(policy) => policy,
            None => &self.policy,
        };
        match ReverseProxy::try_new(self.path.as_str(), target) {
            Ok(p) => Ok(p.with_policy(policy.clone())),
            Err(e) => Err(e),
        }
    }

    /// Take in a change that the discovery reports: an endpoint under a known key takes the
    /// place of the one that was there.
    pub fn on_change(&mut self, change: Change<K, E>)
        requires
            K::obeys_eq_spec(),
        ensures
            final(self)@ == (DiscoverableView {
                endpoints: changed(old(self)@.endpoints, change),
                ..old(self)@
            }),
            distinct_keys(old(self)@.endpoints) ==> distinct_keys(final(self)@.endpoints),
    {
        match change {
            Change::Insert(key, endpoint) => self.endpoints.insert(key, endpoint),
            Change::Remove(key) => self.endpoints.remove(&key),
        }
    }

    /// Take in what the discovery reports. Returns whether to wait for more.
    pub fn on_discovered(&mut self, event: Discovered<K, E>) -> (r: bool)
        requires
            K::obeys_eq_spec(),
        ensures
            final(self)@ == (DiscoverableView {
                endpoints: after_event(old(self)@.endpoints, event),
                ..old(self)@
            }),
            distinct_keys(old(self)@.endpoints) ==> distinct_keys(final(self)@.endpoints),
            r == !(event is Ended),
    {
        match event {
            Discovered::Change(change) => {
                self.on_change(change);
                true
            },
            Discovered::Failed => true,
            Discovered::Ended => false,
        }
    }
}

/// The load of a service that the Power of Two Choices looks at, as it was measured.
pub struct ServiceMetrics {
    pending_requests: usize,
    peak_ewma_micros: u64,
}

/// What a [`ServiceMetrics`] has measured.
pub struct MetricsView {
    /// Requests that have not been answered yet.
    pub pending_requests: nat,
    /// The moving average of the latency, in microseconds.
    pub peak_ewma_micros: nat,
}

impl View for ServiceMetrics {
    type V = MetricsView;

    closed spec fn view(&self) -> MetricsView {
        MetricsView {
            pending_requests: self.pending_requests as nat,
            peak_ewma_micros: self.peak_ewma_micros as nat,
        }
    }
}

/// The load of a service under a strategy, given its average latency as it has decayed since the
/// last measurement.
pub open spec fn load_of(m: MetricsView, strategy: LoadBalancingStrategy, decayed: nat) -> nat {
    match strategy {
        LoadBalancingStrategy::P2cPendingRequests => m.pending_requests,
        LoadBalancingStrategy::P2cPeakEwma => decayed,
        LoadBalancingStrategy::RoundRobin => 0,
    }
}

/// The average after a measurement: the measurement itself if it is the first; otherwise one part
/// of the larger of measurement and decayed average, and three parts of the decayed average.
pub open spec fn next_average(current: nat, decayed: nat, latency: nat) -> nat {
    if current == 0 {
        latency
    } else {
        let peak = if latency > decayed {
            latency
        } else {
            decayed
        };
        (peak + 3 * decayed) / 4
    }
}

/// The next number of a counter that wraps around.
pub open spec fn one_more(n: nat) -> nat {
    if n == usize::MAX {
        0
    } else {
        n + 1
    }
}

/// The previous number of a counter that wraps around.
pub open spec fn one_less(n: nat) -> nat {
    if n == 0 {
        usize::MAX as nat
    } else {
        (n - 1) as nat
    }
}

/// A latency in microseconds, as far as 64 bits hold it.
pub open spec fn latency_micros(d: Duration) -> nat {
    micros_of(d) % 0x1_0000_0000_0000_0000
}

impl ServiceMetrics {
    /// Nothing measured yet.
    pub fn new() -> (r: Self)
        ensures
            r@ == (MetricsView { pending_requests: 0, peak_ewma_micros: 0 }),
    {
        ServiceMetrics { pending_requests: 0, peak_ewma_micros: 0 }
    }

    /// Measurements with these values.
    pub fn with_values(pending_requests: usize, peak_ewma_micros: u64) -> (r: Self)
        ensures
            r@ == (MetricsView {
                pending_requests: pending_requests as nat,
                peak_ewma_micros: peak_ewma_micros as nat,
            }),
    {
        ServiceMetrics { pending_requests, peak_ewma_micros }
    }

    /// The number of requests that have not been answered yet.
    pub fn pending_requests(&self) -> (r: usize)
        ensures
            r == self@.pending_requests,
    {
        self.pending_requests
    }

    /// The moving average of the latency, in microseconds.
    pub fn peak_ewma_micros(&self) -> (r: u64)
        ensures
            r == self@.peak_ewma_micros,
    {
        self.peak_ewma_micros
    }

    /// A request was handed to the service.
    pub fn begin_request(&mut self)
        ensures
            final(self)@.pending_requests == one_more(old(self)@.pending_requests),
            final(self)@.peak_ewma_micros == old(self)@.peak_ewma_micros,
    {
        self.pending_requests = self.pending_requests.wrapping_add(1);
    }

    /// A request was answered, or given up.
    pub fn end_request(&mut self)
        ensures
            final(self)@.pending_requests == one_less(old(self)@.pending_requests),
            final(self)@.peak_ewma_micros == old(self)@.peak_ewma_micros,
    {
        self.pending_requests = self.pending_requests.wrapping_sub(1);
    }

    /// The load of the service, given its average latency as it has decayed since the last
    /// measurement.
    pub fn load(&self, strategy: LoadBalancingStrategy, decayed: u64) -> (r: u64)
        requires
            strategy != LoadBalancingStrategy::RoundRobin,
        ensures
            r == load_of(self@, strategy, decayed as nat),
    {
        match strategy {
            LoadBalancingStrategy::P2cPendingRequests => self.pending_requests as u64,
            _ => decayed,
        }
    }

    /// Take in a measurement, given the average as it has decayed since the last one.
    pub fn update_ewma(&mut self, latency: Duration, decayed: u64)
        ensures
            final(self)@.pending_requests == old(self)@.pending_requests,
            final(self)@.peak_ewma_micros == next_average(
                old(self)@.peak_ewma_micros,
                decayed as nat,
                latency_micros(latency),
            ),
    {
        let micros: u64 = (latency.as_micros() % 0x1_0000_0000_0000_0000) as u64;
        if self.peak_ewma_micros == 0 {
            self.peak_ewma_micros = micros;
        } else {
            let peak: u64 = if micros > decayed {
                micros
            } else {
                decayed
            };
            let sum: u128 = peak as u128 + 3 * (decayed as u128);
            self.peak_ewma_micros = (sum / 4) as u64;
        }
    }
}

/// The average after a measurement lies between the decayed average and the larger of that and
/// the measurement.
pub proof fn law_average_stays_between(current: nat, decayed: nat, latency: nat)
    requires
        current > 0,
    ensures
        decayed <= next_average(current, decayed, latency),
        next_average(current, decayed, latency) <= decayed || next_average(
            current,
            decayed,
            latency,
        ) <= latency,
{
}

/// Beginning and then ending a request leaves the number of pending requests as it was.
pub proof fn law_pending_requests_balance(pending: nat)
    requires
        pending <= usize::MAX,
    ensures
        one_less(one_more(pending)) == pending,
{
}

/// The one of two endpoints with the lower load, the first of them where the loads are equal.
pub open spec fn lower_loaded(loads: Seq<u64>, i: int, j: int) -> int {
    if loads[i] <= loads[j] {
        i
    } else {
        j
    }
}

/// The one of two endpoints with the lower load.
pub fn p2c_choose(loads: &Vec<u64>, i: usize, j: usize) -> (r: usize)
    requires
        i < loads@.len(),
        j < loads@.len(),
    ensures
        r == lower_loaded(loads@, i as int, j as int),
{
    if loads[i] <= loads[j] {
        i
    } else {
        j
    }
}

/// The second position of two draws: the draw itself below the first position, and otherwise one
/// more.
pub open spec fn drawn_second(i: int, j: int) -> int {
    if j < i {
        j
    } else {
        j + 1
    }
}

/// The two positions that two draws stand for: the first draw, and the second moved past it
/// where it is not below it.
pub fn p2c_pair(i: usize, j: usize) -> (r: (usize, usize))
    requires
        j < usize::MAX,
    ensures
        r.0 == i,
        r.1 == drawn_second(i as int, j as int),
{
    if j < i {
        (i, j)
    } else {
        (i, j + 1)
    }
}

/// Two draws, the second from one position less, stand for every pair of different positions
/// below `n` once: for no other pair, and for each of these exactly one of them.
pub proof fn law_draws_are_the_pairs(n: nat, i: int, j: int)
    requires
        0 <= i < n,
        0 <= j < n,
    ensures
        j < n - 1 ==> drawn_second(i, j) != i && 0 <= drawn_second(i, j) < n,
        i != j ==> exists|k: int| 0 <= k < n - 1 && #[trigger] drawn_second(i, k) == j,
        forall|k: int, l: int| #[trigger]
            drawn_second(i, k) == #[trigger] drawn_second(i, l) ==> k == l,
{
    if j < i {
        assert(drawn_second(i, j) == j);
    } else if j > i {
        assert(drawn_second(i, j - 1) == j);
    }
}

/// Two different positions below `n`, at random.
pub fn p2c_sample(n: usize) -> (r: (usize, usize))
    requires
        n >= 2,
    ensures
        r.0 < n,
        r.1 < n,
        r.0 != r.1,
{
    let i: usize = random_below(n);
    let j: usize = random_below(n - 1);
    p2c_pair(i, j)
}

/// Whether `r` is a choice that the Power of Two Choices can make: the only endpoint, or the
/// lower loaded of two different ones.
pub open spec fn is_p2c_choice(loads: Seq<u64>, r: int) -> bool {
    if loads.len() == 1 {
        r == 0
    } else {
        exists|i: int, j: int|
            0 <= i < loads.len() && 0 <= j < loads.len() && i != j && r == #[trigger] lower_loaded(
                loads,
                i,
                j,
            )
    }
}

/// Pick an endpoint using Power of Two Choices: sample two different endpoints at random and take
/// the one with the lower load.
pub fn p2c_select(loads: &Vec<u64>) -> (r: usize)
    requires
        loads@.len() > 0,
    ensures
        is_p2c_choice(loads@, r as int),
        r < loads@.len(),
{
    if loads.len() == 1 {
        return 0;
    }
    let (i, j) = p2c_sample(loads.len());
    let r: usize = p2c_choose(loads, i, j);
    assert(r == lower_loaded(loads@, i as int, j as int));
    r
}

/// The Power of Two Choices never picks an endpoint with a higher load than all others; with two
/// endpoints it always picks one with the lowest load.
pub proof fn law_p2c_avoids_the_highest_load(loads: Seq<u64>, r: int)
    requires
        loads.len() >= 2,
        is_p2c_choice(loads, r),
    ensures
        exists|k: int| 0 <= k < loads.len() && k != r && loads[r] <= #[trigger] loads[k],
        loads.len() == 2 ==> loads[r] <= loads[1 - r],
{
    let (i, j) = choose|i: int, j: int|
        0 <= i < loads.len() && 0 <= j < loads.len() && i != j && r == #[trigger] lower_loaded(
            loads,
            i,
            j,
        );
    if r == i {
        assert(loads[r] <= loads[j]);
    } else {
        assert(loads[r] <= loads[i]);
    }
}

/// Whether `choice` is an endpoint that a strategy can pick for the request with this number.
pub open spec fn is_choice(
    choice: Option<usize>,
    strategy: LoadBalancingStrategy,
    ticket: usize,
    loads: Seq<u64>,
) -> bool {
    match choice {
        None => loads.len() == 0,
        Some(i) => loads.len() > 0 && match strategy {
            LoadBalancingStrategy::RoundRobin => i == turn(ticket as nat, loads.len()),
            _ => is_p2c_choice(loads, i as int) && i < loads.len(),
        },
    }
}

/// Pick an endpoint for a request, given the loads of all endpoints; none where there are none.
/// Under round-robin only their number counts.
pub fn choose_endpoint(strategy: LoadBalancingStrategy, ticket: usize, loads: &Vec<u64>) -> (r:
    Option<usize>)
    ensures
        is_choice(r, strategy, ticket, loads@),
{
    if loads.len() == 0 {
        return None;
    }
    match strategy {
        LoadBalancingStrategy::RoundRobin => Some(ticket % loads.len()),
        _ => Some(p2c_select(loads)),
    }
}

} // verus!
