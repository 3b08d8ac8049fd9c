//! What holds of every choice between upstreams.
use crate::balanced_proxy::{
    is_choice, is_p2c_choice, latency_micros, lemma_position, load_of, lower_loaded, micros_of,
    next_average, one_less, one_more, position_of, turn, with_key, without_key,
    LoadBalancingStrategy, MetricsView,
};
use crate::retry::{at_least_one, retries, AttemptsView};
use core::time::Duration;
use vstd::prelude::*;
use vstd::std_specs::cmp::PartialEqSpec;

verus! {

/// Upstreams take turns from the first on: after each one it is the turn of the next, and after the
/// last of the first again.
pub proof fn law_turns(ticket: nat, n: nat)
    requires
        n > 0,
    ensures
        0 <= turn(ticket, n) < n,
        turn(0, n) == 0,
        turn(ticket, n) + 1 < n ==> turn(ticket + 1, n) == turn(ticket, n) + 1,
        turn(ticket, n) + 1 == n ==> turn(ticket + 1, n) == 0,
{
    let t = ticket as int;
    let m = n as int;
    let r = t % m;
    let q = t / m;
    assert(t == q * m + r && 0 <= r < m) by (nonlinear_arith)
        requires
            m > 0,
            r == t % m,
            q == t / m,
    ;
    if r + 1 < m {
        assert((q * m + (r + 1)) % m == r + 1) by (nonlinear_arith)
            requires
                m > 0,
                0 <= r + 1 < m,
        ;
    } else {
        assert(((q + 1) * m) % m == 0) by (nonlinear_arith)
            requires
                m > 0,
        ;
        assert((q + 1) * m == q * m + m) by (nonlinear_arith);
    }
    assert(0int % m == 0) by (nonlinear_arith)
        requires
            m > 0,
    ;
}

/// Of two upstreams the one with the lower load is taken, and the first of them where the loads are
/// equal.
pub proof fn law_lower_loaded(loads: Seq<u64>, i: int, j: int)
    requires
        0 <= i < loads.len(),
        0 <= j < loads.len(),
    ensures
        loads[i] < loads[j] ==> lower_loaded(loads, i, j) == i,
        loads[i] > loads[j] ==> lower_loaded(loads, i, j) == j,
        loads[i] == loads[j] ==> lower_loaded(loads, i, j) == i,
{
}

/// With one upstream that one is taken. With more, an upstream can be taken exactly where some
/// other one has no lower load.
pub proof fn law_p2c_choices(loads: Seq<u64>, r: int)
    requires
        loads.len() > 0,
    ensures
        loads.len() == 1 ==> (is_p2c_choice(loads, r) <==> r == 0),
        loads.len() > 1 && 0 <= r < loads.len() ==> (is_p2c_choice(loads, r) <==> exists|k: int|
            0 <= k < loads.len() && k != r && loads[r] <= #[trigger] loads[k]),
        loads.len() > 1 && is_p2c_choice(loads, r) ==> 0 <= r < loads.len(),
{
    if loads.len() > 1 {
        if is_p2c_choice(loads, r) {
            let (i, j) = choose|i: int, j: int|
                0 <= i < loads.len() && 0 <= j < loads.len() && i != j && r
                    == #[trigger] lower_loaded(loads, i, j);
            if r == i {
                assert(loads[r] <= loads[j]);
            } else {
                assert(loads[r] <= loads[i]);
            }
        }
        if 0 <= r < loads.len() && exists|k: int|
            0 <= k < loads.len() && k != r && loads[r] <= #[trigger] loads[k] {
            let k = choose|k: int|
                0 <= k < loads.len() && k != r && loads[r] <= #[trigger] loads[k];
            assert(lower_loaded(loads, r, k) == r);
        }
    }
}

/// There is a choice exactly where there is an upstream; round robin takes turns, and the other
/// strategies go by two loads.
pub proof fn law_choices(
    choice: Option<usize>,
    strategy: LoadBalancingStrategy,
    ticket: usize,
    loads: Seq<u64>,
)
    requires
        is_choice(choice, strategy, ticket, loads),
    ensures
        choice is None <==> loads.len() == 0,
        choice matches Some(i) ==> i < loads.len() && if strategy
            == LoadBalancingStrategy::RoundRobin {
            i == turn(ticket as nat, loads.len())
        } else {
            loads.len() == 1 || exists|k: int|
                0 <= k < loads.len() && k != i && loads[i as int] <= #[trigger] loads[k]
        },
{
    if choice is Some {
        let i = choice->0;
        if strategy == LoadBalancingStrategy::RoundRobin {
            law_turns(ticket as nat, loads.len());
        } else {
            law_p2c_choices(loads, i as int);
        }
    }
}

/// The load of an upstream is the number of its pending requests, or its average latency as it has
/// decayed, according to the strategy.
pub proof fn law_loads(m: MetricsView, decayed: nat)
    ensures
        load_of(m, LoadBalancingStrategy::P2cPendingRequests, decayed) == m.pending_requests,
        load_of(m, LoadBalancingStrategy::P2cPeakEwma, decayed) == decayed,
{
}

/// The first measurement is the average. A later one moves the decayed average a quarter of the way
/// up to it, rounded down, where it is higher, and leaves it where it is not.
pub proof fn law_averages(current: nat, decayed: nat, latency: nat)
    ensures
        current == 0 ==> next_average(current, decayed, latency) == latency,
        current > 0 && latency <= decayed ==> next_average(current, decayed, latency) == decayed,
        current > 0 && latency > decayed ==> next_average(current, decayed, latency) == decayed + (
        latency - decayed) / 4,
{
}

/// A latency is counted in microseconds, as it is below two to the power of 64.
pub proof fn law_latency(d: Duration)
    ensures
        micros_of(d) <= 0xffff_ffff_ffff_ffff ==> latency_micros(d) == micros_of(d),
        latency_micros(d) <= 0xffff_ffff_ffff_ffff,
{
}

/// Pending requests are counted one by one, up and down, and around where they reach the end.
pub proof fn law_pending_requests(n: nat)
    ensures
        n < usize::MAX ==> one_more(n) == n + 1,
        one_less(n + 1) == n,
        one_more(usize::MAX as nat) == 0,
        one_less(0) == usize::MAX,
{
}

/// An endpoint under a known key takes the place of the one that was there, and the key stays;
/// under a new key it comes behind all others. The others stay where they are.
pub proof fn law_insertion<K: PartialEq, E>(s: Seq<(K, E)>, key: K, endpoint: E, i: int)
    requires
        0 <= i <= s.len(),
        forall|j: int| 0 <= j < i ==> !(#[trigger] s[j]).0.eq_spec(&key),
        i == s.len() || s[i].0.eq_spec(&key),
    ensures
        i == s.len() ==> with_key(s, key, endpoint) == s + seq![(key, endpoint)],
        i < s.len() ==> with_key(s, key, endpoint) == s.take(i) + seq![(s[i].0, endpoint)] + s.skip(
            i + 1,
        ),
{
    lemma_position(s, key);
    let at = position_of(s, key);
    if at < i {
        assert(!s[at].0.eq_spec(&key));
    }
    if i < at {
        assert(!s[i].0.eq_spec(&key));
    }
    assert(at == i);
    if i == s.len() {
        assert(with_key(s, key, endpoint) =~= s + seq![(key, endpoint)]);
    } else {
        assert(with_key(s, key, endpoint) =~= s.take(i) + seq![(s[i].0, endpoint)] + s.skip(i + 1));
    }
}

/// Removing a key takes out every endpoint under it and leaves all others in order.
pub proof fn law_removal<K: PartialEq, E>(a: Seq<(K, E)>, b: Seq<(K, E)>, e: (K, E), key: K)
    ensures
        without_key(a + b, key) == without_key(a, key) + without_key(b, key),
        e.0.eq_spec(&key) ==> without_key(seq![e], key) == Seq::<(K, E)>::empty(),
        !e.0.eq_spec(&key) ==> without_key(seq![e], key) == seq![e],
    decreases b.len(),
{
    let one = seq![e];
    assert(one.drop_last() =~= Seq::<(K, E)>::empty());
    assert(without_key(one.drop_last(), key) =~= Seq::<(K, E)>::empty());
    assert(!e.0.eq_spec(&key) ==> without_key(one, key) =~= seq![e]);
    if b.len() == 0 {
        assert(a + b =~= a);
        assert(without_key(a + b, key) =~= without_key(a, key) + without_key(b, key));
    } else {
        law_removal(a, b.drop_last(), e, key);
        assert((a + b).drop_last() =~= a + b.drop_last());
        assert(without_key(a + b, key) =~= without_key(a, key) + without_key(b, key));
    }
}

/// As many attempts are made as are asked for, and one where none is; and a request is sent again
/// exactly where it failed to connect and another attempt is left.
pub proof fn law_attempts(n: nat, a: AttemptsView)
    ensures
        n >= 1 ==> at_least_one(n) == n,
        at_least_one(0) == 1,
        !retries(a, false),
        retries(a, true) <==> a.allowed >= a.made + 2,
{
}

} // verus!
