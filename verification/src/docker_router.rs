//! Routes to services that are discovered in containers.
use crate::balanced_proxy::{Change, LoadBalancingStrategy};
use crate::message::{plain_answer, Answer};
use crate::table::{is_longest_prefix, TextTable};
use vstd::prelude::*;

verus! {

/// A discovery that reports a single service, once.
pub struct SingleServiceDiscovery {
    service: String,
    emitted: bool,
}

/// What a [`SingleServiceDiscovery`] has to report.
pub struct SingleView {
    pub service: Seq<char>,
    pub emitted: bool,
}

impl View for SingleServiceDiscovery {
    type V = SingleView;

    closed spec fn view(&self) -> SingleView {
        SingleView { service: self.service@, emitted: self.emitted }
    }
}

impl SingleServiceDiscovery {
    /// A discovery that has not reported its service yet.
    pub fn new(service: String) -> (r: Self)
        ensures
            r@ == (SingleView { service: service@, emitted: false }),
    {
        SingleServiceDiscovery { service, emitted: false }
    }

    /// The next change: the service the first time, and then no more.
    pub fn next_change(&mut self) -> (r: Option<Change<usize, String>>)
        ensures
            final(self)@ == (SingleView { emitted: true, ..old(self)@ }),
            r is Some <==> !old(self)@.emitted,
            r matches Some(change) ==> change matches Change::Insert(key, service) && key == 0
                && service@ == old(self)@.service,
    {
        if self.emitted {
            None
        } else {
            self.emitted = true;
            Some(Change::Insert(0, self.service.clone()))
        }
    }
}

/// The answer where no service is found.
pub fn no_service() -> (r: Answer)
    ensures
        r@ == plain_answer(404, "No service found for this path"@),
{
    Answer::plain(404, "No service found for this path")
}

/// The routes to discovered services, by path prefix.
pub struct DockerRouter<P> {
    strategy: LoadBalancingStrategy,
    proxies: TextTable<P>,
}

/// What a [`DockerRouter`] is made of.
pub struct RouterView<P> {
    pub strategy: LoadBalancingStrategy,
    pub proxies: Map<Seq<char>, P>,
}

impl<P> View for DockerRouter<P> {
    type V = RouterView<P>;

    closed spec fn view(&self) -> RouterView<P> {
        RouterView { strategy: self.strategy, proxies: self.proxies@ }
    }
}

impl<P> DockerRouter<P> {
    /// A router with no routes, with round-robin balancing.
    pub fn new() -> (r: Self)
        ensures
            r@ == (RouterView {
                strategy: LoadBalancingStrategy::RoundRobin,
                proxies: Map::<Seq<char>, P>::empty(),
            }),
    {
        DockerRouter { strategy: LoadBalancingStrategy::RoundRobin, proxies: TextTable::new() }
    }

    /// Set the load balancing strategy.
    pub fn with_strategy(self, strategy: LoadBalancingStrategy) -> (r: Self)
        ensures
            r@ == (RouterView { strategy, ..self@ }),
    {
        DockerRouter { strategy, proxies: self.proxies }
    }

    /// The load balancing strategy.
    pub fn strategy(&self) -> (r: LoadBalancingStrategy)
        ensures
            r == self@.strategy,
    {
        self.strategy
    }

    /// Take in a change that the discovery reports: a proxy for a path, or none any more.
    pub fn on_change(&mut self, change: Change<String, P>)
        ensures
            final(self)@ == (RouterView {
                proxies: match change {
                    Change::Insert(path, proxy) => old(self)@.proxies.insert(path@, proxy),
                    Change::Remove(path) => old(self)@.proxies.remove(path@),
                },
                ..old(self)@
            }),
    {
        match change {
            Change::Insert(path, proxy) => self.proxies.insert(path, proxy),
            Change::Remove(path) => self.proxies.remove(path.as_str()),
        }
    }

    /// The proxy for a request path: the one with the longest prefix that the path starts with.
    pub fn route(&self, path: &str) -> (r: Option<&P>)
        ensures
            match r {
                Some(p) => exists|k: Seq<char>| #[trigger]
                    is_longest_prefix(self@.proxies, path@, k) && *p == self@.proxies[k],
                None => forall|k: Seq<char>| #[trigger]
                    self@.proxies.contains_key(k) ==> !k.is_prefix_of(path@),
            },
    {
        assert(self@.proxies == self.proxies@);
        self.proxies.longest_prefix(path)
    }
}

/// There is at most one longest prefix, so the route of a path is determined.
pub proof fn law_route_is_determined<P>(
    proxies: Map<Seq<char>, P>,
    path: Seq<char>,
    a: Seq<char>,
    b: Seq<char>,
)
    requires
        is_longest_prefix(proxies, path, a),
        is_longest_prefix(proxies, path, b),
    ensures
        a == b,
{
    assert(a.len() == b.len());
    assert(a =~= path.take(a.len() as int));
    assert(b =~= path.take(b.len() as int));
}

/// A route that was added is found for its own path, until it is removed.
pub proof fn law_added_route_is_found<P>(proxies: Map<Seq<char>, P>, path: Seq<char>, proxy: P)
    ensures
        is_longest_prefix(proxies.insert(path, proxy), path, path),
        proxies.insert(path, proxy)[path] == proxy,
        !is_longest_prefix(proxies.insert(path, proxy).remove(path), path, path),
{
    assert(path =~= path.take(path.len() as int));
}

} // verus!
