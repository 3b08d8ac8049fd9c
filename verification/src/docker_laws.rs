//! What holds of every container that is discovered, and of every path that is routed.
use crate::docker_discovery::{
    address_on, all_numeric, behind_separator, container_address, exposed, first_address,
    has_address, label_in, label_of, law_lowest_port_is_lowest, lemma_behind_last_bound, lowest,
    port_label, required_label, service_of, service_path, service_port, services_in,
    started_container, wanted_events, wanted_labels, without_instance, without_project, ConfigView,
    ContainerView, ErrorKindView, NetworkView, PortView,
};
use crate::table::is_longest_prefix;
use crate::text::{decimal, number, split};
use crate::text_laws::{
    law_first_occurrence, law_last_occurrence, law_trim_matches, law_what_is_between_is_a_piece,
    run_of,
};
use vstd::prelude::*;

verus! {

proof fn lemma_first_exposed(ports: Seq<u16>, i: int)
    requires
        0 <= i < ports.len(),
        ports[i] > 0,
        forall|j: int| 0 <= j < i ==> ports[j] == 0,
    ensures
        exposed(ports).len() > 0,
        exposed(ports)[0] == ports[i],
    decreases ports.len(),
{
    let less = ports.drop_last();
    if i < less.len() {
        lemma_first_exposed(less, i);
    } else {
        lemma_none_exposed(less);
    }
}

proof fn lemma_none_exposed(ports: Seq<u16>)
    requires
        forall|j: int| 0 <= j < ports.len() ==> ports[j] == 0,
    ensures
        exposed(ports) == Seq::<u16>::empty(),
    decreases ports.len(),
{
    if ports.len() > 0 {
        lemma_none_exposed(ports.drop_last());
    }
}

proof fn lemma_exposed(ports: Seq<u16>)
    ensures
        forall|p: u16| #[trigger] exposed(ports).contains(p) <==> ports.contains(p) && p > 0,
    decreases ports.len(),
{
    if ports.len() > 0 {
        let less = ports.drop_last();
        lemma_exposed(less);
        assert forall|p: u16| #[trigger]
            exposed(ports).contains(p) <==> ports.contains(p) && p > 0 by {
            crate::headers::lemma_contains_push(less, ports.last(), p);
            crate::headers::lemma_contains_push(exposed(less), ports.last(), p);
            assert(less.push(ports.last()) =~= ports);
        }
    }
}

/// Under `FirstExposed`, the port of a service is the first of its container's ports that is above
/// zero, whatever ports come behind it.
pub proof fn law_first_exposed_port(config: ConfigView, c: ContainerView, ports: Seq<u16>, i: int)
    requires
        config.port_detection == PortView::FirstExposed,
        c.ports == Some(ports),
        0 <= i < ports.len(),
        ports[i] > 0,
        forall|j: int| 0 <= j < i ==> ports[j] == 0,
    ensures
        service_port(config, c) == Ok::<u16, ErrorKindView>(ports[i]),
{
    lemma_first_exposed(ports, i);
}

/// Under `LowestPort`, the port of a service is one of its container's ports that are above zero,
/// and none of those is lower.
pub proof fn law_lowest_port(config: ConfigView, c: ContainerView, ports: Seq<u16>, i: int)
    requires
        config.port_detection == PortView::LowestPort,
        c.ports == Some(ports),
        0 <= i < ports.len(),
        ports[i] > 0,
    ensures
        service_port(config, c) is Ok,
        service_port(config, c)->Ok_0 > 0,
        ports.contains(service_port(config, c)->Ok_0),
        service_port(config, c)->Ok_0 <= ports[i],
{
    lemma_exposed(ports);
    assert(ports.contains(ports[i]));
    assert(exposed(ports).contains(ports[i]));
    law_lowest_port_is_lowest(exposed(ports));
    let k = choose|k: int| 0 <= k < exposed(ports).len() && exposed(ports)[k] == ports[i];
    assert(lowest(exposed(ports)) <= exposed(ports)[k]);
    let p = lowest(exposed(ports));
    assert(exposed(ports).contains(p));
    assert(ports.contains(p) && p > 0);
    assert(service_port(config, c) == Ok::<u16, ErrorKindView>(p));
}

/// A container without ports, and one none of whose ports is above zero, gives no port under either
/// strategy.
pub proof fn law_no_exposed_port(config: ConfigView, c: ContainerView)
    requires
        config.port_detection == PortView::FirstExposed || config.port_detection
            == PortView::LowestPort,
        c.ports is None || forall|j: int| 0 <= j < c.ports->0.len() ==> c.ports->0[j] == 0,
    ensures
        c.ports is None ==> service_port(config, c) == Err::<u16, ErrorKindView>(
            ErrorKindView::NoPortsExposed,
        ),
        c.ports is Some ==> service_port(config, c) == Err::<u16, ErrorKindView>(
            ErrorKindView::NoExposedPorts,
        ),
{
    if c.ports is Some {
        lemma_none_exposed(c.ports->0);
    }
}

/// A fixed port is taken as it is, whatever the container exposes; a port from a label is the
/// number that the label writes, and there is none where it writes no port or is missing. A label
/// without a dot in its name is looked up under the prefix.
pub proof fn law_given_port(
    config: ConfigView,
    c: ContainerView,
    port: u16,
    name: Seq<char>,
    value: Seq<char>,
    n: nat,
)
    requires
        n <= 65535,
    ensures
        config.port_detection == PortView::Fixed(port) ==> service_port(config, c) == Ok::<
            u16,
            ErrorKindView,
        >(port),
        name.contains('.') ==> port_label(config.label_prefix, name) == name,
        !name.contains('.') ==> port_label(config.label_prefix, name) == config.label_prefix + seq![
            '.',
        ] + name,
        config.port_detection == PortView::FromLabel(name) ==> ({
            let label = port_label(config.label_prefix, name);
            &&& label_of(c, label) == Some(value) && number(value, 65535) == Some(n)
                ==> service_port(config, c) == Ok::<u16, ErrorKindView>(n as u16)
            &&& label_of(c, label) == Some(value) && number(value, 65535) is None ==> service_port(
                config,
                c,
            ) == Err::<u16, ErrorKindView>(ErrorKindView::InvalidPort { label, value })
            &&& label_of(c, label) is None ==> service_port(config, c) == Err::<
                u16,
                ErrorKindView,
            >(ErrorKindView::PortLabelNotFound { label: name })
        }),
{
    reveal_strlit(".");
    assert("."@ =~= seq!['.']);
}

/// A label has the value that stands first under its key, and none where no label has the key.
pub proof fn law_label(
    c: ContainerView,
    a: Seq<(Seq<char>, Seq<char>)>,
    key: Seq<char>,
    value: Seq<char>,
    b: Seq<(Seq<char>, Seq<char>)>,
)
    requires
        forall|i: int| 0 <= i < a.len() ==> (#[trigger] a[i]).0 != key,
    ensures
        c.labels == Some(a + seq![(key, value)] + b) ==> label_of(c, key) == Some(value),
        c.labels == Some(a) ==> label_of(c, key) is None,
        c.labels is None ==> label_of(c, key) is None,
    decreases a.len(),
{
    let all = a + seq![(key, value)] + b;
    lemma_label_in(a, key, value, b);
}

proof fn lemma_label_in(
    a: Seq<(Seq<char>, Seq<char>)>,
    key: Seq<char>,
    value: Seq<char>,
    b: Seq<(Seq<char>, Seq<char>)>,
)
    requires
        forall|i: int| 0 <= i < a.len() ==> (#[trigger] a[i]).0 != key,
    ensures
        label_in(a + seq![(key, value)] + b, key) == Some(value),
        label_in(a, key) is None,
    decreases a.len(),
{
    let all = a + seq![(key, value)] + b;
    if a.len() == 0 {
        assert(all[0] == (key, value));
    } else {
        let less = a.skip(1);
        assert forall|i: int| 0 <= i < less.len() implies (#[trigger] less[i]).0 != key by {
            assert(less[i] == a[i + 1]);
        }
        lemma_label_in(less, key, value, b);
        assert(all[0] == a[0]);
        assert(all.skip(1) =~= less + seq![(key, value)] + b);
    }
}

/// The prefix to strip is taken off the front of a name, with the underscores behind it; a name
/// that does not start with it stays whole.
pub proof fn law_without_project(
    name: Seq<char>,
    prefix: Seq<char>,
    underscores: nat,
    rest: Seq<char>,
)
    requires
        rest.len() > 0 ==> rest[0] != '_',
    ensures
        without_project(prefix + run_of('_', underscores) + rest, Some(prefix)) == rest,
        without_project(name, None) == name,
        name.len() < prefix.len() || name.take(prefix.len() as int) != prefix ==> without_project(
            name,
            Some(prefix),
        ) == name,
{
    let s = prefix + run_of('_', underscores) + rest;
    assert(prefix =~= s.take(prefix.len() as int));
    let tail = s.skip(prefix.len() as int);
    assert(tail =~= run_of('_', underscores) + rest);
    law_trim_matches(rest, '_', underscores);
    if rest.len() == 0 {
        assert(tail =~= run_of('_', underscores));
        assert(rest =~= Seq::<char>::empty());
    }
    if prefix.is_prefix_of(name) {
        assert(name.take(prefix.len() as int) =~= prefix);
    }
}

/// What stands behind the last underscore or hyphen of a name is taken off with it where it is
/// numeric throughout; otherwise, and where there is none, the name stays whole.
pub proof fn law_without_instance(name: Seq<char>, separator: char, last: Seq<char>)
    requires
        !last.contains('_'),
        !last.contains('-'),
        separator == '_' || separator == '-',
    ensures
        (forall|i: int|
            0 <= i < last.len() ==> crate::docker_discovery::is_numeric(#[trigger] last[i]))
            ==> without_instance(name.push(separator) + last) == name,
        (exists|i: int|
            0 <= i < last.len() && !crate::docker_discovery::is_numeric(#[trigger] last[i]))
            ==> without_instance(name.push(separator) + last) == name.push(separator) + last,
        without_instance(last) == last,
{
    let s = name.push(separator) + last;
    let k = name.len() as int + 1;
    let other = if separator == '_' {
        '-'
    } else {
        '_'
    };
    law_last_occurrence(name, separator, last);
    assert forall|j: int| k <= j < s.len() implies s[j] != other by {
        assert(last.contains(last[j - k]));
    }
    lemma_behind_last_bound(s, other, k);
    assert(behind_separator(s) == k);
    assert(s.skip(k) =~= last);
    assert(s.take(k - 1) =~= name);
    if exists|i: int|
        0 <= i < last.len() && !crate::docker_discovery::is_numeric(#[trigger] last[i]) {
        assert(!all_numeric(last));
    }
    law_last_occurrence(name, '_', last);
    law_last_occurrence(name, '-', last);
}

/// The path of a service: its path label as it is, whatever else is known; else, where service
/// names are used, a slash and the name of the compose service, or a slash and the name of the
/// swarm service up to the first dot; else a slash and the name of the container without project
/// and instance.
pub proof fn law_service_path(
    config: ConfigView,
    c: ContainerView,
    name: Seq<char>,
    value: Seq<char>,
    tail: Seq<char>,
)
    ensures
        ({
            let labelled = label_of(c, config.label_prefix + ".path"@);
            let compose = label_of(c, "com.docker.compose.service"@);
            let swarm = label_of(c, "com.docker.swarm.service.name"@);
            let path = service_path(config, c, name);
            &&& labelled == Some(value) ==> path == value
            &&& labelled is None && config.use_service_names && compose == Some(value) ==> path
                == seq!['/'] + value
            &&& labelled is None && config.use_service_names && compose is None && !value.contains(
                '.',
            ) && (swarm == Some(value) || swarm == Some(value.push('.') + tail)) ==> path == seq![
                '/',
            ] + value
            &&& labelled is None && (!config.use_service_names || (compose is None && swarm is None))
                ==> path == seq!['/'] + without_instance(
                without_project(name, config.strip_prefix),
            )
        }),
{
    reveal_strlit("/");
    assert("/"@ =~= seq!['/']);
    if !value.contains('.') {
        law_first_occurrence(value, '.', tail);
    }
}

proof fn lemma_first_address(a: Seq<NetworkView>, n: NetworkView, b: Seq<NetworkView>)
    requires
        forall|i: int| 0 <= i < a.len() ==> !has_address(#[trigger] a[i]),
    ensures
        has_address(n) ==> first_address(a + seq![n] + b) == n.ip_address,
        first_address(a) is None,
    decreases a.len(),
{
    let all = a + seq![n] + b;
    if a.len() == 0 {
        assert(all[0] == n);
    } else {
        let less = a.skip(1);
        assert forall|i: int| 0 <= i < less.len() implies !has_address(#[trigger] less[i]) by {
            assert(less[i] == a[i + 1]);
        }
        lemma_first_address(less, n, b);
        assert(all[0] == a[0]);
        assert(all.skip(1) =~= less + seq![n] + b);
    }
}

proof fn lemma_address_on(
    a: Seq<NetworkView>,
    n: NetworkView,
    b: Seq<NetworkView>,
    name: Seq<char>,
)
    requires
        forall|i: int| 0 <= i < a.len() ==> (#[trigger] a[i]).name != name,
    ensures
        n.name == name && has_address(n) ==> address_on(a + seq![n] + b, name) == n.ip_address,
        n.name == name && !has_address(n) ==> address_on(a + seq![n] + b, name) is None,
        address_on(a, name) is None,
    decreases a.len(),
{
    let all = a + seq![n] + b;
    if a.len() == 0 {
        assert(all[0] == n);
    } else {
        let less = a.skip(1);
        assert forall|i: int| 0 <= i < less.len() implies (#[trigger] less[i]).name != name by {
            assert(less[i] == a[i + 1]);
        }
        lemma_address_on(less, n, b, name);
        assert(all[0] == a[0]);
        assert(all.skip(1) =~= less + seq![n] + b);
    }
}

/// Whether a network has an address that is not empty.
pub open spec fn has_ip(n: NetworkView, ip: Seq<char>) -> bool {
    n.ip_address == Some(ip) && ip.len() > 0
}

/// Whether a network has no address, or an empty one.
pub open spec fn has_no_ip(n: NetworkView) -> bool {
    n.ip_address is None || n.ip_address->0.len() == 0
}

/// The address of a container is that on the network which is filtered for, wherever that network
/// stands and whatever others there are.
pub proof fn law_address_on_the_network(
    config: ConfigView,
    c: ContainerView,
    a: Seq<NetworkView>,
    n: NetworkView,
    b: Seq<NetworkView>,
    ip: Seq<char>,
)
    requires
        c.networks == Some(a + seq![n] + b),
        config.network_filter == Some(n.name),
        forall|i: int| 0 <= i < a.len() ==> (#[trigger] a[i]).name != n.name,
        has_ip(n, ip),
    ensures
        container_address(config, c) == Ok::<Seq<char>, ErrorKindView>(ip),
{
    lemma_address_on(a, n, b, n.name);
}

/// Without a filter, and where the network that is filtered for is missing or has no address, the
/// address of a container is the first one that is not empty.
pub proof fn law_first_address(
    config: ConfigView,
    c: ContainerView,
    a: Seq<NetworkView>,
    n: NetworkView,
    b: Seq<NetworkView>,
    ip: Seq<char>,
)
    requires
        c.networks == Some(a + seq![n] + b),
        forall|i: int| 0 <= i < a.len() ==> has_no_ip(#[trigger] a[i]),
        has_ip(n, ip),
        config.network_filter matches Some(name) ==> forall|i: int|
            0 <= i < c.networks->0.len() ==> (#[trigger] c.networks->0[i]).name != name
                || has_no_ip(c.networks->0[i]),
    ensures
        container_address(config, c) == Ok::<Seq<char>, ErrorKindView>(ip),
{
    lemma_first_address(a, n, b);
    if config.network_filter is Some {
        lemma_no_address_on(c.networks->0, config.network_filter->0);
    }
}

proof fn lemma_no_address_on(networks: Seq<NetworkView>, name: Seq<char>)
    requires
        forall|i: int|
            0 <= i < networks.len() ==> (#[trigger] networks[i]).name != name || has_no_ip(
                networks[i],
            ),
    ensures
        address_on(networks, name) is None,
    decreases networks.len(),
{
    if networks.len() > 0 {
        let less = networks.skip(1);
        assert forall|i: int| 0 <= i < less.len() implies (#[trigger] less[i]).name != name
            || has_no_ip(less[i]) by {
            assert(less[i] == networks[i + 1]);
        }
        lemma_no_address_on(less, name);
        assert(networks[0].name != name || has_no_ip(networks[0]));
    }
}

/// A container without networks, and one none of whose networks has an address, has none.
pub proof fn law_no_address(config: ConfigView, c: ContainerView)
    requires
        c.networks is None || forall|i: int|
            0 <= i < c.networks->0.len() ==> has_no_ip(#[trigger] c.networks->0[i]),
    ensures
        c.networks is None ==> container_address(config, c) == Err::<Seq<char>, ErrorKindView>(
            ErrorKindView::NoNetworkSettings,
        ),
        c.networks is Some ==> container_address(config, c) == Err::<Seq<char>, ErrorKindView>(
            ErrorKindView::NoIpAddress,
        ),
{
    if c.networks is Some {
        let networks = c.networks->0;
        assert forall|i: int| 0 <= i < networks.len() implies !has_address(
            #[trigger] networks[i],
        ) by {
            assert(has_no_ip(networks[i]));
        }
        lemma_first_address(
            networks,
            NetworkView { name: Seq::empty(), ip_address: None },
            Seq::empty(),
        );
        if config.network_filter is Some {
            lemma_no_address_on(networks, config.network_filter->0);
        }
    }
}

/// The service in a container: its path, from the first of its names without the slashes in front,
/// and `http://`, its address, a colon and its port in digits. A container without a name has none;
/// else the address decides over the error, and then the port.
pub proof fn law_service(
    config: ConfigView,
    c: ContainerView,
    slashes: nat,
    name: Seq<char>,
    others: Seq<Seq<char>>,
)
    requires
        name.len() > 0 ==> name[0] != '/',
    ensures
        c.names is None || c.names->0.len() == 0 ==> service_of(config, c) == Err::<
            (Seq<char>, Seq<char>),
            ErrorKindView,
        >(ErrorKindView::NoName),
        c.names == Some(seq![run_of('/', slashes) + name] + others) ==> ({
            let ip = container_address(config, c);
            let port = service_port(config, c);
            let r = service_of(config, c);
            &&& ip is Ok && port is Ok ==> r == Ok::<(Seq<char>, Seq<char>), ErrorKindView>(
                (
                    service_path(config, c, name),
                    "http://"@ + ip->Ok_0 + ":"@ + decimal(port->Ok_0 as nat),
                ),
            )
            &&& ip is Err ==> r == Err::<(Seq<char>, Seq<char>), ErrorKindView>(ip->Err_0)
            &&& ip is Ok && port is Err ==> r == Err::<(Seq<char>, Seq<char>), ErrorKindView>(
                port->Err_0,
            )
        }),
{
    law_trim_matches(name, '/', slashes);
    if name.len() == 0 {
        assert(run_of('/', slashes) + name =~= run_of('/', slashes));
        assert(name =~= Seq::<char>::empty());
    }
    let names = seq![run_of('/', slashes) + name] + others;
    assert(names[0] == run_of('/', slashes) + name);
}

/// The services in some containers: where every container gives one, each path is known under which
/// some container gives a service, with the service of the last of them, and no other path. Where
/// one gives none, the error is that of the first such container.
pub proof fn law_services(config: ConfigView, containers: Seq<ContainerView>)
    ensures
        services_in(config, containers) is Ok <==> forall|i: int|
            0 <= i < containers.len() ==> service_of(config, #[trigger] containers[i]) is Ok,
        services_in(config, containers) matches Ok(m) ==> {
            &&& forall|path: Seq<char>| #[trigger]
                m.contains_key(path) ==> exists|i: int|
                    0 <= i < containers.len() && service_of(config, #[trigger] containers[i])
                        == Ok::<(Seq<char>, Seq<char>), ErrorKindView>((path, m[path]))
            &&& forall|i: int|
                0 <= i < containers.len() ==> m.contains_key(
                    service_of(config, #[trigger] containers[i])->Ok_0.0,
                )
            &&& forall|i: int|
                0 <= i < containers.len() && (forall|j: int|
                    i < j < containers.len() ==> service_of(
                        config,
                        #[trigger] containers[j],
                    )->Ok_0.0 != service_of(config, containers[i])->Ok_0.0) ==> m[service_of(
                    config,
                    #[trigger] containers[i],
                )->Ok_0.0] == service_of(config, containers[i])->Ok_0.1
        },
        services_in(config, containers) matches Err(e) ==> exists|i: int|
            0 <= i < containers.len() && service_of(config, #[trigger] containers[i]) == Err::<
                (Seq<char>, Seq<char>),
                ErrorKindView,
            >(e) && forall|j: int|
                0 <= j < i ==> service_of(config, #[trigger] containers[j]) is Ok,
    decreases containers.len(),
{
    if containers.len() > 0 {
        let less = containers.drop_last();
        let n = containers.len() - 1;
        law_services(config, less);
        match services_in(config, less) {
            Err(e) => {
                let i = choose|i: int|
                    0 <= i < less.len() && service_of(config, #[trigger] less[i]) == Err::<
                        (Seq<char>, Seq<char>),
                        ErrorKindView,
                    >(e) && forall|j: int|
                        0 <= j < i ==> service_of(config, #[trigger] less[j]) is Ok;
                assert(containers[i] == less[i]);
                assert forall|j: int| 0 <= j < i implies service_of(
                    config,
                    #[trigger] containers[j],
                ) is Ok by {
                    assert(less[j] == containers[j]);
                }
            },
            Ok(m) => {
                assert forall|i: int| 0 <= i < n implies service_of(
                    config,
                    #[trigger] containers[i],
                ) is Ok by {
                    assert(less[i] == containers[i]);
                }
                assert(containers[n] == containers.last());
                if service_of(config, containers[n]) is Ok {
                    let (path, service) = service_of(config, containers[n])->Ok_0;
                    let all = m.insert(path, service);
                    assert forall|p: Seq<char>| #[trigger] all.contains_key(p) implies exists|
                        i: int,
                    |
                        0 <= i < containers.len() && service_of(config, #[trigger] containers[i])
                            == Ok::<(Seq<char>, Seq<char>), ErrorKindView>((p, all[p])) by {
                        if p == path {
                            assert(service_of(config, containers[n]) == Ok::<
                                (Seq<char>, Seq<char>),
                                ErrorKindView,
                            >((p, all[p])));
                        } else {
                            assert(m.contains_key(p));
                            let i = choose|i: int|
                                0 <= i < less.len() && service_of(config, #[trigger] less[i])
                                    == Ok::<(Seq<char>, Seq<char>), ErrorKindView>((p, m[p]));
                            assert(containers[i] == less[i]);
                        }
                    }
                    assert forall|i: int| 0 <= i < containers.len() implies all.contains_key(
                        service_of(config, #[trigger] containers[i])->Ok_0.0,
                    ) by {
                        if i < n {
                            assert(less[i] == containers[i]);
                        }
                    }
                    assert forall|i: int|
                        0 <= i < containers.len() && (forall|j: int|
                            i < j < containers.len() ==> service_of(
                                config,
                                #[trigger] containers[j],
                            )->Ok_0.0 != service_of(config, containers[i])->Ok_0.0) implies all[
                    service_of(config, #[trigger] containers[i])->Ok_0.0] == service_of(
                        config,
                        containers[i],
                    )->Ok_0.1 by {
                        if i < n {
                            assert(less[i] == containers[i]);
                            assert(service_of(config, containers[n])->Ok_0.0 != service_of(
                                config,
                                containers[i],
                            )->Ok_0.0);
                            assert forall|j: int| i < j < less.len() implies service_of(
                                config,
                                #[trigger] less[j],
                            )->Ok_0.0 != service_of(config, less[i])->Ok_0.0 by {
                                assert(less[j] == containers[j]);
                            }
                        }
                    }
                }
            },
        }
    }
}

/// A required label is a key and a value with an equals sign between them, or a key alone, which
/// stands for `true`; a text with two equals signs or more requires none.
pub proof fn law_required_label(key: Seq<char>, value: Seq<char>, more: Seq<char>)
    requires
        !key.contains('='),
        !value.contains('='),
    ensures
        required_label(key) == Some((key, "true"@)),
        required_label(key.push('=') + value) == Some((key, value)),
        required_label(key.push('=') + (value.push('=') + more)) is None,
{
    law_what_is_between_is_a_piece(key, value, more, '=');
    law_what_is_between_is_a_piece(value, key, value, '=');
    law_what_is_between_is_a_piece(key, key, value.push('=') + more, '=');
    crate::text_laws::law_pieces_make_the_text(more, '=');
    law_what_is_between_is_a_piece(value, value, more, '=');
    assert(split(key.push('=') + value, '=') =~= seq![key, value]);
}

/// Containers are asked for by every required label, each written as key, equals sign and value, in
/// order; where everything is discovered, by none.
pub proof fn law_wanted_labels(config: ConfigView, i: int)
    ensures
        config.discover_all ==> wanted_labels(config).len() == 0,
        !config.discover_all ==> wanted_labels(config).len() == config.required_labels.len(),
        !config.discover_all && 0 <= i < config.required_labels.len() ==> wanted_labels(config)[i]
            == config.required_labels[i].0 + seq!['='] + config.required_labels[i].1,
{
    reveal_strlit("=");
    assert("="@ =~= seq!['=']);
}

/// A container is looked up after an event exactly where the event says that a container was
/// started, and it is the one that the event names.
pub proof fn law_started_container(
    id: Option<Seq<char>>,
    is_container: Option<bool>,
    action: Option<Seq<char>>,
)
    ensures
        is_container == Some(true) && action == Some("start"@) ==> started_container(
            id,
            is_container,
            action,
        ) == id,
        is_container != Some(true) || action != Some("start"@) ==> started_container(
            id,
            is_container,
            action,
        ) is None,
        wanted_events() == seq!["start"@, "stop"@, "die"@],
{
}

/// The route of a path is a known prefix of it, and every other known prefix of it is shorter.
pub proof fn law_longest_prefix<V>(
    m: Map<Seq<char>, V>,
    path: Seq<char>,
    a: Seq<char>,
    b: Seq<char>,
)
    requires
        is_longest_prefix(m, path, a),
        m.contains_key(b),
        b.len() <= path.len(),
        path.take(b.len() as int) == b,
    ensures
        m.contains_key(a),
        a.len() <= path.len(),
        path.take(a.len() as int) == a,
        b == a || b.len() < a.len(),
{
    assert(b.is_prefix_of(path));
    assert(a =~= path.take(a.len() as int));
    assert(b =~= path.take(b.len() as int));
    if b.len() == a.len() {
        assert(a =~= b);
    }
}

/// A known prefix of a path is its route where no longer one is known.
pub proof fn law_prefix_is_the_route<V>(m: Map<Seq<char>, V>, path: Seq<char>, a: Seq<char>)
    requires
        m.contains_key(a),
        a.len() <= path.len(),
        path.take(a.len() as int) == a,
        forall|n: int|
            a.len() < n <= path.len() ==> !m.contains_key(#[trigger] path.take(n)),
    ensures
        is_longest_prefix(m, path, a),
{
    assert forall|k: Seq<char>| #[trigger]
        m.contains_key(k) && k.is_prefix_of(path) implies k.len() <= a.len() by {
        assert(path.take(k.len() as int) =~= k);
    }
}

} // verus!
