use axum_reverse_proxy::balanced_proxy::Change;
use axum_reverse_proxy::docker_discovery::{
    container_to_look_up, container_to_service, determine_port, determine_service_path,
    discover_containers, get_container_ip, list_filters, ContainerEvent, ContainerNetwork,
    ContainerSummary,
};
use axum_reverse_proxy::docker_router::{no_service, SingleServiceDiscovery};
use axum_reverse_proxy::{
    DockerDiscovery, DockerDiscoveryConfig, DockerRouter, LoadBalancingStrategy,
    PortDetectionStrategy,
};

fn container(name: &str, labels: &[(&str, &str)], ip: &str, ports: &[u16]) -> ContainerSummary {
    ContainerSummary {
        names: Some(vec![format!("/{name}")]),
        labels: Some(labels.iter().map(|(k, v)| (k.to_string(), v.to_string())).collect()),
        networks: Some(vec![network("bridge", Some(ip))]),
        ports: Some(ports.to_vec()),
    }
}

fn network(name: &str, ip: Option<&str>) -> ContainerNetwork {
    ContainerNetwork { name: name.to_string(), ip_address: ip.map(|i| i.to_string()) }
}

fn path(config: &DockerDiscoveryConfig, c: &ContainerSummary, name: &str) -> String {
    determine_service_path(config, c, name)
}

#[test]
fn containers_become_services() {
    let config = DockerDiscoveryConfig::default();
    let c = container("web_1", &[], "172.17.0.2", &[8080, 80]);
    assert_eq!(
        container_to_service(&config, &c).ok(),
        Some(("/web".to_string(), "http://172.17.0.2:8080".to_string()))
    );
}

#[test]
fn paths_come_from_labels_then_services_then_names() {
    let config = DockerDiscoveryConfig::default();
    let all = [
        ("axum-proxy.path", "/custom"),
        ("com.docker.compose.service", "api"),
        ("com.docker.swarm.service.name", "stack.svc"),
    ];
    assert_eq!(path(&config, &container("c", &all, "1", &[1]), "c"), "/custom");
    assert_eq!(path(&config, &container("c", &all[1..], "1", &[1]), "c"), "/api");
    assert_eq!(path(&config, &container("c", &all[2..], "1", &[1]), "c"), "/stack");
    assert_eq!(path(&config, &container("c", &[], "1", &[1]), "c"), "/c");
    let config = DockerDiscovery::builder().use_container_names().build();
    assert_eq!(path(config.config(), &container("c", &all[1..], "1", &[1]), "c"), "/c");
    assert_eq!(path(config.config(), &container("c", &all, "1", &[1]), "c"), "/custom");
}

#[test]
fn names_lose_prefixes_and_instance_numbers() {
    let plain = DockerDiscoveryConfig::default();
    let bare = ContainerSummary { names: None, labels: None, networks: None, ports: None };
    for (name, expected) in [
        ("web_1", "/web"),
        ("web-12", "/web"),
        ("web-v2", "/web-v2"),
        ("my_web-3", "/my_web"),
        ("web_", "/web"),
        ("web", "/web"),
        ("_1", "/"),
        ("web_\u{664}", "/web"),
    ] {
        assert_eq!(path(&plain, &bare, name), expected, "{name}");
    }
    let stripped = DockerDiscovery::builder().strip_prefix("proj").build();
    for (name, expected) in [
        ("proj__web_1", "/web"),
        ("projweb", "/web"),
        ("other_web_1", "/other_web"),
    ] {
        assert_eq!(path(stripped.config(), &bare, name), expected, "{name}");
    }
}

#[test]
fn addresses_prefer_the_filtered_network() {
    let config = DockerDiscovery::builder().network("backend").build();
    let mut c = container("c", &[], "10.0.0.1", &[1]);
    c.networks = Some(vec![network("front", Some("10.0.0.1")), network("backend", Some("10.1.0.1"))]);
    assert_eq!(get_container_ip(config.config(), &c).ok().as_deref(), Some("10.1.0.1"));
    c.networks = Some(vec![
        network("none", None),
        network("empty", Some("")),
        network("front", Some("10.0.0.9")),
        network("backend", Some("")),
    ]);
    assert_eq!(get_container_ip(config.config(), &c).ok().as_deref(), Some("10.0.0.9"));
    c.networks = Some(vec![network("backend", Some(""))]);
    assert_eq!(
        get_container_ip(config.config(), &c).err().unwrap().message(),
        "No IP address found for container"
    );
    c.networks = None;
    assert_eq!(
        get_container_ip(config.config(), &c).err().unwrap().message(),
        "No network settings found"
    );
}

#[test]
fn ports_follow_the_strategy() {
    let with = |strategy: PortDetectionStrategy| {
        DockerDiscovery::builder().label_prefix("app").port_detection(strategy).build()
    };
    let labels = [("app.port", "8081"), ("other.port", "70000"), ("app.bad", "x")];
    let c = container("c", &labels, "1", &[0, 9000, 80, 443]);
    let port = |s: PortDetectionStrategy, c: &ContainerSummary| {
        determine_port(with(s).config(), c).map_err(|e| e.message())
    };
    assert_eq!(port(PortDetectionStrategy::FirstExposed, &c), Ok(9000));
    assert_eq!(port(PortDetectionStrategy::LowestPort, &c), Ok(80));
    assert_eq!(port(PortDetectionStrategy::Fixed(5), &c), Ok(5));
    assert_eq!(port(PortDetectionStrategy::FromLabel("port".to_string()), &c), Ok(8081));
    assert_eq!(
        port(PortDetectionStrategy::FromLabel("other.port".to_string()), &c),
        Err("Invalid port in label other.port: 70000".to_string())
    );
    assert_eq!(
        port(PortDetectionStrategy::FromLabel("bad".to_string()), &c),
        Err("Invalid port in label app.bad: x".to_string())
    );
    assert_eq!(
        port(PortDetectionStrategy::FromLabel("nope".to_string()), &c),
        Err("Port label not found: nope".to_string())
    );
    let closed = container("c", &[], "1", &[0]);
    assert_eq!(
        port(PortDetectionStrategy::LowestPort, &closed),
        Err("No exposed ports found".to_string())
    );
    let none = ContainerSummary { ports: None, ..closed };
    assert_eq!(
        port(PortDetectionStrategy::FirstExposed, &none),
        Err("No ports exposed".to_string())
    );
}

#[test]
fn nameless_containers_are_refused() {
    let config = DockerDiscoveryConfig::default();
    let mut c = container("c", &[], "1", &[1]);
    c.names = Some(Vec::new());
    assert_eq!(
        container_to_service(&config, &c).err().unwrap().message(),
        "Container has no name"
    );
}

#[test]
fn discoveries_are_configured() {
    let config = DockerDiscoveryConfig::default();
    assert_eq!(config.label_prefix, "axum-proxy");
    assert!(!config.discover_all);
    assert!(config.use_service_names);
    assert!(DockerDiscovery::everything().config().discover_all);

    let labeled = DockerDiscovery::labeled("proxy.enable=yes").ok().unwrap();
    assert_eq!(
        labeled.config().required_labels,
        vec![("proxy.enable".to_string(), "yes".to_string())]
    );
    let labeled = DockerDiscovery::labeled("proxy.enable").ok().unwrap();
    assert_eq!(labeled.config().required_labels[0].1, "true");
    assert_eq!(
        DockerDiscovery::labeled("a=b=c").err().unwrap().message(),
        "Invalid label format"
    );

    let built = DockerDiscovery::builder()
        .require_label("a", "1")
        .require_label("b", "2")
        .network("net")
        .build();
    let filters = list_filters(built.config());
    assert_eq!(filters.labels, vec!["a=1", "b=2"]);
    assert_eq!(filters.network.as_deref(), Some("net"));
    let all = DockerDiscovery::builder().require_label("a", "1").discover_all_services().build();
    assert!(list_filters(all.config()).labels.is_empty());
    assert_eq!(all.config().clone().required_labels.len(), 1);
}

#[test]
fn services_are_collected_and_reported() {
    let mut discovery = DockerDiscovery::everything();
    let containers = vec![
        container("web_1", &[], "10.0.0.1", &[80]),
        container("api_1", &[], "10.0.0.2", &[81]),
        container("web_2", &[], "10.0.0.3", &[80]),
    ];
    let changes = discovery.initialize(&containers).ok().unwrap();
    assert_eq!(changes.len(), 2);
    let mut reported: Vec<(String, String)> = changes
        .into_iter()
        .map(|c| match c {
            Change::Insert(path, url) => (path, url),
            Change::Remove(_) => panic!("removed"),
        })
        .collect();
    reported.sort();
    assert_eq!(
        reported,
        vec![
            ("/api".to_string(), "http://10.0.0.2:81".to_string()),
            ("/web".to_string(), "http://10.0.0.3:80".to_string()),
        ]
    );
    assert_eq!(discovery.service("/web").map(|s| s.as_str()), Some("http://10.0.0.3:80"));

    // One container without a service keeps the table as it was.
    let broken = vec![
        container("new_1", &[], "10.0.0.9", &[80]),
        container("web_1", &[], "", &[80]),
    ];
    assert!(discover_containers(discovery.config(), &broken).is_err());
    assert!(discovery.initialize(&broken).is_err());
    assert!(discovery.service("/new").is_none());
    assert!(discovery.service("/api").is_some());
}

#[test]
fn started_containers_are_looked_up_and_added() {
    let event = |id: Option<&str>, is_container: Option<bool>, action: Option<&str>| {
        container_to_look_up(&ContainerEvent {
            container_id: id.map(|i| i.to_string()),
            is_container,
            action: action.map(|a| a.to_string()),
        })
    };
    assert_eq!(event(Some("abc"), Some(true), Some("start")).as_deref(), Some("abc"));
    assert_eq!(event(Some("abc"), Some(true), Some("stop")), None);
    assert_eq!(event(Some("abc"), Some(true), Some("die")), None);
    assert_eq!(event(Some("abc"), Some(false), Some("start")), None);
    assert_eq!(event(Some("abc"), None, Some("start")), None);
    assert_eq!(event(None, Some(true), Some("start")), None);

    let mut discovery = DockerDiscovery::everything();
    match discovery.handle_event(Some(&container("web_1", &[], "10.0.0.1", &[80]))) {
        Some(Change::Insert(path, url)) => {
            assert_eq!(path, "/web");
            assert_eq!(url, "http://10.0.0.1:80");
        }
        _ => panic!("not added"),
    }
    assert!(discovery.service("/web").is_some());
    assert!(discovery.handle_event(Some(&container("x", &[], "", &[80]))).is_none());
    assert!(discovery.handle_event(None).is_none());
    assert!(discovery.service("/x").is_none());
}

#[test]
fn single_services_are_reported_once() {
    let mut discovery = SingleServiceDiscovery::new("http://10.0.0.1:80".to_string());
    match discovery.next_change() {
        Some(Change::Insert(0, service)) => assert_eq!(service, "http://10.0.0.1:80"),
        _ => panic!("not reported"),
    }
    assert!(discovery.next_change().is_none());
    assert!(discovery.next_change().is_none());
}

#[test]
fn routes_go_to_the_longest_prefix() {
    let mut router: DockerRouter<u8> = DockerRouter::new();
    assert_eq!(router.strategy(), LoadBalancingStrategy::RoundRobin);
    assert!(router.route("/api").is_none());
    router.on_change(Change::Insert("/api".to_string(), 1));
    router.on_change(Change::Insert("/api/v2".to_string(), 2));
    router.on_change(Change::Insert("/web".to_string(), 3));
    assert_eq!(router.route("/api/v1/x"), Some(&1));
    assert_eq!(router.route("/api/v2/x"), Some(&2));
    assert_eq!(router.route("/api/v2"), Some(&2));
    assert_eq!(router.route("/other"), None);
    router.on_change(Change::Insert("/api".to_string(), 9));
    assert_eq!(router.route("/api"), Some(&9));
    router.on_change(Change::Remove("/api".to_string()));
    assert_eq!(router.route("/api"), None);
    assert_eq!(router.route("/api/v2"), Some(&2));
    let router = router.with_strategy(LoadBalancingStrategy::P2cPendingRequests);
    assert_eq!(router.strategy(), LoadBalancingStrategy::P2cPendingRequests);
    let answer = no_service();
    assert_eq!(answer.status, 404);
    assert_eq!(answer.body, "No service found for this path");
}
