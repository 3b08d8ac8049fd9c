//! Discovery of services in running containers: which containers count, and what path, address
//! and port each of them gives.
use crate::balanced_proxy::Change;
use crate::table::TextTable;
use crate::text::{
    before, behind_last, chars_of, clone_text, decimal, decimal_text, find_from, is_digit,
    lemma_behind_last_is, lemma_find, number, opt_text, parse_number, same_text, split, split_on,
    starts_with, text_of, texts, trim_start_matches, without_leading,
};
use vstd::prelude::*;

verus! {

/// Whether a character is numeric in Unicode.
pub uninterp spec fn is_numeric(c: char) -> bool;

/// `char::is_numeric`: whether the character is in one of the general categories for numbers;
/// within ASCII these are the digits.
pub assume_specification[ char::is_numeric ](c: char) -> (r: bool)
    ensures
        r == is_numeric(c),
        c < '\u{80}' ==> r == is_digit(c),
;

/// How the port of a service is found.
#[derive(Debug)]
pub enum PortDetectionStrategy {
    /// Use the first exposed port.
    FirstExposed,
    /// Use the lowest numbered exposed port.
    LowestPort,
    /// Use a specific port number.
    Fixed(u16),
    /// Use port from label (e.g., "axum-proxy.port").
    FromLabel(String),
}

impl Clone for PortDetectionStrategy {
    fn clone(&self) -> (r: Self)
        ensures
            r == *self,
    {
        match self {
            PortDetectionStrategy::FirstExposed => PortDetectionStrategy::FirstExposed,
            PortDetectionStrategy::LowestPort => PortDetectionStrategy::LowestPort,
            PortDetectionStrategy::Fixed(port) => PortDetectionStrategy::Fixed(*port),
            PortDetectionStrategy::FromLabel(label) => PortDetectionStrategy::FromLabel(
                label.clone(),
            ),
        }
    }
}

/// How services are discovered.
#[derive(Debug)]
pub struct DockerDiscoveryConfig {
    /// Label prefix for configuration (e.g., "axum-proxy").
    pub label_prefix: String,
    /// If true, discovers all containers regardless of labels.
    pub discover_all: bool,
    /// Required labels for container discovery (if discover_all is false).
    pub required_labels: Vec<(String, String)>,
    /// Network filter - only discover containers on this network.
    pub network_filter: Option<String>,
    /// How to detect the port to use.
    pub port_detection: PortDetectionStrategy,
    /// Prefix to strip from service names (e.g., project name in compose).
    pub strip_prefix: Option<String>,
    /// Whether to use container names or service names for routing.
    pub use_service_names: bool,
}

/// Pairs of texts.
pub open spec fn pairs(v: Seq<(String, String)>) -> Seq<(Seq<char>, Seq<char>)> {
    v.map_values(|p: (String, String)| (p.0@, p.1@))
}

fn clone_pairs(v: &Vec<(String, String)>) -> (r: Vec<(String, String)>)
    ensures
        r@ == v@,
{
    let mut r: Vec<(String, String)> = Vec::new();
    let mut i: usize = 0;
    while i < v.len()
        invariant
            i <= v@.len(),
            r@ == v@.take(i as int),
        decreases v.len() - i,
    {
        r.push((v[i].0.clone(), v[i].1.clone()));
        i = i + 1;
    }
    assert(v@.take(v@.len() as int) =~= v@);
    r
}

/// What a configuration says.
pub struct ConfigView {
    pub label_prefix: Seq<char>,
    pub discover_all: bool,
    pub required_labels: Seq<(Seq<char>, Seq<char>)>,
    pub network_filter: Option<Seq<char>>,
    pub port_detection: PortView,
    pub strip_prefix: Option<Seq<char>>,
    pub use_service_names: bool,
}

/// How the port of a service is found.
pub enum PortView {
    FirstExposed,
    LowestPort,
    Fixed(u16),
    FromLabel(Seq<char>),
}

impl View for PortDetectionStrategy {
    type V = PortView;

    open spec fn view(&self) -> PortView {
        match self {
            PortDetectionStrategy::FirstExposed => PortView::FirstExposed,
            PortDetectionStrategy::LowestPort => PortView::LowestPort,
            PortDetectionStrategy::Fixed(port) => PortView::Fixed(*port),
            PortDetectionStrategy::FromLabel(label) => PortView::FromLabel(label@),
        }
    }
}

impl View for DockerDiscoveryConfig {
    type V = ConfigView;

    open spec fn view(&self) -> ConfigView {
        ConfigView {
            label_prefix: self.label_prefix@,
            discover_all: self.discover_all,
            required_labels: pairs(self.required_labels@),
            network_filter: opt_text(self.network_filter),
            port_detection: self.port_detection@,
            strip_prefix: opt_text(self.strip_prefix),
            use_service_names: self.use_service_names,
        }
    }
}

impl Clone for DockerDiscoveryConfig {
    fn clone(&self) -> (r: Self)
        ensures
            r@ == self@,
    {
        DockerDiscoveryConfig {
            label_prefix: self.label_prefix.clone(),
            discover_all: self.discover_all,
            required_labels: clone_pairs(&self.required_labels),
            network_filter: clone_text(&self.network_filter),
            port_detection: self.port_detection.clone(),
            strip_prefix: clone_text(&self.strip_prefix),
            use_service_names: self.use_service_names,
        }
    }
}

/// The default configuration.
pub open spec fn default_config() -> ConfigView {
    ConfigView {
        label_prefix: "axum-proxy"@,
        discover_all: false,
        required_labels: Seq::empty(),
        network_filter: None,
        port_detection: PortView::FirstExposed,
        strip_prefix: None,
        use_service_names: true,
    }
}

impl Default for DockerDiscoveryConfig {
    fn default() -> (r: Self)
        ensures
            r@ == default_config(),
    {
        let r = DockerDiscoveryConfig {
            label_prefix: "axum-proxy".to_owned(),
            discover_all: false,
            required_labels: Vec::new(),
            network_filter: None,
            port_detection: PortDetectionStrategy::FirstExposed,
            strip_prefix: None,
            use_service_names: true,
        };
        assert(r@.required_labels =~= Seq::empty());
        r
    }
}

/// Builds a [`DockerDiscoveryConfig`] step by step.
pub struct DockerDiscoveryBuilder {
    config: DockerDiscoveryConfig,
}

impl View for DockerDiscoveryBuilder {
    type V = ConfigView;

    closed spec fn view(&self) -> ConfigView {
        self.config@
    }
}

impl Default for DockerDiscoveryBuilder {
    fn default() -> (r: Self)
        ensures
            r@ == default_config(),
    {
        DockerDiscoveryBuilder { config: DockerDiscoveryConfig::default() }
    }
}

impl DockerDiscoveryBuilder {
    /// Set the prefix of the labels that configure a container.
    pub fn label_prefix(self, prefix: &str) -> (r: Self)
        ensures
            r@ == (ConfigView { label_prefix: prefix@, ..self@ }),
    {
        DockerDiscoveryBuilder {
            config: DockerDiscoveryConfig { label_prefix: prefix.to_owned(), ..self.config },
        }
    }

    /// Discover all containers, whatever their labels.
    pub fn discover_all_services(self) -> (r: Self)
        ensures
            r@ == (ConfigView { discover_all: true, ..self@ }),
    {
        DockerDiscoveryBuilder {
            config: DockerDiscoveryConfig { discover_all: true, ..self.config },
        }
    }

    /// Discover only containers with this label, too.
    pub fn require_label(self, key: &str, value: &str) -> (r: Self)
        ensures
            r@ == (ConfigView {
                required_labels: self@.required_labels.push((key@, value@)),
                ..self@
            }),
    {
        let mut config = self.config;
        let ghost was = config.required_labels@;
        config.required_labels.push((key.to_owned(), value.to_owned()));
        assert(pairs(config.required_labels@) =~= pairs(was).push((key@, value@)));
        DockerDiscoveryBuilder { config }
    }

    /// Discover only containers on this network.
    pub fn network(self, network: &str) -> (r: Self)
        ensures
            r@ == (ConfigView { network_filter: Some(network@), ..self@ }),
    {
        DockerDiscoveryBuilder {
            config: DockerDiscoveryConfig {
                network_filter: Some(network.to_owned()),
                ..self.config
            },
        }
    }

    /// Set how ports are found.
    pub fn port_detection(self, strategy: PortDetectionStrategy) -> (r: Self)
        ensures
            r@ == (ConfigView { port_detection: strategy@, ..self@ }),
    {
        DockerDiscoveryBuilder {
            config: DockerDiscoveryConfig { port_detection: strategy, ..self.config },
        }
    }

    /// Strip this prefix from container names.
    pub fn strip_prefix(self, prefix: &str) -> (r: Self)
        ensures
            r@ == (ConfigView { strip_prefix: Some(prefix@), ..self@ }),
    {
        DockerDiscoveryBuilder {
            config: DockerDiscoveryConfig { strip_prefix: Some(prefix.to_owned()), ..self.config },
        }
    }

    /// Route by container names, not by service names.
    pub fn use_container_names(self) -> (r: Self)
        ensures
            r@ == (ConfigView { use_service_names: false, ..self@ }),
    {
        DockerDiscoveryBuilder {
            config: DockerDiscoveryConfig { use_service_names: false, ..self.config },
        }
    }

    /// A discovery with the configuration that was built.
    pub fn build(self) -> (r: DockerDiscovery)
        ensures
            r@ == (DiscoveryView { config: self@, services: Map::empty() }),
    {
        DockerDiscovery::new(self.config)
    }
}

/// Why a container gives no service, or a label is no requirement.
#[derive(Debug)]
pub enum DiscoveryError {
    InvalidLabelFormat,
    NoName,
    NoNetworkSettings,
    NoIpAddress,
    InvalidPort { label: String, value: String },
    PortLabelNotFound { label: String },
    NoPortsExposed,
    NoExposedPorts,
}

/// What a [`DiscoveryError`] says.
pub enum ErrorKindView {
    InvalidLabelFormat,
    NoName,
    NoNetworkSettings,
    NoIpAddress,
    InvalidPort { label: Seq<char>, value: Seq<char> },
    PortLabelNotFound { label: Seq<char> },
    NoPortsExposed,
    NoExposedPorts,
}

impl View for DiscoveryError {
    type V = ErrorKindView;

    open spec fn view(&self) -> ErrorKindView {
        match self {
            DiscoveryError::InvalidLabelFormat => ErrorKindView::InvalidLabelFormat,
            DiscoveryError::NoName => ErrorKindView::NoName,
            DiscoveryError::NoNetworkSettings => ErrorKindView::NoNetworkSettings,
            DiscoveryError::NoIpAddress => ErrorKindView::NoIpAddress,
            DiscoveryError::InvalidPort { label, value } => ErrorKindView::InvalidPort {
                label: label@,
                value: value@,
            },
            DiscoveryError::PortLabelNotFound { label } => ErrorKindView::PortLabelNotFound {
                label: label@,
            },
            DiscoveryError::NoPortsExposed => ErrorKindView::NoPortsExposed,
            DiscoveryError::NoExposedPorts => ErrorKindView::NoExposedPorts,
        }
    }
}

/// The message of an error.
pub open spec fn discovery_message(e: ErrorKindView) -> Seq<char> {
    match e {
        ErrorKindView::InvalidLabelFormat => "Invalid label format"@,
        ErrorKindView::NoName => "Container has no name"@,
        ErrorKindView::NoNetworkSettings => "No network settings found"@,
        ErrorKindView::NoIpAddress => "No IP address found for container"@,
        ErrorKindView::InvalidPort { label, value } => "Invalid port in label "@ + label + ": "@
            + value,
        ErrorKindView::PortLabelNotFound { label } => "Port label not found: "@ + label,
        ErrorKindView::NoPortsExposed => "No ports exposed"@,
        ErrorKindView::NoExposedPorts => "No exposed ports found"@,
    }
}

impl DiscoveryError {
    /// The message of this error.
    pub fn message(&self) -> (r: String)
        ensures
            r@ == discovery_message(self@),
    {
        match self {
            DiscoveryError::InvalidLabelFormat => "Invalid label format".to_owned(),
            DiscoveryError::NoName => "Container has no name".to_owned(),
            DiscoveryError::NoNetworkSettings => "No network settings found".to_owned(),
            DiscoveryError::NoIpAddress => "No IP address found for container".to_owned(),
            DiscoveryError::InvalidPort { label, value } => {
                let mut r: String = "Invalid port in label ".to_owned();
                r.append(label.as_str());
                r.append(": ");
                r.append(value.as_str());
                r
            },
            DiscoveryError::PortLabelNotFound { label } => {
                let mut r: String = "Port label not found: ".to_owned();
                r.append(label.as_str());
                r
            },
            DiscoveryError::NoPortsExposed => "No ports exposed".to_owned(),
            DiscoveryError::NoExposedPorts => "No exposed ports found".to_owned(),
        }
    }
}

/// The label that a text requires: a key and a value with `=` between them, or a key alone, which
/// stands for the value `true`.
pub open spec fn required_label(label: Seq<char>) -> Option<(Seq<char>, Seq<char>)> {
    let parts = split(label, '=');
    if parts.len() == 2 {
        Some((parts[0], parts[1]))
    } else if parts.len() == 1 {
        Some((parts[0], "true"@))
    } else {
        None
    }
}

/// How a filter writes a label.
pub open spec fn label_filter(l: (Seq<char>, Seq<char>)) -> Seq<char> {
    l.0 + "="@ + l.1
}

/// The labels that running containers are asked for: all that are required, none where everything
/// is discovered.
pub open spec fn wanted_labels(c: ConfigView) -> Seq<Seq<char>> {
    if c.discover_all {
        Seq::empty()
    } else {
        c.required_labels.map_values(|l: (Seq<char>, Seq<char>)| label_filter(l))
    }
}

/// The filters for listing containers.
pub struct ListFilters {
    /// Labels that a container must have.
    pub labels: Vec<String>,
    /// The network that a container must be on.
    pub network: Option<String>,
}

/// The filters for listing containers.
pub fn list_filters(config: &DockerDiscoveryConfig) -> (r: ListFilters)
    ensures
        texts(r.labels@) == wanted_labels(config@),
        opt_text(r.network) == config@.network_filter,
{
    let mut labels: Vec<String> = Vec::new();
    if !config.discover_all {
        let ghost want = wanted_labels(config@);
        let mut i: usize = 0;
        while i < config.required_labels.len()
            invariant
                i <= config.required_labels@.len(),
                !config.discover_all,
                want == wanted_labels(config@),
                texts(labels@) == want.take(i as int),
            decreases config.required_labels.len() - i,
        {
            let ghost was = texts(labels@);
            let mut filter = config.required_labels[i].0.clone();
            filter.append("=");
            filter.append(config.required_labels[i].1.as_str());
            labels.push(filter);
            proof {
                assert(config@.required_labels[i as int] == (
                    config.required_labels@[i as int].0@,
                    config.required_labels@[i as int].1@,
                ));
                assert(texts(labels@) =~= was.push(filter@));
                assert(want.take(i + 1) =~= was.push(filter@));
            }
            i = i + 1;
        }
        assert(want.take(want.len() as int) =~= want);
    }
    assert(texts(labels@) =~= wanted_labels(config@));
    ListFilters { labels, network: clone_text(&config.network_filter) }
}

/// A network that a container is on.
pub struct ContainerNetwork {
    pub name: String,
    pub ip_address: Option<String>,
}

/// What is known of a container. The labels have distinct keys, and the networks distinct names.
pub struct ContainerSummary {
    pub names: Option<Vec<String>>,
    pub labels: Option<Vec<(String, String)>>,
    pub networks: Option<Vec<ContainerNetwork>>,
    /// The private ports.
    pub ports: Option<Vec<u16>>,
}

/// What is known of a network.
pub struct NetworkView {
    pub name: Seq<char>,
    pub ip_address: Option<Seq<char>>,
}

/// What is known of a container, as texts.
pub struct ContainerView {
    pub names: Option<Seq<Seq<char>>>,
    pub labels: Option<Seq<(Seq<char>, Seq<char>)>>,
    pub networks: Option<Seq<NetworkView>>,
    pub ports: Option<Seq<u16>>,
}

impl View for ContainerNetwork {
    type V = NetworkView;

    open spec fn view(&self) -> NetworkView {
        NetworkView { name: self.name@, ip_address: opt_text(self.ip_address) }
    }
}

impl View for ContainerSummary {
    type V = ContainerView;

    open spec fn view(&self) -> ContainerView {
        ContainerView {
            names: match self.names {
                Some(v) => Some(texts(v@)),
                None => None,
            },
            labels: match self.labels {
                Some(v) => Some(pairs(v@)),
                None => None,
            },
            networks: match self.networks {
                Some(v) => Some(v@.map_values(|n: ContainerNetwork| n@)),
                None => None,
            },
            ports: match self.ports {
                Some(v) => Some(v@),
                None => None,
            },
        }
    }
}

/// The value of a label in a list of labels.
pub open spec fn label_in(labels: Seq<(Seq<char>, Seq<char>)>, key: Seq<char>) -> Option<Seq<char>>
    decreases labels.len(),
{
    if labels.len() == 0 {
        None
    } else if labels[0].0 == key {
        Some(labels[0].1)
    } else {
        label_in(labels.skip(1), key)
    }
}

/// The value of a label of a container.
pub open spec fn label_of(c: ContainerView, key: Seq<char>) -> Option<Seq<char>> {
    match c.labels {
        Some(labels) => label_in(labels, key),
        None => None,
    }
}

/// The value of a label of a container.
fn label(container: &ContainerSummary, key: &str) -> (r: Option<String>)
    ensures
        opt_text(r) == label_of(container@, key@),
{
    match &container.labels {
        Some(labels) => {
            let ghost all = pairs(labels@);
            let mut i: usize = 0;
            assert(all.skip(0) =~= all);
            while i < labels.len()
                invariant
                    i <= labels@.len(),
                    all == pairs(labels@),
                    container@.labels == Some(all),
                    label_in(all.skip(i as int), key@) == label_in(all, key@),
                decreases labels.len() - i,
            {
                assert(all.skip(i as int)[0] == (labels@[i as int].0@, labels@[i as int].1@));
                if same_text(labels[i].0.as_str(), key) {
                    return Some(labels[i].1.clone());
                }
                assert(all.skip(i as int).skip(1) =~= all.skip(i + 1));
                i = i + 1;
            }
            None
        },
        None => None,
    }
}

/// `name` without the prefix that is to be stripped, and without the underscores behind it.
pub open spec fn without_project(name: Seq<char>, prefix: Option<Seq<char>>) -> Seq<char> {
    match prefix {
        Some(p) => if p.is_prefix_of(name) {
            trim_start_matches(name.skip(p.len() as int), '_')
        } else {
            name
        },
        None => name,
    }
}

/// The position behind the last `_` or `-`, or zero if there is none.
pub open spec fn behind_separator(s: Seq<char>) -> int {
    if behind_last(s, '_') > behind_last(s, '-') {
        behind_last(s, '_')
    } else {
        behind_last(s, '-')
    }
}

/// Whether every character is numeric.
pub open spec fn all_numeric(s: Seq<char>) -> bool {
    forall|i: int| 0 <= i < s.len() ==> is_numeric(#[trigger] s[i])
}

/// `name` without an instance number (e.g., `_1` or `-1`).
pub open spec fn without_instance(name: Seq<char>) -> Seq<char> {
    let i = behind_separator(name);
    if i > 0 && all_numeric(name.skip(i)) {
        name.take(i - 1)
    } else {
        name
    }
}

/// The path of a service: from the path label; else from the name of the compose service or of
/// the swarm service, where service names are used; else from the name of the container, without
/// project prefix and instance number.
pub open spec fn service_path(
    config: ConfigView,
    c: ContainerView,
    container_name: Seq<char>,
) -> Seq<char> {
    let compose = label_of(c, "com.docker.compose.service"@);
    let swarm = label_of(c, "com.docker.swarm.service.name"@);
    match label_of(c, config.label_prefix + ".path"@) {
        Some(path) => path,
        None => if config.use_service_names && compose is Some {
            "/"@ + compose->0
        } else if config.use_service_names && swarm is Some {
            "/"@ + before(swarm->0, '.')
        } else {
            "/"@ + without_instance(without_project(container_name, config.strip_prefix))
        },
    }
}

/// `name` without an instance number.
fn strip_instance(name: &str) -> (r: String)
    ensures
        r@ == without_instance(name@),
{
    let v = chars_of(name);
    let a: usize = crate::text::find_behind_last(&v, '_');
    let b: usize = crate::text::find_behind_last(&v, '-');
    let i: usize = if a > b {
        a
    } else {
        b
    };
    if i == 0 {
        return name.to_owned();
    }
    let ghost tail = name@.skip(i as int);
    let mut k: usize = i;
    while k < v.len()
        invariant
            0 < i <= k <= v@.len(),
            v@ == name@,
            i == behind_separator(name@),
            tail == name@.skip(i as int),
            forall|j: int| 0 <= j < k - i ==> is_numeric(#[trigger] tail[j]),
        decreases v.len() - k,
    {
        assert(tail[k - i] == v@[k as int]);
        if !v[k].is_numeric() {
            return name.to_owned();
        }
        k = k + 1;
    }
    assert(v@.subrange(0, i - 1) =~= v@.take(i - 1));
    text_of(&v, 0, i - 1)
}

/// A slash and the name.
fn slashed(name: &str) -> (r: String)
    ensures
        r@ == "/"@ + name@,
{
    let mut r: String = "/".to_owned();
    r.append(name);
    r
}

/// The path of a service.
pub fn determine_service_path(
    config: &DockerDiscoveryConfig,
    container: &ContainerSummary,
    container_name: &str,
) -> (r: String)
    ensures
        r@ == service_path(config@, container@, container_name@),
{
    let mut path_label = config.label_prefix.clone();
    path_label.append(".path");
    if let Some(path) = label(container, path_label.as_str()) {
        return path;
    }
    if config.use_service_names {
        if let Some(name) = label(container, "com.docker.compose.service") {
            return slashed(name.as_str());
        }
        if let Some(name) = label(container, "com.docker.swarm.service.name") {
            let v = chars_of(name.as_str());
            assert(v@.skip(0) =~= v@);
            let dot: usize = find_from(&v, 0, '.');
            assert(v@.subrange(0, dot as int) =~= v@.take(dot as int));
            return slashed(text_of(&v, 0, dot).as_str());
        }
    }
    let name: String = match &config.strip_prefix {
        Some(prefix) => {
            if starts_with(container_name, prefix.as_str()) {
                let v = chars_of(container_name);
                let n: usize = chars_of(prefix.as_str()).len();
                assert(v@.subrange(n as int, v@.len() as int) =~= v@.skip(n as int));
                without_leading(text_of(&v, n, v.len()).as_str(), '_')
            } else {
                container_name.to_owned()
            }
        },
        None => container_name.to_owned(),
    };
    slashed(strip_instance(name.as_str()).as_str())
}

/// Whether a network gives a container an address.
pub open spec fn has_address(n: NetworkView) -> bool {
    n.ip_address matches Some(ip) && ip.len() > 0
}

/// The first address in a list of networks.
pub open spec fn first_address(networks: Seq<NetworkView>) -> Option<Seq<char>>
    decreases networks.len(),
{
    if networks.len() == 0 {
        None
    } else if has_address(networks[0]) {
        networks[0].ip_address
    } else {
        first_address(networks.skip(1))
    }
}

/// The address on the network with this name.
pub open spec fn address_on(networks: Seq<NetworkView>, name: Seq<char>) -> Option<Seq<char>>
    decreases networks.len(),
{
    if networks.len() == 0 {
        None
    } else if networks[0].name == name {
        if has_address(networks[0]) {
            networks[0].ip_address
        } else {
            None
        }
    } else {
        address_on(networks.skip(1), name)
    }
}

/// The address of a container: on the network that is filtered for, else the first one.
pub open spec fn container_address(config: ConfigView, c: ContainerView) -> Result<
    Seq<char>,
    ErrorKindView,
> {
    match c.networks {
        None => Err(ErrorKindView::NoNetworkSettings),
        Some(networks) => {
            let preferred = match config.network_filter {
                Some(name) => address_on(networks, name),
                None => None,
            };
            match (preferred, first_address(networks)) {
                (Some(ip), _) => Ok(ip),
                (None, Some(ip)) => Ok(ip),
                (None, None) => Err(ErrorKindView::NoIpAddress),
            }
        },
    }
}

/// The view of a result over texts.
pub open spec fn text_result(r: Result<String, DiscoveryError>) -> Result<
    Seq<char>,
    ErrorKindView,
> {
    match r {
        Ok(s) => Ok(s@),
        Err(e) => Err(e@),
    }
}

/// The address that a network gives a container.
fn address_of(network: &ContainerNetwork) -> (r: Option<String>)
    ensures
        opt_text(r) == (if has_address(network@) {
            network@.ip_address
        } else {
            None
        }),
{
    match &network.ip_address {
        Some(ip) => {
            if chars_of(ip.as_str()).len() > 0 {
                Some(ip.clone())
            } else {
                None
            }
        },
        None => None,
    }
}

/// The address of a container.
pub fn get_container_ip(config: &DockerDiscoveryConfig, container: &ContainerSummary) -> (r: Result<
    String,
    DiscoveryError,
>)
    ensures
        text_result(r) == container_address(config@, container@),
{
    let networks = match &container.networks {
        Some(networks) => networks,
        None => {
            return Err(DiscoveryError::NoNetworkSettings);
        },
    };
    let ghost all = networks@.map_values(|n: ContainerNetwork| n@);
    assert(container@.networks == Some(all));
    assert(all.skip(0) =~= all);
    let preferred: Option<String> = match &config.network_filter {
        Some(name) => address_by_name(networks, name.as_str()),
        None => None,
    };
    if let Some(ip) = preferred {
        return Ok(ip);
    }
    let mut i: usize = 0;
    while i < networks.len()
        invariant
            i <= networks@.len(),
            all == networks@.map_values(|n: ContainerNetwork| n@),
            container@.networks == Some(all),
            (match config@.network_filter {
                Some(name) => address_on(all, name),
                None => None,
            }) is None,
            first_address(all.skip(i as int)) == first_address(all),
        decreases networks.len() - i,
    {
        assert(all.skip(i as int)[0] == networks@[i as int]@);
        if let Some(ip) = address_of(&networks[i]) {
            return Ok(ip);
        }
        assert(all.skip(i as int).skip(1) =~= all.skip(i + 1));
        i = i + 1;
    }
    Err(DiscoveryError::NoIpAddress)
}

/// The address on the network with this name.
fn address_by_name(networks: &Vec<ContainerNetwork>, name: &str) -> (r: Option<String>)
    ensures
        opt_text(r) == address_on(networks@.map_values(|n: ContainerNetwork| n@), name@),
{
    let ghost all = networks@.map_values(|n: ContainerNetwork| n@);
    assert(all.skip(0) =~= all);
    let mut i: usize = 0;
    while i < networks.len()
        invariant
            i <= networks@.len(),
            all == networks@.map_values(|n: ContainerNetwork| n@),
            address_on(all.skip(i as int), name@) == address_on(all, name@),
        decreases networks.len() - i,
    {
        assert(all.skip(i as int)[0] == networks@[i as int]@);
        if same_text(networks[i].name.as_str(), name) {
            return address_of(&networks[i]);
        }
        assert(all.skip(i as int).skip(1) =~= all.skip(i + 1));
        i = i + 1;
    }
    None
}

/// The label that holds the port: as it is where it has a dot, else under the prefix.
pub open spec fn port_label(prefix: Seq<char>, name: Seq<char>) -> Seq<char> {
    if name.contains('.') {
        name
    } else {
        prefix + "."@ + name
    }
}

/// The exposed ports: those that are not zero, in order.
pub open spec fn exposed(ports: Seq<u16>) -> Seq<u16>
    decreases ports.len(),
{
    if ports.len() == 0 {
        Seq::empty()
    } else if ports.last() > 0 {
        exposed(ports.drop_last()).push(ports.last())
    } else {
        exposed(ports.drop_last())
    }
}

/// The lowest of some ports.
pub open spec fn lowest(ports: Seq<u16>) -> u16
    recommends
        ports.len() > 0,
    decreases ports.len(),
{
    if ports.len() <= 1 {
        ports[0]
    } else if ports.last() < lowest(ports.drop_last()) {
        ports.last()
    } else {
        lowest(ports.drop_last())
    }
}

/// The port of a service.
pub open spec fn service_port(config: ConfigView, c: ContainerView) -> Result<u16, ErrorKindView> {
    match config.port_detection {
        PortView::Fixed(port) => Ok(port),
        PortView::FromLabel(name) => {
            let label = port_label(config.label_prefix, name);
            match label_of(c, label) {
                Some(value) => match number(value, 65535) {
                    Some(n) => Ok(n as u16),
                    None => Err(ErrorKindView::InvalidPort { label, value }),
                },
                None => Err(ErrorKindView::PortLabelNotFound { label: name }),
            }
        },
        PortView::FirstExposed => match c.ports {
            None => Err(ErrorKindView::NoPortsExposed),
            Some(ports) => if exposed(ports).len() == 0 {
                Err(ErrorKindView::NoExposedPorts)
            } else {
                Ok(exposed(ports)[0])
            },
        },
        PortView::LowestPort => match c.ports {
            None => Err(ErrorKindView::NoPortsExposed),
            Some(ports) => if exposed(ports).len() == 0 {
                Err(ErrorKindView::NoExposedPorts)
            } else {
                Ok(lowest(exposed(ports)))
            },
        },
    }
}

/// The view of a result over a port.
pub open spec fn port_result(r: Result<u16, DiscoveryError>) -> Result<u16, ErrorKindView> {
    match r {
        Ok(p) => Ok(p),
        Err(e) => Err(e@),
    }
}

/// The exposed ports.
fn exposed_ports(ports: &Vec<u16>) -> (r: Vec<u16>)
    ensures
        r@ == exposed(ports@),
{
    let mut r: Vec<u16> = Vec::new();
    let mut i: usize = 0;
    while i < ports.len()
        invariant
            i <= ports@.len(),
            r@ == exposed(ports@.take(i as int)),
        decreases ports.len() - i,
    {
        proof {
            assert(ports@.take(i + 1).drop_last() =~= ports@.take(i as int));
        }
        if ports[i] > 0 {
            r.push(ports[i]);
        }
        i = i + 1;
    }
    assert(ports@.take(ports@.len() as int) =~= ports@);
    r
}

/// The lowest of some ports.
fn lowest_port(ports: &Vec<u16>) -> (r: u16)
    requires
        ports@.len() > 0,
    ensures
        r == lowest(ports@),
{
    let mut r: u16 = ports[0];
    let mut i: usize = 1;
    while i < ports.len()
        invariant
            1 <= i <= ports@.len(),
            r == lowest(ports@.take(i as int)),
        decreases ports.len() - i,
    {
        proof {
            assert(ports@.take(i + 1).drop_last() =~= ports@.take(i as int));
        }
        if ports[i] < r {
            r = ports[i];
        }
        i = i + 1;
    }
    assert(ports@.take(ports@.len() as int) =~= ports@);
    r
}

/// The port of a service.
pub fn determine_port(config: &DockerDiscoveryConfig, container: &ContainerSummary) -> (r: Result<
    u16,
    DiscoveryError,
>)
    ensures
        port_result(r) == service_port(config@, container@),
{
    match &config.port_detection {
        PortDetectionStrategy::Fixed(port) => Ok(*port),
        PortDetectionStrategy::FromLabel(name) => {
            let v = chars_of(name.as_str());
            assert(v@.skip(0) =~= v@);
            let dot: usize = find_from(&v, 0, '.');
            proof {
                lemma_find(name@, '.');
                assert(dot < v@.len() ==> name@.contains(name@[dot as int]));
            }
            let full: String = if dot < v.len() {
                name.clone()
            } else {
                let mut full = config.label_prefix.clone();
                full.append(".");
                full.append(name.as_str());
                full
            };
            match label(container, full.as_str()) {
                Some(value) => match parse_number(value.as_str(), 65535) {
                    Some(port) => Ok(port as u16),
                    None => Err(DiscoveryError::InvalidPort { label: full, value }),
                },
                None => Err(DiscoveryError::PortLabelNotFound { label: name.clone() }),
            }
        },
        PortDetectionStrategy::FirstExposed => match &container.ports {
            Some(ports) => {
                let found = exposed_ports(ports);
                if found.len() == 0 {
                    Err(DiscoveryError::NoExposedPorts)
                } else {
                    Ok(found[0])
                }
            },
            None => Err(DiscoveryError::NoPortsExposed),
        },
        PortDetectionStrategy::LowestPort => match &container.ports {
            Some(ports) => {
                let found = exposed_ports(ports);
                if found.len() == 0 {
                    Err(DiscoveryError::NoExposedPorts)
                } else {
                    Ok(lowest_port(&found))
                }
            },
            None => Err(DiscoveryError::NoPortsExposed),
        },
    }
}

/// Where a service is reached.
pub open spec fn service_url(ip: Seq<char>, port: u16) -> Seq<char> {
    "http://"@ + ip + ":"@ + decimal(port as nat)
}

/// Path and URL of the service in a container, or why there is none.
pub open spec fn service_of(config: ConfigView, c: ContainerView) -> Result<
    (Seq<char>, Seq<char>),
    ErrorKindView,
> {
    if c.names is None || c.names->0.len() == 0 {
        Err(ErrorKindView::NoName)
    } else {
        let path = service_path(config, c, trim_start_matches(c.names->0[0], '/'));
        match (container_address(config, c), service_port(config, c)) {
            (Err(e), _) => Err(e),
            (Ok(_), Err(e)) => Err(e),
            (Ok(ip), Ok(port)) => Ok((path, service_url(ip, port))),
        }
    }
}

/// The view of a result over a service.
pub open spec fn service_result(r: Result<(String, String), DiscoveryError>) -> Result<
    (Seq<char>, Seq<char>),
    ErrorKindView,
> {
    match r {
        Ok(s) => Ok((s.0@, s.1@)),
        Err(e) => Err(e@),
    }
}

/// Path and URL of the service in a container.
pub fn container_to_service(config: &DockerDiscoveryConfig, container: &ContainerSummary) -> (r:
    Result<(String, String), DiscoveryError>)
    ensures
        service_result(r) == service_of(config@, container@),
{
    let name: String = match &container.names {
        Some(names) => {
            if names.len() == 0 {
                return Err(DiscoveryError::NoName);
            }
            assert(texts(names@)[0] == names@[0]@);
            without_leading(names[0].as_str(), '/')
        },
        None => {
            return Err(DiscoveryError::NoName);
        },
    };
    let path = determine_service_path(config, container, name.as_str());
    let ip = match get_container_ip(config, container) {
        Ok(ip) => ip,
        Err(e) => {
            return Err(e);
        },
    };
    let port: u16 = match determine_port(config, container) {
        Ok(port) => port,
        Err(e) => {
            return Err(e);
        },
    };
    let mut service: String = "http://".to_owned();
    service.append(ip.as_str());
    service.append(":");
    service.append(decimal_text(port as u64).as_str());
    Ok((path, service))
}

/// The texts of a table of strings.
pub open spec fn table_texts(m: Map<Seq<char>, String>) -> Map<Seq<char>, Seq<char>> {
    m.map_values(|s: String| s@)
}

/// The services in some containers, by path, or the first error. Where two containers give the
/// same path, the later one counts.
pub open spec fn services_in(config: ConfigView, containers: Seq<ContainerView>) -> Result<
    Map<Seq<char>, Seq<char>>,
    ErrorKindView,
>
    decreases containers.len(),
{
    if containers.len() == 0 {
        Ok(Map::empty())
    } else {
        match services_in(config, containers.drop_last()) {
            Err(e) => Err(e),
            Ok(m) => match service_of(config, containers.last()) {
                Ok((path, service)) => Ok(m.insert(path, service)),
                Err(e) => Err(e),
            },
        }
    }
}

/// What is known of some containers.
pub open spec fn container_views(v: Seq<ContainerSummary>) -> Seq<ContainerView> {
    v.map_values(|c: ContainerSummary| c@)
}

/// The view of a result over services.
pub open spec fn services_result(r: Result<TextTable<String>, DiscoveryError>) -> Result<
    Map<Seq<char>, Seq<char>>,
    ErrorKindView,
> {
    match r {
        Ok(t) => Ok(table_texts(t@)),
        Err(e) => Err(e@),
    }
}

/// An error in front ends the collection.
proof fn lemma_first_error(config: ConfigView, containers: Seq<ContainerView>, i: int)
    requires
        0 <= i <= containers.len(),
        services_in(config, containers.take(i)) is Err,
    ensures
        services_in(config, containers) == services_in(config, containers.take(i)),
    decreases containers.len() - i,
{
    if i < containers.len() {
        assert(containers.take(i + 1).drop_last() =~= containers.take(i));
        lemma_first_error(config, containers, i + 1);
    } else {
        assert(containers.take(i) =~= containers);
    }
}

/// The services in the containers that are running.
pub fn discover_containers(
    config: &DockerDiscoveryConfig,
    containers: &Vec<ContainerSummary>,
) -> (r: Result<TextTable<String>, DiscoveryError>)
    ensures
        services_result(r) == services_in(config@, container_views(containers@)),
{
    let ghost all = container_views(containers@);
    let mut services: TextTable<String> = TextTable::new();
    let mut i: usize = 0;
    proof {
        assert(all.take(0) =~= Seq::empty());
        assert(table_texts(services@) =~= Map::empty());
    }
    while i < containers.len()
        invariant
            i <= containers@.len(),
            all == container_views(containers@),
            services_in(config@, all.take(i as int)) == Ok::<
                Map<Seq<char>, Seq<char>>,
                ErrorKindView,
            >(table_texts(services@)),
        decreases containers.len() - i,
    {
        proof {
            assert(all[i as int] == containers@[i as int]@);
            assert(all.take(i + 1).drop_last() =~= all.take(i as int));
        }
        match container_to_service(config, &containers[i]) {
            Ok((path, service)) => {
                let ghost was = services@;
                services.insert(path, service);
                assert(table_texts(services@) =~= table_texts(was).insert(path@, service@));
            },
            Err(e) => {
                proof {
                    lemma_first_error(config@, all, i + 1);
                }
                return Err(e);
            },
        }
        i = i + 1;
    }
    assert(all.take(all.len() as int) =~= all);
    Ok(services)
}

/// Whether a change reports a service of a table.
pub open spec fn reports(change: Change<String, String>, m: Map<Seq<char>, Seq<char>>) -> bool {
    change matches Change::Insert(path, service) && m.contains_key(path@) && m[path@] == service@
}

/// Whether some changes report every service of a table, each once.
pub open spec fn are_changes_for(
    changes: Seq<Change<String, String>>,
    m: Map<Seq<char>, Seq<char>>,
) -> bool {
    &&& changes.len() == m.dom().len()
    &&& forall|i: int| 0 <= i < changes.len() ==> reports(#[trigger] changes[i], m)
    &&& forall|i: int, j: int|
        0 <= i < j < changes.len() ==> (#[trigger] changes[i])->Insert_0@ != (
        #[trigger] changes[j])->Insert_0@
}

/// The changes that report every service that is known at the start, each once.
pub fn initial_changes(services: &TextTable<String>) -> (r: Vec<Change<String, String>>)
    ensures
        are_changes_for(r@, table_texts(services@)),
{
    let keys = services.keys();
    let ghost all = texts(keys@);
    let ghost m = table_texts(services@);
    proof {
        all.unique_seq_to_set();
        assert(m.dom() =~= services@.dom());
    }
    let mut r: Vec<Change<String, String>> = Vec::new();
    let mut i: usize = 0;
    while i < keys.len()
        invariant
            i <= keys@.len(),
            r@.len() == i,
            all == texts(keys@),
            all.no_duplicates(),
            all.to_set() == services@.dom(),
            m == table_texts(services@),
            forall|j: int|
                0 <= j < r@.len() ==> reports(#[trigger] r@[j], m) && r@[j]->Insert_0@ == all[j],
        decreases keys.len() - i,
    {
        proof {
            assert(all[i as int] == keys@[i as int]@);
            assert(all.to_set().contains(all[i as int]));
        }
        if let Some(service) = services.get(keys[i].as_str()) {
            r.push(Change::Insert(keys[i].clone(), service.clone()));
        }
        i = i + 1;
    }
    r
}

/// The kinds of events that are asked for.
pub open spec fn wanted_events() -> Seq<Seq<char>> {
    seq!["start"@, "stop"@, "die"@]
}

/// The kinds of events that are asked for.
pub fn event_filters() -> (r: Vec<String>)
    ensures
        texts(r@) == wanted_events(),
{
    let mut r: Vec<String> = Vec::new();
    r.push("start".to_owned());
    r.push("stop".to_owned());
    r.push("die".to_owned());
    assert(texts(r@) =~= wanted_events());
    r
}

/// An event that the daemon reports, as far as it is read.
pub struct ContainerEvent {
    /// The container it is about.
    pub container_id: Option<String>,
    /// Whether it is about a container at all, where that is said.
    pub is_container: Option<bool>,
    /// What happened.
    pub action: Option<String>,
}

/// The container to look up after an event: the one that was started. Nothing is done about
/// containers that stop.
pub open spec fn started_container(
    container_id: Option<Seq<char>>,
    is_container: Option<bool>,
    action: Option<Seq<char>>,
) -> Option<Seq<char>> {
    if is_container == Some(true) && action == Some("start"@) {
        container_id
    } else {
        None
    }
}

/// The container to look up after an event.
pub fn container_to_look_up(event: &ContainerEvent) -> (r: Option<String>)
    ensures
        opt_text(r) == started_container(
            opt_text(event.container_id),
            event.is_container,
            opt_text(event.action),
        ),
{
    let id = match &event.container_id {
        Some(id) => id,
        None => {
            return None;
        },
    };
    match (event.is_container, &event.action) {
        (Some(true), Some(action)) => {
            if same_text(action.as_str(), "start") {
                Some(id.clone())
            } else {
                None
            }
        },
        _ => None,
    }
}

/// The discovery of services in containers: how it is done, and what it has found.
pub struct DockerDiscovery {
    config: DockerDiscoveryConfig,
    services: TextTable<String>,
}

/// What a [`DockerDiscovery`] knows.
pub struct DiscoveryView {
    pub config: ConfigView,
    /// The URL of each service, by path.
    pub services: Map<Seq<char>, Seq<char>>,
}

impl View for DockerDiscovery {
    type V = DiscoveryView;

    closed spec fn view(&self) -> DiscoveryView {
        DiscoveryView { config: self.config@, services: table_texts(self.services@) }
    }
}

impl DockerDiscovery {
    /// A discovery with a custom configuration, which has found nothing yet.
    pub fn new(config: DockerDiscoveryConfig) -> (r: Self)
        ensures
            r@ == (DiscoveryView { config: config@, services: Map::empty() }),
    {
        let r = DockerDiscovery { config, services: TextTable::new() };
        assert(r@.services =~= Map::empty());
        r
    }

    /// A discovery of all services.
    pub fn everything() -> (r: Self)
        ensures
            r@ == (DiscoveryView {
                config: ConfigView { discover_all: true, ..default_config() },
                services: Map::empty(),
            }),
    {
        Self::new(DockerDiscoveryConfig { discover_all: true, ..DockerDiscoveryConfig::default() })
    }

    /// A discovery of labeled containers only.
    pub fn labeled(label: &str) -> (r: Result<Self, DiscoveryError>)
        ensures
            match required_label(label@) {
                Some(l) => r matches Ok(d) && d@ == (DiscoveryView {
                    config: ConfigView { required_labels: seq![l], ..default_config() },
                    services: Map::empty(),
                }),
                None => r matches Err(e) && e@ == ErrorKindView::InvalidLabelFormat,
            },
    {
        let parts = split_on(label, '=');
        let ghost all = texts(parts@);
        assert(all.len() == parts@.len());
        let pair: (String, String) = if parts.len() == 2 {
            assert(all[0] == parts@[0]@);
            assert(all[1] == parts@[1]@);
            (parts[0].clone(), parts[1].clone())
        } else if parts.len() == 1 {
            assert(all[0] == parts@[0]@);
            (parts[0].clone(), "true".to_owned())
        } else {
            return Err(DiscoveryError::InvalidLabelFormat);
        };
        let mut config = DockerDiscoveryConfig::default();
        let ghost was = config.required_labels@;
        config.required_labels.push(pair);
        assert(pairs(was).len() == was.len());
        assert(pairs(config.required_labels@) =~= seq![(pair.0@, pair.1@)]);
        Ok(Self::new(config))
    }

    /// A builder for more complex configurations.
    pub fn builder() -> (r: DockerDiscoveryBuilder)
        ensures
            r@ == default_config(),
    {
        DockerDiscoveryBuilder::default()
    }

    /// The configuration.
    pub fn config(&self) -> (r: &DockerDiscoveryConfig)
        ensures
            r@ == self@.config,
    {
        &self.config
    }

    /// The URL of the service under a path.
    pub fn service(&self, path: &str) -> (r: Option<&String>)
        ensures
            r is Some <==> self@.services.contains_key(path@),
            r matches Some(url) ==> url@ == self@.services[path@],
    {
        self.services.get(path)
    }

    /// Take in the containers that are running at the start. Returns a change for every service
    /// that was found, each once; where a container gives no service, nothing is taken in.
    pub fn initialize(&mut self, containers: &Vec<ContainerSummary>) -> (r: Result<
        Vec<Change<String, String>>,
        DiscoveryError,
    >)
        ensures
            final(self)@.config == old(self)@.config,
            match services_in(old(self)@.config, container_views(containers@)) {
                Ok(m) => final(self)@.services == m && (r matches Ok(changes) && are_changes_for(
                    changes@,
                    m,
                )),
                Err(e) => final(self)@.services == old(self)@.services && (r matches Err(x) && x@
                    == e),
            },
    {
        match discover_containers(&self.config, containers) {
            Ok(services) => {
                let changes = initial_changes(&services);
                self.services = services;
                Ok(changes)
            },
            Err(e) => Err(e),
        }
    }

    /// Take in a container that was started, where it could be looked up: its service is known
    /// from now on, and reported. Where it gives no service, nothing changes.
    pub fn handle_event(&mut self, container: Option<&ContainerSummary>) -> (r: Option<
        Change<String, String>,
    >)
        ensures
            final(self)@.config == old(self)@.config,
            match found_service(old(self)@.config, container) {
                Some((path, service)) => is_insert(r, path, service) && final(self)@.services
                    == old(self)@.services.insert(path, service),
                None => r is None && final(self)@.services == old(self)@.services,
            },
    {
        let c = match container {
            Some(c) => c,
            None => {
                return None;
            },
        };
        match container_to_service(&self.config, c) {
            Ok((path, service)) => {
                let ghost was = self.services@;
                self.services.insert(path.clone(), service.clone());
                assert(table_texts(self.services@) =~= table_texts(was).insert(path@, service@));
                Some(Change::Insert(path, service))
            },
            Err(_) => None,
        }
    }
}

/// The service in a container that could be looked up.
pub open spec fn found_service(config: ConfigView, container: Option<&ContainerSummary>) -> Option<
    (Seq<char>, Seq<char>),
> {
    match container {
        Some(c) => match service_of(config, c@) {
            Ok(s) => Some(s),
            Err(_) => None,
        },
        None => None,
    }
}

/// Whether a change reports this service.
pub open spec fn is_insert(
    change: Option<Change<String, String>>,
    path: Seq<char>,
    service: Seq<char>,
) -> bool {
    change matches Some(Change::Insert(p, s)) && p@ == path && s@ == service
}

/// The path of a service that has neither labels nor a prefix to strip starts with a slash and
/// does not depend on the instance number of its container.
pub proof fn law_instances_share_a_path(
    config: ConfigView,
    c: ContainerView,
    name: Seq<char>,
    instance: Seq<char>,
)
    requires
        c.labels is None,
        config.strip_prefix is None,
        instance.len() > 0,
        forall|i: int| 0 <= i < instance.len() ==> is_numeric(#[trigger] instance[i]) && instance[i]
            != '_' && instance[i] != '-',
    ensures
        service_path(config, c, name.push('_') + instance) == "/"@ + name,
        service_path(config, c, name.push('-') + instance) == "/"@ + name,
{
    lemma_without_instance(name, '_', instance);
    lemma_without_instance(name, '-', instance);
}

proof fn lemma_without_instance(name: Seq<char>, sep: char, instance: Seq<char>)
    requires
        sep == '_' || sep == '-',
        forall|i: int| 0 <= i < instance.len() ==> is_numeric(#[trigger] instance[i]) && instance[i]
            != '_' && instance[i] != '-',
    ensures
        without_instance(name.push(sep) + instance) == name,
{
    let s = name.push(sep) + instance;
    let k = name.len() as int + 1;
    assert forall|j: int| k <= j < s.len() implies s[j] != '_' && s[j] != '-' by {
        assert(s[j] == instance[j - k]);
    }
    assert(s[k - 1] == sep);
    let other = if sep == '_' {
        '-'
    } else {
        '_'
    };
    lemma_behind_last_is(s, sep, k);
    lemma_behind_last_bound(s, other, k);
    assert(s.skip(k) =~= instance);
    assert(s.take(k - 1) =~= name);
}

/// Where no `c` stands at or behind `k`, the last one stands in front of it.
pub proof fn lemma_behind_last_bound(s: Seq<char>, c: char, k: int)
    requires
        0 <= k <= s.len(),
        forall|j: int| k <= j < s.len() ==> s[j] != c,
    ensures
        behind_last(s, c) <= k,
    decreases s.len(),
{
    if s.len() > k {
        lemma_behind_last_bound(s.drop_last(), c, k);
    } else if s.len() > 0 && s.last() != c {
        lemma_behind_last_bound(s.drop_last(), c, k - 1);
    }
}

/// The lowest exposed port is an exposed port, and none is lower.
pub proof fn law_lowest_port_is_lowest(ports: Seq<u16>)
    requires
        ports.len() > 0,
    ensures
        ports.contains(lowest(ports)),
        forall|i: int| 0 <= i < ports.len() ==> lowest(ports) <= #[trigger] ports[i],
    decreases ports.len(),
{
    if ports.len() == 1 {
        assert(ports[0] == lowest(ports));
    } else {
        let less = ports.drop_last();
        law_lowest_port_is_lowest(less);
        let k = choose|k: int| 0 <= k < less.len() && less[k] == lowest(less);
        assert(ports[k] == lowest(less));
        assert(ports[ports.len() - 1] == ports.last());
        assert forall|i: int| 0 <= i < ports.len() implies lowest(ports) <= #[trigger] ports[i] by {
            if i < less.len() {
                assert(less[i] == ports[i]);
            }
        }
    }
}

} // verus!
