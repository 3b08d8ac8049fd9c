//! A reverse proxy for Axum applications: the decisions that it takes, verified.
//!
//! The library says where a request is forwarded to, with which header fields, how a response is
//! passed on, when a request is retried, and which upstream it goes to. The connections
//! themselves are made by the code around it.
pub mod balance_laws;
pub mod balanced_proxy;
pub mod discovery_laws;
pub mod docker_discovery;
pub mod docker_laws;
pub mod docker_router;
pub mod exchange_laws;
pub mod forward;
pub mod forward_laws;
pub mod header_laws;
pub mod headers;
pub mod layer_laws;
pub mod message;
pub mod path_laws;
pub mod proxy;
pub mod retry;
pub mod rfc9110;
pub mod rfc9110_laws;
pub mod router_ext;
pub mod router_laws;
pub mod step_laws;
pub mod table;
pub mod text;
pub mod text_laws;
pub mod uri;
pub mod websocket;
pub mod websocket_laws;

pub use balanced_proxy::{BalancedProxy, DiscoverableBalancedProxy, LoadBalancingStrategy};
pub use docker_discovery::{
    DockerDiscovery, DockerDiscoveryBuilder, DockerDiscoveryConfig, PortDetectionStrategy,
};
pub use docker_router::DockerRouter;
pub use message::ProxyError;
pub use proxy::{HostBehaviour, ProxyOptions, ProxyPolicy, ReverseProxy, XForwardedFor};
pub use retry::{Retry, RetryLayer};
pub use rfc9110::{Rfc9110, Rfc9110Config, Rfc9110Layer};
pub use router_ext::{proxy_template, TargetResolver, TemplateTarget};
