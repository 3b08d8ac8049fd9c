use axum_reverse_proxy::balanced_proxy::{
    choose_endpoint, no_upstream, p2c_choose, p2c_pair, p2c_sample, p2c_select, Change, Discovered,
    Endpoints, ServiceMetrics,
};
use axum_reverse_proxy::proxy::TargetError;
use axum_reverse_proxy::{
    BalancedProxy, DiscoverableBalancedProxy, LoadBalancingStrategy, ProxyPolicy,
};
use std::time::Duration;

fn endpoint(pending: usize, ewma_micros: u64) -> ServiceMetrics {
    ServiceMetrics::with_values(pending, ewma_micros)
}

fn loads(endpoints: &[ServiceMetrics], strategy: LoadBalancingStrategy) -> Vec<u64> {
    endpoints.iter().map(|e| e.load(strategy, e.peak_ewma_micros())).collect()
}

#[test]
fn p2c_single_endpoint_is_always_selected() {
    let endpoints = vec![endpoint(100, 0)];
    assert_eq!(
        p2c_select(&loads(&endpoints, LoadBalancingStrategy::P2cPendingRequests)),
        0
    );
}

#[test]
fn p2c_pending_requests_prefers_less_loaded_endpoint() {
    // With exactly two endpoints, P2C always compares both, so the choice
    // is deterministic: the endpoint with fewer pending requests wins.
    let endpoints = vec![endpoint(10, 0), endpoint(0, 0)];
    for _ in 0..100 {
        assert_eq!(
            p2c_select(&loads(&endpoints, LoadBalancingStrategy::P2cPendingRequests)),
            1
        );
    }
}

#[test]
fn p2c_peak_ewma_prefers_lower_latency_endpoint() {
    let endpoints = vec![endpoint(0, 500_000), endpoint(0, 1_000)];
    for _ in 0..100 {
        assert_eq!(
            p2c_select(&loads(&endpoints, LoadBalancingStrategy::P2cPeakEwma)),
            1
        );
    }
}

#[test]
fn p2c_never_picks_the_highest_load() {
    let loads = vec![5, 9, 7, 1];
    for _ in 0..200 {
        assert_ne!(p2c_select(&loads), 1);
    }
    assert_eq!(p2c_choose(&loads, 0, 2), 0);
    assert_eq!(p2c_choose(&loads, 1, 3), 3);
    assert_eq!(p2c_choose(&vec![4, 4], 1, 0), 1);
}

#[test]
fn p2c_samples_are_different_and_reach_everything() {
    let mut seen = vec![false; 3];
    for _ in 0..500 {
        let (i, j) = p2c_sample(3);
        assert!(i < 3 && j < 3 && i != j);
        seen[i] = true;
        seen[j] = true;
    }
    assert_eq!(seen, vec![true; 3]);
}

#[test]
fn two_draws_stand_for_each_pair_once() {
    let mut pairs = Vec::new();
    for i in 0..3 {
        for j in 0..2 {
            pairs.push(p2c_pair(i, j));
        }
    }
    assert_eq!(pairs, vec![(0, 1), (0, 2), (1, 0), (1, 2), (2, 0), (2, 1)]);
}

#[test]
fn pending_request_guard_decrements_on_drop() {
    let mut metrics = ServiceMetrics::new();
    metrics.begin_request();
    assert_eq!(metrics.pending_requests(), 1);
    metrics.end_request();
    assert_eq!(metrics.pending_requests(), 0);
}

#[test]
fn ewma_first_measurement_sets_latency_directly() {
    let mut metrics = ServiceMetrics::new();
    metrics.update_ewma(Duration::from_millis(50), 0);
    assert_eq!(
        metrics.peak_ewma_micros(),
        50_000,
        "first measurement should be recorded as-is"
    );
}

#[test]
fn ewma_load_decays_over_time() {
    let metrics = ServiceMetrics::with_values(0, 100_000);
    let elapsed = Duration::from_secs(10);
    let decay_factor = (-elapsed.as_secs_f64() / 5.0).exp();
    let decayed = (metrics.peak_ewma_micros() as f64 * decay_factor) as u64;
    let load = metrics.load(LoadBalancingStrategy::P2cPeakEwma, decayed);
    // ~50% decay every 5s => after 10s the load should be well below half
    assert!(
        load < 20_000,
        "expected decayed load well below stored value, got {load}"
    );
}

#[test]
fn ewma_moves_towards_the_peak() {
    let mut metrics = ServiceMetrics::with_values(3, 1_000);
    metrics.update_ewma(Duration::from_micros(2_000), 800);
    // (2000 + 3 * 800) / 4
    assert_eq!(metrics.peak_ewma_micros(), 1_100);
    metrics.update_ewma(Duration::from_micros(10), 1_001);
    assert_eq!(metrics.peak_ewma_micros(), 1_001);
    assert_eq!(metrics.pending_requests(), 3);
    assert_eq!(metrics.load(LoadBalancingStrategy::P2cPendingRequests, 7), 3);
}

#[test]
fn upstreams_take_turns() {
    let targets = vec![
        "http://a.example.com".to_string(),
        "http://b.example.com".to_string(),
        "http://c.example.com".to_string(),
    ];
    let proxy = BalancedProxy::new("/api", &targets);
    assert_eq!(proxy.path(), "/api");
    let order: Vec<String> = (4..8)
        .map(|t| proxy.next_proxy(t).unwrap().target().to_string())
        .collect();
    assert_eq!(
        order,
        vec![
            "http://b.example.com",
            "http://c.example.com",
            "http://a.example.com",
            "http://b.example.com"
        ]
    );
    let proxy = proxy.with_policy(ProxyPolicy::new().with_via("lb"));
    for t in 0..3 {
        let upstream = proxy.next_proxy(t).unwrap();
        assert_eq!(upstream.policy().via.as_deref(), Some("lb"));
        assert_eq!(upstream.path(), "/api");
    }
}

#[test]
fn no_upstream_is_service_unavailable() {
    let proxy = BalancedProxy::new("/", &Vec::new());
    assert!(proxy.next_proxy(0).is_none());
    let answer = no_upstream();
    assert_eq!(answer.status, 503);
    assert_eq!(answer.body, "No upstream services available");
}

#[test]
fn balanced_targets_are_validated() {
    let good = vec!["http://a".to_string(), "http://b".to_string()];
    assert!(BalancedProxy::try_new("/", &good).is_ok());
    let bad = vec!["http://a".to_string(), "/b".to_string(), "http://c d".to_string()];
    assert_eq!(
        BalancedProxy::try_new("/", &bad).err(),
        Some(TargetError::MissingAuthority)
    );
    let worse = vec!["http://c d".to_string()];
    assert_eq!(
        BalancedProxy::try_new("/", &worse).err(),
        Some(TargetError::InvalidUri)
    );
}

#[test]
fn endpoints_are_replaced_in_place_and_removed_alone() {
    let mut endpoints: Endpoints<u64, &str> = Endpoints::new();
    endpoints.insert(1, "a");
    endpoints.insert(2, "b");
    endpoints.insert(3, "c");
    endpoints.insert(2, "B");
    assert_eq!(endpoints.len(), 3);
    assert_eq!(*endpoints.get(1), "B");
    endpoints.remove(&1);
    endpoints.remove(&9);
    assert_eq!(endpoints.len(), 2);
    assert_eq!(*endpoints.get(0), "B");
    assert_eq!(*endpoints.get(1), "c");
}

#[test]
fn discovered_upstreams_are_balanced() {
    let mut proxy: DiscoverableBalancedProxy<u64, String> =
        DiscoverableBalancedProxy::new_with_strategy(
            "/api",
            LoadBalancingStrategy::P2cPendingRequests,
        )
        .with_policy(ProxyPolicy::new().with_via("lb"));
    assert_eq!(proxy.path(), "/api");
    assert_eq!(proxy.strategy(), LoadBalancingStrategy::P2cPendingRequests);
    assert_eq!(proxy.service_count(), 0);
    let upstream = proxy.proxy_to("http://10.0.0.1:80").ok().unwrap();
    assert_eq!(upstream.policy().via.as_deref(), Some("lb"));
    assert_eq!(upstream.path(), "/api");
    assert_eq!(proxy.proxy_to("/x").err(), Some(TargetError::MissingAuthority));
    assert_eq!(proxy.proxy_to("").err(), Some(TargetError::InvalidUri));
    proxy.on_change(Change::Insert(7, "seven".to_string()));
    proxy.on_change(Change::Insert(8, "eight".to_string()));
    proxy.on_change(Change::Insert(7, "SEVEN".to_string()));
    assert_eq!(proxy.service_count(), 2);
    assert_eq!(proxy.endpoint(0), "SEVEN");
    proxy.on_change(Change::Remove(7));
    assert_eq!(proxy.service_count(), 1);
    assert_eq!(proxy.endpoint(0), "eight");
    let round: DiscoverableBalancedProxy<u64, String> = DiscoverableBalancedProxy::new("/");
    assert_eq!(round.strategy(), LoadBalancingStrategy::default());
}

#[test]
fn endpoints_are_those_left_after_a_run_of_events() {
    let mut proxy: DiscoverableBalancedProxy<u64, &str> = DiscoverableBalancedProxy::new("/");
    for event in [
        Discovered::Change(Change::Insert(1, "a")),
        Discovered::Change(Change::Insert(2, "b")),
        Discovered::Failed,
        Discovered::Change(Change::Insert(1, "c")),
        Discovered::Change(Change::Remove(2)),
        Discovered::Change(Change::Remove(9)),
        Discovered::Change(Change::Insert(3, "d")),
    ] {
        assert!(proxy.on_discovered(event));
    }
    assert!(!proxy.on_discovered(Discovered::Ended));
    assert_eq!(proxy.service_count(), 2);
    assert_eq!(*proxy.endpoint(0), "c");
    assert_eq!(*proxy.endpoint(1), "d");
}

#[test]
fn discovery_starts_once_and_under_the_policy_of_that_moment() {
    let via = |proxy: &DiscoverableBalancedProxy<u64, String>| {
        proxy.proxy_to("http://10.0.0.1").ok().unwrap().policy().via.clone()
    };
    let mut proxy: DiscoverableBalancedProxy<u64, String> =
        DiscoverableBalancedProxy::new("/").with_policy(ProxyPolicy::new().with_via("first"));
    assert!(proxy.begin_discovery());
    assert!(!proxy.begin_discovery());
    assert_eq!(via(&proxy).as_deref(), Some("first"));
    proxy.on_change(Change::Insert(1, "one".to_string()));
    let mut proxy = proxy.with_policy(ProxyPolicy::new().with_via("second"));
    assert!(!proxy.begin_discovery());
    assert_eq!(via(&proxy).as_deref(), Some("first"));
    assert_eq!(proxy.service_count(), 1);
}

#[test]
fn endpoints_are_chosen_by_strategy() {
    let loads = vec![9, 1];
    assert_eq!(choose_endpoint(LoadBalancingStrategy::RoundRobin, 4, &loads), Some(0));
    assert_eq!(choose_endpoint(LoadBalancingStrategy::RoundRobin, 5, &loads), Some(1));
    assert_eq!(choose_endpoint(LoadBalancingStrategy::P2cPeakEwma, 4, &loads), Some(1));
    assert_eq!(
        choose_endpoint(LoadBalancingStrategy::P2cPendingRequests, 0, &Vec::new()),
        None
    );
    assert!(LoadBalancingStrategy::P2cPendingRequests.counts_pending());
    assert!(!LoadBalancingStrategy::P2cPeakEwma.counts_pending());
    assert!(LoadBalancingStrategy::P2cPeakEwma.measures_latency());
    assert!(!LoadBalancingStrategy::RoundRobin.measures_latency());
    assert!(LoadBalancingStrategy::RoundRobin.takes_turns());
    assert!(!LoadBalancingStrategy::P2cPeakEwma.takes_turns());
}
