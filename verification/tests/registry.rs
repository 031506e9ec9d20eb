use std::collections::HashMap;
use std::sync::Arc;

use rpcrouter::chain::ChainStateLabel;
use rpcrouter::chainlist::{
    Catalog, CatalogChain, CatalogEndpoint, ChainEndpoints, ChainlistSnapshot,
};
use rpcrouter::config::{Config, DiscoveryConfig, UpstreamConfig};
use rpcrouter::endpoint::{Endpoint, EndpointState};
use rpcrouter::health::{FailureSignal, FaultKind, SECOND};
use rpcrouter::keys::endpoint_key;
use rpcrouter::registry::{Registry, seconds_read, trimmed_max, unix_seconds};
use rpcrouter::registry_model::Moment;
use rpcrouter::selection::PoolKind;
use rpcrouter::state::{
    ChainOverrideState, EndpointOverrideState, HealthSnapshot, Overrides,
};

const BASE: u64 = 1_700_000_000;

/// The given number of seconds after the start.
fn at(seconds: u64) -> Moment {
    Moment { instant: u128::from(1_000 + seconds) * SECOND, unix: BASE + seconds }
}

fn snapshot(urls: &[&str]) -> ChainlistSnapshot {
    ChainlistSnapshot {
        chains: vec![ChainEndpoints {
            chain_id: 1,
            name: "Ethereum Mainnet".to_owned(),
            endpoints: urls.iter().map(ToString::to_string).collect(),
        }],
    }
}

fn activate(endpoint: &mut Endpoint, now: u128, latency_ms: u128) {
    endpoint.record_success(now, latency_ms * (SECOND / 1_000), true);
    endpoint.record_success(now, latency_ms * (SECOND / 1_000), true);
    assert_eq!(endpoint.state(now), EndpointState::Active);
}

fn catalog_chain(chain_id: u64, name: &str, urls: &[&str]) -> CatalogChain {
    CatalogChain {
        chain_id,
        name: name.to_owned(),
        short_name: None,
        chain: None,
        slug: None,
        is_testnet: false,
        native_symbol: None,
        explorer_url: None,
        status: None,
        tvl: None,
        endpoints: urls
            .iter()
            .map(|url| CatalogEndpoint { url: url.to_string(), tracking: None })
            .collect(),
    }
}

fn catalog(chains: Vec<CatalogChain>) -> Arc<Catalog> {
    let by_id: HashMap<u64, usize> =
        chains.iter().enumerate().map(|(place, chain)| (chain.chain_id, place)).collect();
    Arc::new(Catalog { chains, by_id })
}

fn pinning(chains: Vec<u64>) -> Config {
    Config { chains, ..Config::default() }
}

fn discovering(chains: Vec<u64>, discovery: DiscoveryConfig) -> Config {
    Config { chains, discovery: DiscoveryConfig { enabled: true, ..discovery }, ..Config::default() }
}

fn dynamic(chain: CatalogChain) -> Registry {
    let mut registry = Registry::new(discovering(vec![], DiscoveryConfig::default()));
    registry.set_catalog(catalog(vec![chain]));
    registry
}

fn label(registry: &Registry, chain_id: u64) -> ChainStateLabel {
    registry.chain(chain_id).expect("chain state").state_label()
}

/// Scores of the endpoints of a chain: the smoothed latency of each.
fn latencies(registry: &Registry, chain_id: u64) -> Vec<u64> {
    registry
        .all_endpoints(chain_id)
        .map(|endpoints| endpoints.iter().map(Endpoint::latency_ewma_micros).collect())
        .unwrap_or_default()
}

/// The score of an endpoint as the program computes it.
fn score(endpoint: &mut Endpoint, now: u128) -> f64 {
    let parts = endpoint.score_parts(now);
    let latency_ms =
        if parts.latency_micros == 0 { 1_000.0 } else { parts.latency_micros as f64 / 1_000.0 };
    let errors = parts.failures as f64 / parts.outcomes.max(1) as f64;
    let busy = parts.used_slots as f64 / parts.concurrency as f64;
    latency_ms + errors * 5_000.0 + parts.lag as f64 * 250.0 + busy * 500.0
}

fn endpoint_total(registry: &Registry, chain_id: u64) -> usize {
    registry.all_endpoints(chain_id).map_or(0, Vec::len)
}

#[test]
fn p2c_prefers_lower_scored_active_endpoint() {
    let mut registry = Registry::new(pinning(vec![1]));
    registry.apply_snapshot(&snapshot(&["http://slow", "http://fast"]), at(0));
    let now = at(0).instant;
    activate(registry.endpoint_mut(1, "http://slow"), now, 500);
    activate(registry.endpoint_mut(1, "http://fast"), now, 10);
    let set = registry.candidates(1, &latencies(&registry, 1));
    assert_eq!(set.kind, PoolKind::Active);
    let endpoints = registry.all_endpoints(1).unwrap();
    assert_eq!(endpoints[set.endpoints[0]].url(), "http://fast");

    let before = registry.endpoint(1, "http://fast").unwrap().stats();
    registry.apply_snapshot(&snapshot(&["http://slow", "http://fast"]), at(1));
    let refreshed = registry.endpoint(1, "http://fast").expect("refreshed");
    assert_eq!(refreshed.stats(), before);
    assert!(refreshed.is_active());
}

#[test]
fn enforces_endpoint_concurrency_and_rate_tokens() {
    let config = Config {
        chains: vec![1],
        chain_overrides: Vec::new(),
        upstream: UpstreamConfig {
            default_rps: 1,
            default_concurrency: 1,
            ..UpstreamConfig::default()
        },
        ..Config::default()
    };
    let mut registry = Registry::new(config);
    registry.apply_snapshot(&snapshot(&["http://limited"]), at(0));
    let endpoint = registry.endpoint_mut(1, "http://limited");
    activate(endpoint, at(0).instant, 10);

    let lease = endpoint.try_acquire().expect("first request is allowed");
    assert!(endpoint.try_acquire().is_none(), "concurrency slot is held");
    endpoint.release(lease);
    assert!(endpoint.try_acquire().is_none(), "rate token was consumed");
}

#[test]
fn removes_rejected_endpoint_across_refresh() {
    let mut registry = Registry::new(pinning(vec![1]));
    registry.apply_snapshot(&snapshot(&["http://wrong"]), at(0));
    assert!(registry.remove_endpoint(1, "http://wrong"));
    registry.apply_snapshot(&snapshot(&["http://wrong"]), at(0));
    assert!(registry.all_endpoints(1).unwrap().is_empty());
}

#[test]
fn refresh_merges_materialized_dynamic_chain() {
    let mut registry = dynamic(catalog_chain(42, "Dynamic", &["http://old"]));
    registry.resolve_for_request(42, at(0)).expect("activate");
    registry.apply_snapshot(
        &ChainlistSnapshot {
            chains: vec![ChainEndpoints {
                chain_id: 42,
                name: "Dynamic refreshed".to_owned(),
                endpoints: vec!["http://new".to_owned()],
            }],
        },
        at(1),
    );
    assert!(registry.endpoint(42, "http://new").is_some());
    assert_eq!(registry.chain_activations(), 1);
    assert_eq!(registry.chain(42).unwrap().name(), "Dynamic refreshed");
}

#[test]
fn tracks_trimmed_head_and_penalizes_lag_or_high_outliers() {
    let mut registry = Registry::new(pinning(vec![1]));
    registry.apply_snapshot(&snapshot(&["http://a", "http://b", "http://outlier"]), at(0));
    let now = at(0).instant;
    for url in ["http://a", "http://b", "http://outlier"] {
        activate(registry.endpoint_mut(1, url), now, 10);
    }
    registry.record_probe_height(1, "http://a", 100, now);
    registry.record_probe_height(1, "http://b", 101, now);
    registry.record_probe_height(1, "http://outlier", 10_000, now);
    assert_eq!(registry.head(1), 101);
    let lag = |url: &str| registry.endpoint(1, url).unwrap().lag();
    assert_eq!(lag("http://a"), 1);
    assert_eq!(lag("http://b"), 0);
    assert_eq!(lag("http://outlier"), 9_899);
    let mut penalized = |url: &str| score(registry.endpoint_mut(1, url), now);
    assert!(penalized("http://outlier") > penalized("http://a"));
}

#[test]
fn computes_trimmed_max_without_high_outlier() {
    assert_eq!(trimmed_max(&[]), None);
    assert_eq!(trimmed_max(&[10]), Some(10));
    assert_eq!(trimmed_max(&[10, 11]), Some(11));
    assert_eq!(trimmed_max(&[100, 101, 10_000]), Some(101));
    assert_eq!(trimmed_max(&[98, 99, 100, 101, 10_000]), Some(101));
}

#[test]
fn resolve_for_request_returns_none_for_unknown_chain() {
    let mut registry = Registry::new(pinning(vec![1]));
    assert!(registry.resolve_for_request(999999, at(0)).is_none());
}

#[test]
fn unknown_chains_leave_no_trace() {
    let mut registry = Registry::new(Config::default());
    for chain_id in 10_000..20_000 {
        assert!(registry.resolve_for_request(chain_id, at(0)).is_none());
    }
    assert!(registry.materialized_chain_pinned().is_empty());
}

#[test]
fn repeated_requests_activate_a_chain_once() {
    let mut registry = dynamic(catalog_chain(42, "Concurrent", &["http://concurrent"]));
    for _ in 0..100 {
        assert_eq!(registry.resolve_for_request(42, at(0)), Some(ChainStateLabel::Hot));
    }
    assert_eq!(registry.chain_activations(), 1);
    assert_eq!(registry.take_kicks(), [42]);
}

#[test]
fn stale_demotion_sample_cannot_clear_recent_ingress() {
    let mut registry = dynamic(catalog_chain(77, "Race", &["http://race"]));
    registry.resolve_for_request(77, at(0)).expect("state");
    let sampled = registry.chain(77).unwrap().last_ingress();
    registry.resolve_for_request(77, at(10)).expect("recent ingress");
    assert!(!registry.demote_if_unchanged(77, "lru", sampled));
    assert_eq!(label(&registry, 77), ChainStateLabel::Hot);
    assert_eq!(registry.user_visible_errors(), 0);
}

#[test]
fn runtime_pin_state_survives_snapshot_refresh_and_unpin_stays_hot() {
    let mut registry = dynamic(catalog_chain(1, "Runtime", &["http://runtime"]));
    registry.resolve_for_request(1, at(0)).expect("state");
    registry.apply_snapshot(&snapshot(&["http://runtime"]), at(1));
    assert!(registry.set_pinned(1, true, at(2)));
    registry.apply_snapshot(&snapshot(&["http://runtime"]), at(3));
    assert_eq!(label(&registry, 1), ChainStateLabel::Pinned);
    assert!(registry.set_pinned(1, false, at(4)));
    assert_eq!(label(&registry, 1), ChainStateLabel::Hot);
    registry.apply_snapshot(&snapshot(&["http://runtime"]), at(5));
    assert_eq!(label(&registry, 1), ChainStateLabel::Hot);
}

#[test]
fn discovery_disabled_only_serves_pinned_chains() {
    let config = Config {
        chains: vec![1],
        discovery: DiscoveryConfig { enabled: false, ..DiscoveryConfig::default() },
        ..Config::default()
    };
    let mut registry = Registry::new(config);
    registry.set_catalog(catalog(vec![
        catalog_chain(1, "Pinned", &["https://pinned.example"]),
        catalog_chain(2, "Dynamic", &["https://dynamic.example"]),
    ]));
    assert!(registry.resolve_for_request(1, at(0)).is_some());
    assert!(registry.resolve_for_request(2, at(0)).is_none());
}

#[test]
fn resolve_for_request_materializes_dormant_chain() {
    let mut registry = Registry::new(discovering(vec![1], DiscoveryConfig::default()));
    registry.set_catalog(catalog(vec![catalog_chain(1, "Test", &["https://rpc.example"])]));
    let state = registry.resolve_for_request(1, at(0)).expect("chain 1");
    assert_eq!(state, ChainStateLabel::Pinned);
    assert_eq!(endpoint_total(&registry, 1), 1);
    assert_eq!(registry.chain_activations(), 1);
}

#[test]
fn dormant_chain_activates_on_first_request_and_becomes_hot() {
    let mut registry =
        dynamic(catalog_chain(42, "DynamicChain", &["https://rpc.dynamic.example"]));
    assert!(registry.hot_chain_ids().is_empty());
    let state = registry.resolve_for_request(42, at(0)).expect("chain 42");
    assert_eq!(state, ChainStateLabel::Hot);
    assert_eq!(endpoint_total(&registry, 42), 1);
    assert_eq!(registry.chain_activations(), 1);
    assert!(registry.hot_chain_ids().contains(&42));
    assert_eq!(registry.resolve_for_request(42, at(1)).expect("chain 42 again"), state);
    assert_eq!(registry.chain_activations(), 1);
}

#[test]
fn idle_chain_is_demoted_to_dormant() {
    let discovery = DiscoveryConfig { idle_seconds: 1, ..DiscoveryConfig::default() };
    let mut registry = Registry::new(discovering(vec![], discovery));
    registry.set_catalog(catalog(vec![catalog_chain(7, "FastIdle", &["https://rpc.fast.example"])]));
    registry.resolve_for_request(7, at(0)).expect("chain 7");
    assert_eq!(endpoint_total(&registry, 7), 1);
    assert_eq!(registry.chain_counts().hot, 1);

    let last_ingress = registry.chain(7).expect("chain state").last_ingress();
    registry.housekeeping_at(last_ingress + 2);

    let counts = registry.chain_counts();
    assert_eq!(counts.hot, 0);
    assert_eq!(counts.dormant, 1);
    assert_eq!(endpoint_total(&registry, 7), 0);
    let (idle, lru, admin) = registry.chain_demotions();
    assert_eq!(idle, 1);
    assert_eq!(lru, 0);
    assert_eq!(admin, 0);
}

#[test]
fn pinned_chain_is_never_demoted_by_idle_or_lru() {
    let discovery =
        DiscoveryConfig { idle_seconds: 1, max_hot_chains: 0, ..DiscoveryConfig::default() };
    let mut registry = Registry::new(discovering(vec![1], discovery));
    registry.set_catalog(catalog(vec![catalog_chain(1, "Pinned", &["https://rpc.pinned.example"])]));
    registry.resolve_for_request(1, at(0)).expect("chain 1");
    assert_eq!(registry.chain_counts().pinned, 1);

    let last_ingress = registry.chain(1).expect("chain state").last_ingress();
    registry.housekeeping_at(last_ingress + 2);

    let counts = registry.chain_counts();
    assert_eq!(counts.pinned, 1);
    assert_eq!(counts.dormant, 0);
    assert_eq!(endpoint_total(&registry, 1), 1);
}

#[test]
fn demote_clears_endpoints_and_chain_can_reactivate() {
    let discovery = DiscoveryConfig {
        max_hot_chains: 256,
        idle_seconds: 86_400,
        ..DiscoveryConfig::default()
    };
    let mut registry = Registry::new(discovering(vec![], discovery));
    registry.set_catalog(catalog(vec![catalog_chain(1, "Test", &["https://rpc1.example"])]));
    registry.resolve_for_request(1, at(0)).expect("chain 1");
    assert_eq!(endpoint_total(&registry, 1), 1);

    assert!(registry.demote(1, "lru"));
    assert_eq!(endpoint_total(&registry, 1), 0);
    assert_eq!(registry.chain_counts().dormant, 1);

    let state = registry.resolve_for_request(1, at(1)).expect("chain 1 re-activate");
    assert_eq!(state, ChainStateLabel::Hot);
    assert_eq!(endpoint_total(&registry, 1), 1);
}

#[test]
fn housekeeping_lru_evicts_when_over_max_hot_chains() {
    let discovery = DiscoveryConfig {
        max_hot_chains: 2,
        idle_seconds: 86_400,
        ..DiscoveryConfig::default()
    };
    let mut registry = Registry::new(discovering(vec![], discovery));
    registry.set_catalog(catalog(
        (1..=3u64)
            .map(|i| {
                let url = format!("https://rpc{i}.example");
                catalog_chain(i, &format!("Chain{i}"), &[url.as_str()])
            })
            .collect(),
    ));
    registry.resolve_for_request(1, at(0)).expect("chain 1");
    registry.resolve_for_request(2, at(1)).expect("chain 2");
    registry.resolve_for_request(3, at(2)).expect("chain 3");
    assert_eq!(registry.chain_counts().hot, 3);

    registry.housekeeping_at(BASE + 7);

    let counts = registry.chain_counts();
    assert_eq!(counts.hot, 2);
    assert_eq!(counts.dormant, 1);

    let evicted: Vec<u64> =
        [1u64, 2, 3].into_iter().filter(|id| endpoint_total(&registry, *id) == 0).collect();
    assert_eq!(evicted, vec![1], "least recently used chain must be evicted");

    let (idle, lru, _) = registry.chain_demotions();
    assert_eq!(idle, 0);
    assert_eq!(lru, 1);

    let state = registry.resolve_for_request(1, at(8)).expect("chain re-activate");
    assert_eq!(state, ChainStateLabel::Hot);
    assert_eq!(endpoint_total(&registry, 1), 1);
}

#[test]
fn demoted_chain_can_be_re_activated() {
    let discovery = DiscoveryConfig { idle_seconds: 1, ..DiscoveryConfig::default() };
    let mut registry = Registry::new(discovering(vec![], discovery));
    registry.set_catalog(catalog(vec![catalog_chain(
        99,
        "Phantom",
        &["https://rpc.phantom.example"],
    )]));
    assert_eq!(registry.resolve_for_request(99, at(0)), Some(ChainStateLabel::Hot));

    let last_ingress = registry.chain(99).unwrap().last_ingress();
    registry.housekeeping_at(last_ingress + 2);
    assert_eq!(registry.chain_counts().hot, 0);

    assert_eq!(registry.resolve_for_request(99, at(3)), Some(ChainStateLabel::Hot));
    assert_eq!(endpoint_total(&registry, 99), 1);
    assert_eq!(registry.chain_activations(), 2);
}

#[test]
fn deny_chain_is_marked_disabled_on_materialize() {
    let discovery = DiscoveryConfig { deny: vec![13], ..DiscoveryConfig::default() };
    let mut registry = Registry::new(discovering(vec![], discovery));
    registry.set_catalog(catalog(vec![catalog_chain(
        13,
        "Blocked",
        &["https://rpc.blocked.example"],
    )]));
    assert_eq!(registry.resolve_for_request(13, at(0)), Some(ChainStateLabel::Disabled));
}

#[test]
fn chainstate_label_reflects_current_state() {
    let mut registry = Registry::new(discovering(vec![100], DiscoveryConfig::default()));
    registry.set_catalog(catalog(vec![catalog_chain(100, "LabelTest", &[])]));

    registry.resolve_for_request(100, at(0)).expect("chain 100");
    assert_eq!(label(&registry, 100), ChainStateLabel::Pinned);

    registry.set_pinned(100, false, at(1));
    assert_eq!(label(&registry, 100), ChainStateLabel::Hot);

    registry.set_disabled(100, true, at(2));
    assert_eq!(label(&registry, 100), ChainStateLabel::Disabled);

    registry.set_disabled(100, false, at(3));
    assert_eq!(label(&registry, 100), ChainStateLabel::Hot);

    assert!(registry.demote(100, "admin"));
    assert_eq!(label(&registry, 100), ChainStateLabel::Dormant);

    registry.set_pinned(100, true, at(4));
    assert_eq!(label(&registry, 100), ChainStateLabel::Pinned);
    assert!(!registry.demote(100, "idle"));
    assert_eq!(label(&registry, 100), ChainStateLabel::Pinned);
}

#[test]
fn only_hot_chains_make_room_for_another() {
    let discovery = DiscoveryConfig {
        max_hot_chains: 1,
        idle_seconds: 86_400,
        ..DiscoveryConfig::default()
    };
    let mut registry = Registry::new(discovering(vec![], discovery));
    registry.set_catalog(catalog(vec![
        catalog_chain(1, "Oldest, disabled", &["https://one.example"]),
        catalog_chain(2, "Second", &["https://two.example"]),
        catalog_chain(3, "Third", &["https://three.example"]),
    ]));
    registry.resolve_for_request(1, at(0));
    registry.set_disabled(1, true, at(1));
    registry.resolve_for_request(2, at(2));
    registry.resolve_for_request(3, at(10));
    assert_eq!(label(&registry, 1), ChainStateLabel::Disabled);
    assert_eq!(label(&registry, 2), ChainStateLabel::Dormant);
    assert_eq!(label(&registry, 3), ChainStateLabel::Hot);
}

#[test]
fn endpoints_that_left_the_list_are_kept_for_a_while() {
    let mut registry = Registry::new(pinning(vec![1]));
    let grace = registry.config().chainlist.stale_grace_seconds;
    registry.apply_snapshot(&snapshot(&["http://old", "http://stays"]), at(0));
    registry.apply_snapshot(&snapshot(&["http://stays"]), at(1));
    assert!(registry.endpoint(1, "http://old").is_some());
    registry.apply_snapshot(&snapshot(&["http://stays"]), at(grace + 1));
    assert!(registry.endpoint(1, "http://old").is_none());
    assert!(registry.endpoint(1, "http://stays").is_some());
}

#[test]
fn new_endpoints_are_on_probation_and_cooling_ones_are_left_out() {
    let mut registry = Registry::new(pinning(vec![1]));
    registry.apply_snapshot(&snapshot(&["http://a", "http://b"]), at(0));
    let set = registry.candidates(1, &vec![0, 0]);
    assert_eq!(set.kind, PoolKind::Probation);
    assert_eq!(set.endpoints.len(), 2);
    for url in ["http://a", "http://b"] {
        registry
            .endpoint_mut(1, url)
            .record_failure(at(0).instant, FailureSignal::new(FaultKind::RateLimited));
    }
    let set = registry.candidates(1, &vec![0, 0]);
    assert_eq!(set.kind, PoolKind::Empty);
    assert!(set.endpoints.is_empty());
    assert_eq!(registry.candidates(9, &Vec::new()).kind, PoolKind::Empty);
}

#[test]
fn hedging_needs_half_of_the_endpoints() {
    let mut registry = Registry::new(pinning(vec![1]));
    registry.apply_snapshot(&snapshot(&["http://a", "http://b", "http://c"]), at(0));
    activate(registry.endpoint_mut(1, "http://a"), at(0).instant, 10);
    assert!(!registry.healthy_for_hedging(1, 1));
    activate(registry.endpoint_mut(1, "http://b"), at(0).instant, 10);
    assert!(registry.healthy_for_hedging(1, 2));
    assert!(!registry.healthy_for_hedging(1, 3));
}

#[test]
fn health_survives_a_restart() {
    let mut registry = Registry::new(pinning(vec![1]));
    registry.apply_snapshot(&snapshot(&["http://a", "http://b"]), at(0));
    assert_eq!(registry.dirty_endpoint_count(), 2);
    registry
        .endpoint_mut(1, "http://a")
        .record_failure(at(0).instant, FailureSignal::new(FaultKind::RateLimited));
    let stored = registry.take_dirty_health(1, at(0));
    assert_eq!(stored.len(), 1);
    assert_eq!((stored[0].url.as_str(), stored[0].state.as_str()), ("http://a", "cooling"));
    assert_eq!(registry.dirty_endpoint_count(), 1);
    registry.restore_dirty_health(&stored);
    assert_eq!(registry.dirty_endpoint_count(), 2);

    let mut restarted = Registry::new(pinning(vec![1]));
    restarted.restore_health(&stored, at(5));
    restarted.apply_snapshot(&snapshot(&["http://a", "http://b"]), at(5));
    assert!(restarted.endpoint(1, "http://a").unwrap().is_cooling());
    assert!(restarted.endpoint(1, "http://b").unwrap().is_probation());
}

#[test]
fn hot_chains_survive_a_restart() {
    let mut registry = Registry::new(discovering(vec![], DiscoveryConfig::default()));
    let all = catalog(vec![
        catalog_chain(5, "Five", &["https://five.example"]),
        catalog_chain(6, "Six", &["https://six.example"]),
    ]);
    registry.set_catalog(Arc::clone(&all));
    registry.resolve_for_request(5, at(0));
    registry.resolve_for_request(6, at(3));
    let mut hot = registry.hot_chain_timestamps();
    hot.sort();
    assert_eq!(hot, [(5, BASE), (6, BASE + 3)]);

    let mut restarted = Registry::new(discovering(vec![], DiscoveryConfig::default()));
    restarted.set_catalog(all);
    restarted.activate_restored_hot(&hot, at(20));
    assert_eq!(restarted.chain_counts().hot, 2);
    assert_eq!(restarted.chain_last_ingress(5), BASE);
    assert_eq!(restarted.chain_last_ingress(6), BASE + 3);
}

#[test]
fn runtime_endpoints_come_and_go() {
    let mut registry = Registry::new(pinning(vec![1]));
    registry.apply_snapshot(&snapshot(&["http://a"]), at(0));
    let url = "https://extra.example/";
    assert!(registry.add_runtime_endpoint(1, url.to_owned(), at(0).unix));
    assert!(registry.add_runtime_endpoint(1, url.to_owned(), at(0).unix));
    assert!(!registry.add_runtime_endpoint(2, url.to_owned(), at(0).unix));
    assert_eq!(registry.endpoint_count(1), 2);
    registry.set_endpoint_override(
        1,
        EndpointOverrideState {
            url: url.to_owned(),
            disabled: Some(false),
            rps: None,
            concurrency: None,
        },
        at(0).unix,
    );
    assert!(registry.runtime_endpoint_exists(1, url));
    assert!(registry.endpoint_known(1, url));
    assert_eq!(registry.endpoint_source(1, url), "runtime");
    registry.set_catalog(catalog(vec![catalog_chain(1, "One", &["http://a"])]));
    assert_eq!(registry.endpoint_source(1, "http://a"), "chainlist");
    assert!(registry.remove_runtime_endpoint(1, url));
    assert!(!registry.runtime_endpoint_exists(1, url));
    assert!(registry.endpoint(1, url).is_none());
}

#[test]
fn runtime_settings_win_over_configured_ones() {
    let mut registry = Registry::new(pinning(vec![1]));
    let configured = registry.chain_settings(1);
    assert_eq!(configured.4, "default");
    registry.apply_override(
        1,
        ChainOverrideState { tip_ttl_ms: Some(777), ..ChainOverrideState::default() },
    );
    let (block_time, depth, ttl, lag, source) = registry.chain_settings(1);
    assert_eq!((block_time, depth, lag), (configured.0, configured.1, configured.3));
    assert_eq!((ttl, source), (777, "runtime"));
    assert_eq!(registry.runtime_chain_override(1).tip_ttl_ms, Some(777));
}

#[test]
fn overrides_are_read_back() {
    let mut overrides = Overrides::new();
    overrides
        .chains
        .insert(9, ChainOverrideState { pinned: Some(true), ..ChainOverrideState::default() });
    overrides.chains.insert(3, ChainOverrideState { disabled: Some(true), ..ChainOverrideState::default() });
    let mut registry = Registry::new(pinning(vec![1]));
    registry.apply_overrides(&overrides, BASE);
    assert_eq!(registry.runtime_chain_override(9).pinned, Some(true));
    assert_eq!(registry.pin_source(9), Some("manual"));
    assert_eq!(registry.pin_source(1), Some("config"));
    assert_eq!(registry.pin_source(3), None);
    let tombs = registry.tombstoned_chain_ids();
    assert_eq!(tombs.len(), 1);
    assert!(tombs.contains(&3));
    let back = registry.runtime_overrides();
    assert_eq!(back.chains.len(), 2);
    assert_eq!(*back.chains.key_at(0), 3);
    assert_eq!(*back.chains.key_at(1), 9);
}

#[test]
fn automatically_enabled_chains_are_pinned() {
    let mut registry = Registry::new(discovering(vec![], DiscoveryConfig::default()));
    registry.set_catalog(catalog(vec![
        catalog_chain(5, "Five", &["https://five.example"]),
        catalog_chain(6, "Six", &["https://six.example"]),
    ]));
    registry.restore_auto_pinned(&vec![6]);
    assert!(registry.set_auto_pinned(5, true));
    let mut ids = registry.auto_chain_ids();
    ids.sort();
    assert_eq!(ids, [5, 6]);
    assert_eq!(registry.pin_source(5), Some("auto"));
    assert_eq!(registry.resolve_for_request(5, at(0)), Some(ChainStateLabel::Pinned));
    registry.sync_auto_pinned(&vec![6]);
    assert_eq!(registry.auto_chain_ids(), [6]);
    assert_eq!(label(&registry, 5), ChainStateLabel::Hot);
}

#[test]
fn manual_removal_keeps_a_chain_from_being_enabled_automatically() {
    let mut registry = Registry::new(discovering(vec![], DiscoveryConfig::default()));
    registry.set_catalog(catalog(vec![catalog_chain(5, "Five", &["https://five.example"])]));
    registry.apply_override(
        5,
        ChainOverrideState { pinned: Some(false), ..ChainOverrideState::default() },
    );
    assert!(!registry.set_auto_pinned(5, true));
    assert!(registry.auto_chain_ids().is_empty());
}

#[test]
fn chains_are_counted_and_summed_up() {
    let discovery = DiscoveryConfig { deny: vec![13], ..DiscoveryConfig::default() };
    let mut registry = Registry::new(discovering(vec![1], discovery));
    registry.set_catalog(catalog(vec![
        catalog_chain(1, "One", &["https://one.example", "https://uno.example"]),
        catalog_chain(2, "Two", &["https://two.example"]),
        catalog_chain(13, "Denied", &["https://denied.example"]),
    ]));
    for id in [1, 2, 13] {
        registry.resolve_for_request(id, at(0));
    }
    let counts = registry.chain_counts();
    assert_eq!(
        (counts.catalog, counts.pinned, counts.hot, counts.dormant, counts.disabled),
        (3, 1, 1, 0, 1)
    );
    assert_eq!(registry.catalog_chain_count(), 3);
    assert_eq!(registry.catalog_endpoint_count(), 4);
    activate(registry.endpoint_mut(1, "https://one.example"), at(0).instant, 10);
    let one = registry.summary(1).unwrap();
    assert_eq!((one.endpoints, one.active, one.cooling, one.probation), (2, 1, 0, 1));
    let all = registry.summaries(at(0).instant);
    assert_eq!(all.iter().map(|s| s.chain_id).collect::<Vec<_>>(), [1, 2, 13]);
    assert!(registry.summary(99).is_none());
    assert_eq!(registry.endpoint_metric_snapshots(at(0).instant).len(), 3);
    assert!(registry.is_disabled(13));
    assert!(registry.chain_in_catalog(13));
    assert_eq!(registry.endpoint_count(13), 0);
}

#[test]
fn switched_off_endpoints_are_left_out_and_listed() {
    let mut registry = Registry::new(pinning(vec![1]));
    registry.apply_snapshot(&snapshot(&["http://a", "http://b"]), at(0));
    registry.set_catalog(catalog(vec![catalog_chain(1, "One", &["http://a", "http://b"])]));
    registry.set_endpoint_override(
        1,
        EndpointOverrideState {
            url: "http://a".to_owned(),
            disabled: Some(true),
            rps: None,
            concurrency: None,
        },
        BASE,
    );
    registry.apply_snapshot(&snapshot(&["http://a", "http://b"]), at(1));
    assert!(registry.endpoint(1, "http://a").is_none());
    let off = registry.switched_off_endpoints(1);
    assert_eq!(off.iter().map(|item| item.url.as_str()).collect::<Vec<_>>(), ["http://a"]);
}

#[test]
fn strikes_fade_in_all_endpoints() {
    let mut registry = Registry::new(pinning(vec![1]));
    registry.apply_snapshot(&snapshot(&["http://a"]), at(0));
    let endpoint = registry.endpoint_mut(1, "http://a");
    endpoint.record_failure(at(0).instant, FailureSignal::new(FaultKind::RateLimited));
    assert!(endpoint.begin_probe(at(30).instant));
    activate(endpoint, at(30).instant, 10);
    endpoint.end_probe();
    registry.decay_all(at(930).instant);
    let endpoint = registry.endpoint_mut(1, "http://a");
    endpoint.record_failure(at(930).instant, FailureSignal::new(FaultKind::RateLimited));
    assert_eq!(
        endpoint.state(at(930).instant),
        EndpointState::Cooling { until: at(960).instant, strikes: 1 }
    );
}

#[test]
fn refreshes_and_errors_are_noted() {
    let mut registry = Registry::new(Config::default());
    registry.record_chainlist_refresh(77, "network");
    assert_eq!(registry.chainlist_last_refresh(), 77);
    assert_eq!(registry.chainlist_refresh_source_str(), "network");
    registry.record_user_visible_error();
    registry.record_user_visible_error();
    assert_eq!(registry.user_visible_errors(), 2);
}

#[test]
fn the_clock_is_past_the_start_of_the_century() {
    assert!(unix_seconds() > 946_684_800);
    assert_eq!(seconds_read(Some(7)), 7);
    assert_eq!(seconds_read(None), 0);
}

#[test]
fn refreshes_keep_the_settings_of_endpoints() {
    let mut registry = Registry::new(pinning(vec![1]));
    registry.apply_snapshot(&snapshot(&["http://a", "http://b"]), at(0));
    let setting = |url: &str, disabled: bool, rps: Option<u32>| EndpointOverrideState {
        url: url.to_owned(),
        disabled: Some(disabled),
        rps,
        concurrency: None,
    };
    registry.set_endpoint_override(1, setting("http://a", true, None), BASE);
    registry.set_endpoint_override(1, setting("http://b", false, Some(7)), BASE);
    registry.apply_snapshot(&snapshot(&["http://a", "http://b"]), at(1));
    assert!(registry.endpoint(1, "http://a").is_none());
    assert_eq!(registry.endpoint(1, "http://b").unwrap().rps(), 7);
}

#[test]
fn stored_pauses_go_on_when_a_chain_is_taken_into_memory() {
    let mut registry = dynamic(catalog_chain(7, "Seven", &["http://a", "http://b", "http://c"]));
    let stored = |url: &str, state: &str, until: Option<u64>| HealthSnapshot {
        chain_id: 7,
        url: url.to_owned(),
        state: state.to_owned(),
        cooling_until_unix: until,
        strikes: 2,
        latency_ewma_us: 9,
        lag: 0,
    };
    registry.restore_health(
        &vec![
            stored("http://a", "cooling", Some(BASE + 60)),
            stored("http://b", "cooling", Some(BASE + 5)),
            stored("http://c", "active", None),
        ],
        at(0),
    );
    registry.resolve_for_request(7, at(10));
    assert!(registry.endpoint(7, "http://a").unwrap().is_cooling());
    assert!(registry.endpoint(7, "http://b").unwrap().is_probation());
    assert!(registry.endpoint(7, "http://c").unwrap().is_probation());
}

#[test]
fn chains_that_have_been_idle_are_not_taken_into_memory_again() {
    let mut registry = dynamic(catalog_chain(5, "Five", &["https://five.example"]));
    let idle = registry.config().discovery.idle_seconds;
    registry.activate_restored_hot(&vec![(5, BASE)], at(idle));
    assert_eq!(registry.chain_counts().hot, 0);
    registry.activate_restored_hot(&vec![(5, BASE + 1)], at(idle));
    assert_eq!(registry.chain_counts().hot, 1);
}

#[test]
fn refreshes_keep_endpoints_whose_limits_were_asked_for_out_of_bounds() {
    let upstream = UpstreamConfig { default_rps: 200, ..UpstreamConfig::default() };
    let config = Config { chains: vec![1], upstream, ..Config::default() };
    assert!(config.validate().is_ok());
    let mut registry = Registry::new(config);
    registry.apply_snapshot(&snapshot(&["http://fast"]), at(0));
    assert_eq!(registry.endpoint(1, "http://fast").unwrap().rps(), 100);
    activate(registry.endpoint_mut(1, "http://fast"), at(0).instant, 5);
    registry.apply_snapshot(&snapshot(&["http://fast"]), at(1));
    let kept = registry.endpoint(1, "http://fast").unwrap();
    assert!(kept.is_active());
    assert_eq!(kept.latency_ewma_micros(), 5_000);
}

#[test]
fn refreshes_do_not_bring_stored_health_back_over_what_was_learned() {
    let mut registry = Registry::new(pinning(vec![1]));
    let stored = |url: &str| HealthSnapshot {
        chain_id: 1,
        url: url.to_owned(),
        state: "cooling".to_owned(),
        cooling_until_unix: Some(BASE + 500),
        strikes: 3,
        latency_ewma_us: 9,
        lag: 4,
    };
    registry.restore_health(&vec![stored("http://a"), stored("http://b")], at(0));
    registry.apply_snapshot(&snapshot(&["http://a"]), at(0));
    assert!(registry.endpoint(1, "http://a").unwrap().is_cooling());
    let endpoint = registry.endpoint_mut(1, "http://a");
    endpoint.reset_health();
    activate(endpoint, at(1).instant, 5);
    let latency = endpoint.latency_ewma_micros();
    assert_ne!(latency, 9);
    registry.apply_snapshot(&snapshot(&["http://a", "http://b"]), at(2));
    let kept = registry.endpoint(1, "http://a").unwrap();
    assert!(kept.is_active());
    assert_eq!(kept.latency_ewma_micros(), latency);
    assert!(registry.endpoint(1, "http://b").unwrap().is_cooling());
}

#[test]
fn only_valid_settings_come_into_force() {
    let setting = |url: &str, rps: Option<u32>| EndpointOverrideState {
        url: url.to_owned(),
        disabled: None,
        rps,
        concurrency: None,
    };
    let mut registry = Registry::new(pinning(vec![1]));
    registry.set_endpoint_override(1, setting("http://before", Some(3)), BASE);
    let mut overrides = Overrides::new();
    let good = endpoint_key(1, "http://good");
    overrides.endpoints.insert(good.clone(), setting("http://good", Some(7)));
    overrides.endpoints.insert(endpoint_key(1, "http://bad"), setting("http://bad", Some(101)));
    overrides.chains.insert(
        5,
        ChainOverrideState { block_time_ms: Some(1), ..ChainOverrideState::default() },
    );
    registry.apply_overrides(&overrides, BASE);
    let back = registry.runtime_overrides();
    assert_eq!(back.chains.len(), 0);
    assert_eq!(back.endpoints.len(), 1);
    assert_eq!(*back.endpoints.key_at(0), good);
    assert_eq!(back.endpoints.value_at(0).rps, Some(7));
}
