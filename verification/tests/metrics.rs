use std::collections::{HashMap, HashSet};
use std::sync::Arc;

use rpcrouter::chainlist::{
    Catalog, CatalogChain, CatalogEndpoint, ChainEndpoints, ChainlistSnapshot,
};
use rpcrouter::config::{Config, DiscoveryConfig};
use rpcrouter::health::{FailureSignal, FaultKind, SECOND};
use rpcrouter::metric_table::{LabelSet, Metric, MetricKind, all_metrics};
use rpcrouter::metrics::Metrics;
use rpcrouter::registry::Registry;
use rpcrouter::registry_model::Moment;

const NOW: Moment = Moment { instant: 1_000 * SECOND, unix: 1_700_000_000 };

fn registry_with_endpoint() -> Registry {
    let mut registry = Registry::new(Config { chains: vec![1], ..Config::default() });
    registry.apply_snapshot(
        &ChainlistSnapshot {
            chains: vec![ChainEndpoints {
                chain_id: 1,
                name: "Test".to_owned(),
                endpoints: vec!["http://upstream".to_owned()],
            }],
        },
        NOW,
    );
    registry
}

#[test]
fn counts_chain_cache_and_endpoint_metrics() {
    let mut registry = registry_with_endpoint();
    let mut metrics = Metrics::new();
    metrics.record_ingress(1);
    metrics.record_cache_lookup(1, true);
    metrics.record_cache_miss_role(1, true);
    metrics.record_upstream(1, "http://upstream");
    metrics.record_catalog_records_skipped(1);
    metrics.sync_endpoints(&mut registry, NOW.instant);
    metrics.sync_v2_gauges(&registry, 0, 0);
    let one = metrics.chain_snapshot(1);
    assert_eq!((one.ingress, one.cache_hits, one.cache_lookups), (1, 1, 1));
    assert_eq!(metrics.endpoints().len(), 1);
    assert_eq!(metrics.endpoints().value_at(0).state, "probation");
    assert_eq!(metrics.pinned().get(1), Some(&true));
    assert_eq!(metrics.catalog_records_skipped_total(), 1);
    assert_eq!(Metric::ChainPinned.name(), "rpcrouter_chain_pinned");
}

#[test]
fn syncs_lifecycle_counter_deltas() {
    let config = Config {
        chains: vec![],
        discovery: DiscoveryConfig { enabled: true, ..DiscoveryConfig::default() },
        ..Config::default()
    };
    let mut registry = Registry::new(config);
    registry.set_catalog(Arc::new(Catalog {
        chains: vec![CatalogChain {
            chain_id: 42,
            name: "Dynamic".to_owned(),
            short_name: None,
            chain: None,
            slug: None,
            is_testnet: false,
            native_symbol: None,
            explorer_url: None,
            status: None,
            tvl: None,
            endpoints: vec![CatalogEndpoint { url: "http://upstream".to_owned(), tracking: None }],
        }],
        by_id: HashMap::from([(42, 0)]),
    }));
    registry.resolve_for_request(42, NOW).expect("activate");
    registry.demote(42, "lru");
    let mut metrics = Metrics::new();
    for _ in 0..2 {
        metrics.sync_v2_gauges(&registry, 0, 0);
        assert_eq!(metrics.chain_activations_total(), 1);
        assert_eq!(metrics.named_counters().2.get("lru"), Some(&1));
        assert_eq!(metrics.states().dormant, 1);
    }
}

#[test]
fn gathers_all_chain_snapshots_in_one_batch() {
    let mut metrics = Metrics::new();
    metrics.record_ingress(1);
    metrics.record_cache_lookup(1, true);
    metrics.record_upstream(1, "http://one");
    metrics.record_ingress(2);
    metrics.record_user_visible_error(2);
    let snapshots: HashMap<u64, _> = metrics.chain_snapshots().into_iter().collect();
    assert_eq!(snapshots[&1].ingress, 1);
    assert_eq!(snapshots[&1].cache_hits, 1);
    assert_eq!(snapshots[&1].upstream, 1);
    assert_eq!(snapshots[&2].ingress, 1);
    assert_eq!(snapshots[&2].user_visible_errors, 1);
}

#[test]
fn endpoints_that_are_gone_are_dropped() {
    let mut registry = registry_with_endpoint();
    let mut metrics = Metrics::new();
    registry
        .endpoint_mut(1, "http://upstream")
        .record_failure(NOW.instant, FailureSignal::new(FaultKind::RateLimited));
    metrics.sync_endpoints(&mut registry, NOW.instant);
    let series = metrics.endpoints().value_at(0);
    assert_eq!((series.rate_limited, series.cooling_events, series.state), (1, 1, "cooling"));
    metrics.sync_endpoints(&mut registry, NOW.instant);
    assert_eq!(metrics.endpoints().value_at(0).rate_limited, 1);
    registry.remove_endpoint(1, "http://upstream");
    metrics.sync_endpoints(&mut registry, NOW.instant);
    assert_eq!(metrics.endpoints().len(), 0);
}

#[test]
fn plain_numbers_are_kept() {
    let mut metrics = Metrics::new();
    metrics.in_flight_inc();
    metrics.in_flight_inc();
    metrics.in_flight_dec();
    assert_eq!(metrics.in_flight(), 1);
    metrics.record_ingress_rejected("overload");
    metrics.record_ingress_rejected("rate_limited");
    metrics.record_ingress_rejected("another reason");
    assert_eq!(metrics.ingress_rejected_total(), 2);
    metrics.record_background_task_restart("probe");
    assert_eq!(metrics.background_task_restarts("probe"), 1);
    assert_eq!(metrics.background_task_restarts("other"), 0);
    metrics.record_auto_enable_promotion();
    metrics.record_auto_enable_probe_failures(4);
    assert_eq!(metrics.auto_enable_promotions_total(), 1);
    assert_eq!(metrics.auto_enable_probe_failures_total(), 4);
    metrics.set_catalog_counts(3, 9);
    metrics.set_probe_queue_depth(5);
    metrics.set_probe_in_flight(6);
    metrics.set_auto_enable_gauges(7, 8);
    metrics.set_chainlist_last_refresh(10);
    metrics.set_state_store_up(true);
    metrics.set_state_dirty_endpoints(11);
    assert_eq!(metrics.plain_gauges(), (3, 9, 5, 6, 7, 8, 10, true, 11));
    metrics.set_chain_state_counts(1, 2, 3, 4);
    assert_eq!(metrics.states().hot, 2);
    metrics.record_state_flush("success");
    metrics.record_chainlist_refresh("network");
    assert_eq!(metrics.named_counters().4.get("success"), Some(&1));
    assert_eq!(metrics.named_counters().1.get("network"), Some(&1));
}

#[test]
fn names_of_metrics_are_distinct() {
    let all = all_metrics();
    let names: HashSet<&str> = all.iter().map(|metric| metric.name()).collect();
    assert_eq!(names.len(), all.len());
    assert!(names.iter().all(|name| name.starts_with("rpcrouter_")));
    assert!(all.iter().all(|metric| !metric.help().is_empty()));
    assert!(matches!(Metric::ChainPinned.kind(), MetricKind::Gauge));
    assert_eq!(Metric::ChainPinned.labels().names(), ["chain_id"]);
    assert!(matches!(Metric::ChainPinned.labels(), LabelSet::Chain));
}
