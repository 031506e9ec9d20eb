use std::collections::HashMap;
use std::sync::Arc;

use rpcrouter::admin::{
    ChainAction, ConfirmReset, EndpointAction, EndpointPlan, EndpointReply, SettingsPatch,
    StoreWrite, apply_import, apply_reset, auth, chain_settings, check_reset, finish_chain_action,
    finish_endpoint_action, plan_chain_action, plan_endpoint_action, plan_endpoint_addition,
    store_unavailable,
};
use rpcrouter::admin_list::{ChainQuery, RowFacts, list_page, priority_key, search_too_long};
use rpcrouter::admin_rows::{
    ChainRow, ChainSettings, available_count, build_rows, public_row, public_rows, totals,
};
use rpcrouter::chain::ChainStateLabel;
use rpcrouter::chainlist::{
    Catalog, CatalogChain, CatalogEndpoint, ChainEndpoints, ChainlistSnapshot,
};
use rpcrouter::config::{Config, DiscoveryConfig};
use rpcrouter::endpoint::EndpointState;
use rpcrouter::health::SECOND;
use rpcrouter::keys::endpoint_key;
use rpcrouter::metrics::Metrics;
use rpcrouter::promotion::AutoEnableManager;
use rpcrouter::autoenable::AutoEnableConfig;
use rpcrouter::registry::Registry;
use rpcrouter::registry_model::Moment;
use rpcrouter::state::{AutoChainState, ChainOverrideState, HealthSnapshot, StateRuntimeSnapshot};
use rpcrouter::store::MemoryStore;

const BASE: u64 = 1_700_000_000;
const URL: &str = "http://127.0.0.1/private-upstream";

fn at(seconds: u64) -> Moment {
    Moment { instant: u128::from(1_000 + seconds) * SECOND, unix: BASE + seconds }
}

fn chain(chain_id: u64, name: &str, is_testnet: bool, urls: &[&str]) -> CatalogChain {
    CatalogChain {
        chain_id,
        name: name.to_owned(),
        short_name: None,
        chain: None,
        slug: None,
        is_testnet,
        native_symbol: None,
        explorer_url: None,
        status: Some("active".to_owned()),
        tvl: None,
        endpoints: urls
            .iter()
            .map(|url| CatalogEndpoint { url: url.to_string(), tracking: None })
            .collect(),
    }
}

fn catalog(chains: Vec<CatalogChain>) -> Arc<Catalog> {
    let by_id: HashMap<u64, usize> =
        chains.iter().enumerate().map(|(place, chain)| (chain.chain_id, place)).collect();
    Arc::new(Catalog { chains, by_id })
}

/// A registry with one chain that serves requests, one that nobody asked for and one that is off.
fn app() -> (Registry, Metrics) {
    let mut registry = Registry::new(Config { chains: Vec::new(), ..Config::default() });
    let mut ethereum = chain(1, "Ethereum", false, &[URL]);
    ethereum.short_name = Some("eth".to_owned());
    ethereum.native_symbol = Some("ETH".to_owned());
    ethereum.explorer_url = Some("https://explorer.example/".to_owned());
    registry.set_catalog(catalog(vec![
        ethereum,
        chain(7, "Dormant Chain", false, &[URL]),
        chain(9, "Blocked Chain", false, &[URL]),
    ]));
    registry.apply_snapshot(
        &ChainlistSnapshot {
            chains: vec![ChainEndpoints {
                chain_id: 1,
                name: "Ethereum".to_owned(),
                endpoints: vec![URL.to_owned()],
            }],
        },
        at(0),
    );
    registry.resolve_for_request(1, at(0)).unwrap();
    let endpoint = registry.endpoint_mut(1, URL);
    endpoint.record_success(at(0).instant, SECOND / 1_000, true);
    endpoint.record_success(at(0).instant, SECOND / 1_000, true);
    assert_eq!(endpoint.state(at(0).instant), EndpointState::Active);
    registry.set_disabled(9, true, at(0));
    (registry, Metrics::new())
}

fn rows(app: &mut (Registry, Metrics)) -> Vec<ChainRow> {
    build_rows(&mut app.0, &app.1, None, None, at(0))
}

/// The ids on a page of the public list.
fn public_ids(app: &mut (Registry, Metrics), query: ChainQuery) -> Vec<u64> {
    let all = rows(app);
    let catalog = app.0.catalog();
    let public = public_rows(&all, catalog.as_deref());
    let facts: Vec<RowFacts> = public.iter().map(|row| row.facts()).collect();
    let page = list_page(&facts, &query, true);
    page.places.iter().map(|place| public[*place].chain_id).collect()
}

fn action(url: &str) -> EndpointAction {
    EndpointAction { url: url.to_owned(), seconds: None, rps: None, concurrency: None }
}

fn row(
    chain_id: u64,
    state: &str,
    active: usize,
    endpoints: usize,
    testnet: bool,
    ingress: u64,
) -> ChainRow {
    ChainRow {
        chain_id,
        pin_source: None,
        auto_candidate: None,
        name: format!("Chain {chain_id}"),
        short_name: None,
        is_testnet: testnet,
        status: None,
        state: state.to_owned(),
        pinned: state == "pinned",
        disabled: state == "disabled",
        catalog_endpoints: endpoints,
        endpoints,
        active,
        cooling: 0,
        probation: 0,
        head: 0,
        last_ingress_unix: 0,
        ingress_total: ingress,
        cache_hits_total: 0,
        cache_lookups_total: 0,
        upstream_total: 0,
        user_visible_errors_total: 0,
        settings: ChainSettings {
            block_time_ms: 0,
            confirmation_depth: 0,
            tip_ttl_ms: 0,
            max_block_lag: 0,
            source: "default",
        },
        endpoint_rows: None,
    }
}

#[test]
fn priority_sort_puts_pinned_hot_and_endpoint_backed_chains_first() {
    let rows = [
        row(5, "dormant", 0, 0, false, 0),
        row(4, "disabled", 3, 3, false, 900),
        row(3, "hot", 0, 2, false, 50),
        row(2, "hot", 2, 2, false, 10),
        row(1, "pinned", 1, 3, false, 0),
        row(6, "dormant", 0, 0, false, 5),
        row(7, "hot", 2, 2, true, 999),
        row(8, "pinned", 0, 0, false, 100),
    ];
    let facts: Vec<RowFacts> = rows.iter().map(|row| row.facts()).collect();
    let query = ChainQuery { sort: Some("priority".to_owned()), ..ChainQuery::default() };
    let page = list_page(&facts, &query, false);
    let ids: Vec<u64> = page.places.iter().map(|place| rows[*place].chain_id).collect();
    assert_eq!(ids, vec![1, 8, 2, 7, 3, 6, 5, 4]);
    assert_eq!(priority_key(&facts[4]).rank, 0);
}

#[test]
fn public_row_rejects_non_http_explorer_urls() {
    let row = row(1, "hot", 1, 1, false, 0);
    let mut one = chain(1, "One", false, &[]);
    one.explorer_url = Some("javascript:alert(1)".to_owned());
    let listed = catalog(vec![one]);
    assert!(public_row(&row, Some(&*listed)).explorer_url.is_none());
}

#[test]
fn admin_auth_matrix_and_read_only_contract() {
    assert!(auth(None, true, None).is_ok());
    let refused = auth(None, false, None).unwrap_err();
    assert_eq!((refused.status, refused.code), (403, "admin_disabled"));
    let refused = auth(None, true, Some("secret")).unwrap_err();
    assert_eq!((refused.status, refused.code), (401, "unauthorized"));
    assert!(auth(Some("Bearer secret"), true, Some("secret")).is_ok());
    assert!(auth(Some("Bearer secret"), false, Some("secret")).is_ok());
    for wrong in ["Bearer Secret", "Bearer secre", "Bearer secrets", "secret", "bearer secret"] {
        assert_eq!(auth(Some(wrong), false, Some("secret")).unwrap_err().status, 401, "{wrong}");
    }
}

#[test]
fn a_new_runtime_snapshot_stands_at_its_start() {
    let store = MemoryStore::new();
    let before = store.call_count();
    let state = StateRuntimeSnapshot::new(
        store.backend_name().to_owned(),
        "test".to_owned(),
        "test-1".to_owned(),
        101,
    );
    assert_eq!(state.backend, "memory");
    assert_eq!(state.namespace, "test");
    assert_eq!(state.instance_id, "test-1");
    assert_eq!(state.last_flush_unix, 101);
    assert_eq!(state.last_flush_result, "startup");
    assert_eq!(state.last_ping_unix, 101);
    assert_eq!(store.call_count(), before);
}

#[test]
fn endpoint_controls_persist_then_change_runtime() {
    let (mut registry, _) = app();
    let mut store = MemoryStore::new();
    let plan = plan_endpoint_action(&registry, 1, "disable", &action(URL)).unwrap();
    let EndpointPlan::Store { ref key, ref value, .. } = plan else {
        panic!("settings are stored");
    };
    assert_eq!(*key, endpoint_key(1, URL));
    assert_eq!(value.disabled, Some(true));
    store.put_endpoint_override(key, value.clone());
    store.append_audit("endpoint.disable", URL, BASE);
    finish_endpoint_action(&mut registry, 1, URL, plan, at(1));
    let scores = vec![0; registry.endpoint_count(1)];
    assert!(registry.candidates(1, &scores).endpoints.is_empty());
    assert!(store.audit_count() > 0);
}

#[test]
fn unavailable_store_returns_503_without_memory_change() {
    let (mut registry, _) = app();
    let (planned, write) = plan_chain_action(&registry, 1, "disable", BASE).unwrap();
    assert_eq!(planned, ChainAction::Disable);
    assert!(matches!(write, StoreWrite::Override(o) if o.disabled == Some(true)));
    assert_eq!(store_unavailable().status, 503);
    assert_ne!(registry.resolve_for_request(1, at(1)), Some(ChainStateLabel::Disabled));
}

fn ttl(value: Option<u64>) -> SettingsPatch {
    SettingsPatch {
        block_time_ms: None,
        confirmation_depth: None,
        tip_ttl_ms: Some(value),
        max_block_lag: None,
    }
}

#[test]
fn override_export_import_reset_round_trip() {
    let (mut registry, _) = app();
    let mut store = MemoryStore::new();
    let patch = SettingsPatch { confirmation_depth: Some(Some(3)), ..ttl(Some(777)) };
    let changed = chain_settings(&registry, 1, &patch).unwrap();
    store.put_chain_override(1, changed);
    store.append_audit("chain.settings", "1", BASE);
    registry.apply_override(1, changed);
    assert_eq!(registry.chain_settings(1).2, 777);
    let mut export = store.export();
    export.health = vec![HealthSnapshot {
        chain_id: 1,
        url: URL.to_owned(),
        state: "cooling".to_owned(),
        cooling_until_unix: Some(at(60).unix),
        strikes: 3,
        latency_ewma_us: 0,
        lag: 0,
    }];
    assert!(check_reset(&ConfirmReset { confirm: true }).is_ok());
    assert_eq!(check_reset(&ConfirmReset { confirm: false }).unwrap_err().status, 400);
    store.reset(BASE);
    apply_reset(&mut registry, BASE);
    assert_ne!(registry.chain_settings(1).2, 777);
    store.import(&export).unwrap();
    apply_import(&mut registry, &export, at(0));
    assert_eq!(registry.chain_settings(1).2, 777);
    assert!(registry.endpoint(1, URL).unwrap().is_cooling());
    assert_eq!(store.load_overrides().chains.get(&1).unwrap().tip_ttl_ms, Some(777));
}

#[test]
fn invalid_limits_and_settings_are_rejected_before_persistence() {
    let (registry, _) = app();
    let refused = plan_endpoint_action(
        &registry,
        1,
        "limits",
        &EndpointAction { rps: Some(0), ..action("http://127.0.0.1/") },
    )
    .unwrap_err();
    assert_eq!((refused.status, refused.message), (400, "rps must be between 1 and 100"));
    let refused = chain_settings(&registry, 1, &ttl(Some(1))).unwrap_err();
    assert_eq!((refused.status, refused.code), (400, "invalid_argument"));
}

#[test]
fn settings_null_deletes_override_and_pin_uses_two_store_calls() {
    let (mut registry, _) = app();
    let mut store = MemoryStore::new();
    for value in [Some(777), None] {
        let changed = chain_settings(&registry, 1, &ttl(value)).unwrap();
        store.put_chain_override(1, changed);
        registry.apply_override(1, changed);
    }
    assert_ne!(registry.chain_settings(1).2, 777);
    let before = store.call_count();
    let (planned, write) = plan_chain_action(&registry, 1, "pin", BASE).unwrap();
    let StoreWrite::Override(value) = write else {
        panic!("a pin is a setting");
    };
    store.put_chain_override(1, value);
    store.append_audit("chain.pin", "1", BASE);
    assert_eq!(finish_chain_action(&mut registry, 1, planned, at(1)), "pinned");
    assert!(store.call_count() - before <= 2);
}

#[test]
fn chains_listing_does_not_increase_metrics_cardinality() {
    let mut app = app();
    app.1.record_ingress(1);
    let before = app.1.chain_snapshots().len();
    assert_eq!(rows(&mut app).len(), 3);
    assert_eq!(app.1.chain_snapshots().len(), before);
}

#[test]
fn public_overview_and_list_values_sort_and_validate_queries() {
    let mut registry = Registry::new(Config { chains: Vec::new(), ..Config::default() });
    registry.set_catalog(catalog(vec![
        chain(1, "Ethereum", false, &[URL]),
        chain(2, "Test Chain", true, &[]),
    ]));
    registry.resolve_for_request(1, at(0)).unwrap();
    let endpoint = registry.endpoint_mut(1, URL);
    endpoint.record_success(at(0).instant, SECOND / 1_000, true);
    endpoint.record_success(at(0).instant, SECOND / 1_000, true);
    assert_eq!(endpoint.state(at(0).instant), EndpointState::Active);
    let mut app = (registry, Metrics::new());
    let all = rows(&mut app);
    let public = public_rows(&all, app.0.catalog().as_deref());
    assert_eq!(public.len(), 2);
    assert_eq!(app.0.chain_counts().catalog, 2);
    assert_eq!(available_count(&public), 1);
    let summaries = app.0.summaries(at(0).instant);
    assert_eq!(totals(&app.1, &summaries).active, 1);
    let priority = ChainQuery { sort: Some("priority".to_owned()), ..ChainQuery::default() };
    let ids = public_ids(&mut app, priority);
    assert_eq!(ids[0], 1);
    assert!(ids.len() <= 200);
    let long = ChainQuery { q: Some("a".repeat(65)), ..ChainQuery::default() };
    assert!(search_too_long(&long));
    let fitting = ChainQuery { q: Some("a".repeat(64)), ..ChainQuery::default() };
    assert!(!search_too_long(&fitting));
    let limited = ChainQuery { limit: Some(1_000), ..ChainQuery::default() };
    assert!(public_ids(&mut app, limited).len() <= 200);
}

#[test]
fn large_catalogs_are_shown_in_pages() {
    let (mut registry, metrics) = app();
    let mut chains = registry.catalog().unwrap().chains.clone();
    for chain_id in 10..=3006 {
        let mut more = chain(chain_id, &format!("Chain {chain_id}"), false, &[]);
        more.explorer_url = Some("javascript:alert(1)".to_owned());
        chains.push(more);
    }
    registry.set_catalog(catalog(chains));
    assert_eq!(registry.chain_counts().catalog, 3000);
    let mut app = (registry, metrics);
    let query = ChainQuery {
        scope: Some("all".to_owned()),
        limit: Some(1_000),
        ..ChainQuery::default()
    };
    assert_eq!(public_ids(&mut app, query).len(), 200);
    let query = ChainQuery { scope: Some("all".to_owned()), ..ChainQuery::default() };
    assert_eq!(public_ids(&mut app, query).len(), 100);
    assert!(rpcrouter::site::is_fresh(at(0).instant, at(4).instant));
    assert!(!rpcrouter::site::is_fresh(at(0).instant, at(5).instant));
}

#[test]
fn public_rows_are_redacted_and_disabled_chains_are_hidden() {
    let mut app = app();
    let all = rows(&mut app);
    let listed = app.0.catalog();
    let public = public_rows(&all, listed.as_deref());
    assert_eq!(public[0].native_symbol.as_deref(), Some("ETH"));
    assert_eq!(public[0].explorer_url.as_deref(), Some("https://explorer.example/"));
    let shown = format!("{public:?}");
    for forbidden in ["endpoint_rows", "settings", "user_visible_errors", "private-upstream"] {
        assert!(!shown.contains(forbidden), "leaked {forbidden}");
    }
    let (planned, _) = plan_chain_action(&app.0, 1, "disable", BASE).unwrap();
    assert_eq!(finish_chain_action(&mut app.0, 1, planned, at(1)), "disabled");
    assert!(!public_ids(&mut app, ChainQuery::default()).contains(&1));
    let all = rows(&mut app);
    assert!(public_rows(&all, listed.as_deref()).iter().all(|row| row.chain_id != 1));
    assert!(build_rows(&mut app.0, &app.1, None, Some(999), at(0)).is_empty());
}

#[test]
fn public_list_defaults_to_enabled_chains_and_search_opens_catalog() {
    let mut app = app();
    assert_eq!(public_ids(&mut app, ChainQuery::default()), [1]);
    let scoped = ChainQuery { scope: Some("all".to_owned()), ..ChainQuery::default() };
    let mut all = public_ids(&mut app, scoped);
    all.sort_unstable();
    assert_eq!(all, [1, 7]);
    let searched = ChainQuery { q: Some("dormant".to_owned()), ..ChainQuery::default() };
    assert_eq!(public_ids(&mut app, searched), [7]);
    let blocked = ChainQuery { q: Some("blocked".to_owned()), ..ChainQuery::default() };
    assert!(public_ids(&mut app, blocked).is_empty());
}

#[test]
fn public_detail_covers_both_tiers_and_hides_disabled() {
    let mut app = app();
    let all = rows(&mut app);
    let public = public_rows(&all, None);
    let states: Vec<(u64, &str)> =
        public.iter().map(|row| (row.chain_id, row.state.as_str())).collect();
    assert_eq!(states, [(1, "available"), (7, "unverified")]);
    for hidden in [9, 999] {
        assert!(public.iter().all(|row| row.chain_id != hidden), "{hidden}");
    }
    assert_eq!(available_count(&public), 1);
    let scoped = ChainQuery { scope: Some("all".to_owned()), ..ChainQuery::default() };
    assert_eq!(public_ids(&mut app, scoped).len(), public.len());
}

#[test]
fn admin_exposes_pin_source_and_auto_enable_block() {
    let mut app = app();
    app.0.set_auto_pinned(7, true);
    let all = rows(&mut app);
    let seven = all.iter().find(|row| row.chain_id == 7).unwrap();
    assert_eq!(seven.pin_source, Some("auto"));
    let manager = AutoEnableManager::new(AutoEnableConfig::default());
    let status = manager.status(&app.0);
    assert_eq!((status.chains, status.promotions_total, status.capped), (1, 0, false));
}

#[test]
fn rows_show_how_candidates_do() {
    let (mut registry, metrics) = app();
    let limits = AutoEnableConfig::default();
    let mut manager = AutoEnableManager::new(limits);
    manager.take_round(&rpcrouter::autoenable::judge_round(7, vec![3], 2, &limits));
    let all = build_rows(&mut registry, &metrics, Some(&manager), None, at(0));
    let seven = all.iter().find(|row| row.chain_id == 7).unwrap().auto_candidate.unwrap();
    assert_eq!((seven.rounds, seven.last_qualified, seven.last_failures), (0, false, 2));
    assert!(all[0].auto_candidate.is_none());
}

#[test]
fn endpoint_rows_show_what_is_switched_off() {
    let (mut registry, metrics) = app();
    let plan = plan_endpoint_action(&registry, 1, "disable", &action(URL)).unwrap();
    finish_endpoint_action(&mut registry, 1, URL, plan, at(1));
    let one = build_rows(&mut registry, &metrics, None, Some(1), at(1));
    let endpoints = one[0].endpoint_rows.as_ref().unwrap();
    assert_eq!(endpoints.len(), 1);
    assert_eq!((endpoints[0].state, endpoints[0].disabled), ("disabled", true));
    assert_eq!(endpoints[0].source, "chainlist");
    assert!(build_rows(&mut registry, &metrics, None, None, at(1))[0].endpoint_rows.is_none());
}

#[test]
fn chain_actions_are_checked() {
    let (registry, _) = app();
    let refused = plan_chain_action(&registry, 1, "explode", BASE).unwrap_err();
    assert_eq!((refused.status, refused.message), (404, "unknown chain action"));
    let refused = plan_chain_action(&registry, 99, "pin", BASE).unwrap_err();
    assert_eq!((refused.status, refused.message), (404, "unknown chain"));
}

#[test]
fn chain_actions_are_carried_out() {
    let (mut registry, _) = app();
    let mut act = |registry: &mut Registry, chain_id: u64, name: &str| {
        let (planned, _) = plan_chain_action(registry, chain_id, name, BASE).unwrap();
        finish_chain_action(registry, chain_id, planned, at(2))
    };
    assert_eq!(act(&mut registry, 7, "activate"), "hot");
    assert_eq!(act(&mut registry, 7, "demote"), "dormant");
    assert_eq!(registry.chain_demotions(), (0, 0, 1));
    assert_eq!(registry.endpoint_count(7), 0);
    assert_eq!(act(&mut registry, 7, "pin"), "pinned");
    assert_eq!(registry.pin_source(7), Some("manual"));
    assert_eq!(act(&mut registry, 7, "unpin"), "hot");
    assert!(registry.tombstoned_chain_ids().contains(&7));
    assert_eq!(act(&mut registry, 7, "disable"), "disabled");
    assert_eq!(act(&mut registry, 7, "enable"), "hot");
    assert!(!registry.set_auto_pinned(7, true));
}

#[test]
fn additions_are_checked_and_brought_into_normal_form() {
    let (mut registry, _) = app();
    let refuse = |registry: &Registry, a: &EndpointAction| {
        plan_endpoint_addition(registry, 1, a, false).unwrap_err()
    };
    assert_eq!(refuse(&registry, &action("nonsense")).status, 400);
    assert_eq!(refuse(&registry, &action("https://10.0.0.1/")).status, 400);
    assert_eq!(refuse(&registry, &action("http://rpc.example/")).status, 400);
    let many = EndpointAction { concurrency: Some(65), ..action("https://rpc.example/") };
    assert_eq!(refuse(&registry, &many).message, "concurrency must be between 1 and 64");
    let unknown = plan_endpoint_addition(&registry, 99, &action("https://rpc.example"), false);
    assert_eq!(unknown.unwrap_err().message, "unknown chain");
    let plan =
        plan_endpoint_addition(&registry, 1, &action("https://RPC.example"), false).unwrap();
    let EndpointPlan::Store { ref value, .. } = plan else {
        panic!("an addition is stored");
    };
    let normal = value.url.clone();
    assert_eq!(normal, "https://rpc.example/");
    let reply = finish_endpoint_action(&mut registry, 1, &normal, plan, at(1));
    assert_eq!(reply, EndpointReply::Probation);
    assert!(registry.endpoint(1, &normal).is_some());
    let plan = plan_endpoint_action(&registry, 1, "remove", &action(&normal)).unwrap();
    assert!(matches!(plan, EndpointPlan::Remove { .. }));
    finish_endpoint_action(&mut registry, 1, &normal, plan, at(2));
    assert!(registry.endpoint(1, &normal).is_none());
    let conflict = plan_endpoint_action(&registry, 1, "remove", &action(URL)).unwrap_err();
    assert_eq!((conflict.status, conflict.code), (409, "conflict"));
}

#[test]
fn endpoints_are_cooled_and_reset_by_hand() {
    let (mut registry, _) = app();
    let long = EndpointAction { seconds: Some(604_801), ..action(URL) };
    assert_eq!(plan_endpoint_action(&registry, 1, "cool", &long).unwrap_err().status, 400);
    let plan = plan_endpoint_action(&registry, 1, "cool", &action(URL)).unwrap();
    let reply = finish_endpoint_action(&mut registry, 1, URL, plan, at(0));
    let EndpointReply::State(EndpointState::Cooling { until, .. }) = reply else {
        panic!("the endpoint cools");
    };
    assert_eq!(until, at(60).instant);
    let plan = plan_endpoint_action(&registry, 1, "reset", &action(URL)).unwrap();
    let reply = finish_endpoint_action(&mut registry, 1, URL, plan, at(1));
    assert_eq!(reply, EndpointReply::State(EndpointState::Probation { passes: 0 }));
    assert!(matches!(
        plan_endpoint_action(&registry, 1, "probe", &action(URL)),
        Ok(EndpointPlan::Probe)
    ));
    let refused = plan_endpoint_action(&registry, 1, "explode", &action(URL)).unwrap_err();
    assert_eq!(refused.message, "unknown endpoint action");
    let refused = plan_endpoint_action(&registry, 1, "cool", &action("https://x")).unwrap_err();
    assert_eq!(refused.message, "endpoint not found");
}

#[test]
fn endpoints_of_dormant_chains_are_switched_off_too() {
    let (mut registry, _) = app();
    let plan = plan_endpoint_action(&registry, 7, "disable", &action(URL)).unwrap();
    assert_eq!(
        finish_endpoint_action(&mut registry, 7, URL, plan, at(1)),
        EndpointReply::Dormant
    );
    registry.resolve_for_request(7, at(2));
    assert_eq!(registry.endpoint_count(7), 0);
}

#[test]
fn a_reset_leaves_only_configured_pins() {
    let (mut registry, _) = app();
    registry.set_pinned(7, true, at(0));
    registry.set_auto_pinned(1, true);
    registry.apply_override(
        9,
        ChainOverrideState { pinned: Some(true), ..ChainOverrideState::default() },
    );
    apply_reset(&mut registry, BASE);
    for id in [1, 7, 9] {
        assert_eq!(registry.pin_source(id), None);
    }
}

#[test]
fn an_import_brings_the_automatic_choice_back() {
    let (mut registry, _) = app();
    let mut store = MemoryStore::new();
    store.put_auto_chain(7, AutoChainState::default());
    let export = store.export();
    apply_import(&mut registry, &export, at(0));
    assert_eq!(registry.auto_chain_ids(), [7]);
}

#[test]
fn lists_are_searched_sorted_and_cut() {
    let rows = [
        row(1, "hot", 1, 1, false, 5),
        row(2, "dormant", 0, 0, true, 50),
        row(12, "hot", 3, 3, false, 1),
    ];
    let facts: Vec<RowFacts> = rows.iter().map(|row| row.facts()).collect();
    let ids = |query: ChainQuery| -> (usize, Vec<u64>) {
        let page = list_page(&facts, &query, false);
        (page.total, page.places.iter().map(|place| rows[*place].chain_id).collect())
    };
    let text = |s: &str| Some(s.to_owned());
    assert_eq!(ids(ChainQuery { state: text("HOT"), ..ChainQuery::default() }), (2, vec![1, 12]));
    assert_eq!(ids(ChainQuery { testnet: Some(true), ..ChainQuery::default() }), (1, vec![2]));
    assert_eq!(ids(ChainQuery { q: text("CHAIN 1"), ..ChainQuery::default() }).0, 2);
    assert_eq!(
        ids(ChainQuery { sort: text("traffic"), ..ChainQuery::default() }),
        (3, vec![2, 1, 12])
    );
    assert_eq!(
        ids(ChainQuery { limit: Some(1), offset: Some(1), ..ChainQuery::default() }).1.len(),
        1
    );
    assert_eq!(ids(ChainQuery { offset: Some(9), ..ChainQuery::default() }), (3, vec![]));
}

#[test]
fn actions_taken_twice_change_nothing_more() {
    for name in ["activate", "demote", "pin", "unpin", "enable", "disable"] {
        let (mut registry, _) = app();
        let mut seen = Vec::new();
        for _ in 0..2 {
            let (planned, _) = plan_chain_action(&registry, 7, name, BASE).unwrap();
            let state = finish_chain_action(&mut registry, 7, planned, at(2));
            let o = registry.runtime_chain_override(7);
            seen.push((
                state,
                o,
                registry.pin_source(7),
                registry.endpoint_count(7),
                registry.chain_last_ingress(7),
            ));
        }
        assert_eq!(seen[0], seen[1], "{name}");
    }
}

#[test]
fn settings_applied_twice_change_nothing_more() {
    let (mut registry, _) = app();
    let patch = ttl(Some(777));
    let once = chain_settings(&registry, 1, &patch).unwrap();
    registry.apply_override(1, once);
    assert_eq!(chain_settings(&registry, 1, &patch).unwrap(), once);
    for _ in 0..2 {
        let asked = EndpointAction { rps: Some(7), ..action(URL) };
        let plan = plan_endpoint_action(&registry, 1, "limits", &asked).unwrap();
        finish_endpoint_action(&mut registry, 1, URL, plan, at(1));
        assert_eq!(registry.endpoint(1, URL).unwrap().rps(), 7);
        assert_eq!(registry.endpoint_count(1), 1);
    }
}

#[test]
fn denied_and_switched_off_chains_are_disabled_before_anyone_asks() {
    let discovery =
        DiscoveryConfig { enabled: true, deny: vec![7], ..DiscoveryConfig::default() };
    let mut registry =
        Registry::new(Config { chains: Vec::new(), discovery, ..Config::default() });
    registry.set_catalog(catalog(vec![
        chain(1, "Open", false, &[URL]),
        chain(7, "Denied", false, &[URL]),
        chain(9, "Off", false, &[URL]),
    ]));
    registry.apply_override(
        9,
        ChainOverrideState { disabled: Some(true), ..ChainOverrideState::default() },
    );
    let mut app = (registry, Metrics::new());
    let all = rows(&mut app);
    let states: Vec<(u64, &str, bool)> =
        all.iter().map(|row| (row.chain_id, row.state.as_str(), row.disabled)).collect();
    assert_eq!(states, [(1, "dormant", false), (7, "disabled", true), (9, "disabled", true)]);
    let public = public_rows(&all, None);
    assert_eq!(public.iter().map(|row| row.chain_id).collect::<Vec<_>>(), [1]);
    let counts = app.0.chain_counts();
    assert_eq!((counts.dormant, counts.disabled), (1, 2));
}

/// Takes an action on a chain and gives the state that it is answered with.
fn act(registry: &mut Registry, chain_id: u64, name: &str) -> &'static str {
    let (planned, _) = plan_chain_action(registry, chain_id, name, BASE).unwrap();
    finish_chain_action(registry, chain_id, planned, at(2))
}

#[test]
fn actions_change_only_what_they_name() {
    let mut registry = Registry::new(Config { chains: vec![5], ..Config::default() });
    registry.set_catalog(catalog(vec![chain(5, "Configured", false, &[URL])]));
    registry.apply_override(
        5,
        ChainOverrideState { pinned: Some(false), ..ChainOverrideState::default() },
    );
    for _ in 0..3 {
        assert_eq!(act(&mut registry, 5, "enable"), "pinned");
    }
    let noted = registry.runtime_chain_override(5);
    assert_eq!((noted.pinned, noted.disabled), (Some(false), Some(false)));
    assert_eq!(act(&mut registry, 5, "disable"), "disabled");
    assert_eq!(act(&mut registry, 5, "pin"), "disabled");
    assert_eq!(act(&mut registry, 5, "enable"), "pinned");
    assert_eq!(act(&mut registry, 5, "unpin"), "hot");
}

#[test]
fn no_action_and_no_setting_lifts_a_denial() {
    let discovery = DiscoveryConfig { enabled: true, deny: vec![7], ..DiscoveryConfig::default() };
    let mut registry =
        Registry::new(Config { chains: Vec::new(), discovery, ..Config::default() });
    registry.set_catalog(catalog(vec![chain(7, "Denied", false, &[URL])]));
    for name in ["demote", "enable", "pin", "enable", "unpin", "activate", "demote", "disable"] {
        for _ in 0..2 {
            assert_eq!(act(&mut registry, 7, name), "disabled", "{name}");
        }
    }
    registry.apply_override(
        7,
        ChainOverrideState {
            pinned: Some(true),
            disabled: Some(false),
            ..ChainOverrideState::default()
        },
    );
    assert!(registry.is_disabled(7));
    apply_reset(&mut registry, BASE);
    assert!(registry.is_disabled(7));
    assert_eq!(registry.resolve_for_request(7, at(3)), Some(ChainStateLabel::Disabled));
}

#[test]
fn settings_do_not_unpin_what_is_configured() {
    let mut registry = Registry::new(Config { chains: vec![5], ..Config::default() });
    registry.set_catalog(catalog(vec![chain(5, "Configured", false, &[URL])]));
    assert_eq!(registry.resolve_for_request(5, at(0)), Some(ChainStateLabel::Pinned));
    registry.apply_override(
        5,
        ChainOverrideState { pinned: Some(false), ..ChainOverrideState::default() },
    );
    assert_eq!(registry.resolve_for_request(5, at(1)), Some(ChainStateLabel::Pinned));
}

#[test]
fn a_chain_that_is_pinned_while_dormant_makes_room_first() {
    let discovery =
        DiscoveryConfig { enabled: true, max_hot_chains: 1, ..DiscoveryConfig::default() };
    let mut registry =
        Registry::new(Config { chains: Vec::new(), discovery, ..Config::default() });
    registry.set_catalog(catalog(vec![
        chain(1, "Hot", false, &[URL]),
        chain(7, "Dormant", false, &[URL]),
    ]));
    assert_eq!(registry.resolve_for_request(1, at(0)), Some(ChainStateLabel::Hot));
    assert_eq!(finish_chain_action(&mut registry, 7, ChainAction::Pin, at(10)), "pinned");
    assert_eq!(registry.chain(1).unwrap().state_label(), ChainStateLabel::Dormant);
    assert_eq!(registry.chain_demotions(), (0, 1, 0));
}
