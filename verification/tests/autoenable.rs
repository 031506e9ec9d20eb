use std::collections::{HashMap, HashSet};
use std::sync::Arc;

use rpcrouter::autoenable::{
    AutoEnableConfig, Candidate, ProbeRound, Reply, build_candidates, judge_document, judge_reply,
    judge_round, probe_endpoint, probe_targets, probed_head, read_quantity, serves_chain,
};
use rpcrouter::chain::ChainStateLabel;
use rpcrouter::chainlist::{Catalog, CatalogChain, CatalogEndpoint, parse_catalog};
use rpcrouter::config::Config;
use rpcrouter::health::SECOND;
use rpcrouter::json::{Number, parse_json};
use rpcrouter::promotion::AutoEnableManager;
use rpcrouter::registry::Registry;
use rpcrouter::registry_model::Moment;
use rpcrouter::state::ChainOverrideState;
use rpcrouter::store::MemoryStore;

const NOW: Moment = Moment { instant: 1_000 * SECOND, unix: 1_700_000_000 };

fn chain(chain_id: u64, urls: &[&str]) -> CatalogChain {
    CatalogChain {
        chain_id,
        name: format!("Chain {chain_id}"),
        short_name: None,
        chain: None,
        slug: None,
        is_testnet: false,
        native_symbol: None,
        explorer_url: None,
        status: Some("active".to_owned()),
        tvl: None,
        endpoints: urls
            .iter()
            .map(|url| CatalogEndpoint {
                url: url.to_string(),
                tracking: Some("none".to_owned()),
            })
            .collect(),
    }
}

fn catalog(chains: Vec<CatalogChain>) -> Catalog {
    let by_id: HashMap<u64, usize> =
        chains.iter().enumerate().map(|(place, chain)| (chain.chain_id, place)).collect();
    Catalog { chains, by_id }
}

fn limits(min_endpoints: usize, max_chains: usize) -> AutoEnableConfig {
    AutoEnableConfig { min_endpoints, max_chains, ..AutoEnableConfig::default() }
}

fn registry_with(listed: Catalog) -> Registry {
    let config = Config::from_toml("chains = []\n[discovery]\nenabled = true").expect("config");
    let mut registry = Registry::new(config);
    registry.set_catalog(Arc::new(listed));
    registry
}

fn set(ids: &[u64]) -> HashSet<u64> {
    ids.iter().copied().collect()
}

/// Scans the candidates once, with the heads that the endpoints of each report.
fn run_once(
    manager: &mut AutoEnableManager,
    registry: &mut Registry,
    store: &mut MemoryStore,
    limits: &AutoEnableConfig,
    writable: bool,
    heads: fn(&Candidate) -> Vec<u64>,
) {
    let listed = registry.catalog().unwrap();
    let pool = build_candidates(
        &listed,
        limits,
        &HashSet::new(),
        &set(&registry.auto_chain_ids()),
        &HashSet::new(),
        &registry.tombstoned_chain_ids(),
    );
    for place in manager.begin_scan(&pool, NOW.unix) {
        let candidate = &pool[place];
        let targets = probe_targets(candidate, limits.max_endpoints_per_chain);
        let answers = heads(candidate);
        let failures = targets.len() - answers.len();
        let round = judge_round(candidate.chain_id, answers, failures, limits);
        manager.take_round(&round);
        let record =
            manager.plan_promotion(registry, &round, candidate.endpoints.len(), writable, NOW.unix);
        if let Some(record) = record {
            store.put_auto_chain(candidate.chain_id, record);
            assert!(manager.promote(registry, candidate.chain_id, NOW));
        }
    }
}

fn all_answer(candidate: &Candidate) -> Vec<u64> {
    candidate.endpoints.iter().map(|_| 100).collect()
}

fn one_answers(_: &Candidate) -> Vec<u64> {
    vec![50]
}

#[test]
fn candidate_filters_and_scores() {
    let urls: Vec<String> = (0..5).map(|i| format!("https://e{i}")).collect();
    let mut one = chain(1, &urls.iter().map(String::as_str).collect::<Vec<_>>());
    one.name = "x".to_owned();
    one.tvl = Some(Number::Float(1.0f64.to_bits()));
    let c = catalog(vec![one]);
    let v = build_candidates(
        &c,
        &AutoEnableConfig::default(),
        &HashSet::new(),
        &HashSet::new(),
        &HashSet::new(),
        &HashSet::new(),
    );
    assert_eq!(v.len(), 1);
    assert!(v[0].score > 5);
    assert_eq!(v[0].score, 5 + 2 * 5 + 2 + 1);
}

#[test]
fn candidates_are_passed_over_and_ranked() {
    let mut testnet = chain(6, &["https://a", "https://b"]);
    testnet.is_testnet = true;
    let c = catalog(vec![
        chain(1, &["https://a", "https://b"]),
        chain(2, &["https://a", "https://b"]),
        chain(3, &["https://a", "https://b"]),
        chain(4, &["https://a", "https://b"]),
        chain(5, &["https://a", "https://a"]),
        testnet,
        chain(8, &["https://a", "https://b"]),
        chain(7, &["https://a", "https://b", "https://c"]),
    ]);
    let chosen = build_candidates(&c, &limits(2, 10), &set(&[1]), &set(&[2]), &set(&[3]), &set(&[4]));
    assert_eq!(chosen.iter().map(|c| c.chain_id).collect::<Vec<_>>(), [7, 8]);
    let few = AutoEnableConfig { max_candidates: 1, ..limits(2, 10) };
    let none = HashSet::new();
    assert_eq!(build_candidates(&c, &few, &none, &none, &none, &none)[0].chain_id, 7);
}

#[test]
fn endpoints_without_tracking_are_probed_first() {
    let entry = |url: &str, tracking: &str| CatalogEndpoint {
        url: url.to_owned(),
        tracking: Some(tracking.to_owned()),
    };
    let candidate = Candidate {
        chain_id: 1,
        score: 0,
        endpoints: vec![entry("a", "yes"), entry("b", "none"), entry("c", "yes"), entry("d", "none")],
    };
    let urls: Vec<String> = probe_targets(&candidate, 3).into_iter().map(|e| e.url).collect();
    assert_eq!(urls, ["b", "d", "a"]);
}

#[test]
fn promotes_only_after_consecutive_qualified_rounds() {
    let limits = limits(2, 10);
    let mut registry = registry_with(catalog(vec![chain(9001, &["http://a", "http://b"])]));
    let mut store = MemoryStore::new();
    let mut manager = AutoEnableManager::new(limits);
    run_once(&mut manager, &mut registry, &mut store, &limits, true, all_answer);
    assert!(registry.auto_chain_ids().is_empty());
    run_once(&mut manager, &mut registry, &mut store, &limits, true, all_answer);
    assert_eq!(registry.auto_chain_ids(), vec![9001]);
    assert_eq!(registry.pin_source(9001), Some("auto"));
    assert_eq!(registry.chain(9001).unwrap().state_label(), ChainStateLabel::Pinned);
    let persisted = store.load_auto_chains();
    assert_eq!(persisted.get(&9001).unwrap().head, 100);
    let status = manager.status(&registry);
    assert_eq!(status.chains, 1);
    assert_eq!(status.promotions_total, 1);
}

#[test]
fn a_failed_round_starts_the_count_over() {
    let limits = limits(2, 10);
    let mut registry = registry_with(catalog(vec![chain(9001, &["http://a", "http://b"])]));
    let mut store = MemoryStore::new();
    let mut manager = AutoEnableManager::new(limits);
    for heads in [all_answer as fn(&Candidate) -> Vec<u64>, one_answers, all_answer] {
        run_once(&mut manager, &mut registry, &mut store, &limits, true, heads);
    }
    assert!(registry.auto_chain_ids().is_empty());
    assert_eq!(manager.candidate_progress(9001).unwrap().rounds, 1);
}

#[test]
fn wrong_chain_id_and_thin_pool_never_qualify() {
    let limits = limits(2, 10);
    let mut registry = registry_with(catalog(vec![chain(9002, &["http://good", "http://liar"])]));
    let mut store = MemoryStore::new();
    let mut manager = AutoEnableManager::new(limits);
    let answer = |result: &str| {
        let body = format!("{{\"jsonrpc\":\"2.0\",\"id\":1,\"result\":\"{result}\"}}");
        Some(Reply { status: 200, body: body.into_bytes() })
    };
    assert_eq!(probe_endpoint(9002, &answer("0x232a"), &answer("0x32")), Some(50));
    assert_eq!(probe_endpoint(9002, &answer("0x4d2"), &answer("0x32")), None);
    for _ in 0..3 {
        run_once(&mut manager, &mut registry, &mut store, &limits, true, one_answers);
    }
    assert!(registry.auto_chain_ids().is_empty());
    let progress = manager.candidate_progress(9002).expect("progress");
    assert_eq!(progress.rounds, 0);
    assert!(!progress.last_qualified);
}

#[test]
fn manual_tombstone_is_never_auto_enabled() {
    let limits = limits(2, 10);
    let mut registry = registry_with(catalog(vec![chain(9003, &["http://a", "http://b"])]));
    registry.apply_override(
        9003,
        ChainOverrideState { pinned: Some(false), ..ChainOverrideState::default() },
    );
    let mut store = MemoryStore::new();
    let mut manager = AutoEnableManager::new(limits);
    for _ in 0..3 {
        run_once(&mut manager, &mut registry, &mut store, &limits, true, all_answer);
    }
    assert!(registry.auto_chain_ids().is_empty());
    assert_eq!(store.load_auto_chains().len(), 0);
    assert_eq!(AutoEnableManager::preheat(&mut registry, &vec![9003]), 0);
    assert!(registry.auto_chain_ids().is_empty());
}

#[test]
fn promotion_paused_when_store_not_writable() {
    let limits = limits(2, 10);
    let mut registry = registry_with(catalog(vec![chain(9004, &["http://a", "http://b"])]));
    let mut store = MemoryStore::new();
    let mut manager = AutoEnableManager::new(limits);
    run_once(&mut manager, &mut registry, &mut store, &limits, false, all_answer);
    run_once(&mut manager, &mut registry, &mut store, &limits, false, all_answer);
    assert!(registry.auto_chain_ids().is_empty());
    assert_eq!(manager.status(&registry).pending, 1);
}

#[test]
fn cap_stops_new_promotions_without_evicting() {
    let limits = limits(2, 1);
    let mut registry = registry_with(catalog(vec![
        chain(9005, &["http://a1", "http://a2"]),
        chain(9006, &["http://b1", "http://b2"]),
    ]));
    let mut store = MemoryStore::new();
    let mut manager = AutoEnableManager::new(limits);
    for _ in 0..3 {
        run_once(&mut manager, &mut registry, &mut store, &limits, true, all_answer);
    }
    let enabled = registry.auto_chain_ids();
    assert_eq!(enabled.len(), 1);
    let status = manager.status(&registry);
    assert!(status.capped);
    assert!(status.pending >= 1);
    for _ in 0..2 {
        run_once(&mut manager, &mut registry, &mut store, &limits, true, all_answer);
    }
    assert_eq!(registry.auto_chain_ids(), enabled);
}

#[test]
fn enabled_chain_survives_dead_endpoints_and_restart() {
    let limits = limits(2, 10);
    let mut registry = registry_with(catalog(vec![chain(9007, &["http://a", "http://b"])]));
    let mut store = MemoryStore::new();
    let mut manager = AutoEnableManager::new(limits);
    run_once(&mut manager, &mut registry, &mut store, &limits, true, all_answer);
    run_once(&mut manager, &mut registry, &mut store, &limits, true, all_answer);
    assert_eq!(registry.auto_chain_ids(), vec![9007]);
    registry.set_catalog(Arc::new(catalog(vec![chain(9007, &[])])));
    for _ in 0..3 {
        run_once(&mut manager, &mut registry, &mut store, &limits, true, all_answer);
    }
    assert_eq!(registry.auto_chain_ids(), vec![9007]);

    let mut restarted = registry_with(catalog(vec![chain(9007, &[])]));
    let boot = store.bootstrap().expect("bootstrap");
    let stored: Vec<u64> =
        (0..boot.auto_chains.len()).map(|i| *boot.auto_chains.key_at(i)).collect();
    assert_eq!(AutoEnableManager::preheat(&mut restarted, &stored), 1);
    assert_eq!(restarted.auto_chain_ids(), vec![9007]);
}

#[test]
fn batches_go_round_the_pool() {
    let pool: Vec<Candidate> =
        (1..=3).map(|chain_id| Candidate { chain_id, score: 0, endpoints: vec![] }).collect();
    let mut manager =
        AutoEnableManager::new(AutoEnableConfig { probe_batch: 2, ..AutoEnableConfig::default() });
    assert_eq!(manager.begin_scan(&pool, 1), [0, 1]);
    assert_eq!(manager.begin_scan(&pool, 2), [2, 0]);
    assert_eq!(manager.begin_scan(&pool, 3), [1, 2]);
    assert!(manager.begin_scan(&Vec::new(), 4).is_empty());
}

#[test]
fn progress_of_former_candidates_is_dropped() {
    let limits = AutoEnableConfig::default();
    let mut manager = AutoEnableManager::new(limits);
    manager.take_round(&judge_round(1, vec![5, 5], 0, &limits));
    manager.take_round(&judge_round(2, vec![5, 5], 0, &limits));
    let pool = vec![Candidate { chain_id: 2, score: 0, endpoints: vec![] }];
    manager.begin_scan(&pool, 1);
    assert!(manager.candidate_progress(1).is_none());
    assert_eq!(manager.candidate_progress(2).unwrap().rounds, 1);
}

#[test]
fn two_heads_have_to_agree() {
    let limits = AutoEnableConfig::default();
    let qualified = |heads: Vec<u64>| {
        let round: ProbeRound = judge_round(1, heads, 0, &limits);
        round.qualified
    };
    assert!(qualified(vec![100, 36]));
    assert!(!qualified(vec![100, 35]));
    assert!(!qualified(vec![100]));
    assert!(!qualified(vec![]));
    assert!(qualified(vec![u64::MAX, u64::MAX - 64]));
}

#[test]
fn quantities_are_read() {
    assert_eq!(read_quantity("0x1f"), Some(31));
    assert_eq!(read_quantity("1f"), Some(31));
    assert_eq!(read_quantity("0x"), None);
    assert_eq!(read_quantity("0xg"), None);
    assert_eq!(read_quantity("0x10000000000000000"), None);
}

#[test]
fn only_clean_answers_count() {
    let good = |result: &str| format!("{{\"result\":\"{result}\"}}").into_bytes();
    let reply = |status: u16, body: &[u8]| Some(Reply { status, body: body.to_vec() });
    let id = good("0x232a");
    let height = good("0x32");
    let refused = b"{\"error\":{\"code\":-32000},\"result\":\"0x232a\"}";
    assert_eq!(probe_endpoint(9002, &reply(200, &id), &reply(200, &height)), Some(50));
    assert_eq!(probe_endpoint(9002, &reply(429, &id), &reply(200, &height)), None);
    assert_eq!(probe_endpoint(9002, &reply(200, &id), &reply(503, &height)), None);
    assert_eq!(probe_endpoint(9002, &reply(200, refused), &reply(200, &height)), None);
    assert_eq!(probe_endpoint(9002, &reply(200, &id), &reply(200, refused)), None);
    assert_eq!(probe_endpoint(9002, &None, &reply(200, &height)), None);
    assert_eq!(probe_endpoint(9002, &reply(200, &id), &None), None);
    assert_eq!(probe_endpoint(9002, &reply(200, &id), &reply(200, b"<html>")), None);
    assert_eq!(judge_reply(200, &id).as_deref(), Some("0x232a"));
    assert_eq!(judge_reply(200, b"{\"result\":50}"), None);
    assert_eq!(judge_document(200, &parse_json(b"[\"0x32\"]")), None);
    assert!(serves_chain(9002, &Some("0x232a".to_owned())));
    assert!(!serves_chain(9002, &None));
    assert_eq!(probed_head(9002, &Some("0x232a".to_owned()), &Some("latest".to_owned())), None);
}

#[test]
fn candidates_of_a_chain_list_have_public_endpoints_only() {
    let text = br#"[{"name": "One", "chainId": 1, "rpc":
        ["http://a", "https://a", "http://b", "https://b", "https://u@c", "https://a"]}]"#;
    let none = HashSet::new();
    let (c, _) = parse_catalog(text, true, true, &none).unwrap();
    let found = build_candidates(&c, &limits(2, 10), &none, &none, &none, &none);
    assert_eq!(found.len(), 1);
    let urls: Vec<&str> = found[0].endpoints.iter().map(|e| e.url.as_str()).collect();
    assert_eq!(urls, ["https://a/", "https://b/"]);
    assert!(build_candidates(&c, &limits(3, 10), &none, &none, &none, &none).is_empty());
}
