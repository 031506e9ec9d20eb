use std::sync::Arc;

use rpcrouter::json::{Json, Number, parse_json, parse_toml};
use rpcrouter::state::{
    AUDIT_LIMIT, AutoChainState, ChainOverrideState, EndpointOverrideState, HealthSnapshot,
    PackedFault, SCHEMA_VERSION, StateDocument, StoredDocument, UnsupportedSchema, gunzip_json,
    gzip,
};
use rpcrouter::store::{
    MemoryStore, ReconnectStep, Resilience, StoreCall, StoreStep, instance_name, reconnect_step,
};

fn pinned() -> ChainOverrideState {
    ChainOverrideState { pinned: Some(true), ..ChainOverrideState::default() }
}

fn health(chain_id: u64, url: &str, latency_ewma_us: u64) -> HealthSnapshot {
    HealthSnapshot {
        chain_id,
        url: url.to_owned(),
        state: "probation".to_owned(),
        cooling_until_unix: None,
        strikes: 0,
        latency_ewma_us,
        lag: 0,
    }
}

fn stored_list() -> Arc<Json> {
    let text = br#"[{"chainId": 1, "name": "Stored", "rpc": ["https://stored.example"]}]"#;
    Arc::new(parse_json(text).unwrap())
}

/// The name of the first chain of a list.
fn first_name(catalog: &Option<Arc<Json>>) -> Option<String> {
    match catalog.as_deref() {
        Some(Json::Array(records)) => {
            records[0].get("name").and_then(Json::as_text).cloned()
        }
        _ => None,
    }
}

#[test]
fn memory_round_trip_reset_and_call_counter() {
    let mut store = MemoryStore::new();
    let first = store.bootstrap().unwrap().overrides;
    assert_eq!((first.chains.len(), first.endpoints.len()), (0, 0));
    store.put_chain_override(1, pinned());
    let export = store.export();
    store.reset(7);
    assert_eq!(store.export().overrides.chains.len(), 0);
    store.import(&export).unwrap();
    assert_eq!(store.load_overrides().chains.get(&1).and_then(|x| x.pinned), Some(true));
    assert!(store.call_count() >= 5);
}

#[test]
fn memory_and_file_catalog_round_trip_for_fallback() {
    let mut memory = MemoryStore::new();
    memory.set_catalog_metadata(stored_list(), Some("memory-etag".to_owned()), 7);
    let boot = memory.bootstrap().unwrap();
    assert_eq!(first_name(&boot.catalog).as_deref(), Some("Stored"));
    assert_eq!(boot.catalog_etag.as_deref(), Some("memory-etag"));

    let (mut file, quarantine) = StateDocument::open(StoredDocument::Missing, 8);
    assert!(!quarantine);
    file.set_catalog_metadata(stored_list(), Some("file-etag".to_owned()), 8);
    let (again, quarantine) = StateDocument::open(StoredDocument::Found(file), 9);
    assert!(!quarantine);
    let boot = again.bootstrap().unwrap();
    assert_eq!(first_name(&boot.catalog).as_deref(), Some("Stored"));
    assert_eq!(boot.catalog_etag.as_deref(), Some("file-etag"));
    assert_eq!(boot.catalog_fetched_at, 8);
}

#[test]
fn degraded_resilient_store_rejects_control_writes() {
    let store = Resilience { connected: false };
    assert!(!store.writable());
    assert_eq!(store.start(StoreCall::Control), StoreStep::Refuse);
    assert_eq!(store.start(StoreCall::Read), StoreStep::AskLocal);
    assert_eq!(store.start(StoreCall::Note), StoreStep::AskLocal);
}

#[test]
fn stored_documents_are_opened_again() {
    let mut document = StateDocument::empty(1);
    document.put_endpoint_override(
        "1:x",
        EndpointOverrideState {
            url: "http://x".to_owned(),
            disabled: Some(true),
            rps: None,
            concurrency: None,
        },
    );
    let (again, _) = StateDocument::open(StoredDocument::Found(document), 2);
    let overrides = again.load_overrides();
    assert_eq!(overrides.endpoints.get(&"1:x".to_owned()).unwrap().disabled, Some(true));
}

#[test]
fn corrupt_or_old_state_file_is_quarantined() {
    let (document, quarantine) = StateDocument::open(StoredDocument::Corrupt, 3);
    assert!(quarantine);
    assert_eq!(document.bootstrap().unwrap().schema_version, SCHEMA_VERSION);
    let mut old = StateDocument::empty(1);
    old.schema_version = 1;
    old.put_chain_override(1, pinned());
    let (document, quarantine) = StateDocument::open(StoredDocument::Found(old), 3);
    assert!(quarantine);
    assert_eq!(document.load_overrides().chains.len(), 0);
}

#[test]
fn catalogs_are_packed_and_unpacked() {
    let text = br#"[{"chainId":1,"name":"One","rpc":["https://one.example"]}]"#;
    let packed = gzip(text).unwrap();
    assert_eq!(&packed[..2], &[0x1f, 0x8b]);
    let Ok(Json::Array(records)) = gunzip_json(&packed) else {
        panic!("the catalog reads back");
    };
    assert_eq!(records[0].get("name").and_then(Json::as_text).map(String::as_str), Some("One"));
    assert!(matches!(gunzip_json(b"plain"), Err(PackedFault::NotPacked)));
    let nonsense = gzip(b"not json").unwrap();
    assert!(matches!(gunzip_json(&nonsense), Err(PackedFault::NotADocument)));
}

#[test]
fn an_import_undoes_a_reset() {
    let mut document = StateDocument::empty(1);
    document.put_chain_override(5, pinned());
    document.flush_health(&vec![health(5, "http://a", 4)], 2);
    document.set_hot_chains(vec![(5, 9)]);
    document.put_auto_chain(6, AutoChainState { head: 11, ..AutoChainState::default() });
    let export = document.export();
    document.reset(10);
    assert!(document.load_health().is_empty());
    document.import(&export).unwrap();
    assert_eq!(document.load_overrides().chains.get(&5).unwrap().pinned, Some(true));
    assert_eq!(document.load_health().len(), 1);
    assert_eq!(document.hot_chains, [(5, 9)]);
    assert_eq!(document.load_auto_chains().get(&6).unwrap().head, 11);
}

#[test]
fn health_is_stored_per_endpoint() {
    let mut document = StateDocument::empty(1);
    document.flush_health(&vec![health(1, "http://a", 1), health(2, "http://a", 2)], 2);
    document.flush_health(&vec![health(1, "http://a", 3), health(1, "http://b", 4)], 5);
    let mut latencies: Vec<u64> =
        document.load_health().iter().map(|h| h.latency_ewma_us).collect();
    latencies.sort_unstable();
    assert_eq!(latencies, [2, 3, 4]);
    assert_eq!(document.last_flush_at, 5);
}

#[test]
fn states_of_other_versions_are_refused() {
    let mut store = MemoryStore::new();
    let mut export = store.export();
    export.schema_version = 1;
    let refused: UnsupportedSchema = store.import(&export).unwrap_err();
    assert_eq!(refused.message(), "unsupported state schema version 1");
    assert_eq!(store.export().schema_version, SCHEMA_VERSION);
}

#[test]
fn the_record_of_operations_is_cut() {
    let mut document = StateDocument::empty(1);
    for n in 0..=AUDIT_LIMIT as u64 {
        document.append_audit("chain.pin", "1", n);
    }
    document.trim_audit();
    assert_eq!(document.audit.len(), AUDIT_LIMIT);
    assert_eq!(document.audit[0].at, 1);
    assert_eq!(document.audit.last().unwrap().at, AUDIT_LIMIT as u64);
}

#[test]
fn overrides_are_deleted() {
    let mut store = MemoryStore::new();
    store.put_chain_override(1, pinned());
    store.put_chain_override(2, pinned());
    store.delete_chain_override(1);
    let left = store.load_overrides();
    assert!(left.chains.get(&1).is_none());
    assert!(left.chains.get(&2).is_some());
    assert!(store.health());
    assert_eq!(store.backend_name(), "memory");
}

#[test]
fn a_connected_store_is_asked_first() {
    let mut store = Resilience { connected: true };
    assert!(store.writable());
    assert_eq!(store.start(StoreCall::Control), StoreStep::AskRemote);
    assert_eq!(store.after_remote(StoreCall::Control, true), StoreStep::AskLocal);
    assert_eq!(store.start(StoreCall::Read), StoreStep::AskRemote);
    assert_eq!(store.after_remote(StoreCall::Read, false), StoreStep::AskLocal);
    assert_eq!(store.after_local(StoreCall::Read, true), StoreStep::Succeed);
    store.connect();
    assert_eq!(store.after_remote(StoreCall::Control, false), StoreStep::Fail);
    assert!(!store.connected);
}

#[test]
fn a_store_that_comes_back_is_filled_or_read() {
    assert_eq!(reconnect_step(true, true, true), ReconnectStep::Nothing);
    assert_eq!(reconnect_step(false, false, true), ReconnectStep::Seed);
    assert_eq!(reconnect_step(false, true, true), ReconnectStep::LoadAndFlush);
    assert_eq!(reconnect_step(false, true, false), ReconnectStep::Load);
}

#[test]
fn instances_are_named() {
    assert_eq!(instance_name(Some("given"), Some("host"), Some("0.0.0.0:1")), "given");
    assert_eq!(instance_name(None, Some("host"), Some("0.0.0.0:8545")), "host-0-0-0-0-8545");
}

#[test]
fn documents_are_read_into_trees() {
    let tree = parse_json(b"{\"a\": [1, -2, 2.5, true, null, \"x\"]}").unwrap();
    let Some(Json::Array(items)) = tree.get("a") else {
        panic!("the list is found");
    };
    assert!(matches!(items[0], Json::Number(Number::PosInt(1))));
    assert!(matches!(items[1], Json::Number(Number::NegInt(-2))));
    assert!(matches!(items[2], Json::Number(Number::Float(bits)) if f64::from_bits(bits) == 2.5));
    assert_eq!(items[3].as_truth(), Some(true));
    assert!(matches!(items[4], Json::Null));
    assert_eq!(items[5].as_text().map(String::as_str), Some("x"));
    assert!(parse_json(b"{").is_none());
    assert!(parse_toml("a = ").is_none());
    assert_eq!(parse_toml("a = 7").unwrap().get("a").and_then(Json::as_whole), Some(7));
}
