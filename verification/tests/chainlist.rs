use std::collections::{HashMap, HashSet};

use rpcrouter::chainlist::{
    Catalog, CatalogChain, CatalogEndpoint, CatalogFault, RefreshSource, catalog_document,
    parse_and_filter, parse_catalog, parse_catalog_with_stats,
};
use rpcrouter::config::Config;
use rpcrouter::json::{Json, Number};
use rpcrouter::loader::{ChainlistLoader, FetchError, NetworkOutcome};

const FIXTURE: &[u8] = br#"[
  {"name": "Ethereum Mainnet", "chain": "ETH", "shortName": "eth", "chainId": 1,
   "chainSlug": "ethereum", "nativeCurrency": {"name": "Ether", "symbol": "ETH", "decimals": 18},
   "explorers": [{"name": "etherscan", "url": "https://etherscan.io"}],
   "rpc": [
     {"url": "https://eth.example.com", "tracking": "none"},
     "https://mainnet.infura.example/${INFURA_API_KEY}",
     "https://eth.example.com",
     {"url": "wss://eth.example.com/ws"},
     {"url": "https://rpc.second.example/eth", "tracking": "yes", "isOpenSource": false}
   ]},
  {"name": "Monad", "chain": "MON", "chainId": 143, "shortName": "mon",
   "rpc": [{"url": "https://rpc.monad.example", "tracking": "limited"},
           "https://monad.example/${API_KEY}", "wss://rpc.monad.example"]},
  {"name": "BNB Smart Chain Mainnet", "chain": "BSC", "chainId": 56,
   "rpc": ["https://bsc.example.com", {"url": "https://bsc2.example.com"}]},
  {"name": "Polygon Mainnet", "chain": "Polygon", "chainId": 137,
   "rpc": [{"url": "https://polygon.example.com", "tracking": "yes"}]},
  {"name": "Arbitrum One", "chain": "ETH", "chainId": 42161,
   "rpc": ["https://arbitrum.example/${KEY}", "https://arb.example.com"]},
  {"name": "Base", "chain": "ETH", "chainId": 8453, "status": "active",
   "rpc": ["https://base.example.com"]},
  {"name": "OP Mainnet", "chain": "ETH", "chainId": 10, "rpc": ["https://op.example.com"]},
  {"name": "Avalanche C-Chain", "chain": "AVAX", "chainId": 43114,
   "rpc": ["https://avax.example.com/ext/bc/C/rpc"]},
  {"name": "Ink", "chain": "ETH", "chainId": 57073, "status": "active",
   "rpc": ["https://ink.example.com"]},
  {"name": "Hoodi testnet", "chain": "ETH", "chainId": 560048, "isTestnet": true,
   "rpc": ["https://hoodi.example.com"]},
  {"name": "Sepolia", "chain": "ETH", "chainId": 11155111, "isTestnet": true,
   "rpc": ["https://sepolia.example.com"]},
  {"name": "Factory 127 Mainnet", "chain": "FETH", "chainId": 127, "rpc": []},
  {"name": "Gnosis", "chain": "GNO", "chainId": 100, "rpc": ["https://gnosis.example.com"]},
  {"name": "Fantom Opera", "chain": "FTM", "chainId": 250, "rpc": ["https://fantom.example.com"]},
  {"name": "Celo Mainnet", "chain": "CELO", "chainId": 42220, "rpc": ["https://celo.example.com"]},
  {"name": "Tolerant metadata", "chainId": 990001, "chain": 7, "shortName": ["x"],
   "chainSlug": "tolerant-metadata", "status": false, "isTestnet": "no", "tvl": 42.0,
   "nativeCurrency": {"symbol": "TOL"},
   "explorers": ["https://explorer.tolerant.example", 7],
   "rpc": ["https://tolerant.example", "not a url", "https://user@private.example"]},
  {"name": "Object explorer", "chainId": 990002, "nativeCurrency": "OBJ",
   "explorers": [{"url": "https://explorer.object.example"}], "rpc": ["https://object.example"]},
  {"name": "Odd explorers", "chainId": 990003, "explorers": 5, "rpc": []},
  {"name": "Bad record", "chainId": "990004", "rpc": []}
]"#;

fn allowed() -> HashSet<u64> {
    HashSet::from([1, 143])
}

fn everything() -> Catalog {
    parse_catalog(FIXTURE, true, true, &HashSet::new()).expect("parse catalog").0
}

#[test]
fn fixture_is_filtered_and_deduplicated() {
    let snapshot = parse_and_filter(FIXTURE, &allowed()).expect("parse fixture");
    assert_eq!(snapshot.chains.len(), 2);

    let ethereum = snapshot
        .chains
        .iter()
        .find(|chain| chain.chain_id == 1)
        .expect("Ethereum fixture");
    assert!(!ethereum.endpoints.is_empty());
    assert!(
        ethereum
            .endpoints
            .iter()
            .all(|url| url.starts_with("https://") && !url.contains("${"))
    );

    let monad = snapshot
        .chains
        .iter()
        .find(|chain| chain.chain_id == 143)
        .expect("Monad fixture");
    assert!(!monad.endpoints.is_empty());
    assert!(
        monad
            .endpoints
            .iter()
            .all(|url| url.starts_with("https://") && !url.contains("${"))
    );
}

#[test]
fn fixture_covers_every_repository_chain() {
    let config = Config::from_toml("chains = [1, 143, 56, 137, 42161, 8453, 10, 43114]")
        .expect("repository config");
    let allowed: HashSet<u64> = config.chains.iter().copied().collect();
    let snapshot = parse_and_filter(FIXTURE, &allowed).expect("parse fixture");
    let fixture_chains: HashSet<u64> =
        snapshot.chains.iter().map(|chain| chain.chain_id).collect();

    assert_eq!(fixture_chains, allowed);
    assert!(snapshot.chains.iter().all(|chain| {
        !chain.endpoints.is_empty()
            && chain
                .endpoints
                .iter()
                .all(|endpoint| endpoint.starts_with("https://"))
    }));
}

#[test]
fn catalog_parses_all_chains_with_metadata() {
    let (catalog, snapshot) =
        parse_catalog(FIXTURE, true, true, &HashSet::new()).expect("parse catalog");
    assert!(catalog.chains.len() >= 2);
    assert!(catalog.chains.iter().any(|c| c.chain.as_deref() == Some("ETH")));
    let eth = catalog.lookup(1).expect("ETH in catalog");
    assert!(!eth.endpoints.is_empty());
    assert_eq!(snapshot.chains.len(), catalog.chains.len());
}

#[test]
fn catalog_parse_when_discovery_disabled_filters_to_pinned() {
    let pinned: HashSet<u64> = HashSet::from([1]);
    let (catalog, _) = parse_catalog(FIXTURE, false, true, &pinned).expect("parse catalog");
    assert_eq!(catalog.chains.len(), 1);
    assert_eq!(catalog.chains[0].chain_id, 1);
}

#[test]
fn catalog_excludes_testnets_when_include_testnets_false() {
    let (catalog, _) =
        parse_catalog(FIXTURE, true, false, &HashSet::new()).expect("parse catalog");
    assert!(!catalog.chains.iter().any(|c| c.is_testnet));
    assert!(catalog.lookup(1).is_some());
}

#[test]
fn catalog_keeps_pinned_testnet_when_include_testnets_false() {
    let pinned: HashSet<u64> = HashSet::from([560048]);
    let (catalog, _) = parse_catalog(FIXTURE, true, false, &pinned).expect("parse catalog");
    assert!(catalog.lookup(560048).is_some());
    assert!(!catalog.lookup(11155111).is_some());
}

#[test]
fn catalog_unknown_chain_returns_none() {
    assert!(everything().lookup(999999).is_none());
}

#[test]
fn fixture_has_testnet_chains() {
    let catalog = everything();
    let testnets: Vec<_> = catalog.chains.iter().filter(|c| c.is_testnet).collect();
    assert!(testnets.len() >= 2, "fixture must contain at least 2 testnet chains");
    let testnet_ids: HashSet<u64> = testnets.iter().map(|c| c.chain_id).collect();
    assert!(testnet_ids.contains(&560048));
    assert!(testnet_ids.contains(&11155111));
}

#[test]
fn fixture_has_zero_endpoint_chain() {
    let catalog = everything();
    let zero_ep: Vec<_> = catalog.chains.iter().filter(|c| c.endpoints.is_empty()).collect();
    assert!(!zero_ep.is_empty(), "fixture must contain at least one chain with 0 endpoints");
    assert!(zero_ep.iter().any(|c| c.chain_id == 127));
}

#[test]
fn fixture_has_status_fields() {
    let catalog = everything();
    let with_status: Vec<_> = catalog.chains.iter().filter(|c| c.status.is_some()).collect();
    assert!(
        !with_status.is_empty(),
        "fixture must contain at least one chain with a status field"
    );
    assert!(with_status.iter().any(|c| c.chain_id == 8453));
}

#[test]
fn fixture_has_tracking_endpoints() {
    let catalog = everything();
    let has_tracking =
        catalog.chains.iter().any(|c| c.endpoints.iter().any(|e| e.tracking.is_some()));
    assert!(has_tracking, "fixture must have endpoints with tracking field");
}

#[test]
fn fixture_filters_template_and_wss_endpoints() {
    let catalog = everything();
    for chain in &catalog.chains {
        for ep in &chain.endpoints {
            assert!(ep.url.starts_with("https://"), "endpoint URL must be https: {}", ep.url);
            assert!(
                !ep.url.contains("${"),
                "endpoint URL must not contain template: {}",
                ep.url
            );
        }
    }
    let arb = catalog.lookup(42161).expect("Arbitrum in fixture");
    assert!(
        arb.endpoints.iter().all(|e| !e.url.contains("${")),
        "Arbitrum endpoints must not contain template variables"
    );
    assert_eq!(arb.endpoints.len(), 1);
}

#[test]
fn fixture_catalog_dedup_assertion() {
    let catalog = everything();
    for chain in &catalog.chains {
        let mut seen = HashSet::new();
        for ep in &chain.endpoints {
            assert!(
                seen.insert(&ep.url),
                "duplicate endpoint URL in chain {}: {}",
                chain.chain_id,
                ep.url
            );
        }
    }
}

#[test]
fn endpoint_normalization_deduplicates_fragments_and_tracking_forms() {
    let bytes = br#"{
        "chains": [{
            "name": "Dedup",
            "chainId": 9001,
            "rpc": [
                "https://a/#x",
                {"url": "https://a/", "tracking": "provider"},
                "https://a/"
            ]
        }]
    }"#;
    let (catalog, _) = parse_catalog(bytes, true, true, &HashSet::new()).expect("catalog");
    let chain = catalog.lookup(9001).expect("chain");
    assert_eq!(chain.endpoints.len(), 1);
    assert_eq!(chain.endpoints[0].url, "https://a/");
}

#[test]
fn fixture_tolerates_malformed_metadata_and_skips_bad_record() {
    let (catalog, _, stats) = parse_catalog_with_stats(FIXTURE, true, true, &HashSet::new())
        .expect("parse tolerant fixture");
    let tolerant = catalog.lookup(990001).expect("tolerant chain");
    assert_eq!(tolerant.slug.as_deref(), Some("tolerant-metadata"));
    assert_eq!(
        tolerant.explorer_url.as_deref(),
        Some("https://explorer.tolerant.example")
    );
    assert_eq!(tolerant.native_symbol.as_deref(), Some("TOL"));
    assert_eq!(tolerant.tvl, Some(Number::Float(42.0f64.to_bits())));
    let object_explorer = catalog.lookup(990002).expect("object explorer chain");
    assert_eq!(
        object_explorer.explorer_url.as_deref(),
        Some("https://explorer.object.example")
    );
    assert!(catalog.lookup(990003).is_some());
    assert!(catalog.lookup(990004).is_none());
    assert_eq!(stats.records_skipped, 1);
    assert_eq!(stats.records_total, 19);
}

#[test]
fn wrapped_document_uses_the_same_tolerant_record_parser() {
    let bytes = br#"{
        "chains": [
            {"name":"Good", "chainId": 1, "rpc": []},
            {"name":"Bad", "chainId": "bad", "rpc": []}
        ]
    }"#;
    let (catalog, _, stats) =
        parse_catalog_with_stats(bytes, true, true, &HashSet::new()).expect("parse wrapped");
    assert_eq!(catalog.chains.len(), 1);
    assert_eq!(stats.records_total, 2);
    assert_eq!(stats.records_skipped, 1);
}

fn stored_catalog() -> Catalog {
    Catalog {
        chains: vec![CatalogChain {
            chain_id: 999,
            name: "Stored".to_owned(),
            short_name: Some("stored".to_owned()),
            chain: None,
            slug: None,
            is_testnet: false,
            native_symbol: None,
            explorer_url: None,
            status: Some("active".to_owned()),
            tvl: None,
            endpoints: vec![CatalogEndpoint {
                url: "https://stored.example".to_owned(),
                tracking: None,
            }],
        }],
        by_id: HashMap::from([(999, 0)]),
    }
}

#[test]
fn state_store_catalog_is_used_before_disk_and_fixture() {
    let mut loader =
        ChainlistLoader::with_client("http://127.0.0.1:1/unreachable", true, true, &Vec::new())
            .unwrap();
    let document = catalog_document(&stored_catalog());
    let result = loader
        .load_with_store_catalog(
            NetworkOutcome::RequestFailed,
            Some(&document),
            Some(FIXTURE),
            FIXTURE,
            7,
        )
        .unwrap();
    assert_eq!(result.source, RefreshSource::StateStore);
    assert_eq!(result.catalog.lookup(999).unwrap().name, "Stored");
}

#[test]
fn sends_etag_and_uses_memory_for_network_failure() {
    let mut loader =
        ChainlistLoader::with_client_legacy("http://127.0.0.1/rpcs.json", &vec![1, 143])
            .expect("loader");
    let answer = NetworkOutcome::Body {
        etag: Some("\"fixture-v1\"".to_owned()),
        bytes: FIXTURE.to_vec(),
    };
    let network = loader.load(answer, None, FIXTURE, 1).expect("network load");
    assert_eq!(network.source, RefreshSource::Network);
    assert_eq!(network.records_skipped, 1);
    assert_eq!(loader.etag.as_deref(), Some("\"fixture-v1\""));
    assert_eq!(
        loader.load(NetworkOutcome::NotModified, None, FIXTURE, 2).expect("not modified").source,
        RefreshSource::NotModified
    );
    let failed = NetworkOutcome::HttpStatus("500 Internal Server Error".to_owned());
    assert_eq!(
        loader.load(failed, None, FIXTURE, 3).expect("memory fallback").source,
        RefreshSource::Memory
    );
    let state = loader.refresh_state();
    assert_eq!(
        state.last_error.as_deref(),
        Some("chainlist returned HTTP 500 Internal Server Error")
    );
    assert_eq!(state.catalog_chains, 2);
    assert_eq!(state.catalog_endpoints, 3);
}

#[test]
fn falls_back_to_disk_then_builtin_fixture() {
    let url = "http://127.0.0.1/rpcs.json";
    let mut disk_loader = ChainlistLoader::with_client_legacy(url, &vec![1, 143]).expect("loader");
    let failed = NetworkOutcome::HttpStatus("500".to_owned());
    assert_eq!(
        disk_loader.load(failed, Some(FIXTURE), FIXTURE, 1).expect("disk fallback").source,
        RefreshSource::Disk
    );
    let mut fixture_loader =
        ChainlistLoader::with_client_legacy(url, &vec![1, 143]).expect("fixture loader");
    assert_eq!(
        fixture_loader
            .load(NetworkOutcome::RequestFailed, None, FIXTURE, 1)
            .expect("fixture fallback")
            .source,
        RefreshSource::Fixture
    );
    assert_eq!(
        fixture_loader.refresh_state().last_error.as_deref(),
        Some("chainlist request failed")
    );
}

#[test]
fn a_shrunken_list_is_refused() {
    let mut loader =
        ChainlistLoader::with_client("https://list.example", true, true, &Vec::new()).unwrap();
    let full = NetworkOutcome::Body { etag: None, bytes: FIXTURE.to_vec() };
    assert!(loader.fetch_network(full, 1).is_ok());
    let thin = br#"[{"name":"Only","chainId":1,"rpc":["https://only.example"]}]"#;
    let answer = NetworkOutcome::Body { etag: None, bytes: thin.to_vec() };
    let kept = loader.load(answer, None, FIXTURE, 2).unwrap();
    assert!(kept.rejected_network_snapshot);
    assert_eq!(kept.source, RefreshSource::Memory);
    assert_eq!(kept.catalog.chains.len(), 18);
    let answer = NetworkOutcome::Body { etag: None, bytes: thin.to_vec() };
    assert!(matches!(loader.fetch_network(answer, 3), Err(FetchError::SanityCheck)));
}

#[test]
fn every_network_failure_is_named() {
    let mut loader =
        ChainlistLoader::with_client("https://list.example", true, true, &Vec::new()).unwrap();
    let invalid = NetworkOutcome::Body { etag: None, bytes: b"not json".to_vec() };
    let expected = [
        (NetworkOutcome::RequestFailed, "chainlist request failed"),
        (
            NetworkOutcome::NotModified,
            "chainlist returned 304 without an in-memory catalog",
        ),
        (NetworkOutcome::HttpStatus("404 Not Found".to_owned()), "chainlist returned HTTP 404 Not Found"),
        (NetworkOutcome::BodyFailed, "failed to read chainlist response"),
        (invalid, "chainlist response is invalid"),
    ];
    for (outcome, message) in expected {
        assert_eq!(loader.fetch_network(outcome, 1).unwrap_err().message(), message);
        let state = loader.refresh_state();
        assert_eq!(state.last_refresh_unix, 0);
        assert_eq!(state.source, RefreshSource::Fixture);
        assert_eq!(state.etag, None);
    }
}

#[test]
fn a_refresh_shuts_others_out_until_it_ends() {
    let mut loader =
        ChainlistLoader::with_client("https://list.example", true, true, &Vec::new()).unwrap();
    assert!(loader.begin_refresh());
    assert!(loader.refresh_state().refreshing);
    assert!(!loader.begin_refresh());
    loader.end_refresh();
    assert!(!loader.refresh_state().refreshing);
    assert!(loader.begin_refresh());
}

#[test]
fn the_list_needs_a_url() {
    let refused = ChainlistLoader::with_client("not a url", true, true, &Vec::new());
    assert!(matches!(refused, Err(ref e) if e.message() == "invalid chainlist URL not a url"));
    assert!(ChainlistLoader::new(&Config::default()).is_ok());
}

#[test]
fn documents_that_are_no_lists_are_refused() {
    let none = HashSet::new();
    let fault = |text: &str| parse_catalog(text.as_bytes(), true, true, &none).err();
    assert_eq!(fault("{"), Some(CatalogFault::InvalidJson));
    assert_eq!(fault("{}"), Some(CatalogFault::NoChainsArray));
    assert_eq!(fault("{\"chains\": 1}"), Some(CatalogFault::NoChainsArray));
    assert_eq!(fault("7"), Some(CatalogFault::NoList));
    assert_eq!(fault("[]"), None);
}

#[test]
fn a_written_catalog_reads_back() {
    let document = catalog_document(&stored_catalog());
    let (read, snapshot, stats) =
        rpcrouter::chainlist::read_catalog(&document, true, true, &HashSet::new()).unwrap();
    assert_eq!(stats.records_accepted, 1);
    assert_eq!(snapshot.chains[0].endpoints, ["https://stored.example/"]);
    let chain = read.lookup(999).unwrap();
    assert_eq!(chain.short_name.as_deref(), Some("stored"));
    assert_eq!(chain.status.as_deref(), Some("active"));
    assert_eq!(read.chain_ids(), [999]);
    let Json::Array(records) = document else {
        panic!("a catalog is a list");
    };
    assert_eq!(records[0].get("chainId").and_then(Json::as_whole), Some(999));
}

#[test]
fn records_that_lack_something_are_skipped() {
    let bytes = br#"[
        {"chainId": 1, "rpc": []},
        {"name": "No endpoints", "chainId": 2},
        {"name": "Odd endpoint", "chainId": 3, "rpc": [17]},
        {"name": "Negative", "chainId": -4, "rpc": []},
        {"name": "Object explorers", "chainId": 5, "explorers": {"url": "https://x"}, "rpc": []},
        "no record"
    ]"#;
    let (catalog, _, stats) =
        parse_catalog_with_stats(bytes, true, true, &HashSet::new()).unwrap();
    assert_eq!((stats.records_total, stats.records_accepted, stats.records_skipped), (6, 1, 5));
    assert_eq!(catalog.lookup(5).unwrap().explorer_url, None);
}

#[test]
fn a_catalog_that_was_read_is_written_and_read_again_unchanged() {
    let first = everything();
    let document = catalog_document(&first);
    let (second, _, stats) =
        rpcrouter::chainlist::read_catalog(&document, true, true, &HashSet::new()).unwrap();
    assert_eq!(stats.records_skipped, 0);
    assert_eq!(format!("{:?}", second.chains), format!("{:?}", first.chains));
    assert_eq!(second.by_id, first.by_id);
}
