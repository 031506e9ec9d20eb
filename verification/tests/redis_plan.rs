use rpcrouter::redis_plan::{
    HealthText, OverrideKey, RedisCommand, StateTexts, chain_override_key, check_schema,
    delete_chain_override, delete_endpoint_override, endpoint_override_key, flush_health,
    health_key, hot_key, import, prefix, put_auto_chain, put_chain_override,
    put_endpoint_override, read_override_key, reset, seed, set_catalog_metadata, set_hot_chains,
    valid_namespace,
};

fn shown(commands: &[RedisCommand]) -> Vec<String> {
    commands.iter().map(|command| format!("{command:?}")).collect()
}

#[test]
fn namespaces_are_checked() {
    assert!(valid_namespace("rpcrouter-test_1"));
    for bad in ["", "  ", "a:b", "a}b"] {
        assert!(!valid_namespace(bad), "{bad:?}");
    }
}

#[test]
fn keys_of_overrides_read_back() {
    let front = prefix("ns");
    let chain = chain_override_key(&front, 7);
    assert!(matches!(read_override_key(&front, &chain), OverrideKey::Chain(7)));
    let endpoint = endpoint_override_key(&front, "7:abc");
    assert!(
        matches!(read_override_key(&front, &endpoint), OverrideKey::Endpoint(ref s) if s == "7:abc")
    );
    assert!(matches!(read_override_key(&front, "elsewhere"), OverrideKey::Other));
    assert_ne!(hot_key(&front, "a"), hot_key(&front, "b"));
}

#[test]
fn an_override_is_put_and_listed() {
    let front = prefix("ns");
    let put = put_chain_override(&front, 7, &"{}".to_owned());
    assert!(
        put.iter().any(|c| matches!(c, RedisCommand::PutField { key, field, value }
            if *key == chain_override_key(&front, 7) && field == "json" && value == "{}"))
    );
    let deleted = delete_chain_override(&front, 7);
    assert!(
        deleted.iter().any(|c| matches!(c, RedisCommand::Delete { key }
            if *key == chain_override_key(&front, 7)))
    );
    assert_eq!(shown(&put_endpoint_override(&front, "1:x", &"{}".to_owned())).len(), put.len());
    assert_eq!(delete_endpoint_override(&front, "1:x").len(), deleted.len());
}

#[test]
fn health_expires() {
    let front = prefix("ns");
    let batch = vec![HealthText {
        chain_id: 1,
        url: "http://a".to_owned(),
        json: "{}".to_owned(),
    }];
    let commands = flush_health(&front, &batch, 60, 9);
    let key_name = health_key(&front, 1, "http://a");
    assert!(
        commands.iter().any(|c| matches!(c, RedisCommand::Expire { key, seconds: 60 }
            if *key == key_name))
    );
    assert!(commands.iter().any(|c| matches!(c, RedisCommand::PutField { field, value, .. } if field == "last_flush_at" && value == "9")));
}

#[test]
fn hot_chains_are_replaced() {
    let front = prefix("ns");
    let commands = set_hot_chains(&front, "here", &vec![(5, 100)]);
    assert!(matches!(&commands[0], RedisCommand::Delete { key } if *key == hot_key(&front, "here")));
    assert!(
        commands.iter().any(|c| matches!(c, RedisCommand::AddScored { score: 100, member: 5, .. }))
    );
    assert!(matches!(commands.last(), Some(RedisCommand::Expire { seconds: 60, .. })));
    assert!(matches!(
        put_auto_chain(&front, 5, &"{}".to_owned()),
        RedisCommand::PutField { ref field, .. } if field == "5"
    ));
}

#[test]
fn an_import_keeps_what_it_does_not_replace() {
    let front = prefix("ns");
    let state = StateTexts {
        catalog: None,
        catalog_etag: None,
        catalog_fetched_at: 0,
        chain_overrides: vec![(1, "{}".to_owned())],
        endpoint_overrides: Vec::new(),
        health: Vec::new(),
        hot_chains: Vec::new(),
        auto_chains: Vec::new(),
    };
    let catalog = format!("{front}:catalog");
    let stale = chain_override_key(&front, 9);
    let commands = import(&front, "here", &vec![catalog.clone(), stale.clone()], state, 60, 3);
    let deleted: Vec<&String> = commands
        .iter()
        .filter_map(|c| match c {
            RedisCommand::Delete { key } => Some(key),
            _ => None,
        })
        .collect();
    assert!(deleted.contains(&&stale));
    assert!(!deleted.contains(&&catalog));
    assert!(commands.iter().any(|c| matches!(c, RedisCommand::PutField { key, .. }
        if *key == chain_override_key(&front, 1))));
    assert_eq!(
        shown(&reset(&front, &vec![catalog, stale], 3))[2..],
        shown(&seed(&front, 3))[..],
    );
    assert!(!seed(&front, 3).is_empty());
}

#[test]
fn a_catalog_is_written_with_its_metadata() {
    let front = prefix("ns");
    let commands = set_catalog_metadata(&front, vec![0x1f, 0x8b], Some(&"etag-1".to_owned()), 123);
    assert!(matches!(&commands[0], RedisCommand::SetBytes { value, .. } if *value == [0x1f, 0x8b]));
    assert!(shown(&commands).iter().any(|c| c.contains("etag-1")));
    assert!(shown(&commands).iter().any(|c| c.contains("123")));
}

#[test]
fn versions_are_checked() {
    assert!(check_schema(None).unwrap());
    assert!(!check_schema(Some("2")).unwrap());
    assert_eq!(check_schema(Some("1")).unwrap_err().version, 1);
}

#[test]
fn keys_of_other_namespaces_are_left_alone() {
    let front = prefix("ns");
    let own = chain_override_key(&front, 9);
    let other = chain_override_key(&prefix("ns2"), 9);
    let keys = vec![other, own.clone(), "loose".to_owned()];
    let state = StateTexts {
        catalog: None,
        catalog_etag: None,
        catalog_fetched_at: 0,
        chain_overrides: Vec::new(),
        endpoint_overrides: Vec::new(),
        health: Vec::new(),
        hot_chains: Vec::new(),
        auto_chains: Vec::new(),
    };
    for commands in [reset(&front, &keys, 3), import(&front, "here", &keys, state, 60, 3)] {
        let deleted: Vec<&String> = commands
            .iter()
            .filter_map(|c| match c {
                RedisCommand::Delete { key } => Some(key),
                _ => None,
            })
            .collect();
        assert_eq!(deleted, [&own]);
    }
}
