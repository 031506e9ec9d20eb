use rpcrouter::config::{Config, ConfigFault};
use rpcrouter::config_env::{ConfigError, ListenOverride};

fn env(vars: &[(&str, &str)]) -> Vec<(String, String)> {
    vars.iter().map(|(k, v)| (k.to_string(), v.to_string())).collect()
}

fn refused(text: &str) -> String {
    Config::from_toml(text).expect_err("must be refused").message()
}

#[test]
fn missing_file_uses_safe_defaults() {
    let config = Config::load(None).expect("load defaults");
    assert_eq!(config.chains, [1, 143]);
    assert_eq!(config.upstream.default_rps, 15);
    assert_eq!(config.upstream.default_concurrency, 8);
    assert_eq!(config.upstream.max_attempts, 4);
}

#[test]
fn rejects_unsafe_phase_one_limits() {
    let error = Config::from_toml(
        r#"
            chains = [1]
            [server]
            batch_limit = 101
        "#,
    )
    .expect_err("batch limit should fail");
    assert!(error.message().contains("batch_limit"));
}

#[test]
fn endpoint_limit_override_wins() {
    let config = Config::from_toml(
        r#"
            chains = [1]
            [[chain_overrides]]
            chain_id = 1
            [[chain_overrides.endpoint_overrides]]
            url = "https://rpc.example"
            rps = 7
            concurrency = 3
        "#,
    )
    .expect("parse config");
    assert_eq!(config.endpoint_limits(1, "https://rpc.example"), (7, 3));
    assert_eq!(config.endpoint_limits(1, "https://other.example"), (15, 8));
}

const REPOSITORY_CONFIG: &str = r#"
chains = [1, 143, 56, 137, 42161, 8453, 10, 43114]

[[chain_overrides]]
chain_id = 56
block_time_ms = 750

[[chain_overrides]]
chain_id = 137
block_time_ms = 2000
confirmation_depth = 128

[[chain_overrides]]
chain_id = 42161
block_time_ms = 250

[[chain_overrides]]
chain_id = 43114
block_time_ms = 2000
confirmation_depth = 32
"#;

#[test]
fn repository_config_is_valid() {
    let config = Config::from_toml(REPOSITORY_CONFIG).expect("repository config");
    assert_eq!(config.chains, [1, 143, 56, 137, 42161, 8453, 10, 43114]);
    for (chain_id, block_time_ms, confirmation_depth, tip_ttl_ms) in [
        (1, 12_000, 64, 2_000),
        (143, 400, 64, 400),
        (56, 750, 64, 750),
        (137, 2_000, 128, 2_000),
        (42161, 250, 64, 250),
        (8453, 2_000, 64, 2_000),
        (10, 2_000, 64, 2_000),
        (43114, 2_000, 32, 2_000),
    ] {
        assert_eq!(config.block_time_ms(chain_id), block_time_ms);
        assert_eq!(config.confirmation_depth(chain_id), confirmation_depth);
        assert_eq!(config.tip_ttl_ms(chain_id), tip_ttl_ms);
    }
}

#[test]
fn partial_config_can_select_one_chain() {
    let config = Config::from_toml("chains = [1]").expect("single-chain config");
    assert_eq!(config.chains, [1]);
    assert!(config.chain_overrides.is_empty());
}

#[test]
fn discovery_enabled_allows_empty_chains() {
    let config = Config::from_toml("chains = []\n[discovery]\nenabled = true")
        .expect("discovery-only config");
    assert!(config.chains.is_empty());
    assert!(config.discovery.enabled);
}

#[test]
fn deny_must_not_overlap_pinned_chains() {
    let error = Config::from_toml(
        r#"
            chains = [1]
            [discovery]
            enabled = true
            deny = [1]
        "#,
    )
    .expect_err("pinned deny overlap must fail");
    assert!(error.message().contains("pinned chains"));
}

#[test]
fn discovery_disabled_requires_non_empty_chains() {
    let error = Config::from_toml("chains = []\n[discovery]\nenabled = false")
        .expect_err("empty chains with discovery disabled should fail");
    assert!(error.message().contains("chains must not be empty"));
}

#[test]
fn hardening_defaults_are_safe() {
    let config = Config::default();
    assert_eq!(config.server.shutdown_deadline_ms, 10_000);
    assert_eq!(config.server.max_body_bytes, 256 * 1024);
    assert_eq!(config.server.max_concurrent_requests, 1024);
    assert!(!config.server.per_ip_rate_limit.enabled);
    assert_eq!(config.server.metrics_auth_token, None);
}

#[test]
fn hardening_rejects_unsafe_values() {
    assert!(refused("chains=[1]\n[server]\nmax_body_bytes=0").contains("max_body_bytes"));
    assert!(
        refused("chains=[1]\n[server]\nmax_concurrent_requests=0")
            .contains("max_concurrent_requests")
    );
    assert!(
        refused("chains=[1]\n[server]\nshutdown_deadline_ms=0").contains("shutdown_deadline_ms")
    );
    assert!(
        refused("chains=[1]\n[server.per_ip_rate_limit]\nenabled=true\nrequests_per_second=0")
            .contains("per_ip_rate_limit")
    );
    assert!(
        refused("chains=[1]\n[server]\nmetrics_auth_token=\"\"").contains("metrics_auth_token")
    );
}

#[test]
fn env_overrides_listen_chains_and_cache() {
    let mut config = Config::default();
    config
        .apply_env_overrides(
            &env(&[
                ("RPCROUTER_LISTEN", "127.0.0.1:9999"),
                ("RPCROUTER_CHAINS", "1, 56,137"),
                ("RPCROUTER_CACHE_MAX_BYTES", "1048576"),
                ("RPCROUTER_METRICS_ENABLED", "0"),
                ("RPCROUTER_CHAINLIST_REFRESH_SECONDS", "120"),
                ("RPCROUTER_CHAINLIST_CACHE_PATH", "/tmp/rpcrs.json"),
            ]),
            ListenOverride::Valid("127.0.0.1:9999".to_owned()),
        )
        .expect("env overrides should apply");
    assert_eq!(config.listen.to_string(), "127.0.0.1:9999");
    assert_eq!(config.chains, [1, 56, 137]);
    assert_eq!(config.cache.max_bytes, 1_048_576);
    assert!(!config.metrics_enabled);
    assert_eq!(config.chainlist.refresh_seconds, 120);
    assert_eq!(config.chainlist.cache_path, "/tmp/rpcrs.json");
}

#[test]
fn env_overrides_admin_settings() {
    let mut config = Config::default();
    config
        .apply_env_overrides(
            &env(&[
                ("RPCROUTER_ADMIN_TOKEN", "secret"),
                ("RPCROUTER_ADMIN_STATIC_DIR", "/tmp/dashboard"),
                ("RPCROUTER_ADMIN_PUBLIC_SITE", "false"),
            ]),
            ListenOverride::Absent,
        )
        .expect("admin env overrides should apply");
    assert_eq!(config.admin.auth_token.as_deref(), Some("secret"));
    assert_eq!(config.admin.static_dir.as_deref(), Some("/tmp/dashboard"));
    assert!(!config.admin.public_site);
}

#[test]
fn hardening_accepts_configured_values() {
    let config = Config::from_toml(
        r#"
            chains = [1]
            [server]
            shutdown_deadline_ms = 5000
            max_body_bytes = 1048576
            max_concurrent_requests = 64
            metrics_auth_token = "secret"
            [server.per_ip_rate_limit]
            enabled = true
            requests_per_second = 50
            burst = 100
        "#,
    )
    .expect("valid hardening config");
    assert_eq!(config.server.shutdown_deadline_ms, 5_000);
    assert_eq!(config.server.max_body_bytes, 1_048_576);
    assert_eq!(config.server.max_concurrent_requests, 64);
    assert!(config.server.per_ip_rate_limit.enabled);
    assert_eq!(config.server.metrics_auth_token.as_deref(), Some("secret"));
}

#[test]
fn env_empty_value_is_ignored() {
    let mut config = Config::default();
    config
        .apply_env_overrides(
            &env(&[("RPCROUTER_LISTEN", ""), ("RPCROUTER_CHAINS", "")]),
            ListenOverride::Absent,
        )
        .expect("empty env should be ignored");
    assert_eq!(config.listen.to_string(), "0.0.0.0:8545");
    assert_eq!(config.chains, [1, 143]);
}

#[test]
fn env_invalid_values_are_rejected() {
    let mut config = Config::default();
    let error = config
        .apply_env_overrides(
            &env(&[("RPCROUTER_CACHE_MAX_BYTES", "not-a-number")]),
            ListenOverride::Absent,
        )
        .expect_err("invalid cache size should fail");
    assert!(error.message().contains("RPCROUTER_CACHE_MAX_BYTES"));
}

#[test]
fn invalid_public_site_env_is_rejected() {
    let mut config = Config::default();
    let error = config
        .apply_env_overrides(
            &env(&[("RPCROUTER_ADMIN_PUBLIC_SITE", "maybe")]),
            ListenOverride::Absent,
        )
        .expect_err("invalid public site boolean");
    assert!(error.message().contains("RPCROUTER_ADMIN_PUBLIC_SITE"));
}

#[test]
fn public_site_config_defaults_on_and_accepts_explicit_off() {
    let default = Config::from_toml("chains = [1]").unwrap();
    assert!(default.admin.public_site);
    let disabled = Config::from_toml("chains = [1]\n[admin]\npublic_site = false").unwrap();
    assert!(!disabled.admin.public_site);
}

#[test]
fn every_other_environment_variable_is_checked() {
    for name in [
        "RPCROUTER_METRICS_ENABLED",
        "RPCROUTER_CHAINLIST_REFRESH_SECONDS",
        "RPCROUTER_DISCOVERY_ENABLED",
        "RPCROUTER_DISCOVERY_MAX_HOT_CHAINS",
        "RPCROUTER_DISCOVERY_IDLE_SECONDS",
        "RPCROUTER_AUTO_ENABLE_ENABLED",
        "RPCROUTER_AUTO_ENABLE_MIN_ENDPOINTS",
        "RPCROUTER_AUTO_ENABLE_MAX_CHAINS",
        "RPCROUTER_STATE_RESET",
        "RPCROUTER_STATE_RESTORE_HOT",
        "RPCROUTER_STATE_REQUIRED",
    ] {
        let mut config = Config::default();
        let r = config.apply_env_overrides(&env(&[(name, "x")]), ListenOverride::Absent);
        assert!(r.is_err(), "{name}");
        assert!(matches!(r, Err(ConfigError::Env(_))), "{name}");
    }
    let mut config = Config::default();
    let r = config.apply_env_overrides(&env(&[("RPCROUTER_CHAINS", "1,x")]), ListenOverride::Absent);
    assert!(r.unwrap_err().message().contains("`x`"));
    let mut config = Config::default();
    let r = config.apply_env_overrides(
        &env(&[("RPCROUTER_LISTEN", "nowhere")]),
        ListenOverride::Invalid,
    );
    assert!(r.unwrap_err().message().contains("RPCROUTER_LISTEN"));
}

#[test]
fn an_empty_environment_changes_nothing() {
    let mut config = Config::from_toml("chains = [7]\n[server]\nbatch_limit = 3").unwrap();
    config.apply_env_overrides(&Vec::new(), ListenOverride::Absent).unwrap();
    assert_eq!(config.chains, [7]);
    assert_eq!(config.server.batch_limit, 3);
}

#[test]
fn the_default_configuration_is_valid() {
    assert!(Config::default().validate().is_ok());
    let mut config = Config::default();
    config.chains.clear();
    config.discovery.enabled = false;
    let fault: ConfigFault = config.validate().unwrap_err();
    assert!(fault.message().contains("chains must not be empty"));
}

#[test]
fn text_that_is_no_configuration_is_refused() {
    assert!(matches!(Config::from_toml("chains = ["), Err(ConfigError::InvalidToml)));
    assert!(matches!(Config::from_toml("chains = \"x\""), Err(ConfigError::InvalidToml)));
    assert_eq!(Config::from_toml("").unwrap().chains, [1, 143]);
}

#[test]
fn switched_off_endpoints_are_known() {
    let config = Config::from_toml(
        "[[chain_overrides]]\nchain_id = 1\ndisabled_endpoints = [\"https://a\"]\nmax_block_lag = 3",
    )
    .unwrap();
    assert!(config.is_switched_off(1, "https://a"));
    assert!(!config.is_switched_off(1, "https://b"));
    assert!(!config.is_switched_off(2, "https://a"));
    assert_eq!(config.lag_threshold(1), 3);
    assert_eq!(config.lag_threshold(2), config.probe.max_block_lag);
}
