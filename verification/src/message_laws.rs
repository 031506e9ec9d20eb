//! The words in which faults are told, and those for what is measured.
use crate::chainlist::{CatalogFault, RefreshSource};
use crate::config::ConfigFault;
use crate::config_env::{ConfigError, EnvFault};
use crate::loader::FetchError;
use crate::metric_table::Metric;
use crate::url::UrlFault;
use vstd::prelude::*;

verus! {

/// What is said of a setting that is not in order: its name, and what it has to be.
pub proof fn lemma_words_for_wrong_settings(f: ConfigFault)
    ensures
        f is NoChains ==> f.says() == "chains must not be empty when discovery is disabled"@,
        f is DuplicateChains ==> f.says() == "chains must not contain duplicates"@,
        f is DeniedPinnedChain ==> f.says() == "discovery.deny must not contain pinned chains"@,
        f is BatchLimit ==> f.says() == "server.batch_limit must be between 1 and 100"@,
        f is MaxBodyBytes ==> f.says() == "server.max_body_bytes must be greater than zero"@,
        f is MaxConcurrentRequests ==> f.says()
            == "server.max_concurrent_requests must be greater than zero"@,
        f is ShutdownDeadline ==> f.says()
            == "server.shutdown_deadline_ms must be greater than zero"@,
        f is PerIpRateLimit ==> f.says()
            == "per_ip_rate_limit rate and burst must be greater than zero"@,
        f is EmptyMetricsToken ==> f.says() == "server.metrics_auth_token must not be empty"@,
        f is MetricsToken ==> f.says()
            == "server.metrics_auth_token contains characters not allowed in an HTTP header value"@,
        f is RefreshSeconds ==> f.says() == "chainlist.refresh_seconds must be greater than zero"@,
        f is MaxHotChains ==> f.says() == "discovery.max_hot_chains must be greater than zero"@,
        f is AutoEnableLimits ==> f.says()
            == "discovery.auto_enable numeric limits must be greater than zero"@,
        f is StateBackend ==> f.says() == "state.backend must be redis, file, or memory"@,
        f is StateNamespace ==> f.says() == "state.namespace must not be empty"@,
        f is StateIntervals ==> f.says() == "state intervals must be greater than zero"@,
        f is AdminToken ==> f.says() == "admin.auth_token is not a valid HTTP header value"@,
        f is CorsWildcard ==> f.says()
            == "admin.cors_allow_origins '*' cannot be used with admin.auth_token"@,
        f is IdleSeconds ==> f.says() == "discovery.idle_seconds must be greater than zero"@,
        f is UpstreamTimeouts ==> f.says() == "upstream timeouts must be greater than zero"@,
        f is SlowThreshold ==> f.says() == "upstream.slow_threshold_ms must be greater than zero"@,
        f is MaxAttempts ==> f.says() == "upstream.max_attempts must be between 1 and 4"@,
        f is UpstreamLimits ==> f.says()
            == "upstream rate and concurrency limits must be greater than zero"@,
        f is ProbeInterval ==> f.says() == "probe interval must be a valid nonzero range"@,
        f is ProbeLimits ==> f.says() == "probe concurrency and timeout must be greater than zero"@,
        f is Cache ==> f.says()
            == "cache capacity must be nonzero and immutable TTL must be at least one hour"@,
        f is Hedging ==> f.says()
            == "hedging requires a delay, max_percent 1..=10, and at least two endpoints"@,
        f is EndpointLimits ==> f.says() == "endpoint limits must be greater than zero"@,
{
}

/// What is said of a variable that cannot be used.
pub proof fn lemma_words_for_wrong_variables(f: EnvFault)
    ensures
        f is Listen ==> f.says() == "RPCROUTER_LISTEN is not a valid listen address"@,
        f is CacheMaxBytes ==> f.says() == "RPCROUTER_CACHE_MAX_BYTES is not a valid byte count"@,
        f is MetricsEnabled ==> f.says() == "RPCROUTER_METRICS_ENABLED is not a valid boolean"@,
        f is ChainlistRefreshSeconds ==> f.says()
            == "RPCROUTER_CHAINLIST_REFRESH_SECONDS is not a valid duration"@,
        f is DiscoveryEnabled ==> f.says() == "RPCROUTER_DISCOVERY_ENABLED is not a valid boolean"@,
        f is DiscoveryMaxHotChains ==> f.says()
            == "RPCROUTER_DISCOVERY_MAX_HOT_CHAINS is not a valid integer"@,
        f is DiscoveryIdleSeconds ==> f.says()
            == "RPCROUTER_DISCOVERY_IDLE_SECONDS is not a valid integer"@,
        f is AutoEnableEnabled ==> f.says()
            == "RPCROUTER_AUTO_ENABLE_ENABLED is not a valid boolean"@,
        f is AutoEnableMinEndpoints ==> f.says() == "invalid auto min endpoints"@,
        f is AutoEnableMaxChains ==> f.says() == "invalid auto max chains"@,
        f is StateReset ==> f.says() == "RPCROUTER_STATE_RESET is not a valid boolean"@,
        f is StateRestoreHot ==> f.says() == "RPCROUTER_STATE_RESTORE_HOT is not a valid boolean"@,
        f is StateRequired ==> f.says() == "RPCROUTER_STATE_REQUIRED is not a valid boolean"@,
        f is AdminPublicSite ==> f.says() == "RPCROUTER_ADMIN_PUBLIC_SITE is not a valid boolean"@,
{
}

/// What is said where the network gave no catalog.
pub proof fn lemma_words_for_failed_requests(f: FetchError)
    ensures
        f is Request ==> f.says() == "chainlist request failed"@,
        f is NothingInMemory ==> f.says() == "chainlist returned 304 without an in-memory catalog"@,
        f matches FetchError::Status(s) ==> f.says() == "chainlist returned HTTP "@ + s@,
        f is Body ==> f.says() == "failed to read chainlist response"@,
        f is Invalid ==> f.says() == "chainlist response is invalid"@,
        f is SanityCheck ==> f.says() == "chainlist response failed catalog sanity check"@,
{
}

/// What is said of a text that is no chain list.
pub proof fn lemma_words_for_wrong_lists(f: CatalogFault)
    ensures
        f is InvalidJson ==> f.says() == "invalid chainlist JSON"@,
        f is NoChainsArray ==> f.says() == "chainlist object must contain a chains array"@,
        f is NoList ==> f.says()
            == "chainlist document must be an array or an object containing a chains array"@,
{
}

/// What is said of a URL that is refused.
pub proof fn lemma_words_for_refused_urls(f: UrlFault)
    ensures
        f is Template ==> f.says() == "endpoint URL contains a template"@,
        f is Invalid ==> f.says() == "endpoint URL is invalid"@,
        f is NotPublicHttps ==> f.says() == "endpoint URL must be HTTPS without userinfo"@,
        f is Private ==> f.says() == "private endpoint is not allowed"@,
{
}

/// What is said of settings that could not be taken over: the fault, the entry that is no chain id, or that
/// the text is no configuration.
pub proof fn lemma_words_for_refused_settings(e: ConfigError)
    ensures
        e matches ConfigError::Env(f) ==> e.says() == f.says(),
        e matches ConfigError::Fault(f) ==> e.says() == f.says(),
        e matches ConfigError::ChainEntry(part) ==> e.says() == "RPCROUTER_CHAINS entry `"@ + part@
            + "` is not a chain id"@,
        e is InvalidToml ==> e.says() == "invalid TOML"@,
{
}

/// What metrics are called.
pub proof fn lemma_names_of_metrics(m: Metric)
    ensures
        m is Ingress ==> m.name_of() == "rpcrouter_chain_ingress_requests_total"@,
        m is IngressRejected ==> m.name_of() == "rpcrouter_ingress_rejected_total"@,
        m is InFlight ==> m.name_of() == "rpcrouter_in_flight_requests"@,
        m is CacheLookups ==> m.name_of() == "rpcrouter_cache_lookups_total"@,
        m is CacheHits ==> m.name_of() == "rpcrouter_cache_hits_total"@,
        m is CacheHitRatio ==> m.name_of() == "rpcrouter_cache_hit_ratio"@,
        m is CacheMisses ==> m.name_of() == "rpcrouter_cache_misses_total"@,
        m is Coalesced ==> m.name_of() == "rpcrouter_coalesced_requests_total"@,
        m is CoalesceRatio ==> m.name_of() == "rpcrouter_coalesce_ratio"@,
        m is Upstream ==> m.name_of() == "rpcrouter_chain_upstream_requests_total"@,
        m is UserVisibleErrors ==> m.name_of() == "rpcrouter_user_visible_errors_total"@,
        m is ColdStartFailures ==> m.name_of() == "rpcrouter_cold_start_failures_total"@,
        m is Latency ==> m.name_of() == "rpcrouter_request_latency_seconds"@,
        m is FailoverDepth ==> m.name_of() == "rpcrouter_failover_depth"@,
        m is HedgeAttempts ==> m.name_of() == "rpcrouter_hedge_attempts_total"@,
        m is HedgeRatio ==> m.name_of() == "rpcrouter_hedge_ratio"@,
        m is EndpointRequests ==> m.name_of() == "rpcrouter_endpoint_requests_total"@,
        m is EndpointRateLimited ==> m.name_of() == "rpcrouter_endpoint_rate_limited_total"@,
        m is EndpointCoolingEvents ==> m.name_of() == "rpcrouter_endpoint_cooling_events_total"@,
        m is EndpointState ==> m.name_of() == "rpcrouter_endpoint_state"@,
        m is ChainState ==> m.name_of() == "rpcrouter_chains"@,
        m is ChainPinned ==> m.name_of() == "rpcrouter_chain_pinned"@,
        m is CatalogChains ==> m.name_of() == "rpcrouter_catalog_chains"@,
        m is CatalogEndpoints ==> m.name_of() == "rpcrouter_catalog_endpoints"@,
        m is CatalogRecordsSkipped ==> m.name_of() == "rpcrouter_catalog_records_skipped_total"@,
        m is ProbeQueueDepth ==> m.name_of() == "rpcrouter_probe_queue_depth"@,
        m is AutoEnableChains ==> m.name_of() == "rpcrouter_auto_enable_chains"@,
        m is AutoEnableCandidates ==> m.name_of() == "rpcrouter_auto_enable_candidates"@,
        m is AutoEnablePromotions ==> m.name_of() == "rpcrouter_auto_enable_promotions_total"@,
        m is AutoEnableProbeFailures ==> m.name_of()
            == "rpcrouter_auto_enable_probe_failures_total"@,
        m is ProbeInFlight ==> m.name_of() == "rpcrouter_probe_in_flight"@,
        m is ChainlistLastRefresh ==> m.name_of()
            == "rpcrouter_chainlist_last_refresh_timestamp_seconds"@,
        m is ChainlistRefreshTotal ==> m.name_of() == "rpcrouter_chainlist_refresh_total"@,
        m is ChainActivations ==> m.name_of() == "rpcrouter_chain_activations_total"@,
        m is ChainDemotions ==> m.name_of() == "rpcrouter_chain_demotions_total"@,
        m is BackgroundTaskRestarts ==> m.name_of() == "rpcrouter_background_task_restarts_total"@,
        m is StateStoreUp ==> m.name_of() == "rpcrouter_state_store_up"@,
        m is StateFlushTotal ==> m.name_of() == "rpcrouter_state_flush_total"@,
        m is StateFlushDuration ==> m.name_of() == "rpcrouter_state_flush_duration_seconds"@,
        m is StateDirtyEndpoints ==> m.name_of() == "rpcrouter_state_dirty_endpoints"@,
{
}

/// What is said to explain a metric.
pub proof fn lemma_help_on_metrics(m: Metric)
    ensures
        m is Ingress ==> m.help_of() == "Ingress JSON-RPC requests; use rate() for QPS."@,
        m is IngressRejected ==> m.help_of()
            == "Requests rejected at the ingress guard before forwarding. Not part of user_visible_errors."@,
        m is InFlight ==> m.help_of()
            == "Number of ingress requests currently in flight (before guard passes)."@,
        m is CacheLookups ==> m.help_of() == "Cacheable request lookups."@,
        m is CacheHits ==> m.help_of() == "Response cache hits."@,
        m is CacheHitRatio ==> m.help_of() == "Cache hits divided by cacheable lookups."@,
        m is CacheMisses ==> m.help_of() == "Cache misses entering singleflight."@,
        m is Coalesced ==> m.help_of() == "Cache misses served by an in-flight leader."@,
        m is CoalesceRatio ==> m.help_of() == "Coalesced followers divided by cache misses."@,
        m is Upstream ==> m.help_of() == "Data-plane upstream requests; use rate() for QPS."@,
        m is UserVisibleErrors ==> m.help_of()
            == "Requests with an active upstream promise that exhaust all endpoints."@,
        m is ColdStartFailures ==> m.help_of()
            == "Requests exhausting a chain without any active endpoint at ingress."@,
        m is Latency ==> m.help_of() == "End-to-end JSON-RPC request latency."@,
        m is FailoverDepth ==> m.help_of()
            == "Number of failed upstream attempts before completion."@,
        m is HedgeAttempts ==> m.help_of() == "Secondary hedge requests."@,
        m is HedgeRatio ==> m.help_of()
            == "Hedge requests divided by data-plane upstream requests."@,
        m is EndpointRequests ==> m.help_of()
            == "All endpoint requests including health probes; use rate() for QPS."@,
        m is EndpointRateLimited ==> m.help_of()
            == "Rate-limit responses observed for an endpoint."@,
        m is EndpointCoolingEvents ==> m.help_of()
            == "Cooling transitions observed for an endpoint."@,
        m is EndpointState ==> m.help_of() == "Endpoint state represented as a one-hot gauge."@,
        m is ChainState ==> m.help_of() == "Number of chains by lifecycle state."@,
        m is ChainPinned ==> m.help_of() == "1 if the chain is pinned, 0 otherwise."@,
        m is CatalogChains ==> m.help_of() == "Number of chains in the catalog."@,
        m is CatalogEndpoints ==> m.help_of() == "Number of endpoints in the catalog."@,
        m is CatalogRecordsSkipped ==> m.help_of()
            == "Number of malformed chainlist records skipped during tolerant parsing."@,
        m is ProbeQueueDepth ==> m.help_of() == "Number of probe tasks waiting in the queue."@,
        m is AutoEnableChains ==> m.help_of() == "Number of chains currently auto-enabled."@,
        m is AutoEnableCandidates ==> m.help_of()
            == "Number of chains in the auto-enable candidate pool."@,
        m is AutoEnablePromotions ==> m.help_of() == "Number of chains promoted to auto-enabled."@,
        m is AutoEnableProbeFailures ==> m.help_of()
            == "Number of failed candidate endpoint probes."@,
        m is ProbeInFlight ==> m.help_of() == "Number of probes currently in flight."@,
        m is ChainlistLastRefresh ==> m.help_of()
            == "Unix timestamp of the last successful chainlist refresh."@,
        m is ChainlistRefreshTotal ==> m.help_of() == "Chainlist refresh attempts by source."@,
        m is ChainActivations ==> m.help_of() == "Number of chain activations (dormant → hot)."@,
        m is ChainDemotions ==> m.help_of() == "Number of chain demotions by reason."@,
        m is BackgroundTaskRestarts ==> m.help_of()
            == "Background task restarts after panic or unexpected exit."@,
        m is StateStoreUp ==> m.help_of()
            == "1 when the configured persistent state store is reachable."@,
        m is StateFlushTotal ==> m.help_of() == "State write-behind flushes by result."@,
        m is StateFlushDuration ==> m.help_of() == "State write-behind flush duration."@,
        m is StateDirtyEndpoints ==> m.help_of() == "Endpoints waiting for state write-behind."@,
{
}

/// The words for where a chain list came from; no two of them are the same.
pub proof fn lemma_words_for_where_a_list_came_from(s: RefreshSource)
    ensures
        s is Network <==> s.labelled() == "network"@,
        s is NotModified <==> s.labelled() == "not_modified"@,
        s is Memory <==> s.labelled() == "memory"@,
        s is StateStore <==> s.labelled() == "state_store"@,
        s is Disk <==> s.labelled() == "disk"@,
        s is Fixture <==> s.labelled() == "fixture"@,
{
    reveal_strlit("network");
    reveal_strlit("not_modified");
    reveal_strlit("memory");
    reveal_strlit("state_store");
    reveal_strlit("disk");
    reveal_strlit("fixture");
    assert("network"@[0] == 'n' && "network"@.len() == 7);
    assert("not_modified"@[0] == 'n' && "not_modified"@.len() == 12);
    assert("memory"@[0] == 'm');
    assert("state_store"@[0] == 's');
    assert("disk"@[0] == 'd');
    assert("fixture"@[0] == 'f');
}

} // verus!
