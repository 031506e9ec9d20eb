//! The measurements that the program publishes: their names, meanings, kinds and labels.
use vstd::prelude::*;

verus! {

#[derive(Clone, Copy, Debug, PartialEq, Eq, Structural)]
pub enum MetricKind {
    /// Only grows.
    Counter,
    Gauge,
    /// A quotient of two counters.
    Ratio,
    Histogram,
}

/// What a measurement is broken down by.
#[derive(Clone, Copy, Debug, PartialEq, Eq, Structural)]
pub enum LabelSet {
    Plain,
    Chain,
    Endpoint,
    EndpointState,
    State,
    Reason,
    Source,
    Task,
    Result,
}

impl LabelSet {
    pub open spec fn labels(self) -> Seq<Seq<char>> {
        match self {
            LabelSet::Plain => seq![],
            LabelSet::Chain => seq!["chain_id"@],
            LabelSet::Endpoint => seq!["chain_id"@, "endpoint"@],
            LabelSet::EndpointState => seq!["chain_id"@, "endpoint"@, "state"@],
            LabelSet::State => seq!["state"@],
            LabelSet::Reason => seq!["reason"@],
            LabelSet::Source => seq!["source"@],
            LabelSet::Task => seq!["task"@],
            LabelSet::Result => seq!["result"@],
        }
    }

    /// The names of the labels.
    pub fn names(&self) -> (v: Vec<&'static str>)
        ensures
            v@.map_values(|s: &'static str| s@) == self.labels(),
    {
        let mut v: Vec<&'static str> = Vec::new();
        match self {
            LabelSet::Plain => {},
            LabelSet::Chain => {
                v.push("chain_id");
            },
            LabelSet::Endpoint => {
                v.push("chain_id");
                v.push("endpoint");
            },
            LabelSet::EndpointState => {
                v.push("chain_id");
                v.push("endpoint");
                v.push("state");
            },
            LabelSet::State => {
                v.push("state");
            },
            LabelSet::Reason => {
                v.push("reason");
            },
            LabelSet::Source => {
                v.push("source");
            },
            LabelSet::Task => {
                v.push("task");
            },
            LabelSet::Result => {
                v.push("result");
            },
        }
        assert(v@.map_values(|s: &'static str| s@) =~= self.labels());
        v
    }
}

/// A measurement.
#[derive(Clone, Copy, Debug, PartialEq, Eq, Structural)]
pub enum Metric {
    Ingress,
    IngressRejected,
    InFlight,
    CacheLookups,
    CacheHits,
    CacheHitRatio,
    CacheMisses,
    Coalesced,
    CoalesceRatio,
    Upstream,
    UserVisibleErrors,
    ColdStartFailures,
    Latency,
    FailoverDepth,
    HedgeAttempts,
    HedgeRatio,
    EndpointRequests,
    EndpointRateLimited,
    EndpointCoolingEvents,
    EndpointState,
    ChainState,
    ChainPinned,
    CatalogChains,
    CatalogEndpoints,
    CatalogRecordsSkipped,
    ProbeQueueDepth,
    AutoEnableChains,
    AutoEnableCandidates,
    AutoEnablePromotions,
    AutoEnableProbeFailures,
    ProbeInFlight,
    ChainlistLastRefresh,
    ChainlistRefreshTotal,
    ChainActivations,
    ChainDemotions,
    BackgroundTaskRestarts,
    StateStoreUp,
    StateFlushTotal,
    StateFlushDuration,
    StateDirtyEndpoints,
}

impl Metric {
    pub open spec fn name_of(self) -> Seq<char> {
        match self {
            Metric::Ingress => "rpcrouter_chain_ingress_requests_total"@,
            Metric::IngressRejected => "rpcrouter_ingress_rejected_total"@,
            Metric::InFlight => "rpcrouter_in_flight_requests"@,
            Metric::CacheLookups => "rpcrouter_cache_lookups_total"@,
            Metric::CacheHits => "rpcrouter_cache_hits_total"@,
            Metric::CacheHitRatio => "rpcrouter_cache_hit_ratio"@,
            Metric::CacheMisses => "rpcrouter_cache_misses_total"@,
            Metric::Coalesced => "rpcrouter_coalesced_requests_total"@,
            Metric::CoalesceRatio => "rpcrouter_coalesce_ratio"@,
            Metric::Upstream => "rpcrouter_chain_upstream_requests_total"@,
            Metric::UserVisibleErrors => "rpcrouter_user_visible_errors_total"@,
            Metric::ColdStartFailures => "rpcrouter_cold_start_failures_total"@,
            Metric::Latency => "rpcrouter_request_latency_seconds"@,
            Metric::FailoverDepth => "rpcrouter_failover_depth"@,
            Metric::HedgeAttempts => "rpcrouter_hedge_attempts_total"@,
            Metric::HedgeRatio => "rpcrouter_hedge_ratio"@,
            Metric::EndpointRequests => "rpcrouter_endpoint_requests_total"@,
            Metric::EndpointRateLimited => "rpcrouter_endpoint_rate_limited_total"@,
            Metric::EndpointCoolingEvents => "rpcrouter_endpoint_cooling_events_total"@,
            Metric::EndpointState => "rpcrouter_endpoint_state"@,
            Metric::ChainState => "rpcrouter_chains"@,
            Metric::ChainPinned => "rpcrouter_chain_pinned"@,
            Metric::CatalogChains => "rpcrouter_catalog_chains"@,
            Metric::CatalogEndpoints => "rpcrouter_catalog_endpoints"@,
            Metric::CatalogRecordsSkipped => "rpcrouter_catalog_records_skipped_total"@,
            Metric::ProbeQueueDepth => "rpcrouter_probe_queue_depth"@,
            Metric::AutoEnableChains => "rpcrouter_auto_enable_chains"@,
            Metric::AutoEnableCandidates => "rpcrouter_auto_enable_candidates"@,
            Metric::AutoEnablePromotions => "rpcrouter_auto_enable_promotions_total"@,
            Metric::AutoEnableProbeFailures => "rpcrouter_auto_enable_probe_failures_total"@,
            Metric::ProbeInFlight => "rpcrouter_probe_in_flight"@,
            Metric::ChainlistLastRefresh => "rpcrouter_chainlist_last_refresh_timestamp_seconds"@,
            Metric::ChainlistRefreshTotal => "rpcrouter_chainlist_refresh_total"@,
            Metric::ChainActivations => "rpcrouter_chain_activations_total"@,
            Metric::ChainDemotions => "rpcrouter_chain_demotions_total"@,
            Metric::BackgroundTaskRestarts => "rpcrouter_background_task_restarts_total"@,
            Metric::StateStoreUp => "rpcrouter_state_store_up"@,
            Metric::StateFlushTotal => "rpcrouter_state_flush_total"@,
            Metric::StateFlushDuration => "rpcrouter_state_flush_duration_seconds"@,
            Metric::StateDirtyEndpoints => "rpcrouter_state_dirty_endpoints"@,
        }
    }

    pub fn name(&self) -> (s: &'static str)
        ensures
            s@ == self.name_of(),
    {
        match self {
            Metric::Ingress => "rpcrouter_chain_ingress_requests_total",
            Metric::IngressRejected => "rpcrouter_ingress_rejected_total",
            Metric::InFlight => "rpcrouter_in_flight_requests",
            Metric::CacheLookups => "rpcrouter_cache_lookups_total",
            Metric::CacheHits => "rpcrouter_cache_hits_total",
            Metric::CacheHitRatio => "rpcrouter_cache_hit_ratio",
            Metric::CacheMisses => "rpcrouter_cache_misses_total",
            Metric::Coalesced => "rpcrouter_coalesced_requests_total",
            Metric::CoalesceRatio => "rpcrouter_coalesce_ratio",
            Metric::Upstream => "rpcrouter_chain_upstream_requests_total",
            Metric::UserVisibleErrors => "rpcrouter_user_visible_errors_total",
            Metric::ColdStartFailures => "rpcrouter_cold_start_failures_total",
            Metric::Latency => "rpcrouter_request_latency_seconds",
            Metric::FailoverDepth => "rpcrouter_failover_depth",
            Metric::HedgeAttempts => "rpcrouter_hedge_attempts_total",
            Metric::HedgeRatio => "rpcrouter_hedge_ratio",
            Metric::EndpointRequests => "rpcrouter_endpoint_requests_total",
            Metric::EndpointRateLimited => "rpcrouter_endpoint_rate_limited_total",
            Metric::EndpointCoolingEvents => "rpcrouter_endpoint_cooling_events_total",
            Metric::EndpointState => "rpcrouter_endpoint_state",
            Metric::ChainState => "rpcrouter_chains",
            Metric::ChainPinned => "rpcrouter_chain_pinned",
            Metric::CatalogChains => "rpcrouter_catalog_chains",
            Metric::CatalogEndpoints => "rpcrouter_catalog_endpoints",
            Metric::CatalogRecordsSkipped => "rpcrouter_catalog_records_skipped_total",
            Metric::ProbeQueueDepth => "rpcrouter_probe_queue_depth",
            Metric::AutoEnableChains => "rpcrouter_auto_enable_chains",
            Metric::AutoEnableCandidates => "rpcrouter_auto_enable_candidates",
            Metric::AutoEnablePromotions => "rpcrouter_auto_enable_promotions_total",
            Metric::AutoEnableProbeFailures => "rpcrouter_auto_enable_probe_failures_total",
            Metric::ProbeInFlight => "rpcrouter_probe_in_flight",
            Metric::ChainlistLastRefresh => "rpcrouter_chainlist_last_refresh_timestamp_seconds",
            Metric::ChainlistRefreshTotal => "rpcrouter_chainlist_refresh_total",
            Metric::ChainActivations => "rpcrouter_chain_activations_total",
            Metric::ChainDemotions => "rpcrouter_chain_demotions_total",
            Metric::BackgroundTaskRestarts => "rpcrouter_background_task_restarts_total",
            Metric::StateStoreUp => "rpcrouter_state_store_up",
            Metric::StateFlushTotal => "rpcrouter_state_flush_total",
            Metric::StateFlushDuration => "rpcrouter_state_flush_duration_seconds",
            Metric::StateDirtyEndpoints => "rpcrouter_state_dirty_endpoints",
        }
    }

    pub open spec fn help_of(self) -> Seq<char> {
        match self {
            Metric::Ingress => "Ingress JSON-RPC requests; use rate() for QPS."@,
            Metric::IngressRejected => "Requests rejected at the ingress guard before forwarding. Not part of user_visible_errors."@,
            Metric::InFlight => "Number of ingress requests currently in flight (before guard passes)."@,
            Metric::CacheLookups => "Cacheable request lookups."@,
            Metric::CacheHits => "Response cache hits."@,
            Metric::CacheHitRatio => "Cache hits divided by cacheable lookups."@,
            Metric::CacheMisses => "Cache misses entering singleflight."@,
            Metric::Coalesced => "Cache misses served by an in-flight leader."@,
            Metric::CoalesceRatio => "Coalesced followers divided by cache misses."@,
            Metric::Upstream => "Data-plane upstream requests; use rate() for QPS."@,
            Metric::UserVisibleErrors => "Requests with an active upstream promise that exhaust all endpoints."@,
            Metric::ColdStartFailures => "Requests exhausting a chain without any active endpoint at ingress."@,
            Metric::Latency => "End-to-end JSON-RPC request latency."@,
            Metric::FailoverDepth => "Number of failed upstream attempts before completion."@,
            Metric::HedgeAttempts => "Secondary hedge requests."@,
            Metric::HedgeRatio => "Hedge requests divided by data-plane upstream requests."@,
            Metric::EndpointRequests => "All endpoint requests including health probes; use rate() for QPS."@,
            Metric::EndpointRateLimited => "Rate-limit responses observed for an endpoint."@,
            Metric::EndpointCoolingEvents => "Cooling transitions observed for an endpoint."@,
            Metric::EndpointState => "Endpoint state represented as a one-hot gauge."@,
            Metric::ChainState => "Number of chains by lifecycle state."@,
            Metric::ChainPinned => "1 if the chain is pinned, 0 otherwise."@,
            Metric::CatalogChains => "Number of chains in the catalog."@,
            Metric::CatalogEndpoints => "Number of endpoints in the catalog."@,
            Metric::CatalogRecordsSkipped => "Number of malformed chainlist records skipped during tolerant parsing."@,
            Metric::ProbeQueueDepth => "Number of probe tasks waiting in the queue."@,
            Metric::AutoEnableChains => "Number of chains currently auto-enabled."@,
            Metric::AutoEnableCandidates => "Number of chains in the auto-enable candidate pool."@,
            Metric::AutoEnablePromotions => "Number of chains promoted to auto-enabled."@,
            Metric::AutoEnableProbeFailures => "Number of failed candidate endpoint probes."@,
            Metric::ProbeInFlight => "Number of probes currently in flight."@,
            Metric::ChainlistLastRefresh => "Unix timestamp of the last successful chainlist refresh."@,
            Metric::ChainlistRefreshTotal => "Chainlist refresh attempts by source."@,
            Metric::ChainActivations => "Number of chain activations (dormant → hot)."@,
            Metric::ChainDemotions => "Number of chain demotions by reason."@,
            Metric::BackgroundTaskRestarts => "Background task restarts after panic or unexpected exit."@,
            Metric::StateStoreUp => "1 when the configured persistent state store is reachable."@,
            Metric::StateFlushTotal => "State write-behind flushes by result."@,
            Metric::StateFlushDuration => "State write-behind flush duration."@,
            Metric::StateDirtyEndpoints => "Endpoints waiting for state write-behind."@,
        }
    }

    pub fn help(&self) -> (s: &'static str)
        ensures
            s@ == self.help_of(),
    {
        match self {
            Metric::Ingress => "Ingress JSON-RPC requests; use rate() for QPS.",
            Metric::IngressRejected => "Requests rejected at the ingress guard before forwarding. Not part of user_visible_errors.",
            Metric::InFlight => "Number of ingress requests currently in flight (before guard passes).",
            Metric::CacheLookups => "Cacheable request lookups.",
            Metric::CacheHits => "Response cache hits.",
            Metric::CacheHitRatio => "Cache hits divided by cacheable lookups.",
            Metric::CacheMisses => "Cache misses entering singleflight.",
            Metric::Coalesced => "Cache misses served by an in-flight leader.",
            Metric::CoalesceRatio => "Coalesced followers divided by cache misses.",
            Metric::Upstream => "Data-plane upstream requests; use rate() for QPS.",
            Metric::UserVisibleErrors => "Requests with an active upstream promise that exhaust all endpoints.",
            Metric::ColdStartFailures => "Requests exhausting a chain without any active endpoint at ingress.",
            Metric::Latency => "End-to-end JSON-RPC request latency.",
            Metric::FailoverDepth => "Number of failed upstream attempts before completion.",
            Metric::HedgeAttempts => "Secondary hedge requests.",
            Metric::HedgeRatio => "Hedge requests divided by data-plane upstream requests.",
            Metric::EndpointRequests => "All endpoint requests including health probes; use rate() for QPS.",
            Metric::EndpointRateLimited => "Rate-limit responses observed for an endpoint.",
            Metric::EndpointCoolingEvents => "Cooling transitions observed for an endpoint.",
            Metric::EndpointState => "Endpoint state represented as a one-hot gauge.",
            Metric::ChainState => "Number of chains by lifecycle state.",
            Metric::ChainPinned => "1 if the chain is pinned, 0 otherwise.",
            Metric::CatalogChains => "Number of chains in the catalog.",
            Metric::CatalogEndpoints => "Number of endpoints in the catalog.",
            Metric::CatalogRecordsSkipped => "Number of malformed chainlist records skipped during tolerant parsing.",
            Metric::ProbeQueueDepth => "Number of probe tasks waiting in the queue.",
            Metric::AutoEnableChains => "Number of chains currently auto-enabled.",
            Metric::AutoEnableCandidates => "Number of chains in the auto-enable candidate pool.",
            Metric::AutoEnablePromotions => "Number of chains promoted to auto-enabled.",
            Metric::AutoEnableProbeFailures => "Number of failed candidate endpoint probes.",
            Metric::ProbeInFlight => "Number of probes currently in flight.",
            Metric::ChainlistLastRefresh => "Unix timestamp of the last successful chainlist refresh.",
            Metric::ChainlistRefreshTotal => "Chainlist refresh attempts by source.",
            Metric::ChainActivations => "Number of chain activations (dormant → hot).",
            Metric::ChainDemotions => "Number of chain demotions by reason.",
            Metric::BackgroundTaskRestarts => "Background task restarts after panic or unexpected exit.",
            Metric::StateStoreUp => "1 when the configured persistent state store is reachable.",
            Metric::StateFlushTotal => "State write-behind flushes by result.",
            Metric::StateFlushDuration => "State write-behind flush duration.",
            Metric::StateDirtyEndpoints => "Endpoints waiting for state write-behind.",
        }
    }

    pub open spec fn kind_of(self) -> MetricKind {
        match self {
            Metric::InFlight | Metric::EndpointState | Metric::ChainState | Metric::ChainPinned | Metric::CatalogChains | Metric::CatalogEndpoints | Metric::ProbeQueueDepth | Metric::AutoEnableChains | Metric::AutoEnableCandidates | Metric::ProbeInFlight | Metric::ChainlistLastRefresh | Metric::StateStoreUp | Metric::StateDirtyEndpoints => MetricKind::Gauge,
            Metric::CacheHitRatio | Metric::CoalesceRatio | Metric::HedgeRatio => MetricKind::Ratio,
            Metric::Latency | Metric::FailoverDepth | Metric::StateFlushDuration => MetricKind::Histogram,
            _ => MetricKind::Counter,
        }
    }

    pub fn kind(&self) -> (k: MetricKind)
        ensures
            k == self.kind_of(),
    {
        match self {
            Metric::InFlight | Metric::EndpointState | Metric::ChainState | Metric::ChainPinned | Metric::CatalogChains | Metric::CatalogEndpoints | Metric::ProbeQueueDepth | Metric::AutoEnableChains | Metric::AutoEnableCandidates | Metric::ProbeInFlight | Metric::ChainlistLastRefresh | Metric::StateStoreUp | Metric::StateDirtyEndpoints => MetricKind::Gauge,
            Metric::CacheHitRatio | Metric::CoalesceRatio | Metric::HedgeRatio => MetricKind::Ratio,
            Metric::Latency | Metric::FailoverDepth | Metric::StateFlushDuration => MetricKind::Histogram,
            _ => MetricKind::Counter,
        }
    }

    pub open spec fn labels_of(self) -> LabelSet {
        match self {
            Metric::IngressRejected | Metric::ChainDemotions => LabelSet::Reason,
            Metric::InFlight | Metric::CatalogChains | Metric::CatalogEndpoints | Metric::CatalogRecordsSkipped | Metric::ProbeQueueDepth | Metric::AutoEnableChains | Metric::AutoEnableCandidates | Metric::AutoEnablePromotions | Metric::AutoEnableProbeFailures | Metric::ProbeInFlight | Metric::ChainlistLastRefresh | Metric::ChainActivations | Metric::StateStoreUp | Metric::StateFlushDuration | Metric::StateDirtyEndpoints => LabelSet::Plain,
            Metric::Upstream | Metric::EndpointRequests | Metric::EndpointRateLimited | Metric::EndpointCoolingEvents => LabelSet::Endpoint,
            Metric::EndpointState => LabelSet::EndpointState,
            Metric::ChainState => LabelSet::State,
            Metric::ChainlistRefreshTotal => LabelSet::Source,
            Metric::BackgroundTaskRestarts => LabelSet::Task,
            Metric::StateFlushTotal => LabelSet::Result,
            _ => LabelSet::Chain,
        }
    }

    pub fn labels(&self) -> (l: LabelSet)
        ensures
            l == self.labels_of(),
    {
        match self {
            Metric::IngressRejected | Metric::ChainDemotions => LabelSet::Reason,
            Metric::InFlight | Metric::CatalogChains | Metric::CatalogEndpoints | Metric::CatalogRecordsSkipped | Metric::ProbeQueueDepth | Metric::AutoEnableChains | Metric::AutoEnableCandidates | Metric::AutoEnablePromotions | Metric::AutoEnableProbeFailures | Metric::ProbeInFlight | Metric::ChainlistLastRefresh | Metric::ChainActivations | Metric::StateStoreUp | Metric::StateFlushDuration | Metric::StateDirtyEndpoints => LabelSet::Plain,
            Metric::Upstream | Metric::EndpointRequests | Metric::EndpointRateLimited | Metric::EndpointCoolingEvents => LabelSet::Endpoint,
            Metric::EndpointState => LabelSet::EndpointState,
            Metric::ChainState => LabelSet::State,
            Metric::ChainlistRefreshTotal => LabelSet::Source,
            Metric::BackgroundTaskRestarts => LabelSet::Task,
            Metric::StateFlushTotal => LabelSet::Result,
            _ => LabelSet::Chain,
        }
    }
}

/// All measurements, each once.
pub fn all_metrics() -> (v: Vec<Metric>)
    ensures
        v@.no_duplicates(),
        forall|m: Metric| #[trigger] v@.contains(m),
{
    let v: Vec<Metric> = vec![
        Metric::Ingress,
        Metric::IngressRejected,
        Metric::InFlight,
        Metric::CacheLookups,
        Metric::CacheHits,
        Metric::CacheHitRatio,
        Metric::CacheMisses,
        Metric::Coalesced,
        Metric::CoalesceRatio,
        Metric::Upstream,
        Metric::UserVisibleErrors,
        Metric::ColdStartFailures,
        Metric::Latency,
        Metric::FailoverDepth,
        Metric::HedgeAttempts,
        Metric::HedgeRatio,
        Metric::EndpointRequests,
        Metric::EndpointRateLimited,
        Metric::EndpointCoolingEvents,
        Metric::EndpointState,
        Metric::ChainState,
        Metric::ChainPinned,
        Metric::CatalogChains,
        Metric::CatalogEndpoints,
        Metric::CatalogRecordsSkipped,
        Metric::ProbeQueueDepth,
        Metric::AutoEnableChains,
        Metric::AutoEnableCandidates,
        Metric::AutoEnablePromotions,
        Metric::AutoEnableProbeFailures,
        Metric::ProbeInFlight,
        Metric::ChainlistLastRefresh,
        Metric::ChainlistRefreshTotal,
        Metric::ChainActivations,
        Metric::ChainDemotions,
        Metric::BackgroundTaskRestarts,
        Metric::StateStoreUp,
        Metric::StateFlushTotal,
        Metric::StateFlushDuration,
        Metric::StateDirtyEndpoints,
    ];
    proof {
        assert forall|m: Metric| #[trigger] v@.contains(m) by {
            match m {
                Metric::Ingress => assert(v@[0] == m),
                Metric::IngressRejected => assert(v@[1] == m),
                Metric::InFlight => assert(v@[2] == m),
                Metric::CacheLookups => assert(v@[3] == m),
                Metric::CacheHits => assert(v@[4] == m),
                Metric::CacheHitRatio => assert(v@[5] == m),
                Metric::CacheMisses => assert(v@[6] == m),
                Metric::Coalesced => assert(v@[7] == m),
                Metric::CoalesceRatio => assert(v@[8] == m),
                Metric::Upstream => assert(v@[9] == m),
                Metric::UserVisibleErrors => assert(v@[10] == m),
                Metric::ColdStartFailures => assert(v@[11] == m),
                Metric::Latency => assert(v@[12] == m),
                Metric::FailoverDepth => assert(v@[13] == m),
                Metric::HedgeAttempts => assert(v@[14] == m),
                Metric::HedgeRatio => assert(v@[15] == m),
                Metric::EndpointRequests => assert(v@[16] == m),
                Metric::EndpointRateLimited => assert(v@[17] == m),
                Metric::EndpointCoolingEvents => assert(v@[18] == m),
                Metric::EndpointState => assert(v@[19] == m),
                Metric::ChainState => assert(v@[20] == m),
                Metric::ChainPinned => assert(v@[21] == m),
                Metric::CatalogChains => assert(v@[22] == m),
                Metric::CatalogEndpoints => assert(v@[23] == m),
                Metric::CatalogRecordsSkipped => assert(v@[24] == m),
                Metric::ProbeQueueDepth => assert(v@[25] == m),
                Metric::AutoEnableChains => assert(v@[26] == m),
                Metric::AutoEnableCandidates => assert(v@[27] == m),
                Metric::AutoEnablePromotions => assert(v@[28] == m),
                Metric::AutoEnableProbeFailures => assert(v@[29] == m),
                Metric::ProbeInFlight => assert(v@[30] == m),
                Metric::ChainlistLastRefresh => assert(v@[31] == m),
                Metric::ChainlistRefreshTotal => assert(v@[32] == m),
                Metric::ChainActivations => assert(v@[33] == m),
                Metric::ChainDemotions => assert(v@[34] == m),
                Metric::BackgroundTaskRestarts => assert(v@[35] == m),
                Metric::StateStoreUp => assert(v@[36] == m),
                Metric::StateFlushTotal => assert(v@[37] == m),
                Metric::StateFlushDuration => assert(v@[38] == m),
                Metric::StateDirtyEndpoints => assert(v@[39] == m),
            }
        }
    }
    v
}

/// By what the names differ: their length and three of their characters.
spec fn mark(m: Metric) -> (int, char, char, char) {
    match m {
        Metric::Ingress => (38, 'c', 'h', '_'),
        Metric::IngressRejected => (32, 'i', 'n', 's'),
        Metric::InFlight => (28, 'i', 'n', 'i'),
        Metric::CacheLookups => (29, 'c', 'a', '_'),
        Metric::CacheHits => (26, 'c', 'a', '_'),
        Metric::CacheHitRatio => (25, 'c', 'a', '_'),
        Metric::CacheMisses => (28, 'c', 'a', '_'),
        Metric::Coalesced => (34, 'c', 'o', 's'),
        Metric::CoalesceRatio => (24, 'c', 'o', 's'),
        Metric::Upstream => (39, 'c', 'h', '_'),
        Metric::UserVisibleErrors => (35, 'u', 's', 'v'),
        Metric::ColdStartFailures => (35, 'c', 'o', 's'),
        Metric::Latency => (33, 'r', 'e', 's'),
        Metric::FailoverDepth => (24, 'f', 'a', 'v'),
        Metric::HedgeAttempts => (30, 'h', 'e', '_'),
        Metric::HedgeRatio => (21, 'h', 'e', '_'),
        Metric::EndpointRequests => (33, 'e', 'n', 'i'),
        Metric::EndpointRateLimited => (37, 'e', 'n', 'i'),
        Metric::EndpointCoolingEvents => (39, 'e', 'n', 'i'),
        Metric::EndpointState => (24, 'e', 'n', 'i'),
        Metric::ChainState => (16, 'c', 'h', 's'),
        Metric::ChainPinned => (22, 'c', 'h', '_'),
        Metric::CatalogChains => (24, 'c', 'a', 'o'),
        Metric::CatalogEndpoints => (27, 'c', 'a', 'o'),
        Metric::CatalogRecordsSkipped => (39, 'c', 'a', 'o'),
        Metric::ProbeQueueDepth => (27, 'p', 'r', '_'),
        Metric::AutoEnableChains => (28, 'a', 'u', 'e'),
        Metric::AutoEnableCandidates => (32, 'a', 'u', 'e'),
        Metric::AutoEnablePromotions => (38, 'a', 'u', 'e'),
        Metric::AutoEnableProbeFailures => (42, 'a', 'u', 'e'),
        Metric::ProbeInFlight => (25, 'p', 'r', '_'),
        Metric::ChainlistLastRefresh => (50, 'c', 'h', 'l'),
        Metric::ChainlistRefreshTotal => (33, 'c', 'h', 'l'),
        Metric::ChainActivations => (33, 'c', 'h', '_'),
        Metric::ChainDemotions => (31, 'c', 'h', '_'),
        Metric::BackgroundTaskRestarts => (40, 'b', 'a', 'r'),
        Metric::StateStoreUp => (24, 's', 't', '_'),
        Metric::StateFlushTotal => (27, 's', 't', '_'),
        Metric::StateFlushDuration => (38, 's', 't', '_'),
        Metric::StateDirtyEndpoints => (31, 's', 't', '_'),
    }
}

proof fn lemma_mark(m: Metric)
    ensures
        mark(m) == (
            m.name_of().len() as int,
            m.name_of()[10],
            m.name_of()[11],
            m.name_of()[15],
        ),
{
    match m {
        Metric::Ingress => reveal_strlit("rpcrouter_chain_ingress_requests_total"),
        Metric::IngressRejected => reveal_strlit("rpcrouter_ingress_rejected_total"),
        Metric::InFlight => reveal_strlit("rpcrouter_in_flight_requests"),
        Metric::CacheLookups => reveal_strlit("rpcrouter_cache_lookups_total"),
        Metric::CacheHits => reveal_strlit("rpcrouter_cache_hits_total"),
        Metric::CacheHitRatio => reveal_strlit("rpcrouter_cache_hit_ratio"),
        Metric::CacheMisses => reveal_strlit("rpcrouter_cache_misses_total"),
        Metric::Coalesced => reveal_strlit("rpcrouter_coalesced_requests_total"),
        Metric::CoalesceRatio => reveal_strlit("rpcrouter_coalesce_ratio"),
        Metric::Upstream => reveal_strlit("rpcrouter_chain_upstream_requests_total"),
        Metric::UserVisibleErrors => reveal_strlit("rpcrouter_user_visible_errors_total"),
        Metric::ColdStartFailures => reveal_strlit("rpcrouter_cold_start_failures_total"),
        Metric::Latency => reveal_strlit("rpcrouter_request_latency_seconds"),
        Metric::FailoverDepth => reveal_strlit("rpcrouter_failover_depth"),
        Metric::HedgeAttempts => reveal_strlit("rpcrouter_hedge_attempts_total"),
        Metric::HedgeRatio => reveal_strlit("rpcrouter_hedge_ratio"),
        Metric::EndpointRequests => reveal_strlit("rpcrouter_endpoint_requests_total"),
        Metric::EndpointRateLimited => reveal_strlit("rpcrouter_endpoint_rate_limited_total"),
        Metric::EndpointCoolingEvents => reveal_strlit("rpcrouter_endpoint_cooling_events_total"),
        Metric::EndpointState => reveal_strlit("rpcrouter_endpoint_state"),
        Metric::ChainState => reveal_strlit("rpcrouter_chains"),
        Metric::ChainPinned => reveal_strlit("rpcrouter_chain_pinned"),
        Metric::CatalogChains => reveal_strlit("rpcrouter_catalog_chains"),
        Metric::CatalogEndpoints => reveal_strlit("rpcrouter_catalog_endpoints"),
        Metric::CatalogRecordsSkipped => reveal_strlit("rpcrouter_catalog_records_skipped_total"),
        Metric::ProbeQueueDepth => reveal_strlit("rpcrouter_probe_queue_depth"),
        Metric::AutoEnableChains => reveal_strlit("rpcrouter_auto_enable_chains"),
        Metric::AutoEnableCandidates => reveal_strlit("rpcrouter_auto_enable_candidates"),
        Metric::AutoEnablePromotions => reveal_strlit("rpcrouter_auto_enable_promotions_total"),
        Metric::AutoEnableProbeFailures => reveal_strlit("rpcrouter_auto_enable_probe_failures_total"),
        Metric::ProbeInFlight => reveal_strlit("rpcrouter_probe_in_flight"),
        Metric::ChainlistLastRefresh => reveal_strlit("rpcrouter_chainlist_last_refresh_timestamp_seconds"),
        Metric::ChainlistRefreshTotal => reveal_strlit("rpcrouter_chainlist_refresh_total"),
        Metric::ChainActivations => reveal_strlit("rpcrouter_chain_activations_total"),
        Metric::ChainDemotions => reveal_strlit("rpcrouter_chain_demotions_total"),
        Metric::BackgroundTaskRestarts => reveal_strlit("rpcrouter_background_task_restarts_total"),
        Metric::StateStoreUp => reveal_strlit("rpcrouter_state_store_up"),
        Metric::StateFlushTotal => reveal_strlit("rpcrouter_state_flush_total"),
        Metric::StateFlushDuration => reveal_strlit("rpcrouter_state_flush_duration_seconds"),
        Metric::StateDirtyEndpoints => reveal_strlit("rpcrouter_state_dirty_endpoints"),
    }
}

/// No two measurements share a name.
pub proof fn lemma_names_are_distinct(a: Metric, b: Metric)
    requires
        a.name_of() == b.name_of(),
    ensures
        a == b,
{
    lemma_mark(a);
    lemma_mark(b);
}

/// The name of every metric begins alike; the names of counters, and of no other, end in `_total`, and those
/// of ratios in `_ratio`.
pub proof fn lemma_names_tell_the_kind(m: Metric)
    ensures
        m.name_of().len() >= 16,
        m.name_of().take(10) == "rpcrouter_"@,
        m.kind_of() is Counter <==> m.name_of().skip(m.name_of().len() - 6) == "_total"@,
        m.kind_of() is Ratio <==> m.name_of().skip(m.name_of().len() - 6) == "_ratio"@,
{
    reveal_strlit("rpcrouter_");
    reveal_strlit("_total");
    reveal_strlit("_ratio");
    lemma_mark(m);
    let n = m.name_of();
    match m {
        Metric::Ingress => reveal_strlit("rpcrouter_chain_ingress_requests_total"),
        Metric::IngressRejected => reveal_strlit("rpcrouter_ingress_rejected_total"),
        Metric::InFlight => reveal_strlit("rpcrouter_in_flight_requests"),
        Metric::CacheLookups => reveal_strlit("rpcrouter_cache_lookups_total"),
        Metric::CacheHits => reveal_strlit("rpcrouter_cache_hits_total"),
        Metric::CacheHitRatio => reveal_strlit("rpcrouter_cache_hit_ratio"),
        Metric::CacheMisses => reveal_strlit("rpcrouter_cache_misses_total"),
        Metric::Coalesced => reveal_strlit("rpcrouter_coalesced_requests_total"),
        Metric::CoalesceRatio => reveal_strlit("rpcrouter_coalesce_ratio"),
        Metric::Upstream => reveal_strlit("rpcrouter_chain_upstream_requests_total"),
        Metric::UserVisibleErrors => reveal_strlit("rpcrouter_user_visible_errors_total"),
        Metric::ColdStartFailures => reveal_strlit("rpcrouter_cold_start_failures_total"),
        Metric::Latency => reveal_strlit("rpcrouter_request_latency_seconds"),
        Metric::FailoverDepth => reveal_strlit("rpcrouter_failover_depth"),
        Metric::HedgeAttempts => reveal_strlit("rpcrouter_hedge_attempts_total"),
        Metric::HedgeRatio => reveal_strlit("rpcrouter_hedge_ratio"),
        Metric::EndpointRequests => reveal_strlit("rpcrouter_endpoint_requests_total"),
        Metric::EndpointRateLimited => reveal_strlit("rpcrouter_endpoint_rate_limited_total"),
        Metric::EndpointCoolingEvents => reveal_strlit("rpcrouter_endpoint_cooling_events_total"),
        Metric::EndpointState => reveal_strlit("rpcrouter_endpoint_state"),
        Metric::ChainState => reveal_strlit("rpcrouter_chains"),
        Metric::ChainPinned => reveal_strlit("rpcrouter_chain_pinned"),
        Metric::CatalogChains => reveal_strlit("rpcrouter_catalog_chains"),
        Metric::CatalogEndpoints => reveal_strlit("rpcrouter_catalog_endpoints"),
        Metric::CatalogRecordsSkipped => reveal_strlit("rpcrouter_catalog_records_skipped_total"),
        Metric::ProbeQueueDepth => reveal_strlit("rpcrouter_probe_queue_depth"),
        Metric::AutoEnableChains => reveal_strlit("rpcrouter_auto_enable_chains"),
        Metric::AutoEnableCandidates => reveal_strlit("rpcrouter_auto_enable_candidates"),
        Metric::AutoEnablePromotions => reveal_strlit("rpcrouter_auto_enable_promotions_total"),
        Metric::AutoEnableProbeFailures => reveal_strlit("rpcrouter_auto_enable_probe_failures_total"),
        Metric::ProbeInFlight => reveal_strlit("rpcrouter_probe_in_flight"),
        Metric::ChainlistLastRefresh => reveal_strlit("rpcrouter_chainlist_last_refresh_timestamp_seconds"),
        Metric::ChainlistRefreshTotal => reveal_strlit("rpcrouter_chainlist_refresh_total"),
        Metric::ChainActivations => reveal_strlit("rpcrouter_chain_activations_total"),
        Metric::ChainDemotions => reveal_strlit("rpcrouter_chain_demotions_total"),
        Metric::BackgroundTaskRestarts => reveal_strlit("rpcrouter_background_task_restarts_total"),
        Metric::StateStoreUp => reveal_strlit("rpcrouter_state_store_up"),
        Metric::StateFlushTotal => reveal_strlit("rpcrouter_state_flush_total"),
        Metric::StateFlushDuration => reveal_strlit("rpcrouter_state_flush_duration_seconds"),
        Metric::StateDirtyEndpoints => reveal_strlit("rpcrouter_state_dirty_endpoints"),
    }
    assert(n.take(10) =~= "rpcrouter_"@);
    let end = n.skip(n.len() - 6);
    if m.kind_of() is Counter {
        assert(end =~= "_total"@);
    }
    if m.kind_of() is Ratio {
        assert(end =~= "_ratio"@);
    }
    assert(end[4] == n[n.len() - 2] && end[5] == n[n.len() - 1] && end[1] == n[n.len() - 5]);
    assert("_total"@[1] == 't' && "_total"@[5] == 'l' && "_ratio"@[1] == 'r' && "_ratio"@[5] == 'o');
}

/// What the series of a metric are told apart by.
pub proof fn lemma_labels_of_metrics(m: Metric)
    ensures
        m is IngressRejected || m is ChainDemotions ==> m.labels_of().labels()
            == seq!["reason"@],
        m is InFlight || m is CatalogChains || m is CatalogEndpoints
            || m is CatalogRecordsSkipped || m is ProbeQueueDepth || m is AutoEnableChains
            || m is AutoEnableCandidates || m is AutoEnablePromotions
            || m is AutoEnableProbeFailures || m is ProbeInFlight || m is ChainlistLastRefresh
            || m is ChainActivations || m is StateStoreUp || m is StateFlushDuration
            || m is StateDirtyEndpoints ==> m.labels_of().labels()
            == Seq::<Seq<char>>::empty(),
        m is Upstream || m is EndpointRequests || m is EndpointRateLimited
            || m is EndpointCoolingEvents ==> m.labels_of().labels()
            == seq!["chain_id"@, "endpoint"@],
        m is EndpointState ==> m.labels_of().labels()
            == seq!["chain_id"@, "endpoint"@, "state"@],
        m is ChainState ==> m.labels_of().labels()
            == seq!["state"@],
        m is ChainlistRefreshTotal ==> m.labels_of().labels()
            == seq!["source"@],
        m is BackgroundTaskRestarts ==> m.labels_of().labels()
            == seq!["task"@],
        m is StateFlushTotal ==> m.labels_of().labels()
            == seq!["result"@],
        m is Ingress || m is CacheLookups || m is CacheHits || m is CacheHitRatio
            || m is CacheMisses || m is Coalesced || m is CoalesceRatio || m is UserVisibleErrors
            || m is ColdStartFailures || m is Latency || m is FailoverDepth || m is HedgeAttempts
            || m is HedgeRatio || m is ChainPinned ==> m.labels_of().labels()
            == seq!["chain_id"@],
{
}

} // verus!
