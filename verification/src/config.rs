//! Gateway configuration: its parts, their defaults, what makes it valid, and the values in force for
//! a chain or an endpoint.
use crate::text;
use vstd::prelude::*;

verus! {

/// The largest number of calls in one batch.
pub const MAX_BATCH_SIZE: usize = 100;

/// Largest request body by default (256 KiB).
pub const DEFAULT_MAX_BODY_BYTES: usize = 262_144;

/// Requests under way at once by default.
pub const DEFAULT_MAX_CONCURRENT_REQUESTS: usize = 1024;

/// How long a shutdown waits by default for requests under way (10 seconds).
pub const DEFAULT_SHUTDOWN_DEADLINE_MS: u64 = 10_000;

/// What the names of the environment variables that override settings begin with.
pub const ENV_PREFIX: &'static str = "RPCROUTER_";

/// Everything that can be configured.
#[derive(Clone, Debug)]
pub struct Config {
    /// The socket address to listen on.
    pub listen: String,
    pub metrics_enabled: bool,
    /// Chains that are in service from the start and are never demoted.
    pub chains: Vec<u64>,
    pub server: ServerConfig,
    pub chainlist: ChainlistConfig,
    pub discovery: DiscoveryConfig,
    pub upstream: UpstreamConfig,
    pub probe: ProbeConfig,
    pub cache: CacheConfig,
    pub hedging: HedgingConfig,
    pub chain_overrides: Vec<ChainOverride>,
    pub state: StateConfig,
    pub admin: AdminConfig,
}

#[derive(Clone, Debug)]
pub struct ServerConfig {
    pub batch_limit: usize,
    /// How long a shutdown waits for requests under way, in milliseconds.
    pub shutdown_deadline_ms: u64,
    pub max_body_bytes: usize,
    pub max_concurrent_requests: usize,
    pub per_ip_rate_limit: PerIpRateLimitConfig,
    /// The bearer token that guards the metrics; none leaves them open.
    pub metrics_auth_token: Option<String>,
}

/// The request limit per client address, off by default.
#[derive(Clone, Copy, Debug)]
pub struct PerIpRateLimitConfig {
    pub enabled: bool,
    pub requests_per_second: u64,
    pub burst: u64,
}

#[derive(Clone, Debug)]
pub struct ChainlistConfig {
    pub url: String,
    pub refresh_seconds: u64,
    /// How long an endpoint that left the chain list is kept.
    pub stale_grace_seconds: u64,
    pub cache_path: String,
}

/// Use of the whole chain catalog.
#[derive(Clone, Debug)]
pub struct DiscoveryConfig {
    /// Without it only the configured chains are served.
    pub enabled: bool,
    pub include_testnets: bool,
    /// Chains that are refused.
    pub deny: Vec<u64>,
    /// How many chains may be hot at once without being pinned.
    pub max_hot_chains: usize,
    /// Seconds without traffic after which a chain that is not pinned is demoted.
    pub idle_seconds: u64,
    pub auto_enable: AutoEnableConfig,
}

/// When chains of the catalog are put into service on their own.
#[derive(Clone, Copy, Debug)]
pub struct AutoEnableConfig {
    pub enabled: bool,
    pub min_endpoints: usize,
    pub max_chains: usize,
    pub max_candidates: usize,
    pub max_endpoints_per_chain: usize,
    pub candidate_interval_seconds: u64,
    pub probe_batch: usize,
    pub probe_concurrency: usize,
    pub promote_after_rounds: usize,
    pub min_active_endpoints: usize,
    pub head_tolerance_blocks: u64,
}

#[derive(Clone, Copy, Debug)]
pub struct UpstreamConfig {
    pub request_timeout_ms: u64,
    pub slow_threshold_ms: u64,
    pub deadline_ms: u64,
    pub max_attempts: usize,
    pub default_rps: u32,
    pub default_concurrency: usize,
}

/// Settings of one chain.
#[derive(Clone, Debug)]
pub struct ChainOverride {
    pub chain_id: u64,
    pub block_time_ms: Option<u64>,
    pub confirmation_depth: Option<u64>,
    pub tip_ttl_ms: Option<u64>,
    pub max_block_lag: Option<u64>,
    pub extra_endpoints: Vec<String>,
    pub disabled_endpoints: Vec<String>,
    pub endpoint_overrides: Vec<EndpointOverride>,
}

/// Limits of one endpoint of a chain.
#[derive(Clone, Debug)]
pub struct EndpointOverride {
    pub url: String,
    pub rps: Option<u32>,
    pub concurrency: Option<usize>,
}

#[derive(Clone, Copy, Debug)]
pub struct ProbeConfig {
    pub min_interval_seconds: u64,
    pub max_interval_seconds: u64,
    pub max_concurrency: usize,
    pub request_timeout_ms: u64,
    pub max_block_lag: u64,
}

#[derive(Clone, Copy, Debug)]
pub struct CacheConfig {
    pub max_bytes: u64,
    pub immutable_ttl_seconds: u64,
}

#[derive(Clone, Copy, Debug)]
pub struct HedgingConfig {
    pub enabled: bool,
    pub delay_ms: u64,
    pub max_percent: u32,
    pub min_active_endpoints: usize,
}

#[derive(Clone, Debug)]
pub struct StateConfig {
    pub backend: String,
    pub redis_url: String,
    pub namespace: String,
    pub required: bool,
    pub flush_interval_ms: u64,
    pub health_ttl_seconds: u64,
    pub reset: bool,
    pub restore_hot: bool,
    pub file_path: String,
}

#[derive(Clone, Debug)]
pub struct AdminConfig {
    pub enabled: bool,
    pub public_site: bool,
    pub auth_token: Option<String>,
    pub static_dir: Option<String>,
    pub cors_allow_origins: Vec<String>,
    pub allow_private_endpoints: bool,
}

pub open spec fn default_per_ip_rate_limit() -> PerIpRateLimitConfig {
    PerIpRateLimitConfig { enabled: false, requests_per_second: 20, burst: 40 }
}

impl Default for PerIpRateLimitConfig {
    fn default() -> (c: Self)
        ensures
            c == default_per_ip_rate_limit(),
    {
        PerIpRateLimitConfig { enabled: false, requests_per_second: 20, burst: 40 }
    }
}

pub open spec fn default_server() -> ServerConfig {
    ServerConfig {
        batch_limit: MAX_BATCH_SIZE,
        shutdown_deadline_ms: DEFAULT_SHUTDOWN_DEADLINE_MS,
        max_body_bytes: DEFAULT_MAX_BODY_BYTES,
        max_concurrent_requests: DEFAULT_MAX_CONCURRENT_REQUESTS,
        per_ip_rate_limit: default_per_ip_rate_limit(),
        metrics_auth_token: None,
    }
}

impl Default for ServerConfig {
    fn default() -> (c: Self)
        ensures
            c == default_server(),
    {
        ServerConfig {
            batch_limit: MAX_BATCH_SIZE,
            shutdown_deadline_ms: DEFAULT_SHUTDOWN_DEADLINE_MS,
            max_body_bytes: DEFAULT_MAX_BODY_BYTES,
            max_concurrent_requests: DEFAULT_MAX_CONCURRENT_REQUESTS,
            per_ip_rate_limit: PerIpRateLimitConfig::default(),
            metrics_auth_token: None,
        }
    }
}

pub open spec fn is_default_chainlist(c: ChainlistConfig) -> bool {
    &&& c.url@ == "https://chainlist.org/rpcs.json"@
    &&& c.refresh_seconds == 3600
    &&& c.stale_grace_seconds == 86_400
    &&& c.cache_path@ == "./data/rpcs.json"@
}

impl Default for ChainlistConfig {
    fn default() -> (c: Self)
        ensures
            is_default_chainlist(c),
    {
        ChainlistConfig {
            url: "https://chainlist.org/rpcs.json".to_owned(),
            refresh_seconds: 3600,
            stale_grace_seconds: 86_400,
            cache_path: "./data/rpcs.json".to_owned(),
        }
    }
}

pub open spec fn default_auto_enable() -> AutoEnableConfig {
    AutoEnableConfig {
        enabled: true,
        min_endpoints: 5,
        max_chains: 400,
        max_candidates: 512,
        max_endpoints_per_chain: 8,
        candidate_interval_seconds: 30,
        probe_batch: 32,
        probe_concurrency: 8,
        promote_after_rounds: 2,
        min_active_endpoints: 2,
        head_tolerance_blocks: 64,
    }
}

impl Default for AutoEnableConfig {
    fn default() -> (c: Self)
        ensures
            c == default_auto_enable(),
    {
        AutoEnableConfig {
            enabled: true,
            min_endpoints: 5,
            max_chains: 400,
            max_candidates: 512,
            max_endpoints_per_chain: 8,
            candidate_interval_seconds: 30,
            probe_batch: 32,
            probe_concurrency: 8,
            promote_after_rounds: 2,
            min_active_endpoints: 2,
            head_tolerance_blocks: 64,
        }
    }
}

pub open spec fn is_default_discovery(c: DiscoveryConfig) -> bool {
    &&& c.enabled
    &&& c.include_testnets
    &&& c.deny@.len() == 0
    &&& c.max_hot_chains == 256
    &&& c.idle_seconds == 600
    &&& c.auto_enable == default_auto_enable()
}

impl Default for DiscoveryConfig {
    fn default() -> (c: Self)
        ensures
            is_default_discovery(c),
    {
        DiscoveryConfig {
            enabled: true,
            include_testnets: true,
            deny: Vec::new(),
            max_hot_chains: 256,
            idle_seconds: 600,
            auto_enable: AutoEnableConfig::default(),
        }
    }
}

pub open spec fn default_upstream() -> UpstreamConfig {
    UpstreamConfig {
        request_timeout_ms: 5_000,
        slow_threshold_ms: 4_000,
        deadline_ms: 15_000,
        max_attempts: 4,
        default_rps: 15,
        default_concurrency: 8,
    }
}

impl Default for UpstreamConfig {
    fn default() -> (c: Self)
        ensures
            c == default_upstream(),
    {
        UpstreamConfig {
            request_timeout_ms: 5_000,
            slow_threshold_ms: 4_000,
            deadline_ms: 15_000,
            max_attempts: 4,
            default_rps: 15,
            default_concurrency: 8,
        }
    }
}

pub open spec fn is_default_chain_override(c: ChainOverride) -> bool {
    &&& c.chain_id == 0
    &&& c.block_time_ms is None
    &&& c.confirmation_depth is None
    &&& c.tip_ttl_ms is None
    &&& c.max_block_lag is None
    &&& c.extra_endpoints@.len() == 0
    &&& c.disabled_endpoints@.len() == 0
    &&& c.endpoint_overrides@.len() == 0
}

impl Default for ChainOverride {
    fn default() -> (c: Self)
        ensures
            is_default_chain_override(c),
    {
        ChainOverride {
            chain_id: 0,
            block_time_ms: None,
            confirmation_depth: None,
            tip_ttl_ms: None,
            max_block_lag: None,
            extra_endpoints: Vec::new(),
            disabled_endpoints: Vec::new(),
            endpoint_overrides: Vec::new(),
        }
    }
}

pub open spec fn default_probe() -> ProbeConfig {
    ProbeConfig {
        min_interval_seconds: 15,
        max_interval_seconds: 30,
        max_concurrency: 32,
        request_timeout_ms: 5_000,
        max_block_lag: 5,
    }
}

impl Default for ProbeConfig {
    fn default() -> (c: Self)
        ensures
            c == default_probe(),
    {
        ProbeConfig {
            min_interval_seconds: 15,
            max_interval_seconds: 30,
            max_concurrency: 32,
            request_timeout_ms: 5_000,
            max_block_lag: 5,
        }
    }
}

pub open spec fn default_cache() -> CacheConfig {
    CacheConfig { max_bytes: 536_870_912, immutable_ttl_seconds: 3_600 }
}

impl Default for CacheConfig {
    fn default() -> (c: Self)
        ensures
            c == default_cache(),
    {
        CacheConfig { max_bytes: 536_870_912, immutable_ttl_seconds: 3_600 }
    }
}

pub open spec fn default_hedging() -> HedgingConfig {
    HedgingConfig { enabled: true, delay_ms: 300, max_percent: 10, min_active_endpoints: 2 }
}

impl Default for HedgingConfig {
    fn default() -> (c: Self)
        ensures
            c == default_hedging(),
    {
        HedgingConfig { enabled: true, delay_ms: 300, max_percent: 10, min_active_endpoints: 2 }
    }
}

pub open spec fn is_default_state(c: StateConfig) -> bool {
    &&& c.backend@ == "redis"@
    &&& c.redis_url@ == "redis://127.0.0.1:6379/0"@
    &&& c.namespace@ == "rpcrouter"@
    &&& !c.required
    &&& c.flush_interval_ms == 2_000
    &&& c.health_ttl_seconds == 86_400
    &&& !c.reset
    &&& c.restore_hot
    &&& c.file_path@ == "./data/state.json"@
}

impl Default for StateConfig {
    fn default() -> (c: Self)
        ensures
            is_default_state(c),
    {
        StateConfig {
            backend: "redis".to_owned(),
            redis_url: "redis://127.0.0.1:6379/0".to_owned(),
            namespace: "rpcrouter".to_owned(),
            required: false,
            flush_interval_ms: 2_000,
            health_ttl_seconds: 86_400,
            reset: false,
            restore_hot: true,
            file_path: "./data/state.json".to_owned(),
        }
    }
}

pub open spec fn is_default_admin(c: AdminConfig) -> bool {
    &&& c.enabled
    &&& c.public_site
    &&& c.auth_token is None
    &&& c.static_dir is None
    &&& c.cors_allow_origins@.len() == 0
    &&& !c.allow_private_endpoints
}

impl Default for AdminConfig {
    fn default() -> (c: Self)
        ensures
            is_default_admin(c),
    {
        AdminConfig {
            enabled: true,
            public_site: true,
            auth_token: None,
            static_dir: None,
            cors_allow_origins: Vec::new(),
            allow_private_endpoints: false,
        }
    }
}

/// The configuration that is in force where nothing is configured.
pub open spec fn is_default(c: Config) -> bool {
    &&& c.listen@ == "0.0.0.0:8545"@
    &&& c.metrics_enabled
    &&& c.chains@ == seq![1u64, 143u64]
    &&& c.server == default_server()
    &&& is_default_chainlist(c.chainlist)
    &&& is_default_discovery(c.discovery)
    &&& c.upstream == default_upstream()
    &&& c.probe == default_probe()
    &&& c.cache == default_cache()
    &&& c.hedging == default_hedging()
    &&& c.chain_overrides@.len() == 0
    &&& is_default_state(c.state)
    &&& is_default_admin(c.admin)
}

impl Default for Config {
    fn default() -> (c: Self)
        ensures
            is_default(c),
    {
        let mut chains: Vec<u64> = Vec::new();
        chains.push(1);
        chains.push(143);
        assert(chains@ =~= seq![1u64, 143u64]);
        Config {
            listen: "0.0.0.0:8545".to_owned(),
            metrics_enabled: true,
            chains,
            server: ServerConfig::default(),
            chainlist: ChainlistConfig::default(),
            discovery: DiscoveryConfig::default(),
            upstream: UpstreamConfig::default(),
            probe: ProbeConfig::default(),
            cache: CacheConfig::default(),
            hedging: HedgingConfig::default(),
            chain_overrides: Vec::new(),
            state: StateConfig::default(),
            admin: AdminConfig::default(),
        }
    }
}

/// What is wrong with a configuration.
#[derive(Clone, Copy, Debug, PartialEq, Eq, Structural)]
pub enum ConfigFault {
    NoChains,
    DuplicateChains,
    DeniedPinnedChain,
    BatchLimit,
    MaxBodyBytes,
    MaxConcurrentRequests,
    ShutdownDeadline,
    PerIpRateLimit,
    EmptyMetricsToken,
    MetricsToken,
    RefreshSeconds,
    MaxHotChains,
    AutoEnableLimits,
    StateBackend,
    StateNamespace,
    StateIntervals,
    AdminToken,
    CorsWildcard,
    IdleSeconds,
    UpstreamTimeouts,
    SlowThreshold,
    MaxAttempts,
    UpstreamLimits,
    ProbeInterval,
    ProbeLimits,
    Cache,
    Hedging,
    EndpointLimits,
}

impl ConfigFault {
    pub open spec fn says(self) -> Seq<char> {
        match self {
            ConfigFault::NoChains => "chains must not be empty when discovery is disabled"@,
            ConfigFault::DuplicateChains => "chains must not contain duplicates"@,
            ConfigFault::DeniedPinnedChain => "discovery.deny must not contain pinned chains"@,
            ConfigFault::BatchLimit => "server.batch_limit must be between 1 and 100"@,
            ConfigFault::MaxBodyBytes => "server.max_body_bytes must be greater than zero"@,
            ConfigFault::MaxConcurrentRequests =>
                "server.max_concurrent_requests must be greater than zero"@,
            ConfigFault::ShutdownDeadline =>
                "server.shutdown_deadline_ms must be greater than zero"@,
            ConfigFault::PerIpRateLimit =>
                "per_ip_rate_limit rate and burst must be greater than zero"@,
            ConfigFault::EmptyMetricsToken => "server.metrics_auth_token must not be empty"@,
            ConfigFault::MetricsToken =>
                "server.metrics_auth_token contains characters not allowed in an HTTP header value"@,
            ConfigFault::RefreshSeconds => "chainlist.refresh_seconds must be greater than zero"@,
            ConfigFault::MaxHotChains => "discovery.max_hot_chains must be greater than zero"@,
            ConfigFault::AutoEnableLimits =>
                "discovery.auto_enable numeric limits must be greater than zero"@,
            ConfigFault::StateBackend => "state.backend must be redis, file, or memory"@,
            ConfigFault::StateNamespace => "state.namespace must not be empty"@,
            ConfigFault::StateIntervals => "state intervals must be greater than zero"@,
            ConfigFault::AdminToken => "admin.auth_token is not a valid HTTP header value"@,
            ConfigFault::CorsWildcard =>
                "admin.cors_allow_origins '*' cannot be used with admin.auth_token"@,
            ConfigFault::IdleSeconds => "discovery.idle_seconds must be greater than zero"@,
            ConfigFault::UpstreamTimeouts => "upstream timeouts must be greater than zero"@,
            ConfigFault::SlowThreshold => "upstream.slow_threshold_ms must be greater than zero"@,
            ConfigFault::MaxAttempts => "upstream.max_attempts must be between 1 and 4"@,
            ConfigFault::UpstreamLimits =>
                "upstream rate and concurrency limits must be greater than zero"@,
            ConfigFault::ProbeInterval => "probe interval must be a valid nonzero range"@,
            ConfigFault::ProbeLimits => "probe concurrency and timeout must be greater than zero"@,
            ConfigFault::Cache =>
                "cache capacity must be nonzero and immutable TTL must be at least one hour"@,
            ConfigFault::Hedging =>
                "hedging requires a delay, max_percent 1..=10, and at least two endpoints"@,
            ConfigFault::EndpointLimits => "endpoint limits must be greater than zero"@,
        }
    }

    /// The fault in words.
    pub fn message(&self) -> (m: String)
        ensures
            m@ == self.says(),
    {
        let m = match self {
            ConfigFault::NoChains => "chains must not be empty when discovery is disabled",
            ConfigFault::DuplicateChains => "chains must not contain duplicates",
            ConfigFault::DeniedPinnedChain => "discovery.deny must not contain pinned chains",
            ConfigFault::BatchLimit => "server.batch_limit must be between 1 and 100",
            ConfigFault::MaxBodyBytes => "server.max_body_bytes must be greater than zero",
            ConfigFault::MaxConcurrentRequests =>
                "server.max_concurrent_requests must be greater than zero",
            ConfigFault::ShutdownDeadline =>
                "server.shutdown_deadline_ms must be greater than zero",
            ConfigFault::PerIpRateLimit =>
                "per_ip_rate_limit rate and burst must be greater than zero",
            ConfigFault::EmptyMetricsToken => "server.metrics_auth_token must not be empty",
            ConfigFault::MetricsToken =>
                "server.metrics_auth_token contains characters not allowed in an HTTP header value",
            ConfigFault::RefreshSeconds => "chainlist.refresh_seconds must be greater than zero",
            ConfigFault::MaxHotChains => "discovery.max_hot_chains must be greater than zero",
            ConfigFault::AutoEnableLimits =>
                "discovery.auto_enable numeric limits must be greater than zero",
            ConfigFault::StateBackend => "state.backend must be redis, file, or memory",
            ConfigFault::StateNamespace => "state.namespace must not be empty",
            ConfigFault::StateIntervals => "state intervals must be greater than zero",
            ConfigFault::AdminToken => "admin.auth_token is not a valid HTTP header value",
            ConfigFault::CorsWildcard =>
                "admin.cors_allow_origins '*' cannot be used with admin.auth_token",
            ConfigFault::IdleSeconds => "discovery.idle_seconds must be greater than zero",
            ConfigFault::UpstreamTimeouts => "upstream timeouts must be greater than zero",
            ConfigFault::SlowThreshold => "upstream.slow_threshold_ms must be greater than zero",
            ConfigFault::MaxAttempts => "upstream.max_attempts must be between 1 and 4",
            ConfigFault::UpstreamLimits =>
                "upstream rate and concurrency limits must be greater than zero",
            ConfigFault::ProbeInterval => "probe interval must be a valid nonzero range",
            ConfigFault::ProbeLimits => "probe concurrency and timeout must be greater than zero",
            ConfigFault::Cache =>
                "cache capacity must be nonzero and immutable TTL must be at least one hour",
            ConfigFault::Hedging =>
                "hedging requires a delay, max_percent 1..=10, and at least two endpoints",
            ConfigFault::EndpointLimits => "endpoint limits must be greater than zero",
        };
        m.to_owned()
    }
}

/// A byte that an HTTP header value must not hold: a control character other than the tab.
pub open spec fn header_control(byte: u8) -> bool {
    (byte < 0x20 && byte != 0x09) || byte == 0x7f
}

pub fn is_header_control(byte: u8) -> (r: bool)
    ensures
        r == header_control(byte),
{
    (byte < 0x20 && byte != 0x09) || byte == 0x7f
}

/// Whether a text, encoded in UTF-8, holds a byte that an HTTP header value must not hold.
pub open spec fn has_header_control(s: Seq<char>) -> bool {
    exists|i: int|
        0 <= i < vstd::utf8::encode_utf8(s).len() && header_control(
            #[trigger] vstd::utf8::encode_utf8(s)[i],
        )
}

fn holds_header_control(s: &str) -> (r: bool)
    ensures
        r == has_header_control(s@),
{
    let bytes = s.as_bytes();
    let mut i: usize = 0;
    while i < bytes.len()
        invariant
            i <= bytes@.len(),
            bytes@ == vstd::utf8::encode_utf8(s@),
            forall|j: int| 0 <= j < i ==> !header_control(#[trigger] vstd::utf8::encode_utf8(s@)[j]),
        decreases bytes@.len() - i,
    {
        if is_header_control(bytes[i]) {
            assert(header_control(vstd::utf8::encode_utf8(s@)[i as int]));
            return true;
        }
        i = i + 1;
    }
    false
}

pub open spec fn deny_hits_pinned(c: Config) -> bool {
    exists|i: int|
        0 <= i < c.discovery.deny@.len() && c.chains@.contains(#[trigger] c.discovery.deny@[i])
}

pub open spec fn allows_any_origin(c: AdminConfig) -> bool {
    exists|i: int|
        0 <= i < c.cors_allow_origins@.len() && (#[trigger] c.cors_allow_origins@[i])@ == "*"@
}

pub open spec fn zero_limit(e: EndpointOverride) -> bool {
    e.rps == Some(0u32) || e.concurrency == Some(0usize)
}

pub open spec fn has_zero_limit(o: ChainOverride) -> bool {
    exists|i: int|
        0 <= i < o.endpoint_overrides@.len() && zero_limit(#[trigger] o.endpoint_overrides@[i])
}

pub open spec fn any_zero_limit(c: Config) -> bool {
    exists|i: int|
        0 <= i < c.chain_overrides@.len() && has_zero_limit(#[trigger] c.chain_overrides@[i])
}

/// The first thing that is wrong with a configuration, if anything is.
pub open spec fn first_fault(c: Config) -> Option<ConfigFault> {
    let a = c.discovery.auto_enable;
    if !c.discovery.enabled && c.chains@.len() == 0 {
        Some(ConfigFault::NoChains)
    } else if !c.chains@.no_duplicates() {
        Some(ConfigFault::DuplicateChains)
    } else if deny_hits_pinned(c) {
        Some(ConfigFault::DeniedPinnedChain)
    } else if !(1 <= c.server.batch_limit <= MAX_BATCH_SIZE) {
        Some(ConfigFault::BatchLimit)
    } else if c.server.max_body_bytes == 0 {
        Some(ConfigFault::MaxBodyBytes)
    } else if c.server.max_concurrent_requests == 0 {
        Some(ConfigFault::MaxConcurrentRequests)
    } else if c.server.shutdown_deadline_ms == 0 {
        Some(ConfigFault::ShutdownDeadline)
    } else if c.server.per_ip_rate_limit.enabled && (
    c.server.per_ip_rate_limit.requests_per_second == 0 || c.server.per_ip_rate_limit.burst == 0) {
        Some(ConfigFault::PerIpRateLimit)
    } else if c.server.metrics_auth_token matches Some(t) && t@.len() == 0 {
        Some(ConfigFault::EmptyMetricsToken)
    } else if c.server.metrics_auth_token matches Some(t) && has_header_control(t@) {
        Some(ConfigFault::MetricsToken)
    } else if c.chainlist.refresh_seconds == 0 {
        Some(ConfigFault::RefreshSeconds)
    } else if c.discovery.max_hot_chains == 0 {
        Some(ConfigFault::MaxHotChains)
    } else if a.min_endpoints == 0 || a.max_chains == 0 || a.probe_batch == 0
        || a.promote_after_rounds == 0 || a.probe_concurrency == 0 {
        Some(ConfigFault::AutoEnableLimits)
    } else if c.state.backend@ != "redis"@ && c.state.backend@ != "file"@ && c.state.backend@
        != "memory"@ {
        Some(ConfigFault::StateBackend)
    } else if text::trimmed(c.state.namespace@).len() == 0 {
        Some(ConfigFault::StateNamespace)
    } else if c.state.flush_interval_ms == 0 || c.state.health_ttl_seconds == 0 {
        Some(ConfigFault::StateIntervals)
    } else if c.admin.auth_token matches Some(t) && (t@.len() == 0 || has_header_control(t@)) {
        Some(ConfigFault::AdminToken)
    } else if c.admin.auth_token is Some && allows_any_origin(c.admin) {
        Some(ConfigFault::CorsWildcard)
    } else if c.discovery.idle_seconds == 0 {
        Some(ConfigFault::IdleSeconds)
    } else if c.upstream.request_timeout_ms == 0 || c.upstream.deadline_ms == 0 {
        Some(ConfigFault::UpstreamTimeouts)
    } else if c.upstream.slow_threshold_ms == 0 {
        Some(ConfigFault::SlowThreshold)
    } else if !(1 <= c.upstream.max_attempts <= 4) {
        Some(ConfigFault::MaxAttempts)
    } else if c.upstream.default_rps == 0 || c.upstream.default_concurrency == 0 {
        Some(ConfigFault::UpstreamLimits)
    } else if !(1 <= c.probe.min_interval_seconds <= c.probe.max_interval_seconds) {
        Some(ConfigFault::ProbeInterval)
    } else if c.probe.max_concurrency == 0 || c.probe.request_timeout_ms == 0 {
        Some(ConfigFault::ProbeLimits)
    } else if c.cache.max_bytes == 0 || c.cache.immutable_ttl_seconds < 3_600 {
        Some(ConfigFault::Cache)
    } else if c.hedging.delay_ms == 0 || !(1 <= c.hedging.max_percent <= 10)
        || c.hedging.min_active_endpoints < 2 {
        Some(ConfigFault::Hedging)
    } else if any_zero_limit(c) {
        Some(ConfigFault::EndpointLimits)
    } else {
        None
    }
}

fn has_duplicates(v: &Vec<u64>) -> (r: bool)
    ensures
        r == !v@.no_duplicates(),
{
    let mut i: usize = 0;
    while i < v.len()
        invariant
            i <= v@.len(),
            forall|a: int, b: int| 0 <= a < b < i ==> v@[a] != v@[b],
        decreases v@.len() - i,
    {
        let mut j: usize = 0;
        while j < i
            invariant
                j <= i < v@.len(),
                forall|a: int| 0 <= a < j ==> v@[a] != v@[i as int],
            decreases i - j,
        {
            if v[j] == v[i] {
                return true;
            }
            j = j + 1;
        }
        i = i + 1;
    }
    false
}

/// Whether a number is in a list.
pub fn contains_id(v: &Vec<u64>, id: u64) -> (r: bool)
    ensures
        r == v@.contains(id),
{
    let mut i: usize = 0;
    while i < v.len()
        invariant
            i <= v@.len(),
            forall|a: int| 0 <= a < i ==> v@[a] != id,
        decreases v@.len() - i,
    {
        if v[i] == id {
            return true;
        }
        i = i + 1;
    }
    false
}

/// Whether a text is in a list of texts.
pub open spec fn lists_text(v: Seq<String>, s: Seq<char>) -> bool {
    exists|i: int| 0 <= i < v.len() && (#[trigger] v[i])@ == s
}

pub fn contains_text(v: &Vec<String>, s: &str) -> (r: bool)
    ensures
        r == lists_text(v@, s@),
{
    let mut i: usize = 0;
    while i < v.len()
        invariant
            i <= v@.len(),
            forall|a: int| 0 <= a < i ==> (#[trigger] v@[a])@ != s@,
        decreases v@.len() - i,
    {
        if text::same(v[i].as_str(), s) {
            return true;
        }
        i = i + 1;
    }
    false
}

/// The first override for a chain.
pub open spec fn override_in(list: Seq<ChainOverride>, chain_id: u64) -> Option<ChainOverride>
    decreases list.len(),
{
    if list.len() == 0 {
        None
    } else if list[0].chain_id == chain_id {
        Some(list[0])
    } else {
        override_in(list.skip(1), chain_id)
    }
}

/// The first limits given for a URL.
pub open spec fn limits_in(list: Seq<EndpointOverride>, url: Seq<char>) -> Option<EndpointOverride>
    decreases list.len(),
{
    if list.len() == 0 {
        None
    } else if list[0].url@ == url {
        Some(list[0])
    } else {
        limits_in(list.skip(1), url)
    }
}

impl Config {
    /// The settings of a chain, if it has any of its own.
    pub open spec fn override_for(self, chain_id: u64) -> Option<ChainOverride> {
        override_in(self.chain_overrides@, chain_id)
    }

    pub open spec fn limits_for(self, chain_id: u64, url: Seq<char>) -> (u32, usize) {
        let found = match self.override_for(chain_id) {
            Some(o) => limits_in(o.endpoint_overrides@, url),
            None => None,
        };
        (
            match found {
                Some(EndpointOverride { rps: Some(n), .. }) => n,
                _ => self.upstream.default_rps,
            },
            match found {
                Some(EndpointOverride { concurrency: Some(n), .. }) => n,
                _ => self.upstream.default_concurrency,
            },
        )
    }

    pub open spec fn lag_for(self, chain_id: u64) -> u64 {
        match self.override_for(chain_id) {
            Some(ChainOverride { max_block_lag: Some(n), .. }) => n,
            _ => self.probe.max_block_lag,
        }
    }

    pub open spec fn depth_for(self, chain_id: u64) -> u64 {
        match self.override_for(chain_id) {
            Some(ChainOverride { confirmation_depth: Some(n), .. }) => n,
            _ => 64,
        }
    }

    pub open spec fn block_time_for(self, chain_id: u64) -> u64 {
        match self.override_for(chain_id) {
            Some(ChainOverride { block_time_ms: Some(n), .. }) => n,
            _ => if chain_id == 1 {
                12_000
            } else if chain_id == 143 {
                400
            } else {
                2_000
            },
        }
    }

    pub open spec fn tip_ttl_for(self, chain_id: u64) -> u64 {
        match self.override_for(chain_id) {
            Some(ChainOverride { tip_ttl_ms: Some(n), .. }) => n,
            _ => if self.block_time_for(chain_id) < 2_000 {
                self.block_time_for(chain_id)
            } else {
                2_000
            },
        }
    }

    /// The URLs that are configured as switched off for a chain.
    pub open spec fn switched_off(self, chain_id: u64, url: Seq<char>) -> bool {
        self.override_for(chain_id) matches Some(o) && lists_text(o.disabled_endpoints@, url)
    }

    /// Checks the configuration; where several things are wrong, the first in the fixed order of the
    /// checks is reported.
    pub fn validate(&self) -> (r: Result<(), ConfigFault>)
        ensures
            match r {
                Ok(()) => first_fault(*self) is None,
                Err(f) => first_fault(*self) == Some(f),
            },
    {
        if !self.discovery.enabled && self.chains.len() == 0 {
            return Err(ConfigFault::NoChains);
        }
        if has_duplicates(&self.chains) {
            return Err(ConfigFault::DuplicateChains);
        }
        if self.denies_pinned() {
            return Err(ConfigFault::DeniedPinnedChain);
        }
        if self.server.batch_limit == 0 || self.server.batch_limit > MAX_BATCH_SIZE {
            return Err(ConfigFault::BatchLimit);
        }
        if self.server.max_body_bytes == 0 {
            return Err(ConfigFault::MaxBodyBytes);
        }
        if self.server.max_concurrent_requests == 0 {
            return Err(ConfigFault::MaxConcurrentRequests);
        }
        if self.server.shutdown_deadline_ms == 0 {
            return Err(ConfigFault::ShutdownDeadline);
        }
        if self.server.per_ip_rate_limit.enabled && (
        self.server.per_ip_rate_limit.requests_per_second == 0
            || self.server.per_ip_rate_limit.burst == 0) {
            return Err(ConfigFault::PerIpRateLimit);
        }
        if let Some(token) = &self.server.metrics_auth_token {
            if token.as_str().is_empty() {
                return Err(ConfigFault::EmptyMetricsToken);
            }
            if holds_header_control(token.as_str()) {
                return Err(ConfigFault::MetricsToken);
            }
        }
        if self.chainlist.refresh_seconds == 0 {
            return Err(ConfigFault::RefreshSeconds);
        }
        if self.discovery.max_hot_chains == 0 {
            return Err(ConfigFault::MaxHotChains);
        }
        let a = &self.discovery.auto_enable;
        if a.min_endpoints == 0 || a.max_chains == 0 || a.probe_batch == 0
            || a.promote_after_rounds == 0 || a.probe_concurrency == 0 {
            return Err(ConfigFault::AutoEnableLimits);
        }
        let backend = self.state.backend.as_str();
        if !text::same(backend, "redis") && !text::same(backend, "file") && !text::same(
            backend,
            "memory",
        ) {
            return Err(ConfigFault::StateBackend);
        }
        if text::is_blank(self.state.namespace.as_str()) {
            return Err(ConfigFault::StateNamespace);
        }
        if self.state.flush_interval_ms == 0 || self.state.health_ttl_seconds == 0 {
            return Err(ConfigFault::StateIntervals);
        }
        if let Some(token) = &self.admin.auth_token {
            if token.as_str().is_empty() || holds_header_control(token.as_str()) {
                return Err(ConfigFault::AdminToken);
            }
            if contains_text(&self.admin.cors_allow_origins, "*") {
                return Err(ConfigFault::CorsWildcard);
            }
        }
        if self.discovery.idle_seconds == 0 {
            return Err(ConfigFault::IdleSeconds);
        }
        if self.upstream.request_timeout_ms == 0 || self.upstream.deadline_ms == 0 {
            return Err(ConfigFault::UpstreamTimeouts);
        }
        if self.upstream.slow_threshold_ms == 0 {
            return Err(ConfigFault::SlowThreshold);
        }
        if self.upstream.max_attempts == 0 || self.upstream.max_attempts > 4 {
            return Err(ConfigFault::MaxAttempts);
        }
        if self.upstream.default_rps == 0 || self.upstream.default_concurrency == 0 {
            return Err(ConfigFault::UpstreamLimits);
        }
        if self.probe.min_interval_seconds == 0 || self.probe.max_interval_seconds
            < self.probe.min_interval_seconds {
            return Err(ConfigFault::ProbeInterval);
        }
        if self.probe.max_concurrency == 0 || self.probe.request_timeout_ms == 0 {
            return Err(ConfigFault::ProbeLimits);
        }
        if self.cache.max_bytes == 0 || self.cache.immutable_ttl_seconds < 3_600 {
            return Err(ConfigFault::Cache);
        }
        if self.hedging.delay_ms == 0 || self.hedging.max_percent == 0 || self.hedging.max_percent
            > 10 || self.hedging.min_active_endpoints < 2 {
            return Err(ConfigFault::Hedging);
        }
        if self.limits_a_zero() {
            return Err(ConfigFault::EndpointLimits);
        }
        Ok(())
    }

    fn denies_pinned(&self) -> (r: bool)
        ensures
            r == deny_hits_pinned(*self),
    {
        let mut i: usize = 0;
        while i < self.discovery.deny.len()
            invariant
                i <= self.discovery.deny@.len(),
                forall|k: int|
                    0 <= k < i ==> !self.chains@.contains(#[trigger] self.discovery.deny@[k]),
            decreases self.discovery.deny@.len() - i,
        {
            if contains_id(&self.chains, self.discovery.deny[i]) {
                assert(self.chains@.contains(self.discovery.deny@[i as int]));
                return true;
            }
            i = i + 1;
        }
        false
    }

    fn limits_a_zero(&self) -> (r: bool)
        ensures
            r == any_zero_limit(*self),
    {
        let mut i: usize = 0;
        while i < self.chain_overrides.len()
            invariant
                i <= self.chain_overrides@.len(),
                forall|k: int| 0 <= k < i ==> !has_zero_limit(#[trigger] self.chain_overrides@[k]),
            decreases self.chain_overrides@.len() - i,
        {
            let list = &self.chain_overrides[i].endpoint_overrides;
            let mut j: usize = 0;
            while j < list.len()
                invariant
                    j <= list@.len(),
                    i < self.chain_overrides@.len(),
                    list@ == self.chain_overrides@[i as int].endpoint_overrides@,
                    forall|k: int| 0 <= k < j ==> !zero_limit(#[trigger] list@[k]),
                decreases list@.len() - j,
            {
                let none_left: bool = match list[j].rps {
                    Some(n) => n == 0,
                    None => false,
                } || match list[j].concurrency {
                    Some(n) => n == 0,
                    None => false,
                };
                if none_left {
                    assert(zero_limit(
                        self.chain_overrides@[i as int].endpoint_overrides@[j as int],
                    ));
                    assert(has_zero_limit(self.chain_overrides@[i as int]));
                    return true;
                }
                j = j + 1;
            }
            i = i + 1;
        }
        false
    }

    pub fn chain_override(&self, chain_id: u64) -> (o: Option<&ChainOverride>)
        ensures
            match o {
                Some(c) => self.override_for(chain_id) == Some(*c),
                None => self.override_for(chain_id) is None,
            },
    {
        let mut i: usize = 0;
        assert(self.chain_overrides@.skip(0) =~= self.chain_overrides@);
        while i < self.chain_overrides.len()
            invariant
                i <= self.chain_overrides@.len(),
                self.override_for(chain_id) == override_in(
                    self.chain_overrides@.skip(i as int),
                    chain_id,
                ),
            decreases self.chain_overrides@.len() - i,
        {
            if self.chain_overrides[i].chain_id == chain_id {
                return Some(&self.chain_overrides[i]);
            }
            assert(self.chain_overrides@.skip(i as int).skip(1) =~= self.chain_overrides@.skip(
                i + 1,
            ));
            i = i + 1;
        }
        None
    }

    /// Requests per second and requests at once that an endpoint may be sent.
    pub fn endpoint_limits(&self, chain_id: u64, url: &str) -> (l: (u32, usize))
        ensures
            l == self.limits_for(chain_id, url@),
    {
        if let Some(o) = self.chain_override(chain_id) {
            let list = &o.endpoint_overrides;
            let mut i: usize = 0;
            assert(list@.skip(0) =~= list@);
            while i < list.len()
                invariant
                    i <= list@.len(),
                    limits_in(list@, url@) == limits_in(list@.skip(i as int), url@),
                    self.override_for(chain_id) == Some(*o),
                    list@ == o.endpoint_overrides@,
                decreases list@.len() - i,
            {
                if text::same(list[i].url.as_str(), url) {
                    return (
                        match list[i].rps {
                            Some(n) => n,
                            None => self.upstream.default_rps,
                        },
                        match list[i].concurrency {
                            Some(n) => n,
                            None => self.upstream.default_concurrency,
                        },
                    );
                }
                assert(list@.skip(i as int).skip(1) =~= list@.skip(i + 1));
                i = i + 1;
            }
        }
        (self.upstream.default_rps, self.upstream.default_concurrency)
    }

    /// How many blocks an endpoint may be away from the head of its chain.
    pub fn lag_threshold(&self, chain_id: u64) -> (n: u64)
        ensures
            n == self.lag_for(chain_id),
    {
        match self.chain_override(chain_id) {
            Some(o) => match o.max_block_lag {
                Some(n) => n,
                None => self.probe.max_block_lag,
            },
            None => self.probe.max_block_lag,
        }
    }

    pub fn confirmation_depth(&self, chain_id: u64) -> (n: u64)
        ensures
            n == self.depth_for(chain_id),
    {
        match self.chain_override(chain_id) {
            Some(o) => match o.confirmation_depth {
                Some(n) => n,
                None => 64,
            },
            None => 64,
        }
    }

    pub fn block_time_ms(&self, chain_id: u64) -> (n: u64)
        ensures
            n == self.block_time_for(chain_id),
    {
        let known: u64 = match chain_id {
            1 => 12_000,
            143 => 400,
            _ => 2_000,
        };
        match self.chain_override(chain_id) {
            Some(o) => match o.block_time_ms {
                Some(n) => n,
                None => known,
            },
            None => known,
        }
    }

    pub fn tip_ttl_ms(&self, chain_id: u64) -> (n: u64)
        ensures
            n == self.tip_ttl_for(chain_id),
    {
        if let Some(o) = self.chain_override(chain_id) {
            if let Some(n) = o.tip_ttl_ms {
                return n;
            }
        }
        let block_time: u64 = self.block_time_ms(chain_id);
        if block_time < 2_000 {
            block_time
        } else {
            2_000
        }
    }

    /// Whether an endpoint is configured as switched off.
    pub fn is_switched_off(&self, chain_id: u64, url: &str) -> (r: bool)
        ensures
            r == self.switched_off(chain_id, url@),
    {
        match self.chain_override(chain_id) {
            Some(o) => contains_text(&o.disabled_endpoints, url),
            None => false,
        }
    }
}

/// The default configuration is valid.
pub proof fn lemma_default_is_valid(c: Config)
    requires
        is_default(c),
    ensures
        first_fault(c) is None,
{
    reveal_strlit("redis");
    reveal_strlit("rpcrouter");
    let ns = c.state.namespace@;
    assert(ns.len() == 9);
    assert(ns[0] == 'r' && ns[8] == 'r');
    assert(text::trim_front(ns) == ns);
    assert(text::trim_back(ns) == ns);
}

} // verus!
