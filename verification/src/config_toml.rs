//! Reading the configuration from TOML. Every setting may be left out; a table may also be written as
//! an array of its settings in their order.
use crate::config::{
    AdminConfig, AutoEnableConfig, CacheConfig, ChainOverride, ChainlistConfig, Config,
    DiscoveryConfig, EndpointOverride, HedgingConfig, PerIpRateLimitConfig, ProbeConfig,
    ServerConfig, StateConfig, UpstreamConfig,
};
use crate::config_env::ConfigError;
use crate::json::{self, Json};
use vstd::prelude::*;

verus! {

/// Whether a document can hold settings.
pub open spec fn is_table(j: Json) -> bool {
    j is Object || j is Array
}

/// The setting with the given name; in an array, the one at its place.
pub open spec fn member(j: Json, name: Seq<char>, place: int) -> Option<Json> {
    match j {
        Json::Object(fields) => json::lookup(fields@, name),
        Json::Array(items) => if place < items@.len() {
            Some(items@[place])
        } else {
            None
        },
        _ => None,
    }
}

fn find<'a>(j: &'a Json, name: &str, place: usize) -> (m: Option<&'a Json>)
    ensures
        match m {
            Some(v) => member(*j, name@, place as int) == Some(*v),
            None => member(*j, name@, place as int) is None,
        },
{
    match j {
        Json::Array(items) => if place < items.len() {
            Some(&items[place])
        } else {
            None
        },
        _ => j.get(name),
    }
}

/// A whole number of at most `max`, `default` where the setting is left out, nothing where it is
/// something else.
pub open spec fn number_at(j: Json, name: Seq<char>, place: int, max: int, default: int) -> Option<
    int,
> {
    match member(j, name, place) {
        None => Some(default),
        Some(v) => match v.whole() {
            Some(n) if n <= max => Some(n as int),
            _ => None,
        },
    }
}

/// As `number_at`, for a setting that has no default.
pub open spec fn optional_number_at(j: Json, name: Seq<char>, place: int, max: int) -> Option<
    Option<int>,
> {
    match member(j, name, place) {
        None => Some(None),
        Some(v) => match v.whole() {
            Some(n) if n <= max => Some(Some(n as int)),
            _ => None,
        },
    }
}

pub open spec fn bool_at(j: Json, name: Seq<char>, place: int, default: bool) -> Option<bool> {
    match member(j, name, place) {
        None => Some(default),
        Some(v) => v.truth(),
    }
}

pub open spec fn text_at(j: Json, name: Seq<char>, place: int, default: Seq<char>) -> Option<
    Seq<char>,
> {
    match member(j, name, place) {
        None => Some(default),
        Some(v) => v.text(),
    }
}

pub open spec fn optional_text_at(j: Json, name: Seq<char>, place: int) -> Option<
    Option<Seq<char>>,
> {
    match member(j, name, place) {
        None => Some(None),
        Some(v) => match v.text() {
            Some(s) => Some(Some(s)),
            None => None,
        },
    }
}

/// The characters of an optional text.
pub open spec fn characters(s: Option<String>) -> Option<Seq<char>> {
    match s {
        Some(t) => Some(t@),
        None => None,
    }
}

pub open spec fn all_whole(items: Seq<Json>) -> bool {
    forall|i: int| 0 <= i < items.len() ==> (#[trigger] items[i]).whole() is Some
}

pub open spec fn all_text(items: Seq<Json>) -> bool {
    forall|i: int| 0 <= i < items.len() ==> (#[trigger] items[i]).text() is Some
}

/// A list of whole numbers.
pub open spec fn numbers_at(j: Json, name: Seq<char>, place: int, default: Seq<u64>) -> Option<
    Seq<u64>,
> {
    match member(j, name, place) {
        None => Some(default),
        Some(Json::Array(items)) => if all_whole(items@) {
            Some(items@.map_values(|v: Json| v.whole()->0))
        } else {
            None
        },
        _ => None,
    }
}

/// A list of texts.
pub open spec fn texts_at(j: Json, name: Seq<char>, place: int) -> Option<Seq<Seq<char>>> {
    match member(j, name, place) {
        None => Some(Seq::empty()),
        Some(Json::Array(items)) => if all_text(items@) {
            Some(items@.map_values(|v: Json| v.text()->0))
        } else {
            None
        },
        _ => None,
    }
}

fn read_u64(j: &Json, name: &str, place: usize, default: u64) -> (r: Option<u64>)
    ensures
        match r {
            Some(n) => number_at(*j, name@, place as int, u64::MAX as int, default as int) == Some(
                n as int,
            ),
            None => number_at(*j, name@, place as int, u64::MAX as int, default as int) is None,
        },
{
    match find(j, name, place) {
        None => Some(default),
        Some(v) => v.as_whole(),
    }
}

fn read_u32(j: &Json, name: &str, place: usize, default: u32) -> (r: Option<u32>)
    ensures
        match r {
            Some(n) => number_at(*j, name@, place as int, u32::MAX as int, default as int) == Some(
                n as int,
            ),
            None => number_at(*j, name@, place as int, u32::MAX as int, default as int) is None,
        },
{
    match find(j, name, place) {
        None => Some(default),
        Some(v) => match v.as_whole() {
            Some(n) if n <= u32::MAX as u64 => Some(n as u32),
            _ => None,
        },
    }
}

fn read_usize(j: &Json, name: &str, place: usize, default: usize) -> (r: Option<usize>)
    ensures
        match r {
            Some(n) => number_at(*j, name@, place as int, usize::MAX as int, default as int)
                == Some(n as int),
            None => number_at(*j, name@, place as int, usize::MAX as int, default as int) is None,
        },
{
    match find(j, name, place) {
        None => Some(default),
        Some(v) => match v.as_whole() {
            Some(n) if n <= usize::MAX as u64 => Some(n as usize),
            _ => None,
        },
    }
}

/// A number that may be absent, as contracts speak of it.
pub open spec fn wide(n: Option<u64>) -> Option<int> {
    match n {
        Some(v) => Some(v as int),
        None => None,
    }
}

fn read_optional(j: &Json, name: &str, place: usize, max: u64) -> (r: Option<Option<u64>>)
    ensures
        match r {
            Some(n) => optional_number_at(*j, name@, place as int, max as int) == Some(wide(n)),
            None => optional_number_at(*j, name@, place as int, max as int) is None,
        },
        r matches Some(Some(n)) ==> n <= max,
{
    match find(j, name, place) {
        None => Some(None),
        Some(v) => match v.as_whole() {
            Some(n) if n <= max => Some(Some(n)),
            _ => None,
        },
    }
}

fn read_bool(j: &Json, name: &str, place: usize, default: bool) -> (r: Option<bool>)
    ensures
        r == bool_at(*j, name@, place as int, default),
{
    match find(j, name, place) {
        None => Some(default),
        Some(v) => v.as_truth(),
    }
}

fn read_text(j: &Json, name: &str, place: usize, default: &str) -> (r: Option<String>)
    ensures
        characters(r) == text_at(*j, name@, place as int, default@),
{
    match find(j, name, place) {
        None => Some(default.to_owned()),
        Some(v) => match v.as_text() {
            Some(s) => Some(s.clone()),
            None => None,
        },
    }
}

fn read_optional_text(j: &Json, name: &str, place: usize) -> (r: Option<Option<String>>)
    ensures
        match r {
            Some(s) => optional_text_at(*j, name@, place as int) == Some(characters(s)),
            None => optional_text_at(*j, name@, place as int) is None,
        },
{
    match find(j, name, place) {
        None => Some(None),
        Some(v) => match v.as_text() {
            Some(s) => Some(Some(s.clone())),
            None => None,
        },
    }
}

fn read_numbers(j: &Json, name: &str, place: usize, default: Vec<u64>) -> (r: Option<Vec<u64>>)
    ensures
        match r {
            Some(v) => numbers_at(*j, name@, place as int, default@) == Some(v@),
            None => numbers_at(*j, name@, place as int, default@) is None,
        },
{
    match find(j, name, place) {
        None => Some(default),
        Some(Json::Array(items)) => {
            let mut v: Vec<u64> = Vec::new();
            let mut i: usize = 0;
            while i < items.len()
                invariant
                    i <= items@.len(),
                    v@.len() == i,
                    member(*j, name@, place as int) == Some(Json::Array(*items)),
                    forall|k: int| 0 <= k < i ==> (#[trigger] items@[k]).whole() == Some(v@[k]),
                decreases items@.len() - i,
            {
                match items[i].as_whole() {
                    Some(n) => {
                        v.push(n);
                    },
                    None => {
                        assert(items@[i as int].whole() is None);
                        assert(!all_whole(items@));
                        return None;
                    },
                }
                i = i + 1;
            }
            assert(v@ =~= items@.map_values(|x: Json| x.whole()->0));
            Some(v)
        },
        _ => None,
    }
}

fn read_texts(j: &Json, name: &str, place: usize) -> (r: Option<Vec<String>>)
    ensures
        match r {
            Some(v) => texts_at(*j, name@, place as int) == Some(v@.map_values(|s: String| s@)),
            None => texts_at(*j, name@, place as int) is None,
        },
{
    match find(j, name, place) {
        None => {
            let v: Vec<String> = Vec::new();
            assert(v@.map_values(|s: String| s@) =~= Seq::<Seq<char>>::empty());
            Some(v)
        },
        Some(Json::Array(items)) => {
            let mut v: Vec<String> = Vec::new();
            let mut i: usize = 0;
            while i < items.len()
                invariant
                    i <= items@.len(),
                    v@.len() == i,
                    member(*j, name@, place as int) == Some(Json::Array(*items)),
                    forall|k: int| 0 <= k < i ==> (#[trigger] items@[k]).text() == Some(v@[k]@),
                decreases items@.len() - i,
            {
                match items[i].as_text() {
                    Some(s) => {
                        v.push(s.clone());
                    },
                    None => {
                        assert(items@[i as int].text() is None);
                        assert(!all_text(items@));
                        return None;
                    },
                }
                i = i + 1;
            }
            assert(v@.map_values(|s: String| s@) =~= items@.map_values(|x: Json| x.text()->0));
            Some(v)
        },
        _ => None,
    }
}

/// How the limit per client address is read; nothing where the document is no such table.
pub open spec fn rate_limit_read(j: Json, r: Option<PerIpRateLimitConfig>) -> bool {
    let enabled = bool_at(j, "enabled"@, 0, false);
    let rate = number_at(j, "requests_per_second"@, 1, u64::MAX as int, 20);
    let burst = number_at(j, "burst"@, 2, u64::MAX as int, 40);
    match r {
        Some(c) => is_table(j) && enabled == Some(c.enabled) && rate == Some(
            c.requests_per_second as int,
        ) && burst == Some(c.burst as int),
        None => !is_table(j) || enabled is None || rate is None || burst is None,
    }
}

fn decode_rate_limit(j: &Json) -> (r: Option<PerIpRateLimitConfig>)
    ensures
        rate_limit_read(*j, r),
{
    if !matches!(j, Json::Object(_) | Json::Array(_)) {
        return None;
    }
    Some(
        PerIpRateLimitConfig {
            enabled: read_bool(j, "enabled", 0, false)?,
            requests_per_second: read_u64(j, "requests_per_second", 1, 20)?,
            burst: read_u64(j, "burst", 2, 40)?,
        },
    )
}

pub open spec fn server_read(j: Json, r: Option<ServerConfig>) -> bool {
    let batch = number_at(j, "batch_limit"@, 0, usize::MAX as int, 100);
    let deadline = number_at(j, "shutdown_deadline_ms"@, 1, u64::MAX as int, 10_000);
    let body = number_at(j, "max_body_bytes"@, 2, usize::MAX as int, 262_144);
    let concurrent = number_at(j, "max_concurrent_requests"@, 3, usize::MAX as int, 1024);
    let limit = member(j, "per_ip_rate_limit"@, 4);
    let token = optional_text_at(j, "metrics_auth_token"@, 5);
    match r {
        Some(c) => is_table(j) && batch == Some(c.batch_limit as int) && deadline == Some(
            c.shutdown_deadline_ms as int,
        ) && body == Some(c.max_body_bytes as int) && concurrent == Some(
            c.max_concurrent_requests as int,
        ) && (match limit {
            Some(l) => rate_limit_read(l, Some(c.per_ip_rate_limit)),
            None => c.per_ip_rate_limit == crate::config::default_per_ip_rate_limit(),
        }) && token == Some(characters(c.metrics_auth_token)),
        None => !is_table(j) || batch is None || deadline is None || body is None || concurrent
            is None || (limit matches Some(l) && rate_limit_read(l, None)) || token is None,
    }
}

fn decode_server(j: &Json) -> (r: Option<ServerConfig>)
    ensures
        server_read(*j, r),
{
    if !matches!(j, Json::Object(_) | Json::Array(_)) {
        return None;
    }
    Some(
        ServerConfig {
            batch_limit: read_usize(j, "batch_limit", 0, 100)?,
            shutdown_deadline_ms: read_u64(j, "shutdown_deadline_ms", 1, 10_000)?,
            max_body_bytes: read_usize(j, "max_body_bytes", 2, 262_144)?,
            max_concurrent_requests: read_usize(j, "max_concurrent_requests", 3, 1024)?,
            per_ip_rate_limit: match find(j, "per_ip_rate_limit", 4) {
                Some(l) => decode_rate_limit(l)?,
                None => PerIpRateLimitConfig::default(),
            },
            metrics_auth_token: read_optional_text(j, "metrics_auth_token", 5)?,
        },
    )
}

pub open spec fn chainlist_read(j: Json, r: Option<ChainlistConfig>) -> bool {
    let url = text_at(j, "url"@, 0, "https://chainlist.org/rpcs.json"@);
    let refresh = number_at(j, "refresh_seconds"@, 1, u64::MAX as int, 3600);
    let grace = number_at(j, "stale_grace_seconds"@, 2, u64::MAX as int, 86_400);
    let path = text_at(j, "cache_path"@, 3, "./data/rpcs.json"@);
    match r {
        Some(c) => is_table(j) && url == Some(c.url@) && refresh == Some(c.refresh_seconds as int)
            && grace == Some(c.stale_grace_seconds as int) && path == Some(c.cache_path@),
        None => !is_table(j) || url is None || refresh is None || grace is None || path is None,
    }
}

fn decode_chainlist(j: &Json) -> (r: Option<ChainlistConfig>)
    ensures
        chainlist_read(*j, r),
{
    if !matches!(j, Json::Object(_) | Json::Array(_)) {
        return None;
    }
    Some(
        ChainlistConfig {
            url: read_text(j, "url", 0, "https://chainlist.org/rpcs.json")?,
            refresh_seconds: read_u64(j, "refresh_seconds", 1, 3600)?,
            stale_grace_seconds: read_u64(j, "stale_grace_seconds", 2, 86_400)?,
            cache_path: read_text(j, "cache_path", 3, "./data/rpcs.json")?,
        },
    )
}

pub open spec fn auto_enable_read(j: Json, r: Option<AutoEnableConfig>) -> bool {
    let enabled = bool_at(j, "enabled"@, 0, true);
    let endpoints = number_at(j, "min_endpoints"@, 1, usize::MAX as int, 5);
    let chains = number_at(j, "max_chains"@, 2, usize::MAX as int, 400);
    let candidates = number_at(j, "max_candidates"@, 3, usize::MAX as int, 512);
    let sampled = number_at(j, "max_endpoints_per_chain"@, 4, usize::MAX as int, 8);
    let interval = number_at(j, "candidate_interval_seconds"@, 5, u64::MAX as int, 30);
    let batch = number_at(j, "probe_batch"@, 6, usize::MAX as int, 32);
    let concurrency = number_at(j, "probe_concurrency"@, 7, usize::MAX as int, 8);
    let rounds = number_at(j, "promote_after_rounds"@, 8, usize::MAX as int, 2);
    let active = number_at(j, "min_active_endpoints"@, 9, usize::MAX as int, 2);
    let tolerance = number_at(j, "head_tolerance_blocks"@, 10, u64::MAX as int, 64);
    match r {
        Some(c) => is_table(j) && enabled == Some(c.enabled) && endpoints == Some(
            c.min_endpoints as int,
        ) && chains == Some(c.max_chains as int) && candidates == Some(c.max_candidates as int)
            && sampled == Some(c.max_endpoints_per_chain as int) && interval == Some(
            c.candidate_interval_seconds as int,
        ) && batch == Some(c.probe_batch as int) && concurrency == Some(c.probe_concurrency as int)
            && rounds == Some(c.promote_after_rounds as int) && active == Some(
            c.min_active_endpoints as int,
        ) && tolerance == Some(c.head_tolerance_blocks as int),
        None => !is_table(j) || enabled is None || endpoints is None || chains is None || candidates
            is None || sampled is None || interval is None || batch is None || concurrency is None
            || rounds is None || active is None || tolerance is None,
    }
}

fn decode_auto_enable(j: &Json) -> (r: Option<AutoEnableConfig>)
    ensures
        auto_enable_read(*j, r),
{
    if !matches!(j, Json::Object(_) | Json::Array(_)) {
        return None;
    }
    Some(
        AutoEnableConfig {
            enabled: read_bool(j, "enabled", 0, true)?,
            min_endpoints: read_usize(j, "min_endpoints", 1, 5)?,
            max_chains: read_usize(j, "max_chains", 2, 400)?,
            max_candidates: read_usize(j, "max_candidates", 3, 512)?,
            max_endpoints_per_chain: read_usize(j, "max_endpoints_per_chain", 4, 8)?,
            candidate_interval_seconds: read_u64(j, "candidate_interval_seconds", 5, 30)?,
            probe_batch: read_usize(j, "probe_batch", 6, 32)?,
            probe_concurrency: read_usize(j, "probe_concurrency", 7, 8)?,
            promote_after_rounds: read_usize(j, "promote_after_rounds", 8, 2)?,
            min_active_endpoints: read_usize(j, "min_active_endpoints", 9, 2)?,
            head_tolerance_blocks: read_u64(j, "head_tolerance_blocks", 10, 64)?,
        },
    )
}

pub open spec fn discovery_read(j: Json, r: Option<DiscoveryConfig>) -> bool {
    let enabled = bool_at(j, "enabled"@, 0, true);
    let testnets = bool_at(j, "include_testnets"@, 1, true);
    let deny = numbers_at(j, "deny"@, 2, Seq::empty());
    let hot = number_at(j, "max_hot_chains"@, 3, usize::MAX as int, 256);
    let idle = number_at(j, "idle_seconds"@, 4, u64::MAX as int, 600);
    let auto_enable = member(j, "auto_enable"@, 5);
    match r {
        Some(c) => is_table(j) && enabled == Some(c.enabled) && testnets == Some(c.include_testnets)
            && deny == Some(c.deny@) && hot == Some(c.max_hot_chains as int) && idle == Some(
            c.idle_seconds as int,
        ) && (match auto_enable {
            Some(a) => auto_enable_read(a, Some(c.auto_enable)),
            None => c.auto_enable == crate::config::default_auto_enable(),
        }),
        None => !is_table(j) || enabled is None || testnets is None || deny is None || hot is None
            || idle is None || (auto_enable matches Some(a) && auto_enable_read(a, None)),
    }
}

fn decode_discovery(j: &Json) -> (r: Option<DiscoveryConfig>)
    ensures
        discovery_read(*j, r),
{
    if !matches!(j, Json::Object(_) | Json::Array(_)) {
        return None;
    }
    let none: Vec<u64> = Vec::new();
    assert(none@ =~= Seq::<u64>::empty());
    Some(
        DiscoveryConfig {
            enabled: read_bool(j, "enabled", 0, true)?,
            include_testnets: read_bool(j, "include_testnets", 1, true)?,
            deny: read_numbers(j, "deny", 2, none)?,
            max_hot_chains: read_usize(j, "max_hot_chains", 3, 256)?,
            idle_seconds: read_u64(j, "idle_seconds", 4, 600)?,
            auto_enable: match find(j, "auto_enable", 5) {
                Some(a) => decode_auto_enable(a)?,
                None => AutoEnableConfig::default(),
            },
        },
    )
}

pub open spec fn upstream_read(j: Json, r: Option<UpstreamConfig>) -> bool {
    let timeout = number_at(j, "request_timeout_ms"@, 0, u64::MAX as int, 5_000);
    let slow = number_at(j, "slow_threshold_ms"@, 1, u64::MAX as int, 4_000);
    let deadline = number_at(j, "deadline_ms"@, 2, u64::MAX as int, 15_000);
    let attempts = number_at(j, "max_attempts"@, 3, usize::MAX as int, 4);
    let rps = number_at(j, "default_rps"@, 4, u32::MAX as int, 15);
    let concurrency = number_at(j, "default_concurrency"@, 5, usize::MAX as int, 8);
    match r {
        Some(c) => is_table(j) && timeout == Some(c.request_timeout_ms as int) && slow == Some(
            c.slow_threshold_ms as int,
        ) && deadline == Some(c.deadline_ms as int) && attempts == Some(c.max_attempts as int)
            && rps == Some(c.default_rps as int) && concurrency == Some(
            c.default_concurrency as int,
        ),
        None => !is_table(j) || timeout is None || slow is None || deadline is None || attempts
            is None || rps is None || concurrency is None,
    }
}

fn decode_upstream(j: &Json) -> (r: Option<UpstreamConfig>)
    ensures
        upstream_read(*j, r),
{
    if !matches!(j, Json::Object(_) | Json::Array(_)) {
        return None;
    }
    Some(
        UpstreamConfig {
            request_timeout_ms: read_u64(j, "request_timeout_ms", 0, 5_000)?,
            slow_threshold_ms: read_u64(j, "slow_threshold_ms", 1, 4_000)?,
            deadline_ms: read_u64(j, "deadline_ms", 2, 15_000)?,
            max_attempts: read_usize(j, "max_attempts", 3, 4)?,
            default_rps: read_u32(j, "default_rps", 4, 15)?,
            default_concurrency: read_usize(j, "default_concurrency", 5, 8)?,
        },
    )
}

pub open spec fn probe_read(j: Json, r: Option<ProbeConfig>) -> bool {
    let shortest = number_at(j, "min_interval_seconds"@, 0, u64::MAX as int, 15);
    let longest = number_at(j, "max_interval_seconds"@, 1, u64::MAX as int, 30);
    let concurrency = number_at(j, "max_concurrency"@, 2, usize::MAX as int, 32);
    let timeout = number_at(j, "request_timeout_ms"@, 3, u64::MAX as int, 5_000);
    let lag = number_at(j, "max_block_lag"@, 4, u64::MAX as int, 5);
    match r {
        Some(c) => is_table(j) && shortest == Some(c.min_interval_seconds as int) && longest
            == Some(c.max_interval_seconds as int) && concurrency == Some(c.max_concurrency as int)
            && timeout == Some(c.request_timeout_ms as int) && lag == Some(c.max_block_lag as int),
        None => !is_table(j) || shortest is None || longest is None || concurrency is None
            || timeout is None || lag is None,
    }
}

fn decode_probe(j: &Json) -> (r: Option<ProbeConfig>)
    ensures
        probe_read(*j, r),
{
    if !matches!(j, Json::Object(_) | Json::Array(_)) {
        return None;
    }
    Some(
        ProbeConfig {
            min_interval_seconds: read_u64(j, "min_interval_seconds", 0, 15)?,
            max_interval_seconds: read_u64(j, "max_interval_seconds", 1, 30)?,
            max_concurrency: read_usize(j, "max_concurrency", 2, 32)?,
            request_timeout_ms: read_u64(j, "request_timeout_ms", 3, 5_000)?,
            max_block_lag: read_u64(j, "max_block_lag", 4, 5)?,
        },
    )
}

pub open spec fn cache_read(j: Json, r: Option<CacheConfig>) -> bool {
    let bytes = number_at(j, "max_bytes"@, 0, u64::MAX as int, 536_870_912);
    let ttl = number_at(j, "immutable_ttl_seconds"@, 1, u64::MAX as int, 3_600);
    match r {
        Some(c) => is_table(j) && bytes == Some(c.max_bytes as int) && ttl == Some(
            c.immutable_ttl_seconds as int,
        ),
        None => !is_table(j) || bytes is None || ttl is None,
    }
}

fn decode_cache(j: &Json) -> (r: Option<CacheConfig>)
    ensures
        cache_read(*j, r),
{
    if !matches!(j, Json::Object(_) | Json::Array(_)) {
        return None;
    }
    Some(
        CacheConfig {
            max_bytes: read_u64(j, "max_bytes", 0, 536_870_912)?,
            immutable_ttl_seconds: read_u64(j, "immutable_ttl_seconds", 1, 3_600)?,
        },
    )
}

pub open spec fn hedging_read(j: Json, r: Option<HedgingConfig>) -> bool {
    let enabled = bool_at(j, "enabled"@, 0, true);
    let delay = number_at(j, "delay_ms"@, 1, u64::MAX as int, 300);
    let percent = number_at(j, "max_percent"@, 2, u32::MAX as int, 10);
    let active = number_at(j, "min_active_endpoints"@, 3, usize::MAX as int, 2);
    match r {
        Some(c) => is_table(j) && enabled == Some(c.enabled) && delay == Some(c.delay_ms as int)
            && percent == Some(c.max_percent as int) && active == Some(
            c.min_active_endpoints as int,
        ),
        None => !is_table(j) || enabled is None || delay is None || percent is None || active
            is None,
    }
}

fn decode_hedging(j: &Json) -> (r: Option<HedgingConfig>)
    ensures
        hedging_read(*j, r),
{
    if !matches!(j, Json::Object(_) | Json::Array(_)) {
        return None;
    }
    Some(
        HedgingConfig {
            enabled: read_bool(j, "enabled", 0, true)?,
            delay_ms: read_u64(j, "delay_ms", 1, 300)?,
            max_percent: read_u32(j, "max_percent", 2, 10)?,
            min_active_endpoints: read_usize(j, "min_active_endpoints", 3, 2)?,
        },
    )
}

/// The number of settings that an entry with the limits of an endpoint holds as an array.
pub open spec fn limits_complete(j: Json) -> bool {
    match j {
        Json::Array(items) => items@.len() >= 3,
        _ => true,
    }
}

pub open spec fn limits_read(j: Json, r: Option<EndpointOverride>) -> bool {
    let url = member(j, "url"@, 0);
    let rps = optional_number_at(j, "rps"@, 1, u32::MAX as int);
    let concurrency = optional_number_at(j, "concurrency"@, 2, usize::MAX as int);
    match r {
        Some(c) => is_table(j) && limits_complete(j) && (url matches Some(u) && u.text() == Some(
            c.url@,
        )) && rps == Some(
            match c.rps {
                Some(n) => Some(n as int),
                None => None::<int>,
            },
        ) && concurrency == Some(
            match c.concurrency {
                Some(n) => Some(n as int),
                None => None::<int>,
            },
        ),
        None => !is_table(j) || !limits_complete(j) || url is None || url->0.text() is None || rps
            is None || concurrency is None,
    }
}

fn decode_limits(j: &Json) -> (r: Option<EndpointOverride>)
    ensures
        limits_read(*j, r),
{
    match j {
        Json::Object(_) => {},
        Json::Array(items) => if items.len() < 3 {
            return None;
        },
        _ => {
            return None;
        },
    }
    let url: String = match find(j, "url", 0) {
        Some(v) => match v.as_text() {
            Some(s) => s.clone(),
            None => {
                return None;
            },
        },
        None => {
            return None;
        },
    };
    let rps: Option<u32> = match read_optional(j, "rps", 1, u32::MAX as u64)? {
        Some(n) => Some(n as u32),
        None => None,
    };
    let concurrency: Option<usize> = match read_optional(j, "concurrency", 2, usize::MAX as u64)? {
        Some(n) => Some(n as usize),
        None => None,
    };
    Some(EndpointOverride { url, rps, concurrency })
}

/// How a list of endpoint limits is read, entry by entry.
pub open spec fn limits_list_read(member: Option<Json>, r: Option<Seq<EndpointOverride>>) -> bool {
    match member {
        None => r matches Some(list) && list.len() == 0,
        Some(Json::Array(items)) => match r {
            Some(list) => list.len() == items@.len() && forall|i: int|
                0 <= i < list.len() ==> limits_read(#[trigger] items@[i], Some(list[i])),
            None => exists|i: int|
                0 <= i < items@.len() && limits_read(#[trigger] items@[i], None),
        },
        Some(_) => r is None,
    }
}

fn decode_limits_list(j: &Json, name: &str, place: usize) -> (r: Option<Vec<EndpointOverride>>)
    ensures
        match r {
            Some(v) => limits_list_read(member(*j, name@, place as int), Some(v@)),
            None => limits_list_read(member(*j, name@, place as int), None),
        },
{
    let mut v: Vec<EndpointOverride> = Vec::new();
    match find(j, name, place) {
        None => Some(v),
        Some(Json::Array(items)) => {
            let mut i: usize = 0;
            while i < items.len()
                invariant
                    i <= items@.len(),
                    v@.len() == i,
                    member(*j, name@, place as int) == Some(Json::Array(*items)),
                    forall|k: int| 0 <= k < i ==> limits_read(#[trigger] items@[k], Some(v@[k])),
                decreases items@.len() - i,
            {
                match decode_limits(&items[i]) {
                    Some(e) => {
                        v.push(e);
                    },
                    None => {
                        proof {
                            let m = member(*j, name@, place as int);
                            assert(m matches Some(Json::Array(list)) && limits_read(
                                list@[i as int],
                                None,
                            ));
                            assert(limits_list_read(m, None));
                        }
                        return None;
                    },
                }
                i = i + 1;
            }
            Some(v)
        },
        _ => None,
    }
}

pub open spec fn chain_read(j: Json, r: Option<ChainOverride>) -> bool {
    let id = number_at(j, "chain_id"@, 0, u64::MAX as int, 0);
    let block_time = optional_number_at(j, "block_time_ms"@, 1, u64::MAX as int);
    let depth = optional_number_at(j, "confirmation_depth"@, 2, u64::MAX as int);
    let ttl = optional_number_at(j, "tip_ttl_ms"@, 3, u64::MAX as int);
    let lag = optional_number_at(j, "max_block_lag"@, 4, u64::MAX as int);
    let extra = texts_at(j, "extra_endpoints"@, 5);
    let disabled = texts_at(j, "disabled_endpoints"@, 6);
    let limits = member(j, "endpoint_overrides"@, 7);
    match r {
        Some(c) => is_table(j) && id == Some(c.chain_id as int) && block_time == Some(
            wide(c.block_time_ms),
        ) && depth == Some(wide(c.confirmation_depth)) && ttl == Some(wide(c.tip_ttl_ms)) && lag
            == Some(wide(c.max_block_lag)) && extra == Some(
            c.extra_endpoints@.map_values(|s: String| s@),
        ) && disabled == Some(c.disabled_endpoints@.map_values(|s: String| s@))
            && limits_list_read(limits, Some(c.endpoint_overrides@)),
        None => !is_table(j) || id is None || block_time is None || depth is None || ttl is None
            || lag is None || extra is None || disabled is None || limits_list_read(limits, None),
    }
}

fn decode_chain(j: &Json) -> (r: Option<ChainOverride>)
    ensures
        chain_read(*j, r),
{
    if !matches!(j, Json::Object(_) | Json::Array(_)) {
        return None;
    }
    Some(
        ChainOverride {
            chain_id: read_u64(j, "chain_id", 0, 0)?,
            block_time_ms: read_optional(j, "block_time_ms", 1, u64::MAX)?,
            confirmation_depth: read_optional(j, "confirmation_depth", 2, u64::MAX)?,
            tip_ttl_ms: read_optional(j, "tip_ttl_ms", 3, u64::MAX)?,
            max_block_lag: read_optional(j, "max_block_lag", 4, u64::MAX)?,
            extra_endpoints: read_texts(j, "extra_endpoints", 5)?,
            disabled_endpoints: read_texts(j, "disabled_endpoints", 6)?,
            endpoint_overrides: decode_limits_list(j, "endpoint_overrides", 7)?,
        },
    )
}

/// How a list of chain settings is read, entry by entry.
pub open spec fn chains_read(member: Option<Json>, r: Option<Seq<ChainOverride>>) -> bool {
    match member {
        None => r matches Some(list) && list.len() == 0,
        Some(Json::Array(items)) => match r {
            Some(list) => list.len() == items@.len() && forall|i: int|
                0 <= i < list.len() ==> chain_read(#[trigger] items@[i], Some(list[i])),
            None => exists|i: int|
                0 <= i < items@.len() && chain_read(#[trigger] items@[i], None),
        },
        Some(_) => r is None,
    }
}

fn decode_chains(j: &Json, name: &str, place: usize) -> (r: Option<Vec<ChainOverride>>)
    ensures
        match r {
            Some(v) => chains_read(member(*j, name@, place as int), Some(v@)),
            None => chains_read(member(*j, name@, place as int), None),
        },
{
    let mut v: Vec<ChainOverride> = Vec::new();
    match find(j, name, place) {
        None => Some(v),
        Some(Json::Array(items)) => {
            let mut i: usize = 0;
            while i < items.len()
                invariant
                    i <= items@.len(),
                    v@.len() == i,
                    member(*j, name@, place as int) == Some(Json::Array(*items)),
                    forall|k: int| 0 <= k < i ==> chain_read(#[trigger] items@[k], Some(v@[k])),
                decreases items@.len() - i,
            {
                match decode_chain(&items[i]) {
                    Some(c) => {
                        v.push(c);
                    },
                    None => {
                        proof {
                            let m = member(*j, name@, place as int);
                            assert(m matches Some(Json::Array(list)) && chain_read(
                                list@[i as int],
                                None,
                            ));
                            assert(chains_read(m, None));
                        }
                        return None;
                    },
                }
                i = i + 1;
            }
            Some(v)
        },
        _ => None,
    }
}

pub open spec fn state_read(j: Json, r: Option<StateConfig>) -> bool {
    let backend = text_at(j, "backend"@, 0, "redis"@);
    let url = text_at(j, "redis_url"@, 1, "redis://127.0.0.1:6379/0"@);
    let namespace = text_at(j, "namespace"@, 2, "rpcrouter"@);
    let required = bool_at(j, "required"@, 3, false);
    let flush = number_at(j, "flush_interval_ms"@, 4, u64::MAX as int, 2_000);
    let ttl = number_at(j, "health_ttl_seconds"@, 5, u64::MAX as int, 86_400);
    let reset = bool_at(j, "reset"@, 6, false);
    let restore = bool_at(j, "restore_hot"@, 7, true);
    let path = text_at(j, "file_path"@, 8, "./data/state.json"@);
    match r {
        Some(c) => is_table(j) && backend == Some(c.backend@) && url == Some(c.redis_url@)
            && namespace == Some(c.namespace@) && required == Some(c.required) && flush == Some(
            c.flush_interval_ms as int,
        ) && ttl == Some(c.health_ttl_seconds as int) && reset == Some(c.reset) && restore == Some(
            c.restore_hot,
        ) && path == Some(c.file_path@),
        None => !is_table(j) || backend is None || url is None || namespace is None || required
            is None || flush is None || ttl is None || reset is None || restore is None || path
            is None,
    }
}

fn decode_state(j: &Json) -> (r: Option<StateConfig>)
    ensures
        state_read(*j, r),
{
    if !matches!(j, Json::Object(_) | Json::Array(_)) {
        return None;
    }
    Some(
        StateConfig {
            backend: read_text(j, "backend", 0, "redis")?,
            redis_url: read_text(j, "redis_url", 1, "redis://127.0.0.1:6379/0")?,
            namespace: read_text(j, "namespace", 2, "rpcrouter")?,
            required: read_bool(j, "required", 3, false)?,
            flush_interval_ms: read_u64(j, "flush_interval_ms", 4, 2_000)?,
            health_ttl_seconds: read_u64(j, "health_ttl_seconds", 5, 86_400)?,
            reset: read_bool(j, "reset", 6, false)?,
            restore_hot: read_bool(j, "restore_hot", 7, true)?,
            file_path: read_text(j, "file_path", 8, "./data/state.json")?,
        },
    )
}

pub open spec fn admin_read(j: Json, r: Option<AdminConfig>) -> bool {
    let enabled = bool_at(j, "enabled"@, 0, true);
    let public_site = bool_at(j, "public_site"@, 1, true);
    let token = optional_text_at(j, "auth_token"@, 2);
    let dir = optional_text_at(j, "static_dir"@, 3);
    let origins = texts_at(j, "cors_allow_origins"@, 4);
    let private = bool_at(j, "allow_private_endpoints"@, 5, false);
    match r {
        Some(c) => is_table(j) && enabled == Some(c.enabled) && public_site == Some(c.public_site)
            && token == Some(characters(c.auth_token)) && dir == Some(characters(c.static_dir))
            && origins == Some(c.cors_allow_origins@.map_values(|s: String| s@)) && private == Some(
            c.allow_private_endpoints,
        ),
        None => !is_table(j) || enabled is None || public_site is None || token is None || dir
            is None || origins is None || private is None,
    }
}

fn decode_admin(j: &Json) -> (r: Option<AdminConfig>)
    ensures
        admin_read(*j, r),
{
    if !matches!(j, Json::Object(_) | Json::Array(_)) {
        return None;
    }
    Some(
        AdminConfig {
            enabled: read_bool(j, "enabled", 0, true)?,
            public_site: read_bool(j, "public_site", 1, true)?,
            auth_token: read_optional_text(j, "auth_token", 2)?,
            static_dir: read_optional_text(j, "static_dir", 3)?,
            cors_allow_origins: read_texts(j, "cors_allow_origins", 4)?,
            allow_private_endpoints: read_bool(j, "allow_private_endpoints", 5, false)?,
        },
    )
}

/// How a configuration is read from a document: each setting by its own rule, the defaults where it is
/// left out. Nothing is read where one of them does not fit.
pub open spec fn config_read(j: Json, r: Option<Config>) -> bool {
    let listen = text_at(j, "listen"@, 0, "0.0.0.0:8545"@);
    let metrics = bool_at(j, "metrics_enabled"@, 1, true);
    let chains = numbers_at(j, "chains"@, 2, seq![1u64, 143u64]);
    let server = member(j, "server"@, 3);
    let chainlist = member(j, "chainlist"@, 4);
    let discovery = member(j, "discovery"@, 5);
    let upstream = member(j, "upstream"@, 6);
    let probe = member(j, "probe"@, 7);
    let cache = member(j, "cache"@, 8);
    let hedging = member(j, "hedging"@, 9);
    let overrides = member(j, "chain_overrides"@, 10);
    let state = member(j, "state"@, 11);
    let admin = member(j, "admin"@, 12);
    match r {
        Some(c) => {
            &&& is_table(j)
            &&& listen == Some(c.listen@)
            &&& metrics == Some(c.metrics_enabled)
            &&& chains == Some(c.chains@)
            &&& (match server {
                Some(v) => server_read(v, Some(c.server)),
                None => c.server == crate::config::default_server(),
            })
            &&& (match chainlist {
                Some(v) => chainlist_read(v, Some(c.chainlist)),
                None => crate::config::is_default_chainlist(c.chainlist),
            })
            &&& (match discovery {
                Some(v) => discovery_read(v, Some(c.discovery)),
                None => crate::config::is_default_discovery(c.discovery),
            })
            &&& (match upstream {
                Some(v) => upstream_read(v, Some(c.upstream)),
                None => c.upstream == crate::config::default_upstream(),
            })
            &&& (match probe {
                Some(v) => probe_read(v, Some(c.probe)),
                None => c.probe == crate::config::default_probe(),
            })
            &&& (match cache {
                Some(v) => cache_read(v, Some(c.cache)),
                None => c.cache == crate::config::default_cache(),
            })
            &&& (match hedging {
                Some(v) => hedging_read(v, Some(c.hedging)),
                None => c.hedging == crate::config::default_hedging(),
            })
            &&& chains_read(overrides, Some(c.chain_overrides@))
            &&& (match state {
                Some(v) => state_read(v, Some(c.state)),
                None => crate::config::is_default_state(c.state),
            })
            &&& (match admin {
                Some(v) => admin_read(v, Some(c.admin)),
                None => crate::config::is_default_admin(c.admin),
            })
        },
        None => {
            ||| !is_table(j)
            ||| listen is None
            ||| metrics is None
            ||| chains is None
            ||| server matches Some(v) && server_read(v, None)
            ||| chainlist matches Some(v) && chainlist_read(v, None)
            ||| discovery matches Some(v) && discovery_read(v, None)
            ||| upstream matches Some(v) && upstream_read(v, None)
            ||| probe matches Some(v) && probe_read(v, None)
            ||| cache matches Some(v) && cache_read(v, None)
            ||| hedging matches Some(v) && hedging_read(v, None)
            ||| chains_read(overrides, None)
            ||| state matches Some(v) && state_read(v, None)
            ||| admin matches Some(v) && admin_read(v, None)
        },
    }
}

/// Reads a configuration from a document.
pub fn decode_config(j: &Json) -> (r: Option<Config>)
    ensures
        config_read(*j, r),
{
    if !matches!(j, Json::Object(_) | Json::Array(_)) {
        return None;
    }
    let mut chains: Vec<u64> = Vec::new();
    chains.push(1);
    chains.push(143);
    assert(chains@ =~= seq![1u64, 143u64]);
    Some(
        Config {
            listen: read_text(j, "listen", 0, "0.0.0.0:8545")?,
            metrics_enabled: read_bool(j, "metrics_enabled", 1, true)?,
            chains: read_numbers(j, "chains", 2, chains)?,
            server: match find(j, "server", 3) {
                Some(v) => decode_server(v)?,
                None => ServerConfig::default(),
            },
            chainlist: match find(j, "chainlist", 4) {
                Some(v) => decode_chainlist(v)?,
                None => ChainlistConfig::default(),
            },
            discovery: match find(j, "discovery", 5) {
                Some(v) => decode_discovery(v)?,
                None => DiscoveryConfig::default(),
            },
            upstream: match find(j, "upstream", 6) {
                Some(v) => decode_upstream(v)?,
                None => UpstreamConfig::default(),
            },
            probe: match find(j, "probe", 7) {
                Some(v) => decode_probe(v)?,
                None => ProbeConfig::default(),
            },
            cache: match find(j, "cache", 8) {
                Some(v) => decode_cache(v)?,
                None => CacheConfig::default(),
            },
            hedging: match find(j, "hedging", 9) {
                Some(v) => decode_hedging(v)?,
                None => HedgingConfig::default(),
            },
            chain_overrides: decode_chains(j, "chain_overrides", 10)?,
            state: match find(j, "state", 11) {
                Some(v) => decode_state(v)?,
                None => StateConfig::default(),
            },
            admin: match find(j, "admin", 12) {
                Some(v) => decode_admin(v)?,
                None => AdminConfig::default(),
            },
        },
    )
}

impl Config {
    /// Reads a configuration from TOML and checks it. The listen address is taken over as written.
    pub fn from_toml(contents: &str) -> (r: Result<Config, ConfigError>)
        ensures
            match r {
                Ok(c) => (json::toml_document(contents@) matches Some(j) && config_read(j, Some(c)))
                    && crate::config::first_fault(c) is None,
                Err(ConfigError::InvalidToml) => json::toml_document(contents@) is None
                    || config_read(json::toml_document(contents@)->0, None),
                Err(ConfigError::Fault(f)) => json::toml_document(contents@) matches Some(j)
                    && exists|c: Config| #[trigger]
                    config_read(j, Some(c)) && crate::config::first_fault(c) == Some(f),
                Err(_) => false,
            },
    {
        let j = match json::parse_toml(contents) {
            Some(j) => j,
            None => {
                return Err(ConfigError::InvalidToml);
            },
        };
        match decode_config(&j) {
            Some(c) => match c.validate() {
                Ok(()) => Ok(c),
                Err(f) => {
                    assert(config_read(j, Some(c)));
                    Err(ConfigError::Fault(f))
                },
            },
            None => Err(ConfigError::InvalidToml),
        }
    }

    /// Reads the contents of the configuration file; without a file, everything has its default.
    pub fn load(contents: Option<&str>) -> (r: Result<Config, ConfigError>)
        ensures
            match contents {
                None => r matches Ok(c) && crate::config::is_default(c),
                Some(t) => match r {
                    Ok(c) => (json::toml_document(t@) matches Some(j) && config_read(j, Some(c)))
                        && crate::config::first_fault(c) is None,
                    Err(ConfigError::InvalidToml) => json::toml_document(t@) is None || config_read(
                        json::toml_document(t@)->0,
                        None,
                    ),
                    Err(ConfigError::Fault(f)) => json::toml_document(t@) matches Some(j)
                        && exists|c: Config| #[trigger]
                        config_read(j, Some(c)) && crate::config::first_fault(c) == Some(f),
                    Err(_) => false,
                },
            },
    {
        match contents {
            Some(t) => Config::from_toml(t),
            None => Ok(Config::default()),
        }
    }
}

/// Where nothing is configured, the defaults are in force.
pub proof fn lemma_empty_table_is_default(j: Json, c: Config)
    requires
        j matches Json::Object(fields) && fields@.len() == 0,
        config_read(j, Some(c)),
    ensures
        crate::config::is_default(c),
{
}

} // verus!
