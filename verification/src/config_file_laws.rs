//! What a configuration file says: each setting stands under its own name, or in an array at its own place;
//! one that is left out has its default, and a file is turned down only where a setting does not fit.
use crate::config::{
    AdminConfig, AutoEnableConfig, CacheConfig, ChainOverride, ChainlistConfig, Config,
    DiscoveryConfig, EndpointOverride, HedgingConfig, PerIpRateLimitConfig, ProbeConfig,
    ServerConfig, StateConfig, UpstreamConfig,
};
use crate::config_toml;
use crate::json::{Json, Number};
use vstd::prelude::*;

verus! {

/// What is written of a setting: under its name, or in an array at its place.
pub open spec fn written(j: Json, name: Seq<char>, place: int) -> Option<Json> {
    match j {
        Json::Object(fields) => crate::json::lookup(fields@, name),
        Json::Array(items) => if place < items@.len() {
            Some(items@[place])
        } else {
            None
        },
        _ => None,
    }
}

/// A whole number as written, or the default where nothing is.
pub open spec fn says_number(found: Option<Json>, default: int, n: int) -> bool {
    match found {
        None => n == default,
        Some(v) => v matches Json::Number(Number::PosInt(k)) && k == n,
    }
}

/// Whether nothing is written, or a whole number of at most `max`.
pub open spec fn fits_number(found: Option<Json>, max: int) -> bool {
    found matches Some(v) ==> (v matches Json::Number(Number::PosInt(k)) && k <= max)
}

pub open spec fn says_truth(found: Option<Json>, default: bool, b: bool) -> bool {
    match found {
        None => b == default,
        Some(v) => v == Json::Bool(b),
    }
}

pub open spec fn fits_truth(found: Option<Json>) -> bool {
    found matches Some(v) ==> v is Bool
}

pub open spec fn says_text(found: Option<Json>, default: Seq<char>, s: Seq<char>) -> bool {
    match found {
        None => s == default,
        Some(v) => v matches Json::Text(t) && t@ == s,
    }
}

pub open spec fn fits_text(found: Option<Json>) -> bool {
    found matches Some(v) ==> v is Text
}

/// A text that may be left out.
pub open spec fn says_if_any(found: Option<Json>, s: Option<String>) -> bool {
    match found {
        None => s is None,
        Some(v) => (v matches Json::Text(t) && s matches Some(u) && u@ == t@),
    }
}

/// A number that may be left out.
pub open spec fn says_count_if_any(found: Option<Json>, n: Option<int>) -> bool {
    match found {
        None => n is None,
        Some(v) => (v matches Json::Number(Number::PosInt(k)) && n == Some(k as int)),
    }
}

/// A list of numbers, in its order.
pub open spec fn says_numbers(found: Option<Json>, default: Seq<u64>, list: Seq<u64>) -> bool {
    match found {
        None => list == default,
        Some(v) => v matches Json::Array(items) && items@.len() == list.len() && forall|i: int|
            0 <= i < list.len() ==> items@[i] == Json::Number(Number::PosInt(#[trigger] list[i])),
    }
}

pub open spec fn fits_numbers(found: Option<Json>) -> bool {
    found matches Some(v) ==> (v matches Json::Array(items) && forall|i: int|
        0 <= i < items@.len() ==> (#[trigger] items@[i] matches Json::Number(Number::PosInt(_))))
}

/// A list of texts, in its order; none where nothing is written.
pub open spec fn says_texts(found: Option<Json>, list: Seq<String>) -> bool {
    match found {
        None => list.len() == 0,
        Some(v) => v matches Json::Array(items) && items@.len() == list.len() && forall|i: int|
            0 <= i < list.len() ==> (items@[i] matches Json::Text(t) && t@ == (#[trigger] list[i])@),
    }
}

pub open spec fn fits_texts(found: Option<Json>) -> bool {
    found matches Some(v) ==> (v matches Json::Array(items) && forall|i: int|
        0 <= i < items@.len() ==> #[trigger] items@[i] is Text)
}

proof fn lemma_texts(j: Json, name: Seq<char>, place: int, list: Seq<String>)
    requires
        j is Object || j is Array,
        place >= 0,
    ensures
        config_toml::texts_at(j, name, place) == Some(list.map_values(|s: String| s@)) ==> says_texts(
            written(j, name, place),
            list,
        ),
        config_toml::texts_at(j, name, place) is None <==> !fits_texts(written(j, name, place)),
{
    if written(j, name, place) is Some && written(j, name, place)->0 is Array {
        let items = written(j, name, place)->0->Array_0@;
        let texts = list.map_values(|s: String| s@);
        if config_toml::all_text(items) {
            assert forall|i: int| 0 <= i < items.len() implies #[trigger] items[i] is Text by {
                assert(items[i].text() is Some);
            }
            let read = items.map_values(|v: Json| v.text()->0);
            if config_toml::texts_at(j, name, place) == Some(texts) {
                assert(read == texts);
                assert(read.len() == texts.len());
                assert forall|i: int| 0 <= i < list.len() implies (items[i] matches Json::Text(t) && t@
                    == (#[trigger] list[i])@) by {
                    assert(read[i] == texts[i]);
                    assert(items[i] is Text);
                }
            }
        } else {
            let i = choose|i: int| 0 <= i < items.len() && !((#[trigger] items[i]).text() is Some);
            assert(!(items[i] is Text));
        }
    } else if written(j, name, place) is None {
        let empty = Seq::<Seq<char>>::empty();
        if config_toml::texts_at(j, name, place) == Some(list.map_values(|s: String| s@)) {
            assert(list.map_values(|s: String| s@).len() == empty.len());
        }
    }
}

proof fn lemma_numbers(j: Json, name: Seq<char>, place: int, default: Seq<u64>, list: Seq<u64>)
    requires
        j is Object || j is Array,
        place >= 0,
    ensures
        config_toml::numbers_at(j, name, place, default) == Some(list) ==> says_numbers(
            written(j, name, place),
            default,
            list,
        ),
        config_toml::numbers_at(j, name, place, default) is None <==> !fits_numbers(written(j, name, place)),
{
    if written(j, name, place) is Some && written(j, name, place)->0 is Array {
        let items = written(j, name, place)->0->Array_0@;
        if config_toml::all_whole(items) {
            assert forall|i: int| 0 <= i < items.len() implies (#[trigger] items[i] matches Json::Number(
                Number::PosInt(_),
            )) by {
                assert(items[i].whole() is Some);
            }
            let read = items.map_values(|v: Json| v.whole()->0);
            if config_toml::numbers_at(j, name, place, default) == Some(list) {
                assert forall|i: int| 0 <= i < list.len() implies items[i] == Json::Number(
                    Number::PosInt(#[trigger] list[i]),
                ) by {
                    assert(read[i] == list[i]);
                    assert(items[i].whole() is Some);
                }
            }
        } else {
            let i = choose|i: int| 0 <= i < items.len() && !((#[trigger] items[i]).whole() is Some);
            assert(!(items[i] matches Json::Number(Number::PosInt(_))));
        }
    }
}

/// The settings of the limit per client address.
pub proof fn lemma_rate_limit_as_written(j: Json, c: PerIpRateLimitConfig)
    requires
        j is Object || j is Array,
        config_toml::rate_limit_read(j, Some(c)),
    ensures
        says_truth(written(j, "enabled"@, 0), false, c.enabled),
        says_number(written(j, "requests_per_second"@, 1), 20, c.requests_per_second as int),
        says_number(written(j, "burst"@, 2), 40, c.burst as int),
{
}

/// The settings of the limit per client address are turned down exactly where one of them does not fit.
pub proof fn lemma_rate_limit_turned_down(j: Json)
    requires
        j is Object || j is Array,
    ensures
        config_toml::rate_limit_read(j, None) <==> !({
            &&& fits_truth(written(j, "enabled"@, 0))
            &&& fits_number(written(j, "requests_per_second"@, 1), u64::MAX as int)
            &&& fits_number(written(j, "burst"@, 2), u64::MAX as int)
        }),
{
}

/// The settings of the server.
pub proof fn lemma_server_as_written(j: Json, c: ServerConfig)
    requires
        j is Object || j is Array,
        config_toml::server_read(j, Some(c)),
    ensures
        says_number(written(j, "batch_limit"@, 0), 100, c.batch_limit as int),
        says_number(written(j, "shutdown_deadline_ms"@, 1), 10_000, c.shutdown_deadline_ms as int),
        says_number(written(j, "max_body_bytes"@, 2), 262_144, c.max_body_bytes as int),
        says_number(written(j, "max_concurrent_requests"@, 3), 1_024, c.max_concurrent_requests as int),
        says_if_any(written(j, "metrics_auth_token"@, 5), c.metrics_auth_token),
        match written(j, "per_ip_rate_limit"@, 4) {
            Some(v) => config_toml::rate_limit_read(v, Some(c.per_ip_rate_limit)),
            None => forall|empty: Json|
                (empty is Object && empty->Object_0@.len() == 0)
                    ==> #[trigger] config_toml::rate_limit_read(empty, Some(c.per_ip_rate_limit)),
        },
{
}

/// The settings of the server are turned down exactly where one of them does not fit.
pub proof fn lemma_server_turned_down(j: Json)
    requires
        j is Object || j is Array,
    ensures
        config_toml::server_read(j, None) <==> !({
            &&& fits_number(written(j, "batch_limit"@, 0), usize::MAX as int)
            &&& fits_number(written(j, "shutdown_deadline_ms"@, 1), u64::MAX as int)
            &&& fits_number(written(j, "max_body_bytes"@, 2), usize::MAX as int)
            &&& fits_number(written(j, "max_concurrent_requests"@, 3), usize::MAX as int)
            &&& fits_text(written(j, "metrics_auth_token"@, 5))
            &&& !(written(j, "per_ip_rate_limit"@, 4) matches Some(v) && config_toml::rate_limit_read(v, None))
        }),
{
}

/// The settings of the chain list.
pub proof fn lemma_chainlist_as_written(j: Json, c: ChainlistConfig)
    requires
        j is Object || j is Array,
        config_toml::chainlist_read(j, Some(c)),
    ensures
        says_text(written(j, "url"@, 0), "https://chainlist.org/rpcs.json"@, c.url@),
        says_number(written(j, "refresh_seconds"@, 1), 3_600, c.refresh_seconds as int),
        says_number(written(j, "stale_grace_seconds"@, 2), 86_400, c.stale_grace_seconds as int),
        says_text(written(j, "cache_path"@, 3), "./data/rpcs.json"@, c.cache_path@),
{
}

/// The settings of the chain list are turned down exactly where one of them does not fit.
pub proof fn lemma_chainlist_turned_down(j: Json)
    requires
        j is Object || j is Array,
    ensures
        config_toml::chainlist_read(j, None) <==> !({
            &&& fits_text(written(j, "url"@, 0))
            &&& fits_number(written(j, "refresh_seconds"@, 1), u64::MAX as int)
            &&& fits_number(written(j, "stale_grace_seconds"@, 2), u64::MAX as int)
            &&& fits_text(written(j, "cache_path"@, 3))
        }),
{
}

/// The settings of chains put into service on their own.
pub proof fn lemma_auto_enable_as_written(j: Json, c: AutoEnableConfig)
    requires
        j is Object || j is Array,
        config_toml::auto_enable_read(j, Some(c)),
    ensures
        says_truth(written(j, "enabled"@, 0), true, c.enabled),
        says_number(written(j, "min_endpoints"@, 1), 5, c.min_endpoints as int),
        says_number(written(j, "max_chains"@, 2), 400, c.max_chains as int),
        says_number(written(j, "max_candidates"@, 3), 512, c.max_candidates as int),
        says_number(written(j, "max_endpoints_per_chain"@, 4), 8, c.max_endpoints_per_chain as int),
        says_number(written(j, "candidate_interval_seconds"@, 5), 30, c.candidate_interval_seconds as int),
        says_number(written(j, "probe_batch"@, 6), 32, c.probe_batch as int),
        says_number(written(j, "probe_concurrency"@, 7), 8, c.probe_concurrency as int),
        says_number(written(j, "promote_after_rounds"@, 8), 2, c.promote_after_rounds as int),
        says_number(written(j, "min_active_endpoints"@, 9), 2, c.min_active_endpoints as int),
        says_number(written(j, "head_tolerance_blocks"@, 10), 64, c.head_tolerance_blocks as int),
{
}

/// The settings of chains put into service on their own are turned down exactly where one of them does not fit.
pub proof fn lemma_auto_enable_turned_down(j: Json)
    requires
        j is Object || j is Array,
    ensures
        config_toml::auto_enable_read(j, None) <==> !({
            &&& fits_truth(written(j, "enabled"@, 0))
            &&& fits_number(written(j, "min_endpoints"@, 1), usize::MAX as int)
            &&& fits_number(written(j, "max_chains"@, 2), usize::MAX as int)
            &&& fits_number(written(j, "max_candidates"@, 3), usize::MAX as int)
            &&& fits_number(written(j, "max_endpoints_per_chain"@, 4), usize::MAX as int)
            &&& fits_number(written(j, "candidate_interval_seconds"@, 5), u64::MAX as int)
            &&& fits_number(written(j, "probe_batch"@, 6), usize::MAX as int)
            &&& fits_number(written(j, "probe_concurrency"@, 7), usize::MAX as int)
            &&& fits_number(written(j, "promote_after_rounds"@, 8), usize::MAX as int)
            &&& fits_number(written(j, "min_active_endpoints"@, 9), usize::MAX as int)
            &&& fits_number(written(j, "head_tolerance_blocks"@, 10), u64::MAX as int)
        }),
{
}

/// The settings of discovery.
pub proof fn lemma_discovery_as_written(j: Json, c: DiscoveryConfig)
    requires
        j is Object || j is Array,
        config_toml::discovery_read(j, Some(c)),
    ensures
        says_truth(written(j, "enabled"@, 0), true, c.enabled),
        says_truth(written(j, "include_testnets"@, 1), true, c.include_testnets),
        says_numbers(written(j, "deny"@, 2), Seq::empty(), c.deny@),
        says_number(written(j, "max_hot_chains"@, 3), 256, c.max_hot_chains as int),
        says_number(written(j, "idle_seconds"@, 4), 600, c.idle_seconds as int),
        match written(j, "auto_enable"@, 5) {
            Some(v) => config_toml::auto_enable_read(v, Some(c.auto_enable)),
            None => forall|empty: Json|
                (empty is Object && empty->Object_0@.len() == 0)
                    ==> #[trigger] config_toml::auto_enable_read(empty, Some(c.auto_enable)),
        },
{
    lemma_numbers(j, "deny"@, 2, Seq::empty(), c.deny@);
}

/// The settings of discovery are turned down exactly where one of them does not fit.
pub proof fn lemma_discovery_turned_down(j: Json)
    requires
        j is Object || j is Array,
    ensures
        config_toml::discovery_read(j, None) <==> !({
            &&& fits_truth(written(j, "enabled"@, 0))
            &&& fits_truth(written(j, "include_testnets"@, 1))
            &&& fits_numbers(written(j, "deny"@, 2))
            &&& fits_number(written(j, "max_hot_chains"@, 3), usize::MAX as int)
            &&& fits_number(written(j, "idle_seconds"@, 4), u64::MAX as int)
            &&& !(written(j, "auto_enable"@, 5) matches Some(v) && config_toml::auto_enable_read(v, None))
        }),
{
    lemma_numbers(j, "deny"@, 2, Seq::empty(), Seq::empty());
}

/// The settings of the endpoints.
pub proof fn lemma_upstream_as_written(j: Json, c: UpstreamConfig)
    requires
        j is Object || j is Array,
        config_toml::upstream_read(j, Some(c)),
    ensures
        says_number(written(j, "request_timeout_ms"@, 0), 5_000, c.request_timeout_ms as int),
        says_number(written(j, "slow_threshold_ms"@, 1), 4_000, c.slow_threshold_ms as int),
        says_number(written(j, "deadline_ms"@, 2), 15_000, c.deadline_ms as int),
        says_number(written(j, "max_attempts"@, 3), 4, c.max_attempts as int),
        says_number(written(j, "default_rps"@, 4), 15, c.default_rps as int),
        says_number(written(j, "default_concurrency"@, 5), 8, c.default_concurrency as int),
{
}

/// The settings of the endpoints are turned down exactly where one of them does not fit.
pub proof fn lemma_upstream_turned_down(j: Json)
    requires
        j is Object || j is Array,
    ensures
        config_toml::upstream_read(j, None) <==> !({
            &&& fits_number(written(j, "request_timeout_ms"@, 0), u64::MAX as int)
            &&& fits_number(written(j, "slow_threshold_ms"@, 1), u64::MAX as int)
            &&& fits_number(written(j, "deadline_ms"@, 2), u64::MAX as int)
            &&& fits_number(written(j, "max_attempts"@, 3), usize::MAX as int)
            &&& fits_number(written(j, "default_rps"@, 4), u32::MAX as int)
            &&& fits_number(written(j, "default_concurrency"@, 5), usize::MAX as int)
        }),
{
}

/// The settings of probing.
pub proof fn lemma_probe_as_written(j: Json, c: ProbeConfig)
    requires
        j is Object || j is Array,
        config_toml::probe_read(j, Some(c)),
    ensures
        says_number(written(j, "min_interval_seconds"@, 0), 15, c.min_interval_seconds as int),
        says_number(written(j, "max_interval_seconds"@, 1), 30, c.max_interval_seconds as int),
        says_number(written(j, "max_concurrency"@, 2), 32, c.max_concurrency as int),
        says_number(written(j, "request_timeout_ms"@, 3), 5_000, c.request_timeout_ms as int),
        says_number(written(j, "max_block_lag"@, 4), 5, c.max_block_lag as int),
{
}

/// The settings of probing are turned down exactly where one of them does not fit.
pub proof fn lemma_probe_turned_down(j: Json)
    requires
        j is Object || j is Array,
    ensures
        config_toml::probe_read(j, None) <==> !({
            &&& fits_number(written(j, "min_interval_seconds"@, 0), u64::MAX as int)
            &&& fits_number(written(j, "max_interval_seconds"@, 1), u64::MAX as int)
            &&& fits_number(written(j, "max_concurrency"@, 2), usize::MAX as int)
            &&& fits_number(written(j, "request_timeout_ms"@, 3), u64::MAX as int)
            &&& fits_number(written(j, "max_block_lag"@, 4), u64::MAX as int)
        }),
{
}

/// The settings of the cache.
pub proof fn lemma_cache_as_written(j: Json, c: CacheConfig)
    requires
        j is Object || j is Array,
        config_toml::cache_read(j, Some(c)),
    ensures
        says_number(written(j, "max_bytes"@, 0), 536_870_912, c.max_bytes as int),
        says_number(written(j, "immutable_ttl_seconds"@, 1), 3_600, c.immutable_ttl_seconds as int),
{
}

/// The settings of the cache are turned down exactly where one of them does not fit.
pub proof fn lemma_cache_turned_down(j: Json)
    requires
        j is Object || j is Array,
    ensures
        config_toml::cache_read(j, None) <==> !({
            &&& fits_number(written(j, "max_bytes"@, 0), u64::MAX as int)
            &&& fits_number(written(j, "immutable_ttl_seconds"@, 1), u64::MAX as int)
        }),
{
}

/// The settings of second requests.
pub proof fn lemma_hedging_as_written(j: Json, c: HedgingConfig)
    requires
        j is Object || j is Array,
        config_toml::hedging_read(j, Some(c)),
    ensures
        says_truth(written(j, "enabled"@, 0), true, c.enabled),
        says_number(written(j, "delay_ms"@, 1), 300, c.delay_ms as int),
        says_number(written(j, "max_percent"@, 2), 10, c.max_percent as int),
        says_number(written(j, "min_active_endpoints"@, 3), 2, c.min_active_endpoints as int),
{
}

/// The settings of second requests are turned down exactly where one of them does not fit.
pub proof fn lemma_hedging_turned_down(j: Json)
    requires
        j is Object || j is Array,
    ensures
        config_toml::hedging_read(j, None) <==> !({
            &&& fits_truth(written(j, "enabled"@, 0))
            &&& fits_number(written(j, "delay_ms"@, 1), u64::MAX as int)
            &&& fits_number(written(j, "max_percent"@, 2), u32::MAX as int)
            &&& fits_number(written(j, "min_active_endpoints"@, 3), usize::MAX as int)
        }),
{
}

/// The settings of the state store.
pub proof fn lemma_state_as_written(j: Json, c: StateConfig)
    requires
        j is Object || j is Array,
        config_toml::state_read(j, Some(c)),
    ensures
        says_text(written(j, "backend"@, 0), "redis"@, c.backend@),
        says_text(written(j, "redis_url"@, 1), "redis://127.0.0.1:6379/0"@, c.redis_url@),
        says_text(written(j, "namespace"@, 2), "rpcrouter"@, c.namespace@),
        says_truth(written(j, "required"@, 3), false, c.required),
        says_number(written(j, "flush_interval_ms"@, 4), 2_000, c.flush_interval_ms as int),
        says_number(written(j, "health_ttl_seconds"@, 5), 86_400, c.health_ttl_seconds as int),
        says_truth(written(j, "reset"@, 6), false, c.reset),
        says_truth(written(j, "restore_hot"@, 7), true, c.restore_hot),
        says_text(written(j, "file_path"@, 8), "./data/state.json"@, c.file_path@),
{
}

/// The settings of the state store are turned down exactly where one of them does not fit.
pub proof fn lemma_state_turned_down(j: Json)
    requires
        j is Object || j is Array,
    ensures
        config_toml::state_read(j, None) <==> !({
            &&& fits_text(written(j, "backend"@, 0))
            &&& fits_text(written(j, "redis_url"@, 1))
            &&& fits_text(written(j, "namespace"@, 2))
            &&& fits_truth(written(j, "required"@, 3))
            &&& fits_number(written(j, "flush_interval_ms"@, 4), u64::MAX as int)
            &&& fits_number(written(j, "health_ttl_seconds"@, 5), u64::MAX as int)
            &&& fits_truth(written(j, "reset"@, 6))
            &&& fits_truth(written(j, "restore_hot"@, 7))
            &&& fits_text(written(j, "file_path"@, 8))
        }),
{
}

/// The settings of the administration.
pub proof fn lemma_admin_as_written(j: Json, c: AdminConfig)
    requires
        j is Object || j is Array,
        config_toml::admin_read(j, Some(c)),
    ensures
        says_truth(written(j, "enabled"@, 0), true, c.enabled),
        says_truth(written(j, "public_site"@, 1), true, c.public_site),
        says_if_any(written(j, "auth_token"@, 2), c.auth_token),
        says_if_any(written(j, "static_dir"@, 3), c.static_dir),
        says_texts(written(j, "cors_allow_origins"@, 4), c.cors_allow_origins@),
        says_truth(written(j, "allow_private_endpoints"@, 5), false, c.allow_private_endpoints),
{
    lemma_texts(j, "cors_allow_origins"@, 4, c.cors_allow_origins@);
}

/// The settings of the administration are turned down exactly where one of them does not fit.
pub proof fn lemma_admin_turned_down(j: Json)
    requires
        j is Object || j is Array,
    ensures
        config_toml::admin_read(j, None) <==> !({
            &&& fits_truth(written(j, "enabled"@, 0))
            &&& fits_truth(written(j, "public_site"@, 1))
            &&& fits_text(written(j, "auth_token"@, 2))
            &&& fits_text(written(j, "static_dir"@, 3))
            &&& fits_texts(written(j, "cors_allow_origins"@, 4))
            &&& fits_truth(written(j, "allow_private_endpoints"@, 5))
        }),
{
    lemma_texts(j, "cors_allow_origins"@, 4, Seq::empty());
}

/// The settings of one chain.
pub proof fn lemma_chain_as_written(j: Json, c: ChainOverride)
    requires
        j is Object || j is Array,
        config_toml::chain_read(j, Some(c)),
    ensures
        says_number(written(j, "chain_id"@, 0), 0, c.chain_id as int),
        says_count_if_any(written(j, "block_time_ms"@, 1), config_toml::wide(c.block_time_ms)),
        says_count_if_any(written(j, "confirmation_depth"@, 2), config_toml::wide(c.confirmation_depth)),
        says_count_if_any(written(j, "tip_ttl_ms"@, 3), config_toml::wide(c.tip_ttl_ms)),
        says_count_if_any(written(j, "max_block_lag"@, 4), config_toml::wide(c.max_block_lag)),
        says_texts(written(j, "extra_endpoints"@, 5), c.extra_endpoints@),
        says_texts(written(j, "disabled_endpoints"@, 6), c.disabled_endpoints@),
        match written(j, "endpoint_overrides"@, 7) {
            None => c.endpoint_overrides@.len() == 0,
            Some(v) => v matches Json::Array(items) && items@.len() == c.endpoint_overrides@.len()
                && forall|i: int|
                0 <= i < items@.len() ==> config_toml::limits_read(
                    items@[i],
                    Some(#[trigger] c.endpoint_overrides@[i]),
                ),
        },
{
    lemma_texts(j, "extra_endpoints"@, 5, c.extra_endpoints@);
    lemma_texts(j, "disabled_endpoints"@, 6, c.disabled_endpoints@);
}

/// The limits of one endpoint; its URL is always given.
pub proof fn lemma_limits_as_written(j: Json, c: EndpointOverride)
    requires
        j is Object || j is Array,
        config_toml::limits_read(j, Some(c)),
    ensures
        written(j, "url"@, 0) matches Some(Json::Text(t)) && t@ == c.url@,
        says_count_if_any(
            written(j, "rps"@, 1),
            match c.rps {
                Some(n) => Some(n as int),
                None => None,
            },
        ),
        says_count_if_any(
            written(j, "concurrency"@, 2),
            match c.concurrency {
                Some(n) => Some(n as int),
                None => None,
            },
        ),
{
}

/// A configuration file: the settings of the gateway as a whole, and every part under its name. A part that
/// is left out is as one in which nothing is written.
pub proof fn lemma_file_as_written(j: Json, c: Config)
    requires
        j is Object || j is Array,
        config_toml::config_read(j, Some(c)),
    ensures
        says_text(written(j, "listen"@, 0), "0.0.0.0:8545"@, c.listen@),
        says_truth(written(j, "metrics_enabled"@, 1), true, c.metrics_enabled),
        says_numbers(written(j, "chains"@, 2), seq![1u64, 143u64], c.chains@),
        match written(j, "server"@, 3) {
            Some(v) => config_toml::server_read(v, Some(c.server)),
            None => forall|empty: Json|
                (empty is Object && empty->Object_0@.len() == 0)
                    ==> #[trigger] config_toml::server_read(empty, Some(c.server)),
        },
        match written(j, "chainlist"@, 4) {
            Some(v) => config_toml::chainlist_read(v, Some(c.chainlist)),
            None => forall|empty: Json|
                (empty is Object && empty->Object_0@.len() == 0)
                    ==> #[trigger] config_toml::chainlist_read(empty, Some(c.chainlist)),
        },
        match written(j, "discovery"@, 5) {
            Some(v) => config_toml::discovery_read(v, Some(c.discovery)),
            None => forall|empty: Json|
                (empty is Object && empty->Object_0@.len() == 0)
                    ==> #[trigger] config_toml::discovery_read(empty, Some(c.discovery)),
        },
        match written(j, "upstream"@, 6) {
            Some(v) => config_toml::upstream_read(v, Some(c.upstream)),
            None => forall|empty: Json|
                (empty is Object && empty->Object_0@.len() == 0)
                    ==> #[trigger] config_toml::upstream_read(empty, Some(c.upstream)),
        },
        match written(j, "probe"@, 7) {
            Some(v) => config_toml::probe_read(v, Some(c.probe)),
            None => forall|empty: Json|
                (empty is Object && empty->Object_0@.len() == 0)
                    ==> #[trigger] config_toml::probe_read(empty, Some(c.probe)),
        },
        match written(j, "cache"@, 8) {
            Some(v) => config_toml::cache_read(v, Some(c.cache)),
            None => forall|empty: Json|
                (empty is Object && empty->Object_0@.len() == 0)
                    ==> #[trigger] config_toml::cache_read(empty, Some(c.cache)),
        },
        match written(j, "hedging"@, 9) {
            Some(v) => config_toml::hedging_read(v, Some(c.hedging)),
            None => forall|empty: Json|
                (empty is Object && empty->Object_0@.len() == 0)
                    ==> #[trigger] config_toml::hedging_read(empty, Some(c.hedging)),
        },
        match written(j, "state"@, 11) {
            Some(v) => config_toml::state_read(v, Some(c.state)),
            None => forall|empty: Json|
                (empty is Object && empty->Object_0@.len() == 0)
                    ==> #[trigger] config_toml::state_read(empty, Some(c.state)),
        },
        match written(j, "admin"@, 12) {
            Some(v) => config_toml::admin_read(v, Some(c.admin)),
            None => forall|empty: Json|
                (empty is Object && empty->Object_0@.len() == 0)
                    ==> #[trigger] config_toml::admin_read(empty, Some(c.admin)),
        },
        match written(j, "chain_overrides"@, 10) {
            None => c.chain_overrides@.len() == 0,
            Some(v) => v matches Json::Array(items) && items@.len() == c.chain_overrides@.len()
                && forall|i: int|
                0 <= i < items@.len() ==> config_toml::chain_read(
                    items@[i],
                    Some(#[trigger] c.chain_overrides@[i]),
                ),
        },
{
    lemma_numbers(j, "chains"@, 2, seq![1u64, 143u64], c.chains@);
    assert forall|empty: Json| (empty is Object && empty->Object_0@.len() == 0) implies
        #[trigger] config_toml::discovery_read(empty, Some(c.discovery)) || written(j, "discovery"@, 5)
        is Some by {
        if written(j, "discovery"@, 5) is None {
            assert(c.discovery.deny@ =~= Seq::<u64>::empty());
        }
    }
    assert forall|empty: Json| (empty is Object && empty->Object_0@.len() == 0) implies
        #[trigger] config_toml::admin_read(empty, Some(c.admin)) || written(j, "admin"@, 12) is Some by {
        if written(j, "admin"@, 12) is None {
            assert(c.admin.cors_allow_origins@.map_values(|s: String| s@) =~= Seq::<
                Seq<char>,
            >::empty());
        }
    }
}

/// Without a file everything is as with one in which nothing is written.
pub proof fn lemma_no_file_is_an_empty_one(j: Json, c: Config)
    requires
        j is Object,
        j->Object_0@.len() == 0,
    ensures
        crate::config::is_default(c) <==> config_toml::config_read(j, Some(c)),
        !config_toml::config_read(j, None),
{
    if crate::config::is_default(c) {
        assert(config_toml::numbers_at(j, "chains"@, 2, seq![1u64, 143u64]) == Some(c.chains@));
    }
}

} // verus!
