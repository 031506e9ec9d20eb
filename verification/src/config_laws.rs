//! What the configuration is for: whatever is wrong with it is found, nothing else is held against it, and
//! the environment replaces what it names.
use crate::config::{ChainOverride, Config, ConfigFault};
use crate::config_env::{ConfigError, EnvFault, ListenOverride};
use crate::text;
use vstd::prelude::*;

verus! {

/// Whether a token can be sent: it is not empty and holds no control character but the tab.
pub open spec fn can_be_sent(token: Seq<char>) -> bool {
    &&& token.len() > 0
    &&& forall|i: int|
        0 <= i < vstd::utf8::encode_utf8(token).len() ==> {
            let b = #[trigger] vstd::utf8::encode_utf8(token)[i];
            (b >= 32 || b == 9) && b != 127
        }
}

/// A configuration is in order exactly where each of its numbers, names and lists is.
pub proof fn lemma_what_is_in_order(c: Config)
    ensures
        crate::config::first_fault(c) is None <==> {
            &&& c.discovery.enabled || c.chains@.len() > 0
            &&& c.chains@.no_duplicates()
            &&& forall|i: int|
                0 <= i < c.discovery.deny@.len() ==> !c.chains@.contains(
                    #[trigger] c.discovery.deny@[i],
                )
            &&& 1 <= c.server.batch_limit <= 100
            &&& c.server.max_body_bytes > 0 && c.server.max_concurrent_requests > 0
                && c.server.shutdown_deadline_ms > 0
            &&& c.server.per_ip_rate_limit.enabled
                ==> c.server.per_ip_rate_limit.requests_per_second > 0
                && c.server.per_ip_rate_limit.burst > 0
            &&& c.server.metrics_auth_token matches Some(t) ==> can_be_sent(t@)
            &&& c.chainlist.refresh_seconds > 0
            &&& c.discovery.max_hot_chains > 0 && c.discovery.idle_seconds > 0
            &&& c.discovery.auto_enable.min_endpoints > 0 && c.discovery.auto_enable.max_chains > 0
                && c.discovery.auto_enable.probe_batch > 0
                && c.discovery.auto_enable.promote_after_rounds > 0
                && c.discovery.auto_enable.probe_concurrency > 0
            &&& c.state.backend@ == "redis"@ || c.state.backend@ == "file"@ || c.state.backend@
                == "memory"@
            &&& text::trimmed(c.state.namespace@).len() > 0
            &&& c.state.flush_interval_ms > 0 && c.state.health_ttl_seconds > 0
            &&& c.admin.auth_token matches Some(t) ==> can_be_sent(t@)
            &&& c.admin.auth_token is Some ==> forall|i: int|
                0 <= i < c.admin.cors_allow_origins@.len() ==> (
                #[trigger] c.admin.cors_allow_origins@[i])@ != "*"@
            &&& c.upstream.request_timeout_ms > 0 && c.upstream.deadline_ms > 0
                && c.upstream.slow_threshold_ms > 0
            &&& 1 <= c.upstream.max_attempts <= 4
            &&& c.upstream.default_rps > 0 && c.upstream.default_concurrency > 0
            &&& 1 <= c.probe.min_interval_seconds <= c.probe.max_interval_seconds
            &&& c.probe.max_concurrency > 0 && c.probe.request_timeout_ms > 0
            &&& c.cache.max_bytes > 0 && c.cache.immutable_ttl_seconds >= 3_600
            &&& c.hedging.delay_ms > 0 && 1 <= c.hedging.max_percent <= 10
                && c.hedging.min_active_endpoints >= 2
            &&& forall|i: int|
                0 <= i < c.chain_overrides@.len() ==> limits_are_set(
                    #[trigger] c.chain_overrides@[i],
                )
        },
{
    lemma_tokens(c);
    if crate::config::any_zero_limit(c) {
        let i = choose|i: int|
            0 <= i < c.chain_overrides@.len() && crate::config::has_zero_limit(
                #[trigger] c.chain_overrides@[i],
            );
        lemma_limits(c.chain_overrides@[i]);
        assert(!limits_are_set(c.chain_overrides@[i]));
    } else {
        assert forall|i: int| 0 <= i < c.chain_overrides@.len() implies limits_are_set(
            #[trigger] c.chain_overrides@[i],
        ) by {
            lemma_limits(c.chain_overrides@[i]);
            assert(!crate::config::has_zero_limit(c.chain_overrides@[i]));
        }
    }
}

/// Whether none of the limits that are given for the endpoints of a chain is zero.
pub open spec fn limits_are_set(o: crate::config::ChainOverride) -> bool {
    forall|i: int|
        0 <= i < o.endpoint_overrides@.len() ==> (#[trigger] o.endpoint_overrides@[i]).rps != Some(
            0u32,
        ) && o.endpoint_overrides@[i].concurrency != Some(0usize)
}

proof fn lemma_limits(o: crate::config::ChainOverride)
    ensures
        limits_are_set(o) <==> !crate::config::has_zero_limit(o),
{
    if crate::config::has_zero_limit(o) {
        let i = choose|i: int|
            0 <= i < o.endpoint_overrides@.len() && crate::config::zero_limit(
                #[trigger] o.endpoint_overrides@[i],
            );
        assert(!(o.endpoint_overrides@[i].rps != Some(0u32)
            && o.endpoint_overrides@[i].concurrency != Some(0usize)));
    } else {
        assert forall|i: int| 0 <= i < o.endpoint_overrides@.len() implies (
        #[trigger] o.endpoint_overrides@[i]).rps != Some(0u32)
            && o.endpoint_overrides@[i].concurrency != Some(0usize) by {
            assert(!crate::config::zero_limit(o.endpoint_overrides@[i]));
        }
    }
}

proof fn lemma_token(t: Seq<char>)
    ensures
        can_be_sent(t) <==> t.len() > 0 && !crate::config::has_header_control(t),
{
    let bytes = vstd::utf8::encode_utf8(t);
    if crate::config::has_header_control(t) {
        let i = choose|i: int|
            0 <= i < bytes.len() && crate::config::header_control(#[trigger] bytes[i]);
        assert(!((bytes[i] >= 32 || bytes[i] == 9) && bytes[i] != 127));
    } else {
        assert forall|i: int| 0 <= i < bytes.len() implies {
            let b = #[trigger] bytes[i];
            (b >= 32 || b == 9) && b != 127
        } by {
            assert(!crate::config::header_control(bytes[i]));
        }
    }
}

proof fn lemma_tokens(c: Config)
    ensures
        c.server.metrics_auth_token matches Some(t) ==> (can_be_sent(t@) <==> t@.len() > 0
            && !crate::config::has_header_control(t@)),
        c.admin.auth_token matches Some(t) ==> (can_be_sent(t@) <==> t@.len() > 0
            && !crate::config::has_header_control(t@)),
{
    if let Some(t) = c.server.metrics_auth_token {
        lemma_token(t@);
    }
    if let Some(t) = c.admin.auth_token {
        lemma_token(t@);
    }
}

/// What holds where nothing is configured, and that it is in order.
pub proof fn lemma_defaults_are_in_order(c: Config)
    requires
        crate::config::is_default(c),
    ensures
        crate::config::first_fault(c) is None,
        c.discovery.enabled && c.discovery.include_testnets && c.discovery.deny@.len() == 0,
        c.discovery.max_hot_chains == 256 && c.discovery.idle_seconds == 600,
        c.chainlist.refresh_seconds == 3_600 && c.chainlist.stale_grace_seconds == 86_400,
        c.upstream.default_rps == 15 && c.upstream.default_concurrency == 8,
        c.upstream.max_attempts == 4,
        c.probe.min_interval_seconds == 15 && c.probe.max_interval_seconds == 30
            && c.probe.max_block_lag == 5,
        c.hedging.enabled && c.hedging.delay_ms == 300 && c.hedging.max_percent == 10,
        c.state.backend@ == "redis"@ && !c.state.required && c.state.restore_hot
            && c.state.health_ttl_seconds == 86_400 && c.state.flush_interval_ms == 2_000,
        c.admin.enabled && c.admin.public_site && c.admin.auth_token is None
            && !c.admin.allow_private_endpoints,
        c.discovery.auto_enable.enabled && c.discovery.auto_enable.min_endpoints == 5
            && c.discovery.auto_enable.max_chains == 400
            && c.discovery.auto_enable.max_candidates == 512
            && c.discovery.auto_enable.promote_after_rounds == 2
            && c.discovery.auto_enable.min_active_endpoints == 2
            && c.discovery.auto_enable.head_tolerance_blocks == 64
            && c.discovery.auto_enable.probe_batch == 32
            && c.discovery.auto_enable.max_endpoints_per_chain == 8,
{
    reveal_strlit("rpcrouter");
    let s = "rpcrouter"@;
    assert(s.len() == 9 && s[0] == 'r' && s[8] == 'r');
    text::lemma_common_spaces('r');
    assert(text::trim_front(s) == s);
    assert(text::trim_back(s) == s);
}

/// The first variable of a name counts; a value of nothing but white space counts as none.
pub proof fn lemma_first_variable_counts(env: Seq<(String, String)>, key: Seq<char>, i: int)
    requires
        0 <= i <= env.len(),
        forall|j: int| 0 <= j < i ==> (#[trigger] env[j]).0@ != key,
        i < env.len() ==> env[i].0@ == key,
    ensures
        i == env.len() ==> crate::config_env::setting(env, key) is None,
        i < env.len() && text::trimmed(env[i].1@).len() == 0 ==> crate::config_env::setting(
            env,
            key,
        ) is None,
        i < env.len() && text::trimmed(env[i].1@).len() > 0 ==> crate::config_env::setting(env, key)
            == Some(env[i].1),
        i < env.len() ==> crate::config_env::variable(env, key) == Some(env[i].1),
        i == env.len() ==> crate::config_env::variable(env, key) is None,
    decreases i,
{
    if i > 0 {
        let rest = env.skip(1);
        assert(env[0].0@ != key);
        assert forall|j: int| 0 <= j < i - 1 implies (#[trigger] rest[j]).0@ != key by {
            assert(rest[j] == env[j + 1]);
        }
        lemma_first_variable_counts(rest, key, i - 1);
    }
}

/// Which words stand for yes and which for no, in whatever case; any other stands for neither.
pub proof fn lemma_words_for_yes_and_no(s: Seq<char>)
    ensures
        ({
            let w = text::lowered(text::trimmed(s));
            &&& crate::config_env::read_bool(s) == Some(true) <==> w == "1"@ || w == "true"@ || w
                == "yes"@ || w == "on"@
            &&& crate::config_env::read_bool(s) == Some(false) <==> w == "0"@ || w == "false"@ || w
                == "no"@ || w == "off"@
        }),
{
    reveal_strlit("1");
    reveal_strlit("true");
    reveal_strlit("yes");
    reveal_strlit("on");
    reveal_strlit("0");
    reveal_strlit("false");
    reveal_strlit("no");
    reveal_strlit("off");
    assert("1"@.len() == 1 && "true"@.len() == 4 && "yes"@.len() == 3 && "on"@.len() == 2);
    assert("0"@.len() == 1 && "false"@.len() == 5 && "no"@.len() == 2 && "off"@.len() == 3);
    assert("1"@[0] == '1' && "0"@[0] == '0' && "on"@[0] == 'o' && "no"@[0] == 'n');
    assert("yes"@[0] == 'y' && "off"@[0] == 'o');
}

/// A list of chains is read piece by piece between the commas: each is a chain's id, with white space
/// around it or not, or nothing, and the first that is neither is reported.
pub proof fn lemma_lists_of_chains(s: Seq<char>, c: char, list: Seq<Seq<char>>, piece: Seq<char>)
    ensures
        crate::config_env::pieces(Seq::empty()) == seq![Seq::<char>::empty()],
        c == ',' ==> crate::config_env::pieces(s.push(c)) == crate::config_env::pieces(s).push(
            Seq::empty(),
        ),
        c != ',' ==> crate::config_env::pieces(s.push(c)).len() == crate::config_env::pieces(s).len()
            && crate::config_env::pieces(s.push(c)).last() == crate::config_env::pieces(s).last().push(
            c,
        ) && crate::config_env::pieces(s.push(c)).drop_last() == crate::config_env::pieces(
            s,
        ).drop_last(),
        match crate::config_env::chain_ids_of(list) {
            Err(bad) => crate::config_env::chain_ids_of(list.push(piece)) == Err::<
                Seq<u64>,
                Seq<char>,
            >(bad),
            Ok(ids) => {
                let t = text::trimmed(piece);
                let n = text::read_bounded(t, 10, 0xffff_ffff_ffff_ffff);
                &&& t.len() == 0 ==> crate::config_env::chain_ids_of(list.push(piece)) == Ok::<
                    Seq<u64>,
                    Seq<char>,
                >(ids)
                &&& t.len() > 0 && n is Some ==> crate::config_env::chain_ids_of(list.push(piece))
                    == Ok::<Seq<u64>, Seq<char>>(ids.push(n->0 as u64))
                &&& t.len() > 0 && n is None ==> crate::config_env::chain_ids_of(list.push(piece))
                    == Err::<Seq<u64>, Seq<char>>(t)
            },
        },
        crate::config_env::chain_ids_of(Seq::empty()) == Ok::<Seq<u64>, Seq<char>>(Seq::empty()),
{
    assert(s.push(c).drop_last() =~= s);
    assert(list.push(piece).drop_last() =~= list);
    lemma_pieces_are_some(s);
    let p = crate::config_env::pieces(s);
    if c != ',' {
        assert(p.update(p.len() - 1, p.last().push(c)).drop_last() =~= p.drop_last());
    }
}

proof fn lemma_pieces_are_some(s: Seq<char>)
    ensures
        crate::config_env::pieces(s).len() > 0,
    decreases s.len(),
{
    if s.len() > 0 {
        lemma_pieces_are_some(s.drop_last());
    }
}

/// An environment in which none of the variables is set changes nothing.
pub proof fn lemma_empty_environment_changes_nothing(
    old: Config,
    new: Config,
    env: Seq<(String, String)>,
    listen: ListenOverride,
)
    requires
        crate::config_env::taken_over(old, new, env, listen),
        forall|k: Seq<char>| #[trigger] crate::config_env::setting(env, k) is None,
        !(listen is Valid) && !(listen is Invalid),
    ensures
        new.chains == old.chains && new.listen == old.listen,
        new.cache == old.cache && new.metrics_enabled == old.metrics_enabled,
        new.chainlist == old.chainlist && new.discovery == old.discovery,
        new.state == old.state && new.admin == old.admin,
        new.server == old.server && new.upstream == old.upstream && new.probe == old.probe,
        new.hedging == old.hedging && new.chain_overrides == old.chain_overrides,
{
}

/// Whether a number is not given, or is one of at most `max`.
pub open spec fn number_can_be_used(given: Option<String>, max: int) -> bool {
    given matches Some(t) ==> (text::read_number(t@, 10) matches Some(n) && n <= max)
}

/// Whether yes or no is not given, or is either.
pub open spec fn word_can_be_used(given: Option<String>) -> bool {
    given matches Some(t) ==> crate::config_env::read_bool(t@) is Some
}

/// Whether every variable that is set holds what its setting can take.
pub open spec fn all_can_be_used(env: Seq<(String, String)>, listen: ListenOverride) -> bool {
    &&& !(listen is Invalid)
    &&& crate::config_env::setting(env, "RPCROUTER_CHAINS"@) matches Some(t)
        ==> crate::config_env::read_chains(t@) is Ok
    &&& number_can_be_used(crate::config_env::setting(env, "RPCROUTER_CACHE_MAX_BYTES"@), u64::MAX as int)
    &&& number_can_be_used(crate::config_env::setting(env, "RPCROUTER_CHAINLIST_REFRESH_SECONDS"@), u64::MAX as int)
    &&& number_can_be_used(crate::config_env::setting(env, "RPCROUTER_DISCOVERY_MAX_HOT_CHAINS"@), usize::MAX as int)
    &&& number_can_be_used(crate::config_env::setting(env, "RPCROUTER_DISCOVERY_IDLE_SECONDS"@), u64::MAX as int)
    &&& number_can_be_used(crate::config_env::setting(env, "RPCROUTER_AUTO_ENABLE_MIN_ENDPOINTS"@), usize::MAX as int)
    &&& number_can_be_used(crate::config_env::setting(env, "RPCROUTER_AUTO_ENABLE_MAX_CHAINS"@), usize::MAX as int)
    &&& word_can_be_used(crate::config_env::setting(env, "RPCROUTER_METRICS_ENABLED"@))
    &&& word_can_be_used(crate::config_env::setting(env, "RPCROUTER_DISCOVERY_ENABLED"@))
    &&& word_can_be_used(crate::config_env::setting(env, "RPCROUTER_AUTO_ENABLE_ENABLED"@))
    &&& word_can_be_used(crate::config_env::setting(env, "RPCROUTER_STATE_RESET"@))
    &&& word_can_be_used(crate::config_env::setting(env, "RPCROUTER_STATE_RESTORE_HOT"@))
    &&& word_can_be_used(crate::config_env::setting(env, "RPCROUTER_STATE_REQUIRED"@))
    &&& word_can_be_used(crate::config_env::setting(env, "RPCROUTER_ADMIN_PUBLIC_SITE"@))
}

/// How a number comes out: as given, or as it was.
pub open spec fn number_follows(given: Option<String>, before: int, after: int) -> bool {
    match given {
        Some(t) => text::read_number(t@, 10) == Some(after),
        None => after == before,
    }
}

/// How yes or no comes out: as given, or as it was.
pub open spec fn word_follows(given: Option<String>, before: bool, after: bool) -> bool {
    match given {
        Some(t) => crate::config_env::read_bool(t@) == Some(after),
        None => after == before,
    }
}

/// How a text comes out: as given, or as it was.
pub open spec fn text_follows(given: Option<String>, before: String, after: String) -> bool {
    match given {
        Some(t) => after == t,
        None => after == before,
    }
}

/// What a usable environment replaces: each setting by the value of its variable, where that is set, and
/// no other.
#[verifier::rlimit(40)]
pub proof fn lemma_environment_replaces_what_it_names(
    old: Config,
    new: Config,
    env: Seq<(String, String)>,
    listen: ListenOverride,
)
    requires
        crate::config_env::taken_over(old, new, env, listen),
        all_can_be_used(env, listen),
    ensures
        match crate::config_env::setting(env, "RPCROUTER_CHAINS"@) {
            Some(t) => crate::config_env::read_chains(t@) == Ok::<Seq<u64>, Seq<char>>(new.chains@),
            None => new.chains == old.chains,
        },
        match listen {
            ListenOverride::Valid(s) => new.listen == s,
            _ => new.listen == old.listen,
        },
        number_follows(
            crate::config_env::setting(env, "RPCROUTER_CACHE_MAX_BYTES"@),
            old.cache.max_bytes as int,
            new.cache.max_bytes as int,
        ),
        number_follows(
            crate::config_env::setting(env, "RPCROUTER_CHAINLIST_REFRESH_SECONDS"@),
            old.chainlist.refresh_seconds as int,
            new.chainlist.refresh_seconds as int,
        ),
        number_follows(
            crate::config_env::setting(env, "RPCROUTER_DISCOVERY_MAX_HOT_CHAINS"@),
            old.discovery.max_hot_chains as int,
            new.discovery.max_hot_chains as int,
        ),
        number_follows(
            crate::config_env::setting(env, "RPCROUTER_DISCOVERY_IDLE_SECONDS"@),
            old.discovery.idle_seconds as int,
            new.discovery.idle_seconds as int,
        ),
        number_follows(
            crate::config_env::setting(env, "RPCROUTER_AUTO_ENABLE_MIN_ENDPOINTS"@),
            old.discovery.auto_enable.min_endpoints as int,
            new.discovery.auto_enable.min_endpoints as int,
        ),
        number_follows(
            crate::config_env::setting(env, "RPCROUTER_AUTO_ENABLE_MAX_CHAINS"@),
            old.discovery.auto_enable.max_chains as int,
            new.discovery.auto_enable.max_chains as int,
        ),
        word_follows(
            crate::config_env::setting(env, "RPCROUTER_METRICS_ENABLED"@),
            old.metrics_enabled,
            new.metrics_enabled,
        ),
        word_follows(
            crate::config_env::setting(env, "RPCROUTER_DISCOVERY_ENABLED"@),
            old.discovery.enabled,
            new.discovery.enabled,
        ),
        word_follows(
            crate::config_env::setting(env, "RPCROUTER_AUTO_ENABLE_ENABLED"@),
            old.discovery.auto_enable.enabled,
            new.discovery.auto_enable.enabled,
        ),
        word_follows(
            crate::config_env::setting(env, "RPCROUTER_STATE_RESET"@),
            old.state.reset,
            new.state.reset,
        ),
        word_follows(
            crate::config_env::setting(env, "RPCROUTER_STATE_RESTORE_HOT"@),
            old.state.restore_hot,
            new.state.restore_hot,
        ),
        word_follows(
            crate::config_env::setting(env, "RPCROUTER_STATE_REQUIRED"@),
            old.state.required,
            new.state.required,
        ),
        word_follows(
            crate::config_env::setting(env, "RPCROUTER_ADMIN_PUBLIC_SITE"@),
            old.admin.public_site,
            new.admin.public_site,
        ),
        text_follows(
            crate::config_env::setting(env, "RPCROUTER_CHAINLIST_CACHE_PATH"@),
            old.chainlist.cache_path,
            new.chainlist.cache_path,
        ),
        text_follows(
            crate::config_env::setting(env, "RPCROUTER_STATE_BACKEND"@),
            old.state.backend,
            new.state.backend,
        ),
        text_follows(
            crate::config_env::setting(env, "RPCROUTER_REDIS_URL"@),
            old.state.redis_url,
            new.state.redis_url,
        ),
        text_follows(
            crate::config_env::setting(env, "RPCROUTER_STATE_NAMESPACE"@),
            old.state.namespace,
            new.state.namespace,
        ),
        match crate::config_env::setting(env, "RPCROUTER_ADMIN_TOKEN"@) {
            Some(t) => new.admin.auth_token == Some(t),
            None => new.admin.auth_token == old.admin.auth_token,
        },
        match crate::config_env::setting(env, "RPCROUTER_ADMIN_STATIC_DIR"@) {
            Some(t) => new.admin.static_dir == Some(t),
            None => new.admin.static_dir == old.admin.static_dir,
        },
        new.discovery.deny == old.discovery.deny && new.discovery.include_testnets
            == old.discovery.include_testnets,
        new.server == old.server && new.upstream == old.upstream && new.probe == old.probe,
        new.hedging == old.hedging && new.chain_overrides == old.chain_overrides,
{
    lemma_given_number(crate::config_env::setting(env, "RPCROUTER_CACHE_MAX_BYTES"@));
    lemma_given_number(crate::config_env::setting(env, "RPCROUTER_CHAINLIST_REFRESH_SECONDS"@));
    lemma_given_number(crate::config_env::setting(env, "RPCROUTER_DISCOVERY_MAX_HOT_CHAINS"@));
    lemma_given_number(crate::config_env::setting(env, "RPCROUTER_DISCOVERY_IDLE_SECONDS"@));
    lemma_given_number(crate::config_env::setting(env, "RPCROUTER_AUTO_ENABLE_MIN_ENDPOINTS"@));
    lemma_given_number(crate::config_env::setting(env, "RPCROUTER_AUTO_ENABLE_MAX_CHAINS"@));
}

proof fn lemma_given_number(given: Option<String>)
    ensures
        given matches Some(t) ==> (text::read_number(t@, 10) matches Some(n) ==> n >= 0),
{
    if let Some(t) = given {
        text::lemma_no_number_is_negative(t@, 10);
    }
}

/// Whether the variable that a fault speaks of cannot be used.
pub open spec fn cannot_be_used(
    env: Seq<(String, String)>,
    listen: ListenOverride,
    f: EnvFault,
) -> bool {
    match f {
        EnvFault::Listen => listen is Invalid,
        EnvFault::CacheMaxBytes => !number_can_be_used(
            crate::config_env::setting(env, "RPCROUTER_CACHE_MAX_BYTES"@),
            u64::MAX as int,
        ),
        EnvFault::MetricsEnabled => !word_can_be_used(
            crate::config_env::setting(env, "RPCROUTER_METRICS_ENABLED"@),
        ),
        EnvFault::ChainlistRefreshSeconds => !number_can_be_used(
            crate::config_env::setting(env, "RPCROUTER_CHAINLIST_REFRESH_SECONDS"@),
            u64::MAX as int,
        ),
        EnvFault::DiscoveryEnabled => !word_can_be_used(
            crate::config_env::setting(env, "RPCROUTER_DISCOVERY_ENABLED"@),
        ),
        EnvFault::DiscoveryMaxHotChains => !number_can_be_used(
            crate::config_env::setting(env, "RPCROUTER_DISCOVERY_MAX_HOT_CHAINS"@),
            usize::MAX as int,
        ),
        EnvFault::DiscoveryIdleSeconds => !number_can_be_used(
            crate::config_env::setting(env, "RPCROUTER_DISCOVERY_IDLE_SECONDS"@),
            u64::MAX as int,
        ),
        EnvFault::AutoEnableEnabled => !word_can_be_used(
            crate::config_env::setting(env, "RPCROUTER_AUTO_ENABLE_ENABLED"@),
        ),
        EnvFault::AutoEnableMinEndpoints => !number_can_be_used(
            crate::config_env::setting(env, "RPCROUTER_AUTO_ENABLE_MIN_ENDPOINTS"@),
            usize::MAX as int,
        ),
        EnvFault::AutoEnableMaxChains => !number_can_be_used(
            crate::config_env::setting(env, "RPCROUTER_AUTO_ENABLE_MAX_CHAINS"@),
            usize::MAX as int,
        ),
        EnvFault::StateReset => !word_can_be_used(
            crate::config_env::setting(env, "RPCROUTER_STATE_RESET"@),
        ),
        EnvFault::StateRestoreHot => !word_can_be_used(
            crate::config_env::setting(env, "RPCROUTER_STATE_RESTORE_HOT"@),
        ),
        EnvFault::StateRequired => !word_can_be_used(
            crate::config_env::setting(env, "RPCROUTER_STATE_REQUIRED"@),
        ),
        EnvFault::AdminPublicSite => !word_can_be_used(
            crate::config_env::setting(env, "RPCROUTER_ADMIN_PUBLIC_SITE"@),
        ),
    }
}

/// Whether the list of chains holds an entry that is no chain id.
pub open spec fn chains_cannot_be_used(env: Seq<(String, String)>) -> bool {
    crate::config_env::setting(env, "RPCROUTER_CHAINS"@) matches Some(t)
        && crate::config_env::read_chains(t@) is Err
}

/// The order in which variables are looked at; the list of chains comes right after the listen address.
pub open spec fn read_as(f: EnvFault) -> int {
    match f {
        EnvFault::Listen => 0,
        EnvFault::CacheMaxBytes => 2,
        EnvFault::MetricsEnabled => 3,
        EnvFault::ChainlistRefreshSeconds => 4,
        EnvFault::DiscoveryEnabled => 5,
        EnvFault::DiscoveryMaxHotChains => 6,
        EnvFault::DiscoveryIdleSeconds => 7,
        EnvFault::AutoEnableEnabled => 8,
        EnvFault::AutoEnableMinEndpoints => 9,
        EnvFault::AutoEnableMaxChains => 10,
        EnvFault::StateReset => 11,
        EnvFault::StateRestoreHot => 12,
        EnvFault::StateRequired => 13,
        EnvFault::AdminPublicSite => 14,
    }
}

/// Of the variables that cannot be used, the one that is looked at first is reported; of the list of chains,
/// its first entry that is no chain id.
#[verifier::rlimit(60)]
pub proof fn lemma_unusable_variables_are_reported(
    env: Seq<(String, String)>,
    listen: ListenOverride,
    error: ConfigError,
    other: EnvFault,
)
    requires
        crate::config_env::env_error(env, listen, error),
        !all_can_be_used(env, listen),
    ensures
        error is Env || error is ChainEntry,
        error matches ConfigError::Env(f) ==> {
            &&& cannot_be_used(env, listen, f)
            &&& read_as(other) < read_as(f) ==> !cannot_be_used(env, listen, other)
            &&& read_as(f) > 1 ==> !chains_cannot_be_used(env)
        },
        error matches ConfigError::ChainEntry(bad) ==> {
            &&& !(listen is Invalid)
            &&& crate::config_env::setting(env, "RPCROUTER_CHAINS"@) matches Some(t)
                && crate::config_env::read_chains(t@) == Err::<Seq<u64>, Seq<char>>(bad@)
        },
{
}

/// The URLs that the entry of a chain lists as disabled are switched off; a chain without an entry has none.
pub proof fn lemma_disabled_urls_are_switched_off(c: Config, chain_id: u64, url: Seq<char>)
    ensures
        c.override_for(chain_id) is None ==> !c.switched_off(chain_id, url),
        c.override_for(chain_id) matches Some(o) ==> (c.switched_off(chain_id, url) <==> exists|i: int|
            0 <= i < o.disabled_endpoints@.len() && (#[trigger] o.disabled_endpoints@[i])@ == url),
{
}

/// What is wrong where a fault is reported.
pub open spec fn is_wrong(c: Config, f: ConfigFault) -> bool {
    let a = c.discovery.auto_enable;
    match f {
        ConfigFault::NoChains => !c.discovery.enabled && c.chains@.len() == 0,
        ConfigFault::DuplicateChains => !c.chains@.no_duplicates(),
        ConfigFault::DeniedPinnedChain => {
            exists|i: int|
            0 <= i < c.discovery.deny@.len() && c.chains@.contains(#[trigger] c.discovery.deny@[i])
        },
        ConfigFault::BatchLimit => c.server.batch_limit == 0 || c.server.batch_limit > 100,
        ConfigFault::MaxBodyBytes => c.server.max_body_bytes == 0,
        ConfigFault::MaxConcurrentRequests => c.server.max_concurrent_requests == 0,
        ConfigFault::ShutdownDeadline => c.server.shutdown_deadline_ms == 0,
        ConfigFault::PerIpRateLimit => {
            c.server.per_ip_rate_limit.enabled && (
        c.server.per_ip_rate_limit.requests_per_second == 0 || c.server.per_ip_rate_limit.burst == 0)
        },
        ConfigFault::EmptyMetricsToken => {
            c.server.metrics_auth_token matches Some(t) && t@.len() == 0
        },
        ConfigFault::MetricsToken => {
            c.server.metrics_auth_token matches Some(t) && !can_be_sent(t@)
        },
        ConfigFault::RefreshSeconds => c.chainlist.refresh_seconds == 0,
        ConfigFault::MaxHotChains => c.discovery.max_hot_chains == 0,
        ConfigFault::AutoEnableLimits => {
            a.min_endpoints == 0 || a.max_chains == 0 || a.probe_batch == 0
            || a.promote_after_rounds == 0 || a.probe_concurrency == 0
        },
        ConfigFault::StateBackend => {
            c.state.backend@ != "redis"@ && c.state.backend@ != "file"@
            && c.state.backend@ != "memory"@
        },
        ConfigFault::StateNamespace => text::trimmed(c.state.namespace@).len() == 0,
        ConfigFault::StateIntervals => c.state.flush_interval_ms == 0 || c.state.health_ttl_seconds == 0,
        ConfigFault::AdminToken => {
            c.admin.auth_token matches Some(t) && !can_be_sent(t@)
        },
        ConfigFault::CorsWildcard => {
            c.admin.auth_token is Some && exists|i: int|
            0 <= i < c.admin.cors_allow_origins@.len() && (
            #[trigger] c.admin.cors_allow_origins@[i])@ == "*"@
        },
        ConfigFault::IdleSeconds => c.discovery.idle_seconds == 0,
        ConfigFault::UpstreamTimeouts => c.upstream.request_timeout_ms == 0 || c.upstream.deadline_ms == 0,
        ConfigFault::SlowThreshold => c.upstream.slow_threshold_ms == 0,
        ConfigFault::MaxAttempts => c.upstream.max_attempts == 0 || c.upstream.max_attempts > 4,
        ConfigFault::UpstreamLimits => c.upstream.default_rps == 0 || c.upstream.default_concurrency == 0,
        ConfigFault::ProbeInterval => {
            c.probe.min_interval_seconds == 0
            || c.probe.min_interval_seconds > c.probe.max_interval_seconds
        },
        ConfigFault::ProbeLimits => c.probe.max_concurrency == 0 || c.probe.request_timeout_ms == 0,
        ConfigFault::Cache => c.cache.max_bytes == 0 || c.cache.immutable_ttl_seconds < 3_600,
        ConfigFault::Hedging => {
            c.hedging.delay_ms == 0 || c.hedging.max_percent == 0
            || c.hedging.max_percent > 10 || c.hedging.min_active_endpoints < 2
        },
        ConfigFault::EndpointLimits => {
            exists|i: int|
            0 <= i < c.chain_overrides@.len() && !limits_are_set(#[trigger] c.chain_overrides@[i])
        },
    }
}

/// The order in which settings are looked at.
pub open spec fn looked_at_as(f: ConfigFault) -> int {
    match f {
        ConfigFault::NoChains => 0,
        ConfigFault::DuplicateChains => 1,
        ConfigFault::DeniedPinnedChain => 2,
        ConfigFault::BatchLimit => 3,
        ConfigFault::MaxBodyBytes => 4,
        ConfigFault::MaxConcurrentRequests => 5,
        ConfigFault::ShutdownDeadline => 6,
        ConfigFault::PerIpRateLimit => 7,
        ConfigFault::EmptyMetricsToken => 8,
        ConfigFault::MetricsToken => 9,
        ConfigFault::RefreshSeconds => 10,
        ConfigFault::MaxHotChains => 11,
        ConfigFault::AutoEnableLimits => 12,
        ConfigFault::StateBackend => 13,
        ConfigFault::StateNamespace => 14,
        ConfigFault::StateIntervals => 15,
        ConfigFault::AdminToken => 16,
        ConfigFault::CorsWildcard => 17,
        ConfigFault::IdleSeconds => 18,
        ConfigFault::UpstreamTimeouts => 19,
        ConfigFault::SlowThreshold => 20,
        ConfigFault::MaxAttempts => 21,
        ConfigFault::UpstreamLimits => 22,
        ConfigFault::ProbeInterval => 23,
        ConfigFault::ProbeLimits => 24,
        ConfigFault::Cache => 25,
        ConfigFault::Hedging => 26,
        ConfigFault::EndpointLimits => 27,
    }
}

/// Where several things are wrong, the one that is looked at first is reported.
#[verifier::rlimit(60)]
pub proof fn lemma_first_of_several_faults(c: Config, f: ConfigFault, other: ConfigFault)
    requires
        crate::config::first_fault(c) == Some(f),
    ensures
        is_wrong(c, f),
        looked_at_as(other) < looked_at_as(f) ==> !is_wrong(c, other),
{
    lemma_tokens(c);
    if crate::config::any_zero_limit(c) {
        let i = choose|i: int|
            0 <= i < c.chain_overrides@.len() && crate::config::has_zero_limit(
                #[trigger] c.chain_overrides@[i],
            );
        lemma_limits(c.chain_overrides@[i]);
        assert(!limits_are_set(c.chain_overrides@[i]));
    }
}

/// Where a variable cannot be used, the settings that are looked at before it are replaced as ever, and it
/// and those after it stay as they were.
#[verifier::rlimit(80)]
pub proof fn lemma_settings_before_a_fault_are_taken(
    old: Config,
    new: Config,
    env: Seq<(String, String)>,
    listen: ListenOverride,
    f: EnvFault,
)
    requires
        crate::config_env::taken_over(old, new, env, listen),
        crate::config_env::env_error(env, listen, ConfigError::Env(f)),
        !all_can_be_used(env, listen),
    ensures
        read_as(f) <= 1 ==> new.chains == old.chains,
        read_as(f) > 2 ==> number_follows(
            crate::config_env::setting(env, "RPCROUTER_CACHE_MAX_BYTES"@),
            old.cache.max_bytes as int,
            new.cache.max_bytes as int,
        ),
        read_as(f) <= 2 ==> new.cache.max_bytes == old.cache.max_bytes,
        read_as(f) > 4 ==> number_follows(
            crate::config_env::setting(env, "RPCROUTER_CHAINLIST_REFRESH_SECONDS"@),
            old.chainlist.refresh_seconds as int,
            new.chainlist.refresh_seconds as int,
        ),
        read_as(f) <= 4 ==> new.chainlist.refresh_seconds == old.chainlist.refresh_seconds,
        read_as(f) > 6 ==> number_follows(
            crate::config_env::setting(env, "RPCROUTER_DISCOVERY_MAX_HOT_CHAINS"@),
            old.discovery.max_hot_chains as int,
            new.discovery.max_hot_chains as int,
        ),
        read_as(f) <= 6 ==> new.discovery.max_hot_chains == old.discovery.max_hot_chains,
        read_as(f) > 7 ==> number_follows(
            crate::config_env::setting(env, "RPCROUTER_DISCOVERY_IDLE_SECONDS"@),
            old.discovery.idle_seconds as int,
            new.discovery.idle_seconds as int,
        ),
        read_as(f) <= 7 ==> new.discovery.idle_seconds == old.discovery.idle_seconds,
        read_as(f) > 9 ==> number_follows(
            crate::config_env::setting(env, "RPCROUTER_AUTO_ENABLE_MIN_ENDPOINTS"@),
            old.discovery.auto_enable.min_endpoints as int,
            new.discovery.auto_enable.min_endpoints as int,
        ),
        read_as(f) <= 9 ==> new.discovery.auto_enable.min_endpoints == old.discovery.auto_enable.min_endpoints,
        read_as(f) > 10 ==> number_follows(
            crate::config_env::setting(env, "RPCROUTER_AUTO_ENABLE_MAX_CHAINS"@),
            old.discovery.auto_enable.max_chains as int,
            new.discovery.auto_enable.max_chains as int,
        ),
        read_as(f) <= 10 ==> new.discovery.auto_enable.max_chains == old.discovery.auto_enable.max_chains,
        read_as(f) > 3 ==> word_follows(
            crate::config_env::setting(env, "RPCROUTER_METRICS_ENABLED"@),
            old.metrics_enabled,
            new.metrics_enabled,
        ),
        read_as(f) <= 3 ==> new.metrics_enabled == old.metrics_enabled,
        read_as(f) > 5 ==> word_follows(
            crate::config_env::setting(env, "RPCROUTER_DISCOVERY_ENABLED"@),
            old.discovery.enabled,
            new.discovery.enabled,
        ),
        read_as(f) <= 5 ==> new.discovery.enabled == old.discovery.enabled,
        read_as(f) > 8 ==> word_follows(
            crate::config_env::setting(env, "RPCROUTER_AUTO_ENABLE_ENABLED"@),
            old.discovery.auto_enable.enabled,
            new.discovery.auto_enable.enabled,
        ),
        read_as(f) <= 8 ==> new.discovery.auto_enable.enabled == old.discovery.auto_enable.enabled,
        read_as(f) > 11 ==> word_follows(
            crate::config_env::setting(env, "RPCROUTER_STATE_RESET"@),
            old.state.reset,
            new.state.reset,
        ),
        read_as(f) <= 11 ==> new.state.reset == old.state.reset,
        read_as(f) > 12 ==> word_follows(
            crate::config_env::setting(env, "RPCROUTER_STATE_RESTORE_HOT"@),
            old.state.restore_hot,
            new.state.restore_hot,
        ),
        read_as(f) <= 12 ==> new.state.restore_hot == old.state.restore_hot,
        read_as(f) > 13 ==> word_follows(
            crate::config_env::setting(env, "RPCROUTER_STATE_REQUIRED"@),
            old.state.required,
            new.state.required,
        ),
        read_as(f) <= 13 ==> new.state.required == old.state.required,
        read_as(f) > 14 ==> word_follows(
            crate::config_env::setting(env, "RPCROUTER_ADMIN_PUBLIC_SITE"@),
            old.admin.public_site,
            new.admin.public_site,
        ),
        read_as(f) <= 14 ==> new.admin.public_site == old.admin.public_site,
        read_as(f) > 4 ==> text_follows(
            crate::config_env::setting(env, "RPCROUTER_CHAINLIST_CACHE_PATH"@),
            old.chainlist.cache_path,
            new.chainlist.cache_path,
        ),
        read_as(f) <= 4 ==> new.chainlist.cache_path == old.chainlist.cache_path,
        read_as(f) > 10 ==> text_follows(
            crate::config_env::setting(env, "RPCROUTER_STATE_BACKEND"@),
            old.state.backend,
            new.state.backend,
        ),
        read_as(f) <= 10 ==> new.state.backend == old.state.backend,
        read_as(f) > 10 ==> text_follows(
            crate::config_env::setting(env, "RPCROUTER_REDIS_URL"@),
            old.state.redis_url,
            new.state.redis_url,
        ),
        read_as(f) <= 10 ==> new.state.redis_url == old.state.redis_url,
        read_as(f) > 10 ==> text_follows(
            crate::config_env::setting(env, "RPCROUTER_STATE_NAMESPACE"@),
            old.state.namespace,
            new.state.namespace,
        ),
        read_as(f) <= 10 ==> new.state.namespace == old.state.namespace,
        new.server == old.server && new.upstream == old.upstream && new.probe == old.probe,
        new.hedging == old.hedging && new.chain_overrides == old.chain_overrides,
{
    lemma_given_number(crate::config_env::setting(env, "RPCROUTER_CACHE_MAX_BYTES"@));
    lemma_given_number(crate::config_env::setting(env, "RPCROUTER_CHAINLIST_REFRESH_SECONDS"@));
    lemma_given_number(crate::config_env::setting(env, "RPCROUTER_DISCOVERY_MAX_HOT_CHAINS"@));
    lemma_given_number(crate::config_env::setting(env, "RPCROUTER_DISCOVERY_IDLE_SECONDS"@));
    lemma_given_number(crate::config_env::setting(env, "RPCROUTER_AUTO_ENABLE_MIN_ENDPOINTS"@));
    lemma_given_number(crate::config_env::setting(env, "RPCROUTER_AUTO_ENABLE_MAX_CHAINS"@));
}

/// Settings of a chain that say nothing: every limit is left as it is and no endpoint is named.
pub proof fn lemma_settings_of_a_chain_that_say_nothing(c: ChainOverride, url: Seq<char>)
    requires
        crate::config::is_default_chain_override(c),
    ensures
        c.block_time_ms is None && c.confirmation_depth is None && c.tip_ttl_ms is None
            && c.max_block_lag is None,
        c.chain_id == 0,
        !crate::config::lists_text(c.extra_endpoints@, url),
        !crate::config::lists_text(c.disabled_endpoints@, url),
        !crate::config::has_zero_limit(c),
{
}

/// A list of texts holds those that were put on it and no others.
pub proof fn lemma_lists_hold_what_was_put_on_them(list: Seq<String>, s: String, other: Seq<char>)
    ensures
        crate::config::lists_text(list.push(s), other) <==> crate::config::lists_text(list, other)
            || s@ == other,
        !crate::config::lists_text(Seq::empty(), other),
{
    let more = list.push(s);
    if crate::config::lists_text(list, other) {
        let i = choose|i: int| 0 <= i < list.len() && (#[trigger] list[i])@ == other;
        assert(more[i] == list[i]);
    }
    if s@ == other {
        assert(more[list.len() as int]@ == other);
    }
    if crate::config::lists_text(more, other) {
        let i = choose|i: int| 0 <= i < more.len() && (#[trigger] more[i])@ == other;
        if i < list.len() {
            assert(list[i]@ == other);
        }
    }
}

} // verus!
