//! Settings taken from environment variables.
use crate::config::{
    AdminConfig, AutoEnableConfig, CacheConfig, ChainlistConfig, Config, ConfigFault,
    DiscoveryConfig, StateConfig,
};
use crate::text;
use vstd::prelude::*;

verus! {

/// What the variable for the listen address asks for. Socket addresses are read by the caller.
#[derive(Debug)]
pub enum ListenOverride {
    Absent,
    Valid(String),
    Invalid,
}

/// A variable whose value cannot be used.
#[derive(Clone, Copy, Debug, PartialEq, Eq, Structural)]
pub enum EnvFault {
    Listen,
    CacheMaxBytes,
    MetricsEnabled,
    ChainlistRefreshSeconds,
    DiscoveryEnabled,
    DiscoveryMaxHotChains,
    DiscoveryIdleSeconds,
    AutoEnableEnabled,
    AutoEnableMinEndpoints,
    AutoEnableMaxChains,
    StateReset,
    StateRestoreHot,
    StateRequired,
    AdminPublicSite,
}

/// Why settings could not be taken over.
#[derive(Debug)]
pub enum ConfigError {
    /// A variable holds a value that cannot be used.
    Env(EnvFault),
    /// An entry of the chain list is not a chain id.
    ChainEntry(String),
    /// The resulting configuration is not valid.
    Fault(ConfigFault),
    /// The configuration text is not a configuration.
    InvalidToml,
}

impl EnvFault {
    pub open spec fn says(self) -> Seq<char> {
        match self {
            EnvFault::Listen => "RPCROUTER_LISTEN is not a valid listen address"@,
            EnvFault::CacheMaxBytes => "RPCROUTER_CACHE_MAX_BYTES is not a valid byte count"@,
            EnvFault::MetricsEnabled => "RPCROUTER_METRICS_ENABLED is not a valid boolean"@,
            EnvFault::ChainlistRefreshSeconds =>
                "RPCROUTER_CHAINLIST_REFRESH_SECONDS is not a valid duration"@,
            EnvFault::DiscoveryEnabled => "RPCROUTER_DISCOVERY_ENABLED is not a valid boolean"@,
            EnvFault::DiscoveryMaxHotChains =>
                "RPCROUTER_DISCOVERY_MAX_HOT_CHAINS is not a valid integer"@,
            EnvFault::DiscoveryIdleSeconds =>
                "RPCROUTER_DISCOVERY_IDLE_SECONDS is not a valid integer"@,
            EnvFault::AutoEnableEnabled => "RPCROUTER_AUTO_ENABLE_ENABLED is not a valid boolean"@,
            EnvFault::AutoEnableMinEndpoints => "invalid auto min endpoints"@,
            EnvFault::AutoEnableMaxChains => "invalid auto max chains"@,
            EnvFault::StateReset => "RPCROUTER_STATE_RESET is not a valid boolean"@,
            EnvFault::StateRestoreHot => "RPCROUTER_STATE_RESTORE_HOT is not a valid boolean"@,
            EnvFault::StateRequired => "RPCROUTER_STATE_REQUIRED is not a valid boolean"@,
            EnvFault::AdminPublicSite => "RPCROUTER_ADMIN_PUBLIC_SITE is not a valid boolean"@,
        }
    }

    /// The fault in words.
    pub fn message(&self) -> (m: String)
        ensures
            m@ == self.says(),
    {
        let m = match self {
            EnvFault::Listen => "RPCROUTER_LISTEN is not a valid listen address",
            EnvFault::CacheMaxBytes => "RPCROUTER_CACHE_MAX_BYTES is not a valid byte count",
            EnvFault::MetricsEnabled => "RPCROUTER_METRICS_ENABLED is not a valid boolean",
            EnvFault::ChainlistRefreshSeconds =>
                "RPCROUTER_CHAINLIST_REFRESH_SECONDS is not a valid duration",
            EnvFault::DiscoveryEnabled => "RPCROUTER_DISCOVERY_ENABLED is not a valid boolean",
            EnvFault::DiscoveryMaxHotChains =>
                "RPCROUTER_DISCOVERY_MAX_HOT_CHAINS is not a valid integer",
            EnvFault::DiscoveryIdleSeconds =>
                "RPCROUTER_DISCOVERY_IDLE_SECONDS is not a valid integer",
            EnvFault::AutoEnableEnabled => "RPCROUTER_AUTO_ENABLE_ENABLED is not a valid boolean",
            EnvFault::AutoEnableMinEndpoints => "invalid auto min endpoints",
            EnvFault::AutoEnableMaxChains => "invalid auto max chains",
            EnvFault::StateReset => "RPCROUTER_STATE_RESET is not a valid boolean",
            EnvFault::StateRestoreHot => "RPCROUTER_STATE_RESTORE_HOT is not a valid boolean",
            EnvFault::StateRequired => "RPCROUTER_STATE_REQUIRED is not a valid boolean",
            EnvFault::AdminPublicSite => "RPCROUTER_ADMIN_PUBLIC_SITE is not a valid boolean",
        };
        m.to_owned()
    }
}

impl ConfigError {
    pub open spec fn says(self) -> Seq<char> {
        match self {
            ConfigError::Env(f) => f.says(),
            ConfigError::ChainEntry(part) => "RPCROUTER_CHAINS entry `"@ + part@
                + "` is not a chain id"@,
            ConfigError::Fault(f) => f.says(),
            ConfigError::InvalidToml => "invalid TOML"@,
        }
    }

    /// The reason in words.
    pub fn message(&self) -> (m: String)
        ensures
            m@ == self.says(),
    {
        match self {
            ConfigError::Env(f) => f.message(),
            ConfigError::ChainEntry(part) => {
                let head = text::join("RPCROUTER_CHAINS entry `", part.as_str());
                text::join(head.as_str(), "` is not a chain id")
            },
            ConfigError::Fault(f) => f.message(),
            ConfigError::InvalidToml => "invalid TOML".to_owned(),
        }
    }
}

/// The first variable with the given name.
pub open spec fn variable(env: Seq<(String, String)>, key: Seq<char>) -> Option<String>
    decreases env.len(),
{
    if env.len() == 0 {
        None
    } else if env[0].0@ == key {
        Some(env[0].1)
    } else {
        variable(env.skip(1), key)
    }
}

/// The value of a variable; a value of nothing but white space counts as not set.
pub open spec fn setting(env: Seq<(String, String)>, key: Seq<char>) -> Option<String> {
    match variable(env, key) {
        Some(v) if text::trimmed(v@).len() > 0 => Some(v),
        _ => None,
    }
}

fn env_non_empty(env: &Vec<(String, String)>, key: &str) -> (v: Option<String>)
    ensures
        v == setting(env@, key@),
{
    let mut i: usize = 0;
    assert(env@.skip(0) =~= env@);
    while i < env.len()
        invariant
            i <= env@.len(),
            variable(env@, key@) == variable(env@.skip(i as int), key@),
        decreases env@.len() - i,
    {
        if text::same(env[i].0.as_str(), key) {
            return if text::is_blank(env[i].1.as_str()) {
                None
            } else {
                Some(env[i].1.clone())
            };
        }
        assert(env@.skip(i as int).skip(1) =~= env@.skip(i + 1));
        i = i + 1;
    }
    None
}

/// What a text reads as as a truth value, in any letter case and with white space around it.
pub open spec fn read_bool(s: Seq<char>) -> Option<bool> {
    let w = text::lowered(text::trimmed(s));
    if w == "1"@ || w == "true"@ || w == "yes"@ || w == "on"@ {
        Some(true)
    } else if w == "0"@ || w == "false"@ || w == "no"@ || w == "off"@ {
        Some(false)
    } else {
        None
    }
}

/// Reads a truth value.
pub fn parse_bool(raw: &str) -> (r: Option<bool>)
    ensures
        r == read_bool(raw@),
{
    let trimmed = text::trim(raw);
    let word = text::ascii_lower(trimmed.as_str());
    let w = word.as_str();
    if text::same(w, "1") || text::same(w, "true") || text::same(w, "yes") || text::same(w, "on") {
        Some(true)
    } else if text::same(w, "0") || text::same(w, "false") || text::same(w, "no") || text::same(
        w,
        "off",
    ) {
        Some(false)
    } else {
        None
    }
}

/// The pieces of a text between commas.
pub open spec fn pieces(s: Seq<char>) -> Seq<Seq<char>>
    decreases s.len(),
{
    if s.len() == 0 {
        seq![Seq::<char>::empty()]
    } else if s.last() == ',' {
        pieces(s.drop_last()).push(Seq::<char>::empty())
    } else {
        let p = pieces(s.drop_last());
        p.update(p.len() - 1, p.last().push(s.last()))
    }
}

/// The chain ids that the pieces of a list stand for, empty ones left out; `Err` holds the first
/// piece that is no chain id.
pub open spec fn chain_ids_of(list: Seq<Seq<char>>) -> Result<Seq<u64>, Seq<char>>
    decreases list.len(),
{
    if list.len() == 0 {
        Ok(Seq::empty())
    } else {
        let piece = text::trimmed(list.last());
        match chain_ids_of(list.drop_last()) {
            Err(bad) => Err(bad),
            Ok(ids) => if piece.len() == 0 {
                Ok(ids)
            } else {
                match text::read_bounded(piece, 10, u64::MAX as int) {
                    Some(n) => Ok(ids.push(n as u64)),
                    None => Err(piece),
                }
            },
        }
    }
}

/// The chain ids that a list with commas stands for.
pub open spec fn read_chains(s: Seq<char>) -> Result<Seq<u64>, Seq<char>> {
    chain_ids_of(pieces(s))
}

fn split_commas(s: &str) -> (v: Vec<String>)
    ensures
        v@.map_values(|p: String| p@) == pieces(s@),
        v@.len() > 0,
{
    let cs = text::chars(s);
    let mut v: Vec<String> = Vec::new();
    let mut current = String::new();
    let mut i: usize = 0;
    let ghost done: Seq<Seq<char>> = Seq::empty();
    proof {
        assert(cs@.take(0) =~= Seq::<char>::empty());
        assert(v@.map_values(|p: String| p@) =~= done);
        assert(pieces(cs@.take(0)) =~= done.push(current@));
    }
    while i < cs.len()
        invariant
            i <= cs@.len(),
            cs@ == s@,
            pieces(cs@.take(i as int)) == v@.map_values(|p: String| p@).push(current@),
        decreases cs@.len() - i,
    {
        let ghost before = v@.map_values(|p: String| p@).push(current@);
        proof {
            assert(cs@.take(i + 1).drop_last() =~= cs@.take(i as int));
            assert(cs@.take(i + 1).last() == cs@[i as int]);
        }
        let c = cs[i];
        if c == ',' {
            v.push(current);
            current = String::new();
            proof {
                assert(v@.map_values(|p: String| p@) =~= before);
                assert(pieces(cs@.take(i + 1)) =~= before.push(current@));
            }
        } else {
            let ghost was = current@;
            current.push(c);
            proof {
                assert(before.last() == was);
                assert(before.update(before.len() - 1, was.push(c)) =~= v@.map_values(
                    |p: String| p@,
                ).push(current@));
            }
        }
        i = i + 1;
    }
    let ghost before = v@.map_values(|p: String| p@);
    v.push(current);
    proof {
        assert(cs@.take(cs@.len() as int) =~= cs@);
        assert(v@.map_values(|p: String| p@) =~= before.push(current@));
    }
    v
}

/// Reads a list of chain ids.
pub fn parse_chains(raw: &str) -> (r: Result<Vec<u64>, String>)
    ensures
        match r {
            Ok(ids) => read_chains(raw@) == Ok::<Seq<u64>, Seq<char>>(ids@),
            Err(bad) => read_chains(raw@) == Err::<Seq<u64>, Seq<char>>(bad@),
        },
{
    let parts = split_commas(raw);
    let ghost list = pieces(raw@);
    let mut ids: Vec<u64> = Vec::new();
    let mut i: usize = 0;
    assert(list.take(0) =~= Seq::<Seq<char>>::empty());
    while i < parts.len()
        invariant
            i <= parts@.len(),
            list == parts@.map_values(|p: String| p@),
            list == pieces(raw@),
            chain_ids_of(list.take(i as int)) == Ok::<Seq<u64>, Seq<char>>(ids@),
        decreases parts@.len() - i,
    {
        proof {
            assert(list.take(i + 1).drop_last() =~= list.take(i as int));
            assert(list.take(i + 1).last() == parts@[i as int]@);
        }
        let piece = text::trim(parts[i].as_str());
        if !piece.as_str().is_empty() {
            match text::parse_u64(piece.as_str()) {
                Some(n) => {
                    ids.push(n);
                },
                None => {
                    proof {
                        lemma_error_stays(list, i + 1);
                    }
                    return Err(piece);
                },
            }
        }
        i = i + 1;
    }
    assert(list.take(list.len() as int) =~= list);
    Ok(ids)
}

proof fn lemma_error_stays(list: Seq<Seq<char>>, k: int)
    requires
        0 <= k <= list.len(),
        chain_ids_of(list.take(k)) is Err,
    ensures
        chain_ids_of(list) == chain_ids_of(list.take(k)),
    decreases list.len() - k,
{
    if k < list.len() {
        assert(list.take(k + 1).drop_last() =~= list.take(k));
        lemma_error_stays(list, k + 1);
    } else {
        assert(list.take(k) =~= list);
    }
}

/// A number that a variable gives, where it is set and within bounds.
pub open spec fn number_ok(env: Seq<(String, String)>, key: Seq<char>, max: int) -> bool {
    setting(env, key) matches Some(v) ==> text::read_bounded(v@, 10, max) is Some
}

pub open spec fn number_or(env: Seq<(String, String)>, key: Seq<char>, max: int, old: int) -> int {
    match setting(env, key) {
        Some(v) => text::read_bounded(v@, 10, max)->0,
        None => old,
    }
}

pub open spec fn bool_ok(env: Seq<(String, String)>, key: Seq<char>) -> bool {
    setting(env, key) matches Some(v) ==> read_bool(v@) is Some
}

pub open spec fn bool_or(env: Seq<(String, String)>, key: Seq<char>, old: bool) -> bool {
    match setting(env, key) {
        Some(v) => read_bool(v@)->0,
        None => old,
    }
}

pub open spec fn text_or(env: Seq<(String, String)>, key: Seq<char>, old: String) -> String {
    match setting(env, key) {
        Some(v) => v,
        None => old,
    }
}

pub open spec fn optional_text_or(
    env: Seq<(String, String)>,
    key: Seq<char>,
    old: Option<String>,
) -> Option<String> {
    match setting(env, key) {
        Some(v) => Some(v),
        None => old,
    }
}

/// The first of the variables for the gateway as a whole that cannot be used, by its place in the order
/// in which they are looked at; 5 where there is none.
pub open spec fn base_stop(env: Seq<(String, String)>, listen: ListenOverride) -> int {
    if listen is Invalid {
        0
    } else if setting(env, "RPCROUTER_CHAINS"@) matches Some(v) && read_chains(v@) is Err {
        1
    } else if !number_ok(env, "RPCROUTER_CACHE_MAX_BYTES"@, u64::MAX as int) {
        2
    } else if !bool_ok(env, "RPCROUTER_METRICS_ENABLED"@) {
        3
    } else if !number_ok(env, "RPCROUTER_CHAINLIST_REFRESH_SECONDS"@, u64::MAX as int) {
        4
    } else {
        5
    }
}

/// As `base_stop`, for the variables on discovery; 3 where all can be used.
pub open spec fn discovery_stop(env: Seq<(String, String)>) -> int {
    if !bool_ok(env, "RPCROUTER_DISCOVERY_ENABLED"@) {
        0
    } else if !number_ok(env, "RPCROUTER_DISCOVERY_MAX_HOT_CHAINS"@, usize::MAX as int) {
        1
    } else if !number_ok(env, "RPCROUTER_DISCOVERY_IDLE_SECONDS"@, u64::MAX as int) {
        2
    } else {
        3
    }
}

/// As `base_stop`, for the variables on chains that are put into service on their own; 3 where all can
/// be used.
pub open spec fn auto_stop(env: Seq<(String, String)>) -> int {
    if !bool_ok(env, "RPCROUTER_AUTO_ENABLE_ENABLED"@) {
        0
    } else if !number_ok(env, "RPCROUTER_AUTO_ENABLE_MIN_ENDPOINTS"@, usize::MAX as int) {
        1
    } else if !number_ok(env, "RPCROUTER_AUTO_ENABLE_MAX_CHAINS"@, usize::MAX as int) {
        2
    } else {
        3
    }
}

/// As `base_stop`, for the variables on the state store; 3 where all can be used.
pub open spec fn state_stop(env: Seq<(String, String)>) -> int {
    if !bool_ok(env, "RPCROUTER_STATE_RESET"@) {
        0
    } else if !bool_ok(env, "RPCROUTER_STATE_RESTORE_HOT"@) {
        1
    } else if !bool_ok(env, "RPCROUTER_STATE_REQUIRED"@) {
        2
    } else {
        3
    }
}

/// How the settings of the gateway as a whole come out: a setting is taken over if its variable is set
/// and no variable looked at before it, nor its own, is unusable.
pub open spec fn base_taken(
    old: Config,
    new: Config,
    env: Seq<(String, String)>,
    listen: ListenOverride,
) -> bool {
    let stop = base_stop(env, listen);
    &&& new.listen == (match listen {
        ListenOverride::Valid(s) => s,
        _ => old.listen,
    })
    &&& (if stop > 1 && setting(env, "RPCROUTER_CHAINS"@) is Some {
        read_chains(setting(env, "RPCROUTER_CHAINS"@)->0@) == Ok::<Seq<u64>, Seq<char>>(new.chains@)
    } else {
        new.chains == old.chains
    })
    &&& new.cache == (CacheConfig {
        max_bytes: if stop > 2 {
            number_or(
                env,
                "RPCROUTER_CACHE_MAX_BYTES"@,
                u64::MAX as int,
                old.cache.max_bytes as int,
            ) as u64
        } else {
            old.cache.max_bytes
        },
        ..old.cache
    })
    &&& new.metrics_enabled == (if stop > 3 {
        bool_or(env, "RPCROUTER_METRICS_ENABLED"@, old.metrics_enabled)
    } else {
        old.metrics_enabled
    })
    &&& new.chainlist == (ChainlistConfig {
        refresh_seconds: if stop > 4 {
            number_or(
                env,
                "RPCROUTER_CHAINLIST_REFRESH_SECONDS"@,
                u64::MAX as int,
                old.chainlist.refresh_seconds as int,
            ) as u64
        } else {
            old.chainlist.refresh_seconds
        },
        cache_path: if stop > 4 {
            text_or(env, "RPCROUTER_CHAINLIST_CACHE_PATH"@, old.chainlist.cache_path)
        } else {
            old.chainlist.cache_path
        },
        ..old.chainlist
    })
}

pub open spec fn discovery_taken(
    old: DiscoveryConfig,
    env: Seq<(String, String)>,
) -> DiscoveryConfig {
    let stop = discovery_stop(env);
    DiscoveryConfig {
        enabled: if stop > 0 {
            bool_or(env, "RPCROUTER_DISCOVERY_ENABLED"@, old.enabled)
        } else {
            old.enabled
        },
        max_hot_chains: if stop > 1 {
            number_or(
                env,
                "RPCROUTER_DISCOVERY_MAX_HOT_CHAINS"@,
                usize::MAX as int,
                old.max_hot_chains as int,
            ) as usize
        } else {
            old.max_hot_chains
        },
        idle_seconds: if stop > 2 {
            number_or(
                env,
                "RPCROUTER_DISCOVERY_IDLE_SECONDS"@,
                u64::MAX as int,
                old.idle_seconds as int,
            ) as u64
        } else {
            old.idle_seconds
        },
        ..old
    }
}

pub open spec fn auto_taken(
    old: AutoEnableConfig,
    env: Seq<(String, String)>,
) -> AutoEnableConfig {
    let stop = auto_stop(env);
    AutoEnableConfig {
        enabled: if stop > 0 {
            bool_or(env, "RPCROUTER_AUTO_ENABLE_ENABLED"@, old.enabled)
        } else {
            old.enabled
        },
        min_endpoints: if stop > 1 {
            number_or(
                env,
                "RPCROUTER_AUTO_ENABLE_MIN_ENDPOINTS"@,
                usize::MAX as int,
                old.min_endpoints as int,
            ) as usize
        } else {
            old.min_endpoints
        },
        max_chains: if stop > 2 {
            number_or(
                env,
                "RPCROUTER_AUTO_ENABLE_MAX_CHAINS"@,
                usize::MAX as int,
                old.max_chains as int,
            ) as usize
        } else {
            old.max_chains
        },
        ..old
    }
}

pub open spec fn state_taken(old: StateConfig, env: Seq<(String, String)>) -> StateConfig {
    let stop = state_stop(env);
    StateConfig {
        backend: text_or(env, "RPCROUTER_STATE_BACKEND"@, old.backend),
        redis_url: text_or(env, "RPCROUTER_REDIS_URL"@, old.redis_url),
        namespace: text_or(env, "RPCROUTER_STATE_NAMESPACE"@, old.namespace),
        reset: if stop > 0 {
            bool_or(env, "RPCROUTER_STATE_RESET"@, old.reset)
        } else {
            old.reset
        },
        restore_hot: if stop > 1 {
            bool_or(env, "RPCROUTER_STATE_RESTORE_HOT"@, old.restore_hot)
        } else {
            old.restore_hot
        },
        required: if stop > 2 {
            bool_or(env, "RPCROUTER_STATE_REQUIRED"@, old.required)
        } else {
            old.required
        },
        ..old
    }
}

pub open spec fn admin_taken(old: AdminConfig, env: Seq<(String, String)>) -> AdminConfig {
    AdminConfig {
        auth_token: optional_text_or(env, "RPCROUTER_ADMIN_TOKEN"@, old.auth_token),
        static_dir: optional_text_or(env, "RPCROUTER_ADMIN_STATIC_DIR"@, old.static_dir),
        public_site: if bool_ok(env, "RPCROUTER_ADMIN_PUBLIC_SITE"@) {
            bool_or(env, "RPCROUTER_ADMIN_PUBLIC_SITE"@, old.public_site)
        } else {
            old.public_site
        },
        ..old
    }
}

/// Whether the variables of the first parts can all be used: the gateway as a whole, discovery, chains
/// put into service on their own, the state store, administration.
pub open spec fn parts_ok(env: Seq<(String, String)>, listen: ListenOverride, parts: int) -> bool {
    &&& parts > 0 ==> base_stop(env, listen) == 5
    &&& parts > 1 ==> discovery_stop(env) == 3
    &&& parts > 2 ==> auto_stop(env) == 3
    &&& parts > 3 ==> state_stop(env) == 3
    &&& parts > 4 ==> bool_ok(env, "RPCROUTER_ADMIN_PUBLIC_SITE"@)
}

/// How the configuration comes out of the environment: part after part, up to the first variable that
/// cannot be used.
pub open spec fn taken_over(
    old: Config,
    new: Config,
    env: Seq<(String, String)>,
    listen: ListenOverride,
) -> bool {
    let discovery = if parts_ok(env, listen, 1) {
        discovery_taken(old.discovery, env)
    } else {
        old.discovery
    };
    &&& base_taken(old, new, env, listen)
    &&& new.discovery == (DiscoveryConfig {
        auto_enable: if parts_ok(env, listen, 2) {
            auto_taken(old.discovery.auto_enable, env)
        } else {
            old.discovery.auto_enable
        },
        ..discovery
    })
    &&& new.state == (if parts_ok(env, listen, 3) {
        state_taken(old.state, env)
    } else {
        old.state
    })
    &&& new.admin == (if parts_ok(env, listen, 4) {
        admin_taken(old.admin, env)
    } else {
        old.admin
    })
    &&& new.server == old.server
    &&& new.upstream == old.upstream
    &&& new.probe == old.probe
    &&& new.hedging == old.hedging
    &&& new.chain_overrides == old.chain_overrides
}

/// The error for the first variable of the gateway as a whole that cannot be used.
pub open spec fn base_error(
    env: Seq<(String, String)>,
    listen: ListenOverride,
    error: ConfigError,
) -> bool {
    let stop = base_stop(env, listen);
    if stop == 0 {
        error == ConfigError::Env(EnvFault::Listen)
    } else if stop == 1 {
        error matches ConfigError::ChainEntry(bad) && read_chains(
            setting(env, "RPCROUTER_CHAINS"@)->0@,
        ) == Err::<Seq<u64>, Seq<char>>(bad@)
    } else if stop == 2 {
        error == ConfigError::Env(EnvFault::CacheMaxBytes)
    } else if stop == 3 {
        error == ConfigError::Env(EnvFault::MetricsEnabled)
    } else {
        stop == 4 && error == ConfigError::Env(EnvFault::ChainlistRefreshSeconds)
    }
}

pub open spec fn discovery_fault(env: Seq<(String, String)>) -> EnvFault {
    if discovery_stop(env) == 0 {
        EnvFault::DiscoveryEnabled
    } else if discovery_stop(env) == 1 {
        EnvFault::DiscoveryMaxHotChains
    } else {
        EnvFault::DiscoveryIdleSeconds
    }
}

pub open spec fn auto_fault(env: Seq<(String, String)>) -> EnvFault {
    if auto_stop(env) == 0 {
        EnvFault::AutoEnableEnabled
    } else if auto_stop(env) == 1 {
        EnvFault::AutoEnableMinEndpoints
    } else {
        EnvFault::AutoEnableMaxChains
    }
}

pub open spec fn state_fault(env: Seq<(String, String)>) -> EnvFault {
    if state_stop(env) == 0 {
        EnvFault::StateReset
    } else if state_stop(env) == 1 {
        EnvFault::StateRestoreHot
    } else {
        EnvFault::StateRequired
    }
}

/// The error for the first variable that cannot be used.
pub open spec fn env_error(
    env: Seq<(String, String)>,
    listen: ListenOverride,
    error: ConfigError,
) -> bool {
    if !parts_ok(env, listen, 1) {
        base_error(env, listen, error)
    } else if !parts_ok(env, listen, 2) {
        error == ConfigError::Env(discovery_fault(env))
    } else if !parts_ok(env, listen, 3) {
        error == ConfigError::Env(auto_fault(env))
    } else if !parts_ok(env, listen, 4) {
        error == ConfigError::Env(state_fault(env))
    } else {
        error == ConfigError::Env(EnvFault::AdminPublicSite)
    }
}

fn env_u64(env: &Vec<(String, String)>, key: &str, current: u64) -> (r: Option<u64>)
    ensures
        match r {
            Some(n) => number_ok(env@, key@, u64::MAX as int) && n == number_or(
                env@,
                key@,
                u64::MAX as int,
                current as int,
            ),
            None => !number_ok(env@, key@, u64::MAX as int),
        },
{
    match env_non_empty(env, key) {
        Some(raw) => text::parse_u64(raw.as_str()),
        None => Some(current),
    }
}

fn env_usize(env: &Vec<(String, String)>, key: &str, current: usize) -> (r: Option<usize>)
    ensures
        match r {
            Some(n) => number_ok(env@, key@, usize::MAX as int) && n == number_or(
                env@,
                key@,
                usize::MAX as int,
                current as int,
            ),
            None => !number_ok(env@, key@, usize::MAX as int),
        },
{
    match env_non_empty(env, key) {
        Some(raw) => text::parse_usize(raw.as_str()),
        None => Some(current),
    }
}

fn env_bool(env: &Vec<(String, String)>, key: &str, current: bool) -> (r: Option<bool>)
    ensures
        match r {
            Some(b) => bool_ok(env@, key@) && b == bool_or(env@, key@, current),
            None => !bool_ok(env@, key@),
        },
{
    match env_non_empty(env, key) {
        Some(raw) => parse_bool(raw.as_str()),
        None => Some(current),
    }
}

impl DiscoveryConfig {
    fn take_env(&mut self, env: &Vec<(String, String)>) -> (r: Result<(), EnvFault>)
        ensures
            *final(self) == discovery_taken(*old(self), env@),
            r is Ok <==> discovery_stop(env@) == 3,
            r matches Err(f) ==> f == discovery_fault(env@),
    {
        match env_bool(env, "RPCROUTER_DISCOVERY_ENABLED", self.enabled) {
            Some(b) => {
                self.enabled = b;
            },
            None => {
                return Err(EnvFault::DiscoveryEnabled);
            },
        }
        match env_usize(env, "RPCROUTER_DISCOVERY_MAX_HOT_CHAINS", self.max_hot_chains) {
            Some(n) => {
                self.max_hot_chains = n;
            },
            None => {
                return Err(EnvFault::DiscoveryMaxHotChains);
            },
        }
        match env_u64(env, "RPCROUTER_DISCOVERY_IDLE_SECONDS", self.idle_seconds) {
            Some(n) => {
                self.idle_seconds = n;
            },
            None => {
                return Err(EnvFault::DiscoveryIdleSeconds);
            },
        }
        Ok(())
    }
}

impl AutoEnableConfig {
    fn take_env(&mut self, env: &Vec<(String, String)>) -> (r: Result<(), EnvFault>)
        ensures
            *final(self) == auto_taken(*old(self), env@),
            r is Ok <==> auto_stop(env@) == 3,
            r matches Err(f) ==> f == auto_fault(env@),
    {
        match env_bool(env, "RPCROUTER_AUTO_ENABLE_ENABLED", self.enabled) {
            Some(b) => {
                self.enabled = b;
            },
            None => {
                return Err(EnvFault::AutoEnableEnabled);
            },
        }
        match env_usize(env, "RPCROUTER_AUTO_ENABLE_MIN_ENDPOINTS", self.min_endpoints) {
            Some(n) => {
                self.min_endpoints = n;
            },
            None => {
                return Err(EnvFault::AutoEnableMinEndpoints);
            },
        }
        match env_usize(env, "RPCROUTER_AUTO_ENABLE_MAX_CHAINS", self.max_chains) {
            Some(n) => {
                self.max_chains = n;
            },
            None => {
                return Err(EnvFault::AutoEnableMaxChains);
            },
        }
        Ok(())
    }
}

impl StateConfig {
    fn take_env(&mut self, env: &Vec<(String, String)>) -> (r: Result<(), EnvFault>)
        ensures
            *final(self) == state_taken(*old(self), env@),
            r is Ok <==> state_stop(env@) == 3,
            r matches Err(f) ==> f == state_fault(env@),
    {
        if let Some(raw) = env_non_empty(env, "RPCROUTER_STATE_BACKEND") {
            self.backend = raw;
        }
        if let Some(raw) = env_non_empty(env, "RPCROUTER_REDIS_URL") {
            self.redis_url = raw;
        }
        if let Some(raw) = env_non_empty(env, "RPCROUTER_STATE_NAMESPACE") {
            self.namespace = raw;
        }
        match env_bool(env, "RPCROUTER_STATE_RESET", self.reset) {
            Some(b) => {
                self.reset = b;
            },
            None => {
                return Err(EnvFault::StateReset);
            },
        }
        match env_bool(env, "RPCROUTER_STATE_RESTORE_HOT", self.restore_hot) {
            Some(b) => {
                self.restore_hot = b;
            },
            None => {
                return Err(EnvFault::StateRestoreHot);
            },
        }
        match env_bool(env, "RPCROUTER_STATE_REQUIRED", self.required) {
            Some(b) => {
                self.required = b;
            },
            None => {
                return Err(EnvFault::StateRequired);
            },
        }
        Ok(())
    }
}

impl AdminConfig {
    fn take_env(&mut self, env: &Vec<(String, String)>) -> (r: Result<(), EnvFault>)
        ensures
            *final(self) == admin_taken(*old(self), env@),
            r is Ok <==> bool_ok(env@, "RPCROUTER_ADMIN_PUBLIC_SITE"@),
            r matches Err(f) ==> f == EnvFault::AdminPublicSite,
    {
        if let Some(raw) = env_non_empty(env, "RPCROUTER_ADMIN_TOKEN") {
            self.auth_token = Some(raw);
        }
        if let Some(raw) = env_non_empty(env, "RPCROUTER_ADMIN_STATIC_DIR") {
            self.static_dir = Some(raw);
        }
        match env_bool(env, "RPCROUTER_ADMIN_PUBLIC_SITE", self.public_site) {
            Some(b) => {
                self.public_site = b;
                Ok(())
            },
            None => Err(EnvFault::AdminPublicSite),
        }
    }
}

impl Config {
    fn take_base_env(
        &mut self,
        env: &Vec<(String, String)>,
        listen: ListenOverride,
    ) -> (r: Result<(), ConfigError>)
        ensures
            base_taken(*old(self), *final(self), env@, listen),
            final(self).discovery == old(self).discovery,
            final(self).state == old(self).state,
            final(self).admin == old(self).admin,
            final(self).server == old(self).server,
            final(self).upstream == old(self).upstream,
            final(self).probe == old(self).probe,
            final(self).hedging == old(self).hedging,
            final(self).chain_overrides == old(self).chain_overrides,
            r is Ok <==> base_stop(env@, listen) == 5,
            r matches Err(error) ==> base_error(env@, listen, error),
    {
        match listen {
            ListenOverride::Absent => {},
            ListenOverride::Valid(address) => {
                self.listen = address;
            },
            ListenOverride::Invalid => {
                return Err(ConfigError::Env(EnvFault::Listen));
            },
        }
        if let Some(raw) = env_non_empty(env, "RPCROUTER_CHAINS") {
            match parse_chains(raw.as_str()) {
                Ok(ids) => {
                    self.chains = ids;
                },
                Err(bad) => {
                    return Err(ConfigError::ChainEntry(bad));
                },
            }
        }
        match env_u64(env, "RPCROUTER_CACHE_MAX_BYTES", self.cache.max_bytes) {
            Some(n) => {
                self.cache.max_bytes = n;
            },
            None => {
                return Err(ConfigError::Env(EnvFault::CacheMaxBytes));
            },
        }
        match env_bool(env, "RPCROUTER_METRICS_ENABLED", self.metrics_enabled) {
            Some(b) => {
                self.metrics_enabled = b;
            },
            None => {
                return Err(ConfigError::Env(EnvFault::MetricsEnabled));
            },
        }
        match env_u64(env, "RPCROUTER_CHAINLIST_REFRESH_SECONDS", self.chainlist.refresh_seconds) {
            Some(n) => {
                self.chainlist.refresh_seconds = n;
            },
            None => {
                return Err(ConfigError::Env(EnvFault::ChainlistRefreshSeconds));
            },
        }
        if let Some(raw) = env_non_empty(env, "RPCROUTER_CHAINLIST_CACHE_PATH") {
            self.chainlist.cache_path = raw;
        }
        Ok(())
    }

    /// Takes settings over from environment variables, then checks the result. Variables are looked
    /// at in a fixed order; the first that cannot be used ends it, and what was taken over before
    /// stays.
    pub fn apply_env_overrides(
        &mut self,
        env: &Vec<(String, String)>,
        listen: ListenOverride,
    ) -> (r: Result<(), ConfigError>)
        ensures
            taken_over(*old(self), *final(self), env@, listen),
            match r {
                Ok(()) => parts_ok(env@, listen, 5) && crate::config::first_fault(*final(self)) is None,
                Err(ConfigError::Fault(f)) => parts_ok(env@, listen, 5) && crate::config::first_fault(*final(self))
                    == Some(f),
                Err(error) => !parts_ok(env@, listen, 5) && env_error(env@, listen, error),
            },
    {
        if let Err(error) = self.take_base_env(env, listen) {
            return Err(error);
        }
        if let Err(fault) = self.discovery.take_env(env) {
            return Err(ConfigError::Env(fault));
        }
        if let Err(fault) = self.discovery.auto_enable.take_env(env) {
            return Err(ConfigError::Env(fault));
        }
        if let Err(fault) = self.state.take_env(env) {
            return Err(ConfigError::Env(fault));
        }
        if let Err(fault) = self.admin.take_env(env) {
            return Err(ConfigError::Env(fault));
        }
        match self.validate() {
            Ok(()) => Ok(()),
            Err(f) => Err(ConfigError::Fault(f)),
        }
    }
}

/// Variables that are not set change nothing.
pub proof fn lemma_empty_environment_changes_nothing(
    old: Config,
    new: Config,
    env: Seq<(String, String)>,
)
    requires
        forall|key: Seq<char>| setting(env, key) is None,
        taken_over(old, new, env, ListenOverride::Absent),
    ensures
        new == old,
{
    assert(new.cache == old.cache);
    assert(new.chainlist == old.chainlist);
    assert(new.discovery == old.discovery);
}

} // verus!
