//! What the registry of chains holds, and what each operation makes of it.
use crate::chain::{ChainStateLabel, ChainView, PlanView};
use crate::chainlist::{Catalog, CatalogChain, CatalogEndpoint, ChainEndpoints};
use crate::config::Config;
use crate::endpoint::EndpointView;
use crate::selection::PoolKind;
use crate::state::{ChainOverrideState, EndpointOverrideState, HealthSnapshot};
use vstd::prelude::*;

verus! {

/// A chain that was asked for less than this many seconds ago is not evicted.
pub const RECENT_SECONDS: u64 = 5;

/// A point in time on both clocks: nanoseconds of the monotonic clock, seconds of the wall clock.
#[derive(Clone, Copy, Debug, PartialEq, Eq, Structural)]
pub struct Moment {
    pub instant: u128,
    pub unix: u64,
}

impl Moment {
    pub open spec fn wf(self) -> bool {
        self.instant <= crate::health::MAX_INSTANT
    }
}

/// The contents of a registry, as contracts speak of them.
pub ghost struct RegistryView {
    pub chains: Map<u64, ChainView>,
    /// The ids of the chains, in the order in which the registry walks them.
    pub order: Seq<u64>,
    pub pinned: Map<u64, bool>,
    pub auto_pinned: Map<u64, bool>,
    pub chain_overrides: Map<u64, ChainOverrideState>,
    pub endpoint_overrides: Map<Seq<char>, EndpointOverrideState>,
    /// The keys of the endpoint overrides, in the order in which the registry walks them.
    pub endpoint_order: Seq<Seq<char>>,
    pub health: Map<Seq<char>, HealthSnapshot>,
    pub catalog: Option<Catalog>,
    pub config: Config,
    pub errors: u64,
    pub activations: u64,
    pub idle_demotions: u64,
    pub lru_demotions: u64,
    pub admin_demotions: u64,
    pub catalog_chains: u64,
    pub catalog_endpoints: u64,
    pub last_refresh: u64,
    pub refresh_source: Seq<char>,
    /// Chains whose probes have to be started.
    pub kicks: Seq<u64>,
}

pub open spec fn seconds_between(later: u64, earlier: u64) -> int {
    if later > earlier {
        later - earlier
    } else {
        0
    }
}

pub open spec fn in_range(value: Option<u64>, low: int, high: int) -> bool {
    value matches Some(v) ==> low <= v <= high
}

/// Runtime settings of a chain that may be put into force.
pub open spec fn valid_chain_override(value: ChainOverrideState) -> bool {
    &&& in_range(value.block_time_ms, 100, 600_000)
    &&& in_range(value.confirmation_depth, 1, 100_000)
    &&& in_range(value.tip_ttl_ms, 100, 60_000)
    &&& in_range(value.max_block_lag, 0, 10_000)
}

/// Runtime settings of an endpoint that may be put into force.
pub open spec fn valid_endpoint_override(value: EndpointOverrideState) -> bool {
    &&& (value.rps matches Some(n) ==> 1 <= n <= 100)
    &&& (value.concurrency matches Some(n) ==> 1 <= n <= 64)
}

/// The URLs that runtime settings add to a chain.
pub open spec fn runtime_urls(
    order: Seq<Seq<char>>,
    overrides: Map<Seq<char>, EndpointOverrideState>,
    chain_id: u64,
) -> Seq<Seq<char>>
    decreases order.len(),
{
    if order.len() == 0 {
        Seq::empty()
    } else {
        let before = runtime_urls(order.drop_last(), overrides, chain_id);
        let value = overrides[order.last()];
        if crate::text::stands_at(order.last(), crate::keys::chain_prefix(chain_id), 0)
            && value.disabled != Some(true) {
            before.push(value.url@)
        } else {
            before
        }
    }
}

/// The URLs that runtime settings switch off in a chain.
pub open spec fn switched_off_urls(
    order: Seq<Seq<char>>,
    overrides: Map<Seq<char>, EndpointOverrideState>,
    chain_id: u64,
) -> Seq<Seq<char>>
    decreases order.len(),
{
    if order.len() == 0 {
        Seq::empty()
    } else {
        let before = switched_off_urls(order.drop_last(), overrides, chain_id);
        let value = overrides[order.last()];
        if crate::text::stands_at(order.last(), crate::keys::chain_prefix(chain_id), 0)
            && value.disabled == Some(true) {
            before.push(value.url@)
        } else {
            before
        }
    }
}

pub open spec fn texts(list: Seq<String>) -> Seq<Seq<char>> {
    list.map_values(|s: String| s@)
}

pub open spec fn endpoint_urls(list: Seq<CatalogEndpoint>) -> Seq<Seq<char>> {
    list.map_values(|e: CatalogEndpoint| e.url@)
}

/// How many endpoints the chains have, as a counter of 64 bits holds it.
pub open spec fn wrapped_total(chains: Seq<CatalogChain>) -> u64
    decreases chains.len(),
{
    if chains.len() == 0 {
        0
    } else {
        ((wrapped_total(chains.drop_last()) + chains.last().endpoints@.len()) % 0x1_0000_0000_0000_0000) as u64
    }
}

/// The name of a chain of which only the id is known.
pub open spec fn default_name(chain_id: u64) -> Seq<char> {
    "Chain "@ + crate::text::decimal_digits(chain_id as nat)
}

/// The last entry for a chain in a list.
pub open spec fn source_in(chains: Seq<ChainEndpoints>, chain_id: u64) -> Option<ChainEndpoints>
    decreases chains.len(),
{
    if chains.len() == 0 {
        None
    } else if chains.last().chain_id == chain_id {
        Some(chains.last())
    } else {
        source_in(chains.drop_last(), chain_id)
    }
}

/// Whether a chain may be dropped from memory to make room for the chain `newcomer`.
pub open spec fn evictable(c: ChainView, chain_id: u64, newcomer: u64, now: u64) -> bool {
    &&& chain_id != newcomer
    &&& c.label() is Hot
    &&& seconds_between(now, c.last_ingress) >= RECENT_SECONDS
}

/// The chain to drop for the chain `newcomer`: of those that may be dropped, the one that was not asked
/// for the longest.
pub open spec fn victim_in(
    chains: Map<u64, ChainView>,
    order: Seq<u64>,
    newcomer: u64,
    now: u64,
) -> Option<u64>
    decreases order.len(),
{
    if order.len() == 0 {
        None
    } else {
        let best = victim_in(chains, order.drop_last(), newcomer, now);
        let k = order.last();
        if evictable(chains[k], k, newcomer, now) && (best matches Some(b)
            ==> chains[k].last_ingress < chains[b].last_ingress) {
            Some(k)
        } else {
            best
        }
    }
}

/// How a chain comes to be dropped from memory.
#[derive(Clone, Copy, Debug, PartialEq, Eq, Structural)]
pub enum Demotion {
    Idle,
    Lru,
    Admin,
}

/// The kind of demotion that a reason stands for.
pub open spec fn demotion_for(reason: Seq<char>) -> Demotion {
    if reason == "idle"@ {
        Demotion::Idle
    } else if reason == "lru"@ {
        Demotion::Lru
    } else {
        Demotion::Admin
    }
}

pub open spec fn counted(n: u64) -> u64 {
    crate::endpoint::counted(n)
}

impl RegistryView {
    /// The walking orders list each key once, and the chains are well-formed.
    pub open spec fn wf(self) -> bool {
        &&& self.order.no_duplicates()
        &&& forall|k: u64| self.order.contains(k) <==> #[trigger] self.chains.contains_key(k)
        &&& self.endpoint_order.no_duplicates()
        &&& forall|k: Seq<char>|
            self.endpoint_order.contains(k) <==> #[trigger] self.endpoint_overrides.contains_key(k)
        &&& forall|k: u64| #[trigger]
            self.chains.contains_key(k) ==> self.chains[k].wf() && self.chains[k].chain_id == k && (
            self.is_denied(k) ==> self.chains[k].disabled)
    }

    pub open spec fn with_chain(self, chain_id: u64, c: ChainView) -> RegistryView {
        RegistryView {
            chains: self.chains.insert(chain_id, c),
            order: if self.chains.contains_key(chain_id) {
                self.order
            } else {
                self.order.push(chain_id)
            },
            ..self
        }
    }

    /// Whether a chain stays in memory for good: by configuration, else by a runtime setting, else by
    /// automatic choice.
    pub open spec fn is_pinned(self, chain_id: u64) -> bool {
        if self.config.chains@.contains(chain_id) {
            true
        } else if self.pinned.contains_key(chain_id) {
            self.pinned[chain_id]
        } else {
            self.auto_pinned.contains_key(chain_id) && self.auto_pinned[chain_id]
        }
    }

    pub open spec fn is_denied(self, chain_id: u64) -> bool {
        self.config.discovery.deny@.contains(chain_id)
    }

    /// Whether a chain is disabled before it is ever asked for: by the configuration or by a runtime
    /// setting.
    pub open spec fn is_shut(self, chain_id: u64) -> bool {
        self.is_denied(chain_id) || self.chain_override(chain_id).disabled == Some(true)
    }

    pub open spec fn in_catalog(self, chain_id: u64) -> bool {
        self.catalog matches Some(c) && c.place(chain_id) is Some
    }

    pub open spec fn catalog_urls(self, chain_id: u64) -> Seq<Seq<char>> {
        match self.catalog {
            Some(c) => match c.place(chain_id) {
                Some(i) => endpoint_urls(c.chains@[i].endpoints@),
                None => Seq::empty(),
            },
            None => Seq::empty(),
        }
    }

    pub open spec fn catalog_name(self, chain_id: u64) -> Seq<char> {
        match self.catalog {
            Some(c) => match c.place(chain_id) {
                Some(i) => c.chains@[i].name@,
                None => default_name(chain_id),
            },
            None => default_name(chain_id),
        }
    }

    pub open spec fn extra_urls(self, chain_id: u64) -> Seq<Seq<char>> {
        match self.config.override_for(chain_id) {
            Some(o) => texts(o.extra_endpoints@),
            None => Seq::empty(),
        }
    }

    /// The URLs that the configuration keeps out of a chain.
    pub open spec fn barred(self, chain_id: u64) -> Set<Seq<char>> {
        match self.config.override_for(chain_id) {
            Some(o) => crate::chain::text_set(o.disabled_endpoints@),
            None => Set::empty(),
        }
    }

    pub open spec fn endpoint_override(self, chain_id: u64, url: Seq<char>) -> Option<
        EndpointOverrideState,
    > {
        let key = crate::keys::key_of(chain_id, url);
        if self.endpoint_overrides.contains_key(key) {
            Some(self.endpoint_overrides[key])
        } else {
            None
        }
    }

    pub open spec fn plan_item(self, chain_id: u64, url: Seq<char>) -> PlanView {
        let limits = self.config.limits_for(chain_id, url);
        let o = self.endpoint_override(chain_id, url);
        PlanView {
            url,
            rps: match o {
                Some(EndpointOverrideState { rps: Some(n), .. }) => n,
                _ => limits.0,
            },
            concurrency: match o {
                Some(EndpointOverrideState { concurrency: Some(n), .. }) => n,
                _ => limits.1,
            },
            off: o matches Some(value) && value.disabled == Some(true),
        }
    }

    /// The endpoints that a chain ought to have: those of the source, then the configured ones, then
    /// those of runtime settings.
    pub open spec fn plan(self, chain_id: u64, source: Seq<Seq<char>>) -> Seq<PlanView> {
        let urls = source + self.extra_urls(chain_id) + runtime_urls(
            self.endpoint_order,
            self.endpoint_overrides,
            chain_id,
        );
        urls.map_values(|u: Seq<char>| self.plan_item(chain_id, u))
    }

    /// The URLs of the endpoints that a chain ought to have after a refresh.
    pub open spec fn planned_urls(self, chain_id: u64, source: Option<ChainEndpoints>) -> Seq<
        Seq<char>,
    > {
        (match source {
            Some(s) => texts(s.endpoints@),
            None => Seq::empty(),
        }) + self.extra_urls(chain_id) + runtime_urls(
            self.endpoint_order,
            self.endpoint_overrides,
            chain_id,
        )
    }

    pub open spec fn chain_override(self, chain_id: u64) -> ChainOverrideState {
        if self.chain_overrides.contains_key(chain_id) {
            self.chain_overrides[chain_id]
        } else {
            crate::state::no_override()
        }
    }

    /// A chain as it is first taken into memory.
    pub open spec fn fresh_chain(self, chain_id: u64, pinned: bool, at: Moment) -> ChainView {
        let pool = crate::chain::merged(
            self.plan(chain_id, self.catalog_urls(chain_id)),
            self.barred(chain_id),
            Set::empty(),
            Seq::empty(),
            at.unix,
            0,
        );
        ChainView {
            endpoints: crate::chain::healed(
                chain_id,
                Seq::empty(),
                pool,
                self.health,
                at.instant,
                at.unix,
            ),
            disabled: self.chain_override(chain_id).disabled == Some(true),
            last_ingress: at.unix,
            ..ChainView::fresh(chain_id, self.catalog_name(chain_id), pinned)
        }
    }

    /// How many chains are hot.
    pub open spec fn hot_count(self) -> nat {
        self.order.filter(|k: u64| self.chains[k].label() is Hot).len()
    }

    pub open spec fn victim(self, newcomer: u64, now: u64) -> Option<u64> {
        victim_in(self.chains, self.order, newcomer, now)
    }

    /// One demotion more in the count of its kind.
    pub open spec fn with_demotion(self, kind: Demotion) -> RegistryView {
        match kind {
            Demotion::Idle => RegistryView { idle_demotions: counted(self.idle_demotions), ..self },
            Demotion::Lru => RegistryView { lru_demotions: counted(self.lru_demotions), ..self },
            Demotion::Admin => RegistryView {
                admin_demotions: counted(self.admin_demotions),
                ..self
            },
        }
    }

    /// Only a chain that is not pinned is dropped.
    pub open spec fn may_demote(self, chain_id: u64) -> bool {
        self.chains.contains_key(chain_id) && !self.chains[chain_id].pinned
    }

    pub open spec fn demoted(self, chain_id: u64, kind: Demotion) -> RegistryView {
        if self.may_demote(chain_id) {
            RegistryView {
                chains: self.chains.insert(chain_id, self.chains[chain_id].demoted()),
                ..self
            }.with_demotion(kind)
        } else {
            self
        }
    }

    /// After a chain was taken into memory, before room was made for it.
    pub open spec fn with_fresh_chain(
        self,
        chain_id: u64,
        pinned: bool,
        at: Moment,
    ) -> RegistryView {
        RegistryView {
            activations: counted(self.activations),
            ..self.with_chain(chain_id, self.fresh_chain(chain_id, pinned, at))
        }
    }

    /// After a chain was taken into memory. With too many hot chains another one is dropped; if none
    /// can be dropped, probes of the new chain are not started.
    pub open spec fn materialized(self, chain_id: u64, pinned: bool, at: Moment) -> RegistryView {
        let grown = self.with_fresh_chain(chain_id, pinned, at);
        if grown.hot_count() <= self.config.discovery.max_hot_chains {
            grown.kicked(chain_id)
        } else {
            match grown.victim(chain_id, at.unix) {
                Some(v) => grown.demoted(v, Demotion::Lru).kicked(chain_id),
                None => grown,
            }
        }
    }

    pub open spec fn kicked(self, chain_id: u64) -> RegistryView {
        RegistryView { kicks: self.kicks.push(chain_id), ..self }
    }

    /// A chain in memory that takes requests or refuses them, as opposed to a dormant one.
    pub open spec fn is_awake(self, chain_id: u64) -> bool {
        self.chains.contains_key(chain_id) && !(self.chains[chain_id].label() is Dormant)
    }

    /// Whether a request for the chain leads anywhere.
    pub open spec fn knows(self, chain_id: u64) -> bool {
        ||| self.is_awake(chain_id)
        ||| self.is_denied(chain_id)
        ||| self.is_pinned(chain_id)
        ||| self.config.discovery.enabled && self.in_catalog(chain_id)
    }

    pub open spec fn with_ingress(self, chain_id: u64, now: u64) -> RegistryView {
        RegistryView {
            chains: self.chains.insert(
                chain_id,
                ChainView { last_ingress: now, ..self.chains[chain_id] },
            ),
            ..self
        }
    }

    /// After a request for a chain.
    pub open spec fn resolved(self, chain_id: u64, at: Moment) -> RegistryView {
        if self.is_awake(chain_id) {
            if self.chains[chain_id].disabled {
                self
            } else {
                self.with_ingress(chain_id, at.unix)
            }
        } else if !self.knows(chain_id) {
            self
        } else if self.is_denied(chain_id) {
            self.with_chain(
                chain_id,
                ChainView {
                    disabled: true,
                    ..ChainView::fresh(
                        chain_id,
                        self.catalog_name(chain_id),
                        self.is_pinned(chain_id),
                    )
                },
            )
        } else {
            self.materialized(chain_id, self.is_pinned(chain_id), at)
        }
    }

    /// After requests for a chain at the given moments, one after another.
    pub open spec fn resolved_each(self, chain_id: u64, moments: Seq<Moment>) -> RegistryView
        decreases moments.len(),
    {
        if moments.len() == 0 {
            self
        } else {
            self.resolved_each(chain_id, moments.drop_last()).resolved(chain_id, moments.last())
        }
    }

    /// The chain in memory, if need be after it was taken there.
    pub open spec fn ensured(self, chain_id: u64, at: Moment) -> RegistryView {
        if self.chains.contains_key(chain_id) {
            self
        } else {
            self.resolved(chain_id, at)
        }
    }

    pub open spec fn can_ensure(self, chain_id: u64) -> bool {
        self.chains.contains_key(chain_id) || self.knows(chain_id)
    }

    /// A runtime setting of a chain taken down, with nothing changed in force.
    pub open spec fn with_chain_entry(
        self,
        chain_id: u64,
        value: ChainOverrideState,
    ) -> RegistryView {
        RegistryView { chain_overrides: self.chain_overrides.insert(chain_id, value), ..self }
    }

    /// A runtime setting of a chain put into force. What the configuration pins stays pinned, and what
    /// it denies stays disabled.
    pub open spec fn with_chain_override(
        self,
        chain_id: u64,
        value: ChainOverrideState,
    ) -> RegistryView {
        let noted = RegistryView {
            pinned: match value.pinned {
                Some(p) => self.pinned.insert(chain_id, p),
                None => self.pinned,
            },
            ..self.with_chain_entry(chain_id, value)
        };
        if self.chains.contains_key(chain_id) {
            let c = self.chains[chain_id];
            RegistryView {
                chains: self.chains.insert(
                    chain_id,
                    ChainView {
                        pinned: if value.pinned is Some {
                            noted.is_pinned(chain_id)
                        } else {
                            c.pinned
                        },
                        disabled: self.is_denied(chain_id) || match value.disabled {
                            Some(d) => d,
                            None => c.disabled,
                        },
                        ..c
                    },
                ),
                ..noted
            }
        } else {
            noted
        }
    }

    pub open spec fn with_endpoint_entry(
        self,
        key: Seq<char>,
        value: EndpointOverrideState,
    ) -> RegistryView {
        RegistryView {
            endpoint_overrides: self.endpoint_overrides.insert(key, value),
            endpoint_order: if self.endpoint_overrides.contains_key(key) {
                self.endpoint_order
            } else {
                self.endpoint_order.push(key)
            },
            ..self
        }
    }

    /// The endpoint that runtime settings describe.
    pub open spec fn overridden_endpoint(
        self,
        chain_id: u64,
        value: EndpointOverrideState,
        now: u64,
    ) -> EndpointView {
        let limits = self.config.limits_for(chain_id, value.url@);
        EndpointView::fresh(
            value.url@,
            match value.rps {
                Some(n) => n,
                None => limits.0,
            },
            match value.concurrency {
                Some(n) => n,
                None => limits.1,
            },
            now,
        )
    }

    /// The endpoints of a chain after runtime settings of one of them were put into force.
    pub open spec fn adjusted(
        self,
        chain_id: u64,
        value: EndpointOverrideState,
        now: u64,
        endpoints: Seq<EndpointView>,
    ) -> Seq<EndpointView> {
        if value.disabled == Some(true) {
            crate::chain::without_url(endpoints, value.url@)
        } else if exists|i: int| crate::chain::is_first_with(endpoints, value.url@, i) {
            let i = choose|i: int| crate::chain::is_first_with(endpoints, value.url@, i);
            if value.rps is Some || value.concurrency is Some {
                endpoints.update(i, self.overridden_endpoint(chain_id, value, now))
            } else {
                endpoints
            }
        } else {
            endpoints.push(self.overridden_endpoint(chain_id, value, now))
        }
    }

    pub open spec fn with_endpoint_override(
        self,
        chain_id: u64,
        value: EndpointOverrideState,
        now: u64,
    ) -> RegistryView {
        let noted = self.with_endpoint_entry(crate::keys::key_of(chain_id, value.url@), value);
        if self.chains.contains_key(chain_id) {
            let c = self.chains[chain_id];
            RegistryView {
                chains: self.chains.insert(
                    chain_id,
                    ChainView {
                        endpoints: self.adjusted(chain_id, value, now, c.endpoints),
                        ..c
                    },
                ),
                ..noted
            }
        } else {
            noted
        }
    }

    /// Without any runtime settings: pinned and disabled is what the configuration or the automatic
    /// choice says.
    pub open spec fn plain(self) -> RegistryView {
        let bare = RegistryView { pinned: Map::empty(), ..self };
        RegistryView {
            chain_overrides: Map::empty(),
            endpoint_overrides: Map::empty(),
            endpoint_order: Seq::empty(),
            chains: Map::new(
                |k: u64| self.chains.contains_key(k),
                |k: u64|
                    ChainView {
                        pinned: bare.is_pinned(k),
                        disabled: self.is_denied(k),
                        ..self.chains[k]
                    },
            ),
            ..bare
        }
    }

    pub open spec fn with_chain_overrides(
        self,
        entries: Seq<(u64, ChainOverrideState)>,
    ) -> RegistryView
        decreases entries.len(),
    {
        if entries.len() == 0 {
            self
        } else {
            let before = self.with_chain_overrides(entries.drop_last());
            let (chain_id, value) = entries.last();
            if valid_chain_override(value) {
                before.with_chain_override(chain_id, value)
            } else {
                before
            }
        }
    }

    pub open spec fn with_endpoint_overrides(
        self,
        entries: Seq<(String, EndpointOverrideState)>,
        now: u64,
    ) -> RegistryView
        decreases entries.len(),
    {
        if entries.len() == 0 {
            self
        } else {
            let before = self.with_endpoint_overrides(entries.drop_last(), now);
            let (key, value) = entries.last();
            if valid_endpoint_override(value) {
                before.with_endpoint_entry(key@, value).with_endpoint_override(
                    crate::keys::chain_of(key@),
                    value,
                    now,
                )
            } else {
                before
            }
        }
    }

    /// With another choice of automatic chains, and the pins of the chains in memory to match.
    pub open spec fn with_auto_pinned(self, chosen: Map<u64, bool>) -> RegistryView {
        let noted = RegistryView { auto_pinned: chosen, ..self };
        RegistryView {
            chains: Map::new(
                |k: u64| self.chains.contains_key(k),
                |k: u64| ChainView { pinned: noted.is_pinned(k), ..self.chains[k] },
            ),
            ..noted
        }
    }

    /// Where an endpoint of a chain comes from.
    pub open spec fn endpoint_source(self, chain_id: u64, url: Seq<char>) -> Seq<char> {
        if self.catalog_urls(chain_id).contains(url) {
            "chainlist"@
        } else if self.extra_urls(chain_id).contains(url) {
            "config"@
        } else {
            "runtime"@
        }
    }

    /// Whether a refresh of the catalog reaches the chain.
    pub open spec fn refreshes(self, chain_id: u64) -> bool {
        ||| self.config.chains@.contains(chain_id)
        ||| self.pinned.contains_key(chain_id) && self.pinned[chain_id]
        ||| self.auto_pinned.contains_key(chain_id) && self.auto_pinned[chain_id]
        ||| self.chains.contains_key(chain_id) && self.chains[chain_id].is_live()
    }

    /// A chain after a refresh. Stored health is put back only where an endpoint is new to the chain.
    pub open spec fn refreshed_chain(
        self,
        chain_id: u64,
        source: Option<ChainEndpoints>,
        at: Moment,
    ) -> ChainView {
        let name = match source {
            Some(s) => s.name@,
            None => default_name(chain_id),
        };
        let pinned = self.is_pinned(chain_id);
        let base = if self.chains.contains_key(chain_id) {
            self.chains[chain_id]
        } else {
            ChainView::fresh(chain_id, name, pinned)
        };
        let known = ChainView {
            pinned,
            name: if source is Some {
                name
            } else {
                base.name
            },
            ..base
        };
        if self.is_denied(chain_id) {
            ChainView { disabled: true, endpoints: Seq::empty(), ..known }
        } else {
            let urls = match source {
                Some(s) => texts(s.endpoints@),
                None => Seq::empty(),
            };
            let pool = crate::chain::merged(
                self.plan(chain_id, urls),
                self.barred(chain_id),
                base.rejected,
                base.endpoints,
                at.unix,
                self.config.chainlist.stale_grace_seconds,
            );
            ChainView {
                endpoints: crate::chain::healed(
                    chain_id,
                    crate::chain::limits_in(base.endpoints),
                    pool,
                    self.health,
                    at.instant,
                    at.unix,
                ),
                ..known
            }
        }
    }

    /// The chains after a refresh.
    pub open spec fn refreshed_chains(
        self,
        sources: Seq<ChainEndpoints>,
        at: Moment,
    ) -> Map<u64, ChainView> {
        Map::new(
            |k: u64| self.chains.contains_key(k) || self.refreshes(k),
            |k: u64|
                if self.refreshes(k) {
                    self.refreshed_chain(k, source_in(sources, k), at)
                } else {
                    self.chains[k]
                },
        )
    }

    /// Chains that were hot when the state was stored, taken into memory again.
    pub open spec fn with_restored_hot(self, list: Seq<(u64, u64)>, at: Moment) -> RegistryView
        decreases list.len(),
    {
        if list.len() == 0 {
            self
        } else {
            let before = self.with_restored_hot(list.drop_last(), at);
            let (chain_id, last) = list.last();
            if seconds_between(at.unix, last) < self.config.discovery.idle_seconds
                && before.knows(chain_id) {
                before.resolved(chain_id, at).with_ingress(chain_id, last)
            } else {
                before
            }
        }
    }

    /// Stored health taken in, and put back where its endpoint is in memory.
    pub open spec fn with_health(self, list: Seq<HealthSnapshot>, at: Moment) -> RegistryView
        decreases list.len(),
    {
        if list.len() == 0 {
            self
        } else {
            let before = self.with_health(list.drop_last(), at);
            let s = list.last();
            RegistryView {
                health: before.health.insert(crate::keys::key_of(s.chain_id, s.url@), s),
                chains: before.with_changed_endpoint(
                    s.chain_id,
                    s.url@,
                    |e: EndpointView| e.restored(s, at.instant, at.unix),
                ),
                ..before
            }
        }
    }

    /// The chains with one endpoint changed, if it is in memory.
    pub open spec fn with_changed_endpoint(
        self,
        chain_id: u64,
        url: Seq<char>,
        change: spec_fn(EndpointView) -> EndpointView,
    ) -> Map<u64, ChainView> {
        if self.chains.contains_key(chain_id) && exists|i: int|
            crate::chain::is_first_with(self.chains[chain_id].endpoints, url, i) {
            let c = self.chains[chain_id];
            let i = choose|i: int| crate::chain::is_first_with(c.endpoints, url, i);
            self.chains.insert(
                chain_id,
                ChainView { endpoints: c.endpoints.update(i, change(c.endpoints[i])), ..c },
            )
        } else {
            self.chains
        }
    }

    /// Endpoints marked as changed again, where they are in memory.
    pub open spec fn with_dirty(self, list: Seq<HealthSnapshot>) -> RegistryView
        decreases list.len(),
    {
        if list.len() == 0 {
            self
        } else {
            let before = self.with_dirty(list.drop_last());
            let s = list.last();
            RegistryView {
                chains: before.with_changed_endpoint(
                    s.chain_id,
                    s.url@,
                    |e: EndpointView| EndpointView { dirty: true, ..e },
                ),
                ..before
            }
        }
    }
}

/// Where a changed endpoint stands: the chain, and the place among its endpoints.
pub open spec fn dirty_in(chain_id: u64, endpoints: Seq<EndpointView>) -> Seq<(u64, int)>
    decreases endpoints.len(),
{
    if endpoints.len() == 0 {
        Seq::empty()
    } else {
        let before = dirty_in(chain_id, endpoints.drop_last());
        if endpoints.last().dirty {
            before.push((chain_id, endpoints.len() - 1))
        } else {
            before
        }
    }
}

pub open spec fn dirty_places_in(chains: Map<u64, ChainView>, order: Seq<u64>) -> Seq<(u64, int)>
    decreases order.len(),
{
    if order.len() == 0 {
        Seq::empty()
    } else {
        let before = dirty_places_in(chains, order.drop_last());
        let k = order.last();
        if chains[k].is_live() {
            before + dirty_in(k, chains[k].endpoints)
        } else {
            before
        }
    }
}

/// An endpoint whose changes have been taken note of.
pub open spec fn cleaned(e: EndpointView, now: u128) -> EndpointView {
    EndpointView { dirty: false, ..e }.decayed(now)
}

/// A counter that starts over at its end, after a number of steps.
pub open spec fn advanced(n: u64, steps: nat) -> u64
    decreases steps,
{
    if steps == 0 {
        n
    } else {
        counted(advanced(n, (steps - 1) as nat))
    }
}

/// An explicit unpin or switch-off: the chain is never chosen automatically again.
pub open spec fn is_tombstone(value: ChainOverrideState) -> bool {
    value.pinned == Some(false) || value.disabled == Some(true)
}

impl RegistryView {
    /// Where the changed endpoints of live chains stand.
    pub open spec fn dirty_places(self) -> Seq<(u64, int)> {
        dirty_places_in(self.chains, self.order)
    }

    /// The first `limit` of the changed endpoints.
    pub open spec fn dirty_batch(self, limit: usize) -> Seq<(u64, int)> {
        if self.dirty_places().len() < limit {
            self.dirty_places()
        } else {
            self.dirty_places().take(limit as int)
        }
    }

    /// The chains with the changes at the given places taken note of.
    pub open spec fn cleaned_chains(self, places: Seq<(u64, int)>, now: u128) -> Map<u64, ChainView> {
        Map::new(
            |k: u64| self.chains.contains_key(k),
            |k: u64|
                ChainView {
                    endpoints: self.chains[k].endpoints.map(
                        |i: int, e: EndpointView|
                            if places.contains((k, i)) {
                                cleaned(e, now)
                            } else {
                                e
                            },
                    ),
                    ..self.chains[k]
                },
        )
    }

    pub open spec fn live_ids(self) -> Seq<u64> {
        self.order.filter(|k: u64| self.chains[k].is_live())
    }

    /// The chains that were asked for since they came into memory, with the time of the last request.
    pub open spec fn hot_list(self) -> Seq<(u64, u64)> {
        self.order.filter(|k: u64| self.chains[k].last_ingress > 0).map_values(
            |k: u64| (k, self.chains[k].last_ingress),
        )
    }

    /// Live chains are in memory.
    pub proof fn lemma_live(self, chain_id: u64)
        requires
            self.wf(),
        ensures
            self.live_ids().contains(chain_id) <==> self.chains.contains_key(chain_id)
                && self.chains[chain_id].is_live(),
    {
        lemma_filter_contains(self.order, |k: u64| self.chains[k].is_live(), chain_id);
    }

    /// A hot chain that was not asked for for too long.
    pub open spec fn is_idle(self, chain_id: u64, now: u64) -> bool {
        &&& self.chains[chain_id].label() is Hot
        &&& seconds_between(now, self.chains[chain_id].last_ingress)
            > self.config.discovery.idle_seconds
    }

    pub open spec fn idle_ids(self, now: u64) -> Seq<u64> {
        self.order.filter(|k: u64| self.is_idle(k, now))
    }

    /// The hot chains that are not idle.
    pub open spec fn busy_ids(self, now: u64) -> Seq<u64> {
        self.order.filter(|k: u64| self.chains[k].label() is Hot && !self.is_idle(k, now))
    }

    pub open spec fn is_recent(self, chain_id: u64, now: u64) -> bool {
        seconds_between(now, self.chains[chain_id].last_ingress) < RECENT_SECONDS
    }

    /// Which chains have to make room: the least recently asked for, as many as there are too many,
    /// but none that was asked for just now.
    pub open spec fn are_evicted(self, now: u64, evicted: Seq<u64>) -> bool {
        let busy = self.busy_ids(now);
        let max = self.config.discovery.max_hot_chains as int;
        &&& evicted.no_duplicates()
        &&& forall|k: u64| #[trigger]
            evicted.contains(k) ==> busy.contains(k) && !self.is_recent(k, now)
        &&& evicted.len() == 0 || busy.len() - evicted.len() >= max
        &&& forall|e: u64, k: u64|
            #![trigger evicted.contains(e), busy.contains(k)]
            evicted.contains(e) && busy.contains(k) && !evicted.contains(k)
                ==> self.chains[e].last_ingress <= self.chains[k].last_ingress
        &&& busy.len() - evicted.len() <= max || (forall|k: u64|
            busy.contains(k) && !(#[trigger] evicted.contains(k)) ==> self.is_recent(k, now))
    }

    /// After idle chains and the given others were dropped from memory.
    pub open spec fn housekept(self, now: u64, evicted: Seq<u64>) -> RegistryView {
        RegistryView {
            chains: Map::new(
                |k: u64| self.chains.contains_key(k),
                |k: u64|
                    if self.is_idle(k, now) || evicted.contains(k) {
                        self.chains[k].demoted()
                    } else {
                        self.chains[k]
                    },
            ),
            idle_demotions: advanced(self.idle_demotions, self.idle_ids(now).len()),
            lru_demotions: advanced(self.lru_demotions, evicted.len()),
            ..self
        }
    }
}

/// What a filter keeps.
pub proof fn lemma_filter_contains(s: Seq<u64>, keep: spec_fn(u64) -> bool, k: u64)
    ensures
        s.filter(keep).contains(k) <==> s.contains(k) && keep(k),
    decreases s.len(),
{
    reveal(Seq::filter);
    if s.len() > 0 {
        let p = s.drop_last();
        lemma_filter_contains(p, keep, k);
        let f = p.filter(keep);
        if s.contains(k) {
            let i = choose|i: int| 0 <= i < s.len() && s[i] == k;
            if i < p.len() {
                assert(p[i] == k);
            }
        }
        if p.contains(k) {
            let i = choose|i: int| 0 <= i < p.len() && p[i] == k;
            assert(s[i] == k);
        }
        if keep(s.last()) {
            assert(s.filter(keep) == f.push(s.last()));
            if f.contains(k) {
                let i = choose|i: int| 0 <= i < f.len() && f[i] == k;
                assert(f.push(s.last())[i] == k);
            }
            if k == s.last() {
                assert(f.push(s.last())[f.len() as int] == k);
                assert(s[s.len() - 1] == k);
            }
            if f.push(s.last()).contains(k) && k != s.last() {
                let i = choose|i: int| 0 <= i < f.len() + 1 && f.push(s.last())[i] == k;
                assert(f[i] == k);
            }
        }
    }
}

/// The distance between two heights.
pub open spec fn distance(a: u64, b: u64) -> u64 {
    if a > b {
        (a - b) as u64
    } else {
        (b - a) as u64
    }
}

/// How many of the highest of `n` heights are left out of account.
pub open spec fn trimmed_off(n: int) -> int {
    if n < 3 {
        0
    } else if n < 20 {
        1
    } else {
        n / 10
    }
}

/// The greatest height that is no outlier.
pub open spec fn trimmed_greatest(heights: Seq<u64>) -> Option<u64> {
    let n = heights.len() as int;
    if n == 0 {
        None
    } else {
        Some(crate::order::ascending(heights)[n - 1 - trimmed_off(n)])
    }
}

/// The heights seen at most `freshness` ago.
pub open spec fn recent_heights(
    endpoints: Seq<EndpointView>,
    now: u128,
    freshness: u128,
) -> Seq<u64>
    decreases endpoints.len(),
{
    if endpoints.len() == 0 {
        Seq::empty()
    } else {
        let before = recent_heights(endpoints.drop_last(), now, freshness);
        match endpoints.last().recent_height(now, freshness) {
            Some(h) => before.push(h),
            None => before,
        }
    }
}

/// The endpoints with their distance from the head of the chain noted.
pub open spec fn with_lags(
    endpoints: Seq<EndpointView>,
    head: u64,
    now: u128,
    freshness: u128,
) -> Seq<EndpointView> {
    endpoints.map_values(
        |e: EndpointView|
            match e.recent_height(now, freshness) {
                Some(h) => EndpointView { lag: distance(head, h), dirty: true, ..e },
                None => e,
            },
    )
}

pub open spec fn status_name(e: EndpointView) -> Seq<char> {
    match e.health.status {
        crate::health::HealthStatus::Active => "active"@,
        crate::health::HealthStatus::Cooling { .. } => "cooling"@,
        crate::health::HealthStatus::Probation { .. } => "probation"@,
    }
}

/// How many endpoints are active, cooling and on probation.
pub open spec fn status_counts(endpoints: Seq<EndpointView>) -> (nat, nat, nat)
    decreases endpoints.len(),
{
    if endpoints.len() == 0 {
        (0, 0, 0)
    } else {
        let (active, cooling, probation) = status_counts(endpoints.drop_last());
        match endpoints.last().health.status {
            crate::health::HealthStatus::Active => (active + 1, cooling, probation),
            crate::health::HealthStatus::Cooling { .. } => (active, cooling + 1, probation),
            crate::health::HealthStatus::Probation { .. } => (active, cooling, probation + 1),
        }
    }
}

/// The endpoints of the given chains, each with the chain it belongs to.
pub open spec fn endpoint_rows(chains: Map<u64, ChainView>, ids: Seq<u64>) -> Seq<(u64, EndpointView)>
    decreases ids.len(),
{
    if ids.len() == 0 {
        Seq::empty()
    } else {
        let k = ids.last();
        endpoint_rows(chains, ids.drop_last()) + chains[k].endpoints.map_values(
            |e: EndpointView| (k, e),
        )
    }
}

/// The places of the endpoints that are active, or of those on probation.
pub open spec fn places_of(endpoints: Seq<EndpointView>, active: bool) -> Seq<usize>
    decreases endpoints.len(),
{
    if endpoints.len() == 0 {
        Seq::empty()
    } else {
        let before = places_of(endpoints.drop_last(), active);
        let status = endpoints.last().health.status;
        if (active && status is Active) || (!active && status is Probation) {
            before.push((endpoints.len() - 1) as usize)
        } else {
            before
        }
    }
}

/// The places that endpoints are chosen from: those of the active ones, or with none of those on
/// probation.
pub open spec fn pool_of(endpoints: Seq<EndpointView>) -> Seq<usize> {
    if places_of(endpoints, true).len() > 0 {
        places_of(endpoints, true)
    } else {
        places_of(endpoints, false)
    }
}

pub open spec fn pool_kind(endpoints: Seq<EndpointView>) -> PoolKind {
    if places_of(endpoints, true).len() > 0 {
        PoolKind::Active
    } else if places_of(endpoints, false).len() > 0 {
        PoolKind::Probation
    } else {
        PoolKind::Empty
    }
}

pub open spec fn no_more_than(n: int) -> u64 {
    if n > u64::MAX {
        u64::MAX
    } else {
        n as u64
    }
}

impl RegistryView {
    /// The endpoints of a chain that are in memory.
    pub open spec fn endpoints_of(self, chain_id: u64) -> Seq<EndpointView> {
        if self.chains.contains_key(chain_id) {
            self.chains[chain_id].endpoints
        } else {
            Seq::empty()
        }
    }

    /// With the decay of strikes accounted for everywhere.
    pub open spec fn decayed(self, now: u128) -> RegistryView {
        RegistryView {
            chains: Map::new(
                |k: u64| self.chains.contains_key(k),
                |k: u64|
                    ChainView {
                        endpoints: self.chains[k].endpoints.map_values(
                            |e: EndpointView| e.decayed(now),
                        ),
                        ..self.chains[k]
                    },
            ),
            ..self
        }
    }

    /// How long a height stays fresh.
    pub open spec fn freshness(self) -> u128 {
        let seconds = no_more_than(self.config.probe.max_interval_seconds * 2);
        (seconds * crate::health::SECOND) as u128
    }

    pub open spec fn lag_threshold(self, chain_id: u64) -> u64 {
        match self.chain_override(chain_id).max_block_lag {
            Some(n) => n,
            None => self.config.lag_for(chain_id),
        }
    }

    /// A chain after a probe of the endpoint at place `i` reported a height. With no endpoint at the
    /// place, only what is known of the others counts.
    pub open spec fn probed_chain(
        self,
        chain_id: u64,
        i: Option<int>,
        height: u64,
        now: u128,
    ) -> ChainView {
        let c = self.chains[chain_id];
        let seen = match i {
            Some(p) => c.endpoints.update(
                p,
                EndpointView { height: Some((height, now)), dirty: true, ..c.endpoints[p] },
            ),
            None => c.endpoints,
        };
        match trimmed_greatest(recent_heights(seen, now, self.freshness())) {
            Some(head) => {
                let lags = with_lags(seen, head, now, self.freshness());
                ChainView {
                    head,
                    endpoints: match i {
                        Some(p) if distance(head, height) > self.lag_threshold(chain_id) =>
                            lags.update(
                            p,
                            lags[p].after_failure(
                                now,
                                crate::health::FailureSignal {
                                    kind: crate::health::FaultKind::Lagging,
                                    retry_after: None,
                                },
                            ),
                        ),
                        _ => lags,
                    },
                    ..c
                }
            },
            None => ChainView { endpoints: seen, ..c },
        }
    }

    /// The settings in force for a chain: block time, confirmations, lifetime of answers about the head,
    /// and lag.
    pub open spec fn settings(self, chain_id: u64) -> (u64, u64, u64, u64) {
        let o = self.chain_override(chain_id);
        (
            match o.block_time_ms {
                Some(n) => n,
                None => self.config.block_time_for(chain_id),
            },
            match o.confirmation_depth {
                Some(n) => n,
                None => self.config.depth_for(chain_id),
            },
            match o.tip_ttl_ms {
                Some(n) => n,
                None => self.config.tip_ttl_for(chain_id),
            },
            match o.max_block_lag {
                Some(n) => n,
                None => self.config.lag_for(chain_id),
            },
        )
    }

    /// Where the settings of a chain come from.
    pub open spec fn settings_source(self, chain_id: u64) -> Seq<char> {
        if self.chain_overrides.contains_key(chain_id) {
            "runtime"@
        } else if self.config.override_for(chain_id) is Some {
            "config"@
        } else {
            "default"@
        }
    }

    /// How many chains in memory have the given label.
    pub open spec fn labelled(self, label: ChainStateLabel) -> nat {
        self.order.filter(|k: u64| self.chains[k].label() == label).len()
    }

    /// A chain of the catalog that is not in memory, but would be taken there on request.
    pub open spec fn is_waiting(self, chain_id: u64) -> bool {
        &&& !self.chains.contains_key(chain_id)
        &&& self.config.discovery.enabled || self.config.chains@.contains(chain_id)
    }

    /// How many chains of the catalog wait to be taken into memory; those that are disabled, or the
    /// others.
    pub open spec fn waiting(self, shut: bool) -> nat {
        match self.catalog {
            Some(c) => c.chains@.filter(
                |e: CatalogChain|
                    self.is_waiting(e.chain_id) && self.is_shut(e.chain_id) == shut,
            ).len(),
            None => 0,
        }
    }
}

/// A filter brings no duplicates.
pub proof fn lemma_filter_no_duplicates(s: Seq<u64>, keep: spec_fn(u64) -> bool)
    requires
        s.no_duplicates(),
    ensures
        s.filter(keep).no_duplicates(),
    decreases s.len(),
{
    reveal(Seq::filter);
    if s.len() > 0 {
        let p = s.drop_last();
        lemma_filter_no_duplicates(p, keep);
        if keep(s.last()) {
            lemma_filter_contains(p, keep, s.last());
            assert(!p.contains(s.last())) by {
                if p.contains(s.last()) {
                    let i = choose|i: int| 0 <= i < p.len() && p[i] == s.last();
                    assert(s[i] == s[s.len() - 1]);
                }
            }
            lemma_push_no_duplicates(p.filter(keep), s.last());
        }
    }
}

/// An endpoint is changed where it stands.
pub proof fn lemma_changed_endpoint(
    v: RegistryView,
    chain_id: u64,
    url: Seq<char>,
    i: int,
    change: spec_fn(EndpointView) -> EndpointView,
)
    requires
        v.chains.contains_key(chain_id),
        crate::chain::is_first_with(v.chains[chain_id].endpoints, url, i),
    ensures
        v.with_changed_endpoint(chain_id, url, change) == v.chains.insert(
            chain_id,
            ChainView {
                endpoints: v.chains[chain_id].endpoints.update(
                    i,
                    change(v.chains[chain_id].endpoints[i]),
                ),
                ..v.chains[chain_id]
            },
        ),
{
    let c = v.chains[chain_id];
    let j = choose|j: int| crate::chain::is_first_with(c.endpoints, url, j);
    assert(crate::chain::is_first_with(c.endpoints, url, j));
    assert(j == i);
}

/// The places of changed endpoints of a chain: each within bounds, each once.
pub proof fn lemma_dirty_in(chain_id: u64, endpoints: Seq<EndpointView>)
    ensures
        dirty_in(chain_id, endpoints).no_duplicates(),
        forall|p: (u64, int)| #[trigger]
            dirty_in(chain_id, endpoints).contains(p) <==> p.0 == chain_id && 0 <= p.1
                < endpoints.len() && endpoints[p.1].dirty,
    decreases endpoints.len(),
{
    if endpoints.len() > 0 {
        let short = endpoints.drop_last();
        lemma_dirty_in(chain_id, short);
        let before = dirty_in(chain_id, short);
        let all = dirty_in(chain_id, endpoints);
        let last = (chain_id, endpoints.len() - 1);
        assert forall|p: (u64, int)| #[trigger] all.contains(p) <==> p.0 == chain_id && 0 <= p.1
            < endpoints.len() && endpoints[p.1].dirty by {
            assert(before.contains(p) <==> p.0 == chain_id && 0 <= p.1 < short.len()
                && short[p.1].dirty);
            if endpoints.last().dirty {
                lemma_push_contains(before, last, p);
            }
        }
        assert(!before.contains(last));
        lemma_push_no_duplicates(before, last);
    }
}

pub proof fn lemma_push_contains<A>(s: Seq<A>, x: A, y: A)
    ensures
        s.push(x).contains(y) <==> s.contains(y) || x == y,
{
    if s.contains(y) {
        let i = choose|i: int| 0 <= i < s.len() && s[i] == y;
        assert(s.push(x)[i] == y);
    }
    if x == y {
        assert(s.push(x)[s.len() as int] == y);
    }
    if s.push(x).contains(y) && x != y {
        let i = choose|i: int| 0 <= i < s.push(x).len() && s.push(x)[i] == y;
        assert(s[i] == y);
    }
}

pub proof fn lemma_push_no_duplicates<A>(s: Seq<A>, x: A)
    requires
        s.no_duplicates(),
        !s.contains(x),
    ensures
        s.push(x).no_duplicates(),
{
    assert forall|i: int, j: int|
        0 <= i < s.push(x).len() && 0 <= j < s.push(x).len() && i != j implies s.push(x)[i]
        != s.push(x)[j] by {
        if i < s.len() {
            assert(s.contains(s[i]));
        }
        if j < s.len() {
            assert(s.contains(s[j]));
        }
    }
}

/// The places of changed endpoints: each that of a live chain, each once.
pub proof fn lemma_dirty_places(chains: Map<u64, ChainView>, order: Seq<u64>)
    requires
        order.no_duplicates(),
    ensures
        dirty_places_in(chains, order).no_duplicates(),
        forall|p: (u64, int)| #[trigger]
            dirty_places_in(chains, order).contains(p) <==> order.contains(p.0)
                && chains[p.0].is_live() && 0 <= p.1 < chains[p.0].endpoints.len()
                && chains[p.0].endpoints[p.1].dirty,
    decreases order.len(),
{
    if order.len() > 0 {
        let short = order.drop_last();
        let k = order.last();
        assert(short.no_duplicates());
        lemma_dirty_places(chains, short);
        let before = dirty_places_in(chains, short);
        let own = dirty_in(k, chains[k].endpoints);
        let all = dirty_places_in(chains, order);
        lemma_dirty_in(k, chains[k].endpoints);
        assert(order =~= short.push(k));
        assert(!short.contains(k)) by {
            if short.contains(k) {
                let i = choose|i: int| 0 <= i < short.len() && short[i] == k;
                assert(order[i] == order[order.len() - 1]);
            }
        }
        assert forall|p: (u64, int)| #[trigger] all.contains(p) <==> order.contains(p.0)
            && chains[p.0].is_live() && 0 <= p.1 < chains[p.0].endpoints.len()
            && chains[p.0].endpoints[p.1].dirty by {
            lemma_push_contains(short, k, p.0);
            assert(before.contains(p) <==> short.contains(p.0) && chains[p.0].is_live() && 0 <= p.1
                < chains[p.0].endpoints.len() && chains[p.0].endpoints[p.1].dirty);
            if chains[k].is_live() {
                assert(own.contains(p) <==> p.0 == k && 0 <= p.1 < chains[k].endpoints.len()
                    && chains[k].endpoints[p.1].dirty);
                lemma_concat_contains(before, own, p);
            }
        }
        if chains[k].is_live() {
            assert forall|i: int, j: int|
                0 <= i < all.len() && 0 <= j < all.len() && i != j implies all[i] != all[j] by {
                if i < before.len() && j >= before.len() {
                    assert(before.contains(all[i]));
                    assert(own.contains(own[j - before.len()]));
                } else if j < before.len() && i >= before.len() {
                    assert(before.contains(all[j]));
                    assert(own.contains(own[i - before.len()]));
                }
            }
        }
    }
}

pub proof fn lemma_concat_contains<A>(a: Seq<A>, b: Seq<A>, x: A)
    ensures
        (a + b).contains(x) <==> a.contains(x) || b.contains(x),
{
    if a.contains(x) {
        let i = choose|i: int| 0 <= i < a.len() && a[i] == x;
        assert((a + b)[i] == x);
    }
    if b.contains(x) {
        let i = choose|i: int| 0 <= i < b.len() && b[i] == x;
        assert((a + b)[a.len() + i] == x);
    }
    if (a + b).contains(x) {
        let i = choose|i: int| 0 <= i < (a + b).len() && (a + b)[i] == x;
        if i < a.len() {
            assert(a[i] == x);
        } else {
            assert(b[i - a.len()] == x);
        }
    }
}

/// A plan rests on the configuration and the runtime settings of endpoints alone.
pub proof fn lemma_plan_frame(a: RegistryView, b: RegistryView, chain_id: u64, urls: Seq<Seq<char>>)
    requires
        a.config == b.config,
        a.endpoint_overrides == b.endpoint_overrides,
        a.endpoint_order == b.endpoint_order,
    ensures
        a.plan(chain_id, urls) == b.plan(chain_id, urls),
{
    assert(a.plan(chain_id, urls) =~= b.plan(chain_id, urls));
}

/// What a refresh makes of a chain rests on no other chain.
pub proof fn lemma_refreshed_chain_frame(
    a: RegistryView,
    b: RegistryView,
    chain_id: u64,
    source: Option<ChainEndpoints>,
    at: Moment,
)
    requires
        b == (RegistryView { chains: b.chains, order: b.order, ..a }),
        a.chains.contains_key(chain_id) == b.chains.contains_key(chain_id),
        a.chains.contains_key(chain_id) ==> a.chains[chain_id] == b.chains[chain_id],
    ensures
        a.refreshed_chain(chain_id, source, at) == b.refreshed_chain(chain_id, source, at),
{
    let urls = match source {
        Some(s) => texts(s.endpoints@),
        None => Seq::empty(),
    };
    lemma_plan_frame(a, b, chain_id, urls);
}

} // verus!
