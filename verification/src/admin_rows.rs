//! What the control surface shows of chains and endpoints, and what of that the public may see.
use crate::admin;
use crate::admin_list::RowFacts;
use crate::chain::PlanItem;
use crate::chainlist;
use crate::chainlist::{Catalog, CatalogChain};
use crate::endpoint::{Endpoint, EndpointStatsSnapshot, EndpointView};
use crate::metrics::{ChainMetricsSnapshot, Metrics, MetricsView};
use crate::order;
use crate::promotion::{AutoEnableManager, CandidateProgress};
use crate::registry::{ChainSummary, Registry};
use crate::registry_model::{Moment, RegistryView};
use crate::text;
use crate::url;
use vstd::prelude::*;

verus! {

/// The settings in force for a chain.
#[derive(Clone, Copy, Debug)]
pub struct ChainSettings {
    pub block_time_ms: u64,
    pub confirmation_depth: u64,
    pub tip_ttl_ms: u64,
    pub max_block_lag: u64,
    pub source: &'static str,
}

/// What is shown of an endpoint.
#[derive(Debug)]
pub struct EndpointRow {
    pub url: String,
    pub tracking: Option<String>,
    pub state: &'static str,
    pub strikes: u32,
    pub cooling_until_unix: Option<u64>,
    pub latency_ewma_us: u64,
    pub lag: u64,
    pub rps: u32,
    pub concurrency: usize,
    pub disabled: bool,
    pub source: &'static str,
    pub last_fault: Option<String>,
    pub stats: EndpointStatsSnapshot,
}

/// What is shown of a chain.
#[derive(Debug)]
pub struct ChainRow {
    pub chain_id: u64,
    pub name: String,
    pub short_name: Option<String>,
    pub is_testnet: bool,
    pub status: Option<String>,
    pub state: String,
    pub pinned: bool,
    pub disabled: bool,
    pub pin_source: Option<&'static str>,
    /// How the chain has done as a candidate for the automatic choice, if it is one.
    pub auto_candidate: Option<CandidateProgress>,
    pub catalog_endpoints: usize,
    pub endpoints: usize,
    pub active: usize,
    pub cooling: usize,
    pub probation: usize,
    pub head: u64,
    pub last_ingress_unix: u64,
    pub ingress_total: u64,
    pub cache_hits_total: u64,
    pub cache_lookups_total: u64,
    pub upstream_total: u64,
    pub user_visible_errors_total: u64,
    pub settings: ChainSettings,
    pub endpoint_rows: Option<Vec<EndpointRow>>,
}

/// What the public sees of a chain.
#[derive(Debug)]
pub struct PublicChainRow {
    pub chain_id: u64,
    pub name: String,
    pub short_name: Option<String>,
    pub is_testnet: bool,
    pub native_symbol: Option<String>,
    pub explorer_url: Option<String>,
    pub status: Option<String>,
    pub state: String,
    pub catalog_endpoints: usize,
    pub endpoints: usize,
    pub active: usize,
    pub head: u64,
    pub ingress_total: u64,
    pub cache_hits_total: u64,
    pub cache_lookups_total: u64,
}

/// The entry of the catalog for a chain.
pub open spec fn entry_of(v: RegistryView, chain_id: u64) -> Option<CatalogChain> {
    match v.catalog {
        Some(c) => match c.place(chain_id) {
            Some(i) => Some(c.chains@[i]),
            None => None,
        },
        None => None,
    }
}

/// What the catalog says of the tracking of an endpoint: that of the first entry with its URL.
pub open spec fn tracking_in(
    endpoints: Seq<chainlist::CatalogEndpoint>,
    u: Seq<char>,
) -> Option<Seq<char>>
    decreases endpoints.len(),
{
    if endpoints.len() == 0 {
        None
    } else if endpoints[0].url@ == u {
        chainlist::characters(endpoints[0].tracking)
    } else {
        tracking_in(endpoints.skip(1), u)
    }
}

pub open spec fn tracking_of(v: RegistryView, chain_id: u64, u: Seq<char>) -> Option<Seq<char>> {
    match entry_of(v, chain_id) {
        Some(c) => tracking_in(c.endpoints@, u),
        None => None,
    }
}

pub open spec fn shown_strikes(e: EndpointView) -> u32 {
    match e.health.status {
        crate::health::HealthStatus::Active => 0,
        crate::health::HealthStatus::Probation { passes } => passes as u32,
        crate::health::HealthStatus::Cooling { .. } => e.health.strikes,
    }
}

pub open spec fn shown_pause(e: EndpointView, at: Moment) -> Option<u64> {
    match e.health.status {
        crate::health::HealthStatus::Cooling { until } => Some(
            crate::endpoint::pause_end(until, at.instant, at.unix),
        ),
        _ => None,
    }
}

impl EndpointRow {
    /// The row shows an endpoint in memory.
    pub open spec fn shows(self, v: RegistryView, chain_id: u64, e: EndpointView, at: Moment) -> bool {
        &&& self.url@ == e.url
        &&& chainlist::characters(self.tracking) == tracking_of(v, chain_id, e.url)
        &&& self.state@ == crate::registry_model::status_name(e)
        &&& self.strikes == shown_strikes(e)
        &&& self.cooling_until_unix == shown_pause(e, at)
        &&& self.latency_ewma_us == e.latency
        &&& self.lag == e.lag
        &&& self.rps == e.rps
        &&& self.concurrency == e.concurrency
        &&& !self.disabled
        &&& self.source@ == v.endpoint_source(chain_id, e.url)
        &&& self.last_fault is None
        &&& self.stats == e.stats
    }

    /// The row shows an endpoint that is switched off.
    pub open spec fn shows_off(
        self,
        v: RegistryView,
        chain_id: u64,
        p: crate::chain::PlanView,
    ) -> bool {
        &&& self.url@ == p.url
        &&& chainlist::characters(self.tracking) == tracking_of(v, chain_id, p.url)
        &&& self.state@ == "disabled"@
        &&& self.strikes == 0
        &&& self.cooling_until_unix is None
        &&& self.latency_ewma_us == 0
        &&& self.lag == 0
        &&& self.rps == p.rps
        &&& self.concurrency == p.concurrency
        &&& self.disabled
        &&& self.source@ == v.endpoint_source(chain_id, p.url)
        &&& self.last_fault is None
        &&& self.stats == crate::endpoint::no_stats()
    }
}

/// The rows of a chain: its endpoints in memory, then those that are switched off.
pub open spec fn are_endpoint_rows(
    rows: Seq<EndpointRow>,
    v: RegistryView,
    chain_id: u64,
    at: Moment,
) -> bool {
    let es = v.endpoints_of(chain_id);
    let off = crate::registry_model::switched_off_urls(
        v.endpoint_order,
        v.endpoint_overrides,
        chain_id,
    );
    &&& rows.len() == es.len() + off.len()
    &&& forall|i: int| 0 <= i < es.len() ==> (#[trigger] rows[i]).shows(v, chain_id, es[i], at)
    &&& forall|i: int|
        es.len() <= i < rows.len() ==> (#[trigger] rows[i]).shows_off(
            v,
            chain_id,
            v.plan_item(chain_id, off[i - es.len()]),
        )
}

/// The state of a chain. One that the configuration denies is disabled, and so is one that is not in
/// memory and that runtime settings disable; any other that is not in memory is dormant.
pub open spec fn state_of(v: RegistryView, chain_id: u64) -> Seq<char> {
    if v.is_denied(chain_id) {
        "disabled"@
    } else if v.chains.contains_key(chain_id) {
        admin::label_text(v.chains[chain_id].label())
    } else if v.is_shut(chain_id) {
        "disabled"@
    } else {
        "dormant"@
    }
}

pub open spec fn counts_of(v: RegistryView, chain_id: u64) -> (nat, nat, nat) {
    crate::registry_model::status_counts(v.endpoints_of(chain_id))
}

/// What pins a chain.
pub open spec fn pin_source_of(v: RegistryView, chain_id: u64) -> Option<Seq<char>> {
    if v.config.chains@.contains(chain_id) {
        Some("config"@)
    } else if v.pinned.contains_key(chain_id) && v.pinned[chain_id] {
        Some("manual"@)
    } else if v.auto_pinned.contains_key(chain_id) {
        Some("auto"@)
    } else {
        None
    }
}

impl ChainSettings {
    pub open spec fn is_for(self, v: RegistryView, chain_id: u64) -> bool {
        &&& (self.block_time_ms, self.confirmation_depth, self.tip_ttl_ms, self.max_block_lag)
            == v.settings(chain_id)
        &&& self.source@ == v.settings_source(chain_id)
    }
}

impl ChainRow {
    /// The row shows a chain of the catalog.
    pub open spec fn is_for(
        self,
        v: RegistryView,
        m: MetricsView,
        progress: Map<u64, CandidateProgress>,
        chain_id: u64,
        detailed: bool,
        at: Moment,
    ) -> bool {
        let entry = entry_of(v, chain_id);
        let counted = m.chain(chain_id);
        &&& self.chain_id == chain_id
        &&& self.name@ == v.catalog_name(chain_id)
        &&& chainlist::characters(self.short_name) == (match entry {
            Some(c) => chainlist::characters(c.short_name),
            None => None,
        })
        &&& self.is_testnet == (entry matches Some(c) && c.is_testnet)
        &&& chainlist::characters(self.status) == (match entry {
            Some(c) => chainlist::characters(c.status),
            None => None,
        })
        &&& self.state@ == state_of(v, chain_id)
        &&& self.pinned == (self.state@ == "pinned"@)
        &&& self.disabled == (self.state@ == "disabled"@)
        &&& match self.pin_source {
            Some(s) => pin_source_of(v, chain_id) == Some(s@),
            None => pin_source_of(v, chain_id) is None,
        }
        &&& self.auto_candidate == (if progress.contains_key(chain_id) {
            Some(progress[chain_id])
        } else {
            None
        })
        &&& self.catalog_endpoints == v.catalog_urls(chain_id).len()
        &&& self.endpoints == v.endpoints_of(chain_id).len()
        &&& (self.active as nat, self.cooling as nat, self.probation as nat) == counts_of(
            v,
            chain_id,
        )
        &&& self.head == (if v.chains.contains_key(chain_id) {
            v.chains[chain_id].head
        } else {
            0
        })
        &&& self.last_ingress_unix == (if v.chains.contains_key(chain_id) {
            v.chains[chain_id].last_ingress
        } else {
            0
        })
        &&& self.ingress_total == counted.ingress
        &&& self.cache_hits_total == counted.cache_hits
        &&& self.cache_lookups_total == counted.cache_lookups
        &&& self.upstream_total == counted.upstream
        &&& self.user_visible_errors_total == counted.user_visible_errors
        &&& self.settings.is_for(v, chain_id)
        &&& match self.endpoint_rows {
            Some(rows) => detailed && are_endpoint_rows(rows@, v, chain_id, at),
            None => !detailed,
        }
    }

    /// What lists are searched and sorted by.
    pub fn facts(&self) -> (f: RowFacts)
        ensures
            f.chain_id == self.chain_id,
            f.name == self.name,
            f.short_name == self.short_name,
            f.state == self.state,
            f.is_testnet == self.is_testnet,
            f.ingress_total == self.ingress_total,
            f.active == self.active,
            f.endpoints == self.endpoints,
    {
        RowFacts {
            chain_id: self.chain_id,
            name: self.name.clone(),
            short_name: chainlist::copy_text(&self.short_name),
            state: self.state.clone(),
            is_testnet: self.is_testnet,
            ingress_total: self.ingress_total,
            active: self.active,
            endpoints: self.endpoints,
        }
    }
}

impl PublicChainRow {
    /// What lists are searched and sorted by.
    pub fn facts(&self) -> (f: RowFacts)
        ensures
            f.chain_id == self.chain_id,
            f.name == self.name,
            f.short_name == self.short_name,
            f.state == self.state,
            f.is_testnet == self.is_testnet,
            f.ingress_total == self.ingress_total,
            f.active == self.active,
            f.endpoints == self.endpoints,
    {
        RowFacts {
            chain_id: self.chain_id,
            name: self.name.clone(),
            short_name: chainlist::copy_text(&self.short_name),
            state: self.state.clone(),
            is_testnet: self.is_testnet,
            ingress_total: self.ingress_total,
            active: self.active,
            endpoints: self.endpoints,
        }
    }
}

fn find_tracking(c: &CatalogChain, u: &str) -> (t: Option<String>)
    ensures
        chainlist::characters(t) == tracking_in(c.endpoints@, u@),
{
    let mut i: usize = 0;
    assert(c.endpoints@.skip(0) =~= c.endpoints@);
    while i < c.endpoints.len()
        invariant
            i <= c.endpoints@.len(),
            tracking_in(c.endpoints@, u@) == tracking_in(c.endpoints@.skip(i as int), u@),
        decreases c.endpoints@.len() - i,
    {
        if text::same(c.endpoints[i].url.as_str(), u) {
            return chainlist::copy_text(&c.endpoints[i].tracking);
        }
        assert(c.endpoints@.skip(i as int).skip(1) =~= c.endpoints@.skip(i + 1));
        i = i + 1;
    }
    None
}

fn tracking(c: Option<&CatalogChain>, u: &str) -> (t: Option<String>)
    ensures
        chainlist::characters(t) == (match c {
            Some(chain) => tracking_in(chain.endpoints@, u@),
            None => None,
        }),
{
    match c {
        Some(chain) => find_tracking(chain, u),
        None => None,
    }
}

fn endpoint_row(
    registry: &Registry,
    chain_id: u64,
    c: Option<&CatalogChain>,
    e: &Endpoint,
    at: Moment,
) -> (row: EndpointRow)
    requires
        registry.wf(),
        match c {
            Some(chain) => entry_of(registry@, chain_id) == Some(*chain),
            None => entry_of(registry@, chain_id) is None,
        },
    ensures
        row.shows(registry@, chain_id, e@, at),
{
    let (state, strikes, pause): (&'static str, u32, Option<u64>) = e.shown_health(
        at.instant,
        at.unix,
    );
    EndpointRow {
        url: e.url().to_owned(),
        tracking: tracking(c, e.url()),
        state,
        strikes,
        cooling_until_unix: pause,
        latency_ewma_us: e.latency_ewma_micros(),
        lag: e.lag(),
        rps: e.rps(),
        concurrency: e.concurrency(),
        disabled: false,
        source: registry.endpoint_source(chain_id, e.url()),
        last_fault: None,
        stats: e.stats(),
    }
}

fn off_row(registry: &Registry, chain_id: u64, c: Option<&CatalogChain>, p: &PlanItem) -> (row:
    EndpointRow)
    requires
        registry.wf(),
        match c {
            Some(chain) => entry_of(registry@, chain_id) == Some(*chain),
            None => entry_of(registry@, chain_id) is None,
        },
    ensures
        row.shows_off(registry@, chain_id, p@),
{
    EndpointRow {
        url: p.url.clone(),
        tracking: tracking(c, p.url.as_str()),
        state: "disabled",
        strikes: 0,
        cooling_until_unix: None,
        latency_ewma_us: 0,
        lag: 0,
        rps: p.rps,
        concurrency: p.concurrency,
        disabled: true,
        source: registry.endpoint_source(chain_id, p.url.as_str()),
        last_fault: None,
        stats: EndpointStatsSnapshot::default(),
    }
}

fn build_endpoint_rows(
    registry: &Registry,
    chain_id: u64,
    c: Option<&CatalogChain>,
    at: Moment,
) -> (rows: Vec<EndpointRow>)
    requires
        registry.wf(),
        match c {
            Some(chain) => entry_of(registry@, chain_id) == Some(*chain),
            None => entry_of(registry@, chain_id) is None,
        },
    ensures
        are_endpoint_rows(rows@, registry@, chain_id, at),
{
    let ghost v = registry@;
    let ghost es = v.endpoints_of(chain_id);
    let mut rows: Vec<EndpointRow> = Vec::new();
    if let Some(endpoints) = registry.all_endpoints(chain_id) {
        let mut i: usize = 0;
        while i < endpoints.len()
            invariant
                i <= endpoints@.len(),
                registry.wf(),
                v == registry@,
                es == v.endpoints_of(chain_id),
                es == crate::chain::views(endpoints@),
                match c {
                    Some(chain) => entry_of(v, chain_id) == Some(*chain),
                    None => entry_of(v, chain_id) is None,
                },
                rows@.len() == i,
                forall|k: int| 0 <= k < i ==> (#[trigger] rows@[k]).shows(v, chain_id, es[k], at),
            decreases endpoints@.len() - i,
        {
            assert(es[i as int] == endpoints@[i as int]@);
            rows.push(endpoint_row(registry, chain_id, c, &endpoints[i], at));
            i = i + 1;
        }
    }
    let items = registry.switched_off_endpoints(chain_id);
    let ghost off = crate::registry_model::switched_off_urls(
        v.endpoint_order,
        v.endpoint_overrides,
        chain_id,
    );
    let ghost plans = crate::chain::plan_views(items@);
    let mut i: usize = 0;
    while i < items.len()
        invariant
            i <= items@.len(),
            registry.wf(),
            v == registry@,
            es == v.endpoints_of(chain_id),
            plans == crate::chain::plan_views(items@),
            plans == off.map_values(|u: Seq<char>| v.plan_item(chain_id, u)),
            match c {
                Some(chain) => entry_of(v, chain_id) == Some(*chain),
                None => entry_of(v, chain_id) is None,
            },
            rows@.len() == es.len() + i,
            forall|k: int| 0 <= k < es.len() ==> (#[trigger] rows@[k]).shows(v, chain_id, es[k], at),
            forall|k: int|
                es.len() <= k < rows@.len() ==> (#[trigger] rows@[k]).shows_off(
                    v,
                    chain_id,
                    v.plan_item(chain_id, off[k - es.len()]),
                ),
        decreases items@.len() - i,
    {
        proof {
            assert(plans.len() == off.len());
            assert(plans[i as int] == items@[i as int]@);
            assert(off.map_values(|u: Seq<char>| v.plan_item(chain_id, u))[i as int] == v.plan_item(
                chain_id,
                off[i as int],
            ));
        }
        rows.push(off_row(registry, chain_id, c, &items[i]));
        i = i + 1;
    }
    assert(plans.len() == off.len());
    rows
}

/// The ids of the chains that are shown: those of the catalog, in ascending order, or the one asked for.
pub open spec fn are_shown_ids(ids: Seq<u64>, chains: Seq<CatalogChain>, only: Option<u64>) -> bool {
    &&& forall|i: int, j: int|
        0 <= i < j < ids.len() ==> #[trigger] ids[i] < #[trigger] ids[j]
    &&& forall|k: u64| #[trigger]
        ids.contains(k) <==> (only matches Some(id) ==> k == id) && exists|i: int|
            0 <= i < chains.len() && (#[trigger] chains[i]).chain_id == k
}

fn shown_ids(catalog: &Catalog, only: Option<u64>) -> (ids: Vec<u64>)
    ensures
        are_shown_ids(ids@, catalog.chains@, only),
{
    let ghost chains = catalog.chains@;
    let mut all: Vec<u64> = Vec::new();
    let mut i: usize = 0;
    while i < catalog.chains.len()
        invariant
            i <= chains.len(),
            chains == catalog.chains@,
            forall|k: u64| #[trigger]
                all@.contains(k) <==> (only matches Some(id) ==> k == id) && exists|a: int|
                    0 <= a < i && (#[trigger] chains[a]).chain_id == k,
        decreases chains.len() - i,
    {
        let ghost had = all@;
        let id: u64 = catalog.chains[i].chain_id;
        let wanted: bool = match only {
            Some(k) => k == id,
            None => true,
        };
        if wanted {
            all.push(id);
        }
        proof {
            assert forall|k: u64| #[trigger] all@.contains(k) <==> (only matches Some(x) ==> k
                == x) && exists|a: int| 0 <= a < i + 1 && (#[trigger] chains[a]).chain_id == k by {
                crate::registry_model::lemma_push_contains(had, id, k);
                assert(had.contains(k) <==> (only matches Some(x) ==> k == x) && exists|a: int|
                    0 <= a < i && (#[trigger] chains[a]).chain_id == k);
                if k == id {
                    assert(chains[i as int].chain_id == k);
                }
            }
        }
        i = i + 1;
    }
    let sorted = order::sorted_numbers(all.as_slice());
    let ghost leq = |a: u64, b: u64| a <= b;
    proof {
        all@.lemma_sort_by_ensures(leq);
        all@.to_multiset_ensures();
        sorted@.to_multiset_ensures();
        assert forall|k: u64| #[trigger] sorted@.contains(k) <==> all@.contains(k) by {
            assert(sorted@.to_multiset().count(k) == all@.to_multiset().count(k));
        }
    }
    let mut ids: Vec<u64> = Vec::new();
    let mut n: usize = 0;
    while n < sorted.len()
        invariant
            n <= sorted@.len(),
            leq == (|a: u64, b: u64| a <= b),
            vstd::relations::sorted_by(sorted@, leq),
            forall|a: int, b: int| 0 <= a < b < ids@.len() ==> #[trigger] ids@[a] < #[trigger] ids@[b],
            forall|k: u64| #[trigger] ids@.contains(k) <==> sorted@.take(n as int).contains(k),
            ids@.len() == 0 <==> n == 0,
            n > 0 ==> ids@.last() == sorted@[n - 1],
        decreases sorted@.len() - n,
    {
        let ghost had = ids@;
        let ghost done = sorted@.take(n as int);
        let id: u64 = sorted[n];
        proof {
            assert(sorted@.take(n + 1) =~= done.push(id));
            if n > 0 {
                assert(leq(sorted@[n - 1], sorted@[n as int]));
            }
        }
        let fresh: bool = ids.len() == 0 || ids[ids.len() - 1] != id;
        if fresh {
            ids.push(id);
        }
        proof {
            assert forall|k: u64| #[trigger] ids@.contains(k) <==> sorted@.take(n + 1).contains(
                k,
            ) by {
                crate::registry_model::lemma_push_contains(done, id, k);
                crate::registry_model::lemma_push_contains(had, id, k);
                assert(had.contains(k) <==> done.contains(k));
                if !fresh && k == id {
                    assert(had[had.len() - 1] == id);
                }
            }
        }
        n = n + 1;
    }
    proof {
        assert(sorted@.take(sorted@.len() as int) =~= sorted@);
        assert forall|k: u64| #[trigger] ids@.contains(k) <==> (only matches Some(id) ==> k == id)
            && exists|a: int| 0 <= a < chains.len() && (#[trigger] chains[a]).chain_id == k by {
            assert(sorted@.contains(k) <==> all@.contains(k));
        }
    }
    ids
}

/// What is known of the candidates for the automatic choice.
pub open spec fn progress_seen(candidates: Option<&AutoEnableManager>) -> Map<u64, CandidateProgress> {
    match candidates {
        Some(m) => m@.progress,
        None => Map::empty(),
    }
}

fn build_row(
    registry: &Registry,
    metrics: &Metrics,
    candidates: Option<&AutoEnableManager>,
    catalog: &Catalog,
    chain_id: u64,
    detailed: bool,
    at: Moment,
) -> (row: ChainRow)
    requires
        registry.wf(),
        metrics.wf(),
        candidates matches Some(m) ==> m.wf(),
        registry@.catalog == Some(*catalog),
    ensures
        row.is_for(registry@, metrics@, progress_seen(candidates), chain_id, detailed, at),
{
    let ghost v = registry@;
    let c = catalog.lookup(chain_id);
    let summary = registry.summary(chain_id);
    let state: &'static str = if registry.is_denied(chain_id) {
        "disabled"
    } else {
        match &summary {
            Some(s) => admin::label_name(s.state),
            None => if registry.is_shut(chain_id) {
                "disabled"
            } else {
                "dormant"
            },
        }
    };
    let counted = metrics.chain_snapshot(chain_id);
    let (block_time_ms, confirmation_depth, tip_ttl_ms, max_block_lag, source): (
        u64,
        u64,
        u64,
        u64,
        &'static str,
    ) = registry.chain_settings(chain_id);
    let (endpoints, active, cooling, probation, head): (usize, usize, usize, usize, u64) = match &summary {
        Some(s) => (s.endpoints, s.active, s.cooling, s.probation, s.head),
        None => (0, 0, 0, 0, 0),
    };
    let name: String = match c {
        Some(chain) => chain.name.clone(),
        None => {
            let id = text::decimal(chain_id);
            text::join("Chain ", id.as_str())
        },
    };
    let short_name: Option<String> = match c {
        Some(chain) => chainlist::copy_text(&chain.short_name),
        None => None,
    };
    let status: Option<String> = match c {
        Some(chain) => chainlist::copy_text(&chain.status),
        None => None,
    };
    let is_testnet: bool = match c {
        Some(chain) => chain.is_testnet,
        None => false,
    };
    let catalog_endpoints: usize = match c {
        Some(chain) => chain.endpoints.len(),
        None => 0,
    };
    let endpoint_rows: Option<Vec<EndpointRow>> = if detailed {
        Some(build_endpoint_rows(registry, chain_id, c, at))
    } else {
        None
    };
    ChainRow {
        chain_id,
        name,
        short_name,
        is_testnet,
        status,
        state: state.to_owned(),
        pinned: text::same(state, "pinned"),
        disabled: text::same(state, "disabled"),
        pin_source: registry.pin_source(chain_id),
        auto_candidate: match candidates {
            Some(m) => m.candidate_progress(chain_id),
            None => None,
        },
        catalog_endpoints,
        endpoints,
        active,
        cooling,
        probation,
        head,
        last_ingress_unix: registry.chain_last_ingress(chain_id),
        ingress_total: counted.ingress,
        cache_hits_total: counted.cache_hits,
        cache_lookups_total: counted.cache_lookups,
        upstream_total: counted.upstream,
        user_visible_errors_total: counted.user_visible_errors,
        settings: ChainSettings {
            block_time_ms,
            confirmation_depth,
            tip_ttl_ms,
            max_block_lag,
            source,
        },
        endpoint_rows,
    }
}

/// The rows show the given chains, one for one.
pub open spec fn show(
    rows: Seq<ChainRow>,
    v: RegistryView,
    m: MetricsView,
    progress: Map<u64, CandidateProgress>,
    ids: Seq<u64>,
    detailed: bool,
    at: Moment,
) -> bool {
    &&& rows.len() == ids.len()
    &&& forall|i: int|
        0 <= i < rows.len() ==> (#[trigger] rows[i]).is_for(v, m, progress, ids[i], detailed, at)
}

/// The rows show the chains of the catalog, or the one asked for.
pub open spec fn show_catalog(
    rows: Seq<ChainRow>,
    v: RegistryView,
    m: MetricsView,
    progress: Map<u64, CandidateProgress>,
    only: Option<u64>,
    at: Moment,
) -> bool {
    match v.catalog {
        Some(c) => exists|ids: Seq<u64>| #[trigger]
            are_shown_ids(ids, c.chains@, only) && show(
                rows,
                v,
                m,
                progress,
                ids,
                only is Some,
                at,
            ),
        None => rows.len() == 0,
    }
}

/// One row for each chain of the catalog, or for the one asked for, which is shown with its endpoints.
pub fn build_rows(
    registry: &mut Registry,
    metrics: &Metrics,
    candidates: Option<&AutoEnableManager>,
    only: Option<u64>,
    at: Moment,
) -> (rows: Vec<ChainRow>)
    requires
        old(registry).wf(),
        metrics.wf(),
        candidates matches Some(m) ==> m.wf(),
    ensures
        final(registry).wf(),
        final(registry)@ == old(registry)@.decayed(at.instant),
        show_catalog(
            rows@,
            final(registry)@,
            metrics@,
            progress_seen(candidates),
            only,
            at,
        ),
{
    registry.decay_all(at.instant);
    let mut rows: Vec<ChainRow> = Vec::new();
    if let Some(catalog) = registry.catalog() {
        let ids = shown_ids(&catalog, only);
        let mut i: usize = 0;
        while i < ids.len()
            invariant
                i <= ids@.len(),
                registry.wf(),
                metrics.wf(),
                candidates matches Some(m) ==> m.wf(),
                registry@.catalog == Some(*catalog),
                rows@.len() == i,
                forall|k: int|
                    0 <= k < i ==> (#[trigger] rows@[k]).is_for(
                        registry@,
                        metrics@,
                        progress_seen(candidates),
                        ids@[k],
                        only is Some,
                        at,
                    ),
            decreases ids@.len() - i,
        {
            rows.push(
                build_row(registry, metrics, candidates, &catalog, ids[i], only.is_some(), at),
            );
            i = i + 1;
        }
        proof {
            let c = registry@.catalog->0;
            assert(c == *catalog);
            assert(are_shown_ids(ids@, c.chains@, only));
            let progress = progress_seen(candidates);
            assert(show(rows@, registry@, metrics@, progress, ids@, only is Some, at));
            assert(show_catalog(rows@, registry@, metrics@, progress, only, at));
        }
    }
    rows
}

/// The public state of a chain: whether it can be used right now.
pub open spec fn public_state_of(row: ChainRow) -> Seq<char> {
    if (row.state@ == "pinned"@ || row.state@ == "hot"@) && row.active > 0 {
        "available"@
    } else {
        "unverified"@
    }
}

fn public_state(row: &ChainRow) -> (s: &'static str)
    ensures
        s@ == public_state_of(*row),
{
    if (text::same(row.state.as_str(), "pinned") || text::same(row.state.as_str(), "hot"))
        && row.active > 0 {
        "available"
    } else {
        "unverified"
    }
}

/// The link to the explorer of a chain, if it is one that can be followed.
pub open spec fn explorer_of(c: Option<CatalogChain>) -> Option<Seq<char>> {
    match c {
        Some(chain) => match chain.explorer_url {
            Some(u) => if url::shown_link(u@) {
                Some(u@)
            } else {
                None
            },
            None => None,
        },
        None => None,
    }
}

impl PublicChainRow {
    /// The row shows what the public may see of a chain.
    pub open spec fn is_for(self, row: ChainRow, c: Option<CatalogChain>) -> bool {
        &&& self.chain_id == row.chain_id
        &&& self.name@ == row.name@
        &&& self.short_name == row.short_name
        &&& self.is_testnet == row.is_testnet
        &&& chainlist::characters(self.native_symbol) == (match c {
            Some(chain) => chainlist::characters(chain.native_symbol),
            None => None,
        })
        &&& chainlist::characters(self.explorer_url) == explorer_of(c)
        &&& self.status == row.status
        &&& self.state@ == public_state_of(row)
        &&& self.catalog_endpoints == row.catalog_endpoints
        &&& self.endpoints == row.endpoints
        &&& self.active == row.active
        &&& self.head == row.head
        &&& self.ingress_total == row.ingress_total
        &&& self.cache_hits_total == row.cache_hits_total
        &&& self.cache_lookups_total == row.cache_lookups_total
    }
}

pub open spec fn entry_in(catalog: Option<Catalog>, chain_id: u64) -> Option<CatalogChain> {
    match catalog {
        Some(c) => match c.place(chain_id) {
            Some(i) => Some(c.chains@[i]),
            None => None,
        },
        None => None,
    }
}

/// What the public may see of a chain.
pub fn public_row(row: &ChainRow, catalog: Option<&Catalog>) -> (r: PublicChainRow)
    ensures
        r.is_for(
            *row,
            entry_in(
                match catalog {
                    Some(c) => Some(*c),
                    None => None,
                },
                row.chain_id,
            ),
        ),
{
    let c: Option<&CatalogChain> = match catalog {
        Some(c) => c.lookup(row.chain_id),
        None => None,
    };
    let native_symbol: Option<String> = match c {
        Some(chain) => chainlist::copy_text(&chain.native_symbol),
        None => None,
    };
    let explorer_url: Option<String> = match c {
        Some(chain) => match &chain.explorer_url {
            Some(u) => if url::may_show_link(u.as_str()) {
                Some(u.clone())
            } else {
                None
            },
            None => None,
        },
        None => None,
    };
    PublicChainRow {
        chain_id: row.chain_id,
        name: row.name.clone(),
        short_name: chainlist::copy_text(&row.short_name),
        is_testnet: row.is_testnet,
        native_symbol,
        explorer_url,
        status: chainlist::copy_text(&row.status),
        state: public_state(row).to_owned(),
        catalog_endpoints: row.catalog_endpoints,
        endpoints: row.endpoints,
        active: row.active,
        head: row.head,
        ingress_total: row.ingress_total,
        cache_hits_total: row.cache_hits_total,
        cache_lookups_total: row.cache_lookups_total,
    }
}

/// The places of the rows that the public may see: all but those of chains that are switched off.
pub open spec fn visible_places(rows: Seq<ChainRow>) -> Seq<int>
    decreases rows.len(),
{
    if rows.len() == 0 {
        Seq::empty()
    } else {
        let before = visible_places(rows.drop_last());
        if rows.last().state@ != "disabled"@ {
            before.push(rows.len() - 1)
        } else {
            before
        }
    }
}

/// The rows that the public may see.
pub fn public_rows(rows: &Vec<ChainRow>, catalog: Option<&Catalog>) -> (r: Vec<PublicChainRow>)
    ensures
        r@.len() == visible_places(rows@).len(),
        forall|i: int|
            0 <= i < r@.len() ==> (#[trigger] r@[i]).is_for(
                rows@[visible_places(rows@)[i]],
                entry_in(
                    match catalog {
                        Some(c) => Some(*c),
                        None => None,
                    },
                    rows@[visible_places(rows@)[i]].chain_id,
                ),
            ),
{
    let ghost whole = match catalog {
        Some(c) => Some(*c),
        None => None,
    };
    let mut r: Vec<PublicChainRow> = Vec::new();
    let mut i: usize = 0;
    assert(rows@.take(0) =~= Seq::<ChainRow>::empty());
    while i < rows.len()
        invariant
            i <= rows@.len(),
            whole == (match catalog {
                Some(c) => Some(*c),
                None => None,
            }),
            r@.len() == visible_places(rows@.take(i as int)).len(),
            forall|k: int|
                0 <= k < r@.len() ==> (#[trigger] r@[k]).is_for(
                    rows@[visible_places(rows@.take(i as int))[k]],
                    entry_in(whole, rows@[visible_places(rows@.take(i as int))[k]].chain_id),
                ),
        decreases rows@.len() - i,
    {
        assert(rows@.take(i + 1).drop_last() =~= rows@.take(i as int));
        if !text::same(rows[i].state.as_str(), "disabled") {
            r.push(public_row(&rows[i], catalog));
        }
        i = i + 1;
    }
    assert(rows@.take(rows@.len() as int) =~= rows@);
    r
}

/// How many of the chains that the public may see can be used right now.
pub fn available_count(rows: &Vec<PublicChainRow>) -> (n: usize)
    ensures
        n == rows@.filter(|r: PublicChainRow| r.state@ == "available"@).len(),
{
    let ghost available = |r: PublicChainRow| r.state@ == "available"@;
    let mut n: usize = 0;
    let mut i: usize = 0;
    proof {
        reveal(Seq::filter);
        assert(rows@.take(0) =~= Seq::<PublicChainRow>::empty());
    }
    while i < rows.len()
        invariant
            i <= rows@.len(),
            n <= i,
            available == (|r: PublicChainRow| r.state@ == "available"@),
            n == rows@.take(i as int).filter(available).len(),
        decreases rows@.len() - i,
    {
        proof {
            reveal(Seq::filter);
            assert(rows@.take(i + 1).drop_last() =~= rows@.take(i as int));
        }
        if text::same(rows[i].state.as_str(), "available") {
            n = n + 1;
        }
        i = i + 1;
    }
    assert(rows@.take(rows@.len() as int) =~= rows@);
    n
}

/// A chain that is switched off is not shown to the public, and every other chain is.
pub proof fn lemma_public_sees_all_but_disabled(rows: Seq<ChainRow>, p: int)
    ensures
        visible_places(rows).contains(p) <==> 0 <= p < rows.len() && rows[p].state@ != "disabled"@,
    decreases rows.len(),
{
    if rows.len() > 0 {
        let short = rows.drop_last();
        lemma_public_sees_all_but_disabled(short, p);
        crate::registry_model::lemma_push_contains(
            visible_places(short),
            rows.len() - 1,
            p,
        );
    }
}

/// A chain is shown as available only while it is pinned or hot and has an active endpoint.
pub proof fn lemma_available_chains_can_be_used(
    row: ChainRow,
    v: RegistryView,
    m: MetricsView,
    progress: Map<u64, CandidateProgress>,
    chain_id: u64,
    detailed: bool,
    at: Moment,
)
    requires
        row.is_for(v, m, progress, chain_id, detailed, at),
        public_state_of(row) == "available"@,
    ensures
        v.chains.contains_key(chain_id),
        v.chains[chain_id].is_live(),
        counts_of(v, chain_id).0 > 0,
{
    reveal_strlit("pinned");
    reveal_strlit("hot");
    reveal_strlit("dormant");
    reveal_strlit("disabled");
    reveal_strlit("available");
    reveal_strlit("unverified");
    assert("available"@.len() != "unverified"@.len());
    assert("pinned"@.len() == 6 && "hot"@.len() == 3);
    assert("dormant"@.len() == 7 && "disabled"@.len() == 8);
}

/// A chain that the configuration denies, or that a runtime setting disables before it is ever asked
/// for, is shown as disabled, and so not shown to the public.
pub proof fn lemma_shut_chains_are_disabled(
    row: ChainRow,
    v: RegistryView,
    m: MetricsView,
    progress: Map<u64, CandidateProgress>,
    chain_id: u64,
    detailed: bool,
    at: Moment,
)
    requires
        row.is_for(v, m, progress, chain_id, detailed, at),
        v.is_denied(chain_id) || (v.is_shut(chain_id) && !v.chains.contains_key(chain_id)),
    ensures
        row.state@ == "disabled"@,
        row.disabled,
        visible_places(seq![row]).len() == 0,
{
    let one = seq![row];
    assert(one.drop_last() =~= Seq::<ChainRow>::empty());
    assert(visible_places(one.drop_last()).len() == 0);
    assert(one.last() == row);
    assert(visible_places(one) == visible_places(one.drop_last()));
}

/// The sum of what was counted of chains, each counter for itself.
pub open spec fn traffic_of(m: MetricsView, ids: Seq<u64>) -> ChainMetricsSnapshot
    decreases ids.len(),
{
    if ids.len() == 0 {
        crate::metrics::nothing_counted()
    } else {
        let a = traffic_of(m, ids.drop_last());
        let b = m.chain(ids.last());
        ChainMetricsSnapshot {
            ingress: crate::metrics::added(a.ingress, b.ingress),
            cache_lookups: crate::metrics::added(a.cache_lookups, b.cache_lookups),
            cache_hits: crate::metrics::added(a.cache_hits, b.cache_hits),
            cache_misses: crate::metrics::added(a.cache_misses, b.cache_misses),
            coalesced: crate::metrics::added(a.coalesced, b.coalesced),
            upstream: crate::metrics::added(a.upstream, b.upstream),
            user_visible_errors: crate::metrics::added(
                a.user_visible_errors,
                b.user_visible_errors,
            ),
            cold_start_failures: crate::metrics::added(
                a.cold_start_failures,
                b.cold_start_failures,
            ),
            hedges: crate::metrics::added(a.hedges, b.hedges),
        }
    }
}

/// What the chains in memory have in common: their traffic, and how many endpoints they have.
#[derive(Clone, Copy, Debug)]
pub struct Totals {
    pub traffic: ChainMetricsSnapshot,
    pub endpoints: u64,
    pub active: u64,
    pub cooling: u64,
    pub probation: u64,
}

pub open spec fn summary_ids(list: Seq<ChainSummary>) -> Seq<u64> {
    list.map_values(|s: ChainSummary| s.chain_id)
}

/// The sums over the endpoints of the chains: all, active, cooling, on probation.
pub open spec fn endpoint_sums(list: Seq<ChainSummary>) -> (u64, u64, u64, u64)
    decreases list.len(),
{
    if list.len() == 0 {
        (0, 0, 0, 0)
    } else {
        let (all, active, cooling, probation) = endpoint_sums(list.drop_last());
        let s = list.last();
        (
            crate::metrics::added(all, s.endpoints as u64),
            crate::metrics::added(active, s.active as u64),
            crate::metrics::added(cooling, s.cooling as u64),
            crate::metrics::added(probation, s.probation as u64),
        )
    }
}

/// Adds up what is known of the chains in memory.
pub fn totals(metrics: &Metrics, summaries: &Vec<ChainSummary>) -> (t: Totals)
    requires
        metrics.wf(),
    ensures
        t.traffic == traffic_of(metrics@, summary_ids(summaries@)),
        (t.endpoints, t.active, t.cooling, t.probation) == endpoint_sums(summaries@),
{
    let ghost all = summary_ids(summaries@);
    let mut a = ChainMetricsSnapshot::default();
    let mut endpoints: u64 = 0;
    let mut active: u64 = 0;
    let mut cooling: u64 = 0;
    let mut probation: u64 = 0;
    let mut i: usize = 0;
    proof {
        assert(all.take(0) =~= Seq::<u64>::empty());
        assert(summaries@.take(0) =~= Seq::<ChainSummary>::empty());
    }
    while i < summaries.len()
        invariant
            i <= summaries@.len(),
            metrics.wf(),
            all == summary_ids(summaries@),
            a == traffic_of(metrics@, all.take(i as int)),
            (endpoints, active, cooling, probation) == endpoint_sums(summaries@.take(i as int)),
        decreases summaries@.len() - i,
    {
        proof {
            assert(all.take(i + 1).drop_last() =~= all.take(i as int));
            assert(summaries@.take(i + 1).drop_last() =~= summaries@.take(i as int));
        }
        let s = &summaries[i];
        let b = metrics.chain_snapshot(s.chain_id);
        a = ChainMetricsSnapshot {
            ingress: a.ingress.wrapping_add(b.ingress),
            cache_lookups: a.cache_lookups.wrapping_add(b.cache_lookups),
            cache_hits: a.cache_hits.wrapping_add(b.cache_hits),
            cache_misses: a.cache_misses.wrapping_add(b.cache_misses),
            coalesced: a.coalesced.wrapping_add(b.coalesced),
            upstream: a.upstream.wrapping_add(b.upstream),
            user_visible_errors: a.user_visible_errors.wrapping_add(b.user_visible_errors),
            cold_start_failures: a.cold_start_failures.wrapping_add(b.cold_start_failures),
            hedges: a.hedges.wrapping_add(b.hedges),
        };
        endpoints = endpoints.wrapping_add(s.endpoints as u64);
        active = active.wrapping_add(s.active as u64);
        cooling = cooling.wrapping_add(s.cooling as u64);
        probation = probation.wrapping_add(s.probation as u64);
        i = i + 1;
    }
    proof {
        assert(all.take(all.len() as int) =~= all);
        assert(summaries@.take(summaries@.len() as int) =~= summaries@);
    }
    Totals { traffic: a, endpoints, active, cooling, probation }
}

} // verus!
