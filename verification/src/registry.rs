//! The registry: which chains are in memory, and which of their endpoints a request may go to.
use crate::chain::{ChainState, ChainStateLabel, ChainView, PlanItem};
use crate::chainlist::{Catalog, CatalogChain, ChainEndpoints, ChainlistSnapshot};
use crate::config;
use crate::config::Config;
use crate::endpoint::{Endpoint, EndpointStatsSnapshot, EndpointView};
use crate::health::{FailureSignal, FaultKind, MAX_INSTANT, SECOND};
use crate::keys;
use crate::loader;
use crate::order;
use crate::registry_model::{Demotion, Moment, RegistryView, RECENT_SECONDS};
use crate::selection;
use crate::selection::{CandidateSet, PoolKind};
use crate::state::{ChainOverrideState, EndpointOverrideState, HealthSnapshot, Overrides};
use crate::table::{IdTable, KeyTable};
use crate::text;
use std::collections::HashSet;
use std::sync::Arc;
use vstd::prelude::*;

verus! {

broadcast use {
    crate::table::IdTable::lemma_slots,
    crate::table::KeyTable::lemma_slots,
    vstd::std_specs::hash::group_hash_axioms,
};

spec fn chain_views(chains: Map<u64, ChainState>) -> Map<u64, ChainView> {
    chains.map_values(|c: ChainState| c@)
}

/// An endpoint added with a URL of its own keeps the pool well-formed.
proof fn lemma_append_keeps_wf(before: Seq<EndpointView>, e: EndpointView)
    requires
        crate::chain::distinct_urls(before),
        forall|i: int| 0 <= i < before.len() ==> (#[trigger] before[i]).wf(),
        e.wf(),
        !crate::chain::has_url(before, e.url),
    ensures
        crate::chain::distinct_urls(before.push(e)),
        forall|i: int| 0 <= i < before.len() + 1 ==> (#[trigger] before.push(e)[i]).wf(),
{
    let after = before.push(e);
    assert forall|i: int, j: int| 0 <= i < j < after.len() implies (#[trigger] after[i]).url != (
    #[trigger] after[j]).url by {
        assert(after[i] == before[i]);
        if j < before.len() {
            assert(after[j] == before[j]);
        }
    }
    assert forall|i: int| 0 <= i < after.len() implies (#[trigger] after[i]).wf() by {
        if i < before.len() {
            assert(after[i] == before[i]);
        }
    }
}

/// The wall clock in seconds, as `SystemTime::elapsed` of the Unix epoch reads it; nothing for a clock
/// that stands before the epoch. Nothing is claimed of the reading.
#[verifier::external_body]
fn wall_clock() -> (t: Option<u64>) {
    std::time::UNIX_EPOCH.elapsed().ok().map(|d| d.as_secs())
}

/// What a reading of the clock stands for: zero where the clock stands before the epoch.
pub fn seconds_read(reading: Option<u64>) -> (t: u64)
    ensures
        t == (match reading {
            Some(s) => s,
            None => 0,
        }),
{
    match reading {
        Some(s) => s,
        None => 0,
    }
}

/// Seconds since the Unix epoch, or zero for a clock that stands before it.
pub fn unix_seconds() -> (t: u64) {
    seconds_read(wall_clock())
}

fn within(value: Option<u64>, low: u64, high: u64) -> (r: bool)
    ensures
        r == crate::registry_model::in_range(value, low as int, high as int),
{
    match value {
        Some(v) => low <= v && v <= high,
        None => true,
    }
}

/// Whether runtime settings of a chain are within their bounds.
pub fn is_valid_chain_override(value: &ChainOverrideState) -> (r: bool)
    ensures
        r == crate::registry_model::valid_chain_override(*value),
{
    within(value.block_time_ms, 100, 600_000) && within(value.confirmation_depth, 1, 100_000)
        && within(value.tip_ttl_ms, 100, 60_000) && within(value.max_block_lag, 0, 10_000)
}

/// Whether runtime settings of an endpoint are within their bounds.
pub fn is_valid_endpoint_override(value: &EndpointOverrideState) -> (r: bool)
    ensures
        r == crate::registry_model::valid_endpoint_override(*value),
{
    let rps_fits: bool = match value.rps {
        Some(n) => 1 <= n && n <= 100,
        None => true,
    };
    let concurrency_fits: bool = match value.concurrency {
        Some(n) => 1 <= n && n <= 64,
        None => true,
    };
    rps_fits && concurrency_fits
}

/// Walking the ranking from the least recently asked for up to place `j`, and dropping all but the
/// recent ones, drops the right chains.
proof fn lemma_evicted(
    v: RegistryView,
    now: u64,
    evicted: Seq<u64>,
    ids: Seq<u64>,
    lasts: Seq<u64>,
    ranking: Seq<usize>,
    j: int,
)
    requires
        ids == v.busy_ids(now),
        ids.len() <= usize::MAX,
        lasts == ids.map_values(|k: u64| v.chains[k].last_ingress),
        order::is_stable_order(lasts, ranking),
        0 <= j <= ranking.len(),
        evicted.no_duplicates(),
        evicted.len() == 0 || ids.len() - evicted.len() >= v.config.discovery.max_hot_chains,
        forall|k: u64| #[trigger]
            evicted.contains(k) <==> exists|a: int|
                0 <= a < j && ids[#[trigger] ranking[a] as int] == k && !v.is_recent(k, now),
        j == ranking.len() || ids.len() - evicted.len() <= v.config.discovery.max_hot_chains,
    ensures
        v.are_evicted(now, evicted),
{
    assert forall|k: u64| #[trigger] evicted.contains(k) implies ids.contains(k) && !v.is_recent(
        k,
        now,
    ) by {
        let a = choose|a: int|
            0 <= a < j && ids[#[trigger] ranking[a] as int] == k && !v.is_recent(k, now);
    }
    order::lemma_reaches_all(ranking);
    assert forall|e: u64, k: u64|
        #![trigger evicted.contains(e), ids.contains(k)]
        evicted.contains(e) && ids.contains(k) && !evicted.contains(k) implies v.chains[e].last_ingress
        <= v.chains[k].last_ingress by {
        let a = choose|a: int|
            0 <= a < j && ids[#[trigger] ranking[a] as int] == e && !v.is_recent(e, now);
        let x = choose|x: int| 0 <= x < ids.len() && ids[x] == k;
        assert(ranking.contains(x as usize));
        let b = choose|b: int| 0 <= b < ranking.len() && ranking[b] == x as usize;
        assert(ids[ranking[b] as int] == k);
        assert(lasts[ranking[a] as int] == v.chains[e].last_ingress);
        assert(lasts[ranking[b] as int] == v.chains[k].last_ingress);
        if a < b {
            assert(order::in_order(lasts, ranking[a], ranking[b]));
        } else {
            assert(b < j && v.is_recent(k, now));
            if b < a {
                assert(order::in_order(lasts, ranking[b], ranking[a]));
            }
        }
    }
    if ids.len() - evicted.len() > v.config.discovery.max_hot_chains {
        assert forall|k: u64| ids.contains(k) && !(#[trigger] evicted.contains(k)) implies
            v.is_recent(k, now) by {
            let x = choose|x: int| 0 <= x < ids.len() && ids[x] == k;
            assert(ranking.contains(x as usize));
            let b = choose|b: int| 0 <= b < ranking.len() && ranking[b] == x as usize;
            assert(ids[ranking[b] as int] == k);
        }
    }
}

/// An endpoint changed in place under the same URL keeps the pool well-formed.
proof fn lemma_update_keeps_wf(before: Seq<EndpointView>, i: int)
    requires
        crate::chain::distinct_urls(before),
        forall|k: int| 0 <= k < before.len() ==> (#[trigger] before[k]).wf(),
        0 <= i < before.len(),
    ensures
        forall|e: EndpointView|
            e.wf() && e.url == before[i].url ==> crate::chain::distinct_urls(
                #[trigger] before.update(i, e),
            ) && forall|k: int| 0 <= k < before.len() ==> (#[trigger] before.update(i, e)[k]).wf(),
{
    assert forall|e: EndpointView| e.wf() && e.url == before[i].url implies
        crate::chain::distinct_urls(#[trigger] before.update(i, e)) && forall|k: int|
            0 <= k < before.len() ==> (#[trigger] before.update(i, e)[k]).wf() by {
        let after = before.update(i, e);
        assert forall|a: int, b: int| 0 <= a < b < after.len() implies (#[trigger] after[a]).url
            != (#[trigger] after[b]).url by {
            assert(before[a].url != before[b].url);
        }
        assert forall|k: int| 0 <= k < before.len() implies (#[trigger] after[k]).wf() by {
            assert(before[k].wf());
        }
    }
}

/// Where an endpoint stands, or that there is none with the URL.
pub open spec fn is_place(endpoints: Seq<EndpointView>, url: Seq<char>, i: Option<int>) -> bool {
    match i {
        Some(p) => crate::chain::is_first_with(endpoints, url, p),
        None => !crate::chain::has_url(endpoints, url),
    }
}

/// Sorting keeps the number of ids.
proof fn all_sorted(s: Seq<u64>)
    ensures
        crate::order::ascending(s).len() == s.len(),
{
    let leq = |a: u64, b: u64| a <= b;
    s.lemma_sort_by_ensures(leq);
    s.to_multiset_ensures();
    crate::order::ascending(s).to_multiset_ensures();
}

/// Taking out a URL keeps the pool well-formed.
proof fn lemma_drop_keeps_wf(before: Seq<EndpointView>, url: Seq<char>)
    requires
        crate::chain::distinct_urls(before),
        forall|i: int| 0 <= i < before.len() ==> (#[trigger] before[i]).wf(),
    ensures
        crate::chain::distinct_urls(crate::chain::without_url(before, url)),
        forall|i: int|
            0 <= i < crate::chain::without_url(before, url).len() ==> (
            #[trigger] crate::chain::without_url(before, url)[i]).wf(),
{
    crate::chain::lemma_without_url(before, url);
    let after = crate::chain::without_url(before, url);
    assert forall|i: int| 0 <= i < after.len() implies (#[trigger] after[i]).wf() by {
        let j = choose|j: int| i <= j < before.len() && #[trigger] before[j] == after[i];
    }
}

spec fn place_views(list: Seq<(u64, usize)>) -> Seq<(u64, int)> {
    list.map_values(|p: (u64, usize)| (p.0, p.1 as int))
}

/// The places found so far lead the list of all places.
proof fn lemma_dirty_prefix(chains: Map<u64, ChainView>, order: Seq<u64>, i: int, j: int)
    requires
        0 <= i < order.len(),
        chains[order[i]].is_live(),
        0 <= j <= chains[order[i]].endpoints.len(),
    ensures
        ({
            let found = crate::registry_model::dirty_places_in(chains, order.take(i))
                + crate::registry_model::dirty_in(
                order[i],
                chains[order[i]].endpoints.take(j),
            );
            let all = crate::registry_model::dirty_places_in(chains, order);
            found.len() <= all.len() && found == all.take(found.len() as int)
        }),
{
    lemma_dirty_in_prefix(order[i], chains[order[i]].endpoints, j);
    lemma_dirty_places_prefix(chains, order, i + 1);
    assert(order.take(i + 1).drop_last() =~= order.take(i));
    let before = crate::registry_model::dirty_places_in(chains, order.take(i));
    let own = crate::registry_model::dirty_in(order[i], chains[order[i]].endpoints);
    let part = crate::registry_model::dirty_in(
        order[i],
        chains[order[i]].endpoints.take(j),
    );
    let all = crate::registry_model::dirty_places_in(chains, order);
    let upto = crate::registry_model::dirty_places_in(chains, order.take(i + 1));
    assert(upto == before + own);
    assert((before + part) =~= all.take((before + part).len() as int)) by {
        assert forall|x: int| 0 <= x < (before + part).len() implies (before + part)[x]
            == all[x] by {
            assert(upto[x] == all.take(upto.len() as int)[x]);
            if x >= before.len() {
                assert(part[x - before.len()] == own.take(part.len() as int)[x - before.len()]);
            }
        }
    }
}

proof fn lemma_dirty_in_prefix(chain_id: u64, endpoints: Seq<EndpointView>, j: int)
    requires
        0 <= j <= endpoints.len(),
    ensures
        crate::registry_model::dirty_in(chain_id, endpoints.take(j)).len()
            <= crate::registry_model::dirty_in(chain_id, endpoints).len(),
        crate::registry_model::dirty_in(chain_id, endpoints.take(j))
            == crate::registry_model::dirty_in(chain_id, endpoints).take(
            crate::registry_model::dirty_in(chain_id, endpoints.take(j)).len() as int,
        ),
    decreases endpoints.len(),
{
    if j == endpoints.len() {
        assert(endpoints.take(j) =~= endpoints);
        let all = crate::registry_model::dirty_in(chain_id, endpoints);
        assert(all.take(all.len() as int) =~= all);
    } else {
        let short = endpoints.drop_last();
        lemma_dirty_in_prefix(chain_id, short, j);
        assert(short.take(j) =~= endpoints.take(j));
        let part = crate::registry_model::dirty_in(chain_id, endpoints.take(j));
        let all = crate::registry_model::dirty_in(chain_id, endpoints);
        assert(all.take(part.len() as int) =~= crate::registry_model::dirty_in(
            chain_id,
            short,
        ).take(part.len() as int));
    }
}

proof fn lemma_dirty_places_prefix(chains: Map<u64, ChainView>, order: Seq<u64>, i: int)
    requires
        0 <= i <= order.len(),
    ensures
        crate::registry_model::dirty_places_in(chains, order.take(i)).len()
            <= crate::registry_model::dirty_places_in(chains, order).len(),
        crate::registry_model::dirty_places_in(chains, order.take(i))
            == crate::registry_model::dirty_places_in(chains, order).take(
            crate::registry_model::dirty_places_in(chains, order.take(i)).len() as int,
        ),
    decreases order.len(),
{
    let all = crate::registry_model::dirty_places_in(chains, order);
    if i == order.len() {
        assert(order.take(i) =~= order);
        assert(all.take(all.len() as int) =~= all);
    } else {
        let short = order.drop_last();
        lemma_dirty_places_prefix(chains, short, i);
        assert(short.take(i) =~= order.take(i));
        let part = crate::registry_model::dirty_places_in(chains, order.take(i));
        assert(all.take(part.len() as int) =~= crate::registry_model::dirty_places_in(
            chains,
            short,
        ).take(part.len() as int));
    }
}

/// A batch of places: each that of a changed endpoint in memory, each once.
proof fn lemma_batch(v: RegistryView, limit: usize)
    requires
        v.wf(),
    ensures
        v.dirty_batch(limit).no_duplicates(),
        forall|p: (u64, int)| #[trigger]
            v.dirty_batch(limit).contains(p) ==> v.chains.contains_key(p.0) && 0 <= p.1
                < v.chains[p.0].endpoints.len() && v.chains[p.0].endpoints[p.1].dirty,
{
    crate::registry_model::lemma_dirty_places(v.chains, v.order);
    let all = v.dirty_places();
    let batch = v.dirty_batch(limit);
    assert forall|p: (u64, int)| #[trigger] batch.contains(p) implies v.chains.contains_key(p.0)
        && 0 <= p.1 < v.chains[p.0].endpoints.len() && v.chains[p.0].endpoints[p.1].dirty by {
        let i = choose|i: int| 0 <= i < batch.len() && batch[i] == p;
        assert(all[i] == p);
        assert(all.contains(p));
        assert(v.order.contains(p.0));
    }
}

pub struct Registry {
    chains: IdTable<ChainState>,
    runtime_pinned: IdTable<bool>,
    auto_pinned: IdTable<bool>,
    runtime_chain_overrides: IdTable<ChainOverrideState>,
    runtime_endpoint_overrides: KeyTable<EndpointOverrideState>,
    restored_health: KeyTable<HealthSnapshot>,
    catalog: Option<Arc<Catalog>>,
    config: Config,
    user_visible_errors: u64,
    chain_activations: u64,
    chain_demotions_idle: u64,
    chain_demotions_lru: u64,
    chain_demotions_admin: u64,
    catalog_chains_count: u64,
    catalog_endpoints_count: u64,
    chainlist_last_refresh_unix: u64,
    chainlist_refresh_source: String,
    kicks: Vec<u64>,
}

impl Registry {
    pub closed spec fn view(&self) -> RegistryView {
        RegistryView {
            chains: chain_views(self.chains@),
            order: self.chains.order(),
            pinned: self.runtime_pinned@,
            auto_pinned: self.auto_pinned@,
            chain_overrides: self.runtime_chain_overrides@,
            endpoint_overrides: self.runtime_endpoint_overrides@,
            endpoint_order: self.runtime_endpoint_overrides.order(),
            health: self.restored_health@,
            catalog: match self.catalog {
                Some(c) => Some(*c),
                None => None,
            },
            config: self.config,
            errors: self.user_visible_errors,
            activations: self.chain_activations,
            idle_demotions: self.chain_demotions_idle,
            lru_demotions: self.chain_demotions_lru,
            admin_demotions: self.chain_demotions_admin,
            catalog_chains: self.catalog_chains_count,
            catalog_endpoints: self.catalog_endpoints_count,
            last_refresh: self.chainlist_last_refresh_unix,
            refresh_source: self.chainlist_refresh_source@,
            kicks: self.kicks@,
        }
    }

    /// The tables are consistent, and so are the chains in them.
    pub closed spec fn wf(&self) -> bool {
        &&& self.chains.wf()
        &&& self.runtime_pinned.wf()
        &&& self.auto_pinned.wf()
        &&& self.runtime_chain_overrides.wf()
        &&& self.runtime_endpoint_overrides.wf()
        &&& self.restored_health.wf()
        &&& forall|k: u64| #[trigger]
            self.chains@.contains_key(k) ==> self.chains@[k]@.wf() && self.chains@[k]@.chain_id == k && (
            self.config.discovery.deny@.contains(k) ==> self.chains@[k]@.disabled)
    }

    /// What the registry holds is well-formed.
    pub proof fn lemma_view_is_wf(&self)
        requires
            self.wf(),
        ensures
            self@.wf(),
    {
        assert forall|k: u64| #[trigger] self@.chains.contains_key(k) implies self@.chains[k].wf()
            && self@.chains[k].chain_id == k && (self@.is_denied(k) ==> self@.chains[k].disabled) by {
            assert(self.chains@.contains_key(k));
        }
        assert forall|k: u64| self@.order.contains(k) implies #[trigger] self@.chains.contains_key(
            k,
        ) by {
            let i = choose|i: int| 0 <= i < self@.order.len() && self@.order[i] == k;
            assert(self.chains@.contains_key(self.chains.order()[i]));
        }
        assert forall|k: u64| #[trigger] self@.chains.contains_key(k) implies self@.order.contains(
            k,
        ) by {
            assert(self.chains@.contains_key(k));
        }
        assert forall|k: Seq<char>| self@.endpoint_order.contains(k) implies #[trigger]
        self@.endpoint_overrides.contains_key(k) by {
            let i = choose|i: int|
                0 <= i < self@.endpoint_order.len() && self@.endpoint_order[i] == k;
            assert(self.runtime_endpoint_overrides@.contains_key(
                self.runtime_endpoint_overrides.order()[i],
            ));
        }
    }

    pub fn new(config: Config) -> (r: Self)
        ensures
            r.wf(),
            r@ == (RegistryView {
                chains: Map::empty(),
                order: Seq::empty(),
                pinned: Map::empty(),
                auto_pinned: Map::empty(),
                chain_overrides: Map::empty(),
                endpoint_overrides: Map::empty(),
                endpoint_order: Seq::empty(),
                health: Map::empty(),
                catalog: None,
                config,
                errors: 0,
                activations: 0,
                idle_demotions: 0,
                lru_demotions: 0,
                admin_demotions: 0,
                catalog_chains: 0,
                catalog_endpoints: 0,
                last_refresh: 0,
                refresh_source: Seq::empty(),
                kicks: Seq::empty(),
            }),
    {
        let r = Registry {
            chains: IdTable::new(),
            runtime_pinned: IdTable::new(),
            auto_pinned: IdTable::new(),
            runtime_chain_overrides: IdTable::new(),
            runtime_endpoint_overrides: KeyTable::new(),
            restored_health: KeyTable::new(),
            catalog: None,
            config,
            user_visible_errors: 0,
            chain_activations: 0,
            chain_demotions_idle: 0,
            chain_demotions_lru: 0,
            chain_demotions_admin: 0,
            catalog_chains_count: 0,
            catalog_endpoints_count: 0,
            chainlist_last_refresh_unix: 0,
            chainlist_refresh_source: String::new(),
            kicks: Vec::new(),
        };
        assert(r@.chains =~= Map::<u64, ChainView>::empty());
        r
    }

    /// The chain with the given id, if it is in memory.
    pub fn chain(&self, chain_id: u64) -> (c: Option<&ChainState>)
        requires
            self.wf(),
        ensures
            match c {
                Some(state) => self@.chains.contains_key(chain_id) && state@
                    == self@.chains[chain_id] && state@.wf(),
                None => !self@.chains.contains_key(chain_id),
            },
    {
        let c = self.chains.get(chain_id);
        c
    }

    /// Hands out a chain for change in place.
    fn chain_mut(&mut self, chain_id: u64) -> (c: &mut ChainState)
        requires
            old(self).wf(),
            old(self)@.chains.contains_key(chain_id),
        ensures
            c@ == old(self)@.chains[chain_id],
            c@.wf(),
            c@.chain_id == chain_id,
            old(self)@.is_denied(chain_id) ==> c@.disabled,
            final(self)@ == (RegistryView {
                chains: old(self)@.chains.insert(chain_id, final(c)@),
                ..old(self)@
            }),
            final(c)@.wf() && final(c)@.chain_id == chain_id && (old(self)@.is_denied(chain_id)
                ==> final(c)@.disabled) ==> final(self).wf(),
    {
        let ghost before = self.chains@;
        assert(before.contains_key(chain_id));
        let c = self.chains.get_mut(chain_id);
        assert(chain_views(before.insert(chain_id, *final(c))) =~= chain_views(before).insert(
            chain_id,
            final(c)@,
        ));
        c
    }

    /// Puts a chain into memory, in place of an earlier state of it.
    fn put_chain(&mut self, chain_id: u64, c: ChainState)
        requires
            old(self).wf(),
            c@.wf(),
            c@.chain_id == chain_id,
            old(self)@.is_denied(chain_id) ==> c@.disabled,
        ensures
            final(self).wf(),
            final(self)@ == old(self)@.with_chain(chain_id, c@),
    {
        let ghost before = self.chains@;
        self.chains.insert(chain_id, c);
        assert(chain_views(self.chains@) =~= chain_views(before).insert(chain_id, c@));
    }

    pub fn config(&self) -> (c: &Config)
        ensures
            *c == self@.config,
    {
        &self.config
    }

    fn is_pinned_chain(&self, chain_id: u64) -> (r: bool)
        requires
            self.wf(),
        ensures
            r == self@.is_pinned(chain_id),
    {
        if config::contains_id(&self.config.chains, chain_id) {
            return true;
        }
        if let Some(v) = self.runtime_pinned.get(chain_id) {
            return *v;
        }
        match self.auto_pinned.get(chain_id) {
            Some(v) => *v,
            None => false,
        }
    }

    /// Whether the configuration denies the chain.
    pub fn is_denied(&self, chain_id: u64) -> (r: bool)
        ensures
            r == self@.is_denied(chain_id),
    {
        config::contains_id(&self.config.discovery.deny, chain_id)
    }

    /// Whether a chain is disabled before it is ever asked for.
    pub fn is_shut(&self, chain_id: u64) -> (r: bool)
        requires
            self.wf(),
        ensures
            r == self@.is_shut(chain_id),
    {
        self.is_denied(chain_id) || self.runtime_chain_override(chain_id).disabled == Some(true)
    }

    fn catalog_entry(&self, chain_id: u64) -> (e: Option<&CatalogChain>)
        ensures
            match e {
                Some(chain) => self@.in_catalog(chain_id) && self@.catalog_urls(chain_id)
                    == crate::registry_model::endpoint_urls(chain.endpoints@)
                    && self@.catalog_name(chain_id) == chain.name@,
                None => !self@.in_catalog(chain_id) && self@.catalog_urls(chain_id) == Seq::<
                    Seq<char>,
                >::empty() && self@.catalog_name(chain_id) == crate::registry_model::default_name(
                    chain_id,
                ),
            },
    {
        match &self.catalog {
            Some(c) => c.lookup(chain_id),
            None => None,
        }
    }

    fn default_name(chain_id: u64) -> (s: String)
        ensures
            s@ == crate::registry_model::default_name(chain_id),
    {
        let id = text::decimal(chain_id);
        text::join("Chain ", id.as_str())
    }

    fn entry_name(&self, chain_id: u64) -> (s: String)
        ensures
            s@ == self@.catalog_name(chain_id),
    {
        match self.catalog_entry(chain_id) {
            Some(chain) => chain.name.clone(),
            None => Registry::default_name(chain_id),
        }
    }

    fn plan_item(&self, chain_id: u64, url: String) -> (p: PlanItem)
        requires
            self.wf(),
        ensures
            p@ == self@.plan_item(chain_id, url@),
    {
        let (mut rps, mut concurrency): (u32, usize) = self.config.endpoint_limits(
            chain_id,
            url.as_str(),
        );
        let mut off: bool = false;
        let key = keys::endpoint_key(chain_id, url.as_str());
        if let Some(o) = self.runtime_endpoint_overrides.get(key.as_str()) {
            if let Some(n) = o.rps {
                rps = n;
            }
            if let Some(n) = o.concurrency {
                concurrency = n;
            }
            off = o.disabled == Some(true);
        }
        PlanItem { url, rps, concurrency, off }
    }

    /// Adds the configured endpoints and those of runtime settings to a plan.
    fn complete_plan(&self, chain_id: u64, plan: Vec<PlanItem>, source: Ghost<Seq<Seq<char>>>) -> (r:
        Vec<PlanItem>)
        requires
            self.wf(),
            crate::chain::plan_views(plan@) == source@.map_values(
                |u: Seq<char>| self@.plan_item(chain_id, u),
            ),
        ensures
            crate::chain::plan_views(r@) == self@.plan(chain_id, source@),
    {
        let mut plan = plan;
        let ghost item = |u: Seq<char>| self@.plan_item(chain_id, u);
        let ghost extra = self@.extra_urls(chain_id);
        let ghost order = self@.endpoint_order;
        if let Some(o) = self.config.chain_override(chain_id) {
            let mut i: usize = 0;
            assert(crate::chain::plan_views(plan@) =~= (source@ + extra.take(0)).map_values(item));
            while i < o.extra_endpoints.len()
                invariant
                    i <= o.extra_endpoints@.len(),
                    self.wf(),
                    item == (|u: Seq<char>| self@.plan_item(chain_id, u)),
                    extra == crate::registry_model::texts(o.extra_endpoints@),
                    crate::chain::plan_views(plan@) == (source@ + extra.take(i as int)).map_values(
                        item,
                    ),
                decreases o.extra_endpoints@.len() - i,
            {
                let ghost had = crate::chain::plan_views(plan@);
                let p = self.plan_item(chain_id, o.extra_endpoints[i].clone());
                plan.push(p);
                proof {
                    assert(crate::chain::plan_views(plan@) =~= had.push(p@));
                    assert((source@ + extra.take(i + 1)).map_values(item) =~= (source@
                        + extra.take(i as int)).map_values(item).push(item(extra[i as int])));
                }
                i = i + 1;
            }
            assert(extra.take(extra.len() as int) =~= extra);
        } else {
            assert(source@ + extra =~= source@);
        }
        let prefix = keys::key_prefix(chain_id);
        let table = &self.runtime_endpoint_overrides;
        let ghost runtime = |n: int|
            crate::registry_model::runtime_urls(order.take(n), table@, chain_id);
        let mut i: usize = 0;
        proof {
            assert(order.take(0) =~= Seq::<Seq<char>>::empty());
            assert(source@ + extra + runtime(0) =~= source@ + extra);
        }
        while i < table.len()
            invariant
                i <= table.order().len(),
                self.wf(),
                table == self.runtime_endpoint_overrides,
                prefix@ == keys::chain_prefix(chain_id),
                order == table.order(),
                item == (|u: Seq<char>| self@.plan_item(chain_id, u)),
                runtime == (|n: int|
                    crate::registry_model::runtime_urls(order.take(n), table@, chain_id)),
                crate::chain::plan_views(plan@) == (source@ + extra + runtime(i as int)).map_values(
                    item,
                ),
            decreases table.order().len() - i,
        {
            let ghost had = crate::chain::plan_views(plan@);
            proof {
                assert(order.take(i + 1).drop_last() =~= order.take(i as int));
                assert(table@.contains_key(table.order()[i as int]));
            }
            let value = table.value_at(i);
            if text::starts_with(table.key_at(i).as_str(), prefix.as_str()) && value.disabled
                != Some(true) {
                let p = self.plan_item(chain_id, value.url.clone());
                plan.push(p);
                proof {
                    assert(crate::chain::plan_views(plan@) =~= had.push(p@));
                    assert((source@ + extra + runtime(i + 1)).map_values(item) =~= (source@ + extra
                        + runtime(i as int)).map_values(item).push(item(value.url@)));
                }
            }
            i = i + 1;
        }
        assert(order.take(order.len() as int) =~= order);
        plan
    }

    fn catalog_plan(&self, chain_id: u64) -> (r: Vec<PlanItem>)
        requires
            self.wf(),
        ensures
            crate::chain::plan_views(r@) == self@.plan(chain_id, self@.catalog_urls(chain_id)),
    {
        let ghost urls = self@.catalog_urls(chain_id);
        let ghost item = |u: Seq<char>| self@.plan_item(chain_id, u);
        let mut plan: Vec<PlanItem> = Vec::new();
        assert(crate::chain::plan_views(plan@) =~= urls.take(0).map_values(item));
        if let Some(chain) = self.catalog_entry(chain_id) {
            let mut i: usize = 0;
            while i < chain.endpoints.len()
                invariant
                    i <= chain.endpoints@.len(),
                    self.wf(),
                    urls == crate::registry_model::endpoint_urls(chain.endpoints@),
                    item == (|u: Seq<char>| self@.plan_item(chain_id, u)),
                    crate::chain::plan_views(plan@) == urls.take(i as int).map_values(item),
                decreases chain.endpoints@.len() - i,
            {
                let ghost had = crate::chain::plan_views(plan@);
                let p = self.plan_item(chain_id, chain.endpoints[i].url.clone());
                plan.push(p);
                proof {
                    assert(crate::chain::plan_views(plan@) =~= had.push(p@));
                    assert(urls.take(i + 1).map_values(item) =~= urls.take(i as int).map_values(
                        item,
                    ).push(item(urls[i as int])));
                }
                i = i + 1;
            }
        }
        assert(urls.take(urls.len() as int) =~= urls);
        self.complete_plan(chain_id, plan, Ghost(urls))
    }

    fn source_plan(&self, chain_id: u64, endpoints: &Vec<String>) -> (r: Vec<PlanItem>)
        requires
            self.wf(),
        ensures
            crate::chain::plan_views(r@) == self@.plan(
                chain_id,
                crate::registry_model::texts(endpoints@),
            ),
    {
        let ghost urls = crate::registry_model::texts(endpoints@);
        let ghost item = |u: Seq<char>| self@.plan_item(chain_id, u);
        let mut plan: Vec<PlanItem> = Vec::new();
        assert(crate::chain::plan_views(plan@) =~= urls.take(0).map_values(item));
        let mut i: usize = 0;
        while i < endpoints.len()
            invariant
                i <= endpoints@.len(),
                self.wf(),
                urls == crate::registry_model::texts(endpoints@),
                item == (|u: Seq<char>| self@.plan_item(chain_id, u)),
                crate::chain::plan_views(plan@) == urls.take(i as int).map_values(item),
            decreases endpoints@.len() - i,
        {
            let ghost had = crate::chain::plan_views(plan@);
            let p = self.plan_item(chain_id, endpoints[i].clone());
            plan.push(p);
            proof {
                assert(crate::chain::plan_views(plan@) =~= had.push(p@));
                assert(urls.take(i + 1).map_values(item) =~= urls.take(i as int).map_values(
                    item,
                ).push(item(urls[i as int])));
            }
            i = i + 1;
        }
        assert(urls.take(urls.len() as int) =~= urls);
        self.complete_plan(chain_id, plan, Ghost(urls))
    }

    fn follow_plan(&self, c: &mut ChainState, plan: &Vec<PlanItem>, grace: u64, at: Moment)
        requires
            self.wf(),
            at.wf(),
            old(c)@.wf(),
        ensures
            final(c)@.wf(),
            final(c)@ == (ChainView {
                endpoints: crate::chain::healed(
                    old(c)@.chain_id,
                    crate::chain::limits_in(old(c)@.endpoints),
                    crate::chain::merged(
                        crate::chain::plan_views(plan@),
                        self@.barred(old(c)@.chain_id),
                        old(c)@.rejected,
                        old(c)@.endpoints,
                        at.unix,
                        grace,
                    ),
                    self@.health,
                    at.instant,
                    at.unix,
                ),
                ..old(c)@
            }),
    {
        let none: Vec<String> = Vec::new();
        let chain_id: u64 = c.chain_id();
        let known = c.known();
        assert(crate::chain::text_set(none@) =~= Set::<Seq<char>>::empty());
        match self.config.chain_override(chain_id) {
            Some(o) => {
                c.follow(plan, &o.disabled_endpoints, at.unix, grace);
            },
            None => {
                c.follow(plan, &none, at.unix, grace);
            },
        }
        let ghost pool = c@.endpoints;
        c.heal(&known, &self.restored_health, at.instant, at.unix);
        proof {
            assert forall|i: int| 0 <= i < c@.endpoints.len() implies (#[trigger] c@.endpoints[i]).wf()
                && c@.endpoints[i].url == pool[i].url by {
                assert(pool[i].wf());
            }
            assert(crate::chain::distinct_urls(c@.endpoints)) by {
                assert forall|i: int, j: int| 0 <= i < j < c@.endpoints.len() implies (
                #[trigger] c@.endpoints[i]).url != (#[trigger] c@.endpoints[j]).url by {
                    assert(pool[i].url != pool[j].url);
                }
            }
        }
    }

    fn count_hot(&self) -> (n: usize)
        requires
            self.wf(),
        ensures
            n == self@.hot_count(),
    {
        let ghost hot = |k: u64| self@.chains[k].label() is Hot;
        let ghost order = self@.order;
        let mut n: usize = 0;
        let mut i: usize = 0;
        proof {
            reveal(Seq::filter);
            assert(order.take(0) =~= Seq::<u64>::empty());
        }
        while i < self.chains.len()
            invariant
                i <= self.chains.order().len(),
                n <= i,
                self.wf(),
                order == self.chains.order(),
                hot == (|k: u64| self@.chains[k].label() is Hot),
                n == order.take(i as int).filter(hot).len(),
            decreases self.chains.order().len() - i,
        {
            proof {
                reveal(Seq::filter);
                assert(order.take(i + 1).drop_last() =~= order.take(i as int));
                assert(self.chains@.contains_key(self.chains.order()[i as int]));
            }
            if matches!(self.chains.value_at(i).state_label(), ChainStateLabel::Hot) {
                n = n + 1;
            }
            i = i + 1;
        }
        assert(order.take(order.len() as int) =~= order);
        n
    }

    fn find_victim(&self, newcomer: u64, now: u64) -> (v: Option<u64>)
        requires
            self.wf(),
        ensures
            v == self@.victim(newcomer, now),
            v matches Some(k) ==> self@.chains.contains_key(k)
                && crate::registry_model::evictable(self@.chains[k], k, newcomer, now),
    {
        let ghost order = self@.order;
        let mut best: Option<(u64, u64)> = None;
        let mut i: usize = 0;
        assert(order.take(0) =~= Seq::<u64>::empty());
        while i < self.chains.len()
            invariant
                i <= self.chains.order().len(),
                self.wf(),
                order == self.chains.order(),
                crate::registry_model::victim_in(
                    self@.chains,
                    order.take(i as int),
                    newcomer,
                    now,
                ) == (match best {
                    Some((k, _)) => Some(k),
                    None => None,
                }),
                best matches Some((k, last)) ==> self@.chains.contains_key(k)
                    && self@.chains[k].last_ingress == last && crate::registry_model::evictable(
                    self@.chains[k],
                    k,
                    newcomer,
                    now,
                ),
            decreases self.chains.order().len() - i,
        {
            proof {
                assert(order.take(i + 1).drop_last() =~= order.take(i as int));
                assert(self.chains@.contains_key(self.chains.order()[i as int]));
            }
            let k: u64 = self.chains.key_at(i);
            let c = self.chains.value_at(i);
            let last: u64 = c.last_ingress();
            let age: u64 = if now > last {
                now - last
            } else {
                0
            };
            if k != newcomer && matches!(c.state_label(), ChainStateLabel::Hot) && age
                >= RECENT_SECONDS {
                let better: bool = match best {
                    Some((_, least)) => last < least,
                    None => true,
                };
                if better {
                    best = Some((k, last));
                }
            }
            i = i + 1;
        }
        assert(order.take(order.len() as int) =~= order);
        match best {
            Some((k, _)) => Some(k),
            None => None,
        }
    }

    fn count_demotion(&mut self, kind: Demotion)
        ensures
            final(self)@ == old(self)@.with_demotion(kind),
            final(self).wf() == old(self).wf(),
    {
        match kind {
            Demotion::Idle => {
                self.chain_demotions_idle = self.chain_demotions_idle.wrapping_add(1);
            },
            Demotion::Lru => {
                self.chain_demotions_lru = self.chain_demotions_lru.wrapping_add(1);
            },
            Demotion::Admin => {
                self.chain_demotions_admin = self.chain_demotions_admin.wrapping_add(1);
            },
        }
    }

    fn demote_as(&mut self, chain_id: u64, kind: Demotion) -> (r: bool)
        requires
            old(self).wf(),
        ensures
            final(self).wf(),
            r == old(self)@.may_demote(chain_id),
            final(self)@ == old(self)@.demoted(chain_id, kind),
    {
        match self.chain(chain_id) {
            Some(c) => if c.is_pinned() {
                return false;
            },
            None => {
                return false;
            },
        }
        let c = self.chain_mut(chain_id);
        c.demote();
        self.count_demotion(kind);
        true
    }

    /// As `demote`, unless the chain was asked for since its last request was looked at.
    pub fn demote_if_unchanged(&mut self, chain_id: u64, reason: &str, expected_last: u64) -> (r: bool)
        requires
            old(self).wf(),
        ensures
            final(self).wf(),
            r == (old(self)@.may_demote(chain_id) && old(self)@.chains[chain_id].last_ingress
                == expected_last),
            final(self)@ == (if r {
                old(self)@.demoted(chain_id, crate::registry_model::demotion_for(reason@))
            } else {
                old(self)@
            }),
    {
        match self.chain(chain_id) {
            Some(c) => if c.last_ingress() != expected_last {
                return false;
            },
            None => {
                return false;
            },
        }
        self.demote(chain_id, reason)
    }

    /// Drops a hot chain from memory; what is known of its endpoints is lost. Pinned chains stay.
    pub fn demote(&mut self, chain_id: u64, reason: &str) -> (r: bool)
        requires
            old(self).wf(),
        ensures
            final(self).wf(),
            r == old(self)@.may_demote(chain_id),
            final(self)@ == old(self)@.demoted(
                chain_id,
                crate::registry_model::demotion_for(reason@),
            ),
    {
        let kind = if text::same(reason, "idle") {
            Demotion::Idle
        } else if text::same(reason, "lru") {
            Demotion::Lru
        } else {
            Demotion::Admin
        };
        self.demote_as(chain_id, kind)
    }

    fn fresh_chain(&self, chain_id: u64, pinned: bool, at: Moment) -> (c: ChainState)
        requires
            self.wf(),
            at.wf(),
        ensures
            c@.wf(),
            c@ == self@.fresh_chain(chain_id, pinned, at),
    {
        let mut c = ChainState::new(chain_id, self.entry_name(chain_id), pinned);
        let plan = self.catalog_plan(chain_id);
        assert(crate::chain::limits_in(c@.endpoints) =~= Seq::empty());
        self.follow_plan(&mut c, &plan, 0, at);
        if let Some(o) = self.runtime_chain_overrides.get(chain_id) {
            if let Some(disabled) = o.disabled {
                c.set_disabled(disabled);
            }
        }
        c.set_last_ingress(at.unix);
        c
    }

    /// Takes a chain into memory.
    fn materialize(&mut self, chain_id: u64, pinned: bool, at: Moment)
        requires
            old(self).wf(),
            at.wf(),
            !old(self)@.is_denied(chain_id),
        ensures
            final(self).wf(),
            final(self)@ == old(self)@.materialized(chain_id, pinned, at),
    {
        let c = self.fresh_chain(chain_id, pinned, at);
        self.put_chain(chain_id, c);
        self.chain_activations = self.chain_activations.wrapping_add(1);
        if self.count_hot() > self.config.discovery.max_hot_chains {
            match self.find_victim(chain_id, at.unix) {
                Some(victim) => {
                    self.demote_as(victim, Demotion::Lru);
                },
                None => {
                    return ;
                },
            }
        }
        self.kicks.push(chain_id);
    }

    /// Answers a request for a chain: takes it into memory if need be and notes that it was asked for.
    /// Gives nothing for a chain that is not known.
    pub fn resolve_for_request(&mut self, chain_id: u64, at: Moment) -> (label: Option<
        ChainStateLabel,
    >)
        requires
            old(self).wf(),
            at.wf(),
        ensures
            final(self).wf(),
            final(self)@ == old(self)@.resolved(chain_id, at),
            label == (if old(self)@.knows(chain_id) {
                Some(final(self)@.chains[chain_id].label())
            } else {
                None
            }),
            old(self)@.knows(chain_id) ==> final(self)@.chains.contains_key(chain_id),
    {
        let known = match self.chain(chain_id) {
            Some(c) => c.state_label(),
            None => ChainStateLabel::Dormant,
        };
        match known {
            ChainStateLabel::Disabled => {
                return Some(known);
            },
            ChainStateLabel::Pinned | ChainStateLabel::Hot => {
                let c = self.chain_mut(chain_id);
                c.set_last_ingress(at.unix);
            },
            ChainStateLabel::Dormant => {
                let pinned = self.is_pinned_chain(chain_id);
                let denied = self.is_denied(chain_id);
                let listed = self.catalog_entry(chain_id).is_some();
                if !denied && !pinned && !(self.config.discovery.enabled && listed) {
                    return None;
                }
                if denied {
                    let mut c = ChainState::new(chain_id, self.entry_name(chain_id), pinned);
                    c.set_disabled(true);
                    self.put_chain(chain_id, c);
                } else {
                    self.materialize(chain_id, pinned, at);
                }
            },
        }
        match self.chain(chain_id) {
            Some(c) => Some(c.state_label()),
            None => None,
        }
    }

    /// Replaces the catalog.
    pub fn set_catalog(&mut self, catalog: Arc<Catalog>)
        requires
            old(self).wf(),
        ensures
            final(self).wf(),
            final(self)@ == (RegistryView {
                catalog: Some(*catalog),
                catalog_chains: catalog.chains@.len() as u64,
                catalog_endpoints: crate::registry_model::wrapped_total(catalog.chains@),
                ..old(self)@
            }),
    {
        let mut total: u64 = 0;
        let mut i: usize = 0;
        assert(catalog.chains@.take(0) =~= Seq::<CatalogChain>::empty());
        while i < catalog.chains.len()
            invariant
                i <= catalog.chains@.len(),
                total == crate::registry_model::wrapped_total(catalog.chains@.take(i as int)),
            decreases catalog.chains@.len() - i,
        {
            proof {
                assert(catalog.chains@.take(i + 1).drop_last() =~= catalog.chains@.take(i as int));
            }
            total = total.wrapping_add(catalog.chains[i].endpoints.len() as u64);
            i = i + 1;
        }
        assert(catalog.chains@.take(catalog.chains@.len() as int) =~= catalog.chains@);
        self.catalog_chains_count = catalog.chains.len() as u64;
        self.catalog_endpoints_count = total;
        self.catalog = Some(catalog);
    }

    /// The catalog in force.
    pub fn catalog(&self) -> (c: Option<Arc<Catalog>>)
        ensures
            match c {
                Some(a) => self@.catalog == Some(*a),
                None => self@.catalog is None,
            },
    {
        match &self.catalog {
            Some(c) => Some(loader::share(c)),
            None => None,
        }
    }

    /// Hands over the chains whose probes have to be started.
    pub fn take_kicks(&mut self) -> (k: Vec<u64>)
        requires
            old(self).wf(),
        ensures
            final(self).wf(),
            k@ == old(self)@.kicks,
            final(self)@ == (RegistryView { kicks: Seq::empty(), ..old(self)@ }),
    {
        let mut k: Vec<u64> = Vec::new();
        std::mem::swap(&mut k, &mut self.kicks);
        k
    }

    /// Puts runtime settings of a chain into force.
    pub fn apply_override(&mut self, chain_id: u64, value: ChainOverrideState)
        requires
            old(self).wf(),
        ensures
            final(self).wf(),
            final(self)@ == old(self)@.with_chain_override(chain_id, value),
    {
        self.note_chain_override(chain_id, value);
        if let Some(pinned) = value.pinned {
            self.runtime_pinned.insert(chain_id, pinned);
        }
        if self.chains.contains(chain_id) {
            let pinned = self.is_pinned_chain(chain_id);
            let denied = self.is_denied(chain_id);
            let c = self.chain_mut(chain_id);
            if value.pinned.is_some() {
                c.set_pinned(pinned);
            }
            if let Some(disabled) = value.disabled {
                c.set_disabled(denied || disabled);
            }
        }
    }

    /// Takes down runtime settings of a chain without putting them into force.
    pub fn note_chain_override(&mut self, chain_id: u64, value: ChainOverrideState)
        requires
            old(self).wf(),
        ensures
            final(self).wf(),
            final(self)@ == old(self)@.with_chain_entry(chain_id, value),
    {
        self.runtime_chain_overrides.insert(chain_id, value);
    }

    fn note_endpoint_override(&mut self, key: String, value: EndpointOverrideState)
        requires
            old(self).wf(),
        ensures
            final(self).wf(),
            final(self)@ == old(self)@.with_endpoint_entry(key@, value),
    {
        self.runtime_endpoint_overrides.insert(key, value);
    }

    /// Puts runtime settings of an endpoint into force.
    pub fn set_endpoint_override(&mut self, chain_id: u64, value: EndpointOverrideState, now: u64) -> (r:
        bool)
        requires
            old(self).wf(),
        ensures
            final(self).wf(),
            r,
            final(self)@ == old(self)@.with_endpoint_override(chain_id, value, now),
    {
        let key = keys::endpoint_key(chain_id, value.url.as_str());
        let (default_rps, default_concurrency): (u32, usize) = self.config.endpoint_limits(
            chain_id,
            value.url.as_str(),
        );
        let rps: u32 = match value.rps {
            Some(n) => n,
            None => default_rps,
        };
        let concurrency: usize = match value.concurrency {
            Some(n) => n,
            None => default_concurrency,
        };
        self.note_endpoint_override(key, value.clone());
        if self.chains.contains(chain_id) {
            let c = self.chain_mut(chain_id);
            let ghost before = c@.endpoints;
            let place = c.position(value.url.as_str());
            if value.disabled == Some(true) {
                c.drop_url(value.url.as_str());
                proof {
                    crate::chain::lemma_without_url(before, value.url@);
                    assert forall|i: int| 0 <= i < c@.endpoints.len() implies (
                    #[trigger] c@.endpoints[i]).wf() by {
                        let j = choose|j: int|
                            i <= j < before.len() && #[trigger] before[j] == c@.endpoints[i];
                    }
                }
            } else {
                match place {
                    Some(i) => {
                        proof {
                            let k = choose|k: int|
                                crate::chain::is_first_with(before, value.url@, k);
                            assert(crate::chain::is_first_with(before, value.url@, i as int));
                            assert(k == i);
                        }
                        if value.rps.is_some() || value.concurrency.is_some() {
                            let e = c.endpoint_mut(i);
                            *e = Endpoint::new(value.url.clone(), rps, concurrency, now);
                        }
                        proof {
                            assert forall|a: int, b: int|
                                0 <= a < b < c@.endpoints.len() implies (
                            #[trigger] c@.endpoints[a]).url != (#[trigger] c@.endpoints[b]).url by {
                                assert(before[a].url != before[b].url);
                            }
                        }
                    },
                    None => {
                        c.add_endpoint(value.url.clone(), rps, concurrency, now);
                        proof {
                            lemma_append_keeps_wf(before, c@.endpoints.last());
                        }
                    },
                }
            }
        }
        true
    }

    fn forget_overrides(&mut self)
        requires
            old(self).wf(),
        ensures
            final(self).wf(),
            final(self)@ == old(self)@.plain(),
    {
        self.runtime_chain_overrides = IdTable::new();
        self.runtime_endpoint_overrides = KeyTable::new();
        self.runtime_pinned = IdTable::new();
        let ghost start = self@;
        let ghost plain = old(self)@.plain();
        let mut i: usize = 0;
        while i < self.chains.len()
            invariant
                i <= self.chains.order().len(),
                self.wf(),
                start.order == self.chains.order(),
                start.chains == old(self)@.chains,
                start == (RegistryView { chains: old(self)@.chains, ..plain }),
                plain == old(self)@.plain(),
                self@ == (RegistryView { chains: self@.chains, ..start }),
                self@.chains.dom() == start.chains.dom(),
                forall|a: int|
                    0 <= a < i ==> self@.chains[start.order[a]] == plain.chains[#[trigger] start.order[a]],
                forall|a: int|
                    i <= a < start.order.len() ==> self@.chains[start.order[a]]
                        == start.chains[#[trigger] start.order[a]],
            decreases self.chains.order().len() - i,
        {
            proof {
                assert(self.chains@.contains_key(self.chains.order()[i as int]));
                assert(start.order.no_duplicates());
            }
            let k: u64 = self.chains.key_at(i);
            let pinned = self.is_pinned_chain(k);
            let denied = self.is_denied(k);
            let c = self.chain_mut(k);
            c.set_pinned(pinned);
            c.set_disabled(denied);
            i = i + 1;
        }
        proof {
            self.lemma_view_is_wf();
            assert forall|k: u64| #[trigger] self@.chains.contains_key(k) implies self@.chains[k]
                == plain.chains[k] by {
                assert(self@.order.contains(k));
                let a = choose|a: int| 0 <= a < start.order.len() && start.order[a] == k;
                assert(self@.chains[start.order[a]] == plain.chains[start.order[a]]);
            }
            assert(self@.chains =~= plain.chains);
        }
    }

    /// Puts stored runtime settings into force, in place of those that were. Settings out of their
    /// bounds are passed over.
    pub fn apply_overrides(&mut self, overrides: &Overrides, now: u64)
        requires
            old(self).wf(),
            overrides.wf(),
        ensures
            final(self).wf(),
            final(self)@ == old(self)@.plain().with_chain_overrides(
                overrides.chains.entries(),
            ).with_endpoint_overrides(overrides.endpoints.entries(), now),
    {
        self.forget_overrides();
        let ghost plain = self@;
        let ghost chains = overrides.chains.entries();
        let ghost endpoints = overrides.endpoints.entries();
        let mut i: usize = 0;
        assert(chains.take(0) =~= Seq::<(u64, ChainOverrideState)>::empty());
        while i < overrides.chains.len()
            invariant
                i <= chains.len(),
                chains == overrides.chains.entries(),
                self.wf(),
                self@ == plain.with_chain_overrides(chains.take(i as int)),
            decreases chains.len() - i,
        {
            assert(chains.take(i + 1).drop_last() =~= chains.take(i as int));
            let value: ChainOverrideState = *overrides.chains.value_at(i);
            if is_valid_chain_override(&value) {
                self.apply_override(*overrides.chains.key_at(i), value);
            }
            i = i + 1;
        }
        assert(chains.take(chains.len() as int) =~= chains);
        let ghost ready = self@;
        i = 0;
        assert(endpoints.take(0) =~= Seq::<(String, EndpointOverrideState)>::empty());
        while i < overrides.endpoints.len()
            invariant
                i <= endpoints.len(),
                endpoints == overrides.endpoints.entries(),
                self.wf(),
                self@ == ready.with_endpoint_overrides(endpoints.take(i as int), now),
            decreases endpoints.len() - i,
        {
            assert(endpoints.take(i + 1).drop_last() =~= endpoints.take(i as int));
            let value = overrides.endpoints.value_at(i);
            if is_valid_endpoint_override(value) {
                let key = overrides.endpoints.key_at(i);
                self.note_endpoint_override(key.clone(), value.clone());
                self.set_endpoint_override(keys::key_chain(key.as_str()), value.clone(), now);
            }
            i = i + 1;
        }
        assert(endpoints.take(endpoints.len() as int) =~= endpoints);
    }

    /// Takes over which chains were chosen automatically.
    pub fn restore_auto_pinned(&mut self, chain_ids: &Vec<u64>)
        requires
            old(self).wf(),
        ensures
            final(self).wf(),
            final(self)@ == (RegistryView {
                auto_pinned: Map::new(|k: u64| chain_ids@.contains(k), |k: u64| true),
                ..old(self)@
            }),
    {
        self.auto_pinned = IdTable::new();
        let mut i: usize = 0;
        while i < chain_ids.len()
            invariant
                i <= chain_ids@.len(),
                self.wf(),
                self@ == (RegistryView { auto_pinned: self.auto_pinned@, ..old(self)@ }),
                forall|k: u64| #[trigger]
                    self.auto_pinned@.contains_key(k) <==> chain_ids@.take(i as int).contains(k),
                forall|k: u64| #[trigger]
                    self.auto_pinned@.contains_key(k) ==> self.auto_pinned@[k],
            decreases chain_ids@.len() - i,
        {
            let ghost before = self.auto_pinned@;
            let id: u64 = chain_ids[i];
            self.auto_pinned.insert(id, true);
            proof {
                let p = chain_ids@.take(i as int);
                let q = chain_ids@.take(i + 1);
                assert(q =~= p.push(id));
                assert forall|k: u64| #[trigger] self.auto_pinned@.contains_key(k) <==> q.contains(
                    k,
                ) by {
                    assert(before.contains_key(k) == p.contains(k));
                    if p.contains(k) {
                        let a = choose|a: int| 0 <= a < p.len() && p[a] == k;
                        assert(q[a] == k);
                    }
                    if k == id {
                        assert(q[i as int] == k);
                    }
                }
            }
            i = i + 1;
        }
        proof {
            assert(chain_ids@.take(chain_ids@.len() as int) =~= chain_ids@);
            assert(self.auto_pinned@ =~= Map::new(|k: u64| chain_ids@.contains(k), |k: u64| true));
        }
    }

    fn find_source<'a>(snapshot: &'a ChainlistSnapshot, chain_id: u64) -> (s: Option<
        &'a ChainEndpoints,
    >)
        ensures
            match s {
                Some(c) => crate::registry_model::source_in(snapshot.chains@, chain_id) == Some(*c),
                None => crate::registry_model::source_in(snapshot.chains@, chain_id) is None,
            },
    {
        let ghost all = snapshot.chains@;
        let mut i: usize = snapshot.chains.len();
        assert(all.take(all.len() as int) =~= all);
        while i > 0
            invariant
                i <= all.len(),
                all == snapshot.chains@,
                crate::registry_model::source_in(all, chain_id)
                    == crate::registry_model::source_in(all.take(i as int), chain_id),
            decreases i,
        {
            assert(all.take(i as int).drop_last() =~= all.take(i - 1));
            i = i - 1;
            if snapshot.chains[i].chain_id == chain_id {
                return Some(&snapshot.chains[i]);
            }
        }
        None
    }

    /// Brings one chain in line with a refreshed catalog.
    fn merge_chain(&mut self, chain_id: u64, source: Option<&ChainEndpoints>, at: Moment)
        requires
            old(self).wf(),
            at.wf(),
        ensures
            final(self).wf(),
            final(self)@ == old(self)@.with_chain(
                chain_id,
                old(self)@.refreshed_chain(
                    chain_id,
                    match source {
                        Some(s) => Some(*s),
                        None => None,
                    },
                    at,
                ),
            ),
    {
        let ghost start = self@;
        let pinned = self.is_pinned_chain(chain_id);
        let name = match source {
            Some(s) => s.name.clone(),
            None => Registry::default_name(chain_id),
        };
        let denied = self.is_denied(chain_id);
        let mut c = ChainState::new(chain_id, name.clone(), pinned);
        c.set_disabled(denied);
        if self.chains.contains(chain_id) {
            let slot = self.chain_mut(chain_id);
            std::mem::swap(slot, &mut c);
        }
        c.set_pinned(pinned);
        if source.is_some() {
            c.set_name(name);
        }
        if denied {
            c.clear_endpoints();
        } else {
            let none: Vec<String> = Vec::new();
            let plan = match source {
                Some(s) => self.source_plan(chain_id, &s.endpoints),
                None => self.source_plan(chain_id, &none),
            };
            proof {
                let urls = match source {
                    Some(s) => crate::registry_model::texts(s.endpoints@),
                    None => crate::registry_model::texts(none@),
                };
                if source is None {
                    assert(urls =~= Seq::<Seq<char>>::empty());
                }
                crate::registry_model::lemma_plan_frame(start, self@, chain_id, urls);
            }
            let grace: u64 = self.config.chainlist.stale_grace_seconds;
            self.follow_plan(&mut c, &plan, grace, at);
        }
        self.put_chain(chain_id, c);
        assert(self@.chains =~= start.with_chain(chain_id, c@).chains);
    }

    fn list_id(ids: &mut Vec<u64>, id: u64)
        requires
            old(ids)@.no_duplicates(),
        ensures
            final(ids)@.no_duplicates(),
            forall|k: u64| final(ids)@.contains(k) <==> #[trigger] old(ids)@.contains(k) || k == id,
    {
        if !config::contains_id(ids, id) {
            ids.push(id);
            proof {
                let before = old(ids)@;
                assert forall|k: u64| ids@.contains(k) <==> #[trigger] before.contains(k) || k
                    == id by {
                    if before.contains(k) {
                        let i = choose|i: int| 0 <= i < before.len() && before[i] == k;
                        assert(ids@[i] == k);
                    }
                    if k == id {
                        assert(ids@[before.len() as int] == k);
                    }
                }
            }
        }
    }

    fn list_set(table: &IdTable<bool>, ids: &mut Vec<u64>)
        requires
            table.wf(),
            old(ids)@.no_duplicates(),
        ensures
            final(ids)@.no_duplicates(),
            forall|k: u64|
                final(ids)@.contains(k) <==> #[trigger] old(ids)@.contains(k) || (
                table@.contains_key(k) && table@[k]),
    {
        let mut i: usize = 0;
        while i < table.len()
            invariant
                i <= table.order().len(),
                table.wf(),
                ids@.no_duplicates(),
                forall|k: u64| #[trigger]
                    ids@.contains(k) <==> old(ids)@.contains(k) || (exists|a: int|
                        0 <= a < i && #[trigger] table.order()[a] == k && table.items()[a]),
            decreases table.order().len() - i,
        {
            let ghost before = ids@;
            let id: u64 = table.key_at(i);
            let chosen: bool = *table.value_at(i);
            if chosen {
                Registry::list_id(ids, id);
            }
            proof {
                assert forall|k: u64| #[trigger] ids@.contains(k) <==> old(ids)@.contains(k) || (
                exists|a: int| 0 <= a < i + 1 && #[trigger] table.order()[a] == k
                    && table.items()[a]) by {
                    assert(before.contains(k) <==> old(ids)@.contains(k) || (exists|a: int|
                        0 <= a < i && #[trigger] table.order()[a] == k && table.items()[a]));
                    if chosen && k == id {
                        assert(table.order()[i as int] == k);
                    }
                }
            }
            i = i + 1;
        }
        proof {
            assert forall|k: u64| ids@.contains(k) <==> #[trigger] old(ids)@.contains(k) || (
            table@.contains_key(k) && table@[k]) by {
                if table@.contains_key(k) {
                    let a = choose|a: int|
                        0 <= a < table.order().len() && table.order()[a] == k;
                    assert(table.order()[a] == k);
                }
            }
        }
    }

    /// The chains that a refresh of the catalog reaches.
    fn refreshed_ids(&self) -> (ids: Vec<u64>)
        requires
            self.wf(),
        ensures
            ids@.no_duplicates(),
            forall|k: u64| #[trigger] ids@.contains(k) <==> self@.refreshes(k),
    {
        let mut ids: Vec<u64> = Vec::new();
        let mut i: usize = 0;
        while i < self.config.chains.len()
            invariant
                i <= self.config.chains@.len(),
                ids@.no_duplicates(),
                forall|k: u64| #[trigger]
                    ids@.contains(k) <==> self.config.chains@.take(i as int).contains(k),
            decreases self.config.chains@.len() - i,
        {
            let ghost before = ids@;
            let id: u64 = self.config.chains[i];
            Registry::list_id(&mut ids, id);
            proof {
                let p = self.config.chains@.take(i as int);
                let q = self.config.chains@.take(i + 1);
                assert(q =~= p.push(id));
                assert forall|k: u64| #[trigger] ids@.contains(k) <==> q.contains(k) by {
                    assert(before.contains(k) <==> p.contains(k));
                    if p.contains(k) {
                        let a = choose|a: int| 0 <= a < p.len() && p[a] == k;
                        assert(q[a] == k);
                    }
                    if k == id {
                        assert(q[i as int] == k);
                    }
                }
            }
            i = i + 1;
        }
        assert(self.config.chains@.take(self.config.chains@.len() as int)
            =~= self.config.chains@);
        let ghost configured = ids@;
        Registry::list_set(&self.runtime_pinned, &mut ids);
        let ghost chosen = ids@;
        Registry::list_set(&self.auto_pinned, &mut ids);
        let ghost automatic = ids@;
        i = 0;
        while i < self.chains.len()
            invariant
                i <= self.chains.order().len(),
                self.wf(),
                ids@.no_duplicates(),
                forall|k: u64| #[trigger]
                    ids@.contains(k) <==> automatic.contains(k) || (exists|a: int|
                        0 <= a < i && #[trigger] self.chains.order()[a] == k
                            && self.chains.items()[a]@.is_live()),
            decreases self.chains.order().len() - i,
        {
            let ghost before = ids@;
            let id: u64 = self.chains.key_at(i);
            let live: bool = self.chains.value_at(i).is_live();
            if live {
                Registry::list_id(&mut ids, id);
            }
            proof {
                assert forall|k: u64| #[trigger] ids@.contains(k) <==> automatic.contains(k) || (
                exists|a: int| 0 <= a < i + 1 && #[trigger] self.chains.order()[a] == k
                    && self.chains.items()[a]@.is_live()) by {
                    assert(before.contains(k) <==> automatic.contains(k) || (exists|a: int|
                        0 <= a < i && #[trigger] self.chains.order()[a] == k
                            && self.chains.items()[a]@.is_live()));
                    if live && k == id {
                        assert(self.chains.order()[i as int] == k);
                    }
                }
            }
            i = i + 1;
        }
        proof {
            assert forall|k: u64| #[trigger] ids@.contains(k) <==> self@.refreshes(k) by {
                assert(chosen.contains(k) <==> configured.contains(k) || (
                self.runtime_pinned@.contains_key(k) && self.runtime_pinned@[k]));
                assert(automatic.contains(k) <==> chosen.contains(k) || (
                self.auto_pinned@.contains_key(k) && self.auto_pinned@[k]));
                assert(configured.contains(k) <==> self.config.chains@.contains(k));
                if self@.chains.contains_key(k) {
                    assert(self.chains@.contains_key(k));
                    let a = choose|a: int|
                        0 <= a < self.chains.order().len() && self.chains.order()[a] == k;
                    assert(self.chains.order()[a] == k);
                }
            }
        }
        ids
    }

    /// Brings the chains in memory in line with a refreshed catalog. Endpoints that stay keep what is
    /// known of them, new ones start on probation, and those that left linger for a while.
    pub fn apply_snapshot(&mut self, snapshot: &ChainlistSnapshot, at: Moment)
        requires
            old(self).wf(),
            at.wf(),
        ensures
            final(self).wf(),
            final(self)@ == (RegistryView {
                chains: old(self)@.refreshed_chains(snapshot.chains@, at),
                order: final(self)@.order,
                ..old(self)@
            }),
    {
        let ghost start = self@;
        let ghost sources = snapshot.chains@;
        let ghost target = start.refreshed_chains(sources, at);
        let ids = self.refreshed_ids();
        let mut i: usize = 0;
        while i < ids.len()
            invariant
                i <= ids@.len(),
                ids@.no_duplicates(),
                forall|k: u64| #[trigger] ids@.contains(k) <==> start.refreshes(k),
                self.wf(),
                at.wf(),
                sources == snapshot.chains@,
                target == start.refreshed_chains(sources, at),
                self@ == (RegistryView { chains: self@.chains, order: self@.order, ..start }),
                forall|k: u64| #[trigger]
                    self@.chains.contains_key(k) <==> start.chains.contains_key(k) || ids@.take(
                        i as int,
                    ).contains(k),
                forall|k: u64| #[trigger]
                    self@.chains.contains_key(k) ==> self@.chains[k] == (if ids@.take(
                        i as int,
                    ).contains(k) {
                        target[k]
                    } else {
                        start.chains[k]
                    }),
            decreases ids@.len() - i,
        {
            let ghost before = self@;
            let ghost done = ids@.take(i as int);
            let id: u64 = ids[i];
            proof {
                assert(!done.contains(id)) by {
                    if done.contains(id) {
                        let a = choose|a: int| 0 <= a < done.len() && done[a] == id;
                        assert(ids@[a] == ids@[i as int]);
                    }
                }
                assert(ids@.contains(id));
            }
            let source = Registry::find_source(snapshot, id);
            self.merge_chain(id, source, at);
            proof {
                let s = crate::registry_model::source_in(sources, id);
                crate::registry_model::lemma_refreshed_chain_frame(start, before, id, s, at);
                assert(ids@.take(i + 1) =~= done.push(id));
                assert forall|k: u64| ids@.take(i + 1).contains(k) <==> #[trigger] done.contains(k)
                    || k == id by {
                    if done.contains(k) {
                        let a = choose|a: int| 0 <= a < done.len() && done[a] == k;
                        assert(ids@.take(i + 1)[a] == k);
                    }
                    if k == id {
                        assert(ids@.take(i + 1)[i as int] == k);
                    }
                }
                assert forall|k: u64| #[trigger]
                    self@.chains.contains_key(k) implies self@.chains[k] == (if ids@.take(
                    i + 1,
                ).contains(k) {
                    target[k]
                } else {
                    start.chains[k]
                }) by {
                    assert(ids@.take(i + 1).contains(k) <==> done.contains(k) || k == id);
                    if k != id {
                        assert(before.chains.contains_key(k));
                    }
                }
                assert forall|k: u64| #[trigger]
                    self@.chains.contains_key(k) <==> start.chains.contains_key(k) || ids@.take(
                    i + 1,
                ).contains(k) by {
                    assert(ids@.take(i + 1).contains(k) <==> done.contains(k) || k == id);
                    assert(before.chains.contains_key(k) <==> start.chains.contains_key(k)
                        || done.contains(k));
                }
            }
            i = i + 1;
        }
        proof {
            assert(ids@.take(ids@.len() as int) =~= ids@);
            assert forall|k: u64| #[trigger] self@.chains.contains_key(k) implies self@.chains[k]
                == target[k] by {
                assert(ids@.contains(k) <==> start.refreshes(k));
            }
            assert forall|k: u64| #[trigger] target.contains_key(k) <==> self@.chains.contains_key(
                k,
            ) by {
                assert(ids@.contains(k) <==> start.refreshes(k));
            }
            assert(self@.chains =~= target);
        }
    }

    /// Brings a chain into memory if it is not there; tells whether it is then.
    fn ensure_chain(&mut self, chain_id: u64, at: Moment) -> (r: bool)
        requires
            old(self).wf(),
            at.wf(),
        ensures
            final(self).wf(),
            r == old(self)@.can_ensure(chain_id),
            final(self)@ == old(self)@.ensured(chain_id, at),
            r ==> final(self)@.chains.contains_key(chain_id),
    {
        if self.chains.contains(chain_id) {
            return true;
        }
        self.resolve_for_request(chain_id, at).is_some()
    }

    /// Switches a chain off or on. A chain that the configuration denies stays off.
    pub fn set_disabled(&mut self, chain_id: u64, disabled: bool, at: Moment) -> (r: bool)
        requires
            old(self).wf(),
            at.wf(),
        ensures
            final(self).wf(),
            r == old(self)@.can_ensure(chain_id),
            final(self)@ == (if r {
                let there = old(self)@.ensured(chain_id, at);
                there.with_chain(
                    chain_id,
                    ChainView {
                        disabled: disabled || old(self)@.is_denied(chain_id),
                        ..there.chains[chain_id]
                    },
                )
            } else {
                old(self)@
            }),
    {
        if !self.ensure_chain(chain_id, at) {
            return false;
        }
        let denied = self.is_denied(chain_id);
        let c = self.chain_mut(chain_id);
        c.set_disabled(disabled || denied);
        true
    }

    /// Pins a chain or takes the pin back; a chain that is no longer pinned is hot from now on.
    pub fn set_pinned(&mut self, chain_id: u64, pinned: bool, at: Moment) -> (r: bool)
        requires
            old(self).wf(),
            at.wf(),
        ensures
            final(self).wf(),
            r == old(self)@.can_ensure(chain_id),
            final(self)@ == (if r {
                let there = old(self)@.ensured(chain_id, at);
                let c = there.chains[chain_id];
                RegistryView {
                    pinned: there.pinned.insert(chain_id, pinned),
                    ..there.with_chain(
                        chain_id,
                        ChainView {
                            pinned,
                            last_ingress: if pinned {
                                c.last_ingress
                            } else {
                                at.unix
                            },
                            ..c
                        },
                    )
                }
            } else {
                old(self)@
            }),
    {
        if !self.ensure_chain(chain_id, at) {
            return false;
        }
        self.runtime_pinned.insert(chain_id, pinned);
        let c = self.chain_mut(chain_id);
        c.set_pinned(pinned);
        if !pinned {
            c.set_last_ingress(at.unix);
        }
        true
    }

    /// Notes that a chain is chosen automatically, or no longer. A chain that was unpinned or switched
    /// off by hand is never chosen.
    pub fn set_auto_pinned(&mut self, chain_id: u64, enabled: bool) -> (r: bool)
        requires
            old(self).wf(),
        ensures
            final(self).wf(),
            r == (enabled && !crate::registry_model::is_tombstone(
                old(self)@.chain_override(chain_id),
            )),
            final(self)@ == (if enabled && !r {
                old(self)@
            } else {
                let noted = RegistryView {
                    auto_pinned: if enabled {
                        old(self)@.auto_pinned.insert(chain_id, true)
                    } else {
                        old(self)@.auto_pinned.remove(chain_id)
                    },
                    ..old(self)@
                };
                if noted.chains.contains_key(chain_id) {
                    noted.with_chain(
                        chain_id,
                        ChainView {
                            pinned: noted.is_pinned(chain_id),
                            ..noted.chains[chain_id]
                        },
                    )
                } else {
                    noted
                }
            }),
    {
        if enabled {
            let o = self.runtime_chain_override(chain_id);
            if o.pinned == Some(false) || o.disabled == Some(true) {
                return false;
            }
            self.auto_pinned.insert(chain_id, true);
        } else {
            let _ = self.auto_pinned.remove(chain_id);
        }
        let pinned = self.is_pinned_chain(chain_id);
        if self.chains.contains(chain_id) {
            let c = self.chain_mut(chain_id);
            c.set_pinned(pinned);
        }
        enabled
    }

    pub fn runtime_chain_override(&self, chain_id: u64) -> (o: ChainOverrideState)
        requires
            self.wf(),
        ensures
            o == self@.chain_override(chain_id),
    {
        match self.runtime_chain_overrides.get(chain_id) {
            Some(o) => *o,
            None => ChainOverrideState::default(),
        }
    }

    pub fn runtime_endpoint_override(&self, chain_id: u64, url: &str) -> (o: Option<
        EndpointOverrideState,
    >)
        requires
            self.wf(),
        ensures
            o == self@.endpoint_override(chain_id, url@),
    {
        let key = keys::endpoint_key(chain_id, url);
        match self.runtime_endpoint_overrides.get(key.as_str()) {
            Some(o) => Some(o.clone()),
            None => None,
        }
    }

    /// All runtime settings in force.
    pub fn runtime_overrides(&self) -> (o: Overrides)
        requires
            self.wf(),
        ensures
            o.wf(),
            o.chains@ == self@.chain_overrides,
            o.endpoints@ == self@.endpoint_overrides,
    {
        let mut o = Overrides::new();
        let chains = &self.runtime_chain_overrides;
        let mut i: usize = 0;
        while i < chains.len()
            invariant
                i <= chains.order().len(),
                chains.wf(),
                o.wf(),
                o.endpoints@ == Map::<Seq<char>, EndpointOverrideState>::empty(),
                forall|k: u64| #[trigger]
                    o.chains@.contains_key(k) <==> chains.order().take(i as int).contains(k),
                forall|k: u64| #[trigger]
                    o.chains@.contains_key(k) ==> chains@.contains_key(k) && o.chains@[k]
                        == chains@[k],
            decreases chains.order().len() - i,
        {
            let ghost before = o.chains@;
            let k: u64 = chains.key_at(i);
            o.chains.insert(k, *chains.value_at(i));
            proof {
                let p = chains.order().take(i as int);
                let q = chains.order().take(i + 1);
                assert(q =~= p.push(k));
                assert(chains@.contains_key(chains.order()[i as int]));
                assert forall|x: u64| #[trigger] o.chains@.contains_key(x) <==> q.contains(x) by {
                    assert(before.contains_key(x) <==> p.contains(x));
                    if p.contains(x) {
                        let a = choose|a: int| 0 <= a < p.len() && p[a] == x;
                        assert(q[a] == x);
                    }
                    if x == k {
                        assert(q[i as int] == x);
                    }
                }
            }
            i = i + 1;
        }
        proof {
            assert(chains.order().take(chains.order().len() as int) =~= chains.order());
            assert(o.chains@ =~= chains@);
        }
        let endpoints = &self.runtime_endpoint_overrides;
        i = 0;
        while i < endpoints.len()
            invariant
                i <= endpoints.order().len(),
                endpoints.wf(),
                o.wf(),
                o.chains@ == self@.chain_overrides,
                forall|k: Seq<char>| #[trigger]
                    o.endpoints@.contains_key(k) <==> endpoints.order().take(i as int).contains(k),
                forall|k: Seq<char>| #[trigger]
                    o.endpoints@.contains_key(k) ==> endpoints@.contains_key(k) && o.endpoints@[k]
                        == endpoints@[k],
            decreases endpoints.order().len() - i,
        {
            let ghost before = o.endpoints@;
            let k: String = endpoints.key_at(i).clone();
            let ghost key = k@;
            o.endpoints.insert(k, endpoints.value_at(i).clone());
            proof {
                let p = endpoints.order().take(i as int);
                let q = endpoints.order().take(i + 1);
                assert(q =~= p.push(key));
                assert(endpoints@.contains_key(endpoints.order()[i as int]));
                assert forall|x: Seq<char>| #[trigger]
                    o.endpoints@.contains_key(x) <==> q.contains(x) by {
                    assert(before.contains_key(x) <==> p.contains(x));
                    if p.contains(x) {
                        let a = choose|a: int| 0 <= a < p.len() && p[a] == x;
                        assert(q[a] == x);
                    }
                    if x == key {
                        assert(q[i as int] == x);
                    }
                }
            }
            i = i + 1;
        }
        proof {
            assert(endpoints.order().take(endpoints.order().len() as int) =~= endpoints.order());
            assert(o.endpoints@ =~= endpoints@);
        }
        o
    }

    /// The chains that were unpinned or switched off by hand.
    pub fn tombstoned_chain_ids(&self) -> (ids: HashSet<u64>)
        requires
            self.wf(),
        ensures
            ids@ == Set::new(
                |k: u64|
                    self@.chain_overrides.contains_key(k) && crate::registry_model::is_tombstone(
                        self@.chain_overrides[k],
                    ),
            ),
    {
        let table = &self.runtime_chain_overrides;
        let mut ids: HashSet<u64> = HashSet::new();
        let mut i: usize = 0;
        while i < table.len()
            invariant
                i <= table.order().len(),
                table.wf(),
                forall|k: u64| #[trigger]
                    ids@.contains(k) <==> exists|a: int|
                        0 <= a < i && #[trigger] table.order()[a] == k
                            && crate::registry_model::is_tombstone(table.items()[a]),
            decreases table.order().len() - i,
        {
            let ghost before = ids@;
            let o = table.value_at(i);
            let k: u64 = table.key_at(i);
            let buried: bool = o.pinned == Some(false) || o.disabled == Some(true);
            if buried {
                ids.insert(k);
            }
            proof {
                assert forall|x: u64| #[trigger] ids@.contains(x) <==> exists|a: int|
                    0 <= a < i + 1 && #[trigger] table.order()[a] == x
                        && crate::registry_model::is_tombstone(table.items()[a]) by {
                    assert(before.contains(x) <==> exists|a: int|
                        0 <= a < i && #[trigger] table.order()[a] == x
                            && crate::registry_model::is_tombstone(table.items()[a]));
                    if buried && x == k {
                        assert(table.order()[i as int] == x);
                    }
                }
            }
            i = i + 1;
        }
        proof {
            let target = Set::new(
                |k: u64|
                    self@.chain_overrides.contains_key(k) && crate::registry_model::is_tombstone(
                        self@.chain_overrides[k],
                    ),
            );
            assert forall|k: u64| ids@.contains(k) <==> target.contains(k) by {
                if table@.contains_key(k) {
                    let a = choose|a: int|
                        0 <= a < table.order().len() && table.order()[a] == k;
                    assert(table.order()[a] == k);
                }
            }
            assert(ids@ =~= target);
        }
        ids
    }

    /// The chains that were chosen automatically.
    pub fn auto_chain_ids(&self) -> (ids: Vec<u64>)
        requires
            self.wf(),
        ensures
            ids@.no_duplicates(),
            forall|k: u64| #[trigger]
                ids@.contains(k) <==> self@.auto_pinned.contains_key(k) && self@.auto_pinned[k],
    {
        let mut ids: Vec<u64> = Vec::new();
        let ghost none = ids@;
        Registry::list_set(&self.auto_pinned, &mut ids);
        proof {
            assert forall|k: u64| #[trigger] ids@.contains(k) <==> self@.auto_pinned.contains_key(k)
                && self@.auto_pinned[k] by {
                assert(!none.contains(k));
            }
        }
        ids
    }

    /// What pins a chain, if anything does.
    pub fn pin_source(&self, chain_id: u64) -> (s: Option<&'static str>)
        requires
            self.wf(),
        ensures
            match s {
                Some(t) => t@ == (if self@.config.chains@.contains(chain_id) {
                    "config"@
                } else if self@.pinned.contains_key(chain_id) && self@.pinned[chain_id] {
                    "manual"@
                } else {
                    "auto"@
                }),
                None => true,
            },
            s is Some <==> self@.config.chains@.contains(chain_id) || (self@.pinned.contains_key(
                chain_id,
            ) && self@.pinned[chain_id]) || self@.auto_pinned.contains_key(chain_id),
    {
        if config::contains_id(&self.config.chains, chain_id) {
            return Some("config");
        }
        if let Some(v) = self.runtime_pinned.get(chain_id) {
            if *v {
                return Some("manual");
            }
        }
        if self.auto_pinned.contains(chain_id) {
            Some("auto")
        } else {
            None
        }
    }

    /// The pinned and the hot chains.
    pub fn hot_chain_ids(&self) -> (ids: Vec<u64>)
        requires
            self.wf(),
        ensures
            ids@ == self@.live_ids(),
    {
        let ghost live = |k: u64| self@.chains[k].is_live();
        let ghost order = self@.order;
        let mut ids: Vec<u64> = Vec::new();
        let mut i: usize = 0;
        proof {
            reveal(Seq::filter);
            assert(order.take(0) =~= Seq::<u64>::empty());
        }
        while i < self.chains.len()
            invariant
                i <= self.chains.order().len(),
                self.wf(),
                order == self.chains.order(),
                live == (|k: u64| self@.chains[k].is_live()),
                ids@ == order.take(i as int).filter(live),
            decreases self.chains.order().len() - i,
        {
            proof {
                reveal(Seq::filter);
                assert(order.take(i + 1).drop_last() =~= order.take(i as int));
                assert(self.chains@.contains_key(self.chains.order()[i as int]));
            }
            if self.chains.value_at(i).is_live() {
                ids.push(self.chains.key_at(i));
            }
            i = i + 1;
        }
        assert(order.take(order.len() as int) =~= order);
        ids
    }

    /// The chains that were asked for since they came into memory, with the time of the last request.
    pub fn hot_chain_snapshot(&self) -> (list: Vec<(u64, u64)>)
        requires
            self.wf(),
        ensures
            list@ == self@.hot_list(),
    {
        let ghost v = self@;
        let ghost asked = |k: u64| v.chains[k].last_ingress > 0;
        let ghost pair = |k: u64| (k, v.chains[k].last_ingress);
        let ghost order = self@.order;
        let mut list: Vec<(u64, u64)> = Vec::new();
        let mut i: usize = 0;
        proof {
            reveal(Seq::filter);
            assert(order.take(0) =~= Seq::<u64>::empty());
            assert(list@ =~= order.take(0).filter(asked).map_values(pair));
        }
        while i < self.chains.len()
            invariant
                i <= self.chains.order().len(),
                self.wf(),
                order == self.chains.order(),
                v == self@,
                asked == (|k: u64| v.chains[k].last_ingress > 0),
                pair == (|k: u64| (k, v.chains[k].last_ingress)),
                list@ == order.take(i as int).filter(asked).map_values(pair),
            decreases self.chains.order().len() - i,
        {
            let ghost had = order.take(i as int).filter(asked);
            proof {
                reveal(Seq::filter);
                assert(order.take(i + 1).drop_last() =~= order.take(i as int));
                assert(self.chains@.contains_key(self.chains.order()[i as int]));
            }
            let k: u64 = self.chains.key_at(i);
            let last: u64 = self.chains.value_at(i).last_ingress();
            if last > 0 {
                list.push((k, last));
                assert(had.push(k).map_values(pair) =~= had.map_values(pair).push((k, last)));
            }
            i = i + 1;
        }
        assert(order.take(order.len() as int) =~= order);
        list
    }

    /// The pinned and the hot chains, with the time of the last request.
    pub fn hot_chain_timestamps(&self) -> (list: Vec<(u64, u64)>)
        requires
            self.wf(),
        ensures
            list@ == self@.live_ids().map_values(|k: u64| (k, self@.chains[k].last_ingress)),
    {
        let ghost pair = |k: u64| (k, self@.chains[k].last_ingress);
        let ids = self.hot_chain_ids();
        let mut list: Vec<(u64, u64)> = Vec::new();
        let mut i: usize = 0;
        while i < ids.len()
            invariant
                i <= ids@.len(),
                self.wf(),
                ids@ == self@.live_ids(),
                pair == (|k: u64| (k, self@.chains[k].last_ingress)),
                list@ == ids@.take(i as int).map_values(pair),
            decreases ids@.len() - i,
        {
            let k: u64 = ids[i];
            proof {
                self.lemma_view_is_wf();
                self@.lemma_live(k);
            }
            if let Some(c) = self.chain(k) {
                list.push((k, c.last_ingress()));
            }
            proof {
                assert(ids@.take(i + 1).map_values(pair) =~= ids@.take(i as int).map_values(
                    pair,
                ).push(pair(k)));
            }
            i = i + 1;
        }
        assert(ids@.take(ids@.len() as int) =~= ids@);
        list
    }

    /// Takes chains into memory again that were hot when the state was stored.
    pub fn activate_restored_hot(&mut self, chains: &Vec<(u64, u64)>, at: Moment)
        requires
            old(self).wf(),
            at.wf(),
        ensures
            final(self).wf(),
            final(self)@ == old(self)@.with_restored_hot(chains@, at),
    {
        let ghost start = self@;
        let mut i: usize = 0;
        assert(chains@.take(0) =~= Seq::<(u64, u64)>::empty());
        while i < chains.len()
            invariant
                i <= chains@.len(),
                self.wf(),
                at.wf(),
                self@.config == start.config,
                self@ == start.with_restored_hot(chains@.take(i as int), at),
            decreases chains@.len() - i,
        {
            assert(chains@.take(i + 1).drop_last() =~= chains@.take(i as int));
            let (id, last): (u64, u64) = chains[i];
            let age: u64 = if at.unix > last {
                at.unix - last
            } else {
                0
            };
            if age < self.config.discovery.idle_seconds {
                if self.resolve_for_request(id, at).is_some() {
                    let c = self.chain_mut(id);
                    c.set_last_ingress(last);
                }
            }
            i = i + 1;
        }
        assert(chains@.take(chains@.len() as int) =~= chains@);
    }

    /// Where an endpoint stands among those of its chain, if it is in memory.
    fn place_of(&self, chain_id: u64, url: &str) -> (r: Option<usize>)
        requires
            self.wf(),
        ensures
            match r {
                Some(i) => self@.chains.contains_key(chain_id) && crate::chain::is_first_with(
                    self@.chains[chain_id].endpoints,
                    url@,
                    i as int,
                ),
                None => !self@.chains.contains_key(chain_id) || !crate::chain::has_url(
                    self@.chains[chain_id].endpoints,
                    url@,
                ),
            },
    {
        match self.chain(chain_id) {
            Some(c) => c.position(url),
            None => None,
        }
    }

    /// Hands out an endpoint for change in place.
    fn endpoint_at(&mut self, chain_id: u64, i: usize) -> (e: &mut Endpoint)
        requires
            old(self).wf(),
            old(self)@.chains.contains_key(chain_id),
            i < old(self)@.chains[chain_id].endpoints.len(),
        ensures
            e@ == old(self)@.chains[chain_id].endpoints[i as int],
            e@.wf(),
            final(self)@ == (RegistryView {
                chains: old(self)@.chains.insert(
                    chain_id,
                    ChainView {
                        endpoints: old(self)@.chains[chain_id].endpoints.update(
                            i as int,
                            final(e)@,
                        ),
                        ..old(self)@.chains[chain_id]
                    },
                ),
                ..old(self)@
            }),
            final(e)@.wf() && final(e)@.url == old(self)@.chains[chain_id].endpoints[i as int].url
                ==> final(self).wf(),
    {
        let ghost before = self@.chains[chain_id].endpoints;
        proof {
            lemma_update_keeps_wf(before, i as int);
        }
        let c = self.chain_mut(chain_id);
        let e = c.endpoint_mut(i);
        e
    }

    /// Takes in stored health, and puts it back where its endpoint is in memory.
    pub fn restore_health(&mut self, snapshots: &Vec<HealthSnapshot>, at: Moment)
        requires
            old(self).wf(),
            at.wf(),
        ensures
            final(self).wf(),
            final(self)@ == old(self)@.with_health(snapshots@, at),
    {
        let ghost start = self@;
        let mut i: usize = 0;
        assert(snapshots@.take(0) =~= Seq::<HealthSnapshot>::empty());
        while i < snapshots.len()
            invariant
                i <= snapshots@.len(),
                self.wf(),
                at.wf(),
                self@ == start.with_health(snapshots@.take(i as int), at),
            decreases snapshots@.len() - i,
        {
            let ghost before = self@;
            assert(snapshots@.take(i + 1).drop_last() =~= snapshots@.take(i as int));
            let s = &snapshots[i];
            let ghost change = |e: EndpointView| e.restored(*s, at.instant, at.unix);
            let key = keys::endpoint_key(s.chain_id, s.url.as_str());
            self.restored_health.insert(key, s.clone());
            match self.place_of(s.chain_id, s.url.as_str()) {
                Some(place) => {
                    proof {
                        crate::registry_model::lemma_changed_endpoint(
                            before,
                            s.chain_id,
                            s.url@,
                            place as int,
                            change,
                        );
                    }
                    let e = self.endpoint_at(s.chain_id, place);
                    e.restore_health(s, at.instant, at.unix);
                },
                None => {},
            }
            proof {
                assert(self@.chains == before.with_changed_endpoint(s.chain_id, s.url@, change));
            }
            i = i + 1;
        }
        assert(snapshots@.take(snapshots@.len() as int) =~= snapshots@);
    }

    /// Marks endpoints as changed whose health could not be stored.
    pub fn restore_dirty_health(&mut self, snapshots: &Vec<HealthSnapshot>)
        requires
            old(self).wf(),
        ensures
            final(self).wf(),
            final(self)@ == old(self)@.with_dirty(snapshots@),
    {
        let ghost start = self@;
        let ghost change = |e: EndpointView| EndpointView { dirty: true, ..e };
        let mut i: usize = 0;
        assert(snapshots@.take(0) =~= Seq::<HealthSnapshot>::empty());
        while i < snapshots.len()
            invariant
                i <= snapshots@.len(),
                self.wf(),
                change == (|e: EndpointView| EndpointView { dirty: true, ..e }),
                self@ == start.with_dirty(snapshots@.take(i as int)),
            decreases snapshots@.len() - i,
        {
            let ghost before = self@;
            assert(snapshots@.take(i + 1).drop_last() =~= snapshots@.take(i as int));
            let s = &snapshots[i];
            match self.place_of(s.chain_id, s.url.as_str()) {
                Some(place) => {
                    proof {
                        crate::registry_model::lemma_changed_endpoint(
                            before,
                            s.chain_id,
                            s.url@,
                            place as int,
                            change,
                        );
                    }
                    let e = self.endpoint_at(s.chain_id, place);
                    e.mark_dirty();
                },
                None => {},
            }
            proof {
                assert(self@.chains == before.with_changed_endpoint(s.chain_id, s.url@, change));
            }
            i = i + 1;
        }
        assert(snapshots@.take(snapshots@.len() as int) =~= snapshots@);
    }

    /// Where the first changed endpoints stand, at most `limit` of them.
    fn dirty_list(&self, limit: usize) -> (list: Vec<(u64, usize)>)
        requires
            self.wf(),
        ensures
            place_views(list@) == self@.dirty_batch(limit),
    {
        let ghost order = self@.order;
        let ghost all = self@.dirty_places();
        let mut list: Vec<(u64, usize)> = Vec::new();
        let mut i: usize = 0;
        proof {
            assert(order.take(0) =~= Seq::<u64>::empty());
            assert(place_views(list@) =~= Seq::<(u64, int)>::empty());
        }
        while i < self.chains.len()
            invariant
                i <= self.chains.order().len(),
                self.wf(),
                order == self.chains.order(),
                all == self@.dirty_places(),
                list@.len() <= limit,
                place_views(list@) == crate::registry_model::dirty_places_in(
                    self@.chains,
                    order.take(i as int),
                ),
            decreases self.chains.order().len() - i,
        {
            let ghost had = place_views(list@);
            let k: u64 = self.chains.key_at(i);
            let c = self.chains.value_at(i);
            proof {
                assert(order.take(i + 1).drop_last() =~= order.take(i as int));
                assert(self.chains@.contains_key(self.chains.order()[i as int]));
                assert(self@.chains[k] == c@);
            }
            if c.is_live() {
                let endpoints = c.endpoints();
                let ghost es = c@.endpoints;
                let mut j: usize = 0;
                proof {
                    assert(es.take(0) =~= Seq::<EndpointView>::empty());
                    assert(had + crate::registry_model::dirty_in(k, es.take(0)) =~= had);
                }
                while j < endpoints.len()
                    invariant
                        j <= endpoints@.len(),
                        es == crate::chain::views(endpoints@),
                        es == self@.chains[k].endpoints,
                        self@.chains[k].is_live(),
                        i < order.len(),
                        k == order[i as int],
                        self.wf(),
                        order == self@.order,
                        all == self@.dirty_places(),
                        had == crate::registry_model::dirty_places_in(
                            self@.chains,
                            order.take(i as int),
                        ),
                        list@.len() <= limit,
                        place_views(list@) == had + crate::registry_model::dirty_in(
                            k,
                            es.take(j as int),
                        ),
                    decreases endpoints@.len() - j,
                {
                    let ghost now = place_views(list@);
                    proof {
                        assert(es.take(j + 1).drop_last() =~= es.take(j as int));
                        assert(es.take(j + 1).last() == endpoints@[j as int]@);
                    }
                    if list.len() >= limit {
                        proof {
                            lemma_dirty_prefix(self@.chains, order, i as int, j as int);
                            assert(now =~= all.take(limit as int));
                        }
                        return list;
                    }
                    if endpoints[j].is_dirty() {
                        list.push((k, j));
                        proof {
                            assert(place_views(list@) =~= now.push((k, j as int)));
                            assert(had + crate::registry_model::dirty_in(k, es.take(j + 1)) =~= (had
                                + crate::registry_model::dirty_in(k, es.take(j as int))).push(
                                (k, j as int),
                            ));
                        }
                    }
                    j = j + 1;
                }
                assert(es.take(es.len() as int) =~= es);
            }
            i = i + 1;
        }
        proof {
            assert(order.take(order.len() as int) =~= order);
            assert(all.take(all.len() as int) =~= all);
        }
        list
    }

    /// Hands out what is to be stored of changed endpoints, at most `limit` of them, and takes note that
    /// it was.
    pub fn take_dirty_health(&mut self, limit: usize, at: Moment) -> (out: Vec<HealthSnapshot>)
        requires
            old(self).wf(),
        ensures
            final(self).wf(),
            final(self)@ == (RegistryView {
                chains: old(self)@.cleaned_chains(old(self)@.dirty_batch(limit), at.instant),
                ..old(self)@
            }),
            out@.len() == old(self)@.dirty_batch(limit).len(),
            forall|j: int|
                0 <= j < out@.len() ==> {
                    let (k, i) = old(self)@.dirty_batch(limit)[j];
                    crate::registry_model::cleaned(
                        old(self)@.chains[k].endpoints[i],
                        at.instant,
                    ).snapshot_is(k, at.instant, at.unix, #[trigger] out@[j])
                },
    {
        let ghost start = self@;
        let list = self.dirty_list(limit);
        let ghost places = place_views(list@);
        proof {
            self.lemma_view_is_wf();
            lemma_batch(start, limit);
        }
        let mut out: Vec<HealthSnapshot> = Vec::new();
        let mut n: usize = 0;
        proof {
            assert forall|k: u64| #[trigger] start.chains.contains_key(k) implies start.chains[k]
                == start.cleaned_chains(places.take(0), at.instant)[k] by {
                assert(start.chains[k].endpoints =~= start.cleaned_chains(
                    places.take(0),
                    at.instant,
                )[k].endpoints);
            }
            assert(start.chains =~= start.cleaned_chains(places.take(0), at.instant));
        }
        while n < list.len()
            invariant
                n <= list@.len(),
                out@.len() == n,
                places == place_views(list@),
                places.no_duplicates(),
                forall|p: (u64, int)| #[trigger]
                    places.contains(p) ==> start.chains.contains_key(p.0) && 0 <= p.1
                        < start.chains[p.0].endpoints.len() && start.chains[p.0].endpoints[p.1].dirty,
                self.wf(),
                self@ == (RegistryView {
                    chains: start.cleaned_chains(places.take(n as int), at.instant),
                    ..start
                }),
                forall|j: int|
                    0 <= j < n ==> {
                        let (k, i) = places[j];
                        crate::registry_model::cleaned(
                            start.chains[k].endpoints[i],
                            at.instant,
                        ).snapshot_is(k, at.instant, at.unix, #[trigger] out@[j])
                    },
            decreases list@.len() - n,
        {
            let ghost done = places.take(n as int);
            let ghost p = places[n as int];
            let (k, i): (u64, usize) = list[n];
            proof {
                assert(places.contains(p));
                assert(!done.contains(p)) by {
                    if done.contains(p) {
                        let a = choose|a: int| 0 <= a < done.len() && done[a] == p;
                        assert(places[a] == places[n as int]);
                    }
                }
            }
            let e = self.endpoint_at(k, i);
            let _ = e.take_dirty();
            let s = e.health_snapshot(k, at.instant, at.unix);
            out.push(s);
            proof {
                let next = places.take(n + 1);
                assert(next =~= done.push(p));
                let target = start.cleaned_chains(next, at.instant);
                assert forall|x: u64| #[trigger] start.chains.contains_key(x) implies self@.chains[x]
                    == target[x] by {
                    assert forall|y: int| 0 <= y < start.chains[x].endpoints.len() implies
                        #[trigger] self@.chains[x].endpoints[y] == target[x].endpoints[y] by {
                        crate::registry_model::lemma_push_contains(done, p, (x, y));
                    }
                    assert(self@.chains[x].endpoints =~= target[x].endpoints);
                }
                assert(self@.chains =~= target);
            }
            n = n + 1;
        }
        assert(places.take(places.len() as int) =~= places);
        out
    }

    /// How many endpoints of live chains changed since their health was last stored.
    pub fn dirty_endpoint_count(&self) -> (n: usize)
        requires
            self.wf(),
        ensures
            n == self@.dirty_batch(usize::MAX).len(),
    {
        self.dirty_list(usize::MAX).len()
    }

    /// Drops idle chains from memory, and with too many hot chains the least recently asked for.
    pub fn housekeeping(&mut self)
        requires
            old(self).wf(),
        ensures
            final(self).wf(),
            exists|now: u64, evicted: Seq<u64>|
                #![trigger old(self)@.housekept(now, evicted)]
                old(self)@.are_evicted(now, evicted) && final(self)@ == old(self)@.housekept(
                    now,
                    evicted,
                ),
    {
        let now: u64 = unix_seconds();
        self.housekeeping_at(now);
    }

    /// As `housekeeping`, at the given second of the wall clock.
    pub fn housekeeping_at(&mut self, now: u64)
        requires
            old(self).wf(),
        ensures
            final(self).wf(),
            exists|evicted: Seq<u64>|
                #![trigger old(self)@.housekept(now, evicted)]
                old(self)@.are_evicted(now, evicted) && final(self)@ == old(self)@.housekept(
                    now,
                    evicted,
                ),
    {
        let ghost start = self@;
        let ghost order = self@.order;
        let ghost idle = |k: u64| start.is_idle(k, now);
        let ghost busy = |k: u64| start.chains[k].label() is Hot && !start.is_idle(k, now);
        let mut ids: Vec<u64> = Vec::new();
        let mut lasts: Vec<u64> = Vec::new();
        let mut i: usize = 0;
        proof {
            reveal(Seq::filter);
            self.lemma_view_is_wf();
            assert(order.take(0) =~= Seq::<u64>::empty());
        }
        while i < self.chains.len()
            invariant
                i <= order.len(),
                self.wf(),
                start.wf(),
                order == start.order,
                idle == (|k: u64| start.is_idle(k, now)),
                busy == (|k: u64| start.chains[k].label() is Hot && !start.is_idle(k, now)),
                self@ == (RegistryView {
                    chains: self@.chains,
                    idle_demotions: crate::registry_model::advanced(
                        start.idle_demotions,
                        order.take(i as int).filter(idle).len(),
                    ),
                    ..start
                }),
                self@.chains.dom() == start.chains.dom(),
                forall|a: int|
                    0 <= a < i ==> self@.chains[order[a]] == (if start.is_idle(
                        #[trigger] order[a],
                        now,
                    ) {
                        start.chains[order[a]].demoted()
                    } else {
                        start.chains[order[a]]
                    }),
                forall|a: int|
                    i <= a < order.len() ==> self@.chains[#[trigger] order[a]]
                        == start.chains[order[a]],
                ids@ == order.take(i as int).filter(busy),
                lasts@ == ids@.map_values(|k: u64| start.chains[k].last_ingress),
            decreases order.len() - i,
        {
            let ghost had = ids@;
            proof {
                reveal(Seq::filter);
                assert(order.take(i + 1).drop_last() =~= order.take(i as int));
                assert(self.chains@.contains_key(self.chains.order()[i as int]));
            }
            let k: u64 = self.chains.key_at(i);
            let c = self.chains.value_at(i);
            let hot: bool = matches!(c.state_label(), ChainStateLabel::Hot);
            let last: u64 = c.last_ingress();
            let age: u64 = if now > last {
                now - last
            } else {
                0
            };
            assert(self@.chains[order[i as int]] == c@);
            if hot {
                if age > self.config.discovery.idle_seconds {
                    self.demote_as(k, Demotion::Idle);
                } else {
                    ids.push(k);
                    lasts.push(last);
                    assert(had.push(k).map_values(|k: u64| start.chains[k].last_ingress)
                        =~= had.map_values(|k: u64| start.chains[k].last_ingress).push(last));
                }
            }
            i = i + 1;
        }
        proof {
            assert(order.take(order.len() as int) =~= order);
            assert(ids@ == start.busy_ids(now));
        }
        let mut remaining: usize = ids.len();
        let max: usize = self.config.discovery.max_hot_chains;
        let ghost swept = self@;
        let ghost mut evicted: Seq<u64> = Seq::empty();
        let ranking = order::stable_order(&lasts);
        proof {
            assert forall|k: u64| #[trigger] start.chains.contains_key(k) implies swept.chains[k]
                == (if start.is_idle(k, now) || evicted.contains(k) {
                start.chains[k].demoted()
            } else {
                start.chains[k]
            }) by {
                assert(order.contains(k));
                let a = choose|a: int| 0 <= a < order.len() && order[a] == k;
                assert(swept.chains[order[a]] == swept.chains[k]);
            }
            crate::registry_model::lemma_filter_no_duplicates(order, busy);
        }
        let mut j: usize = 0;
        while j < ranking.len() && remaining > max
            invariant
                j <= ranking@.len(),
                ids@ == start.busy_ids(now),
                ids@.len() <= usize::MAX,
                ids@.no_duplicates(),
                busy == (|k: u64| start.chains[k].label() is Hot && !start.is_idle(k, now)),
                lasts@ == ids@.map_values(|k: u64| start.chains[k].last_ingress),
                order::is_stable_order(lasts@, ranking@),
                start.wf(),
                self.wf(),
                max == start.config.discovery.max_hot_chains,
                remaining == ids@.len() - evicted.len(),
                evicted.len() <= j,
                evicted.len() == 0 || remaining >= max,
                evicted.no_duplicates(),
                forall|k: u64| #[trigger]
                    evicted.contains(k) <==> exists|a: int|
                        0 <= a < j && ids@[#[trigger] ranking@[a] as int] == k && !start.is_recent(
                            k,
                            now,
                        ),
                self@ == (RegistryView {
                    chains: self@.chains,
                    lru_demotions: crate::registry_model::advanced(
                        start.lru_demotions,
                        evicted.len(),
                    ),
                    ..swept
                }),
                swept == (RegistryView {
                    chains: swept.chains,
                    idle_demotions: crate::registry_model::advanced(
                        start.idle_demotions,
                        start.idle_ids(now).len(),
                    ),
                    ..start
                }),
                self@.chains.dom() == start.chains.dom(),
                forall|k: u64| #[trigger]
                    start.chains.contains_key(k) ==> self@.chains[k] == (if start.is_idle(k, now)
                        || evicted.contains(k) {
                        start.chains[k].demoted()
                    } else {
                        start.chains[k]
                    }),
            decreases ranking@.len() - j,
        {
            let at: usize = ranking[j];
            let k: u64 = ids[at];
            let last: u64 = lasts[at];
            let age: u64 = if now > last {
                now - last
            } else {
                0
            };
            let ghost before = evicted;
            proof {
                assert(ids@.contains(k));
                crate::registry_model::lemma_filter_contains(start.order, busy, k);
                assert(start.chains.contains_key(k));
                assert(!before.contains(k)) by {
                    if before.contains(k) {
                        let a = choose|a: int|
                            0 <= a < j && ids@[#[trigger] ranking@[a] as int] == k
                                && !start.is_recent(k, now);
                        assert(ranking@[a] != ranking@[j as int]);
                    }
                }
            }
            if age >= RECENT_SECONDS {
                self.demote_as(k, Demotion::Lru);
                remaining = remaining - 1;
                proof {
                    evicted = before.push(k);
                    crate::registry_model::lemma_push_no_duplicates(before, k);
                    assert forall|x: u64| #[trigger] start.chains.contains_key(x) implies
                        self@.chains[x] == (if start.is_idle(x, now) || evicted.contains(x) {
                        start.chains[x].demoted()
                    } else {
                        start.chains[x]
                    }) by {
                        crate::registry_model::lemma_push_contains(before, k, x);
                    }
                }
            }
            proof {
                assert forall|x: u64| #[trigger] evicted.contains(x) <==> exists|a: int|
                    0 <= a < j + 1 && ids@[#[trigger] ranking@[a] as int] == x && !start.is_recent(
                        x,
                        now,
                    ) by {
                    crate::registry_model::lemma_push_contains(before, k, x);
                    assert(before.contains(x) <==> exists|a: int|
                        0 <= a < j && ids@[#[trigger] ranking@[a] as int] == x && !start.is_recent(
                            x,
                            now,
                        ));
                    if x == k && !start.is_recent(k, now) {
                        assert(ids@[ranking@[j as int] as int] == x);
                    }
                }
            }
            j = j + 1;
        }
        proof {
            lemma_evicted(start, now, evicted, ids@, lasts@, ranking@, j as int);
            assert(self@.chains =~= start.housekept(now, evicted).chains);
            assert(self@ == start.housekept(now, evicted));
        }
    }

    /// The endpoints of a chain that are in memory.
    pub fn all_endpoints(&self, chain_id: u64) -> (r: Option<&Vec<Endpoint>>)
        requires
            self.wf(),
        ensures
            r is Some <==> self@.chains.contains_key(chain_id),
            r matches Some(v) ==> crate::chain::views(v@) == self@.endpoints_of(chain_id),
    {
        match self.chain(chain_id) {
            Some(c) => Some(c.endpoints()),
            None => None,
        }
    }

    pub fn endpoint_count(&self, chain_id: u64) -> (n: usize)
        requires
            self.wf(),
        ensures
            n == self@.endpoints_of(chain_id).len(),
    {
        match self.chain(chain_id) {
            Some(c) => c.endpoints().len(),
            None => 0,
        }
    }

    pub fn is_disabled(&self, chain_id: u64) -> (r: bool)
        requires
            self.wf(),
        ensures
            r == (self@.chains.contains_key(chain_id) && self@.chains[chain_id].disabled),
    {
        match self.chain(chain_id) {
            Some(c) => c.is_disabled(),
            None => false,
        }
    }

    /// Whether the index of the catalog lists the chain.
    pub fn chain_in_catalog(&self, chain_id: u64) -> (r: bool)
        ensures
            r == (self@.catalog matches Some(c) && c.by_id@.contains_key(chain_id)),
    {
        match &self.catalog {
            Some(c) => c.by_id.contains_key(&chain_id),
            None => false,
        }
    }

    /// The endpoint with the given URL, if it is in memory.
    pub fn endpoint(&self, chain_id: u64, url: &str) -> (e: Option<&Endpoint>)
        requires
            self.wf(),
        ensures
            match e {
                Some(found) => exists|i: int|
                    crate::chain::is_first_with(self@.endpoints_of(chain_id), url@, i) && found@
                        == #[trigger] self@.endpoints_of(chain_id)[i],
                None => !crate::chain::has_url(self@.endpoints_of(chain_id), url@),
            },
    {
        match self.chain(chain_id) {
            Some(c) => match c.position(url) {
                Some(i) => {
                    let e = &c.endpoints()[i];
                    assert(e@ == self@.endpoints_of(chain_id)[i as int]);
                    Some(e)
                },
                None => None,
            },
            None => None,
        }
    }

    /// Hands out the endpoint with the given URL for change in place.
    pub fn endpoint_mut(&mut self, chain_id: u64, url: &str) -> (e: &mut Endpoint)
        requires
            old(self).wf(),
            crate::chain::has_url(old(self)@.endpoints_of(chain_id), url@),
        ensures
            e@.url == url@,
            e@.wf(),
            exists|i: int|
                crate::chain::is_first_with(old(self)@.endpoints_of(chain_id), url@, i) && e@
                    == #[trigger] old(self)@.endpoints_of(chain_id)[i],
            final(self)@ == (RegistryView {
                chains: old(self)@.with_changed_endpoint(
                    chain_id,
                    url@,
                    |before: EndpointView| final(e)@,
                ),
                ..old(self)@
            }),
            final(e)@.wf() && final(e)@.url == url@ ==> final(self).wf(),
    {
        let ghost before = self@;
        let i: usize = match self.place_of(chain_id, url) {
            Some(i) => i,
            None => 0,
        };
        proof {
            let k = choose|k: int|
                crate::chain::is_first_with(before.chains[chain_id].endpoints, url@, k);
            assert(crate::chain::is_first_with(
                before.chains[chain_id].endpoints,
                url@,
                i as int,
            ));
            assert(k == i);
            assert(before.endpoints_of(chain_id)[i as int].url == url@);
        }
        self.endpoint_at(chain_id, i)
    }

    fn count_active(&self, chain_id: u64) -> (n: usize)
        requires
            self.wf(),
        ensures
            n == crate::registry_model::places_of(self@.endpoints_of(chain_id), true).len(),
    {
        self.pool(chain_id, true).len()
    }

    /// The places of the active endpoints of a chain, or of those on probation.
    fn pool(&self, chain_id: u64, active: bool) -> (r: Vec<usize>)
        requires
            self.wf(),
        ensures
            r@ == crate::registry_model::places_of(self@.endpoints_of(chain_id), active),
            forall|i: int|
                0 <= i < r@.len() ==> (#[trigger] r@[i]) < self@.endpoints_of(chain_id).len(),
    {
        let mut r: Vec<usize> = Vec::new();
        if let Some(c) = self.chain(chain_id) {
            let endpoints = c.endpoints();
            let ghost es = self@.endpoints_of(chain_id);
            let mut i: usize = 0;
            assert(es.take(0) =~= Seq::<EndpointView>::empty());
            while i < endpoints.len()
                invariant
                    i <= endpoints@.len(),
                    es == crate::chain::views(endpoints@),
                    r@ == crate::registry_model::places_of(es.take(i as int), active),
                    forall|k: int| 0 <= k < r@.len() ==> (#[trigger] r@[k]) < i,
                decreases endpoints@.len() - i,
            {
                proof {
                    assert(es.take(i + 1).drop_last() =~= es.take(i as int));
                    assert(es.take(i + 1).last() == endpoints@[i as int]@);
                }
                if (active && endpoints[i].is_active()) || (!active && endpoints[i].is_probation()) {
                    r.push(i);
                }
                i = i + 1;
            }
            assert(es.take(es.len() as int) =~= es);
        }
        r
    }

    /// The endpoints of a chain to try: the active ones, or with none those on probation. `scores`
    /// gives the score of each endpoint by its place, smaller ones being better.
    pub fn candidates(&self, chain_id: u64, scores: &Vec<u64>) -> (set: CandidateSet)
        requires
            self.wf(),
            scores@.len() == self@.endpoints_of(chain_id).len(),
        ensures
            set.kind == crate::registry_model::pool_kind(self@.endpoints_of(chain_id)),
            crate::selection::is_draw(
                set.endpoints@,
                crate::registry_model::pool_of(self@.endpoints_of(chain_id)),
                scores@,
            ),
            set.endpoints@.no_duplicates(),
            self@.chains.contains_key(chain_id) ==> {
                let es = self@.chains[chain_id].endpoints;
                let serving = exists|i: int|
                    0 <= i < es.len() && (#[trigger] es[i]).health.status is Active;
                forall|i: int|
                    0 <= i < es.len() ==> (set.endpoints@.contains(i as usize) <==> (if serving {
                        (#[trigger] es[i]).health.status is Active
                    } else {
                        es[i].health.status is Probation
                    }))
            },
    {
        let mut pool = self.pool(chain_id, true);
        let kind = if pool.len() > 0 {
            PoolKind::Active
        } else {
            pool = self.pool(chain_id, false);
            if pool.len() > 0 {
                PoolKind::Probation
            } else {
                PoolKind::Empty
            }
        };
        let endpoints = selection::shuffle(pool, scores);
        let _count: usize = scores.len();
        proof {
            crate::routing_laws::lemma_every_usable_endpoint_is_tried(
                self@.endpoints_of(chain_id),
                scores@,
                endpoints@,
                kind,
            );
        }
        CandidateSet { endpoints, kind }
    }

    /// Whether enough endpoints of a chain are active for a second request alongside the first.
    pub fn healthy_for_hedging(&self, chain_id: u64, minimum_active: usize) -> (r: bool)
        requires
            self.wf(),
        ensures
            r == ({
                let es = self@.endpoints_of(chain_id);
                let active = crate::registry_model::places_of(es, true).len();
                active >= minimum_active && 2 * active >= es.len()
            }),
    {
        let active: usize = self.count_active(chain_id);
        active >= minimum_active && active.saturating_add(active) >= self.endpoint_count(chain_id)
    }

    /// Takes an endpoint out for good: it does not come back with a refresh.
    pub fn remove_endpoint(&mut self, chain_id: u64, url: &str) -> (r: bool)
        requires
            old(self).wf(),
        ensures
            final(self).wf(),
            r == crate::chain::has_url(old(self)@.endpoints_of(chain_id), url@),
            final(self)@ == (if old(self)@.chains.contains_key(chain_id) {
                let c = old(self)@.chains[chain_id];
                old(self)@.with_chain(
                    chain_id,
                    ChainView {
                        endpoints: crate::chain::without_url(c.endpoints, url@),
                        rejected: c.rejected.insert(url@),
                        ..c
                    },
                )
            } else {
                old(self)@
            }),
    {
        if !self.chains.contains(chain_id) {
            return false;
        }
        proof {
            lemma_drop_keeps_wf(self@.chains[chain_id].endpoints, url@);
        }
        let c = self.chain_mut(chain_id);
        c.reject(url)
    }

    /// Adds an endpoint to a chain in memory.
    pub fn add_runtime_endpoint(&mut self, chain_id: u64, url: String, now: u64) -> (r: bool)
        requires
            old(self).wf(),
        ensures
            final(self).wf(),
            r == old(self)@.chains.contains_key(chain_id),
            final(self)@ == (if r && !crate::chain::has_url(
                old(self)@.endpoints_of(chain_id),
                url@,
            ) {
                let c = old(self)@.chains[chain_id];
                let limits = old(self)@.config.limits_for(chain_id, url@);
                old(self)@.with_chain(
                    chain_id,
                    ChainView {
                        endpoints: c.endpoints.push(
                            EndpointView::fresh(url@, limits.0, limits.1, now),
                        ),
                        ..c
                    },
                )
            } else {
                old(self)@
            }),
    {
        if !self.chains.contains(chain_id) {
            return false;
        }
        if self.place_of(chain_id, url.as_str()).is_some() {
            return true;
        }
        let (rps, concurrency): (u32, usize) = self.config.endpoint_limits(chain_id, url.as_str());
        let c = self.chain_mut(chain_id);
        let ghost before = c@.endpoints;
        c.add_endpoint(url, rps, concurrency, now);
        proof {
            lemma_append_keeps_wf(before, c@.endpoints.last());
        }
        true
    }

    /// Takes back runtime settings of an endpoint, and the endpoint with them.
    pub fn remove_runtime_endpoint(&mut self, chain_id: u64, url: &str) -> (r: bool)
        requires
            old(self).wf(),
        ensures
            final(self).wf(),
            r == (old(self)@.endpoint_override(chain_id, url@) is Some && crate::chain::has_url(
                old(self)@.endpoints_of(chain_id),
                url@,
            )),
            final(self)@ == (if old(self)@.chains.contains_key(chain_id)
                && old(self)@.endpoint_override(chain_id, url@) is Some {
                let c = old(self)@.chains[chain_id];
                RegistryView {
                    endpoint_overrides: old(self)@.endpoint_overrides.remove(
                        crate::keys::key_of(chain_id, url@),
                    ),
                    endpoint_order: final(self)@.endpoint_order,
                    ..old(self)@.with_chain(
                        chain_id,
                        ChainView {
                            endpoints: crate::chain::without_url(c.endpoints, url@),
                            ..c
                        },
                    )
                }
            } else {
                old(self)@
            }),
    {
        if !self.chains.contains(chain_id) {
            return false;
        }
        let key = keys::endpoint_key(chain_id, url);
        if !self.runtime_endpoint_overrides.contains(key.as_str()) {
            return false;
        }
        let _ = self.runtime_endpoint_overrides.remove(key.as_str());
        proof {
            lemma_drop_keeps_wf(self@.chains[chain_id].endpoints, url@);
        }
        let c = self.chain_mut(chain_id);
        c.drop_url(url)
    }

    fn lists_endpoint(&self, chain_id: u64, url: &str) -> (r: bool)
        ensures
            r == self@.catalog_urls(chain_id).contains(url@),
    {
        if let Some(chain) = self.catalog_entry(chain_id) {
            let ghost urls = self@.catalog_urls(chain_id);
            let mut i: usize = 0;
            while i < chain.endpoints.len()
                invariant
                    i <= chain.endpoints@.len(),
                    urls == self@.catalog_urls(chain_id),
                    urls == crate::registry_model::endpoint_urls(chain.endpoints@),
                    forall|k: int| 0 <= k < i ==> #[trigger] urls[k] != url@,
                decreases chain.endpoints@.len() - i,
            {
                assert(urls[i as int] == chain.endpoints@[i as int].url@);
                if text::same(chain.endpoints[i].url.as_str(), url) {
                    return true;
                }
                i = i + 1;
            }
        }
        false
    }

    fn configures_endpoint(&self, chain_id: u64, url: &str) -> (r: bool)
        ensures
            r == self@.extra_urls(chain_id).contains(url@),
    {
        match self.config.chain_override(chain_id) {
            Some(o) => {
                let r = config::contains_text(&o.extra_endpoints, url);
                proof {
                    let urls = self@.extra_urls(chain_id);
                    if r {
                        let i = choose|i: int|
                            0 <= i < o.extra_endpoints@.len() && (
                            #[trigger] o.extra_endpoints@[i])@ == url@;
                        assert(urls[i] == url@);
                    }
                    if urls.contains(url@) {
                        let i = choose|i: int| 0 <= i < urls.len() && urls[i] == url@;
                        assert(o.extra_endpoints@[i]@ == url@);
                    }
                }
                r
            },
            None => false,
        }
    }

    /// Whether an endpoint is there by runtime settings alone.
    pub fn runtime_endpoint_exists(&self, chain_id: u64, url: &str) -> (r: bool)
        requires
            self.wf(),
        ensures
            r == (self@.endpoint_override(chain_id, url@) is Some && !self@.extra_urls(
                chain_id,
            ).contains(url@) && !self@.catalog_urls(chain_id).contains(url@)),
    {
        let key = keys::endpoint_key(chain_id, url);
        self.runtime_endpoint_overrides.contains(key.as_str()) && !self.configures_endpoint(
            chain_id,
            url,
        ) && !self.lists_endpoint(chain_id, url)
    }

    /// Whether anything is known of an endpoint: it is in memory, has runtime settings, is in the
    /// catalog or is configured.
    pub fn endpoint_known(&self, chain_id: u64, url: &str) -> (r: bool)
        requires
            self.wf(),
        ensures
            r == (crate::chain::has_url(self@.endpoints_of(chain_id), url@)
                || self@.endpoint_override(chain_id, url@) is Some || self@.catalog_urls(
                chain_id,
            ).contains(url@) || self@.extra_urls(chain_id).contains(url@)),
    {
        let key = keys::endpoint_key(chain_id, url);
        self.place_of(chain_id, url).is_some() || self.runtime_endpoint_overrides.contains(
            key.as_str(),
        ) || self.lists_endpoint(chain_id, url) || self.configures_endpoint(chain_id, url)
    }

    fn runtime_lag_threshold(&self, chain_id: u64) -> (n: u64)
        requires
            self.wf(),
        ensures
            n == self@.lag_threshold(chain_id),
    {
        match self.runtime_chain_override(chain_id).max_block_lag {
            Some(n) => n,
            None => self.config.lag_threshold(chain_id),
        }
    }

    /// Takes note of the height that a probe of an endpoint reported: the head of the chain and the lag
    /// of its endpoints are worked out anew, and an endpoint too far from the head is at fault.
    pub fn record_probe_height(&mut self, chain_id: u64, url: &str, height: u64, now: u128)
        requires
            old(self).wf(),
            now <= MAX_INSTANT,
        ensures
            final(self).wf(),
            ({
                let v = old(self)@;
                if !v.chains.contains_key(chain_id) {
                    final(self)@ == v
                } else {
                    exists|i: Option<int>|
                        #![trigger v.probed_chain(chain_id, i, height, now)]
                        is_place(v.chains[chain_id].endpoints, url@, i) && final(self)@
                            == v.with_chain(chain_id, v.probed_chain(chain_id, i, height, now))
                }
            }),
    {
        if !self.chains.contains(chain_id) {
            return ;
        }
        let ghost v = self@;
        let ghost c0 = self@.chains[chain_id];
        let place = self.place_of(chain_id, url);
        let ghost i: Option<int> = match place {
            Some(p) => Some(p as int),
            None => None,
        };
        let threshold: u64 = self.runtime_lag_threshold(chain_id);
        let interval: u64 = self.config.probe.max_interval_seconds;
        let seconds: u64 = interval.saturating_add(interval);
        let freshness: u128 = seconds as u128 * SECOND;
        let c = self.chain_mut(chain_id);
        if let Some(p) = place {
            c.endpoint_mut(p).observe_height(height, now);
        }
        let ghost seen = c@.endpoints;
        let heights = recent_heights(c, now, freshness);
        if let Some(head) = trimmed_max(heights.as_slice()) {
            c.set_head(head);
            note_lags(c, head, now, freshness);
            let gap: u64 = if head > height {
                head - height
            } else {
                height - head
            };
            if let Some(p) = place {
                if gap > threshold {
                    c.endpoint_mut(p).record_failure(now, FailureSignal::new(FaultKind::Lagging));
                }
            }
        }
        proof {
            assert(c@ == v.probed_chain(chain_id, i, height, now));
            assert forall|a: int| 0 <= a < c@.endpoints.len() implies (
            #[trigger] c@.endpoints[a]).url == c0.endpoints[a].url && c@.endpoints[a].wf() by {
                assert(c0.endpoints[a].wf());
            }
            assert forall|a: int, b: int| 0 <= a < b < c@.endpoints.len() implies (
            #[trigger] c@.endpoints[a]).url != (#[trigger] c@.endpoints[b]).url by {
                assert(c0.endpoints[a].url != c0.endpoints[b].url);
            }
            assert(is_place(c0.endpoints, url@, i));
        }
    }

    /// The highest height that the chain is known to have, outliers aside.
    pub fn head(&self, chain_id: u64) -> (n: u64)
        requires
            self.wf(),
        ensures
            n == (if self@.chains.contains_key(chain_id) {
                self@.chains[chain_id].head
            } else {
                0
            }),
    {
        match self.chain(chain_id) {
            Some(c) => c.head(),
            None => 0,
        }
    }

    pub fn record_user_visible_error(&mut self)
        requires
            old(self).wf(),
        ensures
            final(self).wf(),
            final(self)@ == (RegistryView {
                errors: crate::registry_model::counted(old(self)@.errors),
                ..old(self)@
            }),
    {
        self.user_visible_errors = self.user_visible_errors.wrapping_add(1);
    }

    pub fn user_visible_errors(&self) -> (n: u64)
        ensures
            n == self@.errors,
    {
        self.user_visible_errors
    }

    pub fn chain_activations(&self) -> (n: u64)
        ensures
            n == self@.activations,
    {
        self.chain_activations
    }

    /// How many chains were dropped from memory: idle, to make room, by hand.
    pub fn chain_demotions(&self) -> (n: (u64, u64, u64))
        ensures
            n == (self@.idle_demotions, self@.lru_demotions, self@.admin_demotions),
    {
        (self.chain_demotions_idle, self.chain_demotions_lru, self.chain_demotions_admin)
    }

    /// The chains in memory, and whether each is pinned.
    pub fn materialized_chain_pinned(&self) -> (list: Vec<(u64, bool)>)
        requires
            self.wf(),
        ensures
            list@ == self@.order.map_values(|k: u64| (k, self@.chains[k].pinned)),
    {
        let mut list: Vec<(u64, bool)> = Vec::new();
        let mut i: usize = 0;
        while i < self.chains.len()
            invariant
                i <= self.chains.order().len(),
                self.wf(),
                list@.len() == i,
                forall|a: int|
                    0 <= a < i ==> #[trigger] list@[a] == (
                        self@.order[a],
                        self@.chains[self@.order[a]].pinned,
                    ),
            decreases self.chains.order().len() - i,
        {
            assert(self.chains@.contains_key(self.chains.order()[i as int]));
            list.push((self.chains.key_at(i), self.chains.value_at(i).is_pinned()));
            i = i + 1;
        }
        assert(list@ =~= self@.order.map_values(|k: u64| (k, self@.chains[k].pinned)));
        list
    }

    pub fn catalog_chain_count(&self) -> (n: u64)
        ensures
            n == self@.catalog_chains,
    {
        self.catalog_chains_count
    }

    pub fn catalog_endpoint_count(&self) -> (n: u64)
        ensures
            n == self@.catalog_endpoints,
    {
        self.catalog_endpoints_count
    }

    pub fn chainlist_last_refresh(&self) -> (t: u64)
        ensures
            t == self@.last_refresh,
    {
        self.chainlist_last_refresh_unix
    }

    /// Notes when the catalog was refreshed and from where.
    pub fn record_chainlist_refresh(&mut self, unix_ts: u64, source: &str)
        requires
            old(self).wf(),
        ensures
            final(self).wf(),
            final(self)@ == (RegistryView {
                last_refresh: unix_ts,
                refresh_source: source@,
                ..old(self)@
            }),
    {
        self.chainlist_last_refresh_unix = unix_ts;
        self.chainlist_refresh_source = source.to_owned();
    }

    pub fn chainlist_refresh_source_str(&self) -> (s: String)
        ensures
            s@ == self@.refresh_source,
    {
        self.chainlist_refresh_source.clone()
    }

    /// The settings in force for a chain, and where they come from.
    pub fn chain_settings(&self, chain_id: u64) -> (s: (u64, u64, u64, u64, &'static str))
        requires
            self.wf(),
        ensures
            (s.0, s.1, s.2, s.3) == self@.settings(chain_id),
            s.4@ == self@.settings_source(chain_id),
    {
        let o = self.runtime_chain_override(chain_id);
        let source = if self.runtime_chain_overrides.contains(chain_id) {
            "runtime"
        } else if self.config.chain_override(chain_id).is_some() {
            "config"
        } else {
            "default"
        };
        (
            match o.block_time_ms {
                Some(n) => n,
                None => self.config.block_time_ms(chain_id),
            },
            match o.confirmation_depth {
                Some(n) => n,
                None => self.config.confirmation_depth(chain_id),
            },
            match o.tip_ttl_ms {
                Some(n) => n,
                None => self.config.tip_ttl_ms(chain_id),
            },
            match o.max_block_lag {
                Some(n) => n,
                None => self.config.lag_threshold(chain_id),
            },
            source,
        )
    }

    pub fn chain_last_ingress(&self, chain_id: u64) -> (t: u64)
        requires
            self.wf(),
        ensures
            t == (if self@.chains.contains_key(chain_id) {
                self@.chains[chain_id].last_ingress
            } else {
                0
            }),
    {
        match self.chain(chain_id) {
            Some(c) => c.last_ingress(),
            None => 0,
        }
    }

    /// Accounts for the decay of strikes everywhere.
    pub fn decay_all(&mut self, now: u128)
        requires
            old(self).wf(),
        ensures
            final(self).wf(),
            final(self)@ == old(self)@.decayed(now),
    {
        let ghost start = self@;
        let ghost target = start.decayed(now);
        let ghost order = self@.order;
        let mut i: usize = 0;
        proof {
            self.lemma_view_is_wf();
        }
        while i < self.chains.len()
            invariant
                i <= order.len(),
                self.wf(),
                start.wf(),
                order == start.order,
                target == start.decayed(now),
                self@ == (RegistryView { chains: self@.chains, ..start }),
                self@.chains.dom() == start.chains.dom(),
                forall|a: int|
                    0 <= a < i ==> self@.chains[#[trigger] order[a]] == target.chains[order[a]],
                forall|a: int|
                    i <= a < order.len() ==> self@.chains[#[trigger] order[a]]
                        == start.chains[order[a]],
            decreases order.len() - i,
        {
            assert(self.chains@.contains_key(self.chains.order()[i as int]));
            let k: u64 = self.chains.key_at(i);
            let c = self.chain_mut(k);
            let ghost c0 = c@;
            decay_chain(c, now);
            proof {
                assert forall|a: int| 0 <= a < c@.endpoints.len() implies (
                #[trigger] c@.endpoints[a]).url == c0.endpoints[a].url && c@.endpoints[a].wf() by {
                    assert(c0.endpoints[a].wf());
                }
                assert forall|a: int, b: int| 0 <= a < b < c@.endpoints.len() implies (
                #[trigger] c@.endpoints[a]).url != (#[trigger] c@.endpoints[b]).url by {
                    assert(c0.endpoints[a].url != c0.endpoints[b].url);
                }
            }
            i = i + 1;
        }
        proof {
            assert forall|k: u64| #[trigger] start.chains.contains_key(k) implies self@.chains[k]
                == target.chains[k] by {
                let a = choose|a: int| 0 <= a < order.len() && order[a] == k;
                assert(self@.chains[order[a]] == target.chains[order[a]]);
            }
            assert(self@.chains =~= target.chains);
        }
    }

    /// What a chain in memory looks like from outside.
    pub fn summary(&self, chain_id: u64) -> (s: Option<ChainSummary>)
        requires
            self.wf(),
        ensures
            s is Some <==> self@.chains.contains_key(chain_id),
            s matches Some(row) ==> row.is_for(self@.chains[chain_id]),
    {
        match self.chain(chain_id) {
            Some(c) => Some(ChainSummary::of(c)),
            None => None,
        }
    }

    /// Where an endpoint of a chain comes from.
    pub fn endpoint_source(&self, chain_id: u64, url: &str) -> (s: &'static str)
        ensures
            s@ == self@.endpoint_source(chain_id, url@),
    {
        if self.lists_endpoint(chain_id, url) {
            "chainlist"
        } else if self.configures_endpoint(chain_id, url) {
            "config"
        } else {
            "runtime"
        }
    }

    /// The endpoints that runtime settings switch off in a chain, with the limits they would have.
    pub fn switched_off_endpoints(&self, chain_id: u64) -> (r: Vec<PlanItem>)
        requires
            self.wf(),
        ensures
            crate::chain::plan_views(r@) == crate::registry_model::switched_off_urls(
                self@.endpoint_order,
                self@.endpoint_overrides,
                chain_id,
            ).map_values(|u: Seq<char>| self@.plan_item(chain_id, u)),
    {
        let ghost item = |u: Seq<char>| self@.plan_item(chain_id, u);
        let ghost order = self@.endpoint_order;
        let prefix = keys::key_prefix(chain_id);
        let table = &self.runtime_endpoint_overrides;
        let ghost off = |n: int|
            crate::registry_model::switched_off_urls(order.take(n), table@, chain_id);
        let mut r: Vec<PlanItem> = Vec::new();
        let mut i: usize = 0;
        proof {
            assert(order.take(0) =~= Seq::<Seq<char>>::empty());
            assert(crate::chain::plan_views(r@) =~= off(0).map_values(item));
        }
        while i < table.len()
            invariant
                i <= table.order().len(),
                self.wf(),
                table == self.runtime_endpoint_overrides,
                prefix@ == keys::chain_prefix(chain_id),
                order == table.order(),
                item == (|u: Seq<char>| self@.plan_item(chain_id, u)),
                off == (|n: int|
                    crate::registry_model::switched_off_urls(order.take(n), table@, chain_id)),
                crate::chain::plan_views(r@) == off(i as int).map_values(item),
            decreases table.order().len() - i,
        {
            let ghost had = crate::chain::plan_views(r@);
            proof {
                assert(order.take(i + 1).drop_last() =~= order.take(i as int));
                assert(table@.contains_key(table.order()[i as int]));
            }
            let value = table.value_at(i);
            if text::starts_with(table.key_at(i).as_str(), prefix.as_str()) && value.disabled
                == Some(true) {
                let p = self.plan_item(chain_id, value.url.clone());
                r.push(p);
                proof {
                    assert(crate::chain::plan_views(r@) =~= had.push(p@));
                    assert(off(i + 1).map_values(item) =~= off(i as int).map_values(item).push(
                        item(value.url@),
                    ));
                }
            }
            i = i + 1;
        }
        assert(order.take(order.len() as int) =~= order);
        r
    }

    /// Replaces the choice of automatic chains while chains are in memory.
    pub fn sync_auto_pinned(&mut self, chain_ids: &Vec<u64>)
        requires
            old(self).wf(),
        ensures
            final(self).wf(),
            final(self)@ == old(self)@.with_auto_pinned(
                Map::new(|k: u64| chain_ids@.contains(k), |k: u64| true),
            ),
    {
        let ghost start = self@;
        let ghost chosen = Map::new(|k: u64| chain_ids@.contains(k), |k: u64| true);
        let ghost target = start.with_auto_pinned(chosen);
        let ghost order = start.order;
        self.restore_auto_pinned(chain_ids);
        let ghost noted = self@;
        let mut i: usize = 0;
        proof {
            self.lemma_view_is_wf();
        }
        while i < self.chains.len()
            invariant
                i <= order.len(),
                self.wf(),
                noted.wf(),
                order == noted.order,
                noted == (RegistryView { auto_pinned: chosen, ..start }),
                target == start.with_auto_pinned(chosen),
                self@ == (RegistryView { chains: self@.chains, ..noted }),
                self@.chains.dom() == noted.chains.dom(),
                forall|a: int|
                    0 <= a < i ==> self@.chains[#[trigger] order[a]] == target.chains[order[a]],
                forall|a: int|
                    i <= a < order.len() ==> self@.chains[#[trigger] order[a]]
                        == noted.chains[order[a]],
            decreases order.len() - i,
        {
            assert(self.chains@.contains_key(self.chains.order()[i as int]));
            let k: u64 = self.chains.key_at(i);
            let pinned = self.is_pinned_chain(k);
            let c = self.chain_mut(k);
            c.set_pinned(pinned);
            i = i + 1;
        }
        proof {
            assert forall|k: u64| #[trigger] noted.chains.contains_key(k) implies self@.chains[k]
                == target.chains[k] by {
                let a = choose|a: int| 0 <= a < order.len() && order[a] == k;
                assert(self@.chains[order[a]] == target.chains[order[a]]);
            }
            assert(self@.chains =~= target.chains);
        }
    }

    fn sorted_ids(&self) -> (ids: Vec<u64>)
        requires
            self.wf(),
        ensures
            ids@ == crate::order::ascending(self@.order),
            forall|i: int| 0 <= i < ids@.len() ==> self@.chains.contains_key(#[trigger] ids@[i]),
    {
        let mut all: Vec<u64> = Vec::new();
        let mut i: usize = 0;
        while i < self.chains.len()
            invariant
                i <= self.chains.order().len(),
                all@ == self.chains.order().take(i as int),
            decreases self.chains.order().len() - i,
        {
            all.push(self.chains.key_at(i));
            i = i + 1;
        }
        assert(all@ =~= self@.order);
        let ids = order::sorted_numbers(all.as_slice());
        proof {
            self.lemma_view_is_wf();
            let leq = |a: u64, b: u64| a <= b;
            all@.lemma_sort_by_ensures(leq);
            assert forall|i: int| 0 <= i < ids@.len() implies self@.chains.contains_key(
                #[trigger] ids@[i],
            ) by {
                ids@.to_multiset_ensures();
                all@.to_multiset_ensures();
                assert(ids@.contains(ids@[i]));
                assert(all@.contains(ids@[i]));
            }
        }
        ids
    }

    /// One line for each chain in memory, in ascending order of the ids.
    pub fn summaries(&mut self, now: u128) -> (list: Vec<ChainSummary>)
        requires
            old(self).wf(),
        ensures
            final(self).wf(),
            final(self)@ == old(self)@.decayed(now),
            list@.len() == old(self)@.order.len(),
            forall|i: int|
                0 <= i < list@.len() ==> (#[trigger] list@[i]).is_for(
                    final(self)@.chains[crate::order::ascending(old(self)@.order)[i]],
                ),
    {
        self.decay_all(now);
        let ids = self.sorted_ids();
        proof {
            all_sorted(self@.order);
        }
        let mut list: Vec<ChainSummary> = Vec::new();
        let mut i: usize = 0;
        while i < ids.len()
            invariant
                i <= ids@.len(),
                self.wf(),
                list@.len() == i,
                forall|a: int| 0 <= a < ids@.len() ==> self@.chains.contains_key(#[trigger] ids@[a]),
                forall|a: int| 0 <= a < i ==> (#[trigger] list@[a]).is_for(self@.chains[ids@[a]]),
            decreases ids@.len() - i,
        {
            let k: u64 = ids[i];
            assert(self@.chains.contains_key(ids@[i as int]));
            if let Some(c) = self.chain(k) {
                list.push(ChainSummary::of(c));
            }
            i = i + 1;
        }
        list
    }

    /// How many chains there are of each kind.
    pub fn chain_counts(&self) -> (n: ChainCounts)
        requires
            self.wf(),
        ensures
            n.catalog == (match self@.catalog {
                Some(c) => c.chains@.len() as u64,
                None => 0,
            }),
            n.pinned == self@.labelled(ChainStateLabel::Pinned),
            n.hot == self@.labelled(ChainStateLabel::Hot),
            n.dormant == crate::registry_model::no_more_than(
                (self@.labelled(ChainStateLabel::Dormant) + self@.waiting(false)) as int,
            ),
            n.disabled == crate::registry_model::no_more_than(
                (self@.labelled(ChainStateLabel::Disabled) + self@.waiting(true)) as int,
            ),
    {
        let catalog: u64 = match &self.catalog {
            Some(c) => c.chains.len() as u64,
            None => 0,
        };
        let pinned: u64 = self.count_labelled(ChainStateLabel::Pinned) as u64;
        let hot: u64 = self.count_labelled(ChainStateLabel::Hot) as u64;
        let dormant: u64 = self.count_labelled(ChainStateLabel::Dormant) as u64;
        let disabled: u64 = self.count_labelled(ChainStateLabel::Disabled) as u64;
        ChainCounts {
            catalog,
            pinned,
            hot,
            dormant: dormant.saturating_add(self.count_waiting(false) as u64),
            disabled: disabled.saturating_add(self.count_waiting(true) as u64),
        }
    }

    fn count_labelled(&self, label: ChainStateLabel) -> (n: usize)
        requires
            self.wf(),
        ensures
            n == self@.labelled(label),
    {
        let ghost matching = |k: u64| self@.chains[k].label() == label;
        let ghost order = self@.order;
        let mut n: usize = 0;
        let mut i: usize = 0;
        proof {
            reveal(Seq::filter);
            assert(order.take(0) =~= Seq::<u64>::empty());
        }
        while i < self.chains.len()
            invariant
                i <= self.chains.order().len(),
                n <= i,
                self.wf(),
                order == self.chains.order(),
                matching == (|k: u64| self@.chains[k].label() == label),
                n == order.take(i as int).filter(matching).len(),
            decreases self.chains.order().len() - i,
        {
            proof {
                reveal(Seq::filter);
                assert(order.take(i + 1).drop_last() =~= order.take(i as int));
                assert(self.chains@.contains_key(self.chains.order()[i as int]));
            }
            if self.chains.value_at(i).state_label() == label {
                n = n + 1;
            }
            i = i + 1;
        }
        assert(order.take(order.len() as int) =~= order);
        n
    }

    fn count_waiting(&self, shut: bool) -> (n: usize)
        requires
            self.wf(),
        ensures
            n == self@.waiting(shut),
    {
        let ghost matching = |e: CatalogChain|
            self@.is_waiting(e.chain_id) && self@.is_shut(e.chain_id) == shut;
        let mut n: usize = 0;
        if let Some(c) = &self.catalog {
            let ghost all = c.chains@;
            let mut i: usize = 0;
            proof {
                reveal(Seq::filter);
                assert(all.take(0) =~= Seq::<CatalogChain>::empty());
            }
            while i < c.chains.len()
                invariant
                    i <= c.chains@.len(),
                    n <= i,
                    self.wf(),
                    all == c.chains@,
                    matching == (|e: CatalogChain|
                        self@.is_waiting(e.chain_id) && self@.is_shut(e.chain_id) == shut),
                    n == all.take(i as int).filter(matching).len(),
                decreases c.chains@.len() - i,
            {
                proof {
                    reveal(Seq::filter);
                    assert(all.take(i + 1).drop_last() =~= all.take(i as int));
                }
                let id: u64 = c.chains[i].chain_id;
                if !self.chains.contains(id) && (self.config.discovery.enabled
                    || config::contains_id(&self.config.chains, id)) && self.is_shut(id) == shut {
                    n = n + 1;
                }
                i = i + 1;
            }
            assert(all.take(all.len() as int) =~= all);
        }
        n
    }

    /// One line for each endpoint in memory, chains in ascending order of their ids.
    pub fn endpoint_metric_snapshots(&mut self, now: u128) -> (list: Vec<EndpointMetricSnapshot>)
        requires
            old(self).wf(),
        ensures
            final(self).wf(),
            final(self)@ == old(self)@.decayed(now),
            ({
                let rows = crate::registry_model::endpoint_rows(
                    final(self)@.chains,
                    crate::order::ascending(old(self)@.order),
                );
                &&& list@.len() == rows.len()
                &&& forall|i: int|
                    0 <= i < rows.len() ==> (#[trigger] list@[i]).is_for(rows[i].0, rows[i].1)
            }),
    {
        self.decay_all(now);
        let ids = self.sorted_ids();
        let mut list: Vec<EndpointMetricSnapshot> = Vec::new();
        let mut i: usize = 0;
        assert(ids@.take(0) =~= Seq::<u64>::empty());
        while i < ids.len()
            invariant
                i <= ids@.len(),
                self.wf(),
                forall|a: int| 0 <= a < ids@.len() ==> self@.chains.contains_key(#[trigger] ids@[a]),
                list@.len() == crate::registry_model::endpoint_rows(
                    self@.chains,
                    ids@.take(i as int),
                ).len(),
                forall|a: int|
                    0 <= a < list@.len() ==> (#[trigger] list@[a]).is_for(
                        crate::registry_model::endpoint_rows(
                            self@.chains,
                            ids@.take(i as int),
                        )[a].0,
                        crate::registry_model::endpoint_rows(
                            self@.chains,
                            ids@.take(i as int),
                        )[a].1,
                    ),
            decreases ids@.len() - i,
        {
            let ghost had = crate::registry_model::endpoint_rows(self@.chains, ids@.take(i as int));
            let ghost next = crate::registry_model::endpoint_rows(self@.chains, ids@.take(i + 1));
            let k: u64 = ids[i];
            proof {
                assert(self@.chains.contains_key(ids@[i as int]));
                assert(ids@.take(i + 1).drop_last() =~= ids@.take(i as int));
            }
            if let Some(c) = self.chain(k) {
                let endpoints = c.endpoints();
                let mut j: usize = 0;
                while j < endpoints.len()
                    invariant
                        j <= endpoints@.len(),
                        crate::chain::views(endpoints@) == self@.chains[k].endpoints,
                        next == had + self@.chains[k].endpoints.map_values(
                            |e: EndpointView| (k, e),
                        ),
                        list@.len() == had.len() + j,
                        forall|a: int|
                            0 <= a < list@.len() ==> (#[trigger] list@[a]).is_for(
                                next[a].0,
                                next[a].1,
                            ),
                    decreases endpoints@.len() - j,
                {
                    let row = EndpointMetricSnapshot::of(k, &endpoints[j]);
                    assert(next[had.len() + j] == (k, endpoints@[j as int]@));
                    list.push(row);
                    j = j + 1;
                }
            }
            i = i + 1;
        }
        assert(ids@.take(ids@.len() as int) =~= ids@);
        list
    }
}

/// What a chain in memory looks like from outside.
#[derive(Clone, Debug)]
pub struct ChainSummary {
    pub chain_id: u64,
    pub name: String,
    pub endpoints: usize,
    pub active: usize,
    pub cooling: usize,
    pub probation: usize,
    pub head: u64,
    pub state: ChainStateLabel,
}

impl ChainSummary {
    pub open spec fn is_for(self, c: ChainView) -> bool {
        &&& self.chain_id == c.chain_id
        &&& self.name@ == c.name
        &&& self.endpoints == c.endpoints.len()
        &&& (self.active as nat, self.cooling as nat, self.probation as nat)
            == crate::registry_model::status_counts(c.endpoints)
        &&& self.head == c.head
        &&& self.state == c.label()
    }

    fn of(c: &ChainState) -> (s: Self)
        ensures
            s.is_for(c@),
    {
        let endpoints = c.endpoints();
        let ghost es = c@.endpoints;
        let mut active: usize = 0;
        let mut cooling: usize = 0;
        let mut probation: usize = 0;
        let mut i: usize = 0;
        assert(es.take(0) =~= Seq::<EndpointView>::empty());
        while i < endpoints.len()
            invariant
                i <= endpoints@.len(),
                es == crate::chain::views(endpoints@),
                active + cooling + probation == i,
                (active as nat, cooling as nat, probation as nat)
                    == crate::registry_model::status_counts(es.take(i as int)),
            decreases endpoints@.len() - i,
        {
            proof {
                assert(es.take(i + 1).drop_last() =~= es.take(i as int));
                assert(es.take(i + 1).last() == endpoints@[i as int]@);
            }
            if endpoints[i].is_active() {
                active = active + 1;
            } else if endpoints[i].is_cooling() {
                cooling = cooling + 1;
            } else {
                probation = probation + 1;
            }
            i = i + 1;
        }
        assert(es.take(es.len() as int) =~= es);
        ChainSummary {
            chain_id: c.chain_id(),
            name: c.name().to_owned(),
            endpoints: endpoints.len(),
            active,
            cooling,
            probation,
            head: c.head(),
            state: c.state_label(),
        }
    }
}

/// How many chains there are of each kind.
#[derive(Clone, Copy, Debug)]
pub struct ChainCounts {
    pub catalog: u64,
    pub pinned: u64,
    pub hot: u64,
    pub dormant: u64,
    pub disabled: u64,
}

/// What is measured of an endpoint in memory.
#[derive(Clone, Debug)]
pub struct EndpointMetricSnapshot {
    pub chain_id: u64,
    pub url: String,
    pub state: &'static str,
    pub stats: EndpointStatsSnapshot,
}

impl EndpointMetricSnapshot {
    pub open spec fn is_for(self, chain_id: u64, e: EndpointView) -> bool {
        &&& self.chain_id == chain_id
        &&& self.url@ == e.url
        &&& self.state@ == crate::registry_model::status_name(e)
        &&& self.stats == e.stats
    }

    fn of(chain_id: u64, e: &Endpoint) -> (s: Self)
        ensures
            s.is_for(chain_id, e@),
    {
        let state = if e.is_active() {
            "active"
        } else if e.is_cooling() {
            "cooling"
        } else {
            "probation"
        };
        EndpointMetricSnapshot { chain_id, url: e.url().to_owned(), state, stats: e.stats() }
    }
}

/// The greatest of the heights once the highest tenth is left out; of three heights or more at least
/// one is left out.
pub fn trimmed_max(heights: &[u64]) -> (h: Option<u64>)
    ensures
        h == crate::registry_model::trimmed_greatest(heights@),
{
    let n: usize = heights.len();
    if n == 0 {
        return None;
    }
    let sorted = order::sorted_numbers(heights);
    let trim: usize = if n < 3 {
        0
    } else if n < 20 {
        1
    } else {
        n / 10
    };
    proof {
        heights@.lemma_sort_by_ensures(|a: u64, b: u64| a <= b);
        sorted@.to_multiset_ensures();
        heights@.to_multiset_ensures();
    }
    Some(sorted[n - 1 - trim])
}

fn recent_heights(c: &ChainState, now: u128, freshness: u128) -> (h: Vec<u64>)
    ensures
        h@ == crate::registry_model::recent_heights(c@.endpoints, now, freshness),
{
    let endpoints = c.endpoints();
    let ghost es = c@.endpoints;
    let mut h: Vec<u64> = Vec::new();
    let mut i: usize = 0;
    assert(es.take(0) =~= Seq::<EndpointView>::empty());
    while i < endpoints.len()
        invariant
            i <= endpoints@.len(),
            es == crate::chain::views(endpoints@),
            h@ == crate::registry_model::recent_heights(es.take(i as int), now, freshness),
        decreases endpoints@.len() - i,
    {
        proof {
            assert(es.take(i + 1).drop_last() =~= es.take(i as int));
            assert(es.take(i + 1).last() == endpoints@[i as int]@);
        }
        if let Some(height) = endpoints[i].recent_height(now, freshness) {
            h.push(height);
        }
        i = i + 1;
    }
    assert(es.take(es.len() as int) =~= es);
    h
}

/// Notes how far each endpoint is from the head of its chain.
fn note_lags(c: &mut ChainState, head: u64, now: u128, freshness: u128)
    ensures
        final(c)@ == (ChainView {
            endpoints: crate::registry_model::with_lags(old(c)@.endpoints, head, now, freshness),
            ..old(c)@
        }),
{
    let ghost start = c@;
    let ghost target = crate::registry_model::with_lags(start.endpoints, head, now, freshness);
    let count: usize = c.endpoints().len();
    let mut i: usize = 0;
    while i < count
        invariant
            i <= count,
            count == start.endpoints.len(),
            target == crate::registry_model::with_lags(start.endpoints, head, now, freshness),
            c@ == (ChainView { endpoints: c@.endpoints, ..start }),
            c@.endpoints.len() == count,
            forall|k: int| 0 <= k < i ==> #[trigger] c@.endpoints[k] == target[k],
            forall|k: int| i <= k < count ==> #[trigger] c@.endpoints[k] == start.endpoints[k],
        decreases count - i,
    {
        let e = c.endpoint_mut(i);
        if let Some(height) = e.recent_height(now, freshness) {
            let lag: u64 = if head > height {
                head - height
            } else {
                height - head
            };
            e.set_lag(lag);
        }
        i = i + 1;
    }
    assert(c@.endpoints =~= target);
}

/// Accounts for the decay of strikes of all endpoints of a chain.
fn decay_chain(c: &mut ChainState, now: u128)
    ensures
        final(c)@ == (ChainView {
            endpoints: old(c)@.endpoints.map_values(|e: EndpointView| e.decayed(now)),
            ..old(c)@
        }),
{
    let ghost start = c@;
    let ghost target = start.endpoints.map_values(|e: EndpointView| e.decayed(now));
    let count: usize = c.endpoints().len();
    let mut i: usize = 0;
    while i < count
        invariant
            i <= count,
            count == start.endpoints.len(),
            target == start.endpoints.map_values(|e: EndpointView| e.decayed(now)),
            c@ == (ChainView { endpoints: c@.endpoints, ..start }),
            c@.endpoints.len() == count,
            forall|k: int| 0 <= k < i ==> #[trigger] c@.endpoints[k] == target[k],
            forall|k: int| i <= k < count ==> #[trigger] c@.endpoints[k] == start.endpoints[k],
        decreases count - i,
    {
        let _ = c.endpoint_mut(i).state(now);
        i = i + 1;
    }
    assert(c@.endpoints =~= target);
}

} // verus!
