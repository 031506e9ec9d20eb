//! What is measured while the program runs.
use crate::endpoint::EndpointStatsSnapshot;
use crate::keys;
use crate::registry::{EndpointMetricSnapshot, Registry};
use crate::registry_model::RegistryView;
use crate::table::{IdTable, KeyTable};
use crate::text;
use vstd::prelude::*;

verus! {

broadcast use {crate::table::IdTable::lemma_slots, crate::table::KeyTable::lemma_slots};

/// What was counted of one chain.
#[derive(Clone, Copy, Debug, PartialEq, Eq, Structural)]
pub struct ChainMetricsSnapshot {
    pub ingress: u64,
    pub cache_lookups: u64,
    pub cache_hits: u64,
    pub cache_misses: u64,
    pub coalesced: u64,
    pub upstream: u64,
    pub user_visible_errors: u64,
    pub cold_start_failures: u64,
    pub hedges: u64,
}

pub open spec fn nothing_counted() -> ChainMetricsSnapshot {
    ChainMetricsSnapshot {
        ingress: 0,
        cache_lookups: 0,
        cache_hits: 0,
        cache_misses: 0,
        coalesced: 0,
        upstream: 0,
        user_visible_errors: 0,
        cold_start_failures: 0,
        hedges: 0,
    }
}

impl Default for ChainMetricsSnapshot {
    fn default() -> (r: Self)
        ensures
            r == nothing_counted(),
    {
        ChainMetricsSnapshot {
            ingress: 0,
            cache_lookups: 0,
            cache_hits: 0,
            cache_misses: 0,
            coalesced: 0,
            upstream: 0,
            user_visible_errors: 0,
            cold_start_failures: 0,
            hedges: 0,
        }
    }
}

/// What was counted of one endpoint, and how it stood when that was last looked at.
#[derive(Clone, Copy, Debug)]
pub struct EndpointSeries {
    pub requests: u64,
    pub rate_limited: u64,
    pub cooling_events: u64,
    pub state: &'static str,
    pub seen: EndpointStatsSnapshot,
}

/// How many chains there are in each state.
#[derive(Clone, Copy, Debug, PartialEq, Eq, Structural)]
pub struct StateCounts {
    pub pinned: u64,
    pub hot: u64,
    pub dormant: u64,
    pub disabled: u64,
}

/// Counts of the registry that have been taken over.
#[derive(Clone, Copy, Debug, PartialEq, Eq, Structural)]
pub struct LifecycleTotals {
    pub activations: u64,
    pub demotions_idle: u64,
    pub demotions_lru: u64,
    pub demotions_admin: u64,
}

pub open spec fn no_totals() -> LifecycleTotals {
    LifecycleTotals { activations: 0, demotions_idle: 0, demotions_lru: 0, demotions_admin: 0 }
}

/// The measurements, as contracts speak of them.
pub ghost struct MetricsView {
    pub chains: Map<u64, ChainMetricsSnapshot>,
    /// Requests to each endpoint, by the series key of chain and URL.
    pub upstream: Map<Seq<char>, u64>,
    pub rejected: Map<Seq<char>, u64>,
    pub in_flight: i64,
    pub endpoints: Map<Seq<char>, EndpointSeries>,
    pub states: StateCounts,
    pub pinned: Map<u64, bool>,
    pub catalog_chains: u64,
    pub catalog_endpoints: u64,
    pub records_skipped: u64,
    pub probe_queue_depth: u64,
    pub probe_in_flight: u64,
    pub auto_chains: u64,
    pub auto_candidates: u64,
    pub auto_promotions: u64,
    pub auto_probe_failures: u64,
    pub last_refresh: u64,
    pub refreshes: Map<Seq<char>, u64>,
    pub activations: u64,
    pub demotions: Map<Seq<char>, u64>,
    pub restarts: Map<Seq<char>, u64>,
    pub store_up: bool,
    pub flushes: Map<Seq<char>, u64>,
    pub dirty_endpoints: u64,
    pub totals: LifecycleTotals,
}

/// The sum of a counter that starts over at its end.
pub open spec fn added(a: u64, b: u64) -> u64 {
    if a + b > u64::MAX {
        (a + b - 0x1_0000_0000_0000_0000) as u64
    } else {
        (a + b) as u64
    }
}

pub open spec fn value_of(m: Map<Seq<char>, u64>, key: Seq<char>) -> u64 {
    if m.contains_key(key) {
        m[key]
    } else {
        0
    }
}

pub open spec fn bumped(m: Map<Seq<char>, u64>, key: Seq<char>, by: u64) -> Map<Seq<char>, u64> {
    m.insert(key, added(value_of(m, key), by))
}

pub open spec fn growth(now: u64, before: u64) -> u64 {
    if now > before {
        (now - before) as u64
    } else {
        0
    }
}

/// The key of what is counted of an endpoint of a chain.
pub open spec fn series_key(chain_id: u64, url: Seq<char>) -> Seq<char> {
    keys::chain_prefix(chain_id) + url
}

/// Different endpoints are counted apart.
pub proof fn lemma_series_are_apart(a: u64, x: Seq<char>, b: u64, y: Seq<char>)
    requires
        series_key(a, x) == series_key(b, y),
    ensures
        a == b,
        x == y,
{
    let p = keys::chain_prefix(a);
    let q = keys::chain_prefix(b);
    keys::lemma_prefixes_are_apart(a, x, b, y);
    assert(series_key(a, x).skip(p.len() as int) =~= x);
    assert(series_key(b, y).skip(q.len() as int) =~= y);
}

fn bump(table: &mut KeyTable<u64>, key: &str, by: u64)
    requires
        old(table).wf(),
    ensures
        final(table).wf(),
        final(table)@ == bumped(old(table)@, key@, by),
{
    let before: u64 = match table.get(key) {
        Some(n) => *n,
        None => 0,
    };
    table.insert(key.to_owned(), before.wrapping_add(by));
}

fn read(table: &KeyTable<u64>, key: &str) -> (n: u64)
    requires
        table.wf(),
    ensures
        n == value_of(table@, key@),
{
    match table.get(key) {
        Some(n) => *n,
        None => 0,
    }
}

pub struct Metrics {
    chains: IdTable<ChainMetricsSnapshot>,
    upstream: KeyTable<u64>,
    rejected: KeyTable<u64>,
    in_flight: i64,
    endpoints: KeyTable<EndpointSeries>,
    states: StateCounts,
    pinned: IdTable<bool>,
    catalog_chains: u64,
    catalog_endpoints: u64,
    records_skipped: u64,
    probe_queue_depth: u64,
    probe_in_flight: u64,
    auto_chains: u64,
    auto_candidates: u64,
    auto_promotions: u64,
    auto_probe_failures: u64,
    last_refresh: u64,
    refreshes: KeyTable<u64>,
    activations: u64,
    demotions: KeyTable<u64>,
    restarts: KeyTable<u64>,
    store_up: bool,
    flushes: KeyTable<u64>,
    dirty_endpoints: u64,
    totals: LifecycleTotals,
}

/// Nothing measured yet.
pub open spec fn no_metrics() -> MetricsView {
    MetricsView {
        chains: Map::empty(),
        upstream: Map::empty(),
        rejected: Map::empty(),
        in_flight: 0,
        endpoints: Map::empty(),
        states: StateCounts { pinned: 0, hot: 0, dormant: 0, disabled: 0 },
        pinned: Map::empty(),
        catalog_chains: 0,
        catalog_endpoints: 0,
        records_skipped: 0,
        probe_queue_depth: 0,
        probe_in_flight: 0,
        auto_chains: 0,
        auto_candidates: 0,
        auto_promotions: 0,
        auto_probe_failures: 0,
        last_refresh: 0,
        refreshes: Map::empty(),
        activations: 0,
        demotions: Map::empty(),
        restarts: Map::empty(),
        store_up: false,
        flushes: Map::empty(),
        dirty_endpoints: 0,
        totals: no_totals(),
    }
}

/// One endpoint as the registry shows it.
pub open spec fn series_after(
    series: EndpointSeries,
    seen: EndpointStatsSnapshot,
    row: EndpointMetricSnapshot,
) -> EndpointSeries {
    EndpointSeries {
        requests: added(
            series.requests,
            growth(row.stats.outbound_requests, seen.outbound_requests),
        ),
        rate_limited: added(series.rate_limited, growth(row.stats.rate_limited, seen.rate_limited)),
        cooling_events: added(
            series.cooling_events,
            growth(row.stats.cooling_events, seen.cooling_events),
        ),
        state: row.state,
        seen: row.stats,
    }
}

pub open spec fn no_series(state: &'static str) -> EndpointSeries {
    EndpointSeries {
        requests: 0,
        rate_limited: 0,
        cooling_events: 0,
        state,
        seen: crate::endpoint::no_stats(),
    }
}

/// What is counted of the endpoints after their state was looked at: only endpoints that are there stay,
/// and what they have done since the last look is added.
pub open spec fn synced(
    known: Map<Seq<char>, EndpointSeries>,
    rows: Seq<EndpointMetricSnapshot>,
) -> Map<Seq<char>, EndpointSeries>
    decreases rows.len(),
{
    if rows.len() == 0 {
        Map::empty()
    } else {
        let done = synced(known, rows.drop_last());
        let row = rows.last();
        let key = series_key(row.chain_id, row.url@);
        let base = if done.contains_key(key) {
            done[key]
        } else if known.contains_key(key) {
            known[key]
        } else {
            no_series(row.state)
        };
        let seen = if known.contains_key(key) {
            known[key].seen
        } else {
            crate::endpoint::no_stats()
        };
        done.insert(key, series_after(base, seen, row))
    }
}

impl MetricsView {
    pub open spec fn chain(self, chain_id: u64) -> ChainMetricsSnapshot {
        if self.chains.contains_key(chain_id) {
            self.chains[chain_id]
        } else {
            nothing_counted()
        }
    }

    pub open spec fn with_chain(self, chain_id: u64, c: ChainMetricsSnapshot) -> MetricsView {
        MetricsView { chains: self.chains.insert(chain_id, c), ..self }
    }

    /// With the counts of the registry taken over.
    pub open spec fn with_lifecycle(
        self,
        v: RegistryView,
        states: StateCounts,
        queued: u64,
        in_flight: u64,
    ) -> MetricsView {
        let idle = bumped(
            self.demotions,
            "idle"@,
            growth(v.idle_demotions, self.totals.demotions_idle),
        );
        let lru = bumped(idle, "lru"@, growth(v.lru_demotions, self.totals.demotions_lru));
        let admin = bumped(lru, "admin"@, growth(v.admin_demotions, self.totals.demotions_admin));
        MetricsView {
            states,
            catalog_chains: v.catalog_chains,
            catalog_endpoints: v.catalog_endpoints,
            probe_queue_depth: queued,
            probe_in_flight: in_flight,
            last_refresh: v.last_refresh,
            pinned: self.pinned.union_prefer_right(
                Map::new(|k: u64| v.chains.contains_key(k), |k: u64| v.chains[k].pinned),
            ),
            activations: added(
                self.activations,
                growth(v.activations, self.totals.activations),
            ),
            demotions: admin,
            totals: LifecycleTotals {
                activations: v.activations,
                demotions_idle: v.idle_demotions,
                demotions_lru: v.lru_demotions,
                demotions_admin: v.admin_demotions,
            },
            ..self
        }
    }
}

impl Metrics {
    pub closed spec fn view(&self) -> MetricsView {
        MetricsView {
            chains: self.chains@,
            upstream: self.upstream@,
            rejected: self.rejected@,
            in_flight: self.in_flight,
            endpoints: self.endpoints@,
            states: self.states,
            pinned: self.pinned@,
            catalog_chains: self.catalog_chains,
            catalog_endpoints: self.catalog_endpoints,
            records_skipped: self.records_skipped,
            probe_queue_depth: self.probe_queue_depth,
            probe_in_flight: self.probe_in_flight,
            auto_chains: self.auto_chains,
            auto_candidates: self.auto_candidates,
            auto_promotions: self.auto_promotions,
            auto_probe_failures: self.auto_probe_failures,
            last_refresh: self.last_refresh,
            refreshes: self.refreshes@,
            activations: self.activations,
            demotions: self.demotions@,
            restarts: self.restarts@,
            store_up: self.store_up,
            flushes: self.flushes@,
            dirty_endpoints: self.dirty_endpoints,
            totals: self.totals,
        }
    }

    pub closed spec fn wf(&self) -> bool {
        &&& self.chains.wf()
        &&& self.upstream.wf()
        &&& self.rejected.wf()
        &&& self.endpoints.wf()
        &&& self.pinned.wf()
        &&& self.refreshes.wf()
        &&& self.demotions.wf()
        &&& self.restarts.wf()
        &&& self.flushes.wf()
    }

    pub fn new() -> (m: Self)
        ensures
            m.wf(),
            m@ == no_metrics(),
    {
        Metrics {
            chains: IdTable::new(),
            upstream: KeyTable::new(),
            rejected: KeyTable::new(),
            in_flight: 0,
            endpoints: KeyTable::new(),
            states: StateCounts { pinned: 0, hot: 0, dormant: 0, disabled: 0 },
            pinned: IdTable::new(),
            catalog_chains: 0,
            catalog_endpoints: 0,
            records_skipped: 0,
            probe_queue_depth: 0,
            probe_in_flight: 0,
            auto_chains: 0,
            auto_candidates: 0,
            auto_promotions: 0,
            auto_probe_failures: 0,
            last_refresh: 0,
            refreshes: KeyTable::new(),
            activations: 0,
            demotions: KeyTable::new(),
            restarts: KeyTable::new(),
            store_up: false,
            flushes: KeyTable::new(),
            dirty_endpoints: 0,
            totals: LifecycleTotals {
                activations: 0,
                demotions_idle: 0,
                demotions_lru: 0,
                demotions_admin: 0,
            },
        }
    }

    /// Hands out what is counted of a chain.
    fn chain_mut(&mut self, chain_id: u64) -> (c: &mut ChainMetricsSnapshot)
        requires
            old(self).wf(),
        ensures
            *c == old(self)@.chain(chain_id),
            final(self).wf(),
            final(self)@ == old(self)@.with_chain(chain_id, *final(c)),
    {
        if !self.chains.contains(chain_id) {
            self.chains.insert(chain_id, ChainMetricsSnapshot::default());
        }
        let ghost ready = self.chains@;
        let c = self.chains.get_mut(chain_id);
        assert(ready.insert(chain_id, *final(c)) =~= old(self).chains@.insert(chain_id, *final(c)));
        c
    }

    pub fn record_ingress(&mut self, chain_id: u64)
        requires
            old(self).wf(),
        ensures
            final(self).wf(),
            final(self)@ == ({
                let c = old(self)@.chain(chain_id);
                old(self)@.with_chain(
                    chain_id,
                    ChainMetricsSnapshot { ingress: added(c.ingress, 1), ..c },
                )
            }),
    {
        let c = self.chain_mut(chain_id);
        c.ingress = c.ingress.wrapping_add(1);
    }

    pub fn record_ingress_rejected(&mut self, reason: &str)
        requires
            old(self).wf(),
        ensures
            final(self).wf(),
            final(self)@ == (MetricsView {
                rejected: bumped(old(self)@.rejected, reason@, 1),
                ..old(self)@
            }),
    {
        bump(&mut self.rejected, reason, 1);
    }

    pub fn in_flight_inc(&mut self)
        requires
            old(self).wf(),
        ensures
            final(self).wf(),
            final(self)@ == (MetricsView {
                in_flight: if old(self)@.in_flight == i64::MAX {
                    i64::MIN
                } else {
                    (old(self)@.in_flight + 1) as i64
                },
                ..old(self)@
            }),
    {
        self.in_flight = if self.in_flight == i64::MAX {
            i64::MIN
        } else {
            self.in_flight + 1
        };
    }

    pub fn in_flight_dec(&mut self)
        requires
            old(self).wf(),
        ensures
            final(self).wf(),
            final(self)@ == (MetricsView {
                in_flight: if old(self)@.in_flight == i64::MIN {
                    i64::MAX
                } else {
                    (old(self)@.in_flight - 1) as i64
                },
                ..old(self)@
            }),
    {
        self.in_flight = if self.in_flight == i64::MIN {
            i64::MAX
        } else {
            self.in_flight - 1
        };
    }

    pub fn record_cache_lookup(&mut self, chain_id: u64, hit: bool)
        requires
            old(self).wf(),
        ensures
            final(self).wf(),
            final(self)@ == ({
                let c = old(self)@.chain(chain_id);
                old(self)@.with_chain(
                    chain_id,
                    ChainMetricsSnapshot {
                        cache_lookups: added(c.cache_lookups, 1),
                        cache_hits: if hit {
                            added(c.cache_hits, 1)
                        } else {
                            c.cache_hits
                        },
                        ..c
                    },
                )
            }),
    {
        let c = self.chain_mut(chain_id);
        c.cache_lookups = c.cache_lookups.wrapping_add(1);
        if hit {
            c.cache_hits = c.cache_hits.wrapping_add(1);
        }
    }

    pub fn record_cache_miss_role(&mut self, chain_id: u64, coalesced: bool)
        requires
            old(self).wf(),
        ensures
            final(self).wf(),
            final(self)@ == ({
                let c = old(self)@.chain(chain_id);
                old(self)@.with_chain(
                    chain_id,
                    ChainMetricsSnapshot {
                        cache_misses: added(c.cache_misses, 1),
                        coalesced: if coalesced {
                            added(c.coalesced, 1)
                        } else {
                            c.coalesced
                        },
                        ..c
                    },
                )
            }),
    {
        let c = self.chain_mut(chain_id);
        c.cache_misses = c.cache_misses.wrapping_add(1);
        if coalesced {
            c.coalesced = c.coalesced.wrapping_add(1);
        }
    }

    pub fn record_upstream(&mut self, chain_id: u64, endpoint: &str)
        requires
            old(self).wf(),
        ensures
            final(self).wf(),
            final(self)@ == ({
                let c = old(self)@.chain(chain_id);
                MetricsView {
                    upstream: bumped(
                        old(self)@.upstream,
                        series_key(chain_id, endpoint@),
                        1,
                    ),
                    ..old(self)@.with_chain(
                        chain_id,
                        ChainMetricsSnapshot { upstream: added(c.upstream, 1), ..c },
                    )
                }
            }),
    {
        let prefix = keys::key_prefix(chain_id);
        let key = text::join(prefix.as_str(), endpoint);
        bump(&mut self.upstream, key.as_str(), 1);
        let c = self.chain_mut(chain_id);
        c.upstream = c.upstream.wrapping_add(1);
    }

    pub fn record_hedge(&mut self, chain_id: u64)
        requires
            old(self).wf(),
        ensures
            final(self).wf(),
            final(self)@ == ({
                let c = old(self)@.chain(chain_id);
                old(self)@.with_chain(
                    chain_id,
                    ChainMetricsSnapshot { hedges: added(c.hedges, 1), ..c },
                )
            }),
    {
        let c = self.chain_mut(chain_id);
        c.hedges = c.hedges.wrapping_add(1);
    }

    pub fn record_user_visible_error(&mut self, chain_id: u64)
        requires
            old(self).wf(),
        ensures
            final(self).wf(),
            final(self)@ == ({
                let c = old(self)@.chain(chain_id);
                old(self)@.with_chain(
                    chain_id,
                    ChainMetricsSnapshot {
                        user_visible_errors: added(c.user_visible_errors, 1),
                        ..c
                    },
                )
            }),
    {
        let c = self.chain_mut(chain_id);
        c.user_visible_errors = c.user_visible_errors.wrapping_add(1);
    }

    pub fn record_cold_start_failure(&mut self, chain_id: u64)
        requires
            old(self).wf(),
        ensures
            final(self).wf(),
            final(self)@ == ({
                let c = old(self)@.chain(chain_id);
                old(self)@.with_chain(
                    chain_id,
                    ChainMetricsSnapshot {
                        cold_start_failures: added(c.cold_start_failures, 1),
                        ..c
                    },
                )
            }),
    {
        let c = self.chain_mut(chain_id);
        c.cold_start_failures = c.cold_start_failures.wrapping_add(1);
    }

    pub fn set_chain_state_counts(&mut self, pinned: u64, hot: u64, dormant: u64, disabled: u64)
        requires
            old(self).wf(),
        ensures
            final(self).wf(),
            final(self)@ == (MetricsView {
                states: StateCounts { pinned, hot, dormant, disabled },
                ..old(self)@
            }),
    {
        self.states = StateCounts { pinned, hot, dormant, disabled };
    }

    pub fn set_chain_pinned(&mut self, chain_id: u64, pinned: bool)
        requires
            old(self).wf(),
        ensures
            final(self).wf(),
            final(self)@ == (MetricsView {
                pinned: old(self)@.pinned.insert(chain_id, pinned),
                ..old(self)@
            }),
    {
        self.pinned.insert(chain_id, pinned);
    }

    pub fn set_catalog_counts(&mut self, chains: u64, endpoints: u64)
        requires
            old(self).wf(),
        ensures
            final(self).wf(),
            final(self)@ == (MetricsView {
                catalog_chains: chains,
                catalog_endpoints: endpoints,
                ..old(self)@
            }),
    {
        self.catalog_chains = chains;
        self.catalog_endpoints = endpoints;
    }

    pub fn record_catalog_records_skipped(&mut self, count: usize)
        requires
            old(self).wf(),
        ensures
            final(self).wf(),
            final(self)@ == (MetricsView {
                records_skipped: added(old(self)@.records_skipped, count as u64),
                ..old(self)@
            }),
    {
        self.records_skipped = self.records_skipped.wrapping_add(count as u64);
    }

    pub fn set_auto_enable_gauges(&mut self, chains: u64, candidates: u64)
        requires
            old(self).wf(),
        ensures
            final(self).wf(),
            final(self)@ == (MetricsView {
                auto_chains: chains,
                auto_candidates: candidates,
                ..old(self)@
            }),
    {
        self.auto_chains = chains;
        self.auto_candidates = candidates;
    }

    pub fn record_auto_enable_promotion(&mut self)
        requires
            old(self).wf(),
        ensures
            final(self).wf(),
            final(self)@ == (MetricsView {
                auto_promotions: added(old(self)@.auto_promotions, 1),
                ..old(self)@
            }),
    {
        self.auto_promotions = self.auto_promotions.wrapping_add(1);
    }

    pub fn record_auto_enable_probe_failures(&mut self, count: u64)
        requires
            old(self).wf(),
        ensures
            final(self).wf(),
            final(self)@ == (MetricsView {
                auto_probe_failures: added(old(self)@.auto_probe_failures, count),
                ..old(self)@
            }),
    {
        self.auto_probe_failures = self.auto_probe_failures.wrapping_add(count);
    }

    pub fn auto_enable_promotions_total(&self) -> (n: u64)
        ensures
            n == self@.auto_promotions,
    {
        self.auto_promotions
    }

    pub fn set_probe_queue_depth(&mut self, depth: u64)
        requires
            old(self).wf(),
        ensures
            final(self).wf(),
            final(self)@ == (MetricsView { probe_queue_depth: depth, ..old(self)@ }),
    {
        self.probe_queue_depth = depth;
    }

    pub fn set_probe_in_flight(&mut self, in_flight: u64)
        requires
            old(self).wf(),
        ensures
            final(self).wf(),
            final(self)@ == (MetricsView { probe_in_flight: in_flight, ..old(self)@ }),
    {
        self.probe_in_flight = in_flight;
    }

    pub fn set_chainlist_last_refresh(&mut self, ts: u64)
        requires
            old(self).wf(),
        ensures
            final(self).wf(),
            final(self)@ == (MetricsView { last_refresh: ts, ..old(self)@ }),
    {
        self.last_refresh = ts;
    }

    pub fn record_chainlist_refresh(&mut self, source: &str)
        requires
            old(self).wf(),
        ensures
            final(self).wf(),
            final(self)@ == (MetricsView {
                refreshes: bumped(old(self)@.refreshes, source@, 1),
                ..old(self)@
            }),
    {
        bump(&mut self.refreshes, source, 1);
    }

    pub fn record_chain_activation(&mut self)
        requires
            old(self).wf(),
        ensures
            final(self).wf(),
            final(self)@ == (MetricsView {
                activations: added(old(self)@.activations, 1),
                ..old(self)@
            }),
    {
        self.activations = self.activations.wrapping_add(1);
    }

    pub fn record_chain_demotion(&mut self, reason: &str)
        requires
            old(self).wf(),
        ensures
            final(self).wf(),
            final(self)@ == (MetricsView {
                demotions: bumped(old(self)@.demotions, reason@, 1),
                ..old(self)@
            }),
    {
        bump(&mut self.demotions, reason, 1);
    }

    pub fn record_background_task_restart(&mut self, task: &str)
        requires
            old(self).wf(),
        ensures
            final(self).wf(),
            final(self)@ == (MetricsView {
                restarts: bumped(old(self)@.restarts, task@, 1),
                ..old(self)@
            }),
    {
        bump(&mut self.restarts, task, 1);
    }

    pub fn background_task_restarts(&self, task: &str) -> (n: u64)
        requires
            self.wf(),
        ensures
            n == value_of(self@.restarts, task@),
    {
        read(&self.restarts, task)
    }

    pub fn set_state_store_up(&mut self, up: bool)
        requires
            old(self).wf(),
        ensures
            final(self).wf(),
            final(self)@ == (MetricsView { store_up: up, ..old(self)@ }),
    {
        self.store_up = up;
    }

    /// Counts a flush of the state by its result.
    pub fn record_state_flush(&mut self, result: &str)
        requires
            old(self).wf(),
        ensures
            final(self).wf(),
            final(self)@ == (MetricsView {
                flushes: bumped(old(self)@.flushes, result@, 1),
                ..old(self)@
            }),
    {
        bump(&mut self.flushes, result, 1);
    }

    pub fn set_state_dirty_endpoints(&mut self, count: usize)
        requires
            old(self).wf(),
        ensures
            final(self).wf(),
            final(self)@ == (MetricsView { dirty_endpoints: count as u64, ..old(self)@ }),
    {
        self.dirty_endpoints = count as u64;
    }

    /// What was counted of a chain.
    pub fn chain_snapshot(&self, chain_id: u64) -> (c: ChainMetricsSnapshot)
        requires
            self.wf(),
        ensures
            c == self@.chain(chain_id),
    {
        match self.chains.get(chain_id) {
            Some(c) => *c,
            None => ChainMetricsSnapshot::default(),
        }
    }

    /// What was counted of all chains.
    pub fn chain_snapshots(&self) -> (list: Vec<(u64, ChainMetricsSnapshot)>)
        requires
            self.wf(),
        ensures
            forall|i: int, j: int|
                0 <= i < j < list@.len() ==> (#[trigger] list@[i]).0 != (#[trigger] list@[j]).0,
            forall|i: int|
                0 <= i < list@.len() ==> self@.chains.contains_key((#[trigger] list@[i]).0)
                    && self@.chains[list@[i].0] == list@[i].1,
            forall|k: u64| #[trigger]
                self@.chains.contains_key(k) ==> exists|i: int|
                    0 <= i < list@.len() && (#[trigger] list@[i]).0 == k,
    {
        let mut list: Vec<(u64, ChainMetricsSnapshot)> = Vec::new();
        let mut i: usize = 0;
        while i < self.chains.len()
            invariant
                i <= self.chains.order().len(),
                self.wf(),
                list@.len() == i,
                forall|k: int|
                    0 <= k < i ==> #[trigger] list@[k] == (
                        self.chains.order()[k],
                        self.chains.items()[k],
                    ),
            decreases self.chains.order().len() - i,
        {
            list.push((self.chains.key_at(i), *self.chains.value_at(i)));
            i = i + 1;
        }
        proof {
            assert forall|a: int, b: int| 0 <= a < b < list@.len() implies (#[trigger] list@[a]).0
                != (#[trigger] list@[b]).0 by {
                assert(self.chains.order()[a] != self.chains.order()[b]);
            }
            assert forall|a: int| 0 <= a < list@.len() implies self@.chains.contains_key(
                (#[trigger] list@[a]).0,
            ) && self@.chains[list@[a].0] == list@[a].1 by {
                assert(self.chains@.contains_key(self.chains.order()[a]));
            }
            assert forall|k: u64| #[trigger] self@.chains.contains_key(k) implies exists|a: int|
                0 <= a < list@.len() && (#[trigger] list@[a]).0 == k by {
                let a = choose|a: int|
                    0 <= a < self.chains.order().len() && self.chains.order()[a] == k;
                assert(list@[a].0 == k);
            }
        }
        list
    }

    pub fn in_flight(&self) -> (n: i64)
        ensures
            n == self@.in_flight,
    {
        self.in_flight
    }

    /// How many requests were turned away, for the reasons that the program turns requests away for.
    pub fn ingress_rejected_total(&self) -> (n: u64)
        requires
            self.wf(),
        ensures
            n == ({
                let r = self@.rejected;
                let a = added(value_of(r, "unknown_chain"@), value_of(r, "chain_disabled"@));
                let b = added(a, value_of(r, "no_endpoints"@));
                let c = added(b, value_of(r, "overload"@));
                let d = added(c, value_of(r, "body_too_large"@));
                added(d, value_of(r, "rate_limited"@))
            }),
    {
        read(&self.rejected, "unknown_chain").wrapping_add(
            read(&self.rejected, "chain_disabled"),
        ).wrapping_add(read(&self.rejected, "no_endpoints")).wrapping_add(
            read(&self.rejected, "overload"),
        ).wrapping_add(read(&self.rejected, "body_too_large")).wrapping_add(
            read(&self.rejected, "rate_limited"),
        )
    }

    fn take_pinned(&mut self, registry: &Registry)
        requires
            old(self).wf(),
            registry.wf(),
        ensures
            final(self).wf(),
            final(self)@ == (MetricsView {
                pinned: old(self)@.pinned.union_prefer_right(
                    Map::new(
                        |k: u64| registry@.chains.contains_key(k),
                        |k: u64| registry@.chains[k].pinned,
                    ),
                ),
                ..old(self)@
            }),
    {
        let list = registry.materialized_chain_pinned();
        let ghost start = self.pinned@;
        let ghost order = registry@.order;
        let ghost fresh = Map::new(
            |k: u64| registry@.chains.contains_key(k),
            |k: u64| registry@.chains[k].pinned,
        );
        let mut i: usize = 0;
        while i < list.len()
            invariant
                i <= list@.len(),
                self.wf(),
                list@ == order.map_values(|k: u64| (k, registry@.chains[k].pinned)),
                self@ == (MetricsView { pinned: self.pinned@, ..old(self)@ }),
                forall|k: u64| #[trigger]
                    self.pinned@.contains_key(k) <==> start.contains_key(k) || order.take(
                        i as int,
                    ).contains(k),
                forall|k: u64| #[trigger]
                    self.pinned@.contains_key(k) ==> self.pinned@[k] == (if order.take(
                        i as int,
                    ).contains(k) {
                        registry@.chains[k].pinned
                    } else {
                        start[k]
                    }),
            decreases list@.len() - i,
        {
            let ghost before = self.pinned@;
            let ghost done = order.take(i as int);
            let (id, pinned): (u64, bool) = list[i];
            self.pinned.insert(id, pinned);
            proof {
                assert(order.take(i + 1) =~= done.push(id));
                assert forall|k: u64| order.take(i + 1).contains(k) <==> #[trigger] done.contains(k)
                    || k == id by {
                    crate::registry_model::lemma_push_contains(done, id, k);
                }
                assert forall|k: u64| #[trigger]
                    self.pinned@.contains_key(k) <==> start.contains_key(k) || order.take(
                    i + 1,
                ).contains(k) by {
                    assert(before.contains_key(k) <==> start.contains_key(k) || done.contains(k));
                    assert(order.take(i + 1).contains(k) <==> done.contains(k) || k == id);
                }
                assert forall|k: u64| #[trigger] self.pinned@.contains_key(k) implies self.pinned@[k]
                    == (if order.take(i + 1).contains(k) {
                    registry@.chains[k].pinned
                } else {
                    start[k]
                }) by {
                    assert(order.take(i + 1).contains(k) <==> done.contains(k) || k == id);
                    if k != id {
                        assert(before.contains_key(k));
                    }
                }
            }
            i = i + 1;
        }
        proof {
            registry.lemma_view_is_wf();
            assert(order.take(order.len() as int) =~= order);
            assert forall|k: u64| #[trigger]
                self.pinned@.contains_key(k) <==> start.union_prefer_right(fresh).contains_key(k) by {
                assert(order.contains(k) <==> registry@.chains.contains_key(k));
            }
            assert forall|k: u64| #[trigger] self.pinned@.contains_key(k) implies self.pinned@[k]
                == start.union_prefer_right(fresh)[k] by {
                assert(order.contains(k) <==> registry@.chains.contains_key(k));
            }
            assert(self.pinned@ =~= start.union_prefer_right(fresh));
        }
    }

    /// Takes over what the registry counts: numbers as they are, and of its counters what they have
    /// grown by since the last time.
    pub fn sync_v2_gauges(&mut self, registry: &Registry, probe_queue_depth: u64, probe_in_flight: u64)
        requires
            old(self).wf(),
            registry.wf(),
        ensures
            final(self).wf(),
            final(self)@ == old(self)@.with_lifecycle(
                registry@,
                final(self)@.states,
                probe_queue_depth,
                probe_in_flight,
            ),
            ({
                let s = final(self)@.states;
                let v = registry@;
                &&& s.pinned == v.labelled(crate::chain::ChainStateLabel::Pinned)
                &&& s.hot == v.labelled(crate::chain::ChainStateLabel::Hot)
                &&& s.dormant == crate::registry_model::no_more_than(
                    (v.labelled(crate::chain::ChainStateLabel::Dormant) + v.waiting(false)) as int,
                )
                &&& s.disabled == crate::registry_model::no_more_than(
                    (v.labelled(crate::chain::ChainStateLabel::Disabled) + v.waiting(true)) as int,
                )
            }),
    {
        let counts = registry.chain_counts();
        self.set_chain_state_counts(counts.pinned, counts.hot, counts.dormant, counts.disabled);
        self.set_catalog_counts(registry.catalog_chain_count(), registry.catalog_endpoint_count());
        self.set_probe_queue_depth(probe_queue_depth);
        self.set_probe_in_flight(probe_in_flight);
        self.set_chainlist_last_refresh(registry.chainlist_last_refresh());
        self.take_pinned(registry);
        let activations: u64 = registry.chain_activations();
        let (idle, lru, admin): (u64, u64, u64) = registry.chain_demotions();
        self.activations = self.activations.wrapping_add(
            activations.saturating_sub(self.totals.activations),
        );
        bump(&mut self.demotions, "idle", idle.saturating_sub(self.totals.demotions_idle));
        bump(&mut self.demotions, "lru", lru.saturating_sub(self.totals.demotions_lru));
        bump(&mut self.demotions, "admin", admin.saturating_sub(self.totals.demotions_admin));
        self.totals = LifecycleTotals {
            activations,
            demotions_idle: idle,
            demotions_lru: lru,
            demotions_admin: admin,
        };
    }

    /// Takes over what the endpoints in memory have done. What was counted of endpoints that are gone is
    /// dropped.
    pub fn take_endpoints(&mut self, rows: &Vec<EndpointMetricSnapshot>)
        requires
            old(self).wf(),
        ensures
            final(self).wf(),
            final(self)@ == (MetricsView {
                endpoints: synced(old(self)@.endpoints, rows@),
                ..old(self)@
            }),
    {
        let ghost known = self.endpoints@;
        let mut current: KeyTable<EndpointSeries> = KeyTable::new();
        let mut i: usize = 0;
        assert(rows@.take(0) =~= Seq::<EndpointMetricSnapshot>::empty());
        while i < rows.len()
            invariant
                i <= rows@.len(),
                self.wf(),
                current.wf(),
                known == self.endpoints@,
                current@ == synced(known, rows@.take(i as int)),
            decreases rows@.len() - i,
        {
            assert(rows@.take(i + 1).drop_last() =~= rows@.take(i as int));
            let row = &rows[i];
            let prefix = keys::key_prefix(row.chain_id);
            let key = text::join(prefix.as_str(), row.url.as_str());
            let seen: EndpointStatsSnapshot = match self.endpoints.get(key.as_str()) {
                Some(s) => s.seen,
                None => EndpointStatsSnapshot::default(),
            };
            let base: EndpointSeries = match current.get(key.as_str()) {
                Some(s) => *s,
                None => match self.endpoints.get(key.as_str()) {
                    Some(s) => *s,
                    None => EndpointSeries {
                        requests: 0,
                        rate_limited: 0,
                        cooling_events: 0,
                        state: row.state,
                        seen: EndpointStatsSnapshot::default(),
                    },
                },
            };
            current.insert(
                key,
                EndpointSeries {
                    requests: base.requests.wrapping_add(
                        row.stats.outbound_requests.saturating_sub(seen.outbound_requests),
                    ),
                    rate_limited: base.rate_limited.wrapping_add(
                        row.stats.rate_limited.saturating_sub(seen.rate_limited),
                    ),
                    cooling_events: base.cooling_events.wrapping_add(
                        row.stats.cooling_events.saturating_sub(seen.cooling_events),
                    ),
                    state: row.state,
                    seen: row.stats,
                },
            );
            i = i + 1;
        }
        assert(rows@.take(rows@.len() as int) =~= rows@);
        self.endpoints = current;
    }

    /// As `take_endpoints`, with the endpoints that the registry has in memory.
    pub fn sync_endpoints(&mut self, registry: &mut Registry, now: u128)
        requires
            old(self).wf(),
            old(registry).wf(),
        ensures
            final(self).wf(),
            final(registry).wf(),
            final(registry)@ == old(registry)@.decayed(now),
            exists|rows: Seq<EndpointMetricSnapshot>|
                is_look(
                    rows,
                    crate::registry_model::endpoint_rows(
                        final(registry)@.chains,
                        crate::order::ascending(old(registry)@.order),
                    ),
                ) && final(self)@ == (MetricsView {
                    endpoints: #[trigger] synced(old(self)@.endpoints, rows),
                    ..old(self)@
                }),
    {
        let rows = registry.endpoint_metric_snapshots(now);
        self.take_endpoints(&rows);
        proof {
            assert(is_look(
                rows@,
                crate::registry_model::endpoint_rows(
                    registry@.chains,
                    crate::order::ascending(old(registry)@.order),
                ),
            ));
        }
    }

    /// What is counted of each endpoint.
    pub fn endpoints(&self) -> (t: &KeyTable<EndpointSeries>)
        requires
            self.wf(),
        ensures
            t.wf(),
            t@ == self@.endpoints,
    {
        &self.endpoints
    }

    /// The requests to each endpoint.
    pub fn upstream(&self) -> (t: &KeyTable<u64>)
        requires
            self.wf(),
        ensures
            t.wf(),
            t@ == self@.upstream,
    {
        &self.upstream
    }

    /// The counters that are kept under a text: requests turned away by reason, refreshes by source,
    /// demotions by reason, restarts by task and flushes by result.
    pub fn named_counters(&self) -> (t: (
        &KeyTable<u64>,
        &KeyTable<u64>,
        &KeyTable<u64>,
        &KeyTable<u64>,
        &KeyTable<u64>,
    ))
        requires
            self.wf(),
        ensures
            t.0.wf() && t.0@ == self@.rejected,
            t.1.wf() && t.1@ == self@.refreshes,
            t.2.wf() && t.2@ == self@.demotions,
            t.3.wf() && t.3@ == self@.restarts,
            t.4.wf() && t.4@ == self@.flushes,
    {
        (&self.rejected, &self.refreshes, &self.demotions, &self.restarts, &self.flushes)
    }

    pub fn states(&self) -> (s: StateCounts)
        ensures
            s == self@.states,
    {
        self.states
    }

    /// Which chains are pinned.
    pub fn pinned(&self) -> (t: &IdTable<bool>)
        requires
            self.wf(),
        ensures
            t.wf(),
            t@ == self@.pinned,
    {
        &self.pinned
    }

    pub fn chain_activations_total(&self) -> (n: u64)
        ensures
            n == self@.activations,
    {
        self.activations
    }

    pub fn catalog_records_skipped_total(&self) -> (n: u64)
        ensures
            n == self@.records_skipped,
    {
        self.records_skipped
    }

    pub fn auto_enable_probe_failures_total(&self) -> (n: u64)
        ensures
            n == self@.auto_probe_failures,
    {
        self.auto_probe_failures
    }

    /// The numbers that stand for themselves: chains and endpoints of the catalog, probes that wait and
    /// that are under way, chains chosen automatically and candidates, the time of the last refresh,
    /// whether the store is up, and endpoints that wait to be stored.
    pub fn plain_gauges(&self) -> (g: (u64, u64, u64, u64, u64, u64, u64, bool, u64))
        ensures
            g == (
                self@.catalog_chains,
                self@.catalog_endpoints,
                self@.probe_queue_depth,
                self@.probe_in_flight,
                self@.auto_chains,
                self@.auto_candidates,
                self@.last_refresh,
                self@.store_up,
                self@.dirty_endpoints,
            ),
    {
        (
            self.catalog_chains,
            self.catalog_endpoints,
            self.probe_queue_depth,
            self.probe_in_flight,
            self.auto_chains,
            self.auto_candidates,
            self.last_refresh,
            self.store_up,
            self.dirty_endpoints,
        )
    }
}

/// The rows show the given endpoints, one for one.
pub open spec fn is_look(
    rows: Seq<EndpointMetricSnapshot>,
    endpoints: Seq<(u64, crate::endpoint::EndpointView)>,
) -> bool {
    &&& rows.len() == endpoints.len()
    &&& forall|i: int|
        0 <= i < rows.len() ==> (#[trigger] rows[i]).is_for(endpoints[i].0, endpoints[i].1)
}

/// Only endpoints that were looked at are still counted.
pub proof fn lemma_gone_endpoints_are_dropped(
    known: Map<Seq<char>, EndpointSeries>,
    rows: Seq<EndpointMetricSnapshot>,
    key: Seq<char>,
)
    ensures
        synced(known, rows).contains_key(key) <==> exists|i: int|
            0 <= i < rows.len() && series_key((#[trigger] rows[i]).chain_id, rows[i].url@) == key,
    decreases rows.len(),
{
    if rows.len() > 0 {
        let short = rows.drop_last();
        lemma_gone_endpoints_are_dropped(known, short, key);
        if exists|i: int|
            0 <= i < short.len() && series_key((#[trigger] short[i]).chain_id, short[i].url@)
                == key {
            let i = choose|i: int|
                0 <= i < short.len() && series_key((#[trigger] short[i]).chain_id, short[i].url@)
                    == key;
            assert(rows[i] == short[i]);
        }
        if exists|i: int|
            0 <= i < rows.len() && series_key((#[trigger] rows[i]).chain_id, rows[i].url@) == key {
            let i = choose|i: int|
                0 <= i < rows.len() && series_key((#[trigger] rows[i]).chain_id, rows[i].url@)
                    == key;
            if i < short.len() {
                assert(short[i] == rows[i]);
            }
        }
        let last = rows[rows.len() - 1];
        if series_key(last.chain_id, last.url@) == key {
            assert(series_key(rows[rows.len() - 1].chain_id, rows[rows.len() - 1].url@) == key);
        }
    }
}

/// Looking twice at counters that have not moved counts nothing twice.
pub proof fn lemma_counters_are_taken_over_once(
    m: MetricsView,
    v: RegistryView,
    states: StateCounts,
    queued: u64,
    in_flight: u64,
)
    ensures
        ({
            let once = m.with_lifecycle(v, states, queued, in_flight);
            let twice = once.with_lifecycle(v, states, queued, in_flight);
            twice.activations == once.activations && twice.demotions == once.demotions
        }),
{
    let once = m.with_lifecycle(v, states, queued, in_flight);
    let twice = once.with_lifecycle(v, states, queued, in_flight);
    reveal_strlit("idle");
    reveal_strlit("lru");
    reveal_strlit("admin");
    assert("idle"@.len() != "lru"@.len());
    assert("idle"@.len() != "admin"@.len());
    assert("lru"@.len() != "admin"@.len());
    assert(twice.demotions =~= once.demotions);
}

} // verus!
