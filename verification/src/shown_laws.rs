//! What is measured and shown: counters add up, every endpoint is counted once, and a row says of a chain
//! what holds of it.
use crate::admin_rows;
use crate::admin_rows::{ChainRow, EndpointRow, PublicChainRow};
use crate::chainlist;
use crate::chainlist::{CatalogChain, CatalogEndpoint};
use crate::endpoint::EndpointView;
use crate::health::HealthStatus;
use crate::metrics;
use crate::metrics::{ChainMetricsSnapshot, EndpointSeries, MetricsView, StateCounts};
use crate::promotion::CandidateProgress;
use crate::registry::{ChainSummary, EndpointMetricSnapshot};
use crate::registry_model;
use crate::registry_model::{Moment, RegistryView};
use vstd::prelude::*;

verus! {

/// Counters wrap around; what has grown is what is above the number before.
pub proof fn lemma_counters_wrap(a: u64, b: u64)
    ensures
        metrics::added(a, b) == (a + b) % 0x1_0000_0000_0000_0000,
        a >= b ==> metrics::growth(a, b) == a - b,
        a <= b ==> metrics::growth(a, b) == 0,
{
}

/// A chain of which nothing was counted shows nothing; any other shows what was counted of it.
pub proof fn lemma_counts_of_a_chain(m: MetricsView, chain_id: u64)
    ensures
        m.chains.contains_key(chain_id) ==> m.chain(chain_id) == m.chains[chain_id],
        !m.chains.contains_key(chain_id) ==> {
            let c = m.chain(chain_id);
            c.ingress == 0 && c.cache_lookups == 0 && c.cache_hits == 0 && c.cache_misses == 0
                && c.coalesced == 0 && c.upstream == 0 && c.user_visible_errors == 0
                && c.cold_start_failures == 0 && c.hedges == 0
        },
{
}

/// One more chain adds its counts to the traffic of the others.
pub proof fn lemma_traffic_adds_up(m: MetricsView, ids: Seq<u64>, id: u64)
    ensures
        ({
            let a = admin_rows::traffic_of(m, ids);
            let b = m.chain(id);
            let sum = admin_rows::traffic_of(m, ids.push(id));
            let n = 0x1_0000_0000_0000_0000int;
            &&& sum.ingress == (a.ingress + b.ingress) % n
            &&& sum.cache_lookups == (a.cache_lookups + b.cache_lookups) % n
            &&& sum.cache_hits == (a.cache_hits + b.cache_hits) % n
            &&& sum.cache_misses == (a.cache_misses + b.cache_misses) % n
            &&& sum.coalesced == (a.coalesced + b.coalesced) % n
            &&& sum.upstream == (a.upstream + b.upstream) % n
            &&& sum.user_visible_errors == (a.user_visible_errors + b.user_visible_errors) % n
            &&& sum.cold_start_failures == (a.cold_start_failures + b.cold_start_failures) % n
            &&& sum.hedges == (a.hedges + b.hedges) % n
        }),
        admin_rows::traffic_of(m, Seq::empty()).ingress == 0,
        admin_rows::traffic_of(m, Seq::empty()).cache_lookups == 0,
        admin_rows::traffic_of(m, Seq::empty()).cache_hits == 0,
        admin_rows::traffic_of(m, Seq::empty()).upstream == 0,
        admin_rows::traffic_of(m, Seq::empty()).user_visible_errors == 0,
{
    assert(ids.push(id).drop_last() =~= ids);
}

/// One more chain adds its endpoints to those of the others: all, active, cooling, on probation.
pub proof fn lemma_endpoint_sums_add_up(list: Seq<ChainSummary>, s: ChainSummary)
    ensures
        ({
            let a = admin_rows::endpoint_sums(list);
            let sum = admin_rows::endpoint_sums(list.push(s));
            let n = 0x1_0000_0000_0000_0000int;
            &&& sum.0 == (a.0 + s.endpoints) % n
            &&& sum.1 == (a.1 + s.active) % n
            &&& sum.2 == (a.2 + s.cooling) % n
            &&& sum.3 == (a.3 + s.probation) % n
        }),
        admin_rows::endpoint_sums(Seq::empty()) == (0u64, 0u64, 0u64, 0u64),
        admin_rows::summary_ids(list.push(s)) == admin_rows::summary_ids(list).push(s.chain_id),
        admin_rows::summary_ids(Seq::empty()) == Seq::<u64>::empty(),
{
    assert(list.push(s).drop_last() =~= list);
    assert(admin_rows::summary_ids(list.push(s)) =~= admin_rows::summary_ids(list).push(
        s.chain_id,
    ));
}

/// Whether no endpoint is listed twice.
pub open spec fn all_different(rows: Seq<EndpointMetricSnapshot>) -> bool {
    forall|i: int, j: int|
        0 <= i < j < rows.len() ==> (#[trigger] rows[i]).chain_id != (#[trigger] rows[j]).chain_id
            || rows[i].url@ != rows[j].url@
}

/// What an endpoint has done since it was last looked at is added to what was counted of it; all that a new
/// one has done is.
pub proof fn lemma_endpoints_are_counted_by_growth(
    known: Map<Seq<char>, EndpointSeries>,
    rows: Seq<EndpointMetricSnapshot>,
    i: int,
)
    requires
        0 <= i < rows.len(),
        all_different(rows),
    ensures
        ({
            let row = rows[i];
            let key = metrics::series_key(row.chain_id, row.url@);
            let after = metrics::synced(known, rows);
            &&& after.contains_key(key)
            &&& after[key].state == row.state
            &&& after[key].seen == row.stats
            &&& !known.contains_key(key) ==> after[key].requests == row.stats.outbound_requests
                && after[key].rate_limited == row.stats.rate_limited && after[key].cooling_events
                == row.stats.cooling_events
            &&& known.contains_key(key) ==> {
                let was = known[key];
                let n = 0x1_0000_0000_0000_0000int;
                &&& row.stats.outbound_requests >= was.seen.outbound_requests
                    ==> after[key].requests == (was.requests + (row.stats.outbound_requests
                    - was.seen.outbound_requests)) % n
                &&& row.stats.outbound_requests < was.seen.outbound_requests
                    ==> after[key].requests == was.requests
                &&& row.stats.rate_limited >= was.seen.rate_limited ==> after[key].rate_limited == (
                was.rate_limited + (row.stats.rate_limited - was.seen.rate_limited)) % n
                &&& row.stats.rate_limited < was.seen.rate_limited ==> after[key].rate_limited
                    == was.rate_limited
                &&& row.stats.cooling_events >= was.seen.cooling_events
                    ==> after[key].cooling_events == (was.cooling_events + (
                row.stats.cooling_events - was.seen.cooling_events)) % n
                &&& row.stats.cooling_events < was.seen.cooling_events
                    ==> after[key].cooling_events == was.cooling_events
            }
        }),
    decreases rows.len(),
{
    let short = rows.drop_last();
    let last = rows.last();
    let key = metrics::series_key(rows[i].chain_id, rows[i].url@);
    let end = metrics::series_key(last.chain_id, last.url@);
    assert(all_different(short)) by {
        assert forall|a: int, b: int| 0 <= a < b < short.len() implies (#[trigger] short[a]).chain_id
            != (#[trigger] short[b]).chain_id || short[a].url@ != short[b].url@ by {
            assert(short[a] == rows[a] && short[b] == rows[b]);
        }
    }
    if i < rows.len() - 1 {
        assert(short[i] == rows[i]);
        lemma_endpoints_are_counted_by_growth(known, short, i);
        if key == end {
            metrics::lemma_series_are_apart(rows[i].chain_id, rows[i].url@, last.chain_id, last.url@);
            assert(rows[rows.len() - 1] == last);
        }
    } else {
        metrics::lemma_gone_endpoints_are_dropped(known, short, end);
        if metrics::synced(known, short).contains_key(end) {
            let k = choose|k: int|
                0 <= k < short.len() && metrics::series_key(
                    (#[trigger] short[k]).chain_id,
                    short[k].url@,
                ) == end;
            metrics::lemma_series_are_apart(
                short[k].chain_id,
                short[k].url@,
                last.chain_id,
                last.url@,
            );
            assert(rows[k] == short[k] && rows[i] == last);
        }
    }
}

/// What is taken over from the registry: the counts of now, and what its counters have grown by, each under
/// its own reason. What is counted of requests stays.
pub proof fn lemma_registry_counts_are_taken_over(
    m: MetricsView,
    v: RegistryView,
    states: StateCounts,
    queued: u64,
    in_flight: u64,
)
    ensures
        ({
            let after = m.with_lifecycle(v, states, queued, in_flight);
            let n = 0x1_0000_0000_0000_0000int;
            let had = |k: Seq<char>| if m.demotions.contains_key(k) {
                m.demotions[k] as int
            } else {
                0
            };
            let grown = |now: u64, before: u64| if now >= before {
                now - before
            } else {
                0
            };
            &&& after.states == states
            &&& after.catalog_chains == v.catalog_chains && after.catalog_endpoints
                == v.catalog_endpoints
            &&& after.probe_queue_depth == queued && after.probe_in_flight == in_flight
            &&& after.last_refresh == v.last_refresh
            &&& after.activations == (m.activations + grown(v.activations, m.totals.activations))
                % n
            &&& after.demotions.contains_key("idle"@) && after.demotions["idle"@] == (had("idle"@)
                + grown(v.idle_demotions, m.totals.demotions_idle)) % n
            &&& after.demotions.contains_key("lru"@) && after.demotions["lru"@] == (had("lru"@)
                + grown(v.lru_demotions, m.totals.demotions_lru)) % n
            &&& after.demotions.contains_key("admin"@) && after.demotions["admin"@] == (had("admin"@)
                + grown(v.admin_demotions, m.totals.demotions_admin)) % n
            &&& after.totals.activations == v.activations && after.totals.demotions_idle
                == v.idle_demotions && after.totals.demotions_lru == v.lru_demotions
                && after.totals.demotions_admin == v.admin_demotions
            &&& after.chains == m.chains && after.upstream == m.upstream && after.rejected
                == m.rejected && after.in_flight == m.in_flight && after.endpoints == m.endpoints
            &&& after.records_skipped == m.records_skipped && after.refreshes == m.refreshes
                && after.restarts == m.restarts && after.store_up == m.store_up && after.flushes
                == m.flushes && after.dirty_endpoints == m.dirty_endpoints
            &&& after.auto_chains == m.auto_chains && after.auto_candidates == m.auto_candidates
                && after.auto_promotions == m.auto_promotions && after.auto_probe_failures
                == m.auto_probe_failures
            &&& forall|k: u64| #[trigger]
                v.chains.contains_key(k) ==> after.pinned.contains_key(k) && after.pinned[k]
                    == v.chains[k].pinned
            &&& forall|k: u64|
                !(#[trigger] v.chains.contains_key(k)) ==> (after.pinned.contains_key(k)
                    <==> m.pinned.contains_key(k)) && (m.pinned.contains_key(k) ==> after.pinned[k]
                    == m.pinned[k])
        }),
{
    reveal_strlit("idle");
    reveal_strlit("lru");
    reveal_strlit("admin");
    assert("idle"@.len() != "lru"@.len());
    assert("idle"@.len() != "admin"@.len());
    assert("lru"@.len() != "admin"@.len());
}

/// One more endpoint counts once, under the state it is in.
pub proof fn lemma_endpoints_are_counted_by_state(list: Seq<EndpointView>, e: EndpointView)
    ensures
        ({
            let a = registry_model::status_counts(list);
            let b = registry_model::status_counts(list.push(e));
            &&& b.0 == a.0 + (if e.health.status is Active {
                1nat
            } else {
                0
            })
            &&& b.1 == a.1 + (if e.health.status is Cooling {
                1nat
            } else {
                0
            })
            &&& b.2 == a.2 + (if e.health.status is Probation {
                1nat
            } else {
                0
            })
        }),
        registry_model::status_counts(Seq::empty()) == (0nat, 0nat, 0nat),
{
    assert(list.push(e).drop_last() =~= list);
}

/// Every endpoint is in one of the three states.
pub proof fn lemma_every_endpoint_is_counted(list: Seq<EndpointView>)
    ensures
        ({
            let c = registry_model::status_counts(list);
            c.0 + c.1 + c.2 == list.len()
        }),
    decreases list.len(),
{
    if list.len() > 0 {
        lemma_every_endpoint_is_counted(list.drop_last());
    }
}

/// What a row says of the state of its chain: denied chains are disabled, chains in memory say how they
/// are, and any other chain is dormant unless a runtime setting disables it.
pub proof fn lemma_state_of_a_chain(v: RegistryView, chain_id: u64)
    ensures
        ({
            let says = admin_rows::state_of(v, chain_id);
            let denied = v.config.discovery.deny@.contains(chain_id);
            &&& denied ==> says == "disabled"@
            &&& !denied && v.chains.contains_key(chain_id) ==> {
                let c = v.chains[chain_id];
                &&& c.disabled ==> says == "disabled"@
                &&& !c.disabled && c.pinned ==> says == "pinned"@
                &&& !c.disabled && !c.pinned && c.last_ingress > 0 ==> says == "hot"@
                &&& !c.disabled && !c.pinned && c.last_ingress == 0 ==> says == "dormant"@
            }
            &&& !denied && !v.chains.contains_key(chain_id) && v.chain_override(chain_id).disabled
                == Some(true) ==> says == "disabled"@
            &&& !denied && !v.chains.contains_key(chain_id) && v.chain_override(chain_id).disabled
                != Some(true) ==> says == "dormant"@
        }),
{
}

/// What pins a chain: the configuration before a person, and a person before the automatic choice.
pub proof fn lemma_what_pins_a_chain(v: RegistryView, chain_id: u64)
    ensures
        ({
            let says = admin_rows::pin_source_of(v, chain_id);
            let by_hand = v.pinned.contains_key(chain_id) && v.pinned[chain_id];
            &&& v.config.chains@.contains(chain_id) ==> says == Some("config"@)
            &&& !v.config.chains@.contains(chain_id) && by_hand ==> says == Some("manual"@)
            &&& !v.config.chains@.contains(chain_id) && !by_hand && v.auto_pinned.contains_key(
                chain_id,
            ) ==> says == Some("auto"@)
            &&& !v.config.chains@.contains(chain_id) && !by_hand && !v.auto_pinned.contains_key(
                chain_id,
            ) ==> says is None
        }),
{
}

/// What a row says of its chain, each from where it belongs.
pub proof fn lemma_row_says_what_holds(
    row: ChainRow,
    v: RegistryView,
    m: MetricsView,
    progress: Map<u64, CandidateProgress>,
    chain_id: u64,
    detailed: bool,
    at: Moment,
)
    requires
        row.is_for(v, m, progress, chain_id, detailed, at),
    ensures
        row.chain_id == chain_id,
        row.active + row.cooling + row.probation == row.endpoints,
        row.pinned <==> row.state@ == "pinned"@,
        row.disabled <==> row.state@ == "disabled"@,
        row.endpoint_rows is Some <==> detailed,
        v.chains.contains_key(chain_id) ==> row.head == v.chains[chain_id].head
            && row.last_ingress_unix == v.chains[chain_id].last_ingress && row.endpoints
            == v.chains[chain_id].endpoints.len(),
        !v.chains.contains_key(chain_id) ==> row.head == 0 && row.last_ingress_unix == 0
            && row.endpoints == 0 && row.active == 0,
        row.auto_candidate is Some <==> progress.contains_key(chain_id),
        row.auto_candidate matches Some(p) ==> p == progress[chain_id],
        m.chains.contains_key(chain_id) ==> {
            let c = m.chains[chain_id];
            row.ingress_total == c.ingress && row.cache_hits_total == c.cache_hits
                && row.cache_lookups_total == c.cache_lookups && row.upstream_total == c.upstream
                && row.user_visible_errors_total == c.user_visible_errors
        },
        !m.chains.contains_key(chain_id) ==> row.ingress_total == 0 && row.cache_hits_total == 0
            && row.cache_lookups_total == 0 && row.upstream_total == 0
            && row.user_visible_errors_total == 0,
        v.catalog matches Some(c) ==> (c.place(chain_id) matches Some(i) ==> {
            let entry = c.chains@[i];
            &&& row.name@ == entry.name@ && row.is_testnet == entry.is_testnet
            &&& row.catalog_endpoints == entry.endpoints@.len()
            &&& row.short_name is Some <==> entry.short_name is Some
            &&& row.short_name matches Some(s) ==> s@ == entry.short_name->0@
            &&& row.status is Some <==> entry.status is Some
            &&& row.status matches Some(s) ==> s@ == entry.status->0@
        }),
        row.settings.block_time_ms == v.settings(chain_id).0,
        row.settings.confirmation_depth == v.settings(chain_id).1,
        row.settings.tip_ttl_ms == v.settings(chain_id).2,
        row.settings.max_block_lag == v.settings(chain_id).3,
{
    lemma_every_endpoint_is_counted(v.endpoints_of(chain_id));
}

/// What a row says of an endpoint in memory: a cooling one shows its strikes and when its pause ends, one on
/// probation the probes it has passed, an active one neither.
pub proof fn lemma_endpoint_row_says_what_holds(
    row: EndpointRow,
    v: RegistryView,
    chain_id: u64,
    e: EndpointView,
    at: Moment,
)
    requires
        row.shows(v, chain_id, e, at),
    ensures
        row.url@ == e.url && row.latency_ewma_us == e.latency && row.lag == e.lag && row.rps == e.rps
            && row.concurrency == e.concurrency && !row.disabled && row.stats == e.stats,
        e.health.status is Active ==> row.state@ == "active"@ && row.strikes == 0
            && row.cooling_until_unix is None,
        e.health.status matches HealthStatus::Probation { passes } ==> row.state@ == "probation"@
            && row.strikes == passes && row.cooling_until_unix is None,
        e.health.status is Cooling ==> row.state@ == "cooling"@ && row.strikes == e.health.strikes
            && row.cooling_until_unix is Some,
{
}

/// The first entry of the catalog with the URL says whether an endpoint tracks its users.
pub proof fn lemma_first_entry_tells_of_tracking(list: Seq<CatalogEndpoint>, u: Seq<char>, i: int)
    requires
        0 <= i <= list.len(),
        forall|k: int| 0 <= k < i ==> (#[trigger] list[k]).url@ != u,
        i < list.len() ==> list[i].url@ == u,
    ensures
        i == list.len() ==> admin_rows::tracking_in(list, u) is None,
        i < list.len() ==> match list[i].tracking {
            Some(t) => admin_rows::tracking_in(list, u) == Some(t@),
            None => admin_rows::tracking_in(list, u) is None,
        },
    decreases i,
{
    if i > 0 {
        let rest = list.skip(1);
        assert(list[0].url@ != u);
        assert forall|k: int| 0 <= k < i - 1 implies (#[trigger] rest[k]).url@ != u by {
            assert(rest[k] == list[k + 1]);
        }
        lemma_first_entry_tells_of_tracking(rest, u, i - 1);
    }
}

/// The rows of the endpoints of a chain: first those in memory in their order, none of them disabled, then
/// the disabled ones.
pub proof fn lemma_endpoint_rows_in_order(
    rows: Seq<EndpointRow>,
    v: RegistryView,
    chain_id: u64,
    at: Moment,
    i: int,
)
    requires
        admin_rows::are_endpoint_rows(rows, v, chain_id, at),
        0 <= i < rows.len(),
    ensures
        ({
            let n = if v.chains.contains_key(chain_id) {
                v.chains[chain_id].endpoints.len() as int
            } else {
                0
            };
            &&& i < n ==> rows[i].url@ == v.chains[chain_id].endpoints[i].url && !rows[i].disabled
            &&& i >= n ==> rows[i].disabled && rows[i].state@ == "disabled"@
            &&& n <= rows.len()
        }),
{
    let es = v.endpoints_of(chain_id);
    if i < es.len() {
        assert(rows[i].shows(v, chain_id, es[i], at));
    } else {
        let off = registry_model::switched_off_urls(
            v.endpoint_order,
            v.endpoint_overrides,
            chain_id,
        );
        assert(rows[i].shows_off(v, chain_id, v.plan_item(chain_id, off[i - es.len()])));
    }
}

/// The list of chains names every chain of the catalog once, in ascending order; with one asked for, that
/// one alone.
pub proof fn lemma_every_chain_is_listed(ids: Seq<u64>, chains: Seq<CatalogChain>, only: Option<u64>, i: int)
    requires
        admin_rows::are_shown_ids(ids, chains, only),
        0 <= i < chains.len(),
    ensures
        ids.no_duplicates(),
        only is None || only == Some(chains[i].chain_id) ==> ids.contains(chains[i].chain_id),
        only is Some ==> ids.len() <= 1,
        only matches Some(k) ==> (ids.len() == 1 ==> ids[0] == k),
{
    let k = chains[i].chain_id;
    assert(ids.contains(k) <==> (only matches Some(id) ==> k == id) && exists|a: int|
        0 <= a < chains.len() && (#[trigger] chains[a]).chain_id == k);
    if only is Some && ids.len() > 0 {
        assert(ids.contains(ids[0]));
        if ids.len() > 1 {
            assert(ids.contains(ids[1]));
            assert(ids[0] < ids[1]);
        }
    }
}

/// The public sees of a chain whether it can be used, and the same numbers as the row it is drawn from; the
/// link of an explorer is shown only where it can be followed.
pub proof fn lemma_what_the_public_sees(r: PublicChainRow, row: ChainRow, c: Option<CatalogChain>)
    requires
        r.is_for(row, c),
    ensures
        (row.state@ == "pinned"@ || row.state@ == "hot"@) && row.active > 0 ==> r.state@
            == "available"@,
        !((row.state@ == "pinned"@ || row.state@ == "hot"@) && row.active > 0) ==> r.state@
            == "unverified"@,
        r.chain_id == row.chain_id && r.name@ == row.name@ && r.short_name == row.short_name
            && r.is_testnet == row.is_testnet && r.status == row.status && r.catalog_endpoints
            == row.catalog_endpoints && r.endpoints == row.endpoints && r.active == row.active
            && r.head == row.head && r.ingress_total == row.ingress_total && r.cache_hits_total
            == row.cache_hits_total && r.cache_lookups_total == row.cache_lookups_total,
        c is None ==> r.native_symbol is None && r.explorer_url is None,
        c matches Some(chain) ==> {
            &&& r.native_symbol is Some <==> chain.native_symbol is Some
            &&& r.native_symbol matches Some(s) ==> s@ == chain.native_symbol->0@
            &&& r.explorer_url is Some <==> chain.explorer_url is Some && crate::url::shown_link(
                chain.explorer_url->0@,
            )
            &&& r.explorer_url matches Some(s) ==> s@ == chain.explorer_url->0@
        },
{
}

/// The public sees the chains in the order of the list.
pub proof fn lemma_public_list_keeps_the_order(rows: Seq<ChainRow>, i: int, j: int)
    requires
        0 <= i < j < admin_rows::visible_places(rows).len(),
    ensures
        0 <= admin_rows::visible_places(rows)[i] < admin_rows::visible_places(rows)[j] < rows.len(),
    decreases rows.len(),
{
    let places = admin_rows::visible_places(rows);
    let short = rows.drop_last();
    if j < admin_rows::visible_places(short).len() {
        lemma_public_list_keeps_the_order(short, i, j);
    } else {
        admin_rows::lemma_public_sees_all_but_disabled(short, places[i]);
        assert(admin_rows::visible_places(short)[i] == places[i]);
        assert(admin_rows::visible_places(short).contains(places[i]));
    }
}

/// Counting under one key adds to what was counted under it, and leaves every other key.
pub proof fn lemma_keys_are_counted_apart(
    m: Map<Seq<char>, u64>,
    key: Seq<char>,
    by: u64,
    other: Seq<char>,
)
    ensures
        ({
            let after = metrics::bumped(m, key, by);
            &&& after.contains_key(key)
            &&& m.contains_key(key) ==> after[key] == (m[key] + by) % 0x1_0000_0000_0000_0000
            &&& !m.contains_key(key) ==> after[key] == by
            &&& other != key ==> (after.contains_key(other) <==> m.contains_key(other)) && (
            m.contains_key(other) ==> after[other] == m[other])
        }),
        m.contains_key(key) ==> metrics::value_of(m, key) == m[key],
        !m.contains_key(key) ==> metrics::value_of(m, key) == 0,
{
}

/// What is counted of one chain leaves what is counted of the others.
pub proof fn lemma_chains_are_counted_apart(
    m: MetricsView,
    chain_id: u64,
    c: ChainMetricsSnapshot,
    other: u64,
)
    requires
        other != chain_id,
    ensures
        m.with_chain(chain_id, c).chain(chain_id) == c,
        m.with_chain(chain_id, c).chain(other) == m.chain(other),
        m.with_chain(chain_id, c) == (MetricsView {
            chains: m.with_chain(chain_id, c).chains,
            ..m
        }),
{
}

/// Before anything is measured every count is zero, no chain has one, and the store is not up.
pub proof fn lemma_nothing_is_measured_at_first(key: u64)
    ensures
        ({
            let m = metrics::no_metrics();
            &&& !m.chains.contains_key(key) && m.in_flight == 0
            &&& m.upstream.is_empty() && m.rejected.is_empty() && m.endpoints.is_empty()
            &&& m.states.pinned == 0 && m.states.hot == 0 && m.states.dormant == 0
                && m.states.disabled == 0
            &&& m.pinned.is_empty() && m.refreshes.is_empty() && m.demotions.is_empty()
            &&& m.restarts.is_empty() && m.flushes.is_empty()
            &&& m.catalog_chains == 0 && m.catalog_endpoints == 0 && m.records_skipped == 0
            &&& m.probe_queue_depth == 0 && m.probe_in_flight == 0
            &&& m.auto_chains == 0 && m.auto_candidates == 0 && m.auto_promotions == 0
                && m.auto_probe_failures == 0
            &&& m.last_refresh == 0 && m.activations == 0 && m.dirty_endpoints == 0
            &&& m.totals.activations == 0 && m.totals.demotions_idle == 0
                && m.totals.demotions_lru == 0 && m.totals.demotions_admin == 0
            &&& !m.store_up
        }),
{
}

/// The counts of a chain and of an endpoint start at zero.
pub proof fn lemma_counts_start_at_zero()
    ensures
        ({
            let c = metrics::nothing_counted();
            &&& c.ingress == 0 && c.upstream == 0 && c.user_visible_errors == 0
            &&& c.cache_lookups == 0 && c.cache_hits == 0 && c.cache_misses == 0
            &&& c.coalesced == 0 && c.cold_start_failures == 0 && c.hedges == 0
        }),
        ({
            let e = crate::endpoint::no_stats();
            &&& e.outbound_requests == 0 && e.failures == 0 && e.rate_limited == 0
            &&& e.cooling_events == 0 && e.probe_successes == 0
        }),
{
}

} // verus!
