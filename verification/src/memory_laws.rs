//! What the registry keeps in memory and hands out: changed endpoints, stored health that is put back, lists
//! and counts of chains.
use crate::chain;
use crate::chain::{ChainStateLabel, ChainView, PlanView};
use crate::endpoint::{EndpointState, EndpointView};
use crate::health::HealthStatus;
use crate::registry::ChainSummary;
use crate::registry_model;
use crate::registry_model::{Demotion, Moment, RegistryView};
use crate::state::{ChainOverrideState, HealthSnapshot};
use vstd::prelude::*;

verus! {

/// Whether a chain has its endpoints in memory.
pub open spec fn serves(c: ChainView) -> bool {
    !c.disabled && (c.pinned || c.last_ingress > 0)
}

/// Whether an endpoint has changed since that was last noted, in a chain that serves.
pub open spec fn has_changed(v: RegistryView, k: u64, i: int) -> bool {
    &&& v.chains.contains_key(k)
    &&& serves(v.chains[k])
    &&& 0 <= i < v.chains[k].endpoints.len()
    &&& v.chains[k].endpoints[i].dirty
}

/// A batch of changed endpoints holds no more than was asked for, none twice, and none that has not
/// changed. Where it is not full, it holds all that have.
pub proof fn lemma_batches_hold_what_has_changed(v: RegistryView, limit: usize, k: u64, i: int)
    requires
        v.wf(),
    ensures
        v.dirty_batch(limit).len() <= limit,
        v.dirty_batch(limit).no_duplicates(),
        v.dirty_batch(limit).contains((k, i)) ==> has_changed(v, k, i),
        v.dirty_batch(limit).len() < limit && has_changed(v, k, i) ==> v.dirty_batch(limit).contains(
            (k, i),
        ),
{
    let all = v.dirty_places();
    let batch = v.dirty_batch(limit);
    registry_model::lemma_dirty_places(v.chains, v.order);
    if batch.contains((k, i)) {
        let n = choose|n: int| 0 <= n < batch.len() && batch[n] == (k, i);
        assert(all[n] == (k, i));
        assert(all.contains((k, i)));
    }
    assert(v.order.contains(k) <==> v.chains.contains_key(k));
    if all.len() >= limit {
        assert forall|a: int, b: int| 0 <= a < b < batch.len() implies batch[a] != batch[b] by {
            assert(all[a] != all[b]);
        }
    }
}

/// What was taken in a batch has not changed any more, and comes in no batch until it changes again;
/// everything else is as it was.
pub proof fn lemma_changes_are_taken_once(
    v: RegistryView,
    limit: usize,
    now: u128,
    k: u64,
    i: int,
    other: usize,
)
    requires
        v.wf(),
        v.chains.contains_key(k),
        0 <= i < v.chains[k].endpoints.len(),
    ensures
        ({
            let batch = v.dirty_batch(limit);
            let w = RegistryView { chains: v.cleaned_chains(batch, now), ..v };
            &&& w.chains.contains_key(k) && w.chains[k].endpoints.len()
                == v.chains[k].endpoints.len()
            &&& batch.contains((k, i)) ==> !w.chains[k].endpoints[i].dirty
            &&& !batch.contains((k, i)) ==> w.chains[k].endpoints[i] == v.chains[k].endpoints[i]
            &&& w.chains[k].endpoints[i].url == v.chains[k].endpoints[i].url
            &&& w.chains[k].last_ingress == v.chains[k].last_ingress && w.chains[k].pinned
                == v.chains[k].pinned && w.chains[k].disabled == v.chains[k].disabled
                && w.chains[k].head == v.chains[k].head
            &&& batch.contains((k, i)) ==> !w.dirty_batch(other).contains((k, i))
        }),
{
    let batch = v.dirty_batch(limit);
    let w = RegistryView { chains: v.cleaned_chains(batch, now), ..v };
    if batch.contains((k, i)) && w.dirty_batch(other).contains((k, i)) {
        let next = w.dirty_batch(other);
        let n = choose|n: int| 0 <= n < next.len() && next[n] == (k, i);
        assert(w.dirty_places()[n] == (k, i));
        assert(w.dirty_places().contains((k, i)));
        registry_model::lemma_dirty_places(w.chains, w.order);
    }
}

/// Stored health is kept by the endpoint it belongs to, and put back into that endpoint where it is in
/// memory; no other endpoint is touched.
pub proof fn lemma_stored_health_is_put_back(
    v: RegistryView,
    list: Seq<HealthSnapshot>,
    s: HealthSnapshot,
    at: Moment,
    i: int,
)
    ensures
        ({
            let before = v.with_health(list, at);
            let after = v.with_health(list.push(s), at);
            let key = crate::keys::key_of(s.chain_id, s.url@);
            &&& after.health.contains_key(key) && after.health[key] == s
            &&& forall|k: Seq<char>|
                k != key ==> (#[trigger] after.health.contains_key(k)
                    <==> before.health.contains_key(k)) && (before.health.contains_key(k)
                    ==> after.health[k] == before.health[k])
            &&& forall|k: u64|
                k != s.chain_id ==> (#[trigger] after.chains.contains_key(k)
                    <==> before.chains.contains_key(k)) && (before.chains.contains_key(k)
                    ==> after.chains[k] == before.chains[k])
            &&& !before.chains.contains_key(s.chain_id) ==> after.chains == before.chains
            &&& before.chains.contains_key(s.chain_id) && stands_first(
                before.chains[s.chain_id].endpoints,
                s.url@,
                i,
            ) ==> {
                let c = before.chains[s.chain_id];
                &&& after.chains.contains_key(s.chain_id)
                &&& after.chains[s.chain_id].endpoints == c.endpoints.update(
                    i,
                    c.endpoints[i].restored(s, at.instant, at.unix),
                )
            }
        }),
        v.with_health(Seq::empty(), at) == v,
{
    assert(list.push(s).drop_last() =~= list);
    let before = v.with_health(list, at);
    if before.chains.contains_key(s.chain_id) && stands_first(
        before.chains[s.chain_id].endpoints,
        s.url@,
        i,
    ) {
        registry_model::lemma_changed_endpoint(
            before,
            s.chain_id,
            s.url@,
            i,
            |e: EndpointView| e.restored(s, at.instant, at.unix),
        );
    }
}

/// Whether a place is the first with a URL.
pub open spec fn stands_first(endpoints: Seq<EndpointView>, url: Seq<char>, i: int) -> bool {
    &&& 0 <= i < endpoints.len()
    &&& endpoints[i].url == url
    &&& forall|k: int| 0 <= k < i ==> (#[trigger] endpoints[k]).url != url
}

/// A batch that could not be stored is handed back: the endpoints count as changed again, and nothing else
/// of them is touched.
pub proof fn lemma_lost_batches_count_as_changed(
    v: RegistryView,
    list: Seq<HealthSnapshot>,
    s: HealthSnapshot,
    i: int,
)
    ensures
        ({
            let before = v.with_dirty(list);
            let after = v.with_dirty(list.push(s));
            &&& !before.chains.contains_key(s.chain_id) ==> after == before
            &&& before.chains.contains_key(s.chain_id) && stands_first(
                before.chains[s.chain_id].endpoints,
                s.url@,
                i,
            ) ==> {
                let c = before.chains[s.chain_id];
                after == (RegistryView {
                    chains: before.chains.insert(
                        s.chain_id,
                        ChainView {
                            endpoints: c.endpoints.update(
                                i,
                                EndpointView { dirty: true, ..c.endpoints[i] },
                            ),
                            ..c
                        },
                    ),
                    ..before
                })
            }
        }),
        v.with_dirty(Seq::empty()) == v,
{
    assert(list.push(s).drop_last() =~= list);
    let before = v.with_dirty(list);
    if before.chains.contains_key(s.chain_id) && stands_first(
        before.chains[s.chain_id].endpoints,
        s.url@,
        i,
    ) {
        registry_model::lemma_changed_endpoint(
            before,
            s.chain_id,
            s.url@,
            i,
            |e: EndpointView| EndpointView { dirty: true, ..e },
        );
    }
}

/// What is stored of an endpoint: where it belongs, what it learned, and its state; strikes and the end of
/// the pause only while it cools.
pub proof fn lemma_what_is_stored_of_an_endpoint(
    e: EndpointView,
    chain_id: u64,
    now: u128,
    now_unix: u64,
    s: HealthSnapshot,
)
    requires
        e.snapshot_is(chain_id, now, now_unix, s),
    ensures
        s.chain_id == chain_id && s.url@ == e.url && s.latency_ewma_us == e.latency && s.lag == e.lag,
        e.health.status is Active ==> s.state@ == "active"@,
        e.health.status is Probation ==> s.state@ == "probation"@,
        e.health.status is Cooling ==> s.state@ == "cooling"@ && s.strikes == e.health.strikes
            && s.cooling_until_unix is Some,
        !(e.health.status is Cooling) ==> s.cooling_until_unix is None && s.strikes == 0,
{
}

/// The lists of chains: those that serve, and those that were asked for with the time of the last request.
pub proof fn lemma_lists_of_chains_in_memory(v: RegistryView, k: u64, t: u64)
    requires
        v.wf(),
    ensures
        v.live_ids().contains(k) <==> v.chains.contains_key(k) && serves(v.chains[k]),
        v.hot_list().contains((k, t)) <==> v.chains.contains_key(k) && t > 0
            && v.chains[k].last_ingress == t,
{
    v.lemma_live(k);
    let asked = v.order.filter(|x: u64| v.chains[x].last_ingress > 0);
    let list = v.hot_list();
    registry_model::lemma_filter_contains(v.order, |x: u64| v.chains[x].last_ingress > 0, k);
    assert(v.order.contains(k) <==> v.chains.contains_key(k));
    if list.contains((k, t)) {
        let n = choose|n: int| 0 <= n < list.len() && list[n] == (k, t);
        assert(asked[n] == k);
        assert(asked.contains(k));
    }
    if asked.contains(k) && v.chains[k].last_ingress == t {
        let n = choose|n: int| 0 <= n < asked.len() && asked[n] == k;
        assert(list[n] == (k, t));
    }
}

/// Every chain in memory has one of the four labels.
pub proof fn lemma_every_chain_is_counted(v: RegistryView)
    ensures
        v.labelled(ChainStateLabel::Pinned) + v.labelled(ChainStateLabel::Hot) + v.labelled(
            ChainStateLabel::Dormant,
        ) + v.labelled(ChainStateLabel::Disabled) == v.order.len(),
{
    lemma_labels_add_up(v.chains, v.order);
}

proof fn lemma_labels_add_up(chains: Map<u64, ChainView>, order: Seq<u64>)
    ensures
        order.filter(|k: u64| chains[k].label() == ChainStateLabel::Pinned).len() + order.filter(
            |k: u64| chains[k].label() == ChainStateLabel::Hot,
        ).len() + order.filter(|k: u64| chains[k].label() == ChainStateLabel::Dormant).len()
            + order.filter(|k: u64| chains[k].label() == ChainStateLabel::Disabled).len()
            == order.len(),
    decreases order.len(),
{
    reveal(Seq::filter);
    if order.len() > 0 {
        lemma_labels_add_up(chains, order.drop_last());
    }
}

/// Which chains of the catalog wait: those that are not in memory and may be taken there.
pub proof fn lemma_which_chains_wait(v: RegistryView, chain_id: u64, n: int)
    ensures
        v.is_waiting(chain_id) <==> !v.chains.contains_key(chain_id) && (v.config.discovery.enabled
            || v.config.chains@.contains(chain_id)),
        v.catalog is None ==> v.waiting(true) == 0 && v.waiting(false) == 0,
        0 <= n <= 0xffff_ffff_ffff_ffff ==> registry_model::no_more_than(n) == n,
        n > 0xffff_ffff_ffff_ffff ==> registry_model::no_more_than(n) == 0xffff_ffff_ffff_ffff,
{
}

/// The list of endpoints holds those of each chain, chain by chain.
pub proof fn lemma_endpoints_chain_by_chain(chains: Map<u64, ChainView>, ids: Seq<u64>, k: u64, i: int)
    ensures
        ({
            let before = registry_model::endpoint_rows(chains, ids);
            let after = registry_model::endpoint_rows(chains, ids.push(k));
            &&& after.len() == before.len() + chains[k].endpoints.len()
            &&& after.take(before.len() as int) == before
            &&& 0 <= i < chains[k].endpoints.len() ==> after[before.len() + i] == (
                k,
                chains[k].endpoints[i],
            )
        }),
        registry_model::endpoint_rows(chains, Seq::empty()).len() == 0,
{
    assert(ids.push(k).drop_last() =~= ids);
    let before = registry_model::endpoint_rows(chains, ids);
    let after = registry_model::endpoint_rows(chains, ids.push(k));
    assert(after.take(before.len() as int) =~= before);
}

/// The summary of a chain counts each of its endpoints once.
pub proof fn lemma_summaries_count_endpoints(s: ChainSummary, c: ChainView)
    requires
        s.is_for(c),
    ensures
        s.chain_id == c.chain_id && s.name@ == c.name && s.head == c.head,
        s.endpoints == c.endpoints.len(),
        s.active + s.cooling + s.probation == s.endpoints,
        s.state is Disabled <==> c.disabled,
        s.state is Pinned <==> !c.disabled && c.pinned,
        s.state is Hot <==> !c.disabled && !c.pinned && c.last_ingress > 0,
{
    crate::shown_laws::lemma_every_endpoint_is_counted(c.endpoints);
}

/// A person who unpins or disables a chain buries it for the automatic choice; no other setting does.
pub proof fn lemma_what_buries_a_chain(value: ChainOverrideState)
    ensures
        value.pinned == Some(false) ==> registry_model::is_tombstone(value),
        value.disabled == Some(true) ==> registry_model::is_tombstone(value),
        value.pinned != Some(false) && value.disabled != Some(true) ==> !registry_model::is_tombstone(
            value,
        ),
{
}

/// Which reason a drop is counted under.
pub proof fn lemma_reasons_of_drops(reason: Seq<char>)
    ensures
        reason == "idle"@ ==> registry_model::demotion_for(reason) == Demotion::Idle,
        reason == "lru"@ ==> registry_model::demotion_for(reason) == Demotion::Lru,
        reason != "idle"@ && reason != "lru"@ ==> registry_model::demotion_for(reason)
            == Demotion::Admin,
{
    reveal_strlit("idle");
    reveal_strlit("lru");
    assert("idle"@.len() != "lru"@.len());
}

/// An endpoint comes from the chain list before the configuration, and from there before runtime settings.
pub proof fn lemma_where_endpoints_come_from(v: RegistryView, chain_id: u64, url: Seq<char>)
    ensures
        v.catalog_urls(chain_id).contains(url) ==> v.endpoint_source(chain_id, url) == "chainlist"@,
        !v.catalog_urls(chain_id).contains(url) && v.extra_urls(chain_id).contains(url)
            ==> v.endpoint_source(chain_id, url) == "config"@,
        !v.catalog_urls(chain_id).contains(url) && !v.extra_urls(chain_id).contains(url)
            ==> v.endpoint_source(chain_id, url) == "runtime"@,
{
}

/// Another automatic choice pins the chains in memory that it names and unpins those that nothing else
/// pins; what the configuration or a person decided stays.
pub proof fn lemma_automatic_choice_pins(v: RegistryView, chosen: Map<u64, bool>, k: u64)
    requires
        v.chains.contains_key(k),
    ensures
        ({
            let w = v.with_auto_pinned(chosen);
            let c = w.chains[k];
            &&& w.chains.contains_key(k) && w.auto_pinned == chosen && w.pinned == v.pinned
            &&& v.config.chains@.contains(k) ==> c.pinned
            &&& !v.config.chains@.contains(k) && v.pinned.contains_key(k) ==> c.pinned == v.pinned[k]
            &&& !v.config.chains@.contains(k) && !v.pinned.contains_key(k) ==> c.pinned == (
            chosen.contains_key(k) && chosen[k])
            &&& c == (ChainView { pinned: c.pinned, ..v.chains[k] })
        }),
{
}

/// The endpoint for an item of a plan: the one that is there, seen now, where its limits are still those
/// asked for, within bounds; else a new one.
pub proof fn lemma_endpoints_stay_while_they_fit(
    item: PlanView,
    previous: Seq<EndpointView>,
    now: u64,
    i: int,
)
    requires
        stands_first(previous, item.url, i),
        1 <= item.rps <= 100,
        1 <= item.concurrency <= 64,
    ensures
        ({
            let e = chain::pooled(item, previous, now);
            let was = previous[i];
            &&& was.rps == item.rps && was.concurrency == item.concurrency ==> e == (EndpointView {
                last_seen: now,
                ..was
            })
            &&& was.rps != item.rps || was.concurrency != item.concurrency ==> e.url == item.url
                && e.rps == item.rps && e.concurrency == item.concurrency && e.health.status == (
            HealthStatus::Probation { passes: 0 }) && e.last_seen == now && e.in_flight == 0
        }),
{
    assert(chain::is_first_with(previous, item.url, i));
    let k = choose|k: int| chain::is_first_with(previous, item.url, k);
    assert(chain::is_first_with(previous, item.url, k));
    assert(k == i) by {
        if k < i {
            assert(previous[k].url != item.url);
        }
        if i < k {
            assert(previous[i].url != item.url);
        }
    }
}

/// Stored health is put back into endpoints that are new or whose limits changed, and into no other.
pub proof fn lemma_health_of_new_endpoints(
    chain_id: u64,
    known: Seq<(Seq<char>, u32, usize)>,
    endpoints: Seq<EndpointView>,
    health: Map<Seq<char>, HealthSnapshot>,
    now: u128,
    now_unix: u64,
    i: int,
)
    requires
        0 <= i < endpoints.len(),
    ensures
        ({
            let e = endpoints[i];
            let key = crate::keys::key_of(chain_id, e.url);
            let after = chain::healed(chain_id, known, endpoints, health, now, now_unix);
            let there = exists|k: int|
                0 <= k < known.len() && #[trigger] known[k] == (e.url, e.rps, e.concurrency);
            &&& after.len() == endpoints.len()
            &&& there || !health.contains_key(key) ==> after[i] == e
            &&& !there && health.contains_key(key) ==> after[i] == e.restored(
                health[key],
                now,
                now_unix,
            )
        }),
{
    let e = endpoints[i];
    let own = (e.url, e.rps, e.concurrency);
    assert(known.contains(own) <==> exists|k: int| 0 <= k < known.len() && #[trigger] known[k] == own);
}

/// The pool after a plan has an endpoint for every URL of the plan that is not barred, rejected or switched
/// off where it first occurs.
pub proof fn lemma_pool_follows_the_plan(
    plan: Seq<PlanView>,
    barred: Set<Seq<char>>,
    rejected: Set<Seq<char>>,
    previous: Seq<EndpointView>,
    now: u64,
    grace: u64,
    n: int,
)
    requires
        0 <= n < plan.len(),
        !barred.contains(plan[n].url),
        !rejected.contains(plan[n].url),
        !plan[n].off,
        forall|k: int| 0 <= k < n ==> (#[trigger] plan[k]).url != plan[n].url,
    ensures
        chain::merged(plan, barred, rejected, previous, now, grace).contains(
            chain::pooled(plan[n], previous, now),
        ),
{
    lemma_planned(plan, barred, rejected, previous, now, n);
    let first = chain::planned(plan, barred, rejected, previous, now);
    let all = chain::merged(plan, barred, rejected, previous, now, grace);
    let e = chain::pooled(plan[n], previous, now);
    let i = choose|i: int| 0 <= i < first.len() && first[i] == e;
    assert(all[i] == e);
}

proof fn lemma_planned(
    plan: Seq<PlanView>,
    barred: Set<Seq<char>>,
    rejected: Set<Seq<char>>,
    previous: Seq<EndpointView>,
    now: u64,
    n: int,
)
    requires
        0 <= n < plan.len(),
        !barred.contains(plan[n].url),
        !rejected.contains(plan[n].url),
        !plan[n].off,
        forall|k: int| 0 <= k < n ==> (#[trigger] plan[k]).url != plan[n].url,
    ensures
        chain::planned(plan, barred, rejected, previous, now).contains(
            chain::pooled(plan[n], previous, now),
        ),
    decreases plan.len(),
{
    let short = plan.drop_last();
    let pool = chain::planned(short, barred, rejected, previous, now);
    let all = chain::planned(plan, barred, rejected, previous, now);
    let e = chain::pooled(plan[n], previous, now);
    if n < short.len() {
        assert(short[n] == plan[n]);
        assert forall|k: int| 0 <= k < n implies (#[trigger] short[k]).url != short[n].url by {
            assert(short[k] == plan[k]);
        }
        lemma_planned(short, barred, rejected, previous, now, n);
        let i = choose|i: int| 0 <= i < pool.len() && pool[i] == e;
        assert(all[i] == e);
    } else {
        assert(plan.last() == plan[n]);
        assert(!chain::present_urls(short, barred, rejected).contains(plan[n].url)) by {
            if exists|k: int| 0 <= k < short.len() && (#[trigger] short[k]).url == plan[n].url {
                let k = choose|k: int|
                    0 <= k < short.len() && (#[trigger] short[k]).url == plan[n].url;
                assert(plan[k] == short[k]);
            }
        }
        assert(all[pool.len() as int] == e);
    }
}

/// How far apart two heights are, whichever is greater.
pub proof fn lemma_distance_of_heights(a: u64, b: u64)
    ensures
        a >= b ==> registry_model::distance(a, b) == a - b,
        registry_model::distance(a, b) == registry_model::distance(b, a),
{
}

/// The distance from the head is noted of every endpoint with a fresh height, and of no other.
pub proof fn lemma_lags_are_noted(
    endpoints: Seq<EndpointView>,
    head: u64,
    now: u128,
    freshness: u128,
    i: int,
)
    requires
        0 <= i < endpoints.len(),
    ensures
        ({
            let after = registry_model::with_lags(endpoints, head, now, freshness);
            let e = endpoints[i];
            &&& after.len() == endpoints.len()
            &&& match e.recent_height(now, freshness) {
                None => after[i] == e,
                Some(h) => after[i] == (EndpointView { lag: after[i].lag, dirty: true, ..e })
                    && after[i].lag == (if head >= h {
                    head - h
                } else {
                    h - head
                }),
            }
        }),
{
}

/// Counters go up by one and start over at the end.
pub proof fn lemma_counters_go_up_by_one(n: u64)
    ensures
        crate::endpoint::counted(n) == (n + 1) % 0x1_0000_0000_0000_0000,
        registry_model::counted(n) == (n + 1) % 0x1_0000_0000_0000_0000,
{
}

/// Looking at the registry fades strikes and changes nothing else.
pub proof fn lemma_looking_only_fades_strikes(v: RegistryView, now: u128, k: u64, i: int)
    requires
        v.chains.contains_key(k),
        0 <= i < v.chains[k].endpoints.len(),
    ensures
        ({
            let w = v.decayed(now);
            let e = v.chains[k].endpoints[i];
            let f = w.chains[k].endpoints[i];
            &&& w.chains.contains_key(k) && w.chains[k].endpoints.len()
                == v.chains[k].endpoints.len()
            &&& f == (EndpointView { health: f.health, ..e })
            &&& f.health.status == e.health.status && f.health.strikes <= e.health.strikes
            &&& f.health.consecutive_faults == e.health.consecutive_faults && f.health.last_fault
                == e.health.last_fault
            &&& w.chains[k] == (ChainView { endpoints: w.chains[k].endpoints, ..v.chains[k] })
            &&& w == (RegistryView { chains: w.chains, ..v })
        }),
        forall|x: u64|
            #[trigger] v.decayed(now).chains.contains_key(x) <==> v.chains.contains_key(x),
{
}

/// What an endpoint is seen as: the state of its health, with strikes and the end of the pause while it
/// cools.
pub proof fn lemma_endpoints_are_seen_as_they_are(e: EndpointView)
    ensures
        e.health.status is Active <==> e.observed_state() is Active,
        e.health.status matches HealthStatus::Probation { passes } ==> e.observed_state()
            == (EndpointState::Probation { passes }),
        e.health.status matches HealthStatus::Cooling { until } ==> e.observed_state()
            == (EndpointState::Cooling { until, strikes: e.health.strikes }),
{
}

/// The endpoints that can be chosen are counted as what they are: those in service, and those on probation.
pub proof fn lemma_choices_are_counted(endpoints: Seq<EndpointView>)
    ensures
        registry_model::places_of(endpoints, true).len() == registry_model::status_counts(endpoints).0,
        registry_model::places_of(endpoints, false).len() == registry_model::status_counts(endpoints).2,
    decreases endpoints.len(),
{
    if endpoints.len() > 0 {
        lemma_choices_are_counted(endpoints.drop_last());
    }
}

/// Where the URLs and the name of a chain come from: the entry that the catalog leads to, and the entry of the
/// configuration; a chain that the catalog does not have goes by its number.
pub proof fn lemma_urls_and_names_of_a_chain(v: RegistryView, chain_id: u64, k: int)
    ensures
        v.catalog matches Some(c) ==> match c.place(chain_id) {
            Some(i) => {
                let listed = c.chains@[i].endpoints@;
                &&& v.catalog_urls(chain_id).len() == listed.len()
                &&& 0 <= k < listed.len() ==> v.catalog_urls(chain_id)[k] == listed[k].url@
                &&& v.catalog_name(chain_id) == c.chains@[i].name@
            },
            None => v.catalog_urls(chain_id).len() == 0 && v.catalog_name(chain_id) == "Chain "@
                + crate::text::decimal_digits(chain_id as nat),
        },
        v.catalog is None ==> v.catalog_urls(chain_id).len() == 0 && v.catalog_name(chain_id)
            == "Chain "@ + crate::text::decimal_digits(chain_id as nat),
        match v.config.override_for(chain_id) {
            Some(o) => {
                &&& v.extra_urls(chain_id).len() == o.extra_endpoints@.len()
                &&& 0 <= k < o.extra_endpoints@.len() ==> v.extra_urls(chain_id)[k]
                    == o.extra_endpoints@[k]@
            },
            None => v.extra_urls(chain_id).len() == 0,
        },
        v.chains.contains_key(chain_id) ==> v.endpoints_of(chain_id) == v.chains[chain_id].endpoints,
        !v.chains.contains_key(chain_id) ==> v.endpoints_of(chain_id).len() == 0,
{
}

/// The configuration bars the URLs that its entry for a chain lists as disabled, and no other.
pub proof fn lemma_barred_urls(v: RegistryView, chain_id: u64, url: Seq<char>)
    ensures
        match v.config.override_for(chain_id) {
            Some(o) => v.barred(chain_id).contains(url) <==> exists|i: int|
                0 <= i < o.disabled_endpoints@.len() && (#[trigger] o.disabled_endpoints@[i])@ == url,
            None => !v.barred(chain_id).contains(url),
        },
{
}

/// The runtime settings of a chain or an endpoint are those that were made, or none.
pub proof fn lemma_settings_that_were_made(v: RegistryView, chain_id: u64, url: Seq<char>)
    ensures
        v.chain_overrides.contains_key(chain_id) ==> v.chain_override(chain_id)
            == v.chain_overrides[chain_id],
        !v.chain_overrides.contains_key(chain_id) ==> v.chain_override(chain_id) == (
        ChainOverrideState {
            pinned: None,
            disabled: None,
            block_time_ms: None,
            confirmation_depth: None,
            tip_ttl_ms: None,
            max_block_lag: None,
        }),
        v.endpoint_override(chain_id, url) is Some <==> v.endpoint_overrides.contains_key(
            crate::keys::key_of(chain_id, url),
        ),
        v.endpoint_override(chain_id, url) matches Some(o) ==> o
            == v.endpoint_overrides[crate::keys::key_of(chain_id, url)],
{
}

/// The plan of a chain names the URLs of the source first, then those of the configuration, then those of
/// runtime settings, each in their order.
pub proof fn lemma_plans_in_order(v: RegistryView, chain_id: u64, source: Seq<Seq<char>>, k: int)
    ensures
        ({
            let plan = v.plan(chain_id, source);
            let extra = v.extra_urls(chain_id);
            let made = registry_model::runtime_urls(v.endpoint_order, v.endpoint_overrides, chain_id);
            let n = source.len() as int;
            let m = n + extra.len();
            &&& plan.len() == m + made.len()
            &&& 0 <= k < n ==> plan[k].url == source[k]
            &&& n <= k < m ==> plan[k].url == extra[k - n]
            &&& m <= k < plan.len() ==> plan[k].url == made[k - m]
        }),
{
}

/// The pool takes the items of a plan in their order, each URL where it first occurs.
pub proof fn lemma_pool_in_order_of_the_plan(
    plan: Seq<PlanView>,
    item: PlanView,
    barred: Set<Seq<char>>,
    rejected: Set<Seq<char>>,
    previous: Seq<EndpointView>,
    now: u64,
)
    ensures
        ({
            let before = chain::planned(plan, barred, rejected, previous, now);
            let after = chain::planned(plan.push(item), barred, rejected, previous, now);
            let named = exists|k: int| 0 <= k < plan.len() && (#[trigger] plan[k]).url == item.url;
            &&& barred.contains(item.url) || rejected.contains(item.url) || item.off || named
                ==> after == before
            &&& !barred.contains(item.url) && !rejected.contains(item.url) && !item.off && !named
                ==> after == before.push(chain::pooled(item, previous, now))
        }),
        chain::planned(Seq::empty(), barred, rejected, previous, now).len() == 0,
{
    assert(plan.push(item).drop_last() =~= plan);
}

/// Behind what the plan asks for the pool keeps, in their order, the endpoints that the plan does not name,
/// that nobody barred or rejected, and that were seen less than the given time ago.
pub proof fn lemma_pool_keeps_the_lingering(
    plan: Seq<PlanView>,
    barred: Set<Seq<char>>,
    rejected: Set<Seq<char>>,
    previous: Seq<EndpointView>,
    e: EndpointView,
    now: u64,
    grace: u64,
)
    ensures
        ({
            let present = chain::present_urls(plan, barred, rejected);
            let before = chain::lingering(previous, present, barred, rejected, now, grace);
            let after = chain::lingering(previous.push(e), present, barred, rejected, now, grace);
            let named = exists|k: int| 0 <= k < plan.len() && (#[trigger] plan[k]).url == e.url;
            let lately = grace > 0 && now - e.last_seen < grace;
            &&& !named && !barred.contains(e.url) && !rejected.contains(e.url) && lately ==> after
                == before.push(e)
            &&& named || barred.contains(e.url) || rejected.contains(e.url) || !lately ==> after
                == before
        }),
        chain::merged(plan, barred, rejected, previous, now, grace) == chain::planned(
            plan,
            barred,
            rejected,
            previous,
            now,
        ) + chain::lingering(
            previous,
            chain::present_urls(plan, barred, rejected),
            barred,
            rejected,
            now,
            grace,
        ),
{
    assert(previous.push(e).drop_last() =~= previous);
}

} // verus!
