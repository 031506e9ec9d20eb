//! What the life of a chain in memory is for: known chains come into memory with all their endpoints, the
//! ones that nobody asks for leave it, and pinned ones stay.
use crate::chain::{ChainView, PlanView};
use crate::chainlist::ChainEndpoints;
use crate::endpoint::EndpointView;
use crate::registry_model::{Demotion, Moment, RegistryView};
use vstd::prelude::*;

verus! {

/// In memory because it was asked for: neither off nor there for good.
pub open spec fn is_warm(c: ChainView) -> bool {
    !c.disabled && !c.pinned && c.last_ingress > 0
}

/// A chain is there for good by the configuration, else by what somebody said of its pin, else by the
/// automatic choice.
pub open spec fn is_kept(v: RegistryView, chain_id: u64) -> bool {
    if v.config.chains@.contains(chain_id) {
        true
    } else if v.pinned.contains_key(chain_id) {
        v.pinned[chain_id]
    } else {
        v.auto_pinned.contains_key(chain_id) && v.auto_pinned[chain_id]
    }
}

/// What a chain is called: disabled before anything else, then pinned, then hot where it was asked for,
/// and dormant where it was not. Its endpoints are in memory where it is pinned or hot.
pub proof fn lemma_labels(c: ChainView)
    ensures
        c.disabled ==> c.label() is Disabled,
        !c.disabled && c.pinned ==> c.label() is Pinned,
        is_warm(c) ==> c.label() is Hot,
        !c.disabled && !c.pinned && c.last_ingress == 0 ==> c.label() is Dormant,
        c.is_live() <==> !c.disabled && (c.pinned || c.last_ingress > 0),
{
}

/// A request for a chain that serves notes when it was asked for and changes nothing else; a request for a
/// disabled one changes nothing.
pub proof fn lemma_request_only_notes_the_time(v: RegistryView, chain_id: u64, at: Moment)
    requires
        v.chains.contains_key(chain_id),
        v.chains[chain_id].disabled || v.chains[chain_id].pinned || v.chains[chain_id].last_ingress
            > 0,
    ensures
        v.chains[chain_id].disabled ==> v.resolved(chain_id, at) == v,
        !v.chains[chain_id].disabled ==> v.resolved(chain_id, at) == (RegistryView {
            chains: v.chains.insert(
                chain_id,
                ChainView { last_ingress: at.unix, ..v.chains[chain_id] },
            ),
            ..v
        }),
{
}

/// A request for a chain that is neither in memory nor configured, kept, denied or open by discovery
/// changes nothing.
pub proof fn lemma_strangers_are_turned_away(v: RegistryView, chain_id: u64, at: Moment)
    requires
        !is_kept(v, chain_id),
        !v.config.discovery.deny@.contains(chain_id),
        !v.config.discovery.enabled || v.catalog is None || v.catalog->0.place(chain_id) is None,
        v.chains.contains_key(chain_id) ==> !v.chains[chain_id].disabled
            && !v.chains[chain_id].pinned && v.chains[chain_id].last_ingress == 0,
    ensures
        v.resolved(chain_id, at) == v,
        !v.knows(chain_id),
{
}

/// A chain that is kept, or that the catalog has while discovery is on, is taken into memory by the first
/// request: asked for now, kept or not as it should be, disabled only by a setting, with no head, nothing
/// rejected and no endpoint in service yet. It is counted once.
pub proof fn lemma_known_chain_is_taken_in(v: RegistryView, chain_id: u64, at: Moment)
    requires
        v.wf(),
        !v.config.discovery.deny@.contains(chain_id),
        is_kept(v, chain_id) || (v.config.discovery.enabled && v.catalog is Some
            && v.catalog->0.place(chain_id) is Some),
        v.chains.contains_key(chain_id) ==> !v.chains[chain_id].disabled
            && !v.chains[chain_id].pinned && v.chains[chain_id].last_ingress == 0,
        v.activations < u64::MAX,
    ensures
        v.knows(chain_id),
        ({
            let w = v.resolved(chain_id, at);
            let c = w.chains[chain_id];
            &&& w.chains.contains_key(chain_id)
            &&& c.chain_id == chain_id && c.last_ingress == at.unix && c.head == 0
            &&& c.pinned == is_kept(v, chain_id)
            &&& c.disabled <==> v.chain_overrides.contains_key(chain_id)
                && v.chain_overrides[chain_id].disabled == Some(true)
            &&& c.rejected == Set::<Seq<char>>::empty()
            &&& c.endpoints == v.fresh_chain(chain_id, is_kept(v, chain_id), at).endpoints
            &&& w.activations == v.activations + 1
            &&& w.chain_overrides == v.chain_overrides && w.pinned == v.pinned && w.auto_pinned
                == v.auto_pinned
        }),
{
    let grown = v.with_fresh_chain(chain_id, v.is_pinned(chain_id), at);
    crate::registry_laws::lemma_victim(grown.chains, grown.order, chain_id, at.unix);
}

pub open spec fn has_endpoint(list: Seq<EndpointView>, url: Seq<char>) -> bool {
    exists|i: int| 0 <= i < list.len() && (#[trigger] list[i]).url == url
}

pub open spec fn plan_lists(plan: Seq<PlanView>, url: Seq<char>) -> bool {
    exists|m: int| 0 <= m < plan.len() && (#[trigger] plan[m]).url == url
}

proof fn lemma_planned_reaches(
    plan: Seq<PlanView>,
    barred: Set<Seq<char>>,
    rejected: Set<Seq<char>>,
    previous: Seq<EndpointView>,
    now: u64,
    url: Seq<char>,
    off: bool,
)
    requires
        !barred.contains(url),
        !rejected.contains(url),
        forall|m: int| 0 <= m < plan.len() && (#[trigger] plan[m]).url == url ==> plan[m].off == off,
    ensures
        has_endpoint(crate::chain::planned(plan, barred, rejected, previous, now), url)
            <==> plan_lists(plan, url) && !off,
    decreases plan.len(),
{
    let pool = crate::chain::planned(plan, barred, rejected, previous, now);
    if plan.len() > 0 {
        let short = plan.drop_last();
        let item = plan.last();
        let last = plan.len() - 1;
        assert(plan[last] == item);
        let before = crate::chain::planned(short, barred, rejected, previous, now);
        assert forall|m: int| 0 <= m < short.len() && (#[trigger] short[m]).url == url implies short[m].off
            == off by {
            assert(short[m] == plan[m]);
        }
        lemma_planned_reaches(short, barred, rejected, previous, now, url, off);
        assert(crate::chain::pooled(item, previous, now).url == item.url) by {
            if exists|i: int| crate::chain::is_first_with(previous, item.url, i) {
                let i = choose|i: int| crate::chain::is_first_with(previous, item.url, i);
                assert(previous[i].url == item.url);
            }
        }
        if plan_lists(short, url) {
            let m = choose|m: int| 0 <= m < short.len() && (#[trigger] short[m]).url == url;
            assert(plan[m].url == url);
        }
        if plan_lists(plan, url) && !plan_lists(short, url) {
            let m = choose|m: int| 0 <= m < plan.len() && (#[trigger] plan[m]).url == url;
            if m < last {
                assert(short[m].url == url);
            }
        }
        if has_endpoint(before, url) {
            let i = choose|i: int| 0 <= i < before.len() && (#[trigger] before[i]).url == url;
            assert(pool[i].url == url);
        }
        if has_endpoint(pool, url) && !has_endpoint(before, url) {
            let i = choose|i: int| 0 <= i < pool.len() && (#[trigger] pool[i]).url == url;
            if i < before.len() {
                assert(before[i].url == url);
            }
            assert(item.url == url);
        }
        if item.url == url && !off {
            if crate::chain::present_urls(short, barred, rejected).contains(url) {
                let m = choose|m: int| 0 <= m < short.len() && (#[trigger] short[m]).url == url;
                assert(plan_lists(short, url));
            } else {
                assert(pool[before.len() as int].url == url);
            }
        }
    } else {
        assert(pool.len() == 0);
    }
}

/// The URLs that a chain ought to have: those that were found for it, those that the configuration adds,
/// and those that runtime settings add.
pub open spec fn wanted_urls(v: RegistryView, chain_id: u64, found: Seq<Seq<char>>) -> Seq<Seq<char>> {
    found + v.extra_urls(chain_id) + crate::registry_model::runtime_urls(
        v.endpoint_order,
        v.endpoint_overrides,
        chain_id,
    )
}

/// Whether runtime settings switch an endpoint off.
pub open spec fn is_off(v: RegistryView, chain_id: u64, url: Seq<char>) -> bool {
    let key = crate::keys::key_of(chain_id, url);
    v.endpoint_overrides.contains_key(key) && v.endpoint_overrides[key].disabled == Some(true)
}

/// A chain comes into memory with every endpoint that it ought to have and with no other: all URLs of the
/// catalog, of the configuration and of runtime settings, but for those that the configuration bars and
/// those that are switched off.
pub proof fn lemma_chain_comes_with_all_endpoints(
    v: RegistryView,
    chain_id: u64,
    pinned: bool,
    at: Moment,
    url: Seq<char>,
)
    ensures
        ({
            let c = v.fresh_chain(chain_id, pinned, at);
            has_endpoint(c.endpoints, url) <==> wanted_urls(
                v,
                chain_id,
                v.catalog_urls(chain_id),
            ).contains(url) && !v.barred(chain_id).contains(url) && !is_off(v, chain_id, url)
        }),
{
    let none = Seq::<EndpointView>::empty();
    let no = Set::<Seq<char>>::empty();
    let barred = v.barred(chain_id);
    let urls = wanted_urls(v, chain_id, v.catalog_urls(chain_id));
    let plan = v.plan(chain_id, v.catalog_urls(chain_id));
    let first = crate::chain::planned(plan, barred, no, none, at.unix);
    let pool = crate::chain::merged(plan, barred, no, none, at.unix, 0);
    assert(pool =~= first);
    let c = v.fresh_chain(chain_id, pinned, at);
    lemma_plan_lists(v, chain_id, v.catalog_urls(chain_id), url);
    assert(has_endpoint(c.endpoints, url) <==> has_endpoint(pool, url)) by {
        if has_endpoint(c.endpoints, url) {
            let i = choose|i: int| 0 <= i < c.endpoints.len() && (#[trigger] c.endpoints[i]).url == url;
            assert(pool[i].url == url);
        }
        if has_endpoint(pool, url) {
            let i = choose|i: int| 0 <= i < pool.len() && (#[trigger] pool[i]).url == url;
            assert(c.endpoints[i].url == url);
        }
    }
    if barred.contains(url) {
        crate::chain::lemma_merged_pool(plan, barred, no, none, at.unix, 0);
        if has_endpoint(pool, url) {
            let i = choose|i: int| 0 <= i < pool.len() && (#[trigger] pool[i]).url == url;
            assert(!barred.contains(pool[i].url));
        }
    } else {
        lemma_planned_reaches(plan, barred, no, none, at.unix, url, is_off(v, chain_id, url));
    }
}

proof fn lemma_plan_lists(v: RegistryView, chain_id: u64, found: Seq<Seq<char>>, url: Seq<char>)
    ensures
        plan_lists(v.plan(chain_id, found), url) <==> wanted_urls(v, chain_id, found).contains(url),
        forall|m: int|
            0 <= m < v.plan(chain_id, found).len() && (#[trigger] v.plan(chain_id, found)[m]).url
                == url ==> v.plan(chain_id, found)[m].off == is_off(v, chain_id, url),
{
    let urls = wanted_urls(v, chain_id, found);
    let plan = v.plan(chain_id, found);
    assert(plan.len() == urls.len());
    assert forall|m: int| 0 <= m < plan.len() implies (#[trigger] plan[m]).url == urls[m]
        && plan[m].off == is_off(v, chain_id, urls[m]) by {}
    if plan_lists(plan, url) {
        let m = choose|m: int| 0 <= m < plan.len() && (#[trigger] plan[m]).url == url;
        assert(urls[m] == url);
    }
    if urls.contains(url) {
        let m = choose|m: int| 0 <= m < urls.len() && urls[m] == url;
        assert(plan[m].url == url);
    }
}

/// Whether a list has an endpoint that was seen not longer ago than allowed.
pub open spec fn seen_lately(list: Seq<EndpointView>, url: Seq<char>, now: u64, grace: u64) -> bool {
    exists|i: int|
        0 <= i < list.len() && (#[trigger] list[i]).url == url && now - list[i].last_seen < grace
            && grace > 0
}

/// What the texts of a list hold.
pub open spec fn contents(list: Seq<String>) -> Seq<Seq<char>> {
    Seq::new(list.len(), |i: int| list[i]@)
}

/// A refresh leaves a chain with every endpoint that it ought to have and, of the others, with those that
/// were there and were seen not too long ago. Nothing that is barred, rejected or switched off is there,
/// and a denied chain has nothing.
pub proof fn lemma_refreshed_chain_has_all_endpoints(
    v: RegistryView,
    chain_id: u64,
    source: Option<ChainEndpoints>,
    at: Moment,
    url: Seq<char>,
)
    requires
        v.wf(),
    ensures
        ({
            let c = v.refreshed_chain(chain_id, source, at);
            let found = match source {
                Some(s) => contents(s.endpoints@),
                None => Seq::empty(),
            };
            let wanted = wanted_urls(v, chain_id, found).contains(url);
            let before = if v.chains.contains_key(chain_id) {
                v.chains[chain_id].endpoints
            } else {
                Seq::empty()
            };
            let rejected = v.chains.contains_key(chain_id) && v.chains[chain_id].rejected.contains(
                url,
            );
            if v.config.discovery.deny@.contains(chain_id) {
                c.disabled && c.endpoints.len() == 0
            } else {
                has_endpoint(c.endpoints, url) <==> !v.barred(chain_id).contains(url) && !rejected && (
                if wanted {
                    !is_off(v, chain_id, url)
                } else {
                    seen_lately(before, url, at.unix, v.config.chainlist.stale_grace_seconds)
                })
            }
        }),
{
    let c = v.refreshed_chain(chain_id, source, at);
    let found = match source {
        Some(s) => contents(s.endpoints@),
        None => Seq::empty(),
    };
    if source is Some {
        assert(found =~= crate::registry_model::texts(source->0.endpoints@));
    }
    let previous = if v.chains.contains_key(chain_id) {
        v.chains[chain_id].endpoints
    } else {
        Seq::empty()
    };
    let rejected = if v.chains.contains_key(chain_id) {
        v.chains[chain_id].rejected
    } else {
        Set::empty()
    };
    let barred = v.barred(chain_id);
    let plan = v.plan(chain_id, found);
    let grace = v.config.chainlist.stale_grace_seconds;
    let present = crate::chain::present_urls(plan, barred, rejected);
    let first = crate::chain::planned(plan, barred, rejected, previous, at.unix);
    let second = crate::chain::lingering(previous, present, barred, rejected, at.unix, grace);
    let pool = crate::chain::merged(plan, barred, rejected, previous, at.unix, grace);
    if !v.config.discovery.deny@.contains(chain_id) {
        assert(has_endpoint(c.endpoints, url) <==> has_endpoint(pool, url)) by {
            if has_endpoint(c.endpoints, url) {
                let i = choose|i: int|
                    0 <= i < c.endpoints.len() && (#[trigger] c.endpoints[i]).url == url;
                assert(pool[i].url == url);
            }
            if has_endpoint(pool, url) {
                let i = choose|i: int| 0 <= i < pool.len() && (#[trigger] pool[i]).url == url;
                assert(c.endpoints[i].url == url);
            }
        }
        assert(has_endpoint(pool, url) <==> has_endpoint(first, url) || has_endpoint(second, url)) by {
            if has_endpoint(pool, url) {
                let i = choose|i: int| 0 <= i < pool.len() && (#[trigger] pool[i]).url == url;
                if i < first.len() {
                    assert(first[i].url == url);
                } else {
                    assert(second[i - first.len()].url == url);
                }
            }
            if has_endpoint(first, url) {
                let i = choose|i: int| 0 <= i < first.len() && (#[trigger] first[i]).url == url;
                assert(pool[i].url == url);
            }
            if has_endpoint(second, url) {
                let i = choose|i: int| 0 <= i < second.len() && (#[trigger] second[i]).url == url;
                assert(pool[first.len() + i].url == url);
            }
        }
        lemma_plan_lists(v, chain_id, found, url);
        lemma_lingering_reaches(previous, present, barred, rejected, at.unix, grace, url);
        if barred.contains(url) || rejected.contains(url) {
            crate::chain::lemma_merged_pool(plan, barred, rejected, previous, at.unix, grace);
            if has_endpoint(pool, url) {
                let i = choose|i: int| 0 <= i < pool.len() && (#[trigger] pool[i]).url == url;
                assert(!barred.contains(pool[i].url) && !rejected.contains(pool[i].url));
            }
        } else {
            lemma_planned_reaches(
                plan,
                barred,
                rejected,
                previous,
                at.unix,
                url,
                is_off(v, chain_id, url),
            );
            assert(present.contains(url) <==> plan_lists(plan, url));
        }
    }
}

proof fn lemma_lingering_reaches(
    previous: Seq<EndpointView>,
    present: Set<Seq<char>>,
    barred: Set<Seq<char>>,
    rejected: Set<Seq<char>>,
    now: u64,
    grace: u64,
    url: Seq<char>,
)
    ensures
        has_endpoint(
            crate::chain::lingering(previous, present, barred, rejected, now, grace),
            url,
        ) <==> !present.contains(url) && !barred.contains(url) && !rejected.contains(url)
            && seen_lately(previous, url, now, grace),
    decreases previous.len(),
{
    let all = crate::chain::lingering(previous, present, barred, rejected, now, grace);
    if previous.len() > 0 {
        let short = previous.drop_last();
        let last = previous.len() - 1;
        let before = crate::chain::lingering(short, present, barred, rejected, now, grace);
        lemma_lingering_reaches(short, present, barred, rejected, now, grace, url);
        if has_endpoint(before, url) {
            let i = choose|i: int| 0 <= i < before.len() && (#[trigger] before[i]).url == url;
            assert(all[i].url == url);
            let j = choose|j: int|
                0 <= j < short.len() && (#[trigger] short[j]).url == url && now
                    - short[j].last_seen < grace && grace > 0;
            assert(previous[j] == short[j]);
        }
        if has_endpoint(all, url) && !has_endpoint(before, url) {
            let i = choose|i: int| 0 <= i < all.len() && (#[trigger] all[i]).url == url;
            if i < before.len() {
                assert(before[i].url == url);
            }
            assert(previous[last].url == url);
        }
        if !present.contains(url) && !barred.contains(url) && !rejected.contains(url) && seen_lately(
            previous,
            url,
            now,
            grace,
        ) {
            let i = choose|i: int|
                0 <= i < previous.len() && (#[trigger] previous[i]).url == url && now
                    - previous[i].last_seen < grace && grace > 0;
            if i < last {
                assert(short[i] == previous[i]);
                assert(has_endpoint(before, url));
            } else {
                assert(all[before.len() as int].url == url);
            }
        }
    } else {
        assert(all.len() == 0);
    }
}

/// Which chains a refresh reaches, and what it leaves of the others: the configured ones, those that
/// somebody or the automatic choice pinned, and those whose endpoints are in memory.
pub proof fn lemma_refresh_reaches(
    v: RegistryView,
    sources: Seq<ChainEndpoints>,
    at: Moment,
    chain_id: u64,
)
    ensures
        ({
            let w = v.refreshed_chains(sources, at);
            let reached = v.config.chains@.contains(chain_id) || (v.pinned.contains_key(chain_id)
                && v.pinned[chain_id]) || (v.auto_pinned.contains_key(chain_id)
                && v.auto_pinned[chain_id]) || (v.chains.contains_key(chain_id)
                && !v.chains[chain_id].disabled && (v.chains[chain_id].pinned
                || v.chains[chain_id].last_ingress > 0));
            &&& reached ==> w.contains_key(chain_id)
            &&& !reached ==> (w.contains_key(chain_id) <==> v.chains.contains_key(chain_id))
            &&& !reached && v.chains.contains_key(chain_id) ==> w[chain_id] == v.chains[chain_id]
            &&& reached && v.chains.contains_key(chain_id) ==> w[chain_id].last_ingress
                == v.chains[chain_id].last_ingress && w[chain_id].head == v.chains[chain_id].head
                && w[chain_id].rejected == v.chains[chain_id].rejected && w[chain_id].pinned
                == is_kept(v, chain_id)
        }),
{
}

/// Only the last entry that a list has for a chain counts.
pub proof fn lemma_last_source_counts(
    chains: Seq<ChainEndpoints>,
    chain_id: u64,
    i: int,
)
    requires
        0 <= i < chains.len(),
        chains[i].chain_id == chain_id,
        forall|j: int| i < j < chains.len() ==> (#[trigger] chains[j]).chain_id != chain_id,
    ensures
        crate::registry_model::source_in(chains, chain_id) == Some(chains[i]),
    decreases chains.len(),
{
    if i < chains.len() - 1 {
        let short = chains.drop_last();
        assert(chains[chains.len() - 1].chain_id != chain_id);
        assert forall|j: int| i < j < short.len() implies (#[trigger] short[j]).chain_id != chain_id by {
            assert(short[j] == chains[j]);
        }
        lemma_last_source_counts(short, chain_id, i);
    }
}

/// Dropping a chain from memory takes its endpoints and the time it was last asked for, and is counted
/// once, by its reason; nothing else of the registry changes. A pinned chain, or one that is not in
/// memory, is not dropped.
pub proof fn lemma_drop_takes_endpoints(v: RegistryView, chain_id: u64, kind: Demotion, other: u64)
    requires
        v.idle_demotions < u64::MAX,
        v.lru_demotions < u64::MAX,
        v.admin_demotions < u64::MAX,
    ensures
        ({
            let w = v.demoted(chain_id, kind);
            let dropped = v.chains.contains_key(chain_id) && !v.chains[chain_id].pinned;
            &&& !dropped ==> w == v
            &&& dropped ==> {
                &&& w.chains.contains_key(chain_id)
                &&& w.chains[chain_id].endpoints.len() == 0
                &&& w.chains[chain_id].last_ingress == 0
                &&& w.chains[chain_id].disabled == v.chains[chain_id].disabled
                &&& w.chains[chain_id].head == v.chains[chain_id].head
                &&& w.chains[chain_id].rejected == v.chains[chain_id].rejected
                &&& w.idle_demotions == v.idle_demotions + (if kind is Idle {
                    1int
                } else {
                    0
                })
                &&& w.lru_demotions == v.lru_demotions + (if kind is Lru {
                    1int
                } else {
                    0
                })
                &&& w.admin_demotions == v.admin_demotions + (if kind is Admin {
                    1int
                } else {
                    0
                })
            }
            &&& other != chain_id && v.chains.contains_key(other) ==> w.chains[other]
                == v.chains[other]
            &&& w.activations == v.activations && w.order == v.order && w.chain_overrides
                == v.chain_overrides
        }),
{
}

/// Where too many chains are hot, taking one in drops another: the one of the hot chains, none of them
/// asked for within the last five seconds, that was asked for the longest ago. Where there is room, or
/// every other was asked for just now, none is dropped. Probes of the new chain start at once unless there
/// was no room and none could be dropped.
pub proof fn lemma_room_is_made_by_the_longest_unasked(
    v: RegistryView,
    newcomer: u64,
    pinned: bool,
    at: Moment,
    other: u64,
)
    requires
        v.wf(),
        other != newcomer,
        v.chains.contains_key(other),
    ensures
        ({
            let w = v.materialized(newcomer, pinned, at);
            let crowded = v.with_fresh_chain(newcomer, pinned, at).order.filter(
                |k: u64|
                    is_warm(v.with_fresh_chain(newcomer, pinned, at).chains[k]),
            ).len() > v.config.discovery.max_hot_chains;
            let may_go = is_warm(v.chains[other]) && at.unix - v.chains[other].last_ingress >= 5;
            &&& !crowded ==> w.chains[other] == v.chains[other]
            &&& !may_go ==> w.chains[other] == v.chains[other]
            &&& w.chains[other] != v.chains[other] ==> {
                &&& w.chains[other].endpoints.len() == 0 && w.chains[other].last_ingress == 0
                &&& forall|k: u64|
                    k != newcomer && #[trigger] v.chains.contains_key(k) && is_warm(v.chains[k])
                        && at.unix - v.chains[k].last_ingress >= 5 ==> v.chains[other].last_ingress
                        <= v.chains[k].last_ingress
                &&& forall|k: u64|
                    k != newcomer && k != other && #[trigger] v.chains.contains_key(k)
                        ==> w.chains[k] == v.chains[k]
            }
            &&& crowded && may_go ==> exists|k: u64|
                k != newcomer && v.chains.contains_key(k) && is_warm(v.chains[k])
                    && #[trigger] w.chains[k] == v.chains[k].demoted()
            &&& crowded && may_go && v.lru_demotions < u64::MAX ==> w.lru_demotions
                == v.lru_demotions + 1
            &&& !crowded ==> w.lru_demotions == v.lru_demotions
            &&& !crowded || may_go ==> w.kicks == v.kicks.push(newcomer)
        }),
{
    let grown = v.with_fresh_chain(newcomer, pinned, at);
    crate::registry_laws::lemma_victim(grown.chains, grown.order, newcomer, at.unix);
    let label = |k: u64| grown.chains[k].label() is Hot;
    let warm = |k: u64| is_warm(grown.chains[k]);
    lemma_same_kept(grown.order, label, warm);
    assert forall|k: u64| k != newcomer && #[trigger] v.chains.contains_key(k) implies grown.order.contains(
        k,
    ) && grown.chains[k] == v.chains[k] by {
        assert(v.order.contains(k));
        if !v.chains.contains_key(newcomer) {
            crate::registry_model::lemma_push_contains(v.order, newcomer, k);
        }
    }
    assert(crate::registry_model::evictable(grown.chains[other], other, newcomer, at.unix) <==> is_warm(
        v.chains[other],
    ) && at.unix - v.chains[other].last_ingress >= 5);
    if let Some(k) = grown.victim(newcomer, at.unix) {
        assert(grown.order.contains(k));
        assert(v.chains.contains_key(k)) by {
            if v.chains.contains_key(newcomer) {
                assert(v.order.contains(k));
            } else {
                crate::registry_model::lemma_push_contains(v.order, newcomer, k);
            }
        }
        assert forall|o: u64|
            o != newcomer && #[trigger] v.chains.contains_key(o) && is_warm(v.chains[o]) && at.unix
                - v.chains[o].last_ingress >= 5 implies v.chains[k].last_ingress
            <= v.chains[o].last_ingress by {
            assert(crate::registry_model::evictable(grown.chains[o], o, newcomer, at.unix));
        }
        let w = v.materialized(newcomer, pinned, at);
        if grown.hot_count() > v.config.discovery.max_hot_chains {
            assert(w.chains[k] == v.chains[k].demoted());
        }
    }
}

proof fn lemma_same_kept(s: Seq<u64>, f: spec_fn(u64) -> bool, g: spec_fn(u64) -> bool)
    requires
        forall|k: u64| #[trigger] f(k) == g(k),
    ensures
        s.filter(f) == s.filter(g),
    decreases s.len(),
{
    reveal(Seq::filter);
    if s.len() > 0 {
        lemma_same_kept(s.drop_last(), f, g);
        assert(f(s.last()) == g(s.last()));
    }
}

/// Housekeeping drops every hot chain that was not asked for for longer than allowed. It leaves pinned,
/// disabled and dormant chains alone, and hot ones that were asked for within the last five seconds. It
/// drops others only to get down to the number of hot chains that is allowed, and then those that were
/// asked for the longest ago.
pub proof fn lemma_housekeeping_drops_the_unasked(
    v: RegistryView,
    now: u64,
    evicted: Seq<u64>,
    k: u64,
    other: u64,
)
    requires
        v.wf(),
        v.are_evicted(now, evicted),
        v.chains.contains_key(k),
        v.chains.contains_key(other),
        v.config.discovery.idle_seconds >= 5,
    ensures
        ({
            let w = v.housekept(now, evicted);
            let c = v.chains[k];
            let o = v.chains[other];
            let idle = v.config.discovery.idle_seconds;
            let busy = v.order.filter(
                |x: u64|
                    is_warm(v.chains[x]) && now - v.chains[x].last_ingress <= idle,
            ).len();
            &&& w.chains.contains_key(k)
            &&& w.chains[k] == c || w.chains[k] == (ChainView {
                endpoints: Seq::empty(),
                last_ingress: 0,
                ..c
            })
            &&& !is_warm(c) ==> w.chains[k] == c
            &&& is_warm(c) && now - c.last_ingress > idle ==> w.chains[k].last_ingress == 0
                && w.chains[k].endpoints.len() == 0
            &&& is_warm(c) && now - c.last_ingress < 5 ==> w.chains[k] == c
            &&& is_warm(c) && now - c.last_ingress <= idle && busy
                <= v.config.discovery.max_hot_chains ==> w.chains[k] == c
            &&& is_warm(c) && now - c.last_ingress <= idle && w.chains[k] != c && is_warm(o) && now
                - o.last_ingress <= idle && w.chains[other] == o ==> c.last_ingress
                <= o.last_ingress
            &&& w.chain_overrides == v.chain_overrides && w.pinned == v.pinned && w.catalog
                == v.catalog && w.activations == v.activations && w.admin_demotions
                == v.admin_demotions
        }),
{
    let idle = v.config.discovery.idle_seconds;
    let is_busy = |x: u64| v.chains[x].label() is Hot && !v.is_idle(x, now);
    let warm = |x: u64| is_warm(v.chains[x]) && now - v.chains[x].last_ingress <= idle;
    lemma_same_kept(v.order, is_busy, warm);
    let busy = v.busy_ids(now);
    crate::registry_model::lemma_filter_contains(v.order, is_busy, k);
    crate::registry_model::lemma_filter_contains(v.order, is_busy, other);
    if evicted.contains(k) {
        assert(busy.contains(k));
        if busy.len() <= v.config.discovery.max_hot_chains {
            assert(evicted.len() > 0);
        }
    }
    let w = v.housekept(now, evicted);
    if w.chains[other] == v.chains[other] && evicted.contains(other) {
        assert(busy.contains(other));
        assert(v.chains[other].last_ingress > 0);
    }
}

/// A chain that housekeeping leaves hot was needed: where it dropped any that was not idle, as many hot
/// chains are left as are allowed, or more.
pub proof fn lemma_housekeeping_drops_no_more_than_needed(v: RegistryView, now: u64, evicted: Seq<u64>)
    requires
        v.wf(),
        v.are_evicted(now, evicted),
        evicted.len() > 0,
    ensures
        v.order.filter(
            |x: u64|
                is_warm(v.chains[x]) && now - v.chains[x].last_ingress
                    <= v.config.discovery.idle_seconds,
        ).len() - evicted.len() >= v.config.discovery.max_hot_chains,
        evicted.no_duplicates(),
{
    let is_busy = |x: u64| v.chains[x].label() is Hot && !v.is_idle(x, now);
    let warm = |x: u64|
        is_warm(v.chains[x]) && now - v.chains[x].last_ingress
            <= v.config.discovery.idle_seconds;
    lemma_same_kept(v.order, is_busy, warm);
}

} // verus!
