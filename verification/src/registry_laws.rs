//! What holds of the registry across its operations.
use crate::chain::{ChainView, PlanView};
use crate::chainlist::ChainEndpoints;
use crate::endpoint::EndpointView;
use crate::registry_model::{Demotion, Moment, RegistryView};
use crate::state::{ChainOverrideState, EndpointOverrideState, Overrides};
use vstd::prelude::*;

verus! {

/// A pinned chain is never dropped from memory: neither on demand, nor as idle, nor to make room.
pub proof fn lemma_pinned_chains_stay(
    v: RegistryView,
    chain_id: u64,
    kind: Demotion,
    now: u64,
    evicted: Seq<u64>,
)
    requires
        v.wf(),
        v.chains.contains_key(chain_id),
        v.chains[chain_id].pinned,
        v.are_evicted(now, evicted),
    ensures
        v.demoted(chain_id, kind) == v,
        v.housekept(now, evicted).chains[chain_id] == v.chains[chain_id],
{
    if evicted.contains(chain_id) {
        lemma_busy(v, now, chain_id);
    }
}

/// To make room for a chain, no pinned chain and no chain asked for just now is dropped, and nothing
/// but the dropped chain and the new one changes.
pub proof fn lemma_making_room_spares_the_others(
    v: RegistryView,
    newcomer: u64,
    pinned: bool,
    at: Moment,
    other: u64,
)
    requires
        v.wf(),
        v.chains.contains_key(other),
        other != newcomer,
        v.chains[other].pinned || v.chains[other].disabled || v.is_recent(other, at.unix),
    ensures
        v.materialized(newcomer, pinned, at).chains[other] == v.chains[other],
{
    let grown = v.with_fresh_chain(newcomer, pinned, at);
    lemma_victim(grown.chains, grown.order, newcomer, at.unix);
}

/// The chain that is dropped may be dropped, and was not asked for for longer than every other that
/// may be.
pub proof fn lemma_victim(chains: Map<u64, ChainView>, order: Seq<u64>, newcomer: u64, now: u64)
    ensures
        crate::registry_model::victim_in(chains, order, newcomer, now) matches Some(k)
            ==> order.contains(k) && crate::registry_model::evictable(chains[k], k, newcomer, now)
            && forall|o: u64|
            order.contains(o) && #[trigger] crate::registry_model::evictable(
                chains[o],
                o,
                newcomer,
                now,
            ) ==> chains[k].last_ingress <= chains[o].last_ingress,
        crate::registry_model::victim_in(chains, order, newcomer, now) is None ==> forall|o: u64|
            order.contains(o) ==> !(#[trigger] crate::registry_model::evictable(
                chains[o],
                o,
                newcomer,
                now,
            )),
    decreases order.len(),
{
    if order.len() > 0 {
        let p = order.drop_last();
        lemma_victim(chains, p, newcomer, now);
        assert(order =~= p.push(order.last()));
        assert forall|o: u64| order.contains(o) <==> #[trigger] p.contains(o) || o
            == order.last() by {
            crate::registry_model::lemma_push_contains(p, order.last(), o);
        }
    }
}

proof fn lemma_busy(v: RegistryView, now: u64, k: u64)
    requires
        v.wf(),
    ensures
        v.busy_ids(now).contains(k) <==> v.chains.contains_key(k) && v.chains[k].label() is Hot
            && !v.is_idle(k, now),
{
    crate::registry_model::lemma_filter_contains(
        v.order,
        |x: u64| v.chains[x].label() is Hot && !v.is_idle(x, now),
        k,
    );
}

/// The ids of a list that a set of others leaves.
proof fn lemma_left_over(all: Seq<u64>, gone: Seq<u64>)
    requires
        all.no_duplicates(),
        gone.no_duplicates(),
        forall|k: u64| #[trigger] gone.contains(k) ==> all.contains(k),
    ensures
        all.filter(|k: u64| !gone.contains(k)).len() == all.len() - gone.len(),
    decreases gone.len(),
{
    reveal(Seq::filter);
    let keep = |k: u64| !gone.contains(k);
    if gone.len() == 0 {
        lemma_filter_keeps_all(all, keep);
    } else {
        let less = gone.drop_last();
        let last = gone.last();
        assert forall|k: u64| #[trigger] gone.contains(k) <==> less.contains(k) || k == last by {
            assert(gone =~= less.push(last));
            crate::registry_model::lemma_push_contains(less, last, k);
        }
        assert(!less.contains(last)) by {
            if less.contains(last) {
                let i = choose|i: int| 0 <= i < less.len() && less[i] == last;
                assert(gone[i] == gone[gone.len() - 1]);
            }
        }
        assert forall|k: u64| #[trigger] less.contains(k) implies all.contains(k) by {
            assert(gone.contains(k));
        }
        assert(gone.contains(last)) by {
            assert(gone[gone.len() - 1] == last);
        }
        lemma_left_over(all, less);
        let before = |k: u64| !less.contains(k);
        lemma_one_less(all, before, keep, last);
    }
}

proof fn lemma_filter_keeps_all(s: Seq<u64>, keep: spec_fn(u64) -> bool)
    requires
        forall|k: u64| #[trigger] keep(k),
    ensures
        s.filter(keep) == s,
    decreases s.len(),
{
    reveal(Seq::filter);
    if s.len() > 0 {
        lemma_filter_keeps_all(s.drop_last(), keep);
        assert(keep(s.last()));
        assert(s.drop_last().push(s.last()) =~= s);
    }
}

/// A filter that leaves out one more of the ids keeps one less.
proof fn lemma_one_less(
    s: Seq<u64>,
    before: spec_fn(u64) -> bool,
    after: spec_fn(u64) -> bool,
    x: u64,
)
    requires
        s.no_duplicates(),
        before(x),
        forall|k: u64| #[trigger] after(k) <==> before(k) && k != x,
    ensures
        s.filter(after).len() == s.filter(before).len() - (if s.contains(x) {
            1int
        } else {
            0
        }),
    decreases s.len(),
{
    reveal(Seq::filter);
    if s.len() > 0 {
        let p = s.drop_last();
        lemma_one_less(p, before, after, x);
        assert(after(s.last()) <==> before(s.last()) && s.last() != x);
        assert(s =~= p.push(s.last()));
        crate::registry_model::lemma_push_contains(p, s.last(), x);
        if s.last() == x && p.contains(x) {
            let i = choose|i: int| 0 <= i < p.len() && p[i] == x;
            assert(s[i] == s[s.len() - 1]);
        }
    }
}

/// Filters that agree on a list keep the same of it.
proof fn lemma_same_filter(s: Seq<u64>, f: spec_fn(u64) -> bool, g: spec_fn(u64) -> bool)
    requires
        forall|i: int| 0 <= i < s.len() ==> f(#[trigger] s[i]) == g(s[i]),
    ensures
        s.filter(f) == s.filter(g),
    decreases s.len(),
{
    reveal(Seq::filter);
    if s.len() > 0 {
        let p = s.drop_last();
        assert forall|i: int| 0 <= i < p.len() implies f(#[trigger] p[i]) == g(p[i]) by {
            assert(p[i] == s[i]);
        }
        lemma_same_filter(p, f, g);
        assert(f(s[s.len() - 1]) == g(s[s.len() - 1]));
    }
}

/// Filtering twice is filtering by both.
proof fn lemma_filter_twice(s: Seq<u64>, f: spec_fn(u64) -> bool, g: spec_fn(u64) -> bool)
    ensures
        s.filter(f).filter(g) == s.filter(|k: u64| f(k) && g(k)),
    decreases s.len(),
{
    reveal(Seq::filter);
    if s.len() > 0 {
        let p = s.drop_last();
        lemma_filter_twice(p, f, g);
        if f(s.last()) {
            let once = p.filter(f).push(s.last());
            assert(once.drop_last() =~= p.filter(f));
        }
    }
}

/// After housekeeping no hot chain is idle, and there are at most as many hot chains as allowed, unless
/// all of them were asked for just now.
pub proof fn lemma_housekeeping_keeps_the_limit(v: RegistryView, now: u64, evicted: Seq<u64>)
    requires
        v.wf(),
        v.are_evicted(now, evicted),
    ensures
        ({
            let w = v.housekept(now, evicted);
            &&& forall|k: u64| #[trigger]
                w.chains.contains_key(k) && w.chains[k].label() is Hot ==> !w.is_idle(k, now)
            &&& w.hot_count() <= v.config.discovery.max_hot_chains || forall|k: u64| #[trigger]
                w.chains.contains_key(k) && w.chains[k].label() is Hot ==> w.is_recent(k, now)
        }),
{
    let w = v.housekept(now, evicted);
    let busy = v.busy_ids(now);
    let is_busy = |k: u64| v.chains[k].label() is Hot && !v.is_idle(k, now);
    let hot = |k: u64| w.chains[k].label() is Hot;
    let stays = |k: u64| !evicted.contains(k);
    crate::registry_model::lemma_filter_no_duplicates(v.order, is_busy);
    lemma_left_over(busy, evicted);
    lemma_filter_twice(v.order, is_busy, stays);
    assert forall|i: int| 0 <= i < v.order.len() implies (|k: u64| is_busy(k) && stays(k))(
        #[trigger] v.order[i],
    ) == hot(v.order[i]) by {
        assert(v.order.contains(v.order[i]));
        assert(v.chains.contains_key(v.order[i]));
    }
    lemma_same_filter(v.order, |k: u64| is_busy(k) && stays(k), hot);
    assert forall|k: u64| #[trigger]
        w.chains.contains_key(k) && w.chains[k].label() is Hot implies busy.contains(k)
        && !evicted.contains(k) by {
        lemma_busy(v, now, k);
    }
}

/// A request for an unknown chain leaves no trace; after one for a known chain the chain is in memory.
pub proof fn lemma_requests_keep_to_known_chains(v: RegistryView, chain_id: u64, at: Moment)
    requires
        v.wf(),
    ensures
        !v.knows(chain_id) ==> v.resolved(chain_id, at) == v,
        v.knows(chain_id) ==> v.resolved(chain_id, at).chains.contains_key(chain_id),
{
    let grown = v.with_fresh_chain(chain_id, v.is_pinned(chain_id), at);
    lemma_victim(grown.chains, grown.order, chain_id, at.unix);
}

/// A chain that may not be used is never asked anything: a request for it leads to a chain that is
/// switched off and has no endpoints.
pub proof fn lemma_denied_chains_have_no_endpoints(v: RegistryView, chain_id: u64, at: Moment)
    requires
        v.wf(),
        v.is_denied(chain_id),
        !v.is_awake(chain_id),
    ensures
        v.resolved(chain_id, at).chains[chain_id].label() is Disabled,
        v.resolved(chain_id, at).chains[chain_id].endpoints.len() == 0,
        v.resolved(chain_id, at).kicks == v.kicks,
        v.resolved(chain_id, at).activations == v.activations,
{
}

/// However often a chain is asked for, only the first request takes it into memory: every request is
/// answered from the chain as the first one built it, the chain was activated once, its probes were
/// started at most once, and no other chain is touched again.
pub proof fn lemma_requests_activate_once(v: RegistryView, chain_id: u64, moments: Seq<Moment>)
    requires
        v.wf(),
        v.knows(chain_id),
        !v.is_denied(chain_id),
        !v.is_awake(chain_id),
        moments.len() >= 1,
        forall|i: int| 0 <= i < moments.len() ==> (#[trigger] moments[i]).unix > 0,
    ensures
        ({
            let first = v.resolved(chain_id, moments[0]);
            let w = v.resolved_each(chain_id, moments);
            &&& w.activations == crate::registry_model::counted(v.activations)
            &&& w.is_awake(chain_id)
            &&& w == (RegistryView { chains: w.chains, ..first })
            &&& w.chains.remove(chain_id) == first.chains.remove(chain_id)
            &&& w.chains[chain_id] == (ChainView {
                last_ingress: if first.chains[chain_id].disabled {
                    first.chains[chain_id].last_ingress
                } else {
                    moments.last().unix
                },
                ..first.chains[chain_id]
            })
        }),
        forall|n: int|
            0 <= n < moments.len() ==> #[trigger] v.resolved_each(chain_id, moments.take(n)).knows(
                chain_id,
            ),
    decreases moments.len(),
{
    let at = moments[0];
    let first = v.resolved(chain_id, at);
    let grown = v.with_fresh_chain(chain_id, v.is_pinned(chain_id), at);
    lemma_victim(grown.chains, grown.order, chain_id, at.unix);
    let short = moments.drop_last();
    if moments.len() == 1 {
        assert(short =~= Seq::<Moment>::empty());
        assert(v.resolved_each(chain_id, short) == v);
        assert(v.resolved_each(chain_id, moments) == first);
        assert(first.chains[chain_id] == v.fresh_chain(chain_id, v.is_pinned(chain_id), at));
        assert(moments.take(0) =~= Seq::<Moment>::empty());
    } else {
        assert(short[0] == at);
        assert forall|i: int| 0 <= i < short.len() implies (#[trigger] short[i]).unix > 0 by {
            assert(short[i] == moments[i]);
        }
        lemma_requests_activate_once(v, chain_id, short);
        let before = v.resolved_each(chain_id, short);
        let w = v.resolved_each(chain_id, moments);
        assert(w == before.resolved(chain_id, moments.last()));
        assert(moments[moments.len() - 1] == moments.last());
        assert(w.chains.remove(chain_id) =~= before.chains.remove(chain_id));
        assert forall|n: int| 0 <= n < moments.len() implies #[trigger] v.resolved_each(
            chain_id,
            moments.take(n),
        ).knows(chain_id) by {
            if n < short.len() {
                assert(moments.take(n) =~= short.take(n));
            } else {
                assert(moments.take(n) =~= short);
            }
        }
    }
}

/// A chain that was dropped from memory comes back with the next request, with the endpoints that it
/// ought to have.
pub proof fn lemma_dropped_chain_comes_back(v: RegistryView, chain_id: u64, kind: Demotion, at: Moment)
    requires
        v.wf(),
        v.may_demote(chain_id),
        !v.chains[chain_id].disabled,
        !v.is_denied(chain_id),
        at.unix > 0,
        v.demoted(chain_id, kind).knows(chain_id),
    ensures
        ({
            let dropped = v.demoted(chain_id, kind);
            let back = dropped.resolved(chain_id, at).chains[chain_id];
            &&& dropped.chains[chain_id].label() is Dormant
            &&& dropped.chains[chain_id].endpoints.len() == 0
            &&& back == dropped.fresh_chain(chain_id, dropped.is_pinned(chain_id), at)
        }),
{
    let dropped = v.demoted(chain_id, kind);
    let grown = dropped.with_fresh_chain(chain_id, dropped.is_pinned(chain_id), at);
    lemma_victim(grown.chains, grown.order, chain_id, at.unix);
}

/// Endpoints that were taken out for good, or that the configuration bars, do not come back with a
/// refresh, and no URL occurs twice.
pub proof fn lemma_refresh_respects_rejection(
    v: RegistryView,
    chain_id: u64,
    source: Option<ChainEndpoints>,
    at: Moment,
)
    requires
        v.wf(),
        v.chains.contains_key(chain_id),
    ensures
        ({
            let c = v.refreshed_chain(chain_id, source, at);
            &&& c.rejected == v.chains[chain_id].rejected
            &&& crate::chain::distinct_urls(c.endpoints)
            &&& forall|i: int|
                0 <= i < c.endpoints.len() ==> !v.chains[chain_id].rejected.contains(
                    (#[trigger] c.endpoints[i]).url,
                ) && !v.barred(chain_id).contains(c.endpoints[i].url)
        }),
{
    let base = v.chains[chain_id];
    let urls = match source {
        Some(s) => crate::registry_model::texts(s.endpoints@),
        None => Seq::empty(),
    };
    let plan = v.plan(chain_id, urls);
    let grace = v.config.chainlist.stale_grace_seconds;
    crate::chain::lemma_merged_pool(
        plan,
        v.barred(chain_id),
        base.rejected,
        base.endpoints,
        at.unix,
        grace,
    );
    let pool = crate::chain::merged(
        plan,
        v.barred(chain_id),
        base.rejected,
        base.endpoints,
        at.unix,
        grace,
    );
    let c = v.refreshed_chain(chain_id, source, at);
    if !v.is_denied(chain_id) {
        assert forall|i: int| 0 <= i < c.endpoints.len() implies (#[trigger] c.endpoints[i]).url
            == pool[i].url by {}
        assert forall|i: int, j: int| 0 <= i < j < c.endpoints.len() implies (
        #[trigger] c.endpoints[i]).url != (#[trigger] c.endpoints[j]).url by {
            assert(pool[i].url != pool[j].url);
        }
    }
}

proof fn lemma_planned_keeps(
    plan: Seq<PlanView>,
    barred: Set<Seq<char>>,
    rejected: Set<Seq<char>>,
    previous: Seq<EndpointView>,
    now: u64,
    i: int,
    n: int,
)
    requires
        crate::chain::distinct_urls(previous),
        0 <= i < previous.len(),
        0 <= n < plan.len(),
        plan[n].url == previous[i].url,
        forall|m: int| 0 <= m < n ==> (#[trigger] plan[m]).url != previous[i].url,
        plan[n].fits(previous[i]),
        !plan[n].off,
        !barred.contains(previous[i].url),
        !rejected.contains(previous[i].url),
    ensures
        crate::chain::planned(plan, barred, rejected, previous, now).contains(
            EndpointView { last_seen: now, ..previous[i] },
        ),
    decreases plan.len(),
{
    let e = EndpointView { last_seen: now, ..previous[i] };
    let short = plan.drop_last();
    let before = crate::chain::planned(short, barred, rejected, previous, now);
    let all = crate::chain::planned(plan, barred, rejected, previous, now);
    if n == plan.len() - 1 {
        let item = plan.last();
        assert(crate::chain::is_first_with(previous, item.url, i)) by {
            assert forall|k: int| 0 <= k < i implies (#[trigger] previous[k]).url != item.url by {
                assert(previous[k].url != previous[i].url);
            }
        }
        let j = choose|j: int| crate::chain::is_first_with(previous, item.url, j);
        assert(j == i);
        assert(!crate::chain::present_urls(short, barred, rejected).contains(item.url)) by {
            if crate::chain::present_urls(short, barred, rejected).contains(item.url) {
                let m = choose|m: int|
                    0 <= m < short.len() && (#[trigger] short[m]).url == item.url;
                assert(plan[m].url == item.url);
            }
        }
        assert(all == before.push(e));
        assert(all[before.len() as int] == e);
    } else {
        assert(short[n] == plan[n]);
        assert forall|m: int| 0 <= m < n implies (#[trigger] short[m]).url != previous[i].url by {
            assert(short[m] == plan[m]);
        }
        lemma_planned_keeps(short, barred, rejected, previous, now, i, n);
        let k = choose|k: int| 0 <= k < before.len() && before[k] == e;
        assert(all[k] == e);
    }
}

/// A URL that a plan lists occurs in it for a first time.
proof fn lemma_first_place(plan: Seq<PlanView>, url: Seq<char>, m: int) -> (n: int)
    requires
        0 <= m < plan.len(),
        plan[m].url == url,
    ensures
        0 <= n <= m,
        plan[n].url == url,
        forall|k: int| 0 <= k < n ==> (#[trigger] plan[k]).url != url,
    decreases m,
{
    if exists|k: int| 0 <= k < m && (#[trigger] plan[k]).url == url {
        let k = choose|k: int| 0 <= k < m && (#[trigger] plan[k]).url == url;
        lemma_first_place(plan, url, k)
    } else {
        m
    }
}

/// An endpoint that lingers is in the pool as it was.
proof fn lemma_lingering_keeps(
    previous: Seq<EndpointView>,
    present: Set<Seq<char>>,
    barred: Set<Seq<char>>,
    rejected: Set<Seq<char>>,
    now: u64,
    grace: u64,
    i: int,
)
    requires
        0 <= i < previous.len(),
        crate::chain::lingers(previous[i], present, barred, rejected, now, grace),
    ensures
        crate::chain::lingering(previous, present, barred, rejected, now, grace).contains(
            previous[i],
        ),
    decreases previous.len(),
{
    let short = previous.drop_last();
    let before = crate::chain::lingering(short, present, barred, rejected, now, grace);
    let all = crate::chain::lingering(previous, present, barred, rejected, now, grace);
    if i == previous.len() - 1 {
        assert(all[before.len() as int] == previous[i]);
    } else {
        assert(short[i] == previous[i]);
        lemma_lingering_keeps(short, present, barred, rejected, now, grace, i);
        let k = choose|k: int| 0 <= k < before.len() && before[k] == previous[i];
        assert(all[k] == previous[i]);
    }
}

/// A refresh keeps the endpoints that stay, with everything that is known of them: their health and
/// what they learned of latency and lag, the slots in use and the rate limiter. An endpoint that is
/// still listed and whose limits still fit is only seen anew; one that is no longer listed lingers as
/// it was. Stored health is put back over neither.
pub proof fn lemma_refresh_keeps_endpoints(
    v: RegistryView,
    chain_id: u64,
    source: Option<ChainEndpoints>,
    at: Moment,
    i: int,
)
    requires
        v.wf(),
        v.chains.contains_key(chain_id),
        !v.is_denied(chain_id),
        0 <= i < v.chains[chain_id].endpoints.len(),
        !v.barred(chain_id).contains(v.chains[chain_id].endpoints[i].url),
        !v.chains[chain_id].rejected.contains(v.chains[chain_id].endpoints[i].url),
    ensures
        ({
            let e = v.chains[chain_id].endpoints[i];
            let urls = v.planned_urls(chain_id, source);
            let item = v.plan_item(chain_id, e.url);
            let after = v.refreshed_chain(chain_id, source, at).endpoints;
            &&& urls.contains(e.url) && !item.off && item.fits(e) ==> after.contains(
                EndpointView { last_seen: at.unix, ..e },
            )
            &&& !urls.contains(e.url) && crate::registry_model::seconds_between(
                at.unix,
                e.last_seen,
            ) < v.config.chainlist.stale_grace_seconds ==> after.contains(e)
        }),
{
    let c = v.chains[chain_id];
    let previous = c.endpoints;
    let e = previous[i];
    let urls = v.planned_urls(chain_id, source);
    let listed = match source {
        Some(s) => crate::registry_model::texts(s.endpoints@),
        None => Seq::empty(),
    };
    let plan = v.plan(chain_id, listed);
    let barred = v.barred(chain_id);
    let grace = v.config.chainlist.stale_grace_seconds;
    let present = crate::chain::present_urls(plan, barred, c.rejected);
    let first = crate::chain::planned(plan, barred, c.rejected, previous, at.unix);
    let second = crate::chain::lingering(previous, present, barred, c.rejected, at.unix, grace);
    let pool = crate::chain::merged(plan, barred, c.rejected, previous, at.unix, grace);
    let known = crate::chain::limits_in(previous);
    let after = v.refreshed_chain(chain_id, source, at).endpoints;
    assert(known[i] == (e.url, e.rps, e.concurrency));
    if urls.contains(e.url) && !v.plan_item(chain_id, e.url).off && v.plan_item(
        chain_id,
        e.url,
    ).fits(e) {
        let m = choose|m: int| 0 <= m < urls.len() && urls[m] == e.url;
        assert(plan[m].url == e.url);
        let n = lemma_first_place(plan, e.url, m);
        assert(plan[n] == v.plan_item(chain_id, e.url));
        lemma_planned_keeps(plan, barred, c.rejected, previous, at.unix, i, n);
        let seen = EndpointView { last_seen: at.unix, ..e };
        let k = choose|k: int| 0 <= k < first.len() && first[k] == seen;
        assert(pool[k] == seen);
        assert(after[k] == seen);
    }
    if !urls.contains(e.url) && crate::registry_model::seconds_between(at.unix, e.last_seen)
        < grace {
        assert(!present.contains(e.url)) by {
            if present.contains(e.url) {
                let m = choose|m: int| 0 <= m < plan.len() && (#[trigger] plan[m]).url == e.url;
                assert(urls[m] == e.url);
            }
        }
        lemma_lingering_keeps(previous, present, barred, c.rejected, at.unix, grace, i);
        let k = choose|k: int| 0 <= k < second.len() && second[k] == e;
        assert(pool[first.len() + k] == e);
        assert(after[first.len() + k] == e);
    }
}

/// What one refresh put into the pool for a listed URL, the next one with the same list and settings
/// keeps: no refresh builds an endpoint anew because its limits were asked for out of bounds.
pub proof fn lemma_next_refresh_keeps_listed(
    v: RegistryView,
    chain_id: u64,
    source: Option<ChainEndpoints>,
    at: Moment,
    later: Moment,
    i: int,
)
    requires
        v.wf(),
        !v.is_denied(chain_id),
        0 <= i < v.refreshed_chain(chain_id, source, at).endpoints.len(),
        v.planned_urls(chain_id, source).contains(
            v.refreshed_chain(chain_id, source, at).endpoints[i].url,
        ),
    ensures
        ({
            let c = v.refreshed_chain(chain_id, source, at);
            let w = v.with_chain(chain_id, c);
            w.refreshed_chain(chain_id, source, later).endpoints.contains(
                EndpointView { last_seen: later.unix, ..c.endpoints[i] },
            )
        }),
{
    let base = if v.chains.contains_key(chain_id) {
        v.chains[chain_id]
    } else {
        ChainView::fresh(
            chain_id,
            match source {
                Some(s) => s.name@,
                None => crate::registry_model::default_name(chain_id),
            },
            v.is_pinned(chain_id),
        )
    };
    let previous = base.endpoints;
    let listed = match source {
        Some(s) => crate::registry_model::texts(s.endpoints@),
        None => Seq::empty(),
    };
    let urls = v.planned_urls(chain_id, source);
    let plan = v.plan(chain_id, listed);
    let barred = v.barred(chain_id);
    let grace = v.config.chainlist.stale_grace_seconds;
    let present = crate::chain::present_urls(plan, barred, base.rejected);
    let first = crate::chain::planned(plan, barred, base.rejected, previous, at.unix);
    let second = crate::chain::lingering(
        previous,
        present,
        barred,
        base.rejected,
        at.unix,
        grace,
    );
    let pool = crate::chain::merged(plan, barred, base.rejected, previous, at.unix, grace);
    let c = v.refreshed_chain(chain_id, source, at);
    let w = v.with_chain(chain_id, c);
    let e = c.endpoints[i];
    crate::chain::lemma_merged_pool(plan, barred, base.rejected, previous, at.unix, grace);
    assert(e.url == pool[i].url && e.rps == pool[i].rps && e.concurrency == pool[i].concurrency);
    let m = choose|m: int| 0 <= m < urls.len() && urls[m] == e.url;
    assert(plan[m].url == e.url);
    if i >= first.len() {
        let n = i - first.len();
        assert(pool[i] == second[n]);
        lemma_lingering_source(previous, present, barred, base.rejected, at.unix, grace, n);
        assert(present.contains(e.url));
    }
    assert(pool[i] == first[i]);
    lemma_planned_source(plan, barred, base.rejected, previous, at.unix, i);
    let p = choose|p: int|
        0 <= p < plan.len() && !(#[trigger] plan[p]).off && first[i] == crate::chain::pooled(
            plan[p],
            previous,
            at.unix,
        );
    let item = plan[p];
    if exists|k: int| crate::chain::is_first_with(previous, item.url, k) {
        let k = choose|k: int| crate::chain::is_first_with(previous, item.url, k);
        assert(previous[k].url == item.url);
    }
    assert(item.url == e.url);
    assert(item == v.plan_item(chain_id, e.url));
    assert(item.fits(e));
    assert(w.plan_item(chain_id, e.url) == item);
    let next = w.plan(chain_id, listed);
    assert(next =~= plan);
    let n = lemma_first_place(next, e.url, m);
    assert(next[n] == item);
    assert forall|a: int, b: int| 0 <= a < b < c.endpoints.len() implies (
    #[trigger] c.endpoints[a]).url != (#[trigger] c.endpoints[b]).url by {
        assert(pool[a].url != pool[b].url);
    }
    lemma_planned_keeps(next, barred, base.rejected, c.endpoints, later.unix, i, n);
    let seen = EndpointView { last_seen: later.unix, ..e };
    let again = crate::chain::planned(next, barred, base.rejected, c.endpoints, later.unix);
    let k = choose|k: int| 0 <= k < again.len() && again[k] == seen;
    let whole = crate::chain::merged(
        next,
        barred,
        base.rejected,
        c.endpoints,
        later.unix,
        grace,
    );
    assert(whole[k] == seen);
    assert(crate::chain::limits_in(c.endpoints)[i] == (e.url, e.rps, e.concurrency));
    assert(w.chains[chain_id] == c);
    assert(w.refreshed_chain(chain_id, source, later).endpoints[k] == seen);
}

/// A new endpoint always starts on probation, whatever a refresh brings.
pub proof fn lemma_new_endpoints_start_on_probation(
    item: PlanView,
    previous: Seq<EndpointView>,
    now: u64,
)
    requires
        !crate::chain::has_url(previous, item.url),
    ensures
        crate::chain::pooled(item, previous, now).health.status is Probation,
{
    if exists|i: int| crate::chain::is_first_with(previous, item.url, i) {
        let i = choose|i: int| crate::chain::is_first_with(previous, item.url, i);
        assert(previous[i].url == item.url);
    }
}

/// An endpoint that a plan leads to stands for an item of the plan that is not switched off.
proof fn lemma_planned_source(
    plan: Seq<PlanView>,
    barred: Set<Seq<char>>,
    rejected: Set<Seq<char>>,
    previous: Seq<EndpointView>,
    now: u64,
    i: int,
)
    requires
        0 <= i < crate::chain::planned(plan, barred, rejected, previous, now).len(),
    ensures
        exists|m: int|
            0 <= m < plan.len() && !(#[trigger] plan[m]).off && crate::chain::planned(
                plan,
                barred,
                rejected,
                previous,
                now,
            )[i] == crate::chain::pooled(plan[m], previous, now),
    decreases plan.len(),
{
    let short = plan.drop_last();
    let before = crate::chain::planned(short, barred, rejected, previous, now);
    let all = crate::chain::planned(plan, barred, rejected, previous, now);
    if i < before.len() {
        lemma_planned_source(short, barred, rejected, previous, now, i);
        let m = choose|m: int|
            0 <= m < short.len() && !(#[trigger] short[m]).off && before[i]
                == crate::chain::pooled(short[m], previous, now);
        assert(plan[m] == short[m]);
        assert(all[i] == before[i]);
    } else {
        assert(plan[plan.len() - 1] == plan.last());
        assert(all[i] == crate::chain::pooled(plan.last(), previous, now));
    }
}

/// An endpoint that is kept for a while was there before, and the plan does not list it.
proof fn lemma_lingering_source(
    previous: Seq<EndpointView>,
    present: Set<Seq<char>>,
    barred: Set<Seq<char>>,
    rejected: Set<Seq<char>>,
    now: u64,
    grace: u64,
    i: int,
)
    requires
        0 <= i < crate::chain::lingering(previous, present, barred, rejected, now, grace).len(),
    ensures
        exists|k: int|
            0 <= k < previous.len() && #[trigger] previous[k] == crate::chain::lingering(
                previous,
                present,
                barred,
                rejected,
                now,
                grace,
            )[i] && crate::chain::lingers(previous[k], present, barred, rejected, now, grace),
    decreases previous.len(),
{
    let short = previous.drop_last();
    let before = crate::chain::lingering(short, present, barred, rejected, now, grace);
    let all = crate::chain::lingering(previous, present, barred, rejected, now, grace);
    if i < before.len() {
        lemma_lingering_source(short, present, barred, rejected, now, grace, i);
        let k = choose|k: int|
            0 <= k < short.len() && #[trigger] short[k] == before[i] && crate::chain::lingers(
                short[k],
                present,
                barred,
                rejected,
                now,
                grace,
            );
        assert(previous[k] == short[k]);
        assert(all[i] == before[i]);
    } else {
        assert(previous[previous.len() - 1] == all[i]);
    }
}

/// Runtime settings of an endpoint that is not switched off put its URL on the plan.
proof fn lemma_runtime_url_is_planned(
    order: Seq<Seq<char>>,
    overrides: Map<Seq<char>, EndpointOverrideState>,
    chain_id: u64,
    key: Seq<char>,
)
    requires
        order.contains(key),
        crate::text::stands_at(key, crate::keys::chain_prefix(chain_id), 0),
        overrides[key].disabled != Some(true),
    ensures
        crate::registry_model::runtime_urls(order, overrides, chain_id).contains(
            overrides[key].url@,
        ),
    decreases order.len(),
{
    let i = choose|i: int| 0 <= i < order.len() && order[i] == key;
    let short = order.drop_last();
    let before = crate::registry_model::runtime_urls(short, overrides, chain_id);
    let all = crate::registry_model::runtime_urls(order, overrides, chain_id);
    if i == order.len() - 1 {
        assert(all[before.len() as int] == overrides[key].url@);
    } else {
        assert(short[i] == key);
        lemma_runtime_url_is_planned(short, overrides, chain_id, key);
        let k = choose|k: int| 0 <= k < before.len() && before[k] == overrides[key].url@;
        assert(all[k] == overrides[key].url@);
    }
}

/// A refresh does not take back runtime settings: an endpoint that was switched off stays out, and one
/// whose limits were set keeps them.
pub proof fn lemma_refresh_keeps_endpoint_settings(
    v: RegistryView,
    chain_id: u64,
    value: EndpointOverrideState,
    now: u64,
    source: Option<ChainEndpoints>,
    at: Moment,
    i: int,
)
    requires
        v.wf(),
        crate::registry_model::valid_endpoint_override(value),
        ({
            let c = v.with_endpoint_override(chain_id, value, now).refreshed_chain(
                chain_id,
                source,
                at,
            );
            0 <= i < c.endpoints.len() && c.endpoints[i].url == value.url@
        }),
    ensures
        ({
            let c = v.with_endpoint_override(chain_id, value, now).refreshed_chain(
                chain_id,
                source,
                at,
            );
            &&& value.disabled != Some(true)
            &&& value.rps matches Some(n) ==> c.endpoints[i].rps == n
            &&& value.concurrency matches Some(n) ==> c.endpoints[i].concurrency == n
        }),
{
    let w = v.with_endpoint_override(chain_id, value, now);
    let u = value.url@;
    let key = crate::keys::key_of(chain_id, u);
    assert(w.endpoint_override(chain_id, u) == Some(value));
    let previous = if w.chains.contains_key(chain_id) {
        w.chains[chain_id].endpoints
    } else {
        Seq::empty()
    };
    let rejected = if w.chains.contains_key(chain_id) {
        w.chains[chain_id].rejected
    } else {
        Set::empty()
    };
    let urls = match source {
        Some(s) => crate::registry_model::texts(s.endpoints@),
        None => Seq::empty(),
    };
    let plan = w.plan(chain_id, urls);
    let barred = w.barred(chain_id);
    let grace = w.config.chainlist.stale_grace_seconds;
    let present = crate::chain::present_urls(plan, barred, rejected);
    let first = crate::chain::planned(plan, barred, rejected, previous, at.unix);
    let second = crate::chain::lingering(previous, present, barred, rejected, at.unix, grace);
    let pool = crate::chain::merged(plan, barred, rejected, previous, at.unix, grace);
    let c = w.refreshed_chain(chain_id, source, at);
    assert(c.endpoints[i].url == pool[i].url);
    assert(c.endpoints[i].rps == pool[i].rps);
    assert(c.endpoints[i].concurrency == pool[i].concurrency);
    if i < first.len() {
        lemma_planned_source(plan, barred, rejected, previous, at.unix, i);
        let m = choose|m: int|
            0 <= m < plan.len() && !(#[trigger] plan[m]).off && first[i] == crate::chain::pooled(
                plan[m],
                previous,
                at.unix,
            );
        assert(pool[i] == first[i]);
        let item = plan[m];
        if exists|k: int| crate::chain::is_first_with(previous, item.url, k) {
            let k = choose|k: int| crate::chain::is_first_with(previous, item.url, k);
            assert(previous[k].url == item.url);
        }
        assert(item.url == u);
        assert(item == w.plan_item(chain_id, u));
    } else {
        let n = i - first.len();
        assert(pool[i] == second[n]);
        lemma_lingering_source(previous, present, barred, rejected, at.unix, grace, n);
        let k = choose|k: int|
            0 <= k < previous.len() && #[trigger] previous[k] == second[n] && crate::chain::lingers(
                previous[k],
                present,
                barred,
                rejected,
                at.unix,
                grace,
            );
        if value.disabled == Some(true) {
            crate::chain::lemma_without_url(v.chains[chain_id].endpoints, u);
            assert(crate::chain::has_url(previous, u));
        } else {
            assert(w.endpoint_order.contains(key)) by {
                if !v.endpoint_overrides.contains_key(key) {
                    assert(w.endpoint_order[v.endpoint_order.len() as int] == key);
                }
            }
            assert(crate::text::stands_at(key, crate::keys::chain_prefix(chain_id), 0)) by {
                let p = crate::keys::chain_prefix(chain_id);
                assert(key.subrange(0, p.len() as int) =~= p);
            }
            lemma_runtime_url_is_planned(w.endpoint_order, w.endpoint_overrides, chain_id, key);
            let runtime = crate::registry_model::runtime_urls(
                w.endpoint_order,
                w.endpoint_overrides,
                chain_id,
            );
            let r = choose|r: int| 0 <= r < runtime.len() && runtime[r] == u;
            let place = urls.len() + w.extra_urls(chain_id).len() + r;
            assert(plan[place].url == u);
            assert(present.contains(u));
        }
    }
}

/// A chain that is taken into memory has no active endpoint: those whose stored pause is not over go on
/// cooling, and all others are on probation.
pub proof fn lemma_activation_restores_pauses(
    v: RegistryView,
    chain_id: u64,
    pinned: bool,
    at: Moment,
    i: int,
)
    requires
        0 <= i < v.fresh_chain(chain_id, pinned, at).endpoints.len(),
    ensures
        ({
            let e = v.fresh_chain(chain_id, pinned, at).endpoints[i];
            let key = crate::keys::key_of(chain_id, e.url);
            &&& !(e.health.status is Active)
            &&& e.health.status is Cooling <==> v.health.contains_key(key) && v.health[key].state@
                == "cooling"@ && (v.health[key].cooling_until_unix matches Some(t) && t > at.unix)
        }),
{
    let none = Seq::<EndpointView>::empty();
    let plan = v.plan(chain_id, v.catalog_urls(chain_id));
    let barred = v.barred(chain_id);
    let pool = crate::chain::merged(plan, barred, Set::empty(), none, at.unix, 0);
    let first = crate::chain::planned(plan, barred, Set::empty(), none, at.unix);
    assert(pool =~= first);
    lemma_planned_source(plan, barred, Set::empty(), none, at.unix, i);
    let m = choose|m: int|
        0 <= m < plan.len() && !(#[trigger] plan[m]).off && first[i] == crate::chain::pooled(
            plan[m],
            none,
            at.unix,
        );
    lemma_new_endpoints_start_on_probation(plan[m], none, at.unix);
    let e = v.fresh_chain(chain_id, pinned, at).endpoints[i];
    let key = crate::keys::key_of(chain_id, pool[i].url);
    if v.health.contains_key(key) {
        crate::endpoint::lemma_restored_is_not_active(
            pool[i],
            v.health[key],
            at.instant,
            at.unix,
        );
    }
    assert(e.url == pool[i].url);
}

/// Every pinned chain is in memory after a refresh, and chains that are asleep stay as they are.
pub proof fn lemma_refresh_reaches_pinned_chains(
    v: RegistryView,
    sources: Seq<ChainEndpoints>,
    at: Moment,
    chain_id: u64,
)
    requires
        v.wf(),
    ensures
        v.is_pinned(chain_id) ==> v.refreshed_chains(sources, at).contains_key(chain_id)
            && v.refreshed_chains(sources, at)[chain_id].pinned,
        v.chains.contains_key(chain_id) && !v.refreshes(chain_id) ==> v.refreshed_chains(
            sources,
            at,
        )[chain_id] == v.chains[chain_id],
{
}

/// Only active endpoints are tried as long as there is one, else only endpoints on probation; an
/// endpoint that cools is never tried.
pub proof fn lemma_cooling_endpoints_are_not_tried(
    endpoints: Seq<EndpointView>,
    scores: Seq<u64>,
    list: Seq<usize>,
)
    requires
        endpoints.len() <= usize::MAX,
        crate::selection::is_draw(list, crate::registry_model::pool_of(endpoints), scores),
    ensures
        list.len() == crate::registry_model::pool_of(endpoints).len(),
        forall|i: int|
            0 <= i < list.len() ==> (#[trigger] list[i]) < endpoints.len()
                && !(endpoints[list[i] as int].health.status is Cooling) && (
            crate::registry_model::places_of(endpoints, true).len() > 0
                ==> endpoints[list[i] as int].health.status is Active),
{
    let pool = crate::registry_model::pool_of(endpoints);
    let picks = choose|picks: Seq<(usize, usize)>|
        crate::selection::fit(picks, pool.len() as int) && list
            == #[trigger] crate::selection::arranged(pool, scores, picks);
    crate::selection::lemma_arranged(pool, scores, picks);
    lemma_places(endpoints, true);
    lemma_places(endpoints, false);
    assert forall|i: int| 0 <= i < list.len() implies pool.contains(#[trigger] list[i]) by {
        list.to_multiset_ensures();
        pool.to_multiset_ensures();
        assert(list.contains(list[i]));
        assert(list.to_multiset().count(list[i]) > 0);
    }
    assert forall|i: int| 0 <= i < list.len() implies (#[trigger] list[i]) < endpoints.len()
        && !(endpoints[list[i] as int].health.status is Cooling) && (
    crate::registry_model::places_of(endpoints, true).len() > 0
        ==> endpoints[list[i] as int].health.status is Active) by {
        assert(pool.contains(list[i]));
    }
}

proof fn lemma_places(endpoints: Seq<EndpointView>, active: bool)
    requires
        endpoints.len() <= usize::MAX,
    ensures
        forall|p: usize| #[trigger]
            crate::registry_model::places_of(endpoints, active).contains(p) ==> p < endpoints.len()
                && (if active {
                endpoints[p as int].health.status is Active
            } else {
                endpoints[p as int].health.status is Probation
            }),
    decreases endpoints.len(),
{
    if endpoints.len() > 0 {
        let short = endpoints.drop_last();
        lemma_places(short, active);
        let before = crate::registry_model::places_of(short, active);
        let last = (endpoints.len() - 1) as usize;
        assert forall|p: usize| #[trigger]
            crate::registry_model::places_of(endpoints, active).contains(p) implies p
            < endpoints.len() && (if active {
            endpoints[p as int].health.status is Active
        } else {
            endpoints[p as int].health.status is Probation
        }) by {
            crate::registry_model::lemma_push_contains(before, last, p);
            if before.contains(p) {
                assert(short[p as int] == endpoints[p as int]);
            }
        }
    }
}

/// One height far above all others never becomes the head of a chain, as soon as there are three
/// heights.
pub proof fn lemma_single_outlier_is_ignored(heights: Seq<u64>, outlier: int, bound: u64)
    requires
        heights.len() >= 3,
        0 <= outlier < heights.len(),
        forall|i: int|
            0 <= i < heights.len() && i != outlier ==> #[trigger] heights[i] <= bound,
    ensures
        crate::registry_model::trimmed_greatest(heights) matches Some(h) && h <= bound,
{
    broadcast use vstd::multiset::group_multiset_axioms;

    let leq = |a: u64, b: u64| a <= b;
    let n = heights.len() as int;
    let sorted = crate::order::ascending(heights);
    heights.lemma_sort_by_ensures(leq);
    heights.to_multiset_ensures();
    sorted.to_multiset_ensures();
    let at = n - 1 - crate::registry_model::trimmed_off(n);
    assert(0 <= at <= n - 2);
    assert(leq(sorted[at], sorted[n - 2])) by {
        if at < n - 2 {
            assert(vstd::relations::sorted_by(sorted, leq));
        }
    }
    let rest = heights.remove(outlier);
    assert(rest.to_multiset() =~= heights.to_multiset().remove(heights[outlier]));
    assert forall|x: u64| rest.to_multiset().count(x) > 0 implies x <= bound by {
        rest.to_multiset_ensures();
        assert(rest.contains(x));
        let i = choose|i: int| 0 <= i < rest.len() && rest[i] == x;
        if i < outlier {
            assert(heights[i] == x);
        } else {
            assert(heights[i + 1] == x);
        }
    }
    if sorted[n - 2] > bound {
        let a = sorted[n - 2];
        let b = sorted[n - 1];
        assert(leq(a, b)) by {
            assert(vstd::relations::sorted_by(sorted, leq));
        }
        let short = sorted.remove(n - 1);
        assert(short.to_multiset() =~= sorted.to_multiset().remove(b));
        assert(sorted.contains(b));
        assert(heights.to_multiset().count(b) > 0);
        if b == heights[outlier] {
            short.to_multiset_ensures();
            assert(short[n - 2] == a);
            assert(short.contains(a));
            assert(rest.to_multiset().count(a) > 0);
        } else {
            assert(rest.to_multiset().count(b) > 0);
        }
    }
}

/// Runtime settings of a chain do not lift what the configuration lays down: a denied chain stays
/// disabled, and a configured one is pinned by whatever setting of its pin.
pub proof fn lemma_configuration_comes_first(
    v: RegistryView,
    chain_id: u64,
    value: ChainOverrideState,
)
    requires
        v.wf(),
        v.chains.contains_key(chain_id),
    ensures
        ({
            let w = v.with_chain_override(chain_id, value);
            &&& v.is_denied(chain_id) ==> w.chains[chain_id].label() is Disabled
            &&& v.is_denied(chain_id) ==> v.plain().chains[chain_id].label() is Disabled
            &&& v.config.chains@.contains(chain_id) && value.pinned is Some
                ==> w.chains[chain_id].pinned
            &&& v.config.chains@.contains(chain_id) ==> v.plain().chains[chain_id].pinned
        }),
{
}

/// Whether the key of stored settings is that of the endpoint they are for.
pub open spec fn is_own_key(key: Seq<char>, value: EndpointOverrideState) -> bool {
    exists|chain_id: u64| #[trigger] crate::keys::key_of(chain_id, value.url@) == key
}

/// The settings of chains that are within their bounds.
pub open spec fn valid_chains(all: Map<u64, ChainOverrideState>) -> Map<u64, ChainOverrideState> {
    Map::new(
        |k: u64| all.contains_key(k) && crate::registry_model::valid_chain_override(all[k]),
        |k: u64| all[k],
    )
}

/// The settings of endpoints that are within their bounds.
pub open spec fn valid_endpoints(all: Map<Seq<char>, EndpointOverrideState>) -> Map<
    Seq<char>,
    EndpointOverrideState,
> {
    Map::new(
        |k: Seq<char>|
            all.contains_key(k) && crate::registry_model::valid_endpoint_override(all[k]),
        |k: Seq<char>| all[k],
    )
}

/// Once stored runtime settings were put into force, those in force are exactly the stored ones that
/// are within their bounds, whatever was in force before: for chains as for endpoints.
pub proof fn lemma_settings_in_force(v: RegistryView, o: Overrides, now: u64)
    requires
        o.wf(),
        forall|k: Seq<char>| #[trigger]
            o.endpoints@.contains_key(k) ==> is_own_key(k, o.endpoints@[k]),
    ensures
        ({
            let w = v.plain().with_chain_overrides(o.chains.entries()).with_endpoint_overrides(
                o.endpoints.entries(),
                now,
            );
            &&& w.chain_overrides == valid_chains(o.chains@)
            &&& w.endpoint_overrides == valid_endpoints(o.endpoints@)
        }),
{
    let chains = o.chains.entries();
    let endpoints = o.endpoints.entries();
    let ready = v.plain().with_chain_overrides(chains);
    let w = ready.with_endpoint_overrides(endpoints, now);
    lemma_chain_settings_walk(v.plain(), chains);
    assert forall|i: int| 0 <= i < endpoints.len() implies is_own_key(
        (#[trigger] endpoints[i]).0@,
        endpoints[i].1,
    ) by {
        o.endpoints.lemma_entry(i);
    }
    lemma_endpoint_settings_walk(ready, endpoints, now);
    assert forall|k: u64| w.chain_overrides.contains_key(k) <==> #[trigger] valid_chains(
        o.chains@,
    ).contains_key(k) by {
        if w.chain_overrides.contains_key(k) {
            let i = choose|i: int| stored_for(chains, i, k, w.chain_overrides[k]);
            o.chains.lemma_entry(i);
        }
        if valid_chains(o.chains@).contains_key(k) {
            let i = choose|i: int| o.chains.holds(i, k);
            o.chains.lemma_entry(i);
            assert(chains[i].0 == k);
        }
    }
    assert forall|k: u64| #[trigger] w.chain_overrides.contains_key(k) implies w.chain_overrides[k]
        == valid_chains(o.chains@)[k] by {
        let i = choose|i: int| stored_for(chains, i, k, w.chain_overrides[k]);
        o.chains.lemma_entry(i);
        assert(valid_chains(o.chains@).contains_key(k));
    }
    assert(w.chain_overrides =~= valid_chains(o.chains@));
    assert forall|k: Seq<char>| w.endpoint_overrides.contains_key(k) <==> #[trigger] valid_endpoints(
        o.endpoints@,
    ).contains_key(k) by {
        if w.endpoint_overrides.contains_key(k) {
            let i = choose|i: int| stored_under(endpoints, i, k, w.endpoint_overrides[k]);
            o.endpoints.lemma_entry(i);
        }
        if valid_endpoints(o.endpoints@).contains_key(k) {
            let i = choose|i: int| o.endpoints.holds(i, k);
            o.endpoints.lemma_entry(i);
            assert(endpoints[i].0@ == k);
        }
    }
    assert forall|k: Seq<char>| #[trigger]
        w.endpoint_overrides.contains_key(k) implies w.endpoint_overrides[k] == valid_endpoints(
        o.endpoints@,
    )[k] by {
        let i = choose|i: int| stored_under(endpoints, i, k, w.endpoint_overrides[k]);
        o.endpoints.lemma_entry(i);
        assert(valid_endpoints(o.endpoints@).contains_key(k));
    }
    assert(w.endpoint_overrides =~= valid_endpoints(o.endpoints@));
}

spec fn stored_for(
    entries: Seq<(u64, ChainOverrideState)>,
    i: int,
    chain_id: u64,
    value: ChainOverrideState,
) -> bool {
    &&& 0 <= i < entries.len()
    &&& entries[i] == (chain_id, value)
    &&& crate::registry_model::valid_chain_override(value)
}

spec fn stored_under(
    entries: Seq<(String, EndpointOverrideState)>,
    i: int,
    key: Seq<char>,
    value: EndpointOverrideState,
) -> bool {
    &&& 0 <= i < entries.len()
    &&& entries[i].0@ == key
    &&& entries[i].1 == value
    &&& crate::registry_model::valid_endpoint_override(value)
}

proof fn lemma_chain_settings_walk(v: RegistryView, entries: Seq<(u64, ChainOverrideState)>)
    requires
        v.chain_overrides == Map::<u64, ChainOverrideState>::empty(),
    ensures
        ({
            let w = v.with_chain_overrides(entries);
            &&& w.endpoint_overrides == v.endpoint_overrides
            &&& forall|k: u64| #[trigger]
                w.chain_overrides.contains_key(k) ==> exists|i: int|
                    stored_for(entries, i, k, w.chain_overrides[k])
            &&& forall|i: int|
                0 <= i < entries.len() && crate::registry_model::valid_chain_override(
                    (#[trigger] entries[i]).1,
                ) ==> w.chain_overrides.contains_key(entries[i].0)
        }),
    decreases entries.len(),
{
    if entries.len() > 0 {
        let short = entries.drop_last();
        lemma_chain_settings_walk(v, short);
        let before = v.with_chain_overrides(short);
        let w = v.with_chain_overrides(entries);
        assert forall|k: u64| #[trigger] w.chain_overrides.contains_key(k) implies exists|i: int|
            stored_for(entries, i, k, w.chain_overrides[k]) by {
            if crate::registry_model::valid_chain_override(entries.last().1) && k
                == entries.last().0 {
                assert(stored_for(entries, entries.len() - 1, k, w.chain_overrides[k]));
            } else {
                assert(before.chain_overrides.contains_key(k));
                let i = choose|i: int| stored_for(short, i, k, before.chain_overrides[k]);
                assert(stored_for(entries, i, k, w.chain_overrides[k]));
            }
        }
        assert forall|i: int|
            0 <= i < entries.len() && crate::registry_model::valid_chain_override(
                (#[trigger] entries[i]).1,
            ) implies w.chain_overrides.contains_key(entries[i].0) by {
            if i < short.len() {
                assert(short[i] == entries[i]);
            }
        }
    }
}

proof fn lemma_endpoint_settings_walk(
    v: RegistryView,
    entries: Seq<(String, EndpointOverrideState)>,
    now: u64,
)
    requires
        v.endpoint_overrides == Map::<Seq<char>, EndpointOverrideState>::empty(),
        forall|i: int|
            0 <= i < entries.len() ==> is_own_key((#[trigger] entries[i]).0@, entries[i].1),
    ensures
        ({
            let w = v.with_endpoint_overrides(entries, now);
            &&& w.chain_overrides == v.chain_overrides
            &&& forall|k: Seq<char>| #[trigger]
                w.endpoint_overrides.contains_key(k) ==> exists|i: int|
                    stored_under(entries, i, k, w.endpoint_overrides[k])
            &&& forall|i: int|
                0 <= i < entries.len() && crate::registry_model::valid_endpoint_override(
                    (#[trigger] entries[i]).1,
                ) ==> w.endpoint_overrides.contains_key(entries[i].0@)
        }),
    decreases entries.len(),
{
    if entries.len() > 0 {
        let short = entries.drop_last();
        assert forall|i: int| 0 <= i < short.len() implies is_own_key(
            (#[trigger] short[i]).0@,
            short[i].1,
        ) by {
            assert(short[i] == entries[i]);
        }
        lemma_endpoint_settings_walk(v, short, now);
        let before = v.with_endpoint_overrides(short, now);
        let w = v.with_endpoint_overrides(entries, now);
        let (key, value) = entries.last();
        assert(entries[entries.len() - 1] == (key, value));
        let chain_id = choose|chain_id: u64|
            #[trigger] crate::keys::key_of(chain_id, value.url@) == key@;
        crate::keys::lemma_key_names_its_chain(chain_id, value.url@);
        assert(crate::keys::key_of(crate::keys::chain_of(key@), value.url@) == key@);
        assert forall|k: Seq<char>| #[trigger] w.endpoint_overrides.contains_key(k) implies exists|
            i: int,
        | stored_under(entries, i, k, w.endpoint_overrides[k]) by {
            if crate::registry_model::valid_endpoint_override(value) && k == key@ {
                assert(stored_under(entries, entries.len() - 1, k, w.endpoint_overrides[k]));
            } else {
                assert(before.endpoint_overrides.contains_key(k));
                let i = choose|i: int| stored_under(short, i, k, before.endpoint_overrides[k]);
                assert(stored_under(entries, i, k, w.endpoint_overrides[k]));
            }
        }
        assert forall|i: int|
            0 <= i < entries.len() && crate::registry_model::valid_endpoint_override(
                (#[trigger] entries[i]).1,
            ) implies w.endpoint_overrides.contains_key(entries[i].0@) by {
            if i < short.len() {
                assert(short[i] == entries[i]);
            }
        }
    }
}

/// The label of a chain: switched off counts first, then pinned, then hot.
pub proof fn lemma_label_order(c: ChainView)
    ensures
        c.disabled <==> c.label() is Disabled,
        !c.disabled && c.pinned <==> c.label() is Pinned,
        !c.disabled && !c.pinned && c.last_ingress > 0 <==> c.label() is Hot,
        !c.disabled && !c.pinned && c.last_ingress == 0 <==> c.label() is Dormant,
{
}

} // verus!
