//! What routing is for: every endpoint that can serve is tried, and an endpoint is at fault for its height
//! exactly where it is too far from the head of the chain.
use crate::endpoint::EndpointView;
use crate::health::{FailureSignal, FaultKind};
use crate::registry_model::RegistryView;
use crate::selection::PoolKind;
use vstd::prelude::*;

verus! {

proof fn lemma_all_places(endpoints: Seq<EndpointView>, active: bool)
    requires
        endpoints.len() <= usize::MAX,
    ensures
        ({
            let places = crate::registry_model::places_of(endpoints, active);
            &&& places.no_duplicates()
            &&& forall|p: usize| #[trigger]
                places.contains(p) <==> p < endpoints.len() && (if active {
                    endpoints[p as int].health.status is Active
                } else {
                    endpoints[p as int].health.status is Probation
                })
        }),
    decreases endpoints.len(),
{
    if endpoints.len() > 0 {
        let short = endpoints.drop_last();
        lemma_all_places(short, active);
        let before = crate::registry_model::places_of(short, active);
        let places = crate::registry_model::places_of(endpoints, active);
        let last = (endpoints.len() - 1) as usize;
        assert forall|p: usize| #[trigger] places.contains(p) <==> p < endpoints.len() && (if active {
            endpoints[p as int].health.status is Active
        } else {
            endpoints[p as int].health.status is Probation
        }) by {
            crate::registry_model::lemma_push_contains(before, last, p);
            assert(before.contains(p) <==> p < short.len() && (if active {
                short[p as int].health.status is Active
            } else {
                short[p as int].health.status is Probation
            }));
        }
        assert(!before.contains(last));
        assert(places.no_duplicates());
    }
}

/// A request can fail over to every endpoint that can serve it. As long as an endpoint is active, the
/// list holds all the active ones and no other; with none, it holds all those on probation and no other.
/// None is listed twice, and what is tried first is not worse than everything that is tried later.
pub proof fn lemma_every_usable_endpoint_is_tried(
    endpoints: Seq<EndpointView>,
    scores: Seq<u64>,
    list: Seq<usize>,
    kind: PoolKind,
)
    requires
        endpoints.len() <= usize::MAX,
        crate::selection::is_draw(list, crate::registry_model::pool_of(endpoints), scores),
        kind == crate::registry_model::pool_kind(endpoints),
    ensures
        list.no_duplicates(),
        forall|i: int| 0 <= i < list.len() ==> (#[trigger] list[i]) < endpoints.len(),
        (exists|i: int| 0 <= i < endpoints.len() && (#[trigger] endpoints[i]).health.status is Active)
            ==> kind is Active && forall|i: int|
            0 <= i < endpoints.len() ==> ((#[trigger] endpoints[i]).health.status is Active
                <==> list.contains(i as usize)),
        !(exists|i: int|
            0 <= i < endpoints.len() && (#[trigger] endpoints[i]).health.status is Active)
            ==> !(kind is Active) && forall|i: int|
            0 <= i < endpoints.len() ==> ((#[trigger] endpoints[i]).health.status is Probation
                <==> list.contains(i as usize)),
        kind is Empty <==> list.len() == 0,
        forall|i: int|
            0 <= i < list.len() - 1 ==> exists|j: int|
                i < j < list.len() && scores[#[trigger] list[i] as int] <= scores[#[trigger] list[j] as int],
        list.len() == 2 ==> scores[list[0] as int] <= scores[list[1] as int],
{
    let pool = crate::registry_model::pool_of(endpoints);
    let picks = choose|picks: Seq<(usize, usize)>|
        crate::selection::fit(picks, pool.len() as int) && list
            == #[trigger] crate::selection::arranged(pool, scores, picks);
    crate::selection::lemma_arranged(pool, scores, picks);
    lemma_all_places(endpoints, true);
    lemma_all_places(endpoints, false);
    let active = crate::registry_model::places_of(endpoints, true);
    let waiting = crate::registry_model::places_of(endpoints, false);
    list.to_multiset_ensures();
    pool.to_multiset_ensures();
    assert forall|p: usize| #[trigger] list.contains(p) <==> pool.contains(p) by {
        assert(list.to_multiset().count(p) == pool.to_multiset().count(p));
    }
    assert(pool.no_duplicates());
    pool.lemma_multiset_has_no_duplicates();
    assert forall|p: usize| list.to_multiset().contains(p) implies list.to_multiset().count(p) == 1 by {
        assert(pool.to_multiset().contains(p));
    }
    list.lemma_multiset_has_no_duplicates_conv();
    if exists|i: int|
        0 <= i < endpoints.len() && (#[trigger] endpoints[i]).health.status is Active {
        let i = choose|i: int|
            0 <= i < endpoints.len() && (#[trigger] endpoints[i]).health.status is Active;
        assert(active.contains(i as usize));
        assert(active.len() > 0);
        assert forall|i: int| 0 <= i < endpoints.len() implies ((
        #[trigger] endpoints[i]).health.status is Active <==> list.contains(i as usize)) by {
            assert(active.contains(i as usize) <==> endpoints[i].health.status is Active);
        }
    } else {
        if active.len() > 0 {
            assert(active.contains(active[0]));
            assert(endpoints[active[0] as int].health.status is Active);
        }
        assert forall|i: int| 0 <= i < endpoints.len() implies ((
        #[trigger] endpoints[i]).health.status is Probation <==> list.contains(i as usize)) by {
            assert(waiting.contains(i as usize) <==> endpoints[i].health.status is Probation);
        }
    }
    assert forall|i: int| 0 <= i < list.len() implies (#[trigger] list[i]) < endpoints.len() by {
        assert(list.contains(list[i]));
    }
    assert forall|i: int| 0 <= i < list.len() - 1 implies exists|j: int|
        i < j < list.len() && scores[#[trigger] list[i] as int] <= scores[#[trigger] list[j] as int] by {
        assert(crate::selection::beats_a_later_one(list, scores, i));
        let j = choose|j: int|
            i < j < list.len() && scores[list[i] as int] <= scores[#[trigger] list[j] as int];
        assert(scores[list[i] as int] <= scores[list[j] as int]);
    }
    if list.len() == 2 {
        assert(crate::selection::beats_a_later_one(list, scores, 0));
    }
}

/// Of two places of a pool that are drawn, the one with the smaller score is tried first of all, and the
/// first drawn where the scores are the same.
pub proof fn lemma_better_of_two_goes_first(
    pool: Seq<usize>,
    scores: Seq<u64>,
    picks: Seq<(usize, usize)>,
    first: int,
    second: int,
)
    requires
        crate::selection::fit(picks, pool.len() as int),
        pool.len() >= 2,
        first == picks[0].0,
        second == (if picks[0].1 < first {
            picks[0].1 as int
        } else {
            picks[0].1 + 1
        }),
    ensures
        first != second,
        0 <= second < pool.len(),
        crate::selection::arranged(pool, scores, picks)[0] == (if scores[pool[second] as int]
            < scores[pool[first] as int] {
            pool[second]
        } else {
            pool[first]
        }),
{
    assert(picks[0].1 < pool.len() - 1);
}

/// The head of a chain is the highest of its heights, where there are one or two; of up to nineteen the
/// second highest, and of more the highest once a tenth of them, counted from above, is left out.
pub proof fn lemma_head_leaves_the_highest_out(heights: Seq<u64>, sorted: Seq<u64>)
    requires
        sorted.to_multiset() == heights.to_multiset(),
        forall|i: int, j: int| 0 <= i < j < sorted.len() ==> sorted[i] <= sorted[j],
    ensures
        heights.len() == 0 ==> crate::registry_model::trimmed_greatest(heights) is None,
        1 <= heights.len() <= 2 ==> crate::registry_model::trimmed_greatest(heights) == Some(
            sorted[heights.len() - 1],
        ),
        3 <= heights.len() <= 19 ==> crate::registry_model::trimmed_greatest(heights) == Some(
            sorted[heights.len() - 2],
        ),
        heights.len() >= 20 ==> crate::registry_model::trimmed_greatest(heights) == Some(
            sorted[heights.len() - 1 - heights.len() / 10],
        ),
{
    let leq = |a: u64, b: u64| a <= b;
    heights.lemma_sort_by_ensures(leq);
    heights.to_multiset_ensures();
    sorted.to_multiset_ensures();
    let own = crate::order::ascending(heights);
    assert(vstd::relations::sorted_by(sorted, leq));
    assert(vstd::relations::total_ordering(leq));
    vstd::seq_lib::lemma_sorted_unique(own, sorted, leq);
}

proof fn lemma_recent(endpoints: Seq<EndpointView>, now: u128, freshness: u128, i: int, h: u64)
    requires
        0 <= i < endpoints.len(),
        endpoints[i].height == Some((h, now)),
    ensures
        crate::registry_model::recent_heights(endpoints, now, freshness).contains(h),
    decreases endpoints.len(),
{
    let short = endpoints.drop_last();
    let before = crate::registry_model::recent_heights(short, now, freshness);
    let all = crate::registry_model::recent_heights(endpoints, now, freshness);
    if i < short.len() {
        assert(short[i] == endpoints[i]);
        lemma_recent(short, now, freshness, i, h);
        let k = choose|k: int| 0 <= k < before.len() && before[k] == h;
        assert(all[k] == h);
    } else {
        assert(all[before.len() as int] == h);
    }
}

/// How far from the head of its chain an endpoint may be.
pub open spec fn tolerated_lag(v: RegistryView, chain_id: u64) -> u64 {
    if v.chain_overrides.contains_key(chain_id)
        && v.chain_overrides[chain_id].max_block_lag is Some {
        v.chain_overrides[chain_id].max_block_lag->0
    } else {
        v.config.lag_for(chain_id)
    }
}

/// A probe that reports a height within reach of the head leaves the health of its endpoint and its count
/// of failures as they were. One that is further away, below or above, is a fault of the endpoint: one
/// failure more, and on probation a pause. No other endpoint is at fault for it.
pub proof fn lemma_only_distant_heights_are_faults(
    v: RegistryView,
    chain_id: u64,
    p: int,
    height: u64,
    now: u128,
)
    requires
        v.wf(),
        v.chains.contains_key(chain_id),
        0 <= p < v.chains[chain_id].endpoints.len(),
        now <= crate::health::MAX_INSTANT,
        v.chains[chain_id].endpoints[p].stats.failures < u64::MAX,
    ensures
        ({
            let c = v.chains[chain_id];
            let after = v.probed_chain(chain_id, Some(p), height, now);
            let e = c.endpoints[p];
            let f = after.endpoints[p];
            let far = after.head - height > tolerated_lag(v, chain_id) || height - after.head
                > tolerated_lag(v, chain_id);
            &&& after.endpoints.len() == c.endpoints.len()
            &&& f.height == Some((height, now))
            &&& !far ==> f.health == e.health && f.stats == e.stats && f.outcomes == e.outcomes
            &&& far ==> f.stats.failures == e.stats.failures + 1
            &&& far ==> f.outcomes.len() > 0 && f.outcomes.last() == (now, true)
            &&& far && e.health.status is Probation ==> f.health.status is Cooling
            &&& far ==> f.health == e.health.after_failure(
                now,
                FailureSignal { kind: FaultKind::Lagging, retry_after: None },
            )
            &&& f.lag == after.head - height || f.lag == height - after.head
            &&& f.latency == e.latency && f.in_flight == e.in_flight && f.url == e.url
            &&& forall|q: int|
                0 <= q < c.endpoints.len() && q != p ==> {
                    &&& (#[trigger] after.endpoints[q]).health == c.endpoints[q].health
                    &&& after.endpoints[q].stats == c.endpoints[q].stats
                    &&& after.endpoints[q].height == c.endpoints[q].height
                    &&& after.endpoints[q].url == c.endpoints[q].url
                }
            &&& after.pinned == c.pinned && after.disabled == c.disabled && after.last_ingress
                == c.last_ingress && after.rejected == c.rejected
        }),
{
    let c = v.chains[chain_id];
    let seen = c.endpoints.update(
        p,
        EndpointView { height: Some((height, now)), dirty: true, ..c.endpoints[p] },
    );
    lemma_recent(seen, now, v.freshness(), p, height);
    let heights = crate::registry_model::recent_heights(seen, now, v.freshness());
    assert(heights.len() > 0);
    let after = v.probed_chain(chain_id, Some(p), height, now);
    assert(seen[p].recent_height(now, v.freshness()) == Some(height));
    assert forall|q: int| 0 <= q < c.endpoints.len() && q != p implies {
        &&& (#[trigger] after.endpoints[q]).health == c.endpoints[q].health
        &&& after.endpoints[q].stats == c.endpoints[q].stats
        &&& after.endpoints[q].height == c.endpoints[q].height
        &&& after.endpoints[q].url == c.endpoints[q].url
    } by {
        assert(seen[q] == c.endpoints[q]);
    }
}

/// The head that a probe leads to is one that some endpoint reported not longer ago than twice the longest
/// time between probes, and the distance of every such endpoint is worked out from it.
pub proof fn lemma_head_comes_from_fresh_heights(
    v: RegistryView,
    chain_id: u64,
    p: int,
    height: u64,
    now: u128,
)
    requires
        v.wf(),
        v.chains.contains_key(chain_id),
        0 <= p < v.chains[chain_id].endpoints.len(),
        v.config.probe.max_interval_seconds <= 0x1000_0000,
    ensures
        ({
            let c = v.chains[chain_id];
            let after = v.probed_chain(chain_id, Some(p), height, now);
            let window = v.config.probe.max_interval_seconds * 2 * 1_000_000_000;
            &&& exists|q: int|
                0 <= q < c.endpoints.len() && ((#[trigger] after.endpoints[q]).height matches Some(
                    (h, t),
                ) && h == after.head && now - t <= window)
            &&& forall|q: int|
                0 <= q < c.endpoints.len() ==> ((#[trigger] after.endpoints[q]).height matches Some(
                    (h, t),
                ) ==> (if now - t <= window {
                    after.endpoints[q].lag == after.head - h || after.endpoints[q].lag == h
                        - after.head
                } else {
                    after.endpoints[q].lag == c.endpoints[q].lag
                }))
        }),
{
    let c = v.chains[chain_id];
    let seen = c.endpoints.update(
        p,
        EndpointView { height: Some((height, now)), dirty: true, ..c.endpoints[p] },
    );
    let freshness = v.freshness();
    assert(freshness == v.config.probe.max_interval_seconds * 2 * 1_000_000_000);
    lemma_recent(seen, now, freshness, p, height);
    let heights = crate::registry_model::recent_heights(seen, now, freshness);
    let leq = |a: u64, b: u64| a <= b;
    heights.lemma_sort_by_ensures(leq);
    heights.to_multiset_ensures();
    let sorted = crate::order::ascending(heights);
    sorted.to_multiset_ensures();
    let n = heights.len() as int;
    assert(n > 0);
    let at = n - 1 - crate::registry_model::trimmed_off(n);
    assert(0 <= at < n);
    let head = sorted[at];
    assert(sorted.contains(head));
    assert(heights.to_multiset().count(head) > 0);
    assert(heights.contains(head));
    let q = lemma_recent_source(seen, now, freshness, head);
    let after = v.probed_chain(chain_id, Some(p), height, now);
    assert(after.head == head);
    assert(after.endpoints[q].height == seen[q].height);
    assert forall|q: int| 0 <= q < c.endpoints.len() implies ((
    #[trigger] after.endpoints[q]).height matches Some((h, t)) ==> (if now - t <= freshness {
        after.endpoints[q].lag == after.head - h || after.endpoints[q].lag == h - after.head
    } else {
        after.endpoints[q].lag == c.endpoints[q].lag
    })) by {
        assert(after.endpoints[q].height == seen[q].height);
    }
}

proof fn lemma_recent_source(
    endpoints: Seq<EndpointView>,
    now: u128,
    freshness: u128,
    h: u64,
) -> (q: int)
    requires
        crate::registry_model::recent_heights(endpoints, now, freshness).contains(h),
    ensures
        0 <= q < endpoints.len(),
        endpoints[q].height matches Some((x, t)) && x == h && now - t <= freshness,
    decreases endpoints.len(),
{
    let short = endpoints.drop_last();
    let before = crate::registry_model::recent_heights(short, now, freshness);
    let all = crate::registry_model::recent_heights(endpoints, now, freshness);
    let k = choose|k: int| 0 <= k < all.len() && all[k] == h;
    if k < before.len() {
        assert(before[k] == h);
        lemma_recent_source(short, now, freshness, h)
    } else {
        endpoints.len() - 1
    }
}

/// A height for a URL that the chain does not have is nobody's fault.
pub proof fn lemma_height_of_a_stranger_is_no_fault(
    v: RegistryView,
    chain_id: u64,
    height: u64,
    now: u128,
)
    requires
        v.chains.contains_key(chain_id),
    ensures
        ({
            let c = v.chains[chain_id];
            let after = v.probed_chain(chain_id, None, height, now);
            &&& after.endpoints.len() == c.endpoints.len()
            &&& forall|q: int|
                0 <= q < c.endpoints.len() ==> (#[trigger] after.endpoints[q]).health
                    == c.endpoints[q].health && after.endpoints[q].stats == c.endpoints[q].stats
                    && after.endpoints[q].height == c.endpoints[q].height
        }),
{
}

/// The heights that endpoints were seen at, no longer ago than the given time.
pub open spec fn fresh_heights(endpoints: Seq<EndpointView>, now: u128, window: int) -> Seq<u64>
    decreases endpoints.len(),
{
    if endpoints.len() == 0 {
        Seq::empty()
    } else {
        let before = fresh_heights(endpoints.drop_last(), now, window);
        match endpoints.last().height {
            Some((h, t)) if now - t <= window => before.push(h),
            _ => before,
        }
    }
}

/// After a probe the head is the greatest of the fresh heights, the highest few left out.
pub proof fn lemma_head_is_the_greatest_but_a_few(
    v: RegistryView,
    chain_id: u64,
    p: int,
    height: u64,
    now: u128,
)
    requires
        v.chains.contains_key(chain_id),
        0 <= p < v.chains[chain_id].endpoints.len(),
        v.config.probe.max_interval_seconds <= 0x1000_0000,
    ensures
        ({
            let after = v.probed_chain(chain_id, Some(p), height, now);
            let window = v.config.probe.max_interval_seconds * 2 * 1_000_000_000;
            let heights = fresh_heights(after.endpoints, now, window);
            &&& heights.len() > 0
            &&& crate::registry_model::trimmed_greatest(heights) == Some(after.head)
        }),
{
    let c = v.chains[chain_id];
    let seen = c.endpoints.update(
        p,
        EndpointView { height: Some((height, now)), dirty: true, ..c.endpoints[p] },
    );
    let freshness = v.freshness();
    assert(freshness == v.config.probe.max_interval_seconds * 2 * 1_000_000_000);
    lemma_recent(seen, now, freshness, p, height);
    let after = v.probed_chain(chain_id, Some(p), height, now);
    assert forall|q: int| 0 <= q < seen.len() implies (#[trigger] after.endpoints[q]).height
        == seen[q].height by {}
    lemma_same_heights(seen, after.endpoints, now, freshness);
}

proof fn lemma_same_heights(
    seen: Seq<EndpointView>,
    after: Seq<EndpointView>,
    now: u128,
    freshness: u128,
)
    requires
        seen.len() == after.len(),
        forall|q: int| 0 <= q < seen.len() ==> (#[trigger] after[q]).height == seen[q].height,
    ensures
        fresh_heights(after, now, freshness as int) == crate::registry_model::recent_heights(
            seen,
            now,
            freshness,
        ),
    decreases seen.len(),
{
    if seen.len() > 0 {
        let a = after.drop_last();
        let s = seen.drop_last();
        assert forall|q: int| 0 <= q < s.len() implies (#[trigger] a[q]).height == s[q].height by {
            assert(a[q] == after[q] && s[q] == seen[q]);
        }
        lemma_same_heights(s, a, now, freshness);
        assert(after[after.len() - 1].height == seen[seen.len() - 1].height);
    }
}

} // verus!
