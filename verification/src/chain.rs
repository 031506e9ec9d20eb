//! The runtime state of one chain: its pool of endpoints and its place in the life cycle.
use crate::config;
use crate::endpoint::{Endpoint, EndpointView};
use crate::health::MAX_INSTANT;
use crate::keys;
use crate::state::HealthSnapshot;
use crate::table::KeyTable;
use crate::text;
use vstd::prelude::*;

verus! {

/// Where a chain stands in its life cycle.
#[derive(Clone, Copy, Debug, PartialEq, Eq, Structural)]
pub enum ChainStateLabel {
    Pinned,
    Hot,
    Dormant,
    Disabled,
}

/// The state of a chain, as contracts speak of it.
pub ghost struct ChainView {
    pub chain_id: u64,
    pub name: Seq<char>,
    pub endpoints: Seq<EndpointView>,
    pub rejected: Set<Seq<char>>,
    pub head: u64,
    pub pinned: bool,
    pub disabled: bool,
    pub last_ingress: u64,
}

impl ChainView {
    /// A chain of which nothing is known yet.
    pub open spec fn fresh(chain_id: u64, name: Seq<char>, pinned: bool) -> ChainView {
        ChainView {
            chain_id,
            name,
            endpoints: Seq::empty(),
            rejected: Set::empty(),
            head: 0,
            pinned,
            disabled: false,
            last_ingress: 0,
        }
    }

    /// No URL occurs twice among the endpoints, and each endpoint is well-formed.
    pub open spec fn wf(self) -> bool {
        &&& distinct_urls(self.endpoints)
        &&& forall|i: int| 0 <= i < self.endpoints.len() ==> (#[trigger] self.endpoints[i]).wf()
    }

    pub open spec fn label(self) -> ChainStateLabel {
        if self.disabled {
            ChainStateLabel::Disabled
        } else if self.pinned {
            ChainStateLabel::Pinned
        } else if self.last_ingress > 0 {
            ChainStateLabel::Hot
        } else {
            ChainStateLabel::Dormant
        }
    }

    /// Pinned or hot: the chain has its endpoints in memory.
    pub open spec fn is_live(self) -> bool {
        self.label() is Pinned || self.label() is Hot
    }

    /// The chain after its endpoints were dropped from memory.
    pub open spec fn demoted(self) -> ChainView {
        ChainView { endpoints: Seq::empty(), last_ingress: 0, ..self }
    }
}

pub open spec fn views(endpoints: Seq<Endpoint>) -> Seq<EndpointView> {
    endpoints.map_values(|e: Endpoint| e@)
}

/// Whether an endpoint with the given URL is in the list.
pub open spec fn has_url(endpoints: Seq<EndpointView>, url: Seq<char>) -> bool {
    exists|i: int| 0 <= i < endpoints.len() && (#[trigger] endpoints[i]).url == url
}

/// Where the first endpoint with the given URL stands.
pub open spec fn is_first_with(endpoints: Seq<EndpointView>, url: Seq<char>, i: int) -> bool {
    &&& 0 <= i < endpoints.len()
    &&& endpoints[i].url == url
    &&& forall|k: int| 0 <= k < i ==> (#[trigger] endpoints[k]).url != url
}

/// No two endpoints have the same URL.
pub open spec fn distinct_urls(endpoints: Seq<EndpointView>) -> bool {
    forall|i: int, j: int|
        0 <= i < j < endpoints.len() ==> (#[trigger] endpoints[i]).url
            != (#[trigger] endpoints[j]).url
}

/// The endpoints without the one of the given URL.
pub open spec fn without_url(endpoints: Seq<EndpointView>, url: Seq<char>) -> Seq<EndpointView>
    decreases endpoints.len(),
{
    if endpoints.len() == 0 {
        Seq::empty()
    } else if endpoints.last().url == url {
        without_url(endpoints.drop_last(), url)
    } else {
        without_url(endpoints.drop_last(), url).push(endpoints.last())
    }
}

/// What is left after a URL was taken out stood no earlier before.
proof fn lemma_left_over(endpoints: Seq<EndpointView>, url: Seq<char>, i: int)
    requires
        0 <= i < without_url(endpoints, url).len(),
    ensures
        exists|j: int|
            i <= j < endpoints.len() && #[trigger] endpoints[j] == without_url(endpoints, url)[i],
    decreases endpoints.len(),
{
    let p = endpoints.drop_last();
    let kept = without_url(p, url);
    if i < kept.len() {
        lemma_left_over(p, url, i);
        let j = choose|j: int| i <= j < p.len() && #[trigger] p[j] == kept[i];
        assert(endpoints[j] == p[j]);
    } else {
        if i > 0 {
            lemma_left_over(p, url, i - 1);
        }
        assert(endpoints[endpoints.len() - 1] == endpoints.last());
    }
}

/// A URL that was taken out is gone; one that was not there changes nothing.
proof fn lemma_taken_out(endpoints: Seq<EndpointView>, url: Seq<char>)
    ensures
        !has_url(without_url(endpoints, url), url),
        !has_url(endpoints, url) ==> without_url(endpoints, url) == endpoints,
        has_url(endpoints, url) ==> without_url(endpoints, url).len() < endpoints.len(),
        without_url(endpoints, url).len() <= endpoints.len(),
    decreases endpoints.len(),
{
    if endpoints.len() > 0 {
        let p = endpoints.drop_last();
        lemma_taken_out(p, url);
        let kept = without_url(p, url);
        let all = without_url(endpoints, url);
        let n = endpoints.len() - 1;
        if has_url(all, url) {
            let k = choose|k: int| 0 <= k < all.len() && (#[trigger] all[k]).url == url;
            assert(k < kept.len());
            assert(kept[k].url == url);
        }
        if !has_url(endpoints, url) {
            assert(endpoints[n].url != url);
            if has_url(p, url) {
                let k = choose|k: int| 0 <= k < p.len() && (#[trigger] p[k]).url == url;
                assert(endpoints[k].url == url);
            }
            assert(p.push(endpoints[n]) =~= endpoints);
        } else if endpoints[n].url != url {
            let k = choose|k: int|
                0 <= k < endpoints.len() && (#[trigger] endpoints[k]).url == url;
            assert(p[k].url == url);
        }
    }
}

proof fn lemma_left_over_is_distinct(endpoints: Seq<EndpointView>, url: Seq<char>)
    requires
        distinct_urls(endpoints),
    ensures
        distinct_urls(without_url(endpoints, url)),
    decreases endpoints.len(),
{
    if endpoints.len() > 0 {
        let p = endpoints.drop_last();
        let kept = without_url(p, url);
        let all = without_url(endpoints, url);
        let n = endpoints.len() - 1;
        assert forall|i: int, j: int| 0 <= i < j < p.len() implies (#[trigger] p[i]).url != (
        #[trigger] p[j]).url by {
            assert(p[i] == endpoints[i] && p[j] == endpoints[j]);
        }
        lemma_left_over_is_distinct(p, url);
        assert forall|i: int, j: int| 0 <= i < j < all.len() implies (#[trigger] all[i]).url != (
        #[trigger] all[j]).url by {
            if j < kept.len() {
                assert(kept[i].url != kept[j].url);
            } else {
                lemma_left_over(p, url, i);
                let k = choose|k: int| i <= k < p.len() && #[trigger] p[k] == kept[i];
                assert(endpoints[k].url != endpoints[n].url);
            }
        }
    }
}

/// Taking out a URL leaves the other endpoints as they are, in their order.
pub proof fn lemma_without_url(endpoints: Seq<EndpointView>, url: Seq<char>)
    ensures
        !has_url(without_url(endpoints, url), url),
        !has_url(endpoints, url) ==> without_url(endpoints, url) == endpoints,
        has_url(endpoints, url) ==> without_url(endpoints, url).len() < endpoints.len(),
        forall|i: int|
            0 <= i < without_url(endpoints, url).len() ==> exists|j: int|
                i <= j < endpoints.len() && #[trigger] endpoints[j] == #[trigger] without_url(
                    endpoints,
                    url,
                )[i],
        distinct_urls(endpoints) ==> distinct_urls(without_url(endpoints, url)),
{
    lemma_taken_out(endpoints, url);
    assert forall|i: int| 0 <= i < without_url(endpoints, url).len() implies exists|j: int|
        i <= j < endpoints.len() && #[trigger] endpoints[j] == #[trigger] without_url(
            endpoints,
            url,
        )[i] by {
        lemma_left_over(endpoints, url, i);
    }
    if distinct_urls(endpoints) {
        lemma_left_over_is_distinct(endpoints, url);
    }
}

/// The URL and the limits of each endpoint.
pub open spec fn limits_in(endpoints: Seq<EndpointView>) -> Seq<(Seq<char>, u32, usize)> {
    endpoints.map_values(|e: EndpointView| (e.url, e.rps, e.concurrency))
}

/// The endpoints of a pool with stored health put back where there is some. An endpoint that was there
/// before, with the same limits, knows more of itself than what is stored: it is left alone.
pub open spec fn healed(
    chain_id: u64,
    known: Seq<(Seq<char>, u32, usize)>,
    endpoints: Seq<EndpointView>,
    health: Map<Seq<char>, HealthSnapshot>,
    now: u128,
    now_unix: u64,
) -> Seq<EndpointView> {
    endpoints.map_values(
        |e: EndpointView|
            if health.contains_key(crate::keys::key_of(chain_id, e.url)) && !known.contains(
                (e.url, e.rps, e.concurrency),
            ) {
                e.restored(health[crate::keys::key_of(chain_id, e.url)], now, now_unix)
            } else {
                e
            },
    )
}

/// An endpoint that a chain had before, by its URL and its limits.
pub struct KnownEndpoint {
    pub url: String,
    pub rps: u32,
    pub concurrency: usize,
}

impl KnownEndpoint {
    pub open spec fn view(&self) -> (Seq<char>, u32, usize) {
        (self.url@, self.rps, self.concurrency)
    }
}

pub open spec fn known_views(known: Seq<KnownEndpoint>) -> Seq<(Seq<char>, u32, usize)> {
    known.map_values(|k: KnownEndpoint| k@)
}

fn is_known(known: &Vec<KnownEndpoint>, e: &Endpoint) -> (r: bool)
    ensures
        r == known_views(known@).contains((e@.url, e@.rps, e@.concurrency)),
{
    let ghost sought = (e@.url, e@.rps, e@.concurrency);
    let mut i: usize = 0;
    while i < known.len()
        invariant
            i <= known@.len(),
            sought == (e@.url, e@.rps, e@.concurrency),
            forall|k: int| 0 <= k < i ==> #[trigger] known_views(known@)[k] != sought,
        decreases known@.len() - i,
    {
        assert(known_views(known@)[i as int] == known@[i as int]@);
        if known[i].rps == e.rps() && known[i].concurrency == e.concurrency() && text::same(
            known[i].url.as_str(),
            e.url(),
        ) {
            return true;
        }
        i = i + 1;
    }
    false
}

/// One endpoint that a chain ought to have.
pub struct PlanItem {
    pub url: String,
    pub rps: u32,
    pub concurrency: usize,
    /// Switched off at run time.
    pub off: bool,
}

/// Such an endpoint, as contracts speak of it.
pub ghost struct PlanView {
    pub url: Seq<char>,
    pub rps: u32,
    pub concurrency: usize,
    pub off: bool,
}

impl PlanItem {
    pub open spec fn view(&self) -> PlanView {
        PlanView {
            url: self.url@,
            rps: self.rps,
            concurrency: self.concurrency,
            off: self.off,
        }
    }

    fn fitted_by(&self, e: &Endpoint) -> (r: bool)
        ensures
            r == self@.fits(e@),
    {
        let rps: u32 = if self.rps < 1 {
            1
        } else if self.rps > 100 {
            100
        } else {
            self.rps
        };
        let concurrency: usize = if self.concurrency < 1 {
            1
        } else if self.concurrency > 64 {
            64
        } else {
            self.concurrency
        };
        e.rps() == rps && e.concurrency() == concurrency
    }
}

impl PlanView {
    /// Whether an endpoint has the limits that the plan asks for, as far as an endpoint can have them.
    pub open spec fn fits(self, e: EndpointView) -> bool {
        &&& e.rps == crate::endpoint::clamped(self.rps as int, 1, 100)
        &&& e.concurrency == crate::endpoint::clamped(self.concurrency as int, 1, 64)
    }
}

pub open spec fn plan_views(plan: Seq<PlanItem>) -> Seq<PlanView> {
    plan.map_values(|p: PlanItem| p@)
}

/// The URLs of a plan that are looked at: neither barred by the configuration nor rejected.
pub open spec fn present_urls(
    plan: Seq<PlanView>,
    barred: Set<Seq<char>>,
    rejected: Set<Seq<char>>,
) -> Set<Seq<char>> {
    Set::new(
        |u: Seq<char>|
            !barred.contains(u) && !rejected.contains(u) && exists|i: int|
                0 <= i < plan.len() && (#[trigger] plan[i]).url == u,
    )
}

/// The endpoint for an item of a plan: the one that is there already if its limits still fit, else a
/// new one.
pub open spec fn pooled(item: PlanView, previous: Seq<EndpointView>, now: u64) -> EndpointView {
    if exists|i: int| is_first_with(previous, item.url, i) {
        let i = choose|i: int| is_first_with(previous, item.url, i);
        if item.fits(previous[i]) {
            EndpointView { last_seen: now, ..previous[i] }
        } else {
            EndpointView::fresh(item.url, item.rps, item.concurrency, now)
        }
    } else {
        EndpointView::fresh(item.url, item.rps, item.concurrency, now)
    }
}

/// The endpoints that a plan leads to: one for each URL that is looked at and not switched off, in the
/// order in which the URLs first occur.
pub open spec fn planned(
    plan: Seq<PlanView>,
    barred: Set<Seq<char>>,
    rejected: Set<Seq<char>>,
    previous: Seq<EndpointView>,
    now: u64,
) -> Seq<EndpointView>
    decreases plan.len(),
{
    if plan.len() == 0 {
        Seq::empty()
    } else {
        let before = plan.drop_last();
        let pool = planned(before, barred, rejected, previous, now);
        let item = plan.last();
        if barred.contains(item.url) || rejected.contains(item.url) || present_urls(
            before,
            barred,
            rejected,
        ).contains(item.url) || item.off {
            pool
        } else {
            pool.push(pooled(item, previous, now))
        }
    }
}

/// An endpoint that left the plan is kept for a while.
pub open spec fn lingers(
    e: EndpointView,
    present: Set<Seq<char>>,
    barred: Set<Seq<char>>,
    rejected: Set<Seq<char>>,
    now: u64,
    grace: u64,
) -> bool {
    &&& !present.contains(e.url)
    &&& !barred.contains(e.url)
    &&& !rejected.contains(e.url)
    &&& (if now > e.last_seen {
        now - e.last_seen
    } else {
        0
    }) < grace
}

pub open spec fn lingering(
    previous: Seq<EndpointView>,
    present: Set<Seq<char>>,
    barred: Set<Seq<char>>,
    rejected: Set<Seq<char>>,
    now: u64,
    grace: u64,
) -> Seq<EndpointView>
    decreases previous.len(),
{
    if previous.len() == 0 {
        Seq::empty()
    } else {
        let before = lingering(previous.drop_last(), present, barred, rejected, now, grace);
        if lingers(previous.last(), present, barred, rejected, now, grace) {
            before.push(previous.last())
        } else {
            before
        }
    }
}

/// The pool of endpoints after a plan has been followed.
pub open spec fn merged(
    plan: Seq<PlanView>,
    barred: Set<Seq<char>>,
    rejected: Set<Seq<char>>,
    previous: Seq<EndpointView>,
    now: u64,
    grace: u64,
) -> Seq<EndpointView> {
    planned(plan, barred, rejected, previous, now) + lingering(
        previous,
        present_urls(plan, barred, rejected),
        barred,
        rejected,
        now,
        grace,
    )
}

/// The texts of a list.
pub open spec fn text_set(list: Seq<String>) -> Set<Seq<char>> {
    Set::new(|s: Seq<char>| config::lists_text(list, s))
}

fn find_slot(slots: &Vec<Option<Endpoint>>, url: &str) -> (r: Option<usize>)
    ensures
        match r {
            Some(i) => i < slots@.len() && (slots@[i as int] matches Some(e) && e@.url == url@)
                && forall|k: int|
                0 <= k < i ==> !((#[trigger] slots@[k]) matches Some(e) && e@.url == url@),
            None => forall|k: int|
                0 <= k < slots@.len() ==> !((#[trigger] slots@[k]) matches Some(e) && e@.url
                    == url@),
        },
{
    let mut i: usize = 0;
    while i < slots.len()
        invariant
            i <= slots@.len(),
            forall|k: int|
                0 <= k < i ==> !((#[trigger] slots@[k]) matches Some(e) && e@.url == url@),
        decreases slots@.len() - i,
    {
        if let Some(e) = &slots[i] {
            if text::same(e.url(), url) {
                return Some(i);
            }
        }
        i = i + 1;
    }
    None
}

/// Whether the URL occurs in the plan before the given place.
fn planned_before(plan: &Vec<PlanItem>, at: usize) -> (r: bool)
    requires
        at < plan@.len(),
    ensures
        r == exists|i: int|
            0 <= i < at && (#[trigger] plan_views(plan@)[i]).url == plan_views(plan@)[at as int].url,
{
    let mut i: usize = 0;
    while i < at
        invariant
            i <= at < plan@.len(),
            forall|k: int|
                0 <= k < i ==> (#[trigger] plan_views(plan@)[k]).url != plan_views(
                    plan@,
                )[at as int].url,
        decreases at - i,
    {
        if plan[i].url == plan[at].url {
            assert(plan_views(plan@)[i as int].url == plan_views(plan@)[at as int].url);
            return true;
        }
        i = i + 1;
    }
    false
}

fn planned_at_all(plan: &Vec<PlanItem>, url: &str) -> (r: bool)
    ensures
        r == exists|i: int| 0 <= i < plan@.len() && (#[trigger] plan_views(plan@)[i]).url == url@,
{
    let mut i: usize = 0;
    while i < plan.len()
        invariant
            i <= plan@.len(),
            forall|k: int| 0 <= k < i ==> (#[trigger] plan_views(plan@)[k]).url != url@,
        decreases plan@.len() - i,
    {
        assert(plan_views(plan@)[i as int].url == plan@[i as int].url@);
        if text::same(plan[i].url.as_str(), url) {
            return true;
        }
        i = i + 1;
    }
    false
}

/// Which slots still hold the endpoints that were there before.
spec fn slots_hold(slots: Seq<Option<Endpoint>>, previous: Seq<EndpointView>) -> bool {
    &&& slots.len() == previous.len()
    &&& forall|i: int|
        0 <= i < slots.len() ==> ((#[trigger] slots[i]) matches Some(e) ==> e@ == previous[i])
}

/// Follows a plan: endpoints that still fit are kept, new ones are added, and those that left the plan
/// linger for a while.
pub fn merge_endpoints(
    plan: &Vec<PlanItem>,
    barred: &Vec<String>,
    rejected: &Vec<String>,
    previous: Vec<Endpoint>,
    now: u64,
    grace: u64,
) -> (pool: Vec<Endpoint>)
    requires
        distinct_urls(views(previous@)),
        forall|i: int| 0 <= i < previous@.len() ==> (#[trigger] previous@[i])@.wf(),
    ensures
        views(pool@) == merged(
            plan_views(plan@),
            text_set(barred@),
            text_set(rejected@),
            views(previous@),
            now,
            grace,
        ),
        forall|i: int| 0 <= i < pool@.len() ==> (#[trigger] pool@[i])@.wf(),
{
    let ghost before = views(previous@);
    let ghost pv = plan_views(plan@);
    let ghost bs = text_set(barred@);
    let ghost rs = text_set(rejected@);
    let mut slots: Vec<Option<Endpoint>> = Vec::new();
    let mut previous = previous;
    let ghost all = previous@;
    while previous.len() > 0
        invariant
            all.len() == slots@.len() + previous@.len(),
            before == views(all),
            forall|i: int| 0 <= i < previous@.len() ==> previous@[i] == all[i],
            forall|i: int|
                0 <= i < slots@.len() ==> #[trigger] slots@[i] == Some(all[all.len() - 1 - i]),
        decreases previous@.len(),
    {
        let e = previous.pop();
        slots.push(e);
    }
    let mut ordered: Vec<Option<Endpoint>> = Vec::new();
    while slots.len() > 0
        invariant
            all.len() == slots@.len() + ordered@.len(),
            before == views(all),
            forall|i: int|
                0 <= i < slots@.len() ==> #[trigger] slots@[i] == Some(all[all.len() - 1 - i]),
            forall|i: int| 0 <= i < ordered@.len() ==> #[trigger] ordered@[i] == Some(all[i]),
        decreases slots@.len(),
    {
        let e = slots.pop();
        if let Some(slot) = e {
            ordered.push(slot);
        }
    }
    let mut slots = ordered;
    let mut pool: Vec<Endpoint> = Vec::new();
    let mut i: usize = 0;
    proof {
        assert(slots_hold(slots@, before));
        assert(pv.take(0) =~= Seq::<PlanView>::empty());
        assert(views(pool@) =~= Seq::<EndpointView>::empty());
    }
    while i < plan.len()
        invariant
            i <= plan@.len(),
            pv == plan_views(plan@),
            bs == text_set(barred@),
            rs == text_set(rejected@),
            distinct_urls(before),
            slots_hold(slots@, before),
            forall|k: int|
                0 <= k < slots@.len() && (#[trigger] slots@[k]) is None ==> present_urls(
                    pv.take(i as int),
                    bs,
                    rs,
                ).contains(before[k].url),
            views(pool@) == planned(pv.take(i as int), bs, rs, before, now),
            forall|k: int| 0 <= k < pool@.len() ==> (#[trigger] pool@[k])@.wf(),
            forall|k: int| 0 <= k < before.len() ==> (#[trigger] before[k]).wf(),
        decreases plan@.len() - i,
    {
        let ghost had = views(pool@);
        let ghost shown = pv.take(i as int);
        proof {
            assert(pv.take(i + 1).drop_last() =~= shown);
            assert(pv.take(i + 1).last() == plan@[i as int]@);
            assert forall|u: Seq<char>| present_urls(shown, bs, rs).contains(u) implies present_urls(
                pv.take(i + 1),
                bs,
                rs,
            ).contains(u) by {
                let k = choose|k: int| 0 <= k < shown.len() && (#[trigger] shown[k]).url == u;
                assert(pv.take(i + 1)[k].url == u);
            }
        }
        let url: &str = plan[i].url.as_str();
        let seen = planned_before(plan, i);
        proof {
            assert(seen == exists|k: int|
                0 <= k < shown.len() && (#[trigger] shown[k]).url == plan@[i as int]@.url) by {
                if seen {
                    let k = choose|k: int|
                        0 <= k < i && (#[trigger] pv[k]).url == pv[i as int].url;
                    assert(shown[k].url == plan@[i as int]@.url);
                }
                if exists|k: int|
                    0 <= k < shown.len() && (#[trigger] shown[k]).url == plan@[i as int]@.url {
                    let k = choose|k: int|
                        0 <= k < shown.len() && (#[trigger] shown[k]).url == plan@[i as int]@.url;
                    assert(pv[k].url == pv[i as int].url);
                }
            }
        }
        if !config::contains_text(barred, url) && !config::contains_text(rejected, url) && !seen {
            let ghost item = plan@[i as int]@;
            proof {
                assert(pv.take(i + 1)[i as int].url == item.url);
                assert(present_urls(pv.take(i + 1), bs, rs).contains(item.url));
                assert(!present_urls(shown, bs, rs).contains(item.url));
            }
            if !plan[i].off {
                let mut kept: Option<Endpoint> = None;
                match find_slot(&slots, url) {
                    Some(at) => {
                        let ghost held = slots@;
                        proof {
                            assert(is_first_with(before, item.url, at as int)) by {
                                assert forall|k: int| 0 <= k < at implies (#[trigger] before[k]).url
                                    != item.url by {
                                    if held[k] is None {
                                        assert(present_urls(shown, bs, rs).contains(before[k].url));
                                    }
                                }
                            }
                        }
                        std::mem::swap(&mut slots[at], &mut kept);
                        proof {
                            assert(slots@ =~= held.update(at as int, None));
                            assert forall|k: int|
                                0 <= k < slots@.len() && (#[trigger] slots@[k])
                                    is None implies present_urls(pv.take(i + 1), bs, rs).contains(
                                before[k].url,
                            ) by {
                                if k != at {
                                    assert(held[k] is None);
                                }
                            }
                            let j = choose|j: int| is_first_with(before, item.url, j);
                            assert(j == at);
                        }
                    },
                    None => {
                        proof {
                            assert forall|j: int| !is_first_with(before, item.url, j) by {
                                if is_first_with(before, item.url, j) {
                                    assert(slots@[j] is Some || slots@[j] is None);
                                }
                            }
                        }
                    },
                }
                let fitting: bool = match &kept {
                    Some(e) => plan[i].fitted_by(e),
                    None => false,
                };
                let e: Endpoint = match kept {
                    Some(mut e) => if fitting {
                        e.see(now);
                        e
                    } else {
                        Endpoint::new(plan[i].url.clone(), plan[i].rps, plan[i].concurrency, now)
                    },
                    None => Endpoint::new(
                        plan[i].url.clone(),
                        plan[i].rps,
                        plan[i].concurrency,
                        now,
                    ),
                };
                proof {
                    assert(e@ == pooled(item, before, now));
                }
                pool.push(e);
                assert(views(pool@) =~= had.push(e@));
            }
        }
        i = i + 1;
    }
    assert(pv.take(pv.len() as int) =~= pv);
    let ghost present = present_urls(pv, bs, rs);
    let ghost first = views(pool@);
    let mut rest: Vec<Option<Endpoint>> = Vec::new();
    let ghost held = slots@;
    while slots.len() > 0
        invariant
            held.len() == slots@.len() + rest@.len(),
            forall|k: int| 0 <= k < slots@.len() ==> slots@[k] == held[k],
            forall|k: int|
                0 <= k < rest@.len() ==> #[trigger] rest@[k] == held[held.len() - 1 - k],
        decreases slots@.len(),
    {
        let top = slots.pop();
        if let Some(slot) = top {
            rest.push(slot);
        }
    }
    let ghost mut done: int = 0;
    proof {
        assert(before.take(0) =~= Seq::<EndpointView>::empty());
        assert(views(pool@) =~= first + lingering(before.take(0), present, bs, rs, now, grace));
    }
    while rest.len() > 0
        invariant
            held.len() == before.len(),
            slots_hold(held, before),
            done + rest@.len() == held.len(),
            0 <= done,
            pv == plan_views(plan@),
            bs == text_set(barred@),
            rs == text_set(rejected@),
            present == present_urls(pv, bs, rs),
            forall|k: int|
                0 <= k < held.len() && (#[trigger] held[k]) is None ==> present.contains(
                    before[k].url,
                ),
            forall|k: int|
                0 <= k < rest@.len() ==> #[trigger] rest@[k] == held[held.len() - 1 - k],
            views(pool@) == first + lingering(before.take(done), present, bs, rs, now, grace),
            forall|k: int| 0 <= k < pool@.len() ==> (#[trigger] pool@[k])@.wf(),
            forall|k: int| 0 <= k < before.len() ==> (#[trigger] before[k]).wf(),
        decreases rest@.len(),
    {
        let ghost had = views(pool@);
        let top = rest.pop();
        proof {
            assert(before.take(done + 1).drop_last() =~= before.take(done));
            assert(before.take(done + 1).last() == before[done]);
            assert(top == Some(held[done]));
        }
        if let Some(Some(e)) = top {
            let last_seen: u64 = e.last_seen();
            let age: u64 = if now > last_seen {
                now - last_seen
            } else {
                0
            };
            let stays: bool = !(planned_at_all(plan, e.url()) && !config::contains_text(
                barred,
                e.url(),
            ) && !config::contains_text(rejected, e.url())) && !config::contains_text(
                barred,
                e.url(),
            ) && !config::contains_text(rejected, e.url()) && age < grace;
            proof {
                assert(e@ == before[done]);
                assert(stays == lingers(before[done], present, bs, rs, now, grace));
            }
            if stays {
                pool.push(e);
                assert(views(pool@) =~= had.push(before[done]));
                assert(views(pool@) =~= first + lingering(
                    before.take(done + 1),
                    present,
                    bs,
                    rs,
                    now,
                    grace,
                ));
            }
        }
        proof {
            done = done + 1;
        }
    }
    assert(before.take(before.len() as int) =~= before);
    pool
}

/// A chain in memory.
pub struct ChainState {
    chain_id: u64,
    name: String,
    endpoints: Vec<Endpoint>,
    rejected: Vec<String>,
    head: u64,
    pinned: bool,
    disabled: bool,
    last_ingress: u64,
}

impl ChainState {
    pub closed spec fn view(&self) -> ChainView {
        ChainView {
            chain_id: self.chain_id,
            name: self.name@,
            endpoints: views(self.endpoints@),
            rejected: text_set(self.rejected@),
            head: self.head,
            pinned: self.pinned,
            disabled: self.disabled,
            last_ingress: self.last_ingress,
        }
    }

    pub fn new(chain_id: u64, name: String, pinned: bool) -> (c: Self)
        ensures
            c@ == ChainView::fresh(chain_id, name@, pinned),
            c@.wf(),
    {
        let c = ChainState {
            chain_id,
            name,
            endpoints: Vec::new(),
            rejected: Vec::new(),
            head: 0,
            pinned,
            disabled: false,
            last_ingress: 0,
        };
        assert(text_set(c.rejected@) =~= Set::<Seq<char>>::empty());
        assert(views(c.endpoints@) =~= Seq::<EndpointView>::empty());
        c
    }

    pub fn chain_id(&self) -> (id: u64)
        ensures
            id == self@.chain_id,
    {
        self.chain_id
    }

    pub fn name(&self) -> (s: &str)
        ensures
            s@ == self@.name,
    {
        self.name.as_str()
    }

    pub fn endpoints(&self) -> (v: &Vec<Endpoint>)
        ensures
            views(v@) == self@.endpoints,
    {
        &self.endpoints
    }

    pub fn head(&self) -> (n: u64)
        ensures
            n == self@.head,
    {
        self.head
    }

    pub fn is_pinned(&self) -> (r: bool)
        ensures
            r == self@.pinned,
    {
        self.pinned
    }

    pub fn is_disabled(&self) -> (r: bool)
        ensures
            r == self@.disabled,
    {
        self.disabled
    }

    pub fn last_ingress(&self) -> (t: u64)
        ensures
            t == self@.last_ingress,
    {
        self.last_ingress
    }

    pub fn state_label(&self) -> (l: ChainStateLabel)
        ensures
            l == self@.label(),
    {
        if self.disabled {
            ChainStateLabel::Disabled
        } else if self.pinned {
            ChainStateLabel::Pinned
        } else if self.last_ingress > 0 {
            ChainStateLabel::Hot
        } else {
            ChainStateLabel::Dormant
        }
    }

    pub fn is_live(&self) -> (r: bool)
        ensures
            r == self@.is_live(),
    {
        matches!(self.state_label(), ChainStateLabel::Pinned | ChainStateLabel::Hot)
    }

    pub fn set_name(&mut self, name: String)
        ensures
            final(self)@ == (ChainView { name: name@, ..old(self)@ }),
    {
        self.name = name;
    }

    pub fn set_pinned(&mut self, pinned: bool)
        ensures
            final(self)@ == (ChainView { pinned, ..old(self)@ }),
    {
        self.pinned = pinned;
    }

    pub fn set_disabled(&mut self, disabled: bool)
        ensures
            final(self)@ == (ChainView { disabled, ..old(self)@ }),
    {
        self.disabled = disabled;
    }

    pub fn set_last_ingress(&mut self, at: u64)
        ensures
            final(self)@ == (ChainView { last_ingress: at, ..old(self)@ }),
    {
        self.last_ingress = at;
    }

    pub fn set_head(&mut self, head: u64)
        ensures
            final(self)@ == (ChainView { head, ..old(self)@ }),
    {
        self.head = head;
    }

    /// Drops the endpoints from memory.
    pub fn clear_endpoints(&mut self)
        ensures
            final(self)@ == (ChainView { endpoints: Seq::empty(), ..old(self)@ }),
    {
        self.endpoints = Vec::new();
        assert(views(self.endpoints@) =~= Seq::<EndpointView>::empty());
    }

    pub fn demote(&mut self)
        ensures
            final(self)@ == old(self)@.demoted(),
    {
        self.last_ingress = 0;
        self.clear_endpoints();
    }

    /// Brings the endpoints in line with a plan.
    pub fn follow(&mut self, plan: &Vec<PlanItem>, barred: &Vec<String>, now: u64, grace: u64)
        requires
            old(self)@.wf(),
        ensures
            final(self)@.wf(),
            final(self)@ == (ChainView {
                endpoints: merged(
                    plan_views(plan@),
                    text_set(barred@),
                    old(self)@.rejected,
                    old(self)@.endpoints,
                    now,
                    grace,
                ),
                ..old(self)@
            }),
    {
        let mut previous: Vec<Endpoint> = Vec::new();
        std::mem::swap(&mut previous, &mut self.endpoints);
        proof {
            assert forall|i: int| 0 <= i < previous@.len() implies (#[trigger] previous@[i])@.wf() by {
                assert(old(self)@.endpoints[i] == previous@[i]@);
            }
            lemma_merged_pool(
                plan_views(plan@),
                text_set(barred@),
                old(self)@.rejected,
                old(self)@.endpoints,
                now,
                grace,
            );
        }
        self.endpoints = merge_endpoints(plan, barred, &self.rejected, previous, now, grace);
        proof {
            assert forall|i: int| 0 <= i < self@.endpoints.len() implies (
            #[trigger] self@.endpoints[i]).wf() by {
                assert(self.endpoints@[i]@.wf());
            }
        }
    }

    /// The endpoints by their URLs and limits.
    pub fn known(&self) -> (r: Vec<KnownEndpoint>)
        ensures
            known_views(r@) == limits_in(self@.endpoints),
    {
        let mut r: Vec<KnownEndpoint> = Vec::new();
        let mut i: usize = 0;
        while i < self.endpoints.len()
            invariant
                i <= self.endpoints@.len(),
                r@.len() == i,
                forall|k: int|
                    0 <= k < i ==> (#[trigger] r@[k])@ == limits_in(self@.endpoints)[k],
            decreases self.endpoints@.len() - i,
        {
            let e = &self.endpoints[i];
            assert(self@.endpoints[i as int] == e@);
            r.push(
                KnownEndpoint {
                    url: e.url().to_owned(),
                    rps: e.rps(),
                    concurrency: e.concurrency(),
                },
            );
            i = i + 1;
        }
        assert(known_views(r@) =~= limits_in(self@.endpoints));
        r
    }

    /// Puts stored health back, but for the endpoints that were there before.
    pub fn heal(
        &mut self,
        known: &Vec<KnownEndpoint>,
        health: &KeyTable<HealthSnapshot>,
        now: u128,
        now_unix: u64,
    )
        requires
            health.wf(),
            now <= MAX_INSTANT,
        ensures
            final(self)@ == (ChainView {
                endpoints: healed(
                    old(self)@.chain_id,
                    known_views(known@),
                    old(self)@.endpoints,
                    health@,
                    now,
                    now_unix,
                ),
                ..old(self)@
            }),
    {
        let ghost before = self.endpoints@;
        let ghost target = healed(
            self.chain_id,
            known_views(known@),
            views(before),
            health@,
            now,
            now_unix,
        );
        let mut i: usize = 0;
        while i < self.endpoints.len()
            invariant
                i <= self.endpoints@.len(),
                self.endpoints@.len() == before.len(),
                target == healed(
                    self.chain_id,
                    known_views(known@),
                    views(before),
                    health@,
                    now,
                    now_unix,
                ),
                now <= MAX_INSTANT,
                health.wf(),
                self.chain_id == old(self).chain_id,
                self.name == old(self).name,
                self.rejected == old(self).rejected,
                self.head == old(self).head,
                self.pinned == old(self).pinned,
                self.disabled == old(self).disabled,
                self.last_ingress == old(self).last_ingress,
                forall|k: int| 0 <= k < i ==> (#[trigger] self.endpoints@[k])@ == target[k],
                forall|k: int| i <= k < before.len() ==> #[trigger] self.endpoints@[k] == before[k],
            decreases self.endpoints@.len() - i,
        {
            if !is_known(known, &self.endpoints[i]) {
                let key = keys::endpoint_key(self.chain_id, self.endpoints[i].url());
                if let Some(snapshot) = health.get(key.as_str()) {
                    self.endpoints[i].restore_health(snapshot, now, now_unix);
                }
            }
            i = i + 1;
        }
        assert(views(self.endpoints@) =~= target);
    }

    /// Where the endpoint with the given URL stands.
    pub fn position(&self, url: &str) -> (r: Option<usize>)
        ensures
            match r {
                Some(i) => is_first_with(self@.endpoints, url@, i as int),
                None => !has_url(self@.endpoints, url@),
            },
    {
        let mut i: usize = 0;
        while i < self.endpoints.len()
            invariant
                i <= self.endpoints@.len(),
                forall|k: int| 0 <= k < i ==> (#[trigger] self@.endpoints[k]).url != url@,
            decreases self.endpoints@.len() - i,
        {
            assert(self@.endpoints[i as int] == self.endpoints@[i as int]@);
            if text::same(self.endpoints[i].url(), url) {
                return Some(i);
            }
            i = i + 1;
        }
        None
    }

    /// Hands out an endpoint for change in place.
    pub fn endpoint_mut(&mut self, i: usize) -> (e: &mut Endpoint)
        requires
            i < old(self)@.endpoints.len(),
        ensures
            e@ == old(self)@.endpoints[i as int],
            final(self)@ == (ChainView {
                endpoints: old(self)@.endpoints.update(i as int, final(e)@),
                ..old(self)@
            }),
    {
        let ghost before = self.endpoints@;
        let e = &mut self.endpoints[i];
        assert(views(before.update(i as int, *final(e))) =~= views(before).update(
            i as int,
            final(e)@,
        ));
        e
    }

    /// Takes the endpoint with the given URL out; tells whether there was one.
    pub fn drop_url(&mut self, url: &str) -> (r: bool)
        ensures
            r == has_url(old(self)@.endpoints, url@),
            final(self)@ == (ChainView {
                endpoints: without_url(old(self)@.endpoints, url@),
                ..old(self)@
            }),
    {
        let mut rest: Vec<Endpoint> = Vec::new();
        std::mem::swap(&mut rest, &mut self.endpoints);
        let ghost all = rest@;
        let count: usize = rest.len();
        let mut backwards: Vec<Endpoint> = Vec::new();
        while rest.len() > 0
            invariant
                all.len() == rest@.len() + backwards@.len(),
                forall|k: int| 0 <= k < rest@.len() ==> #[trigger] rest@[k] == all[k],
                forall|k: int|
                    0 <= k < backwards@.len() ==> #[trigger] backwards@[k] == all[all.len() - 1
                        - k],
            decreases rest@.len(),
        {
            if let Some(e) = rest.pop() {
                backwards.push(e);
            }
        }
        let mut kept: Vec<Endpoint> = Vec::new();
        let ghost mut done: int = 0;
        proof {
            assert(views(all).take(0) =~= Seq::<EndpointView>::empty());
            assert(views(kept@) =~= Seq::<EndpointView>::empty());
        }
        while backwards.len() > 0
            invariant
                0 <= done,
                done + backwards@.len() == all.len(),
                kept@.len() <= done,
                forall|k: int|
                    0 <= k < backwards@.len() ==> #[trigger] backwards@[k] == all[all.len() - 1
                        - k],
                views(kept@) == without_url(views(all).take(done), url@),
            decreases backwards@.len(),
        {
            let ghost had = views(kept@);
            proof {
                assert(views(all).take(done + 1).drop_last() =~= views(all).take(done));
                assert(views(all).take(done + 1).last() == all[done]@);
            }
            if let Some(e) = backwards.pop() {
                if !text::same(e.url(), url) {
                    kept.push(e);
                    assert(views(kept@) =~= had.push(all[done]@));
                }
            }
            proof {
                done = done + 1;
            }
        }
        proof {
            assert(views(all).take(all.len() as int) =~= views(all));
            lemma_without_url(views(all), url@);
        }
        let r: bool = kept.len() != count;
        self.endpoints = kept;
        r
    }

    /// Takes the endpoint with the given URL out for good; tells whether there was one.
    pub fn reject(&mut self, url: &str) -> (r: bool)
        ensures
            r == has_url(old(self)@.endpoints, url@),
            final(self)@ == (ChainView {
                endpoints: without_url(old(self)@.endpoints, url@),
                rejected: old(self)@.rejected.insert(url@),
                ..old(self)@
            }),
    {
        let ghost before = self.rejected@;
        self.rejected.push(url.to_owned());
        proof {
            assert forall|u: Seq<char>| text_set(self.rejected@).contains(u) == text_set(
                before,
            ).insert(url@).contains(u) by {
                if text_set(before).contains(u) {
                    let i = choose|i: int| 0 <= i < before.len() && (#[trigger] before[i])@ == u;
                    assert(self.rejected@[i]@ == u);
                }
                if u == url@ {
                    assert(self.rejected@[before.len() as int]@ == u);
                }
                if text_set(self.rejected@).contains(u) && u != url@ {
                    let i = choose|i: int|
                        0 <= i < self.rejected@.len() && (#[trigger] self.rejected@[i])@ == u;
                    assert(before[i]@ == u);
                }
            }
            assert(text_set(self.rejected@) =~= text_set(before).insert(url@));
        }
        self.drop_url(url)
    }

    /// Adds a new endpoint behind the others.
    pub fn add_endpoint(&mut self, url: String, rps: u32, concurrency: usize, now: u64)
        ensures
            final(self)@ == (ChainView {
                endpoints: old(self)@.endpoints.push(
                    EndpointView::fresh(url@, rps, concurrency, now),
                ),
                ..old(self)@
            }),
    {
        let ghost before = self.endpoints@;
        self.endpoints.push(Endpoint::new(url, rps, concurrency, now));
        assert(views(self.endpoints@) =~= views(before).push(
            self.endpoints@[before.len() as int]@,
        ));
    }
}

/// Every endpoint that a plan leads to has a URL that is looked at, so neither barred nor rejected URLs
/// come into the pool, and no URL comes into it twice.
pub proof fn lemma_merged_pool(
    plan: Seq<PlanView>,
    barred: Set<Seq<char>>,
    rejected: Set<Seq<char>>,
    previous: Seq<EndpointView>,
    now: u64,
    grace: u64,
)
    requires
        distinct_urls(previous),
    ensures
        distinct_urls(merged(plan, barred, rejected, previous, now, grace)),
        forall|i: int|
            0 <= i < merged(plan, barred, rejected, previous, now, grace).len() ==> {
                let e = #[trigger] merged(plan, barred, rejected, previous, now, grace)[i];
                !barred.contains(e.url) && !rejected.contains(e.url)
            },
{
    let present = present_urls(plan, barred, rejected);
    lemma_planned(plan, barred, rejected, previous, now);
    lemma_lingering(previous, present, barred, rejected, now, grace);
    let first = planned(plan, barred, rejected, previous, now);
    let second = lingering(previous, present, barred, rejected, now, grace);
    let all = merged(plan, barred, rejected, previous, now, grace);
    assert forall|i: int, j: int| 0 <= i < j < all.len() implies (#[trigger] all[i]).url
        != (#[trigger] all[j]).url by {
        if j < first.len() {
            assert(first[i].url != first[j].url);
        } else if i >= first.len() {
            assert(second[i - first.len()].url != second[j - first.len()].url);
        } else {
            assert(present.contains(first[i].url));
            assert(!present.contains(second[j - first.len()].url));
        }
    }
    assert forall|i: int| 0 <= i < all.len() implies !barred.contains((#[trigger] all[i]).url)
        && !rejected.contains(all[i].url) by {
        if i < first.len() {
            assert(present.contains(first[i].url));
        } else {
            assert(all[i] == second[i - first.len()]);
        }
    }
}

proof fn lemma_planned(
    plan: Seq<PlanView>,
    barred: Set<Seq<char>>,
    rejected: Set<Seq<char>>,
    previous: Seq<EndpointView>,
    now: u64,
)
    ensures
        distinct_urls(planned(plan, barred, rejected, previous, now)),
        forall|i: int|
            0 <= i < planned(plan, barred, rejected, previous, now).len() ==> present_urls(
                plan,
                barred,
                rejected,
            ).contains((#[trigger] planned(plan, barred, rejected, previous, now)[i]).url),
    decreases plan.len(),
{
    if plan.len() > 0 {
        let p = plan.drop_last();
        lemma_planned(p, barred, rejected, previous, now);
        let pool = planned(p, barred, rejected, previous, now);
        let all = planned(plan, barred, rejected, previous, now);
        let item = plan.last();
        assert(pooled(item, previous, now).url == item.url) by {
            if exists|i: int| is_first_with(previous, item.url, i) {
                let i = choose|i: int| is_first_with(previous, item.url, i);
                assert(previous[i].url == item.url);
            }
        }
        assert forall|i: int| 0 <= i < all.len() implies present_urls(
            plan,
            barred,
            rejected,
        ).contains((#[trigger] all[i]).url) by {
            if i < pool.len() {
                assert(all[i] == pool[i]);
                let k = choose|k: int| 0 <= k < p.len() && (#[trigger] p[k]).url == pool[i].url;
                assert(plan[k].url == all[i].url);
            } else {
                assert(plan[plan.len() - 1].url == all[i].url);
            }
        }
        assert forall|i: int, j: int| 0 <= i < j < all.len() implies (#[trigger] all[i]).url
            != (#[trigger] all[j]).url by {
            if j < pool.len() {
                assert(pool[i].url != pool[j].url);
            } else {
                assert(present_urls(p, barred, rejected).contains(pool[i].url));
            }
        }
    }
}

proof fn lemma_lingering(
    previous: Seq<EndpointView>,
    present: Set<Seq<char>>,
    barred: Set<Seq<char>>,
    rejected: Set<Seq<char>>,
    now: u64,
    grace: u64,
)
    requires
        distinct_urls(previous),
    ensures
        distinct_urls(lingering(previous, present, barred, rejected, now, grace)),
        forall|i: int|
            0 <= i < lingering(previous, present, barred, rejected, now, grace).len() ==> lingers(
                #[trigger] lingering(previous, present, barred, rejected, now, grace)[i],
                present,
                barred,
                rejected,
                now,
                grace,
            ) && has_url(
                previous,
                lingering(previous, present, barred, rejected, now, grace)[i].url,
            ),
    decreases previous.len(),
{
    if previous.len() > 0 {
        let p = previous.drop_last();
        assert forall|i: int, j: int| 0 <= i < j < p.len() implies (#[trigger] p[i]).url
            != (#[trigger] p[j]).url by {
            assert(p[i] == previous[i] && p[j] == previous[j]);
        }
        lemma_lingering(p, present, barred, rejected, now, grace);
        let kept = lingering(p, present, barred, rejected, now, grace);
        let all = lingering(previous, present, barred, rejected, now, grace);
        let last = previous[previous.len() - 1];
        assert forall|i: int| 0 <= i < all.len() implies lingers(
            #[trigger] all[i],
            present,
            barred,
            rejected,
            now,
            grace,
        ) && has_url(previous, all[i].url) by {
            if i < kept.len() {
                assert(all[i] == kept[i]);
                let k = choose|k: int| 0 <= k < p.len() && (#[trigger] p[k]).url == kept[i].url;
                assert(previous[k].url == all[i].url);
            } else {
                assert(previous[previous.len() - 1].url == all[i].url);
            }
        }
        assert forall|i: int, j: int| 0 <= i < j < all.len() implies (#[trigger] all[i]).url
            != (#[trigger] all[j]).url by {
            if j < kept.len() {
                assert(kept[i].url != kept[j].url);
            } else {
                assert(has_url(p, kept[i].url));
                let k = choose|k: int| 0 <= k < p.len() && (#[trigger] p[k]).url == kept[i].url;
                assert(previous[k].url != last.url);
            }
        }
    }
}

} // verus!
