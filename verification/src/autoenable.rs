//! Choosing chains automatically: which chains come into question, and which of them have proved
//! themselves.
use crate::chainlist;
use crate::chainlist::{Catalog, CatalogChain, CatalogEndpoint, EndpointEntry};
use crate::copying;
use crate::copying::Duplicate;
use crate::json;
use crate::json::{Json, Number};
use crate::order;
use crate::order::Ranked;
use crate::text;
use std::collections::HashSet;
use vstd::prelude::*;

verus! {

broadcast use vstd::std_specs::hash::group_hash_axioms;

/// The limits of the automatic choice.
#[derive(Clone, Copy, Debug, PartialEq, Eq, Structural)]
pub struct AutoEnableConfig {
    pub min_endpoints: usize,
    pub max_candidates: usize,
    pub probe_batch: usize,
    pub max_endpoints_per_chain: usize,
    pub min_active_endpoints: usize,
    pub head_tolerance_blocks: u64,
    pub probe_concurrency: usize,
    pub request_timeout_ms: u64,
    pub promote_after_rounds: usize,
    pub max_chains: usize,
}

impl Default for AutoEnableConfig {
    fn default() -> (c: Self)
        ensures
            c == (AutoEnableConfig {
                min_endpoints: 5,
                max_candidates: 512,
                probe_batch: 32,
                max_endpoints_per_chain: 8,
                min_active_endpoints: 2,
                head_tolerance_blocks: 64,
                probe_concurrency: 8,
                request_timeout_ms: 2000,
                promote_after_rounds: 2,
                max_chains: 400,
            }),
    {
        AutoEnableConfig {
            min_endpoints: 5,
            max_candidates: 512,
            probe_batch: 32,
            max_endpoints_per_chain: 8,
            min_active_endpoints: 2,
            head_tolerance_blocks: 64,
            probe_concurrency: 8,
            request_timeout_ms: 2000,
            promote_after_rounds: 2,
            max_chains: 400,
        }
    }
}

/// A chain that comes into question.
#[derive(Debug)]
pub struct Candidate {
    pub chain_id: u64,
    pub score: i64,
    pub endpoints: Vec<CatalogEndpoint>,
}

/// Such a chain, as contracts speak of it.
pub ghost struct CandidateView {
    pub chain_id: u64,
    pub score: i64,
    pub endpoints: Seq<EndpointEntry>,
}

impl Candidate {
    pub open spec fn view(&self) -> CandidateView {
        CandidateView {
            chain_id: self.chain_id,
            score: self.score,
            endpoints: chainlist::endpoint_views(self.endpoints@),
        }
    }
}

impl Duplicate for CatalogEndpoint {
    fn duplicate(&self) -> (r: Self) {
        self.clone()
    }
}

pub open spec fn lists_url(endpoints: Seq<EndpointEntry>, url: Seq<char>) -> bool {
    exists|i: int| 0 <= i < endpoints.len() && (#[trigger] endpoints[i]).url == url
}

/// The endpoints with each URL once, where it first occurs.
pub open spec fn distinct(endpoints: Seq<EndpointEntry>) -> Seq<EndpointEntry>
    decreases endpoints.len(),
{
    if endpoints.len() == 0 {
        Seq::empty()
    } else {
        let before = distinct(endpoints.drop_last());
        if lists_url(before, endpoints.last().url) {
            before
        } else {
            before.push(endpoints.last())
        }
    }
}

/// An endpoint that is known not to track its users.
pub open spec fn keeps_privacy(e: EndpointEntry) -> bool {
    e.tracking == Some("none"@)
}

pub open spec fn private_count(endpoints: Seq<EndpointEntry>) -> nat
    decreases endpoints.len(),
{
    if endpoints.len() == 0 {
        0
    } else {
        private_count(endpoints.drop_last()) + (if keeps_privacy(endpoints.last()) {
            1nat
        } else {
            0
        })
    }
}

/// Whether a number is greater than zero. The bits of a positive floating-point number are those up to
/// infinity, without those of zero.
pub open spec fn is_positive(n: Number) -> bool {
    match n {
        Number::PosInt(v) => v > 0,
        Number::NegInt(_) => false,
        Number::Float(bits) => 0 < bits <= 0x7ff0_0000_0000_0000,
    }
}

pub open spec fn fitted(n: int) -> i64 {
    if n > i64::MAX {
        i64::MAX
    } else {
        n as i64
    }
}

/// What a chain is worth: a point for each endpoint and two more for each that does not track, two for
/// an active chain, and one for a chain that holds value.
pub open spec fn score_of(c: CatalogChain, endpoints: Seq<EndpointEntry>) -> i64 {
    fitted(
        endpoints.len() + 2 * private_count(endpoints) + (if chainlist::characters(c.status)
            == Some("active"@) {
            2int
        } else {
            0
        }) + (if c.tvl matches Some(n) && is_positive(n) {
            1int
        } else {
            0
        }),
    )
}

/// The chains that are passed over.
pub ghost struct PassedOver {
    pub denied: Set<u64>,
    pub chosen: Set<u64>,
    pub pinned: Set<u64>,
    pub buried: Set<u64>,
}

pub open spec fn comes_into_question(c: CatalogChain, out: PassedOver, min_endpoints: usize) -> bool {
    &&& !c.is_testnet
    &&& !out.denied.contains(c.chain_id)
    &&& !out.chosen.contains(c.chain_id)
    &&& !out.pinned.contains(c.chain_id)
    &&& !out.buried.contains(c.chain_id)
    &&& distinct(chainlist::endpoint_views(c.endpoints@)).len() >= min_endpoints
}

pub open spec fn candidate_for(c: CatalogChain) -> CandidateView {
    let endpoints = distinct(chainlist::endpoint_views(c.endpoints@));
    CandidateView { chain_id: c.chain_id, score: score_of(c, endpoints), endpoints }
}

/// All chains that come into question, in the order of the catalog.
pub open spec fn candidates_in(
    chains: Seq<CatalogChain>,
    out: PassedOver,
    min_endpoints: usize,
) -> Seq<CandidateView>
    decreases chains.len(),
{
    if chains.len() == 0 {
        Seq::empty()
    } else {
        let before = candidates_in(chains.drop_last(), out, min_endpoints);
        if comes_into_question(chains.last(), out, min_endpoints) {
            before.push(candidate_for(chains.last()))
        } else {
            before
        }
    }
}

/// What candidates are ranked by.
#[derive(Clone, Copy, Debug, PartialEq, Eq, Structural)]
pub struct CandidateRank {
    pub score: i64,
    pub chain_id: u64,
}

impl Ranked for CandidateRank {
    open spec fn precedes(&self, other: &Self) -> bool {
        self.score > other.score || (self.score == other.score && self.chain_id < other.chain_id)
    }

    proof fn rank_laws(a: &Self, b: &Self, c: &Self) {
    }

    fn before(&self, other: &Self) -> (r: bool) {
        self.score > other.score || (self.score == other.score && self.chain_id < other.chain_id)
    }
}

pub open spec fn ranks(all: Seq<CandidateView>) -> Seq<CandidateRank> {
    all.map_values(|c: CandidateView| CandidateRank { score: c.score, chain_id: c.chain_id })
}

/// The best of the candidates, best first, at most `max` of them.
pub open spec fn are_best(list: Seq<Candidate>, all: Seq<CandidateView>, max: usize) -> bool {
    exists|perm: Seq<usize>| #[trigger]
        order::is_stable_order(ranks(all), perm) && list.len() == (if all.len() < max {
            all.len() as int
        } else {
            max as int
        }) && forall|i: int| 0 <= i < list.len() ==> (#[trigger] list[i])@ == all[perm[i] as int]
}

fn holds_url(endpoints: &Vec<CatalogEndpoint>, url: &str) -> (r: bool)
    ensures
        r == lists_url(chainlist::endpoint_views(endpoints@), url@),
{
    let ghost views = chainlist::endpoint_views(endpoints@);
    let mut i: usize = 0;
    while i < endpoints.len()
        invariant
            i <= endpoints@.len(),
            views == chainlist::endpoint_views(endpoints@),
            forall|k: int| 0 <= k < i ==> (#[trigger] views[k]).url != url@,
        decreases endpoints@.len() - i,
    {
        assert(views[i as int].url == endpoints@[i as int].url@);
        if text::same(endpoints[i].url.as_str(), url) {
            return true;
        }
        i = i + 1;
    }
    false
}

fn distinct_endpoints(endpoints: &Vec<CatalogEndpoint>) -> (r: Vec<CatalogEndpoint>)
    ensures
        chainlist::endpoint_views(r@) == distinct(chainlist::endpoint_views(endpoints@)),
{
    let ghost views = chainlist::endpoint_views(endpoints@);
    let mut r: Vec<CatalogEndpoint> = Vec::new();
    let mut i: usize = 0;
    proof {
        assert(views.take(0) =~= Seq::<EndpointEntry>::empty());
        assert(chainlist::endpoint_views(r@) =~= Seq::<EndpointEntry>::empty());
    }
    while i < endpoints.len()
        invariant
            i <= endpoints@.len(),
            views == chainlist::endpoint_views(endpoints@),
            chainlist::endpoint_views(r@) == distinct(views.take(i as int)),
        decreases endpoints@.len() - i,
    {
        let ghost had = chainlist::endpoint_views(r@);
        proof {
            assert(views.take(i + 1).drop_last() =~= views.take(i as int));
            assert(views.take(i + 1).last() == endpoints@[i as int]@);
        }
        if !holds_url(&r, endpoints[i].url.as_str()) {
            r.push(endpoints[i].clone());
            assert(chainlist::endpoint_views(r@) =~= had.push(endpoints@[i as int]@));
        }
        i = i + 1;
    }
    assert(views.take(views.len() as int) =~= views);
    r
}

fn is_private(e: &CatalogEndpoint) -> (r: bool)
    ensures
        r == keeps_privacy(e@),
{
    text::is_some_text(&e.tracking, "none")
}

fn count_private(endpoints: &Vec<CatalogEndpoint>) -> (n: usize)
    ensures
        n == private_count(chainlist::endpoint_views(endpoints@)),
        n <= endpoints@.len(),
{
    let ghost views = chainlist::endpoint_views(endpoints@);
    let mut n: usize = 0;
    let mut i: usize = 0;
    assert(views.take(0) =~= Seq::<EndpointEntry>::empty());
    while i < endpoints.len()
        invariant
            i <= endpoints@.len(),
            n <= i,
            views == chainlist::endpoint_views(endpoints@),
            n == private_count(views.take(i as int)),
        decreases endpoints@.len() - i,
    {
        proof {
            assert(views.take(i + 1).drop_last() =~= views.take(i as int));
            assert(views.take(i + 1).last() == endpoints@[i as int]@);
        }
        if is_private(&endpoints[i]) {
            n = n + 1;
        }
        i = i + 1;
    }
    assert(views.take(views.len() as int) =~= views);
    n
}

fn positive(n: Number) -> (r: bool)
    ensures
        r == is_positive(n),
{
    match n {
        Number::PosInt(v) => v > 0,
        Number::NegInt(_) => false,
        Number::Float(bits) => 0 < bits && bits <= 0x7ff0_0000_0000_0000,
    }
}

fn score(c: &CatalogChain, endpoints: &Vec<CatalogEndpoint>) -> (s: i64)
    ensures
        s == score_of(*c, chainlist::endpoint_views(endpoints@)),
{
    let mut points: u128 = endpoints.len() as u128 + 2 * count_private(endpoints) as u128;
    if text::is_some_text(&c.status, "active") {
        points = points + 2;
    }
    if let Some(n) = c.tvl {
        if positive(n) {
            points = points + 1;
        }
    }
    if points > i64::MAX as u128 {
        i64::MAX
    } else {
        points as i64
    }
}

/// Finds the chains that come into question, best first. Test networks, chains that are denied, chosen
/// or pinned already, and chains that were unpinned or switched off by hand are passed over.
pub fn build_candidates(
    catalog: &Catalog,
    cfg: &AutoEnableConfig,
    deny: &HashSet<u64>,
    auto: &HashSet<u64>,
    config_pinned: &HashSet<u64>,
    tombstones: &HashSet<u64>,
) -> (list: Vec<Candidate>)
    ensures
        are_best(
            list@,
            candidates_in(
                catalog.chains@,
                PassedOver {
                    denied: deny@,
                    chosen: auto@,
                    pinned: config_pinned@,
                    buried: tombstones@,
                },
                cfg.min_endpoints,
            ),
            cfg.max_candidates,
        ),
{
    let ghost out = PassedOver {
        denied: deny@,
        chosen: auto@,
        pinned: config_pinned@,
        buried: tombstones@,
    };
    let ghost chains = catalog.chains@;
    let ghost min = cfg.min_endpoints;
    let mut found: Vec<Candidate> = Vec::new();
    let mut keys: Vec<CandidateRank> = Vec::new();
    let mut i: usize = 0;
    assert(chains.take(0) =~= Seq::<CatalogChain>::empty());
    while i < catalog.chains.len()
        invariant
            i <= chains.len(),
            chains == catalog.chains@,
            min == cfg.min_endpoints,
            out == (PassedOver {
                denied: deny@,
                chosen: auto@,
                pinned: config_pinned@,
                buried: tombstones@,
            }),
            found@.len() == candidates_in(chains.take(i as int), out, min).len(),
            forall|k: int|
                0 <= k < found@.len() ==> (#[trigger] found@[k])@ == candidates_in(
                    chains.take(i as int),
                    out,
                    min,
                )[k],
            keys@ == ranks(candidates_in(chains.take(i as int), out, min)),
        decreases chains.len() - i,
    {
        let ghost had = candidates_in(chains.take(i as int), out, min);
        assert(chains.take(i + 1).drop_last() =~= chains.take(i as int));
        let c = &catalog.chains[i];
        let skipped: bool = c.is_testnet || deny.contains(&c.chain_id) || auto.contains(&c.chain_id)
            || config_pinned.contains(&c.chain_id) || tombstones.contains(&c.chain_id);
        if !skipped {
            let endpoints = distinct_endpoints(&c.endpoints);
            if endpoints.len() >= cfg.min_endpoints {
                let points: i64 = score(c, &endpoints);
                keys.push(CandidateRank { score: points, chain_id: c.chain_id });
                found.push(Candidate { chain_id: c.chain_id, score: points, endpoints });
                assert(ranks(had.push(candidate_for(*c))) =~= ranks(had).push(
                    CandidateRank { score: points, chain_id: c.chain_id },
                ));
            }
        }
        i = i + 1;
    }
    assert(chains.take(chains.len() as int) =~= chains);
    let ghost all = candidates_in(chains, out, min);
    let perm = order::stable_order(&keys);
    let mut list: Vec<Candidate> = Vec::new();
    let mut n: usize = 0;
    while n < perm.len() && n < cfg.max_candidates
        invariant
            n <= perm@.len(),
            n <= cfg.max_candidates,
            perm@.len() == found@.len(),
            order::is_stable_order(keys@, perm@),
            keys@.len() == found@.len(),
            all.len() == found@.len(),
            forall|k: int| 0 <= k < found@.len() ==> (#[trigger] found@[k])@ == all[k],
            list@.len() == n,
            forall|k: int| 0 <= k < n ==> (#[trigger] list@[k])@ == all[perm@[k] as int],
        decreases perm@.len() - n,
    {
        let c = &found[perm[n]];
        assert(c@ == all[perm@[n as int] as int]);
        list.push(
            Candidate {
                chain_id: c.chain_id,
                score: c.score,
                endpoints: copying::copy_list(&c.endpoints),
            },
        );
        n = n + 1;
    }
    assert(order::is_stable_order(ranks(all), perm@));
    list
}

/// Whether a candidate stands before another, or ranks alike.
pub open spec fn no_worse(a: CandidateView, b: CandidateView) -> bool {
    a.score > b.score || (a.score == b.score && a.chain_id <= b.chain_id)
}

/// Better candidates come first, and no candidate that was left out is better than one that was not.
pub proof fn lemma_better_candidates_come_first(
    list: Seq<Candidate>,
    all: Seq<CandidateView>,
    max: usize,
)
    requires
        all.len() <= usize::MAX,
        are_best(list, all, max),
    ensures
        forall|i: int, j: int|
            0 <= i < j < list.len() ==> no_worse((#[trigger] list[i])@, (#[trigger] list[j])@),
        forall|i: int, k: int|
            #![trigger list[i], all[k]]
            0 <= i < list.len() && 0 <= k < all.len() ==> no_worse(list[i]@, all[k]) || exists|j: int|
                0 <= j < list.len() && (#[trigger] list[j])@ == all[k],
{
    let perm = choose|perm: Seq<usize>| #[trigger]
        order::is_stable_order(ranks(all), perm) && list.len() == (if all.len() < max {
            all.len() as int
        } else {
            max as int
        }) && forall|i: int| 0 <= i < list.len() ==> (#[trigger] list[i])@ == all[perm[i] as int];
    assert forall|i: int, j: int| 0 <= i < j < list.len() implies no_worse(
        (#[trigger] list[i])@,
        (#[trigger] list[j])@,
    ) by {
        assert(order::in_order(ranks(all), perm[i], perm[j]));
    }
    order::lemma_reaches_all(perm);
    assert forall|i: int, k: int|
        #![trigger list[i], all[k]]
        0 <= i < list.len() && 0 <= k < all.len() implies no_worse(list[i]@, all[k]) || exists|j: int|
        0 <= j < list.len() && (#[trigger] list[j])@ == all[k] by {
        assert(perm.contains(k as usize));
        let p = choose|p: int| 0 <= p < perm.len() && perm[p] == k as usize;
        if p < list.len() {
            assert(list[p]@ == all[k]);
        } else {
            assert(order::in_order(ranks(all), perm[i], perm[p]));
        }
    }
}

/// Every candidate may be chosen: it stands for a chain of the catalog that is no test network, none of
/// the lists passes it over, and it has enough endpoints, all with different URLs. In a catalog that was
/// read from a chain list these are public HTTPS endpoints in their normal form.
pub proof fn lemma_candidates_may_be_chosen(
    chains: Seq<CatalogChain>,
    out: PassedOver,
    min_endpoints: usize,
    k: int,
)
    requires
        0 <= k < candidates_in(chains, out, min_endpoints).len(),
    ensures
        ({
            let c = candidates_in(chains, out, min_endpoints)[k];
            &&& exists|i: int|
                0 <= i < chains.len() && !(#[trigger] chains[i]).is_testnet && c == candidate_for(
                    chains[i],
                )
            &&& !out.denied.contains(c.chain_id)
            &&& !out.chosen.contains(c.chain_id)
            &&& !out.pinned.contains(c.chain_id)
            &&& !out.buried.contains(c.chain_id)
            &&& c.endpoints.len() >= min_endpoints
            &&& forall|a: int, b: int|
                0 <= a < b < c.endpoints.len() ==> (#[trigger] c.endpoints[a]).url != (
                #[trigger] c.endpoints[b]).url
            &&& chainlist::holds_normal_urls(chainlist::chain_views(chains))
                ==> chainlist::has_normal_urls(c.endpoints)
        }),
    decreases chains.len(),
{
    if chains.len() > 0 {
        let short = chains.drop_last();
        let before = candidates_in(short, out, min_endpoints);
        let views = chainlist::chain_views(chains);
        if k < before.len() {
            lemma_candidates_may_be_chosen(short, out, min_endpoints, k);
            let i = choose|i: int|
                0 <= i < short.len() && !(#[trigger] short[i]).is_testnet && before[k]
                    == candidate_for(short[i]);
            assert(chains[i] == short[i]);
            assert(chainlist::chain_views(short) =~= views.drop_last());
        } else {
            let last = chains.len() - 1;
            assert(chains[last] == chains.last());
            assert(views[last] == chains[last]@);
            lemma_distinct(chainlist::endpoint_views(chains.last().endpoints@));
        }
    }
}

proof fn lemma_distinct(endpoints: Seq<EndpointEntry>)
    ensures
        forall|a: int, b: int|
            0 <= a < b < distinct(endpoints).len() ==> (#[trigger] distinct(endpoints)[a]).url != (
            #[trigger] distinct(endpoints)[b]).url,
        chainlist::has_normal_urls(endpoints) ==> chainlist::has_normal_urls(distinct(endpoints)),
    decreases endpoints.len(),
{
    if endpoints.len() > 0 {
        lemma_distinct(endpoints.drop_last());
    }
}

/// The endpoints that do not track first, then the others, each in their order.
pub open spec fn private_first(endpoints: Seq<EndpointEntry>) -> Seq<EndpointEntry> {
    endpoints.filter(|e: EndpointEntry| keeps_privacy(e)) + endpoints.filter(
        |e: EndpointEntry| !keeps_privacy(e),
    )
}

pub open spec fn first_of(s: Seq<EndpointEntry>, n: usize) -> Seq<EndpointEntry> {
    if s.len() < n {
        s
    } else {
        s.take(n as int)
    }
}

fn of_kind(endpoints: &Vec<CatalogEndpoint>, private: bool) -> (r: Vec<CatalogEndpoint>)
    ensures
        chainlist::endpoint_views(r@) == chainlist::endpoint_views(endpoints@).filter(
            |e: EndpointEntry| keeps_privacy(e) == private,
        ),
{
    let ghost views = chainlist::endpoint_views(endpoints@);
    let ghost keep = |e: EndpointEntry| keeps_privacy(e) == private;
    let mut r: Vec<CatalogEndpoint> = Vec::new();
    let mut i: usize = 0;
    proof {
        reveal(Seq::filter);
        assert(views.take(0) =~= Seq::<EndpointEntry>::empty());
        assert(chainlist::endpoint_views(r@) =~= Seq::<EndpointEntry>::empty());
    }
    while i < endpoints.len()
        invariant
            i <= endpoints@.len(),
            views == chainlist::endpoint_views(endpoints@),
            keep == (|e: EndpointEntry| keeps_privacy(e) == private),
            chainlist::endpoint_views(r@) == views.take(i as int).filter(keep),
        decreases endpoints@.len() - i,
    {
        let ghost had = chainlist::endpoint_views(r@);
        proof {
            reveal(Seq::filter);
            assert(views.take(i + 1).drop_last() =~= views.take(i as int));
            assert(views.take(i + 1).last() == endpoints@[i as int]@);
        }
        if is_private(&endpoints[i]) == private {
            r.push(endpoints[i].clone());
            assert(chainlist::endpoint_views(r@) =~= had.push(endpoints@[i as int]@));
        }
        i = i + 1;
    }
    assert(views.take(views.len() as int) =~= views);
    r
}

/// The endpoints of a candidate that are probed: those that do not track first, at most `max` of them.
pub fn probe_targets(candidate: &Candidate, max: usize) -> (r: Vec<CatalogEndpoint>)
    ensures
        chainlist::endpoint_views(r@) == first_of(private_first(candidate@.endpoints), max),
{
    let ghost views = candidate@.endpoints;
    let mut r = of_kind(&candidate.endpoints, true);
    let mut others = of_kind(&candidate.endpoints, false);
    proof {
        lemma_same_filter(
            views,
            |e: EndpointEntry| keeps_privacy(e) == true,
            |e: EndpointEntry| keeps_privacy(e),
        );
        lemma_same_filter(
            views,
            |e: EndpointEntry| keeps_privacy(e) == false,
            |e: EndpointEntry| !keeps_privacy(e),
        );
    }
    let ghost a = chainlist::endpoint_views(r@);
    let ghost b = chainlist::endpoint_views(others@);
    r.append(&mut others);
    assert(chainlist::endpoint_views(r@) =~= a + b);
    let ghost all = r@;
    if r.len() > max {
        r.truncate(max);
        assert(chainlist::endpoint_views(r@) =~= chainlist::endpoint_views(all).take(max as int));
    } else {
        assert(chainlist::endpoint_views(all) =~= first_of(chainlist::endpoint_views(all), max));
    }
    r
}

proof fn lemma_same_filter(
    s: Seq<EndpointEntry>,
    f: spec_fn(EndpointEntry) -> bool,
    g: spec_fn(EndpointEntry) -> bool,
)
    requires
        forall|e: EndpointEntry| #[trigger] f(e) == g(e),
    ensures
        s.filter(f) == s.filter(g),
    decreases s.len(),
{
    reveal(Seq::filter);
    if s.len() > 0 {
        lemma_same_filter(s.drop_last(), f, g);
        assert(f(s.last()) == g(s.last()));
    }
}

/// The outcome of probing a candidate once.
#[derive(Debug)]
pub struct ProbeRound {
    pub chain_id: u64,
    pub active_endpoints: usize,
    pub heads: Vec<u64>,
    pub qualified: bool,
    pub failures: usize,
}

pub open spec fn is_greatest(heads: Seq<u64>, max: u64) -> bool {
    &&& heads.contains(max)
    &&& forall|i: int| 0 <= i < heads.len() ==> #[trigger] heads[i] <= max
}

/// Enough endpoints answered, and at least two of them agree on the head within the tolerance.
pub open spec fn is_qualified(heads: Seq<u64>, min_active: usize, tolerance: u64) -> bool {
    &&& heads.len() >= min_active
    &&& exists|max: u64| #[trigger]
        is_greatest(heads, max) && heads.filter(|h: u64| h + tolerance >= max).len() >= 2
}

pub fn greatest(heads: &Vec<u64>) -> (r: Option<u64>)
    ensures
        match r {
            Some(max) => is_greatest(heads@, max),
            None => heads@.len() == 0,
        },
{
    if heads.len() == 0 {
        return None;
    }
    let mut max: u64 = heads[0];
    let mut i: usize = 1;
    assert(heads@.contains(heads@[0]));
    while i < heads.len()
        invariant
            1 <= i <= heads@.len(),
            heads@.contains(max),
            forall|k: int| 0 <= k < i ==> #[trigger] heads@[k] <= max,
        decreases heads@.len() - i,
    {
        if heads[i] > max {
            max = heads[i];
            assert(heads@.contains(heads@[i as int]));
        }
        i = i + 1;
    }
    Some(max)
}

fn count_near(heads: &Vec<u64>, max: u64, tolerance: u64) -> (n: usize)
    requires
        is_greatest(heads@, max),
    ensures
        n == heads@.filter(|h: u64| h + tolerance >= max).len(),
{
    let ghost near = |h: u64| h + tolerance >= max;
    let mut n: usize = 0;
    let mut i: usize = 0;
    proof {
        reveal(Seq::filter);
        assert(heads@.take(0) =~= Seq::<u64>::empty());
    }
    while i < heads.len()
        invariant
            i <= heads@.len(),
            n <= i,
            is_greatest(heads@, max),
            near == (|h: u64| h + tolerance >= max),
            n == heads@.take(i as int).filter(near).len(),
        decreases heads@.len() - i,
    {
        proof {
            reveal(Seq::filter);
            assert(heads@.take(i + 1).drop_last() =~= heads@.take(i as int));
        }
        if max - heads[i] <= tolerance {
            n = n + 1;
        }
        i = i + 1;
    }
    assert(heads@.take(heads@.len() as int) =~= heads@);
    n
}

/// Judges a round of probes by the heads that were reported and the probes that failed.
pub fn judge_round(chain_id: u64, heads: Vec<u64>, failures: usize, cfg: &AutoEnableConfig) -> (r:
    ProbeRound)
    ensures
        r.chain_id == chain_id,
        r.active_endpoints == heads@.len(),
        r.heads@ == heads@,
        r.failures == failures,
        r.qualified == is_qualified(
            heads@,
            cfg.min_active_endpoints,
            cfg.head_tolerance_blocks,
        ),
{
    let agree: bool = match greatest(&heads) {
        Some(max) => {
            let n: usize = count_near(&heads, max, cfg.head_tolerance_blocks);
            proof {
                assert(is_greatest(heads@, max));
                assert forall|other: u64| #[trigger] is_greatest(heads@, other) implies other
                    == max by {
                    let a = choose|a: int| 0 <= a < heads@.len() && heads@[a] == max;
                    let b = choose|b: int| 0 <= b < heads@.len() && heads@[b] == other;
                    assert(heads@[a] <= other);
                    assert(heads@[b] <= max);
                }
            }
            n >= 2
        },
        None => {
            assert forall|max: u64| !(#[trigger] is_greatest(heads@, max)) by {
                if is_greatest(heads@, max) {
                    let a = choose|a: int| 0 <= a < heads@.len() && heads@[a] == max;
                }
            }
            false
        },
    };
    let active_endpoints: usize = heads.len();
    ProbeRound {
        chain_id,
        active_endpoints,
        qualified: active_endpoints >= cfg.min_active_endpoints && agree,
        heads,
        failures,
    }
}

/// A candidate with a single answer never qualifies, however low the limits are set.
pub proof fn lemma_one_answer_is_not_enough(heads: Seq<u64>, min_active: usize, tolerance: u64)
    requires
        heads.len() <= 1,
    ensures
        !is_qualified(heads, min_active, tolerance),
{
    assert forall|max: u64| #[trigger] is_greatest(heads, max) implies heads.filter(
        |h: u64| h + tolerance >= max,
    ).len() < 2 by {
        reveal(Seq::filter);
        let near = |h: u64| h + tolerance >= max;
        if heads.len() == 1 {
            assert(heads.drop_last() =~= Seq::<u64>::empty());
            assert(heads.drop_last().filter(near).len() == 0);
        }
    }
}

/// A text without the hexadecimal signs in front of it.
pub open spec fn without_sign(s: Seq<char>) -> Seq<char>
    decreases s.len(),
{
    if s.len() >= 2 && s[0] == '0' && s[1] == 'x' {
        without_sign(s.skip(2))
    } else {
        s
    }
}

/// The number that a node reports in hexadecimal.
pub open spec fn quantity(s: Seq<char>) -> Option<int> {
    text::read_bounded(without_sign(s), 16, u64::MAX as int)
}

pub fn read_quantity(s: &str) -> (n: Option<u64>)
    ensures
        match n {
            Some(v) => quantity(s@) == Some(v as int),
            None => quantity(s@) is None,
        },
{
    let all = text::chars(s);
    let mut from: usize = 0;
    assert(all@.skip(0) =~= all@);
    while all.len() - from >= 2 && all[from] == '0' && all[from + 1] == 'x'
        invariant
            from <= all@.len(),
            all@ == s@,
            without_sign(s@) == without_sign(all@.skip(from as int)),
        decreases all@.len() - from,
    {
        assert(all@.skip(from as int).skip(2) =~= all@.skip(from + 2));
        from = from + 2;
    }
    let rest = text::text_of(&all, from, all.len());
    assert(rest@ =~= all@.skip(from as int));
    text::parse_radix(rest.as_str(), 16)
}

/// A reply to a call: the status of the answer and what it holds.
#[derive(Debug)]
pub struct Reply {
    pub status: u16,
    pub body: Vec<u8>,
}

/// The text that a reply gives as its result. There is one only where the answer came with the status
/// of success and is an object that reports no error.
pub open spec fn result_text(status: u16, document: Option<Json>) -> Option<Seq<char>> {
    match document {
        Some(d) => if status == 200 && d is Object && d.field("error"@) is None {
            match d.field("result"@) {
                Some(Json::Text(s)) => Some(s@),
                _ => None,
            }
        } else {
            None
        },
        None => None,
    }
}

/// What a reply says whose body reads as the given document.
pub fn judge_document(status: u16, document: &Option<Json>) -> (r: Option<String>)
    ensures
        match r {
            Some(s) => result_text(status, *document) == Some(s@),
            None => result_text(status, *document) is None,
        },
{
    let answer: &Json = match document {
        Some(d) => d,
        None => {
            return None;
        },
    };
    if status != 200 || answer.get("error").is_some() {
        return None;
    }
    match answer.get("result") {
        Some(j) => match j.as_text() {
            Some(s) => Some(s.clone()),
            None => None,
        },
        None => None,
    }
}

/// What a reply says.
pub fn judge_reply(status: u16, body: &[u8]) -> (r: Option<String>)
    ensures
        match r {
            Some(s) => result_text(status, json::json_document(body@)) == Some(s@),
            None => result_text(status, json::json_document(body@)) is None,
        },
{
    let document = json::parse_json(body);
    judge_document(status, &document)
}

/// The number that a result states.
pub open spec fn reported(result: Option<Seq<char>>) -> Option<int> {
    match result {
        Some(s) => quantity(s),
        None => None,
    }
}

fn reported_number(result: &Option<String>) -> (n: Option<u64>)
    ensures
        match n {
            Some(v) => reported(chainlist::characters(*result)) == Some(v as int),
            None => reported(chainlist::characters(*result)) is None,
        },
{
    match result {
        Some(s) => read_quantity(s.as_str()),
        None => None,
    }
}

/// Whether an endpoint serves the chain, by what it says the chain is.
pub fn serves_chain(chain_id: u64, id_result: &Option<String>) -> (r: bool)
    ensures
        r == (reported(chainlist::characters(*id_result)) == Some(chain_id as int)),
{
    match reported_number(id_result) {
        Some(got) => got == chain_id,
        None => false,
    }
}

/// What an endpoint has to say of itself: the head of the chain, if it serves the right chain at all.
pub fn probed_head(
    chain_id: u64,
    id_result: &Option<String>,
    height_result: &Option<String>,
) -> (n: Option<u64>)
    ensures
        n == head_of(
            chain_id,
            chainlist::characters(*id_result),
            chainlist::characters(*height_result),
        ),
{
    if serves_chain(chain_id, id_result) {
        reported_number(height_result)
    } else {
        None
    }
}

/// The head that an endpoint of the chain reports; none where it serves another chain.
pub open spec fn head_of(
    chain_id: u64,
    id_result: Option<Seq<char>>,
    height_result: Option<Seq<char>>,
) -> Option<u64> {
    if reported(id_result) == Some(chain_id as int) {
        match reported(height_result) {
            Some(n) => Some(n as u64),
            None => None,
        }
    } else {
        None
    }
}

/// What a reply says, if one came in time.
pub open spec fn reply_text(reply: Option<Reply>) -> Option<Seq<char>> {
    match reply {
        Some(r) => result_text(r.status, json::json_document(r.body@)),
        None => None,
    }
}

fn reply_result(reply: &Option<Reply>) -> (r: Option<String>)
    ensures
        chainlist::characters(r) == reply_text(*reply),
{
    match reply {
        Some(reply) => judge_reply(reply.status, reply.body.as_slice()),
        None => None,
    }
}

/// Judges an endpoint by its replies to the questions which chain it serves and how far that has come.
/// An endpoint counts only where both replies came in time, with the status of success and without an
/// error, the first names the chain and the second a height.
pub fn probe_endpoint(chain_id: u64, id_reply: &Option<Reply>, height_reply: &Option<Reply>) -> (n:
    Option<u64>)
    ensures
        n == head_of(chain_id, reply_text(*id_reply), reply_text(*height_reply)),
{
    let id_result = reply_result(id_reply);
    let height_result = reply_result(height_reply);
    probed_head(chain_id, &id_result, &height_result)
}

/// An endpoint that counts answered both questions with success, in time and without an error, and the
/// chain that it serves is the right one.
pub proof fn lemma_only_proven_endpoints_count(
    chain_id: u64,
    id_reply: Option<Reply>,
    height_reply: Option<Reply>,
)
    requires
        head_of(chain_id, reply_text(id_reply), reply_text(height_reply)) is Some,
    ensures
        id_reply matches Some(r) && r.status == 200 && (json::json_document(r.body@) matches Some(
            d,
        ) && d.field("error"@) is None && (d.field("result"@) matches Some(Json::Text(s))
            && quantity(s@) == Some(chain_id as int))),
        height_reply matches Some(r) && r.status == 200 && (json::json_document(r.body@) matches Some(
            d,
        ) && d.field("error"@) is None && (d.field("result"@) matches Some(Json::Text(s))
            && quantity(s@) is Some)),
{
}

} // verus!
