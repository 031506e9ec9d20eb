//! What the automatic choice is for: good main networks are found, none is passed over, and they are
//! enabled once they have proved themselves and not before.
use crate::autoenable::{Candidate, CandidateView, PassedOver, ProbeRound};
use crate::chainlist::{CatalogChain, EndpointEntry};
use crate::json::{Json, Number};
use crate::promotion::ManagerView;
use crate::registry_model::RegistryView;
use vstd::prelude::*;

verus! {

proof fn lemma_distinct_lists_all(endpoints: Seq<EndpointEntry>)
    ensures
        ({
            let d = crate::autoenable::distinct(endpoints);
            &&& forall|u: Seq<char>| #[trigger] holds_url(d, u) <==> holds_url(endpoints, u)
            &&& forall|a: int, b: int|
                0 <= a < b < d.len() ==> (#[trigger] d[a]).url != (#[trigger] d[b]).url
        }),
    decreases endpoints.len(),
{
    if endpoints.len() > 0 {
        let short = endpoints.drop_last();
        lemma_distinct_lists_all(short);
        let before = crate::autoenable::distinct(short);
        let d = crate::autoenable::distinct(endpoints);
        let last = endpoints.len() - 1;
        assert forall|u: Seq<char>| #[trigger] holds_url(d, u) <==> holds_url(endpoints, u) by {
            assert(holds_url(before, u) <==> holds_url(short, u));
            if holds_url(before, u) {
                let k = choose|k: int| 0 <= k < before.len() && (#[trigger] before[k]).url == u;
                assert(d[k].url == u);
            }
            if holds_url(short, u) {
                let k = choose|k: int| 0 <= k < short.len() && (#[trigger] short[k]).url == u;
                assert(endpoints[k].url == u);
            }
            if endpoints[last].url == u {
                if !crate::autoenable::lists_url(before, u) {
                    assert(d[before.len() as int].url == u);
                }
            }
            if holds_url(d, u) && !holds_url(before, u) {
                let k = choose|k: int| 0 <= k < d.len() && (#[trigger] d[k]).url == u;
                if k < before.len() {
                    assert(before[k].url == u);
                }
                assert(endpoints[last].url == u);
            }
            if holds_url(endpoints, u) && !holds_url(short, u) {
                let k = choose|k: int|
                    0 <= k < endpoints.len() && (#[trigger] endpoints[k]).url == u;
                if k < last {
                    assert(short[k].url == u);
                }
            }
        }
    }
}

/// Different URLs that all occur in a list are no more than the list has entries.
proof fn lemma_no_more_than_listed(d: Seq<EndpointEntry>, urls: Seq<Seq<char>>)
    requires
        urls.no_duplicates(),
        forall|k: int| 0 <= k < urls.len() ==> holds_url(d, #[trigger] urls[k]),
    ensures
        urls.len() <= d.len(),
{
    let listed = d.map_values(|e: EndpointEntry| e.url);
    urls.unique_seq_to_set();
    assert(urls.to_set().subset_of(listed.to_set())) by {
        assert forall|u: Seq<char>| urls.to_set().contains(u) implies listed.to_set().contains(u) by {
            let k = choose|k: int| 0 <= k < urls.len() && urls[k] == u;
            assert(urls[k] == u);
            let j = choose|j: int| 0 <= j < d.len() && (#[trigger] d[j]).url == urls[k];
            assert(listed[j] == u);
        }
    }
    vstd::set_lib::lemma_len_subset(urls.to_set(), listed.to_set());
    listed.lemma_cardinality_of_set();
}

/// Whether a list holds an endpoint with the given URL.
pub open spec fn holds_url(list: Seq<EndpointEntry>, url: Seq<char>) -> bool {
    exists|n: int| 0 <= n < list.len() && (#[trigger] list[n]).url == url
}

/// Whether a chain of the catalog has an endpoint with the given URL.
pub open spec fn chain_lists(c: CatalogChain, url: Seq<char>) -> bool {
    exists|j: int| 0 <= j < c.endpoints@.len() && (#[trigger] c.endpoints@[j]).url@ == url
}

/// The candidate that stands for a chain: all endpoints of the chain, each URL once.
pub open spec fn stands_for(k: CandidateView, c: CatalogChain) -> bool {
    &&& k.chain_id == c.chain_id
    &&& forall|u: Seq<char>| #[trigger] holds_url(k.endpoints, u) <==> chain_lists(c, u)
    &&& forall|a: int, b: int|
        0 <= a < b < k.endpoints.len() ==> (#[trigger] k.endpoints[a]).url != (
        #[trigger] k.endpoints[b]).url
}

proof fn lemma_chain_lists(c: CatalogChain)
    ensures
        forall|u: Seq<char>|
            #[trigger] holds_url(crate::chainlist::endpoint_views(c.endpoints@), u) <==> chain_lists(
                c,
                u,
            ),
{
    let views = crate::chainlist::endpoint_views(c.endpoints@);
    assert forall|u: Seq<char>| #[trigger] holds_url(views, u) <==> chain_lists(c, u) by {
        if holds_url(views, u) {
            let k = choose|k: int| 0 <= k < views.len() && (#[trigger] views[k]).url == u;
            assert(c.endpoints@[k].url@ == u);
        }
        if chain_lists(c, u) {
            let k = choose|k: int|
                0 <= k < c.endpoints@.len() && (#[trigger] c.endpoints@[k]).url@ == u;
            assert(views[k].url == u);
        }
    }
}

/// No good chain is passed over: every main network of the catalog that is in none of the four sets and
/// has as many different URLs as are asked for, or more, has its candidate.
pub proof fn lemma_every_good_chain_is_a_candidate(
    chains: Seq<CatalogChain>,
    out: PassedOver,
    min_endpoints: usize,
    i: int,
    urls: Seq<Seq<char>>,
)
    requires
        0 <= i < chains.len(),
        !chains[i].is_testnet,
        !out.denied.contains(chains[i].chain_id),
        !out.chosen.contains(chains[i].chain_id),
        !out.pinned.contains(chains[i].chain_id),
        !out.buried.contains(chains[i].chain_id),
        urls.no_duplicates(),
        urls.len() >= min_endpoints,
        forall|k: int| 0 <= k < urls.len() ==> chain_lists(chains[i], #[trigger] urls[k]),
    ensures
        exists|k: int|
            0 <= k < crate::autoenable::candidates_in(chains, out, min_endpoints).len()
                && stands_for(
                #[trigger] crate::autoenable::candidates_in(chains, out, min_endpoints)[k],
                chains[i],
            ),
    decreases chains.len(),
{
    let short = chains.drop_last();
    let before = crate::autoenable::candidates_in(short, out, min_endpoints);
    let all = crate::autoenable::candidates_in(chains, out, min_endpoints);
    if i < short.len() {
        assert(short[i] == chains[i]);
        lemma_every_good_chain_is_a_candidate(short, out, min_endpoints, i, urls);
        let k = choose|k: int| 0 <= k < before.len() && stands_for(#[trigger] before[k], chains[i]);
        assert(all[k] == before[k]);
    } else {
        let c = chains[i];
        let views = crate::chainlist::endpoint_views(c.endpoints@);
        let d = crate::autoenable::distinct(views);
        lemma_distinct_lists_all(views);
        lemma_chain_lists(c);
        assert forall|k: int| 0 <= k < urls.len() implies holds_url(d, #[trigger] urls[k]) by {
            assert(chain_lists(c, urls[k]));
            assert(holds_url(views, urls[k]));
        }
        lemma_no_more_than_listed(d, urls);
        let k = before.len() as int;
        assert(all[k] == crate::autoenable::candidate_for(c));
        assert forall|u: Seq<char>| #[trigger] holds_url(d, u) <==> chain_lists(c, u) by {
            assert(holds_url(d, u) <==> holds_url(views, u));
        }
        assert(stands_for(all[k], c));
    }
}

/// Every candidate stands for a main network of the catalog that is in none of the four sets, and has as
/// many URLs as are asked for.
pub proof fn lemma_every_candidate_is_a_good_chain(
    chains: Seq<CatalogChain>,
    out: PassedOver,
    min_endpoints: usize,
    k: int,
)
    requires
        0 <= k < crate::autoenable::candidates_in(chains, out, min_endpoints).len(),
    ensures
        ({
            let c = crate::autoenable::candidates_in(chains, out, min_endpoints)[k];
            &&& c.endpoints.len() >= min_endpoints
            &&& !out.denied.contains(c.chain_id) && !out.chosen.contains(c.chain_id)
            &&& !out.pinned.contains(c.chain_id) && !out.buried.contains(c.chain_id)
            &&& exists|i: int|
                0 <= i < chains.len() && !(#[trigger] chains[i]).is_testnet && stands_for(
                    c,
                    chains[i],
                )
        }),
    decreases chains.len(),
{
    let short = chains.drop_last();
    let before = crate::autoenable::candidates_in(short, out, min_endpoints);
    let all = crate::autoenable::candidates_in(chains, out, min_endpoints);
    if k < before.len() {
        lemma_every_candidate_is_a_good_chain(short, out, min_endpoints, k);
        let i = choose|i: int|
            0 <= i < short.len() && !(#[trigger] short[i]).is_testnet && stands_for(
                before[k],
                short[i],
            );
        assert(chains[i] == short[i]);
    } else {
        let c = chains[chains.len() - 1];
        let views = crate::chainlist::endpoint_views(c.endpoints@);
        let d = crate::autoenable::distinct(views);
        lemma_distinct_lists_all(views);
        lemma_chain_lists(c);
        assert(all[k] == crate::autoenable::candidate_for(c));
        assert forall|u: Seq<char>| #[trigger] holds_url(d, u) <==> chain_lists(c, u) by {
            assert(holds_url(d, u) <==> holds_url(views, u));
        }
        assert(stands_for(all[k], c));
    }
}

/// Whether a list holds the given candidate.
pub open spec fn has_listed(list: Seq<Candidate>, c: CandidateView) -> bool {
    exists|j: int| 0 <= j < list.len() && (#[trigger] list[j])@ == c
}

/// The list holds every candidate where there is room for all, and as many as there is room for where
/// there is not. It goes from the highest score down, and by the chain's id where scores are the same; a
/// candidate that is left out has no higher score than any that is listed.
pub proof fn lemma_list_holds_the_best(list: Seq<Candidate>, all: Seq<CandidateView>, max: usize)
    requires
        all.len() <= usize::MAX,
        crate::autoenable::are_best(list, all, max),
    ensures
        all.len() <= max ==> list.len() == all.len() && forall|k: int|
            0 <= k < all.len() ==> has_listed(list, #[trigger] all[k]),
        all.len() > max ==> list.len() == max,
        forall|j: int| 0 <= j < list.len() ==> all.contains((#[trigger] list[j])@),
        forall|i: int, j: int|
            0 <= i < j < list.len() ==> (#[trigger] list[i])@.score > (#[trigger] list[j])@.score || (
            list[i]@.score == list[j]@.score && list[i]@.chain_id <= list[j]@.chain_id),
        forall|i: int, k: int|
            #![trigger list[i], all[k]]
            0 <= i < list.len() && 0 <= k < all.len() ==> list[i]@.score >= all[k].score
                || has_listed(list, all[k]),
{
    let ranks = crate::autoenable::ranks(all);
    let perm = choose|perm: Seq<usize>| #[trigger]
        crate::order::is_stable_order(ranks, perm) && list.len() == (if all.len() < max {
            all.len() as int
        } else {
            max as int
        }) && forall|i: int| 0 <= i < list.len() ==> (#[trigger] list[i])@ == all[perm[i] as int];
    crate::order::lemma_reaches_all(perm);
    assert forall|i: int, j: int| 0 <= i < j < list.len() implies (#[trigger] list[i])@.score > (
    #[trigger] list[j])@.score || (list[i]@.score == list[j]@.score && list[i]@.chain_id
        <= list[j]@.chain_id) by {
        assert(crate::order::in_order(ranks, perm[i], perm[j]));
    }
    assert forall|j: int| 0 <= j < list.len() implies all.contains((#[trigger] list[j])@) by {
        assert(list[j]@ == all[perm[j] as int]);
    }
    assert forall|i: int, k: int|
        #![trigger list[i], all[k]]
        0 <= i < list.len() && 0 <= k < all.len() implies list[i]@.score >= all[k].score || has_listed(
        list,
        all[k],
    ) by {
        assert(perm.contains(k as usize));
        let p = choose|p: int| 0 <= p < perm.len() && perm[p] == k as usize;
        if p < list.len() {
            assert(list[p]@ == all[k]);
        } else {
            assert(crate::order::in_order(ranks, perm[i], perm[p]));
        }
    }
    if all.len() <= max {
        assert forall|k: int| 0 <= k < all.len() implies has_listed(list, #[trigger] all[k]) by {
            assert(perm.contains(k as usize));
            let p = choose|p: int| 0 <= p < perm.len() && perm[p] == k as usize;
            assert(list[p]@ == all[k]);
        }
    }
}

/// What raises the score of a chain, and by how much: each URL by one, and by two more where the endpoint
/// is known not to track, an active chain by two, and a chain that holds value by one.
pub proof fn lemma_score_by_parts(c: CatalogChain)
    requires
        c.endpoints@.len() <= 0x1000_0000_0000,
    ensures
        ({
            let k = crate::autoenable::candidate_for(c);
            let quiet = k.endpoints.filter(|e: EndpointEntry| e.tracking == Some("none"@)).len();
            let active = c.status matches Some(s) && s@ == "active"@;
            let valued = match c.tvl {
                Some(Number::PosInt(n)) => n > 0,
                Some(Number::NegInt(_)) => false,
                Some(Number::Float(bits)) => 0 < bits <= 0x7ff0_0000_0000_0000,
                None => false,
            };
            k.score == k.endpoints.len() + 2 * quiet + (if active {
                2int
            } else {
                0
            }) + (if valued {
                1int
            } else {
                0
            })
        }),
{
    let views = crate::chainlist::endpoint_views(c.endpoints@);
    let d = crate::autoenable::distinct(views);
    lemma_quiet_count(d);
    lemma_distinct_is_short(views);
}

proof fn lemma_distinct_is_short(endpoints: Seq<EndpointEntry>)
    ensures
        crate::autoenable::distinct(endpoints).len() <= endpoints.len(),
    decreases endpoints.len(),
{
    if endpoints.len() > 0 {
        lemma_distinct_is_short(endpoints.drop_last());
    }
}

proof fn lemma_quiet_count(endpoints: Seq<EndpointEntry>)
    ensures
        crate::autoenable::private_count(endpoints) == endpoints.filter(
            |e: EndpointEntry| e.tracking == Some("none"@),
        ).len(),
        crate::autoenable::private_count(endpoints) <= endpoints.len(),
    decreases endpoints.len(),
{
    reveal(Seq::filter);
    if endpoints.len() > 0 {
        lemma_quiet_count(endpoints.drop_last());
    }
}

/// Whether a head is no further behind any other than tolerated.
pub open spec fn keeps_up(heads: Seq<u64>, i: int, tolerance: u64) -> bool {
    &&& 0 <= i < heads.len()
    &&& forall|k: int| 0 <= k < heads.len() ==> (#[trigger] heads[k]) - heads[i] <= tolerance
}

/// A candidate qualifies in a round exactly where enough of its endpoints answered and two of them are no
/// further behind than tolerated, measured against every head that was reported.
pub proof fn lemma_two_agreeing_heads_qualify(heads: Seq<u64>, min_active: usize, tolerance: u64)
    ensures
        crate::autoenable::is_qualified(heads, min_active, tolerance) <==> heads.len() >= min_active
            && exists|i: int, j: int| #[trigger]
            keeps_up(heads, i, tolerance) && #[trigger] keeps_up(heads, j, tolerance) && i < j,
{
    if heads.len() > 0 {
        let max = lemma_greatest(heads);
        let near = |h: u64| h + tolerance >= max;
        let top = choose|b: int| 0 <= b < heads.len() && heads[b] == max;
        assert(heads[top] == max);
        assert forall|i: int| 0 <= i < heads.len() implies (keeps_up(heads, i, tolerance) <==> near(
            #[trigger] heads[i],
        )) by {
            if keeps_up(heads, i, tolerance) {
                assert(heads[top] - heads[i] <= tolerance);
            }
            if near(heads[i]) {
                assert forall|k: int| 0 <= k < heads.len() implies (#[trigger] heads[k]) - heads[i]
                    <= tolerance by {
                    assert(heads[k] <= max);
                }
            }
        }
        if heads.filter(near).len() >= 2 {
            let (i, j) = lemma_two_places(heads, near);
            assert(near(heads[i]) && near(heads[j]));
            assert(keeps_up(heads, i, tolerance) && keeps_up(heads, j, tolerance));
        }
        if exists|i: int, j: int| #[trigger]
            keeps_up(heads, i, tolerance) && #[trigger] keeps_up(heads, j, tolerance) && i < j {
            let (i, j) = choose|i: int, j: int| #[trigger]
                keeps_up(heads, i, tolerance) && #[trigger] keeps_up(heads, j, tolerance) && i < j;
            assert(near(heads[i]) && near(heads[j]));
            lemma_two_are_kept(heads, near, i, j);
        }
        if crate::autoenable::is_qualified(heads, min_active, tolerance) {
            let m = choose|m: u64| #[trigger]
                crate::autoenable::is_greatest(heads, m) && heads.filter(
                    |h: u64| h + tolerance >= m,
                ).len() >= 2;
            let a = choose|a: int| 0 <= a < heads.len() && heads[a] == m;
            assert(heads[a] <= max && heads[top] <= m);
            assert(m == max);
        }
    }
}

proof fn lemma_greatest(heads: Seq<u64>) -> (max: u64)
    requires
        heads.len() > 0,
    ensures
        crate::autoenable::is_greatest(heads, max),
    decreases heads.len(),
{
    let last = heads[heads.len() - 1];
    assert(heads.contains(last));
    if heads.len() == 1 {
        last
    } else {
        let short = heads.drop_last();
        let m = lemma_greatest(short);
        let a = choose|a: int| 0 <= a < short.len() && short[a] == m;
        assert(heads[a] == m);
        let max = if last > m {
            last
        } else {
            m
        };
        assert forall|i: int| 0 <= i < heads.len() implies #[trigger] heads[i] <= max by {
            if i < short.len() {
                assert(short[i] == heads[i]);
            }
        }
        max
    }
}

proof fn lemma_two_places(s: Seq<u64>, keep: spec_fn(u64) -> bool) -> (r: (int, int))
    requires
        s.filter(keep).len() >= 2,
    ensures
        0 <= r.0 < r.1 < s.len(),
        keep(s[r.0]),
        keep(s[r.1]),
    decreases s.len(),
{
    reveal(Seq::filter);
    let short = s.drop_last();
    if short.filter(keep).len() >= 2 {
        lemma_two_places(short, keep)
    } else {
        let i = lemma_one_place(short, keep);
        (i, s.len() - 1)
    }
}

proof fn lemma_one_place(s: Seq<u64>, keep: spec_fn(u64) -> bool) -> (i: int)
    requires
        s.filter(keep).len() >= 1,
    ensures
        0 <= i < s.len(),
        keep(s[i]),
    decreases s.len(),
{
    reveal(Seq::filter);
    let short = s.drop_last();
    if short.filter(keep).len() >= 1 {
        lemma_one_place(short, keep)
    } else {
        s.len() - 1
    }
}

proof fn lemma_one_is_kept(s: Seq<u64>, keep: spec_fn(u64) -> bool, i: int)
    requires
        0 <= i < s.len(),
        keep(s[i]),
    ensures
        s.filter(keep).len() >= 1,
    decreases s.len(),
{
    reveal(Seq::filter);
    if i < s.len() - 1 {
        lemma_one_is_kept(s.drop_last(), keep, i);
    }
}

proof fn lemma_two_are_kept(s: Seq<u64>, keep: spec_fn(u64) -> bool, i: int, j: int)
    requires
        0 <= i < j < s.len(),
        keep(s[i]),
        keep(s[j]),
    ensures
        s.filter(keep).len() >= 2,
    decreases s.len(),
{
    reveal(Seq::filter);
    let short = s.drop_last();
    if j < short.len() {
        lemma_two_are_kept(short, keep, i, j);
    } else {
        lemma_one_is_kept(short, keep, i);
    }
}

/// As many endpoints are probed as there are, up to the limit, all of them endpoints of the candidate.
/// Those that do not track come first: one that may track is probed only where every other is too.
pub proof fn lemma_quiet_endpoints_are_probed_first(endpoints: Seq<EndpointEntry>, max: usize)
    ensures
        ({
            let r = crate::autoenable::first_of(crate::autoenable::private_first(endpoints), max);
            &&& endpoints.len() <= max ==> r.len() == endpoints.len()
            &&& endpoints.len() > max ==> r.len() == max
            &&& forall|i: int| 0 <= i < r.len() ==> endpoints.contains(#[trigger] r[i])
            &&& forall|i: int, j: int|
                0 <= i < j < r.len() && (#[trigger] r[j]).tracking == Some("none"@) ==> (
                #[trigger] r[i]).tracking == Some("none"@)
            &&& (exists|i: int| 0 <= i < r.len() && (#[trigger] r[i]).tracking != Some("none"@))
                ==> forall|j: int|
                0 <= j < endpoints.len() && (#[trigger] endpoints[j]).tracking == Some("none"@)
                    ==> r.contains(endpoints[j])
            &&& endpoints.len() <= max ==> forall|j: int|
                0 <= j < endpoints.len() ==> r.contains(#[trigger] endpoints[j])
        }),
{
    let quiet = |e: EndpointEntry| crate::autoenable::keeps_privacy(e);
    let other = |e: EndpointEntry| !crate::autoenable::keeps_privacy(e);
    let a = endpoints.filter(quiet);
    let b = endpoints.filter(other);
    let all = a + b;
    lemma_parted(endpoints, quiet, other);
    let r = crate::autoenable::first_of(all, max);
    assert forall|i: int| 0 <= i < r.len() implies endpoints.contains(#[trigger] r[i]) by {
        assert(r[i] == all[i]);
        if i < a.len() {
            assert(a.contains(a[i]));
        } else {
            assert(b.contains(b[i - a.len()]));
        }
    }
    assert forall|i: int, j: int|
        0 <= i < j < r.len() && (#[trigger] r[j]).tracking == Some("none"@) implies (
    #[trigger] r[i]).tracking == Some("none"@) by {
        if j >= a.len() {
            assert(b.contains(b[j - a.len()]));
            assert(other(b[j - a.len()]));
        }
        assert(a.contains(a[i]));
        assert(quiet(a[i]));
    }
    if exists|i: int| 0 <= i < r.len() && (#[trigger] r[i]).tracking != Some("none"@) {
        let i = choose|i: int| 0 <= i < r.len() && (#[trigger] r[i]).tracking != Some("none"@);
        if i < a.len() {
            assert(a.contains(a[i]));
            assert(quiet(a[i]));
        }
        assert forall|j: int|
            0 <= j < endpoints.len() && (#[trigger] endpoints[j]).tracking == Some(
                "none"@,
            ) implies r.contains(endpoints[j]) by {
            assert(quiet(endpoints[j]));
            assert(a.contains(endpoints[j]));
            let k = choose|k: int| 0 <= k < a.len() && a[k] == endpoints[j];
            assert(r[k] == endpoints[j]);
        }
    }
    if endpoints.len() <= max {
        assert(r =~= all);
        assert forall|j: int| 0 <= j < endpoints.len() implies r.contains(
            #[trigger] endpoints[j],
        ) by {
            if quiet(endpoints[j]) {
                assert(a.contains(endpoints[j]));
                let k = choose|k: int| 0 <= k < a.len() && a[k] == endpoints[j];
                assert(r[k] == endpoints[j]);
            } else {
                assert(other(endpoints[j]));
                assert(b.contains(endpoints[j]));
                let k = choose|k: int| 0 <= k < b.len() && b[k] == endpoints[j];
                assert(r[a.len() + k] == endpoints[j]);
            }
        }
    }
}

proof fn lemma_parted(
    s: Seq<EndpointEntry>,
    f: spec_fn(EndpointEntry) -> bool,
    g: spec_fn(EndpointEntry) -> bool,
)
    requires
        forall|e: EndpointEntry| #[trigger] f(e) != g(e),
    ensures
        s.filter(f).len() + s.filter(g).len() == s.len(),
        forall|e: EndpointEntry| #[trigger] s.filter(f).contains(e) <==> s.contains(e) && f(e),
        forall|e: EndpointEntry| #[trigger] s.filter(g).contains(e) <==> s.contains(e) && g(e),
    decreases s.len(),
{
    reveal(Seq::filter);
    if s.len() > 0 {
        let short = s.drop_last();
        let last = s.last();
        lemma_parted(short, f, g);
        assert(f(last) != g(last));
        assert(s =~= short.push(last));
        assert forall|e: EndpointEntry| #[trigger] s.filter(f).contains(e) <==> s.contains(e) && f(
            e,
        ) by {
            crate::registry_model::lemma_push_contains(short, last, e);
            crate::registry_model::lemma_push_contains(short.filter(f), last, e);
            assert(short.filter(f).contains(e) <==> short.contains(e) && f(e));
        }
        assert forall|e: EndpointEntry| #[trigger] s.filter(g).contains(e) <==> s.contains(e) && g(
            e,
        ) by {
            crate::registry_model::lemma_push_contains(short, last, e);
            crate::registry_model::lemma_push_contains(short.filter(g), last, e);
            assert(short.filter(g).contains(e) <==> short.contains(e) && g(e));
        }
    }
}

/// Rounds add up: a candidate that qualified in as many rounds in a row as are asked for has proved
/// itself, and each round leaves what is known of all others as it was.
pub proof fn lemma_good_rounds_add_up(m: ManagerView, chain_id: u64, rounds: Seq<ProbeRound>, other: u64)
    requires
        forall|i: int|
            0 <= i < rounds.len() ==> (#[trigger] rounds[i]).qualified && rounds[i].chain_id
                == chain_id,
        rounds.len() <= usize::MAX,
    ensures
        ({
            let after = m.with_rounds(rounds);
            &&& rounds.len() > 0 ==> after.progress.contains_key(chain_id)
                && after.progress[chain_id].rounds >= rounds.len()
                && after.progress[chain_id].last_qualified
                && after.progress[chain_id].last_failures == rounds.last().failures
            &&& rounds.len() > 0 && rounds.len() >= m.limits.promote_after_rounds ==> after.is_ripe(
                chain_id,
            )
            &&& other != chain_id ==> after.progress_of(other) == m.progress_of(other)
            &&& after.limits == m.limits && after.promotions == m.promotions
        }),
    decreases rounds.len(),
{
    if rounds.len() > 0 {
        let most = rounds.drop_last();
        assert forall|i: int| 0 <= i < most.len() implies (#[trigger] most[i]).qualified
            && most[i].chain_id == chain_id by {
            assert(rounds[i].qualified);
        }
        lemma_good_rounds_add_up(m, chain_id, most, other);
        assert(rounds[rounds.len() - 1] == rounds.last());
    }
}

/// A failed round takes everything back that a candidate had: it is not ripe by it, whatever it had, and
/// the failures are those of the round.
pub proof fn lemma_failed_round_starts_over(m: ManagerView, round: ProbeRound)
    requires
        !round.qualified,
    ensures
        m.with_round(round).progress.contains_key(round.chain_id),
        m.with_round(round).progress[round.chain_id].rounds == 0,
        !m.with_round(round).progress[round.chain_id].last_qualified,
        m.with_round(round).progress[round.chain_id].last_failures == round.failures,
        m.limits.promote_after_rounds > 0 ==> !m.with_round(round).is_ripe(round.chain_id),
{
}

/// A batch begins where the last one ended and goes round the pool: a place that is not reached by it is
/// nearer to the beginning of the next one, by as many places as the batch took.
pub proof fn lemma_batches_reach_everyone(m: ManagerView, size: nat, p: int, ahead: int)
    requires
        0 < size <= usize::MAX,
        0 <= p < size,
        0 <= ahead < size,
        p == (m.cursor as int % size as int + ahead) % size as int,
    ensures
        ({
            let taken = m.batch_size(size);
            let start = m.start(size);
            let next = (start + taken) % size as int;
            &&& taken <= m.limits.probe_batch && taken <= size
            &&& taken == m.limits.probe_batch || taken == size
            &&& ahead < taken ==> p == (start + ahead) % size as int
            &&& ahead >= taken ==> p == (next + (ahead - taken)) % size as int
        }),
{
    let n = size as int;
    let start = m.start(size);
    let taken = m.batch_size(size) as int;
    vstd::arithmetic::div_mod::lemma_add_mod_noop_right(ahead - taken, start + taken, n);
    assert((start + taken) + (ahead - taken) == start + ahead);
    assert(((ahead - taken) + (start + taken) % n) % n == ((ahead - taken) + (start + taken)) % n);
}

/// A chain that nobody unpinned or disabled by hand is enabled: noted as automatic, and pinned where it is
/// in memory. One that somebody did is left alone, and with it everything else.
pub proof fn lemma_enabling_respects_people(v: RegistryView, chain_id: u64, other: u64)
    ensures
        ({
            let w = crate::promotion::with_enabled(v, chain_id);
            let buried = v.chain_overrides.contains_key(chain_id) && (
            v.chain_overrides[chain_id].pinned == Some(false)
                || v.chain_overrides[chain_id].disabled == Some(true));
            &&& buried ==> w == v
            &&& !buried ==> w.auto_pinned.contains_key(chain_id) && w.auto_pinned[chain_id]
            &&& !buried && v.chains.contains_key(chain_id) && !v.pinned.contains_key(chain_id)
                ==> w.chains[chain_id].pinned
            &&& other != chain_id ==> (w.auto_pinned.contains_key(other)
                <==> v.auto_pinned.contains_key(other))
            &&& other != chain_id && v.chains.contains_key(other) ==> w.chains[other]
                == v.chains[other]
            &&& w.chain_overrides == v.chain_overrides && w.pinned == v.pinned
        }),
{
}

/// A reply has a result where it came with the status of success, is an object without an error, and has a
/// text as its result; it has none otherwise.
pub proof fn lemma_replies_have_results(status: u16, document: Option<Json>)
    ensures
        ({
            let said = crate::autoenable::result_text(status, document);
            &&& said is Some <==> status == 200 && (document matches Some(Json::Object(fields)) && {
                &&& crate::json::lookup(fields@, "error"@) is None
                &&& crate::json::lookup(fields@, "result"@) matches Some(Json::Text(_))
            })
            &&& said matches Some(t) ==> (document matches Some(Json::Object(fields)) && (
            crate::json::lookup(fields@, "result"@) matches Some(Json::Text(s)) && s@ == t))
        }),
{
}

/// An endpoint that names the chain reports its head as the second number says; one that names another chain,
/// or says nothing that is a number, reports none.
pub proof fn lemma_heads_as_reported(chain_id: u64, id: Option<Seq<char>>, height: Option<Seq<char>>)
    ensures
        ({
            let head = crate::autoenable::head_of(chain_id, id, height);
            let named = id is Some && crate::autoenable::quantity(id->0) == Some(chain_id as int);
            let high = height is Some && crate::autoenable::quantity(height->0) is Some;
            &&& head is Some <==> named && high
            &&& named && high ==> head->0 == crate::autoenable::quantity(height->0)->0
        }),
{
    if let Some(h) = height {
        crate::text::lemma_no_number_is_negative(crate::autoenable::without_sign(h), 16);
    }
}

/// The order of the probes: one more endpoint that does not track comes after the others that do not, and one
/// that does comes last of all.
pub proof fn lemma_probes_keep_the_order(endpoints: Seq<EndpointEntry>, e: EndpointEntry)
    ensures
        ({
            let quiet = endpoints.filter(|x: EndpointEntry| crate::autoenable::keeps_privacy(x));
            let before = crate::autoenable::private_first(endpoints);
            let after = crate::autoenable::private_first(endpoints.push(e));
            &&& e.tracking != Some("none"@) ==> after == before.push(e)
            &&& e.tracking == Some("none"@) ==> after == before.insert(quiet.len() as int, e)
        }),
{
    reveal(Seq::filter);
    assert(endpoints.push(e).drop_last() =~= endpoints);
    let before = crate::autoenable::private_first(endpoints);
    let after = crate::autoenable::private_first(endpoints.push(e));
    let quiet = endpoints.filter(|x: EndpointEntry| crate::autoenable::keeps_privacy(x));
    if e.tracking == Some("none"@) {
        assert(after =~= before.insert(quiet.len() as int, e));
    } else {
        assert(after =~= before.push(e));
    }
}

/// A good round counts one, for its candidate alone; a candidate is ripe from the number of rounds on that is
/// asked for.
pub proof fn lemma_good_round_counts_one(m: ManagerView, round: ProbeRound, other: u64)
    requires
        round.qualified,
        m.progress.contains_key(round.chain_id) ==> m.progress[round.chain_id].rounds < usize::MAX,
    ensures
        ({
            let after = m.with_round(round);
            let had = if m.progress.contains_key(round.chain_id) {
                m.progress[round.chain_id].rounds as int
            } else {
                0
            };
            &&& after.progress.contains_key(round.chain_id)
            &&& after.progress[round.chain_id].rounds == had + 1
            &&& after.progress[round.chain_id].last_qualified
            &&& after.progress[round.chain_id].last_failures == round.failures
            &&& after.is_ripe(round.chain_id) <==> had + 1 >= m.limits.promote_after_rounds
            &&& other != round.chain_id ==> (after.progress.contains_key(other)
                <==> m.progress.contains_key(other)) && (m.progress.contains_key(other)
                ==> after.progress[other] == m.progress[other])
            &&& after.cursor == m.cursor && after.limits == m.limits && after.promotions
                == m.promotions && after.candidates == m.candidates && after.last_scan_at
                == m.last_scan_at
        }),
        !m.progress.contains_key(other) ==> !m.is_ripe(other),
{
}

/// Which chains count as enabled automatically, and how numbers are noted of them: as they are, up to the
/// largest that fits.
pub proof fn lemma_enabled_chains_are_noted(v: RegistryView, k: u64, n: nat)
    requires
        v.auto_pinned.dom().finite(),
    ensures
        crate::promotion::enabled_chains(v).contains(k) <==> v.auto_pinned.contains_key(k)
            && v.auto_pinned[k],
        n <= 0xffff_ffff ==> crate::promotion::narrowed(n) == n,
        n > 0xffff_ffff ==> crate::promotion::narrowed(n) == 0xffff_ffff,
{
}

/// The greatest of several heads is one of them, and a further head takes its place exactly where it is
/// higher.
pub proof fn lemma_greatest_head_grows(heads: Seq<u64>, max: u64, head: u64, now: u64)
    requires
        crate::autoenable::is_greatest(heads, max),
    ensures
        heads.contains(max),
        crate::autoenable::is_greatest(heads.push(head), now) <==> now == if head > max {
            head
        } else {
            max
        },
{
    let more = heads.push(head);
    let i = choose|i: int| 0 <= i < heads.len() && heads[i] == max;
    assert(more[i] == max);
    assert(more[heads.len() as int] == head);
    if crate::autoenable::is_greatest(more, now) {
        let j = choose|j: int| 0 <= j < more.len() && more[j] == now;
        if j < heads.len() {
            assert(heads[j] == now);
        }
    }
}

} // verus!
