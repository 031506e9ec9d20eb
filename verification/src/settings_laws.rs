//! What settings are for: what somebody set at run time counts before the configuration, and that before
//! what holds by default; and what was stored comes back.
use crate::config::{ChainOverride, Config, EndpointOverride};
use crate::endpoint::EndpointView;
use crate::registry_model::{Moment, RegistryView};
use crate::state::{ChainOverrideState, EndpointOverrideState};
use vstd::prelude::*;

verus! {

/// The first settings that the configuration has for a chain count; without any there are none.
pub proof fn lemma_first_settings_count(list: Seq<ChainOverride>, chain_id: u64, i: int)
    requires
        0 <= i <= list.len(),
        forall|j: int| 0 <= j < i ==> (#[trigger] list[j]).chain_id != chain_id,
        i < list.len() ==> list[i].chain_id == chain_id,
    ensures
        i < list.len() ==> crate::config::override_in(list, chain_id) == Some(list[i]),
        i == list.len() ==> crate::config::override_in(list, chain_id) is None,
    decreases i,
{
    if i > 0 {
        let rest = list.skip(1);
        assert(list[0].chain_id != chain_id);
        assert forall|j: int| 0 <= j < i - 1 implies (#[trigger] rest[j]).chain_id != chain_id by {
            assert(rest[j] == list[j + 1]);
        }
        lemma_first_settings_count(rest, chain_id, i - 1);
    }
}

/// The first limits that are given for a URL count; without any there are none.
pub proof fn lemma_first_limits_count(list: Seq<EndpointOverride>, url: Seq<char>, i: int)
    requires
        0 <= i <= list.len(),
        forall|j: int| 0 <= j < i ==> (#[trigger] list[j]).url@ != url,
        i < list.len() ==> list[i].url@ == url,
    ensures
        i < list.len() ==> crate::config::limits_in(list, url) == Some(list[i]),
        i == list.len() ==> crate::config::limits_in(list, url) is None,
    decreases i,
{
    if i > 0 {
        let rest = list.skip(1);
        assert(list[0].url@ != url);
        assert forall|j: int| 0 <= j < i - 1 implies (#[trigger] rest[j]).url@ != url by {
            assert(rest[j] == list[j + 1]);
        }
        lemma_first_limits_count(rest, url, i - 1);
    }
}

/// What the configuration says of a chain, setting by setting, and what holds where it says nothing:
/// sixty-four confirmations, the usual lag, a block time of two seconds but for the chains that are known
/// to differ, and answers about the head that live as long as a block but at most two seconds.
pub proof fn lemma_configured_settings(config: Config, chain_id: u64, i: int)
    requires
        0 <= i <= config.chain_overrides@.len(),
        forall|j: int|
            0 <= j < i ==> (#[trigger] config.chain_overrides@[j]).chain_id != chain_id,
        i < config.chain_overrides@.len() ==> config.chain_overrides@[i].chain_id == chain_id,
    ensures
        i < config.chain_overrides@.len() ==> {
            let o = config.chain_overrides@[i];
            &&& o.max_block_lag matches Some(n) ==> config.lag_for(chain_id) == n
            &&& o.confirmation_depth matches Some(n) ==> config.depth_for(chain_id) == n
            &&& o.block_time_ms matches Some(n) ==> config.block_time_for(chain_id) == n
            &&& o.tip_ttl_ms matches Some(n) ==> config.tip_ttl_for(chain_id) == n
        },
        i == config.chain_overrides@.len() || config.chain_overrides@[i].max_block_lag is None
            ==> config.lag_for(chain_id) == config.probe.max_block_lag,
        i == config.chain_overrides@.len() || config.chain_overrides@[i].confirmation_depth is None
            ==> config.depth_for(chain_id) == 64,
        i == config.chain_overrides@.len() || config.chain_overrides@[i].block_time_ms is None
            ==> config.block_time_for(chain_id) == (if chain_id == 1 {
            12_000int
        } else if chain_id == 143 {
            400
        } else {
            2_000
        }),
        i == config.chain_overrides@.len() || config.chain_overrides@[i].tip_ttl_ms is None
            ==> config.tip_ttl_for(chain_id) <= 2_000 && config.tip_ttl_for(chain_id)
            <= config.block_time_for(chain_id) && (config.tip_ttl_for(chain_id) == 2_000
            || config.tip_ttl_for(chain_id) == config.block_time_for(chain_id)),
{
    lemma_first_settings_count(config.chain_overrides@, chain_id, i);
}

/// The limits of an endpoint: those given for its URL in the settings of its chain, each by itself, and
/// else the usual ones.
pub proof fn lemma_configured_limits(config: Config, chain_id: u64, url: Seq<char>, i: int, k: int)
    requires
        0 <= i <= config.chain_overrides@.len(),
        forall|j: int|
            0 <= j < i ==> (#[trigger] config.chain_overrides@[j]).chain_id != chain_id,
        i < config.chain_overrides@.len() ==> {
            let list = config.chain_overrides@[i].endpoint_overrides@;
            &&& config.chain_overrides@[i].chain_id == chain_id
            &&& 0 <= k <= list.len()
            &&& forall|j: int| 0 <= j < k ==> (#[trigger] list[j]).url@ != url
            &&& k < list.len() ==> list[k].url@ == url
        },
    ensures
        ({
            let given = i < config.chain_overrides@.len() && k
                < config.chain_overrides@[i].endpoint_overrides@.len();
            let o = config.chain_overrides@[i].endpoint_overrides@[k];
            &&& given && o.rps is Some ==> config.limits_for(chain_id, url).0 == o.rps->0
            &&& !given || o.rps is None ==> config.limits_for(chain_id, url).0
                == config.upstream.default_rps
            &&& given && o.concurrency is Some ==> config.limits_for(chain_id, url).1
                == o.concurrency->0
            &&& !given || o.concurrency is None ==> config.limits_for(chain_id, url).1
                == config.upstream.default_concurrency
        }),
{
    lemma_first_settings_count(config.chain_overrides@, chain_id, i);
    if i < config.chain_overrides@.len() {
        lemma_first_limits_count(config.chain_overrides@[i].endpoint_overrides@, url, k);
    }
}

/// A setting of a chain counts where it was made at run time; where it was not, what the configuration
/// says does. The source that is named says which of them there is.
pub proof fn lemma_runtime_settings_come_first(v: RegistryView, chain_id: u64)
    ensures
        ({
            let o = v.chain_overrides[chain_id];
            let made = v.chain_overrides.contains_key(chain_id);
            let s = v.settings(chain_id);
            &&& made && o.block_time_ms is Some ==> s.0 == o.block_time_ms->0
            &&& !made || o.block_time_ms is None ==> s.0 == v.config.block_time_for(chain_id)
            &&& made && o.confirmation_depth is Some ==> s.1 == o.confirmation_depth->0
            &&& !made || o.confirmation_depth is None ==> s.1 == v.config.depth_for(chain_id)
            &&& made && o.tip_ttl_ms is Some ==> s.2 == o.tip_ttl_ms->0
            &&& !made || o.tip_ttl_ms is None ==> s.2 == v.config.tip_ttl_for(chain_id)
            &&& made && o.max_block_lag is Some ==> s.3 == o.max_block_lag->0
            &&& !made || o.max_block_lag is None ==> s.3 == v.config.lag_for(chain_id)
            &&& v.lag_threshold(chain_id) == s.3
            &&& made ==> v.settings_source(chain_id) == "runtime"@
            &&& !made && (exists|j: int|
                0 <= j < v.config.chain_overrides@.len() && (
                #[trigger] v.config.chain_overrides@[j]).chain_id == chain_id)
                ==> v.settings_source(chain_id) == "config"@
            &&& !made && (forall|j: int|
                0 <= j < v.config.chain_overrides@.len() ==> (
                #[trigger] v.config.chain_overrides@[j]).chain_id != chain_id)
                ==> v.settings_source(chain_id) == "default"@
        }),
{
    let list = v.config.chain_overrides@;
    if exists|j: int| 0 <= j < list.len() && (#[trigger] list[j]).chain_id == chain_id {
        let j = choose|j: int| 0 <= j < list.len() && (#[trigger] list[j]).chain_id == chain_id;
        lemma_found(list, chain_id, j);
    } else {
        lemma_first_settings_count(list, chain_id, list.len() as int);
    }
}

proof fn lemma_found(list: Seq<ChainOverride>, chain_id: u64, j: int)
    requires
        0 <= j < list.len(),
        list[j].chain_id == chain_id,
    ensures
        crate::config::override_in(list, chain_id) is Some,
    decreases j,
{
    if j > 0 && list[0].chain_id != chain_id {
        assert(list.skip(1)[j - 1] == list[j]);
        lemma_found(list.skip(1), chain_id, j - 1);
    }
}

/// Which settings may be put into force at run time, number by number; one that is not made is always in
/// order.
pub proof fn lemma_bounds_of_settings(c: ChainOverrideState, e: EndpointOverrideState)
    ensures
        crate::registry_model::valid_chain_override(c) <==> {
            &&& c.block_time_ms is None || 100 <= c.block_time_ms->0 <= 600_000
            &&& c.confirmation_depth is None || 1 <= c.confirmation_depth->0 <= 100_000
            &&& c.tip_ttl_ms is None || 100 <= c.tip_ttl_ms->0 <= 60_000
            &&& c.max_block_lag is None || c.max_block_lag->0 <= 10_000
        },
        crate::registry_model::valid_endpoint_override(e) <==> {
            &&& e.rps is None || 1 <= e.rps->0 <= 100
            &&& e.concurrency is None || 1 <= e.concurrency->0 <= 64
        },
{
}

/// What a chain ought to give an endpoint: limits by runtime setting, else by configuration, and the
/// endpoint switched off only by a runtime setting.
pub proof fn lemma_planned_limits(v: RegistryView, chain_id: u64, url: Seq<char>)
    ensures
        ({
            let key = crate::keys::key_of(chain_id, url);
            let made = v.endpoint_overrides.contains_key(key);
            let o = v.endpoint_overrides[key];
            let item = v.plan_item(chain_id, url);
            &&& item.url == url
            &&& made && o.rps is Some ==> item.rps == o.rps->0
            &&& !made || o.rps is None ==> item.rps == v.config.limits_for(chain_id, url).0
            &&& made && o.concurrency is Some ==> item.concurrency == o.concurrency->0
            &&& !made || o.concurrency is None ==> item.concurrency == v.config.limits_for(
                chain_id,
                url,
            ).1
            &&& item.off <==> made && o.disabled == Some(true)
        }),
{
}

/// An endpoint has the limits that are asked for, as far as an endpoint can, only where both are met.
pub proof fn lemma_limits_fit_within_bounds(v: RegistryView, chain_id: u64, e: EndpointView)
    ensures
        ({
            let item = v.plan_item(chain_id, e.url);
            item.fits(e) <==> (if item.rps < 1 {
                e.rps == 1
            } else if item.rps > 100 {
                e.rps == 100
            } else {
                e.rps == item.rps
            }) && (if item.concurrency < 1 {
                e.concurrency == 1
            } else if item.concurrency > 64 {
                e.concurrency == 64
            } else {
                e.concurrency == item.concurrency
            })
        }),
{
}

/// Settings of a chain that are put into force change that chain alone, and of it the pin and whether it
/// is disabled, each only where the settings speak of it.
pub proof fn lemma_settings_change_what_they_name(
    v: RegistryView,
    chain_id: u64,
    value: ChainOverrideState,
    other: u64,
)
    requires
        v.wf(),
    ensures
        ({
            let w = v.with_chain_override(chain_id, value);
            &&& w.chain_overrides.contains_key(chain_id) && w.chain_overrides[chain_id] == value
            &&& other != chain_id ==> (w.chain_overrides.contains_key(other)
                <==> v.chain_overrides.contains_key(other)) && (v.chain_overrides.contains_key(other)
                ==> w.chain_overrides[other] == v.chain_overrides[other])
            &&& value.pinned matches Some(p) ==> w.pinned.contains_key(chain_id)
                && w.pinned[chain_id] == p
            &&& value.pinned is None ==> w.pinned == v.pinned
            &&& w.chains.contains_key(chain_id) <==> v.chains.contains_key(chain_id)
            &&& v.chains.contains_key(chain_id) ==> {
                let c = v.chains[chain_id];
                let d = w.chains[chain_id];
                &&& value.pinned is None ==> d.pinned == c.pinned
                &&& value.pinned == Some(true) ==> d.pinned
                &&& value.pinned == Some(false) && !v.config.chains@.contains(chain_id)
                    ==> !d.pinned
                &&& value.disabled is None ==> d.disabled == c.disabled
                &&& value.disabled == Some(true) ==> d.disabled
                &&& value.disabled == Some(false) && !v.config.discovery.deny@.contains(chain_id)
                    ==> !d.disabled
                &&& d.endpoints == c.endpoints && d.last_ingress == c.last_ingress && d.head
                    == c.head && d.rejected == c.rejected && d.name == c.name
            }
            &&& other != chain_id && v.chains.contains_key(other) ==> w.chains[other]
                == v.chains[other]
            &&& w.endpoint_overrides == v.endpoint_overrides && w.auto_pinned == v.auto_pinned
        }),
{
}

/// Settings of an endpoint that are put into force: switched off, it is gone; a new URL comes last, on
/// probation, with the limits of the settings; one that is there is built anew with the limits that the
/// settings give, and stays as it is where they give none. The others stay, in their order.
pub proof fn lemma_endpoint_settings_take_effect(
    v: RegistryView,
    chain_id: u64,
    value: EndpointOverrideState,
    now: u64,
    i: int,
)
    requires
        v.wf(),
        v.chains.contains_key(chain_id),
        0 <= i < v.chains[chain_id].endpoints.len() && v.chains[chain_id].endpoints[i].url
            == value.url@,
        value.disabled != Some(true),
    ensures
        ({
            let before = v.chains[chain_id].endpoints;
            let w = v.with_endpoint_override(chain_id, value, now);
            let after = w.chains[chain_id].endpoints;
            &&& after.len() == before.len()
            &&& forall|k: int| 0 <= k < before.len() && k != i ==> #[trigger] after[k] == before[k]
            &&& after[i].url == value.url@
            &&& value.rps is None && value.concurrency is None ==> after[i] == before[i]
            &&& value.rps is Some && 1 <= value.rps->0 <= 100 ==> after[i].rps == value.rps->0
            &&& value.concurrency is Some && 1 <= value.concurrency->0 <= 64 ==> after[i].concurrency
                == value.concurrency->0
            &&& value.rps is Some || value.concurrency is Some ==> after[i].health.status
                is Probation && after[i].in_flight == 0
            &&& w.endpoint_overrides.contains_key(crate::keys::key_of(chain_id, value.url@))
            &&& w.endpoint_overrides[crate::keys::key_of(chain_id, value.url@)] == value
        }),
{
    let es = v.chains[chain_id].endpoints;
    assert(crate::chain::is_first_with(es, value.url@, i)) by {
        assert forall|k: int| 0 <= k < i implies (#[trigger] es[k]).url != value.url@ by {
            assert(es[k].url != es[i].url);
        }
    }
    let j = choose|j: int| crate::chain::is_first_with(es, value.url@, j);
    assert(crate::chain::is_first_with(es, value.url@, j));
    assert(j == i);
}

/// A URL that a chain does not have yet comes to it by its settings, behind the others; one that is
/// switched off leaves it, and the others stay.
pub proof fn lemma_endpoints_come_and_go_by_settings(
    v: RegistryView,
    chain_id: u64,
    value: EndpointOverrideState,
    now: u64,
    k: int,
)
    requires
        v.wf(),
        v.chains.contains_key(chain_id),
    ensures
        ({
            let before = v.chains[chain_id].endpoints;
            let after = v.with_endpoint_override(chain_id, value, now).chains[chain_id].endpoints;
            &&& value.disabled == Some(true) ==> forall|i: int|
                0 <= i < after.len() ==> (#[trigger] after[i]).url != value.url@
            &&& value.disabled == Some(true) && 0 <= k < before.len() && before[k].url != value.url@
                ==> after.contains(before[k])
            &&& value.disabled != Some(true) && (forall|i: int|
                0 <= i < before.len() ==> (#[trigger] before[i]).url != value.url@) ==> {
                &&& after.len() == before.len() + 1
                &&& after.last().url == value.url@ && after.last().health.status is Probation
                &&& value.rps is Some && 1 <= value.rps->0 <= 100 ==> after.last().rps
                    == value.rps->0
                &&& value.concurrency is Some && 1 <= value.concurrency->0 <= 64
                    ==> after.last().concurrency == value.concurrency->0
                &&& 0 <= k < before.len() ==> after[k] == before[k]
            }
        }),
{
    let before = v.chains[chain_id].endpoints;
    let after = v.with_endpoint_override(chain_id, value, now).chains[chain_id].endpoints;
    crate::chain::lemma_without_url(before, value.url@);
    if value.disabled == Some(true) {
        assert forall|i: int| 0 <= i < after.len() implies (#[trigger] after[i]).url != value.url@ by {
            if after[i].url == value.url@ {
                assert(crate::chain::has_url(after, value.url@));
            }
        }
        if 0 <= k < before.len() && before[k].url != value.url@ {
            lemma_others_are_left(before, value.url@, k);
        }
    } else if forall|i: int| 0 <= i < before.len() ==> (#[trigger] before[i]).url != value.url@ {
        assert forall|i: int| !crate::chain::is_first_with(before, value.url@, i) by {}
    }
}

/// Taking a URL out of a list leaves every endpoint with another one.
pub proof fn lemma_others_are_left(endpoints: Seq<EndpointView>, url: Seq<char>, k: int)
    requires
        0 <= k < endpoints.len(),
        endpoints[k].url != url,
    ensures
        crate::chain::without_url(endpoints, url).contains(endpoints[k]),
    decreases endpoints.len(),
{
    let short = endpoints.drop_last();
    let before = crate::chain::without_url(short, url);
    let all = crate::chain::without_url(endpoints, url);
    if k < short.len() {
        assert(short[k] == endpoints[k]);
        lemma_others_are_left(short, url, k);
        let i = choose|i: int| 0 <= i < before.len() && before[i] == endpoints[k];
        assert(all[i] == endpoints[k]);
    } else {
        assert(all[before.len() as int] == endpoints[k]);
    }
}

/// Chains that were hot when the state was stored come back: one that was asked for less than the idle
/// time ago, and that is known and not denied, is in memory afterwards and last asked for when it was.
pub proof fn lemma_hot_chains_come_back(
    v: RegistryView,
    chain_id: u64,
    last: u64,
    at: Moment,
)
    requires
        v.wf(),
        at.unix > 0,
    ensures
        ({
            let w = v.with_restored_hot(seq![(chain_id, last)], at);
            let young = at.unix - last < v.config.discovery.idle_seconds
                && v.config.discovery.idle_seconds > 0;
            &&& young && v.knows(chain_id) ==> w.chains.contains_key(chain_id)
                && w.chains[chain_id].last_ingress == last
            &&& !young || !v.knows(chain_id) ==> w == v
        }),
{
    let list = seq![(chain_id, last)];
    assert(list.drop_last() =~= Seq::<(u64, u64)>::empty());
    assert(v.with_restored_hot(list.drop_last(), at) == v);
    assert(list.last() == (chain_id, last));
    crate::registry_laws::lemma_requests_keep_to_known_chains(v, chain_id, at);
}

/// Without runtime settings nothing of them is left in force: every chain in memory is pinned and disabled
/// as the configuration and the automatic choice say, and keeps its endpoints.
pub proof fn lemma_nothing_is_left_of_settings(v: RegistryView, chain_id: u64)
    ensures
        ({
            let w = v.plain();
            &&& !w.chain_overrides.contains_key(chain_id) && !w.pinned.contains_key(chain_id)
            &&& w.endpoint_overrides.dom() == Set::<Seq<char>>::empty()
            &&& w.endpoint_order.len() == 0
            &&& w.chains.contains_key(chain_id) <==> v.chains.contains_key(chain_id)
            &&& v.chains.contains_key(chain_id) ==> {
                let c = w.chains[chain_id];
                &&& c.pinned <==> v.config.chains@.contains(chain_id) || (
                v.auto_pinned.contains_key(chain_id) && v.auto_pinned[chain_id])
                &&& c.disabled <==> v.config.discovery.deny@.contains(chain_id)
                &&& c.endpoints == v.chains[chain_id].endpoints && c.last_ingress
                    == v.chains[chain_id].last_ingress && c.head == v.chains[chain_id].head
                    && c.rejected == v.chains[chain_id].rejected
            }
            &&& w.auto_pinned == v.auto_pinned && w.catalog == v.catalog && w.health == v.health
        }),
{
    assert(v.plain().endpoint_overrides.dom() =~= Set::<Seq<char>>::empty());
}

/// Every endpoint that runtime settings name for a chain and do not switch off is among the URLs that they
/// add, and no other; the ones that they switch off are listed as such.
pub proof fn lemma_runtime_urls(
    order: Seq<Seq<char>>,
    overrides: Map<Seq<char>, EndpointOverrideState>,
    chain_id: u64,
    url: Seq<char>,
)
    ensures
        crate::registry_model::runtime_urls(order, overrides, chain_id).contains(url) <==> names(
            order,
            overrides,
            chain_id,
            url,
            false,
        ),
        crate::registry_model::switched_off_urls(order, overrides, chain_id).contains(url)
            <==> names(order, overrides, chain_id, url, true),
    decreases order.len(),
{
    let on = crate::registry_model::runtime_urls(order, overrides, chain_id);
    let off = crate::registry_model::switched_off_urls(order, overrides, chain_id);
    if order.len() > 0 {
        let short = order.drop_last();
        let last = order.len() - 1;
        lemma_runtime_urls(short, overrides, chain_id, url);
        let on0 = crate::registry_model::runtime_urls(short, overrides, chain_id);
        let off0 = crate::registry_model::switched_off_urls(short, overrides, chain_id);
        let u = overrides[order.last()].url@;
        crate::registry_model::lemma_push_contains(on0, u, url);
        crate::registry_model::lemma_push_contains(off0, u, url);
        assert(order[last] == order.last());
        let p = crate::keys::chain_prefix(chain_id);
        assert(crate::text::stands_at(order.last(), p, 0) <==> order.last().len() >= p.len()
            && order.last().subrange(0, p.len() as int) == p);
        assert forall|b: bool| names(short, overrides, chain_id, url, b) implies names(
            order,
            overrides,
            chain_id,
            url,
            b,
        ) by {
            let k = choose|k: int| named_at(short, overrides, chain_id, url, b, k);
            assert(named_at(order, overrides, chain_id, url, b, k));
        }
        assert forall|b: bool|
            names(order, overrides, chain_id, url, b) && !names(
                short,
                overrides,
                chain_id,
                url,
                b,
            ) implies named_at(order, overrides, chain_id, url, b, last) by {
            let k = choose|k: int| named_at(order, overrides, chain_id, url, b, k);
            if k < last {
                assert(named_at(short, overrides, chain_id, url, b, k));
            }
        }
        if named_at(order, overrides, chain_id, url, false, last) {
            assert(on.contains(url));
        }
        if named_at(order, overrides, chain_id, url, true, last) {
            assert(off.contains(url));
        }
        if on.contains(url) && !on0.contains(url) {
            assert(named_at(order, overrides, chain_id, url, false, last));
        }
        if off.contains(url) && !off0.contains(url) {
            assert(named_at(order, overrides, chain_id, url, true, last));
        }
        assert(names(short, overrides, chain_id, url, false) ==> names(
            order,
            overrides,
            chain_id,
            url,
            false,
        ));
        assert(names(short, overrides, chain_id, url, true) ==> names(
            order,
            overrides,
            chain_id,
            url,
            true,
        ));
        assert(names(order, overrides, chain_id, url, false) ==> names(
            short,
            overrides,
            chain_id,
            url,
            false,
        ) || named_at(order, overrides, chain_id, url, false, last));
        assert(names(order, overrides, chain_id, url, true) ==> names(
            short,
            overrides,
            chain_id,
            url,
            true,
        ) || named_at(order, overrides, chain_id, url, true, last));
    }
}

/// Whether the settings under a key are for an endpoint of the chain with the given URL, switched off or
/// not.
pub open spec fn named_at(
    order: Seq<Seq<char>>,
    overrides: Map<Seq<char>, EndpointOverrideState>,
    chain_id: u64,
    url: Seq<char>,
    off: bool,
    k: int,
) -> bool {
    let p = crate::keys::chain_prefix(chain_id);
    &&& 0 <= k < order.len()
    &&& order[k].len() >= p.len() && order[k].subrange(0, p.len() as int) == p
    &&& overrides[order[k]].url@ == url
    &&& (overrides[order[k]].disabled == Some(true)) == off
}

pub open spec fn names(
    order: Seq<Seq<char>>,
    overrides: Map<Seq<char>, EndpointOverrideState>,
    chain_id: u64,
    url: Seq<char>,
    off: bool,
) -> bool {
    exists|k: int| named_at(order, overrides, chain_id, url, off, k)
}

/// Each hot chain of a stored list comes back, one after another: one that was asked for less than the idle
/// time ago, and that is known then, is in memory and last asked for when it was; any other changes nothing.
pub proof fn lemma_each_hot_chain_comes_back(
    v: RegistryView,
    list: Seq<(u64, u64)>,
    chain_id: u64,
    last: u64,
    at: Moment,
)
    requires
        v.with_restored_hot(list, at).wf(),
        at.unix > 0,
    ensures
        ({
            let before = v.with_restored_hot(list, at);
            let after = v.with_restored_hot(list.push((chain_id, last)), at);
            let young = at.unix - last < v.config.discovery.idle_seconds
                && v.config.discovery.idle_seconds > 0;
            &&& young && before.knows(chain_id) ==> after.chains.contains_key(chain_id)
                && after.chains[chain_id].last_ingress == last
            &&& !young || !before.knows(chain_id) ==> after == before
        }),
{
    assert(list.push((chain_id, last)).drop_last() =~= list);
    crate::registry_laws::lemma_requests_keep_to_known_chains(
        v.with_restored_hot(list, at),
        chain_id,
        at,
    );
}

} // verus!
