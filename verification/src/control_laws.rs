//! What the control interface is for: every action does what its name says to the chain or endpoint that it
//! names, is stored as such, and leaves the others alone.
use crate::admin::{
    ApiError, ChainAction, EndpointAction, EndpointPlan, EndpointReply, SettingsPatch, ShownState,
    StoreWrite,
};
use crate::chain::ChainStateLabel;
use crate::endpoint::{EndpointState, EndpointView};
use crate::health::HealthStatus;
use crate::registry_model::{Moment, RegistryView};
use crate::state::{ChainOverrideState, EndpointOverrideState, HealthSnapshot, StateExport};
use vstd::prelude::*;

verus! {

/// What the names of actions on a chain stand for; any other name stands for none.
pub proof fn lemma_names_of_chain_actions(s: Seq<char>)
    ensures
        crate::admin::chain_action_named(s) == Some(ChainAction::Activate) <==> s == "activate"@,
        crate::admin::chain_action_named(s) == Some(ChainAction::Demote) <==> s == "demote"@,
        crate::admin::chain_action_named(s) == Some(ChainAction::Pin) <==> s == "pin"@,
        crate::admin::chain_action_named(s) == Some(ChainAction::Unpin) <==> s == "unpin"@,
        crate::admin::chain_action_named(s) == Some(ChainAction::Enable) <==> s == "enable"@,
        crate::admin::chain_action_named(s) == Some(ChainAction::Disable) <==> s == "disable"@,
{
    reveal_strlit("activate");
    reveal_strlit("demote");
    reveal_strlit("pin");
    reveal_strlit("unpin");
    reveal_strlit("enable");
    reveal_strlit("disable");
    assert("activate"@.len() == 8 && "demote"@.len() == 6 && "pin"@.len() == 3 && "unpin"@.len() == 5
        && "enable"@.len() == 6 && "disable"@.len() == 7);
    assert("demote"@[0] == 'd' && "enable"@[0] == 'e');
}

/// What an action on a chain changes of its settings: the pin, or whether it is disabled, and nothing
/// else. To activate or demote changes none.
pub proof fn lemma_action_changes_one_setting(o: ChainOverrideState, action: ChainAction)
    ensures
        ({
            let after = crate::admin::overridden(o, action);
            &&& action is Pin ==> after.pinned == Some(true)
            &&& action is Unpin ==> after.pinned == Some(false)
            &&& action is Enable ==> after.disabled == Some(false)
            &&& action is Disable ==> after.disabled == Some(true)
            &&& !(action is Pin) && !(action is Unpin) ==> after.pinned == o.pinned
            &&& !(action is Enable) && !(action is Disable) ==> after.disabled == o.disabled
            &&& after.block_time_ms == o.block_time_ms && after.confirmation_depth
                == o.confirmation_depth && after.tip_ttl_ms == o.tip_ttl_ms && after.max_block_lag
                == o.max_block_lag
        }),
{
}

/// What is stored before a chain is activated or demoted: the chains that were asked for, with this one
/// among them or without it, and all others as they were. Before any other action its settings are stored.
pub proof fn lemma_what_is_stored_first(
    w: StoreWrite,
    v: RegistryView,
    chain_id: u64,
    action: ChainAction,
    now: u64,
    other: u64,
)
    requires
        v.wf(),
        crate::admin::is_write(w, v, chain_id, action, now),
        other != chain_id,
    ensures
        action is Activate || action is Demote ==> {
            &&& w matches StoreWrite::HotChains(list) && {
                &&& action is Activate <==> crate::admin::names_chain(list@, chain_id)
                &&& action is Demote ==> forall|i: int|
                    0 <= i < list@.len() ==> (#[trigger] list@[i]).0 != chain_id
                &&& v.chains.contains_key(other) && v.chains[other].last_ingress > 0
                    ==> list@.contains((other, v.chains[other].last_ingress))
            }
        },
        !(action is Activate) && !(action is Demote) ==> (w matches StoreWrite::Override(o) && o
            == crate::admin::overridden(
            if v.chain_overrides.contains_key(chain_id) {
                v.chain_overrides[chain_id]
            } else {
                crate::state::no_override()
            },
            action,
        )),
{
    let hot = v.hot_list();
    let asked = |k: u64| v.chains[k].last_ingress > 0;
    let kept = v.order.filter(asked);
    if v.chains.contains_key(other) && v.chains[other].last_ingress > 0 {
        crate::registry_model::lemma_filter_contains(v.order, asked, other);
        assert(v.order.contains(other));
        assert(kept.contains(other));
        let i = choose|i: int| 0 <= i < kept.len() && kept[i] == other;
        assert(hot[i] == (other, v.chains[other].last_ingress));
        assert(hot.contains((other, v.chains[other].last_ingress)));
    }
    let p = (other, v.chains[other].last_ingress);
    match w {
        StoreWrite::HotChains(list) => {
            if action is Activate {
                if !crate::admin::names_chain(hot, chain_id) {
                    crate::registry_model::lemma_push_contains(hot, (chain_id, now), p);
                    assert(list@[hot.len() as int].0 == chain_id);
                }
            } else {
                lemma_others_are_kept(hot, chain_id, p);
            }
        },
        StoreWrite::Override(_) => {},
    }
}

proof fn lemma_others_are_kept(list: Seq<(u64, u64)>, chain_id: u64, p: (u64, u64))
    ensures
        forall|i: int|
            0 <= i < crate::admin::all_but(list, chain_id).len() ==> (
            #[trigger] crate::admin::all_but(list, chain_id)[i]).0 != chain_id,
        list.contains(p) && p.0 != chain_id ==> crate::admin::all_but(list, chain_id).contains(p),
    decreases list.len(),
{
    reveal(Seq::filter);
    if list.len() > 0 {
        let short = list.drop_last();
        lemma_others_are_kept(short, chain_id, p);
        let before = crate::admin::all_but(short, chain_id);
        assert(list =~= short.push(list.last()));
        crate::registry_model::lemma_push_contains(short, list.last(), p);
        crate::registry_model::lemma_push_contains(before, list.last(), p);
    }
}

/// What actions do to a chain that is known and not denied. Pinned, it is there for good; unpinned, it
/// serves as one that was just asked for; enabled or disabled, it is that. What each is answered follows
/// from it, and only the settings of the chain change.
pub proof fn lemma_actions_do_what_they_say(
    v: RegistryView,
    chain_id: u64,
    action: ChainAction,
    at: Moment,
    other: u64,
)
    requires
        v.wf(),
        at.unix > 0,
        v.chains.contains_key(chain_id) || v.knows(chain_id),
        !v.config.discovery.deny@.contains(chain_id),
        other != chain_id,
    ensures
        ({
            let w = crate::admin::finished(v, chain_id, action, at);
            let c = w.chains[chain_id];
            let said = crate::admin::answered(v, chain_id, action, at);
            &&& action is Pin ==> w.chains.contains_key(chain_id) && c.pinned
                && w.pinned.contains_key(chain_id) && w.pinned[chain_id] && (!c.disabled ==> said
                == "pinned"@)
            &&& action is Unpin ==> w.chains.contains_key(chain_id) && !c.pinned
                && w.pinned.contains_key(chain_id) && !w.pinned[chain_id] && (!c.disabled
                ==> c.last_ingress == at.unix && said == "hot"@)
            &&& action is Disable ==> w.chains.contains_key(chain_id) && c.disabled && said
                == "disabled"@
            &&& action is Enable ==> w.chains.contains_key(chain_id) && !c.disabled
            &&& action is Enable && (crate::lifecycle_laws::is_kept(v, chain_id) || (
            v.config.discovery.enabled && v.catalog is Some && v.catalog->0.place(chain_id) is Some))
                ==> (said == "pinned"@ || said == "hot"@) && (said == "pinned"@ <==> c.pinned)
            &&& action is Activate && v.knows(chain_id) ==> w.chains.contains_key(chain_id) && (
            !c.disabled ==> c.last_ingress == at.unix)
            &&& action is Demote && v.chains.contains_key(chain_id) && !v.chains[chain_id].pinned
                ==> c.endpoints.len() == 0 && c.last_ingress == 0 && (!c.disabled ==> said
                == "dormant"@)
            &&& action is Pin || action is Unpin || action is Enable || action is Disable
                ==> w.chain_overrides.contains_key(chain_id) && w.chain_overrides[chain_id]
                == crate::admin::overridden(
                if v.chain_overrides.contains_key(chain_id) {
                    v.chain_overrides[chain_id]
                } else {
                    crate::state::no_override()
                },
                action,
            )
            &&& action is Activate || action is Demote ==> w.chain_overrides == v.chain_overrides
            &&& v.chain_overrides.contains_key(other) ==> w.chain_overrides.contains_key(other)
                && w.chain_overrides[other] == v.chain_overrides[other]
            &&& !(action is Pin) && !(action is Unpin) ==> w.pinned == v.pinned
            &&& v.pinned.contains_key(other) ==> w.pinned.contains_key(other) && w.pinned[other]
                == v.pinned[other]
            &&& w.endpoint_overrides == v.endpoint_overrides && w.auto_pinned == v.auto_pinned
        }),
{
    reveal_strlit("pinned");
    reveal_strlit("hot");
    assert("pinned"@.len() == 6 && "hot"@.len() == 3);
    crate::admin::lemma_resolved(v, chain_id, at);
    crate::admin::lemma_resolved(
        crate::admin::acted(v, chain_id, action, at),
        chain_id,
        at,
    );
}

/// The words for the states of a chain.
pub proof fn lemma_words_for_states(label: ChainStateLabel)
    ensures
        label is Pinned ==> crate::admin::label_text(label) == "pinned"@,
        label is Hot ==> crate::admin::label_text(label) == "hot"@,
        label is Dormant ==> crate::admin::label_text(label) == "dormant"@,
        label is Disabled ==> crate::admin::label_text(label) == "disabled"@,
{
}

/// Which numbers an action on an endpoint may carry: one to a hundred requests a second, one to
/// sixty-four at a time, and a pause of one second to a week. Without a pause it is one minute.
pub proof fn lemma_numbers_of_endpoint_actions(a: EndpointAction, action: Seq<char>)
    ensures
        crate::admin::limits_fault(a, action) is None <==> {
            &&& a.rps is None || 1 <= a.rps->0 <= 100
            &&& a.concurrency is None || 1 <= a.concurrency->0 <= 64
            &&& action != "cool"@ || a.seconds is None || 1 <= a.seconds->0 <= 604_800
        },
        a.seconds is None ==> crate::admin::cooling_seconds(a) == 60,
        a.seconds matches Some(n) ==> crate::admin::cooling_seconds(a) == n,
{
}

/// Which endpoints of a chain are known: those in memory, those with settings of their own, and those of
/// the catalog and of the configuration. One that is there by runtime settings alone may be removed.
pub proof fn lemma_known_endpoints(v: RegistryView, chain_id: u64, u: Seq<char>, i: int)
    ensures
        v.chains.contains_key(chain_id) && 0 <= i < v.chains[chain_id].endpoints.len()
            && v.chains[chain_id].endpoints[i].url == u ==> crate::admin::is_known(v, chain_id, u),
        v.endpoint_overrides.contains_key(crate::keys::key_of(chain_id, u)) ==> crate::admin::is_known(
            v,
            chain_id,
            u,
        ),
        v.catalog_urls(chain_id).contains(u) || v.extra_urls(chain_id).contains(u)
            ==> crate::admin::is_known(v, chain_id, u) && !crate::admin::is_runtime_only(
            v,
            chain_id,
            u,
        ),
        crate::admin::is_runtime_only(v, chain_id, u) <==> v.endpoint_overrides.contains_key(
            crate::keys::key_of(chain_id, u),
        ) && !v.catalog_urls(chain_id).contains(u) && !v.extra_urls(chain_id).contains(u),
        crate::admin::is_known(v, chain_id, u) && !v.catalog_urls(chain_id).contains(u)
            && !v.extra_urls(chain_id).contains(u) && !v.endpoint_overrides.contains_key(
            crate::keys::key_of(chain_id, u),
        ) ==> v.chains.contains_key(chain_id) && exists|k: int|
            0 <= k < v.chains[chain_id].endpoints.len() && (
            #[trigger] v.chains[chain_id].endpoints[k]).url == u,
{
    if v.chains.contains_key(chain_id) && 0 <= i < v.chains[chain_id].endpoints.len()
        && v.chains[chain_id].endpoints[i].url == u {
        assert(crate::chain::has_url(v.endpoints_of(chain_id), u));
    }
    if crate::chain::has_url(v.endpoints_of(chain_id), u) {
        let es = v.endpoints_of(chain_id);
        let k = choose|k: int| 0 <= k < es.len() && (#[trigger] es[k]).url == u;
        assert(v.chains[chain_id].endpoints[k].url == u);
    }
}

/// What an action changes of the settings of an endpoint: enabled or disabled it is that, and new limits
/// replace the ones that are given, each by itself. The URL stays.
pub proof fn lemma_endpoint_action_changes_settings(
    o: EndpointOverrideState,
    action: Seq<char>,
    a: EndpointAction,
)
    ensures
        ({
            let after = crate::admin::adjusted(o, action, a);
            &&& after.url == o.url
            &&& action == "enable"@ ==> after.disabled == Some(false) && after.rps == o.rps
                && after.concurrency == o.concurrency
            &&& action == "disable"@ ==> after.disabled == Some(true) && after.rps == o.rps
                && after.concurrency == o.concurrency
            &&& action == "limits"@ ==> {
                &&& after.disabled == o.disabled
                &&& a.rps is Some ==> after.rps == a.rps
                &&& a.rps is None ==> after.rps == o.rps
                &&& a.concurrency is Some ==> after.concurrency == a.concurrency
                &&& a.concurrency is None ==> after.concurrency == o.concurrency
            }
        }),
        crate::admin::changes_settings(action) <==> action == "enable"@ || action == "disable"@
            || action == "limits"@,
        crate::admin::endpoint_action_named(action) <==> action == "enable"@ || action
            == "disable"@ || action == "limits"@ || action == "cool"@ || action == "reset"@ || action
            == "remove"@ || action == "probe"@,
{
    reveal_strlit("enable");
    reveal_strlit("disable");
    reveal_strlit("limits");
    assert("enable"@.len() == 6 && "disable"@.len() == 7 && "limits"@.len() == 6);
    assert("enable"@[0] == 'e' && "limits"@[0] == 'l');
}

/// Cooling an endpoint by hand pauses it from now on for the seconds asked for and adds a strike; to reset
/// it forgets its strikes and puts it on probation. Neither touches another endpoint or anything else.
pub proof fn lemma_endpoints_are_cooled_and_reset(
    v: RegistryView,
    w: RegistryView,
    reply: EndpointReply,
    chain_id: u64,
    i: int,
    plan: EndpointPlan,
    at: Moment,
)
    requires
        v.wf(),
        v.chains.contains_key(chain_id),
        0 <= i < v.chains[chain_id].endpoints.len(),
        crate::admin::carried_out(
            v,
            w,
            reply,
            chain_id,
            v.chains[chain_id].endpoints[i].url,
            plan,
            at,
        ),
        at.wf(),
        plan matches EndpointPlan::Cool { seconds } ==> seconds <= 604_800,
        v.chains[chain_id].endpoints[i].health.strikes < u32::MAX,
    ensures
        ({
            let before = v.chains[chain_id].endpoints;
            let after = w.chains[chain_id].endpoints;
            &&& plan is Cool || plan is Reset ==> {
                &&& after.len() == before.len()
                &&& forall|k: int| 0 <= k < before.len() && k != i ==> #[trigger] after[k] == before[k]
                &&& after[i].url == before[i].url && after[i].latency == before[i].latency
                    && after[i].stats == before[i].stats && after[i].in_flight
                    == before[i].in_flight && after[i].dirty
                &&& w.chain_overrides == v.chain_overrides && w.endpoint_overrides
                    == v.endpoint_overrides
                &&& forall|k: u64|
                    k != chain_id && #[trigger] v.chains.contains_key(k) ==> w.chains[k]
                        == v.chains[k]
            }
            &&& plan matches EndpointPlan::Cool { seconds } ==> after[i].health.status
                == (HealthStatus::Cooling {
                until: (at.instant + seconds * 1_000_000_000) as u128,
            }) && after[i].health.strikes == before[i].health.strikes + 1 && reply == (
            EndpointReply::State(
                EndpointState::Cooling {
                    until: (at.instant + seconds * 1_000_000_000) as u128,
                    strikes: after[i].health.strikes,
                },
            ))
            &&& plan is Reset ==> after[i].health.status == (HealthStatus::Probation { passes: 0 })
                && after[i].health.strikes == 0 && reply == (EndpointReply::State(
                EndpointState::Probation { passes: 0 },
            ))
            &&& plan is Probe ==> reply is Probe && w == v
        }),
{
    let es = v.chains[chain_id].endpoints;
    let u = es[i].url;
    assert(crate::chain::is_first_with(es, u, i)) by {
        assert forall|k: int| 0 <= k < i implies (#[trigger] es[k]).url != u by {
            assert(es[k].url != es[i].url);
        }
    }
    assert(crate::chain::has_url(v.endpoints_of(chain_id), u)) by {
        assert(v.endpoints_of(chain_id)[i].url == u);
    }
    match plan {
        EndpointPlan::Cool { seconds } => {
            let change = |e: EndpointView| crate::admin::cooled(e, at.instant, seconds);
            crate::registry_model::lemma_changed_endpoint(v, chain_id, u, i, change);
            assert(change(es[i]) == crate::admin::cooled(es[i], at.instant, seconds));
        },
        EndpointPlan::Reset => {
            let change = |e: EndpointView| crate::admin::health_reset(e);
            crate::registry_model::lemma_changed_endpoint(v, chain_id, u, i, change);
            assert(change(es[i]) == crate::admin::health_reset(es[i]));
        },
        _ => {},
    }
    if plan is Cool || plan is Reset {
        let after = w.chains[chain_id].endpoints;
        match reply {
            EndpointReply::State(s) => {
                let list = w.endpoints_of(chain_id);
                let k = choose|k: int|
                    crate::chain::is_first_with(list, u, k) && s == (
                    #[trigger] list[k]).observed_state();
                assert(crate::chain::is_first_with(list, u, k));
                if k != i {
                    assert(list[k] == es[k]);
                    if k < i {
                        assert(es[k].url != es[i].url);
                    } else {
                        assert(es[i].url != es[k].url);
                    }
                }
            },
            _ => {},
        }
    }
}

/// A patch of settings sets what it gives and takes back what it gives as nothing; what it leaves out
/// stays, and so do the pin and whether the chain is disabled.
pub proof fn lemma_patches_set_what_they_give(o: ChainOverrideState, p: SettingsPatch)
    ensures
        ({
            let after = crate::admin::patched(o, p);
            &&& p.block_time_ms matches Some(x) ==> after.block_time_ms == x
            &&& p.confirmation_depth matches Some(x) ==> after.confirmation_depth == x
            &&& p.tip_ttl_ms matches Some(x) ==> after.tip_ttl_ms == x
            &&& p.max_block_lag matches Some(x) ==> after.max_block_lag == x
            &&& p.block_time_ms is None ==> after.block_time_ms == o.block_time_ms
            &&& p.confirmation_depth is None ==> after.confirmation_depth == o.confirmation_depth
            &&& p.tip_ttl_ms is None ==> after.tip_ttl_ms == o.tip_ttl_ms
            &&& p.max_block_lag is None ==> after.max_block_lag == o.max_block_lag
            &&& after.pinned == o.pinned && after.disabled == o.disabled
        }),
        crate::admin::set_values(p).tip_ttl_ms == (match p.tip_ttl_ms {
            Some(x) => x,
            None => None,
        }),
        crate::admin::set_values(p).block_time_ms == (match p.block_time_ms {
            Some(x) => x,
            None => None,
        }),
        crate::admin::set_values(p).confirmation_depth == (match p.confirmation_depth {
            Some(x) => x,
            None => None,
        }),
        crate::admin::set_values(p).max_block_lag == (match p.max_block_lag {
            Some(x) => x,
            None => None,
        }),
{
}

proof fn lemma_requests_keep_settings(v: RegistryView, list: Seq<(u64, u64)>, at: Moment)
    ensures
        v.with_restored_hot(list, at).chain_overrides == v.chain_overrides,
        v.with_restored_hot(list, at).endpoint_overrides == v.endpoint_overrides,
        v.with_restored_hot(list, at).pinned == v.pinned,
    decreases list.len(),
{
    if list.len() > 0 {
        lemma_requests_keep_settings(v, list.drop_last(), at);
    }
}

proof fn lemma_health_keeps_settings(
    v: RegistryView,
    list: Seq<crate::state::HealthSnapshot>,
    at: Moment,
)
    ensures
        v.with_health(list, at).chain_overrides == v.chain_overrides,
        v.with_health(list, at).endpoint_overrides == v.endpoint_overrides,
        v.with_health(list, at).pinned == v.pinned,
    decreases list.len(),
{
    if list.len() > 0 {
        lemma_health_keeps_settings(v, list.drop_last(), at);
    }
}

/// After an import the settings in force are those imported, as far as they are within their bounds, and
/// the automatic choice is the imported one, whatever there was before.
pub proof fn lemma_import_replaces_everything(
    v: RegistryView,
    e: StateExport,
    at: Moment,
    chain_id: u64,
)
    requires
        e.wf(),
        forall|k: Seq<char>| #[trigger]
            e.overrides.endpoints@.contains_key(k) ==> crate::registry_laws::is_own_key(
                k,
                e.overrides.endpoints@[k],
            ),
    ensures
        ({
            let w = crate::admin::imported(v, e, at);
            let given = e.overrides.chains@;
            &&& w.chain_overrides.contains_key(chain_id) <==> given.contains_key(chain_id)
                && crate::registry_model::valid_chain_override(given[chain_id])
            &&& w.chain_overrides.contains_key(chain_id) ==> w.chain_overrides[chain_id]
                == given[chain_id]
            &&& w.endpoint_overrides == crate::registry_laws::valid_endpoints(e.overrides.endpoints@)
            &&& w.auto_pinned.contains_key(chain_id) <==> e.auto_chains@.contains_key(chain_id)
            &&& w.auto_pinned.contains_key(chain_id) ==> w.auto_pinned[chain_id]
        }),
{
    crate::registry_laws::lemma_settings_in_force(v, e.overrides, at.unix);
    let set = v.plain().with_chain_overrides(e.overrides.chains.entries()).with_endpoint_overrides(
        e.overrides.endpoints.entries(),
        at.unix,
    );
    lemma_health_keeps_settings(set, e.health@, at);
    lemma_requests_keep_settings(set.with_health(e.health@, at), e.hot_chains@, at);
}

/// An answer that an action is refused with holds its status, its code and its message.
pub proof fn lemma_refusals_say_why(e: ApiError, status: u16, code: Seq<char>, message: Seq<char>)
    ensures
        e.is(status, code, message) <==> e.status == status && e.code@ == code && e.message@ == message,
{
}

/// Which number is refused, and with which words; the first that is out of bounds is named.
pub proof fn lemma_which_number_is_refused(a: EndpointAction, action: Seq<char>)
    ensures
        ({
            let said = crate::admin::limits_fault(a, action);
            let rate = a.rps is None || 1 <= a.rps->0 <= 100;
            let slots = a.concurrency is None || 1 <= a.concurrency->0 <= 64;
            let pause = action != "cool"@ || a.seconds is None || 1 <= a.seconds->0 <= 604_800;
            &&& !rate ==> said == Some("rps must be between 1 and 100"@)
            &&& rate && !slots ==> said == Some("concurrency must be between 1 and 64"@)
            &&& rate && slots && !pause ==> said == Some("cool seconds must be between 1 and 604800"@)
        }),
{
}

/// What an action on an endpoint comes to: settings of that endpoint to store, of which those that the
/// action does not name stay as they were or are left unset; or what else its name says.
pub proof fn lemma_what_endpoint_actions_come_to(
    p: EndpointPlan,
    v: RegistryView,
    chain_id: u64,
    action: Seq<char>,
    a: EndpointAction,
)
    requires
        crate::admin::plans(p, v, chain_id, action, a),
        crate::admin::endpoint_action_named(action),
    ensures
        ({
            let own = crate::keys::key_of(chain_id, a.url@);
            let made = v.endpoint_overrides.contains_key(own);
            let o = v.endpoint_overrides[own];
            let here = v.chains.contains_key(chain_id) && exists|i: int|
                0 <= i < v.chains[chain_id].endpoints.len() && (
                #[trigger] v.chains[chain_id].endpoints[i]).url == a.url@;
            &&& p is Store <==> action == "enable"@ || action == "disable"@ || action == "limits"@
            &&& p is Cool <==> action == "cool"@
            &&& p is Reset <==> action == "reset"@
            &&& p is Remove <==> action == "remove"@
            &&& p is Probe <==> action == "probe"@
            &&& p matches EndpointPlan::Remove { key } ==> key@ == own
            &&& p matches EndpointPlan::Cool { seconds } ==> seconds == (match a.seconds {
                Some(n) => n,
                None => 60,
            })
            &&& p matches EndpointPlan::Store { key, value, shown } ==> {
                &&& key@ == own
                &&& shown == (if here {
                    ShownState::Current
                } else {
                    ShownState::Dormant
                })
                &&& !made ==> value.url@ == a.url@
                &&& made ==> value.url == o.url
                &&& action == "enable"@ ==> value.disabled == Some(false)
                &&& action == "disable"@ ==> value.disabled == Some(true)
                &&& action == "limits"@ ==> value.disabled == (if made {
                    o.disabled
                } else {
                    None
                })
                &&& value.rps == (if action == "limits"@ && a.rps is Some {
                    a.rps
                } else if made {
                    o.rps
                } else {
                    None
                })
                &&& value.concurrency == (if action == "limits"@ && a.concurrency is Some {
                    a.concurrency
                } else if made {
                    o.concurrency
                } else {
                    None
                })
            }
        }),
{
    lemma_endpoint_action_changes_settings(
        EndpointOverrideState { url: a.url, disabled: None, rps: None, concurrency: None },
        action,
        a,
    );
    reveal_strlit("enable");
    reveal_strlit("disable");
    reveal_strlit("limits");
    reveal_strlit("cool");
    reveal_strlit("reset");
    reveal_strlit("remove");
    reveal_strlit("probe");
    assert("enable"@.len() == 6 && "disable"@.len() == 7 && "limits"@.len() == 6 && "cool"@.len() == 4
        && "reset"@.len() == 5 && "remove"@.len() == 6 && "probe"@.len() == 5);
    assert("enable"@[0] == 'e' && "limits"@[0] == 'l' && "remove"@[0] == 'r' && "reset"@[0] == 'r'
        && "probe"@[0] == 'p');
    assert(v.endpoint_override(chain_id, a.url@) is Some <==> v.endpoint_overrides.contains_key(
        crate::keys::key_of(chain_id, a.url@),
    ));
}

/// An endpoint that is removed is gone from its chain with its settings; the other endpoints and settings
/// stay.
pub proof fn lemma_removed_endpoints_are_gone(
    v: RegistryView,
    w: RegistryView,
    reply: EndpointReply,
    chain_id: u64,
    u: Seq<char>,
    plan: EndpointPlan,
    at: Moment,
    other: Seq<char>,
)
    requires
        plan is Remove,
        crate::admin::carried_out(v, w, reply, chain_id, u, plan, at),
        v.chains.contains_key(chain_id),
        v.endpoint_overrides.contains_key(crate::keys::key_of(chain_id, u)),
        other != crate::keys::key_of(chain_id, u),
    ensures
        !w.endpoint_overrides.contains_key(crate::keys::key_of(chain_id, u)),
        v.endpoint_overrides.contains_key(other) ==> w.endpoint_overrides.contains_key(other)
            && w.endpoint_overrides[other] == v.endpoint_overrides[other],
        w.chains.contains_key(chain_id),
        forall|i: int|
            0 <= i < w.chains[chain_id].endpoints.len() ==> (
            #[trigger] w.chains[chain_id].endpoints[i]).url != u,
        w.chain_overrides == v.chain_overrides && w.pinned == v.pinned,
{
    let seen = crate::admin::looked_at(v, chain_id, u, at.instant);
    assert(seen.chains.contains_key(chain_id));
    assert(seen.endpoint_overrides == v.endpoint_overrides);
    assert(crate::admin::is_removed(seen, w, chain_id, u) || crate::admin::is_removed(
        v,
        w,
        chain_id,
        u,
    ));
    if crate::admin::is_removed(seen, w, chain_id, u) {
        lemma_taken_back(seen, w, chain_id, u);
    } else {
        lemma_taken_back(v, w, chain_id, u);
    }
}

proof fn lemma_taken_back(v: RegistryView, w: RegistryView, chain_id: u64, u: Seq<char>)
    requires
        crate::admin::is_removed(v, w, chain_id, u),
        v.chains.contains_key(chain_id),
        v.endpoint_overrides.contains_key(crate::keys::key_of(chain_id, u)),
    ensures
        w.endpoint_overrides == v.endpoint_overrides.remove(crate::keys::key_of(chain_id, u)),
        w.chains.contains_key(chain_id),
        forall|i: int|
            0 <= i < w.chains[chain_id].endpoints.len() ==> (
            #[trigger] w.chains[chain_id].endpoints[i]).url != u,
        w.chain_overrides == v.chain_overrides && w.pinned == v.pinned,
{
    assert(v.endpoint_override(chain_id, u) is Some);
    let before = v.chains[chain_id].endpoints;
    let after = crate::chain::without_url(before, u);
    assert(w.chains[chain_id].endpoints == after);
    assert(!crate::chain::has_url(after, u)) by {
        crate::chain::lemma_without_url(before, u);
    }
}

/// An import brings the health of every endpoint that it holds, as it has it last.
pub proof fn lemma_import_brings_health(v: RegistryView, e: StateExport, at: Moment, n: int)
    requires
        0 <= n < e.health@.len(),
        forall|k: int|
            n < k < e.health@.len() ==> crate::keys::key_of(
                (#[trigger] e.health@[k]).chain_id,
                e.health@[k].url@,
            ) != crate::keys::key_of(e.health@[n].chain_id, e.health@[n].url@),
    ensures
        ({
            let w = crate::admin::imported(v, e, at);
            let key = crate::keys::key_of(e.health@[n].chain_id, e.health@[n].url@);
            w.health.contains_key(key) && w.health[key] == e.health@[n]
        }),
{
    let set = v.plain().with_chain_overrides(e.overrides.chains.entries()).with_endpoint_overrides(
        e.overrides.endpoints.entries(),
        at.unix,
    );
    lemma_health_is_taken_in(set, e.health@, at, n);
    lemma_requests_keep_health(set.with_health(e.health@, at), e.hot_chains@, at);
}

proof fn lemma_health_is_taken_in(v: RegistryView, list: Seq<HealthSnapshot>, at: Moment, n: int)
    requires
        0 <= n < list.len(),
        forall|k: int|
            n < k < list.len() ==> crate::keys::key_of((#[trigger] list[k]).chain_id, list[k].url@)
                != crate::keys::key_of(list[n].chain_id, list[n].url@),
    ensures
        ({
            let w = v.with_health(list, at);
            let key = crate::keys::key_of(list[n].chain_id, list[n].url@);
            w.health.contains_key(key) && w.health[key] == list[n]
        }),
    decreases list.len(),
{
    let short = list.drop_last();
    if n < short.len() {
        assert(short[n] == list[n]);
        assert forall|k: int| n < k < short.len() implies crate::keys::key_of(
            (#[trigger] short[k]).chain_id,
            short[k].url@,
        ) != crate::keys::key_of(short[n].chain_id, short[n].url@) by {
            assert(short[k] == list[k]);
        }
        lemma_health_is_taken_in(v, short, at, n);
        assert(list[list.len() - 1] == list.last());
    } else {
        assert(list.last() == list[n]);
    }
}

proof fn lemma_requests_keep_health(v: RegistryView, list: Seq<(u64, u64)>, at: Moment)
    ensures
        v.with_restored_hot(list, at).health == v.health,
    decreases list.len(),
{
    if list.len() > 0 {
        lemma_requests_keep_health(v, list.drop_last(), at);
    }
}

} // verus!
