//! The control surface: who may do what, what a request changes, and what it is answered.
use crate::chain::ChainStateLabel;
use crate::endpoint::{EndpointState, EndpointView};
use crate::health::SECOND;
use crate::keys;
use crate::registry;
use crate::registry::Registry;
use crate::registry_model::{Moment, RegistryView};
use crate::state::{ChainOverrideState, EndpointOverrideState, Overrides, StateExport};
use crate::text;
use crate::url;
use vstd::prelude::*;

verus! {

/// What is cleared from the cache of answers: those of one chain, or all.
#[derive(Clone, Copy, Debug, PartialEq, Eq, Structural)]
pub struct CacheClear {
    pub chain_id: Option<u64>,
}

/// A change of the settings of a chain: an absent field stays, an empty one is taken back.
#[derive(Clone, Copy, Debug, PartialEq, Eq, Structural)]
pub struct SettingsPatch {
    pub block_time_ms: Option<Option<u64>>,
    pub confirmation_depth: Option<Option<u64>>,
    pub tip_ttl_ms: Option<Option<u64>>,
    pub max_block_lag: Option<Option<u64>>,
}

/// What is to be done with an endpoint.
#[derive(Debug)]
pub struct EndpointAction {
    pub url: String,
    pub seconds: Option<u64>,
    pub rps: Option<u32>,
    pub concurrency: Option<usize>,
}

/// A reset has to be confirmed.
#[derive(Clone, Copy, Debug, PartialEq, Eq, Structural)]
pub struct ConfirmReset {
    pub confirm: bool,
}

/// An answer that refuses a request.
#[derive(Debug)]
pub struct ApiError {
    pub status: u16,
    pub code: &'static str,
    pub message: &'static str,
}

impl ApiError {
    pub open spec fn is(self, status: u16, code: Seq<char>, message: Seq<char>) -> bool {
        self.status == status && self.code@ == code && self.message@ == message
    }
}

fn refuse(status: u16, code: &'static str, message: &'static str) -> (e: ApiError)
    ensures
        e.is(status, code@, message@),
{
    ApiError { status, code, message }
}

/// The answer to a request that needs the store while the store cannot be written.
pub fn store_unavailable() -> (e: ApiError)
    ensures
        e.is(503, "state_store_unavailable"@, "state store is not writable"@),
{
    refuse(503, "state_store_unavailable", "state store is not writable")
}

/// Compares two texts without stopping at the first difference.
fn same_secret(a: &str, b: &str) -> (r: bool)
    ensures
        r == (a@ == b@),
{
    let x = text::chars(a);
    let y = text::chars(b);
    let mut equal: bool = x.len() == y.len();
    let mut i: usize = 0;
    while i < x.len()
        invariant
            i <= x@.len(),
            equal == (x@.len() == y@.len() && forall|k: int|
                0 <= k < i ==> #[trigger] x@[k] == y@[k]),
        decreases x@.len() - i,
    {
        let other: char = if i < y.len() {
            y[i]
        } else {
            ' '
        };
        let matching: bool = x[i] == other;
        equal = if matching {
            equal
        } else {
            false
        };
        i = i + 1;
    }
    proof {
        if equal {
            assert(x@ =~= y@);
        }
    }
    equal
}

/// Whether a request is let in: with the token where there is one; without a token, if it only reads.
pub fn auth(authorization: Option<&str>, reads: bool, token: Option<&str>) -> (r: Result<
    (),
    ApiError,
>)
    ensures
        match r {
            Ok(_) => match token {
                Some(t) => authorization matches Some(a) && a@ == "Bearer "@ + t@,
                None => reads,
            },
            Err(e) => match token {
                Some(t) => !(authorization matches Some(a) && a@ == "Bearer "@ + t@) && e.is(
                    401,
                    "unauthorized"@,
                    "Bearer token is required"@,
                ),
                None => !reads && e.is(
                    403,
                    "admin_disabled"@,
                    "write operations require admin.auth_token"@,
                ),
            },
        },
{
    match token {
        Some(t) => {
            let expected = text::join("Bearer ", t);
            let known: bool = match authorization {
                Some(a) => same_secret(a, expected.as_str()),
                None => false,
            };
            if known {
                Ok(())
            } else {
                Err(refuse(401, "unauthorized", "Bearer token is required"))
            }
        },
        None => if reads {
            Ok(())
        } else {
            Err(refuse(403, "admin_disabled", "write operations require admin.auth_token"))
        },
    }
}

/// What can be done with a chain.
#[derive(Clone, Copy, Debug, PartialEq, Eq, Structural)]
pub enum ChainAction {
    Activate,
    Demote,
    Pin,
    Unpin,
    Enable,
    Disable,
}

pub open spec fn chain_action_named(s: Seq<char>) -> Option<ChainAction> {
    if s == "activate"@ {
        Some(ChainAction::Activate)
    } else if s == "demote"@ {
        Some(ChainAction::Demote)
    } else if s == "pin"@ {
        Some(ChainAction::Pin)
    } else if s == "unpin"@ {
        Some(ChainAction::Unpin)
    } else if s == "enable"@ {
        Some(ChainAction::Enable)
    } else if s == "disable"@ {
        Some(ChainAction::Disable)
    } else {
        None
    }
}

fn read_chain_action(s: &str) -> (a: Option<ChainAction>)
    ensures
        a == chain_action_named(s@),
{
    if text::same(s, "activate") {
        Some(ChainAction::Activate)
    } else if text::same(s, "demote") {
        Some(ChainAction::Demote)
    } else if text::same(s, "pin") {
        Some(ChainAction::Pin)
    } else if text::same(s, "unpin") {
        Some(ChainAction::Unpin)
    } else if text::same(s, "enable") {
        Some(ChainAction::Enable)
    } else if text::same(s, "disable") {
        Some(ChainAction::Disable)
    } else {
        None
    }
}

/// The override of a chain once the action is taken.
pub open spec fn overridden(o: ChainOverrideState, action: ChainAction) -> ChainOverrideState {
    match action {
        ChainAction::Pin => ChainOverrideState { pinned: Some(true), ..o },
        ChainAction::Unpin => ChainOverrideState { pinned: Some(false), ..o },
        ChainAction::Enable => ChainOverrideState { disabled: Some(false), ..o },
        ChainAction::Disable => ChainOverrideState { disabled: Some(true), ..o },
        _ => o,
    }
}

/// What has to be stored before an action is taken.
#[derive(Debug)]
pub enum StoreWrite {
    HotChains(Vec<(u64, u64)>),
    Override(ChainOverrideState),
}

pub open spec fn names_chain(list: Seq<(u64, u64)>, chain_id: u64) -> bool {
    exists|i: int| 0 <= i < list.len() && (#[trigger] list[i]).0 == chain_id
}

pub open spec fn of_others(chain_id: u64) -> spec_fn((u64, u64)) -> bool {
    |p: (u64, u64)| p.0 != chain_id
}

pub open spec fn all_but(list: Seq<(u64, u64)>, chain_id: u64) -> Seq<(u64, u64)> {
    list.filter(of_others(chain_id))
}

/// What has to be stored for an action on a chain.
pub open spec fn is_write(
    w: StoreWrite,
    v: RegistryView,
    chain_id: u64,
    action: ChainAction,
    now: u64,
) -> bool {
    let hot = v.hot_list();
    match action {
        ChainAction::Activate => w matches StoreWrite::HotChains(list) && list@ == (
        if names_chain(hot, chain_id) {
            hot
        } else {
            hot.push((chain_id, now))
        }),
        ChainAction::Demote => w matches StoreWrite::HotChains(list) && list@ == all_but(
            hot,
            chain_id,
        ),
        _ => w matches StoreWrite::Override(o) && o == overridden(
            v.chain_override(chain_id),
            action,
        ),
    }
}

pub open spec fn lists_chain(v: RegistryView, chain_id: u64) -> bool {
    v.catalog matches Some(c) && c.by_id@.contains_key(chain_id)
}

fn has_chain(list: &Vec<(u64, u64)>, chain_id: u64) -> (r: bool)
    ensures
        r == names_chain(list@, chain_id),
{
    let mut i: usize = 0;
    while i < list.len()
        invariant
            i <= list@.len(),
            forall|k: int| 0 <= k < i ==> (#[trigger] list@[k]).0 != chain_id,
        decreases list@.len() - i,
    {
        if list[i].0 == chain_id {
            return true;
        }
        i = i + 1;
    }
    false
}

fn without_chain(list: &Vec<(u64, u64)>, chain_id: u64) -> (r: Vec<(u64, u64)>)
    ensures
        r@ == all_but(list@, chain_id),
{
    let ghost other = of_others(chain_id);
    let mut r: Vec<(u64, u64)> = Vec::new();
    let mut i: usize = 0;
    proof {
        reveal(Seq::filter);
        assert(list@.take(0) =~= Seq::<(u64, u64)>::empty());
    }
    while i < list.len()
        invariant
            i <= list@.len(),
            other == of_others(chain_id),
            r@ == list@.take(i as int).filter(other),
        decreases list@.len() - i,
    {
        proof {
            reveal(Seq::filter);
            assert(list@.take(i + 1).drop_last() =~= list@.take(i as int));
        }
        let p: (u64, u64) = list[i];
        if p.0 != chain_id {
            r.push(p);
        }
        i = i + 1;
    }
    assert(list@.take(list@.len() as int) =~= list@);
    r
}

/// Checks an action on a chain, and says what has to be stored first.
pub fn plan_chain_action(registry: &Registry, chain_id: u64, action: &str, now: u64) -> (r: Result<
    (ChainAction, StoreWrite),
    ApiError,
>)
    requires
        registry.wf(),
    ensures
        match r {
            Ok((a, w)) => chain_action_named(action@) == Some(a) && lists_chain(
                registry@,
                chain_id,
            ) && is_write(w, registry@, chain_id, a, now),
            Err(e) => if chain_action_named(action@) is None {
                e.is(404, "not_found"@, "unknown chain action"@)
            } else {
                !lists_chain(registry@, chain_id) && e.is(404, "unknown_chain"@, "unknown chain"@)
            },
        },
{
    let action = match read_chain_action(action) {
        Some(a) => a,
        None => {
            return Err(refuse(404, "not_found", "unknown chain action"));
        },
    };
    if !registry.chain_in_catalog(chain_id) {
        return Err(refuse(404, "unknown_chain", "unknown chain"));
    }
    let write = match action {
        ChainAction::Activate => {
            let mut hot = registry.hot_chain_snapshot();
            if !has_chain(&hot, chain_id) {
                hot.push((chain_id, now));
            }
            StoreWrite::HotChains(hot)
        },
        ChainAction::Demote => {
            let hot = registry.hot_chain_snapshot();
            StoreWrite::HotChains(without_chain(&hot, chain_id))
        },
        _ => {
            let mut o = registry.runtime_chain_override(chain_id);
            match action {
                ChainAction::Pin => {
                    o.pinned = Some(true);
                },
                ChainAction::Unpin => {
                    o.pinned = Some(false);
                },
                ChainAction::Enable => {
                    o.disabled = Some(false);
                },
                ChainAction::Disable => {
                    o.disabled = Some(true);
                },
                _ => {},
            }
            StoreWrite::Override(o)
        },
    };
    Ok((action, write))
}

/// The registry once an action on a chain is taken. An action changes the one thing that it names, and
/// the settings that it leads to are taken down.
pub open spec fn acted(v: RegistryView, chain_id: u64, action: ChainAction, at: Moment) -> RegistryView {
    let value = overridden(v.chain_override(chain_id), action);
    match action {
        ChainAction::Activate => v.resolved(chain_id, at),
        ChainAction::Demote => v.demoted(chain_id, crate::registry_model::Demotion::Admin),
        ChainAction::Pin => pinned_view(v, chain_id, true, at).with_chain_entry(chain_id, value),
        ChainAction::Unpin => pinned_view(v, chain_id, false, at).with_chain_entry(chain_id, value),
        ChainAction::Enable => switched_view(v, chain_id, false, at).with_chain_entry(
            chain_id,
            value,
        ),
        ChainAction::Disable => switched_view(v, chain_id, true, at).with_chain_entry(
            chain_id,
            value,
        ),
    }
}

pub open spec fn pinned_view(v: RegistryView, chain_id: u64, pinned: bool, at: Moment) -> RegistryView {
    if v.can_ensure(chain_id) {
        let there = v.ensured(chain_id, at);
        let c = there.chains[chain_id];
        RegistryView {
            pinned: there.pinned.insert(chain_id, pinned),
            ..there.with_chain(
                chain_id,
                crate::chain::ChainView {
                    pinned,
                    last_ingress: if pinned {
                        c.last_ingress
                    } else {
                        at.unix
                    },
                    ..c
                },
            )
        }
    } else {
        v
    }
}

pub open spec fn switched_view(
    v: RegistryView,
    chain_id: u64,
    disabled: bool,
    at: Moment,
) -> RegistryView {
    if v.can_ensure(chain_id) {
        let there = v.ensured(chain_id, at);
        there.with_chain(
            chain_id,
            crate::chain::ChainView {
                disabled: disabled || v.is_denied(chain_id),
                ..there.chains[chain_id]
            },
        )
    } else {
        v
    }
}

pub open spec fn label_text(label: ChainStateLabel) -> Seq<char> {
    match label {
        ChainStateLabel::Pinned => "pinned"@,
        ChainStateLabel::Hot => "hot"@,
        ChainStateLabel::Dormant => "dormant"@,
        ChainStateLabel::Disabled => "disabled"@,
    }
}

pub fn label_name(label: ChainStateLabel) -> (s: &'static str)
    ensures
        s@ == label_text(label),
{
    match label {
        ChainStateLabel::Pinned => "pinned",
        ChainStateLabel::Hot => "hot",
        ChainStateLabel::Dormant => "dormant",
        ChainStateLabel::Disabled => "disabled",
    }
}

/// The registry once an action on a chain is taken and answered. The answer looks the chain up as a
/// request does, except after a demotion, which it would undo.
pub open spec fn finished(v: RegistryView, chain_id: u64, action: ChainAction, at: Moment) -> RegistryView {
    if action is Demote {
        acted(v, chain_id, action, at)
    } else {
        acted(v, chain_id, action, at).resolved(chain_id, at)
    }
}

/// The state that an action on a chain is answered with.
pub open spec fn answered(v: RegistryView, chain_id: u64, action: ChainAction, at: Moment) -> Seq<char> {
    let done = finished(v, chain_id, action, at);
    if action is Demote {
        if done.chains.contains_key(chain_id) {
            label_text(done.chains[chain_id].label())
        } else if done.is_shut(chain_id) {
            "disabled"@
        } else {
            "dormant"@
        }
    } else if acted(v, chain_id, action, at).knows(chain_id) {
        label_text(done.chains[chain_id].label())
    } else {
        "unknown"@
    }
}

/// Takes an action on a chain once it has been stored, and gives the state in which the chain then
/// is.
pub fn finish_chain_action(registry: &mut Registry, chain_id: u64, action: ChainAction, at: Moment) -> (s:
    &'static str)
    requires
        old(registry).wf(),
        at.wf(),
    ensures
        final(registry).wf(),
        final(registry)@ == finished(old(registry)@, chain_id, action, at),
        s@ == answered(old(registry)@, chain_id, action, at),
{
    match action {
        ChainAction::Activate => {
            let _ = registry.resolve_for_request(chain_id, at);
        },
        ChainAction::Demote => {
            proof {
                reveal_strlit("idle");
                reveal_strlit("lru");
                reveal_strlit("admin");
                assert("admin"@.len() != "idle"@.len());
                assert("admin"@.len() != "lru"@.len());
            }
            let _ = registry.demote(chain_id, "admin");
            return match registry.chain(chain_id) {
                Some(c) => label_name(c.state_label()),
                None => if registry.is_shut(chain_id) {
                    "disabled"
                } else {
                    "dormant"
                },
            };
        },
        _ => {
            let mut o = registry.runtime_chain_override(chain_id);
            match action {
                ChainAction::Pin => {
                    o.pinned = Some(true);
                    let _ = registry.set_pinned(chain_id, true, at);
                },
                ChainAction::Unpin => {
                    o.pinned = Some(false);
                    let _ = registry.set_pinned(chain_id, false, at);
                },
                ChainAction::Enable => {
                    o.disabled = Some(false);
                    let _ = registry.set_disabled(chain_id, false, at);
                },
                ChainAction::Disable => {
                    o.disabled = Some(true);
                    let _ = registry.set_disabled(chain_id, true, at);
                },
                _ => {},
            }
            registry.note_chain_override(chain_id, o);
        },
    }
    match registry.resolve_for_request(chain_id, at) {
        Some(label) => label_name(label),
        None => "unknown",
    }
}

/// What a request for a chain leaves of the settings, and how it leaves the chain.
pub(crate) proof fn lemma_resolved(v: RegistryView, chain_id: u64, at: Moment)
    requires
        at.unix > 0,
    ensures
        ({
            let r = v.resolved(chain_id, at);
            &&& r.pinned == v.pinned
            &&& r.auto_pinned == v.auto_pinned
            &&& r.chain_overrides == v.chain_overrides
            &&& r.config == v.config
            &&& r.catalog == v.catalog
            &&& !v.knows(chain_id) ==> r == v
            &&& v.chains.contains_key(chain_id) ==> r.order == v.order
            &&& v.knows(chain_id) ==> r.is_awake(chain_id)
            &&& v.knows(chain_id) && !r.chains[chain_id].disabled ==> r.chains[chain_id].last_ingress
                == at.unix
            &&& v.is_awake(chain_id) ==> r.chains[chain_id].pinned == v.chains[chain_id].pinned
                && r.chains[chain_id].disabled == v.chains[chain_id].disabled
            &&& v.is_awake(chain_id) && v.chains[chain_id].disabled ==> r == v
            &&& !v.is_awake(chain_id) && v.knows(chain_id) ==> r.chains[chain_id].pinned
                == v.is_pinned(chain_id)
            &&& !v.is_awake(chain_id) && v.knows(chain_id) && !v.is_denied(chain_id)
                ==> r.chains[chain_id].disabled == (v.chain_override(chain_id).disabled == Some(
                true,
            ))
        }),
{
    let grown = v.with_fresh_chain(chain_id, v.is_pinned(chain_id), at);
    crate::registry_laws::lemma_victim(grown.chains, grown.order, chain_id, at.unix);
}

/// A request for a chain that was asked for at this moment changes no chain.
proof fn lemma_asked_again(r: RegistryView, chain_id: u64, at: Moment)
    requires
        r.is_awake(chain_id),
        !r.chains[chain_id].disabled ==> r.chains[chain_id].last_ingress == at.unix,
    ensures
        r.resolved(chain_id, at).chains == r.chains,
        r.resolved(chain_id, at).order == r.order,
        r.resolved(chain_id, at).pinned == r.pinned,
        r.resolved(chain_id, at).chain_overrides == r.chain_overrides,
{
    assert(r.resolved(chain_id, at).chains =~= r.chains);
}

/// The same chains and settings.
pub open spec fn same_state(a: RegistryView, b: RegistryView) -> bool {
    &&& a.chains == b.chains
    &&& a.order == b.order
    &&& a.pinned == b.pinned
    &&& a.auto_pinned == b.auto_pinned
    &&& a.chain_overrides == b.chain_overrides
}

proof fn lemma_pinning_is_idempotent(v: RegistryView, chain_id: u64, action: ChainAction, at: Moment)
    requires
        v.wf(),
        at.unix > 0,
        action is Pin || action is Unpin,
    ensures
        same_state(
            finished(finished(v, chain_id, action, at), chain_id, action, at),
            finished(v, chain_id, action, at),
        ),
{
    let value = overridden(v.chain_override(chain_id), action);
    let pinned = action is Pin;
    let changed = pinned_view(v, chain_id, pinned, at);
    let noted = changed.with_chain_entry(chain_id, value);
    let once = noted.resolved(chain_id, at);
    lemma_resolved(v, chain_id, at);
    lemma_resolved(noted, chain_id, at);
    let changed2 = pinned_view(once, chain_id, pinned, at);
    let noted2 = changed2.with_chain_entry(chain_id, value);
    assert(once.chain_override(chain_id) == value);
    assert(overridden(value, action) == value);
    if v.can_ensure(chain_id) {
        assert(noted.is_awake(chain_id));
        assert(once.chains[chain_id].pinned == pinned);
        assert(changed2.chains =~= once.chains);
        assert(changed2.pinned =~= once.pinned);
        assert(noted2.chain_overrides =~= once.chain_overrides);
        lemma_asked_again(noted2, chain_id, at);
    } else {
        assert(once == noted);
        assert(!once.can_ensure(chain_id));
        assert(noted2.chain_overrides =~= once.chain_overrides);
        lemma_resolved(noted2, chain_id, at);
    }
}

proof fn lemma_switching_is_idempotent(v: RegistryView, chain_id: u64, action: ChainAction, at: Moment)
    requires
        v.wf(),
        at.unix > 0,
        action is Enable || action is Disable,
    ensures
        same_state(
            finished(finished(v, chain_id, action, at), chain_id, action, at),
            finished(v, chain_id, action, at),
        ),
{
    let value = overridden(v.chain_override(chain_id), action);
    let disabled = action is Disable;
    let changed = switched_view(v, chain_id, disabled, at);
    let noted = changed.with_chain_entry(chain_id, value);
    let once = noted.resolved(chain_id, at);
    lemma_resolved(v, chain_id, at);
    lemma_resolved(noted, chain_id, at);
    let changed2 = switched_view(once, chain_id, disabled, at);
    let noted2 = changed2.with_chain_entry(chain_id, value);
    assert(once.chain_override(chain_id) == value);
    assert(overridden(value, action) == value);
    assert(noted2.chain_overrides =~= once.chain_overrides);
    if v.can_ensure(chain_id) {
        assert(once.chains.contains_key(chain_id));
        assert(changed2.chains =~= once.chains);
        if noted.knows(chain_id) {
            lemma_asked_again(noted2, chain_id, at);
        }
        lemma_resolved(noted2, chain_id, at);
    } else {
        assert(once == noted);
        lemma_resolved(noted2, chain_id, at);
    }
}

/// Taking an action on a chain a second time at once leaves all chains and settings as they are, and is
/// answered as the first time.
pub proof fn lemma_actions_are_idempotent(
    v: RegistryView,
    chain_id: u64,
    action: ChainAction,
    at: Moment,
)
    requires
        v.wf(),
        at.unix > 0,
    ensures
        same_state(
            finished(finished(v, chain_id, action, at), chain_id, action, at),
            finished(v, chain_id, action, at),
        ),
        answered(finished(v, chain_id, action, at), chain_id, action, at) == answered(
            v,
            chain_id,
            action,
            at,
        ),
{
    match action {
        ChainAction::Activate => {
            let once = v.resolved(chain_id, at);
            lemma_resolved(v, chain_id, at);
            lemma_resolved(once, chain_id, at);
            if v.knows(chain_id) {
                lemma_asked_again(once, chain_id, at);
                let twice = once.resolved(chain_id, at);
                lemma_asked_again(twice, chain_id, at);
                lemma_resolved(twice, chain_id, at);
                let thrice = twice.resolved(chain_id, at);
                lemma_asked_again(thrice, chain_id, at);
                lemma_resolved(thrice, chain_id, at);
            }
        },
        ChainAction::Demote => {
            let once = finished(v, chain_id, action, at);
            assert(finished(once, chain_id, action, at).chains =~= once.chains);
        },
        ChainAction::Pin | ChainAction::Unpin => {
            lemma_pinning_is_idempotent(v, chain_id, action, at);
        },
        ChainAction::Enable | ChainAction::Disable => {
            lemma_switching_is_idempotent(v, chain_id, action, at);
        },
    }
}

/// No action lifts what the configuration denies: every one is answered with a disabled chain, and
/// leaves none in memory that is not disabled.
pub proof fn lemma_denied_chains_stay_disabled(
    v: RegistryView,
    chain_id: u64,
    action: ChainAction,
    at: Moment,
)
    requires
        v.wf(),
        v.is_denied(chain_id),
        at.unix > 0,
    ensures
        answered(v, chain_id, action, at) == "disabled"@,
        finished(v, chain_id, action, at).chains.contains_key(chain_id) ==> finished(
            v,
            chain_id,
            action,
            at,
        ).chains[chain_id].disabled,
{
    lemma_resolved(v, chain_id, at);
    lemma_resolved(acted(v, chain_id, action, at), chain_id, at);
}

/// A chain that was unpinned or switched off by hand is never chosen automatically afterwards.
pub proof fn lemma_manual_removal_is_final(
    v: RegistryView,
    chain_id: u64,
    action: ChainAction,
    at: Moment,
)
    requires
        action is Unpin || action is Disable,
    ensures
        crate::registry_model::is_tombstone(
            acted(v, chain_id, action, at).chain_override(chain_id),
        ),
{
}

pub open spec fn patched(o: ChainOverrideState, p: SettingsPatch) -> ChainOverrideState {
    ChainOverrideState {
        block_time_ms: match p.block_time_ms {
            Some(v) => v,
            None => o.block_time_ms,
        },
        confirmation_depth: match p.confirmation_depth {
            Some(v) => v,
            None => o.confirmation_depth,
        },
        tip_ttl_ms: match p.tip_ttl_ms {
            Some(v) => v,
            None => o.tip_ttl_ms,
        },
        max_block_lag: match p.max_block_lag {
            Some(v) => v,
            None => o.max_block_lag,
        },
        ..o
    }
}

/// The values that a patch sets.
pub open spec fn set_values(p: SettingsPatch) -> ChainOverrideState {
    patched(crate::state::no_override(), p)
}

fn apply_patch(o: ChainOverrideState, p: &SettingsPatch) -> (r: ChainOverrideState)
    ensures
        r == patched(o, *p),
{
    ChainOverrideState {
        block_time_ms: match p.block_time_ms {
            Some(v) => v,
            None => o.block_time_ms,
        },
        confirmation_depth: match p.confirmation_depth {
            Some(v) => v,
            None => o.confirmation_depth,
        },
        tip_ttl_ms: match p.tip_ttl_ms {
            Some(v) => v,
            None => o.tip_ttl_ms,
        },
        max_block_lag: match p.max_block_lag {
            Some(v) => v,
            None => o.max_block_lag,
        },
        ..o
    }
}

/// Checks a change of settings, and gives the override to store and put into force.
pub fn chain_settings(registry: &Registry, chain_id: u64, patch: &SettingsPatch) -> (r: Result<
    ChainOverrideState,
    ApiError,
>)
    requires
        registry.wf(),
    ensures
        match r {
            Ok(o) => lists_chain(registry@, chain_id) && crate::registry_model::valid_chain_override(
                set_values(*patch),
            ) && o == patched(registry@.chain_override(chain_id), *patch),
            Err(e) => if !lists_chain(registry@, chain_id) {
                e.is(404, "unknown_chain"@, "unknown chain"@)
            } else {
                !crate::registry_model::valid_chain_override(set_values(*patch)) && e.is(
                    400,
                    "invalid_argument"@,
                    "settings value is out of range"@,
                )
            },
        },
{
    if !registry.chain_in_catalog(chain_id) {
        return Err(refuse(404, "unknown_chain", "unknown chain"));
    }
    let values = apply_patch(ChainOverrideState::default(), patch);
    if !registry::is_valid_chain_override(&values) {
        return Err(refuse(400, "invalid_argument", "settings value is out of range"));
    }
    Ok(apply_patch(registry.runtime_chain_override(chain_id), patch))
}

/// Fields that a patch leaves out keep their values, and empty ones are taken back.
pub proof fn lemma_patch_is_partial(o: ChainOverrideState, p: SettingsPatch)
    ensures
        patched(o, p).pinned == o.pinned,
        patched(o, p).disabled == o.disabled,
        p.tip_ttl_ms is None ==> patched(o, p).tip_ttl_ms == o.tip_ttl_ms,
        p.tip_ttl_ms == Some(None::<u64>) ==> patched(o, p).tip_ttl_ms is None,
        p.block_time_ms is None ==> patched(o, p).block_time_ms == o.block_time_ms,
        p.block_time_ms == Some(None::<u64>) ==> patched(o, p).block_time_ms is None,
        p.confirmation_depth is None ==> patched(o, p).confirmation_depth == o.confirmation_depth,
        p.confirmation_depth == Some(None::<u64>) ==> patched(o, p).confirmation_depth is None,
        p.max_block_lag is None ==> patched(o, p).max_block_lag == o.max_block_lag,
        p.max_block_lag == Some(None::<u64>) ==> patched(o, p).max_block_lag is None,
{
}

/// A patch that is applied again changes nothing more.
pub proof fn lemma_patch_is_idempotent(o: ChainOverrideState, p: SettingsPatch)
    ensures
        patched(patched(o, p), p) == patched(o, p),
{
}

/// What is shown of an endpoint after an action on it.
#[derive(Clone, Copy, Debug, PartialEq, Eq, Structural)]
pub enum ShownState {
    /// A new endpoint.
    Probation,
    /// The chain is not in memory.
    Dormant,
    /// The state of the endpoint in memory.
    Current,
}

/// What an action on an endpoint comes to.
#[derive(Debug)]
pub enum EndpointPlan {
    /// Settings to store under a key and to put into force.
    Store { key: String, value: EndpointOverrideState, shown: ShownState },
    Cool { seconds: u64 },
    Reset,
    /// Settings to delete from the store; the endpoint goes with them.
    Remove { key: String },
    Probe,
}

/// The longest time for which an endpoint can be cooled by hand.
pub const LONGEST_COOLING: u64 = 604_800;

pub open spec fn cooling_seconds(a: EndpointAction) -> u64 {
    match a.seconds {
        Some(n) => n,
        None => 60,
    }
}

/// Why the numbers of an action are refused, if they are.
pub open spec fn limits_fault(a: EndpointAction, action: Seq<char>) -> Option<Seq<char>> {
    if a.rps matches Some(n) && !(1 <= n <= 100) {
        Some("rps must be between 1 and 100"@)
    } else if a.concurrency matches Some(n) && !(1 <= n <= 64) {
        Some("concurrency must be between 1 and 64"@)
    } else if action == "cool"@ && !(1 <= cooling_seconds(a) <= LONGEST_COOLING) {
        Some("cool seconds must be between 1 and 604800"@)
    } else {
        None
    }
}

/// What is known of an endpoint.
pub open spec fn is_known(v: RegistryView, chain_id: u64, u: Seq<char>) -> bool {
    ||| crate::chain::has_url(v.endpoints_of(chain_id), u)
    ||| v.endpoint_override(chain_id, u) is Some
    ||| v.catalog_urls(chain_id).contains(u)
    ||| v.extra_urls(chain_id).contains(u)
}

/// The settings of an endpoint that an action changes: its own, or with none of them set.
pub open spec fn is_base(o: EndpointOverrideState, v: RegistryView, chain_id: u64, u: Seq<char>) -> bool {
    match v.endpoint_override(chain_id, u) {
        Some(value) => o == value,
        None => o.url@ == u && o.disabled is None && o.rps is None && o.concurrency is None,
    }
}

/// Settings of an endpoint after an action on it.
pub open spec fn adjusted(
    o: EndpointOverrideState,
    action: Seq<char>,
    a: EndpointAction,
) -> EndpointOverrideState {
    if action == "enable"@ {
        EndpointOverrideState { disabled: Some(false), ..o }
    } else if action == "disable"@ {
        EndpointOverrideState { disabled: Some(true), ..o }
    } else {
        EndpointOverrideState {
            rps: if a.rps is Some {
                a.rps
            } else {
                o.rps
            },
            concurrency: if a.concurrency is Some {
                a.concurrency
            } else {
                o.concurrency
            },
            ..o
        }
    }
}

/// Actions that change the stored settings of an endpoint.
pub open spec fn changes_settings(action: Seq<char>) -> bool {
    action == "enable"@ || action == "disable"@ || action == "limits"@
}

/// Whether a plan does what an action on a known endpoint asks for.
pub open spec fn plans(
    p: EndpointPlan,
    v: RegistryView,
    chain_id: u64,
    action: Seq<char>,
    a: EndpointAction,
) -> bool {
    let here = crate::chain::has_url(v.endpoints_of(chain_id), a.url@);
    if changes_settings(action) {
        p matches EndpointPlan::Store { key, value, shown } && key@ == keys::key_of(
            chain_id,
            a.url@,
        ) && shown == (if here {
            ShownState::Current
        } else {
            ShownState::Dormant
        }) && exists|o: EndpointOverrideState| #[trigger]
            is_base(o, v, chain_id, a.url@) && value == adjusted(o, action, a)
    } else if action == "cool"@ {
        p matches EndpointPlan::Cool { seconds } && seconds == cooling_seconds(a)
    } else if action == "reset"@ {
        p is Reset
    } else if action == "remove"@ {
        p matches EndpointPlan::Remove { key } && key@ == keys::key_of(chain_id, a.url@)
    } else {
        p is Probe
    }
}

/// An endpoint that is there by runtime settings alone.
pub open spec fn is_runtime_only(v: RegistryView, chain_id: u64, u: Seq<char>) -> bool {
    &&& v.endpoint_override(chain_id, u) is Some
    &&& !v.extra_urls(chain_id).contains(u)
    &&& !v.catalog_urls(chain_id).contains(u)
}

pub open spec fn endpoint_action_named(action: Seq<char>) -> bool {
    ||| changes_settings(action)
    ||| action == "cool"@
    ||| action == "reset"@
    ||| action == "remove"@
    ||| action == "probe"@
}

fn limits_refusal(a: &EndpointAction, action: &str) -> (r: Option<ApiError>)
    ensures
        match r {
            Some(e) => limits_fault(*a, action@) matches Some(m) && e.is(
                400,
                "invalid_argument"@,
                m,
            ),
            None => limits_fault(*a, action@) is None,
        },
{
    if let Some(n) = a.rps {
        if n < 1 || n > 100 {
            return Some(refuse(400, "invalid_argument", "rps must be between 1 and 100"));
        }
    }
    if let Some(n) = a.concurrency {
        if n < 1 || n > 64 {
            return Some(refuse(400, "invalid_argument", "concurrency must be between 1 and 64"));
        }
    }
    let seconds: u64 = match a.seconds {
        Some(n) => n,
        None => 60,
    };
    if text::same(action, "cool") && (seconds < 1 || seconds > LONGEST_COOLING) {
        return Some(
            refuse(400, "invalid_argument", "cool seconds must be between 1 and 604800"),
        );
    }
    None
}

/// Checks the addition of an endpoint, and gives the settings to store. The URL is kept in its normal
/// form.
pub fn plan_endpoint_addition(
    registry: &Registry,
    chain_id: u64,
    a: &EndpointAction,
    allow_private: bool,
) -> (r: Result<EndpointPlan, ApiError>)
    requires
        registry.wf(),
    ensures
        match url::offered_url(a.url@, allow_private) {
            Err(f) => r matches Err(e) && e.is(400, "invalid_argument"@, f.says()),
            Ok(u) => match limits_fault(*a, "add"@) {
                Some(m) => r matches Err(e) && e.is(400, "invalid_argument"@, m),
                None => if !lists_chain(registry@, chain_id) {
                    r matches Err(e) && e.is(404, "unknown_chain"@, "unknown chain"@)
                } else {
                    r matches Ok(EndpointPlan::Store { key, value, shown }) && key@
                        == keys::key_of(chain_id, u) && value.url@ == u && value.disabled == Some(
                        false,
                    ) && value.rps == a.rps && value.concurrency == a.concurrency && shown
                        == ShownState::Probation
                },
            },
        },
{
    let normal = match url::valid_endpoint_url(a.url.as_str(), allow_private) {
        Ok(u) => u,
        Err(f) => {
            return Err(refuse(400, "invalid_argument", f.message()));
        },
    };
    if let Some(e) = limits_refusal(a, "add") {
        return Err(e);
    }
    if !registry.chain_in_catalog(chain_id) {
        return Err(refuse(404, "unknown_chain", "unknown chain"));
    }
    let key = keys::endpoint_key(chain_id, normal.as_str());
    Ok(
        EndpointPlan::Store {
            key,
            value: EndpointOverrideState {
                url: normal,
                disabled: Some(false),
                rps: a.rps,
                concurrency: a.concurrency,
            },
            shown: ShownState::Probation,
        },
    )
}

/// Checks an action on an endpoint that is there already, and gives what it comes to. Settings of
/// endpoints whose chain is not in memory are stored all the same.
pub fn plan_endpoint_action(
    registry: &Registry,
    chain_id: u64,
    action: &str,
    a: &EndpointAction,
) -> (r: Result<EndpointPlan, ApiError>)
    requires
        registry.wf(),
    ensures
        ({
            let v = registry@;
            let here = crate::chain::has_url(v.endpoints_of(chain_id), a.url@);
            match limits_fault(*a, action@) {
                Some(m) => r matches Err(e) && e.is(400, "invalid_argument"@, m),
                None => if !is_known(v, chain_id, a.url@) || (!here && !changes_settings(action@)) {
                    r matches Err(e) && e.is(404, "not_found"@, "endpoint not found"@)
                } else if !endpoint_action_named(action@) {
                    r matches Err(e) && e.is(404, "not_found"@, "unknown endpoint action"@)
                } else if action@ == "remove"@ && !is_runtime_only(v, chain_id, a.url@) {
                    r matches Err(e) && e.is(
                        409,
                        "conflict"@,
                        "endpoint is not a runtime endpoint"@,
                    )
                } else {
                    r matches Ok(p) && plans(p, v, chain_id, action@, *a)
                },
            }
        }),
{
    if let Some(e) = limits_refusal(a, action) {
        return Err(e);
    }
    proof {
        lemma_action_names();
    }
    let settings: bool = text::same(action, "enable") || text::same(action, "disable") || text::same(
        action,
        "limits",
    );
    let here: bool = registry.endpoint(chain_id, a.url.as_str()).is_some();
    proof {
        if here {
            let es = registry@.endpoints_of(chain_id);
            let i = choose|i: int| crate::chain::is_first_with(es, a.url@, i);
            assert(es[i].url == a.url@);
        }
    }
    if !registry.endpoint_known(chain_id, a.url.as_str()) || (!here && !settings) {
        return Err(refuse(404, "not_found", "endpoint not found"));
    }
    let key = keys::endpoint_key(chain_id, a.url.as_str());
    if settings {
        let base: EndpointOverrideState = match registry.runtime_endpoint_override(
            chain_id,
            a.url.as_str(),
        ) {
            Some(o) => o,
            None => EndpointOverrideState {
                url: a.url.clone(),
                disabled: None,
                rps: None,
                concurrency: None,
            },
        };
        assert(is_base(base, registry@, chain_id, a.url@));
        let mut value = base.clone();
        if text::same(action, "enable") {
            value.disabled = Some(false);
        } else if text::same(action, "disable") {
            value.disabled = Some(true);
        } else {
            if a.rps.is_some() {
                value.rps = a.rps;
            }
            if a.concurrency.is_some() {
                value.concurrency = a.concurrency;
            }
        }
        assert(value == adjusted(base, action@, *a));
        let shown = if here {
            ShownState::Current
        } else {
            ShownState::Dormant
        };
        return Ok(EndpointPlan::Store { key, value, shown });
    }
    if text::same(action, "cool") {
        let seconds: u64 = match a.seconds {
            Some(n) => n,
            None => 60,
        };
        Ok(EndpointPlan::Cool { seconds })
    } else if text::same(action, "reset") {
        Ok(EndpointPlan::Reset)
    } else if text::same(action, "remove") {
        if registry.runtime_endpoint_exists(chain_id, a.url.as_str()) {
            Ok(EndpointPlan::Remove { key })
        } else {
            Err(refuse(409, "conflict", "endpoint is not a runtime endpoint"))
        }
    } else if text::same(action, "probe") {
        Ok(EndpointPlan::Probe)
    } else {
        Err(refuse(404, "not_found", "unknown endpoint action"))
    }
}

/// The names of the actions differ from one another.
proof fn lemma_action_names()
    ensures
        "enable"@ != "disable"@,
        "enable"@ != "limits"@,
        "enable"@ != "cool"@,
        "enable"@ != "reset"@,
        "enable"@ != "remove"@,
        "enable"@ != "probe"@,
        "disable"@ != "limits"@,
        "disable"@ != "cool"@,
        "disable"@ != "reset"@,
        "disable"@ != "remove"@,
        "disable"@ != "probe"@,
        "limits"@ != "cool"@,
        "limits"@ != "reset"@,
        "limits"@ != "remove"@,
        "limits"@ != "probe"@,
        "cool"@ != "reset"@,
        "cool"@ != "remove"@,
        "cool"@ != "probe"@,
        "reset"@ != "remove"@,
        "reset"@ != "probe"@,
        "remove"@ != "probe"@,
{
    reveal_strlit("enable");
    reveal_strlit("disable");
    reveal_strlit("limits");
    reveal_strlit("cool");
    reveal_strlit("reset");
    reveal_strlit("remove");
    reveal_strlit("probe");
    assert("enable"@.len() == 6 && "disable"@.len() == 7 && "limits"@.len() == 6);
    assert("cool"@.len() == 4 && "reset"@.len() == 5 && "remove"@.len() == 6 && "probe"@.len() == 5);
    assert("enable"@[0] == 'e' && "limits"@[0] == 'l' && "remove"@[0] == 'r');
    assert("reset"@[0] == 'r' && "probe"@[0] == 'p');
}

/// What an action on an endpoint is answered.
#[derive(Clone, Copy, Debug, PartialEq, Eq, Structural)]
pub enum EndpointReply {
    Probation,
    Dormant,
    State(EndpointState),
    /// The endpoint has to be probed first.
    Probe,
    /// The endpoint is gone.
    Gone,
}

/// The registry with the decay of strikes of one endpoint accounted for.
pub open spec fn looked_at(v: RegistryView, chain_id: u64, u: Seq<char>, now: u128) -> RegistryView {
    RegistryView {
        chains: v.with_changed_endpoint(chain_id, u, |e: EndpointView| e.decayed(now)),
        ..v
    }
}

/// The state of an endpoint in memory.
pub open spec fn is_state_of(s: EndpointState, v: RegistryView, chain_id: u64, u: Seq<char>) -> bool {
    exists|i: int|
        crate::chain::is_first_with(v.endpoints_of(chain_id), u, i) && s == (
        #[trigger] v.endpoints_of(chain_id)[i]).observed_state()
}

/// An endpoint that has been cooled by hand.
pub open spec fn cooled(e: EndpointView, now: u128, seconds: u64) -> EndpointView {
    EndpointView {
        health: crate::health::HealthState {
            status: crate::health::HealthStatus::Cooling { until: (now + seconds * SECOND) as u128 },
            strikes: crate::health::saturated_u32(e.health.strikes + 1),
            healthy_since: None,
            ..e.health
        },
        dirty: true,
        ..e
    }
}

fn look(registry: &mut Registry, chain_id: u64, u: &str, now: u128) -> (s: Option<EndpointState>)
    requires
        old(registry).wf(),
    ensures
        final(registry).wf(),
        s is Some <==> crate::chain::has_url(old(registry)@.endpoints_of(chain_id), u@),
        s matches Some(state) ==> final(registry)@ == looked_at(old(registry)@, chain_id, u@, now)
            && is_state_of(state, final(registry)@, chain_id, u@),
        s is None ==> final(registry)@ == old(registry)@,
{
    if registry.endpoint(chain_id, u).is_none() {
        return None;
    }
    let ghost v = registry@;
    let ghost es = v.endpoints_of(chain_id);
    proof {
        let i = choose|i: int| crate::chain::is_first_with(es, u@, i);
        assert(es[i].url == u@);
    }
    let e = registry.endpoint_mut(chain_id, u);
    let s = e.state(now);
    proof {
        let i = choose|i: int| crate::chain::is_first_with(es, u@, i);
        assert(crate::chain::is_first_with(es, u@, i));
        lemma_one_change(v, chain_id, u@, i, |e: EndpointView| e.decayed(now));
    }
    Some(s)
}

/// An endpoint changed in place stays where it was.
proof fn lemma_one_change(
    v: RegistryView,
    chain_id: u64,
    u: Seq<char>,
    i: int,
    change: spec_fn(EndpointView) -> EndpointView,
)
    requires
        v.chains.contains_key(chain_id),
        crate::chain::is_first_with(v.chains[chain_id].endpoints, u, i),
        change(v.chains[chain_id].endpoints[i]).url == u,
    ensures
        ({
            let w = RegistryView { chains: v.with_changed_endpoint(chain_id, u, change), ..v };
            let e = v.chains[chain_id].endpoints[i];
            &&& w.endpoints_of(chain_id)[i] == change(e)
            &&& crate::chain::is_first_with(w.endpoints_of(chain_id), u, i)
            &&& v.with_changed_endpoint(chain_id, u, change) == v.with_changed_endpoint(
                chain_id,
                u,
                |before: EndpointView| change(e),
            )
        }),
{
    let e = v.chains[chain_id].endpoints[i];
    crate::registry_model::lemma_changed_endpoint(v, chain_id, u, i, change);
    crate::registry_model::lemma_changed_endpoint(
        v,
        chain_id,
        u,
        i,
        |before: EndpointView| change(e),
    );
}

/// An endpoint whose health was reset by hand.
pub open spec fn health_reset(e: EndpointView) -> EndpointView {
    EndpointView { health: crate::health::HealthState::fresh(), dirty: true, ..e }
}

/// The registry with one endpoint cooled by hand.
pub open spec fn with_cooled(
    v: RegistryView,
    chain_id: u64,
    u: Seq<char>,
    now: u128,
    seconds: u64,
) -> RegistryView {
    RegistryView {
        chains: v.with_changed_endpoint(
            chain_id,
            u,
            |e: EndpointView| cooled(e, now, seconds),
        ),
        ..v
    }
}

/// The registry with the health of one endpoint reset by hand.
pub open spec fn with_reset(v: RegistryView, chain_id: u64, u: Seq<char>) -> RegistryView {
    RegistryView {
        chains: v.with_changed_endpoint(chain_id, u, |e: EndpointView| health_reset(e)),
        ..v
    }
}

/// The registry once runtime settings of an endpoint have been taken back.
pub open spec fn is_removed(v: RegistryView, w: RegistryView, chain_id: u64, u: Seq<char>) -> bool {
    if v.chains.contains_key(chain_id) && v.endpoint_override(chain_id, u) is Some {
        let c = v.chains[chain_id];
        w == (RegistryView {
            endpoint_overrides: v.endpoint_overrides.remove(keys::key_of(chain_id, u)),
            endpoint_order: w.endpoint_order,
            ..v.with_chain(
                chain_id,
                crate::chain::ChainView {
                    endpoints: crate::chain::without_url(c.endpoints, u),
                    ..c
                },
            )
        })
    } else {
        w == v
    }
}

/// What becomes of the registry when a plan is carried out, and what is answered.
pub open spec fn carried_out(
    v: RegistryView,
    w: RegistryView,
    reply: EndpointReply,
    chain_id: u64,
    u: Seq<char>,
    plan: EndpointPlan,
    at: Moment,
) -> bool {
    let here = crate::chain::has_url(v.endpoints_of(chain_id), u);
    let seen = looked_at(v, chain_id, u, at.instant);
    match plan {
        EndpointPlan::Store { value, shown, .. } => match shown {
            ShownState::Probation => reply is Probation && w == v.with_endpoint_override(
                chain_id,
                value,
                at.unix,
            ),
            ShownState::Dormant => reply is Dormant && w == v.with_endpoint_override(
                chain_id,
                value,
                at.unix,
            ),
            ShownState::Current => if here {
                &&& reply matches EndpointReply::State(s) && is_state_of(s, seen, chain_id, u)
                &&& w == seen.with_endpoint_override(chain_id, value, at.unix)
            } else {
                reply is Gone && w == v.with_endpoint_override(chain_id, value, at.unix)
            },
        },
        EndpointPlan::Cool { seconds } => if here {
            &&& w == with_cooled(v, chain_id, u, at.instant, seconds)
            &&& reply matches EndpointReply::State(s) && is_state_of(s, w, chain_id, u)
        } else {
            reply is Gone && w == v
        },
        EndpointPlan::Reset => if here {
            &&& w == with_reset(v, chain_id, u)
            &&& reply matches EndpointReply::State(s) && is_state_of(s, w, chain_id, u)
        } else {
            reply is Gone && w == v
        },
        EndpointPlan::Remove { .. } => if here {
            &&& reply matches EndpointReply::State(s) && is_state_of(s, seen, chain_id, u)
            &&& is_removed(seen, w, chain_id, u)
        } else {
            reply is Gone && is_removed(v, w, chain_id, u)
        },
        EndpointPlan::Probe => reply is Probe && w == v,
    }
}

fn cool_endpoint(registry: &mut Registry, chain_id: u64, u: &str, now: u128, seconds: u64) -> (r:
    EndpointReply)
    requires
        old(registry).wf(),
        now <= crate::health::MAX_INSTANT,
        seconds <= LONGEST_COOLING,
    ensures
        final(registry).wf(),
        ({
            let v = old(registry)@;
            let w = final(registry)@;
            if crate::chain::has_url(v.endpoints_of(chain_id), u@) {
                &&& w == with_cooled(v, chain_id, u@, now, seconds)
                &&& r matches EndpointReply::State(s) && is_state_of(s, w, chain_id, u@)
            } else {
                r is Gone && w == v
            }
        }),
{
    if registry.endpoint(chain_id, u).is_none() {
        return EndpointReply::Gone;
    }
    let ghost v = registry@;
    let ghost es = v.endpoints_of(chain_id);
    proof {
        let i = choose|i: int| crate::chain::is_first_with(es, u@, i);
        assert(es[i].url == u@);
    }
    let e = registry.endpoint_mut(chain_id, u);
    let ghost before = e@;
    e.cool_for(now, seconds as u128 * SECOND);
    let s = e.state(now);
    proof {
        assert(e@ == cooled(before, now, seconds));
        let i = choose|i: int| crate::chain::is_first_with(es, u@, i);
        assert(crate::chain::is_first_with(es, u@, i));
        lemma_one_change(v, chain_id, u@, i, |e: EndpointView| cooled(e, now, seconds));
    }
    EndpointReply::State(s)
}

fn reset_endpoint(registry: &mut Registry, chain_id: u64, u: &str, now: u128) -> (r: EndpointReply)
    requires
        old(registry).wf(),
    ensures
        final(registry).wf(),
        ({
            let v = old(registry)@;
            let w = final(registry)@;
            if crate::chain::has_url(v.endpoints_of(chain_id), u@) {
                &&& w == with_reset(v, chain_id, u@)
                &&& r matches EndpointReply::State(s) && is_state_of(s, w, chain_id, u@)
            } else {
                r is Gone && w == v
            }
        }),
{
    if registry.endpoint(chain_id, u).is_none() {
        return EndpointReply::Gone;
    }
    let ghost v = registry@;
    let ghost es = v.endpoints_of(chain_id);
    proof {
        let i = choose|i: int| crate::chain::is_first_with(es, u@, i);
        assert(es[i].url == u@);
    }
    let e = registry.endpoint_mut(chain_id, u);
    let ghost before = e@;
    e.reset_health();
    let s = e.state(now);
    proof {
        assert(e@ == health_reset(before));
        let i = choose|i: int| crate::chain::is_first_with(es, u@, i);
        assert(crate::chain::is_first_with(es, u@, i));
        lemma_one_change(v, chain_id, u@, i, |e: EndpointView| health_reset(e));
    }
    EndpointReply::State(s)
}

/// Carries out what an action on an endpoint comes to, once it has been stored.
pub fn finish_endpoint_action(
    registry: &mut Registry,
    chain_id: u64,
    u: &str,
    plan: EndpointPlan,
    at: Moment,
) -> (reply: EndpointReply)
    requires
        old(registry).wf(),
        at.wf(),
        plan matches EndpointPlan::Cool { seconds } ==> seconds <= LONGEST_COOLING,
    ensures
        final(registry).wf(),
        carried_out(old(registry)@, final(registry)@, reply, chain_id, u@, plan, at),
{
    match plan {
        EndpointPlan::Store { key: _, value, shown } => match shown {
            ShownState::Probation => {
                registry.set_endpoint_override(chain_id, value, at.unix);
                EndpointReply::Probation
            },
            ShownState::Dormant => {
                registry.set_endpoint_override(chain_id, value, at.unix);
                EndpointReply::Dormant
            },
            ShownState::Current => {
                let s = look(registry, chain_id, u, at.instant);
                registry.set_endpoint_override(chain_id, value, at.unix);
                match s {
                    Some(state) => EndpointReply::State(state),
                    None => EndpointReply::Gone,
                }
            },
        },
        EndpointPlan::Cool { seconds } => cool_endpoint(
            registry,
            chain_id,
            u,
            at.instant,
            seconds,
        ),
        EndpointPlan::Reset => reset_endpoint(registry, chain_id, u, at.instant),
        EndpointPlan::Remove { key: _ } => {
            let s = look(registry, chain_id, u, at.instant);
            registry.remove_runtime_endpoint(chain_id, u);
            match s {
                Some(state) => EndpointReply::State(state),
                None => EndpointReply::Gone,
            }
        },
        EndpointPlan::Probe => EndpointReply::Probe,
    }
}

/// Putting the settings of an endpoint into force a second time at once changes nothing more.
pub proof fn lemma_endpoint_settings_are_idempotent(
    v: RegistryView,
    chain_id: u64,
    value: EndpointOverrideState,
    now: u64,
)
    ensures
        v.with_endpoint_override(chain_id, value, now).with_endpoint_override(chain_id, value, now)
            == v.with_endpoint_override(chain_id, value, now),
{
    let once = v.with_endpoint_override(chain_id, value, now);
    let twice = once.with_endpoint_override(chain_id, value, now);
    assert(twice.endpoint_overrides =~= once.endpoint_overrides);
    if v.chains.contains_key(chain_id) {
        let before = v.chains[chain_id].endpoints;
        let after = once.chains[chain_id].endpoints;
        assert(after == v.adjusted(chain_id, value, now, before));
        let e = v.overridden_endpoint(chain_id, value, now);
        assert(e == once.overridden_endpoint(chain_id, value, now));
        if value.disabled == Some(true) {
            crate::chain::lemma_without_url(before, value.url@);
            crate::chain::lemma_without_url(after, value.url@);
        } else if exists|i: int| crate::chain::is_first_with(before, value.url@, i) {
            let i = choose|i: int| crate::chain::is_first_with(before, value.url@, i);
            assert(crate::chain::is_first_with(after, value.url@, i));
            assert forall|k: int| crate::chain::is_first_with(after, value.url@, k) implies k == i by {
            }
            assert(after.update(i, after[i]) =~= after);
        } else {
            let i = before.len() as int;
            assert forall|k: int| 0 <= k < i implies (#[trigger] after[k]).url != value.url@ by {
                assert(after[k] == before[k]);
                if before[k].url == value.url@ {
                    lemma_first(before, value.url@, k);
                }
            }
            assert(crate::chain::is_first_with(after, value.url@, i));
            assert forall|k: int| crate::chain::is_first_with(after, value.url@, k) implies k == i by {
            }
            assert(after.update(i, after[i]) =~= after);
        }
        assert(twice.chains[chain_id].endpoints =~= after);
        assert(twice.chains =~= once.chains);
    }
}

/// Where a URL occurs, it occurs for a first time.
proof fn lemma_first(endpoints: Seq<EndpointView>, u: Seq<char>, k: int)
    requires
        0 <= k < endpoints.len(),
        endpoints[k].url == u,
    ensures
        exists|i: int| crate::chain::is_first_with(endpoints, u, i),
    decreases k,
{
    if exists|j: int| 0 <= j < k && (#[trigger] endpoints[j]).url == u {
        let j = choose|j: int| 0 <= j < k && (#[trigger] endpoints[j]).url == u;
        lemma_first(endpoints, u, j);
    } else {
        assert(crate::chain::is_first_with(endpoints, u, k));
    }
}

/// A reset has to be confirmed.
pub fn check_reset(value: &ConfirmReset) -> (r: Result<(), ApiError>)
    ensures
        match r {
            Ok(_) => value.confirm,
            Err(e) => !value.confirm && e.is(400, "invalid_argument"@, "confirm must be true"@),
        },
{
    if value.confirm {
        Ok(())
    } else {
        Err(refuse(400, "invalid_argument", "confirm must be true"))
    }
}

pub open spec fn automatic(ids: Set<u64>) -> Map<u64, bool> {
    Map::new(|k: u64| ids.contains(k), |k: u64| true)
}

/// The registry after an import: settings, health, hot chains and the automatic choice, all as imported.
pub open spec fn imported(v: RegistryView, e: StateExport, at: Moment) -> RegistryView {
    v.plain().with_chain_overrides(e.overrides.chains.entries()).with_endpoint_overrides(
        e.overrides.endpoints.entries(),
        at.unix,
    ).with_health(e.health@, at).with_restored_hot(e.hot_chains@, at).with_auto_pinned(
        automatic(e.auto_chains@.dom()),
    )
}

fn auto_ids(e: &StateExport) -> (ids: Vec<u64>)
    requires
        e.wf(),
    ensures
        forall|k: u64| #[trigger] ids@.contains(k) <==> e.auto_chains@.contains_key(k),
{
    let entries = &e.auto_chains;
    let mut ids: Vec<u64> = Vec::new();
    let mut i: usize = 0;
    while i < entries.len()
        invariant
            i <= entries.entries().len(),
            entries.wf(),
            ids@.len() == i,
            forall|k: int| 0 <= k < i ==> #[trigger] ids@[k] == entries.entries()[k].0,
        decreases entries.entries().len() - i,
    {
        ids.push(*entries.key_at(i));
        i = i + 1;
    }
    proof {
        assert forall|k: u64| #[trigger] ids@.contains(k) <==> entries@.contains_key(k) by {
            if ids@.contains(k) {
                let i = choose|i: int| 0 <= i < ids@.len() && ids@[i] == k;
                entries.lemma_entry(i);
            }
            if entries@.contains_key(k) {
                let i = choose|i: int| entries.holds(i, k);
                assert(ids@[i] == k);
            }
        }
    }
    ids
}

/// Puts an imported state into force, once it has been stored.
pub fn apply_import(registry: &mut Registry, value: &StateExport, at: Moment)
    requires
        old(registry).wf(),
        value.wf(),
        at.wf(),
    ensures
        final(registry).wf(),
        final(registry)@ == imported(old(registry)@, *value, at),
{
    registry.apply_overrides(&value.overrides, at.unix);
    registry.restore_health(&value.health, at);
    registry.activate_restored_hot(&value.hot_chains, at);
    let ids = auto_ids(value);
    proof {
        assert(Map::new(|k: u64| ids@.contains(k), |k: u64| true) =~= automatic(
            value.auto_chains@.dom(),
        ));
    }
    registry.sync_auto_pinned(&ids);
}

/// Takes back all runtime settings and the automatic choice, once the store has been reset.
pub fn apply_reset(registry: &mut Registry, now: u64)
    requires
        old(registry).wf(),
    ensures
        final(registry).wf(),
        final(registry)@ == old(registry)@.plain().with_auto_pinned(Map::empty()),
{
    let none = Overrides::new();
    registry.apply_overrides(&none, now);
    let ids: Vec<u64> = Vec::new();
    assert(Map::new(|k: u64| ids@.contains(k), |k: u64| true) =~= Map::<u64, bool>::empty());
    registry.sync_auto_pinned(&ids);
}

/// After a reset nothing but the configuration pins a chain.
pub proof fn lemma_reset_leaves_the_configuration(v: RegistryView, chain_id: u64)
    ensures
        v.plain().with_auto_pinned(Map::empty()).is_pinned(chain_id)
            == v.config.chains@.contains(chain_id),
        v.plain().with_auto_pinned(Map::empty()).chain_override(chain_id)
            == crate::state::no_override(),
{
}

} // verus!
