//! Stores of the state: one in memory, and the rules by which a remote store and a local copy of it
//! work together.
use crate::json::Json;
use crate::sorted::SortedMap;
use crate::state::{
    AutoChainState, BootstrapState, ChainOverrideState, DocumentView, EndpointOverrideState,
    HealthSnapshot, Overrides, StateDocument, StateExport, StateView, UnsupportedSchema,
};
use crate::text;
use std::sync::Arc;
use vstd::prelude::*;

verus! {

/// A store that lives as long as the program, and counts the calls made of it.
pub struct MemoryStore {
    document: StateDocument,
    calls: u64,
}

impl MemoryStore {
    pub closed spec fn document(&self) -> DocumentView {
        self.document@
    }

    pub closed spec fn calls(&self) -> u64 {
        self.calls
    }

    pub closed spec fn wf(&self) -> bool {
        self.document.wf() && self.document.schema_version == crate::state::SCHEMA_VERSION
    }

    pub fn new() -> (s: Self)
        ensures
            s.wf(),
            s.calls() == 0,
            s.document() == (DocumentView {
                state: crate::state::empty_state(),
                audit: Seq::empty(),
                seeded_at: 0,
                last_flush_at: 0,
            }),
    {
        MemoryStore { document: StateDocument::empty(0), calls: 0 }
    }

    fn bump(&mut self)
        ensures
            final(self).document == old(self).document,
            final(self).calls == crate::endpoint::counted(old(self).calls),
    {
        self.calls = self.calls.wrapping_add(1);
    }

    /// What is read when the program starts.
    pub fn bootstrap(&mut self) -> (r: Result<BootstrapState, UnsupportedSchema>)
        requires
            old(self).wf(),
        ensures
            final(self).wf(),
            final(self).document() == old(self).document(),
            final(self).calls() == crate::endpoint::counted(old(self).calls()),
            r matches Ok(b) && b.wf() && b@ == old(self).document().state,
    {
        self.bump();
        self.document.bootstrap()
    }

    pub fn set_catalog(&mut self, catalog: Arc<Json>)
        requires
            old(self).wf(),
        ensures
            final(self).wf(),
            final(self).calls() == crate::endpoint::counted(old(self).calls()),
            final(self).document() == (DocumentView {
                state: StateView { catalog: Some(*catalog), ..old(self).document().state },
                ..old(self).document()
            }),
    {
        self.bump();
        self.document.set_catalog(catalog);
    }

    pub fn set_catalog_metadata(&mut self, catalog: Arc<Json>, etag: Option<String>, fetched_at: u64)
        requires
            old(self).wf(),
        ensures
            final(self).wf(),
            final(self).calls() == crate::endpoint::counted(old(self).calls()),
            final(self).document() == (DocumentView {
                state: StateView {
                    catalog: Some(*catalog),
                    catalog_etag: crate::chainlist::characters(etag),
                    catalog_fetched_at: fetched_at,
                    ..old(self).document().state
                },
                ..old(self).document()
            }),
    {
        self.bump();
        self.document.set_catalog_metadata(catalog, etag, fetched_at);
    }

    pub fn load_overrides(&mut self) -> (o: Overrides)
        requires
            old(self).wf(),
        ensures
            final(self).wf(),
            final(self).document() == old(self).document(),
            final(self).calls() == crate::endpoint::counted(old(self).calls()),
            o.wf(),
            o.chains@ == old(self).document().state.chain_overrides,
            o.endpoints@ == old(self).document().state.endpoint_overrides,
    {
        self.bump();
        self.document.load_overrides()
    }

    pub fn put_chain_override(&mut self, chain_id: u64, value: ChainOverrideState)
        requires
            old(self).wf(),
        ensures
            final(self).wf(),
            final(self).calls() == crate::endpoint::counted(old(self).calls()),
            final(self).document() == (DocumentView {
                state: StateView {
                    chain_overrides: old(self).document().state.chain_overrides.insert(
                        chain_id,
                        value,
                    ),
                    ..old(self).document().state
                },
                ..old(self).document()
            }),
    {
        self.bump();
        self.document.put_chain_override(chain_id, value);
    }

    pub fn delete_chain_override(&mut self, chain_id: u64)
        requires
            old(self).wf(),
        ensures
            final(self).wf(),
            final(self).calls() == crate::endpoint::counted(old(self).calls()),
            final(self).document() == (DocumentView {
                state: StateView {
                    chain_overrides: old(self).document().state.chain_overrides.remove(chain_id),
                    ..old(self).document().state
                },
                ..old(self).document()
            }),
    {
        self.bump();
        self.document.delete_chain_override(chain_id);
    }

    pub fn put_endpoint_override(&mut self, key: &str, value: EndpointOverrideState)
        requires
            old(self).wf(),
        ensures
            final(self).wf(),
            final(self).calls() == crate::endpoint::counted(old(self).calls()),
            final(self).document() == (DocumentView {
                state: StateView {
                    endpoint_overrides: old(self).document().state.endpoint_overrides.insert(
                        key@,
                        value,
                    ),
                    ..old(self).document().state
                },
                ..old(self).document()
            }),
    {
        self.bump();
        self.document.put_endpoint_override(key, value);
    }

    pub fn delete_endpoint_override(&mut self, key: &str)
        requires
            old(self).wf(),
        ensures
            final(self).wf(),
            final(self).calls() == crate::endpoint::counted(old(self).calls()),
            final(self).document() == (DocumentView {
                state: StateView {
                    endpoint_overrides: old(self).document().state.endpoint_overrides.remove(key@),
                    ..old(self).document().state
                },
                ..old(self).document()
            }),
    {
        self.bump();
        self.document.delete_endpoint_override(key);
    }

    pub fn flush_health(&mut self, batch: &Vec<HealthSnapshot>, now: u64)
        requires
            old(self).wf(),
        ensures
            final(self).wf(),
            final(self).calls() == crate::endpoint::counted(old(self).calls()),
            final(self).document() == (DocumentView {
                state: StateView {
                    health: crate::state::with_batch(old(self).document().state.health, batch@),
                    ..old(self).document().state
                },
                last_flush_at: now,
                ..old(self).document()
            }),
    {
        self.bump();
        self.document.flush_health(batch, now);
    }

    pub fn load_health(&mut self) -> (h: Vec<HealthSnapshot>)
        requires
            old(self).wf(),
        ensures
            final(self).wf(),
            final(self).document() == old(self).document(),
            final(self).calls() == crate::endpoint::counted(old(self).calls()),
            h@ == old(self).document().state.health,
    {
        self.bump();
        self.document.load_health()
    }

    pub fn set_hot_chains(&mut self, chains: Vec<(u64, u64)>)
        requires
            old(self).wf(),
        ensures
            final(self).wf(),
            final(self).calls() == crate::endpoint::counted(old(self).calls()),
            final(self).document() == (DocumentView {
                state: StateView { hot_chains: chains@, ..old(self).document().state },
                ..old(self).document()
            }),
    {
        self.bump();
        self.document.set_hot_chains(chains);
    }

    pub fn load_auto_chains(&mut self) -> (m: SortedMap<u64, AutoChainState>)
        requires
            old(self).wf(),
        ensures
            final(self).wf(),
            final(self).document() == old(self).document(),
            final(self).calls() == crate::endpoint::counted(old(self).calls()),
            m.wf(),
            m@ == old(self).document().state.auto_chains,
    {
        self.bump();
        self.document.load_auto_chains()
    }

    pub fn put_auto_chain(&mut self, chain_id: u64, value: AutoChainState)
        requires
            old(self).wf(),
        ensures
            final(self).wf(),
            final(self).calls() == crate::endpoint::counted(old(self).calls()),
            final(self).document() == (DocumentView {
                state: StateView {
                    auto_chains: old(self).document().state.auto_chains.insert(chain_id, value),
                    ..old(self).document().state
                },
                ..old(self).document()
            }),
    {
        self.bump();
        self.document.put_auto_chain(chain_id, value);
    }

    /// Notes a control operation; the oldest ones are dropped when there are too many.
    pub fn append_audit(&mut self, what: &str, target: &str, now: u64)
        requires
            old(self).wf(),
        ensures
            final(self).wf(),
            final(self).calls() == crate::endpoint::counted(old(self).calls()),
            final(self).document().state == old(self).document().state,
            final(self).document().seeded_at == old(self).document().seeded_at,
            final(self).document().last_flush_at == old(self).document().last_flush_at,
            exists|e: crate::state::AuditEntry|
                e.at == now && e.what@ == what@ && e.target@ == target@
                    && final(self).document().audit == crate::state::last_entries(
                    #[trigger] old(self).document().audit.push(e),
                ),
    {
        self.bump();
        let ghost before = self.document@.audit;
        self.document.append_audit(what, target, now);
        proof {
            let e = self.document@.audit.last();
            assert(self.document@.audit =~= before.push(e));
        }
        self.document.trim_audit();
    }

    pub fn export(&mut self) -> (e: StateExport)
        requires
            old(self).wf(),
        ensures
            final(self).wf(),
            final(self).document() == old(self).document(),
            final(self).calls() == crate::endpoint::counted(old(self).calls()),
            e.wf(),
            e@ == old(self).document().exported(),
            e@.schema_version == crate::state::SCHEMA_VERSION,
    {
        self.bump();
        self.document.export()
    }

    pub fn import(&mut self, value: &StateExport) -> (r: Result<(), UnsupportedSchema>)
        requires
            old(self).wf(),
            value.wf(),
        ensures
            final(self).wf(),
            final(self).calls() == crate::endpoint::counted(old(self).calls()),
            match r {
                Ok(_) => old(self).document().imported(value@) == Some(final(self).document()),
                Err(e) => old(self).document().imported(value@) is None && e.version
                    == value@.schema_version && final(self).document() == old(self).document(),
            },
    {
        self.bump();
        self.document.import(value)
    }

    pub fn reset(&mut self, now: u64)
        requires
            old(self).wf(),
        ensures
            final(self).wf(),
            final(self).calls() == crate::endpoint::counted(old(self).calls()),
            final(self).document() == (DocumentView {
                state: crate::state::empty_state(),
                audit: Seq::empty(),
                seeded_at: now,
                last_flush_at: 0,
            }),
    {
        self.bump();
        self.document.reset(now);
    }

    pub fn health(&self) -> (r: bool)
        ensures
            r,
    {
        true
    }

    pub fn call_count(&self) -> (n: u64)
        ensures
            n == self.calls(),
    {
        self.calls
    }

    pub fn backend_name(&self) -> (s: &'static str)
        ensures
            s@ == "memory"@,
    {
        "memory"
    }

    pub fn audit_count(&self) -> (n: u64)
        ensures
            n == self.document().audit.len(),
    {
        self.document.audit.len() as u64
    }
}

/// A store in memory always takes back what one handed out, whatever came in between, and then hands
/// the same out again. With another version in it the state is not taken.
pub proof fn lemma_import_takes_exports(from: MemoryStore, to: MemoryStore, version: u32)
    requires
        from.wf(),
        to.wf(),
    ensures
        ({
            let x = from.document().exported();
            &&& to.document().imported(x) matches Some(d) && d.exported() == x
            &&& version != crate::state::SCHEMA_VERSION ==> to.document().imported(
                StateView { schema_version: version, ..x },
            ) is None
        }),
{
}

/// What is asked of a remote store with a local copy.
#[derive(Clone, Copy, Debug, PartialEq, Eq, Structural)]
pub enum StoreCall {
    /// Something is read.
    Read,
    /// A setting is changed: only what the remote store has taken counts.
    Control,
    /// Something is noted that may be lost: the local copy is enough.
    Note,
    /// The state is handed out.
    Export,
}

/// What is to be done next.
#[derive(Clone, Copy, Debug, PartialEq, Eq, Structural)]
pub enum StoreStep {
    AskRemote,
    AskLocal,
    /// Done; the answer is that of the store asked last.
    Succeed,
    Fail,
    /// There is no remote store, and without it nothing may be done.
    Refuse,
}

/// Whether the remote store is within reach.
#[derive(Clone, Copy, Debug, PartialEq, Eq, Structural)]
pub struct Resilience {
    pub connected: bool,
}

impl Resilience {
    pub open spec fn first_step(self, call: StoreCall) -> StoreStep {
        match call {
            StoreCall::Read | StoreCall::Export => if self.connected {
                StoreStep::AskRemote
            } else {
                StoreStep::AskLocal
            },
            StoreCall::Control => if self.connected {
                StoreStep::AskRemote
            } else {
                StoreStep::Refuse
            },
            StoreCall::Note => StoreStep::AskLocal,
        }
    }

    /// What is done first.
    pub fn start(&self, call: StoreCall) -> (s: StoreStep)
        ensures
            s == self.first_step(call),
    {
        match call {
            StoreCall::Read | StoreCall::Export => if self.connected {
                StoreStep::AskRemote
            } else {
                StoreStep::AskLocal
            },
            StoreCall::Control => if self.connected {
                StoreStep::AskRemote
            } else {
                StoreStep::Refuse
            },
            StoreCall::Note => StoreStep::AskLocal,
        }
    }

    pub open spec fn step_after_remote(call: StoreCall, ok: bool) -> StoreStep {
        match call {
            StoreCall::Read => if ok {
                StoreStep::Succeed
            } else {
                StoreStep::AskLocal
            },
            StoreCall::Control => if ok {
                StoreStep::AskLocal
            } else {
                StoreStep::Fail
            },
            StoreCall::Note => StoreStep::Succeed,
            StoreCall::Export => if ok {
                StoreStep::Succeed
            } else {
                StoreStep::Fail
            },
        }
    }

    /// What is done once the remote store has answered. A store that failed is given up, except when
    /// the state is handed out.
    pub fn after_remote(&mut self, call: StoreCall, ok: bool) -> (s: StoreStep)
        ensures
            s == Resilience::step_after_remote(call, ok),
            final(self).connected == (old(self).connected && (ok || call is Export)),
    {
        if !ok && !matches!(call, StoreCall::Export) {
            self.connected = false;
        }
        match call {
            StoreCall::Read => if ok {
                StoreStep::Succeed
            } else {
                StoreStep::AskLocal
            },
            StoreCall::Control => if ok {
                StoreStep::AskLocal
            } else {
                StoreStep::Fail
            },
            StoreCall::Note => StoreStep::Succeed,
            StoreCall::Export => if ok {
                StoreStep::Succeed
            } else {
                StoreStep::Fail
            },
        }
    }

    pub open spec fn step_after_local(self, call: StoreCall, ok: bool) -> StoreStep {
        if !ok {
            StoreStep::Fail
        } else if call is Note && self.connected {
            StoreStep::AskRemote
        } else {
            StoreStep::Succeed
        }
    }

    /// What is done once the local copy has answered.
    pub fn after_local(&self, call: StoreCall, ok: bool) -> (s: StoreStep)
        ensures
            s == self.step_after_local(call, ok),
    {
        if !ok {
            StoreStep::Fail
        } else if matches!(call, StoreCall::Note) && self.connected {
            StoreStep::AskRemote
        } else {
            StoreStep::Succeed
        }
    }

    /// Whether settings can be changed.
    pub fn writable(&self) -> (r: bool)
        ensures
            r == self.connected,
    {
        self.connected
    }

    /// The remote store is within reach again.
    pub fn connect(&mut self)
        ensures
            final(self).connected,
    {
        self.connected = true;
    }
}

/// Without the remote store no setting is changed anywhere: neither store is asked.
pub proof fn lemma_degraded_store_refuses_control(r: Resilience)
    requires
        !r.connected,
    ensures
        r.first_step(StoreCall::Control) == StoreStep::Refuse,
{
}

/// A setting is written to the local copy only after the remote store has taken it.
pub proof fn lemma_control_is_taken_remotely_first(r: Resilience, ok: bool)
    ensures
        r.first_step(StoreCall::Control) != StoreStep::AskLocal,
        Resilience::step_after_remote(StoreCall::Control, ok) == StoreStep::AskLocal <==> ok,
{
}

/// A failure of the remote store never keeps anything from being read or noted.
pub proof fn lemma_remote_failure_is_survived(r: Resilience, call: StoreCall)
    requires
        call is Read || call is Note,
    ensures
        r.first_step(call) != StoreStep::Refuse,
        Resilience::step_after_remote(call, false) == StoreStep::AskLocal
            || Resilience::step_after_remote(call, false) == StoreStep::Succeed,
{
}

/// What is done with a remote store that has come within reach again.
#[derive(Clone, Copy, Debug, PartialEq, Eq, Structural)]
pub enum ReconnectStep {
    /// It was within reach all along.
    Nothing,
    /// It is in use: what it holds counts, and local health is written to it.
    LoadAndFlush,
    /// It is in use, and there is no local health to write.
    Load,
    /// It is empty: what is stored locally is taken over.
    Seed,
}

pub fn reconnect_step(connected: bool, initialized: bool, has_local_health: bool) -> (s: ReconnectStep)
    ensures
        s == (if connected {
            ReconnectStep::Nothing
        } else if !initialized {
            ReconnectStep::Seed
        } else if has_local_health {
            ReconnectStep::LoadAndFlush
        } else {
            ReconnectStep::Load
        }),
{
    if connected {
        ReconnectStep::Nothing
    } else if !initialized {
        ReconnectStep::Seed
    } else if has_local_health {
        ReconnectStep::LoadAndFlush
    } else {
        ReconnectStep::Load
    }
}

/// A listening address as part of a name.
pub open spec fn dashed(s: Seq<char>) -> Seq<char> {
    s.map_values(
        |c: char|
            if c == ':' || c == '.' {
                '-'
            } else {
                c
            },
    )
}

fn with_dashes(s: &str) -> (r: String)
    ensures
        r@ == dashed(s@),
{
    let all = text::chars(s);
    let mut r = String::new();
    let mut i: usize = 0;
    while i < all.len()
        invariant
            i <= all@.len(),
            r@ == dashed(all@.take(i as int)),
        decreases all@.len() - i,
    {
        let c: char = all[i];
        r.push(
            if c == ':' || c == '.' {
                '-'
            } else {
                c
            },
        );
        i = i + 1;
        assert(r@ =~= dashed(all@.take(i as int)));
    }
    assert(all@.take(all@.len() as int) =~= all@);
    r
}

/// The name of this instance: the one that was given, or one made of the host and the listening
/// address.
pub open spec fn instance_name_of(
    given: Option<Seq<char>>,
    host: Option<Seq<char>>,
    listen: Option<Seq<char>>,
) -> Seq<char> {
    if given matches Some(id) && id.len() > 0 {
        given->0
    } else {
        let name = match host {
            Some(h) => h,
            None => "rpcrouter"@,
        };
        let address = match listen {
            Some(l) => l,
            None => "0.0.0.0:8545"@,
        };
        name + "-"@ + dashed(address)
    }
}

pub fn instance_name(given: Option<&str>, host: Option<&str>, listen: Option<&str>) -> (s: String)
    ensures
        s@ == instance_name_of(
            match given {
                Some(t) => Some(t@),
                None => None,
            },
            match host {
                Some(t) => Some(t@),
                None => None,
            },
            match listen {
                Some(t) => Some(t@),
                None => None,
            },
        ),
{
    if let Some(id) = given {
        if id.unicode_len() > 0 {
            return id.to_owned();
        }
    }
    let name = match host {
        Some(h) => h,
        None => "rpcrouter",
    };
    let address = match listen {
        Some(l) => l,
        None => "0.0.0.0:8545",
    };
    let dashes = with_dashes(address);
    let front = text::join(name, "-");
    text::join(front.as_str(), dashes.as_str())
}

} // verus!
