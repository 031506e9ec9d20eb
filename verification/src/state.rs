//! Persistent state: runtime overrides, health snapshots and the document that stores them.
use crate::chainlist;
use crate::copying;
use crate::copying::Duplicate;
use crate::json;
use crate::json::Json;
use crate::loader;
use crate::sorted::SortedMap;
use crate::text;
use flate2::read::GzDecoder;
use flate2::write::GzEncoder;
use flate2::Compression;
use std::io::{Read, Write};
use std::sync::Arc;
use vstd::prelude::*;

verus! {

/// Runtime settings of a chain; an absent field leaves the configured value in force.
#[derive(Copy, Debug, PartialEq, Eq, Structural)]
pub struct ChainOverrideState {
    pub pinned: Option<bool>,
    pub disabled: Option<bool>,
    pub block_time_ms: Option<u64>,
    pub confirmation_depth: Option<u64>,
    pub tip_ttl_ms: Option<u64>,
    pub max_block_lag: Option<u64>,
}

impl Clone for ChainOverrideState {
    fn clone(&self) -> (r: Self)
        ensures
            r == *self,
    {
        *self
    }
}

/// The override that changes nothing.
pub open spec fn no_override() -> ChainOverrideState {
    ChainOverrideState {
        pinned: None,
        disabled: None,
        block_time_ms: None,
        confirmation_depth: None,
        tip_ttl_ms: None,
        max_block_lag: None,
    }
}

impl Default for ChainOverrideState {
    fn default() -> (r: Self)
        ensures
            r == no_override(),
    {
        ChainOverrideState {
            pinned: None,
            disabled: None,
            block_time_ms: None,
            confirmation_depth: None,
            tip_ttl_ms: None,
            max_block_lag: None,
        }
    }
}

/// Runtime settings of one endpoint of a chain.
#[derive(Debug)]
pub struct EndpointOverrideState {
    pub url: String,
    pub disabled: Option<bool>,
    pub rps: Option<u32>,
    pub concurrency: Option<usize>,
}

impl Clone for EndpointOverrideState {
    fn clone(&self) -> (r: Self)
        ensures
            r == *self,
    {
        EndpointOverrideState {
            url: self.url.clone(),
            disabled: self.disabled,
            rps: self.rps,
            concurrency: self.concurrency,
        }
    }
}

/// All runtime settings.
pub struct Overrides {
    pub chains: SortedMap<u64, ChainOverrideState>,
    pub endpoints: SortedMap<String, EndpointOverrideState>,
}

impl Overrides {
    pub open spec fn wf(self) -> bool {
        self.chains.wf() && self.endpoints.wf()
    }

    pub fn new() -> (o: Self)
        ensures
            o.wf(),
            o.chains@ == Map::<u64, ChainOverrideState>::empty(),
            o.endpoints@ == Map::<Seq<char>, EndpointOverrideState>::empty(),
            o.chains.entries() == Seq::<(u64, ChainOverrideState)>::empty(),
            o.endpoints.entries() == Seq::<(String, EndpointOverrideState)>::empty(),
    {
        Overrides { chains: SortedMap::new(), endpoints: SortedMap::new() }
    }
}

/// The stored health of one endpoint.
#[derive(Debug)]
pub struct HealthSnapshot {
    pub chain_id: u64,
    pub url: String,
    pub state: String,
    pub cooling_until_unix: Option<u64>,
    pub strikes: u32,
    pub latency_ewma_us: u64,
    pub lag: u64,
}

impl Clone for HealthSnapshot {
    fn clone(&self) -> (r: Self)
        ensures
            r == *self,
    {
        HealthSnapshot {
            chain_id: self.chain_id,
            url: self.url.clone(),
            state: self.state.clone(),
            cooling_until_unix: self.cooling_until_unix,
            strikes: self.strikes,
            latency_ewma_us: self.latency_ewma_us,
            lag: self.lag,
        }
    }
}

impl Duplicate for ChainOverrideState {
    fn duplicate(&self) -> (r: Self) {
        *self
    }
}

impl Duplicate for EndpointOverrideState {
    fn duplicate(&self) -> (r: Self) {
        self.clone()
    }
}

impl Duplicate for HealthSnapshot {
    fn duplicate(&self) -> (r: Self) {
        self.clone()
    }
}

impl Duplicate for AutoChainState {
    fn duplicate(&self) -> (r: Self) {
        *self
    }
}

/// The version of the stored form.
pub const SCHEMA_VERSION: u32 = 2;

/// How many entries the record of control operations keeps.
pub const AUDIT_LIMIT: usize = 10_000;

/// What is stored of a chain that was chosen automatically.
#[derive(Clone, Copy, Debug, PartialEq, Eq, Structural)]
pub struct AutoChainState {
    pub enabled_at: u64,
    pub endpoints: u32,
    pub active_seen: u32,
    pub head: u64,
}

impl Default for AutoChainState {
    fn default() -> (r: Self)
        ensures
            r == (AutoChainState { enabled_at: 0, endpoints: 0, active_seen: 0, head: 0 }),
    {
        AutoChainState { enabled_at: 0, endpoints: 0, active_seen: 0, head: 0 }
    }
}

/// What is shown of the store while the program runs.
#[derive(Clone, Debug)]
pub struct StateRuntimeSnapshot {
    pub backend: String,
    pub namespace: String,
    pub instance_id: String,
    pub schema_version: u32,
    pub up: bool,
    pub writable: bool,
    pub last_flush_unix: u64,
    pub last_flush_result: String,
    pub last_flush_duration_ms: u64,
    pub dirty_endpoints: u64,
    pub last_ping_unix: u64,
}

impl StateRuntimeSnapshot {
    pub fn new(backend: String, namespace: String, instance_id: String, now: u64) -> (s: Self)
        ensures
            s.backend == backend,
            s.namespace == namespace,
            s.instance_id == instance_id,
            s.schema_version == SCHEMA_VERSION,
            !s.up,
            !s.writable,
            s.last_flush_unix == now,
            s.last_flush_result@ == "startup"@,
            s.last_flush_duration_ms == 1,
            s.dirty_endpoints == 0,
            s.last_ping_unix == now,
    {
        StateRuntimeSnapshot {
            backend,
            namespace,
            instance_id,
            schema_version: SCHEMA_VERSION,
            up: false,
            writable: false,
            last_flush_unix: now,
            last_flush_result: "startup".to_owned(),
            last_flush_duration_ms: 1,
            dirty_endpoints: 0,
            last_ping_unix: now,
        }
    }
}

/// One entry of the record of control operations.
#[derive(Clone, Debug)]
pub struct AuditEntry {
    pub at: u64,
    pub what: String,
    pub target: String,
}

/// What is read from the store when the program starts.
pub struct BootstrapState {
    pub schema_version: u32,
    pub catalog: Option<Arc<Json>>,
    pub overrides: Overrides,
    pub health: Vec<HealthSnapshot>,
    pub hot_chains: Vec<(u64, u64)>,
    pub auto_chains: SortedMap<u64, AutoChainState>,
    pub catalog_etag: Option<String>,
    pub catalog_fetched_at: u64,
}

/// What is handed out of the store and taken back into it. The catalog is not handed out.
pub struct StateExport {
    pub schema_version: u32,
    pub catalog: Option<Arc<Json>>,
    pub overrides: Overrides,
    pub health: Vec<HealthSnapshot>,
    pub hot_chains: Vec<(u64, u64)>,
    pub auto_chains: SortedMap<u64, AutoChainState>,
    pub catalog_etag: Option<String>,
    pub catalog_fetched_at: u64,
}

/// The parts of the state that contracts speak of.
pub ghost struct StateView {
    pub schema_version: u32,
    pub catalog: Option<Json>,
    pub chain_overrides: Map<u64, ChainOverrideState>,
    pub endpoint_overrides: Map<Seq<char>, EndpointOverrideState>,
    pub health: Seq<HealthSnapshot>,
    pub hot_chains: Seq<(u64, u64)>,
    pub auto_chains: Map<u64, AutoChainState>,
    pub catalog_etag: Option<Seq<char>>,
    pub catalog_fetched_at: u64,
}

pub open spec fn document_of(catalog: Option<Arc<Json>>) -> Option<Json> {
    match catalog {
        Some(j) => Some(*j),
        None => None,
    }
}

impl BootstrapState {
    pub open spec fn view(&self) -> StateView {
        StateView {
            schema_version: self.schema_version,
            catalog: document_of(self.catalog),
            chain_overrides: self.overrides.chains@,
            endpoint_overrides: self.overrides.endpoints@,
            health: self.health@,
            hot_chains: self.hot_chains@,
            auto_chains: self.auto_chains@,
            catalog_etag: chainlist::characters(self.catalog_etag),
            catalog_fetched_at: self.catalog_fetched_at,
        }
    }

    pub open spec fn wf(&self) -> bool {
        self.overrides.wf() && self.auto_chains.wf()
    }
}

impl StateExport {
    pub open spec fn view(&self) -> StateView {
        StateView {
            schema_version: self.schema_version,
            catalog: document_of(self.catalog),
            chain_overrides: self.overrides.chains@,
            endpoint_overrides: self.overrides.endpoints@,
            health: self.health@,
            hot_chains: self.hot_chains@,
            auto_chains: self.auto_chains@,
            catalog_etag: chainlist::characters(self.catalog_etag),
            catalog_fetched_at: self.catalog_fetched_at,
        }
    }

    pub open spec fn wf(&self) -> bool {
        self.overrides.wf() && self.auto_chains.wf()
    }

    /// Whether a state that was handed out has the version that is understood.
    pub fn check_schema(&self) -> (r: Result<(), UnsupportedSchema>)
        ensures
            match r {
                Ok(_) => self@.schema_version == SCHEMA_VERSION,
                Err(e) => self@.schema_version != SCHEMA_VERSION && e.version
                    == self@.schema_version,
            },
    {
        if self.schema_version == SCHEMA_VERSION {
            Ok(())
        } else {
            Err(UnsupportedSchema { version: self.schema_version })
        }
    }
}

/// The document that holds the whole state.
pub struct StateDocument {
    pub schema_version: u32,
    pub catalog: Option<Arc<Json>>,
    pub overrides: Overrides,
    pub health: Vec<HealthSnapshot>,
    pub hot_chains: Vec<(u64, u64)>,
    pub auto_chains: SortedMap<u64, AutoChainState>,
    pub audit: Vec<AuditEntry>,
    pub seeded_at: u64,
    pub last_flush_at: u64,
    pub catalog_etag: Option<String>,
    pub catalog_fetched_at: u64,
}

/// The whole document, as contracts speak of it.
pub ghost struct DocumentView {
    pub state: StateView,
    pub audit: Seq<AuditEntry>,
    pub seeded_at: u64,
    pub last_flush_at: u64,
}

impl DocumentView {
    /// What is handed out of a document: all but the catalog.
    pub open spec fn exported(self) -> StateView {
        StateView { catalog: None, ..self.state }
    }

    /// The document once a state that was handed out has been taken back: that state in place of its
    /// own. Without a catalog in it the stored one stays, and a state of another version is not taken.
    pub open spec fn imported(self, value: StateView) -> Option<DocumentView> {
        if value.schema_version != SCHEMA_VERSION {
            None
        } else {
            Some(
                DocumentView {
                    state: StateView {
                        catalog: if value.catalog is Some {
                            value.catalog
                        } else {
                            self.state.catalog
                        },
                        ..value
                    },
                    ..self
                },
            )
        }
    }
}

/// Nothing stored.
pub open spec fn empty_state() -> StateView {
    StateView {
        schema_version: SCHEMA_VERSION,
        catalog: None,
        chain_overrides: Map::empty(),
        endpoint_overrides: Map::empty(),
        health: Seq::empty(),
        hot_chains: Seq::empty(),
        auto_chains: Map::empty(),
        catalog_etag: None,
        catalog_fetched_at: 0,
    }
}

/// The stored state does not have the version that is understood.
#[derive(Clone, Copy, Debug, PartialEq, Eq, Structural)]
pub struct UnsupportedSchema {
    pub version: u32,
}

impl UnsupportedSchema {
    pub fn message(&self) -> (m: String)
        ensures
            m@ == "unsupported state schema version "@ + text::decimal_digits(self.version as nat),
    {
        let version = text::decimal(self.version as u64);
        text::join("unsupported state schema version ", version.as_str())
    }
}

pub open spec fn same_endpoint(a: HealthSnapshot, b: HealthSnapshot) -> bool {
    a.chain_id == b.chain_id && a.url@ == b.url@
}

/// The first place at which the health of an endpoint is stored.
pub open spec fn is_stored_at(list: Seq<HealthSnapshot>, h: HealthSnapshot, i: int) -> bool {
    &&& 0 <= i < list.len()
    &&& same_endpoint(list[i], h)
    &&& forall|k: int| 0 <= k < i ==> !same_endpoint(#[trigger] list[k], h)
}

/// Stored health with one snapshot taken in: in place of that of the same endpoint, or as a new one.
pub open spec fn with_snapshot(list: Seq<HealthSnapshot>, h: HealthSnapshot) -> Seq<HealthSnapshot> {
    if exists|i: int| is_stored_at(list, h, i) {
        list.update(choose|i: int| is_stored_at(list, h, i), h)
    } else {
        list.push(h)
    }
}

pub open spec fn with_batch(
    list: Seq<HealthSnapshot>,
    batch: Seq<HealthSnapshot>,
) -> Seq<HealthSnapshot>
    decreases batch.len(),
{
    if batch.len() == 0 {
        list
    } else {
        with_snapshot(with_batch(list, batch.drop_last()), batch.last())
    }
}

/// The last entries of a record, as many as it keeps.
pub open spec fn last_entries(audit: Seq<AuditEntry>) -> Seq<AuditEntry> {
    if audit.len() > AUDIT_LIMIT {
        audit.skip(audit.len() - AUDIT_LIMIT)
    } else {
        audit
    }
}

fn copy_catalog(catalog: &Option<Arc<Json>>) -> (r: Option<Arc<Json>>)
    ensures
        r == *catalog,
{
    match catalog {
        Some(j) => Some(loader::share(j)),
        None => None,
    }
}

impl Overrides {
    pub fn duplicate(&self) -> (r: Self)
        requires
            self.wf(),
        ensures
            r.wf(),
            r.chains.entries() == self.chains.entries(),
            r.endpoints.entries() == self.endpoints.entries(),
            r.chains@ == self.chains@,
            r.endpoints@ == self.endpoints@,
    {
        Overrides { chains: self.chains.duplicate(), endpoints: self.endpoints.duplicate() }
    }
}

/// What was found where the document is kept.
pub enum StoredDocument {
    Missing,
    /// There is something, but it cannot be read.
    Corrupt,
    Found(StateDocument),
}

impl StateDocument {
    pub open spec fn view(&self) -> DocumentView {
        DocumentView {
            state: StateView {
                schema_version: self.schema_version,
                catalog: document_of(self.catalog),
                chain_overrides: self.overrides.chains@,
                endpoint_overrides: self.overrides.endpoints@,
                health: self.health@,
                hot_chains: self.hot_chains@,
                auto_chains: self.auto_chains@,
                catalog_etag: chainlist::characters(self.catalog_etag),
                catalog_fetched_at: self.catalog_fetched_at,
            },
            audit: self.audit@,
            seeded_at: self.seeded_at,
            last_flush_at: self.last_flush_at,
        }
    }

    pub open spec fn wf(&self) -> bool {
        self.overrides.wf() && self.auto_chains.wf()
    }

    /// An empty document of the version that is understood.
    pub fn empty(seeded_at: u64) -> (d: Self)
        ensures
            d.wf(),
            d@ == (DocumentView {
                state: empty_state(),
                audit: Seq::empty(),
                seeded_at,
                last_flush_at: 0,
            }),
    {
        StateDocument {
            schema_version: SCHEMA_VERSION,
            catalog: None,
            overrides: Overrides::new(),
            health: Vec::new(),
            hot_chains: Vec::new(),
            auto_chains: SortedMap::new(),
            audit: Vec::new(),
            seeded_at,
            last_flush_at: 0,
            catalog_etag: None,
            catalog_fetched_at: 0,
        }
    }

    /// Takes over a stored document. One that cannot be read or is of another version has to be put
    /// aside, and an empty one takes its place.
    pub fn open(stored: StoredDocument, now: u64) -> (r: (Self, bool))
        requires
            stored matches StoredDocument::Found(d) ==> d.wf(),
        ensures
            r.0.wf(),
            r.1 == match stored {
                StoredDocument::Missing => false,
                StoredDocument::Corrupt => true,
                StoredDocument::Found(d) => d.schema_version != SCHEMA_VERSION,
            },
            match stored {
                StoredDocument::Found(d) if d.schema_version == SCHEMA_VERSION => r.0 == d,
                _ => r.0@ == (DocumentView {
                    state: empty_state(),
                    audit: Seq::empty(),
                    seeded_at: now,
                    last_flush_at: 0,
                }),
            },
    {
        match stored {
            StoredDocument::Missing => (StateDocument::empty(now), false),
            StoredDocument::Corrupt => (StateDocument::empty(now), true),
            StoredDocument::Found(d) => if d.schema_version == SCHEMA_VERSION {
                (d, false)
            } else {
                (StateDocument::empty(now), true)
            },
        }
    }

    /// Hands out the state for the start of the program.
    pub fn bootstrap(&self) -> (r: Result<BootstrapState, UnsupportedSchema>)
        requires
            self.wf(),
        ensures
            match r {
                Ok(b) => self.schema_version == SCHEMA_VERSION && b.wf() && b@ == self@.state,
                Err(e) => self.schema_version != SCHEMA_VERSION && e.version == self.schema_version,
            },
    {
        if self.schema_version != SCHEMA_VERSION {
            return Err(UnsupportedSchema { version: self.schema_version });
        }
        Ok(
            BootstrapState {
                schema_version: self.schema_version,
                catalog: copy_catalog(&self.catalog),
                overrides: self.overrides.duplicate(),
                health: copying::copy_list(&self.health),
                hot_chains: copying::copy_list(&self.hot_chains),
                auto_chains: self.auto_chains.duplicate(),
                catalog_etag: chainlist::copy_text(&self.catalog_etag),
                catalog_fetched_at: self.catalog_fetched_at,
            },
        )
    }

    pub fn set_catalog(&mut self, catalog: Arc<Json>)
        ensures
            final(self)@ == (DocumentView {
                state: StateView { catalog: Some(*catalog), ..old(self)@.state },
                ..old(self)@
            }),
            final(self).wf() == old(self).wf(),
    {
        self.catalog = Some(catalog);
    }

    pub fn set_catalog_metadata(&mut self, catalog: Arc<Json>, etag: Option<String>, fetched_at: u64)
        ensures
            final(self)@ == (DocumentView {
                state: StateView {
                    catalog: Some(*catalog),
                    catalog_etag: chainlist::characters(etag),
                    catalog_fetched_at: fetched_at,
                    ..old(self)@.state
                },
                ..old(self)@
            }),
            final(self).wf() == old(self).wf(),
    {
        self.catalog = Some(catalog);
        self.catalog_etag = etag;
        self.catalog_fetched_at = fetched_at;
    }

    pub fn load_overrides(&self) -> (o: Overrides)
        requires
            self.wf(),
        ensures
            o.wf(),
            o.chains@ == self@.state.chain_overrides,
            o.endpoints@ == self@.state.endpoint_overrides,
    {
        self.overrides.duplicate()
    }

    pub fn put_chain_override(&mut self, chain_id: u64, value: ChainOverrideState)
        requires
            old(self).wf(),
        ensures
            final(self).wf(),
            final(self)@ == (DocumentView {
                state: StateView {
                    chain_overrides: old(self)@.state.chain_overrides.insert(chain_id, value),
                    ..old(self)@.state
                },
                ..old(self)@
            }),
    {
        self.overrides.chains.insert(chain_id, value);
    }

    pub fn delete_chain_override(&mut self, chain_id: u64)
        requires
            old(self).wf(),
        ensures
            final(self).wf(),
            final(self)@ == (DocumentView {
                state: StateView {
                    chain_overrides: old(self)@.state.chain_overrides.remove(chain_id),
                    ..old(self)@.state
                },
                ..old(self)@
            }),
    {
        self.overrides.chains.remove(&chain_id);
    }

    pub fn put_endpoint_override(&mut self, key: &str, value: EndpointOverrideState)
        requires
            old(self).wf(),
        ensures
            final(self).wf(),
            final(self)@ == (DocumentView {
                state: StateView {
                    endpoint_overrides: old(self)@.state.endpoint_overrides.insert(key@, value),
                    ..old(self)@.state
                },
                ..old(self)@
            }),
    {
        self.overrides.endpoints.insert(key.to_owned(), value);
    }

    pub fn delete_endpoint_override(&mut self, key: &str)
        requires
            old(self).wf(),
        ensures
            final(self).wf(),
            final(self)@ == (DocumentView {
                state: StateView {
                    endpoint_overrides: old(self)@.state.endpoint_overrides.remove(key@),
                    ..old(self)@.state
                },
                ..old(self)@
            }),
    {
        let key = key.to_owned();
        self.overrides.endpoints.remove(&key);
    }

    fn stored_at(&self, h: &HealthSnapshot) -> (r: Option<usize>)
        ensures
            match r {
                Some(i) => is_stored_at(self.health@, *h, i as int),
                None => forall|i: int| !is_stored_at(self.health@, *h, i),
            },
    {
        let mut i: usize = 0;
        while i < self.health.len()
            invariant
                i <= self.health@.len(),
                forall|k: int| 0 <= k < i ==> !same_endpoint(#[trigger] self.health@[k], *h),
            decreases self.health@.len() - i,
        {
            if self.health[i].chain_id == h.chain_id && self.health[i].url == h.url {
                return Some(i);
            }
            i = i + 1;
        }
        None
    }

    /// Takes in a batch of health snapshots, each in place of an earlier one of the same endpoint.
    pub fn flush_health(&mut self, batch: &Vec<HealthSnapshot>, now: u64)
        requires
            old(self).wf(),
        ensures
            final(self).wf(),
            final(self)@ == (DocumentView {
                state: StateView {
                    health: with_batch(old(self)@.state.health, batch@),
                    ..old(self)@.state
                },
                last_flush_at: now,
                ..old(self)@
            }),
    {
        let ghost start = self.health@;
        let mut n: usize = 0;
        assert(batch@.take(0) =~= Seq::<HealthSnapshot>::empty());
        while n < batch.len()
            invariant
                n <= batch@.len(),
                self.wf(),
                self@ == (DocumentView {
                    state: StateView { health: self.health@, ..old(self)@.state },
                    ..old(self)@
                }),
                self.health@ == with_batch(start, batch@.take(n as int)),
            decreases batch@.len() - n,
        {
            assert(batch@.take(n + 1).drop_last() =~= batch@.take(n as int));
            let h = &batch[n];
            let ghost before = self.health@;
            match self.stored_at(h) {
                Some(i) => {
                    self.health.set(i, h.clone());
                    proof {
                        let j = choose|j: int| is_stored_at(before, *h, j);
                        assert(is_stored_at(before, *h, i as int));
                        assert(j == i);
                    }
                },
                None => {
                    self.health.push(h.clone());
                },
            }
            n = n + 1;
        }
        assert(batch@.take(batch@.len() as int) =~= batch@);
        self.last_flush_at = now;
    }

    pub fn load_health(&self) -> (h: Vec<HealthSnapshot>)
        ensures
            h@ == self@.state.health,
    {
        copying::copy_list(&self.health)
    }

    pub fn set_hot_chains(&mut self, chains: Vec<(u64, u64)>)
        ensures
            final(self)@ == (DocumentView {
                state: StateView { hot_chains: chains@, ..old(self)@.state },
                ..old(self)@
            }),
            final(self).wf() == old(self).wf(),
    {
        self.hot_chains = chains;
    }

    pub fn load_auto_chains(&self) -> (m: SortedMap<u64, AutoChainState>)
        requires
            self.wf(),
        ensures
            m.wf(),
            m@ == self@.state.auto_chains,
    {
        self.auto_chains.duplicate()
    }

    pub fn put_auto_chain(&mut self, chain_id: u64, value: AutoChainState)
        requires
            old(self).wf(),
        ensures
            final(self).wf(),
            final(self)@ == (DocumentView {
                state: StateView {
                    auto_chains: old(self)@.state.auto_chains.insert(chain_id, value),
                    ..old(self)@.state
                },
                ..old(self)@
            }),
    {
        self.auto_chains.insert(chain_id, value);
    }

    /// Notes a control operation.
    pub fn append_audit(&mut self, what: &str, target: &str, now: u64)
        ensures
            final(self)@.state == old(self)@.state,
            final(self)@.seeded_at == old(self)@.seeded_at,
            final(self)@.last_flush_at == old(self)@.last_flush_at,
            final(self).wf() == old(self).wf(),
            final(self)@.audit.len() == old(self)@.audit.len() + 1,
            final(self)@.audit.drop_last() == old(self)@.audit,
            final(self)@.audit.last().at == now,
            final(self)@.audit.last().what@ == what@,
            final(self)@.audit.last().target@ == target@,
    {
        self.audit.push(AuditEntry { at: now, what: what.to_owned(), target: target.to_owned() });
        assert(self.audit@.drop_last() =~= old(self).audit@);
    }

    /// Drops the oldest entries of the record of control operations.
    pub fn trim_audit(&mut self)
        ensures
            final(self)@ == (DocumentView { audit: last_entries(old(self)@.audit), ..old(self)@ }),
            final(self).wf() == old(self).wf(),
    {
        let count: usize = self.audit.len();
        if count > AUDIT_LIMIT {
            let rest = self.audit.split_off(count - AUDIT_LIMIT);
            assert(rest@ =~= last_entries(old(self).audit@));
            self.audit = rest;
        }
    }

    pub fn export(&self) -> (e: StateExport)
        requires
            self.wf(),
        ensures
            e.wf(),
            e@ == self@.exported(),
    {
        StateExport {
            schema_version: self.schema_version,
            catalog: None,
            overrides: self.overrides.duplicate(),
            health: copying::copy_list(&self.health),
            hot_chains: copying::copy_list(&self.hot_chains),
            auto_chains: self.auto_chains.duplicate(),
            catalog_etag: chainlist::copy_text(&self.catalog_etag),
            catalog_fetched_at: self.catalog_fetched_at,
        }
    }

    /// Takes back what was handed out. Without a catalog in it, the stored one stays.
    pub fn import(&mut self, value: &StateExport) -> (r: Result<(), UnsupportedSchema>)
        requires
            old(self).wf(),
            value.wf(),
        ensures
            final(self).wf(),
            match r {
                Ok(_) => old(self)@.imported(value@) == Some(final(self)@),
                Err(e) => old(self)@.imported(value@) is None && e.version == value.schema_version
                    && *final(self) == *old(self),
            },
    {
        if let Err(e) = value.check_schema() {
            return Err(e);
        }
        self.schema_version = value.schema_version;
        if value.catalog.is_some() {
            self.catalog = copy_catalog(&value.catalog);
        }
        self.overrides = value.overrides.duplicate();
        self.health = copying::copy_list(&value.health);
        self.hot_chains = copying::copy_list(&value.hot_chains);
        self.auto_chains = value.auto_chains.duplicate();
        self.catalog_etag = chainlist::copy_text(&value.catalog_etag);
        self.catalog_fetched_at = value.catalog_fetched_at;
        Ok(())
    }

    pub fn reset(&mut self, now: u64)
        ensures
            final(self).wf(),
            final(self)@ == (DocumentView {
                state: empty_state(),
                audit: Seq::empty(),
                seeded_at: now,
                last_flush_at: 0,
            }),
    {
        *self = StateDocument::empty(now);
    }
}

/// What is handed out, taken back after a reset, puts the state back: all but the catalog itself, which
/// is not handed out.
pub proof fn lemma_import_undoes_reset(before: DocumentView, cleared: DocumentView)
    requires
        before.state.schema_version == SCHEMA_VERSION,
        cleared.state == empty_state(),
    ensures
        cleared.imported(before.exported()) matches Some(d) && d == (DocumentView {
            state: StateView { catalog: None, ..before.state },
            ..cleared
        }),
{
}

/// Taking in a snapshot leaves the stored health of all other endpoints as it is.
proof fn lemma_snapshot_spares_others(list: Seq<HealthSnapshot>, h: HealthSnapshot, x: HealthSnapshot)
    requires
        !same_endpoint(x, h),
        list.contains(x),
    ensures
        with_snapshot(list, h).contains(x),
{
    let k = choose|k: int| 0 <= k < list.len() && list[k] == x;
    assert(with_snapshot(list, h)[k] == x);
}

/// The health of every endpoint of a batch is stored as the batch has it last.
pub proof fn lemma_batch_is_stored(list: Seq<HealthSnapshot>, batch: Seq<HealthSnapshot>, n: int)
    requires
        0 <= n < batch.len(),
        forall|k: int| n < k < batch.len() ==> !same_endpoint(batch[n], #[trigger] batch[k]),
    ensures
        with_batch(list, batch).contains(batch[n]),
    decreases batch.len(),
{
    let short = batch.drop_last();
    let before = with_batch(list, short);
    let h = batch.last();
    if n < short.len() {
        assert forall|k: int| n < k < short.len() implies !same_endpoint(
            short[n],
            #[trigger] short[k],
        ) by {
            assert(short[k] == batch[k]);
        }
        lemma_batch_is_stored(list, short, n);
        assert(!same_endpoint(batch[n], batch[batch.len() - 1]));
        lemma_snapshot_spares_others(before, h, batch[n]);
    } else if exists|i: int| is_stored_at(before, h, i) {
        let i = choose|i: int| is_stored_at(before, h, i);
        assert(with_batch(list, batch)[i] == h);
    } else {
        assert(with_batch(list, batch)[before.len() as int] == h);
    }
}

/// The health of an endpoint that a batch does not speak of stays stored.
pub proof fn lemma_batch_spares_others(
    list: Seq<HealthSnapshot>,
    batch: Seq<HealthSnapshot>,
    x: HealthSnapshot,
)
    requires
        list.contains(x),
        forall|k: int| 0 <= k < batch.len() ==> !same_endpoint(x, #[trigger] batch[k]),
    ensures
        with_batch(list, batch).contains(x),
    decreases batch.len(),
{
    if batch.len() > 0 {
        let short = batch.drop_last();
        assert forall|k: int| 0 <= k < short.len() implies !same_endpoint(
            x,
            #[trigger] short[k],
        ) by {
            assert(short[k] == batch[k]);
        }
        lemma_batch_spares_others(list, short, x);
        assert(!same_endpoint(x, batch[batch.len() - 1]));
        lemma_snapshot_spares_others(with_batch(list, short), batch.last(), x);
    }
}

/// The gzip stream that the given bytes are packed as; nothing where packing fails.
pub uninterp spec fn packed(bytes: Seq<u8>) -> Option<Seq<u8>>;

/// The bytes that a gzip stream holds; nothing where it is not one.
pub uninterp spec fn unpacked(bytes: Seq<u8>) -> Option<Seq<u8>>;

/// `GzEncoder::write_all` and `GzEncoder::finish` at the default level into memory: the bytes as a gzip
/// stream, from which a decoder gets them back. Nothing but the bytes decides over success.
#[verifier::external_body]
fn pack(bytes: &[u8]) -> (r: Option<Vec<u8>>)
    ensures
        match r {
            Some(v) => packed(bytes@) == Some(v@) && unpacked(v@) == Some(bytes@),
            None => packed(bytes@) is None,
        },
{
    let mut encoder = GzEncoder::new(Vec::new(), Compression::default());
    encoder.write_all(bytes).ok()?;
    encoder.finish().ok()
}

/// `GzDecoder::read_to_end` on bytes in memory: what the gzip stream holds, or a failure where the bytes
/// are not one.
#[verifier::external_body]
fn unpack(bytes: &[u8]) -> (r: Option<Vec<u8>>)
    ensures
        match r {
            Some(v) => unpacked(bytes@) == Some(v@),
            None => unpacked(bytes@) is None,
        },
{
    let mut raw = Vec::new();
    GzDecoder::new(bytes).read_to_end(&mut raw).ok()?;
    Some(raw)
}

/// Packs the text of a document.
pub fn gzip(bytes: &[u8]) -> (r: Option<Vec<u8>>)
    ensures
        match r {
            Some(v) => packed(bytes@) == Some(v@) && unpacked(v@) == Some(bytes@),
            None => packed(bytes@) is None,
        },
{
    pack(bytes)
}

/// Why packed bytes hold no document.
#[derive(Clone, Copy, Debug, PartialEq, Eq, Structural)]
pub enum PackedFault {
    NotPacked,
    NotADocument,
}

/// Reads a packed document.
pub fn gunzip_json(bytes: &[u8]) -> (r: Result<Json, PackedFault>)
    ensures
        match r {
            Ok(j) => unpacked(bytes@) matches Some(raw) && json::json_document(raw) == Some(j),
            Err(PackedFault::NotPacked) => unpacked(bytes@) is None,
            Err(PackedFault::NotADocument) => unpacked(bytes@) matches Some(raw)
                && json::json_document(raw) is None,
        },
{
    match unpack(bytes) {
        Some(raw) => match json::parse_json(raw.as_slice()) {
            Some(j) => Ok(j),
            None => Err(PackedFault::NotADocument),
        },
        None => Err(PackedFault::NotPacked),
    }
}

} // verus!
