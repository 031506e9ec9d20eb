//! Keeping the chain catalog up to date: which source it is taken from and what is remembered of it.
use crate::chainlist::{
    Catalog, CatalogFault, CatalogParseStats, ChainlistSnapshot, RefreshSource,
};
use crate::config::Config;
use crate::json::Json;
use crate::text;
use std::collections::HashSet;
use std::sync::Arc;
use vstd::prelude::*;

verus! {

broadcast use vstd::std_specs::hash::group_hash_axioms;

/// `Arc::clone` makes another handle to the same value.
#[verifier::external_body]
pub(crate) fn share<T>(value: &Arc<T>) -> (other: Arc<T>)
    ensures
        other == *value,
{
    Arc::clone(value)
}

/// What a request for the chain list came back with.
#[derive(Debug)]
pub enum NetworkOutcome {
    /// The request could not be made.
    RequestFailed,
    /// The list did not change since it was last taken.
    NotModified,
    /// An answer with another status than success.
    HttpStatus(String),
    /// The answer broke off.
    BodyFailed,
    Body { etag: Option<String>, bytes: Vec<u8> },
}

/// Why the chain list could not be taken from the network.
#[derive(Debug)]
pub enum FetchError {
    Request,
    NothingInMemory,
    Status(String),
    Body,
    Invalid,
    SanityCheck,
}

impl FetchError {
    pub open spec fn says(self) -> Seq<char> {
        match self {
            FetchError::Request => "chainlist request failed"@,
            FetchError::NothingInMemory => "chainlist returned 304 without an in-memory catalog"@,
            FetchError::Status(s) => "chainlist returned HTTP "@ + s@,
            FetchError::Body => "failed to read chainlist response"@,
            FetchError::Invalid => "chainlist response is invalid"@,
            FetchError::SanityCheck => "chainlist response failed catalog sanity check"@,
        }
    }

    /// The reason in words.
    pub fn message(&self) -> (m: String)
        ensures
            m@ == self.says(),
    {
        match self {
            FetchError::Request => "chainlist request failed".to_owned(),
            FetchError::NothingInMemory =>
                "chainlist returned 304 without an in-memory catalog".to_owned(),
            FetchError::Status(s) => text::join("chainlist returned HTTP ", s.as_str()),
            FetchError::Body => "failed to read chainlist response".to_owned(),
            FetchError::Invalid => "chainlist response is invalid".to_owned(),
            FetchError::SanityCheck =>
                "chainlist response failed catalog sanity check".to_owned(),
        }
    }
}

/// The URL of the chain list is none.
#[derive(Debug)]
pub struct InvalidUrl {
    pub url: String,
}

impl InvalidUrl {
    pub fn message(&self) -> (m: String)
        ensures
            m@ == "invalid chainlist URL "@ + self.url@,
    {
        text::join("invalid chainlist URL ", self.url.as_str())
    }
}

/// What one loading of the catalog gave.
#[derive(Debug)]
pub struct LoadResult {
    pub catalog: Arc<Catalog>,
    pub source: RefreshSource,
    pub snapshot: Arc<ChainlistSnapshot>,
    pub records_skipped: usize,
    /// Whether a list from the network was refused because it had shrunk too much.
    pub rejected_network_snapshot: bool,
}

/// What is known of the last loading.
#[derive(Debug)]
pub struct RefreshState {
    pub source: RefreshSource,
    pub last_refresh_unix: u64,
    pub etag: Option<String>,
    pub catalog_chains: usize,
    pub catalog_endpoints: usize,
    pub last_error: Option<String>,
    pub refreshing: bool,
}

/// Takes catalogs in and remembers the last good one.
pub struct ChainlistLoader {
    pub discovery_enabled: bool,
    pub include_testnets: bool,
    pub pinned_chains: HashSet<u64>,
    pub etag: Option<String>,
    pub last_success: Option<Arc<Catalog>>,
    pub last_snapshot: Option<Arc<ChainlistSnapshot>>,
    pub last_refresh_unix: u64,
    pub last_source: Option<RefreshSource>,
    pub last_error: Option<String>,
    pub refreshing: bool,
}

/// How many endpoints the first chains of a catalog have.
pub open spec fn endpoint_total(chains: Seq<crate::chainlist::CatalogChain>) -> nat
    decreases chains.len(),
{
    if chains.len() == 0 {
        0
    } else {
        endpoint_total(chains.drop_last()) + chains.last().endpoints@.len()
    }
}

/// A number that stops at the largest one that fits.
pub open spec fn capped(n: nat) -> usize {
    if n > usize::MAX {
        usize::MAX
    } else {
        n as usize
    }
}

/// Counts the endpoints of a catalog.
pub fn count_endpoints(catalog: &Catalog) -> (n: usize)
    ensures
        n == capped(endpoint_total(catalog.chains@)),
{
    let mut n: usize = 0;
    let mut i: usize = 0;
    assert(catalog.chains@.take(0) =~= Seq::<crate::chainlist::CatalogChain>::empty());
    while i < catalog.chains.len()
        invariant
            i <= catalog.chains@.len(),
            n == capped(endpoint_total(catalog.chains@.take(i as int))),
        decreases catalog.chains@.len() - i,
    {
        assert(catalog.chains@.take(i + 1).drop_last() =~= catalog.chains@.take(i as int));
        n = n.saturating_add(catalog.chains[i].endpoints.len());
        i = i + 1;
    }
    assert(catalog.chains@.take(catalog.chains@.len() as int) =~= catalog.chains@);
    n
}

/// Whether a catalog from the network has shrunk too much against the last good one.
pub open spec fn shrunk(chains: nat, previous: nat) -> bool {
    chains == 0 || (previous > 0 && chains * 2 < previous)
}

/// A catalog that was read with the loader's rule.
pub open spec fn read_by(
    l: ChainlistLoader,
    records: Seq<Json>,
    catalog: Catalog,
    snapshot: ChainlistSnapshot,
    skipped: usize,
) -> bool {
    &&& catalog@ == crate::chainlist::catalog_of(
        records,
        l.discovery_enabled,
        l.include_testnets,
        l.pinned_chains@,
    )
    &&& catalog.wf()
    &&& crate::chainlist::holds_normal_urls(catalog@)
    &&& crate::chainlist::snapshot_of(catalog@, snapshot)
    &&& skipped == crate::chainlist::unusable(records)
}

impl ChainlistLoader {
    /// How many chains the last good catalog has.
    pub open spec fn previous_chains(self) -> nat {
        match self.last_success {
            Some(c) => c.chains@.len(),
            None => 0,
        }
    }

    /// A catalog is remembered together with its snapshot.
    pub open spec fn wf(self) -> bool {
        &&& self.last_success is Some <==> self.last_snapshot is Some
        &&& self.last_success matches Some(c) ==> c.wf() && crate::chainlist::snapshot_of(
            c@,
            *self.last_snapshot->0,
        )
    }

    /// Why the outcome of a request gives no catalog, if it gives none.
    pub open spec fn network_error(self, outcome: NetworkOutcome) -> Option<FetchError> {
        match outcome {
            NetworkOutcome::RequestFailed => Some(FetchError::Request),
            NetworkOutcome::NotModified => if self.last_success is None {
                Some(FetchError::NothingInMemory)
            } else {
                None
            },
            NetworkOutcome::HttpStatus(s) => Some(FetchError::Status(s)),
            NetworkOutcome::BodyFailed => Some(FetchError::Body),
            NetworkOutcome::Body { bytes, .. } => match crate::chainlist::text_records(bytes@) {
                Err(_) => Some(FetchError::Invalid),
                Ok(records) => if shrunk(
                    crate::chainlist::catalog_of(
                        records,
                        self.discovery_enabled,
                        self.include_testnets,
                        self.pinned_chains@,
                    ).len(),
                    self.previous_chains(),
                ) {
                    Some(FetchError::SanityCheck)
                } else {
                    None
                },
            },
        }
    }

    /// The loader and the result after an outcome that gives a catalog.
    pub open spec fn network_loaded(
        self,
        after: ChainlistLoader,
        outcome: NetworkOutcome,
        now_unix: u64,
        l: LoadResult,
    ) -> bool {
        match outcome {
            NetworkOutcome::NotModified => {
                &&& after == (ChainlistLoader {
                    last_refresh_unix: now_unix,
                    last_source: Some(RefreshSource::NotModified),
                    last_error: None,
                    ..self
                })
                &&& Some(l.catalog) == self.last_success
                &&& Some(l.snapshot) == self.last_snapshot
                &&& l.source == RefreshSource::NotModified
                &&& l.records_skipped == 0
                &&& !l.rejected_network_snapshot
            },
            NetworkOutcome::Body { etag, bytes } => {
                &&& read_by(
                    self,
                    crate::chainlist::text_records(bytes@)->Ok_0,
                    *l.catalog,
                    *l.snapshot,
                    l.records_skipped,
                )
                &&& l.source == RefreshSource::Network
                &&& !l.rejected_network_snapshot
                &&& after == (ChainlistLoader {
                    etag,
                    last_success: Some(l.catalog),
                    last_snapshot: Some(l.snapshot),
                    last_refresh_unix: now_unix,
                    last_source: Some(RefreshSource::Network),
                    last_error: None,
                    ..self
                })
            },
            _ => false,
        }
    }

    /// The loader and the result after a catalog was taken from somewhere else than the network.
    pub open spec fn remembered(
        self,
        after: ChainlistLoader,
        records: Seq<Json>,
        source: RefreshSource,
        rejected: bool,
        l: LoadResult,
    ) -> bool {
        &&& read_by(self, records, *l.catalog, *l.snapshot, l.records_skipped)
        &&& l.source == source
        &&& l.rejected_network_snapshot == rejected
        &&& after == (ChainlistLoader {
            last_success: Some(l.catalog),
            last_snapshot: Some(l.snapshot),
            last_source: Some(source),
            ..self
        })
    }

    /// A loader with the given rule that has not loaded anything yet.
    pub open spec fn is_new(self, discovery_enabled: bool, include_testnets: bool, pinned: Set<u64>) -> bool {
        &&& self.wf()
        &&& self.discovery_enabled == discovery_enabled
        &&& self.include_testnets == include_testnets
        &&& self.pinned_chains@ == pinned
        &&& self.etag is None
        &&& self.last_success is None
        &&& self.last_refresh_unix == 0
        &&& self.last_source is None
        &&& self.last_error is None
        &&& !self.refreshing
    }

    /// A loader for the chain list at the given URL, with the given rule.
    pub fn with_client(
        url: &str,
        discovery_enabled: bool,
        include_testnets: bool,
        pinned: &Vec<u64>,
    ) -> (r: Result<Self, InvalidUrl>)
        ensures
            match r {
                Ok(l) => crate::url::parsed_url(url@) is Some && l.is_new(
                    discovery_enabled,
                    include_testnets,
                    pinned@.to_set(),
                ),
                Err(e) => crate::url::parsed_url(url@) is None && e.url@ == url@,
            },
    {
        if !crate::url::is_absolute(url) {
            return Err(InvalidUrl { url: url.to_owned() });
        }
        let mut pinned_chains: HashSet<u64> = HashSet::new();
        let mut i: usize = 0;
        proof {
            assert(pinned@.take(0).to_set() =~= Set::<u64>::empty());
        }
        while i < pinned.len()
            invariant
                i <= pinned@.len(),
                pinned_chains@ == pinned@.take(i as int).to_set(),
            decreases pinned@.len() - i,
        {
            let ghost before = pinned@.take(i as int);
            pinned_chains.insert(pinned[i]);
            proof {
                let after = pinned@.take(i + 1);
                assert(after =~= before.push(pinned@[i as int]));
                assert forall|id: u64| before.to_set().insert(pinned@[i as int]).contains(id)
                    == after.to_set().contains(id) by {
                    crate::registry_model::lemma_push_contains(before, pinned@[i as int], id);
                }
                assert(before.to_set().insert(pinned@[i as int]) =~= after.to_set());
            }
            i = i + 1;
        }
        assert(pinned@.take(pinned@.len() as int) =~= pinned@);
        Ok(
            ChainlistLoader {
                discovery_enabled,
                include_testnets,
                pinned_chains,
                etag: None,
                last_success: None,
                last_snapshot: None,
                last_refresh_unix: 0,
                last_source: None,
                last_error: None,
                refreshing: false,
            },
        )
    }

    /// A loader that takes in the given chains and no others.
    pub fn with_client_legacy(url: &str, allowed: &Vec<u64>) -> (r: Result<Self, InvalidUrl>)
        ensures
            match r {
                Ok(l) => crate::url::parsed_url(url@) is Some && l.is_new(
                    false,
                    true,
                    allowed@.to_set(),
                ),
                Err(e) => crate::url::parsed_url(url@) is None && e.url@ == url@,
            },
    {
        ChainlistLoader::with_client(url, false, true, allowed)
    }

    /// A loader as configured.
    pub fn new(config: &Config) -> (r: Result<Self, InvalidUrl>)
        ensures
            match r {
                Ok(l) => crate::url::parsed_url(config.chainlist.url@) is Some && l.is_new(
                    config.discovery.enabled,
                    config.discovery.include_testnets,
                    config.chains@.to_set(),
                ),
                Err(e) => crate::url::parsed_url(config.chainlist.url@) is None && e.url@
                    == config.chainlist.url@,
            },
    {
        ChainlistLoader::with_client(
            config.chainlist.url.as_str(),
            config.discovery.enabled,
            config.discovery.include_testnets,
            &config.chains,
        )
    }

    /// Takes the outcome of a request for the chain list in. Only one that gives a catalog changes
    /// anything: neither the time of the last refresh nor its source moves with a failure.
    pub fn fetch_network(&mut self, outcome: NetworkOutcome, now_unix: u64) -> (r: Result<
        LoadResult,
        FetchError,
    >)
        requires
            old(self).wf(),
        ensures
            final(self).wf(),
            match r {
                Ok(l) => old(self).network_error(outcome) is None && old(self).network_loaded(
                    *final(self),
                    outcome,
                    now_unix,
                    l,
                ),
                Err(e) => old(self).network_error(outcome) == Some(e) && *final(self) == *old(self),
            },
    {
        match outcome {
            NetworkOutcome::RequestFailed => Err(FetchError::Request),
            NetworkOutcome::HttpStatus(s) => Err(FetchError::Status(s)),
            NetworkOutcome::BodyFailed => Err(FetchError::Body),
            NetworkOutcome::NotModified => {
                let l = match (&self.last_success, &self.last_snapshot) {
                    (Some(catalog), Some(snapshot)) => LoadResult {
                        catalog: share(catalog),
                        source: RefreshSource::NotModified,
                        snapshot: share(snapshot),
                        records_skipped: 0,
                        rejected_network_snapshot: false,
                    },
                    _ => {
                        return Err(FetchError::NothingInMemory);
                    },
                };
                self.last_refresh_unix = now_unix;
                self.last_source = Some(RefreshSource::NotModified);
                self.last_error = None;
                Ok(l)
            },
            NetworkOutcome::Body { etag, bytes } => {
                let (catalog, snapshot, stats) = match crate::chainlist::parse_catalog_with_stats(
                    bytes.as_slice(),
                    self.discovery_enabled,
                    self.include_testnets,
                    &self.pinned_chains,
                ) {
                    Ok(parsed) => parsed,
                    Err(_) => {
                        return Err(FetchError::Invalid);
                    },
                };
                let previous: usize = match &self.last_success {
                    Some(c) => c.chains.len(),
                    None => 0,
                };
                let chains: usize = catalog.chains.len();
                if chains == 0 || (previous > 0 && (chains as u128) * 2 < previous as u128) {
                    return Err(FetchError::SanityCheck);
                }
                let catalog = Arc::new(catalog);
                let snapshot = Arc::new(snapshot);
                self.etag = etag;
                self.last_success = Some(share(&catalog));
                self.last_snapshot = Some(share(&snapshot));
                self.last_refresh_unix = now_unix;
                self.last_source = Some(RefreshSource::Network);
                self.last_error = None;
                Ok(
                    LoadResult {
                        catalog,
                        source: RefreshSource::Network,
                        snapshot,
                        records_skipped: stats.records_skipped,
                        rejected_network_snapshot: false,
                    },
                )
            },
        }
    }

    fn remember(
        &mut self,
        catalog: Catalog,
        snapshot: ChainlistSnapshot,
        stats: CatalogParseStats,
        source: RefreshSource,
        rejected: bool,
    ) -> (l: LoadResult)
        requires
            catalog.wf(),
            crate::chainlist::snapshot_of(catalog@, snapshot),
        ensures
            final(self).wf(),
            *l.catalog == catalog,
            *l.snapshot == snapshot,
            l.source == source,
            l.records_skipped == stats.records_skipped,
            l.rejected_network_snapshot == rejected,
            *final(self) == (ChainlistLoader {
                last_success: Some(l.catalog),
                last_snapshot: Some(l.snapshot),
                last_source: Some(source),
                ..*old(self)
            }),
    {
        let catalog = Arc::new(catalog);
        let snapshot = Arc::new(snapshot);
        self.last_success = Some(share(&catalog));
        self.last_snapshot = Some(share(&snapshot));
        self.last_source = Some(source);
        LoadResult {
            catalog,
            source,
            snapshot,
            records_skipped: stats.records_skipped,
            rejected_network_snapshot: rejected,
        }
    }

    /// Whether the network's refusal leaves anything to be read: with a catalog in memory, neither the
    /// state store nor the disk is needed.
    pub fn has_catalog(&self) -> (r: bool)
        ensures
            r == self.last_success is Some,
    {
        self.last_success.is_some()
    }

    /// Loads the catalog: from the network, or else from memory, the state store, the disk or the list
    /// that is built in, whichever is the first to have one.
    pub fn load_with_store_catalog(
        &mut self,
        outcome: NetworkOutcome,
        store_catalog: Option<&Json>,
        disk: Option<&[u8]>,
        builtin: &[u8],
        now_unix: u64,
    ) -> (r: Result<LoadResult, CatalogFault>)
        requires
            old(self).wf(),
        ensures
            final(self).wf(),
            loaded(*old(self), *final(self), outcome, store_catalog, disk, builtin@, now_unix, r),
    {
        let error = match self.fetch_network(outcome, now_unix) {
            Ok(l) => {
                return Ok(l);
            },
            Err(error) => error,
        };
        let rejected: bool = matches!(error, FetchError::SanityCheck);
        self.last_error = Some(error.message());
        if let (Some(catalog), Some(snapshot)) = (&self.last_success, &self.last_snapshot) {
            let l = LoadResult {
                catalog: share(catalog),
                source: RefreshSource::Memory,
                snapshot: share(snapshot),
                records_skipped: 0,
                rejected_network_snapshot: rejected,
            };
            self.last_source = Some(RefreshSource::Memory);
            return Ok(l);
        }
        if let Some(doc) = store_catalog {
            if let Ok((catalog, snapshot, stats)) = crate::chainlist::read_catalog(
                doc,
                self.discovery_enabled,
                self.include_testnets,
                &self.pinned_chains,
            ) {
                return Ok(
                    self.remember(catalog, snapshot, stats, RefreshSource::StateStore, rejected),
                );
            }
        }
        if let Some(bytes) = disk {
            if let Ok((catalog, snapshot, stats)) = crate::chainlist::parse_catalog_with_stats(
                bytes,
                self.discovery_enabled,
                self.include_testnets,
                &self.pinned_chains,
            ) {
                return Ok(self.remember(catalog, snapshot, stats, RefreshSource::Disk, rejected));
            }
        }
        match crate::chainlist::parse_catalog_with_stats(
            builtin,
            self.discovery_enabled,
            self.include_testnets,
            &self.pinned_chains,
        ) {
            Ok((catalog, snapshot, stats)) => Ok(
                self.remember(catalog, snapshot, stats, RefreshSource::Fixture, rejected),
            ),
            Err(f) => Err(f),
        }
    }

    /// Loads the catalog without a state store.
    pub fn load(
        &mut self,
        outcome: NetworkOutcome,
        disk: Option<&[u8]>,
        builtin: &[u8],
        now_unix: u64,
    ) -> (r: Result<LoadResult, CatalogFault>)
        requires
            old(self).wf(),
        ensures
            final(self).wf(),
            loaded(*old(self), *final(self), outcome, None, disk, builtin@, now_unix, r),
    {
        self.load_with_store_catalog(outcome, None, disk, builtin, now_unix)
    }

    /// Begins a refresh, unless one is under way.
    pub fn begin_refresh(&mut self) -> (started: bool)
        ensures
            started == !old(self).refreshing,
            *final(self) == (ChainlistLoader { refreshing: true, ..*old(self) }),
    {
        if self.refreshing {
            false
        } else {
            self.refreshing = true;
            true
        }
    }

    pub fn end_refresh(&mut self)
        ensures
            *final(self) == (ChainlistLoader { refreshing: false, ..*old(self) }),
    {
        self.refreshing = false;
    }

    /// What is known of the last loading.
    pub fn refresh_state(&self) -> (s: RefreshState)
        ensures
            s.source == (match self.last_source {
                Some(source) => source,
                None => RefreshSource::Fixture,
            }),
            s.last_refresh_unix == self.last_refresh_unix,
            s.etag == self.etag,
            s.catalog_chains == self.previous_chains(),
            s.catalog_endpoints == (match self.last_success {
                Some(c) => capped(endpoint_total(c.chains@)),
                None => 0,
            }),
            s.last_error == self.last_error,
            s.refreshing == self.refreshing,
    {
        let (catalog_chains, catalog_endpoints): (usize, usize) = match &self.last_success {
            Some(c) => (c.chains.len(), count_endpoints(c)),
            None => (0, 0),
        };
        RefreshState {
            source: match self.last_source {
                Some(source) => source,
                None => RefreshSource::Fixture,
            },
            last_refresh_unix: self.last_refresh_unix,
            etag: crate::chainlist::copy_text(&self.etag),
            catalog_chains,
            catalog_endpoints,
            last_error: crate::chainlist::copy_text(&self.last_error),
            refreshing: self.refreshing,
        }
    }
}

/// The records of a stored document, if it is a chain list.
pub open spec fn stored_records(doc: Option<&Json>) -> Option<Seq<Json>> {
    match doc {
        Some(d) => match crate::chainlist::records_of(*d) {
            Ok(records) => Some(records),
            Err(_) => None,
        },
        None => None,
    }
}

/// The records of a text, if it is a chain list.
pub open spec fn cached_records(bytes: Option<&[u8]>) -> Option<Seq<Json>> {
    match bytes {
        Some(b) => match crate::chainlist::text_records(b@) {
            Ok(records) => Some(records),
            Err(_) => None,
        },
        None => None,
    }
}

/// How the catalog is loaded: from the network, or else from the first of memory, state store, disk and
/// the built-in list that has one. The reason why the network had none is remembered.
pub open spec fn loaded(
    old: ChainlistLoader,
    new: ChainlistLoader,
    outcome: NetworkOutcome,
    store_catalog: Option<&Json>,
    disk: Option<&[u8]>,
    builtin: Seq<u8>,
    now_unix: u64,
    r: Result<LoadResult, CatalogFault>,
) -> bool {
    match old.network_error(outcome) {
        None => r matches Ok(l) && old.network_loaded(new, outcome, now_unix, l),
        Some(error) => {
            let rejected = error is SanityCheck;
            &&& new.last_error matches Some(m) && m@ == error.says()
            &&& ({
                let tried = ChainlistLoader { last_error: new.last_error, ..old };
                if old.last_success is Some {
                    r matches Ok(l) && {
                        &&& Some(l.catalog) == old.last_success
                        &&& Some(l.snapshot) == old.last_snapshot
                        &&& l.source == RefreshSource::Memory
                        &&& l.records_skipped == 0
                        &&& l.rejected_network_snapshot == rejected
                        &&& new == (ChainlistLoader {
                            last_source: Some(RefreshSource::Memory),
                            ..tried
                        })
                    }
                } else if stored_records(store_catalog) is Some {
                    r matches Ok(l) && tried.remembered(
                        new,
                        stored_records(store_catalog)->0,
                        RefreshSource::StateStore,
                        rejected,
                        l,
                    )
                } else if cached_records(disk) is Some {
                    r matches Ok(l) && tried.remembered(
                        new,
                        cached_records(disk)->0,
                        RefreshSource::Disk,
                        rejected,
                        l,
                    )
                } else {
                    match crate::chainlist::text_records(builtin) {
                        Ok(records) => r matches Ok(l) && tried.remembered(
                            new,
                            records,
                            RefreshSource::Fixture,
                            rejected,
                            l,
                        ),
                        Err(f) => r == Err::<LoadResult, CatalogFault>(f) && new == tried,
                    }
                }
            })
        },
    }
}

/// Once a catalog was loaded, loading always gives one, and what it gives is never less than half of
/// what was there.
pub proof fn lemma_catalog_stays(
    old: ChainlistLoader,
    new: ChainlistLoader,
    outcome: NetworkOutcome,
    store_catalog: Option<&Json>,
    disk: Option<&[u8]>,
    builtin: Seq<u8>,
    now_unix: u64,
    r: Result<LoadResult, CatalogFault>,
)
    requires
        old.last_success is Some,
        loaded(old, new, outcome, store_catalog, disk, builtin, now_unix, r),
    ensures
        r matches Ok(l) && new.last_success == Some(l.catalog) && l.catalog.chains@.len() * 2
            >= old.previous_chains(),
{
    if old.network_error(outcome) is None && outcome is Body {
        let l = r->Ok_0;
        assert(l.catalog@.len() == l.catalog.chains@.len());
    }
}

} // verus!
