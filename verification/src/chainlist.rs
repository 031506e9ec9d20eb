//! The chain catalog: reading it from a chain list document, what is kept of it, and looking chains up.
pub use crate::document::catalog_document;
use crate::json::{self, Json, Number};
use crate::text;
use crate::url;
use std::collections::{HashMap, HashSet};
use vstd::prelude::*;

verus! {

broadcast use vstd::std_specs::hash::group_hash_axioms;

/// The endpoints of one chain.
#[derive(Clone, Debug)]
pub struct ChainEndpoints {
    pub chain_id: u64,
    pub name: String,
    pub endpoints: Vec<String>,
}

/// The endpoints of all chains of a catalog.
#[derive(Clone, Debug)]
pub struct ChainlistSnapshot {
    pub chains: Vec<ChainEndpoints>,
}

/// What the catalog holds of a chain.
#[derive(Clone, Debug)]
pub struct CatalogChain {
    pub chain_id: u64,
    pub name: String,
    pub short_name: Option<String>,
    pub chain: Option<String>,
    pub slug: Option<String>,
    pub is_testnet: bool,
    pub native_symbol: Option<String>,
    pub explorer_url: Option<String>,
    pub status: Option<String>,
    pub tvl: Option<Number>,
    pub endpoints: Vec<CatalogEndpoint>,
}

/// An endpoint of the catalog.
#[derive(Debug)]
pub struct CatalogEndpoint {
    pub url: String,
    pub tracking: Option<String>,
}

/// Copies an optional text.
pub fn copy_text(s: &Option<String>) -> (r: Option<String>)
    ensures
        r == *s,
{
    match s {
        Some(t) => Some(t.clone()),
        None => None,
    }
}

impl Clone for CatalogEndpoint {
    fn clone(&self) -> (r: Self)
        ensures
            r == *self,
    {
        CatalogEndpoint { url: self.url.clone(), tracking: copy_text(&self.tracking) }
    }
}

/// All chains, and where each stands.
#[derive(Clone, Debug)]
pub struct Catalog {
    pub chains: Vec<CatalogChain>,
    pub by_id: HashMap<u64, usize>,
}

/// An endpoint as contracts speak of it.
pub ghost struct EndpointEntry {
    pub url: Seq<char>,
    pub tracking: Option<Seq<char>>,
}

/// What is known of a chain, as contracts speak of it.
pub ghost struct ChainEntry {
    pub chain_id: u64,
    pub name: Seq<char>,
    pub short_name: Option<Seq<char>>,
    pub chain: Option<Seq<char>>,
    pub slug: Option<Seq<char>>,
    pub is_testnet: bool,
    pub native_symbol: Option<Seq<char>>,
    pub explorer_url: Option<Seq<char>>,
    pub status: Option<Seq<char>>,
    pub tvl: Option<Number>,
    pub endpoints: Seq<EndpointEntry>,
}

pub open spec fn characters(s: Option<String>) -> Option<Seq<char>> {
    match s {
        Some(t) => Some(t@),
        None => None,
    }
}

impl CatalogEndpoint {
    pub open spec fn view(&self) -> EndpointEntry {
        EndpointEntry { url: self.url@, tracking: characters(self.tracking) }
    }
}

/// Endpoints by what contracts speak of.
pub open spec fn endpoint_views(endpoints: Seq<CatalogEndpoint>) -> Seq<EndpointEntry> {
    endpoints.map_values(|e: CatalogEndpoint| e@)
}

impl CatalogChain {
    pub open spec fn view(&self) -> ChainEntry {
        ChainEntry {
            chain_id: self.chain_id,
            name: self.name@,
            short_name: characters(self.short_name),
            chain: characters(self.chain),
            slug: characters(self.slug),
            is_testnet: self.is_testnet,
            native_symbol: characters(self.native_symbol),
            explorer_url: characters(self.explorer_url),
            status: characters(self.status),
            tvl: self.tvl,
            endpoints: endpoint_views(self.endpoints@),
        }
    }
}

pub open spec fn chain_views(chains: Seq<CatalogChain>) -> Seq<ChainEntry> {
    chains.map_values(|c: CatalogChain| c@)
}

impl Catalog {
    pub open spec fn view(&self) -> Seq<ChainEntry> {
        chain_views(self.chains@)
    }

    /// Where the chain with the given id stands, if the catalog has one.
    pub open spec fn place(self, chain_id: u64) -> Option<int> {
        if self.by_id@.contains_key(chain_id) && self.by_id@[chain_id] < self.chains@.len() {
            Some(self.by_id@[chain_id] as int)
        } else {
            None
        }
    }

    /// The index leads to the last chain with each id, and to no other.
    pub open spec fn wf(self) -> bool {
        self.by_id@ == places(self.chains@)
    }

    pub fn lookup(&self, chain_id: u64) -> (c: Option<&CatalogChain>)
        ensures
            match c {
                Some(chain) => self.place(chain_id) matches Some(i) && *chain == self.chains@[i],
                None => self.place(chain_id) is None,
            },
    {
        match self.by_id.get(&chain_id) {
            Some(index) => if *index < self.chains.len() {
                Some(&self.chains[*index])
            } else {
                None
            },
            None => None,
        }
    }

    /// The ids of the chains, in their order.
    pub fn chain_ids(&self) -> (ids: Vec<u64>)
        ensures
            ids@ == self.chains@.map_values(|c: CatalogChain| c.chain_id),
    {
        let mut ids: Vec<u64> = Vec::new();
        let mut i: usize = 0;
        while i < self.chains.len()
            invariant
                i <= self.chains@.len(),
                ids@.len() == i,
                forall|k: int| 0 <= k < i ==> ids@[k] == #[trigger] self.chains@[k].chain_id,
            decreases self.chains@.len() - i,
        {
            ids.push(self.chains[i].chain_id);
            i = i + 1;
        }
        assert(ids@ =~= self.chains@.map_values(|c: CatalogChain| c.chain_id));
        ids
    }
}

/// Where the last chain with each id stands.
pub open spec fn places(chains: Seq<CatalogChain>) -> Map<u64, usize>
    decreases chains.len(),
{
    if chains.len() == 0 {
        Map::empty()
    } else {
        places(chains.drop_last()).insert(chains.last().chain_id, (chains.len() - 1) as usize)
    }
}

/// Every id of the catalog leads to a chain with that id, and to the last one.
pub proof fn lemma_places(chains: Seq<CatalogChain>)
    requires
        chains.len() <= usize::MAX,
    ensures
        forall|id: u64| #[trigger]
            places(chains).contains_key(id) ==> places(chains)[id] < chains.len()
                && chains[places(chains)[id] as int].chain_id == id,
        forall|i: int|
            0 <= i < chains.len() ==> places(chains).contains_key(
                (#[trigger] chains[i]).chain_id,
            ) && places(chains)[chains[i].chain_id] >= i,
    decreases chains.len(),
{
    if chains.len() > 0 {
        let p = chains.drop_last();
        lemma_places(p);
        assert forall|id: u64| #[trigger] places(chains).contains_key(id) implies places(chains)[id]
            < chains.len() && chains[places(chains)[id] as int].chain_id == id by {
            if id != chains.last().chain_id {
                assert(places(p).contains_key(id));
                assert(p[places(p)[id] as int] == chains[places(p)[id] as int]);
            }
        }
        assert forall|i: int| 0 <= i < chains.len() implies places(chains).contains_key(
            (#[trigger] chains[i]).chain_id,
        ) && places(chains)[chains[i].chain_id] >= i by {
            if i < p.len() {
                assert(p[i] == chains[i]);
            }
        }
    }
}

/// Catalogs with the same contents have the same index.
pub proof fn lemma_same_places(a: Seq<CatalogChain>, b: Seq<CatalogChain>)
    requires
        chain_views(a) == chain_views(b),
    ensures
        places(a) == places(b),
    decreases a.len(),
{
    assert(chain_views(a).len() == a.len() && chain_views(b).len() == b.len());
    if a.len() > 0 {
        let last = a.len() - 1;
        assert(chain_views(a)[last] == a[last]@ && chain_views(b)[last] == b[last]@);
        assert(chain_views(a.drop_last()) =~= chain_views(a).drop_last());
        assert(chain_views(b.drop_last()) =~= chain_views(b).drop_last());
        lemma_same_places(a.drop_last(), b.drop_last());
    }
}

/// Where a snapshot comes from.
pub type SnapshotSource = RefreshSource;

/// Where a catalog comes from.
#[derive(Clone, Copy, Debug, PartialEq, Eq, Structural)]
pub enum RefreshSource {
    Network,
    NotModified,
    Memory,
    StateStore,
    Disk,
    Fixture,
}

impl RefreshSource {
    pub open spec fn labelled(self) -> Seq<char> {
        match self {
            RefreshSource::Network => "network"@,
            RefreshSource::NotModified => "not_modified"@,
            RefreshSource::Memory => "memory"@,
            RefreshSource::StateStore => "state_store"@,
            RefreshSource::Disk => "disk"@,
            RefreshSource::Fixture => "fixture"@,
        }
    }

    /// The source as metrics name it.
    pub fn label(&self) -> (l: &'static str)
        ensures
            l@ == self.labelled(),
    {
        match self {
            RefreshSource::Network => "network",
            RefreshSource::NotModified => "not_modified",
            RefreshSource::Memory => "memory",
            RefreshSource::StateStore => "state_store",
            RefreshSource::Disk => "disk",
            RefreshSource::Fixture => "fixture",
        }
    }
}

/// Counts of one reading of a chain list.
#[derive(Clone, Copy, Debug, PartialEq, Eq, Structural)]
pub struct CatalogParseStats {
    pub records_total: usize,
    pub records_accepted: usize,
    pub records_skipped: usize,
}

impl Default for CatalogParseStats {
    fn default() -> (s: Self)
        ensures
            s == (CatalogParseStats { records_total: 0, records_accepted: 0, records_skipped: 0 }),
    {
        CatalogParseStats { records_total: 0, records_accepted: 0, records_skipped: 0 }
    }
}

/// Why a document is no chain list.
#[derive(Clone, Copy, Debug, PartialEq, Eq, Structural)]
pub enum CatalogFault {
    InvalidJson,
    NoChainsArray,
    NoList,
}

impl CatalogFault {
    pub open spec fn says(self) -> Seq<char> {
        match self {
            CatalogFault::InvalidJson => "invalid chainlist JSON"@,
            CatalogFault::NoChainsArray => "chainlist object must contain a chains array"@,
            CatalogFault::NoList =>
                "chainlist document must be an array or an object containing a chains array"@,
        }
    }

    /// The reason in words.
    pub fn message(&self) -> (m: &'static str)
        ensures
            m@ == self.says(),
    {
        match self {
            CatalogFault::InvalidJson => "invalid chainlist JSON",
            CatalogFault::NoChainsArray => "chainlist object must contain a chains array",
            CatalogFault::NoList =>
                "chainlist document must be an array or an object containing a chains array",
        }
    }
}

/// The records of a chain list: the document itself, or what it holds under `chains`.
pub open spec fn records_of(doc: Json) -> Result<Seq<Json>, CatalogFault> {
    match doc {
        Json::Array(items) => Ok(items@),
        Json::Object(_) => match doc.field("chains"@) {
            Some(Json::Array(items)) => Ok(items@),
            _ => Err(CatalogFault::NoChainsArray),
        },
        _ => Err(CatalogFault::NoList),
    }
}

/// A field of a record. A record may also be written as an array of all its fields in their order.
pub open spec fn record_field(record: Json, name: Seq<char>, place: int) -> Option<Json> {
    match record {
        Json::Array(items) => if items@.len() == 11 {
            Some(items@[place])
        } else {
            None
        },
        _ => record.field(name),
    }
}

/// The text of a field; nothing where the field is missing or something else.
pub open spec fn text_field(record: Json, name: Seq<char>, place: int) -> Option<Seq<char>> {
    match record_field(record, name, place) {
        Some(v) => v.text(),
        None => None,
    }
}

/// The first explorer of a list, by its URL.
pub open spec fn first_explorer(field: Option<Json>) -> Option<Seq<char>> {
    match field {
        Some(Json::Array(items)) => if items@.len() == 0 {
            None
        } else {
            match items@[0] {
                Json::Text(s) => Some(s@),
                Json::Object(_) => match items@[0].field("url"@) {
                    Some(v) => v.text(),
                    None => None,
                },
                _ => None,
            }
        },
        _ => None,
    }
}

/// An endpoint of a record: a URL, or an object with a URL and an optional note on tracking.
pub open spec fn rpc_entry(entry: Json) -> Option<EndpointEntry> {
    match entry {
        Json::Text(s) => Some(EndpointEntry { url: s@, tracking: None }),
        Json::Object(_) => match entry.field("url"@) {
            Some(Json::Text(u)) => match entry.field("tracking"@) {
                None | Some(Json::Null) => Some(EndpointEntry { url: u@, tracking: None }),
                Some(Json::Text(t)) => Some(EndpointEntry { url: u@, tracking: Some(t@) }),
                _ => None,
            },
            _ => None,
        },
        _ => None,
    }
}

pub open spec fn rpc_list(field: Option<Json>) -> Option<Seq<EndpointEntry>> {
    match field {
        Some(Json::Array(items)) => if forall|i: int|
            0 <= i < items@.len() ==> rpc_entry(#[trigger] items@[i]) is Some {
            Some(items@.map_values(|e: Json| rpc_entry(e)->0))
        } else {
            None
        },
        _ => None,
    }
}

/// What a record says of a chain, endpoints as listed; nothing where it lacks a name, an id or a list
/// of endpoints.
pub open spec fn record_of(record: Json) -> Option<ChainEntry> {
    let name = text_field(record, "name"@, 0);
    let id = match record_field(record, "chainId"@, 1) {
        Some(v) => v.whole(),
        None => None,
    };
    let endpoints = rpc_list(record_field(record, "rpc"@, 10));
    if name is None || id is None || endpoints is None {
        None
    } else {
        Some(
            ChainEntry {
                chain_id: id->0,
                name: name->0,
                short_name: text_field(record, "shortName"@, 2),
                chain: text_field(record, "chain"@, 3),
                slug: text_field(record, "chainSlug"@, 4),
                is_testnet: record_field(record, "isTestnet"@, 5) == Some(Json::Bool(true)),
                native_symbol: match record_field(record, "nativeCurrency"@, 6) {
                    Some(v) => match v.field("symbol"@) {
                        Some(s) => s.text(),
                        None => None,
                    },
                    None => None,
                },
                explorer_url: first_explorer(record_field(record, "explorers"@, 7)),
                status: text_field(record, "status"@, 8),
                tvl: match record_field(record, "tvl"@, 9) {
                    Some(Json::Number(n)) => Some(n),
                    _ => None,
                },
                endpoints: endpoints->0,
            },
        )
    }
}

pub open spec fn lists_url(endpoints: Seq<EndpointEntry>, url: Seq<char>) -> bool {
    exists|i: int| 0 <= i < endpoints.len() && (#[trigger] endpoints[i]).url == url
}

/// The endpoints that are kept of those listed: the public ones in their normal form, each once, with
/// the tracking note of the first listing.
pub open spec fn kept_endpoints(listed: Seq<EndpointEntry>) -> Seq<EndpointEntry>
    decreases listed.len(),
{
    if listed.len() == 0 {
        Seq::empty()
    } else {
        let kept = kept_endpoints(listed.drop_last());
        match url::normal_url(listed.last().url) {
            Some(u) => if lists_url(kept, u) {
                kept
            } else {
                kept.push(EndpointEntry { url: u, tracking: listed.last().tracking })
            },
            None => kept,
        }
    }
}

/// Which chains are taken into the catalog.
pub struct CatalogRule<'a> {
    pub discovery_enabled: bool,
    pub include_testnets: bool,
    pub pinned_chains: &'a HashSet<u64>,
}

/// Pinned chains always; the others only with discovery, and test networks only if wanted.
pub open spec fn admits(
    discovery_enabled: bool,
    include_testnets: bool,
    pinned: Set<u64>,
    entry: ChainEntry,
) -> bool {
    pinned.contains(entry.chain_id) || (discovery_enabled && (include_testnets
        || !entry.is_testnet))
}

/// The chains that are taken from the records, in their order.
pub open spec fn catalog_of(
    records: Seq<Json>,
    discovery_enabled: bool,
    include_testnets: bool,
    pinned: Set<u64>,
) -> Seq<ChainEntry>
    decreases records.len(),
{
    if records.len() == 0 {
        Seq::empty()
    } else {
        let before = catalog_of(records.drop_last(), discovery_enabled, include_testnets, pinned);
        match record_of(records.last()) {
            Some(e) if admits(discovery_enabled, include_testnets, pinned, e) => before.push(
                ChainEntry { endpoints: kept_endpoints(e.endpoints), ..e },
            ),
            _ => before,
        }
    }
}

/// Whether all URLs of a catalog have their normal form.
pub open spec fn holds_normal_urls(catalog: Seq<ChainEntry>) -> bool {
    forall|i: int| 0 <= i < catalog.len() ==> has_normal_urls((#[trigger] catalog[i]).endpoints)
}

pub open spec fn has_normal_urls(endpoints: Seq<EndpointEntry>) -> bool {
    forall|i: int| 0 <= i < endpoints.len() ==> url::is_normal((#[trigger] endpoints[i]).url)
}

/// How many records are not usable.
pub open spec fn unusable(records: Seq<Json>) -> nat {
    records.filter(|r: Json| record_of(r) is None).len()
}

/// The endpoints of the chains of a catalog.
pub open spec fn snapshot_of(catalog: Seq<ChainEntry>, snapshot: ChainlistSnapshot) -> bool {
    &&& snapshot.chains@.len() == catalog.len()
    &&& forall|i: int|
        0 <= i < catalog.len() ==> {
            let c = #[trigger] snapshot.chains@[i];
            &&& c.chain_id == catalog[i].chain_id
            &&& c.name@ == catalog[i].name
            &&& c.endpoints@.map_values(|u: String| u@) == catalog[i].endpoints.map_values(
                |e: EndpointEntry| e.url,
            )
        }
}

fn field_of<'a>(record: &'a Json, name: &str, place: usize) -> (f: Option<&'a Json>)
    requires
        place < 11,
    ensures
        match f {
            Some(v) => record_field(*record, name@, place as int) == Some(*v),
            None => record_field(*record, name@, place as int) is None,
        },
{
    match record {
        Json::Array(items) => if items.len() == 11 {
            Some(&items[place])
        } else {
            None
        },
        _ => record.get(name),
    }
}

fn value_string(record: &Json, name: &str, place: usize) -> (s: Option<String>)
    requires
        place < 11,
    ensures
        characters(s) == text_field(*record, name@, place as int),
{
    match field_of(record, name, place) {
        Some(v) => match v.as_text() {
            Some(t) => Some(t.clone()),
            None => None,
        },
        None => None,
    }
}

fn value_bool(field: Option<&Json>) -> (b: Option<bool>)
    ensures
        b == (match field {
            Some(v) => v.truth(),
            None => None,
        }),
{
    match field {
        Some(v) => v.as_truth(),
        None => None,
    }
}

fn object_string(field: Option<&Json>, key: &str) -> (s: Option<String>)
    ensures
        characters(s) == (match field {
            Some(v) => match v.field(key@) {
                Some(t) => t.text(),
                None => None,
            },
            None => None,
        }),
{
    match field {
        Some(v) => match v.get(key) {
            Some(t) => match t.as_text() {
                Some(s) => Some(s.clone()),
                None => None,
            },
            None => None,
        },
        None => None,
    }
}

/// A field by value, as contracts speak of it.
pub open spec fn owned(field: Option<&Json>) -> Option<Json> {
    match field {
        Some(v) => Some(*v),
        None => None,
    }
}

fn first_explorer_url(field: Option<&Json>) -> (s: Option<String>)
    ensures
        characters(s) == first_explorer(owned(field)),
{
    match field {
        Some(Json::Array(items)) => {
            if items.len() == 0 {
                return None;
            }
            match &items[0] {
                Json::Text(s) => Some(s.clone()),
                Json::Object(_) => object_string(Some(&items[0]), "url"),
                _ => None,
            }
        },
        _ => None,
    }
}

/// One listed endpoint.
struct RpcEntry {
    url: String,
    tracking: Option<String>,
}

impl RpcEntry {
    spec fn view(&self) -> EndpointEntry {
        EndpointEntry { url: self.url@, tracking: characters(self.tracking) }
    }

    fn read(entry: &Json) -> (r: Option<RpcEntry>)
        ensures
            match r {
                Some(e) => rpc_entry(*entry) == Some(e@),
                None => rpc_entry(*entry) is None,
            },
    {
        match entry {
            Json::Text(s) => Some(RpcEntry { url: s.clone(), tracking: None }),
            Json::Object(_) => match entry.get("url") {
                Some(Json::Text(u)) => match entry.get("tracking") {
                    None => Some(RpcEntry { url: u.clone(), tracking: None }),
                    Some(Json::Null) => Some(RpcEntry { url: u.clone(), tracking: None }),
                    Some(Json::Text(t)) => Some(
                        RpcEntry { url: u.clone(), tracking: Some(t.clone()) },
                    ),
                    _ => None,
                },
                _ => None,
            },
            _ => None,
        }
    }

    fn tracking(&self) -> (t: Option<String>)
        ensures
            characters(t) == self@.tracking,
    {
        copy_text(&self.tracking)
    }
}

fn read_rpc_list(field: Option<&Json>) -> (r: Option<Vec<RpcEntry>>)
    ensures
        match r {
            Some(v) => rpc_list(owned(field)) == Some(v@.map_values(|e: RpcEntry| e@)),
            None => rpc_list(owned(field)) is None,
        },
{
    match field {
        Some(Json::Array(items)) => {
            let mut v: Vec<RpcEntry> = Vec::new();
            let mut i: usize = 0;
            while i < items.len()
                invariant
                    i <= items@.len(),
                    v@.len() == i,
                    owned(field) == Some(Json::Array(*items)),
                    forall|k: int| 0 <= k < i ==> rpc_entry(#[trigger] items@[k]) == Some(v@[k]@),
                decreases items@.len() - i,
            {
                match RpcEntry::read(&items[i]) {
                    Some(e) => {
                        v.push(e);
                    },
                    None => {
                        assert(rpc_entry(items@[i as int]) is None);
                        return None;
                    },
                }
                i = i + 1;
            }
            assert(v@.map_values(|e: RpcEntry| e@) =~= items@.map_values(
                |e: Json| rpc_entry(e)->0,
            ));
            Some(v)
        },
        _ => None,
    }
}

fn keep_endpoints(listed: Vec<RpcEntry>) -> (kept: Vec<CatalogEndpoint>)
    ensures
        endpoint_views(kept@) == kept_endpoints(listed@.map_values(|e: RpcEntry| e@)),
        has_normal_urls(endpoint_views(kept@)),
{
    let ghost all = listed@.map_values(|e: RpcEntry| e@);
    let mut kept: Vec<CatalogEndpoint> = Vec::new();
    let mut i: usize = 0;
    proof {
        assert(all.take(0) =~= Seq::<EndpointEntry>::empty());
        assert(endpoint_views(kept@) =~= kept_endpoints(all.take(0)));
    }
    while i < listed.len()
        invariant
            i <= listed@.len(),
            all == listed@.map_values(|e: RpcEntry| e@),
            endpoint_views(kept@) == kept_endpoints(all.take(i as int)),
            has_normal_urls(endpoint_views(kept@)),
        decreases listed@.len() - i,
    {
        let ghost before = endpoint_views(kept@);
        proof {
            assert(all.take(i + 1).drop_last() =~= all.take(i as int));
            assert(all.take(i + 1).last() == listed@[i as int]@);
        }
        match url::normalize_public_https_url(listed[i].url.as_str()) {
            Some(u) => {
                if !has_url(&kept, u.as_str()) {
                    let e = CatalogEndpoint { url: u, tracking: listed[i].tracking() };
                    let ghost entry = e@;
                    kept.push(e);
                    assert(endpoint_views(kept@) =~= before.push(entry));
                }
            },
            None => {},
        }
        i = i + 1;
    }
    assert(all.take(all.len() as int) =~= all);
    kept
}

/// Whether one of the endpoints has the given URL.
pub fn has_url(endpoints: &Vec<CatalogEndpoint>, url: &str) -> (r: bool)
    ensures
        r == lists_url(endpoint_views(endpoints@), url@),
{
    let mut i: usize = 0;
    while i < endpoints.len()
        invariant
            i <= endpoints@.len(),
            forall|k: int| 0 <= k < i ==> (#[trigger] endpoint_views(endpoints@)[k]).url != url@,
        decreases endpoints@.len() - i,
    {
        assert(endpoint_views(endpoints@)[i as int] == endpoints@[i as int]@);
        if text::same(endpoints[i].url.as_str(), url) {
            return true;
        }
        i = i + 1;
    }
    false
}

/// Whether a pinned chain, or one that discovery lets in, is meant.
fn is_admitted(rule: &CatalogRule, chain_id: u64, is_testnet: bool) -> (r: bool)
    ensures
        r == (rule.pinned_chains@.contains(chain_id) || (rule.discovery_enabled && (
        rule.include_testnets || !is_testnet))),
{
    rule.pinned_chains.contains(&chain_id) || (rule.discovery_enabled && (rule.include_testnets
        || !is_testnet))
}

/// What one record adds to the catalog.
enum RecordOutcome {
    Unusable,
    Left,
    Taken(CatalogChain),
}

/// Reads one record and decides whether it is taken.
fn read_record(record: &Json, rule: &CatalogRule) -> (r: RecordOutcome)
    ensures
        match r {
            RecordOutcome::Unusable => record_of(*record) is None,
            RecordOutcome::Left => record_of(*record) matches Some(e) && !admits(
                rule.discovery_enabled,
                rule.include_testnets,
                rule.pinned_chains@,
                e,
            ),
            RecordOutcome::Taken(c) => record_of(*record) matches Some(e) && admits(
                rule.discovery_enabled,
                rule.include_testnets,
                rule.pinned_chains@,
                e,
            ) && c@ == (ChainEntry { endpoints: kept_endpoints(e.endpoints), ..e })
                && has_normal_urls(c@.endpoints),
        },
{
    let name = match value_string(record, "name", 0) {
        Some(s) => s,
        None => {
            return RecordOutcome::Unusable;
        },
    };
    let chain_id: u64 = match field_of(record, "chainId", 1) {
        Some(v) => match v.as_whole() {
            Some(n) => n,
            None => {
                return RecordOutcome::Unusable;
            },
        },
        None => {
            return RecordOutcome::Unusable;
        },
    };
    let listed = match read_rpc_list(field_of(record, "rpc", 10)) {
        Some(v) => v,
        None => {
            return RecordOutcome::Unusable;
        },
    };
    let is_testnet: bool = match value_bool(field_of(record, "isTestnet", 5)) {
        Some(b) => b,
        None => false,
    };
    if !is_admitted(rule, chain_id, is_testnet) {
        return RecordOutcome::Left;
    }
    let tvl: Option<Number> = match field_of(record, "tvl", 9) {
        Some(Json::Number(n)) => Some(*n),
        _ => None,
    };
    let chain = CatalogChain {
        chain_id,
        name,
        short_name: value_string(record, "shortName", 2),
        chain: value_string(record, "chain", 3),
        slug: value_string(record, "chainSlug", 4),
        is_testnet,
        native_symbol: object_string(field_of(record, "nativeCurrency", 6), "symbol"),
        explorer_url: first_explorer_url(field_of(record, "explorers", 7)),
        status: value_string(record, "status", 8),
        tvl,
        endpoints: keep_endpoints(listed),
    };
    RecordOutcome::Taken(chain)
}

fn index_chains(chains: &Vec<CatalogChain>) -> (by_id: HashMap<u64, usize>)
    ensures
        by_id@ == places(chains@),
{
    let mut by_id: HashMap<u64, usize> = HashMap::new();
    let mut i: usize = 0;
    assert(chains@.take(0) =~= Seq::<CatalogChain>::empty());
    while i < chains.len()
        invariant
            i <= chains@.len(),
            by_id@ == places(chains@.take(i as int)),
        decreases chains@.len() - i,
    {
        assert(chains@.take(i + 1).drop_last() =~= chains@.take(i as int));
        by_id.insert(chains[i].chain_id, i);
        i = i + 1;
    }
    assert(chains@.take(chains@.len() as int) =~= chains@);
    by_id
}

fn endpoint_urls(endpoints: &Vec<CatalogEndpoint>) -> (v: Vec<String>)
    ensures
        v@.map_values(|u: String| u@) == endpoint_views(endpoints@).map_values(
            |e: EndpointEntry| e.url,
        ),
{
    let mut v: Vec<String> = Vec::new();
    let mut i: usize = 0;
    while i < endpoints.len()
        invariant
            i <= endpoints@.len(),
            v@.len() == i,
            forall|k: int| 0 <= k < i ==> (#[trigger] v@[k])@ == endpoints@[k].url@,
        decreases endpoints@.len() - i,
    {
        v.push(endpoints[i].url.clone());
        i = i + 1;
    }
    assert(v@.map_values(|u: String| u@) =~= endpoint_views(endpoints@).map_values(
        |e: EndpointEntry| e.url,
    ));
    v
}

fn take_snapshot(chains: &Vec<CatalogChain>) -> (s: ChainlistSnapshot)
    ensures
        snapshot_of(chain_views(chains@), s),
{
    let mut v: Vec<ChainEndpoints> = Vec::new();
    let mut i: usize = 0;
    let ghost views = chain_views(chains@);
    while i < chains.len()
        invariant
            i <= chains@.len(),
            views == chain_views(chains@),
            v@.len() == i,
            forall|k: int|
                0 <= k < i ==> {
                    let c = #[trigger] v@[k];
                    &&& c.chain_id == views[k].chain_id
                    &&& c.name@ == views[k].name
                    &&& c.endpoints@.map_values(|u: String| u@) == views[k].endpoints.map_values(
                        |e: EndpointEntry| e.url,
                    )
                },
        decreases chains@.len() - i,
    {
        let c = &chains[i];
        assert(views[i as int] == c@);
        v.push(
            ChainEndpoints {
                chain_id: c.chain_id,
                name: c.name.clone(),
                endpoints: endpoint_urls(&c.endpoints),
            },
        );
        i = i + 1;
    }
    ChainlistSnapshot { chains: v }
}

/// How a catalog, its snapshot and its counts come out of the records of a chain list.
pub open spec fn catalog_read(
    records: Seq<Json>,
    discovery_enabled: bool,
    include_testnets: bool,
    pinned: Set<u64>,
    catalog: Catalog,
    snapshot: ChainlistSnapshot,
    stats: CatalogParseStats,
) -> bool {
    &&& catalog@ == catalog_of(records, discovery_enabled, include_testnets, pinned)
    &&& catalog.wf()
    &&& holds_normal_urls(catalog@)
    &&& snapshot_of(catalog@, snapshot)
    &&& stats.records_total == records.len()
    &&& stats.records_accepted == catalog@.len()
    &&& stats.records_skipped == unusable(records)
}

/// Reads a catalog from a document.
pub fn read_catalog(
    doc: &Json,
    discovery_enabled: bool,
    include_testnets: bool,
    pinned_chains: &HashSet<u64>,
) -> (r: Result<(Catalog, ChainlistSnapshot, CatalogParseStats), CatalogFault>)
    ensures
        match r {
            Ok((catalog, snapshot, stats)) => records_of(*doc) is Ok && catalog_read(
                records_of(*doc)->Ok_0,
                discovery_enabled,
                include_testnets,
                pinned_chains@,
                catalog,
                snapshot,
                stats,
            ),
            Err(f) => records_of(*doc) == Err::<Seq<Json>, CatalogFault>(f),
        },
{
    let records: &Vec<Json> = match doc {
        Json::Array(items) => items,
        Json::Object(_) => match doc.get("chains") {
            Some(Json::Array(items)) => items,
            _ => {
                return Err(CatalogFault::NoChainsArray);
            },
        },
        _ => {
            return Err(CatalogFault::NoList);
        },
    };
    let rule = CatalogRule { discovery_enabled, include_testnets, pinned_chains };
    let ghost bad = |r: Json| record_of(r) is None;
    let mut chains: Vec<CatalogChain> = Vec::new();
    let mut skipped: usize = 0;
    let mut i: usize = 0;
    proof {
        assert(records@.take(0) =~= Seq::<Json>::empty());
        assert(chain_views(chains@) =~= Seq::<ChainEntry>::empty());
        reveal(Seq::filter);
    }
    while i < records.len()
        invariant
            i <= records@.len(),
            rule.discovery_enabled == discovery_enabled,
            rule.include_testnets == include_testnets,
            rule.pinned_chains@ == pinned_chains@,
            bad == (|r: Json| record_of(r) is None),
            chain_views(chains@) == catalog_of(
                records@.take(i as int),
                discovery_enabled,
                include_testnets,
                pinned_chains@,
            ),
            holds_normal_urls(chain_views(chains@)),
            skipped == records@.take(i as int).filter(bad).len(),
            skipped <= i,
        decreases records@.len() - i,
    {
        let ghost before = chain_views(chains@);
        proof {
            assert(records@.take(i + 1).drop_last() =~= records@.take(i as int));
            assert(records@.take(i + 1).last() == records@[i as int]);
            reveal(Seq::filter);
        }
        match read_record(&records[i], &rule) {
            RecordOutcome::Unusable => {
                skipped = skipped + 1;
            },
            RecordOutcome::Left => {},
            RecordOutcome::Taken(chain) => {
                let ghost entry = chain@;
                chains.push(chain);
                assert(chain_views(chains@) =~= before.push(entry));
            },
        }
        i = i + 1;
    }
    assert(records@.take(records@.len() as int) =~= records@);
    let by_id = index_chains(&chains);
    let snapshot = take_snapshot(&chains);
    let stats = CatalogParseStats {
        records_total: records.len(),
        records_accepted: chains.len(),
        records_skipped: skipped,
    };
    Ok((Catalog { chains, by_id }, snapshot, stats))
}

/// The records of a chain list text.
pub open spec fn text_records(bytes: Seq<u8>) -> Result<Seq<Json>, CatalogFault> {
    match json::json_document(bytes) {
        None => Err(CatalogFault::InvalidJson),
        Some(doc) => records_of(doc),
    }
}

/// Reads a catalog from a chain list text, with counts.
pub fn parse_catalog_with_stats(
    bytes: &[u8],
    discovery_enabled: bool,
    include_testnets: bool,
    pinned_chains: &HashSet<u64>,
) -> (r: Result<(Catalog, ChainlistSnapshot, CatalogParseStats), CatalogFault>)
    ensures
        match r {
            Ok((catalog, snapshot, stats)) => text_records(bytes@) is Ok && catalog_read(
                text_records(bytes@)->Ok_0,
                discovery_enabled,
                include_testnets,
                pinned_chains@,
                catalog,
                snapshot,
                stats,
            ),
            Err(f) => text_records(bytes@) == Err::<Seq<Json>, CatalogFault>(f),
        },
{
    match json::parse_json(bytes) {
        Some(doc) => read_catalog(&doc, discovery_enabled, include_testnets, pinned_chains),
        None => Err(CatalogFault::InvalidJson),
    }
}

/// Reads a catalog from a chain list text.
pub fn parse_catalog(
    bytes: &[u8],
    discovery_enabled: bool,
    include_testnets: bool,
    pinned_chains: &HashSet<u64>,
) -> (r: Result<(Catalog, ChainlistSnapshot), CatalogFault>)
    ensures
        match r {
            Ok((catalog, snapshot)) => text_records(bytes@) is Ok && catalog@ == catalog_of(
                text_records(bytes@)->Ok_0,
                discovery_enabled,
                include_testnets,
                pinned_chains@,
            ) && catalog.wf() && holds_normal_urls(catalog@) && snapshot_of(catalog@, snapshot),
            Err(f) => text_records(bytes@) == Err::<Seq<Json>, CatalogFault>(f),
        },
{
    match parse_catalog_with_stats(bytes, discovery_enabled, include_testnets, pinned_chains) {
        Ok((catalog, snapshot, _)) => Ok((catalog, snapshot)),
        Err(f) => Err(f),
    }
}

/// The endpoints of the allowed chains only.
pub fn parse_and_filter(bytes: &[u8], allowed_chains: &HashSet<u64>) -> (r: Result<
    ChainlistSnapshot,
    CatalogFault,
>)
    ensures
        match r {
            Ok(snapshot) => text_records(bytes@) is Ok && snapshot_of(
                catalog_of(text_records(bytes@)->Ok_0, false, true, allowed_chains@),
                snapshot,
            ),
            Err(f) => text_records(bytes@) == Err::<Seq<Json>, CatalogFault>(f),
        },
{
    match parse_catalog(bytes, false, true, allowed_chains) {
        Ok((_, snapshot)) => Ok(snapshot),
        Err(f) => Err(f),
    }
}

/// Endpoints that are kept have their normal form, and no URL is kept twice.
pub proof fn lemma_kept_endpoints(listed: Seq<EndpointEntry>)
    ensures
        forall|i: int|
            0 <= i < kept_endpoints(listed).len() ==> exists|j: int|
                0 <= j < listed.len() && url::normal_url((#[trigger] listed[j]).url) == Some(
                    (#[trigger] kept_endpoints(listed)[i]).url,
                ),
        forall|i: int, j: int|
            0 <= i < j < kept_endpoints(listed).len() ==> (#[trigger] kept_endpoints(
                listed,
            )[i]).url != (#[trigger] kept_endpoints(listed)[j]).url,
    decreases listed.len(),
{
    if listed.len() > 0 {
        let p = listed.drop_last();
        lemma_kept_endpoints(p);
        assert forall|i: int| 0 <= i < kept_endpoints(listed).len() implies exists|j: int|
            0 <= j < listed.len() && url::normal_url((#[trigger] listed[j]).url) == Some(
                (#[trigger] kept_endpoints(listed)[i]).url,
            ) by {
            if i < kept_endpoints(p).len() {
                let j = choose|j: int|
                    0 <= j < p.len() && url::normal_url((#[trigger] p[j]).url) == Some(
                        kept_endpoints(p)[i].url,
                    );
                assert(listed[j] == p[j]);
            } else {
                assert(url::normal_url(listed[listed.len() - 1].url) == Some(
                    kept_endpoints(listed)[i].url,
                ));
            }
        }
    }
}

/// No chain of a catalog that was read has a URL twice.
pub proof fn lemma_urls_are_kept_once(
    records: Seq<Json>,
    discovery_enabled: bool,
    include_testnets: bool,
    pinned: Set<u64>,
    n: int,
    i: int,
    j: int,
)
    requires
        0 <= n < catalog_of(records, discovery_enabled, include_testnets, pinned).len(),
        0 <= i < j < catalog_of(
            records,
            discovery_enabled,
            include_testnets,
            pinned,
        )[n].endpoints.len(),
    ensures
        ({
            let e = catalog_of(records, discovery_enabled, include_testnets, pinned)[n].endpoints;
            e[i].url != e[j].url
        }),
    decreases records.len(),
{
    let p = records.drop_last();
    let before = catalog_of(p, discovery_enabled, include_testnets, pinned);
    if n < before.len() {
        lemma_urls_are_kept_once(p, discovery_enabled, include_testnets, pinned, n, i, j);
    } else {
        lemma_kept_endpoints(record_of(records.last())->0.endpoints);
    }
}

/// A public endpoint of the list is always among those kept.
pub proof fn lemma_public_endpoint_is_kept(listed: Seq<EndpointEntry>, i: int)
    requires
        0 <= i < listed.len(),
    ensures
        url::normal_url(listed[i].url) matches Some(u) ==> lists_url(kept_endpoints(listed), u),
    decreases listed.len(),
{
    let p = listed.drop_last();
    if url::normal_url(listed[i].url) is Some {
        let u = url::normal_url(listed[i].url)->0;
        if i < p.len() {
            lemma_public_endpoint_is_kept(p, i);
            assert(p[i] == listed[i]);
            let k = choose|k: int| 0 <= k < kept_endpoints(p).len() && (#[trigger] kept_endpoints(p)[k]).url == u;
            assert(kept_endpoints(listed)[k] == kept_endpoints(p)[k]);
        } else if !lists_url(kept_endpoints(p), u) {
            let k = kept_endpoints(p).len() as int;
            assert(kept_endpoints(listed)[k].url == u);
        }
    }
}

/// Without discovery the catalog holds pinned chains only; without test networks it holds no test
/// network that is not pinned.
pub proof fn lemma_catalog_obeys_rule(
    records: Seq<Json>,
    discovery_enabled: bool,
    include_testnets: bool,
    pinned: Set<u64>,
)
    ensures
        forall|i: int|
            #![trigger catalog_of(records, discovery_enabled, include_testnets, pinned)[i]]
            0 <= i < catalog_of(records, discovery_enabled, include_testnets, pinned).len() ==> {
                let e = catalog_of(records, discovery_enabled, include_testnets, pinned)[i];
                &&& !discovery_enabled ==> pinned.contains(e.chain_id)
                &&& !include_testnets && e.is_testnet ==> pinned.contains(e.chain_id)
            },
    decreases records.len(),
{
    if records.len() > 0 {
        lemma_catalog_obeys_rule(records.drop_last(), discovery_enabled, include_testnets, pinned);
    }
}

/// Every usable record of a chain that the rule admits is in the catalog; a pinned chain always is.
pub proof fn lemma_admitted_record_is_in_catalog(
    records: Seq<Json>,
    discovery_enabled: bool,
    include_testnets: bool,
    pinned: Set<u64>,
    i: int,
)
    requires
        0 <= i < records.len(),
        record_of(records[i]) is Some,
        admits(discovery_enabled, include_testnets, pinned, record_of(records[i])->0),
    ensures
        ({
            let e = record_of(records[i])->0;
            catalog_of(records, discovery_enabled, include_testnets, pinned).contains(
                ChainEntry { endpoints: kept_endpoints(e.endpoints), ..e },
            )
        }),
    decreases records.len(),
{
    let p = records.drop_last();
    let e = record_of(records[i])->0;
    let entry = ChainEntry { endpoints: kept_endpoints(e.endpoints), ..e };
    let before = catalog_of(p, discovery_enabled, include_testnets, pinned);
    let all = catalog_of(records, discovery_enabled, include_testnets, pinned);
    if i < p.len() {
        assert(p[i] == records[i]);
        lemma_admitted_record_is_in_catalog(p, discovery_enabled, include_testnets, pinned, i);
        let k = choose|k: int| 0 <= k < before.len() && before[k] == entry;
        assert(all[k] == entry);
    } else {
        assert(all[all.len() - 1] == entry);
    }
}

/// Looking up the id of a chain of a catalog that was read finds a chain with that id, and looking up
/// any other id finds nothing.
pub proof fn lemma_lookup_finds_chains(catalog: Catalog, chain_id: u64)
    requires
        catalog.wf(),
        catalog.chains@.len() <= usize::MAX,
    ensures
        catalog.place(chain_id) is Some <==> exists|i: int|
            0 <= i < catalog.chains@.len() && (#[trigger] catalog.chains@[i]).chain_id == chain_id,
        catalog.place(chain_id) matches Some(i) ==> catalog.chains@[i].chain_id == chain_id,
{
    lemma_places(catalog.chains@);
}

} // verus!
