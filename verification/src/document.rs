//! Writing a catalog as a chain list document, from which the same catalog can be read again.
use crate::chainlist::{Catalog, CatalogChain, CatalogEndpoint};
use crate::json::{Json, Number};
use vstd::prelude::*;

verus! {

/// An optional text as a document.
pub open spec fn is_text_or_null(j: Json, s: Option<String>) -> bool {
    match s {
        Some(t) => j == Json::Text(t),
        None => j == Json::Null,
    }
}

fn text_or_null(s: &Option<String>) -> (j: Json)
    ensures
        is_text_or_null(j, *s),
{
    match s {
        Some(t) => Json::Text(t.clone()),
        None => Json::Null,
    }
}

/// An object with one field.
pub open spec fn is_single(j: Json, name: Seq<char>, value: Json) -> bool {
    j matches Json::Object(fields) && fields@.len() == 1 && fields@[0].0@ == name && fields@[0].1
        == value
}

fn single(name: &str, value: Json) -> (j: Json)
    ensures
        is_single(j, name@, value),
{
    let mut fields: Vec<(String, Json)> = Vec::new();
    fields.push((name.to_owned(), value));
    Json::Object(fields)
}

/// An endpoint as a document: its URL, or an object where something is known of tracking.
pub open spec fn is_endpoint(j: Json, e: CatalogEndpoint) -> bool {
    match e.tracking {
        None => j == Json::Text(e.url),
        Some(t) => j matches Json::Object(fields) && fields@.len() == 2 && fields@[0].0@
            == "tracking"@ && fields@[0].1 == Json::Text(t) && fields@[1].0@ == "url"@
            && fields@[1].1 == Json::Text(e.url),
    }
}

fn endpoint_document(e: &CatalogEndpoint) -> (j: Json)
    ensures
        is_endpoint(j, *e),
{
    match &e.tracking {
        None => Json::Text(e.url.clone()),
        Some(t) => {
            let mut fields: Vec<(String, Json)> = Vec::new();
            fields.push(("tracking".to_owned(), Json::Text(t.clone())));
            fields.push(("url".to_owned(), Json::Text(e.url.clone())));
            Json::Object(fields)
        },
    }
}

pub open spec fn is_endpoint_list(j: Json, endpoints: Seq<CatalogEndpoint>) -> bool {
    j matches Json::Array(items) && items@.len() == endpoints.len() && forall|i: int|
        0 <= i < endpoints.len() ==> is_endpoint(#[trigger] items@[i], endpoints[i])
}

fn endpoint_list(endpoints: &Vec<CatalogEndpoint>) -> (j: Json)
    ensures
        is_endpoint_list(j, endpoints@),
{
    let mut items: Vec<Json> = Vec::new();
    let mut i: usize = 0;
    while i < endpoints.len()
        invariant
            i <= endpoints@.len(),
            items@.len() == i,
            forall|k: int| 0 <= k < i ==> is_endpoint(#[trigger] items@[k], endpoints@[k]),
        decreases endpoints@.len() - i,
    {
        items.push(endpoint_document(&endpoints[i]));
        i = i + 1;
    }
    Json::Array(items)
}

/// The explorer of a chain as a list of at most one.
pub open spec fn is_explorer_list(j: Json, explorer: Option<String>) -> bool {
    j matches Json::Array(items) && match explorer {
        None => items@.len() == 0,
        Some(u) => items@.len() == 1 && is_single(items@[0], "url"@, Json::Text(u)),
    }
}

/// The currency of a chain by its symbol.
pub open spec fn is_currency(j: Json, symbol: Option<String>) -> bool {
    match symbol {
        None => j == Json::Null,
        Some(s) => is_single(j, "symbol"@, Json::Text(s)),
    }
}

pub open spec fn is_number_or_null(j: Json, n: Option<Number>) -> bool {
    match n {
        Some(v) => j == Json::Number(v),
        None => j == Json::Null,
    }
}

/// The names of the fields of a chain's record, in their order.
pub open spec fn record_names() -> Seq<Seq<char>> {
    seq![
        "chain"@,
        "chainId"@,
        "chainSlug"@,
        "explorers"@,
        "isTestnet"@,
        "name"@,
        "nativeCurrency"@,
        "rpc"@,
        "shortName"@,
        "status"@,
        "tvl"@,
    ]
}

/// A chain as a record of a chain list.
pub open spec fn is_record(j: Json, c: CatalogChain) -> bool {
    j matches Json::Object(fields) && {
        &&& fields@.len() == 11
        &&& fields@.map_values(|f: (String, Json)| f.0@) == record_names()
        &&& is_text_or_null(fields@[0].1, c.chain)
        &&& fields@[1].1 == Json::Number(Number::PosInt(c.chain_id))
        &&& is_text_or_null(fields@[2].1, c.slug)
        &&& is_explorer_list(fields@[3].1, c.explorer_url)
        &&& fields@[4].1 == Json::Bool(c.is_testnet)
        &&& fields@[5].1 == Json::Text(c.name)
        &&& is_currency(fields@[6].1, c.native_symbol)
        &&& is_endpoint_list(fields@[7].1, c.endpoints@)
        &&& is_text_or_null(fields@[8].1, c.short_name)
        &&& is_text_or_null(fields@[9].1, c.status)
        &&& is_number_or_null(fields@[10].1, c.tvl)
    }
}

fn record_document(c: &CatalogChain) -> (j: Json)
    ensures
        is_record(j, *c),
{
    let mut explorers: Vec<Json> = Vec::new();
    if let Some(u) = &c.explorer_url {
        explorers.push(single("url", Json::Text(u.clone())));
    }
    let currency: Json = match &c.native_symbol {
        Some(s) => single("symbol", Json::Text(s.clone())),
        None => Json::Null,
    };
    let tvl: Json = match c.tvl {
        Some(n) => Json::Number(n),
        None => Json::Null,
    };
    let mut fields: Vec<(String, Json)> = Vec::new();
    fields.push(("chain".to_owned(), text_or_null(&c.chain)));
    fields.push(("chainId".to_owned(), Json::Number(Number::PosInt(c.chain_id))));
    fields.push(("chainSlug".to_owned(), text_or_null(&c.slug)));
    fields.push(("explorers".to_owned(), Json::Array(explorers)));
    fields.push(("isTestnet".to_owned(), Json::Bool(c.is_testnet)));
    fields.push(("name".to_owned(), Json::Text(c.name.clone())));
    fields.push(("nativeCurrency".to_owned(), currency));
    fields.push(("rpc".to_owned(), endpoint_list(&c.endpoints)));
    fields.push(("shortName".to_owned(), text_or_null(&c.short_name)));
    fields.push(("status".to_owned(), text_or_null(&c.status)));
    fields.push(("tvl".to_owned(), tvl));
    assert(fields@.map_values(|f: (String, Json)| f.0@) =~= record_names());
    Json::Object(fields)
}

/// A catalog as a chain list document.
pub open spec fn is_document(j: Json, chains: Seq<CatalogChain>) -> bool {
    j matches Json::Array(items) && items@.len() == chains.len() && forall|i: int|
        0 <= i < chains.len() ==> is_record(#[trigger] items@[i], chains[i])
}

/// Writes a catalog as a chain list document.
pub fn catalog_document(catalog: &Catalog) -> (j: Json)
    ensures
        is_document(j, catalog.chains@),
{
    let mut items: Vec<Json> = Vec::new();
    let mut i: usize = 0;
    while i < catalog.chains.len()
        invariant
            i <= catalog.chains@.len(),
            items@.len() == i,
            forall|k: int| 0 <= k < i ==> is_record(#[trigger] items@[k], catalog.chains@[k]),
        decreases catalog.chains@.len() - i,
    {
        items.push(record_document(&catalog.chains[i]));
        i = i + 1;
    }
    Json::Array(items)
}

/// Endpoints that are kept as they are when they are read: each in its normal form, none twice.
pub open spec fn settled(endpoints: Seq<crate::chainlist::EndpointEntry>) -> bool {
    &&& forall|i: int|
        0 <= i < endpoints.len() ==> crate::url::normal_url((#[trigger] endpoints[i]).url) == Some(
            endpoints[i].url,
        )
    &&& forall|i: int, j: int|
        0 <= i < j < endpoints.len() ==> (#[trigger] endpoints[i]).url
            != (#[trigger] endpoints[j]).url
}

proof fn lemma_settled_are_kept(endpoints: Seq<crate::chainlist::EndpointEntry>)
    requires
        settled(endpoints),
    ensures
        crate::chainlist::kept_endpoints(endpoints) == endpoints,
    decreases endpoints.len(),
{
    if endpoints.len() > 0 {
        let p = endpoints.drop_last();
        assert(settled(p)) by {
            assert forall|i: int| 0 <= i < p.len() implies crate::url::normal_url(
                (#[trigger] p[i]).url,
            ) == Some(p[i].url) by {
                assert(p[i] == endpoints[i]);
            }
            assert forall|i: int, j: int| 0 <= i < j < p.len() implies (#[trigger] p[i]).url
                != (#[trigger] p[j]).url by {
                assert(p[i] == endpoints[i] && p[j] == endpoints[j]);
            }
        }
        lemma_settled_are_kept(p);
        let last = endpoints[endpoints.len() - 1];
        assert(!crate::chainlist::lists_url(p, last.url)) by {
            assert forall|k: int| 0 <= k < p.len() implies (#[trigger] p[k]).url != last.url by {
                assert(p[k] == endpoints[k]);
            }
        }
        assert(endpoints =~= p.push(last));
    } else {
        assert(crate::chainlist::kept_endpoints(endpoints) =~= endpoints);
    }
}

proof fn lemma_lookup_at(fields: Seq<(String, Json)>, at: int)
    requires
        0 <= at < fields.len(),
        forall|i: int| 0 <= i < at ==> (#[trigger] fields[i]).0@ != fields[at].0@,
    ensures
        crate::json::lookup(fields, fields[at].0@) == Some(fields[at].1),
    decreases at,
{
    if at > 0 {
        assert(fields[0].0@ != fields[at].0@);
        let rest = fields.skip(1);
        assert forall|i: int| 0 <= i < at - 1 implies (#[trigger] rest[i]).0@ != rest[at - 1].0@ by {
            assert(rest[i] == fields[i + 1]);
        }
        lemma_lookup_at(rest, at - 1);
    }
}

proof fn lemma_names_differ()
    ensures
        forall|i: int, j: int|
            0 <= i < j < 11 ==> #[trigger] record_names()[i] != #[trigger] record_names()[j],
{
    reveal_strlit("chain");
    reveal_strlit("chainId");
    reveal_strlit("chainSlug");
    reveal_strlit("explorers");
    reveal_strlit("isTestnet");
    reveal_strlit("name");
    reveal_strlit("nativeCurrency");
    reveal_strlit("rpc");
    reveal_strlit("shortName");
    reveal_strlit("status");
    reveal_strlit("tvl");
    let n = record_names();
    assert(n[0].len() == 5 && n[1].len() == 7 && n[2].len() == 9 && n[3].len() == 9 && n[4].len()
        == 9 && n[5].len() == 4 && n[6].len() == 14 && n[7].len() == 3 && n[8].len() == 9
        && n[9].len() == 6 && n[10].len() == 3);
    assert(n[2][0] == 'c' && n[3][0] == 'e' && n[4][0] == 'i' && n[8][0] == 's');
    assert(n[7][0] == 'r' && n[10][0] == 't');
}

proof fn lemma_fields(fields: Seq<(String, Json)>)
    requires
        fields.len() == 11,
        fields.map_values(|f: (String, Json)| f.0@) == record_names(),
    ensures
        forall|at: int|
            0 <= at < 11 ==> crate::json::lookup(fields, #[trigger] record_names()[at]) == Some(
                fields[at].1,
            ),
{
    lemma_names_differ();
    assert forall|at: int| 0 <= at < 11 implies crate::json::lookup(
        fields,
        #[trigger] record_names()[at],
    ) == Some(fields[at].1) by {
        let names = fields.map_values(|f: (String, Json)| f.0@);
        assert(names[at] == fields[at].0@);
        assert forall|i: int| 0 <= i < at implies (#[trigger] fields[i]).0@ != fields[at].0@ by {
            assert(names[i] == fields[i].0@);
            assert(record_names()[i] != record_names()[at]);
        }
        lemma_lookup_at(fields, at);
    }
}

proof fn lemma_single(j: Json, name: Seq<char>, value: Json)
    requires
        is_single(j, name, value),
    ensures
        j.field(name) == Some(value),
{
}

proof fn lemma_endpoint(j: Json, e: CatalogEndpoint)
    requires
        is_endpoint(j, e),
    ensures
        crate::chainlist::rpc_entry(j) == Some(e@),
{
    reveal_strlit("tracking");
    reveal_strlit("url");
    if e.tracking is Some {
        let fields = j->Object_0@;
        assert("tracking"@.len() != "url"@.len());
        lemma_lookup_at(fields, 0);
        lemma_lookup_at(fields, 1);
    }
}

/// A record that was written for a chain says of it what the chain holds.
pub proof fn lemma_record_round_trip(j: Json, c: CatalogChain)
    requires
        is_record(j, c),
    ensures
        crate::chainlist::record_of(j) == Some(c@),
{
    let fields = j->Object_0@;
    lemma_fields(fields);
    let n = record_names();
    assert(n[0] == "chain"@ && n[1] == "chainId"@ && n[2] == "chainSlug"@ && n[3] == "explorers"@
        && n[4] == "isTestnet"@ && n[5] == "name"@ && n[6] == "nativeCurrency"@ && n[7] == "rpc"@
        && n[8] == "shortName"@ && n[9] == "status"@ && n[10] == "tvl"@);
    let listed = fields[7].1;
    let items = listed->Array_0@;
    assert forall|i: int| 0 <= i < items.len() implies crate::chainlist::rpc_entry(
        #[trigger] items[i],
    ) == Some(c.endpoints@[i]@) by {
        lemma_endpoint(items[i], c.endpoints@[i]);
    }
    assert(items.map_values(|e: Json| crate::chainlist::rpc_entry(e)->0)
        =~= crate::chainlist::endpoint_views(c.endpoints@));
    if c.native_symbol is Some {
        lemma_single(fields[6].1, "symbol"@, Json::Text(c.native_symbol->0));
    }
    if c.explorer_url is Some {
        lemma_single(fields[3].1->Array_0@[0], "url"@, Json::Text(c.explorer_url->0));
    }
    assert(crate::chainlist::record_of(j)->0 == c@);
}

/// Reading the document that was written for a catalog gives the same catalog again, chain by chain and
/// with the same index, by any rule that admits its chains. The catalog is one that was read itself, so
/// that its URLs have their normal form; a URL that holds a template is not read.
pub proof fn lemma_document_round_trip(
    records: Seq<Json>,
    discovery_enabled: bool,
    include_testnets: bool,
    pinned: Set<u64>,
    catalog: Catalog,
    j: Json,
    discovery_again: bool,
    testnets_again: bool,
    pinned_again: Set<u64>,
    again: Catalog,
)
    requires
        catalog@ == crate::chainlist::catalog_of(
            records,
            discovery_enabled,
            include_testnets,
            pinned,
        ),
        catalog.wf(),
        crate::chainlist::holds_normal_urls(catalog@),
        is_document(j, catalog.chains@),
        forall|i: int|
            0 <= i < catalog@.len() ==> free_of_templates((#[trigger] catalog@[i]).endpoints)
                && crate::chainlist::admits(
                discovery_again,
                testnets_again,
                pinned_again,
                catalog@[i],
            ),
    ensures
        crate::chainlist::records_of(j) is Ok,
        crate::chainlist::catalog_of(
            crate::chainlist::records_of(j)->Ok_0,
            discovery_again,
            testnets_again,
            pinned_again,
        ) == catalog@,
        again@ == catalog@ && again.wf() ==> again.by_id@ == catalog.by_id@,
{
    let items = j->Array_0@;
    let chains = catalog.chains@;
    assert forall|n: int| 0 <= n < chains.len() implies settled((#[trigger] chains[n])@.endpoints)
        && crate::chainlist::admits(
        discovery_again,
        testnets_again,
        pinned_again,
        chains[n]@,
    ) by {
        assert(catalog@[n] == chains[n]@);
        let endpoints = catalog@[n].endpoints;
        assert forall|i: int| 0 <= i < endpoints.len() implies crate::url::normal_url(
            (#[trigger] endpoints[i]).url,
        ) == Some(endpoints[i].url) by {
            crate::url::lemma_normal_form_stays(endpoints[i].url);
        }
        assert forall|i: int, k: int| 0 <= i < k < endpoints.len() implies (
        #[trigger] endpoints[i]).url != (#[trigger] endpoints[k]).url by {
            crate::chainlist::lemma_urls_are_kept_once(
                records,
                discovery_enabled,
                include_testnets,
                pinned,
                n,
                i,
                k,
            );
        }
    }
    lemma_records_round_trip(items, chains, discovery_again, testnets_again, pinned_again);
    if again@ == catalog@ && again.wf() {
        crate::chainlist::lemma_same_places(again.chains@, chains);
    }
}

/// Whether no URL holds a template.
pub open spec fn free_of_templates(endpoints: Seq<crate::chainlist::EndpointEntry>) -> bool {
    forall|i: int|
        0 <= i < endpoints.len() ==> !crate::text::occurs((#[trigger] endpoints[i]).url, "${"@)
}

proof fn lemma_records_round_trip(
    items: Seq<Json>,
    chains: Seq<CatalogChain>,
    discovery_enabled: bool,
    include_testnets: bool,
    pinned: Set<u64>,
)
    requires
        items.len() == chains.len(),
        forall|i: int| 0 <= i < chains.len() ==> is_record(#[trigger] items[i], chains[i]),
        forall|i: int|
            0 <= i < chains.len() ==> settled((#[trigger] chains[i])@.endpoints)
                && crate::chainlist::admits(
                discovery_enabled,
                include_testnets,
                pinned,
                chains[i]@,
            ),
    ensures
        crate::chainlist::catalog_of(items, discovery_enabled, include_testnets, pinned)
            == crate::chainlist::chain_views(chains),
    decreases items.len(),
{
    if items.len() > 0 {
        let last = items.len() - 1;
        let pi = items.drop_last();
        let pc = chains.drop_last();
        assert forall|i: int| 0 <= i < pc.len() implies is_record(#[trigger] pi[i], pc[i]) by {
            assert(pi[i] == items[i] && pc[i] == chains[i]);
        }
        assert forall|i: int| 0 <= i < pc.len() implies settled((#[trigger] pc[i])@.endpoints)
            && crate::chainlist::admits(discovery_enabled, include_testnets, pinned, pc[i]@) by {
            assert(pc[i] == chains[i]);
        }
        lemma_records_round_trip(pi, pc, discovery_enabled, include_testnets, pinned);
        assert(is_record(items[last], chains[last]));
        lemma_record_round_trip(items[last], chains[last]);
        lemma_settled_are_kept(chains[last]@.endpoints);
        assert(crate::chainlist::chain_views(chains) =~= crate::chainlist::chain_views(pc).push(
            chains[last]@,
        ));
    } else {
        assert(crate::chainlist::chain_views(chains) =~= Seq::<
            crate::chainlist::ChainEntry,
        >::empty());
    }
}

} // verus!
