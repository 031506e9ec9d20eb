//! What the chain catalog is for: every usable record that the rule lets in is in it, with all its public
//! endpoints, and there is a catalog even while the network has none.
use crate::chainlist::{
    Catalog, CatalogFault, CatalogParseStats, ChainEntry, ChainlistSnapshot, EndpointEntry,
    RefreshSource,
};
use crate::json::{Json, Number};
use crate::loader::{ChainlistLoader, FetchError, LoadResult, NetworkOutcome};
use crate::registry_model::RegistryView;
use crate::text;
use crate::url::UrlFault;
use vstd::prelude::*;

verus! {

/// A document is a chain list where it is an array, or an object that holds one under `chains`; anything
/// else is refused, an object by another reason than the rest.
pub proof fn lemma_which_documents_are_lists(doc: Json)
    ensures
        doc matches Json::Array(items) ==> crate::chainlist::records_of(doc) == Ok::<
            Seq<Json>,
            CatalogFault,
        >(items@),
        doc is Object ==> match doc.field("chains"@) {
            Some(Json::Array(items)) => crate::chainlist::records_of(doc) == Ok::<
                Seq<Json>,
                CatalogFault,
            >(items@),
            _ => crate::chainlist::records_of(doc) == Err::<Seq<Json>, CatalogFault>(
                CatalogFault::NoChainsArray,
            ),
        },
        !(doc is Array) && !(doc is Object) ==> crate::chainlist::records_of(doc) == Err::<
            Seq<Json>,
            CatalogFault,
        >(CatalogFault::NoList),
{
}

/// Where a field of an object stands: the first of its name.
pub proof fn lemma_first_field_counts(fields: Seq<(String, Json)>, name: Seq<char>, i: int)
    requires
        0 <= i <= fields.len(),
        forall|j: int| 0 <= j < i ==> (#[trigger] fields[j]).0@ != name,
        i < fields.len() ==> fields[i].0@ == name,
    ensures
        i < fields.len() ==> crate::json::lookup(fields, name) == Some(fields[i].1),
        i == fields.len() ==> crate::json::lookup(fields, name) is None,
    decreases i,
{
    if i > 0 {
        let rest = fields.skip(1);
        assert(fields[0].0@ != name);
        assert forall|j: int| 0 <= j < i - 1 implies (#[trigger] rest[j]).0@ != name by {
            assert(rest[j] == fields[j + 1]);
        }
        lemma_first_field_counts(rest, name, i - 1);
    }
}

/// What a record has to have: a name, an id and a list of endpoints that all can be read. What else it
/// says is taken over where it has the right form, and passed over where it has not.
pub proof fn lemma_what_a_record_says(record: Json)
    requires
        record is Object,
    ensures
        ({
            let r = crate::chainlist::record_of(record);
            let named = record.field("name"@) is Some && record.field("name"@)->0 is Text;
            let numbered = record.field("chainId"@) matches Some(Json::Number(Number::PosInt(_)));
            &&& r is Some ==> named && numbered && record.field("rpc"@) is Some && record.field(
                "rpc"@,
            )->0 is Array
            &&& named && numbered && (record.field("rpc"@) matches Some(Json::Array(items))
                && forall|i: int|
                0 <= i < items@.len() ==> crate::chainlist::rpc_entry(#[trigger] items@[i]) is Some)
                ==> r is Some
            &&& r matches Some(e) ==> {
                &&& record.field("name"@) matches Some(Json::Text(s)) && e.name == s@
                &&& record.field("chainId"@) == Some(Json::Number(Number::PosInt(e.chain_id)))
                &&& record.field("rpc"@) matches Some(Json::Array(items)) && e.endpoints.len()
                    == items@.len() && forall|i: int|
                    0 <= i < items@.len() ==> crate::chainlist::rpc_entry(#[trigger] items@[i])
                        == Some(e.endpoints[i])
                &&& e.is_testnet <==> record.field("isTestnet"@) == Some(Json::Bool(true))
                &&& e.short_name == (match record.field("shortName"@) {
                    Some(Json::Text(s)) => Some(s@),
                    _ => None,
                })
                &&& e.chain == (match record.field("chain"@) {
                    Some(Json::Text(s)) => Some(s@),
                    _ => None,
                })
                &&& e.slug == (match record.field("chainSlug"@) {
                    Some(Json::Text(s)) => Some(s@),
                    _ => None,
                })
                &&& e.status == (match record.field("status"@) {
                    Some(Json::Text(s)) => Some(s@),
                    _ => None,
                })
                &&& e.tvl == (match record.field("tvl"@) {
                    Some(Json::Number(n)) => Some(n),
                    _ => None,
                })
                &&& e.native_symbol == (match record.field("nativeCurrency"@) {
                    Some(c) => match c.field("symbol"@) {
                        Some(Json::Text(s)) => Some(s@),
                        _ => None,
                    },
                    None => None,
                })
                &&& e.explorer_url == (match record.field("explorers"@) {
                    Some(Json::Array(items)) => if items@.len() == 0 {
                        None
                    } else {
                        match items@[0] {
                            Json::Text(s) => Some(s@),
                            Json::Object(_) => match items@[0].field("url"@) {
                                Some(Json::Text(s)) => Some(s@),
                                _ => None,
                            },
                            _ => None,
                        }
                    },
                    _ => None,
                })
            }
        }),
{
}

/// How an endpoint is written: as its URL, or as an object with it and a note on tracking, which may be
/// missing or null but nothing else than text.
pub proof fn lemma_how_endpoints_are_written(entry: Json)
    ensures
        entry matches Json::Text(s) ==> crate::chainlist::rpc_entry(entry) == Some(
            EndpointEntry { url: s@, tracking: None },
        ),
        entry is Object ==> match (entry.field("url"@), entry.field("tracking"@)) {
            (Some(Json::Text(u)), None) => crate::chainlist::rpc_entry(entry) == Some(
                EndpointEntry { url: u@, tracking: None },
            ),
            (Some(Json::Text(u)), Some(Json::Null)) => crate::chainlist::rpc_entry(entry) == Some(
                EndpointEntry { url: u@, tracking: None },
            ),
            (Some(Json::Text(u)), Some(Json::Text(t))) => crate::chainlist::rpc_entry(entry) == Some(
                EndpointEntry { url: u@, tracking: Some(t@) },
            ),
            _ => crate::chainlist::rpc_entry(entry) is None,
        },
        !(entry is Text) && !(entry is Object) ==> crate::chainlist::rpc_entry(entry) is None,
{
}

/// Record by record, the catalog takes in what is usable and what the rule admits: a pinned chain always,
/// any other only with discovery, and a test network only where those are wanted. Of its endpoints it
/// keeps the public ones.
pub proof fn lemma_catalog_grows_by_record(
    records: Seq<Json>,
    record: Json,
    discovery: bool,
    testnets: bool,
    pinned: Set<u64>,
)
    ensures
        crate::chainlist::catalog_of(Seq::empty(), discovery, testnets, pinned).len() == 0,
        ({
            let before = crate::chainlist::catalog_of(records, discovery, testnets, pinned);
            let after = crate::chainlist::catalog_of(
                records.push(record),
                discovery,
                testnets,
                pinned,
            );
            match crate::chainlist::record_of(record) {
                None => after == before,
                Some(e) => {
                    let taken = pinned.contains(e.chain_id) || (discovery && (testnets
                        || !e.is_testnet));
                    &&& !taken ==> after == before
                    &&& taken ==> after.len() == before.len() + 1 && after.drop_last() == before && (
                    forall|n: int| 0 <= n < before.len() ==> after[n] == before[n])
                    &&& taken ==> {
                        let c = after.last();
                        &&& c.chain_id == e.chain_id && c.name == e.name && c.is_testnet
                            == e.is_testnet
                        &&& c.short_name == e.short_name && c.chain == e.chain && c.slug == e.slug
                        &&& c.status == e.status && c.tvl == e.tvl && c.native_symbol
                            == e.native_symbol && c.explorer_url == e.explorer_url
                        &&& c.endpoints == crate::chainlist::kept_endpoints(e.endpoints)
                    }
                },
            }
        }),
        ({
            let bad = crate::chainlist::record_of(record) is None;
            crate::chainlist::unusable(records.push(record)) == crate::chainlist::unusable(records)
                + (if bad {
                1nat
            } else {
                0
            })
        }),
{
    reveal(Seq::filter);
    assert(records.push(record).drop_last() =~= records);
    let before = crate::chainlist::catalog_of(records, discovery, testnets, pinned);
    let after = crate::chainlist::catalog_of(records.push(record), discovery, testnets, pinned);
    if after.len() > before.len() {
        assert(after.drop_last() =~= before);
    }
}

/// Endpoint by endpoint, a record keeps what is public and not kept yet, in its normal form and with the
/// note on tracking of the first listing.
pub proof fn lemma_endpoints_are_kept_one_by_one(listed: Seq<EndpointEntry>, e: EndpointEntry)
    ensures
        crate::chainlist::kept_endpoints(Seq::empty()).len() == 0,
        ({
            let before = crate::chainlist::kept_endpoints(listed);
            let after = crate::chainlist::kept_endpoints(listed.push(e));
            match crate::url::normal_url(e.url) {
                None => after == before,
                Some(u) => {
                    let known = exists|i: int|
                        0 <= i < before.len() && (#[trigger] before[i]).url == u;
                    &&& known ==> after == before
                    &&& !known ==> after.len() == before.len() + 1 && after.drop_last() == before
                        && after.last().url == u && after.last().tracking == e.tracking
                },
            }
        }),
{
    assert(listed.push(e).drop_last() =~= listed);
    let before = crate::chainlist::kept_endpoints(listed);
    let after = crate::chainlist::kept_endpoints(listed.push(e));
    if after.len() > before.len() {
        assert(after.drop_last() =~= before);
    }
}

/// The snapshot of a catalog has its chains, in their order, each with its id, its name and all its URLs.
pub proof fn lemma_snapshot_shows_the_catalog(
    catalog: Seq<ChainEntry>,
    snapshot: ChainlistSnapshot,
    i: int,
    k: int,
)
    requires
        crate::chainlist::snapshot_of(catalog, snapshot),
        0 <= i < catalog.len(),
        0 <= k < catalog[i].endpoints.len(),
    ensures
        snapshot.chains@.len() == catalog.len(),
        snapshot.chains@[i].chain_id == catalog[i].chain_id,
        snapshot.chains@[i].name@ == catalog[i].name,
        snapshot.chains@[i].endpoints@.len() == catalog[i].endpoints.len(),
        snapshot.chains@[i].endpoints@[k]@ == catalog[i].endpoints[k].url,
{
    let c = snapshot.chains@[i];
    let texts = c.endpoints@.map_values(|u: String| u@);
    let urls = catalog[i].endpoints.map_values(|e: EndpointEntry| e.url);
    assert(texts == urls);
    assert(texts.len() == c.endpoints@.len());
    assert(texts[k] == c.endpoints@[k]@);
    assert(urls[k] == catalog[i].endpoints[k].url);
}

/// When the network gives no catalog, and why: no answer, an answer that nothing changed while there is
/// nothing to keep, another status, a broken answer, a text that is no chain list, or a list that is empty
/// or has lost more than half of the chains.
pub proof fn lemma_when_the_network_fails(l: ChainlistLoader, outcome: NetworkOutcome)
    ensures
        outcome is RequestFailed ==> l.network_error(outcome) == Some(FetchError::Request),
        outcome is BodyFailed ==> l.network_error(outcome) == Some(FetchError::Body),
        outcome matches NetworkOutcome::HttpStatus(s) ==> l.network_error(outcome) == Some(
            FetchError::Status(s),
        ),
        outcome is NotModified && l.last_success is None ==> l.network_error(outcome) == Some(
            FetchError::NothingInMemory,
        ),
        outcome is NotModified && l.last_success is Some ==> l.network_error(outcome) is None,
        outcome matches NetworkOutcome::Body { bytes, .. } ==> match crate::chainlist::text_records(
            bytes@,
        ) {
            Err(_) => l.network_error(outcome) == Some(FetchError::Invalid),
            Ok(records) => {
                let n = crate::chainlist::catalog_of(
                    records,
                    l.discovery_enabled,
                    l.include_testnets,
                    l.pinned_chains@,
                ).len();
                let had: nat = match l.last_success {
                    Some(c) => c.chains@.len(),
                    None => 0,
                };
                &&& n == 0 || 2 * n < had ==> l.network_error(outcome) == Some(
                    FetchError::SanityCheck,
                )
                &&& n > 0 && 2 * n >= had ==> l.network_error(outcome) is None
            },
        },
{
}

/// Where a catalog comes from when the network gave none: from memory, else from the state store, else
/// from the disk, else from the list that is built in, each where the ones before have none. The time of
/// the last refresh and the mark of the list stay as they were, and the reason is remembered.
pub proof fn lemma_fallbacks_in_their_order(
    old: ChainlistLoader,
    new: ChainlistLoader,
    outcome: NetworkOutcome,
    store: Option<&Json>,
    disk: Option<&[u8]>,
    builtin: Seq<u8>,
    now: u64,
    r: Result<LoadResult, CatalogFault>,
)
    requires
        crate::loader::loaded(old, new, outcome, store, disk, builtin, now, r),
        old.network_error(outcome) is Some,
    ensures
        new.last_refresh_unix == old.last_refresh_unix,
        new.etag == old.etag,
        new.last_error is Some,
        new.discovery_enabled == old.discovery_enabled,
        new.include_testnets == old.include_testnets,
        new.pinned_chains == old.pinned_chains,
        old.last_success is Some ==> {
            &&& r matches Ok(l) && l.source is Memory && Some(l.catalog) == old.last_success
                && l.records_skipped == 0
            &&& new.last_success == old.last_success && new.last_source == Some(
                RefreshSource::Memory,
            )
        },
        old.last_success is None ==> {
            let from = match store {
                Some(d) => match crate::chainlist::records_of(*d) {
                    Ok(records) => Some((records, RefreshSource::StateStore)),
                    Err(_) => None,
                },
                None => None,
            };
            let kept = match disk {
                Some(b) => match crate::chainlist::text_records(b@) {
                    Ok(records) => Some((records, RefreshSource::Disk)),
                    Err(_) => None,
                },
                None => None,
            };
            let own = match crate::chainlist::text_records(builtin) {
                Ok(records) => Some((records, RefreshSource::Fixture)),
                Err(_) => None,
            };
            let first = if from is Some {
                from
            } else if kept is Some {
                kept
            } else {
                own
            };
            match first {
                Some((records, source)) => {
                    &&& r matches Ok(l) && l.source == source && l.catalog@
                        == crate::chainlist::catalog_of(
                        records,
                        old.discovery_enabled,
                        old.include_testnets,
                        old.pinned_chains@,
                    ) && new.last_success == Some(l.catalog) && new.last_source == Some(source)
                        && l.records_skipped == crate::chainlist::unusable(records)
                        && new.last_snapshot == Some(l.snapshot)
                        && crate::chainlist::snapshot_of(l.catalog@, *l.snapshot)
                },
                None => r is Err && new.last_success is None,
            }
        },
        r matches Ok(l) ==> (l.rejected_network_snapshot <==> old.network_error(outcome)->0
            is SanityCheck),
{
}

/// A list from the network is taken as it is: the catalog is that of its records by the loader's rule, the
/// time of the refresh is now, the mark is that of the answer, and no failure is remembered. An answer that
/// nothing changed keeps the catalog and the mark, and counts as a refresh all the same.
pub proof fn lemma_network_is_taken(
    old: ChainlistLoader,
    new: ChainlistLoader,
    outcome: NetworkOutcome,
    store: Option<&Json>,
    disk: Option<&[u8]>,
    builtin: Seq<u8>,
    now: u64,
    r: Result<LoadResult, CatalogFault>,
)
    requires
        crate::loader::loaded(old, new, outcome, store, disk, builtin, now, r),
        old.network_error(outcome) is None,
    ensures
        r is Ok,
        new.last_refresh_unix == now,
        new.last_error is None,
        !r->Ok_0.rejected_network_snapshot,
        new.last_success == Some(r->Ok_0.catalog),
        outcome is NotModified ==> new.etag == old.etag && new.last_success == old.last_success
            && r->Ok_0.source is NotModified && new.last_source == Some(RefreshSource::NotModified),
        outcome matches NetworkOutcome::Body { etag, bytes } ==> new.etag == etag && r->Ok_0.source
            is Network && new.last_source == Some(RefreshSource::Network) && (
        crate::chainlist::text_records(bytes@) matches Ok(records) && r->Ok_0.catalog@
            == crate::chainlist::catalog_of(
            records,
            old.discovery_enabled,
            old.include_testnets,
            old.pinned_chains@,
        ) && r->Ok_0.records_skipped == crate::chainlist::unusable(records)
            && crate::chainlist::snapshot_of(r->Ok_0.catalog@, *r->Ok_0.snapshot)),
        outcome is NotModified || outcome is Body,
{
}

/// How many endpoints a catalog has grows with each chain by those of the chain.
pub proof fn lemma_endpoints_add_up(
    chains: Seq<crate::chainlist::CatalogChain>,
    c: crate::chainlist::CatalogChain,
    n: nat,
)
    ensures
        crate::loader::endpoint_total(Seq::empty()) == 0,
        crate::loader::endpoint_total(chains.push(c)) == crate::loader::endpoint_total(chains)
            + c.endpoints@.len(),
        n <= usize::MAX ==> crate::loader::capped(n) == n,
        n > usize::MAX ==> crate::loader::capped(n) == usize::MAX,
{
    assert(chains.push(c).drop_last() =~= chains);
}

/// Which URLs are public: those that use HTTPS and name neither user nor password, and that hold no
/// template. They are kept in the form in which the URL standard writes them.
pub proof fn lemma_public_urls(raw: Seq<char>)
    ensures
        (exists|k: int|
            0 <= k && k + 1 < raw.len() && #[trigger] raw[k] == '$' && raw[k + 1] == '{')
            ==> crate::url::normal_url(raw) is None,
        crate::url::normal_url(raw) is Some ==> {
            &&& crate::url::parsed_url(raw) matches Some(p) && p.scheme@ == "https"@
                && p.username@.len() == 0 && p.password is None && crate::url::normal_url(raw)
                == Some(p.text@)
        },
        (forall|k: int|
            0 <= k && k + 1 < raw.len() && #[trigger] raw[k] == '$' ==> raw[k + 1] != '{') && (
        crate::url::parsed_url(raw) matches Some(p) && p.scheme@ == "https"@ && p.username@.len()
            == 0 && p.password is None) ==> crate::url::normal_url(raw) is Some,
{
    lemma_templates(raw);
}

proof fn lemma_templates(raw: Seq<char>)
    ensures
        text::occurs(raw, "${"@) <==> exists|k: int|
            0 <= k && k + 1 < raw.len() && #[trigger] raw[k] == '$' && raw[k + 1] == '{',
{
    reveal_strlit("${");
    let p = "${"@;
    assert(p.len() == 2 && p[0] == '$' && p[1] == '{');
    if text::occurs(raw, p) {
        let k = choose|k: int| text::stands_at(raw, p, k);
        assert(raw.subrange(k, k + 2)[0] == raw[k]);
        assert(raw.subrange(k, k + 2)[1] == raw[k + 1]);
    }
    if exists|k: int| 0 <= k && k + 1 < raw.len() && #[trigger] raw[k] == '$' && raw[k + 1] == '{' {
        let k = choose|k: int|
            0 <= k && k + 1 < raw.len() && #[trigger] raw[k] == '$' && raw[k + 1] == '{';
        assert(raw.subrange(k, k + 2) =~= p);
        assert(text::stands_at(raw, p, k));
    }
}

/// What becomes of a URL that is offered: a template is refused before anything else, then what is no URL,
/// then what is not public, and then, unless they are allowed, hosts of private networks.
pub proof fn lemma_offers_are_judged_in_order(raw: Seq<char>, allow_private: bool)
    ensures
        ({
            let r = crate::url::offered_url(raw, allow_private);
            let template = exists|k: int|
                0 <= k && k + 1 < raw.len() && #[trigger] raw[k] == '$' && raw[k + 1] == '{';
            &&& template ==> r == Err::<Seq<char>, UrlFault>(UrlFault::Template)
            &&& !template ==> match crate::url::parsed_url(raw) {
                None => r == Err::<Seq<char>, UrlFault>(UrlFault::Invalid),
                Some(p) => {
                    let open = p.scheme@ == "https"@ && p.username@.len() == 0 && p.password is None;
                    let inside = crate::url::private_host(
                        match p.host {
                            Some(h) => h@,
                            None => Seq::empty(),
                        },
                    );
                    &&& !open ==> r == Err::<Seq<char>, UrlFault>(UrlFault::NotPublicHttps)
                    &&& open && inside && !allow_private ==> r == Err::<Seq<char>, UrlFault>(
                        UrlFault::Private,
                    )
                    &&& open && (!inside || allow_private) ==> r == Ok::<Seq<char>, UrlFault>(
                        p.text@,
                    )
                },
            }
        }),
{
    lemma_templates(raw);
}

/// Which hosts are private: the machine itself under its name, in whatever case; the ranges of IPv4 that
/// are kept for one's own machine, for private networks and for one link, and no other; the loopback
/// address of IPv6, and addresses that begin with fc, fd or fe8 to feb.
pub proof fn lemma_private_hosts(host: Seq<char>, a: int, b: int, c: int, d: int)
    ensures
        text::lowered(host) == "localhost"@ ==> crate::url::private_host(host),
        crate::url::is_dotted(host, a, b, c, d) && (a == 127 || a == 10 || (a == 172 && 16 <= b
            && b <= 31) || (a == 192 && b == 168) || (a == 169 && b == 254))
            ==> crate::url::private_host(host),
        host == "[::1]"@ ==> crate::url::private_host(host),
        host.len() > 5 && host[0] == '[' && host[5] == ':' && host[1] == 'f' && (host[2] == 'c'
            || host[2] == 'd') ==> crate::url::private_host(host),
        host.len() > 5 && host[0] == '[' && host[5] == ':' && host[1] == 'f' && host[2] == 'e' && (
        host[3] == '8' || host[3] == '9' || host[3] == 'a' || host[3] == 'b')
            ==> crate::url::private_host(host),
        crate::url::private_host(host) && text::lowered(host) != "localhost"@ && host.len() > 0
            && host[0] != '[' ==> exists|a: int, b: int, c: int, d: int| #[trigger]
            crate::url::is_dotted(host, a, b, c, d) && (a == 127 || a == 10 || (a == 172 && 16 <= b
                && b <= 31) || (a == 192 && b == 168) || (a == 169 && b == 254)),
        crate::url::private_host(host) && host.len() > 0 && host[0] == '[' && text::lowered(host)
            != "localhost"@ && !crate::url::private_ipv4(host) ==> host == "[::1]"@ || (host.len() > 5
            && host[5] == ':' && host[1] == 'f' && (host[2] == 'c' || host[2] == 'd' || (host[2] == 'e'
            && (host[3] == '8' || host[3] == '9' || host[3] == 'a' || host[3] == 'b')))),
{
    reveal_strlit("[::1]");
    if crate::url::private_ipv4(host) {
        let (a, b, c, d) = choose|a: int, b: int, c: int, d: int| #[trigger]
            crate::url::is_dotted(host, a, b, c, d) && crate::url::private_numbers(a, b);
        assert(crate::url::is_dotted(host, a, b, c, d));
    }
    assert("[::1]"@[0] == '[');
}

/// A link is shown only where it leads to the web.
pub proof fn lemma_shown_links(url: Seq<char>)
    ensures
        crate::url::shown_link(url) <==> crate::url::parsed_url(url) is Some && (
        crate::url::parsed_url(url)->0.scheme@ == "http"@ || crate::url::parsed_url(url)->0.scheme@
            == "https"@),
{
}

/// The number that a node reports: what its digits of base sixteen say, behind the sign for them.
pub proof fn lemma_quantities_are_hexadecimal(d: Seq<char>)
    requires
        d.len() > 0,
        forall|i: int|
            0 <= i < d.len() ==> '0' <= #[trigger] d[i] <= '9' || 'a' <= d[i] <= 'f' || 'A' <= d[i]
                <= 'F',
    ensures
        text::number_of(d, 16) <= u64::MAX ==> crate::autoenable::quantity(seq!['0', 'x'] + d) == Some(
            text::number_of(d, 16),
        ) && crate::autoenable::quantity(d) == Some(text::number_of(d, 16)),
        text::number_of(d, 16) > u64::MAX ==> crate::autoenable::quantity(seq!['0', 'x'] + d) is None,
{
    let s = seq!['0', 'x'] + d;
    assert(s.skip(2) =~= d);
    assert(s[0] == '0' && s[1] == 'x');
    assert(!(d.len() >= 2 && d[0] == '0' && d[1] == 'x')) by {
        if d.len() >= 2 {
            assert('0' <= d[1] <= '9' || 'a' <= d[1] <= 'f' || 'A' <= d[1] <= 'F');
        }
    }
    assert(crate::autoenable::without_sign(d) == d);
    assert(crate::autoenable::without_sign(s) == d);
    assert(d[0] != '+');
    assert(text::all_digits(d, 16)) by {
        assert forall|i: int| 0 <= i < d.len() implies text::digit_value(#[trigger] d[i], 16) is Some by {
            assert('0' <= d[i] <= '9' || 'a' <= d[i] <= 'f' || 'A' <= d[i] <= 'F');
        }
    }
}

/// A chain is in the catalog where one of its entries has the id.
pub proof fn lemma_catalog_lists_its_chains(v: RegistryView, c: Catalog, chain_id: u64)
    requires
        v.catalog == Some(c),
        c.wf(),
        c.chains@.len() <= usize::MAX,
    ensures
        crate::admin::lists_chain(v, chain_id) <==> exists|i: int|
            0 <= i < c.chains@.len() && (#[trigger] c.chains@[i]).chain_id == chain_id,
        c.place(chain_id) is Some <==> exists|i: int|
            0 <= i < c.chains@.len() && (#[trigger] c.chains@[i]).chain_id == chain_id,
        c.place(chain_id) matches Some(i) ==> 0 <= i < c.chains@.len() && c.chains@[i].chain_id
            == chain_id,
{
    crate::chainlist::lemma_places(c.chains@);
    let p = crate::chainlist::places(c.chains@);
    if p.contains_key(chain_id) {
        assert(c.chains@[p[chain_id] as int].chain_id == chain_id);
    }
}

/// An address in dots is four numbers up to 255, written in decimal without leading zeros.
pub proof fn lemma_addresses_in_dots(host: Seq<char>, a: int, b: int, c: int, d: int)
    ensures
        crate::url::is_dotted(host, a, b, c, d) <==> 0 <= a <= 255 && 0 <= b <= 255 && 0 <= c <= 255
            && 0 <= d <= 255 && host == text::decimal_digits(a as nat).push('.')
            + text::decimal_digits(b as nat).push('.') + text::decimal_digits(c as nat).push('.')
            + text::decimal_digits(d as nat),
{
    reveal_strlit(".");
    if 0 <= a <= 255 && 0 <= b <= 255 && 0 <= c <= 255 && 0 <= d <= 255 {
        let w = text::decimal_digits(a as nat);
        let x = text::decimal_digits(b as nat);
        let y = text::decimal_digits(c as nat);
        let z = text::decimal_digits(d as nat);
        assert(w + "."@ + x + "."@ + y + "."@ + z =~= w.push('.') + x.push('.') + y.push('.') + z);
    }
}

/// A record that is written as an array says the same as one with the same values under their names; an array
/// that does not hold all of them says nothing.
pub proof fn lemma_records_as_arrays(record: Json, other: Json)
    requires
        record is Array,
        other is Object,
    ensures
        record->Array_0@.len() != 11 ==> crate::chainlist::record_of(record) is None,
        ({
            let items = record->Array_0@;
            &&& items.len() == 11
            &&& other.field("name"@) == Some(items[0]) && other.field("chainId"@) == Some(items[1])
            &&& other.field("shortName"@) == Some(items[2]) && other.field("chain"@) == Some(items[3])
            &&& other.field("chainSlug"@) == Some(items[4]) && other.field("isTestnet"@) == Some(
                items[5],
            )
            &&& other.field("nativeCurrency"@) == Some(items[6]) && other.field("explorers"@) == Some(
                items[7],
            )
            &&& other.field("status"@) == Some(items[8]) && other.field("tvl"@) == Some(items[9])
            &&& other.field("rpc"@) == Some(items[10])
        }) ==> crate::chainlist::record_of(record) == crate::chainlist::record_of(other),
{
}

/// A text is a chain list where it is a document that is one; a text that is no document is refused as such,
/// and is the only kind that is.
pub proof fn lemma_texts_are_read_as_documents(bytes: Seq<u8>)
    ensures
        match crate::json::json_document(bytes) {
            Some(doc) => crate::chainlist::text_records(bytes) == crate::chainlist::records_of(doc)
                && crate::chainlist::text_records(bytes) != Err::<Seq<Json>, CatalogFault>(
                CatalogFault::InvalidJson,
            ),
            None => crate::chainlist::text_records(bytes) == Err::<Seq<Json>, CatalogFault>(
                CatalogFault::InvalidJson,
            ),
        },
{
}

/// The counts of a reading: every record, the chains of the catalog, and the records that none can be made of.
pub proof fn lemma_counts_of_a_reading(
    records: Seq<Json>,
    discovery_enabled: bool,
    include_testnets: bool,
    pinned: Set<u64>,
    catalog: Catalog,
    snapshot: ChainlistSnapshot,
    stats: CatalogParseStats,
)
    requires
        crate::chainlist::catalog_read(
            records,
            discovery_enabled,
            include_testnets,
            pinned,
            catalog,
            snapshot,
            stats,
        ),
    ensures
        stats.records_total == records.len(),
        stats.records_accepted == catalog@.len(),
        stats.records_skipped == crate::chainlist::unusable(records),
        catalog@ == crate::chainlist::catalog_of(
            records,
            discovery_enabled,
            include_testnets,
            pinned,
        ),
        snapshot.chains@.len() == catalog@.len(),
        forall|i: int|
            0 <= i < catalog@.len() ==> (#[trigger] snapshot.chains@[i]).chain_id
                == catalog@[i].chain_id,
{
}

/// A new loader has its rule and nothing loaded: no list, no tag, no fault, and no refresh on its way.
pub proof fn lemma_new_loaders_hold_nothing(
    l: ChainlistLoader,
    discovery_enabled: bool,
    include_testnets: bool,
    pinned: Set<u64>,
)
    ensures
        l.is_new(discovery_enabled, include_testnets, pinned) <==> l.wf() && l.discovery_enabled
            == discovery_enabled && l.include_testnets == include_testnets && l.pinned_chains@
            == pinned && l.etag is None && l.last_success is None && l.last_refresh_unix == 0
            && l.last_source is None && l.last_error is None && !l.refreshing,
{
}

} // verus!
