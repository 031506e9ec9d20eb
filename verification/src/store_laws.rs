//! What is stored, where, and what of it is found again.
use crate::keys;
use crate::redis_plan;
use crate::redis_plan::{CommandView, HealthText, StateTexts};
use crate::state;
use crate::state::{AuditEntry, DocumentView, HealthSnapshot, StateView};
use crate::store;
use crate::store::{Resilience, StoreCall, StoreStep};
use crate::text;
use vstd::prelude::*;

verus! {

/// Whether the health of no endpoint is stored twice.
pub open spec fn stored_once(list: Seq<HealthSnapshot>) -> bool {
    forall|i: int, j: int|
        0 <= i < j < list.len() ==> (#[trigger] list[i]).chain_id != (#[trigger] list[j]).chain_id
            || list[i].url@ != list[j].url@
}

/// A snapshot takes the place of the one that was stored of its endpoint, or is added at the end; all others
/// stay where they are, and none is stored twice.
pub proof fn lemma_snapshot_takes_its_place(list: Seq<HealthSnapshot>, h: HealthSnapshot, i: int)
    requires
        stored_once(list),
        0 <= i <= list.len(),
        i < list.len() ==> list[i].chain_id == h.chain_id && list[i].url@ == h.url@,
        i == list.len() ==> forall|k: int|
            0 <= k < list.len() ==> (#[trigger] list[k]).chain_id != h.chain_id || list[k].url@
                != h.url@,
    ensures
        i < list.len() ==> state::with_snapshot(list, h) == list.update(i, h),
        i == list.len() ==> state::with_snapshot(list, h) == list.push(h),
        stored_once(state::with_snapshot(list, h)),
{
    if i < list.len() {
        assert forall|k: int| 0 <= k < i implies !state::same_endpoint(#[trigger] list[k], h) by {
            assert(list[k].chain_id != list[i].chain_id || list[k].url@ != list[i].url@);
        }
        assert(state::is_stored_at(list, h, i));
        let c = choose|k: int| state::is_stored_at(list, h, k);
        assert(state::is_stored_at(list, h, c));
        if c < i {
            assert(list[c].chain_id != list[i].chain_id || list[c].url@ != list[i].url@);
        }
        if i < c {
            assert(list[i].chain_id != list[c].chain_id || list[i].url@ != list[c].url@);
        }
        let after = list.update(i, h);
        assert forall|a: int, b: int| 0 <= a < b < after.len() implies (#[trigger] after[a]).chain_id
            != (#[trigger] after[b]).chain_id || after[a].url@ != after[b].url@ by {
            assert(list[a].chain_id != list[b].chain_id || list[a].url@ != list[b].url@);
        }
    } else {
        if exists|k: int| state::is_stored_at(list, h, k) {
            let k = choose|k: int| state::is_stored_at(list, h, k);
            assert(list[k].chain_id != h.chain_id || list[k].url@ != h.url@);
        }
        let after = list.push(h);
        assert forall|a: int, b: int| 0 <= a < b < after.len() implies (#[trigger] after[a]).chain_id
            != (#[trigger] after[b]).chain_id || after[a].url@ != after[b].url@ by {
            if b < list.len() {
                assert(list[a].chain_id != list[b].chain_id || list[a].url@ != list[b].url@);
            } else {
                assert(list[a].chain_id != h.chain_id || list[a].url@ != h.url@);
            }
        }
    }
}

/// A batch stores the health of no endpoint twice, and drops none.
pub proof fn lemma_batch_stores_once(list: Seq<HealthSnapshot>, batch: Seq<HealthSnapshot>)
    requires
        stored_once(list),
    ensures
        stored_once(state::with_batch(list, batch)),
        state::with_batch(list, batch).len() >= list.len(),
    decreases batch.len(),
{
    if batch.len() > 0 {
        let before = state::with_batch(list, batch.drop_last());
        let h = batch.last();
        lemma_batch_stores_once(list, batch.drop_last());
        if exists|k: int|
            0 <= k < before.len() && (#[trigger] before[k]).chain_id == h.chain_id && before[k].url@
                == h.url@ {
            let k = choose|k: int|
                0 <= k < before.len() && (#[trigger] before[k]).chain_id == h.chain_id
                    && before[k].url@ == h.url@;
            lemma_snapshot_takes_its_place(before, h, k);
        } else {
            lemma_snapshot_takes_its_place(before, h, before.len() as int);
        }
    }
}

/// The record of actions keeps the last ten thousand.
pub proof fn lemma_last_actions_are_kept(audit: Seq<AuditEntry>, i: int)
    requires
        0 <= i < state::last_entries(audit).len(),
    ensures
        state::last_entries(audit).len() == (if audit.len() < 10_000 {
            audit.len() as int
        } else {
            10_000
        }),
        state::last_entries(audit)[state::last_entries(audit).len() - 1 - i] == audit[audit.len() - 1
            - i],
{
}

/// A state is handed out without its catalog and otherwise whole. It is taken back if its version is
/// understood: in place of all that was stored but the record of actions, and, where it brings none, the
/// catalog.
pub proof fn lemma_states_are_handed_out_and_taken(d: DocumentView, v: StateView)
    ensures
        d.exported().catalog is None,
        d.exported().schema_version == d.state.schema_version,
        d.exported().chain_overrides == d.state.chain_overrides,
        d.exported().endpoint_overrides == d.state.endpoint_overrides,
        d.exported().health == d.state.health,
        d.exported().hot_chains == d.state.hot_chains,
        d.exported().auto_chains == d.state.auto_chains,
        d.exported().catalog_etag == d.state.catalog_etag,
        d.exported().catalog_fetched_at == d.state.catalog_fetched_at,
        d.imported(v) is Some <==> v.schema_version == 2,
        d.imported(v) matches Some(n) ==> {
            &&& n.state.schema_version == 2
            &&& v.catalog is Some ==> n.state.catalog == v.catalog
            &&& v.catalog is None ==> n.state.catalog == d.state.catalog
            &&& n.state.chain_overrides == v.chain_overrides
            &&& n.state.endpoint_overrides == v.endpoint_overrides
            &&& n.state.health == v.health && n.state.hot_chains == v.hot_chains
            &&& n.state.auto_chains == v.auto_chains
            &&& n.state.catalog_etag == v.catalog_etag && n.state.catalog_fetched_at
                == v.catalog_fetched_at
            &&& n.audit == d.audit && n.seeded_at == d.seeded_at && n.last_flush_at
                == d.last_flush_at
        },
        state::empty_state().schema_version == 2,
        state::empty_state().catalog is None,
        state::empty_state().chain_overrides.dom().is_empty(),
        state::empty_state().endpoint_overrides.dom().is_empty(),
        state::empty_state().auto_chains.dom().is_empty(),
        state::empty_state().health.len() == 0 && state::empty_state().hot_chains.len() == 0,
        state::empty_state().catalog_etag is None && state::empty_state().catalog_fetched_at == 0,
{
}

/// In which order a remote store and its local copy are asked: the remote one first for what is read, handed
/// out or set, the local one first for what is only noted. A remote store that fails is made up for by the
/// local copy for reading only.
pub proof fn lemma_who_is_asked(r: Resilience, ok: bool)
    ensures
        r.connected ==> r.first_step(StoreCall::Read) == StoreStep::AskRemote && r.first_step(
            StoreCall::Export,
        ) == StoreStep::AskRemote && r.first_step(StoreCall::Control) == StoreStep::AskRemote,
        !r.connected ==> r.first_step(StoreCall::Read) == StoreStep::AskLocal && r.first_step(
            StoreCall::Export,
        ) == StoreStep::AskLocal && r.first_step(StoreCall::Control) == StoreStep::Refuse,
        r.first_step(StoreCall::Note) == StoreStep::AskLocal,
        Resilience::step_after_remote(StoreCall::Read, true) == StoreStep::Succeed,
        Resilience::step_after_remote(StoreCall::Read, false) == StoreStep::AskLocal,
        Resilience::step_after_remote(StoreCall::Control, true) == StoreStep::AskLocal,
        Resilience::step_after_remote(StoreCall::Control, false) == StoreStep::Fail,
        Resilience::step_after_remote(StoreCall::Export, true) == StoreStep::Succeed,
        Resilience::step_after_remote(StoreCall::Export, false) == StoreStep::Fail,
        Resilience::step_after_remote(StoreCall::Note, ok) == StoreStep::Succeed,
        r.step_after_local(StoreCall::Note, true) == (if r.connected {
            StoreStep::AskRemote
        } else {
            StoreStep::Succeed
        }),
        r.step_after_local(StoreCall::Read, true) == StoreStep::Succeed,
        r.step_after_local(StoreCall::Control, true) == StoreStep::Succeed,
        r.step_after_local(StoreCall::Export, true) == StoreStep::Succeed,
        r.step_after_local(StoreCall::Read, false) == StoreStep::Fail,
        r.step_after_local(StoreCall::Control, false) == StoreStep::Fail,
        r.step_after_local(StoreCall::Note, false) == StoreStep::Fail,
{
}

/// An instance goes by the name it is given; without one by its host and the address it listens on, in which
/// dashes stand for colons and dots.
pub proof fn lemma_names_of_instances(
    given: Option<Seq<char>>,
    host: Option<Seq<char>>,
    listen: Option<Seq<char>>,
    i: int,
)
    ensures
        ({
            let name = store::instance_name_of(given, host, listen);
            let front = (match host {
                Some(h) => h,
                None => "rpcrouter"@,
            }).push('-');
            let address = match listen {
                Some(l) => l,
                None => "0.0.0.0:8545"@,
            };
            let named = given is Some && given->0.len() > 0;
            &&& named ==> Some(name) == given
            &&& !named ==> name.len() == front.len() + address.len() && name.take(
                front.len() as int,
            ) == front
            &&& !named && 0 <= i < address.len() ==> name[front.len() + i] == (if address[i] == ':'
                || address[i] == '.' {
                '-'
            } else {
                address[i]
            })
        }),
{
    reveal_strlit("-");
    let name = store::instance_name_of(given, host, listen);
    let front = (match host {
        Some(h) => h,
        None => "rpcrouter"@,
    }).push('-');
    if !(given is Some && given->0.len() > 0) {
        assert(name.take(front.len() as int) =~= front);
    }
}

/// Under which keys of a namespace things are stored.
pub proof fn lemma_keys_of_a_namespace(
    namespace: Seq<char>,
    chain_id: u64,
    url: Seq<char>,
    name: Seq<char>,
)
    ensures
        redis_plan::prefix_of(namespace) == seq!['{'] + namespace + seq!['}'],
        redis_plan::key_in(namespace, name) == namespace + seq![':'] + name,
        redis_plan::chain_key_in(namespace, chain_id) == namespace + ":override:chain:"@
            + text::decimal_digits(chain_id as nat),
        redis_plan::endpoint_key_in(namespace, name) == namespace + ":override:endpoint:"@ + name,
        redis_plan::health_key_in(namespace, chain_id, url) == namespace + ":health:"@
            + keys::key_of(chain_id, url),
        redis_plan::hot_key_in(namespace, name) == namespace + ":hot:"@ + name,
        keys::key_of(chain_id, url) == text::decimal_digits(chain_id as nat) + seq![':']
            + keys::digest(url).take(16),
{
    reveal_strlit("{");
    reveal_strlit("}");
    reveal_strlit(":");
    reveal_strlit("override:chain:");
    reveal_strlit(":override:chain:");
    reveal_strlit("override:endpoint:");
    reveal_strlit(":override:endpoint:");
    reveal_strlit("hot:");
    reveal_strlit(":hot:");
    assert(redis_plan::prefix_of(namespace) =~= seq!['{'] + namespace + seq!['}']);
    assert(":override:chain:"@ =~= ":"@ + "override:chain:"@);
    assert(":override:endpoint:"@ =~= ":"@ + "override:endpoint:"@);
    assert(":hot:"@ =~= ":"@ + "hot:"@);
    assert(redis_plan::chain_key_in(namespace, chain_id) =~= namespace + ":override:chain:"@
        + text::decimal_digits(chain_id as nat));
    assert(redis_plan::endpoint_key_in(namespace, name) =~= namespace + ":override:endpoint:"@
        + name);
    assert(redis_plan::hot_key_in(namespace, name) =~= namespace + ":hot:"@ + name);
    assert(keys::key_of(chain_id, url) =~= text::decimal_digits(chain_id as nat) + seq![':']
        + keys::digest(url).take(16));
    assert(redis_plan::health_key_in(namespace, chain_id, url) =~= namespace + ":health:"@
        + keys::key_of(chain_id, url));
}

/// A setting is stored as the text of its key and listed in the index; taking it back deletes the one and
/// takes the other off the list.
pub proof fn lemma_settings_are_listed(index: Seq<char>, key: Seq<char>, json: Seq<char>)
    ensures
        redis_plan::indexed(index, key, json).len() == 2,
        redis_plan::indexed(index, key, json)[0] == (CommandView::PutField {
            key,
            field: "json"@,
            value: json,
        }),
        redis_plan::indexed(index, key, json)[1] == (CommandView::AddMember {
            set: index,
            member: key,
        }),
        redis_plan::unindexed(index, key).len() == 2,
        redis_plan::unindexed(index, key)[0] == (CommandView::Delete { key }),
        redis_plan::unindexed(index, key)[1] == (CommandView::RemoveMember {
            set: index,
            member: key,
        }),
{
}

/// The health of each endpoint of a batch is stored, for a time, and listed in the index.
pub proof fn lemma_health_is_stored(prefix: Seq<char>, batch: Seq<HealthText>, seconds: u64, i: int)
    requires
        0 <= i < batch.len(),
    ensures
        ({
            let h = batch[i];
            let key = redis_plan::health_key_in(prefix, h.chain_id, h.url@);
            let all = redis_plan::health_commands(prefix, batch, seconds);
            &&& all.len() == 3 * batch.len()
            &&& all[3 * i] == (CommandView::PutField { key, field: "json"@, value: h.json@ })
            &&& all[3 * i + 1] == (CommandView::Expire { key, seconds })
            &&& all[3 * i + 2] == (CommandView::AddMember {
                set: redis_plan::key_in(prefix, "health:index"@),
                member: key,
            })
        }),
    decreases batch.len(),
{
    let short = batch.drop_last();
    if short.len() > 0 {
        if i < short.len() {
            lemma_health_is_stored(prefix, short, seconds, i);
        } else {
            lemma_health_is_stored(prefix, short, seconds, 0);
        }
    } else {
        assert(redis_plan::health_commands(prefix, short, seconds).len() == 0);
    }
}

/// The hot chains are stored with the time of their last request as their score.
pub proof fn lemma_hot_chains_are_stored(set: Seq<char>, hot: Seq<(u64, u64)>, i: int)
    requires
        0 <= i < hot.len(),
    ensures
        redis_plan::scored_commands(set, hot).len() == hot.len(),
        redis_plan::scored_commands(set, hot)[i] == (CommandView::AddScored {
            set,
            score: hot[i].1,
            member: hot[i].0,
        }),
        redis_plan::HOT_SECONDS == 60,
{
}

/// A namespace is set up with the version and the time.
pub proof fn lemma_namespaces_are_set_up(prefix: Seq<char>, now: u64)
    ensures
        redis_plan::seed_commands(prefix, now).len() == 2,
        redis_plan::seed_commands(prefix, now)[0] == (CommandView::PutField {
            key: redis_plan::key_in(prefix, "meta"@),
            field: "schema_version"@,
            value: text::decimal_digits(2),
        }),
        redis_plan::seed_commands(prefix, now)[1] == (CommandView::PutField {
            key: redis_plan::key_in(prefix, "meta"@),
            field: "seeded_at"@,
            value: text::decimal_digits(now as nat),
        }),
{
}

/// The catalog is stored packed, with its tag, or without one where it has none, and its time.
pub proof fn lemma_catalog_is_stored(
    prefix: Seq<char>,
    packed: Seq<u8>,
    etag: Option<Seq<char>>,
    fetched_at: u64,
)
    ensures
        ({
            let all = redis_plan::catalog_commands(prefix, packed, etag, fetched_at);
            &&& all.len() == 4
            &&& all[0] == (CommandView::SetBytes {
                key: redis_plan::key_in(prefix, "catalog"@),
                value: packed,
            })
            &&& etag matches Some(t) ==> all[1] == (CommandView::SetText {
                key: redis_plan::key_in(prefix, "catalog:etag"@),
                value: t,
            })
            &&& etag is None ==> all[1] == (CommandView::Delete {
                key: redis_plan::key_in(prefix, "catalog:etag"@),
            })
            &&& all[2] == (CommandView::SetNumber {
                key: redis_plan::key_in(prefix, "catalog:fetched_at"@),
                value: fetched_at,
            })
            &&& all[3] == (CommandView::PutField {
                key: redis_plan::key_in(prefix, "meta"@),
                field: "schema_version"@,
                value: text::decimal_digits(2),
            })
        }),
{
}

/// An import deletes every key of the namespace that is not the catalog's, before it writes anything.
pub proof fn lemma_import_deletes_first(prefix: Seq<char>, old_keys: Seq<String>, i: int)
    requires
        0 <= i < old_keys.len(),
        redis_plan::in_namespace(prefix, old_keys[i]@),
        !text::stands_at(old_keys[i]@, redis_plan::key_in(prefix, "catalog"@), 0),
    ensures
        redis_plan::deletions(prefix, old_keys).contains(
            CommandView::Delete { key: old_keys[i]@ },
        ),
        forall|k: int|
            0 <= k < redis_plan::deletions(prefix, old_keys).len() ==> #[trigger]
            redis_plan::deletions(prefix, old_keys)[k] is Delete,
    decreases old_keys.len(),
{
    let short = old_keys.drop_last();
    let before = redis_plan::deletions(prefix, short);
    let all = redis_plan::deletions(prefix, old_keys);
    let c = CommandView::Delete { key: old_keys[i]@ };
    lemma_only_deletions(prefix, old_keys);
    if i < short.len() {
        assert(short[i] == old_keys[i]);
        lemma_import_deletes_first(prefix, short, i);
        let n = choose|n: int| 0 <= n < before.len() && before[n] == c;
        assert(all[n] == c);
    } else {
        assert(all[before.len() as int] == c);
    }
}

proof fn lemma_only_deletions(prefix: Seq<char>, old_keys: Seq<String>)
    ensures
        forall|k: int|
            0 <= k < redis_plan::deletions(prefix, old_keys).len() ==> #[trigger]
            redis_plan::deletions(prefix, old_keys)[k] is Delete,
    decreases old_keys.len(),
{
    if old_keys.len() > 0 {
        lemma_only_deletions(prefix, old_keys.drop_last());
        let before = redis_plan::deletions(prefix, old_keys.drop_last());
        let all = redis_plan::deletions(prefix, old_keys);
        assert forall|k: int| 0 <= k < all.len() implies #[trigger] all[k] is Delete by {
            if k < before.len() {
                assert(all[k] == before[k]);
            }
        }
    }
}

proof fn lemma_settings_are_imported(
    prefix: Seq<char>,
    chains: Seq<(u64, String)>,
    endpoints: Seq<(String, String)>,
    i: int,
    j: int,
)
    ensures
        redis_plan::chain_texts(prefix, chains).len() == 2 * chains.len(),
        redis_plan::endpoint_texts(prefix, endpoints).len() == 2 * endpoints.len(),
        0 <= i < chains.len() ==> {
            let key = redis_plan::chain_key_in(prefix, chains[i].0);
            let index = redis_plan::key_in(prefix, "override:index"@);
            &&& redis_plan::chain_texts(prefix, chains)[2 * i] == (CommandView::PutField {
                key,
                field: "json"@,
                value: chains[i].1@,
            })
            &&& redis_plan::chain_texts(prefix, chains)[2 * i + 1] == (CommandView::AddMember {
                set: index,
                member: key,
            })
        },
        0 <= j < endpoints.len() ==> {
            let key = redis_plan::endpoint_key_in(prefix, endpoints[j].0@);
            let index = redis_plan::key_in(prefix, "override:index"@);
            &&& redis_plan::endpoint_texts(prefix, endpoints)[2 * j] == (CommandView::PutField {
                key,
                field: "json"@,
                value: endpoints[j].1@,
            })
            &&& redis_plan::endpoint_texts(prefix, endpoints)[2 * j + 1] == (
            CommandView::AddMember { set: index, member: key })
        },
    decreases chains.len() + endpoints.len(),
{
    if chains.len() > 0 {
        lemma_settings_are_imported(prefix, chains.drop_last(), Seq::empty(), i, 0);
    }
    if endpoints.len() > 0 {
        lemma_settings_are_imported(prefix, Seq::empty(), endpoints.drop_last(), 0, j);
    }
}

/// Whether commands store a text under a key and list it in an index.
pub open spec fn store_and_list(
    all: Seq<CommandView>,
    index: Seq<char>,
    key: Seq<char>,
    json: Seq<char>,
) -> bool {
    &&& all.contains(CommandView::PutField { key, field: "json"@, value: json })
    &&& all.contains(CommandView::AddMember { set: index, member: key })
}

/// An import writes every setting, the health of every endpoint, and the hot chains that it holds.
pub proof fn lemma_import_writes_everything(
    prefix: Seq<char>,
    instance: Seq<char>,
    old_keys: Seq<String>,
    v: StateTexts,
    seconds: u64,
    now: u64,
    i: int,
)
    ensures
        ({
            let all = redis_plan::import_commands(prefix, instance, old_keys, v, seconds, now);
            let overrides = redis_plan::key_in(prefix, "override:index"@);
            let health = redis_plan::key_in(prefix, "health:index"@);
            &&& 0 <= i < v.chain_overrides@.len() ==> store_and_list(
                all,
                overrides,
                redis_plan::chain_key_in(prefix, v.chain_overrides@[i].0),
                v.chain_overrides@[i].1@,
            )
            &&& 0 <= i < v.endpoint_overrides@.len() ==> store_and_list(
                all,
                overrides,
                redis_plan::endpoint_key_in(prefix, v.endpoint_overrides@[i].0@),
                v.endpoint_overrides@[i].1@,
            )
            &&& 0 <= i < v.health@.len() ==> store_and_list(
                all,
                health,
                redis_plan::health_key_in(prefix, v.health@[i].chain_id, v.health@[i].url@),
                v.health@[i].json@,
            )
            &&& 0 <= i < v.hot_chains@.len() ==> all.contains(
                CommandView::AddScored {
                    set: redis_plan::hot_key_in(prefix, instance),
                    score: v.hot_chains@[i].1,
                    member: v.hot_chains@[i].0,
                },
            )
            &&& v.catalog matches Some(b) ==> all.contains(
                CommandView::SetBytes { key: redis_plan::key_in(prefix, "catalog"@), value: b@ },
            )
            &&& all.contains(
                CommandView::PutField {
                    key: redis_plan::key_in(prefix, "meta"@),
                    field: "schema_version"@,
                    value: text::decimal_digits(2),
                },
            )
        }),
{
    let all = redis_plan::import_commands(prefix, instance, old_keys, v, seconds, now);
    let gone = redis_plan::deletions(prefix, old_keys);
    let seed = redis_plan::seed_commands(prefix, now);
    let catalog = redis_plan::imported_catalog(
        prefix,
        match v.catalog {
            Some(b) => Some(b@),
            None => None,
        },
        crate::chainlist::characters(v.catalog_etag),
        v.catalog_fetched_at,
    );
    let chains = redis_plan::chain_texts(prefix, v.chain_overrides@);
    let endpoints = redis_plan::endpoint_texts(prefix, v.endpoint_overrides@);
    let health = redis_plan::health_commands(prefix, v.health@, seconds);
    let hot = redis_plan::scored_commands(
        redis_plan::hot_key_in(prefix, instance),
        v.hot_chains@,
    );
    let n = (gone.len() + seed.len()) as int;
    assert(all[gone.len() as int] == seed[0]);
    if v.catalog is Some {
        assert(all[n] == catalog[0]);
    }
    lemma_settings_are_imported(prefix, v.chain_overrides@, v.endpoint_overrides@, i, i);
    if 0 <= i < v.chain_overrides@.len() {
        assert(all[n + catalog.len() + 2 * i] == chains[2 * i]);
        assert(all[n + catalog.len() + 2 * i + 1] == chains[2 * i + 1]);
    }
    if 0 <= i < v.endpoint_overrides@.len() {
        assert(all[n + catalog.len() + chains.len() + 2 * i] == endpoints[2 * i]);
        assert(all[n + catalog.len() + chains.len() + 2 * i + 1] == endpoints[2 * i + 1]);
    }
    let m = n + catalog.len() + chains.len() + endpoints.len();
    if 0 <= i < v.health@.len() {
        lemma_health_is_stored(prefix, v.health@, seconds, i);
        assert(all[m + 3 * i] == health[3 * i]);
        assert(all[m + 3 * i + 2] == health[3 * i + 2]);
    }
    if 0 <= i < v.hot_chains@.len() {
        assert(all[m + health.len() + i] == hot[i]);
    }
}

/// A database that states no version, or one that is no number, is taken for one of the version that is
/// understood; one that states a number has that version.
pub proof fn lemma_versions_of_databases(stored: Option<Seq<char>>)
    ensures
        stored is None ==> redis_plan::schema_of(stored) == 2,
        stored matches Some(s) ==> match text::read_number(s, 10) {
            Some(n) => n <= 0xffff_ffff ==> redis_plan::schema_of(stored) == n,
            None => redis_plan::schema_of(stored) == 2,
        },
{
    if let Some(s) = stored {
        text::lemma_no_number_is_negative(s, 10);
    }
}

/// The chain of a key is the number before its first colon.
pub proof fn lemma_chain_before_the_colon(chain_id: u64, rest: Seq<char>)
    ensures
        keys::chain_of(keys::chain_prefix(chain_id) + rest) == chain_id,
        keys::chain_of(Seq::empty()) == 0,
        keys::chain_of(seq![':'] + rest) == 0,
{
    keys::lemma_prefix_names_its_chain(chain_id, rest);
}

} // verus!
