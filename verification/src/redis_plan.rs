//! The layout of the state in a Redis database: names of keys, and the commands that write it.
use crate::keys;
use crate::text;
use vstd::prelude::*;

verus! {

/// A namespace that keys can be built from.
pub open spec fn is_namespace(s: Seq<char>) -> bool {
    &&& !s.contains(':')
    &&& !s.contains('}')
    &&& text::trimmed(s).len() > 0
}

pub fn valid_namespace(s: &str) -> (r: bool)
    ensures
        r == is_namespace(s@),
{
    let all = text::chars(s);
    let mut i: usize = 0;
    while i < all.len()
        invariant
            i <= all@.len(),
            all@ == s@,
            forall|k: int| 0 <= k < i ==> all@[k] != ':' && all@[k] != '}',
        decreases all@.len() - i,
    {
        if all[i] == ':' || all[i] == '}' {
            assert(s@.contains(all@[i as int]));
            return false;
        }
        i = i + 1;
    }
    !text::is_blank(s)
}

/// What all keys of a namespace begin with.
pub open spec fn prefix_of(namespace: Seq<char>) -> Seq<char> {
    "{"@ + namespace + "}"@
}

pub fn prefix(namespace: &str) -> (s: String)
    ensures
        s@ == prefix_of(namespace@),
{
    let open = text::join("{", namespace);
    text::join(open.as_str(), "}")
}

/// A key of a namespace.
pub open spec fn key_in(prefix: Seq<char>, name: Seq<char>) -> Seq<char> {
    prefix + ":"@ + name
}

pub fn key(prefix: &str, name: &str) -> (s: String)
    ensures
        s@ == key_in(prefix@, name@),
{
    let front = text::join(prefix, ":");
    text::join(front.as_str(), name)
}

/// Whether a key belongs to a namespace.
pub open spec fn in_namespace(prefix: Seq<char>, key: Seq<char>) -> bool {
    text::stands_at(key, prefix + ":"@, 0)
}

proof fn lemma_key_in_namespace(prefix: Seq<char>, name: Seq<char>)
    ensures
        in_namespace(prefix, key_in(prefix, name)),
{
    let front = prefix + ":"@;
    assert(key_in(prefix, name).subrange(0, front.len() as int) =~= front);
}

/// No key belongs to two namespaces.
pub proof fn lemma_namespaces_are_apart(a: Seq<char>, b: Seq<char>, key: Seq<char>)
    requires
        is_namespace(a),
        is_namespace(b),
        in_namespace(prefix_of(a), key),
        in_namespace(prefix_of(b), key),
    ensures
        a == b,
{
    reveal_strlit("{");
    reveal_strlit("}");
    reveal_strlit(":");
    let na = a.len() as int + 1;
    let nb = b.len() as int + 1;
    let fa = prefix_of(a) + ":"@;
    let fb = prefix_of(b) + ":"@;
    assert(key.subrange(0, fa.len() as int) =~= fa);
    assert(key.subrange(0, fb.len() as int) =~= fb);
    assert forall|i: int| 0 <= i < a.len() implies key[i + 1] == a[i] by {
        assert(fa[i + 1] == a[i]);
        assert(key.subrange(0, fa.len() as int)[i + 1] == key[i + 1]);
    }
    assert forall|i: int| 0 <= i < b.len() implies key[i + 1] == b[i] by {
        assert(fb[i + 1] == b[i]);
        assert(key.subrange(0, fb.len() as int)[i + 1] == key[i + 1]);
    }
    assert(fa[na] == '}');
    assert(fb[nb] == '}');
    assert(key.subrange(0, fa.len() as int)[na] == key[na]);
    assert(key.subrange(0, fb.len() as int)[nb] == key[nb]);
    if a.len() < b.len() {
        assert(b[a.len() as int] == '}');
        assert(b.contains('}'));
    }
    if b.len() < a.len() {
        assert(a[b.len() as int] == '}');
        assert(a.contains('}'));
    }
    assert(a =~= b);
}

pub open spec fn chain_key_in(prefix: Seq<char>, chain_id: u64) -> Seq<char> {
    key_in(prefix, "override:chain:"@ + text::decimal_digits(chain_id as nat))
}

pub fn chain_override_key(prefix: &str, chain_id: u64) -> (s: String)
    ensures
        s@ == chain_key_in(prefix@, chain_id),
{
    let id = text::decimal(chain_id);
    let name = text::join("override:chain:", id.as_str());
    key(prefix, name.as_str())
}

pub open spec fn endpoint_key_in(prefix: Seq<char>, name: Seq<char>) -> Seq<char> {
    key_in(prefix, "override:endpoint:"@ + name)
}

pub fn endpoint_override_key(prefix: &str, name: &str) -> (s: String)
    ensures
        s@ == endpoint_key_in(prefix@, name@),
{
    let name = text::join("override:endpoint:", name);
    key(prefix, name.as_str())
}

pub open spec fn health_key_in(prefix: Seq<char>, chain_id: u64, url: Seq<char>) -> Seq<char> {
    prefix + ":health:"@ + text::decimal_digits(chain_id as nat) + ":"@ + keys::short_digest(url)
}

/// The key under which the health of an endpoint is stored.
pub fn health_key(prefix: &str, chain_id: u64, url: &str) -> (s: String)
    ensures
        s@ == health_key_in(prefix@, chain_id, url@),
{
    let id = text::decimal(chain_id);
    let hash = keys::short_hash(url);
    let a = text::join(prefix, ":health:");
    let b = text::join(a.as_str(), id.as_str());
    let c = text::join(b.as_str(), ":");
    text::join(c.as_str(), hash.as_str())
}

pub open spec fn hot_key_in(prefix: Seq<char>, instance: Seq<char>) -> Seq<char> {
    key_in(prefix, "hot:"@ + instance)
}

pub fn hot_key(prefix: &str, instance: &str) -> (s: String)
    ensures
        s@ == hot_key_in(prefix@, instance@),
{
    let name = text::join("hot:", instance);
    key(prefix, name.as_str())
}

/// What a key of an override stands for.
#[derive(Debug)]
pub enum OverrideKey {
    Chain(u64),
    Endpoint(String),
    Other,
}

/// What follows the given beginning of a text, if it has it.
pub open spec fn rest_after(s: Seq<char>, front: Seq<char>) -> Option<Seq<char>> {
    if text::stands_at(s, front, 0) {
        Some(s.skip(front.len() as int))
    } else {
        None
    }
}

pub fn strip_front(s: &str, front: &str) -> (r: Option<String>)
    ensures
        match r {
            Some(t) => rest_after(s@, front@) == Some(t@),
            None => rest_after(s@, front@) is None,
        },
{
    if text::starts_with(s, front) {
        let all = text::chars(s);
        let from: usize = text::chars(front).len();
        let r = text::text_of(&all, from, all.len());
        assert(r@ =~= s@.skip(front@.len() as int));
        Some(r)
    } else {
        None
    }
}

/// Whether the key is that of the override of a chain, and of which.
pub open spec fn chain_of_key(prefix: Seq<char>, key: Seq<char>) -> Option<u64> {
    match rest_after(key, prefix + ":override:chain:"@) {
        Some(rest) => match text::read_bounded(rest, 10, u64::MAX as int) {
            Some(n) => Some(n as u64),
            None => None,
        },
        None => None,
    }
}

/// Reads the key of an override.
pub fn read_override_key(prefix: &str, key: &str) -> (r: OverrideKey)
    ensures
        match r {
            OverrideKey::Chain(id) => chain_of_key(prefix@, key@) == Some(id),
            OverrideKey::Endpoint(name) => chain_of_key(prefix@, key@) is None && rest_after(
                key@,
                prefix@ + ":override:endpoint:"@,
            ) == Some(name@),
            OverrideKey::Other => chain_of_key(prefix@, key@) is None && rest_after(
                key@,
                prefix@ + ":override:endpoint:"@,
            ) is None,
        },
{
    let chains = text::join(prefix, ":override:chain:");
    if let Some(rest) = strip_front(key, chains.as_str()) {
        if let Some(id) = text::parse_u64(rest.as_str()) {
            return OverrideKey::Chain(id);
        }
    }
    let endpoints = text::join(prefix, ":override:endpoint:");
    match strip_front(key, endpoints.as_str()) {
        Some(name) => OverrideKey::Endpoint(name),
        None => OverrideKey::Other,
    }
}

/// The key of the override of a chain reads back as that chain.
pub proof fn lemma_chain_key_reads_back(prefix: Seq<char>, chain_id: u64)
    ensures
        chain_of_key(prefix, chain_key_in(prefix, chain_id)) == Some(chain_id),
{
    reveal_strlit(":override:chain:");
    reveal_strlit("override:chain:");
    reveal_strlit(":");
    let front = prefix + ":override:chain:"@;
    let digits = text::decimal_digits(chain_id as nat);
    let key = chain_key_in(prefix, chain_id);
    assert(":override:chain:"@ =~= ":"@ + "override:chain:"@);
    assert(key =~= front + digits);
    assert(key.subrange(0, front.len() as int) =~= front);
    assert(key.skip(front.len() as int) =~= digits);
    keys::lemma_digits_read_back(chain_id as nat);
}

/// The key of the override of an endpoint reads back as that endpoint.
pub proof fn lemma_endpoint_key_reads_back(prefix: Seq<char>, name: Seq<char>)
    ensures
        chain_of_key(prefix, endpoint_key_in(prefix, name)) is None,
        rest_after(endpoint_key_in(prefix, name), prefix + ":override:endpoint:"@) == Some(name),
{
    reveal_strlit(":override:chain:");
    reveal_strlit(":override:endpoint:");
    reveal_strlit("override:endpoint:");
    reveal_strlit(":");
    let front = prefix + ":override:endpoint:"@;
    let other = prefix + ":override:chain:"@;
    let key = endpoint_key_in(prefix, name);
    assert(":override:endpoint:"@ =~= ":"@ + "override:endpoint:"@);
    assert(key =~= front + name);
    assert(key.subrange(0, front.len() as int) =~= front);
    assert(key.skip(front.len() as int) =~= name);
    if text::stands_at(key, other, 0) {
        let at = (prefix.len() + 10) as int;
        assert(key.subrange(0, other.len() as int)[at] == other[at]);
        assert(front[at] == 'e');
        assert(other[at] == 'c');
    }
}

/// A command of the database. Texts and numbers are handed over as they are.
#[derive(Debug)]
pub enum RedisCommand {
    Delete { key: String },
    SetText { key: String, value: String },
    SetBytes { key: String, value: Vec<u8> },
    SetNumber { key: String, value: u64 },
    /// One field of a hash.
    PutField { key: String, field: String, value: String },
    AddMember { set: String, member: String },
    RemoveMember { set: String, member: String },
    AddScored { set: String, score: u64, member: u64 },
    Expire { key: String, seconds: u64 },
}

/// A command, as contracts speak of it.
pub ghost enum CommandView {
    Delete { key: Seq<char> },
    SetText { key: Seq<char>, value: Seq<char> },
    SetBytes { key: Seq<char>, value: Seq<u8> },
    SetNumber { key: Seq<char>, value: u64 },
    PutField { key: Seq<char>, field: Seq<char>, value: Seq<char> },
    AddMember { set: Seq<char>, member: Seq<char> },
    RemoveMember { set: Seq<char>, member: Seq<char> },
    AddScored { set: Seq<char>, score: u64, member: u64 },
    Expire { key: Seq<char>, seconds: u64 },
}

impl RedisCommand {
    pub open spec fn view(&self) -> CommandView {
        match self {
            RedisCommand::Delete { key } => CommandView::Delete { key: key@ },
            RedisCommand::SetText { key, value } => CommandView::SetText {
                key: key@,
                value: value@,
            },
            RedisCommand::SetBytes { key, value } => CommandView::SetBytes {
                key: key@,
                value: value@,
            },
            RedisCommand::SetNumber { key, value } => CommandView::SetNumber {
                key: key@,
                value: *value,
            },
            RedisCommand::PutField { key, field, value } => CommandView::PutField {
                key: key@,
                field: field@,
                value: value@,
            },
            RedisCommand::AddMember { set, member } => CommandView::AddMember {
                set: set@,
                member: member@,
            },
            RedisCommand::RemoveMember { set, member } => CommandView::RemoveMember {
                set: set@,
                member: member@,
            },
            RedisCommand::AddScored { set, score, member } => CommandView::AddScored {
                set: set@,
                score: *score,
                member: *member,
            },
            RedisCommand::Expire { key, seconds } => CommandView::Expire {
                key: key@,
                seconds: *seconds,
            },
        }
    }
}

pub open spec fn commands(list: Seq<RedisCommand>) -> Seq<CommandView> {
    list.map_values(|c: RedisCommand| c@)
}

proof fn lemma_push(list: Seq<RedisCommand>, c: RedisCommand)
    ensures
        commands(list.push(c)) == commands(list).push(c@),
{
    assert(commands(list.push(c)) =~= commands(list).push(c@));
}

/// A text under a key that is listed in an index.
pub open spec fn indexed(index: Seq<char>, key: Seq<char>, json: Seq<char>) -> Seq<CommandView> {
    seq![
        CommandView::PutField { key, field: "json"@, value: json },
        CommandView::AddMember { set: index, member: key },
    ]
}

/// The same, with a time after which it is forgotten.
pub open spec fn expiring(
    index: Seq<char>,
    key: Seq<char>,
    json: Seq<char>,
    seconds: u64,
) -> Seq<CommandView> {
    seq![
        CommandView::PutField { key, field: "json"@, value: json },
        CommandView::Expire { key, seconds },
        CommandView::AddMember { set: index, member: key },
    ]
}

fn add_indexed(list: &mut Vec<RedisCommand>, index: &str, key: String, json: &String)
    ensures
        commands(final(list)@) == commands(old(list)@) + indexed(index@, key@, json@),
{
    list.push(
        RedisCommand::PutField { key: key.clone(), field: "json".to_owned(), value: json.clone() },
    );
    list.push(RedisCommand::AddMember { set: index.to_owned(), member: key });
    assert(commands(list@) =~= commands(old(list)@) + indexed(index@, key@, json@));
}

fn add_expiring(
    list: &mut Vec<RedisCommand>,
    index: &str,
    key: String,
    json: &String,
    seconds: u64,
)
    ensures
        commands(final(list)@) == commands(old(list)@) + expiring(index@, key@, json@, seconds),
{
    list.push(
        RedisCommand::PutField { key: key.clone(), field: "json".to_owned(), value: json.clone() },
    );
    list.push(RedisCommand::Expire { key: key.clone(), seconds });
    list.push(RedisCommand::AddMember { set: index.to_owned(), member: key });
    assert(commands(list@) =~= commands(old(list)@) + expiring(index@, key@, json@, seconds));
}

/// Stores the override of a chain, given as text.
pub fn put_chain_override(prefix: &str, chain_id: u64, json: &String) -> (r: Vec<RedisCommand>)
    ensures
        commands(r@) == indexed(
            key_in(prefix@, "override:index"@),
            chain_key_in(prefix@, chain_id),
            json@,
        ),
{
    let mut r: Vec<RedisCommand> = Vec::new();
    let index = key(prefix, "override:index");
    add_indexed(&mut r, index.as_str(), chain_override_key(prefix, chain_id), json);
    assert(commands(r@) =~= indexed(
        key_in(prefix@, "override:index"@),
        chain_key_in(prefix@, chain_id),
        json@,
    ));
    r
}

/// Stores the override of an endpoint, given as text.
pub fn put_endpoint_override(prefix: &str, name: &str, json: &String) -> (r: Vec<RedisCommand>)
    ensures
        commands(r@) == indexed(
            key_in(prefix@, "override:index"@),
            endpoint_key_in(prefix@, name@),
            json@,
        ),
{
    let mut r: Vec<RedisCommand> = Vec::new();
    let index = key(prefix, "override:index");
    add_indexed(&mut r, index.as_str(), endpoint_override_key(prefix, name), json);
    assert(commands(r@) =~= indexed(
        key_in(prefix@, "override:index"@),
        endpoint_key_in(prefix@, name@),
        json@,
    ));
    r
}

/// Takes an override back: its text and its place in the index.
pub open spec fn unindexed(index: Seq<char>, key: Seq<char>) -> Seq<CommandView> {
    seq![CommandView::Delete { key }, CommandView::RemoveMember { set: index, member: key }]
}

fn delete_override(prefix: &str, name: String) -> (r: Vec<RedisCommand>)
    ensures
        commands(r@) == unindexed(key_in(prefix@, "override:index"@), name@),
{
    let mut r: Vec<RedisCommand> = Vec::new();
    let set = key(prefix, "override:index");
    r.push(RedisCommand::Delete { key: name.clone() });
    r.push(RedisCommand::RemoveMember { set, member: name });
    assert(commands(r@) =~= unindexed(key_in(prefix@, "override:index"@), name@));
    r
}

pub fn delete_chain_override(prefix: &str, chain_id: u64) -> (r: Vec<RedisCommand>)
    ensures
        commands(r@) == unindexed(
            key_in(prefix@, "override:index"@),
            chain_key_in(prefix@, chain_id),
        ),
{
    delete_override(prefix, chain_override_key(prefix, chain_id))
}

pub fn delete_endpoint_override(prefix: &str, name: &str) -> (r: Vec<RedisCommand>)
    ensures
        commands(r@) == unindexed(
            key_in(prefix@, "override:index"@),
            endpoint_key_in(prefix@, name@),
        ),
{
    delete_override(prefix, endpoint_override_key(prefix, name))
}

/// Stores the catalog, packed, with where it stands.
pub open spec fn catalog_commands(
    prefix: Seq<char>,
    packed: Seq<u8>,
    etag: Option<Seq<char>>,
    fetched_at: u64,
) -> Seq<CommandView> {
    seq![
        CommandView::SetBytes { key: key_in(prefix, "catalog"@), value: packed },
        match etag {
            Some(t) => CommandView::SetText { key: key_in(prefix, "catalog:etag"@), value: t },
            None => CommandView::Delete { key: key_in(prefix, "catalog:etag"@) },
        },
        CommandView::SetNumber { key: key_in(prefix, "catalog:fetched_at"@), value: fetched_at },
        CommandView::PutField {
            key: key_in(prefix, "meta"@),
            field: "schema_version"@,
            value: text::decimal_digits(crate::state::SCHEMA_VERSION as nat),
        },
    ]
}

pub fn set_catalog_metadata(
    prefix: &str,
    packed: Vec<u8>,
    etag: Option<&String>,
    fetched_at: u64,
) -> (r: Vec<RedisCommand>)
    ensures
        commands(r@) == catalog_commands(
            prefix@,
            packed@,
            match etag {
                Some(t) => Some(t@),
                None => None,
            },
            fetched_at,
        ),
{
    let mut r: Vec<RedisCommand> = Vec::new();
    let ghost bytes = packed@;
    r.push(RedisCommand::SetBytes { key: key(prefix, "catalog"), value: packed });
    let tag = key(prefix, "catalog:etag");
    match etag {
        Some(t) => {
            r.push(RedisCommand::SetText { key: tag, value: t.clone() });
        },
        None => {
            r.push(RedisCommand::Delete { key: tag });
        },
    }
    r.push(RedisCommand::SetNumber { key: key(prefix, "catalog:fetched_at"), value: fetched_at });
    r.push(
        RedisCommand::PutField {
            key: key(prefix, "meta"),
            field: "schema_version".to_owned(),
            value: text::decimal(crate::state::SCHEMA_VERSION as u64),
        },
    );
    assert(commands(r@) =~= catalog_commands(
        prefix@,
        bytes,
        match etag {
            Some(t) => Some(t@),
            None => None,
        },
        fetched_at,
    ));
    r
}

/// The text of a health snapshot, and the endpoint it belongs to.
pub struct HealthText {
    pub chain_id: u64,
    pub url: String,
    pub json: String,
}

pub open spec fn health_commands(
    prefix: Seq<char>,
    batch: Seq<HealthText>,
    seconds: u64,
) -> Seq<CommandView>
    decreases batch.len(),
{
    if batch.len() == 0 {
        Seq::empty()
    } else {
        let h = batch.last();
        health_commands(prefix, batch.drop_last(), seconds) + expiring(
            key_in(prefix, "health:index"@),
            health_key_in(prefix, h.chain_id, h.url@),
            h.json@,
            seconds,
        )
    }
}

fn add_health(list: &mut Vec<RedisCommand>, prefix: &str, batch: &Vec<HealthText>, seconds: u64)
    ensures
        commands(final(list)@) == commands(old(list)@) + health_commands(
            prefix@,
            batch@,
            seconds,
        ),
{
    let index = key(prefix, "health:index");
    let ghost start = commands(list@);
    let mut i: usize = 0;
    proof {
        assert(batch@.take(0) =~= Seq::<HealthText>::empty());
        assert(start + health_commands(prefix@, batch@.take(0), seconds) =~= start);
    }
    while i < batch.len()
        invariant
            i <= batch@.len(),
            index@ == key_in(prefix@, "health:index"@),
            commands(list@) == start + health_commands(prefix@, batch@.take(i as int), seconds),
        decreases batch@.len() - i,
    {
        let ghost before = health_commands(prefix@, batch@.take(i as int), seconds);
        assert(batch@.take(i + 1).drop_last() =~= batch@.take(i as int));
        let h = &batch[i];
        let name = health_key(prefix, h.chain_id, h.url.as_str());
        let ghost own = expiring(index@, name@, h.json@, seconds);
        add_expiring(list, index.as_str(), name, &h.json, seconds);
        assert(start + before + own =~= start + (before + own));
        i = i + 1;
    }
    assert(batch@.take(batch@.len() as int) =~= batch@);
}

/// Stores a batch of health snapshots, and when that was.
pub fn flush_health(prefix: &str, batch: &Vec<HealthText>, seconds: u64, now: u64) -> (r: Vec<
    RedisCommand,
>)
    ensures
        commands(r@) == health_commands(prefix@, batch@, seconds).push(
            CommandView::PutField {
                key: key_in(prefix@, "meta"@),
                field: "last_flush_at"@,
                value: text::decimal_digits(now as nat),
            },
        ),
{
    let mut r: Vec<RedisCommand> = Vec::new();
    add_health(&mut r, prefix, batch, seconds);
    let ghost before = r@;
    r.push(
        RedisCommand::PutField {
            key: key(prefix, "meta"),
            field: "last_flush_at".to_owned(),
            value: text::decimal(now),
        },
    );
    proof {
        lemma_push(before, r@.last());
        assert(commands(before) =~= health_commands(prefix@, batch@, seconds));
    }
    r
}

pub open spec fn scored_commands(set: Seq<char>, hot: Seq<(u64, u64)>) -> Seq<CommandView> {
    hot.map_values(
        |p: (u64, u64)| CommandView::AddScored { set, score: p.1, member: p.0 },
    )
}

fn add_scored(list: &mut Vec<RedisCommand>, set: &str, hot: &Vec<(u64, u64)>)
    ensures
        commands(final(list)@) == commands(old(list)@) + scored_commands(set@, hot@),
{
    let ghost start = commands(list@);
    let mut i: usize = 0;
    assert(start + scored_commands(set@, hot@.take(0)) =~= start);
    while i < hot.len()
        invariant
            i <= hot@.len(),
            commands(list@) == start + scored_commands(set@, hot@.take(i as int)),
        decreases hot@.len() - i,
    {
        let ghost before = list@;
        let (member, score): (u64, u64) = hot[i];
        list.push(RedisCommand::AddScored { set: set.to_owned(), score, member });
        proof {
            lemma_push(before, list@.last());
            assert(start + scored_commands(set@, hot@.take(i + 1)) =~= (start + scored_commands(
                set@,
                hot@.take(i as int),
            )).push(list@.last()@));
        }
        i = i + 1;
    }
    assert(hot@.take(hot@.len() as int) =~= hot@);
}

/// How long the list of hot chains of an instance is kept.
pub const HOT_SECONDS: u64 = 60;

/// Stores which chains are hot, in place of what was stored before.
pub fn set_hot_chains(prefix: &str, instance: &str, hot: &Vec<(u64, u64)>) -> (r: Vec<RedisCommand>)
    ensures
        ({
            let set = hot_key_in(prefix@, instance@);
            commands(r@) == (seq![CommandView::Delete { key: set }] + scored_commands(
                set,
                hot@,
            )).push(CommandView::Expire { key: set, seconds: HOT_SECONDS })
        }),
{
    let set = hot_key(prefix, instance);
    let mut r: Vec<RedisCommand> = Vec::new();
    r.push(RedisCommand::Delete { key: set.clone() });
    assert(commands(r@) =~= seq![CommandView::Delete { key: set@ }]);
    add_scored(&mut r, set.as_str(), hot);
    let ghost before = r@;
    r.push(RedisCommand::Expire { key: set, seconds: HOT_SECONDS });
    proof {
        lemma_push(before, r@.last());
    }
    r
}

pub open spec fn auto_command(prefix: Seq<char>, chain_id: u64, json: Seq<char>) -> CommandView {
    CommandView::PutField {
        key: key_in(prefix, "chains:auto"@),
        field: text::decimal_digits(chain_id as nat),
        value: json,
    }
}

/// Stores that a chain was chosen automatically.
pub fn put_auto_chain(prefix: &str, chain_id: u64, json: &String) -> (r: RedisCommand)
    ensures
        r@ == auto_command(prefix@, chain_id, json@),
{
    RedisCommand::PutField {
        key: key(prefix, "chains:auto"),
        field: text::decimal(chain_id),
        value: json.clone(),
    }
}

/// A state in the form in which it is stored: texts in place of values.
pub struct StateTexts {
    /// The packed catalog, if there is one.
    pub catalog: Option<Vec<u8>>,
    pub catalog_etag: Option<String>,
    pub catalog_fetched_at: u64,
    pub chain_overrides: Vec<(u64, String)>,
    pub endpoint_overrides: Vec<(String, String)>,
    pub health: Vec<HealthText>,
    pub hot_chains: Vec<(u64, u64)>,
    pub auto_chains: Vec<(u64, String)>,
}

/// Which stored keys an import deletes: all of the namespace but those of the catalog.
pub open spec fn deletions(prefix: Seq<char>, old_keys: Seq<String>) -> Seq<CommandView>
    decreases old_keys.len(),
{
    if old_keys.len() == 0 {
        Seq::empty()
    } else {
        let before = deletions(prefix, old_keys.drop_last());
        let k = old_keys.last()@;
        if in_namespace(prefix, k) && !text::stands_at(k, key_in(prefix, "catalog"@), 0) {
            before.push(CommandView::Delete { key: k })
        } else {
            before
        }
    }
}

pub open spec fn chain_texts(prefix: Seq<char>, list: Seq<(u64, String)>) -> Seq<CommandView>
    decreases list.len(),
{
    if list.len() == 0 {
        Seq::empty()
    } else {
        chain_texts(prefix, list.drop_last()) + indexed(
            key_in(prefix, "override:index"@),
            chain_key_in(prefix, list.last().0),
            list.last().1@,
        )
    }
}

pub open spec fn endpoint_texts(prefix: Seq<char>, list: Seq<(String, String)>) -> Seq<CommandView>
    decreases list.len(),
{
    if list.len() == 0 {
        Seq::empty()
    } else {
        endpoint_texts(prefix, list.drop_last()) + indexed(
            key_in(prefix, "override:index"@),
            endpoint_key_in(prefix, list.last().0@),
            list.last().1@,
        )
    }
}

pub open spec fn auto_texts(prefix: Seq<char>, list: Seq<(u64, String)>) -> Seq<CommandView> {
    list.map_values(|p: (u64, String)| auto_command(prefix, p.0, p.1@))
}

/// The version, and when the state was set up.
pub open spec fn seed_commands(prefix: Seq<char>, now: u64) -> Seq<CommandView> {
    seq![
        CommandView::PutField {
            key: key_in(prefix, "meta"@),
            field: "schema_version"@,
            value: text::decimal_digits(crate::state::SCHEMA_VERSION as nat),
        },
        CommandView::PutField {
            key: key_in(prefix, "meta"@),
            field: "seeded_at"@,
            value: text::decimal_digits(now as nat),
        },
    ]
}

/// The catalog of an import, where it has one.
pub open spec fn imported_catalog(
    prefix: Seq<char>,
    packed: Option<Seq<u8>>,
    etag: Option<Seq<char>>,
    fetched_at: u64,
) -> Seq<CommandView> {
    match packed {
        Some(bytes) => {
            let data = CommandView::SetBytes { key: key_in(prefix, "catalog"@), value: bytes };
            let time = CommandView::SetNumber {
                key: key_in(prefix, "catalog:fetched_at"@),
                value: fetched_at,
            };
            match etag {
                Some(t) => seq![
                    data,
                    CommandView::SetText { key: key_in(prefix, "catalog:etag"@), value: t },
                    time,
                ],
                None => seq![data, time],
            }
        },
        None => Seq::empty(),
    }
}

/// Replaces the state: what was there is deleted, but for the catalog, and everything is written anew.
pub open spec fn import_commands(
    prefix: Seq<char>,
    instance: Seq<char>,
    old_keys: Seq<String>,
    v: StateTexts,
    seconds: u64,
    now: u64,
) -> Seq<CommandView> {
    deletions(prefix, old_keys) + seed_commands(prefix, now) + imported_catalog(
        prefix,
        match v.catalog {
            Some(b) => Some(b@),
            None => None,
        },
        crate::chainlist::characters(v.catalog_etag),
        v.catalog_fetched_at,
    ) + chain_texts(prefix, v.chain_overrides@) + endpoint_texts(prefix, v.endpoint_overrides@)
        + health_commands(prefix, v.health@, seconds) + scored_commands(
        hot_key_in(prefix, instance),
        v.hot_chains@,
    ) + auto_texts(prefix, v.auto_chains@)
}

fn add_deletions(list: &mut Vec<RedisCommand>, prefix: &str, old_keys: &Vec<String>)
    ensures
        commands(final(list)@) == commands(old(list)@) + deletions(prefix@, old_keys@),
{
    let catalog = key(prefix, "catalog");
    let front = text::join(prefix, ":");
    let ghost start = commands(list@);
    let mut i: usize = 0;
    proof {
        assert(old_keys@.take(0) =~= Seq::<String>::empty());
        assert(start + deletions(prefix@, old_keys@.take(0)) =~= start);
    }
    while i < old_keys.len()
        invariant
            i <= old_keys@.len(),
            catalog@ == key_in(prefix@, "catalog"@),
            front@ == prefix@ + ":"@,
            commands(list@) == start + deletions(prefix@, old_keys@.take(i as int)),
        decreases old_keys@.len() - i,
    {
        let ghost before = list@;
        assert(old_keys@.take(i + 1).drop_last() =~= old_keys@.take(i as int));
        if text::starts_with(old_keys[i].as_str(), front.as_str()) && !text::starts_with(
            old_keys[i].as_str(),
            catalog.as_str(),
        ) {
            list.push(RedisCommand::Delete { key: old_keys[i].clone() });
            proof {
                lemma_push(before, list@.last());
                assert(start + deletions(prefix@, old_keys@.take(i + 1)) =~= (start + deletions(
                    prefix@,
                    old_keys@.take(i as int),
                )).push(list@.last()@));
            }
        }
        i = i + 1;
    }
    assert(old_keys@.take(old_keys@.len() as int) =~= old_keys@);
}

fn add_seed(list: &mut Vec<RedisCommand>, prefix: &str, now: u64)
    ensures
        commands(final(list)@) == commands(old(list)@) + seed_commands(prefix@, now),
{
    list.push(
        RedisCommand::PutField {
            key: key(prefix, "meta"),
            field: "schema_version".to_owned(),
            value: text::decimal(crate::state::SCHEMA_VERSION as u64),
        },
    );
    list.push(
        RedisCommand::PutField {
            key: key(prefix, "meta"),
            field: "seeded_at".to_owned(),
            value: text::decimal(now),
        },
    );
    assert(commands(list@) =~= commands(old(list)@) + seed_commands(prefix@, now));
}

/// Sets up an empty namespace.
pub fn seed(prefix: &str, now: u64) -> (r: Vec<RedisCommand>)
    ensures
        commands(r@) == seed_commands(prefix@, now),
{
    let mut r: Vec<RedisCommand> = Vec::new();
    add_seed(&mut r, prefix, now);
    assert(commands(r@) =~= seed_commands(prefix@, now));
    r
}

fn add_catalog(
    list: &mut Vec<RedisCommand>,
    prefix: &str,
    packed: Option<Vec<u8>>,
    etag: &Option<String>,
    fetched_at: u64,
)
    ensures
        commands(final(list)@) == commands(old(list)@) + imported_catalog(
            prefix@,
            match packed {
                Some(b) => Some(b@),
                None => None,
            },
            crate::chainlist::characters(*etag),
            fetched_at,
        ),
{
    let ghost start = commands(list@);
    if let Some(bytes) = packed {
        let ghost b = bytes@;
        list.push(RedisCommand::SetBytes { key: key(prefix, "catalog"), value: bytes });
        if let Some(t) = etag {
            list.push(
                RedisCommand::SetText { key: key(prefix, "catalog:etag"), value: t.clone() },
            );
        }
        list.push(
            RedisCommand::SetNumber { key: key(prefix, "catalog:fetched_at"), value: fetched_at },
        );
        assert(commands(list@) =~= start + imported_catalog(
            prefix@,
            Some(b),
            crate::chainlist::characters(*etag),
            fetched_at,
        ));
    } else {
        assert(commands(list@) =~= start + Seq::<CommandView>::empty());
    }
}

fn add_chain_texts(list: &mut Vec<RedisCommand>, prefix: &str, texts: &Vec<(u64, String)>)
    ensures
        commands(final(list)@) == commands(old(list)@) + chain_texts(prefix@, texts@),
{
    let index = key(prefix, "override:index");
    let ghost start = commands(list@);
    let mut i: usize = 0;
    proof {
        assert(texts@.take(0) =~= Seq::<(u64, String)>::empty());
        assert(start + chain_texts(prefix@, texts@.take(0)) =~= start);
    }
    while i < texts.len()
        invariant
            i <= texts@.len(),
            index@ == key_in(prefix@, "override:index"@),
            commands(list@) == start + chain_texts(prefix@, texts@.take(i as int)),
        decreases texts@.len() - i,
    {
        let ghost before = chain_texts(prefix@, texts@.take(i as int));
        assert(texts@.take(i + 1).drop_last() =~= texts@.take(i as int));
        let name = chain_override_key(prefix, texts[i].0);
        let ghost own = indexed(index@, name@, texts@[i as int].1@);
        add_indexed(list, index.as_str(), name, &texts[i].1);
        assert(start + before + own =~= start + (before + own));
        i = i + 1;
    }
    assert(texts@.take(texts@.len() as int) =~= texts@);
}

fn add_endpoint_texts(list: &mut Vec<RedisCommand>, prefix: &str, texts: &Vec<(String, String)>)
    ensures
        commands(final(list)@) == commands(old(list)@) + endpoint_texts(prefix@, texts@),
{
    let index = key(prefix, "override:index");
    let ghost start = commands(list@);
    let mut i: usize = 0;
    proof {
        assert(texts@.take(0) =~= Seq::<(String, String)>::empty());
        assert(start + endpoint_texts(prefix@, texts@.take(0)) =~= start);
    }
    while i < texts.len()
        invariant
            i <= texts@.len(),
            index@ == key_in(prefix@, "override:index"@),
            commands(list@) == start + endpoint_texts(prefix@, texts@.take(i as int)),
        decreases texts@.len() - i,
    {
        let ghost before = endpoint_texts(prefix@, texts@.take(i as int));
        assert(texts@.take(i + 1).drop_last() =~= texts@.take(i as int));
        let name = endpoint_override_key(prefix, texts[i].0.as_str());
        let ghost own = indexed(index@, name@, texts@[i as int].1@);
        add_indexed(list, index.as_str(), name, &texts[i].1);
        assert(start + before + own =~= start + (before + own));
        i = i + 1;
    }
    assert(texts@.take(texts@.len() as int) =~= texts@);
}

fn add_auto_texts(list: &mut Vec<RedisCommand>, prefix: &str, texts: &Vec<(u64, String)>)
    ensures
        commands(final(list)@) == commands(old(list)@) + auto_texts(prefix@, texts@),
{
    let ghost start = commands(list@);
    let mut i: usize = 0;
    assert(start + auto_texts(prefix@, texts@.take(0)) =~= start);
    while i < texts.len()
        invariant
            i <= texts@.len(),
            commands(list@) == start + auto_texts(prefix@, texts@.take(i as int)),
        decreases texts@.len() - i,
    {
        let ghost before = list@;
        list.push(put_auto_chain(prefix, texts[i].0, &texts[i].1));
        proof {
            lemma_push(before, list@.last());
            assert(start + auto_texts(prefix@, texts@.take(i + 1)) =~= (start + auto_texts(
                prefix@,
                texts@.take(i as int),
            )).push(list@.last()@));
        }
        i = i + 1;
    }
    assert(texts@.take(texts@.len() as int) =~= texts@);
}

/// The commands that replace the state.
pub fn import(
    prefix: &str,
    instance: &str,
    old_keys: &Vec<String>,
    v: StateTexts,
    seconds: u64,
    now: u64,
) -> (r: Vec<RedisCommand>)
    ensures
        commands(r@) == import_commands(prefix@, instance@, old_keys@, v, seconds, now),
{
    let mut r: Vec<RedisCommand> = Vec::new();
    let set = hot_key(prefix, instance);
    assert(commands(r@) =~= Seq::<CommandView>::empty());
    add_deletions(&mut r, prefix, old_keys);
    assert(commands(r@) =~= deletions(prefix@, old_keys@));
    add_seed(&mut r, prefix, now);
    add_catalog(&mut r, prefix, v.catalog, &v.catalog_etag, v.catalog_fetched_at);
    add_chain_texts(&mut r, prefix, &v.chain_overrides);
    add_endpoint_texts(&mut r, prefix, &v.endpoint_overrides);
    add_health(&mut r, prefix, &v.health, seconds);
    add_scored(&mut r, set.as_str(), &v.hot_chains);
    add_auto_texts(&mut r, prefix, &v.auto_chains);
    r
}

/// The deletion of all keys of the namespace.
pub open spec fn clearing(prefix: Seq<char>, keys: Seq<String>) -> Seq<CommandView>
    decreases keys.len(),
{
    if keys.len() == 0 {
        Seq::empty()
    } else {
        let before = clearing(prefix, keys.drop_last());
        if in_namespace(prefix, keys.last()@) {
            before.push(CommandView::Delete { key: keys.last()@ })
        } else {
            before
        }
    }
}

/// Empties a namespace and sets it up again.
pub open spec fn reset_commands(prefix: Seq<char>, keys: Seq<String>, now: u64) -> Seq<
    CommandView,
> {
    clearing(prefix, keys) + seed_commands(prefix, now)
}

/// The commands that delete everything in a namespace and set it up again.
pub fn reset(prefix: &str, keys: &Vec<String>, now: u64) -> (r: Vec<RedisCommand>)
    ensures
        commands(r@) == reset_commands(prefix@, keys@, now),
{
    let front = text::join(prefix, ":");
    let mut r: Vec<RedisCommand> = Vec::new();
    let mut i: usize = 0;
    proof {
        assert(keys@.take(0) =~= Seq::<String>::empty());
        assert(commands(r@) =~= Seq::<CommandView>::empty());
    }
    while i < keys.len()
        invariant
            i <= keys@.len(),
            front@ == prefix@ + ":"@,
            commands(r@) == clearing(prefix@, keys@.take(i as int)),
        decreases keys@.len() - i,
    {
        let ghost before = r@;
        assert(keys@.take(i + 1).drop_last() =~= keys@.take(i as int));
        if text::starts_with(keys[i].as_str(), front.as_str()) {
            r.push(RedisCommand::Delete { key: keys[i].clone() });
            proof {
                lemma_push(before, r@.last());
            }
        }
        i = i + 1;
    }
    assert(keys@.take(keys@.len() as int) =~= keys@);
    add_seed(&mut r, prefix, now);
    r
}

/// A reset deletes every key of the namespace that it is told of.
pub proof fn lemma_reset_clears_namespace(prefix: Seq<char>, keys: Seq<String>, now: u64, i: int)
    requires
        0 <= i < keys.len(),
        in_namespace(prefix, keys[i]@),
    ensures
        reset_commands(prefix, keys, now).contains(CommandView::Delete { key: keys[i]@ }),
{
    lemma_clearing_reaches(prefix, keys, i);
    let c = CommandView::Delete { key: keys[i]@ };
    let list = clearing(prefix, keys);
    let n = choose|n: int| 0 <= n < list.len() && list[n] == c;
    assert(reset_commands(prefix, keys, now)[n] == c);
}

proof fn lemma_clearing_reaches(prefix: Seq<char>, keys: Seq<String>, i: int)
    requires
        0 <= i < keys.len(),
        in_namespace(prefix, keys[i]@),
    ensures
        clearing(prefix, keys).contains(CommandView::Delete { key: keys[i]@ }),
    decreases keys.len(),
{
    let short = keys.drop_last();
    let before = clearing(prefix, short);
    let all = clearing(prefix, keys);
    let c = CommandView::Delete { key: keys[i]@ };
    if i < short.len() {
        assert(short[i] == keys[i]);
        lemma_clearing_reaches(prefix, short, i);
        let n = choose|n: int| 0 <= n < before.len() && before[n] == c;
        assert(all[n] == c);
    } else {
        assert(all[before.len() as int] == c);
    }
}

/// The key that a command writes or deletes.
pub open spec fn written_key(c: CommandView) -> Seq<char> {
    match c {
        CommandView::Delete { key } => key,
        CommandView::SetText { key, .. } => key,
        CommandView::SetBytes { key, .. } => key,
        CommandView::SetNumber { key, .. } => key,
        CommandView::PutField { key, .. } => key,
        CommandView::AddMember { set, .. } => set,
        CommandView::RemoveMember { set, .. } => set,
        CommandView::AddScored { set, .. } => set,
        CommandView::Expire { key, .. } => key,
    }
}

/// Whether commands write and delete keys of one namespace only.
pub open spec fn stay_in(prefix: Seq<char>, list: Seq<CommandView>) -> bool {
    forall|i: int| 0 <= i < list.len() ==> in_namespace(prefix, written_key(#[trigger] list[i]))
}

proof fn lemma_both_stay(prefix: Seq<char>, a: Seq<CommandView>, b: Seq<CommandView>)
    requires
        stay_in(prefix, a),
        stay_in(prefix, b),
    ensures
        stay_in(prefix, a + b),
{
    assert forall|i: int| 0 <= i < (a + b).len() implies in_namespace(
        prefix,
        written_key(#[trigger] (a + b)[i]),
    ) by {
        if i < a.len() {
            assert((a + b)[i] == a[i]);
        } else {
            assert((a + b)[i] == b[i - a.len()]);
        }
    }
}

proof fn lemma_deletions_stay(prefix: Seq<char>, keys: Seq<String>)
    ensures
        stay_in(prefix, deletions(prefix, keys)),
        stay_in(prefix, clearing(prefix, keys)),
    decreases keys.len(),
{
    if keys.len() > 0 {
        lemma_deletions_stay(prefix, keys.drop_last());
    }
}

proof fn lemma_settings_stay(
    prefix: Seq<char>,
    chains: Seq<(u64, String)>,
    endpoints: Seq<(String, String)>,
)
    ensures
        stay_in(prefix, chain_texts(prefix, chains)),
        stay_in(prefix, endpoint_texts(prefix, endpoints)),
    decreases chains.len() + endpoints.len(),
{
    lemma_key_in_namespace(prefix, "override:index"@);
    if chains.len() > 0 {
        let id = chains.last().0;
        lemma_settings_stay(prefix, chains.drop_last(), endpoints);
        lemma_key_in_namespace(prefix, "override:chain:"@ + text::decimal_digits(id as nat));
        lemma_both_stay(
            prefix,
            chain_texts(prefix, chains.drop_last()),
            indexed(
                key_in(prefix, "override:index"@),
                chain_key_in(prefix, id),
                chains.last().1@,
            ),
        );
    } else if endpoints.len() > 0 {
        let name = endpoints.last().0@;
        lemma_settings_stay(prefix, chains, endpoints.drop_last());
        lemma_key_in_namespace(prefix, "override:endpoint:"@ + name);
        lemma_both_stay(
            prefix,
            endpoint_texts(prefix, endpoints.drop_last()),
            indexed(
                key_in(prefix, "override:index"@),
                endpoint_key_in(prefix, name),
                endpoints.last().1@,
            ),
        );
    }
}

proof fn lemma_health_stays(prefix: Seq<char>, batch: Seq<HealthText>, seconds: u64)
    ensures
        stay_in(prefix, health_commands(prefix, batch, seconds)),
    decreases batch.len(),
{
    if batch.len() > 0 {
        let h = batch.last();
        lemma_health_stays(prefix, batch.drop_last(), seconds);
        lemma_key_in_namespace(prefix, "health:index"@);
        let own = health_key_in(prefix, h.chain_id, h.url@);
        assert(in_namespace(prefix, own)) by {
            reveal_strlit(":");
            reveal_strlit(":health:");
            let front = prefix + ":"@;
            assert(own.subrange(0, front.len() as int) =~= front);
        }
        lemma_both_stay(
            prefix,
            health_commands(prefix, batch.drop_last(), seconds),
            expiring(key_in(prefix, "health:index"@), own, h.json@, seconds),
        );
    }
}

/// Changes of single settings, of the catalog and of the hot and automatic chains write and delete keys
/// of the namespace only.
pub proof fn lemma_writes_stay_in_namespace(
    prefix: Seq<char>,
    instance: Seq<char>,
    chain_id: u64,
    name: Seq<char>,
    json: Seq<char>,
    packed: Seq<u8>,
    etag: Option<Seq<char>>,
    hot: Seq<(u64, u64)>,
    batch: Seq<HealthText>,
    time: u64,
)
    ensures
        ({
            let index = key_in(prefix, "override:index"@);
            &&& stay_in(prefix, indexed(index, chain_key_in(prefix, chain_id), json))
            &&& stay_in(prefix, indexed(index, endpoint_key_in(prefix, name), json))
            &&& stay_in(prefix, unindexed(index, chain_key_in(prefix, chain_id)))
            &&& stay_in(prefix, unindexed(index, endpoint_key_in(prefix, name)))
            &&& stay_in(prefix, catalog_commands(prefix, packed, etag, time))
            &&& stay_in(prefix, health_commands(prefix, batch, time))
            &&& stay_in(prefix, scored_commands(hot_key_in(prefix, instance), hot))
            &&& stay_in(prefix, seed_commands(prefix, time))
            &&& in_namespace(prefix, hot_key_in(prefix, instance))
            &&& in_namespace(prefix, key_in(prefix, "meta"@))
            &&& in_namespace(prefix, written_key(auto_command(prefix, chain_id, json)))
        }),
{
    lemma_key_in_namespace(prefix, "override:index"@);
    lemma_key_in_namespace(prefix, "override:chain:"@ + text::decimal_digits(chain_id as nat));
    lemma_key_in_namespace(prefix, "override:endpoint:"@ + name);
    lemma_key_in_namespace(prefix, "catalog"@);
    lemma_key_in_namespace(prefix, "catalog:etag"@);
    lemma_key_in_namespace(prefix, "catalog:fetched_at"@);
    lemma_key_in_namespace(prefix, "meta"@);
    lemma_key_in_namespace(prefix, "hot:"@ + instance);
    lemma_key_in_namespace(prefix, "chains:auto"@);
    lemma_health_stays(prefix, batch, time);
}

/// An import and a reset write and delete keys of the namespace only, whatever keys they are told of.
pub proof fn lemma_replacement_stays_in_namespace(
    prefix: Seq<char>,
    instance: Seq<char>,
    keys: Seq<String>,
    v: StateTexts,
    seconds: u64,
    now: u64,
)
    ensures
        stay_in(prefix, import_commands(prefix, instance, keys, v, seconds, now)),
        stay_in(prefix, reset_commands(prefix, keys, now)),
{
    lemma_deletions_stay(prefix, keys);
    lemma_settings_stay(prefix, v.chain_overrides@, v.endpoint_overrides@);
    lemma_health_stays(prefix, v.health@, seconds);
    lemma_key_in_namespace(prefix, "meta"@);
    lemma_key_in_namespace(prefix, "catalog"@);
    lemma_key_in_namespace(prefix, "catalog:etag"@);
    lemma_key_in_namespace(prefix, "catalog:fetched_at"@);
    lemma_key_in_namespace(prefix, "hot:"@ + instance);
    lemma_key_in_namespace(prefix, "chains:auto"@);
    let catalog = imported_catalog(
        prefix,
        match v.catalog {
            Some(b) => Some(b@),
            None => None,
        },
        crate::chainlist::characters(v.catalog_etag),
        v.catalog_fetched_at,
    );
    let a = deletions(prefix, keys);
    let b = a + seed_commands(prefix, now);
    let c = b + catalog;
    let d = c + chain_texts(prefix, v.chain_overrides@);
    let e = d + endpoint_texts(prefix, v.endpoint_overrides@);
    let f = e + health_commands(prefix, v.health@, seconds);
    let hot = scored_commands(hot_key_in(prefix, instance), v.hot_chains@);
    lemma_both_stay(prefix, clearing(prefix, keys), seed_commands(prefix, now));
    lemma_both_stay(prefix, a, seed_commands(prefix, now));
    lemma_both_stay(prefix, b, catalog);
    lemma_both_stay(prefix, c, chain_texts(prefix, v.chain_overrides@));
    lemma_both_stay(prefix, d, endpoint_texts(prefix, v.endpoint_overrides@));
    lemma_both_stay(prefix, e, health_commands(prefix, v.health@, seconds));
    lemma_both_stay(prefix, f, hot);
    lemma_both_stay(prefix, f + hot, auto_texts(prefix, v.auto_chains@));
}

/// An import never deletes what is stored of the catalog.
pub proof fn lemma_import_keeps_catalog(prefix: Seq<char>, old_keys: Seq<String>, key: Seq<char>)
    requires
        text::stands_at(key, key_in(prefix, "catalog"@), 0),
    ensures
        !deletions(prefix, old_keys).contains(CommandView::Delete { key }),
    decreases old_keys.len(),
{
    if old_keys.len() > 0 {
        lemma_import_keeps_catalog(prefix, old_keys.drop_last(), key);
        let before = deletions(prefix, old_keys.drop_last());
        let last = CommandView::Delete { key: old_keys.last()@ };
        crate::registry_model::lemma_push_contains(before, last, CommandView::Delete { key });
    }
}

/// Chains that were chosen automatically are written by every import that holds them, so that none is
/// lost.
pub proof fn lemma_import_keeps_automatic_chains(
    prefix: Seq<char>,
    instance: Seq<char>,
    old_keys: Seq<String>,
    v: StateTexts,
    seconds: u64,
    now: u64,
    i: int,
)
    requires
        0 <= i < v.auto_chains@.len(),
    ensures
        import_commands(prefix, instance, old_keys, v, seconds, now).contains(
            auto_command(prefix, v.auto_chains@[i].0, v.auto_chains@[i].1@),
        ),
{
    let all = import_commands(prefix, instance, old_keys, v, seconds, now);
    let own = auto_texts(prefix, v.auto_chains@);
    let at = all.len() - own.len() + i;
    assert(all[at] == own[i]);
}

/// What is understood of the version that a database states: none is taken for an empty database.
pub open spec fn schema_of(stored: Option<Seq<char>>) -> u32 {
    match stored {
        Some(s) => match text::read_bounded(s, 10, u32::MAX as int) {
            Some(n) => n as u32,
            None => crate::state::SCHEMA_VERSION,
        },
        None => crate::state::SCHEMA_VERSION,
    }
}

/// Checks the version that a database states; tells whether the database has to be set up first.
pub fn check_schema(stored: Option<&str>) -> (r: Result<bool, crate::state::UnsupportedSchema>)
    ensures
        ({
            let schema = schema_of(
                match stored {
                    Some(s) => Some(s@),
                    None => None,
                },
            );
            match r {
                Ok(empty) => schema == crate::state::SCHEMA_VERSION && empty == (stored is None),
                Err(e) => schema != crate::state::SCHEMA_VERSION && e.version == schema,
            }
        }),
{
    let version: u32 = match stored {
        Some(s) => match text::parse_u32(s) {
            Some(n) => n,
            None => crate::state::SCHEMA_VERSION,
        },
        None => crate::state::SCHEMA_VERSION,
    };
    if version == crate::state::SCHEMA_VERSION {
        Ok(stored.is_none())
    } else {
        Err(crate::state::UnsupportedSchema { version })
    }
}

} // verus!
