//! Keys under which the state of chains and endpoints is kept.
use crate::text;
use vstd::prelude::*;

verus! {

/// The digest of a URL in hexadecimal.
pub uninterp spec fn digest(url: Seq<char>) -> Seq<char>;

/// `blake3::hash` of the bytes of the URL and `Hash::to_hex` of the result: the digest of the text,
/// written as two hexadecimal digits for each of its thirty-two bytes.
#[verifier::external_body]
fn url_digest(url: &str) -> (h: String)
    ensures
        h@ == digest(url@),
        h@.len() == 64,
{
    blake3::hash(url.as_bytes()).to_hex().to_string()
}

/// The part of a digest that keys hold.
pub open spec fn short_digest(url: Seq<char>) -> Seq<char> {
    digest(url).take(16)
}

/// The sixteen hexadecimal digits that stand for a URL in keys.
pub fn short_hash(url: &str) -> (h: String)
    ensures
        h@ == short_digest(url@),
{
    let all = text::chars(url_digest(url).as_str());
    let h = text::text_of(&all, 0, 16);
    assert(h@ =~= short_digest(url@));
    h
}

/// What every key of a chain begins with.
pub open spec fn chain_prefix(chain_id: u64) -> Seq<char> {
    text::decimal_digits(chain_id as nat).push(':')
}

pub fn key_prefix(chain_id: u64) -> (s: String)
    ensures
        s@ == chain_prefix(chain_id),
{
    let mut s = text::decimal(chain_id);
    s.push(':');
    s
}

/// The key of an endpoint of a chain.
pub open spec fn key_of(chain_id: u64, url: Seq<char>) -> Seq<char> {
    chain_prefix(chain_id) + short_digest(url)
}

pub fn endpoint_key(chain_id: u64, url: &str) -> (k: String)
    ensures
        k@ == key_of(chain_id, url@),
{
    let prefix = key_prefix(chain_id);
    let hash = short_hash(url);
    text::join(prefix.as_str(), hash.as_str())
}

/// The part of a key before its first colon.
pub open spec fn before_colon(key: Seq<char>) -> Seq<char>
    decreases key.len(),
{
    if key.len() == 0 || key[0] == ':' {
        Seq::empty()
    } else {
        seq![key[0]] + before_colon(key.skip(1))
    }
}

/// The chain that a key names; zero where it names none.
pub open spec fn chain_of(key: Seq<char>) -> u64 {
    match text::read_bounded(before_colon(key), 10, u64::MAX as int) {
        Some(n) => n as u64,
        None => 0,
    }
}

proof fn lemma_before_colon(key: Seq<char>, n: int)
    requires
        0 <= n <= key.len(),
        n == key.len() || key[n] == ':',
        forall|i: int| 0 <= i < n ==> key[i] != ':',
    ensures
        before_colon(key) == key.take(n),
    decreases n,
{
    if n > 0 {
        lemma_before_colon(key.skip(1), n - 1);
        assert(seq![key[0]] + key.skip(1).take(n - 1) =~= key.take(n));
    } else {
        assert(key.take(0) =~= Seq::<char>::empty());
    }
}

pub fn key_chain(key: &str) -> (id: u64)
    ensures
        id == chain_of(key@),
{
    let all = text::chars(key);
    let mut n: usize = 0;
    while n < all.len() && all[n] != ':'
        invariant
            n <= all@.len(),
            forall|i: int| 0 <= i < n ==> all@[i] != ':',
        decreases all@.len() - n,
    {
        n = n + 1;
    }
    proof {
        lemma_before_colon(key@, n as int);
    }
    let name = text::text_of(&all, 0, n);
    assert(name@ =~= key@.take(n as int));
    match text::parse_u64(name.as_str()) {
        Some(id) => id,
        None => 0,
    }
}

/// Decimal digits hold no colon.
proof fn lemma_digits_hold_no_colon(n: nat)
    ensures
        forall|i: int|
            0 <= i < text::decimal_digits(n).len() ==> #[trigger] text::decimal_digits(n)[i] != ':',
        text::decimal_digits(n).len() > 0,
    decreases n,
{
    if n >= 10 {
        lemma_digits_hold_no_colon(n / 10);
    }
}

/// Different numbers have different digits.
pub proof fn lemma_decimal_is_injective(a: nat, b: nat)
    requires
        text::decimal_digits(a) == text::decimal_digits(b),
    ensures
        a == b,
    decreases a,
{
    let da = text::decimal_digits(a);
    let db = text::decimal_digits(b);
    if a < 10 && b < 10 {
        assert(da[0] == db[0]);
    } else if a >= 10 && b >= 10 {
        assert(da.drop_last() =~= text::decimal_digits(a / 10));
        assert(db.drop_last() =~= text::decimal_digits(b / 10));
        lemma_decimal_is_injective(a / 10, b / 10);
        assert(da.last() == db.last());
    } else {
        lemma_digits_hold_no_colon(a / 10);
        lemma_digits_hold_no_colon(b / 10);
    }
}

pub proof fn lemma_digits_read_back(n: nat)
    ensures
        text::all_digits(text::decimal_digits(n), 10),
        text::number_of(text::decimal_digits(n), 10) == n,
        text::decimal_digits(n)[0] != '+',
        text::decimal_digits(n).len() > 0,
    decreases n,
{
    let d = text::decimal_digits(n);
    if n >= 10 {
        lemma_digits_read_back(n / 10);
        assert(d.drop_last() =~= text::decimal_digits(n / 10));
    } else {
        assert(d.drop_last() =~= Seq::<char>::empty());
        assert(text::number_of(d.drop_last(), 10) == 0);
    }
}

/// The key of an endpoint names its chain.
pub proof fn lemma_key_names_its_chain(chain_id: u64, url: Seq<char>)
    ensures
        chain_of(key_of(chain_id, url)) == chain_id,
{
    let key = key_of(chain_id, url);
    let d = text::decimal_digits(chain_id as nat);
    lemma_digits_hold_no_colon(chain_id as nat);
    lemma_digits_read_back(chain_id as nat);
    assert forall|i: int| 0 <= i < d.len() implies key[i] != ':' by {
        assert(key[i] == d[i]);
    }
    lemma_before_colon(key, d.len() as int);
    assert(key.take(d.len() as int) =~= d);
}

/// Texts that begin with the prefixes of two chains differ, unless the chains are the same.
pub proof fn lemma_prefixes_are_apart(a: u64, x: Seq<char>, b: u64, y: Seq<char>)
    requires
        chain_prefix(a) + x == chain_prefix(b) + y,
    ensures
        a == b,
{
    let s = chain_prefix(a) + x;
    let t = chain_prefix(b) + y;
    let da = text::decimal_digits(a as nat);
    let db = text::decimal_digits(b as nat);
    lemma_digits_hold_no_colon(a as nat);
    lemma_digits_hold_no_colon(b as nat);
    assert(s[da.len() as int] == ':');
    assert(t[db.len() as int] == ':');
    if da.len() < db.len() {
        assert(t[da.len() as int] == db[da.len() as int]);
    } else if db.len() < da.len() {
        assert(s[db.len() as int] == da[db.len() as int]);
    } else {
        assert forall|i: int| 0 <= i < da.len() implies da[i] == db[i] by {
            assert(s[i] == da[i]);
            assert(t[i] == db[i]);
        }
        assert(da =~= db);
        lemma_decimal_is_injective(a as nat, b as nat);
    }
}

/// The key of an endpoint begins with the prefix of its own chain and of no other.
pub proof fn lemma_key_belongs_to_one_chain(chain_id: u64, url: Seq<char>, other: u64)
    ensures
        text::stands_at(key_of(chain_id, url), chain_prefix(other), 0) <==> other == chain_id,
{
    let key = key_of(chain_id, url);
    let a = text::decimal_digits(chain_id as nat);
    let b = text::decimal_digits(other as nat);
    lemma_digits_hold_no_colon(chain_id as nat);
    lemma_digits_hold_no_colon(other as nat);
    if other == chain_id {
        assert(key.subrange(0, chain_prefix(other).len() as int) =~= chain_prefix(other));
    }
    if text::stands_at(key, chain_prefix(other), 0) {
        let p = chain_prefix(other);
        assert(key.subrange(0, p.len() as int) =~= p);
        assert(key[b.len() as int] == p[b.len() as int]);
        if b.len() < a.len() {
            assert(key[b.len() as int] == a[b.len() as int]);
        } else if a.len() < b.len() {
            assert(key[a.len() as int] == ':');
            assert(p[a.len() as int] == b[a.len() as int]);
            assert(key[a.len() as int] == p[a.len() as int]);
        } else {
            assert forall|i: int| 0 <= i < a.len() implies a[i] == b[i] by {
                assert(key[i] == p[i]);
            }
            assert(a =~= b);
            lemma_decimal_is_injective(chain_id as nat, other as nat);
        }
    }
}

/// Whatever begins with the prefix of a chain names that chain.
pub proof fn lemma_prefix_names_its_chain(chain_id: u64, rest: Seq<char>)
    ensures
        chain_of(chain_prefix(chain_id) + rest) == chain_id,
{
    let key = chain_prefix(chain_id) + rest;
    let d = text::decimal_digits(chain_id as nat);
    lemma_digits_hold_no_colon(chain_id as nat);
    lemma_digits_read_back(chain_id as nat);
    assert forall|i: int| 0 <= i < d.len() implies key[i] != ':' by {
        assert(key[i] == d[i]);
    }
    lemma_before_colon(key, d.len() as int);
    assert(key.take(d.len() as int) =~= d);
}

/// The digits that stand for a URL in keys are the first sixteen of its digest, in their order.
pub proof fn lemma_digits_of_keys_open_the_digest(url: Seq<char>, i: int)
    requires
        digest(url).len() == 64,
    ensures
        short_digest(url).len() == 16,
        0 <= i < 16 ==> short_digest(url)[i] == digest(url)[i],
{
}

} // verus!
