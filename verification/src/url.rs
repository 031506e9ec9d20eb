//! Which endpoint URLs may be used, and the form in which they are kept.
use crate::text;
use vstd::prelude::*;

verus! {

/// The parts of a URL that decide on its use.
#[derive(Debug)]
pub struct UrlParts {
    pub scheme: String,
    pub username: String,
    pub password: Option<String>,
    pub host: Option<String>,
    /// The whole URL in its normal form, without the fragment.
    pub text: String,
}

impl UrlParts {
    /// Whether two URLs agree in all parts.
    pub open spec fn same(self, other: UrlParts) -> bool {
        &&& self.scheme@ == other.scheme@
        &&& self.username@ == other.username@
        &&& self.password is Some == other.password is Some
        &&& self.password is Some ==> self.password->0@ == other.password->0@
        &&& self.host is Some == other.host is Some
        &&& self.host is Some ==> self.host->0@ == other.host->0@
        &&& self.text@ == other.text@
    }
}

/// What a text reads as as an absolute URL; nothing where it is none.
pub uninterp spec fn parsed_url(raw: Seq<char>) -> Option<UrlParts>;

/// `reqwest::Url::parse` with `scheme`, `username`, `password`, `host_str`, and the URL written out
/// after `set_fragment(None)`. How a text is taken apart is the URL standard's business and only given
/// a name here. What is claimed of the parts is that the URL written out begins with its scheme, and
/// that an HTTPS URL without user name and password, written out, reads as the same URL again, which
/// `Url` has among its invariants.
#[verifier::external_body]
fn split_url(raw: &str) -> (parts: Option<UrlParts>)
    ensures
        parts == parsed_url(raw@),
        parts matches Some(p) ==> text::stands_at(p.text@, p.scheme@ + ":"@, 0),
        parts matches Some(p) ==> (is_public_https(p) ==> (parsed_url(p.text@) matches Some(q)
            && p.same(q))),
{
    let mut url = reqwest::Url::parse(raw).ok()?;
    url.set_fragment(None);
    Some(
        UrlParts {
            scheme: url.scheme().to_owned(),
            username: url.username().to_owned(),
            password: url.password().map(str::to_owned),
            host: url.host_str().map(str::to_owned),
            text: url.to_string(),
        },
    )
}

/// Whether a text is an absolute URL.
pub fn is_absolute(raw: &str) -> (r: bool)
    ensures
        r == (parsed_url(raw@) is Some),
{
    split_url(raw).is_some()
}

/// Whether a URL uses HTTPS and holds neither a user name nor a password.
pub open spec fn is_public_https(p: UrlParts) -> bool {
    p.scheme@ == "https"@ && p.username@.len() == 0 && p.password is None
}

/// The form in which an endpoint of the chain list is kept; nothing where it is not a public HTTPS
/// endpoint or still holds a template.
pub open spec fn normal_url(raw: Seq<char>) -> Option<Seq<char>> {
    if text::occurs(raw, "${"@) {
        None
    } else {
        match parsed_url(raw) {
            Some(p) if is_public_https(p) => Some(p.text@),
            _ => None,
        }
    }
}

/// A public HTTPS URL in its normal form.
pub open spec fn is_normal(url: Seq<char>) -> bool {
    parsed_url(url) matches Some(p) && is_public_https(p) && p.text@ == url
}

fn public_https(p: &UrlParts) -> (r: bool)
    ensures
        r == is_public_https(*p),
{
    text::same(p.scheme.as_str(), "https") && p.username.as_str().is_empty() && p.password.is_none()
}

/// Brings an endpoint of the chain list into the form in which it is kept.
pub fn normalize_public_https_url(raw: &str) -> (r: Option<String>)
    ensures
        match r {
            Some(u) => normal_url(raw@) == Some(u@),
            None => normal_url(raw@) is None,
        },
        r matches Some(u) ==> text::stands_at(u@, "https:"@, 0) && is_normal(u@),
{
    if text::contains(raw, "${") {
        return None;
    }
    match split_url(raw) {
        Some(p) => if public_https(&p) {
            proof {
                reveal_strlit("https");
                reveal_strlit(":");
                reveal_strlit("https:");
                assert("https"@ + ":"@ =~= "https:"@);
            }
            Some(p.text)
        } else {
            None
        },
        None => None,
    }
}

/// A normal form stays as it is, unless it has come to hold a template: characters that are left out of
/// a URL can part the two signs of one.
pub proof fn lemma_normal_form_stays(url: Seq<char>)
    requires
        is_normal(url),
        !text::occurs(url, "${"@),
    ensures
        normal_url(url) == Some(url),
{
}

/// Why an endpoint URL is refused.
#[derive(Clone, Copy, Debug, PartialEq, Eq, Structural)]
pub enum UrlFault {
    Template,
    Invalid,
    NotPublicHttps,
    Private,
}

impl UrlFault {
    pub open spec fn says(self) -> Seq<char> {
        match self {
            UrlFault::Template => "endpoint URL contains a template"@,
            UrlFault::Invalid => "endpoint URL is invalid"@,
            UrlFault::NotPublicHttps => "endpoint URL must be HTTPS without userinfo"@,
            UrlFault::Private => "private endpoint is not allowed"@,
        }
    }

    /// The reason in words.
    pub fn message(&self) -> (m: &'static str)
        ensures
            m@ == self.says(),
    {
        match self {
            UrlFault::Template => "endpoint URL contains a template",
            UrlFault::Invalid => "endpoint URL is invalid",
            UrlFault::NotPublicHttps => "endpoint URL must be HTTPS without userinfo",
            UrlFault::Private => "private endpoint is not allowed",
        }
    }
}

/// The four numbers of an IPv4 address in the usual notation.
pub open spec fn is_dotted(host: Seq<char>, a: int, b: int, c: int, d: int) -> bool {
    &&& 0 <= a < 256
    &&& 0 <= b < 256
    &&& 0 <= c < 256
    &&& 0 <= d < 256
    &&& host == text::decimal_digits(a as nat) + "."@ + text::decimal_digits(b as nat) + "."@
        + text::decimal_digits(c as nat) + "."@ + text::decimal_digits(d as nat)
}

/// Loopback, private and link-local IPv4 addresses.
pub open spec fn private_numbers(a: int, b: int) -> bool {
    ||| a == 127
    ||| a == 10
    ||| a == 172 && 16 <= b < 32
    ||| a == 192 && b == 168
    ||| a == 169 && b == 254
}

/// Whether a host is an IPv4 address that is not reachable from everywhere.
pub open spec fn private_ipv4(host: Seq<char>) -> bool {
    exists|a: int, b: int, c: int, d: int| #[trigger]
        is_dotted(host, a, b, c, d) && private_numbers(a, b)
}

/// Whether a host is an IPv6 address, in brackets and in its shortest form, that is not reachable from
/// everywhere: the loopback address, or one whose first group lies between fc00 and fdff or between
/// fe80 and febf.
pub open spec fn private_ipv6(host: Seq<char>) -> bool {
    ||| host == "[::1]"@
    ||| host.len() > 5 && host[0] == '[' && host[5] == ':' && host[1] == 'f' && (host[2] == 'c'
        || host[2] == 'd' || (host[2] == 'e' && (host[3] == '8' || host[3] == '9' || host[3] == 'a'
        || host[3] == 'b')))
}

/// Whether a host is the machine itself or lies in a private network.
pub open spec fn private_host(host: Seq<char>) -> bool {
    text::lowered(host) == "localhost"@ || private_ipv4(host) || private_ipv6(host)
}

proof fn lemma_digits_shape(n: nat)
    ensures
        text::decimal_digits(n).len() > 0,
        forall|i: int|
            0 <= i < text::decimal_digits(n).len() ==> '0' <= #[trigger] text::decimal_digits(n)[i]
                <= '9',
        text::all_digits(text::decimal_digits(n), 10),
        text::number_of(text::decimal_digits(n), 10) == n,
    decreases n,
{
    reveal_with_fuel(text::number_of, 2);
    if n >= 10 {
        lemma_digits_shape(n / 10);
        let d = text::decimal_digits(n);
        assert(d.drop_last() =~= text::decimal_digits(n / 10));
    } else {
        let d = text::decimal_digits(n);
        assert(d.drop_last() =~= Seq::<char>::empty());
    }
}

/// Reads the number that stands in `v` from `from` up to `to`, if it is written in decimal without
/// leading zeros and is at most 255.
fn read_octet(v: &Vec<char>, from: usize, to: usize) -> (n: Option<u64>)
    requires
        from <= to <= v@.len(),
    ensures
        match n {
            Some(k) => k < 256 && v@.subrange(from as int, to as int) == text::decimal_digits(
                k as nat,
            ),
            None => forall|k: nat|
                k < 256 ==> v@.subrange(from as int, to as int) != #[trigger] text::decimal_digits(
                    k,
                ),
        },
{
    let piece = text::text_of(v, from, to);
    let ghost s = v@.subrange(from as int, to as int);
    match text::parse_u64(piece.as_str()) {
        Some(n) => {
            if n < 256 {
                let back = text::decimal(n);
                if text::same(back.as_str(), piece.as_str()) {
                    return Some(n);
                }
                proof {
                    assert forall|k: nat| k < 256 implies s != #[trigger] text::decimal_digits(k) by {
                        if s == text::decimal_digits(k) {
                            lemma_digits_shape(k);
                            assert(text::unsigned_part(s) == s);
                        }
                    }
                }
            } else {
                proof {
                    assert forall|k: nat| k < 256 implies s != #[trigger] text::decimal_digits(k) by {
                        if s == text::decimal_digits(k) {
                            lemma_digits_shape(k);
                            assert(text::unsigned_part(s) == s);
                        }
                    }
                }
            }
            None
        },
        None => {
            proof {
                assert forall|k: nat| k < 256 implies s != #[trigger] text::decimal_digits(k) by {
                    if s == text::decimal_digits(k) {
                        lemma_digits_shape(k);
                        assert(text::unsigned_part(s) == s);
                    }
                }
            }
            None
        },
    }
}

/// The next dot at or behind a position.
fn next_dot(v: &Vec<char>, from: usize) -> (p: usize)
    requires
        from <= v@.len(),
    ensures
        from <= p <= v@.len(),
        forall|i: int| from <= i < p ==> v@[i] != '.',
        p < v@.len() ==> v@[p as int] == '.',
{
    let mut p: usize = from;
    while p < v.len() && v[p] != '.'
        invariant
            from <= p <= v@.len(),
            forall|i: int| from <= i < p ==> v@[i] != '.',
        decreases v@.len() - p,
    {
        p = p + 1;
    }
    p
}

/// Where the dots of an address in the usual notation stand.
proof fn lemma_dots(host: Seq<char>, a: int, b: int, c: int, d: int)
    requires
        is_dotted(host, a, b, c, d),
    ensures
        ({
            let p1 = text::decimal_digits(a as nat).len() as int;
            let p2 = p1 + 1 + text::decimal_digits(b as nat).len();
            let p3 = p2 + 1 + text::decimal_digits(c as nat).len();
            let p4 = p3 + 1 + text::decimal_digits(d as nat).len();
            &&& host.len() == p4
            &&& host[p1] == '.' && host[p2] == '.' && host[p3] == '.'
            &&& host.subrange(0, p1) == text::decimal_digits(a as nat)
            &&& host.subrange(p1 + 1, p2) == text::decimal_digits(b as nat)
            &&& host.subrange(p2 + 1, p3) == text::decimal_digits(c as nat)
            &&& host.subrange(p3 + 1, p4) == text::decimal_digits(d as nat)
            &&& forall|i: int|
                0 <= i < host.len() && i != p1 && i != p2 && i != p3 ==> host[i] != '.'
        }),
{
    reveal_strlit(".");
    lemma_digits_shape(a as nat);
    lemma_digits_shape(b as nat);
    lemma_digits_shape(c as nat);
    lemma_digits_shape(d as nat);
    let da = text::decimal_digits(a as nat);
    let db = text::decimal_digits(b as nat);
    let dc = text::decimal_digits(c as nat);
    let dd = text::decimal_digits(d as nat);
    let p1 = da.len() as int;
    let p2 = p1 + 1 + db.len();
    let p3 = p2 + 1 + dc.len();
    let p4 = p3 + 1 + dd.len();
    assert(host.subrange(0, p1) =~= da);
    assert(host.subrange(p1 + 1, p2) =~= db);
    assert(host.subrange(p2 + 1, p3) =~= dc);
    assert(host.subrange(p3 + 1, p4) =~= dd);
    assert forall|i: int| 0 <= i < host.len() && i != p1 && i != p2 && i != p3 implies host[i]
        != '.' by {
        if i < p1 {
            assert(host[i] == da[i]);
        } else if i < p2 {
            assert(host[i] == db[i - p1 - 1]);
        } else if i < p3 {
            assert(host[i] == dc[i - p2 - 1]);
        } else {
            assert(host[i] == dd[i - p3 - 1]);
        }
    }
}

fn is_private_ipv4(host: &str) -> (r: bool)
    ensures
        r == private_ipv4(host@),
{
    let v = text::chars(host);
    let p1: usize = next_dot(&v, 0);
    if p1 == v.len() {
        proof {
            lemma_no_dotted_form(host@, p1 as int, p1 as int, p1 as int, 0);
        }
        return false;
    }
    let p2: usize = next_dot(&v, p1 + 1);
    if p2 == v.len() {
        proof {
            lemma_no_dotted_form(host@, p1 as int, p2 as int, p2 as int, 1);
        }
        return false;
    }
    let p3: usize = next_dot(&v, p2 + 1);
    if p3 == v.len() {
        proof {
            lemma_no_dotted_form(host@, p1 as int, p2 as int, p3 as int, 2);
        }
        return false;
    }
    let ghost h = host@;
    match (
        read_octet(&v, 0, p1),
        read_octet(&v, p1 + 1, p2),
        read_octet(&v, p2 + 1, p3),
        read_octet(&v, p3 + 1, v.len()),
    ) {
        (Some(a), Some(b), Some(c), Some(d)) => {
            proof {
                reveal_strlit(".");
                assert(h =~= text::decimal_digits(a as nat) + "."@ + text::decimal_digits(b as nat)
                    + "."@ + text::decimal_digits(c as nat) + "."@ + text::decimal_digits(
                    d as nat,
                )) by {
                    assert(h =~= h.subrange(0, p1 as int) + "."@ + h.subrange(p1 + 1, p2 as int)
                        + "."@ + h.subrange(p2 + 1, p3 as int) + "."@ + h.subrange(
                        p3 + 1,
                        h.len() as int,
                    ));
                }
                assert(is_dotted(h, a as int, b as int, c as int, d as int));
                assert forall|a2: int, b2: int, c2: int, d2: int| #[trigger]
                    is_dotted(h, a2, b2, c2, d2) implies a2 == a && b2 == b by {
                    lemma_dotted_places(h, p1 as int, p2 as int, p3 as int, a2, b2, c2, d2);
                    lemma_digits_shape(a2 as nat);
                    lemma_digits_shape(b2 as nat);
                    lemma_digits_shape(a as nat);
                    lemma_digits_shape(b as nat);
                }
            }
            a == 127 || a == 10 || (a == 172 && 16 <= b && b < 32) || (a == 192 && b == 168) || (a
                == 169 && b == 254)
        },
        _ => {
            proof {
                assert forall|a2: int, b2: int, c2: int, d2: int| !#[trigger] is_dotted(
                    h,
                    a2,
                    b2,
                    c2,
                    d2,
                ) by {
                    if is_dotted(h, a2, b2, c2, d2) {
                        lemma_dotted_places(h, p1 as int, p2 as int, p3 as int, a2, b2, c2, d2);
                        assert((a2 as nat) < 256 && (b2 as nat) < 256 && (c2 as nat) < 256 && (
                        d2 as nat) < 256);
                    }
                }
            }
            false
        },
    }
}

/// The dots that were found are the dots of the address.
proof fn lemma_dotted_places(
    h: Seq<char>,
    p1: int,
    p2: int,
    p3: int,
    a: int,
    b: int,
    c: int,
    d: int,
)
    requires
        is_dotted(h, a, b, c, d),
        0 <= p1 < p2 < p3 < h.len(),
        h[p1] == '.' && h[p2] == '.' && h[p3] == '.',
        forall|i: int| 0 <= i < p1 ==> h[i] != '.',
        forall|i: int| p1 + 1 <= i < p2 ==> h[i] != '.',
        forall|i: int| p2 + 1 <= i < p3 ==> h[i] != '.',
    ensures
        h.subrange(0, p1) == text::decimal_digits(a as nat),
        h.subrange(p1 + 1, p2) == text::decimal_digits(b as nat),
        h.subrange(p2 + 1, p3) == text::decimal_digits(c as nat),
        h.subrange(p3 + 1, h.len() as int) == text::decimal_digits(d as nat),
{
    lemma_dots(h, a, b, c, d);
}

/// A host with fewer than three dots is no address in the usual notation.
proof fn lemma_no_dotted_form(h: Seq<char>, p1: int, p2: int, p3: int, dots: int)
    requires
        0 <= dots <= 2,
        dots == 0 ==> forall|i: int| 0 <= i < h.len() ==> h[i] != '.',
        dots >= 1 ==> 0 <= p1 < h.len() && forall|i: int| 0 <= i < p1 ==> h[i] != '.',
        dots == 1 ==> forall|i: int| p1 < i < h.len() ==> h[i] != '.',
        dots == 2 ==> p1 < p2 < h.len() && (forall|i: int| p1 < i < p2 ==> h[i] != '.')
            && forall|i: int| p2 < i < h.len() ==> h[i] != '.',
    ensures
        !private_ipv4(h),
{
    assert forall|a: int, b: int, c: int, d: int| !#[trigger] is_dotted(h, a, b, c, d) by {
        if is_dotted(h, a, b, c, d) {
            lemma_dots(h, a, b, c, d);
            let q1 = text::decimal_digits(a as nat).len() as int;
            let q2 = q1 + 1 + text::decimal_digits(b as nat).len();
            let q3 = q2 + 1 + text::decimal_digits(c as nat).len();
            assert(h[q1] == '.' && h[q2] == '.' && h[q3] == '.');
        }
    }
}

fn is_private_ipv6(host: &str) -> (r: bool)
    ensures
        r == private_ipv6(host@),
{
    if text::same(host, "[::1]") {
        return true;
    }
    let v = text::chars(host);
    v.len() > 5 && v[0] == '[' && v[5] == ':' && v[1] == 'f' && (v[2] == 'c' || v[2] == 'd' || (v[2]
        == 'e' && (v[3] == '8' || v[3] == '9' || v[3] == 'a' || v[3] == 'b')))
}

/// Whether a host is the machine itself or lies in a private network.
pub fn is_private_host(host: &str) -> (r: bool)
    ensures
        r == private_host(host@),
{
    let low = text::ascii_lower(host);
    text::same(low.as_str(), "localhost") || is_private_ipv4(host) || is_private_ipv6(host)
}

/// The host of a URL; empty where it has none.
pub open spec fn host_of(p: UrlParts) -> Seq<char> {
    match p.host {
        Some(h) => h@,
        None => Seq::empty(),
    }
}

/// What becomes of a URL that is offered as an endpoint.
pub open spec fn offered_url(raw: Seq<char>, allow_private: bool) -> Result<Seq<char>, UrlFault> {
    if text::occurs(raw, "${"@) {
        Err(UrlFault::Template)
    } else {
        match parsed_url(raw) {
            None => Err(UrlFault::Invalid),
            Some(p) => if !is_public_https(p) {
                Err(UrlFault::NotPublicHttps)
            } else if !allow_private && private_host(host_of(p)) {
                Err(UrlFault::Private)
            } else {
                Ok(p.text@)
            },
        }
    }
}

/// Decides on the parts of a URL that is offered as an endpoint.
pub fn judge_url(parts: Option<UrlParts>, allow_private: bool) -> (r: Result<String, UrlFault>)
    ensures
        match parts {
            None => r == Err::<String, UrlFault>(UrlFault::Invalid),
            Some(p) => if !is_public_https(p) {
                r == Err::<String, UrlFault>(UrlFault::NotPublicHttps)
            } else if !allow_private && private_host(host_of(p)) {
                r == Err::<String, UrlFault>(UrlFault::Private)
            } else {
                r == Ok::<String, UrlFault>(p.text)
            },
        },
{
    let p = match parts {
        Some(p) => p,
        None => {
            return Err(UrlFault::Invalid);
        },
    };
    if !public_https(&p) {
        return Err(UrlFault::NotPublicHttps);
    }
    if !allow_private {
        let host: String = match &p.host {
            Some(h) => h.clone(),
            None => String::new(),
        };
        if is_private_host(host.as_str()) {
            return Err(UrlFault::Private);
        }
    }
    Ok(p.text)
}

/// Checks a URL that is offered as an endpoint and brings it into the form in which it is kept.
pub fn valid_endpoint_url(raw: &str, allow_private: bool) -> (r: Result<String, UrlFault>)
    ensures
        match r {
            Ok(u) => offered_url(raw@, allow_private) == Ok::<Seq<char>, UrlFault>(u@),
            Err(f) => offered_url(raw@, allow_private) == Err::<Seq<char>, UrlFault>(f),
        },
{
    if text::contains(raw, "${") {
        return Err(UrlFault::Template);
    }
    judge_url(split_url(raw), allow_private)
}

/// An explorer link may be shown if it is an absolute HTTP or HTTPS URL.
pub open spec fn shown_link(url: Seq<char>) -> bool {
    parsed_url(url) matches Some(p) && (p.scheme@ == "http"@ || p.scheme@ == "https"@)
}

pub fn may_show_link(url: &str) -> (r: bool)
    ensures
        r == shown_link(url@),
{
    match split_url(url) {
        Some(p) => text::same(p.scheme.as_str(), "http") || text::same(p.scheme.as_str(), "https"),
        None => false,
    }
}

/// A URL that is taken as an endpoint could also have stood in the chain list, and is kept in the same
/// form.
pub proof fn lemma_offered_is_public(raw: Seq<char>, allow_private: bool)
    ensures
        offered_url(raw, allow_private) matches Ok(u) ==> normal_url(raw) == Some(u),
{
}

} // verus!
