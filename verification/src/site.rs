//! Which files a request for a page leads to.
use crate::redis_plan;
use crate::text;
use vstd::prelude::*;

verus! {

/// A text without the slashes behind it.
pub open spec fn without_slashes(s: Seq<char>) -> Seq<char>
    decreases s.len(),
{
    if s.len() > 0 && s.last() == '/' {
        without_slashes(s.drop_last())
    } else {
        s
    }
}

/// A text without the slashes in front of it.
pub open spec fn after_slashes(s: Seq<char>) -> Seq<char>
    decreases s.len(),
{
    if s.len() > 0 && s[0] == '/' {
        after_slashes(s.skip(1))
    } else {
        s
    }
}

pub open spec fn all_decimal(s: Seq<char>) -> bool {
    forall|i: int| 0 <= i < s.len() ==> '0' <= #[trigger] s[i] <= '9'
}

/// The pages of the public site: its front page, and one for each chain.
pub open spec fn is_public_page(path: Seq<char>) -> bool {
    ||| path == "/"@
    ||| (redis_plan::rest_after(path, "/chain/"@) matches Some(rest) && without_slashes(rest).len()
        > 0 && all_decimal(without_slashes(rest)))
}

fn digits_only(all: &Vec<char>, n: usize) -> (r: bool)
    requires
        n <= all@.len(),
    ensures
        r == all_decimal(all@.take(n as int)),
{
    let ghost id = all@.take(n as int);
    let mut i: usize = 0;
    while i < n
        invariant
            i <= n <= all@.len(),
            id == all@.take(n as int),
            forall|k: int| 0 <= k < i ==> '0' <= #[trigger] id[k] <= '9',
        decreases n - i,
    {
        let c: char = all[i];
        assert(id[i as int] == c);
        if !('0' <= c && c <= '9') {
            return false;
        }
        i = i + 1;
    }
    true
}

pub fn public_index(path: &str) -> (r: bool)
    ensures
        r == is_public_page(path@),
{
    if text::same(path, "/") {
        return true;
    }
    match redis_plan::strip_front(path, "/chain/") {
        Some(rest) => {
            let all = text::chars(rest.as_str());
            let mut n: usize = all.len();
            assert(all@.take(all@.len() as int) =~= all@);
            while n > 0 && all[n - 1] == '/'
                invariant
                    n <= all@.len(),
                    without_slashes(all@) == without_slashes(all@.take(n as int)),
                decreases n,
            {
                assert(all@.take(n as int).drop_last() =~= all@.take(n - 1));
                n = n - 1;
            }
            assert(without_slashes(all@) == all@.take(n as int));
            n > 0 && digits_only(&all, n)
        },
        None => false,
    }
}

/// The parts of a path between its slashes.
pub open spec fn parts(s: Seq<char>) -> Seq<Seq<char>>
    decreases s.len(),
{
    if s.len() == 0 {
        seq![Seq::empty()]
    } else {
        let before = parts(s.drop_last());
        if s.last() == '/' {
            before.push(Seq::empty())
        } else {
            before.drop_last().push(before.last().push(s.last()))
        }
    }
}

pub open spec fn part_views(v: Seq<String>) -> Seq<Seq<char>> {
    v.map_values(|s: String| s@)
}

fn split_path(s: &str) -> (v: Vec<String>)
    ensures
        part_views(v@) == parts(s@),
{
    let all = text::chars(s);
    let mut v: Vec<String> = Vec::new();
    let mut current = String::new();
    let mut i: usize = 0;
    proof {
        assert(all@.take(0) =~= Seq::<char>::empty());
        assert(part_views(v@).push(current@) =~= parts(all@.take(0)));
    }
    while i < all.len()
        invariant
            i <= all@.len(),
            part_views(v@).push(current@) == parts(all@.take(i as int)),
        decreases all@.len() - i,
    {
        let ghost before = part_views(v@);
        let ghost part = current@;
        let c: char = all[i];
        proof {
            assert(all@.take(i + 1).drop_last() =~= all@.take(i as int));
            assert(all@.take(i + 1).last() == c);
            assert(before.push(part).drop_last() =~= before);
            assert(before.push(part).last() == part);
        }
        if c == '/' {
            v.push(current);
            current = String::new();
            assert(part_views(v@) =~= before.push(part));
            assert(current@ =~= Seq::<char>::empty());
        } else {
            current.push(c);
        }
        i = i + 1;
    }
    let ghost before = part_views(v@);
    let ghost part = current@;
    v.push(current);
    proof {
        assert(part_views(v@) =~= before.push(part));
        assert(all@.take(all@.len() as int) =~= all@);
    }
    v
}

/// The name of the file that a path ends in: its last part, unless that only points upwards. Parts that
/// are empty or stand for the place itself do not count.
pub open spec fn file_name(p: Seq<Seq<char>>) -> Option<Seq<char>>
    decreases p.len(),
{
    if p.len() == 0 {
        None
    } else if p.last().len() == 0 || p.last() == "."@ {
        file_name(p.drop_last())
    } else if p.last() == ".."@ {
        None
    } else {
        Some(p.last())
    }
}

/// Where the last dot of a text stands.
pub open spec fn last_dot(s: Seq<char>) -> int
    decreases s.len(),
{
    if s.len() == 0 {
        -1
    } else if s.last() == '.' {
        s.len() - 1
    } else {
        last_dot(s.drop_last())
    }
}

/// The extension of a file name: what follows its last dot, unless that stands in front.
pub open spec fn extension_of(path: Seq<char>) -> Option<Seq<char>> {
    match file_name(parts(path)) {
        Some(name) => if last_dot(name) > 0 {
            Some(name.skip(last_dot(name) + 1))
        } else {
            None
        },
        None => None,
    }
}

pub fn extension(path: &str) -> (e: Option<String>)
    ensures
        match e {
            Some(s) => extension_of(path@) == Some(s@),
            None => extension_of(path@) is None,
        },
{
    let v = split_path(path);
    let ghost all = part_views(v@);
    let mut n: usize = v.len();
    assert(all.take(all.len() as int) =~= all);
    while n > 0 && (v[n - 1].as_str().unicode_len() == 0 || text::same(v[n - 1].as_str(), "."))
        invariant
            n <= v@.len(),
            all == part_views(v@),
            file_name(all) == file_name(all.take(n as int)),
        decreases n,
    {
        assert(all.take(n as int).drop_last() =~= all.take(n - 1));
        assert(all.take(n as int).last() == v@[n - 1]@);
        n = n - 1;
    }
    if n == 0 {
        return None;
    }
    assert(all.take(n as int).last() == v@[n - 1]@);
    if text::same(v[n - 1].as_str(), "..") {
        return None;
    }
    let name = text::chars(v[n - 1].as_str());
    let mut i: usize = name.len();
    assert(name@.take(name@.len() as int) =~= name@);
    while i > 0 && name[i - 1] != '.'
        invariant
            i <= name@.len(),
            last_dot(name@) == last_dot(name@.take(i as int)),
        decreases i,
    {
        assert(name@.take(i as int).drop_last() =~= name@.take(i - 1));
        i = i - 1;
    }
    if i <= 1 {
        return None;
    }
    let e = text::text_of(&name, i, name.len());
    assert(e@ =~= name@.skip(last_dot(name@) + 1));
    Some(e)
}

/// What is sent for a path of the control site.
#[derive(Debug)]
pub enum StaticTarget {
    Index,
    Missing,
    /// A file below the directory of the site, if it is there.
    File(String),
}

pub open spec fn has_bad_part(p: Seq<Seq<char>>) -> bool {
    exists|i: int| 0 <= i < p.len() && ((#[trigger] p[i]).len() == 0 || p[i] == ".."@)
}

/// What follows the name of the site in a path.
pub open spec fn site_path(path: Seq<char>) -> Seq<char> {
    match redis_plan::rest_after(path, "/dashboard"@) {
        Some(rest) => rest,
        None => Seq::empty(),
    }
}

/// A path that leads out of the site, or tries to.
pub open spec fn is_unsafe(raw: Seq<char>) -> bool {
    let path = after_slashes(raw);
    ||| text::stands_at(raw, "//"@, 0)
    ||| path.contains('%')
    ||| has_bad_part(parts(path))
}

fn holds_percent(s: &str) -> (r: bool)
    ensures
        r == s@.contains('%'),
{
    let all = text::chars(s);
    let mut i: usize = 0;
    while i < all.len()
        invariant
            i <= all@.len(),
            all@ == s@,
            forall|k: int| 0 <= k < i ==> all@[k] != '%',
        decreases all@.len() - i,
    {
        if all[i] == '%' {
            assert(s@[i as int] == '%');
            return true;
        }
        i = i + 1;
    }
    false
}

fn points_away(s: &str) -> (r: bool)
    ensures
        r == has_bad_part(parts(s@)),
{
    let v = split_path(s);
    let ghost p = parts(s@);
    let mut n: usize = 0;
    while n < v.len()
        invariant
            n <= v@.len(),
            p == part_views(v@),
            p == parts(s@),
            forall|k: int| 0 <= k < n ==> (#[trigger] p[k]).len() != 0 && p[k] != ".."@,
        decreases v@.len() - n,
    {
        assert(p[n as int] == v@[n as int]@);
        if v[n].as_str().unicode_len() == 0 || text::same(v[n].as_str(), "..") {
            return true;
        }
        n = n + 1;
    }
    false
}

/// Decides what a path of the control site leads to.
pub fn static_target(path: &str) -> (t: StaticTarget)
    ensures
        ({
            let raw = site_path(path@);
            let rest = after_slashes(raw);
            match t {
                StaticTarget::Index => rest.len() == 0,
                StaticTarget::Missing => rest.len() > 0 && is_unsafe(raw),
                StaticTarget::File(f) => rest.len() > 0 && !is_unsafe(raw) && f@ == rest,
            }
        }),
{
    let raw: String = match redis_plan::strip_front(path, "/dashboard") {
        Some(rest) => rest,
        None => String::new(),
    };
    assert(raw@ =~= site_path(path@));
    let all = text::chars(raw.as_str());
    let mut from: usize = 0;
    assert(all@.skip(0) =~= all@);
    while from < all.len() && all[from] == '/'
        invariant
            from <= all@.len(),
            after_slashes(all@) == after_slashes(all@.skip(from as int)),
        decreases all@.len() - from,
    {
        assert(all@.skip(from as int).skip(1) =~= all@.skip(from + 1));
        from = from + 1;
    }
    let rest = text::text_of(&all, from, all.len());
    assert(rest@ =~= after_slashes(all@));
    if from == all.len() {
        return StaticTarget::Index;
    }
    if text::starts_with(raw.as_str(), "//") {
        return StaticTarget::Missing;
    }
    if holds_percent(rest.as_str()) || points_away(rest.as_str()) {
        return StaticTarget::Missing;
    }
    StaticTarget::File(rest)
}

/// What is sent for a file that may not be there: names without an extension are pages of the site.
pub fn missing_file(path: &str) -> (t: StaticTarget)
    ensures
        match t {
            StaticTarget::Missing => extension_of(path@) is Some,
            StaticTarget::Index => extension_of(path@) is None,
            StaticTarget::File(_) => false,
        },
{
    if extension(path).is_some() {
        StaticTarget::Missing
    } else {
        StaticTarget::Index
    }
}

pub open spec fn type_for(extension: Option<Seq<char>>) -> Seq<char> {
    match extension {
        Some(e) => if e == "html"@ {
            "text/html; charset=utf-8"@
        } else if e == "js"@ {
            "text/javascript; charset=utf-8"@
        } else if e == "css"@ {
            "text/css"@
        } else if e == "json"@ {
            "application/json"@
        } else if e == "svg"@ {
            "image/svg+xml"@
        } else if e == "png"@ {
            "image/png"@
        } else if e == "ico"@ {
            "image/x-icon"@
        } else if e == "woff2"@ {
            "font/woff2"@
        } else if e == "map"@ {
            "application/json"@
        } else if e == "txt"@ {
            "text/plain; charset=utf-8"@
        } else {
            "application/octet-stream"@
        },
        None => "application/octet-stream"@,
    }
}

/// The type of a file, by its extension.
pub fn content_type(path: &str) -> (s: &'static str)
    ensures
        s@ == type_for(extension_of(path@)),
{
    match extension(path) {
        Some(e) => {
            let e = e.as_str();
            if text::same(e, "html") {
                "text/html; charset=utf-8"
            } else if text::same(e, "js") {
                "text/javascript; charset=utf-8"
            } else if text::same(e, "css") {
                "text/css"
            } else if text::same(e, "json") {
                "application/json"
            } else if text::same(e, "svg") {
                "image/svg+xml"
            } else if text::same(e, "png") {
                "image/png"
            } else if text::same(e, "ico") {
                "image/x-icon"
            } else if text::same(e, "woff2") {
                "font/woff2"
            } else if text::same(e, "map") {
                "application/json"
            } else if text::same(e, "txt") {
                "text/plain; charset=utf-8"
            } else {
                "application/octet-stream"
            }
        },
        None => "application/octet-stream",
    }
}

/// A file of the control site never lies outside of it: no part of its path points upwards.
pub proof fn lemma_files_stay_inside(raw: Seq<char>, i: int)
    requires
        !is_unsafe(raw),
        0 <= i < parts(after_slashes(raw)).len(),
    ensures
        parts(after_slashes(raw))[i] != ".."@,
        parts(after_slashes(raw))[i].len() > 0,
{
}

/// How long the public view is kept, in nanoseconds.
pub const PUBLIC_CACHE_SPAN: u128 = 5_000_000_000;

/// Whether a public view that was built at `built_at` is still shown.
pub fn is_fresh(built_at: u128, now: u128) -> (r: bool)
    ensures
        r == (crate::health::span(now, built_at) < PUBLIC_CACHE_SPAN),
{
    if now > built_at {
        now - built_at < PUBLIC_CACHE_SPAN
    } else {
        true
    }
}

} // verus!
