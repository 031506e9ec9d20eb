//! What the paths of the site lead to, in terms of their characters.
use crate::site;
use crate::text;
use vstd::prelude::*;

verus! {

/// Whether a path is that of a chain: `/chain/`, the digits of its id, and slashes after them or none.
pub open spec fn names_a_chain(path: Seq<char>, n: int) -> bool {
    &&& 7 < n <= path.len()
    &&& path.take(7) == "/chain/"@
    &&& forall|i: int| 7 <= i < n ==> '0' <= #[trigger] path[i] <= '9'
    &&& forall|i: int| n <= i < path.len() ==> #[trigger] path[i] == '/'
}

/// The public pages are the front page and those of chains, and no other.
pub proof fn lemma_public_pages(path: Seq<char>)
    ensures
        site::is_public_page(path) <==> path == "/"@ || exists|n: int| names_a_chain(path, n),
{
    reveal_strlit("/chain/");
    let rest = path.skip(7);
    if text::stands_at(path, "/chain/"@, 0) {
        assert(path.subrange(0, 7) =~= path.take(7));
        let m = lemma_slashes_behind(rest);
        if site::is_public_page(path) && path != "/"@ {
            assert forall|i: int| 7 <= i < 7 + m implies '0' <= #[trigger] path[i] <= '9' by {
                assert(rest.take(m)[i - 7] == path[i]);
            }
            assert forall|i: int| 7 + m <= i < path.len() implies #[trigger] path[i] == '/' by {
                assert(rest[i - 7] == path[i]);
            }
            assert(names_a_chain(path, 7 + m));
        }
        if exists|n: int| names_a_chain(path, n) {
            let n = choose|n: int| names_a_chain(path, n);
            assert(rest[n - 8] == path[n - 1]);
            if m < n - 7 {
                assert(rest[n - 8] == '/');
            }
            if m > n - 7 {
                assert(rest[m - 1] == path[m + 6]);
            }
            assert forall|i: int| 0 <= i < m implies '0' <= #[trigger] rest.take(m)[i] <= '9' by {
                assert(rest.take(m)[i] == path[i + 7]);
            }
        }
    } else if exists|n: int| names_a_chain(path, n) {
        let n = choose|n: int| names_a_chain(path, n);
        assert(path.subrange(0, 7) =~= path.take(7));
    }
}

proof fn lemma_slashes_behind(s: Seq<char>) -> (m: int)
    ensures
        0 <= m <= s.len(),
        site::without_slashes(s) == s.take(m),
        forall|i: int| m <= i < s.len() ==> s[i] == '/',
        m > 0 ==> s[m - 1] != '/',
    decreases s.len(),
{
    if s.len() > 0 && s.last() == '/' {
        let m = lemma_slashes_behind(s.drop_last());
        assert(s.drop_last().take(m) =~= s.take(m));
        assert forall|i: int| m <= i < s.len() implies s[i] == '/' by {
            if i < s.len() - 1 {
                assert(s.drop_last()[i] == s[i]);
            }
        }
        if m > 0 {
            assert(s.drop_last()[m - 1] == s[m - 1]);
        }
        m
    } else {
        assert(s.take(s.len() as int) =~= s);
        s.len() as int
    }
}

proof fn lemma_slashes_before(s: Seq<char>) -> (m: int)
    ensures
        0 <= m <= s.len(),
        site::after_slashes(s) == s.skip(m),
        forall|i: int| 0 <= i < m ==> s[i] == '/',
        m < s.len() ==> s[m] != '/',
    decreases s.len(),
{
    if s.len() > 0 && s[0] == '/' {
        let t = s.skip(1);
        let m = lemma_slashes_before(t);
        assert(t.skip(m) =~= s.skip(m + 1));
        assert forall|i: int| 0 <= i < m + 1 implies s[i] == '/' by {
            if i > 0 {
                assert(t[i - 1] == s[i]);
            }
        }
        if m < t.len() {
            assert(t[m] == s[m + 1]);
        }
        m + 1
    } else {
        assert(s.skip(0) =~= s);
        0
    }
}

/// A path without slashes is one part, and a slash parts what stands before it from what follows.
pub proof fn lemma_slashes_part(a: Seq<char>, t: Seq<char>)
    ensures
        !a.contains('/') ==> site::parts(a) == seq![a],
        site::parts(a.push('/') + t) == site::parts(a) + site::parts(t),
    decreases a.len() + t.len(),
{
    if a.len() > 0 {
        let b = a.drop_last();
        if !a.contains('/') {
            assert(a.last() != '/') by {
                assert(a[a.len() - 1] == a.last());
            }
            assert(!b.contains('/')) by {
                if b.contains('/') {
                    let i = choose|i: int| 0 <= i < b.len() && b[i] == '/';
                    assert(a[i] == '/');
                }
            }
            lemma_slashes_part(b, Seq::empty());
            assert(site::parts(a) =~= seq![a]) by {
                assert(b.push(a.last()) =~= a);
                assert(site::parts(b) == seq![b]);
                assert(site::parts(a) == seq![b].drop_last().push(seq![b].last().push(a.last())));
            }
        }
    } else {
        assert(a =~= Seq::<char>::empty());
        assert(site::parts(a) =~= seq![a]);
    }
    let whole = a.push('/') + t;
    if t.len() == 0 {
        assert(t =~= Seq::<char>::empty());
        assert(whole =~= a.push('/'));
        assert(whole.drop_last() =~= a);
        assert(site::parts(whole) =~= site::parts(a) + site::parts(t));
    } else {
        let u = t.drop_last();
        lemma_slashes_part(a, u);
        lemma_some_part(u);
        let left = site::parts(a);
        let right = site::parts(u);
        assert(whole.drop_last() =~= a.push('/') + u);
        assert(whole.last() == t.last());
        if t.last() == '/' {
            assert((left + right).push(Seq::empty()) =~= left + right.push(Seq::empty()));
        } else {
            assert((left + right).last() == right.last());
            assert((left + right).drop_last() =~= left + right.drop_last());
            assert((left + right.drop_last()).push(right.last().push(t.last())) =~= left
                + right.drop_last().push(right.last().push(t.last())));
        }
    }
}

proof fn lemma_some_part(s: Seq<char>)
    ensures
        site::parts(s).len() > 0,
    decreases s.len(),
{
    if s.len() > 0 {
        lemma_some_part(s.drop_last());
    }
}

/// A path with a percent sign leads nowhere, and neither does one that begins with two slashes.
pub proof fn lemma_encoded_paths_lead_nowhere(raw: Seq<char>)
    ensures
        raw.contains('%') ==> site::is_unsafe(raw),
        raw.len() >= 2 && raw[0] == '/' && raw[1] == '/' ==> site::is_unsafe(raw),
{
    reveal_strlit("//");
    if raw.contains('%') {
        let m = lemma_slashes_before(raw);
        let i = choose|i: int| 0 <= i < raw.len() && raw[i] == '%';
        assert(i >= m);
        assert(raw.skip(m)[i - m] == '%');
    }
    if raw.len() >= 2 && raw[0] == '/' && raw[1] == '/' {
        assert(raw.subrange(0, 2) =~= "//"@);
    }
}

/// A path that goes upwards leads nowhere, wherever it does so.
pub proof fn lemma_upward_paths_lead_nowhere(a: Seq<char>, b: Seq<char>)
    requires
        a.len() > 0,
        a[0] != '/',
    ensures
        site::is_unsafe(seq!['/'] + ".."@),
        site::is_unsafe(seq!['/'] + (".."@.push('/') + b)),
        site::is_unsafe(seq!['/'] + (a.push('/') + ".."@)),
        site::is_unsafe(seq!['/'] + (a.push('/') + (".."@.push('/') + b))),
{
    reveal_strlit("..");
    let up = ".."@;
    assert(up.len() == 2 && up[0] == '.' && up[1] == '.');
    assert(!up.contains('/'));
    lemma_slashes_part(up, b);
    lemma_slashes_part(a, up);
    lemma_slashes_part(a, up.push('/') + b);
    let pb = site::parts(b);
    let pa = site::parts(a);
    assert((seq![up] + pb)[0] == up);
    assert((pa + seq![up])[pa.len() as int] == up);
    assert((pa + (seq![up] + pb))[pa.len() as int] == up);
    lemma_one_slash(up);
    lemma_one_slash(up.push('/') + b);
    lemma_one_slash(a.push('/') + up);
    lemma_one_slash(a.push('/') + (up.push('/') + b));
    assert((a.push('/') + up)[0] == a[0]);
    assert((a.push('/') + (up.push('/') + b))[0] == a[0]);
    assert(site::has_bad_part(site::parts(up))) by {
        assert(site::parts(up)[0] == up);
    }
    assert(site::has_bad_part(site::parts(up.push('/') + b))) by {
        assert(site::parts(up.push('/') + b)[0] == up);
    }
    assert(site::has_bad_part(site::parts(a.push('/') + up))) by {
        assert(site::parts(a.push('/') + up)[pa.len() as int] == up);
    }
    assert(site::has_bad_part(site::parts(a.push('/') + (up.push('/') + b)))) by {
        assert(site::parts(a.push('/') + (up.push('/') + b))[pa.len() as int] == up);
    }
}

proof fn lemma_one_slash(rest: Seq<char>)
    ensures
        rest.len() > 0 && rest[0] != '/' ==> site::after_slashes(seq!['/'] + rest) == rest,
{
    let s = seq!['/'] + rest;
    let m = lemma_slashes_before(s);
    if rest.len() > 0 && rest[0] != '/' {
        assert(s[1] == rest[0]);
        assert(s[0] == '/');
        assert(m == 1);
        assert(s.skip(1) =~= rest);
    }
}

/// Names one after another, with slashes between them.
pub open spec fn joined(names: Seq<Seq<char>>) -> Seq<char>
    decreases names.len(),
{
    if names.len() == 0 {
        Seq::empty()
    } else if names.len() == 1 {
        names[0]
    } else {
        joined(names.drop_last()).push('/') + names.last()
    }
}

/// A path of ordinary names leads to the file that they name.
pub proof fn lemma_ordinary_paths_lead_to_files(names: Seq<Seq<char>>)
    requires
        names.len() > 0,
        forall|i: int|
            0 <= i < names.len() ==> (#[trigger] names[i]).len() > 0 && !names[i].contains('/')
                && !names[i].contains('%') && names[i] != ".."@,
    ensures
        !site::is_unsafe(seq!['/'] + joined(names)),
        site::after_slashes(seq!['/'] + joined(names)) == joined(names),
        site::parts(joined(names)) == names,
{
    reveal_strlit("//");
    lemma_joined(names);
    let rest = joined(names);
    lemma_one_slash(rest);
    let raw = seq!['/'] + rest;
    assert(raw[1] == rest[0]);
    if text::stands_at(raw, "//"@, 0) {
        assert(raw.subrange(0, 2)[1] == '/');
    }
}

proof fn lemma_joined(names: Seq<Seq<char>>)
    requires
        names.len() > 0,
        forall|i: int|
            0 <= i < names.len() ==> (#[trigger] names[i]).len() > 0 && !names[i].contains('/')
                && !names[i].contains('%'),
    ensures
        site::parts(joined(names)) == names,
        joined(names).len() > 0,
        joined(names)[0] != '/',
        !joined(names).contains('%'),
    decreases names.len(),
{
    let s = joined(names);
    if names.len() == 1 {
        lemma_slashes_part(names[0], Seq::empty());
        assert(names =~= seq![names[0]]);
        assert(names[0].contains(names[0][0]));
    } else {
        let short = names.drop_last();
        assert forall|i: int| 0 <= i < short.len() implies (#[trigger] short[i]).len() > 0
            && !short[i].contains('/') && !short[i].contains('%') by {
            assert(short[i] == names[i]);
        }
        lemma_joined(short);
        assert(names.last() == names[names.len() - 1]);
        lemma_slashes_part(joined(short), names.last());
        lemma_slashes_part(names.last(), Seq::empty());
        assert(short + seq![names.last()] =~= names);
        let front = joined(short);
        assert(s[0] == front[0]);
        if s.contains('%') {
            let i = choose|i: int| 0 <= i < s.len() && s[i] == '%';
            if i < front.len() {
                assert(front[i] == '%');
            } else {
                assert(names.last()[i - front.len() - 1] == '%');
            }
        }
    }
}

/// What follows the last dot of the last name is the extension; a name with none, or with none but in front,
/// has no extension.
pub proof fn lemma_extensions(dir: Seq<char>, stem: Seq<char>, ext: Seq<char>)
    requires
        stem.len() > 0,
        !stem.contains('/'),
        !ext.contains('/'),
        !ext.contains('.'),
    ensures
        ext.len() > 0 ==> site::extension_of(stem.push('.') + ext) == Some(ext),
        ext.len() > 0 ==> site::extension_of(dir.push('/') + (stem.push('.') + ext)) == Some(ext),
        ext.len() > 0 ==> site::extension_of(ext) is None,
        ext.len() > 0 ==> site::extension_of(seq!['.'] + ext) is None,
{
    reveal_strlit(".");
    reveal_strlit("..");
    if ext.len() > 0 {
        let name = stem.push('.') + ext;
        assert(!name.contains('/')) by {
            if name.contains('/') {
                let i = choose|i: int| 0 <= i < name.len() && name[i] == '/';
                if i < stem.len() {
                    assert(stem[i] == '/');
                } else if i > stem.len() {
                    assert(ext[i - stem.len() - 1] == '/');
                }
            }
        }
        assert(name.last() == ext.last());
        assert(ext.last() == ext[ext.len() - 1]);
        assert(ext.contains(ext.last()));
        assert("."@.last() == '.' && ".."@.last() == '.');
        lemma_slashes_part(name, Seq::empty());
        lemma_slashes_part(dir, name);
        let both = site::parts(dir) + seq![name];
        assert(both.last() == name);
        assert(seq![name].last() == name);
        lemma_dot_before(stem.push('.'), ext);
        assert(stem.push('.').drop_last() =~= stem);
        assert(name.skip(stem.len() as int + 1) =~= ext);
        lemma_slashes_part(ext, Seq::empty());
        assert(seq![ext].last() == ext);
        lemma_dot_before(Seq::empty(), ext);
        assert(Seq::<char>::empty() + ext =~= ext);
        let hidden = seq!['.'] + ext;
        assert(!hidden.contains('/')) by {
            if hidden.contains('/') {
                let i = choose|i: int| 0 <= i < hidden.len() && hidden[i] == '/';
                assert(ext[i - 1] == '/');
            }
        }
        lemma_slashes_part(hidden, Seq::empty());
        assert(seq![hidden].last() == hidden);
        assert(hidden.last() == ext.last());
        lemma_dot_before(seq!['.'], ext);
    }
}

proof fn lemma_dot_before(front: Seq<char>, ext: Seq<char>)
    requires
        !ext.contains('.'),
    ensures
        site::last_dot(front + ext) == site::last_dot(front),
    decreases ext.len(),
{
    let s = front + ext;
    if ext.len() == 0 {
        assert(s =~= front);
    } else {
        let e = ext.drop_last();
        assert(!e.contains('.')) by {
            if e.contains('.') {
                let i = choose|i: int| 0 <= i < e.len() && e[i] == '.';
                assert(ext[i] == '.');
            }
        }
        assert(ext[ext.len() - 1] == ext.last());
        assert(ext.contains(ext.last()));
        assert(s.last() == ext.last());
        assert(s.drop_last() =~= front + e);
        lemma_dot_before(front, e);
    }
}

/// What the files of the site are sent as.
pub proof fn lemma_types_of_files(e: Option<Seq<char>>)
    ensures
        ({
            let t = site::type_for(e);
            &&& e == Some("html"@) ==> t == "text/html; charset=utf-8"@
            &&& e == Some("js"@) ==> t == "text/javascript; charset=utf-8"@
            &&& e == Some("css"@) ==> t == "text/css"@
            &&& e == Some("json"@) || e == Some("map"@) ==> t == "application/json"@
            &&& e == Some("svg"@) ==> t == "image/svg+xml"@
            &&& e == Some("png"@) ==> t == "image/png"@
            &&& e == Some("ico"@) ==> t == "image/x-icon"@
            &&& e == Some("woff2"@) ==> t == "font/woff2"@
            &&& e == Some("txt"@) ==> t == "text/plain; charset=utf-8"@
            &&& e is None ==> t == "application/octet-stream"@
        }),
{
    reveal_strlit("html");
    reveal_strlit("js");
    reveal_strlit("css");
    reveal_strlit("json");
    reveal_strlit("svg");
    reveal_strlit("png");
    reveal_strlit("ico");
    reveal_strlit("woff2");
    reveal_strlit("map");
    reveal_strlit("txt");
    assert("html"@.len() == 4 && "js"@.len() == 2 && "css"@.len() == 3 && "json"@.len() == 4
        && "svg"@.len() == 3 && "png"@.len() == 3 && "ico"@.len() == 3 && "woff2"@.len() == 5
        && "map"@.len() == 3 && "txt"@.len() == 3);
    assert("html"@[0] == 'h' && "json"@[0] == 'j');
    assert("css"@[0] == 'c' && "svg"@[0] == 's' && "png"@[0] == 'p' && "ico"@[0] == 'i' && "map"@[0]
        == 'm' && "txt"@[0] == 't');
}

/// What follows `/dashboard` is the path within the site; the public view is kept for five seconds.
pub proof fn lemma_paths_of_the_site(rest: Seq<char>, built_at: u128, now: u128)
    ensures
        site::site_path("/dashboard"@ + rest) == rest,
        now >= built_at ==> (crate::health::span(now, built_at) < site::PUBLIC_CACHE_SPAN <==> now
            - built_at < 5_000_000_000),
        now < built_at ==> crate::health::span(now, built_at) < site::PUBLIC_CACHE_SPAN,
{
    let p = "/dashboard"@ + rest;
    assert(p.subrange(0, "/dashboard"@.len() as int) =~= "/dashboard"@);
    assert(p.skip("/dashboard"@.len() as int) =~= rest);
}

} // verus!
