//! Sorting: stable orders of keyed items and ascending rows of numbers.
use crate::text;
use vstd::prelude::*;
use vstd::relations::*;
use vstd::seq_lib::*;

verus! {

/// A key that items can be sorted by.
pub trait Ranked: Sized {
    /// Whether this key has to stand before the other.
    spec fn precedes(&self, other: &Self) -> bool;

    /// The order is strict, and keys that do not precede one another rank alike.
    proof fn rank_laws(a: &Self, b: &Self, c: &Self)
        ensures
            !a.precedes(a),
            a.precedes(b) && b.precedes(c) ==> a.precedes(c),
            a.precedes(c) ==> a.precedes(b) || b.precedes(c),
    ;

    fn before(&self, other: &Self) -> (r: bool)
        ensures
            r == self.precedes(other),
    ;
}

impl Ranked for u64 {
    open spec fn precedes(&self, other: &Self) -> bool {
        *self < *other
    }

    proof fn rank_laws(a: &Self, b: &Self, c: &Self) {
    }

    fn before(&self, other: &Self) -> (r: bool) {
        *self < *other
    }
}

/// Whether text `a` stands before text `b` in a dictionary that compares character by character.
pub open spec fn text_less(a: Seq<char>, b: Seq<char>) -> bool
    decreases a.len(),
{
    if b.len() == 0 {
        false
    } else if a.len() == 0 {
        true
    } else if a[0] != b[0] {
        a[0] < b[0]
    } else {
        text_less(a.skip(1), b.skip(1))
    }
}

/// The dictionary order is a strict order in which any two different texts compare.
pub proof fn lemma_text_order(a: Seq<char>, b: Seq<char>, c: Seq<char>)
    ensures
        !text_less(a, a),
        text_less(a, b) ==> !text_less(b, a),
        a == b || text_less(a, b) || text_less(b, a),
        text_less(a, b) && text_less(b, c) ==> text_less(a, c),
    decreases a.len() + b.len() + c.len(),
{
    let a1 = if a.len() > 0 { a.skip(1) } else { a };
    let b1 = if b.len() > 0 { b.skip(1) } else { b };
    let c1 = if c.len() > 0 { c.skip(1) } else { c };
    if a.len() + b.len() + c.len() > 0 {
        lemma_text_order(a1, b1, c1);
    }
    if a.len() > 0 && b.len() > 0 && a[0] == b[0] && a.skip(1) == b.skip(1) {
        assert(a =~= seq![a[0]] + a.skip(1));
        assert(b =~= seq![b[0]] + b.skip(1));
    }
    if a.len() == 0 && b.len() == 0 {
        assert(a =~= b);
    }
}

/// Whether `a` stands before `b` in the dictionary order.
pub fn text_before(a: &str, b: &str) -> (r: bool)
    ensures
        r == text_less(a@, b@),
{
    let av = text::chars(a);
    let bv = text::chars(b);
    let mut i: usize = 0;
    assert(av@.skip(0) =~= av@ && bv@.skip(0) =~= bv@);
    while i < av.len() && i < bv.len() && av[i] == bv[i]
        invariant
            i <= av@.len(),
            i <= bv@.len(),
            text_less(av@, bv@) == text_less(av@.skip(i as int), bv@.skip(i as int)),
        ensures
            i <= av@.len(),
            i <= bv@.len(),
            i < av@.len() && i < bv@.len() ==> av@[i as int] != bv@[i as int],
            text_less(av@, bv@) == text_less(av@.skip(i as int), bv@.skip(i as int)),
        decreases av@.len() - i,
    {
        assert(av@.skip(i as int).skip(1) =~= av@.skip(i + 1));
        assert(bv@.skip(i as int).skip(1) =~= bv@.skip(i + 1));
        i = i + 1;
    }
    if i == bv.len() {
        false
    } else if i == av.len() {
        true
    } else {
        av[i] < bv[i]
    }
}

impl Ranked for String {
    open spec fn precedes(&self, other: &Self) -> bool {
        text_less(self@, other@)
    }

    proof fn rank_laws(a: &Self, b: &Self, c: &Self) {
        lemma_text_order(a@, b@, c@);
        lemma_text_order(b@, c@, a@);
        lemma_text_order(c@, a@, b@);
        lemma_text_order(a@, c@, b@);
        lemma_text_order(c@, b@, a@);
    }

    fn before(&self, other: &Self) -> (r: bool) {
        text_before(self.as_str(), other.as_str())
    }
}

/// A sort key that also identifies what it stands for.
pub trait MapKey: Ranked {
    /// What two keys have in common that find the same entry.
    type Id;

    spec fn id(&self) -> Self::Id;

    /// Keys that rank alike are the same key.
    proof fn id_laws(a: &Self, b: &Self)
        ensures
            a.id() == b.id() <==> !a.precedes(b) && !b.precedes(a),
    ;
}

impl MapKey for u64 {
    type Id = u64;

    open spec fn id(&self) -> u64 {
        *self
    }

    proof fn id_laws(a: &Self, b: &Self) {
    }
}

impl MapKey for String {
    type Id = Seq<char>;

    open spec fn id(&self) -> Seq<char> {
        self@
    }

    proof fn id_laws(a: &Self, b: &Self) {
        lemma_text_order(a@, b@, a@);
    }
}

/// `perm` lists every position of `keys` once, in ascending order of the keys found there; positions
/// whose keys rank alike keep their order.
pub open spec fn is_stable_order<K: Ranked>(keys: Seq<K>, perm: Seq<usize>) -> bool {
    &&& perm.len() == keys.len()
    &&& perm.no_duplicates()
    &&& forall|i: int| 0 <= i < perm.len() ==> (#[trigger] perm[i]) < keys.len()
    &&& forall|i: int, j: int|
        0 <= i < j < perm.len() ==> in_order(keys, #[trigger] perm[i], #[trigger] perm[j])
}

/// Position `a` of `keys` has to be listed before position `b`.
pub open spec fn in_order<K: Ranked>(keys: Seq<K>, a: usize, b: usize) -> bool {
    keys[a as int].precedes(&keys[b as int]) || (!keys[b as int].precedes(&keys[a as int]) && a < b)
}

/// Lists the positions of `keys` in ascending order of the keys.
pub fn stable_order<K: Ranked>(keys: &Vec<K>) -> (perm: Vec<usize>)
    ensures
        is_stable_order(keys@, perm@),
{
    let mut perm: Vec<usize> = Vec::new();
    let mut i: usize = 0;
    while i < keys.len()
        invariant
            i <= keys@.len(),
            perm@.len() == i,
            perm@.no_duplicates(),
            forall|a: int| 0 <= a < i ==> (#[trigger] perm@[a]) < i,
            forall|a: int, b: int|
                0 <= a < b < i ==> in_order(keys@, #[trigger] perm@[a], #[trigger] perm@[b]),
        decreases keys@.len() - i,
    {
        let mut p: usize = i;
        while p > 0 && keys[i].before(&keys[perm[p - 1]])
            invariant
                p <= i < keys@.len(),
                perm@.len() == i,
                forall|a: int| 0 <= a < i ==> (#[trigger] perm@[a]) < i,
                forall|b: int|
                    p <= b < i ==> keys@[i as int].precedes(&keys@[(#[trigger] perm@[b]) as int]),
            ensures
                p <= i,
                p > 0 ==> !keys@[i as int].precedes(&keys@[perm@[p - 1] as int]),
                forall|b: int|
                    p <= b < i ==> keys@[i as int].precedes(&keys@[(#[trigger] perm@[b]) as int]),
            decreases p,
        {
            p = p - 1;
        }
        let ghost before = perm@;
        perm.insert(p, i);
        proof {
            assert(perm@ =~= before.insert(p as int, i));
            assert forall|a: int, b: int| 0 <= a < b < i + 1 implies in_order(
                keys@,
                #[trigger] perm@[a],
                #[trigger] perm@[b],
            ) by {
                let from_a: int = if a < p { a } else { a - 1 };
                let from_b: int = if b < p { b } else { b - 1 };
                if b == p {
                    let k = &keys@[i as int];
                    let q = &keys@[before[a] as int];
                    let last = &keys@[before[p - 1] as int];
                    K::rank_laws(k, last, q);
                    if a < p - 1 {
                        assert(in_order(keys@, before[a], before[p - 1]));
                        K::rank_laws(q, last, q);
                    }
                    assert(!k.precedes(q));
                } else if a == p {
                    assert(perm@[b] == before[from_b]);
                } else {
                    assert(perm@[a] == before[from_a]);
                    assert(perm@[b] == before[from_b]);
                    assert(in_order(keys@, before[from_a], before[from_b]));
                }
            }
            assert forall|a: int, b: int|
                0 <= a < i + 1 && 0 <= b < i + 1 && a != b implies perm@[a] != perm@[b] by {
                let from_a: int = if a < p { a } else { a - 1 };
                let from_b: int = if b < p { b } else { b - 1 };
                if a != p && b != p {
                    assert(before[from_a] != before[from_b]);
                } else if a == p {
                    assert(before[from_b] < i);
                } else {
                    assert(before[from_a] < i);
                }
            }
        }
        i = i + 1;
    }
    perm
}

/// A list of all different places below its length reaches every place.
pub proof fn lemma_reaches_all(ranking: Seq<usize>)
    requires
        ranking.no_duplicates(),
        forall|i: int| 0 <= i < ranking.len() ==> (#[trigger] ranking[i]) < ranking.len(),
    ensures
        forall|x: usize| x < ranking.len() ==> #[trigger] ranking.contains(x),
{
    let n = ranking.len() as int;
    let places = ranking.map_values(|x: usize| x as int);
    let all = vstd::set_lib::set_int_range(0, n);
    vstd::set_lib::lemma_int_range(0, n);
    assert(places.no_duplicates());
    places.unique_seq_to_set();
    assert(places.to_set().subset_of(all)) by {
        assert forall|x: int| places.to_set().contains(x) implies all.contains(x) by {
            let i = choose|i: int| 0 <= i < places.len() && places[i] == x;
            assert(ranking[i] < ranking.len());
        }
    }
    vstd::set_lib::lemma_subset_equality(places.to_set(), all);
    assert forall|x: usize| x < ranking.len() implies #[trigger] ranking.contains(x) by {
        assert(all.contains(x as int));
        assert(places.to_set().contains(x as int));
        let i = choose|i: int| 0 <= i < places.len() && places[i] == x as int;
        assert(ranking[i] == x);
    }
}

/// The numbers of `s` in ascending order.
pub open spec fn ascending(s: Seq<u64>) -> Seq<u64> {
    s.sort_by(|a: u64, b: u64| a <= b)
}

/// Sorts numbers in ascending order.
pub fn sorted_numbers(s: &[u64]) -> (v: Vec<u64>)
    ensures
        v@ == ascending(s@),
{
    let mut v: Vec<u64> = Vec::new();
    let ghost leq = |a: u64, b: u64| a <= b;
    let mut i: usize = 0;
    proof {
        assert(s@.take(0) =~= v@);
    }
    while i < s.len()
        invariant
            i <= s@.len(),
            v@.len() == i,
            v@.to_multiset() == s@.take(i as int).to_multiset(),
            forall|a: int, b: int| 0 <= a < b < i ==> v@[a] <= v@[b],
        decreases s@.len() - i,
    {
        let x: u64 = s[i];
        let mut p: usize = i;
        while p > 0 && x < v[p - 1]
            invariant
                p <= i,
                v@.len() == i,
                forall|b: int| p <= b < i ==> x < v@[b],
            decreases p,
        {
            p = p - 1;
        }
        let ghost before = v@;
        v.insert(p, x);
        proof {
            to_multiset_insert(before, p as int, x);
            to_multiset_build(s@.take(i as int), x);
            assert(s@.take(i + 1) =~= s@.take(i as int).push(x));
            assert forall|a: int, b: int| 0 <= a < b < i + 1 implies v@[a] <= v@[b] by {
                let from_a: int = if a < p { a } else { a - 1 };
                let from_b: int = if b < p { b } else { b - 1 };
                if b == p {
                    assert(v@[a] == before[a]);
                    assert(before[a] <= before[p - 1]);
                } else if a == p {
                    assert(v@[b] == before[from_b]);
                } else {
                    assert(v@[a] == before[from_a] && v@[b] == before[from_b]);
                }
            }
        }
        i = i + 1;
    }
    proof {
        assert(s@.take(s@.len() as int) =~= s@);
        s@.lemma_sort_by_ensures(leq);
        lemma_sorted_unique(v@, s@.sort_by(leq), leq);
    }
    v
}

/// One text stands before another where, past what they have in common, it ends, or goes on with a
/// smaller character.
pub proof fn lemma_texts_differ_first(a: Seq<char>, b: Seq<char>, n: int)
    requires
        0 <= n <= a.len(),
        n <= b.len(),
        a.take(n) == b.take(n),
        n < a.len() && n < b.len() ==> a[n] != b[n],
    ensures
        n == a.len() && n < b.len() ==> text_less(a, b),
        n == b.len() ==> !text_less(a, b),
        n < a.len() && n < b.len() ==> (text_less(a, b) <==> a[n] < b[n]),
    decreases n,
{
    if n > 0 {
        assert(a.take(n)[0] == a[0] && b.take(n)[0] == b[0]);
        assert(a.skip(1).take(n - 1) =~= a.take(n).skip(1));
        assert(b.skip(1).take(n - 1) =~= b.take(n).skip(1));
        lemma_texts_differ_first(a.skip(1), b.skip(1), n - 1);
    }
}

} // verus!
