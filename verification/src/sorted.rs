//! Maps kept as a list of entries in ascending order of their keys.
use crate::copying::Duplicate;
use crate::order::MapKey;
use vstd::prelude::*;

verus! {

/// A map whose entries stand in ascending order of their keys.
pub struct SortedMap<K, V> {
    entries: Vec<(K, V)>,
}

impl<K: MapKey, V> SortedMap<K, V> {
    /// The entries in their order.
    pub closed spec fn entries(self) -> Seq<(K, V)> {
        self.entries@
    }

    /// Every key precedes the keys behind it.
    pub open spec fn wf(self) -> bool {
        forall|i: int, j: int|
            0 <= i < j < self.entries().len() ==> (#[trigger] self.entries()[i]).0.precedes(
                &(#[trigger] self.entries()[j]).0,
            )
    }

    /// Where the entry with the given key stands.
    pub open spec fn holds(self, i: int, id: K::Id) -> bool {
        0 <= i < self.entries().len() && self.entries()[i].0.id() == id
    }

    pub open spec fn view(self) -> Map<K::Id, V> {
        Map::new(
            |id: K::Id| exists|i: int| self.holds(i, id),
            |id: K::Id| self.entries()[choose|i: int| self.holds(i, id)].1,
        )
    }

    /// No two entries share a key, so the map gives each key the value of its one entry.
    pub proof fn lemma_entry(self, i: int)
        requires
            self.wf(),
            0 <= i < self.entries().len(),
        ensures
            self@.contains_key(self.entries()[i].0.id()),
            self@[self.entries()[i].0.id()] == self.entries()[i].1,
            forall|j: int| #[trigger] self.holds(j, self.entries()[i].0.id()) ==> j == i,
    {
        let id = self.entries()[i].0.id();
        assert(self.holds(i, id));
        assert forall|j: int| #[trigger] self.holds(j, id) implies j == i by {
            K::id_laws(&self.entries()[i].0, &self.entries()[j].0);
            if j < i {
                assert(self.entries()[j].0.precedes(&self.entries()[i].0));
            }
            if i < j {
                assert(self.entries()[i].0.precedes(&self.entries()[j].0));
            }
        }
    }

    pub fn new() -> (m: Self)
        ensures
            m.wf(),
            m@ == Map::<K::Id, V>::empty(),
            m.entries() == Seq::<(K, V)>::empty(),
    {
        let m = SortedMap { entries: Vec::new() };
        assert(m@ =~= Map::<K::Id, V>::empty());
        m
    }

    pub fn len(&self) -> (n: usize)
        ensures
            n == self.entries().len(),
    {
        self.entries.len()
    }

    pub fn key_at(&self, i: usize) -> (k: &K)
        requires
            i < self.entries().len(),
        ensures
            *k == self.entries()[i as int].0,
    {
        &self.entries[i].0
    }

    pub fn value_at(&self, i: usize) -> (v: &V)
        requires
            i < self.entries().len(),
        ensures
            *v == self.entries()[i as int].1,
    {
        &self.entries[i].1
    }

    /// The first position whose key does not precede `key`.
    fn position(&self, key: &K) -> (p: usize)
        requires
            self.wf(),
        ensures
            p <= self.entries().len(),
            forall|i: int| 0 <= i < p ==> (#[trigger] self.entries()[i]).0.precedes(key),
            forall|i: int|
                p <= i < self.entries().len() ==> !(#[trigger] self.entries()[i]).0.precedes(key),
    {
        let mut p: usize = 0;
        while p < self.entries.len() && self.entries[p].0.before(key)
            invariant
                p <= self.entries@.len(),
                forall|i: int| 0 <= i < p ==> (#[trigger] self.entries()[i]).0.precedes(key),
            ensures
                p <= self.entries@.len(),
                forall|i: int| 0 <= i < p ==> (#[trigger] self.entries()[i]).0.precedes(key),
                p < self.entries@.len() ==> !self.entries@[p as int].0.precedes(key),
            decreases self.entries@.len() - p,
        {
            p = p + 1;
        }
        proof {
            assert forall|i: int| p <= i < self.entries().len() implies !(
            #[trigger] self.entries()[i]).0.precedes(key) by {
                if i > p {
                    assert(self.entries()[p as int].0.precedes(&self.entries()[i].0));
                    K::rank_laws(&self.entries()[p as int].0, &self.entries()[i].0, key);
                }
            }
        }
        p
    }

    pub fn get(&self, key: &K) -> (v: Option<&V>)
        requires
            self.wf(),
        ensures
            v == (if self@.contains_key(key.id()) {
                Some(&self@[key.id()])
            } else {
                None
            }),
    {
        let p = self.position(key);
        if p < self.entries.len() && !key.before(&self.entries[p].0) {
            proof {
                K::id_laws(&self.entries()[p as int].0, key);
                self.lemma_entry(p as int);
            }
            Some(&self.entries[p].1)
        } else {
            proof {
                assert forall|i: int| !self.holds(i, key.id()) by {
                    if self.holds(i, key.id()) {
                        K::id_laws(&self.entries()[i].0, key);
                        if i > p {
                            let a = &self.entries()[p as int].0;
                            let b = &self.entries()[i].0;
                            assert(a.precedes(b));
                            K::rank_laws(key, a, b);
                            K::rank_laws(key, key, b);
                        }
                    }
                }
            }
            None
        }
    }

    /// Puts a value under a key, in place of an earlier one.
    pub fn insert(&mut self, key: K, value: V)
        requires
            old(self).wf(),
        ensures
            final(self).wf(),
            final(self)@ == old(self)@.insert(key.id(), value),
    {
        let p = self.position(&key);
        let ghost before = *self;
        let ghost id = key.id();
        if p < self.entries.len() && !key.before(&self.entries[p].0) {
            proof {
                K::id_laws(&before.entries()[p as int].0, &key);
                before.lemma_entry(p as int);
            }
            self.entries.set(p, (key, value));
            proof {
                assert(self.entries() =~= before.entries().update(p as int, (key, value)));
                assert(self.wf()) by {
                    assert forall|i: int, j: int| 0 <= i < j < self.entries().len() implies (
                    #[trigger] self.entries()[i]).0.precedes(&(#[trigger] self.entries()[j]).0) by {
                        let was = &before.entries()[p as int].0;
                        assert(before.entries()[i].0.precedes(&before.entries()[j].0));
                        if i == p {
                            K::rank_laws(was, &key, &before.entries()[j].0);
                        } else if j == p {
                            K::rank_laws(&before.entries()[i].0, &key, was);
                        }
                    }
                }
                assert forall|i: int, other: K::Id| self.holds(i, other) == before.holds(
                    i,
                    other,
                ) by {}
                self.lemma_entry(p as int);
                assert forall|other: K::Id| #[trigger] self@.contains_key(other) && other
                    != id implies self@[other] == before@[other] by {
                    let i = choose|i: int| self.holds(i, other);
                    assert(self.holds(i, other));
                    assert(before.holds(i, other));
                    self.lemma_entry(i);
                    before.lemma_entry(i);
                }
                assert forall|other: K::Id| #[trigger] self@.contains_key(other)
                    == before@.contains_key(other) by {
                    if self@.contains_key(other) {
                        let i = choose|i: int| self.holds(i, other);
                        assert(before.holds(i, other));
                    }
                    if before@.contains_key(other) {
                        let i = choose|i: int| before.holds(i, other);
                        assert(self.holds(i, other));
                    }
                }
            }
        } else {
            proof {
                assert forall|i: int| p <= i < before.entries().len() implies key.precedes(
                    &(#[trigger] before.entries()[i]).0,
                ) by {
                    if i > p {
                        let a = &before.entries()[p as int].0;
                        assert(a.precedes(&before.entries()[i].0));
                        K::rank_laws(&key, a, &before.entries()[i].0);
                    }
                }
            }
            self.entries.insert(p, (key, value));
            proof {
                assert(self.entries() =~= before.entries().insert(p as int, (key, value)));
                assert forall|i: int, j: int| 0 <= i < j < self.entries().len() implies (
                #[trigger] self.entries()[i]).0.precedes(&(#[trigger] self.entries()[j]).0) by {
                    let fi: int = if i < p { i } else { i - 1 };
                    let fj: int = if j < p { j } else { j - 1 };
                    if i == p {
                        assert(self.entries()[j] == before.entries()[fj]);
                    } else if j == p {
                        assert(self.entries()[i] == before.entries()[fi]);
                    } else {
                        assert(before.entries()[fi].0.precedes(&before.entries()[fj].0));
                    }
                }
                self.lemma_entry(p as int);
                assert forall|other: K::Id| other != id implies #[trigger] self@.contains_key(other)
                    == before@.contains_key(other) && (self@.contains_key(other) ==> self@[other]
                    == before@[other]) by {
                    if self@.contains_key(other) {
                        let i = choose|i: int| self.holds(i, other);
                        let fi: int = if i < p { i } else { i - 1 };
                        assert(before.holds(fi, other));
                        self.lemma_entry(i);
                        before.lemma_entry(fi);
                    }
                    if before@.contains_key(other) {
                        let i = choose|i: int| before.holds(i, other);
                        let ti: int = if i < p { i } else { i + 1 };
                        assert(self.entries()[ti] == before.entries()[i]);
                        assert(self.holds(ti, other));
                    }
                }
            }
        }
        assert(self@ =~= before@.insert(id, value));
    }

    /// Takes the entry with the given key out of the map, if there is one.
    pub fn remove(&mut self, key: &K)
        requires
            old(self).wf(),
        ensures
            final(self).wf(),
            final(self)@ == old(self)@.remove(key.id()),
    {
        let p = self.position(key);
        let ghost before = *self;
        let ghost id = key.id();
        if p < self.entries.len() && !key.before(&self.entries[p].0) {
            proof {
                K::id_laws(&before.entries()[p as int].0, key);
                before.lemma_entry(p as int);
            }
            let _ = self.entries.remove(p);
            proof {
                assert(self.entries() =~= before.entries().remove(p as int));
                assert forall|i: int, j: int| 0 <= i < j < self.entries().len() implies (
                #[trigger] self.entries()[i]).0.precedes(&(#[trigger] self.entries()[j]).0) by {
                    let fi: int = if i < p { i } else { i + 1 };
                    let fj: int = if j < p { j } else { j + 1 };
                    assert(before.entries()[fi].0.precedes(&before.entries()[fj].0));
                }
                assert forall|other: K::Id| #[trigger] self@.contains_key(other) == (other != id
                    && before@.contains_key(other)) && (self@.contains_key(other) ==> self@[other]
                    == before@[other]) by {
                    if self@.contains_key(other) {
                        let i = choose|i: int| self.holds(i, other);
                        let fi: int = if i < p { i } else { i + 1 };
                        assert(before.holds(fi, other));
                        self.lemma_entry(i);
                        before.lemma_entry(fi);
                        if other == id {
                            assert(before.holds(fi, id));
                        }
                    }
                    if before@.contains_key(other) && other != id {
                        let i = choose|i: int| before.holds(i, other);
                        assert(i != p);
                        let ti: int = if i < p { i } else { i - 1 };
                        assert(self.entries()[ti] == before.entries()[i]);
                        assert(self.holds(ti, other));
                    }
                }
            }
        } else {
            proof {
                assert forall|i: int| !before.holds(i, id) by {
                    if before.holds(i, id) {
                        K::id_laws(&before.entries()[i].0, key);
                        if i > p {
                            let a = &before.entries()[p as int].0;
                            let b = &before.entries()[i].0;
                            assert(a.precedes(b));
                            K::rank_laws(key, a, b);
                        }
                    }
                }
            }
        }
        assert(self@ =~= before@.remove(id));
    }
}

impl<K: MapKey + Duplicate, V: Duplicate> SortedMap<K, V> {
    /// Another map with the same entries.
    pub fn duplicate(&self) -> (m: Self)
        requires
            self.wf(),
        ensures
            m.wf(),
            m.entries() == self.entries(),
            m@ == self@,
    {
        let mut entries: Vec<(K, V)> = Vec::new();
        let mut i: usize = 0;
        while i < self.entries.len()
            invariant
                i <= self.entries@.len(),
                entries@ == self.entries@.take(i as int),
            decreases self.entries@.len() - i,
        {
            entries.push((self.entries[i].0.duplicate(), self.entries[i].1.duplicate()));
            i = i + 1;
        }
        let m = SortedMap { entries };
        proof {
            assert(m.entries() =~= self.entries());
            assert forall|id: K::Id, i: int| m.holds(i, id) == #[trigger] self.holds(i, id) by {}
            assert(m@ =~= self@) by {
                assert forall|id: K::Id| #[trigger] m@.contains_key(id) == self@.contains_key(id) by {
                    if m@.contains_key(id) {
                        let i = choose|i: int| m.holds(i, id);
                        assert(self.holds(i, id));
                    }
                    if self@.contains_key(id) {
                        let i = choose|i: int| self.holds(i, id);
                        assert(m.holds(i, id));
                    }
                }
                assert forall|id: K::Id| #[trigger] m@.contains_key(id) implies m@[id]
                    == self@[id] by {
                    let i = choose|i: int| m.holds(i, id);
                    m.lemma_entry(i);
                    self.lemma_entry(i);
                }
            }
        }
        m
    }
}

} // verus!
