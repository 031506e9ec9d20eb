//! Tables of values found by a chain id or by a text key. A concurrent hash map holds, for each
//! key, the slot of its value; the slots keep the order in which keys came in.
use dashmap::DashMap;
use vstd::prelude::*;

verus! {

/// `dashmap::DashMap`, as an opaque type.
#[verifier::external_type_specification]
#[verifier::external_body]
#[verifier::reject_recursive_types(K)]
#[verifier::reject_recursive_types(V)]
#[verifier::reject_recursive_types(S)]
pub struct ExDashMap<K, V, S>(dashmap::DashMap<K, V, S>);

/// What a map from chain ids to slots holds.
pub uninterp spec fn id_slots(m: DashMap<u64, usize>) -> Map<u64, usize>;

/// What a map from text keys to slots holds, by the characters of each key.
pub uninterp spec fn key_slots(m: DashMap<String, usize>) -> Map<Seq<char>, usize>;

/// `DashMap::new` makes a map that holds nothing.
#[verifier::external_body]
fn new_id_slots() -> (m: DashMap<u64, usize>)
    ensures
        (id_slots(m) == Map::<u64, usize>::empty()),
{
    DashMap::new()
}

/// `DashMap::insert` puts the slot under the key, in place of an earlier one.
#[verifier::external_body]
fn put_id_slot(m: &mut DashMap<u64, usize>, id: u64, slot: usize)
    ensures
        id_slots(*final(m)) == id_slots(*old(m)).insert(id, slot),
{
    m.insert(id, slot);
}

/// `DashMap::get` finds the slot under the key, if there is one.
#[verifier::external_body]
fn find_id_slot(m: &DashMap<u64, usize>, id: u64) -> (slot: Option<usize>)
    ensures
        slot == (if id_slots(*m).contains_key(id) {
            Some(id_slots(*m)[id])
        } else {
            None
        }),
{
    m.get(&id).map(|entry| *entry.value())
}

/// `DashMap::remove` takes the key and its slot out of the map and leaves the rest.
#[verifier::external_body]
fn drop_id_slot(m: &mut DashMap<u64, usize>, id: u64)
    ensures
        id_slots(*final(m)) == id_slots(*old(m)).remove(id),
{
    m.remove(&id);
}

/// `DashMap::new` makes a map that holds nothing.
#[verifier::external_body]
fn new_key_slots() -> (m: DashMap<String, usize>)
    ensures
        (key_slots(m) == Map::<Seq<char>, usize>::empty()),
{
    DashMap::new()
}

/// `DashMap::insert` puts the slot under the key, in place of an earlier one.
#[verifier::external_body]
fn put_key_slot(m: &mut DashMap<String, usize>, key: String, slot: usize)
    ensures
        key_slots(*final(m)) == key_slots(*old(m)).insert(key@, slot),
{
    m.insert(key, slot);
}

/// `DashMap::get` finds the slot under the key, if there is one.
#[verifier::external_body]
fn find_key_slot(m: &DashMap<String, usize>, key: &str) -> (slot: Option<usize>)
    ensures
        slot == (if key_slots(*m).contains_key(key@) {
            Some(key_slots(*m)[key@])
        } else {
            None
        }),
{
    m.get(key).map(|entry| *entry.value())
}

/// `DashMap::remove` takes the key and its slot out of the map and leaves the rest.
#[verifier::external_body]
fn drop_key_slot(m: &mut DashMap<String, usize>, key: &str)
    ensures
        key_slots(*final(m)) == key_slots(*old(m)).remove(key@),
{
    m.remove(key);
}

/// Values found by a chain id.
pub struct IdTable<V> {
    index: DashMap<u64, usize>,
    keys: Vec<u64>,
    values: Vec<V>,
}

impl<V> IdTable<V> {
    /// Each slot is found under its own key, and every key leads to a slot.
    pub closed spec fn wf(self) -> bool {
        &&& self.keys@.len() == self.values@.len()
        &&& forall|i: int|
            0 <= i < self.keys@.len() ==> id_slots(self.index).contains_key(#[trigger] self.keys@[i])
                && id_slots(self.index)[self.keys@[i]] == i
        &&& forall|k: u64| #[trigger]
            id_slots(self.index).contains_key(k) ==> id_slots(self.index)[k] < self.keys@.len()
                && self.keys@[id_slots(self.index)[k] as int] == k
    }

    /// The keys, in the order of their slots.
    pub closed spec fn order(self) -> Seq<u64> {
        self.keys@
    }

    /// The values, in the order of their slots.
    pub closed spec fn items(self) -> Seq<V> {
        self.values@
    }

    /// Which value stands under which key.
    pub closed spec fn view(self) -> Map<u64, V> {
        Map::new(
            |k: u64| id_slots(self.index).contains_key(k),
            |k: u64| self.values@[id_slots(self.index)[k] as int],
        )
    }

    /// How keys, slots and values belong together.
    pub broadcast proof fn lemma_slots(self)
        requires
            #[trigger] self.wf(),
        ensures
            self.order().len() == self.items().len(),
            self.order().no_duplicates(),
            forall|i: int| #![trigger self.order()[i]]
                0 <= i < self.order().len() ==> self@.contains_key(self.order()[i])
                    && self@[self.order()[i]] == self.items()[i],
            forall|k: u64| #[trigger] self@.contains_key(k) ==> self.order().contains(k),
    {
        assert forall|k: u64| #[trigger] self@.contains_key(k) implies self.order().contains(k) by {
            assert(id_slots(self.index).contains_key(k));
            assert(self.order()[id_slots(self.index)[k] as int] == k);
        }
    }

    pub fn new() -> (t: Self)
        ensures
            t.wf(),
            t@ == Map::<u64, V>::empty(),
            t.order() == Seq::<u64>::empty(),
    {
        let t = IdTable { index: new_id_slots(), keys: Vec::new(), values: Vec::new() };
        assert(t@ =~= Map::<u64, V>::empty());
        t
    }

    pub fn len(&self) -> (n: usize)
        ensures
            n == self.order().len(),
    {
        self.keys.len()
    }

    pub fn key_at(&self, slot: usize) -> (k: u64)
        requires
            slot < self.order().len(),
        ensures
            k == self.order()[slot as int],
    {
        self.keys[slot]
    }

    pub fn value_at(&self, slot: usize) -> (v: &V)
        requires
            self.wf(),
            slot < self.order().len(),
        ensures
            *v == self.items()[slot as int],
    {
        &self.values[slot]
    }

    pub fn contains(&self, id: u64) -> (r: bool)
        requires
            self.wf(),
        ensures
            r == self@.contains_key(id),
    {
        find_id_slot(&self.index, id).is_some()
    }

    pub fn get(&self, id: u64) -> (v: Option<&V>)
        requires
            self.wf(),
        ensures
            v == (if self@.contains_key(id) {
                Some(&self@[id])
            } else {
                None
            }),
    {
        match find_id_slot(&self.index, id) {
            Some(slot) => Some(&self.values[slot]),
            None => None,
        }
    }

    /// Puts a value under a key, in place of an earlier one; a new key takes the last slot.
    pub fn insert(&mut self, id: u64, value: V)
        requires
            old(self).wf(),
        ensures
            final(self).wf(),
            final(self)@ == old(self)@.insert(id, value),
            final(self).order() == (if old(self)@.contains_key(id) {
                old(self).order()
            } else {
                old(self).order().push(id)
            }),
    {
        match find_id_slot(&self.index, id) {
            Some(slot) => {
                self.values.set(slot, value);
            },
            None => {
                let slot: usize = self.keys.len();
                self.keys.push(id);
                self.values.push(value);
                put_id_slot(&mut self.index, id, slot);
                assert(forall|i: int|
                    0 <= i < slot ==> self.keys@[i] == #[trigger] old(self).keys@[i]);
            },
        }
        assert(self@ =~= old(self)@.insert(id, value));
    }

    /// Hands out the value under a key for change in place.
    pub fn get_mut(&mut self, id: u64) -> (v: &mut V)
        requires
            old(self).wf(),
            old(self)@.contains_key(id),
        ensures
            final(self).wf(),
            *v == old(self)@[id],
            final(self)@ == old(self)@.insert(id, *final(v)),
            final(self).order() == old(self).order(),
    {
        let slot: usize = find_id_slot(&self.index, id).unwrap();
        let ghost before = *self;
        let v = &mut self.values[slot];
        proof {
            let after = IdTable::<V> {
                index: before.index,
                keys: before.keys,
                values: after_borrow(self.values),
            };
            assert(after@ =~= before@.insert(id, *final(v)));
        }
        v
    }

    /// Takes the value under a key out of the table.
    pub fn remove(&mut self, id: u64) -> (v: Option<V>)
        requires
            old(self).wf(),
        ensures
            final(self).wf(),
            v == (if old(self)@.contains_key(id) {
                Some(old(self)@[id])
            } else {
                None
            }),
            final(self)@ == old(self)@.remove(id),
    {
        match find_id_slot(&self.index, id) {
            Some(slot) => {
                let last: usize = self.keys.len() - 1;
                let moved: u64 = self.keys[last];
                let _ = self.keys.swap_remove(slot);
                let v = self.values.swap_remove(slot);
                drop_id_slot(&mut self.index, id);
                if slot < last {
                    put_id_slot(&mut self.index, moved, slot);
                }
                assert(self@ =~= old(self)@.remove(id));
                Some(v)
            },
            None => {
                assert(self@ =~= old(self)@.remove(id));
                None
            },
        }
    }
}

/// Values found by a text key.
pub struct KeyTable<V> {
    index: DashMap<String, usize>,
    keys: Vec<String>,
    values: Vec<V>,
}

impl<V> KeyTable<V> {
    /// Each slot is found under its own key, and every key leads to a slot.
    pub closed spec fn wf(self) -> bool {
        &&& self.keys@.len() == self.values@.len()
        &&& forall|i: int|
            0 <= i < self.keys@.len() ==> key_slots(self.index).contains_key(
                (#[trigger] self.keys@[i])@,
            ) && key_slots(self.index)[self.keys@[i]@] == i
        &&& forall|k: Seq<char>| #[trigger]
            key_slots(self.index).contains_key(k) ==> key_slots(self.index)[k] < self.keys@.len()
                && self.keys@[key_slots(self.index)[k] as int]@ == k
    }

    /// The keys, in the order of their slots.
    pub closed spec fn order(self) -> Seq<Seq<char>> {
        self.keys@.map_values(|k: String| k@)
    }

    /// The values, in the order of their slots.
    pub closed spec fn items(self) -> Seq<V> {
        self.values@
    }

    /// Which value stands under which key.
    pub closed spec fn view(self) -> Map<Seq<char>, V> {
        Map::new(
            |k: Seq<char>| key_slots(self.index).contains_key(k),
            |k: Seq<char>| self.values@[key_slots(self.index)[k] as int],
        )
    }

    /// How keys, slots and values belong together.
    pub broadcast proof fn lemma_slots(self)
        requires
            #[trigger] self.wf(),
        ensures
            self.order().len() == self.items().len(),
            self.order().no_duplicates(),
            forall|i: int| #![trigger self.order()[i]]
                0 <= i < self.order().len() ==> self@.contains_key(self.order()[i])
                    && self@[self.order()[i]] == self.items()[i],
            forall|k: Seq<char>| #[trigger] self@.contains_key(k) ==> self.order().contains(k),
    {
        assert forall|k: Seq<char>| #[trigger] self@.contains_key(k) implies self.order().contains(
            k,
        ) by {
            assert(key_slots(self.index).contains_key(k));
            assert(self.order()[key_slots(self.index)[k] as int] == k);
        }
        assert forall|i: int, j: int|
            0 <= i < self.order().len() && 0 <= j < self.order().len() && i != j implies
            self.order()[i] != self.order()[j] by {
            assert(key_slots(self.index)[self.keys@[i]@] == i);
            assert(key_slots(self.index)[self.keys@[j]@] == j);
        }
    }

    pub fn new() -> (t: Self)
        ensures
            t.wf(),
            t@ == Map::<Seq<char>, V>::empty(),
            t.order() == Seq::<Seq<char>>::empty(),
    {
        let t = KeyTable { index: new_key_slots(), keys: Vec::new(), values: Vec::new() };
        assert(t@ =~= Map::<Seq<char>, V>::empty());
        assert(t.order() =~= Seq::<Seq<char>>::empty());
        t
    }

    pub fn len(&self) -> (n: usize)
        ensures
            n == self.order().len(),
    {
        self.keys.len()
    }

    pub fn key_at(&self, slot: usize) -> (k: &String)
        requires
            slot < self.order().len(),
        ensures
            k@ == self.order()[slot as int],
    {
        &self.keys[slot]
    }

    pub fn value_at(&self, slot: usize) -> (v: &V)
        requires
            self.wf(),
            slot < self.order().len(),
        ensures
            *v == self.items()[slot as int],
    {
        &self.values[slot]
    }

    pub fn contains(&self, key: &str) -> (r: bool)
        requires
            self.wf(),
        ensures
            r == self@.contains_key(key@),
    {
        find_key_slot(&self.index, key).is_some()
    }

    pub fn get(&self, key: &str) -> (v: Option<&V>)
        requires
            self.wf(),
        ensures
            v == (if self@.contains_key(key@) {
                Some(&self@[key@])
            } else {
                None
            }),
    {
        match find_key_slot(&self.index, key) {
            Some(slot) => Some(&self.values[slot]),
            None => None,
        }
    }

    /// Puts a value under a key, in place of an earlier one; a new key takes the last slot.
    pub fn insert(&mut self, key: String, value: V)
        requires
            old(self).wf(),
        ensures
            final(self).wf(),
            final(self)@ == old(self)@.insert(key@, value),
            final(self).order() == (if old(self)@.contains_key(key@) {
                old(self).order()
            } else {
                old(self).order().push(key@)
            }),
    {
        match find_key_slot(&self.index, key.as_str()) {
            Some(slot) => {
                self.values.set(slot, value);
                assert(self.keys@ == old(self).keys@);
            },
            None => {
                let slot: usize = self.keys.len();
                self.keys.push(key.clone());
                self.values.push(value);
                put_key_slot(&mut self.index, key, slot);
                assert(forall|i: int|
                    0 <= i < slot ==> self.keys@[i] == #[trigger] old(self).keys@[i]);
                assert(self.order() =~= old(self).order().push(key@));
            },
        }
        assert(self@ =~= old(self)@.insert(key@, value));
    }

    /// Takes the value under a key out of the table.
    pub fn remove(&mut self, key: &str) -> (v: Option<V>)
        requires
            old(self).wf(),
        ensures
            final(self).wf(),
            v == (if old(self)@.contains_key(key@) {
                Some(old(self)@[key@])
            } else {
                None
            }),
            final(self)@ == old(self)@.remove(key@),
    {
        match find_key_slot(&self.index, key) {
            Some(slot) => {
                let last: usize = self.keys.len() - 1;
                let moved: String = self.keys[last].clone();
                let _ = self.keys.swap_remove(slot);
                let v = self.values.swap_remove(slot);
                drop_key_slot(&mut self.index, key);
                if slot < last {
                    put_key_slot(&mut self.index, moved, slot);
                }
                assert(self@ =~= old(self)@.remove(key@));
                Some(v)
            },
            None => {
                assert(self@ =~= old(self)@.remove(key@));
                None
            },
        }
    }
}

} // verus!
