//! Component tables: one table maps entity numbers to values, and a set of
//! tables is filed by key.

use crate::entity::Entity;
use std::collections::hash_map::Entry;
use std::collections::HashMap;
use std::collections::HashSet;
use vstd::prelude::*;
use vstd::std_specs::iter::IteratorSpec;

verus! {

broadcast use vstd::std_specs::hash::group_hash_axioms;

/// The keys of a map, each exactly once, in the order the map walks them.
pub fn keys_of<T>(m: &HashMap<u64, T>) -> (keys: Vec<u64>)
    ensures
        keys@.no_duplicates(),
        keys@.to_set() == m@.dom(),
{
    let mut keys: Vec<u64> = Vec::new();
    let ghost all = vstd::std_specs::hash::spec_keys_iter(m).remaining();
    for k in it: m.keys()
        invariant
            it.seq() == all,
            keys@.len() == it.index(),
            keys@ == all.take(keys@.len() as int).unref(),
    {
        keys.push(*k);
    }
    assert(keys@ == all.unref());
    keys
}

/// The members of a set, each exactly once, in the order the set walks them.
pub fn members_of(s: &HashSet<u64>) -> (members: Vec<u64>)
    ensures
        members@.no_duplicates(),
        members@.to_set() == s@,
{
    let mut members: Vec<u64> = Vec::new();
    let ghost all = vstd::std_specs::hash::spec_hash_keys_iter(s).remaining();
    for k in it: s.iter()
        invariant
            it.seq() == all,
            members@.len() == it.index(),
            members@ == all.take(members@.len() as int).unref(),
    {
        members.push(*k);
    }
    assert(members@ == all.unref());
    members
}

/// Mutable access to the value under `key`, if the map has one. The map ends up
/// with whatever the caller leaves in the value.
pub fn value_mut<T>(m: &mut HashMap<u64, T>, key: u64) -> (r: Option<&mut T>)
    ensures
        match r {
            Some(v) => old(m)@.contains_key(key) && *v == old(m)@[key] && final(m)@ == old(
                m,
            )@.insert(key, *final(v)),
            None => !old(m)@.contains_key(key) && final(m)@ == old(m)@,
        },
{
    match m.entry(key) {
        Entry::Occupied(slot) => Some(slot.into_mut()),
        Entry::Vacant(_) => None,
    }
}

/// One component table. Its view maps the number of each entity that has an
/// entry to the entry's value.
pub struct ComponentStore<V> {
    map: HashMap<u64, V>,
}

impl<V> View for ComponentStore<V> {
    type V = Map<u64, V>;

    closed spec fn view(&self) -> Map<u64, V> {
        self.map@
    }
}

impl<V> ComponentStore<V> {
    /// A table without entries.
    pub fn new() -> (s: Self)
        ensures
            s@ == Map::<u64, V>::empty(),
    {
        ComponentStore { map: HashMap::new() }
    }

    /// Sets the entry of `entity` to `value`, replacing an earlier one.
    pub fn insert(&mut self, entity: Entity, value: V)
        ensures
            final(self)@ == old(self)@.insert(entity@, value),
    {
        self.map.insert(entity.0, value);
    }

    /// The entry of `entity`, if there is one.
    pub fn get(&self, entity: Entity) -> (r: Option<&V>)
        ensures
            r == (if self@.contains_key(entity@) {
                Some(&self@[entity@])
            } else {
                None
            }),
    {
        self.map.get(&entity.0)
    }

    /// Mutable access to the entry of `entity`, if there is one. The table
    /// ends up with whatever the caller leaves in the entry.
    pub fn get_mut(&mut self, entity: Entity) -> (r: Option<&mut V>)
        ensures
            match r {
                Some(v) => old(self)@.contains_key(entity@) && *v == old(self)@[entity@]
                    && final(self)@ == old(self)@.insert(entity@, *final(v)),
                None => !old(self)@.contains_key(entity@) && final(self)@ == old(self)@,
            },
    {
        value_mut(&mut self.map, entity.0)
    }

    /// Removes the entry of `entity`; without one the table stays as it is.
    pub fn remove(&mut self, entity: Entity)
        ensures
            final(self)@ == old(self)@.remove(entity@),
    {
        self.map.remove(&entity.0);
    }

    /// Whether `entity` has an entry.
    pub fn contains(&self, entity: Entity) -> (r: bool)
        ensures
            r == self@.contains_key(entity@),
    {
        self.map.contains_key(&entity.0)
    }

    /// The number of entries.
    pub fn len(&self) -> (n: usize)
        ensures
            n == self@.len(),
    {
        self.map.len()
    }

    /// The entities that have an entry, each exactly once, in no particular
    /// order.
    pub fn keys(&self) -> (keys: Vec<Entity>)
        ensures
            keys@.no_duplicates(),
            forall|e: Entity| keys@.contains(e) <==> self@.contains_key(e@),
    {
        let ids = keys_of(&self.map);
        entities_of(&ids)
    }
}

/// The handles for a list of entity numbers, in the same order.
pub fn entities_of(ids: &Vec<u64>) -> (entities: Vec<Entity>)
    ensures
        entities@.len() == ids@.len(),
        forall|i: int| 0 <= i < ids@.len() ==> (#[trigger] entities@[i])@ == ids@[i],
        ids@.no_duplicates() ==> entities@.no_duplicates(),
        forall|e: Entity| entities@.contains(e) <==> ids@.contains(e@),
{
    let mut entities: Vec<Entity> = Vec::new();
    let mut i: usize = 0;
    while i < ids.len()
        invariant
            i <= ids@.len(),
            entities@.len() == i,
            forall|k: int| 0 <= k < i ==> (#[trigger] entities@[k])@ == ids@[k],
        decreases ids@.len() - i,
    {
        entities.push(Entity(ids[i]));
        i += 1;
    }
    proof {
        assert forall|e: Entity| entities@.contains(e) <==> ids@.contains(e@) by {
            if ids@.contains(e@) {
                let k = choose|k: int| 0 <= k < ids@.len() && ids@[k] == e@;
                assert(entities@[k]@ == e@);
            }
        }
    }
    entities
}

} // verus!

verus! {

/// The table filed under `key` in a set of tables, empty if there is none.
pub open spec fn table_of<V>(tables: Map<u64, Map<u64, V>>, key: u64) -> Map<u64, V> {
    if tables.contains_key(key) {
        tables[key]
    } else {
        Map::empty()
    }
}

/// The set of tables with a table filed under `key`: the one that is there,
/// or an empty one.
pub open spec fn with_table<V>(tables: Map<u64, Map<u64, V>>, key: u64) -> Map<u64, Map<u64, V>> {
    tables.insert(key, table_of(tables, key))
}

/// The set of tables after `entity` gets `value` in the table under `key`.
pub open spec fn with_entry<V>(tables: Map<u64, Map<u64, V>>, key: u64, entity: u64, value: V) -> Map<
    u64,
    Map<u64, V>,
> {
    tables.insert(key, table_of(tables, key).insert(entity, value))
}

/// The set of tables after the entry of `entity` leaves the table under
/// `key`. No table is filed or dropped by this.
pub open spec fn without_entry<V>(tables: Map<u64, Map<u64, V>>, key: u64, entity: u64) -> Map<
    u64,
    Map<u64, V>,
> {
    if tables.contains_key(key) {
        tables.insert(key, tables[key].remove(entity))
    } else {
        tables
    }
}

/// The set of tables after every entry of `entity` is gone.
pub open spec fn purged<V>(tables: Map<u64, Map<u64, V>>, entity: u64) -> Map<u64, Map<u64, V>> {
    Map::new(|k: u64| tables.contains_key(k), |k: u64| tables[k].remove(entity))
}

/// A set of component tables, each filed under a number. Its view maps the
/// key of each table to that table's view.
pub struct Tables<V> {
    inner: HashMap<u64, ComponentStore<V>>,
}

impl<V> View for Tables<V> {
    type V = Map<u64, Map<u64, V>>;

    closed spec fn view(&self) -> Map<u64, Map<u64, V>> {
        Map::new(|k: u64| self.inner@.contains_key(k), |k: u64| self.inner@[k]@)
    }
}

impl<V> Tables<V> {
    /// No tables.
    pub fn new() -> (t: Self)
        ensures
            t@ == Map::<u64, Map<u64, V>>::empty(),
    {
        let t = Tables { inner: HashMap::new() };
        t
    }

    /// Whether a table is filed under `key`.
    pub fn has_table(&self, key: u64) -> (r: bool)
        ensures
            r == self@.contains_key(key),
    {
        self.inner.contains_key(&key)
    }

    /// Files an empty table under `key` unless one is there.
    pub fn ensure(&mut self, key: u64)
        ensures
            final(self)@ == with_table(old(self)@, key),
    {
        if !self.inner.contains_key(&key) {
            self.inner.insert(key, ComponentStore::new());
        }
    }

    /// The table under `key`, if one is filed.
    pub fn store(&self, key: u64) -> (r: Option<&ComponentStore<V>>)
        ensures
            match r {
                Some(s) => self@.contains_key(key) && s@ == self@[key],
                None => !self@.contains_key(key),
            },
    {
        self.inner.get(&key)
    }

    /// Mutable access to the table under `key`, if one is filed. The set ends
    /// up with whatever the caller leaves in the table.
    pub fn store_mut(&mut self, key: u64) -> (r: Option<&mut ComponentStore<V>>)
        ensures
            match r {
                Some(s) => old(self)@.contains_key(key) && s@ == old(self)@[key] && final(self)@
                    == old(self)@.insert(key, final(s)@),
                None => !old(self)@.contains_key(key) && final(self)@ == old(self)@,
            },
    {
        value_mut(&mut self.inner, key)
    }

    /// The number of entries in the table under `key`; zero without a table.
    pub fn table_len(&self, key: u64) -> (n: usize)
        ensures
            n == table_of(self@, key).len(),
    {
        match self.inner.get(&key) {
            Some(store) => store.len(),
            None => 0,
        }
    }

    /// Sets the entry of `entity` in the table under `key` to `value`, filing
    /// the table first if it is missing.
    pub fn insert(&mut self, key: u64, entity: Entity, value: V)
        ensures
            final(self)@ == with_entry(old(self)@, key, entity@, value),
    {
        match self.inner.entry(key) {
            Entry::Occupied(slot) => {
                slot.into_mut().insert(entity, value);
            },
            Entry::Vacant(slot) => {
                slot.insert(ComponentStore::new()).insert(entity, value);
            },
        }
    }

    /// The entry of `entity` in the table under `key`, if both exist.
    pub fn get(&self, key: u64, entity: Entity) -> (r: Option<&V>)
        ensures
            r == (if table_of(self@, key).contains_key(entity@) {
                Some(&self@[key][entity@])
            } else {
                None
            }),
    {
        match self.inner.get(&key) {
            Some(store) => store.get(entity),
            None => None,
        }
    }

    /// Mutable access to the entry of `entity` in the table under `key`, if
    /// both exist. The tables end up with whatever the caller leaves there.
    pub fn get_mut(&mut self, key: u64, entity: Entity) -> (r: Option<&mut V>)
        ensures
            match r {
                Some(v) => table_of(old(self)@, key).contains_key(entity@) && *v == old(
                    self,
                )@[key][entity@] && final(self)@ == with_entry(
                    old(self)@,
                    key,
                    entity@,
                    *final(v),
                ),
                None => !table_of(old(self)@, key).contains_key(entity@) && final(self)@ == old(
                    self,
                )@,
            },
    {
        match self.inner.entry(key) {
            Entry::Occupied(slot) => slot.into_mut().get_mut(entity),
            Entry::Vacant(_) => None,
        }
    }

    /// Removes the entry of `entity` from the table under `key`.
    pub fn remove(&mut self, key: u64, entity: Entity)
        ensures
            final(self)@ == without_entry(old(self)@, key, entity@),
    {
        match self.inner.entry(key) {
            Entry::Occupied(slot) => {
                slot.into_mut().remove(entity);
            },
            Entry::Vacant(_) => {},
        }
    }

    /// Whether `entity` has an entry in the table under `key`.
    pub fn contains(&self, key: u64, entity: Entity) -> (r: bool)
        ensures
            r == table_of(self@, key).contains_key(entity@),
    {
        match self.inner.get(&key) {
            Some(store) => store.contains(entity),
            None => false,
        }
    }

    /// The entities with an entry in the table under `key`, each exactly
    /// once, in no particular order.
    pub fn keys(&self, key: u64) -> (keys: Vec<Entity>)
        ensures
            keys@.no_duplicates(),
            forall|e: Entity| keys@.contains(e) <==> table_of(self@, key).contains_key(e@),
    {
        match self.inner.get(&key) {
            Some(store) => store.keys(),
            None => Vec::new(),
        }
    }

    /// Removes the entries of `entity` from every table.
    pub fn purge(&mut self, entity: Entity)
        ensures
            final(self)@ == purged(old(self)@, entity@),
    {
        let keys = keys_of(&self.inner);
        let mut i: usize = 0;
        while i < keys.len()
            invariant
                i <= keys@.len(),
                keys@.no_duplicates(),
                keys@.to_set() == old(self).inner@.dom(),
                self.inner@.dom() == old(self).inner@.dom(),
                forall|j: int|
                    0 <= j < i ==> self.inner@[#[trigger] keys@[j]]@ == old(self).inner@[keys@[j]]@.remove(
                        entity@,
                    ),
                forall|j: int|
                    i <= j < keys@.len() ==> self.inner@[#[trigger] keys@[j]]@ == old(
                        self,
                    ).inner@[keys@[j]]@,
            decreases keys@.len() - i,
        {
            let k = keys[i];
            let ghost before = self.inner@;
            match self.inner.entry(k) {
                Entry::Occupied(slot) => {
                    slot.into_mut().remove(entity);
                },
                Entry::Vacant(_) => {},
            }
            assert forall|j: int| 0 <= j < keys@.len() && j != i implies self.inner@[keys@[j]]
                == before[keys@[j]] by {
            }
            i += 1;
        }
    }
}

impl<V> Default for ComponentStore<V> {
    fn default() -> (s: Self)
        ensures
            s@ == Map::<u64, V>::empty(),
    {
        ComponentStore::new()
    }
}

} // verus!
