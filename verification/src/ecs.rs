//! The world: entities, their components on the statically and the
//! dynamically keyed path, resources, and the slot of the command buffer.

use crate::commands::Commands;
use crate::entity::{Entity, TypeKey};
use crate::model::World;
use crate::registry::{ComponentId, Registry, ResourceId};
use crate::resources::Resources;
use crate::store::{entities_of, members_of, table_of, value_mut, ComponentStore, Tables};
use std::collections::HashMap;
use std::collections::HashSet;
use vstd::prelude::*;

verus! {

broadcast use vstd::std_specs::hash::group_hash_axioms;

/// The store of a world. Its view is the [`World`] it stands for.
pub struct Ecs<V> {
    next_id: u64,
    alive: HashSet<u64>,
    components: Tables<V>,
    resources: Resources<V>,
    dyn_components: Tables<V>,
    dyn_resources: HashMap<u64, V>,
    registry: Registry,
    commands: Option<Commands<V>>,
    exit_requested: bool,
}

impl<V> View for Ecs<V> {
    type V = World<V>;

    closed spec fn view(&self) -> World<V> {
        World {
            next_id: self.next_id,
            alive: self.alive@,
            components: self.components@,
            dyn_components: self.dyn_components@,
            resources: self.resources@,
            dyn_resources: self.dyn_resources@,
            registry: self.registry@,
            commands: match self.commands {
                Some(c) => Some(c@),
                None => None,
            },
            exit_requested: self.exit_requested,
        }
    }
}

impl<V> Ecs<V> {
    /// A world without entities, tables or resources.
    pub fn new() -> (ecs: Self)
        ensures
            ecs@ == World::<V>::empty(),
    {
        Ecs {
            next_id: 0,
            alive: HashSet::new(),
            components: Tables::new(),
            resources: Resources::new(),
            dyn_components: Tables::new(),
            dyn_resources: HashMap::new(),
            registry: Registry::new(),
            commands: None,
            exit_requested: false,
        }
    }

    /// The number that the next new entity gets.
    pub fn next_id(&self) -> (id: u64)
        ensures
            id == self@.next_id,
    {
        self.next_id
    }

    /// Creates an entity: hands out the next number and marks it alive at
    /// once.
    pub fn spawn_empty(&mut self) -> (e: Entity)
        requires
            old(self)@.next_id < u64::MAX,
        ensures
            e@ == old(self)@.next_id,
            final(self)@ == old(self)@.spawned(),
    {
        let id = self.next_id;
        self.next_id = self.next_id + 1;
        self.alive.insert(id);
        Entity::new(id)
    }

    /// Hands out the next entity number without marking it alive.
    pub fn reserve_entity(&mut self) -> (e: Entity)
        requires
            old(self)@.next_id < u64::MAX,
        ensures
            e@ == old(self)@.next_id,
            final(self)@ == old(self)@.reserved(),
    {
        let id = self.next_id;
        self.next_id = self.next_id + 1;
        Entity::new(id)
    }

    /// Marks `entity` alive, whatever its number.
    pub(crate) fn revive(&mut self, entity: Entity)
        ensures
            final(self)@ == old(self)@.revived(entity@),
    {
        self.alive.insert(entity.0);
    }

    /// Takes `entity` out of the alive-set and removes its entries from every
    /// table, whether it was alive or not.
    pub(crate) fn erase(&mut self, entity: Entity)
        ensures
            final(self)@ == old(self)@.erased(entity@),
    {
        self.alive.remove(&entity.0);
        self.components.purge(entity);
        self.dyn_components.purge(entity);
    }

    /// Despawns `entity`: if it is alive it leaves the alive-set and loses
    /// every component; otherwise nothing happens.
    pub fn despawn(&mut self, entity: Entity)
        ensures
            final(self)@ == old(self)@.despawned(entity@),
    {
        if self.alive.contains(&entity.0) {
            self.erase(entity);
        }
    }

    /// Whether `entity` is in the alive-set.
    pub fn is_alive(&self, e: Entity) -> (r: bool)
        ensures
            r == self@.alive.contains(e@),
    {
        self.alive.contains(&e.0)
    }

    /// Establishes the table under `key` if it is missing.
    pub fn ensure_store(&mut self, key: TypeKey)
        ensures
            final(self)@ == old(self)@.with_store(key@),
    {
        self.components.ensure(key.0);
    }

    /// Whether the table under `key` is established.
    pub fn has_store(&self, key: TypeKey) -> (r: bool)
        ensures
            r == self@.components.contains_key(key@),
    {
        self.components.has_table(key.0)
    }

    /// Sets the component of `entity` under `key` to `component`, replacing an
    /// earlier value and establishing the table on first use.
    pub fn insert(&mut self, entity: Entity, key: TypeKey, component: V)
        ensures
            final(self)@ == old(self)@.with_component(key@, entity@, component),
    {
        self.components.insert(key.0, entity, component);
    }

    /// The component of `entity` under `key`; `None` if the entity is not
    /// alive, the table is missing or the entity has no entry.
    pub fn get(&self, entity: Entity, key: TypeKey) -> (r: Option<&V>)
        ensures
            r == (match self@.component(key@, entity@) {
                Some(v) => Some(&v),
                None => None,
            }),
    {
        if !self.alive.contains(&entity.0) {
            return None;
        }
        self.components.get(key.0, entity)
    }

    /// Mutable access to the component of `entity` under `key`, on the same
    /// terms as [`Ecs::get`]. The world ends up with what the caller leaves in
    /// the component.
    pub fn get_mut(&mut self, entity: Entity, key: TypeKey) -> (r: Option<&mut V>)
        ensures
            match r {
                Some(v) => old(self)@.component(key@, entity@) == Some(*v) && final(self)@ == old(
                    self,
                )@.with_component(key@, entity@, *final(v)),
                None => old(self)@.component(key@, entity@) is None && final(self)@ == old(self)@,
            },
    {
        if !self.alive.contains(&entity.0) {
            return None;
        }
        self.components.get_mut(key.0, entity)
    }

    /// Whether `entity` is alive and has a component under `key`.
    pub fn has(&self, entity: Entity, key: TypeKey) -> (r: bool)
        ensures
            r == self@.component(key@, entity@).is_some(),
    {
        self.get(entity, key).is_some()
    }

    /// Creates an entity and gives it `component` under `key`.
    pub fn spawn_one(&mut self, key: TypeKey, component: V) -> (e: Entity)
        requires
            old(self)@.next_id < u64::MAX,
        ensures
            e@ == old(self)@.next_id,
            final(self)@ == old(self)@.spawned().with_component(key@, e@, component),
    {
        let e = self.spawn_empty();
        self.insert(e, key, component);
        e
    }

    // ----- resources -----

    /// Sets the resource under `key` to `value`, replacing an earlier one.
    pub fn insert_resource(&mut self, key: TypeKey, value: V)
        ensures
            final(self)@ == (World {
                resources: old(self)@.resources.insert(key@, value),
                ..old(self)@
            }),
    {
        self.resources.insert(key, value);
    }

    /// The resource under `key`, if there is one.
    pub fn get_resource(&self, key: TypeKey) -> (r: Option<&V>)
        ensures
            r == (if self@.resources.contains_key(key@) {
                Some(&self@.resources[key@])
            } else {
                None
            }),
    {
        self.resources.get(key)
    }

    /// Mutable access to the resource under `key`, if there is one.
    pub fn get_resource_mut(&mut self, key: TypeKey) -> (r: Option<&mut V>)
        ensures
            match r {
                Some(v) => old(self)@.resources.contains_key(key@) && *v == old(
                    self,
                )@.resources[key@] && final(self)@ == (World {
                    resources: old(self)@.resources.insert(key@, *final(v)),
                    ..old(self)@
                }),
                None => !old(self)@.resources.contains_key(key@) && final(self)@ == old(self)@,
            },
    {
        self.resources.get_mut(key)
    }

    /// Takes the resource under `key` out of the world and returns it.
    pub fn remove_resource(&mut self, key: TypeKey) -> (r: Option<V>)
        ensures
            r == old(self)@.resources.get(key@),
            final(self)@ == (World {
                resources: old(self)@.resources.remove(key@),
                ..old(self)@
            }),
    {
        self.resources.remove(key)
    }

    /// Whether a resource is stored under `key`.
    pub fn has_resource(&self, key: TypeKey) -> (r: bool)
        ensures
            r == self@.resources.contains_key(key@),
    {
        self.resources.contains(key)
    }

    // ----- the dynamically keyed path -----

    /// The registry of names for dynamically keyed components and resources.
    pub fn registry(&mut self) -> (r: &mut Registry)
        ensures
            r@ == old(self)@.registry,
            final(self)@ == (World { registry: final(r)@, ..old(self)@ }),
    {
        &mut self.registry
    }

    /// Establishes the dynamic table of `id` if it is missing.
    pub fn ensure_dyn_store(&mut self, id: ComponentId)
        ensures
            final(self)@ == (World {
                dyn_components: crate::store::with_table(old(self)@.dyn_components, id@),
                ..old(self)@
            }),
    {
        self.dyn_components.ensure(id.0);
    }

    /// Sets the dynamic component `comp` of `entity` to `value`. Does nothing
    /// if the entity is not alive.
    pub fn insert_dyn(&mut self, entity: Entity, comp: ComponentId, value: V)
        ensures
            final(self)@ == old(self)@.with_dyn_component(comp@, entity@, value),
    {
        if !self.alive.contains(&entity.0) {
            return ;
        }
        self.dyn_components.insert(comp.0, entity, value);
    }

    /// The dynamic component `comp` of `entity`; `None` if the entity is not
    /// alive, the table is missing or the entity has no entry.
    pub fn get_dyn(&self, entity: Entity, comp: ComponentId) -> (r: Option<&V>)
        ensures
            r == (match self@.dyn_component(comp@, entity@) {
                Some(v) => Some(&v),
                None => None,
            }),
    {
        if !self.alive.contains(&entity.0) {
            return None;
        }
        self.dyn_components.get(comp.0, entity)
    }

    /// Mutable access to the dynamic component `comp` of `entity`, on the same
    /// terms as [`Ecs::get_dyn`].
    pub fn get_dyn_mut(&mut self, entity: Entity, comp: ComponentId) -> (r: Option<&mut V>)
        ensures
            match r {
                Some(v) => old(self)@.dyn_component(comp@, entity@) == Some(*v) && final(self)@
                    == old(self)@.with_dyn_component(comp@, entity@, *final(v)),
                None => old(self)@.dyn_component(comp@, entity@) is None && final(self)@ == old(
                    self,
                )@,
            },
    {
        if !self.alive.contains(&entity.0) {
            return None;
        }
        self.dyn_components.get_mut(comp.0, entity)
    }

    /// Whether `entity` is alive and has the dynamic component `comp`.
    pub fn has_dyn(&self, entity: Entity, comp: ComponentId) -> (r: bool)
        ensures
            r == self@.dyn_component(comp@, entity@).is_some(),
    {
        self.alive.contains(&entity.0) && self.dyn_components.contains(comp.0, entity)
    }

    /// Removes the dynamic component `comp` of `entity`, if there is one.
    pub fn remove_dyn(&mut self, entity: Entity, comp: ComponentId)
        ensures
            final(self)@ == old(self)@.without_dyn_component(comp@, entity@),
    {
        self.dyn_components.remove(comp.0, entity);
    }

    /// Sets the dynamic resource `id` to `value`, replacing an earlier one.
    pub fn insert_resource_dyn(&mut self, id: ResourceId, value: V)
        ensures
            final(self)@ == (World {
                dyn_resources: old(self)@.dyn_resources.insert(id@, value),
                ..old(self)@
            }),
    {
        self.dyn_resources.insert(id.0, value);
    }

    /// The dynamic resource `id`, if there is one.
    pub fn get_resource_dyn(&self, id: ResourceId) -> (r: Option<&V>)
        ensures
            r == (if self@.dyn_resources.contains_key(id@) {
                Some(&self@.dyn_resources[id@])
            } else {
                None
            }),
    {
        self.dyn_resources.get(&id.0)
    }

    /// Mutable access to the dynamic resource `id`, if there is one.
    pub fn get_resource_dyn_mut(&mut self, id: ResourceId) -> (r: Option<&mut V>)
        ensures
            match r {
                Some(v) => old(self)@.dyn_resources.contains_key(id@) && *v == old(
                    self,
                )@.dyn_resources[id@] && final(self)@ == (World {
                    dyn_resources: old(self)@.dyn_resources.insert(id@, *final(v)),
                    ..old(self)@
                }),
                None => !old(self)@.dyn_resources.contains_key(id@) && final(self)@ == old(self)@,
            },
    {
        value_mut(&mut self.dyn_resources, id.0)
    }

    /// Takes the dynamic resource `id` out of the world and returns it.
    pub fn remove_resource_dyn(&mut self, id: ResourceId) -> (r: Option<V>)
        ensures
            r == old(self)@.dyn_resources.get(id@),
            final(self)@ == (World {
                dyn_resources: old(self)@.dyn_resources.remove(id@),
                ..old(self)@
            }),
    {
        self.dyn_resources.remove(&id.0)
    }

    // ----- the command buffer slot and the exit request -----

    /// The world's command buffer, created empty if the slot is vacant.
    pub fn commands(&mut self) -> (r: &mut Commands<V>)
        ensures
            r@ == (match old(self)@.commands {
                Some(queue) => queue,
                None => Seq::empty(),
            }),
            final(self)@ == (World { commands: Some(final(r)@), ..old(self)@ }),
    {
        if self.commands.is_none() {
            self.commands = Some(Commands::new());
        }
        match &mut self.commands {
            Some(c) => c,
            None => vstd::pervasive::unreached(),
        }
    }

    /// Puts `commands` into the world's slot, dropping a buffer that is there.
    pub fn put_commands(&mut self, commands: Commands<V>)
        ensures
            final(self)@ == (World { commands: Some(commands@), ..old(self)@ }),
    {
        self.commands = Some(commands);
    }

    /// Empties the world's command buffer slot and returns what was in it.
    pub fn take_commands(&mut self) -> (r: Option<Commands<V>>)
        ensures
            match r {
                Some(c) => old(self)@.commands == Some(c@),
                None => old(self)@.commands is None,
            },
            final(self)@ == (World { commands: None, ..old(self)@ }),
    {
        self.commands.take()
    }

    /// Asks the driver of the frame loop to stop after the current frame.
    pub fn request_exit(&mut self)
        ensures
            final(self)@ == (World { exit_requested: true, ..old(self)@ }),
    {
        self.exit_requested = true;
    }

    /// Whether an exit was requested.
    pub fn exit_requested(&self) -> (r: bool)
        ensures
            r == self@.exit_requested,
    {
        self.exit_requested
    }

    // ----- queries on the dynamically keyed path -----

    /// Whether `entity` is alive and has every listed dynamic component.
    pub fn has_all_dyn(&self, entity: Entity, comps: &[ComponentId]) -> (r: bool)
        ensures
            r == self@.has_all(comps@, entity@),
    {
        if !self.alive.contains(&entity.0) {
            return false;
        }
        let mut i: usize = 0;
        while i < comps.len()
            invariant
                i <= comps@.len(),
                self@.alive.contains(entity@),
                forall|k: int|
                    0 <= k < i ==> table_of(self@.dyn_components, (#[trigger] comps@[k])@).contains_key(
                        entity@,
                    ),
            decreases comps@.len() - i,
        {
            if !self.dyn_components.contains(comps[i].0, entity) {
                return false;
            }
            i += 1;
        }
        true
    }

    /// The position in `comps` of the first component whose table has the
    /// fewest entries; a missing table counts as empty.
    pub fn smallest_dyn(&self, comps: &[ComponentId]) -> (base: usize)
        requires
            comps@.len() > 0,
        ensures
            base < comps@.len(),
            forall|k: int|
                0 <= k < comps@.len() ==> table_of(self@.dyn_components, comps@[base as int]@).len()
                    <= table_of(self@.dyn_components, (#[trigger] comps@[k])@).len(),
            forall|k: int|
                0 <= k < base ==> table_of(self@.dyn_components, comps@[base as int]@).len()
                    < table_of(self@.dyn_components, (#[trigger] comps@[k])@).len(),
    {
        let mut base: usize = 0;
        let mut fewest = self.dyn_components.table_len(comps[0].0);
        let mut i: usize = 1;
        while i < comps.len()
            invariant
                1 <= i <= comps@.len(),
                base < i,
                fewest == table_of(self@.dyn_components, comps@[base as int]@).len(),
                forall|k: int|
                    0 <= k < i ==> fewest <= table_of(
                        self@.dyn_components,
                        (#[trigger] comps@[k])@,
                    ).len(),
                forall|k: int|
                    0 <= k < base ==> fewest < table_of(
                        self@.dyn_components,
                        (#[trigger] comps@[k])@,
                    ).len(),
            decreases comps@.len() - i,
        {
            let n = self.dyn_components.table_len(comps[i].0);
            if n < fewest {
                base = i;
                fewest = n;
            }
            i += 1;
        }
        base
    }

    /// The entities that are alive and have every listed dynamic component,
    /// each exactly once, in no particular order. With an empty list these are
    /// all alive entities. The table with the fewest entries is the one that
    /// is walked.
    pub fn query_dyn(&self, comps: &[ComponentId]) -> (found: Vec<Entity>)
        ensures
            found@.no_duplicates(),
            forall|e: Entity| found@.contains(e) <==> self@.has_all(comps@, e@),
    {
        if comps.len() == 0 {
            let ids = members_of(&self.alive);
            return entities_of(&ids);
        }
        let base = self.smallest_dyn(comps);
        let keys = self.dyn_components.keys(comps[base].0);
        let mut found: Vec<Entity> = Vec::new();
        let mut i: usize = 0;
        while i < keys.len()
            invariant
                i <= keys@.len(),
                base < comps@.len(),
                keys@.no_duplicates(),
                forall|e: Entity|
                    keys@.contains(e) <==> table_of(
                        self@.dyn_components,
                        comps@[base as int]@,
                    ).contains_key(e@),
                found@.no_duplicates(),
                forall|e: Entity|
                    found@.contains(e) ==> self@.has_all(comps@, e@) && exists|j: int|
                        0 <= j < i && keys@[j] == e,
                forall|j: int|
                    0 <= j < i && self@.has_all(comps@, (#[trigger] keys@[j])@) ==> found@.contains(
                        keys@[j],
                    ),
            decreases keys@.len() - i,
        {
            let e = keys[i];
            if self.has_all_dyn(e, comps) {
                proof {
                    assert(!found@.contains(e));
                }
                let ghost before = found@;
                found.push(e);
                proof {
                    assert(found@.last() == e);
                    assert forall|x: Entity| found@.contains(x) implies self@.has_all(comps@, x@)
                        && exists|j: int| 0 <= j < i + 1 && keys@[j] == x by {
                        if x != e {
                            assert(before.contains(x));
                        }
                    }
                    assert forall|j: int|
                        0 <= j < i + 1 && self@.has_all(
                            comps@,
                            (#[trigger] keys@[j])@,
                        ) implies found@.contains(keys@[j]) by {
                        if j < i {
                            let k = choose|k: int| 0 <= k < before.len() && before[k] == keys@[j];
                            assert(found@[k] == keys@[j]);
                        }
                    }
                }
            }
            i += 1;
        }
        proof {
            assert forall|e: Entity| self@.has_all(comps@, e@) implies found@.contains(e) by {
                assert(keys@.contains(e));
            }
        }
        found
    }

    /// One row for each entity that is alive and has every listed dynamic
    /// component: the entity and, for each listed component in the order of
    /// the list, its value. No entity gets two rows.
    pub fn query_rows_dyn(&self, comps: &[ComponentId]) -> (rows: Vec<(Entity, Vec<&V>)>)
        ensures
            forall|i: int|
                0 <= i < rows@.len() ==> {
                    &&& self@.has_all(comps@, (#[trigger] rows@[i]).0@)
                    &&& rows@[i].1@.len() == comps@.len()
                    &&& forall|k: int|
                        0 <= k < comps@.len() ==> *(#[trigger] rows@[i].1@[k])
                            == self@.dyn_components[comps@[k]@][rows@[i].0@]
                },
            forall|i: int, j: int|
                0 <= i < rows@.len() && 0 <= j < rows@.len() && i != j ==> (#[trigger] rows@[i]).0
                    != (#[trigger] rows@[j]).0,
            forall|e: Entity|
                self@.has_all(comps@, e@) ==> exists|i: int|
                    0 <= i < rows@.len() && (#[trigger] rows@[i]).0 == e,
    {
        let found = self.query_dyn(comps);
        let mut rows: Vec<(Entity, Vec<&V>)> = Vec::new();
        let mut i: usize = 0;
        while i < found.len()
            invariant
                i <= found@.len(),
                found@.no_duplicates(),
                forall|e: Entity| found@.contains(e) <==> self@.has_all(comps@, e@),
                rows@.len() == i,
                forall|r: int| 0 <= r < i ==> (#[trigger] rows@[r]).0 == found@[r],
                forall|r: int|
                    0 <= r < i ==> {
                        &&& (#[trigger] rows@[r]).1@.len() == comps@.len()
                        &&& forall|k: int|
                            0 <= k < comps@.len() ==> *(#[trigger] rows@[r].1@[k])
                                == self@.dyn_components[comps@[k]@][rows@[r].0@]
                    },
            decreases found@.len() - i,
        {
            let e = found[i];
            assert(found@.contains(e));
            let mut cols: Vec<&V> = Vec::new();
            let mut k: usize = 0;
            while k < comps.len()
                invariant
                    k <= comps@.len(),
                    self@.has_all(comps@, e@),
                    cols@.len() == k,
                    forall|c: int|
                        0 <= c < k ==> *(#[trigger] cols@[c]) == self@.dyn_components[comps@[c]@][e@],
                decreases comps@.len() - k,
            {
                match self.get_dyn(e, comps[k]) {
                    Some(v) => {
                        cols.push(v);
                    },
                    None => {
                        assert(false);
                    },
                }
                k += 1;
            }
            if cols.len() == comps.len() {
                rows.push((e, cols));
            }
            i += 1;
        }
        proof {
            assert forall|e: Entity| self@.has_all(comps@, e@) implies exists|i: int|
                0 <= i < rows@.len() && (#[trigger] rows@[i]).0 == e by {
                assert(found@.contains(e));
                let j = choose|j: int| 0 <= j < found@.len() && found@[j] == e;
                assert(rows@[j].0 == e);
            }
            assert forall|i: int| 0 <= i < rows@.len() implies self@.has_all(
                comps@,
                (#[trigger] rows@[i]).0@,
            ) by {
                assert(found@.contains(found@[i]));
            }
        }
        rows
    }

    // ----- walking one statically keyed table -----

    /// The table under `key`, if it is established.
    pub fn get_store(&self, key: TypeKey) -> (r: Option<&ComponentStore<V>>)
        ensures
            match r {
                Some(s) => self@.components.contains_key(key@) && s@ == self@.components[key@],
                None => !self@.components.contains_key(key@),
            },
    {
        self.components.store(key.0)
    }

    /// Mutable access to the table under `key`, if it is established.
    pub fn get_store_mut(&mut self, key: TypeKey) -> (r: Option<&mut ComponentStore<V>>)
        ensures
            match r {
                Some(s) => old(self)@.components.contains_key(key@) && s@ == old(
                    self,
                )@.components[key@] && final(self)@ == (World {
                    components: old(self)@.components.insert(key@, final(s)@),
                    ..old(self)@
                }),
                None => !old(self)@.components.contains_key(key@) && final(self)@ == old(self)@,
            },
    {
        self.components.store_mut(key.0)
    }

    /// The alive entities that have a component under `key`, each exactly
    /// once, in no particular order.
    pub fn entities_with(&self, key: TypeKey) -> (found: Vec<Entity>)
        ensures
            found@.no_duplicates(),
            forall|e: Entity| found@.contains(e) <==> self@.component(key@, e@) is Some,
    {
        let keys = self.components.keys(key.0);
        let mut found: Vec<Entity> = Vec::new();
        let mut i: usize = 0;
        while i < keys.len()
            invariant
                i <= keys@.len(),
                keys@.no_duplicates(),
                forall|e: Entity|
                    keys@.contains(e) <==> table_of(self@.components, key@).contains_key(e@),
                found@.no_duplicates(),
                forall|e: Entity|
                    found@.contains(e) ==> self@.component(key@, e@) is Some && exists|j: int|
                        0 <= j < i && keys@[j] == e,
                forall|j: int|
                    0 <= j < i && self@.alive.contains((#[trigger] keys@[j])@) ==> found@.contains(
                        keys@[j],
                    ),
            decreases keys@.len() - i,
        {
            let e = keys[i];
            assert(keys@.contains(e));
            if self.alive.contains(&e.0) {
                proof {
                    assert(!found@.contains(e));
                }
                let ghost before = found@;
                found.push(e);
                proof {
                    assert(found@.last() == e);
                    assert forall|x: Entity| found@.contains(x) implies self@.component(key@, x@)
                        is Some && exists|j: int| 0 <= j < i + 1 && keys@[j] == x by {
                        if x != e {
                            assert(before.contains(x));
                        }
                    }
                    assert forall|j: int|
                        0 <= j < i + 1 && self@.alive.contains(
                            (#[trigger] keys@[j])@,
                        ) implies found@.contains(keys@[j]) by {
                        if j < i {
                            let k = choose|k: int| 0 <= k < before.len() && before[k] == keys@[j];
                            assert(found@[k] == keys@[j]);
                        }
                    }
                }
            }
            i += 1;
        }
        proof {
            assert forall|e: Entity| self@.component(key@, e@) is Some implies found@.contains(
                e,
            ) by {
                assert(keys@.contains(e));
            }
        }
        found
    }

    /// Calls `f` once for each alive entity that has a component under `key`,
    /// with the entity and its component, in no particular order. Afterwards
    /// `f` has been called, and has returned, for every such entity.
    pub fn for_each<F: FnMut(Entity, &V)>(&self, key: TypeKey, mut f: F)
        requires
            forall|e: Entity, v: &V|
                self@.component(key@, e@) == Some(*v) ==> call_requires(f, (e, v)),
        ensures
            forall|e: Entity, v: &V|
                self@.component(key@, e@) == Some(*v) ==> #[trigger] call_ensures(f, (e, v), ()),
    {
        let found = self.entities_with(key);
        let ghost given = f;
        let mut i: usize = 0;
        while i < found.len()
            invariant
                i <= found@.len(),
                f == given,
                forall|e: Entity| found@.contains(e) <==> self@.component(key@, e@) is Some,
                forall|e: Entity, v: &V|
                    self@.component(key@, e@) == Some(*v) ==> call_requires(f, (e, v)),
                forall|e: Entity, v: &V|
                    found@.take(i as int).contains(e) && self@.component(key@, e@) == Some(*v)
                        ==> #[trigger] call_ensures(f, (e, v), ()),
            decreases found@.len() - i,
        {
            let e = found[i];
            match self.get(e, key) {
                Some(c) => {
                    f(e, c);
                },
                None => {
                    proof {
                        assert(found@.contains(e));
                    }
                },
            }
            proof {
                assert forall|x: Entity, v: &V|
                    found@.take(i + 1).contains(x) && self@.component(key@, x@) == Some(
                        *v,
                    ) implies #[trigger] call_ensures(f, (x, v), ()) by {
                    if !found@.take(i as int).contains(x) {
                        let k = choose|k: int| 0 <= k < i + 1 && found@[k] == x;
                        if k < i {
                            assert(found@.take(i as int)[k] == x);
                        }
                    }
                }
            }
            i += 1;
        }
        proof {
            assert(found@.take(found@.len() as int) =~= found@);
        }
    }

    /// Calls `f` once for each alive entity that has a component under `key`,
    /// with the entity and mutable access to its component, in no particular
    /// order. The entities are collected first and visited afterwards, so `f`
    /// never sees two views of the table. Each visible component ends up as
    /// one call of `f` on its old value leaves it. Which entities have a
    /// component stays as it was; entries of entities that are not alive are
    /// not touched.
    pub fn for_each_mut<F: FnMut(Entity, &mut V)>(&mut self, key: TypeKey, mut f: F)
        requires
            forall|e: Entity, v: &mut V|
                old(self)@.component(key@, e@) == Some(*v) ==> call_requires(f, (e, v)),
        ensures
            final(self)@ == (World { components: final(self)@.components, ..old(self)@ }),
            final(self)@.components.dom() == old(self)@.components.dom(),
            forall|k: u64|
                k != key@ && old(self)@.components.contains_key(k) ==> final(self)@.components[k]
                    == old(self)@.components[k],
            table_of(final(self)@.components, key@).dom() == table_of(
                old(self)@.components,
                key@,
            ).dom(),
            forall|e: u64|
                table_of(old(self)@.components, key@).contains_key(e) && !old(
                    self,
                )@.alive.contains(e) ==> final(self)@.components[key@][e] == old(
                    self,
                )@.components[key@][e],
            forall|e: Entity|
                #![trigger old(self)@.component(key@, e@)]
                old(self)@.component(key@, e@) is Some ==> exists|r: &mut V|
                    *r == old(self)@.components[key@][e@] && *final(r) == final(
                        self
                    )@.components[key@][e@] && #[trigger] call_ensures(f, (e, r), ()),
    {
        let found = self.entities_with(key);
        let ghost given = f;
        let mut i: usize = 0;
        while i < found.len()
            invariant
                i <= found@.len(),
                f == given,
                found@.no_duplicates(),
                forall|e: Entity|
                    found@.contains(e) <==> old(self)@.component(key@, e@) is Some,
                forall|e: Entity, v: &mut V|
                    old(self)@.component(key@, e@) == Some(*v) ==> call_requires(f, (e, v)),
                self@ == (World { components: self@.components, ..old(self)@ }),
                self@.components.dom() == old(self)@.components.dom(),
                forall|k: u64|
                    k != key@ && old(self)@.components.contains_key(k) ==> self@.components[k]
                        == old(self)@.components[k],
                table_of(self@.components, key@).dom() == table_of(
                    old(self)@.components,
                    key@,
                ).dom(),
                forall|e: u64|
                    table_of(old(self)@.components, key@).contains_key(e) && !old(
                        self,
                    )@.alive.contains(e) ==> self@.components[key@][e] == old(
                        self,
                    )@.components[key@][e],
                forall|j: int|
                    i <= j < found@.len() ==> self@.components[key@][(#[trigger] found@[j])@]
                        == old(self)@.components[key@][found@[j]@],
                forall|e: Entity|
                    #![trigger found@.take(i as int).contains(e)]
                    found@.take(i as int).contains(e) ==> exists|r: &mut V|
                        *r == old(self)@.components[key@][e@] && *final(r)
                            == self@.components[key@][e@] && #[trigger] call_ensures(
                            f,
                            (e, r),
                            (),
                        ),
            decreases found@.len() - i,
        {
            let e = found[i];
            proof {
                assert(found@.contains(e));
            }
            match self.get_mut(e, key) {
                Some(c) => {
                    f(e, c);
                },
                None => {},
            }
            proof {
                assert(exists|r: &mut V|
                    *r == old(self)@.components[key@][e@] && *final(r) == self@.components[key@][e@]
                        && #[trigger] call_ensures(f, (e, r), ()));
                assert forall|x: Entity|
                    #![trigger found@.take(i + 1).contains(x)]
                    found@.take(i + 1).contains(x) implies exists|r: &mut V|
                    *r == old(self)@.components[key@][x@] && *final(r) == self@.components[key@][x@]
                        && #[trigger] call_ensures(f, (x, r), ()) by {
                    let done = found@.take(i + 1);
                    let j = choose|j: int| 0 <= j < done.len() && done[j] == x;
                    if j < i {
                        assert(found@.take(i as int).contains(x));
                    }
                }
            }
            i += 1;
        }
        proof {
            assert(found@.take(i as int) =~= found@);
            assert forall|e: Entity|
                #![trigger old(self)@.component(key@, e@)]
                old(self)@.component(key@, e@) is Some implies exists|r: &mut V|
                *r == old(self)@.components[key@][e@] && *final(r) == self@.components[key@][e@]
                    && #[trigger] call_ensures(f, (e, r), ()) by {
                assert(found@.contains(e));
            }
        }
    }
}

} // verus!
