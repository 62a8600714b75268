//! The mathematical model of a world: what the executable store stands for,
//! and what each operation does to it.

use crate::entity::{is_primitive_key, Entity, TypeKey};
use crate::registry::{ComponentId, Names};
use crate::store::{purged, table_of, with_entry, with_table, without_entry};
use vstd::prelude::*;

verus! {

/// One deferred change to a world.
pub enum Command<V> {
    /// Mark a reserved entity alive.
    Spawn(Entity),
    /// Take an entity out of the alive-set and drop its components.
    Despawn(Entity),
    /// Set a statically keyed component.
    Insert { entity: Entity, type_id: TypeKey, value: V },
    /// Set a dynamically keyed component.
    InsertDyn { entity: Entity, comp_id: ComponentId, value: V },
}

/// The state of a world.
///
/// `next_id` is the number the next new entity gets. `alive` holds the numbers
/// of the entities that exist; it alone decides whether an entity's data can
/// be seen. `components` and `dyn_components` map a table's key to the table,
/// and a table maps entity numbers to values. A table may hold an entry for an
/// entity that is not alive; such an entry is invisible.
pub ghost struct World<V> {
    pub next_id: u64,
    pub alive: Set<u64>,
    pub components: Map<u64, Map<u64, V>>,
    pub dyn_components: Map<u64, Map<u64, V>>,
    pub resources: Map<u64, V>,
    pub dyn_resources: Map<u64, V>,
    pub registry: Names,
    pub commands: Option<Seq<Command<V>>>,
    pub exit_requested: bool,
}

impl<V> World<V> {
    /// The world right after creation.
    pub open spec fn empty() -> World<V> {
        World {
            next_id: 0,
            alive: Set::empty(),
            components: Map::empty(),
            dyn_components: Map::empty(),
            resources: Map::empty(),
            dyn_resources: Map::empty(),
            registry: Names {
                components: Map::empty(),
                component_count: 0,
                resources: Map::empty(),
                resource_count: 0,
            },
            commands: None,
            exit_requested: false,
        }
    }

    /// The statically keyed component of `entity` under `key`, as lookups see
    /// it: present only if the entity is alive and its table has an entry.
    pub open spec fn component(self, key: u64, entity: u64) -> Option<V> {
        if self.alive.contains(entity) && table_of(self.components, key).contains_key(entity) {
            Some(self.components[key][entity])
        } else {
            None
        }
    }

    /// The dynamically keyed component of `entity` under `comp`, as lookups
    /// see it.
    pub open spec fn dyn_component(self, comp: u64, entity: u64) -> Option<V> {
        if self.alive.contains(entity) && table_of(self.dyn_components, comp).contains_key(entity) {
            Some(self.dyn_components[comp][entity])
        } else {
            None
        }
    }

    /// Whether `entity` is alive and has an entry in the dynamic table of
    /// every listed component.
    pub open spec fn has_all(self, comps: Seq<ComponentId>, entity: u64) -> bool {
        &&& self.alive.contains(entity)
        &&& forall|i: int|
            0 <= i < comps.len() ==> table_of(self.dyn_components, (#[trigger] comps[i])@).contains_key(
                entity,
            )
    }

    /// The world after a new entity number was handed out without marking it
    /// alive.
    pub open spec fn reserved(self) -> World<V> {
        World { next_id: (self.next_id + 1) as u64, ..self }
    }

    /// The world after `entity` was marked alive.
    pub open spec fn revived(self, entity: u64) -> World<V> {
        World { alive: self.alive.insert(entity), ..self }
    }

    /// The world after a new entity was created: the next number is handed
    /// out and marked alive.
    pub open spec fn spawned(self) -> World<V> {
        self.reserved().revived(self.next_id)
    }

    /// The world after `entity` left the alive-set and lost every entry, alive
    /// before or not.
    pub open spec fn erased(self, entity: u64) -> World<V> {
        World {
            alive: self.alive.remove(entity),
            components: purged(self.components, entity),
            dyn_components: purged(self.dyn_components, entity),
            ..self
        }
    }

    /// The world after a direct despawn of `entity`: nothing changes unless it
    /// was alive.
    pub open spec fn despawned(self, entity: u64) -> World<V> {
        if self.alive.contains(entity) {
            self.erased(entity)
        } else {
            self
        }
    }

    /// The world after the table under `key` was established.
    pub open spec fn with_store(self, key: u64) -> World<V> {
        World { components: with_table(self.components, key), ..self }
    }

    /// The world after `entity` got the statically keyed component `value`
    /// under `key`. The write happens whether or not the entity is alive.
    pub open spec fn with_component(self, key: u64, entity: u64, value: V) -> World<V> {
        World { components: with_entry(self.components, key, entity, value), ..self }
    }

    /// The world after a dynamic insert: nothing changes unless `entity` is
    /// alive.
    pub open spec fn with_dyn_component(self, comp: u64, entity: u64, value: V) -> World<V> {
        if self.alive.contains(entity) {
            World { dyn_components: with_entry(self.dyn_components, comp, entity, value), ..self }
        } else {
            self
        }
    }

    /// The world after the dynamic entry of `entity` under `comp` was removed.
    pub open spec fn without_dyn_component(self, comp: u64, entity: u64) -> World<V> {
        World { dyn_components: without_entry(self.dyn_components, comp, entity), ..self }
    }

    /// The world after `entity` got each of `parts` in turn as a statically
    /// keyed component.
    pub open spec fn with_components(self, entity: u64, parts: Seq<(TypeKey, V)>) -> World<V>
        decreases parts.len(),
    {
        if parts.len() == 0 {
            self
        } else {
            self.with_component(parts[0].0@, entity, parts[0].1).with_components(
                entity,
                parts.drop_first(),
            )
        }
    }

    /// The world after the table of each of `parts` was established.
    pub open spec fn with_stores(self, parts: Seq<(TypeKey, V)>) -> World<V>
        decreases parts.len(),
    {
        if parts.len() == 0 {
            self
        } else {
            self.with_store(parts[0].0@).with_stores(parts.drop_first())
        }
    }

    /// The world after one deferred command took effect.
    pub open spec fn apply(self, command: Command<V>) -> World<V> {
        match command {
            Command::Spawn(e) => self.revived(e@),
            Command::Despawn(e) => self.erased(e@),
            Command::Insert { entity, type_id, value } => self.with_component(
                type_id@,
                entity@,
                value,
            ),
            Command::InsertDyn { entity, comp_id, value } => self.with_dyn_component(
                comp_id@,
                entity@,
                value,
            ),
        }
    }

    /// The world after the commands took effect one after the other, first
    /// come first applied.
    pub open spec fn apply_all(self, commands: Seq<Command<V>>) -> World<V>
        decreases commands.len(),
    {
        if commands.len() == 0 {
            self
        } else {
            self.apply(commands[0]).apply_all(commands.drop_first())
        }
    }

    /// Whether a statically keyed insert under `key` can be committed: the
    /// table is established, or the key names a common primitive type.
    pub open spec fn can_commit(self, key: u64) -> bool {
        self.components.contains_key(key) || is_primitive_key(key)
    }

    /// Whether every statically keyed insert among `commands` can be
    /// committed to this world.
    pub open spec fn can_apply(self, commands: Seq<Command<V>>) -> bool {
        forall|i: int|
            0 <= i < commands.len() ==> (#[trigger] commands[i] matches Command::Insert {
                type_id,
                ..
            } ==> self.can_commit(type_id@))
    }
}

/// Applying a queue with one more command at its end is applying the queue and
/// then that command.
pub proof fn lemma_apply_all_push<V>(world: World<V>, commands: Seq<Command<V>>, last: Command<V>)
    ensures
        world.apply_all(commands.push(last)) == world.apply_all(commands).apply(last),
    decreases commands.len(),
{
    if commands.len() == 0 {
        assert(commands.push(last).drop_first() =~= Seq::<Command<V>>::empty());
        assert(world.apply(last).apply_all(Seq::<Command<V>>::empty()) == world.apply(last));
    } else {
        assert(commands.push(last).drop_first() =~= commands.drop_first().push(last));
        lemma_apply_all_push(world.apply(commands[0]), commands.drop_first(), last);
    }
}

/// Applying commands touches the alive-set and the component tables only:
/// the next entity number, the resources, the registry, the command buffer
/// slot and the exit request stay as they are.
pub proof fn lemma_apply_all_frame<V>(world: World<V>, commands: Seq<Command<V>>)
    ensures
        world.apply_all(commands).next_id == world.next_id,
        world.apply_all(commands).resources == world.resources,
        world.apply_all(commands).dyn_resources == world.dyn_resources,
        world.apply_all(commands).registry == world.registry,
        world.apply_all(commands).commands == world.commands,
        world.apply_all(commands).exit_requested == world.exit_requested,
    decreases commands.len(),
{
    if commands.len() > 0 {
        lemma_apply_all_frame(world.apply(commands[0]), commands.drop_first());
    }
}

/// The commands that set each of `parts` on `entity`, in the order of the
/// parts.
pub open spec fn insert_commands<V>(entity: Entity, parts: Seq<(TypeKey, V)>) -> Seq<Command<V>> {
    Seq::new(
        parts.len(),
        |i: int| Command::Insert { entity, type_id: parts[i].0, value: parts[i].1 },
    )
}

/// Giving an entity two lists of components in a row is giving it the joined
/// list.
pub proof fn lemma_with_components_concat<V>(
    world: World<V>,
    entity: u64,
    first: Seq<(TypeKey, V)>,
    second: Seq<(TypeKey, V)>,
)
    ensures
        world.with_components(entity, first + second) == world.with_components(
            entity,
            first,
        ).with_components(entity, second),
    decreases first.len(),
{
    if first.len() > 0 {
        assert((first + second).drop_first() =~= first.drop_first() + second);
        lemma_with_components_concat(
            world.with_component(first[0].0@, entity, first[0].1),
            entity,
            first.drop_first(),
            second,
        );
    }
}

/// Establishing the tables of two lists of components in a row is
/// establishing those of the joined list.
pub proof fn lemma_with_stores_concat<V>(
    world: World<V>,
    first: Seq<(TypeKey, V)>,
    second: Seq<(TypeKey, V)>,
)
    ensures
        world.with_stores(first + second) == world.with_stores(first).with_stores(second),
    decreases first.len(),
{
    if first.len() > 0 {
        assert((first + second).drop_first() =~= first.drop_first() + second);
        lemma_with_stores_concat(world.with_store(first[0].0@), first.drop_first(), second);
    }
}

} // verus!
