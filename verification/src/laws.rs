//! What holds of every world, whatever was done to it.

use crate::model::{Command, World};
use crate::registry::ComponentId;
use crate::store::table_of;
use vstd::prelude::*;

verus! {

/// Visibility follows the alive-set: a component can be seen exactly if its
/// entity is alive and the table has an entry for it. Data of an entity that
/// is not alive is never seen, stale or not.
pub proof fn law_visible_iff_alive<V>(world: World<V>, key: u64, entity: u64)
    ensures
        world.component(key, entity) is Some <==> world.alive.contains(entity) && table_of(
            world.components,
            key,
        ).contains_key(entity),
        world.dyn_component(key, entity) is Some <==> world.alive.contains(entity) && table_of(
            world.dyn_components,
            key,
        ).contains_key(entity),
        !world.alive.contains(entity) ==> world.component(key, entity) is None
            && world.dyn_component(key, entity) is None,
{
}

/// An entity that is not alive is in no dynamic query, whatever components
/// are asked for.
pub proof fn law_queries_see_only_alive<V>(world: World<V>, comps: Seq<ComponentId>, entity: u64)
    requires
        !world.alive.contains(entity),
    ensures
        !world.has_all(comps, entity),
{
}

/// A spawned entity is alive at once; a reserved one is not alive until it is
/// revived. Neither changes which other entities are alive.
pub proof fn law_spawn_makes_alive<V>(world: World<V>, other: u64)
    ensures
        world.spawned().alive.contains(world.next_id),
        world.reserved().alive == world.alive,
        other != world.next_id ==> (world.spawned().alive.contains(other)
            <==> world.alive.contains(other)),
{
}

/// The numbers handed out grow: a new entity never gets a number that was
/// handed out before.
pub proof fn law_ids_are_fresh<V>(world: World<V>, earlier: u64)
    requires
        earlier < world.next_id,
        world.next_id < u64::MAX,
    ensures
        world.spawned().next_id == world.next_id + 1,
        world.reserved().next_id == world.next_id + 1,
        earlier != world.next_id,
        earlier < world.spawned().next_id,
{
}

/// Insert, then get: an alive entity has the value that was inserted last,
/// and a second insert replaces the first.
pub proof fn law_insert_then_get<V>(world: World<V>, key: u64, entity: u64, first: V, second: V)
    ensures
        world.alive.contains(entity) ==> world.with_component(key, entity, first).component(
            key,
            entity,
        ) == Some(first),
        world.with_component(key, entity, first).with_component(key, entity, second)
            == world.with_component(key, entity, second),
        world.with_component(key, entity, first).alive == world.alive,
{
    let once = world.with_component(key, entity, first);
    let twice = once.with_component(key, entity, second);
    let direct = world.with_component(key, entity, second);
    assert(twice.components =~~= direct.components);
}

/// An insert leaves every other entry as it was.
pub proof fn law_insert_touches_one_entry<V>(
    world: World<V>,
    key: u64,
    entity: u64,
    value: V,
    other_key: u64,
    other: u64,
)
    requires
        other_key != key || other != entity,
    ensures
        world.with_component(key, entity, value).component(other_key, other) == world.component(
            other_key,
            other,
        ),
{
}

/// A dynamic insert on an entity that is not alive does nothing, and a
/// lookup afterwards finds nothing.
pub proof fn law_insert_dyn_on_dead_is_noop<V>(world: World<V>, comp: u64, entity: u64, value: V)
    requires
        !world.alive.contains(entity),
    ensures
        world.with_dyn_component(comp, entity, value) == world,
        world.with_dyn_component(comp, entity, value).dyn_component(comp, entity) is None,
{
}

/// A dynamic insert on an alive entity is found by the next lookup.
pub proof fn law_insert_dyn_then_get<V>(world: World<V>, comp: u64, entity: u64, value: V)
    requires
        world.alive.contains(entity),
    ensures
        world.with_dyn_component(comp, entity, value).dyn_component(comp, entity) == Some(value),
{
}

/// A query for no component is a query for the alive-set; a query for two
/// components finds the entities that are alive and in both tables.
pub proof fn law_query_dyn_conditions<V>(
    world: World<V>,
    a: ComponentId,
    b: ComponentId,
    entity: u64,
)
    ensures
        world.has_all(Seq::empty(), entity) <==> world.alive.contains(entity),
        world.has_all(seq![a, b], entity) <==> world.alive.contains(entity) && table_of(
            world.dyn_components,
            a@,
        ).contains_key(entity) && table_of(world.dyn_components, b@).contains_key(entity),
{
}

/// Applying an empty queue changes nothing; so a second apply right after a
/// first one, which leaves the queue empty, is a no-op.
pub proof fn law_apply_empty_is_noop<V>(world: World<V>)
    ensures
        world.apply_all(Seq::<Command<V>>::empty()) == world,
{
}

/// Applying two queues in a row is applying the joined queue.
pub proof fn law_apply_all_concat<V>(
    world: World<V>,
    first: Seq<Command<V>>,
    second: Seq<Command<V>>,
)
    ensures
        world.apply_all(first + second) == world.apply_all(first).apply_all(second),
    decreases first.len(),
{
    if first.len() > 0 {
        assert((first + second).drop_first() =~= first.drop_first() + second);
        law_apply_all_concat(world.apply(first[0]), first.drop_first(), second);
    }
}

/// After a despawn the entity is not alive, has no component of either kind,
/// and is in no query.
pub proof fn law_despawn_clears<V>(
    world: World<V>,
    entity: u64,
    key: u64,
    comps: Seq<ComponentId>,
)
    ensures
        !world.despawned(entity).alive.contains(entity),
        world.despawned(entity).component(key, entity) is None,
        world.despawned(entity).dyn_component(key, entity) is None,
        !world.despawned(entity).has_all(comps, entity),
        !world.erased(entity).alive.contains(entity),
        !table_of(world.erased(entity).components, key).contains_key(entity),
        !table_of(world.erased(entity).dyn_components, key).contains_key(entity),
        world.alive.contains(entity) ==> !table_of(
            world.despawned(entity).components,
            key,
        ).contains_key(entity) && !table_of(
            world.despawned(entity).dyn_components,
            key,
        ).contains_key(entity),
{
}

/// A despawn leaves the other entities and their components as they were.
pub proof fn law_despawn_spares_others<V>(world: World<V>, entity: u64, key: u64, other: u64)
    requires
        other != entity,
    ensures
        world.despawned(entity).alive.contains(other) <==> world.alive.contains(other),
        world.despawned(entity).component(key, other) == world.component(key, other),
        world.despawned(entity).dyn_component(key, other) == world.dyn_component(key, other),
{
}

/// Despawning an entity that is not alive changes nothing, so a second
/// despawn of the same entity is a no-op.
pub proof fn law_despawn_twice<V>(world: World<V>, entity: u64)
    ensures
        !world.alive.contains(entity) ==> world.despawned(entity) == world,
        world.despawned(entity).despawned(entity) == world.despawned(entity),
        world.erased(entity).erased(entity) == world.erased(entity),
{
    let once = world.erased(entity);
    let twice = once.erased(entity);
    assert(twice.alive =~= once.alive);
    assert(twice.components =~~= once.components);
    assert(twice.dyn_components =~~= once.dyn_components);
}

/// The world after `count` more entities were spawned.
pub open spec fn spawned_times<V>(world: World<V>, count: nat) -> World<V>
    decreases count,
{
    if count == 0 {
        world
    } else {
        spawned_times(world.spawned(), (count - 1) as nat)
    }
}

/// A despawned entity stays gone however many entities are spawned later,
/// though their numbers are larger than its own: it is not alive, has no
/// component and is in no query.
pub proof fn law_despawned_stays_gone<V>(
    world: World<V>,
    entity: u64,
    count: nat,
    key: u64,
    comps: Seq<ComponentId>,
)
    requires
        entity < world.next_id,
        world.next_id + count <= u64::MAX,
    ensures
        ({
            let later = spawned_times(world.despawned(entity), count);
            &&& later.next_id == world.next_id + count
            &&& !later.alive.contains(entity)
            &&& later.component(key, entity) is None
            &&& later.dyn_component(key, entity) is None
            &&& !later.has_all(comps, entity)
        }),
{
    lemma_spawns_keep_dead(world.despawned(entity), entity, count);
}

/// Spawning does not revive: an entity with an already issued number that is
/// not alive is not alive after any number of spawns.
pub proof fn lemma_spawns_keep_dead<V>(world: World<V>, entity: u64, count: nat)
    requires
        entity < world.next_id,
        world.next_id + count <= u64::MAX,
        !world.alive.contains(entity),
    ensures
        spawned_times(world, count).next_id == world.next_id + count,
        !spawned_times(world, count).alive.contains(entity),
    decreases count,
{
    if count > 0 {
        lemma_spawns_keep_dead(world.spawned(), entity, (count - 1) as nat);
    }
}

/// One step in the life of a world's entities.
pub enum Step {
    /// A new entity is spawned.
    Spawn,
    /// The entity with this number is despawned.
    Despawn(u64),
}

/// The world after the steps were taken one after the other.
pub open spec fn after_steps<V>(world: World<V>, steps: Seq<Step>) -> World<V>
    decreases steps.len(),
{
    if steps.len() == 0 {
        world
    } else {
        let next = match steps[0] {
            Step::Spawn => world.spawned(),
            Step::Despawn(e) => world.despawned(e),
        };
        after_steps(next, steps.drop_first())
    }
}

/// After any sequence of spawns and despawns, an entity's components can be
/// seen exactly if the entity is in the alive-set, and it is in a dynamic
/// query only if it is.
pub proof fn law_visibility_after_any_steps<V>(
    world: World<V>,
    steps: Seq<Step>,
    key: u64,
    entity: u64,
    comps: Seq<ComponentId>,
)
    ensures
        ({
            let now = after_steps(world, steps);
            &&& now.component(key, entity) is Some <==> now.alive.contains(entity) && table_of(
                now.components,
                key,
            ).contains_key(entity)
            &&& now.dyn_component(key, entity) is Some <==> now.alive.contains(entity) && table_of(
                now.dyn_components,
                key,
            ).contains_key(entity)
            &&& now.has_all(comps, entity) ==> now.alive.contains(entity)
        }),
{
}

/// A despawn as the last step leaves its entity invisible, whatever came
/// before.
pub proof fn law_despawn_as_last_step<V>(
    world: World<V>,
    steps: Seq<Step>,
    entity: u64,
    key: u64,
)
    ensures
        ({
            let now = after_steps(world, steps.push(Step::Despawn(entity)));
            &&& !now.alive.contains(entity)
            &&& now.component(key, entity) is None
            &&& now.dyn_component(key, entity) is None
        }),
    decreases steps.len(),
{
    let all = steps.push(Step::Despawn(entity));
    if steps.len() == 0 {
        assert(all.drop_first() =~= Seq::<Step>::empty());
        assert(after_steps(world.despawned(entity), Seq::<Step>::empty()) == world.despawned(
            entity,
        ));
    } else {
        let next = match steps[0] {
            Step::Spawn => world.spawned(),
            Step::Despawn(e) => world.despawned(e),
        };
        assert(all.drop_first() =~= steps.drop_first().push(Step::Despawn(entity)));
        law_despawn_as_last_step(next, steps.drop_first(), entity, key);
    }
}

} // verus!
