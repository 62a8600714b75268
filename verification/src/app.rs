//! The entry point that holds a world together with its pipeline.

use crate::bundle::Bundle;
use crate::commands::Commands;
use crate::ecs::Ecs;
use crate::entity::{Entity, TypeKey};
use crate::model::World;
use crate::order::{Entry, Scheduled, ScheduledSystem};
use crate::schedule::{same_effects, slice_names, stages_ran, Pipeline, Schedules, Stage};
use crate::system::System;
use vstd::prelude::*;

verus! {

/// The marker of an exit request: once it is set on a world, the driver of
/// the frame loop stops after the frame in which it finds it.
#[derive(Clone, Copy, Debug, PartialEq, Eq, Structural)]
pub struct AppExit;

/// A world and the pipeline that runs over it.
#[verifier::reject_recursive_types(V)]
pub struct App<V> {
    ecs: Ecs<V>,
    schedules: Schedules<V>,
}

impl<V> App<V> {
    /// The world of the application.
    pub closed spec fn world(&self) -> World<V> {
        self.ecs@
    }

    /// The registered systems of the application, stage by stage.
    pub closed spec fn schedules(&self) -> Schedules<V> {
        self.schedules
    }

    /// The pipeline of the application.
    pub open spec fn pipeline(&self) -> Pipeline {
        self.schedules()@
    }

    /// An application with an empty world and a pipeline without systems.
    pub fn new() -> (app: Self)
        ensures
            app.world() == World::<V>::empty(),
            app.pipeline() == crate::schedule::empty_pipeline(),
            forall|stage: Stage| app.schedules().systems(stage) == Seq::<ScheduledSystem<V>>::empty(),
    {
        App { ecs: Ecs::new(), schedules: Schedules::new() }
    }

    /// Registers `system` at the end of `stage` with order 0.
    pub fn add_systems(&mut self, stage: Stage, system: Box<dyn System<V>>) -> (app: &mut Self)
        ensures
            app.world() == old(self).world(),
            app.pipeline() == old(self).pipeline().with_system(
                stage,
                Entry { order: 0, label: None, before: Seq::empty(), after: Seq::empty() },
            ),
            app.schedules().systems(stage).len() == old(self).schedules().systems(stage).len() + 1,
            app.schedules().systems(stage).last().sys == system,
            app.schedules().systems(stage).last().entry() == (Entry { order: 0, label: None, before: Seq::empty(), after: Seq::empty() }),
            forall|i: int|
                0 <= i < old(self).schedules().systems(stage).len() ==> app.schedules().systems(
                    stage,
                )[i] == old(self).schedules().systems(stage)[i],
            forall|other: Stage|
                other != stage ==> app.schedules().systems(other) == old(
                    self,
                ).schedules().systems(other),
            *final(self) == *final(app),
    {
        let none: [&str; 0] = [];
        let scheduled = Scheduled::new(0, None, &none, &none, system);
        assert(slice_names(none@) =~= Seq::<Seq<char>>::empty());
        self.schedules.add_scheduled(stage, scheduled);
        self
    }

    /// Registers `system` at the end of `stage` with the given order.
    pub fn add_systems_ordered(
        &mut self,
        stage: Stage,
        order: i32,
        system: Box<dyn System<V>>,
    ) -> (app: &mut Self)
        ensures
            app.world() == old(self).world(),
            app.pipeline() == old(self).pipeline().with_system(
                stage,
                Entry { order: order as int, label: None, before: Seq::empty(), after: Seq::empty() },
            ),
            app.schedules().systems(stage).len() == old(self).schedules().systems(stage).len() + 1,
            app.schedules().systems(stage).last().sys == system,
            app.schedules().systems(stage).last().entry() == (Entry { order: order as int, label: None, before: Seq::empty(), after: Seq::empty() }),
            forall|i: int|
                0 <= i < old(self).schedules().systems(stage).len() ==> app.schedules().systems(
                    stage,
                )[i] == old(self).schedules().systems(stage)[i],
            forall|other: Stage|
                other != stage ==> app.schedules().systems(other) == old(
                    self,
                ).schedules().systems(other),
            *final(self) == *final(app),
    {
        let none: [&str; 0] = [];
        let scheduled = Scheduled::new(order, None, &none, &none, system);
        assert(slice_names(none@) =~= Seq::<Seq<char>>::empty());
        self.schedules.add_scheduled(stage, scheduled);
        self
    }

    /// Registers `system` at the end of `stage` under `label`, with order 0.
    pub fn add_systems_with_label(
        &mut self,
        stage: Stage,
        label: &str,
        system: Box<dyn System<V>>,
    ) -> (app: &mut Self)
        ensures
            app.world() == old(self).world(),
            app.pipeline() == old(self).pipeline().with_system(
                stage,
                Entry { order: 0, label: Some(label@), before: Seq::empty(), after: Seq::empty() },
            ),
            app.schedules().systems(stage).len() == old(self).schedules().systems(stage).len() + 1,
            app.schedules().systems(stage).last().sys == system,
            app.schedules().systems(stage).last().entry() == (Entry { order: 0, label: Some(label@), before: Seq::empty(), after: Seq::empty() }),
            forall|i: int|
                0 <= i < old(self).schedules().systems(stage).len() ==> app.schedules().systems(
                    stage,
                )[i] == old(self).schedules().systems(stage)[i],
            forall|other: Stage|
                other != stage ==> app.schedules().systems(other) == old(
                    self,
                ).schedules().systems(other),
            *final(self) == *final(app),
    {
        let none: [&str; 0] = [];
        let scheduled = Scheduled::new(0, Some(label), &none, &none, system);
        assert(slice_names(none@) =~= Seq::<Seq<char>>::empty());
        self.schedules.add_scheduled(stage, scheduled);
        self
    }

    /// Registers `system` at the end of `stage` under `label`, with the
    /// labels of the systems it must run before and after, and its order.
    pub fn add_systems_with_deps(
        &mut self,
        stage: Stage,
        label: &str,
        before: &[&str],
        after: &[&str],
        order: i32,
        system: Box<dyn System<V>>,
    ) -> (app: &mut Self)
        ensures
            app.world() == old(self).world(),
            app.pipeline() == old(self).pipeline().with_system(
                stage,
                Entry {
                    order: order as int,
                    label: Some(label@),
                    before: slice_names(before@),
                    after: slice_names(after@),
                },
            ),
            app.schedules().systems(stage).len() == old(self).schedules().systems(stage).len() + 1,
            app.schedules().systems(stage).last().sys == system,
            app.schedules().systems(stage).last().entry() == (Entry {
                order: order as int,
                label: Some(label@),
                before: slice_names(before@),
                after: slice_names(after@),
            }),
            forall|i: int|
                0 <= i < old(self).schedules().systems(stage).len() ==> app.schedules().systems(
                    stage,
                )[i] == old(self).schedules().systems(stage)[i],
            forall|other: Stage|
                other != stage ==> app.schedules().systems(other) == old(
                    self,
                ).schedules().systems(other),
            *final(self) == *final(app),
    {
        let scheduled = Scheduled::new(order, Some(label), before, after, system);
        self.schedules.add_scheduled(stage, scheduled);
        self
    }

    /// Registers the system of `scheduled` at the end of `stage`, with the
    /// constraints that come with it.
    pub fn add_scheduled(&mut self, stage: Stage, scheduled: ScheduledSystem<V>) -> (app: &mut Self)
        ensures
            app.world() == old(self).world(),
            app.pipeline() == old(self).pipeline().with_system(stage, scheduled.entry()),
            app.schedules().systems(stage) == old(self).schedules().systems(stage).push(scheduled),
            forall|other: Stage|
                other != stage ==> app.schedules().systems(other) == old(
                    self,
                ).schedules().systems(other),
            *final(self) == *final(app),
    {
        self.schedules.add_scheduled(stage, scheduled);
        self
    }

    /// Advances the application by one frame: the startup stages if they have
    /// not run yet, then the five per-frame stages. Every system keeps its
    /// place, its constraints and its effect.
    pub fn update(&mut self)
        ensures
            final(self).pipeline() == (Pipeline { ran_startup: true, ..old(self).pipeline() }),
            forall|stage: Stage|
                same_effects(
                    #[trigger] old(self).schedules().systems(stage),
                    final(self).schedules().systems(stage),
                ),
            stages_ran(old(self).schedules().due(), old(self).world(), final(self).world()),
            final(self).world().commands is None,
    {
        self.schedules.run_frame(&mut self.ecs);
    }

    /// The world, for reading.
    pub fn ecs(&self) -> (ecs: &Ecs<V>)
        ensures
            ecs@ == self.world(),
    {
        &self.ecs
    }

    /// The world, for changing.
    pub fn ecs_mut(&mut self) -> (ecs: &mut Ecs<V>)
        ensures
            ecs@ == old(self).world(),
            final(self).world() == final(ecs)@,
            final(self).pipeline() == old(self).pipeline(),
            final(self).schedules() == old(self).schedules(),
    {
        &mut self.ecs
    }

    /// Whether an exit was requested, so that the driver of the frame loop
    /// must not start another frame.
    pub fn should_exit(&self) -> (r: bool)
        ensures
            r == self.world().exit_requested,
    {
        self.ecs.exit_requested()
    }

    // ----- resources -----

    /// Sets the resource under `key` to `value`.
    pub fn insert_resource(&mut self, key: TypeKey, value: V) -> (app: &mut Self)
        ensures
            app.pipeline() == old(self).pipeline(),
            app.schedules() == old(self).schedules(),
            app.world() == (World {
                resources: old(self).world().resources.insert(key@, value),
                ..old(self).world()
            }),
            *final(self) == *final(app),
    {
        self.ecs.insert_resource(key, value);
        self
    }

    /// The resource under `key`, if there is one.
    pub fn resource(&self, key: TypeKey) -> (r: Option<&V>)
        ensures
            r == (if self.world().resources.contains_key(key@) {
                Some(&self.world().resources[key@])
            } else {
                None
            }),
    {
        self.ecs.get_resource(key)
    }

    /// Mutable access to the resource under `key`, if there is one.
    pub fn resource_mut(&mut self, key: TypeKey) -> (r: Option<&mut V>)
        ensures
            final(self).pipeline() == old(self).pipeline(),
            final(self).schedules() == old(self).schedules(),
            match r {
                Some(v) => old(self).world().resources.contains_key(key@) && *v == old(self).world().resources[key@] && final(self).world() == (World {
                    resources: old(self).world().resources.insert(key@, *final(v)),
                    ..old(self).world()
                }),
                None => !old(self).world().resources.contains_key(key@) && final(self).world()
                    == old(self).world(),
            },
    {
        self.ecs.get_resource_mut(key)
    }

    // ----- entities and components -----

    /// Creates an entity that is alive at once.
    pub fn spawn_empty(&mut self) -> (e: Entity)
        requires
            old(self).world().next_id < u64::MAX,
        ensures
            e@ == old(self).world().next_id,
            final(self).world() == old(self).world().spawned(),
            final(self).pipeline() == old(self).pipeline(),
            final(self).schedules() == old(self).schedules(),
    {
        self.ecs.spawn_empty()
    }

    /// Despawns `entity`; nothing happens if it is not alive.
    pub fn despawn(&mut self, entity: Entity)
        ensures
            final(self).world() == old(self).world().despawned(entity@),
            final(self).pipeline() == old(self).pipeline(),
            final(self).schedules() == old(self).schedules(),
    {
        self.ecs.despawn(entity)
    }

    /// Sets the component of `entity` under `key`.
    pub fn insert_component(&mut self, entity: Entity, key: TypeKey, component: V)
        ensures
            final(self).world() == old(self).world().with_component(key@, entity@, component),
            final(self).pipeline() == old(self).pipeline(),
            final(self).schedules() == old(self).schedules(),
    {
        self.ecs.insert(entity, key, component)
    }

    /// The component of `entity` under `key`, if the entity is alive and has
    /// one.
    pub fn get_component(&self, entity: Entity, key: TypeKey) -> (r: Option<&V>)
        ensures
            r == (match self.world().component(key@, entity@) {
                Some(v) => Some(&v),
                None => None,
            }),
    {
        self.ecs.get(entity, key)
    }

    /// Mutable access to the component of `entity` under `key`.
    pub fn get_component_mut(&mut self, entity: Entity, key: TypeKey) -> (r: Option<&mut V>)
        ensures
            final(self).pipeline() == old(self).pipeline(),
            final(self).schedules() == old(self).schedules(),
            match r {
                Some(v) => old(self).world().component(key@, entity@) == Some(*v) && final(self).world() == old(self).world().with_component(key@, entity@, *final(v)),
                None => old(self).world().component(key@, entity@) is None && final(self).world()
                    == old(self).world(),
            },
    {
        self.ecs.get_mut(entity, key)
    }

    /// Creates an entity and attaches the components of `bundle` to it.
    pub fn spawn<B: Bundle<V>>(&mut self, bundle: B) -> (e: Entity)
        requires
            old(self).world().next_id < u64::MAX,
        ensures
            e@ == old(self).world().next_id,
            final(self).world() == old(self).world().spawned().with_components(
                e@,
                bundle.parts(),
            ),
            final(self).pipeline() == old(self).pipeline(),
            final(self).schedules() == old(self).schedules(),
    {
        self.ecs.spawn(bundle)
    }

    /// Creates an entity and gives it `component` under `key`.
    pub fn spawn_one(&mut self, key: TypeKey, component: V) -> (e: Entity)
        requires
            old(self).world().next_id < u64::MAX,
        ensures
            e@ == old(self).world().next_id,
            final(self).world() == old(self).world().spawned().with_component(
                key@,
                e@,
                component,
            ),
            final(self).pipeline() == old(self).pipeline(),
            final(self).schedules() == old(self).schedules(),
    {
        self.ecs.spawn_one(key, component)
    }

    /// The command buffer of the world, created empty if the slot is vacant.
    pub fn commands(&mut self) -> (r: &mut Commands<V>)
        ensures
            r@ == (match old(self).world().commands {
                Some(queue) => queue,
                None => Seq::empty(),
            }),
            final(self).world() == (World { commands: Some(final(r)@), ..old(self).world() }),
            final(self).pipeline() == old(self).pipeline(),
            final(self).schedules() == old(self).schedules(),
    {
        self.ecs.commands()
    }

    /// Requests that the frame loop stop.
    pub fn request_exit(&mut self)
        ensures
            final(self).world() == (World { exit_requested: true, ..old(self).world() }),
            final(self).pipeline() == old(self).pipeline(),
            final(self).schedules() == old(self).schedules(),
    {
        self.ecs.request_exit();
    }
}

/// Requests, from inside a system, that the frame loop stop.
pub fn request_app_exit<V>(ecs: &mut Ecs<V>)
    ensures
        final(ecs)@ == (World { exit_requested: true, ..old(ecs)@ }),
{
    ecs.request_exit();
}

impl<V> Default for App<V> {
    fn default() -> (app: Self)
        ensures
            app.world() == World::<V>::empty(),
            app.pipeline() == crate::schedule::empty_pipeline(),
            forall|stage: Stage| app.schedules().systems(stage) == Seq::<ScheduledSystem<V>>::empty(),
    {
        App::new()
    }
}

} // verus!
