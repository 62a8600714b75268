//! Bundles: groups of components that are attached to an entity together.

use crate::ecs::Ecs;
use crate::entity::{Entity, TypeKey};
use crate::model::{
    insert_commands, lemma_with_components_concat, lemma_with_stores_concat, Command,
};
use vstd::prelude::*;

verus! {

/// A group of statically keyed components.
pub trait Bundle<V>: Sized {
    /// The components of the bundle with their keys, in the order in which
    /// they are attached.
    spec fn parts(&self) -> Seq<(TypeKey, V)>;

    /// Attaches the components to `entity` at once.
    fn insert_immediate(self, ecs: &mut Ecs<V>, entity: Entity)
        ensures
            final(ecs)@ == old(ecs)@.with_components(entity@, self.parts()),
    ;

    /// Appends to `out` the commands that attach the components to `entity`,
    /// and establishes their tables on `ecs`.
    fn write_commands(self, entity: Entity, out: &mut Vec<Command<V>>, ecs: &mut Ecs<V>)
        ensures
            final(out)@ == old(out)@ + insert_commands(entity, self.parts()),
            final(ecs)@ == old(ecs)@.with_stores(self.parts()),
    ;
}

/// The bundle of one component: its key and its value.
pub struct Single<V>(pub TypeKey, pub V);

impl<V> Bundle<V> for Single<V> {
    open spec fn parts(&self) -> Seq<(TypeKey, V)> {
        seq![(self.0, self.1)]
    }

    fn insert_immediate(self, ecs: &mut Ecs<V>, entity: Entity) {
        proof {
            let parts = self.parts();
            assert(old(ecs)@.with_components(entity@, parts) == old(ecs)@.with_component(
                parts[0].0@,
                entity@,
                parts[0].1,
            ).with_components(entity@, parts.drop_first()));
        }
        ecs.insert(entity, self.0, self.1);
    }

    fn write_commands(self, entity: Entity, out: &mut Vec<Command<V>>, ecs: &mut Ecs<V>) {
        proof {
            let parts = self.parts();
            assert(old(ecs)@.with_stores(parts) == old(ecs)@.with_store(parts[0].0@).with_stores(
                parts.drop_first(),
            ));
        }
        ecs.ensure_store(self.0);
        out.push(Command::Insert { entity, type_id: self.0, value: self.1 });
    }
}

impl<V, A: Bundle<V>, B: Bundle<V>> Bundle<V> for (A, B) {
    open spec fn parts(&self) -> Seq<(TypeKey, V)> {
        self.0.parts() + self.1.parts()
    }

    fn insert_immediate(self, ecs: &mut Ecs<V>, entity: Entity) {
        proof {
            lemma_with_components_concat(old(ecs)@, entity@, self.0.parts(), self.1.parts());
        }
        let (a, b) = self;
        a.insert_immediate(ecs, entity);
        b.insert_immediate(ecs, entity);
    }

    fn write_commands(self, entity: Entity, out: &mut Vec<Command<V>>, ecs: &mut Ecs<V>) {
        proof {
            lemma_with_stores_concat(old(ecs)@, self.0.parts(), self.1.parts());
        }
        let (a, b) = self;
        a.write_commands(entity, out, ecs);
        b.write_commands(entity, out, ecs);
    }
}

impl<V, A: Bundle<V>, B: Bundle<V>, C: Bundle<V>> Bundle<V> for (A, B, C) {
    open spec fn parts(&self) -> Seq<(TypeKey, V)> {
        (self.0, (self.1, self.2)).parts()
    }

    fn insert_immediate(self, ecs: &mut Ecs<V>, entity: Entity) {
        let (a, b, c) = self;
        (a, (b, c)).insert_immediate(ecs, entity);
    }

    fn write_commands(self, entity: Entity, out: &mut Vec<Command<V>>, ecs: &mut Ecs<V>) {
        let (a, b, c) = self;
        (a, (b, c)).write_commands(entity, out, ecs);
    }
}

impl<V, A: Bundle<V>, B: Bundle<V>, C: Bundle<V>, D: Bundle<V>> Bundle<V> for (A, B, C, D) {
    open spec fn parts(&self) -> Seq<(TypeKey, V)> {
        (self.0, (self.1, self.2, self.3)).parts()
    }

    fn insert_immediate(self, ecs: &mut Ecs<V>, entity: Entity) {
        let (a, b, c, d) = self;
        (a, (b, c, d)).insert_immediate(ecs, entity);
    }

    fn write_commands(self, entity: Entity, out: &mut Vec<Command<V>>, ecs: &mut Ecs<V>) {
        let (a, b, c, d) = self;
        (a, (b, c, d)).write_commands(entity, out, ecs);
    }
}

impl<V, A: Bundle<V>, B: Bundle<V>, C: Bundle<V>, D: Bundle<V>, E: Bundle<V>> Bundle<V> for (
    A,
    B,
    C,
    D,
    E,
) {
    open spec fn parts(&self) -> Seq<(TypeKey, V)> {
        (self.0, (self.1, self.2, self.3, self.4)).parts()
    }

    fn insert_immediate(self, ecs: &mut Ecs<V>, entity: Entity) {
        let (a, b, c, d, e) = self;
        (a, (b, c, d, e)).insert_immediate(ecs, entity);
    }

    fn write_commands(self, entity: Entity, out: &mut Vec<Command<V>>, ecs: &mut Ecs<V>) {
        let (a, b, c, d, e) = self;
        (a, (b, c, d, e)).write_commands(entity, out, ecs);
    }
}

impl<V> Ecs<V> {
    /// Creates an entity and attaches the components of `bundle` to it.
    pub fn spawn<B: Bundle<V>>(&mut self, bundle: B) -> (e: Entity)
        requires
            old(self)@.next_id < u64::MAX,
        ensures
            e@ == old(self)@.next_id,
            final(self)@ == old(self)@.spawned().with_components(e@, bundle.parts()),
    {
        let e = self.spawn_empty();
        bundle.insert_immediate(self, e);
        e
    }
}

} // verus!
