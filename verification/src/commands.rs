//! The command buffer: changes to a world that are recorded while systems
//! run over it and carried out later, in the order they were recorded.

use crate::bundle::Bundle;
use crate::ecs::Ecs;
use crate::entity::{Entity, TypeKey, KEY_F32, KEY_I32, KEY_U32, KEY_USIZE};
use crate::model::{insert_commands, lemma_apply_all_push, Command};
use crate::registry::ComponentId;
use vstd::prelude::*;

verus! {

/// An ordered queue of deferred changes. Its view is the sequence of queued
/// commands, oldest first.
pub struct Commands<V> {
    queue: Vec<Command<V>>,
}

impl<V> View for Commands<V> {
    type V = Seq<Command<V>>;

    closed spec fn view(&self) -> Seq<Command<V>> {
        self.queue@
    }
}

impl<V> Default for Commands<V> {
    fn default() -> (c: Self)
        ensures
            c@ == Seq::<Command<V>>::empty(),
    {
        Commands { queue: Vec::new() }
    }
}

impl<V> Commands<V> {
    /// An empty queue.
    pub fn new() -> (c: Self)
        ensures
            c@ == Seq::<Command<V>>::empty(),
    {
        Commands { queue: Vec::new() }
    }

    /// The number of queued commands.
    pub fn len(&self) -> (n: usize)
        ensures
            n == self@.len(),
    {
        self.queue.len()
    }

    /// Queues the removal of `entity`.
    pub fn despawn(&mut self, entity: Entity)
        ensures
            final(self)@ == old(self)@.push(Command::Despawn(entity)),
    {
        self.queue.push(Command::Despawn(entity));
    }

    /// Reserves an entity number on `ecs` and queues the command that will
    /// mark it alive. Until the queue is applied the entity is not alive and
    /// has no components.
    pub fn spawn_empty(&mut self, ecs: &mut Ecs<V>) -> (e: Entity)
        requires
            old(ecs)@.next_id < u64::MAX,
        ensures
            e@ == old(ecs)@.next_id,
            final(ecs)@ == old(ecs)@.reserved(),
            final(self)@ == old(self)@.push(Command::Spawn(e)),
    {
        let e = ecs.reserve_entity();
        self.queue.push(Command::Spawn(e));
        e
    }

    /// Queues setting the component of `entity` under `key`. The table under
    /// `key` is established on `ecs` right away, so that the queued command
    /// can be committed there.
    pub fn insert(&mut self, ecs: &mut Ecs<V>, entity: Entity, key: TypeKey, component: V)
        ensures
            final(ecs)@ == old(ecs)@.with_store(key@),
            final(self)@ == old(self)@.push(
                Command::Insert { entity, type_id: key, value: component },
            ),
    {
        ecs.ensure_store(key);
        self.queue.push(Command::Insert { entity, type_id: key, value: component });
    }

    /// Queues setting the dynamic component `comp_id` of `entity`.
    pub fn insert_dyn(&mut self, _ecs: &mut Ecs<V>, entity: Entity, comp_id: ComponentId, value: V)
        ensures
            final(_ecs)@ == old(_ecs)@,
            final(self)@ == old(self)@.push(Command::InsertDyn { entity, comp_id, value }),
    {
        self.queue.push(Command::InsertDyn { entity, comp_id, value });
    }

    /// Reserves an entity and queues both its spawn and one component for it.
    pub fn spawn_one(&mut self, ecs: &mut Ecs<V>, key: TypeKey, component: V) -> (e: Entity)
        requires
            old(ecs)@.next_id < u64::MAX,
        ensures
            e@ == old(ecs)@.next_id,
            final(ecs)@ == old(ecs)@.reserved().with_store(key@),
            final(self)@ == old(self)@.push(Command::Spawn(e)).push(
                Command::Insert { entity: e, type_id: key, value: component },
            ),
    {
        let e = self.spawn_empty(ecs);
        ecs.ensure_store(key);
        self.queue.push(Command::Insert { entity: e, type_id: key, value: component });
        e
    }

    /// Reserves an entity and queues its spawn and the components of
    /// `bundle` for it.
    pub fn spawn<B: Bundle<V>>(&mut self, ecs: &mut Ecs<V>, bundle: B) -> (e: Entity)
        requires
            old(ecs)@.next_id < u64::MAX,
        ensures
            e@ == old(ecs)@.next_id,
            final(ecs)@ == old(ecs)@.reserved().with_stores(bundle.parts()),
            final(self)@ == old(self)@.push(Command::Spawn(e)) + insert_commands(
                e,
                bundle.parts(),
            ),
    {
        let e = self.spawn_empty(ecs);
        bundle.write_commands(e, &mut self.queue, ecs);
        e
    }

    /// Whether every queued statically keyed insert can be committed to
    /// `ecs`.
    pub fn can_apply(&self, ecs: &Ecs<V>) -> (r: bool)
        ensures
            r == ecs@.can_apply(self@),
    {
        let mut i: usize = 0;
        while i < self.queue.len()
            invariant
                i <= self@.len(),
                self@ == self.queue@,
                ecs@.can_apply(self@.take(i as int)),
            decreases self@.len() - i,
        {
            match &self.queue[i] {
                Command::Insert { type_id, .. } => {
                    if !ecs.has_store(*type_id) && !type_id.is_primitive() {
                        return false;
                    }
                },
                _ => {},
            }
            i += 1;
        }
        assert(self@.take(i as int) =~= self@);
        true
    }

    /// Carries out the queued commands on `ecs`, oldest first, each exactly
    /// once, and leaves the queue empty.
    pub fn apply(&mut self, ecs: &mut Ecs<V>)
        requires
            old(ecs)@.can_apply(old(self)@),
        ensures
            final(self)@ == Seq::<Command<V>>::empty(),
            final(ecs)@ == old(ecs)@.apply_all(old(self)@),
    {
        let mut queue: Vec<Command<V>> = Vec::new();
        std::mem::swap(&mut self.queue, &mut queue);
        let ghost all = queue@;
        for cmd in it: queue.into_iter()
            invariant
                it.seq() == all,
                old(ecs)@.can_apply(all),
                forall|k: u64| old(ecs)@.can_commit(k) ==> ecs@.can_commit(k),
                ecs@ == old(ecs)@.apply_all(all.take(it.index())),
        {
            let ghost done = all.take(it.index());
            proof {
                assert(all.take(it.index() + 1) =~= done.push(cmd));
                lemma_apply_all_push(old(ecs)@, done, cmd);
            }
            match cmd {
                Command::Spawn(e) => {
                    ecs.revive(e);
                },
                Command::Despawn(e) => {
                    ecs.erase(e);
                },
                Command::Insert { entity, type_id, value } => {
                    insert_erased(ecs, entity, type_id, value);
                },
                Command::InsertDyn { entity, comp_id, value } => {
                    ecs.insert_dyn(entity, comp_id, value);
                },
            }
        }
        assert(all.take(all.len() as int) =~= all);
    }
}

/// Commits one statically keyed insert. An established table takes the value;
/// without one, a table is created if the key names one of the common
/// primitive types.
pub fn insert_erased<V>(ecs: &mut Ecs<V>, entity: Entity, type_id: TypeKey, value: V)
    requires
        old(ecs)@.can_commit(type_id@),
    ensures
        final(ecs)@ == old(ecs)@.with_component(type_id@, entity@, value),
{
    if ecs.has_store(type_id) {
        ecs.insert(entity, type_id, value);
        return ;
    }
    match try_create_and_insert(ecs, entity, type_id, TypeKey(KEY_I32), value) {
        Ok(()) => {},
        Err(value) => match try_create_and_insert(ecs, entity, type_id, TypeKey(KEY_U32), value) {
            Ok(()) => {},
            Err(value) => match try_create_and_insert(
                ecs,
                entity,
                type_id,
                TypeKey(KEY_F32),
                value,
            ) {
                Ok(()) => {},
                Err(value) => match try_create_and_insert(
                    ecs,
                    entity,
                    type_id,
                    TypeKey(KEY_USIZE),
                    value,
                ) {
                    Ok(()) => {},
                    Err(_value) => {
                        assert(false);
                    },
                },
            },
        },
    }
}

/// Creates the table under `type_id` and commits the insert, provided that
/// `type_id` is the key `candidate`; otherwise hands the value back.
pub fn try_create_and_insert<V>(
    ecs: &mut Ecs<V>,
    entity: Entity,
    type_id: TypeKey,
    candidate: TypeKey,
    value: V,
) -> (r: Result<(), V>)
    requires
        !old(ecs)@.components.contains_key(type_id@),
    ensures
        type_id == candidate ==> r is Ok && final(ecs)@ == old(ecs)@.with_component(
            type_id@,
            entity@,
            value,
        ),
        type_id != candidate ==> r == Err::<(), V>(value) && final(ecs)@ == old(ecs)@,
{
    if type_id == candidate {
        ecs.ensure_store(type_id);
        ecs.insert(entity, type_id, value);
        proof {
            assert(ecs@.components =~= crate::store::with_entry(
                old(ecs)@.components,
                type_id@,
                entity@,
                value,
            ));
        }
        Ok(())
    } else {
        Err(value)
    }
}

} // verus!
