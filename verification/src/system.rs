//! The unit of logic that a schedule runs.

use crate::ecs::Ecs;
use crate::model::World;
use vstd::prelude::*;

verus! {

/// A system: one call that gets the whole world for its duration and returns
/// nothing. A system must leave the world's command buffer in a state in
/// which it can be applied to that world, and what it says of its effect
/// must hold of every later run as well.
pub trait System<V>: Send {
    /// What one run of the system may do to a world: whether a run that
    /// starts in `before` can end in `after`. Unless a system says more,
    /// every outcome is possible.
    open spec fn effect(&self, before: World<V>, after: World<V>) -> bool {
        true
    }

    /// Runs the system once. When a system is called, the command buffer in
    /// the world's slot, if there is one, can be applied to the world.
    fn run(&mut self, ecs: &mut Ecs<V>)
        requires
            old(ecs)@.commands matches Some(queue) ==> old(ecs)@.can_apply(queue),
        ensures
            old(self).effect(old(ecs)@, final(ecs)@),
            forall|before: World<V>, after: World<V>|
                #[trigger] final(self).effect(before, after) == old(self).effect(before, after),
            final(ecs)@.commands matches Some(queue) ==> final(ecs)@.can_apply(queue),
    ;
}

} // verus!
