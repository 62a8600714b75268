//! What the core knows of windows: the components that describe them, and
//! which windows still have to be created.

use crate::ecs::Ecs;
use crate::entity::{Entity, TypeKey};
use crate::query::{lists_one, Filter, Without};
use vstd::prelude::*;

verus! {

/// The request for a window: its title and its size in pixels.
#[derive(Clone, Debug, PartialEq, Eq)]
pub struct WindowDescriptor {
    pub title: String,
    pub width: u32,
    pub height: u32,
}

impl WindowDescriptor {
    /// The request for a window with the given title and size.
    pub fn new(title: &str, width: u32, height: u32) -> (d: Self)
        ensures
            d.title@ == title@,
            d.width == width,
            d.height == height,
    {
        WindowDescriptor { title: title.to_owned(), width, height }
    }
}

/// The marker of an entity for which a native window was created.
#[derive(Clone, Copy, Debug, PartialEq, Eq, Structural)]
pub struct WindowCreated;

/// The title text of a window.
#[derive(Clone, Debug, PartialEq, Eq)]
pub struct WindowText(pub String);

/// How many windows are open.
#[derive(Clone, Copy, Debug, PartialEq, Eq, Structural)]
pub struct WindowStats {
    pub open: usize,
}

/// Whether `e` is one of `list`.
pub fn is_among(list: &Vec<Entity>, e: Entity) -> (r: bool)
    ensures
        r == list@.contains(e),
{
    let mut i: usize = 0;
    while i < list.len()
        invariant
            i <= list@.len(),
            forall|k: int| 0 <= k < i ==> list@[k] != e,
        decreases list@.len() - i,
    {
        if list[i] == e {
            return true;
        }
        i += 1;
    }
    false
}

/// The windows that still have to be created: the alive entities that have a
/// descriptor under `descriptor`, lack the marker under `created` and are
/// not among the `existing` windows, each exactly once with its descriptor.
pub fn collect_new_windows<'w, V>(
    ecs: &'w Ecs<V>,
    descriptor: TypeKey,
    created: TypeKey,
    existing: &Vec<Entity>,
) -> (targets: Vec<(Entity, &'w V)>)
    ensures
        lists_one(
            ecs@,
            descriptor@,
            |e: u64| ecs@.component(created@, e) is None && !existing@.contains(Entity(e)),
            targets@,
        ),
{
    let filter = Without::new(created);
    let ghost unmarked_only = filter;
    let unmarked = ecs.query(descriptor).iter_with(filter);
    let ghost keep = |e: u64| ecs@.component(created@, e) is None && !existing@.contains(Entity(e));
    let ghost src: Seq<int> = Seq::empty();
    let mut targets: Vec<(Entity, &'w V)> = Vec::new();
    let mut i: usize = 0;
    while i < unmarked.len()
        invariant
            i <= unmarked@.len(),
            unmarked_only.key == created,
            lists_one(
                ecs@,
                descriptor@,
                |e: u64| unmarked_only.accepts(ecs@, e),
                unmarked@,
            ),
            src.len() == targets@.len(),
            forall|k: int|
                0 <= k < targets@.len() ==> 0 <= #[trigger] src[k] < i && unmarked@[src[k]]
                    == targets@[k],
            forall|a: int, b: int|
                0 <= a < b < targets@.len() ==> #[trigger] src[a] < #[trigger] src[b],
            forall|k: int|
                0 <= k < targets@.len() ==> !existing@.contains((#[trigger] targets@[k]).0),
            forall|j: int|
                0 <= j < i && !existing@.contains((#[trigger] unmarked@[j]).0) ==> exists|k: int|
                    0 <= k < targets@.len() && (#[trigger] targets@[k]).0 == unmarked@[j].0,
        decreases unmarked@.len() - i,
    {
        let (e, d) = unmarked[i];
        if !is_among(existing, e) {
            let ghost before = targets@;
            targets.push((e, d));
            proof {
                src = src.push(i as int);
                assert forall|j: int|
                    0 <= j < i + 1 && !existing@.contains(
                        (#[trigger] unmarked@[j]).0,
                    ) implies exists|k: int|
                    0 <= k < targets@.len() && (#[trigger] targets@[k]).0 == unmarked@[j].0 by {
                    if j < i {
                        let k = choose|k: int|
                            0 <= k < before.len() && (#[trigger] before[k]).0 == unmarked@[j].0;
                        assert(targets@[k].0 == unmarked@[j].0);
                    } else {
                        assert(targets@[targets@.len() - 1].0 == unmarked@[j].0);
                    }
                }
            }
        }
        i += 1;
    }
    proof {
        assert forall|k: int| 0 <= k < targets@.len() implies keep((#[trigger] targets@[k]).0@)
            && ecs@.component(descriptor@, targets@[k].0@) == Some(*targets@[k].1) by {
            assert(unmarked@[src[k]] == targets@[k]);
        }
        assert forall|a: int, b: int|
            0 <= a < targets@.len() && 0 <= b < targets@.len() && a != b implies (
        #[trigger] targets@[a]).0 != (#[trigger] targets@[b]).0 by {
            assert(src[a] != src[b]);
        }
    }
    targets
}

} // verus!
