//! The components that make a widget tree, and the stream of numbers from
//! which placeholder colours are drawn.

use crate::ecs::Ecs;
use crate::entity::{Entity, TypeKey};
use crate::layout::Direction;
use vstd::prelude::*;

verus! {

/// The marker of the widget at the root of a window's tree.
#[derive(Clone, Copy, Debug, PartialEq, Eq, Structural)]
pub struct RootWidget;

/// A widget that is drawn as an outlined rectangle in the packed colour
/// `color` and can be clicked.
#[derive(Clone, Copy, Debug, PartialEq, Eq, Structural)]
pub struct PlaceholderWidget {
    pub color: u32,
}

/// Opaque magenta, the colour of a placeholder that was given none.
pub const DEFAULT_PLACEHOLDER_COLOR: u32 = 0xffff_00ff;

impl Default for PlaceholderWidget {
    fn default() -> (w: Self)
        ensures
            w.color == DEFAULT_PLACEHOLDER_COLOR,
    {
        PlaceholderWidget { color: DEFAULT_PLACEHOLDER_COLOR }
    }
}

/// A widget that lays out its children in a row or a column.
#[derive(Clone, Copy, Debug, PartialEq, Eq, Structural)]
pub struct BoxWidget {
    pub dir: Direction,
}

/// The children of a widget, in their order.
#[derive(Clone, Debug, PartialEq, Eq)]
pub struct Children(pub Vec<Entity>);

/// The root of the widget tree under a window: the first of the window's
/// `children` that is alive and carries the marker under `root_key`.
pub fn find_root<V>(ecs: &Ecs<V>, children: &Vec<Entity>, root_key: TypeKey) -> (root: Option<
    Entity,
>)
    ensures
        match root {
            Some(e) => exists|i: int|
                0 <= i < children@.len() && children@[i] == e && ecs@.component(root_key@, e@)
                    is Some && forall|j: int|
                    0 <= j < i ==> ecs@.component(root_key@, (#[trigger] children@[j])@) is None,
            None => forall|j: int|
                0 <= j < children@.len() ==> ecs@.component(
                    root_key@,
                    (#[trigger] children@[j])@,
                ) is None,
        },
{
    let mut i: usize = 0;
    while i < children.len()
        invariant
            i <= children@.len(),
            forall|j: int|
                0 <= j < i ==> ecs@.component(root_key@, (#[trigger] children@[j])@) is None,
        decreases children@.len() - i,
    {
        if ecs.has(children[i], root_key) {
            return Some(children[i]);
        }
        i += 1;
    }
    None
}

/// The multiplier of the number stream.
pub const STREAM_FACTOR: u64 = 6364136223846793005;

/// The state that follows `state` in the number stream.
pub open spec fn stream_after(state: u64) -> u64 {
    ((state * STREAM_FACTOR + 1) % 0x1_0000_0000_0000_0000) as u64
}

/// Advances the number stream by one step.
pub fn stream_next(state: u64) -> (next: u64)
    ensures
        next == stream_after(state),
{
    let scaled = state.wrapping_mul(STREAM_FACTOR);
    let next = scaled.wrapping_add(1);
    proof {
        let range: int = 0x1_0000_0000_0000_0000;
        let product: int = state * STREAM_FACTOR;
        assert(scaled == product % range);
        vstd::arithmetic::div_mod::lemma_add_mod_noop(product, 1, range);
        vstd::arithmetic::div_mod::lemma_small_mod(1, range as nat);
        assert((product + 1) % range == (scaled + 1) % range);
        if scaled + 1 < range {
            vstd::arithmetic::div_mod::lemma_small_mod((scaled + 1) as nat, range as nat);
        } else {
            vstd::arithmetic::div_mod::lemma_mod_self_0(range);
        }
    }
    next
}

/// The number that a state of the stream stands for: its upper half.
pub fn stream_value(state: u64) -> (value: u32)
    ensures
        value == state / 0x1_0000_0000,
{
    let high = state >> 32;
    assert(high == state / 0x1_0000_0000 && high <= 0xffff_ffff) by (bit_vector)
        requires
            high == state >> 32,
    ;
    high as u32
}

} // verus!
