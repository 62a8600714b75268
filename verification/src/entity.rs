//! Entity handles and the keys under which component tables are filed.

use vstd::prelude::*;

verus! {

/// An opaque handle for one logical object. The handle carries no data; it is
/// only the number under which the world files components.
#[derive(Clone, Copy, Debug, PartialEq, Eq, Hash, Structural)]
pub struct Entity(pub u64);

impl View for Entity {
    type V = u64;

    open spec fn view(&self) -> u64 {
        self.0
    }
}

impl Entity {
    /// The handle with the given number.
    pub fn new(id: u64) -> (e: Entity)
        ensures
            e@ == id,
    {
        Entity(id)
    }

    /// The number behind the handle.
    pub fn id(&self) -> (id: u64)
        ensures
            id == self@,
    {
        self.0
    }
}

/// The identity of a component or resource type on the statically keyed path.
/// Two values filed under the same key belong to the same table.
#[derive(Clone, Copy, Debug, PartialEq, Eq, Hash, Structural)]
pub struct TypeKey(pub u64);

impl View for TypeKey {
    type V = u64;

    open spec fn view(&self) -> u64 {
        self.0
    }
}

/// Key of the 32-bit signed integer component type.
pub const KEY_I32: u64 = 0;

/// Key of the 32-bit unsigned integer component type.
pub const KEY_U32: u64 = 1;

/// Key of the 32-bit floating point component type.
pub const KEY_F32: u64 = 2;

/// Key of the pointer-sized unsigned integer component type.
pub const KEY_USIZE: u64 = 3;

/// The first key that is free for application-defined component types.
pub const FIRST_FREE_KEY: u64 = 4;

/// Whether `key` names one of the common primitive types whose table the
/// deferred insert path can create by itself.
pub open spec fn is_primitive_key(key: u64) -> bool {
    key == KEY_I32 || key == KEY_U32 || key == KEY_F32 || key == KEY_USIZE
}

impl TypeKey {
    /// Whether this key names one of the common primitive types.
    pub fn is_primitive(&self) -> (r: bool)
        ensures
            r == is_primitive_key(self@),
    {
        self.0 == KEY_I32 || self.0 == KEY_U32 || self.0 == KEY_F32 || self.0 == KEY_USIZE
    }
}

} // verus!
