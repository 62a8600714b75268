//! Singleton values of the statically keyed path: at most one per key.

use crate::entity::TypeKey;
use crate::store::value_mut;
use std::collections::HashMap;
use vstd::prelude::*;

verus! {

broadcast use vstd::std_specs::hash::group_hash_axioms;

/// The resources of a world. The view maps each key that has a value to that
/// value.
pub struct Resources<V> {
    map: HashMap<u64, V>,
}

impl<V> View for Resources<V> {
    type V = Map<u64, V>;

    closed spec fn view(&self) -> Map<u64, V> {
        self.map@
    }
}

impl<V> Resources<V> {
    /// No resources.
    pub fn new() -> (r: Self)
        ensures
            r@ == Map::<u64, V>::empty(),
    {
        Resources { map: HashMap::new() }
    }

    /// Sets the resource under `key` to `value`, silently replacing an
    /// earlier one.
    pub fn insert(&mut self, key: TypeKey, value: V)
        ensures
            final(self)@ == old(self)@.insert(key@, value),
    {
        self.map.insert(key.0, value);
    }

    /// Whether a resource is stored under `key`.
    pub fn contains(&self, key: TypeKey) -> (r: bool)
        ensures
            r == self@.contains_key(key@),
    {
        self.map.contains_key(&key.0)
    }

    /// The resource under `key`, if there is one.
    pub fn get(&self, key: TypeKey) -> (r: Option<&V>)
        ensures
            r == (if self@.contains_key(key@) {
                Some(&self@[key@])
            } else {
                None
            }),
    {
        self.map.get(&key.0)
    }

    /// Mutable access to the resource under `key`, if there is one. The
    /// resource ends up as the caller leaves it.
    pub fn get_mut(&mut self, key: TypeKey) -> (r: Option<&mut V>)
        ensures
            match r {
                Some(v) => old(self)@.contains_key(key@) && *v == old(self)@[key@] && final(self)@
                    == old(self)@.insert(key@, *final(v)),
                None => !old(self)@.contains_key(key@) && final(self)@ == old(self)@,
            },
    {
        value_mut(&mut self.map, key.0)
    }

    /// Takes the resource under `key` out and returns it; `None` if there
    /// was none.
    pub fn remove(&mut self, key: TypeKey) -> (r: Option<V>)
        ensures
            r == old(self)@.get(key@),
            final(self)@ == old(self)@.remove(key@),
    {
        self.map.remove(&key.0)
    }
}

} // verus!
