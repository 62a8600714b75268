//! Read-only walks and filters over one or two statically keyed tables.

use crate::ecs::Ecs;
use crate::entity::{Entity, TypeKey};
use crate::model::World;
use vstd::prelude::*;

verus! {

/// A condition on entities that a query can apply on top of its own.
pub trait Filter<V> {
    /// Whether the entity with number `entity` passes in `world`.
    spec fn accepts(&self, world: World<V>, entity: u64) -> bool;

    /// Whether `e` passes in `ecs`.
    fn matches(&self, ecs: &Ecs<V>, e: Entity) -> (r: bool)
        ensures
            r == self.accepts(ecs@, e@),
    ;
}

/// Passes the entities that are alive and have a component under the key.
pub struct With {
    pub key: TypeKey,
}

/// Passes the entities that are not alive or have no component under the key.
pub struct Without {
    pub key: TypeKey,
}

impl With {
    /// The filter for `key`.
    pub fn new(key: TypeKey) -> (f: Self)
        ensures
            f.key == key,
    {
        With { key }
    }
}

impl Without {
    /// The filter for `key`.
    pub fn new(key: TypeKey) -> (f: Self)
        ensures
            f.key == key,
    {
        Without { key }
    }
}

impl<V> Filter<V> for With {
    open spec fn accepts(&self, world: World<V>, entity: u64) -> bool {
        world.component(self.key@, entity) is Some
    }

    fn matches(&self, ecs: &Ecs<V>, e: Entity) -> (r: bool) {
        ecs.has(e, self.key)
    }
}

impl<V> Filter<V> for Without {
    open spec fn accepts(&self, world: World<V>, entity: u64) -> bool {
        world.component(self.key@, entity) is None
    }

    fn matches(&self, ecs: &Ecs<V>, e: Entity) -> (r: bool) {
        !ecs.has(e, self.key)
    }
}

/// Whether `items` lists, each exactly once, the entities that satisfy `keep`
/// together with their component under `key`.
pub open spec fn lists_one<V>(
    world: World<V>,
    key: u64,
    keep: spec_fn(u64) -> bool,
    items: Seq<(Entity, &V)>,
) -> bool {
    &&& forall|i: int|
        0 <= i < items.len() ==> keep((#[trigger] items[i]).0@) && world.component(
            key,
            items[i].0@,
        ) == Some(*items[i].1)
    &&& forall|i: int, j: int|
        0 <= i < items.len() && 0 <= j < items.len() && i != j ==> (#[trigger] items[i]).0 != (
        #[trigger] items[j]).0
    &&& forall|e: Entity|
        keep(e@) && world.component(key, e@) is Some ==> exists|i: int|
            0 <= i < items.len() && (#[trigger] items[i]).0 == e
}

/// Whether `items` lists, each exactly once, the entities that satisfy `keep`
/// together with their components under `key_a` and `key_b`.
pub open spec fn lists_two<V>(
    world: World<V>,
    key_a: u64,
    key_b: u64,
    keep: spec_fn(u64) -> bool,
    items: Seq<(Entity, &V, &V)>,
) -> bool {
    &&& forall|i: int|
        0 <= i < items.len() ==> keep((#[trigger] items[i]).0@) && world.component(
            key_a,
            items[i].0@,
        ) == Some(*items[i].1) && world.component(key_b, items[i].0@) == Some(*items[i].2)
    &&& forall|i: int, j: int|
        0 <= i < items.len() && 0 <= j < items.len() && i != j ==> (#[trigger] items[i]).0 != (
        #[trigger] items[j]).0
    &&& forall|e: Entity|
        keep(e@) && world.component(key_a, e@) is Some && world.component(key_b, e@) is Some
            ==> exists|i: int| 0 <= i < items.len() && (#[trigger] items[i]).0 == e
}

/// A query over the table under one key.
pub struct Query<'w, V> {
    ecs: &'w Ecs<V>,
    key: TypeKey,
}

impl<'w, V> Query<'w, V> {
    /// The world that the query reads.
    pub closed spec fn world(&self) -> World<V> {
        self.ecs@
    }

    /// The key of the table that the query walks.
    pub closed spec fn key(&self) -> TypeKey {
        self.key
    }

    /// The query over the table under `key` in `ecs`.
    pub fn new(ecs: &'w Ecs<V>, key: TypeKey) -> (q: Self)
        ensures
            q.world() == ecs@,
            q.key() == key,
    {
        Query { ecs, key }
    }

    /// The alive entities that have a component under the key, each exactly
    /// once with its component, in no particular order.
    pub fn iter(&self) -> (items: Vec<(Entity, &'w V)>)
        ensures
            lists_one(self.world(), self.key()@, |e: u64| true, items@),
    {
        let found = self.ecs.entities_with(self.key);
        let ghost keep = |e: u64| true;
        let mut items: Vec<(Entity, &'w V)> = Vec::new();
        let mut i: usize = 0;
        while i < found.len()
            invariant
                i <= found@.len(),
                items@.len() == i,
                found@.no_duplicates(),
                forall|e: Entity|
                    found@.contains(e) <==> self.ecs@.component(self.key@, e@) is Some,
                forall|k: int| 0 <= k < i ==> (#[trigger] items@[k]).0 == found@[k],
                forall|k: int|
                    0 <= k < i ==> self.ecs@.component(self.key@, (#[trigger] items@[k]).0@)
                        == Some(*items@[k].1),
            decreases found@.len() - i,
        {
            let e = found[i];
            assert(found@.contains(e));
            match self.ecs.get(e, self.key) {
                Some(c) => {
                    items.push((e, c));
                },
                None => {
                    assert(false);
                },
            }
            i += 1;
        }
        proof {
            assert forall|e: Entity|
                keep(e@) && self.ecs@.component(self.key@, e@) is Some implies exists|k: int|
                0 <= k < items@.len() && (#[trigger] items@[k]).0 == e by {
                assert(found@.contains(e));
                let k = choose|k: int| 0 <= k < found@.len() && found@[k] == e;
                assert(items@[k].0 == e);
            }
        }
        items
    }

    /// Like [`Query::iter`], restricted to the entities that pass `filter`.
    pub fn iter_with<F: Filter<V>>(&self, filter: F) -> (items: Vec<(Entity, &'w V)>)
        ensures
            lists_one(
                self.world(),
                self.key()@,
                |e: u64| filter.accepts(self.world(), e),
                items@,
            ),
    {
        let found = self.ecs.entities_with(self.key);
        let ghost keep = |e: u64| filter.accepts(self.ecs@, e);
        let ghost src: Seq<int> = Seq::empty();
        let mut items: Vec<(Entity, &'w V)> = Vec::new();
        let mut i: usize = 0;
        while i < found.len()
            invariant
                i <= found@.len(),
                found@.no_duplicates(),
                forall|e: Entity|
                    found@.contains(e) <==> self.ecs@.component(self.key@, e@) is Some,
                src.len() == items@.len(),
                forall|k: int|
                    0 <= k < items@.len() ==> 0 <= #[trigger] src[k] < i && found@[src[k]]
                        == items@[k].0,
                forall|a: int, b: int|
                    0 <= a < b < items@.len() ==> #[trigger] src[a] < #[trigger] src[b],
                forall|k: int|
                    0 <= k < items@.len() ==> filter.accepts(
                        self.ecs@,
                        (#[trigger] items@[k]).0@,
                    ) && self.ecs@.component(self.key@, items@[k].0@) == Some(*items@[k].1),
                forall|j: int|
                    0 <= j < i && filter.accepts(self.ecs@, (#[trigger] found@[j])@) ==> exists|
                        k: int,
                    |
                        0 <= k < items@.len() && (#[trigger] items@[k]).0 == found@[j],
            decreases found@.len() - i,
        {
            let e = found[i];
            assert(found@.contains(e));
            if filter.matches(self.ecs, e) {
                match self.ecs.get(e, self.key) {
                    Some(c) => {
                        let ghost before = items@;
                        items.push((e, c));
                        proof {
                            src = src.push(i as int);
                            assert forall|j: int|
                                0 <= j < i + 1 && filter.accepts(
                                    self.ecs@,
                                    (#[trigger] found@[j])@,
                                ) implies exists|k: int|
                                0 <= k < items@.len() && (#[trigger] items@[k]).0 == found@[j] by {
                                if j < i {
                                    let k = choose|k: int|
                                        0 <= k < before.len() && (#[trigger] before[k]).0
                                            == found@[j];
                                    assert(items@[k].0 == found@[j]);
                                } else {
                                    assert(items@[items@.len() - 1].0 == found@[j]);
                                }
                            }
                        }
                    },
                    None => {
                        assert(false);
                    },
                }
            }
            i += 1;
        }
        proof {
            assert forall|a: int, b: int|
                0 <= a < items@.len() && 0 <= b < items@.len() && a != b implies (
            #[trigger] items@[a]).0 != (#[trigger] items@[b]).0 by {
                assert(src[a] != src[b]);
            }
            assert forall|e: Entity|
                keep(e@) && self.ecs@.component(self.key@, e@) is Some implies exists|k: int|
                0 <= k < items@.len() && (#[trigger] items@[k]).0 == e by {
                assert(found@.contains(e));
            }
        }
        items
    }
}

impl<V> Ecs<V> {
    /// The query over the table under `key`.
    pub fn query<'w>(&'w self, key: TypeKey) -> (q: Query<'w, V>)
        ensures
            q.world() == self@,
            q.key() == key,
    {
        Query::new(self, key)
    }
}

/// Passes every entity.
pub struct Everything;

impl<V> Filter<V> for Everything {
    open spec fn accepts(&self, world: World<V>, entity: u64) -> bool {
        true
    }

    fn matches(&self, ecs: &Ecs<V>, e: Entity) -> (r: bool) {
        true
    }
}

/// A query over the tables under two keys.
pub struct Query2<'w, V> {
    ecs: &'w Ecs<V>,
    key_a: TypeKey,
    key_b: TypeKey,
}

impl<'w, V> Query2<'w, V> {
    /// The world that the query reads.
    pub closed spec fn world(&self) -> World<V> {
        self.ecs@
    }

    /// The keys of the two tables that the query joins.
    pub closed spec fn keys(&self) -> (TypeKey, TypeKey) {
        (self.key_a, self.key_b)
    }

    /// The query over the tables under `key_a` and `key_b` in `ecs`.
    pub fn new(ecs: &'w Ecs<V>, key_a: TypeKey, key_b: TypeKey) -> (q: Self)
        ensures
            q.world() == ecs@,
            q.keys() == (key_a, key_b),
    {
        Query2 { ecs, key_a, key_b }
    }

    /// The alive entities that have a component under both keys, each exactly
    /// once with both components, in no particular order. The table with
    /// fewer entries is the one that is walked.
    pub fn iter(&self) -> (items: Vec<(Entity, &'w V, &'w V)>)
        ensures
            lists_two(self.world(), self.keys().0@, self.keys().1@, |e: u64| true, items@),
    {
        self.iter_with(Everything)
    }

    /// Like [`Query2::iter`], restricted to the entities that pass `filter`.
    pub fn iter_with<F: Filter<V>>(&self, filter: F) -> (items: Vec<(Entity, &'w V, &'w V)>)
        ensures
            lists_two(
                self.world(),
                self.keys().0@,
                self.keys().1@,
                |e: u64| filter.accepts(self.world(), e),
                items@,
            ),
    {
        let ghost keep = |e: u64| filter.accepts(self.ecs@, e);
        let mut items: Vec<(Entity, &'w V, &'w V)> = Vec::new();
        let walk_a = match (self.ecs.get_store(self.key_a), self.ecs.get_store(self.key_b)) {
            (Some(sa), Some(sb)) => sa.len() <= sb.len(),
            _ => {
                return items;
            },
        };
        let found = if walk_a {
            self.ecs.entities_with(self.key_a)
        } else {
            self.ecs.entities_with(self.key_b)
        };
        let ghost src: Seq<int> = Seq::empty();
        let ghost walked = if walk_a {
            self.key_a@
        } else {
            self.key_b@
        };
        let mut i: usize = 0;
        while i < found.len()
            invariant
                i <= found@.len(),
                found@.no_duplicates(),
                walked == self.key_a@ || walked == self.key_b@,
                forall|e: Entity| found@.contains(e) <==> self.ecs@.component(walked, e@) is Some,
                src.len() == items@.len(),
                forall|k: int|
                    0 <= k < items@.len() ==> 0 <= #[trigger] src[k] < i && found@[src[k]]
                        == items@[k].0,
                forall|a: int, b: int|
                    0 <= a < b < items@.len() ==> #[trigger] src[a] < #[trigger] src[b],
                forall|k: int|
                    0 <= k < items@.len() ==> filter.accepts(
                        self.ecs@,
                        (#[trigger] items@[k]).0@,
                    ) && self.ecs@.component(self.key_a@, items@[k].0@) == Some(*items@[k].1)
                        && self.ecs@.component(self.key_b@, items@[k].0@) == Some(*items@[k].2),
                forall|j: int|
                    0 <= j < i && filter.accepts(self.ecs@, (#[trigger] found@[j])@)
                        && self.ecs@.component(self.key_a@, found@[j]@) is Some
                        && self.ecs@.component(self.key_b@, found@[j]@) is Some ==> exists|k: int|
                        0 <= k < items@.len() && (#[trigger] items@[k]).0 == found@[j],
            decreases found@.len() - i,
        {
            let e = found[i];
            if filter.matches(self.ecs, e) {
                match (self.ecs.get(e, self.key_a), self.ecs.get(e, self.key_b)) {
                    (Some(a), Some(b)) => {
                        let ghost before = items@;
                        items.push((e, a, b));
                        proof {
                            src = src.push(i as int);
                            assert forall|j: int|
                                0 <= j < i + 1 && filter.accepts(
                                    self.ecs@,
                                    (#[trigger] found@[j])@,
                                ) && self.ecs@.component(self.key_a@, found@[j]@) is Some
                                    && self.ecs@.component(
                                    self.key_b@,
                                    found@[j]@,
                                ) is Some implies exists|k: int|
                                0 <= k < items@.len() && (#[trigger] items@[k]).0 == found@[j] by {
                                if j < i {
                                    let k = choose|k: int|
                                        0 <= k < before.len() && (#[trigger] before[k]).0
                                            == found@[j];
                                    assert(items@[k].0 == found@[j]);
                                } else {
                                    assert(items@[items@.len() - 1].0 == found@[j]);
                                }
                            }
                        }
                    },
                    _ => {},
                }
            }
            i += 1;
        }
        proof {
            assert forall|a: int, b: int|
                0 <= a < items@.len() && 0 <= b < items@.len() && a != b implies (
            #[trigger] items@[a]).0 != (#[trigger] items@[b]).0 by {
                assert(src[a] != src[b]);
            }
            assert forall|e: Entity|
                keep(e@) && self.ecs@.component(self.key_a@, e@) is Some && self.ecs@.component(
                    self.key_b@,
                    e@,
                ) is Some implies exists|k: int|
                0 <= k < items@.len() && (#[trigger] items@[k]).0 == e by {
                assert(found@.contains(e));
            }
        }
        items
    }
}

impl<V> Ecs<V> {
    /// The query over the tables under `key_a` and `key_b`.
    pub fn query2<'w>(&'w self, key_a: TypeKey, key_b: TypeKey) -> (q: Query2<'w, V>)
        ensures
            q.world() == self@,
            q.keys() == (key_a, key_b),
    {
        Query2::new(self, key_a, key_b)
    }
}

} // verus!
