use aubrey::{ComponentId, Ecs, Entity, Registry, ResourceId};

fn sorted(mut v: Vec<Entity>) -> Vec<u64> {
    v.sort_by_key(|e| e.id());
    v.into_iter().map(|e| e.id()).collect()
}

#[test]
fn registry_issues_ids_once_per_name() {
    let mut r = Registry::new();
    let a = r.register_component("health");
    let b = r.register_component("mana");
    let again = r.register_component("health");
    assert_eq!(a, ComponentId(0));
    assert_eq!(b, ComponentId(1));
    assert_eq!(again, a);
    assert_eq!(r.get_component("health"), Some(a));
    assert_eq!(r.get_component("mana"), Some(b));
    assert_eq!(r.get_component("stamina"), None);
}

#[test]
fn registry_counts_resources_apart_from_components() {
    let mut r = Registry::new();
    let c = r.register_component("time");
    let x = r.register_resource("time");
    let y = r.register_resource("score");
    assert_eq!(c, ComponentId(0));
    assert_eq!(x, ResourceId(0));
    assert_eq!(y, ResourceId(1));
    assert_eq!(r.register_resource("time"), x);
    assert_eq!(r.get_resource("score"), Some(y));
    assert_eq!(r.get_resource("health"), None);
    assert_eq!(r.get_component("score"), None);
}

#[test]
fn registry_is_reached_through_the_world() {
    let mut ecs: Ecs<i64> = Ecs::new();
    let a = ecs.registry().register_component("a");
    let b = ecs.registry().register_component("b");
    assert_ne!(a, b);
    assert_eq!(ecs.registry().get_component("a"), Some(a));
}

#[test]
fn insert_dyn_on_dead_entity_is_noop() {
    let mut ecs: Ecs<i64> = Ecs::new();
    let c = ComponentId(3);
    let ghost = ecs.reserve_entity();
    ecs.insert_dyn(ghost, c, 7);
    assert_eq!(ecs.get_dyn(ghost, c), None);
    assert!(!ecs.has_dyn(ghost, c));
    assert_eq!(ecs.query_rows_dyn(&[c]).len(), 0);
    assert!(ecs.query_dyn(&[c]).is_empty());
}

#[test]
fn insert_dyn_then_get_dyn() {
    let mut ecs: Ecs<i64> = Ecs::new();
    let c = ComponentId(3);
    let e = ecs.spawn_empty();
    ecs.insert_dyn(e, c, 7);
    assert_eq!(ecs.get_dyn(e, c), Some(&7));
    assert!(ecs.has_dyn(e, c));
    ecs.insert_dyn(e, c, 8);
    assert_eq!(ecs.get_dyn(e, c), Some(&8));
    if let Some(v) = ecs.get_dyn_mut(e, c) {
        *v = 9;
    }
    assert_eq!(ecs.get_dyn(e, c), Some(&9));
    assert!(ecs.get_dyn_mut(e, ComponentId(4)).is_none());
}

#[test]
fn remove_dyn_drops_one_entry() {
    let mut ecs: Ecs<i64> = Ecs::new();
    let c = ComponentId(0);
    let a = ecs.spawn_empty();
    let b = ecs.spawn_empty();
    ecs.insert_dyn(a, c, 1);
    ecs.insert_dyn(b, c, 2);
    ecs.remove_dyn(a, c);
    ecs.remove_dyn(a, c);
    ecs.remove_dyn(a, ComponentId(9));
    assert!(!ecs.has_dyn(a, c));
    assert_eq!(ecs.get_dyn(b, c), Some(&2));
}

#[test]
fn query_dyn_empty_list_is_alive_set() {
    let mut ecs: Ecs<i64> = Ecs::new();
    let a = ecs.spawn_empty();
    let b = ecs.spawn_empty();
    let _reserved = ecs.reserve_entity();
    let c = ecs.spawn_empty();
    ecs.despawn(b);
    assert_eq!(sorted(ecs.query_dyn(&[])), vec![a.id(), c.id()]);
}

#[test]
fn query_dyn_pair_is_intersection() {
    let mut ecs: Ecs<i64> = Ecs::new();
    let x = ComponentId(0);
    let y = ComponentId(1);
    let mut both = Vec::new();
    for i in 0..12u64 {
        let e = ecs.spawn_empty();
        if i % 2 == 0 {
            ecs.insert_dyn(e, x, i as i64);
        }
        if i % 3 == 0 {
            ecs.insert_dyn(e, y, -(i as i64));
        }
        if i % 6 == 0 {
            both.push(e.id());
        }
    }
    assert_eq!(sorted(ecs.query_dyn(&[x, y])), both);
    assert_eq!(sorted(ecs.query_dyn(&[y, x])), both);
    assert_eq!(sorted(ecs.query_dyn(&[x])), vec![0, 2, 4, 6, 8, 10]);
    assert_eq!(sorted(ecs.query_dyn(&[x, x])), vec![0, 2, 4, 6, 8, 10]);
}

#[test]
fn query_dyn_skips_dead_entities() {
    let mut ecs: Ecs<i64> = Ecs::new();
    let x = ComponentId(0);
    let a = ecs.spawn_empty();
    let b = ecs.spawn_empty();
    ecs.insert_dyn(a, x, 1);
    ecs.insert_dyn(b, x, 2);
    ecs.despawn(a);
    assert_eq!(sorted(ecs.query_dyn(&[x])), vec![b.id()]);
}

#[test]
fn query_dyn_with_unknown_component_is_empty() {
    let mut ecs: Ecs<i64> = Ecs::new();
    let x = ComponentId(0);
    let e = ecs.spawn_empty();
    ecs.insert_dyn(e, x, 1);
    assert!(ecs.query_dyn(&[x, ComponentId(5)]).is_empty());
    assert!(ecs.query_dyn(&[ComponentId(5)]).is_empty());
}

#[test]
fn smallest_dyn_picks_first_table_with_fewest_entries() {
    let mut ecs: Ecs<i64> = Ecs::new();
    let big = ComponentId(0);
    let small = ComponentId(1);
    let other_small = ComponentId(2);
    for i in 0..5 {
        let e = ecs.spawn_empty();
        ecs.insert_dyn(e, big, i);
        if i < 2 {
            ecs.insert_dyn(e, small, i);
            ecs.insert_dyn(e, other_small, i);
        }
    }
    assert_eq!(ecs.smallest_dyn(&[big, small, other_small]), 1);
    assert_eq!(ecs.smallest_dyn(&[big, other_small, small]), 1);
    assert_eq!(ecs.smallest_dyn(&[big]), 0);
    assert_eq!(ecs.smallest_dyn(&[big, ComponentId(9), small]), 1);
}

#[test]
fn has_all_dyn_checks_alive_and_every_table() {
    let mut ecs: Ecs<i64> = Ecs::new();
    let x = ComponentId(0);
    let y = ComponentId(1);
    let e = ecs.spawn_empty();
    ecs.insert_dyn(e, x, 1);
    assert!(ecs.has_all_dyn(e, &[]));
    assert!(ecs.has_all_dyn(e, &[x]));
    assert!(!ecs.has_all_dyn(e, &[x, y]));
    ecs.insert_dyn(e, y, 2);
    assert!(ecs.has_all_dyn(e, &[x, y]));
    ecs.despawn(e);
    assert!(!ecs.has_all_dyn(e, &[]));
}

#[test]
fn query_rows_dyn_pairs_entities_with_columns_in_request_order() {
    let mut ecs: Ecs<i64> = Ecs::new();
    let x = ComponentId(0);
    let y = ComponentId(1);
    let a = ecs.spawn_empty();
    let b = ecs.spawn_empty();
    let c = ecs.spawn_empty();
    ecs.insert_dyn(a, x, 10);
    ecs.insert_dyn(a, y, 11);
    ecs.insert_dyn(b, x, 20);
    ecs.insert_dyn(c, x, 30);
    ecs.insert_dyn(c, y, 31);
    let mut rows: Vec<(u64, Vec<i64>)> = ecs
        .query_rows_dyn(&[y, x])
        .into_iter()
        .map(|(e, cols)| (e.id(), cols.into_iter().copied().collect()))
        .collect();
    rows.sort();
    assert_eq!(rows, vec![(a.id(), vec![11, 10]), (c.id(), vec![31, 30])]);
    let all = ecs.query_rows_dyn(&[]);
    assert_eq!(all.len(), 3);
    assert!(all.iter().all(|(_, cols)| cols.is_empty()));
}

#[test]
fn dynamic_resources_are_singletons() {
    let mut ecs: Ecs<i64> = Ecs::new();
    let id = ecs.registry().register_resource("score");
    assert_eq!(ecs.get_resource_dyn(id), None);
    ecs.insert_resource_dyn(id, 1);
    ecs.insert_resource_dyn(id, 2);
    assert_eq!(ecs.get_resource_dyn(id), Some(&2));
    if let Some(v) = ecs.get_resource_dyn_mut(id) {
        *v += 40;
    }
    assert_eq!(ecs.remove_resource_dyn(id), Some(42));
    assert_eq!(ecs.remove_resource_dyn(id), None);
    assert!(ecs.get_resource_dyn_mut(id).is_none());
}

#[test]
fn ensure_dyn_store_establishes_empty_table() {
    let mut ecs: Ecs<i64> = Ecs::new();
    let x = ComponentId(0);
    let e = ecs.spawn_empty();
    ecs.ensure_dyn_store(x);
    assert!(!ecs.has_dyn(e, x));
    assert!(ecs.query_dyn(&[x]).is_empty());
    ecs.insert_dyn(e, x, 1);
    ecs.ensure_dyn_store(x);
    assert_eq!(ecs.get_dyn(e, x), Some(&1));
}

#[test]
fn default_registry_knows_no_name() {
    let mut r = Registry::default();
    assert_eq!(r.component_count(), 0);
    assert_eq!(r.get_component("x"), None);
    assert_eq!(r.register_resource("x"), ResourceId(0));
    assert_eq!(r.resource_count(), 1);
}
