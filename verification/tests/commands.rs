use aubrey::commands::{insert_erased, try_create_and_insert};
use aubrey::entity::{KEY_F32, KEY_I32, KEY_U32, KEY_USIZE};
use aubrey::{Commands, ComponentId, Ecs, Entity, Single, TypeKey};

const POS: TypeKey = TypeKey(10);
const VEL: TypeKey = TypeKey(11);

#[test]
fn queued_spawn_is_not_alive_until_applied() {
    let mut ecs: Ecs<i64> = Ecs::new();
    let mut cmds = Commands::new();
    let e = cmds.spawn_empty(&mut ecs);
    assert_eq!(e, Entity::new(0));
    assert!(!ecs.is_alive(e));
    assert_eq!(cmds.len(), 1);
    cmds.apply(&mut ecs);
    assert!(ecs.is_alive(e));
    assert_eq!(cmds.len(), 0);
}

#[test]
fn queued_spawn_reserves_its_id_at_once() {
    let mut ecs: Ecs<i64> = Ecs::new();
    let mut cmds = Commands::new();
    let a = cmds.spawn_empty(&mut ecs);
    let b = ecs.spawn_empty();
    let c = cmds.spawn_empty(&mut ecs);
    assert_eq!((a.id(), b.id(), c.id()), (0, 1, 2));
}

#[test]
fn queued_insert_establishes_table_and_commits_on_apply() {
    let mut ecs: Ecs<i64> = Ecs::new();
    let e = ecs.spawn_empty();
    let mut cmds = Commands::new();
    cmds.insert(&mut ecs, e, POS, 5);
    assert!(ecs.has_store(POS));
    assert_eq!(ecs.get(e, POS), None);
    assert!(cmds.can_apply(&ecs));
    cmds.apply(&mut ecs);
    assert_eq!(ecs.get(e, POS), Some(&5));
}

#[test]
fn commands_apply_in_fifo_order() {
    let mut ecs: Ecs<i64> = Ecs::new();
    let e = ecs.spawn_empty();
    let mut cmds = Commands::new();
    cmds.insert(&mut ecs, e, POS, 1);
    cmds.insert(&mut ecs, e, POS, 2);
    cmds.insert(&mut ecs, e, POS, 3);
    cmds.apply(&mut ecs);
    assert_eq!(ecs.get(e, POS), Some(&3));
}

#[test]
fn insert_before_spawn_in_queue_keeps_value() {
    let mut ecs: Ecs<i64> = Ecs::new();
    let mut cmds = Commands::new();
    let e = ecs.reserve_entity();
    cmds.insert(&mut ecs, e, POS, 4);
    cmds.apply(&mut ecs);
    assert_eq!(ecs.get(e, POS), None);
    let mut later = Commands::new();
    later.despawn(e);
    later.apply(&mut ecs);
    assert_eq!(ecs.get(e, POS), None);
    assert_eq!(ecs.get_store(POS).map(|s| s.contains(e)), Some(false));
}

#[test]
fn queued_state_machine_reserved_alive_with_components() {
    let mut ecs: Ecs<i64> = Ecs::new();
    let mut cmds = Commands::new();
    let e = cmds.spawn_one(&mut ecs, POS, 7);
    cmds.insert(&mut ecs, e, VEL, 8);
    assert!(!ecs.is_alive(e));
    assert_eq!(cmds.len(), 3);
    cmds.apply(&mut ecs);
    assert!(ecs.is_alive(e));
    assert_eq!(ecs.get(e, POS), Some(&7));
    assert_eq!(ecs.get(e, VEL), Some(&8));
}

#[test]
fn queued_despawn_removes_entity_and_purges_tables() {
    let mut ecs: Ecs<i64> = Ecs::new();
    let c = ComponentId(0);
    let a = ecs.spawn_one(POS, 1);
    let b = ecs.spawn_one(POS, 2);
    ecs.insert_dyn(a, c, 3);
    let mut cmds = Commands::new();
    cmds.despawn(a);
    cmds.despawn(a);
    cmds.apply(&mut ecs);
    assert!(!ecs.is_alive(a));
    assert_eq!(ecs.get_store(POS).map(|s| s.len()), Some(1));
    assert_eq!(ecs.get(b, POS), Some(&2));
    assert_eq!(ecs.get(a, POS), None);
    assert_eq!(ecs.get_store(POS).map(|s| s.contains(a)), Some(false));
    assert_eq!(ecs.get_dyn(a, c), None);
    assert!(ecs.query_dyn(&[c]).is_empty());
}

#[test]
fn queued_despawn_purges_stale_entries_of_dead_entity() {
    let mut ecs: Ecs<i64> = Ecs::new();
    let ghost = ecs.reserve_entity();
    ecs.insert(ghost, POS, 1);
    let mut cmds = Commands::new();
    cmds.despawn(ghost);
    cmds.apply(&mut ecs);
    assert_eq!(ecs.get_store(POS).map(|s| s.len()), Some(0));
}

#[test]
fn queued_insert_dyn_needs_alive_entity_at_apply_time() {
    let mut ecs: Ecs<i64> = Ecs::new();
    let c = ComponentId(0);
    let mut cmds = Commands::new();
    let reserved = ecs.reserve_entity();
    cmds.insert_dyn(&mut ecs, reserved, c, 1);
    let spawned = cmds.spawn_empty(&mut ecs);
    cmds.insert_dyn(&mut ecs, spawned, c, 2);
    cmds.apply(&mut ecs);
    assert_eq!(ecs.get_dyn(spawned, c), Some(&2));
    assert_eq!(ecs.get_dyn(reserved, c), None);
    assert_eq!(ecs.query_dyn(&[c]), vec![spawned]);
}

#[test]
fn apply_twice_is_noop() {
    let mut ecs: Ecs<i64> = Ecs::new();
    let mut cmds = Commands::new();
    let e = cmds.spawn_one(&mut ecs, POS, 7);
    cmds.apply(&mut ecs);
    let alive_before = ecs.query_dyn(&[]);
    cmds.apply(&mut ecs);
    assert_eq!(cmds.len(), 0);
    assert_eq!(ecs.query_dyn(&[]), alive_before);
    assert_eq!(ecs.get(e, POS), Some(&7));
    assert_eq!(ecs.spawn_empty().id(), 1);
}

#[test]
fn apply_of_empty_queue_leaves_world_unchanged() {
    let mut ecs: Ecs<i64> = Ecs::new();
    let e = ecs.spawn_one(POS, 1);
    let mut cmds: Commands<i64> = Commands::default();
    cmds.apply(&mut ecs);
    assert!(ecs.is_alive(e));
    assert_eq!(ecs.get(e, POS), Some(&1));
}

#[test]
fn can_apply_rejects_insert_without_table() {
    let mut home: Ecs<i64> = Ecs::new();
    let other: Ecs<i64> = Ecs::new();
    let e = home.spawn_empty();
    let mut cmds = Commands::new();
    cmds.insert(&mut home, e, POS, 1);
    assert!(cmds.can_apply(&home));
    assert!(!cmds.can_apply(&other));
}

#[test]
fn can_apply_accepts_primitive_keys_without_table() {
    let mut home: Ecs<i64> = Ecs::new();
    let mut other: Ecs<i64> = Ecs::new();
    let e = other.spawn_empty();
    let mut cmds = Commands::new();
    cmds.insert(&mut home, e, TypeKey(KEY_U32), 9);
    cmds.despawn(Entity::new(77));
    assert!(cmds.can_apply(&other));
    cmds.apply(&mut other);
    assert!(other.has_store(TypeKey(KEY_U32)));
    assert_eq!(other.get(e, TypeKey(KEY_U32)), Some(&9));
}

#[test]
fn insert_erased_uses_established_table() {
    let mut ecs: Ecs<i64> = Ecs::new();
    let e = ecs.spawn_empty();
    ecs.ensure_store(POS);
    insert_erased(&mut ecs, e, POS, 3);
    assert_eq!(ecs.get(e, POS), Some(&3));
}

#[test]
fn insert_erased_creates_tables_of_primitive_types() {
    for key in [KEY_I32, KEY_U32, KEY_F32, KEY_USIZE] {
        let mut ecs: Ecs<i64> = Ecs::new();
        let e = ecs.spawn_empty();
        assert!(TypeKey(key).is_primitive());
        insert_erased(&mut ecs, e, TypeKey(key), 1);
        assert_eq!(ecs.get(e, TypeKey(key)), Some(&1));
    }
    assert!(!POS.is_primitive());
}

#[test]
fn try_create_and_insert_hands_value_back_on_other_key() {
    let mut ecs: Ecs<i64> = Ecs::new();
    let e = ecs.spawn_empty();
    let r = try_create_and_insert(&mut ecs, e, TypeKey(KEY_U32), TypeKey(KEY_I32), 5);
    assert_eq!(r, Err(5));
    assert!(!ecs.has_store(TypeKey(KEY_U32)));
    let r = try_create_and_insert(&mut ecs, e, TypeKey(KEY_U32), TypeKey(KEY_U32), 5);
    assert_eq!(r, Ok(()));
    assert_eq!(ecs.get(e, TypeKey(KEY_U32)), Some(&5));
}

#[test]
fn world_slot_holds_one_command_buffer() {
    let mut ecs: Ecs<i64> = Ecs::new();
    assert!(ecs.take_commands().is_none());
    ecs.commands().despawn(Entity::new(3));
    ecs.commands().despawn(Entity::new(4));
    assert_eq!(ecs.commands().len(), 2);
    ecs.put_commands(Commands::new());
    assert_eq!(ecs.commands().len(), 0);
    ecs.commands().despawn(Entity::new(5));
    let taken = ecs.take_commands();
    assert_eq!(taken.map(|c| c.len()), Some(1));
    assert!(ecs.take_commands().is_none());
}

#[test]
fn single_bundle_inserts_one_component() {
    let mut ecs: Ecs<i64> = Ecs::new();
    let e = ecs.spawn(Single(POS, 4));
    assert!(ecs.is_alive(e));
    assert_eq!(ecs.get(e, POS), Some(&4));
}

#[test]
fn tuple_bundles_insert_in_order() {
    let mut ecs: Ecs<i64> = Ecs::new();
    let e = ecs.spawn((Single(POS, 1), Single(VEL, 2), Single(POS, 3)));
    assert_eq!(ecs.get(e, POS), Some(&3));
    assert_eq!(ecs.get(e, VEL), Some(&2));
    let f = ecs.spawn((
        Single(TypeKey(20), 0),
        Single(TypeKey(21), 1),
        Single(TypeKey(22), 2),
        Single(TypeKey(23), 3),
        Single(TypeKey(24), 4),
    ));
    for i in 0..5 {
        assert_eq!(ecs.get(f, TypeKey(20 + i)), Some(&(i as i64)));
    }
    let g = ecs.spawn((Single(POS, 1), Single(VEL, 2)));
    let h = ecs.spawn((Single(POS, 1), Single(VEL, 2), Single(TypeKey(20), 3), Single(TypeKey(21), 4)));
    assert_eq!(ecs.get(g, VEL), Some(&2));
    assert_eq!(ecs.get(h, TypeKey(21)), Some(&4));
}

#[test]
fn queued_bundle_spawn_commits_on_apply() {
    let mut ecs: Ecs<i64> = Ecs::new();
    let mut cmds = Commands::new();
    let e = cmds.spawn(&mut ecs, (Single(POS, 1), Single(VEL, 2)));
    assert!(ecs.has_store(POS) && ecs.has_store(VEL));
    assert!(!ecs.is_alive(e));
    assert_eq!(cmds.len(), 3);
    cmds.apply(&mut ecs);
    assert!(ecs.is_alive(e));
    assert_eq!(ecs.get(e, POS), Some(&1));
    assert_eq!(ecs.get(e, VEL), Some(&2));
}
