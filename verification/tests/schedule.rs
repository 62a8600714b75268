use aubrey::order::ScheduledSystem;
use aubrey::schedule::key;
use aubrey::{App, Ecs, Entity, Schedules, Stage, System, TypeKey};

const LOG: TypeKey = TypeKey(50);
const COUNT: TypeKey = TypeKey(51);

/// Appends its digit to the log resource each time it runs.
struct Mark(i64);

impl System<i64> for Mark {
    fn run(&mut self, ecs: &mut Ecs<i64>) {
        let old = ecs.get_resource(LOG).copied().unwrap_or(0);
        ecs.insert_resource(LOG, old * 10 + self.0);
    }
}

struct FnSystem<F>(F);

impl<F: FnMut(&mut Ecs<i64>) + Send> System<i64> for FnSystem<F> {
    fn run(&mut self, ecs: &mut Ecs<i64>) {
        (self.0)(ecs)
    }
}

fn log(ecs: &Ecs<i64>) -> i64 {
    ecs.get_resource(LOG).copied().unwrap_or(0)
}

#[test]
fn stage_names() {
    assert_eq!(key(Stage::PreStartup), "pre_startup");
    assert_eq!(key(Stage::Startup), "startup");
    assert_eq!(key(Stage::PostStartup), "post_startup");
    assert_eq!(key(Stage::First), "first");
    assert_eq!(key(Stage::PreUpdate), "pre_update");
    assert_eq!(key(Stage::Update), "update");
    assert_eq!(key(Stage::PostUpdate), "post_update");
    assert_eq!(key(Stage::Last), "last");
}

#[test]
fn systems_run_by_numeric_order() {
    let mut s: Schedules<i64> = Schedules::new();
    s.add_system_with_order(Stage::Update, 5, Box::new(Mark(1)));
    s.add_system_with_order(Stage::Update, -3, Box::new(Mark(2)));
    s.add_system(Stage::Update, Box::new(Mark(3)));
    assert_eq!(s.stage_order(Stage::Update), vec![1, 2, 0]);
    let mut ecs = Ecs::new();
    s.run_stage(&mut ecs, Stage::Update);
    assert_eq!(log(&ecs), 231);
}

#[test]
fn equal_order_runs_in_registration_order() {
    let mut s: Schedules<i64> = Schedules::new();
    for d in 1..=5 {
        s.add_system_with_order(Stage::Update, 7, Box::new(Mark(d)));
    }
    assert_eq!(s.stage_order(Stage::Update), vec![0, 1, 2, 3, 4]);
    let mut ecs = Ecs::new();
    s.run_stage(&mut ecs, Stage::Update);
    assert_eq!(log(&ecs), 12345);
}

#[test]
fn two_systems_with_equal_order_and_no_dependency() {
    let mut s: Schedules<i64> = Schedules::new();
    s.add_system_with_label(Stage::Update, "first", 0, Box::new(Mark(1)));
    s.add_system_with_label(Stage::Update, "second", 0, Box::new(Mark(2)));
    let mut ecs = Ecs::new();
    s.run_stage(&mut ecs, Stage::Update);
    assert_eq!(log(&ecs), 12);
}

#[test]
fn after_dependency_overrides_numeric_order() {
    let mut s: Schedules<i64> = Schedules::new();
    s.add_system_with_label(Stage::Update, "A", 10, Box::new(Mark(1)));
    s.add_system_with_deps(Stage::Update, Some("B"), &[], &["A"], 0, Box::new(Mark(2)));
    assert_eq!(s.stage_order(Stage::Update), vec![0, 1]);
    assert!(!s.stage_falls_back(Stage::Update));
    let mut ecs = Ecs::new();
    s.run_stage(&mut ecs, Stage::Update);
    assert_eq!(log(&ecs), 12);
}

#[test]
fn before_dependency_overrides_numeric_order() {
    let mut s: Schedules<i64> = Schedules::new();
    s.add_system_with_label(Stage::Update, "late", -5, Box::new(Mark(1)));
    s.add_system_with_deps(Stage::Update, None, &["late"], &[], 9, Box::new(Mark(2)));
    s.add_system_with_order(Stage::Update, 3, Box::new(Mark(3)));
    assert_eq!(s.stage_order(Stage::Update), vec![2, 1, 0]);
    let mut ecs = Ecs::new();
    s.run_stage(&mut ecs, Stage::Update);
    assert_eq!(log(&ecs), 321);
}

#[test]
fn shared_label_makes_every_holder_a_target() {
    let mut s: Schedules<i64> = Schedules::new();
    s.add_system_with_deps(Stage::Update, None, &[], &["io"], -1, Box::new(Mark(1)));
    s.add_system_with_label(Stage::Update, "io", 4, Box::new(Mark(2)));
    s.add_system_with_label(Stage::Update, "io", 2, Box::new(Mark(3)));
    assert_eq!(s.stage_order(Stage::Update), vec![2, 1, 0]);
}

#[test]
fn unblocked_candidates_are_picked_by_order_then_index() {
    let mut s: Schedules<i64> = Schedules::new();
    s.add_system_with_deps(Stage::Update, Some("c"), &[], &["a"], 0, Box::new(Mark(1)));
    s.add_system_with_label(Stage::Update, "a", 5, Box::new(Mark(2)));
    s.add_system_with_order(Stage::Update, 5, Box::new(Mark(3)));
    s.add_system_with_order(Stage::Update, 6, Box::new(Mark(4)));
    s.add_system_with_deps(Stage::Update, None, &[], &["c"], 1, Box::new(Mark(5)));
    assert_eq!(s.stage_order(Stage::Update), vec![1, 0, 4, 2, 3]);
}

#[test]
fn unknown_labels_constrain_nothing() {
    let mut s: Schedules<i64> = Schedules::new();
    s.add_system_with_deps(Stage::Update, Some("x"), &["nobody"], &["none"], 2, Box::new(Mark(1)));
    s.add_system_with_order(Stage::Update, 1, Box::new(Mark(2)));
    assert_eq!(s.stage_order(Stage::Update), vec![1, 0]);
    assert!(!s.stage_falls_back(Stage::Update));
}

#[test]
fn mutual_blockers_fall_back_to_numeric_order() {
    let mut s: Schedules<i64> = Schedules::new();
    s.add_system_with_deps(Stage::Update, Some("A"), &["B"], &[], 3, Box::new(Mark(1)));
    s.add_system_with_deps(Stage::Update, Some("B"), &["A"], &[], 1, Box::new(Mark(2)));
    s.add_system_with_order(Stage::Update, 2, Box::new(Mark(3)));
    assert!(s.stage_falls_back(Stage::Update));
    assert_eq!(s.stage_order(Stage::Update), vec![1, 2, 0]);
    let mut ecs = Ecs::new();
    s.run_stage(&mut ecs, Stage::Update);
    assert_eq!(log(&ecs), 231);
}

#[test]
fn mutual_blockers_with_equal_order_run_in_registration_order() {
    let mut s: Schedules<i64> = Schedules::new();
    s.add_system_with_deps(Stage::Update, Some("A"), &["B"], &[], 0, Box::new(Mark(1)));
    s.add_system_with_deps(Stage::Update, Some("B"), &["A"], &[], 0, Box::new(Mark(2)));
    let mut ecs = Ecs::new();
    s.run_stage(&mut ecs, Stage::Update);
    assert_eq!(log(&ecs), 12);
}

#[test]
fn self_dependency_falls_back() {
    let mut s: Schedules<i64> = Schedules::new();
    s.add_system_with_order(Stage::Update, 1, Box::new(Mark(1)));
    s.add_system_with_deps(Stage::Update, Some("me"), &[], &["me"], 0, Box::new(Mark(2)));
    assert!(s.stage_falls_back(Stage::Update));
    assert_eq!(s.stage_order(Stage::Update), vec![1, 0]);
}

#[test]
fn consecutive_runs_use_identical_sequences() {
    let mut s: Schedules<i64> = Schedules::new();
    s.add_system_with_deps(Stage::Update, Some("c"), &[], &["a"], 0, Box::new(Mark(1)));
    s.add_system_with_label(Stage::Update, "a", 5, Box::new(Mark(2)));
    s.add_system_with_order(Stage::Update, 5, Box::new(Mark(3)));
    let before = s.stage_order(Stage::Update);
    let mut ecs = Ecs::new();
    s.run_stage(&mut ecs, Stage::Update);
    let first = log(&ecs);
    assert_eq!(s.stage_order(Stage::Update), before);
    ecs.insert_resource(LOG, 0);
    s.run_stage(&mut ecs, Stage::Update);
    assert_eq!(log(&ecs), first);
    assert_eq!(first, 213);
}

#[test]
fn stages_keep_their_own_systems() {
    let mut s: Schedules<i64> = Schedules::new();
    s.add_system(Stage::First, Box::new(Mark(1)));
    s.add_system(Stage::Last, Box::new(Mark(2)));
    s.add_system(Stage::Last, Box::new(Mark(3)));
    assert_eq!(s.system_count(Stage::First), 1);
    assert_eq!(s.system_count(Stage::Last), 2);
    assert_eq!(s.system_count(Stage::Update), 0);
    assert!(s.stage_order(Stage::Update).is_empty());
}

#[test]
fn frame_runs_stages_in_fixed_order_and_startup_once() {
    let mut s: Schedules<i64> = Schedules::new();
    s.add_system(Stage::Last, Box::new(Mark(8)));
    s.add_system(Stage::PostUpdate, Box::new(Mark(7)));
    s.add_system(Stage::Update, Box::new(Mark(6)));
    s.add_system(Stage::PreUpdate, Box::new(Mark(5)));
    s.add_system(Stage::First, Box::new(Mark(4)));
    s.add_system(Stage::PostStartup, Box::new(Mark(3)));
    s.add_system(Stage::Startup, Box::new(Mark(2)));
    s.add_system(Stage::PreStartup, Box::new(Mark(1)));
    let mut ecs = Ecs::new();
    assert!(!s.ran_startup());
    s.run_frame(&mut ecs);
    assert!(s.ran_startup());
    assert_eq!(log(&ecs), 12345678);
    ecs.insert_resource(LOG, 0);
    s.run_frame(&mut ecs);
    assert_eq!(log(&ecs), 45678);
    ecs.insert_resource(LOG, 0);
    s.ensure_startup(&mut ecs);
    assert_eq!(log(&ecs), 0);
}

#[test]
fn commands_of_a_stage_apply_before_the_next_stage() {
    let mut s: Schedules<i64> = Schedules::new();
    s.add_system(
        Stage::First,
        Box::new(FnSystem(|ecs: &mut Ecs<i64>| {
            let mut cmds = ecs.take_commands().unwrap();
            let e = cmds.spawn_one(ecs, COUNT, 1);
            assert!(!ecs.is_alive(e));
            ecs.put_commands(cmds);
        })),
    );
    s.add_system(
        Stage::First,
        Box::new(FnSystem(|ecs: &mut Ecs<i64>| {
            assert!(ecs.entities_with(COUNT).is_empty());
        })),
    );
    s.add_system(
        Stage::PreUpdate,
        Box::new(FnSystem(|ecs: &mut Ecs<i64>| {
            let n = ecs.entities_with(COUNT).len() as i64;
            ecs.insert_resource(LOG, n);
        })),
    );
    let mut ecs = Ecs::new();
    s.run_frame(&mut ecs);
    assert_eq!(log(&ecs), 1);
    assert!(ecs.take_commands().is_none());
}

#[test]
fn stage_starts_with_fresh_empty_buffer() {
    let mut s: Schedules<i64> = Schedules::new();
    s.add_system(
        Stage::Update,
        Box::new(FnSystem(|ecs: &mut Ecs<i64>| {
            let n = ecs.commands().len() as i64;
            ecs.insert_resource(LOG, n);
        })),
    );
    let mut ecs: Ecs<i64> = Ecs::new();
    ecs.commands().despawn(Entity::new(0));
    let keep = ecs.spawn_empty();
    s.run_stage(&mut ecs, Stage::Update);
    assert_eq!(log(&ecs), 0);
    assert!(ecs.is_alive(keep));
}

#[test]
fn startup_spawn_and_update_increment() {
    let mut app: App<i64> = App::new();
    app.add_systems(
        Stage::Startup,
        Box::new(FnSystem(|ecs: &mut Ecs<i64>| {
            let e = ecs.spawn_empty();
            ecs.insert(e, COUNT, 0);
        })),
    )
    .add_systems(
        Stage::Update,
        Box::new(FnSystem(|ecs: &mut Ecs<i64>| {
            ecs.for_each_mut(COUNT, |_, c| *c += 1);
        })),
    );
    app.update();
    app.update();
    app.update();
    assert_eq!(app.get_component(Entity::new(0), COUNT), Some(&3));
    assert_eq!(app.get_component(Entity::new(1), COUNT), None);
    assert_eq!(app.spawn_empty(), Entity::new(1));
}

#[test]
fn labelled_dependency_runs_a_then_b() {
    let mut app: App<i64> = App::new();
    app.add_systems_with_deps(Stage::Update, "A", &[], &[], 10, Box::new(Mark(1)));
    app.add_systems_with_deps(Stage::Update, "B", &[], &["A"], 0, Box::new(Mark(2)));
    app.update();
    assert_eq!(app.resource(LOG), Some(&12));
}

#[test]
fn app_registration_variants() {
    let mut app: App<i64> = App::new();
    app.add_systems_ordered(Stage::Update, 2, Box::new(Mark(1)))
        .add_systems_with_label(Stage::Update, "x", Box::new(Mark(2)))
        .add_systems(Stage::Update, Box::new(Mark(3)))
        .add_systems_ordered(Stage::Update, -1, Box::new(Mark(4)));
    app.update();
    assert_eq!(app.resource(LOG), Some(&4231));
}

#[test]
fn app_world_surface() {
    let mut app: App<i64> = App::new();
    let e = app.spawn_empty();
    app.insert_component(e, COUNT, 5);
    if let Some(v) = app.get_component_mut(e, COUNT) {
        *v += 1;
    }
    assert_eq!(app.get_component(e, COUNT), Some(&6));
    let f = app.spawn_one(COUNT, 9);
    let g = app.spawn(aubrey::Single(LOG, 1));
    assert_eq!(app.get_component(f, COUNT), Some(&9));
    assert_eq!(app.get_component(g, LOG), Some(&1));
    app.despawn(e);
    assert_eq!(app.get_component(e, COUNT), None);
    app.insert_resource(LOG, 3).insert_resource(COUNT, 4);
    if let Some(v) = app.resource_mut(LOG) {
        *v = 30;
    }
    assert_eq!(app.resource(LOG), Some(&30));
    assert_eq!(app.resource(COUNT), Some(&4));
    assert!(app.resource_mut(TypeKey(1)).is_none());
    app.commands().despawn(f);
    assert_eq!(app.commands().len(), 1);
    assert!(app.ecs().is_alive(f));
    app.ecs_mut().despawn(f);
    assert!(!app.ecs().is_alive(f));
}

#[test]
fn exit_request_stops_the_driver() {
    let mut app: App<i64> = App::new();
    app.add_systems(
        Stage::Update,
        Box::new(FnSystem(|ecs: &mut Ecs<i64>| {
            let n = ecs.get_resource(COUNT).copied().unwrap_or(0) + 1;
            ecs.insert_resource(COUNT, n);
            if n == 3 {
                aubrey::request_app_exit(ecs);
            }
        })),
    );
    let mut frames = 0;
    loop {
        app.update();
        frames += 1;
        if app.should_exit() {
            break;
        }
    }
    assert_eq!(frames, 3);
    let mut other: App<i64> = App::new();
    assert!(!other.should_exit());
    other.request_exit();
    assert!(other.should_exit());
}

#[test]
fn scheduled_entries_can_be_registered_whole() {
    let entry = |order, label: Option<&str>, after: &[&str], digit| ScheduledSystem {
        order,
        label: label.map(|l| l.to_string()),
        before: vec![],
        after: after.iter().map(|l| l.to_string()).collect(),
        sys: Box::new(Mark(digit)) as Box<dyn System<i64>>,
    };
    let mut s: Schedules<i64> = Schedules::new();
    s.add_scheduled(Stage::Update, entry(10, Some("A"), &[], 1));
    s.add_scheduled(Stage::Update, entry(0, None, &["A"], 2));
    assert_eq!(s.stage_order(Stage::Update), vec![0, 1]);
    let mut app: App<i64> = App::new();
    app.add_scheduled(Stage::Update, entry(5, None, &[], 1))
        .add_scheduled(Stage::Update, entry(4, None, &[], 2));
    app.update();
    assert_eq!(app.resource(LOG), Some(&21));
}

#[test]
fn default_app_is_a_new_app() {
    let mut app: App<i64> = App::default();
    assert!(!app.should_exit());
    assert_eq!(app.spawn_empty(), Entity::new(0));
}

#[test]
fn despawn_queued_by_a_system_takes_effect_at_the_end_of_the_stage() {
    let mut ecs: Ecs<i64> = Ecs::new();
    let e = ecs.spawn_one(COUNT, 1);
    let mut s: Schedules<i64> = Schedules::new();
    s.add_system(
        Stage::Update,
        Box::new(FnSystem(move |ecs: &mut Ecs<i64>| {
            ecs.commands().despawn(e);
            assert!(ecs.is_alive(e));
        })),
    );
    s.run_stage(&mut ecs, Stage::Update);
    assert!(!ecs.is_alive(e));
    assert_eq!(ecs.get(e, COUNT), None);
    assert!(ecs.take_commands().is_none());
}

#[test]
fn registration_appends_and_leaves_other_stages_alone() {
    let mut s: Schedules<i64> = Schedules::new();
    s.add_system_with_label(Stage::Update, "A", 10, Box::new(Mark(1)));
    s.add_system_with_deps(Stage::Update, Some("B"), &[], &["A"], 0, Box::new(Mark(2)));
    s.add_system_with_order(Stage::Update, 20, Box::new(Mark(3)));
    s.add_system(Stage::Last, Box::new(Mark(9)));
    assert_eq!(s.system_count(Stage::Update), 3);
    assert_eq!(s.system_count(Stage::Last), 1);
    assert_eq!(s.system_count(Stage::First), 0);
    assert_eq!(s.stage_order(Stage::Update), vec![0, 1, 2]);
    let mut ecs = Ecs::new();
    s.run_stage(&mut ecs, Stage::Update);
    assert_eq!(log(&ecs), 123);
    s.run_stage(&mut ecs, Stage::Last);
    assert_eq!(log(&ecs), 1239);
}

#[test]
fn systems_keep_their_places_over_frames() {
    let mut app: App<i64> = App::new();
    app.add_systems_ordered(Stage::Update, 1, Box::new(Mark(1)))
        .add_systems(Stage::Update, Box::new(Mark(2)))
        .add_systems_ordered(Stage::Update, -1, Box::new(Mark(3)));
    app.update();
    assert_eq!(app.resource(LOG), Some(&321));
    app.update();
    assert_eq!(app.resource(LOG), Some(&321321));
}

#[test]
fn stage_without_systems_only_clears_the_buffer() {
    let mut s: Schedules<i64> = Schedules::new();
    let mut ecs: Ecs<i64> = Ecs::new();
    let e = ecs.spawn_one(COUNT, 4);
    ecs.commands().despawn(e);
    s.run_stage(&mut ecs, Stage::PostUpdate);
    assert!(ecs.is_alive(e));
    assert_eq!(ecs.get(e, COUNT), Some(&4));
    assert!(ecs.take_commands().is_none());
}
