use aubrey::layout::{
    collect_hits_app, inner_area, is_countable, pick_hit, walk, Area, Direction, MarginComponent, Node,
};
use aubrey::widgets::{
    find_root, stream_next, stream_value, BoxWidget, Children, PlaceholderWidget, RootWidget,
};
use aubrey::window::{collect_new_windows, is_among, WindowCreated, WindowDescriptor, WindowStats, WindowText};
use aubrey::{Ecs, Entity, TypeKey};

fn leaf(id: u64) -> Node {
    Node { entity: Entity::new(id), placeholder: true, margin: None, split: None, children: vec![] }
}

fn group(id: u64, split: Option<Direction>, margin: Option<MarginComponent>, children: Vec<Node>) -> Node {
    Node { entity: Entity::new(id), placeholder: false, margin, split, children }
}

fn rects(found: Vec<(Entity, Area)>) -> Vec<(u64, Area)> {
    found.into_iter().map(|(e, a)| (e.id(), a)).collect()
}

#[test]
fn single_placeholder_fills_the_window() {
    assert_eq!(rects(collect_hits_app(&leaf(1), 640, 400)), vec![(1, (0, 0, 640, 400))]);
}

#[test]
fn widget_without_placeholder_is_not_listed() {
    let tree = group(0, None, None, vec![]);
    assert!(collect_hits_app(&tree, 640, 400).is_empty());
}

#[test]
fn children_without_box_share_the_whole_area() {
    let tree = group(0, None, None, vec![leaf(1), leaf(2)]);
    assert_eq!(
        rects(collect_hits_app(&tree, 100, 50)),
        vec![(1, (0, 0, 100, 50)), (2, (0, 0, 100, 50))]
    );
}

#[test]
fn box_right_splits_width_in_order() {
    for dir in [Direction::Right, Direction::Start] {
        let tree = group(0, Some(dir), None, vec![leaf(1), leaf(2), leaf(3)]);
        assert_eq!(
            rects(collect_hits_app(&tree, 100, 50)),
            vec![(1, (0, 0, 33, 50)), (2, (33, 0, 33, 50)), (3, (66, 0, 33, 50))]
        );
    }
}

#[test]
fn box_left_visits_children_last_to_first() {
    for dir in [Direction::Left, Direction::End] {
        let tree = group(0, Some(dir), None, vec![leaf(1), leaf(2), leaf(3)]);
        assert_eq!(
            rects(collect_hits_app(&tree, 90, 50)),
            vec![(3, (0, 0, 30, 50)), (2, (30, 0, 30, 50)), (1, (60, 0, 30, 50))]
        );
    }
}

#[test]
fn box_down_and_up_split_height() {
    let down = group(0, Some(Direction::Down), None, vec![leaf(1), leaf(2)]);
    assert_eq!(
        rects(collect_hits_app(&down, 90, 50)),
        vec![(1, (0, 0, 90, 25)), (2, (0, 25, 90, 25))]
    );
    let up = group(0, Some(Direction::Up), None, vec![leaf(1), leaf(2)]);
    assert_eq!(
        rects(collect_hits_app(&up, 90, 50)),
        vec![(2, (0, 0, 90, 25)), (1, (0, 25, 90, 25))]
    );
}

#[test]
fn margin_shrinks_the_area_of_the_children() {
    let m = MarginComponent { left: 1, right: 2, top: 3, bottom: 4 };
    let mut tree = group(0, None, Some(m), vec![leaf(1)]);
    tree.placeholder = true;
    assert_eq!(
        rects(collect_hits_app(&tree, 100, 50)),
        vec![(0, (0, 0, 100, 50)), (1, (1, 3, 97, 43))]
    );
    assert_eq!(inner_area(10, 20, 100, 50, &Some(MarginComponent::all(8))), (18, 28, 84, 34));
    assert_eq!(inner_area(10, 20, 100, 50, &Some(MarginComponent::vertical(8))), (10, 28, 100, 34));
    assert_eq!(inner_area(10, 20, 100, 50, &Some(MarginComponent::horizontal(8))), (18, 20, 84, 50));
    assert_eq!(inner_area(10, 20, 100, 50, &None), (10, 20, 100, 50));
}

#[test]
fn margin_larger_than_area_leaves_nothing() {
    assert_eq!(inner_area(0, 0, 10, 10, &Some(MarginComponent::all(8))), (8, 8, 0, 0));
    assert_eq!(
        inner_area(5, 5, 10, 10, &Some(MarginComponent::all(u32::MAX))),
        (u32::MAX, u32::MAX, 0, 0)
    );
}

#[test]
fn nested_grid_two_by_two() {
    let cell = |id| group(100 + id, None, Some(MarginComponent::all(8)), vec![leaf(id)]);
    let row = |id, a, b| {
        group(
            id,
            None,
            Some(MarginComponent::vertical(8)),
            vec![group(id + 1, Some(Direction::Right), None, vec![cell(a), cell(b)])],
        )
    };
    let tree = group(
        0,
        None,
        Some(MarginComponent::all(16)),
        vec![group(1, Some(Direction::Down), None, vec![row(10, 1, 2), row(20, 3, 4)])],
    );
    assert_eq!(
        rects(collect_hits_app(&tree, 640, 400)),
        vec![
            (1, (24, 32, 288, 152)),
            (2, (328, 32, 288, 152)),
            (3, (24, 216, 288, 152)),
            (4, (328, 216, 288, 152)),
        ]
    );
}

#[test]
fn walk_appends_to_what_is_there() {
    let mut out = vec![(Entity::new(9), (1, 1, 1, 1))];
    walk(&leaf(1), 2, 3, 4, 5, &mut out);
    assert_eq!(rects(out), vec![(9, (1, 1, 1, 1)), (1, (2, 3, 4, 5))]);
}

#[test]
fn pick_hit_takes_the_last_area_that_contains_the_point() {
    let found = vec![
        (Entity::new(1), (0, 0, 100, 100)),
        (Entity::new(2), (10, 10, 20, 20)),
        (Entity::new(3), (50, 50, 10, 10)),
    ];
    assert_eq!(pick_hit(&found, 15, 15), Some(Entity::new(2)));
    assert_eq!(pick_hit(&found, 55, 55), Some(Entity::new(3)));
    assert_eq!(pick_hit(&found, 5, 5), Some(Entity::new(1)));
    assert_eq!(pick_hit(&found, 30, 30), Some(Entity::new(1)));
    assert_eq!(pick_hit(&found, 29, 29), Some(Entity::new(2)));
    assert_eq!(pick_hit(&found, 100, 5), None);
    assert_eq!(pick_hit(&Vec::new(), 0, 0), None);
    let edge = vec![(Entity::new(4), (u32::MAX - 1, 0, 10, 1))];
    assert_eq!(pick_hit(&edge, u32::MAX - 1, 0), Some(Entity::new(4)));
    assert_eq!(pick_hit(&edge, u32::MAX, 0), None);
}

#[test]
fn number_stream_steps() {
    assert_eq!(stream_next(0), 1);
    assert_eq!(stream_next(1), 6364136223846793006);
    assert_eq!(stream_next(u64::MAX), 1u64.wrapping_sub(6364136223846793005));
    assert_eq!(stream_value(0x1234_5678_9abc_def0), 0x1234_5678);
    assert_eq!(stream_value(u64::MAX), u32::MAX);
}

#[test]
fn widget_components() {
    assert_eq!(PlaceholderWidget::default().color, 0xffff_00ff);
    assert_eq!(BoxWidget { dir: Direction::Down }.dir, Direction::Down);
    assert_eq!(Children(vec![Entity::new(1)]).0.len(), 1);
    assert_eq!(RootWidget, RootWidget);
}

#[test]
fn window_descriptor_holds_title_and_size() {
    let d = WindowDescriptor::new("Editor", 640, 400);
    assert_eq!(d.title, "Editor");
    assert_eq!((d.width, d.height), (640, 400));
    assert_eq!(WindowText("t".to_string()).0, "t");
    assert_eq!(WindowStats { open: 2 }.open, 2);
    assert_eq!(WindowCreated, WindowCreated);
}

#[test]
fn new_windows_are_described_unmarked_and_unknown() {
    let descriptor = TypeKey(30);
    let created = TypeKey(31);
    let mut ecs: Ecs<i64> = Ecs::new();
    let a = ecs.spawn_one(descriptor, 1);
    let b = ecs.spawn_one(descriptor, 2);
    let c = ecs.spawn_one(descriptor, 3);
    let d = ecs.spawn_one(descriptor, 4);
    let _other = ecs.spawn_one(TypeKey(99), 5);
    ecs.insert(b, created, 0);
    ecs.despawn(d);
    let existing = vec![c];
    let mut found: Vec<(u64, i64)> = collect_new_windows(&ecs, descriptor, created, &existing)
        .into_iter()
        .map(|(e, v)| (e.id(), *v))
        .collect();
    found.sort();
    assert_eq!(found, vec![(a.id(), 1)]);
    let mut all: Vec<u64> = collect_new_windows(&ecs, descriptor, created, &vec![])
        .into_iter()
        .map(|(e, _)| e.id())
        .collect();
    all.sort();
    assert_eq!(all, vec![a.id(), c.id()]);
    assert!(is_among(&existing, c));
    assert!(!is_among(&existing, a));
}

#[test]
fn trees_of_ordinary_size_are_countable() {
    assert!(is_countable(&leaf(1)));
    let tree = group(0, Some(Direction::Down), None, vec![leaf(1), group(2, None, None, vec![leaf(3)])]);
    assert!(is_countable(&tree));
}

#[test]
fn root_is_the_first_marked_child() {
    let marker = TypeKey(40);
    let mut ecs: Ecs<i64> = Ecs::new();
    let a = ecs.spawn_empty();
    let b = ecs.spawn_one(marker, 0);
    let c = ecs.spawn_one(marker, 0);
    let dead = ecs.spawn_one(marker, 0);
    ecs.despawn(dead);
    assert_eq!(find_root(&ecs, &vec![a, dead, c, b], marker), Some(c));
    assert_eq!(find_root(&ecs, &vec![a, dead], marker), None);
    assert_eq!(find_root(&ecs, &vec![], marker), None);
}
