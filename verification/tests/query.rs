use aubrey::{Ecs, Entity, Everything, Filter, Query, Query2, TypeKey, With, Without};

const POS: TypeKey = TypeKey(10);
const VEL: TypeKey = TypeKey(11);
const TAG: TypeKey = TypeKey(12);

fn world() -> (Ecs<i64>, Vec<Entity>) {
    let mut ecs: Ecs<i64> = Ecs::new();
    let mut es = Vec::new();
    for i in 0..8i64 {
        let e = ecs.spawn_empty();
        ecs.insert(e, POS, i);
        if i % 2 == 0 {
            ecs.insert(e, VEL, 100 + i);
        }
        if i % 4 == 0 {
            ecs.insert(e, TAG, 0);
        }
        es.push(e);
    }
    ecs.despawn(es[2]);
    (ecs, es)
}

fn ids1(items: Vec<(Entity, &i64)>) -> Vec<(u64, i64)> {
    let mut v: Vec<(u64, i64)> = items.into_iter().map(|(e, a)| (e.id(), *a)).collect();
    v.sort();
    v
}

fn ids2(items: Vec<(Entity, &i64, &i64)>) -> Vec<(u64, i64, i64)> {
    let mut v: Vec<(u64, i64, i64)> = items.into_iter().map(|(e, a, b)| (e.id(), *a, *b)).collect();
    v.sort();
    v
}

#[test]
fn query_iter_lists_alive_entities_with_component() {
    let (ecs, _) = world();
    assert_eq!(
        ids1(ecs.query(POS).iter()),
        vec![(0, 0), (1, 1), (3, 3), (4, 4), (5, 5), (6, 6), (7, 7)]
    );
    assert_eq!(ids1(Query::new(&ecs, VEL).iter()), vec![(0, 100), (4, 104), (6, 106)]);
    assert!(ecs.query(TypeKey(99)).iter().is_empty());
}

#[test]
fn query_iter_with_filters() {
    let (ecs, _) = world();
    assert_eq!(
        ids1(ecs.query(POS).iter_with(With::new(VEL))),
        vec![(0, 0), (4, 4), (6, 6)]
    );
    assert_eq!(
        ids1(ecs.query(POS).iter_with(Without::new(VEL))),
        vec![(1, 1), (3, 3), (5, 5), (7, 7)]
    );
    assert_eq!(ids1(ecs.query(POS).iter_with(Everything)).len(), 7);
}

#[test]
fn query2_iter_joins_two_tables() {
    let (ecs, _) = world();
    assert_eq!(
        ids2(ecs.query2(POS, VEL).iter()),
        vec![(0, 0, 100), (4, 4, 104), (6, 6, 106)]
    );
    assert_eq!(
        ids2(Query2::new(&ecs, VEL, POS).iter()),
        vec![(0, 100, 0), (4, 104, 4), (6, 106, 6)]
    );
    assert!(ecs.query2(POS, TypeKey(99)).iter().is_empty());
    assert!(ecs.query2(TypeKey(99), POS).iter().is_empty());
}

#[test]
fn query2_iter_with_filters() {
    let (ecs, _) = world();
    assert_eq!(
        ids2(ecs.query2(POS, VEL).iter_with(With::new(TAG))),
        vec![(0, 0, 100), (4, 4, 104)]
    );
    assert_eq!(
        ids2(ecs.query2(VEL, POS).iter_with(Without::new(TAG))),
        vec![(6, 106, 6)]
    );
}

#[test]
fn filters_decide_by_visible_components() {
    let (ecs, es) = world();
    assert!(With::new(VEL).matches(&ecs, es[0]));
    assert!(!With::new(VEL).matches(&ecs, es[1]));
    assert!(!With::new(VEL).matches(&ecs, es[2]));
    assert!(Without::new(VEL).matches(&ecs, es[1]));
    assert!(Without::new(VEL).matches(&ecs, es[2]));
    assert!(!Without::new(VEL).matches(&ecs, es[0]));
    assert!(Everything.matches(&ecs, es[2]));
}

#[test]
fn entities_with_lists_each_entity_once() {
    let (ecs, _) = world();
    let mut found: Vec<u64> = ecs.entities_with(VEL).into_iter().map(|e| e.id()).collect();
    found.sort();
    assert_eq!(found, vec![0, 4, 6]);
}
