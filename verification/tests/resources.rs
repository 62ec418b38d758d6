use abura::CollisionEvents;
use hecs::{Entity, World};

#[test]
fn collision_events_clear_empties_pairs() {
    let mut events = CollisionEvents::default();
    events.pairs.push((hecs::Entity::DANGLING, hecs::Entity::DANGLING));
    events.clear();
    assert!(events.pairs.is_empty());
}

fn three_entities() -> Vec<Entity> {
    let mut world = World::new();
    vec![world.spawn((1u8,)), world.spawn((2u8,)), world.spawn((3u8,))]
}

#[test]
fn record_overlaps_reports_each_overlapping_pair_once_in_order() {
    let e = three_entities();
    let overlaps = vec![
        vec![false, true, true],
        vec![true, false, true],
        vec![true, true, false],
    ];
    let mut events = CollisionEvents::default();
    events.record_overlaps(&e, &overlaps);
    assert_eq!(events.pairs, vec![(e[0], e[1]), (e[0], e[2]), (e[1], e[2])]);
}

#[test]
fn record_overlaps_reads_only_the_upper_triangle() {
    let e = three_entities();
    let overlaps = vec![
        vec![true, false, false],
        vec![true, true, true],
        vec![true, true, true],
    ];
    let mut events = CollisionEvents::default();
    events.record_overlaps(&e, &overlaps);
    assert_eq!(events.pairs, vec![(e[1], e[2])]);
}

#[test]
fn record_overlaps_replaces_earlier_pairs() {
    let e = three_entities();
    let mut events = CollisionEvents::default();
    events.pairs.push((e[2], e[2]));
    let none = vec![vec![false; 3]; 3];
    events.record_overlaps(&e, &none);
    assert!(events.pairs.is_empty());
}

#[test]
fn record_overlaps_on_no_entities_is_empty() {
    let mut events = CollisionEvents::default();
    events.record_overlaps(&Vec::new(), &Vec::new());
    assert!(events.pairs.is_empty());
}
