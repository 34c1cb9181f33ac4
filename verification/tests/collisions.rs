use arena_physics::error::GeometryError;
use arena_physics::map::{Category, Direction, Entity, Shape};
use arena_physics::physics::{check_collisions, collides};
use std::collections::HashMap;
use arena_physics::shapes::{Circle, Position};

fn place(x: i32, y: i32) -> Position {
    Position { x, y }
}

fn entity(id: u64, shape: Shape, x: i32, y: i32) -> Entity {
    Entity {
        id,
        category: Category::Obstacle,
        shape,
        position: place(x, y),
        direction: Direction { x: 0, y: 0 },
        speed: 0,
        is_moving: false,
    }
}

fn box_around(id: u64, x: i32, y: i32, half: i32) -> Entity {
    let vertices = vec![
        place(x - half, y - half),
        place(x + half, y - half),
        place(x + half, y + half),
        place(x - half, y + half),
    ];
    entity(id, Shape::Polygon { vertices }, 0, 0)
}

#[test]
fn circle_probe_against_each_shape() {
    let probe = Circle { center: place(0, 0), radius: 5000 };
    assert_eq!(collides(&probe, &entity(1, Shape::Point, 3000, 4000)), Ok(true));
    assert_eq!(collides(&probe, &entity(1, Shape::Point, 3001, 4000)), Ok(false));
    assert_eq!(collides(&probe, &entity(2, Shape::Circle { radius: 1000 }, 6000, 0)), Ok(true));
    assert_eq!(collides(&probe, &entity(2, Shape::Circle { radius: 1000 }, 6001, 0)), Ok(false));
    let crossing = Shape::Segment { start: place(-9000, 5000), end: place(9000, 5000) };
    assert_eq!(collides(&probe, &entity(3, crossing, 0, 0)), Ok(true));
    let passing = Shape::Segment { start: place(-9000, 5001), end: place(9000, 5001) };
    assert_eq!(collides(&probe, &entity(3, passing, 0, 0)), Ok(false));
    assert_eq!(collides(&probe, &box_around(4, 0, 0, 20_000)), Ok(true));
    assert_eq!(collides(&probe, &box_around(4, 8000, 0, 3000)), Ok(true));
    assert_eq!(collides(&probe, &box_around(4, 8001, 0, 3000)), Ok(false));
}

#[test]
fn segment_and_polygon_carry_their_own_vertices() {
    let probe = Circle { center: place(0, 0), radius: 100 };
    let far = Shape::Segment { start: place(50_000, 0), end: place(60_000, 0) };
    assert_eq!(collides(&probe, &entity(1, far, 0, 0)), Ok(false));
    let mut boxed = box_around(2, 50_000, 50_000, 10);
    boxed.position = place(0, 0);
    assert_eq!(collides(&probe, &boxed), Ok(false));
}

#[test]
fn colliding_entities_are_listed_in_order() {
    let probe = entity(100, Shape::Circle { radius: 5000 }, 0, 0);
    let candidates = vec![
        entity(7, Shape::Point, 1000, 1000),
        entity(3, Shape::Point, 9000, 9000),
        entity(9, Shape::Circle { radius: 1000 }, 6000, 0),
        box_around(2, 0, 0, 20_000),
        entity(5, Shape::Segment { start: place(-9000, 9000), end: place(9000, 9000) }, 0, 0),
        entity(1, Shape::Segment { start: place(-9000, 5000), end: place(9000, 5000) }, 0, 0),
    ];
    assert_eq!(probe.collides_with(&candidates), Ok(vec![7, 9, 2, 1]));
    let mut reversed = candidates.clone();
    reversed.reverse();
    assert_eq!(probe.collides_with(&reversed), Ok(vec![1, 2, 9, 7]));
}

#[test]
fn nothing_collides_with_nothing() {
    let probe = entity(100, Shape::Circle { radius: 5000 }, 0, 0);
    assert_eq!(probe.collides_with(&Vec::new()), Ok(Vec::new()));
    let away = vec![entity(1, Shape::Point, 9000, 0), entity(2, Shape::Point, 0, 9000)];
    assert_eq!(probe.collides_with(&away), Ok(Vec::new()));
}

#[test]
fn probe_is_listed_where_it_is_a_candidate() {
    let probe = entity(100, Shape::Circle { radius: 5000 }, 0, 0);
    let candidates = vec![probe.clone(), entity(1, Shape::Point, 9000, 0)];
    assert_eq!(probe.collides_with(&candidates), Ok(vec![100]));
}

#[test]
fn point_probe_is_a_circle_of_no_radius() {
    let probe = entity(100, Shape::Point, 1000, 1000);
    let candidates = vec![
        entity(1, Shape::Point, 1000, 1000),
        entity(2, Shape::Point, 1000, 1001),
        entity(3, Shape::Circle { radius: 500 }, 1300, 1400),
        entity(4, Shape::Circle { radius: 499 }, 1300, 1400),
        box_around(5, 0, 0, 2000),
        box_around(6, 5000, 5000, 2000),
        entity(7, Shape::Segment { start: place(1000, 1000), end: place(5000, 5000) }, 0, 0),
        entity(8, Shape::Segment { start: place(0, 1000), end: place(5000, 1000) }, 0, 0),
        entity(9, Shape::Segment { start: place(0, 1001), end: place(5000, 1001) }, 0, 0),
    ];
    assert_eq!(probe.collides_with(&candidates), Ok(vec![1, 3, 5, 7, 8]));
}

#[test]
fn probe_must_be_a_point_or_a_circle() {
    let candidates = vec![entity(1, Shape::Point, 0, 0)];
    let line = entity(100, Shape::Segment { start: place(-5, 0), end: place(5, 0) }, 0, 0);
    assert_eq!(line.collides_with(&candidates), Err(GeometryError::UnsupportedShape));
    assert_eq!(line.collides_with(&Vec::new()), Err(GeometryError::UnsupportedShape));
    let boxed = box_around(100, 0, 0, 10);
    assert_eq!(boxed.collides_with(&candidates), Err(GeometryError::UnsupportedShape));
}

#[test]
fn undecidable_candidate_fails_the_query() {
    let probe = entity(100, Shape::Circle { radius: 5000 }, 0, 0);
    let dot = Shape::Segment { start: place(9000, 0), end: place(9000, 0) };
    let candidates =
        vec![entity(1, Shape::Point, 0, 0), entity(2, dot, 0, 0), entity(3, Shape::Point, 1, 1)];
    assert_eq!(probe.collides_with(&candidates), Err(GeometryError::DegenerateGeometry));
    let thin = Shape::Polygon { vertices: vec![place(0, 0), place(1, 1)] };
    assert_eq!(
        probe.collides_with(&vec![entity(4, thin, 0, 0)]),
        Err(GeometryError::DegenerateGeometry)
    );
}

#[test]
fn degenerate_segment_in_the_probe_collides() {
    let probe = entity(100, Shape::Circle { radius: 5000 }, 0, 0);
    let dot = Shape::Segment { start: place(3000, 0), end: place(3000, 0) };
    assert_eq!(probe.collides_with(&vec![entity(2, dot, 0, 0)]), Ok(vec![2]));
}

#[test]
fn same_identifier_is_listed_each_time() {
    let probe = entity(100, Shape::Circle { radius: 5000 }, 0, 0);
    let candidates = vec![entity(1, Shape::Point, 0, 0), entity(1, Shape::Point, 10, 10)];
    assert_eq!(probe.collides_with(&candidates), Ok(vec![1, 1]));
}

fn snapshot_of(entities: &[Entity]) -> HashMap<u64, Entity> {
    entities.iter().map(|e| (e.id + 1000, e.clone())).collect()
}

#[test]
fn snapshot_is_searched_for_what_collides() {
    let probe = entity(100, Shape::Circle { radius: 5000 }, 0, 0);
    let candidates = vec![
        entity(7, Shape::Point, 1000, 1000),
        entity(3, Shape::Point, 9000, 9000),
        entity(9, Shape::Circle { radius: 1000 }, 6000, 0),
        box_around(2, 0, 0, 20_000),
        entity(5, Shape::Segment { start: place(-9000, 9000), end: place(9000, 9000) }, 0, 0),
        entity(1, Shape::Segment { start: place(-9000, 5000), end: place(9000, 5000) }, 0, 0),
    ];
    let mut ids = check_collisions(&probe, &snapshot_of(&candidates)).unwrap();
    ids.sort();
    assert_eq!(ids, vec![1, 2, 7, 9]);
}

#[test]
fn snapshot_is_listed_by_identifier_not_by_key() {
    let probe = entity(100, Shape::Point, 5, 5);
    let mut snapshot = HashMap::new();
    snapshot.insert(1, entity(77, Shape::Point, 5, 5));
    snapshot.insert(2, entity(77, Shape::Circle { radius: 10 }, 0, 0));
    snapshot.insert(3, entity(78, Shape::Point, 6, 5));
    assert_eq!(check_collisions(&probe, &snapshot), Ok(vec![77, 77]));
}

#[test]
fn snapshot_agrees_with_the_list_of_its_entities() {
    let probe = entity(100, Shape::Circle { radius: 3000 }, 500, -500);
    let mut candidates = Vec::new();
    for id in 0..300u64 {
        let step = i32::try_from(id).unwrap();
        candidates.push(entity(id, Shape::Circle { radius: 40 }, step * 37 - 5000, step * 23 - 4000));
    }
    let mut from_list = probe.collides_with(&candidates).unwrap();
    let mut from_snapshot = check_collisions(&probe, &snapshot_of(&candidates)).unwrap();
    from_list.sort();
    from_snapshot.sort();
    assert!(!from_list.is_empty());
    assert_eq!(from_list, from_snapshot);
}

#[test]
fn empty_snapshot_has_no_collisions() {
    let probe = entity(100, Shape::Circle { radius: 5000 }, 0, 0);
    assert_eq!(check_collisions(&probe, &HashMap::new()), Ok(Vec::new()));
}

#[test]
fn snapshot_probe_must_be_a_point_or_a_circle() {
    let boxed = box_around(100, 0, 0, 10);
    assert_eq!(check_collisions(&boxed, &HashMap::new()), Err(GeometryError::UnsupportedShape));
    let candidates = snapshot_of(&[entity(1, Shape::Point, 0, 0)]);
    assert_eq!(check_collisions(&boxed, &candidates), Err(GeometryError::UnsupportedShape));
}

#[test]
fn undecidable_entity_fails_the_snapshot_query() {
    let probe = entity(100, Shape::Circle { radius: 5000 }, 0, 0);
    let dot = Shape::Segment { start: place(9000, 0), end: place(9000, 0) };
    let candidates = snapshot_of(&[entity(1, Shape::Point, 0, 0), entity(2, dot, 0, 0)]);
    assert_eq!(check_collisions(&probe, &candidates), Err(GeometryError::DegenerateGeometry));
}
