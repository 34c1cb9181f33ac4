//! The operations on whole snapshots: moving entities for one tick and
//! finding what collides with a probe.
//!
//! A snapshot maps identifiers to entities. The order in which such a map
//! is walked is not fixed, and the contracts say what holds of every order.

use crate::boundary::{lemma_target_inside_stands, resolved_position};
use crate::collision_detection::{
    circle_circle_collision, circle_polygon_collision, circle_polygon_outcome, circles_collide,
    line_circle_collision, point_circle_collision, point_in_circle, segment_circle_outcome,
};
use crate::error::GeometryError;
use crate::map::{moved_position, Category, Entity, Shape};
use crate::shapes::{Circle, GridPoint, Position, Segment};
use std::collections::HashMap;
use vstd::prelude::*;
use vstd::std_specs::iter::IteratorSpec;

verus! {

/// The entity `e`, standing at `p`.
pub open spec fn at_position(e: Entity, p: GridPoint) -> Entity {
    Entity { position: Position { x: p.x as i32, y: p.y as i32 }, ..e }
}

/// What one tick does to an entity. One that is not moving is left as it
/// is. A moving one travels for `delta_ms` milliseconds; a player that this
/// takes out of the boundary is put back on its way, and the tick fails
/// where no place for it is found. Only players are held to the boundary.
pub open spec fn moved_entity(e: Entity, delta_ms: i32, boundary: Entity) -> Result<
    Entity,
    GeometryError,
> {
    if !e.is_moving {
        Ok(e)
    } else if e.category != Category::Player {
        Ok(at_position(e, moved_position(e, delta_ms)))
    } else {
        match resolved_position(e.position@, moved_position(e, delta_ms), boundary) {
            Ok(p) => Ok(at_position(e, p)),
            Err(error) => Err(error),
        }
    }
}

/// Moves one entity in place for a tick. On failure it is left unchanged.
fn step_entity(entity: &mut Entity, delta_ms: i32, external_wall: &Entity) -> (r: Result<
    (),
    GeometryError,
>)
    ensures
        match r {
            Ok(_) => moved_entity(*old(entity), delta_ms, *external_wall) == Ok::<
                Entity,
                GeometryError,
            >(*final(entity)),
            Err(e) => moved_entity(*old(entity), delta_ms, *external_wall) == Err::<
                Entity,
                GeometryError,
            >(e) && *final(entity) == *old(entity),
        },
{
    if entity.is_moving {
        let start = entity.position;
        entity.move_entity(delta_ms);
        if entity.category == Category::Player {
            let inside = match entity.is_inside_map(external_wall) {
                Ok(inside) => inside,
                Err(e) => {
                    entity.position = start;
                    return Err(e);
                },
            };
            if !inside {
                match entity.move_to_next_valid_position(&start, external_wall) {
                    Ok(_) => {},
                    Err(e) => {
                        entity.position = start;
                        return Err(e);
                    },
                }
            } else {
                proof {
                    lemma_target_inside_stands(start@, entity.position@, *external_wall);
                }
            }
        }
    }
    Ok(())
}

/// Moves one entity for a tick of `delta_ms` milliseconds, holding a player
/// inside the boundary.
pub fn move_entity(entity: Entity, delta_ms: i32, external_wall: &Entity) -> (r: Result<
    Entity,
    GeometryError,
>)
    ensures
        r == moved_entity(entity, delta_ms, *external_wall),
{
    let mut entity = entity;
    match step_entity(&mut entity, delta_ms, external_wall) {
        Ok(_) => Ok(entity),
        Err(e) => Err(e),
    }
}

/// `order` names every key of the map once: it is an order in which the map
/// may be walked.
pub open spec fn is_walk(order: Seq<u64>, entities: Map<u64, Entity>) -> bool {
    order.no_duplicates() && order.to_set() == entities.dom()
}

/// The entities of the map in the order of a walk.
pub open spec fn walked(order: Seq<u64>, entities: Map<u64, Entity>) -> Seq<Entity> {
    Seq::new(order.len(), |i: int| entities[order[i]])
}

/// Lists the keys of a snapshot in the order in which it is walked.
fn keys_of(entities: &HashMap<u64, Entity>) -> (keys: Vec<u64>)
    ensures
        is_walk(keys@, entities@),
{
    broadcast use vstd::std_specs::hash::group_hash_axioms;

    let mut keys: Vec<u64> = Vec::new();
    for key in iter: entities.keys()
        invariant
            keys.len() == iter.index(),
            forall|j: int| 0 <= j < keys.len() ==> keys@[j] == *iter.seq()[j],
            iter.seq() == entities.keys().remaining(),
    {
        keys.push(*key);
    }
    assert(keys@ =~= entities.keys().remaining().unref());
    keys
}

/// Moves every entity of a snapshot for a tick of `delta_ms` milliseconds.
/// The updated snapshot holds the moved entities under their keys. The tick
/// fails with the error of an entity that cannot be moved.
pub fn move_entities(entities: HashMap<u64, Entity>, delta_ms: i32, external_wall: &Entity) -> (r:
    Result<HashMap<u64, Entity>, GeometryError>)
    ensures
        match r {
            Ok(moved) => {
                &&& moved@.dom() == entities@.dom()
                &&& forall|k: u64| #[trigger]
                    entities@.contains_key(k) ==> moved_entity(
                        entities@[k],
                        delta_ms,
                        *external_wall,
                    ) == Ok::<Entity, GeometryError>(moved@[k])
            },
            Err(e) => exists|k: u64| #[trigger]
                entities@.contains_key(k) && moved_entity(entities@[k], delta_ms, *external_wall)
                    == Err::<Entity, GeometryError>(e),
        },
{
    broadcast use vstd::std_specs::hash::group_hash_axioms;

    let keys = keys_of(&entities);
    let mut snapshot = entities;
    let mut i: usize = 0;
    while i < keys.len()
        invariant
            0 <= i <= keys.len(),
            is_walk(keys@, entities@),
            snapshot@.dom() == entities@.dom(),
            forall|j: int|
                0 <= j < i ==> moved_entity(
                    entities@[#[trigger] keys@[j]],
                    delta_ms,
                    *external_wall,
                ) == Ok::<Entity, GeometryError>(snapshot@[keys@[j]]),
            forall|j: int| i <= j < keys.len() ==> snapshot@[#[trigger] keys@[j]] == entities@[keys@[j]],
        decreases keys.len() - i,
    {
        let key: u64 = keys[i];
        assert(keys@.to_set().contains(keys@[i as int]));
        match snapshot.remove(&key) {
            Some(mut entity) => {
                match step_entity(&mut entity, delta_ms, external_wall) {
                    Ok(_) => {
                        snapshot.insert(key, entity);
                    },
                    Err(e) => {
                        assert(entities@.contains_key(key));
                        return Err(e);
                    },
                }
            },
            None => {
                assert(false);
            },
        }
        assert(snapshot@.dom() =~= entities@.dom());
        i = i + 1;
    }
    assert forall|k: u64| #[trigger] entities@.contains_key(k) implies moved_entity(
        entities@[k],
        delta_ms,
        *external_wall,
    ) == Ok::<Entity, GeometryError>(snapshot@[k]) by {
        assert(keys@.to_set().contains(k));
        let j = choose|j: int| 0 <= j < keys@.len() && keys@[j] == k;
        assert(keys@[j] == k);
    }
    Ok(snapshot)
}

/// The disc that a probe covers: a circle its own, a point the disc of
/// radius zero at its position. No other shape can probe.
pub open spec fn probe_circle(probe: Entity) -> Option<Circle> {
    match probe.shape {
        Shape::Point => Some(Circle { center: probe.position, radius: 0 }),
        Shape::Circle { radius } => Some(Circle { center: probe.position, radius }),
        _ => None,
    }
}

/// Whether the probe's disc collides with an entity, by the predicate that
/// belongs to the entity's shape.
pub open spec fn collision_outcome(probe: Circle, other: Entity) -> Result<bool, GeometryError> {
    match other.shape {
        Shape::Point => Ok(point_in_circle(other.position@, probe)),
        Shape::Circle { radius } => Ok(
            circles_collide(probe, Circle { center: other.position, radius }),
        ),
        Shape::Segment { start, end } => segment_circle_outcome(Segment { start, end }, probe),
        Shape::Polygon { vertices } => circle_polygon_outcome(probe, vertices@),
    }
}

/// The error of the first entity whose collision with the probe cannot be
/// decided, if there is one.
pub open spec fn first_failure(probe: Circle, entities: Seq<Entity>) -> Option<GeometryError>
    decreases entities.len(),
{
    if entities.len() == 0 {
        None
    } else {
        match first_failure(probe, entities.drop_last()) {
            Some(e) => Some(e),
            None => match collision_outcome(probe, entities.last()) {
                Err(e) => Some(e),
                Ok(_) => None,
            },
        }
    }
}

/// The identifiers of the entities that collide with the probe, in the
/// order of the entities.
pub open spec fn colliding_ids(probe: Circle, entities: Seq<Entity>) -> Seq<u64>
    decreases entities.len(),
{
    if entities.len() == 0 {
        Seq::<u64>::empty()
    } else {
        let before = colliding_ids(probe, entities.drop_last());
        if collision_outcome(probe, entities.last()) == Ok::<bool, GeometryError>(true) {
            before.push(entities.last().id)
        } else {
            before
        }
    }
}

/// What `check_collisions` returns.
pub open spec fn check_collisions_outcome(probe: Entity, entities: Seq<Entity>) -> Result<
    Seq<u64>,
    GeometryError,
> {
    match probe_circle(probe) {
        None => Err(GeometryError::UnsupportedShape),
        Some(circle) => match first_failure(circle, entities) {
            Some(e) => Err(e),
            None => Ok(colliding_ids(circle, entities)),
        },
    }
}

/// Decides whether the probe's disc collides with one entity.
pub fn collides(probe: &Circle, other: &Entity) -> (r: Result<bool, GeometryError>)
    ensures
        r == collision_outcome(*probe, *other),
{
    match &other.shape {
        Shape::Point => Ok(point_circle_collision(&other.position, probe)),
        Shape::Circle { radius } => {
            let circle = Circle { center: other.position, radius: *radius };
            Ok(circle_circle_collision(probe, &circle))
        },
        Shape::Segment { start, end } => {
            let line = Segment { start: *start, end: *end };
            line_circle_collision(&line, probe)
        },
        Shape::Polygon { vertices } => circle_polygon_collision(probe, vertices),
    }
}

impl Entity {
    /// Lists the identifiers of the entities that collide with this one, in
    /// the order in which the entities are given. This one is the probe: a
    /// point or a circle.
    pub fn collides_with(&self, entities: &Vec<Entity>) -> (r: Result<Vec<u64>, GeometryError>)
        ensures
            match r {
                Ok(ids) => check_collisions_outcome(*self, entities@) == Ok::<
                    Seq<u64>,
                    GeometryError,
                >(ids@),
                Err(e) => check_collisions_outcome(*self, entities@) == Err::<
                    Seq<u64>,
                    GeometryError,
                >(e),
            },
    {
        let probe = match &self.shape {
            Shape::Point => Circle { center: self.position, radius: 0 },
            Shape::Circle { radius } => Circle { center: self.position, radius: *radius },
            _ => {
                return Err(GeometryError::UnsupportedShape);
            },
        };
        let mut ids: Vec<u64> = Vec::new();
        let n: usize = entities.len();
        let mut i: usize = 0;
        while i < n
            invariant
                n == entities.len(),
                0 <= i <= n,
                probe_circle(*self) == Some(probe),
                first_failure(probe, entities@.subrange(0, i as int)) is None,
                ids@ == colliding_ids(probe, entities@.subrange(0, i as int)),
            decreases n - i,
        {
            proof {
                assert(entities@.subrange(0, i + 1).drop_last() =~= entities@.subrange(0, i as int));
                lemma_failure_stays(probe, entities@.subrange(0, i + 1), entities@);
            }
            match collides(&probe, &entities[i]) {
                Ok(true) => {
                    ids.push(entities[i].id);
                },
                Ok(false) => {},
                Err(e) => {
                    return Err(e);
                },
            }
            i = i + 1;
        }
        assert(entities@.subrange(0, n as int) =~= entities@);
        Ok(ids)
    }
}

/// `r` is what the collision query returns for the entities of the map in
/// the order of the walk.
pub open spec fn is_outcome_of_walk(
    r: Result<Vec<u64>, GeometryError>,
    probe: Entity,
    order: Seq<u64>,
    entities: Map<u64, Entity>,
) -> bool {
    &&& is_walk(order, entities)
    &&& match r {
        Ok(ids) => check_collisions_outcome(probe, walked(order, entities)) == Ok::<
            Seq<u64>,
            GeometryError,
        >(ids@),
        Err(e) => check_collisions_outcome(probe, walked(order, entities)) == Err::<
            Seq<u64>,
            GeometryError,
        >(e),
    }
}

/// Lists the identifiers of the entities of a snapshot that collide with
/// the probe, in the order in which the snapshot is walked. The probe is a
/// point or a circle.
pub fn check_collisions(entity: &Entity, entities: &HashMap<u64, Entity>) -> (r: Result<
    Vec<u64>,
    GeometryError,
>)
    ensures
        exists|order: Seq<u64>| is_outcome_of_walk(r, *entity, order, entities@),
{
    broadcast use vstd::std_specs::hash::group_hash_axioms;

    let keys = keys_of(entities);
    let ghost all = walked(keys@, entities@);
    let probe = match &entity.shape {
        Shape::Point => Circle { center: entity.position, radius: 0 },
        Shape::Circle { radius } => Circle { center: entity.position, radius: *radius },
        _ => {
            let r = Err(GeometryError::UnsupportedShape);
            assert(is_outcome_of_walk(r, *entity, keys@, entities@));
            return r;
        },
    };
    let mut ids: Vec<u64> = Vec::new();
    let n: usize = keys.len();
    let mut i: usize = 0;
    while i < n
        invariant
            n == keys.len(),
            0 <= i <= n,
            is_walk(keys@, entities@),
            all == walked(keys@, entities@),
            probe_circle(*entity) == Some(probe),
            first_failure(probe, all.subrange(0, i as int)) is None,
            ids@ == colliding_ids(probe, all.subrange(0, i as int)),
        decreases n - i,
    {
        proof {
            assert(all.subrange(0, i + 1).drop_last() =~= all.subrange(0, i as int));
            lemma_failure_stays(probe, all.subrange(0, i + 1), all);
            assert(keys@.to_set().contains(keys@[i as int]));
        }
        let key: u64 = keys[i];
        match entities.get(&key) {
            Some(candidate) => {
                assert(*candidate == all[i as int]);
                match collides(&probe, candidate) {
                    Ok(true) => {
                        ids.push(candidate.id);
                    },
                    Ok(false) => {},
                    Err(e) => {
                        let r = Err(e);
                        assert(is_outcome_of_walk(r, *entity, keys@, entities@));
                        return r;
                    },
                }
            },
            None => {
                assert(false);
            },
        }
        i = i + 1;
    }
    assert(all.subrange(0, n as int) =~= all);
    let r = Ok(ids);
    assert(is_outcome_of_walk(r, *entity, keys@, entities@));
    r
}

/// An entity that fails first among the leading entities fails first among
/// all of them.
proof fn lemma_failure_stays(probe: Circle, head: Seq<Entity>, all: Seq<Entity>)
    requires
        head.is_prefix_of(all),
    ensures
        first_failure(probe, head) is Some ==> first_failure(probe, all) == first_failure(
            probe,
            head,
        ),
    decreases all.len(),
{
    if head.len() < all.len() {
        assert(head.is_prefix_of(all.drop_last()));
        lemma_failure_stays(probe, head, all.drop_last());
    } else {
        assert(head =~= all);
    }
}

} // verus!
