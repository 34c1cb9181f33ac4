use arena_physics::collision_detection::{
    calculate_distance, circle_circle_collision, closest_point_on_line,
    get_colliding_points_between_line_and_circle, line_circle_collision, line_point_colision,
    point_circle_collision, SEGMENT_TOLERANCE,
};
use arena_physics::error::GeometryError;
use arena_physics::shapes::{Circle, Position, Segment};

fn at(x: i32, y: i32) -> Position {
    Position { x, y }
}

fn circle(x: i32, y: i32, radius: u32) -> Circle {
    Circle { center: at(x, y), radius }
}

fn segment(x0: i32, y0: i32, x1: i32, y1: i32) -> Segment {
    Segment { start: at(x0, y0), end: at(x1, y1) }
}

#[test]
fn distance_of_a_right_triangle() {
    assert_eq!(calculate_distance(&at(0, 0), &at(3000, 4000)), 5000);
    assert_eq!(calculate_distance(&at(3000, 4000), &at(0, 0)), 5000);
    assert_eq!(calculate_distance(&at(-1000, -1000), &at(2000, 3000)), 5000);
}

#[test]
fn distance_is_rounded_up() {
    assert_eq!(calculate_distance(&at(0, 0), &at(1, 1)), 2);
    assert_eq!(calculate_distance(&at(0, 0), &at(0, 0)), 0);
    assert_eq!(calculate_distance(&at(5, 5), &at(5, 6)), 1);
}

#[test]
fn distance_across_the_whole_range() {
    assert_eq!(
        calculate_distance(&at(i32::MIN, i32::MIN), &at(i32::MAX, i32::MAX)),
        6_074_000_999
    );
}

#[test]
fn point_on_the_rim_is_in_the_circle() {
    let c = circle(0, 0, 5000);
    assert!(point_circle_collision(&at(5000, 0), &c));
    assert!(point_circle_collision(&at(3000, 4000), &c));
    assert!(point_circle_collision(&at(0, -5000), &c));
}

#[test]
fn point_just_off_the_rim_is_out() {
    let c = circle(0, 0, 5000);
    assert!(!point_circle_collision(&at(5001, 0), &c));
    assert!(!point_circle_collision(&at(3000, 4001), &c));
    assert!(!point_circle_collision(&at(3001, 4000), &c));
}

#[test]
fn point_in_circle_is_the_distance_test() {
    let c = circle(120, -340, 777);
    for x in (-1000..1200).step_by(37) {
        for y in (-1400..800).step_by(41) {
            let p = at(x, y);
            let by_distance = calculate_distance(&p, &c.center) <= u64::from(c.radius);
            assert_eq!(point_circle_collision(&p, &c), by_distance);
        }
    }
}

#[test]
fn circle_of_radius_zero_holds_its_centre_only() {
    let c = circle(10, 10, 0);
    assert!(point_circle_collision(&at(10, 10), &c));
    assert!(!point_circle_collision(&at(10, 11), &c));
}

#[test]
fn circles_that_touch_collide() {
    assert!(circle_circle_collision(&circle(0, 0, 2000), &circle(5000, 0, 3000)));
    assert!(circle_circle_collision(&circle(0, 0, 2000), &circle(3000, 4000, 3000)));
    assert!(circle_circle_collision(&circle(0, 0, 2000), &circle(0, 0, 0)));
}

#[test]
fn circles_apart_do_not_collide() {
    assert!(!circle_circle_collision(&circle(0, 0, 2000), &circle(5001, 0, 3000)));
    assert!(!circle_circle_collision(&circle(0, 0, 2000), &circle(3000, 4000, 2999)));
}

#[test]
fn circles_with_the_largest_radii() {
    let a = circle(i32::MIN, i32::MIN, u32::MAX);
    let b = circle(i32::MAX, i32::MAX, u32::MAX);
    assert!(circle_circle_collision(&a, &b));
    let small = circle(i32::MAX, i32::MAX, 0);
    assert!(!circle_circle_collision(&circle(i32::MIN, i32::MIN, 1), &small));
}

#[test]
fn the_tolerance_is_a_tenth_of_a_map_unit() {
    assert_eq!(SEGMENT_TOLERANCE, 100);
}

#[test]
fn point_on_the_segment() {
    let s = segment(0, 0, 10_000, 0);
    assert!(line_point_colision(&s, &at(5000, 0)));
    assert!(line_point_colision(&s, &at(0, 0)));
    assert!(line_point_colision(&s, &at(10_000, 0)));
}

#[test]
fn point_beside_the_segment_within_tolerance() {
    let s = segment(0, 0, 10_000, 0);
    assert!(line_point_colision(&s, &at(5000, 700)));
    assert!(!line_point_colision(&s, &at(5000, 710)));
    assert!(!line_point_colision(&s, &at(5000, 1000)));
}

#[test]
fn point_beyond_the_end_within_tolerance() {
    let s = segment(0, 0, 10_000, 0);
    assert!(line_point_colision(&s, &at(10_050, 0)));
    assert!(!line_point_colision(&s, &at(10_051, 0)));
    assert!(line_point_colision(&s, &at(-50, 0)));
    assert!(!line_point_colision(&s, &at(-51, 0)));
}

#[test]
fn point_on_a_degenerate_segment() {
    let s = segment(100, 100, 100, 100);
    assert!(line_point_colision(&s, &at(100, 100)));
    assert!(line_point_colision(&s, &at(150, 100)));
    assert!(!line_point_colision(&s, &at(151, 100)));
}

#[test]
fn closest_point_is_the_foot_of_the_perpendicular() {
    let s = segment(0, 0, 10_000, 0);
    assert_eq!(closest_point_on_line(&s, &at(5000, 5000)), Ok(at(5000, 0)));
    let slanted = segment(0, 0, 3000, 4000);
    assert_eq!(closest_point_on_line(&slanted, &at(1000, 1000)), Ok(at(840, 1120)));
}

#[test]
fn closest_point_is_not_held_to_the_segment() {
    let s = segment(0, 0, 10_000, 0);
    assert_eq!(closest_point_on_line(&s, &at(20_000, 3000)), Ok(at(20_000, 0)));
    assert_eq!(closest_point_on_line(&s, &at(-7000, -1)), Ok(at(-7000, 0)));
}

#[test]
fn closest_point_is_rounded_to_the_grid() {
    let s = segment(0, 0, 3, 3);
    assert_eq!(closest_point_on_line(&s, &at(1, 0)), Ok(at(1, 1)));
    assert_eq!(closest_point_on_line(&s, &at(-1, 0)), Ok(at(0, 0)));
}

#[test]
fn closest_point_on_a_degenerate_segment_fails() {
    let s = segment(7, 7, 7, 7);
    assert_eq!(closest_point_on_line(&s, &at(0, 0)), Err(GeometryError::DegenerateGeometry));
    assert_eq!(closest_point_on_line(&s, &at(7, 7)), Err(GeometryError::DegenerateGeometry));
}

#[test]
fn closest_point_outside_the_coordinates_fails() {
    let s = segment(i32::MAX - 10, i32::MAX - 20, i32::MAX, i32::MAX - 10);
    assert_eq!(
        closest_point_on_line(&s, &at(i32::MAX, i32::MAX)),
        Err(GeometryError::CoordinateOverflow)
    );
}

#[test]
fn segment_tangent_to_circle_collides() {
    let s = segment(0, 0, 10_000, 0);
    let c = circle(5000, 5000, 5000);
    assert_eq!(closest_point_on_line(&s, &c.center), Ok(at(5000, 0)));
    assert_eq!(calculate_distance(&at(5000, 0), &c.center), 5000);
    assert_eq!(line_circle_collision(&s, &c), Ok(true));
}

#[test]
fn segment_just_past_the_circle_does_not_collide() {
    let s = segment(0, 0, 10_000, 0);
    assert_eq!(line_circle_collision(&s, &circle(5000, 5001, 5000)), Ok(false));
}

#[test]
fn segment_with_an_end_in_the_circle_collides() {
    let c = circle(0, 0, 1000);
    assert_eq!(line_circle_collision(&segment(500, 0, 90_000, 70_000), &c), Ok(true));
    assert_eq!(line_circle_collision(&segment(90_000, 70_000, 0, 1000), &c), Ok(true));
}

#[test]
fn degenerate_segment_in_the_circle_collides() {
    let c = circle(0, 0, 1000);
    assert_eq!(line_circle_collision(&segment(500, 0, 500, 0), &c), Ok(true));
}

#[test]
fn degenerate_segment_outside_the_circle_fails() {
    let c = circle(0, 0, 1000);
    assert_eq!(
        line_circle_collision(&segment(5000, 0, 5000, 0), &c),
        Err(GeometryError::DegenerateGeometry)
    );
}

#[test]
fn circle_beyond_the_end_of_the_segment_does_not_collide() {
    let s = segment(0, 0, 10_000, 0);
    assert_eq!(line_circle_collision(&s, &circle(20_000, 0, 5000)), Ok(false));
}

#[test]
fn circle_reaching_the_end_of_the_segment_collides() {
    let s = segment(0, 0, 10_000, 0);
    assert_eq!(line_circle_collision(&s, &circle(15_000, 0, 5000)), Ok(true));
}

#[test]
fn contact_point_of_a_tangent_segment() {
    let s = segment(0, 0, 10_000, 0);
    let c = circle(5000, 5000, 5000);
    assert_eq!(get_colliding_points_between_line_and_circle(&s, &c), Ok(vec![at(5000, 0)]));
}

#[test]
fn contact_points_come_in_order() {
    let s = segment(0, 0, 10_000, 0);
    let c = circle(5000, 0, 6000);
    assert_eq!(
        get_colliding_points_between_line_and_circle(&s, &c),
        Ok(vec![at(0, 0), at(10_000, 0), at(5000, 0)])
    );
    let reversed = segment(10_000, 0, 0, 0);
    assert_eq!(
        get_colliding_points_between_line_and_circle(&reversed, &c),
        Ok(vec![at(10_000, 0), at(0, 0), at(5000, 0)])
    );
}

#[test]
fn contact_points_of_one_end_only() {
    let s = segment(0, 0, 10_000, 0);
    let c = circle(-1000, 0, 1500);
    assert_eq!(get_colliding_points_between_line_and_circle(&s, &c), Ok(vec![at(0, 0)]));
    let far_end = circle(10_000, 2000, 2000);
    assert_eq!(
        get_colliding_points_between_line_and_circle(&s, &far_end),
        Ok(vec![at(10_000, 0), at(10_000, 0)])
    );
}

#[test]
fn no_contact_points_without_collision() {
    let s = segment(0, 0, 10_000, 0);
    assert_eq!(
        get_colliding_points_between_line_and_circle(&s, &circle(5000, 9000, 5000)),
        Ok(Vec::new())
    );
    assert_eq!(
        get_colliding_points_between_line_and_circle(&s, &circle(20_000, 0, 5000)),
        Ok(Vec::new())
    );
}

#[test]
fn contact_points_of_a_degenerate_segment_fail() {
    let c = circle(0, 0, 1000);
    assert_eq!(
        get_colliding_points_between_line_and_circle(&segment(1, 1, 1, 1), &c),
        Err(GeometryError::DegenerateGeometry)
    );
}

#[test]
fn contact_point_outside_the_coordinates_fails() {
    let s = segment(i32::MAX - 10, i32::MAX - 20, i32::MAX, i32::MAX - 10);
    let c = circle(i32::MAX, i32::MAX, 100);
    assert_eq!(
        get_colliding_points_between_line_and_circle(&s, &c),
        Err(GeometryError::CoordinateOverflow)
    );
    assert_eq!(line_circle_collision(&s, &c), Ok(true));
}

#[test]
fn collision_agrees_with_contact_points() {
    let s = segment(-3000, 2000, 4000, -1000);
    for cx in (-6000..6000).step_by(1500) {
        for cy in (-6000..6000).step_by(1500) {
            let c = circle(cx, cy, 1800);
            let points = get_colliding_points_between_line_and_circle(&s, &c);
            let hit = line_circle_collision(&s, &c);
            assert_eq!(hit.map(|h| !h), points.map(|p| p.is_empty()));
        }
    }
}

#[test]
fn segment_with_an_end_in_the_circle_always_collides() {
    let c = circle(200, -300, 2500);
    for x in (-3000..3001).step_by(600) {
        for y in (-3000..3001).step_by(600) {
            let inside = at(x, y);
            if point_circle_collision(&inside, &c) {
                for far in [at(90_000, 0), at(-40_000, 70_000), at(x, y), at(x + 1, y)] {
                    assert_eq!(line_circle_collision(&Segment { start: inside, end: far }, &c), Ok(true));
                    assert_eq!(line_circle_collision(&Segment { start: far, end: inside }, &c), Ok(true));
                }
            }
        }
    }
}
