use termray::collider::{BoxCollider, Tag};
use termray::collision::check_collision;
use termray::vec3::Vec3;

fn v(x: i64, y: i64, z: i64) -> Vec3 {
    Vec3 { x, y, z }
}

/// The player's collider shape: y grows downward, so the feet are at +4.5.
fn player_collider() -> BoxCollider {
    BoxCollider::new((-200, 4500, -200), (200, -1000, 200), None)
}

/// A floor cell spanning x,z in [0,10] with its top at y = 13.5.
fn floor_collider() -> BoxCollider {
    BoxCollider::new((0, 15_000, 0), (10_000, 13_500, 10_000), None)
}

#[test]
fn at_rest_resolution_is_idempotent() {
    let world = vec![floor_collider()];
    let mut pc = player_collider();
    let mut pos = v(5000, 9000, 5000);
    let mut vel = v(0, 0, 0);
    let mut grounded = false;
    let t1 = check_collision(&mut pc, &mut pos, &mut vel, 100, &world, &mut grounded);
    assert_eq!(pos, v(5000, 9000, 5000));
    assert_eq!(vel, v(0, 0, 0));
    assert_eq!(t1, None);
    let t2 = check_collision(&mut pc, &mut pos, &mut vel, 100, &world, &mut grounded);
    assert_eq!(pos, v(5000, 9000, 5000));
    assert_eq!(vel, v(0, 0, 0));
    assert_eq!(t2, None);
    assert!(!grounded);
}

#[test]
fn falling_onto_floor_grounds_and_stops() {
    let world = vec![floor_collider()];
    let mut pc = player_collider();
    let mut pos = v(5000, 9000, 5000);
    // falling: down is positive y in this engine
    let mut vel = v(0, 1000, 0);
    let mut grounded = false;
    let tag = check_collision(&mut pc, &mut pos, &mut vel, 100, &world, &mut grounded);
    assert_eq!(tag, None);
    assert_eq!(vel.y, 0);
    assert!(grounded);
    // pushed flush: the feet (pos.y + 4.5) rest on the floor top at 13.5
    assert_eq!(pos, v(5000, 9000, 5000));
}

#[test]
fn wall_stops_horizontal_motion() {
    // a wall ahead on the x axis
    let wall = BoxCollider::new((6000, 15_000, 0), (16_000, 0, 10_000), None);
    let world = vec![wall];
    let mut pc = player_collider();
    let mut pos = v(5000, 9000, 5000);
    let mut vel = v(10_000, 0, 0);
    let mut grounded = false;
    check_collision(&mut pc, &mut pos, &mut vel, 100, &world, &mut grounded);
    assert_eq!(vel.x, 0);
    // pushed back flush: pos.x + 200 == 6000
    assert_eq!(pos.x, 5800);
    assert!(!grounded);
}

#[test]
fn goal_tag_reported_from_overlap() {
    // a goal zone surrounding the mover is reported whichever axis pass
    // finds it, even with no velocity at all
    let goal = BoxCollider::new((4000, 14_000, 4000), (6000, 8000, 6000), Some(Tag::Goal));
    let world = vec![goal];
    let mut pc = player_collider();
    let mut pos = v(5000, 9000, 5000);
    let mut vel = v(0, 0, 0);
    let mut grounded = false;
    let tag = check_collision(&mut pc, &mut pos, &mut vel, 100, &world, &mut grounded);
    assert_eq!(tag, Some(Tag::Goal));
    assert_eq!(pos, v(5000, 9000, 5000));
}

#[test]
fn goal_tag_reported_from_swept_overlap() {
    // the goal zone lies ahead on x: only the swept box reaches it
    let goal = BoxCollider::new((5300, 14_000, 4000), (7000, 8000, 6000), Some(Tag::Goal));
    let world = vec![goal];
    let mut pc = player_collider();
    let mut pos = v(5000, 9000, 5000);
    let mut vel = v(3000, 0, 0);
    let mut grounded = false;
    let tag = check_collision(&mut pc, &mut pos, &mut vel, 100, &world, &mut grounded);
    assert_eq!(tag, Some(Tag::Goal));
}

#[test]
fn last_tagged_collider_wins() {
    let spike = BoxCollider::new((4000, 14_000, 4000), (6000, 8000, 6000), Some(Tag::Spike));
    let goal = BoxCollider::new((4000, 14_000, 4000), (6000, 8000, 6000), Some(Tag::Goal));
    let mut pc = player_collider();

    let mut pos = v(5000, 9000, 5000);
    let mut vel = v(0, 0, 0);
    let mut grounded = false;
    let world = vec![spike, goal];
    let tag = check_collision(&mut pc, &mut pos, &mut vel, 100, &world, &mut grounded);
    assert_eq!(tag, Some(Tag::Goal));

    let world_rev = vec![goal, spike];
    let tag_rev = check_collision(&mut pc, &mut pos, &mut vel, 100, &world_rev, &mut grounded);
    assert_eq!(tag_rev, Some(Tag::Spike));
}

#[test]
fn death_zone_tag_is_reported() {
    let zone = BoxCollider::new((4000, 14_000, 4000), (6000, 8000, 6000), Some(Tag::Death));
    let world = vec![zone];
    let mut pc = player_collider();
    let mut pos = v(5000, 9000, 5000);
    let mut vel = v(0, 0, 0);
    let mut grounded = false;
    let tag = check_collision(&mut pc, &mut pos, &mut vel, 100, &world, &mut grounded);
    assert_eq!(tag, Some(Tag::Death));
}

#[test]
fn empty_world_reports_nothing() {
    let world: Vec<BoxCollider> = vec![];
    let mut pc = player_collider();
    let mut pos = v(0, 0, 0);
    let mut vel = v(500, 500, 500);
    let mut grounded = false;
    let tag = check_collision(&mut pc, &mut pos, &mut vel, 100, &world, &mut grounded);
    assert_eq!(tag, None);
    assert_eq!(pos, v(0, 0, 0));
    assert_eq!(vel, v(500, 500, 500));
    assert!(!grounded);
}

#[test]
fn collider_construction_normalises_corners() {
    let b = BoxCollider::new((10, -20, 30), (-10, 20, -30), None);
    assert_eq!((b.min_x, b.max_x), (-10, 10));
    assert_eq!((b.min_y, b.max_y), (-20, 20));
    assert_eq!((b.min_z, b.max_z), (-30, 30));
}

#[test]
fn intersection_respects_margin() {
    let a = BoxCollider::new((0, 0, 0), (1000, 1000, 1000), None);
    // flush neighbour: within the margin, no intersection
    let b = BoxCollider::new((1000, 0, 0), (2000, 1000, 1000), None);
    assert!(!a.intersects(&b));
    // overlapping by more than the margin
    let c = BoxCollider::new((980, 0, 0), (2000, 1000, 1000), None);
    assert!(a.intersects(&c));
}

#[test]
fn translate_shifts_all_bounds() {
    let mut b = BoxCollider::new((0, 0, 0), (1000, 1000, 1000), None);
    b.translate(v(10, 20, 30));
    assert_eq!((b.min_x, b.max_x), (10, 1010));
    assert_eq!((b.min_y, b.max_y), (20, 1020));
    assert_eq!((b.min_z, b.max_z), (30, 1030));
}
