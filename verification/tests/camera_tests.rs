use termray::camera::{input_velocity, Camera};
use termray::vec3::{Orientation, Rot, Vec3};

fn v(x: i64, y: i64, z: i64) -> Vec3 {
    Vec3 { x, y, z }
}

fn identity() -> Orientation {
    let id = Rot { sin: 0, cos: 1000 };
    Orientation { yaw: id, pitch: id, roll: id }
}

#[test]
fn update_pos_integrates_velocity() {
    let mut cam = Camera {
        pos: v(1000, 2000, 3000),
        focus_length: 1500,
        rotation: identity(),
        vel: v(10_000, -20_000, 0),
    };
    // a tenth of a second
    cam.update_pos(100);
    assert_eq!(cam.pos, v(2000, 0, 3000));
    assert_eq!(cam.vel, v(10_000, -20_000, 0));
}

#[test]
fn gravity_pulls_down_and_caps() {
    let mut cam = Camera {
        pos: v(0, 0, 0),
        focus_length: 1500,
        rotation: identity(),
        vel: v(0, 120_000, 0),
    };
    // gravity 125/s^2 for 0.1 s adds 12.5 units/s of fall speed
    cam.apply_gravity(125_000, 130_000, 100);
    assert_eq!(cam.vel.y, 130_000);
    let mut slow = Camera {
        pos: v(0, 0, 0),
        focus_length: 1500,
        rotation: identity(),
        vel: v(0, 10_000, 0),
    };
    slow.apply_gravity(125_000, 130_000, 100);
    assert_eq!(slow.vel.y, 22_500);
}

#[test]
fn input_velocity_forward_with_identity_yaw() {
    let yaw = Rot { sin: 0, cos: 1000 };
    let vel = input_velocity(true, false, false, false, &yaw, 7000);
    assert_eq!(vel, v(0, 7000, 30_000));
}

#[test]
fn input_velocity_strafes_cancel() {
    let yaw = Rot { sin: 0, cos: 1000 };
    let vel = input_velocity(false, true, true, false, &yaw, 0);
    assert_eq!(vel, v(0, 0, 0));
}

#[test]
fn input_velocity_rotates_with_yaw() {
    // a quarter turn of yaw sends "forward" along +x
    let yaw = Rot { sin: 1000, cos: 0 };
    let vel = input_velocity(true, false, false, false, &yaw, 0);
    assert_eq!(vel, v(30_000, 0, 0));
}

#[test]
fn no_keys_keeps_vertical_velocity_only() {
    let yaw = Rot { sin: 866, cos: 500 };
    let vel = input_velocity(false, false, false, false, &yaw, -53_000);
    assert_eq!(vel, v(0, -53_000, 0));
}
