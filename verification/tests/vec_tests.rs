use termray::vec3::{Orientation, Rot, Vec3};

fn v(x: i64, y: i64, z: i64) -> Vec3 {
    Vec3 { x, y, z }
}

#[test]
fn add_sub_scale_div() {
    let a = v(1000, -2000, 3000);
    let b = v(500, 500, -500);
    assert_eq!(a.add(b), v(1500, -1500, 2500));
    assert_eq!(a.sub(b), v(500, -2500, 3500));
    // scaling by one half (500 thousandths) truncates toward zero
    assert_eq!(a.scale(500), v(500, -1000, 1500));
    assert_eq!(a.div(2000), v(500, -1000, 1500));
}

#[test]
fn dot_and_cross() {
    let a = v(1000, 0, 0);
    let b = v(0, 1000, 0);
    assert_eq!(a.dot(b), 0);
    assert_eq!(a.dot(a), 1000);
    assert_eq!(a.cross(b), v(0, 0, 1000));
    assert_eq!(b.cross(a), v(0, 0, -1000));
    let c = v(2000, 3000, 4000);
    let d = v(5000, 6000, 7000);
    // 2*5 + 3*6 + 4*7 = 56, in thousandths
    assert_eq!(c.dot(d), 56_000);
}

#[test]
fn magnitude_of_pythagorean_triple() {
    let a = v(3000, 4000, 0);
    assert_eq!(a.abs(), 5000);
    let b = v(1000, 0, 0);
    assert_eq!(b.abs(), 1000);
}

#[test]
fn magnitude_of_a_large_vector() {
    // a million world units along one axis: the square root runs near the
    // top of the i64 range without overflowing
    let a = v(1_000_000_000, 0, 0);
    assert_eq!(a.abs(), 1_000_000_000);
}

#[test]
fn normalize_unit_magnitude() {
    // magnitude of a normalised vector comes out at one world unit for
    // exactly representable directions
    let a = v(3000, 4000, 0);
    let n = a.norm();
    assert_eq!(n, v(600, 800, 0));
    assert_eq!(n.abs(), 1000);
}

#[test]
fn normalize_idempotent_on_exact_direction() {
    let a = v(3000, 4000, 0);
    let n = a.norm();
    let nn = n.norm();
    assert_eq!(nn, n);
}

#[test]
fn rotate_quarter_turns() {
    // a quarter turn: sine one, cosine zero
    let quarter = Rot { sin: 1000, cos: 0 };
    assert_eq!(v(0, 1000, 0).rotate_x(&quarter), v(0, 0, 1000));
    assert_eq!(v(1000, 0, 0).rotate_y(&quarter), v(0, 0, -1000));
    assert_eq!(v(1000, 0, 0).rotate_z(&quarter), v(0, 1000, 0));
}

#[test]
fn rotate_identity_composition() {
    let id = Rot { sin: 0, cos: 1000 };
    let o = Orientation { yaw: id, pitch: id, roll: id };
    let a = v(123, -456, 789);
    assert_eq!(a.rotate(&o), a);
}

#[test]
fn rotate_applies_roll_then_pitch_then_yaw() {
    let id = Rot { sin: 0, cos: 1000 };
    let quarter = Rot { sin: 1000, cos: 0 };
    // yaw-only: same as rotate_y
    let o = Orientation { yaw: quarter, pitch: id, roll: id };
    assert_eq!(v(1000, 0, 0).rotate(&o), v(1000, 0, 0).rotate_y(&quarter));
    // roll-only: same as rotate_z
    let o2 = Orientation { yaw: id, pitch: id, roll: quarter };
    assert_eq!(v(1000, 0, 0).rotate(&o2), v(1000, 0, 0).rotate_z(&quarter));
}
