use termray::tri::Tri;
use termray::vec3::Vec3;

fn v(x: i64, y: i64, z: i64) -> Vec3 {
    Vec3 { x, y, z }
}

fn triangle_at(z: i64) -> Tri {
    Tri {
        v0: v(-1000, -1000, z),
        v1: v(1000, -1000, z),
        v2: v(0, 1000, z),
        color: v(255_000, 255_000, 255_000),
    }
}

#[test]
fn known_hit_straight_ahead() {
    // ray origin (0,0,-1), direction (0,0,1), triangle in the z = 0 plane:
    // a hit at distance one
    let tri = triangle_at(0);
    let (hit, dist) = tri.hit_mt(v(0, 0, -1000), v(0, 0, 1000));
    assert!(hit);
    assert_eq!(dist, 1000);
}

#[test]
fn known_miss_behind_origin() {
    // the same triangle moved to z = -5 sits behind the ray origin along
    // its travel: no hit
    let tri = triangle_at(-5000);
    let (hit, _) = tri.hit_mt(v(0, 0, -1000), v(0, 0, 1000));
    assert!(!hit);
}

#[test]
fn miss_outside_the_triangle() {
    let tri = triangle_at(0);
    let (hit, _) = tri.hit_mt(v(5000, 5000, -1000), v(0, 0, 1000));
    assert!(!hit);
}

#[test]
fn parallel_ray_is_a_miss() {
    let tri = triangle_at(0);
    // a ray running inside the triangle's own plane
    let (hit, dist) = tri.hit_mt(v(0, 0, 0), v(1000, 0, 0));
    assert!(!hit);
    assert_eq!(dist, 0);
}

#[test]
fn degenerate_triangle_never_hits() {
    // collinear corners: the determinant test rejects it without panicking
    let tri = Tri {
        v0: v(0, 0, 0),
        v1: v(1000, 0, 0),
        v2: v(2000, 0, 0),
        color: v(0, 0, 0),
    };
    let (hit, _) = tri.hit_mt(v(0, 0, -1000), v(0, 0, 1000));
    assert!(!hit);
}

#[test]
fn hit_is_deterministic() {
    let tri = triangle_at(0);
    let a = tri.hit_mt(v(0, 0, -1000), v(0, 0, 1000));
    let b = tri.hit_mt(v(0, 0, -1000), v(0, 0, 1000));
    assert_eq!(a, b);
}

#[test]
fn reference_hit_test_agrees_on_the_known_hit() {
    let tri = triangle_at(0);
    let (hit, dist) = tri.hit_geo(v(0, 0, -1000), v(0, 0, 1000));
    assert!(hit);
    assert_eq!(dist, 1000);
    assert_eq!((hit, dist), tri.hit_mt(v(0, 0, -1000), v(0, 0, 1000)));
}

#[test]
fn reference_hit_test_agrees_on_the_known_miss() {
    let tri = triangle_at(-5000);
    let (hit, _) = tri.hit_geo(v(0, 0, -1000), v(0, 0, 1000));
    assert!(!hit);
}

#[test]
fn reference_hit_test_rejects_degenerate_inputs() {
    let tri = triangle_at(0);
    // a ray too short to normalise
    let (hit, _) = tri.hit_geo(v(0, 0, -1000), v(0, 0, 10));
    assert!(!hit);
    let flat = Tri { v0: v(0, 0, 0), v1: v(1000, 0, 0), v2: v(2000, 0, 0), color: v(0, 0, 0) };
    let (hit2, _) = flat.hit_geo(v(0, 0, -1000), v(0, 0, 1000));
    assert!(!hit2);
}

#[test]
fn normal_of_axis_aligned_triangle() {
    let tri = triangle_at(0);
    let n = tri.normal();
    assert_eq!(n, v(0, 0, 1000));
    assert_eq!(n.abs(), 1000);
}
