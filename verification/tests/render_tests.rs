use termray::camera::Camera;
use termray::mesh::Mesh;
use termray::render::Screen;
use termray::tri::Tri;
use termray::vec3::{Orientation, Rot, Vec3};

fn v(x: i64, y: i64, z: i64) -> Vec3 {
    Vec3 { x, y, z }
}

fn identity() -> Orientation {
    let id = Rot { sin: 0, cos: 1000 };
    Orientation { yaw: id, pitch: id, roll: id }
}

fn camera_at_origin() -> Camera {
    Camera { pos: v(0, 0, 0), focus_length: 1000, rotation: identity(), vel: v(0, 0, 0) }
}

/// A wide triangle facing the camera two units ahead.
fn big_triangle() -> Tri {
    Tri {
        v0: v(-5000, -5000, 2000),
        v1: v(5000, -5000, 2000),
        v2: v(0, 5000, 2000),
        color: v(255_000, 100_000, 0),
    }
}

#[test]
fn empty_mesh_renders_black() {
    let screen = Screen::new(4, 3);
    let buffer = screen.render_mt(&camera_at_origin(), &vec![]);
    assert_eq!(buffer.len(), 3);
    for row in &buffer {
        assert_eq!(row.len(), 4);
        for pix in row {
            assert_eq!(*pix, v(0, 0, 0));
        }
    }
}

#[test]
fn single_pixel_hit_has_exact_shade() {
    // a one-cell screen: the ray direction is (-1, -1, 1); the triangle
    // plane z = 2 is met at distance two; the angular factor truncates to
    // 577 thousandths and the fog at distance two to 934
    let screen = Screen::new(1, 1);
    let buffer = screen.render_mt(&camera_at_origin(), &vec![big_triangle()]);
    assert_eq!(buffer.len(), 1);
    assert_eq!(buffer[0].len(), 1);
    assert_eq!(buffer[0][0], v(137_424, 53_891, 0));
}

#[test]
fn shading_never_brightens_a_channel() {
    let screen = Screen::new(8, 4);
    let tris = vec![big_triangle()];
    let buffer = screen.render_mt(&camera_at_origin(), &tris);
    for row in &buffer {
        for pix in row {
            assert!(0 <= pix.x && pix.x <= 255_000);
            assert!(0 <= pix.y && pix.y <= 100_000);
            assert_eq!(pix.z, 0);
        }
    }
}

#[test]
fn triangle_behind_camera_is_not_rendered() {
    let screen = Screen::new(4, 2);
    let mut behind = big_triangle();
    behind.v0.z = -2000;
    behind.v1.z = -2000;
    behind.v2.z = -2000;
    let buffer = screen.render_mt(&camera_at_origin(), &vec![behind]);
    for row in &buffer {
        for pix in row {
            assert_eq!(*pix, v(0, 0, 0));
        }
    }
}

#[test]
fn pruning_discards_far_rear_geometry_only() {
    let screen = Screen::new(2, 2);
    let cam = camera_at_origin();

    // near and ahead: kept, so both renders agree and show the triangle
    let mut near = Mesh::new(vec![]);
    near.push(big_triangle());
    let pruned = screen.render_pruned_mt(&cam, &near);
    let full = screen.render_mt(&cam, &near.tris());
    assert_eq!(pruned, full);

    // far behind the camera on every vertex: pruned to an empty frame
    let mut rear = big_triangle();
    rear.v0 = v(-5000, -5000, -40_000);
    rear.v1 = v(5000, -5000, -40_000);
    rear.v2 = v(0, 5000, -40_000);
    let mut far_mesh = Mesh::new(vec![]);
    far_mesh.push(rear);
    let buffer = screen.render_pruned_mt(&cam, &far_mesh);
    for row in &buffer {
        for pix in row {
            assert_eq!(*pix, v(0, 0, 0));
        }
    }
}

#[test]
fn closest_triangle_wins() {
    let screen = Screen::new(1, 1);
    let mut far = big_triangle();
    far.v0.z = 4000;
    far.v1.z = 4000;
    far.v2.z = 4000;
    far.color = v(0, 0, 255_000);
    // the nearer triangle decides the pixel whatever the order
    let buffer_a = screen.render_mt(&camera_at_origin(), &vec![far, big_triangle()]);
    let buffer_b = screen.render_mt(&camera_at_origin(), &vec![big_triangle(), far]);
    assert_eq!(buffer_a[0][0], v(137_424, 53_891, 0));
    assert_eq!(buffer_a, buffer_b);
}
