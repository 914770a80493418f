use termray::collider::{BoxCollider, Tag};
use termray::enemies::Enemy;
use termray::vec3::Vec3;

fn v(x: i64, y: i64, z: i64) -> Vec3 {
    Vec3 { x, y, z }
}

#[test]
fn default_enemy_sits_mid_cell_with_its_tag() {
    let e = Enemy::default();
    let col = e.get_collider();
    assert_eq!(col.tag, Some(Tag::AngryPixel));
    // the local one-unit cube translated to (5, 7.5, 5)
    assert_eq!((col.min_x, col.max_x), (4000, 6000));
    assert_eq!((col.min_y, col.max_y), (6500, 8500));
    assert_eq!((col.min_z, col.max_z), (4000, 6000));
}

#[test]
fn default_enemy_mesh_is_a_red_cube() {
    let e = Enemy::default();
    let mesh = e.get_mesh();
    let tris = mesh.tris();
    assert_eq!(tris.len(), 12);
    for t in &tris {
        assert_eq!(t.color, v(255_000, 0, 0));
        for c in [t.v0, t.v1, t.v2] {
            // corners of the cube around the enemy's position
            assert!(c.x == 4000 || c.x == 6000);
            assert!(c.y == 6500 || c.y == 8500);
            assert!(c.z == 4000 || c.z == 6000);
        }
    }
}

#[test]
fn translate_moves_the_enemy() {
    let e = Enemy::default().translate(v(10_000, 0, -10_000));
    let col = e.get_collider();
    assert_eq!((col.min_x, col.max_x), (14_000, 16_000));
    assert_eq!((col.min_z, col.max_z), (-6000, -4000));
}

#[test]
fn enemy_chases_a_player_in_vision() {
    let mut e = Enemy::default();
    let world: Vec<BoxCollider> = vec![];
    let before = e.get_collider();
    // the player stands two cells away along x: within the four-cell vision
    e.update(100, v(25_000, 7500, 5000), &world);
    let after = e.get_collider();
    assert!(after.min_x > before.min_x);
    assert_eq!(after.min_y, before.min_y);
    assert_eq!(after.min_z, before.min_z);
}

#[test]
fn enemy_ignores_a_player_out_of_vision() {
    let mut e = Enemy::default();
    let world: Vec<BoxCollider> = vec![];
    let before = e.get_collider();
    // five cells away: beyond the vision radius of four cells
    e.update(100, v(55_000, 7500, 5000), &world);
    let after = e.get_collider();
    assert_eq!((after.min_x, after.min_y, after.min_z), (before.min_x, before.min_y, before.min_z));
}

#[test]
fn enemy_is_stopped_by_walls() {
    let mut e = Enemy::default();
    // a wall right of the enemy
    let wall = BoxCollider::new((7000, 20_000, -20_000), (17_000, -20_000, 20_000), None);
    let world = vec![wall];
    e.update(100, v(25_000, 7500, 5000), &world);
    let col = e.get_collider();
    // flush against the wall at most, not inside it
    assert!(col.max_x <= 7000);
}
