use termray::mesh::Mesh;
use termray::tri::Tri;
use termray::vec3::Vec3;

fn v(x: i64, y: i64, z: i64) -> Vec3 {
    Vec3 { x, y, z }
}

fn tri(n: i64) -> Tri {
    Tri { v0: v(n, 0, 0), v1: v(0, n, 0), v2: v(0, 0, n), color: v(n, n, n) }
}

#[test]
fn decode_reverses_corners_within_a_group() {
    // one group of four entries: the first three are v2, v1, v0, the
    // fourth the color
    let mesh = Mesh::new(vec![(1, 2, 3), (4, 5, 6), (7, 8, 9), (250, 251, 252)]);
    let tris = mesh.tris();
    assert_eq!(tris.len(), 1);
    assert_eq!(tris[0].v0, v(7, 8, 9));
    assert_eq!(tris[0].v1, v(4, 5, 6));
    assert_eq!(tris[0].v2, v(1, 2, 3));
    assert_eq!(tris[0].color, v(250, 251, 252));
}

#[test]
fn decode_drops_a_trailing_partial_group() {
    let mesh = Mesh::new(vec![
        (1, 1, 1),
        (2, 2, 2),
        (3, 3, 3),
        (9, 9, 9),
        (4, 4, 4),
        (5, 5, 5),
    ]);
    assert_eq!(mesh.len(), 1);
    let empty = Mesh::new(vec![(1, 1, 1), (2, 2, 2), (3, 3, 3)]);
    assert_eq!(empty.len(), 0);
}

#[test]
fn concat_appends_in_order() {
    let mut a = Mesh::new(vec![]);
    a.push(tri(1));
    let mut b = Mesh::new(vec![]);
    b.push(tri(2));
    b.push(tri(3));
    let c = a.concat(b);
    assert_eq!(c.tris(), vec![tri(1), tri(2), tri(3)]);
}

#[test]
fn concat_is_associative() {
    let build = |ns: &[i64]| {
        let mut m = Mesh::new(vec![]);
        for &n in ns {
            m.push(tri(n));
        }
        m
    };
    let left = build(&[1, 2]).concat(build(&[3])).concat(build(&[4, 5]));
    let right = build(&[1, 2]).concat(build(&[3]).concat(build(&[4, 5])));
    assert_eq!(left.tris(), right.tris());
}

#[test]
fn translate_moves_corners_not_colors() {
    let mut m = Mesh::new(vec![]);
    m.push(tri(1000));
    m.translate(v(10, 20, 30));
    let t = &m.tris()[0];
    assert_eq!(t.v0, v(1010, 20, 30));
    assert_eq!(t.v1, v(10, 1020, 30));
    assert_eq!(t.v2, v(10, 20, 1030));
    assert_eq!(t.color, v(1000, 1000, 1000));
}

#[test]
fn gpu_buffer_data_flattens_corners_and_colors() {
    let mut m = Mesh::new(vec![]);
    m.push(tri(7));
    m.push(tri(8));
    let (verts, colors) = m.gpu_buffer_data();
    assert_eq!(verts.len(), 6);
    assert_eq!(colors.len(), 2);
    assert_eq!(verts[0], [7, 0, 0]);
    assert_eq!(verts[1], [0, 7, 0]);
    assert_eq!(verts[2], [0, 0, 7]);
    assert_eq!(verts[3], [8, 0, 0]);
    assert_eq!(colors[0], [7, 7, 7]);
    assert_eq!(colors[1], [8, 8, 8]);
}
