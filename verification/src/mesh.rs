//! Triangle meshes: decoding from a flat vertex stream, concatenation and
//! bulk translation.

use vstd::prelude::*;

use crate::tri::{Tri, T3};
use crate::vec3::{s_add, Vec3, V3};

verus! {

broadcast use vstd::array::group_array_axioms;

/// The model of one vertex-stream entry.
pub open spec fn v3_of(t: (i64, i64, i64)) -> V3 {
    V3 { x: t.0 as int, y: t.1 as int, z: t.2 as int }
}

/// Decoding of a flat vertex stream: each group of four entries is one
/// triangle, the first three entries being `v2`, `v1`, `v0` in that order
/// (the authoring convention writes the corners counter-clockwise and the
/// intersection test reads them reversed) and the fourth the color.  A
/// trailing partial group is dropped.
pub open spec fn decode_stream(vs: Seq<(i64, i64, i64)>) -> Seq<T3> {
    Seq::new(
        vs.len() / 4,
        |k: int|
            T3 {
                v0: v3_of(vs[4 * k + 2]),
                v1: v3_of(vs[4 * k + 1]),
                v2: v3_of(vs[4 * k]),
                color: v3_of(vs[4 * k + 3]),
            },
    )
}

/// A triangle translated by an offset: the corners move, the color stays.
pub open spec fn s_tri_translate(t: T3, off: V3) -> T3 {
    T3 { v0: s_add(t.v0, off), v1: s_add(t.v1, off), v2: s_add(t.v2, off), color: t.color }
}

/// The translation of a whole triangle sequence.
pub open spec fn s_mesh_translate(ts: Seq<T3>, off: V3) -> Seq<T3> {
    ts.map_values(|t: T3| s_tri_translate(t, off))
}

/// Componentwise sums of a triangle's corners with an offset stay in `i64`.
pub open spec fn tri_translate_fits(t: T3, off: V3) -> bool {
    &&& i64::MIN <= t.v0.x + off.x <= i64::MAX
    &&& i64::MIN <= t.v0.y + off.y <= i64::MAX
    &&& i64::MIN <= t.v0.z + off.z <= i64::MAX
    &&& i64::MIN <= t.v1.x + off.x <= i64::MAX
    &&& i64::MIN <= t.v1.y + off.y <= i64::MAX
    &&& i64::MIN <= t.v1.z + off.z <= i64::MAX
    &&& i64::MIN <= t.v2.x + off.x <= i64::MAX
    &&& i64::MIN <= t.v2.y + off.y <= i64::MAX
    &&& i64::MIN <= t.v2.z + off.z <= i64::MAX
}

/// An unordered, append-friendly collection of colored triangles.
#[derive(Clone, Debug)]
pub struct Mesh {
    tris: Vec<Tri>,
}

impl View for Mesh {
    type V = Seq<T3>;

    closed spec fn view(&self) -> Seq<T3> {
        self.tris@.map_values(|t: Tri| t@)
    }
}

impl Mesh {
    /// Decode a mesh from a flat vertex stream, in groups of four entries
    /// (three corners in reverse order, then a color).
    pub fn new(vertices: Vec<(i64, i64, i64)>) -> (r: Mesh)
        ensures
            r@ == decode_stream(vertices@),
    {
        let l = vertices.len();
        let mut tris: Vec<Tri> = Vec::new();
        let mut i: usize = 3;
        while i < l
            invariant
                3 <= i,
                i <= l + 3,
                l == vertices@.len(),
                4 * tris@.len() == i - 3,
                forall|j: int|
                    0 <= j < tris@.len() ==> 4 * j + 3 < l && #[trigger] tris@[j]@
                        == decode_stream(vertices@)[j],
            decreases l + 4 - i,
        {
            let a = vertices[i - 3];
            let b = vertices[i - 2];
            let c = vertices[i - 1];
            let d = vertices[i];
            let tri = Tri {
                v0: Vec3 { x: c.0, y: c.1, z: c.2 },
                v1: Vec3 { x: b.0, y: b.1, z: b.2 },
                v2: Vec3 { x: a.0, y: a.1, z: a.2 },
                color: Vec3 { x: d.0, y: d.1, z: d.2 },
            };
            proof {
                let k = tris@.len() as int;
                assert((4 * k + 4) / 4 == k + 1) by (nonlinear_arith);
                vstd::arithmetic::div_mod::lemma_div_is_ordered(4 * k + 4, l as int, 4);
                assert(k < vertices@.len() / 4);
            }
            tris.push(tri);
            i += 4;
        }
        proof {
            let k = tris@.len() as int;
            assert((4 * k + 3) / 4 == k) by (nonlinear_arith);
            assert((4 * k) / 4 == k) by (nonlinear_arith);
            vstd::arithmetic::div_mod::lemma_div_is_ordered(l as int, 4 * k + 3, 4);
            vstd::arithmetic::div_mod::lemma_div_is_ordered(4 * k, l as int, 4);
            assert(tris@.len() == decode_stream(vertices@).len());
        }
        let r = Mesh { tris };
        proof {
            assert(r@ =~= decode_stream(vertices@));
        }
        r
    }

    /// A fresh mesh holding the same triangles.
    pub fn clone_mesh(&self) -> (r: Mesh)
        ensures
            r@ == self@,
    {
        Mesh { tris: self.tris.clone() }
    }

    /// The triangles, as a fresh vector.
    pub fn tris(&self) -> (r: Vec<Tri>)
        ensures
            r@.map_values(|t: Tri| t@) == self@,
            r@.len() == self@.len(),
            forall|j: int| 0 <= j < r@.len() ==> (#[trigger] r@[j])@ == self@[j],
    {
        let r = self.tris.clone();
        proof {
            assert(r@ == self.tris@);
        }
        r
    }

    /// How many triangles the mesh holds.
    pub fn len(&self) -> (r: usize)
        ensures
            r == self@.len(),
    {
        self.tris.len()
    }

    /// Append one triangle.
    pub fn push(&mut self, t: Tri)
        ensures
            final(self)@ == old(self)@.push(t@),
    {
        self.tris.push(t);
        proof {
            assert(final(self)@ =~= old(self)@.push(t@));
        }
    }

    /// Concatenation: the triangles of `self` followed by those of `rhs`,
    /// transferring ownership of both.
    pub fn concat(self, rhs: Mesh) -> (r: Mesh)
        ensures
            r@ == self@ + rhs@,
    {
        let mut tris1 = self.tris;
        let mut tris2 = rhs.tris;
        tris1.append(&mut tris2);
        let r = Mesh { tris: tris1 };
        proof {
            assert(r@ =~= self@ + rhs@);
        }
        r
    }

    /// Translate every triangle in bulk by an offset.
    pub fn translate(&mut self, off: Vec3)
        requires
            forall|j: int| 0 <= j < old(self)@.len() ==> tri_translate_fits(#[trigger] old(self)@[j], off@),
        ensures
            final(self)@ == s_mesh_translate(old(self)@, off@),
    {
        let n = self.tris.len();
        let mut i: usize = 0;
        while i < n
            invariant
                0 <= i <= n,
                n == self.tris@.len(),
                self.tris@.len() == old(self).tris@.len(),
                forall|j: int|
                    0 <= j < old(self)@.len() ==> tri_translate_fits(#[trigger] old(self)@[j], off@),
                forall|j: int|
                    i <= j < n ==> #[trigger] self.tris@[j] == old(self).tris@[j],
                forall|j: int|
                    0 <= j < i ==> (#[trigger] self.tris@[j])@ == s_tri_translate(
                        old(self)@[j],
                        off@,
                    ),
            decreases n - i,
        {
            let t = self.tris[i];
            proof {
                assert(old(self)@[i as int] == old(self).tris@[i as int]@);
                assert(tri_translate_fits(old(self)@[i as int], off@));
            }
            let moved = Tri {
                v0: t.v0.add(off),
                v1: t.v1.add(off),
                v2: t.v2.add(off),
                color: t.color,
            };
            self.tris.set(i, moved);
            i += 1;
        }
        proof {
            assert(final(self)@ =~= s_mesh_translate(old(self)@, off@));
        }
    }

    /// The corner and color streams in render order: three corner rows per
    /// triangle and one color row.
    pub fn gpu_buffer_data(&self) -> (r: (Vec<[i64; 3]>, Vec<[i64; 3]>))
        ensures
            r.0@.len() == 3 * self@.len(),
            r.1@.len() == self@.len(),
            forall|j: int|
                0 <= j < self@.len() ==> {
                    &&& #[trigger] r.0@[3 * j]@ =~= seq![
                        self@[j].v0.x as i64,
                        self@[j].v0.y as i64,
                        self@[j].v0.z as i64,
                    ]
                    &&& r.0@[3 * j + 1]@ =~= seq![
                        self@[j].v1.x as i64,
                        self@[j].v1.y as i64,
                        self@[j].v1.z as i64,
                    ]
                    &&& r.0@[3 * j + 2]@ =~= seq![
                        self@[j].v2.x as i64,
                        self@[j].v2.y as i64,
                        self@[j].v2.z as i64,
                    ]
                    &&& r.1@[j]@ =~= seq![
                        self@[j].color.x as i64,
                        self@[j].color.y as i64,
                        self@[j].color.z as i64,
                    ]
                },
    {
        let n = self.tris.len();
        let mut verts: Vec<[i64; 3]> = Vec::new();
        let mut colors: Vec<[i64; 3]> = Vec::new();
        let mut i: usize = 0;
        while i < n
            invariant
                0 <= i <= n,
                n == self.tris@.len(),
                verts@.len() == 3 * i,
                colors@.len() == i,
                forall|j: int|
                    0 <= j < i ==> {
                        &&& #[trigger] verts@[3 * j]@ =~= seq![
                            self@[j].v0.x as i64,
                            self@[j].v0.y as i64,
                            self@[j].v0.z as i64,
                        ]
                        &&& verts@[3 * j + 1]@ =~= seq![
                            self@[j].v1.x as i64,
                            self@[j].v1.y as i64,
                            self@[j].v1.z as i64,
                        ]
                        &&& verts@[3 * j + 2]@ =~= seq![
                            self@[j].v2.x as i64,
                            self@[j].v2.y as i64,
                            self@[j].v2.z as i64,
                        ]
                        &&& colors@[j]@ =~= seq![
                            self@[j].color.x as i64,
                            self@[j].color.y as i64,
                            self@[j].color.z as i64,
                        ]
                    },
            decreases n - i,
        {
            let t = self.tris[i];
            let ghost old_verts = verts@;
            let ghost old_colors = colors@;
            verts.push([t.v0.x, t.v0.y, t.v0.z]);
            verts.push([t.v1.x, t.v1.y, t.v1.z]);
            verts.push([t.v2.x, t.v2.y, t.v2.z]);
            colors.push([t.color.x, t.color.y, t.color.z]);
            proof {
                let n0 = i as int;
                assert(self@[n0] == self.tris@[n0]@);
                assert(verts@[3 * n0]@ =~= seq![t.v0.x, t.v0.y, t.v0.z]);
                assert(verts@[3 * n0 + 1]@ =~= seq![t.v1.x, t.v1.y, t.v1.z]);
                assert(verts@[3 * n0 + 2]@ =~= seq![t.v2.x, t.v2.y, t.v2.z]);
                assert(colors@[n0]@ =~= seq![t.color.x, t.color.y, t.color.z]);
                assert(forall|j: int| 0 <= j < old_verts.len() ==> verts@[j] == old_verts[j]);
                assert(forall|j: int| 0 <= j < old_colors.len() ==> colors@[j] == old_colors[j]);
            }
            i += 1;
        }
        (verts, colors)
    }
}

/// Mesh concatenation is associative: grouping either way yields the same
/// triangle sequence, hence the same triangles in the same effective set.
pub proof fn lemma_concat_associative(a: Seq<T3>, b: Seq<T3>, c: Seq<T3>)
    ensures
        (a + b) + c == a + (b + c),
{
    assert((a + b) + c =~= a + (b + c));
}

} // verus!
