//! The roaming enemy: a red cube that chases the player when it comes into
//! vision, moving through the same collision resolver as the player does.

use vstd::prelude::*;

use crate::collider::{box_in_range, s_box_translate, BoxCollider, BoxV, Tag};
use crate::collision::{check_collision, s_resolve, views_of, DT_MAX, POS_RUN, WORLD_LIMIT};
use crate::fx::{abs, lemma_div_t_bound, lemma_smul_bound};
use crate::mesh::{decode_stream, s_mesh_translate, tri_translate_fits, Mesh};
use crate::tri::T3;
use crate::vec3::{dot_fits, in_range, s_add, s_dot, s_mag, s_norm, s_scale, s_sub, Vec3, V3};

verus! {

/// Enemies keep to this positional range; a chase step that would leave it
/// is not taken.
pub const ENEMY_RANGE: i64 = 5_600_000;

/// The mathematical model of an enemy.
pub ghost struct EnemyV {
    pub pos: V3,
    pub speed: int,
    pub vel: V3,
    pub collider: BoxV,
    pub mesh: Seq<T3>,
    pub vision: int,
}

/// A chasing enemy: a position, a chase speed, its box collider and cube
/// mesh in local space, and how far it can see.
#[derive(Clone, Debug)]
pub struct Enemy {
    pos: Vec3,
    speed: i64,
    vel: Vec3,
    collider: BoxCollider,
    mesh: Mesh,
    vision: i64,
}

impl View for Enemy {
    type V = EnemyV;

    closed spec fn view(&self) -> EnemyV {
        EnemyV {
            pos: self.pos@,
            speed: self.speed as int,
            vel: self.vel@,
            collider: self.collider@,
            mesh: self.mesh@,
            vision: self.vision as int,
        }
    }
}

/// A triangle whose corners lie within the collision world.
pub open spec fn tri_in_world(t: T3) -> bool {
    in_range(t.v0, WORLD_LIMIT as int) && in_range(t.v1, WORLD_LIMIT as int) && in_range(
        t.v2,
        WORLD_LIMIT as int,
    )
}

/// Well-formedness of an enemy: everything within the world bounds.
pub open spec fn enemy_wf(e: EnemyV) -> bool {
    &&& in_range(e.pos, ENEMY_RANGE as int)
    &&& in_range(e.vel, WORLD_LIMIT as int)
    &&& box_in_range(e.collider, WORLD_LIMIT as int)
    &&& 0 <= e.speed <= 100_000
    &&& 0 <= e.vision <= WORLD_LIMIT as int
    &&& forall|j: int| 0 <= j < e.mesh.len() ==> tri_in_world(#[trigger] e.mesh[j])
}

/// The flat vertex stream of the enemy's cube, a tenth of a grid cell to a
/// side, colored red.
pub open spec fn enemy_stream() -> Seq<(i64, i64, i64)> {
    seq![
        (-1000i64, -1000i64, -1000i64), (-1000i64, -1000i64, 1000i64), (-1000i64, 1000i64, 1000i64), (255000i64, 0i64, 0i64),
        (-1000i64, -1000i64, -1000i64), (-1000i64, 1000i64, 1000i64), (-1000i64, 1000i64, -1000i64), (255000i64, 0i64, 0i64),
        (-1000i64, -1000i64, -1000i64), (1000i64, -1000i64, -1000i64), (1000i64, 1000i64, -1000i64), (255000i64, 0i64, 0i64),
        (-1000i64, -1000i64, -1000i64), (-1000i64, 1000i64, -1000i64), (1000i64, 1000i64, -1000i64), (255000i64, 0i64, 0i64),
        (1000i64, -1000i64, -1000i64), (1000i64, -1000i64, 1000i64), (1000i64, 1000i64, 1000i64), (255000i64, 0i64, 0i64),
        (1000i64, -1000i64, -1000i64), (1000i64, 1000i64, 1000i64), (1000i64, 1000i64, -1000i64), (255000i64, 0i64, 0i64),
        (-1000i64, -1000i64, 1000i64), (1000i64, -1000i64, 1000i64), (1000i64, 1000i64, 1000i64), (255000i64, 0i64, 0i64),
        (-1000i64, -1000i64, 1000i64), (-1000i64, 1000i64, 1000i64), (1000i64, 1000i64, 1000i64), (255000i64, 0i64, 0i64),
        (-1000i64, 1000i64, -1000i64), (-1000i64, 1000i64, 1000i64), (1000i64, 1000i64, -1000i64), (255000i64, 0i64, 0i64),
        (1000i64, 1000i64, 1000i64), (-1000i64, 1000i64, 1000i64), (1000i64, 1000i64, -1000i64), (255000i64, 0i64, 0i64),
        (-1000i64, -1000i64, -1000i64), (-1000i64, -1000i64, 1000i64), (1000i64, -1000i64, -1000i64), (255000i64, 0i64, 0i64),
        (1000i64, -1000i64, 1000i64), (-1000i64, -1000i64, 1000i64), (1000i64, -1000i64, -1000i64), (255000i64, 0i64, 0i64),
    ]
}

/// One chase step on the model.  The enemy moves only when the player is in
/// vision, close enough to carry a direction, and the chase would keep the
/// enemy inside the world's range; the step runs the velocity through the
/// collision resolver and integrates it.
pub open spec fn s_enemy_update(e: EnemyV, dt: int, player: V3, cs: Seq<BoxV>) -> EnemyV {
    let to = s_sub(player, e.pos);
    if s_dot(to, to) >= 1 && s_mag(to) < e.vision {
        let v = s_scale(s_norm(to), e.speed);
        if in_range(v, WORLD_LIMIT as int) {
            let st = s_resolve(e.collider, e.pos, v, dt, cs, false);
            let np = s_add(st.pos, s_scale(st.vel, dt));
            if in_range(np, ENEMY_RANGE as int) {
                EnemyV { pos: np, vel: st.vel, ..e }
            } else {
                e
            }
        } else {
            e
        }
    } else {
        e
    }
}

impl Default for Enemy {
    /// A fresh enemy in the middle of a grid cell: a red cube two tenths of
    /// a cell wide, chasing at just over two cells per second, seeing four
    /// cells far.
    fn default() -> (r: Enemy)
        ensures
            r@.pos == (V3 { x: 5000int, y: 7500int, z: 5000int }),
            r@.speed == 23_000int,
            r@.vel == (V3 { x: 0int, y: 0int, z: 0int }),
            r@.collider.tag == Some(Tag::AngryPixel),
            r@.collider.min_x == -1000int && r@.collider.max_x == 1000int,
            r@.collider.min_y == -1000int && r@.collider.max_y == 1000int,
            r@.collider.min_z == -1000int && r@.collider.max_z == 1000int,
            r@.vision == 40_000int,
            r@.mesh == decode_stream(enemy_stream()),
            enemy_wf(r@),
    {
        let stream: Vec<(i64, i64, i64)> = vec![
            (-1000, -1000, -1000), (-1000, -1000, 1000), (-1000, 1000, 1000), (255000, 0, 0),
            (-1000, -1000, -1000), (-1000, 1000, 1000), (-1000, 1000, -1000), (255000, 0, 0),
            (-1000, -1000, -1000), (1000, -1000, -1000), (1000, 1000, -1000), (255000, 0, 0),
            (-1000, -1000, -1000), (-1000, 1000, -1000), (1000, 1000, -1000), (255000, 0, 0),
            (1000, -1000, -1000), (1000, -1000, 1000), (1000, 1000, 1000), (255000, 0, 0),
            (1000, -1000, -1000), (1000, 1000, 1000), (1000, 1000, -1000), (255000, 0, 0),
            (-1000, -1000, 1000), (1000, -1000, 1000), (1000, 1000, 1000), (255000, 0, 0),
            (-1000, -1000, 1000), (-1000, 1000, 1000), (1000, 1000, 1000), (255000, 0, 0),
            (-1000, 1000, -1000), (-1000, 1000, 1000), (1000, 1000, -1000), (255000, 0, 0),
            (1000, 1000, 1000), (-1000, 1000, 1000), (1000, 1000, -1000), (255000, 0, 0),
            (-1000, -1000, -1000), (-1000, -1000, 1000), (1000, -1000, -1000), (255000, 0, 0),
            (1000, -1000, 1000), (-1000, -1000, 1000), (1000, -1000, -1000), (255000, 0, 0),
        ];
        proof {
            assert(stream@ =~= enemy_stream());
        }
        let mesh = Mesh::new(stream);
        let r = Enemy {
            pos: Vec3 { x: 5000, y: 7500, z: 5000 },
            speed: 23_000,
            vel: Vec3 { x: 0, y: 0, z: 0 },
            collider: BoxCollider {
                max_x: 1000,
                max_y: 1000,
                max_z: 1000,
                min_x: -1000,
                min_y: -1000,
                min_z: -1000,
                tag: Some(Tag::AngryPixel),
            },
            mesh,
            vision: 40_000,
        };
        proof {
            assert forall|j: int| 0 <= j < r@.mesh.len() implies tri_in_world(#[trigger] r@.mesh[j]) by {
                assert(r@.mesh[j] == decode_stream(enemy_stream())[j]);
            }
        }
        r
    }
}

impl Enemy {
    /// One chase step: move toward the player when it is in vision, with
    /// collision resolution against the world's colliders.
    pub fn update(&mut self, dt: i64, player_positon: Vec3, colliders: &Vec<BoxCollider>)
        requires
            enemy_wf(old(self)@),
            0 <= dt <= DT_MAX,
            in_range(player_positon@, POS_RUN as int),
            forall|i: int|
                0 <= i < colliders@.len() ==> box_in_range(
                    (#[trigger] colliders@[i])@,
                    WORLD_LIMIT as int,
                ),
        ensures
            final(self)@ == s_enemy_update(old(self)@, dt as int, player_positon@, views_of(colliders@)),
            enemy_wf(final(self)@),
    {
        proof {
            lemma_chase_fits(player_positon@, self@.pos);
            assert(forall|i: int|
                0 <= i < colliders@.len() ==> (#[trigger] views_of(colliders@)[i]) == colliders@[i]@);
        }
        let vec_to_player = player_positon.sub(self.pos);
        let d = vec_to_player.dot(vec_to_player);
        if d >= 1 {
            let m = vec_to_player.abs();
            if m < self.vision {
                let dir = vec_to_player.norm();
                proof {
                    lemma_norm_scale_fits(vec_to_player@, self@.speed);
                }
                let v = dir.scale(self.speed);
                if v.x >= -WORLD_LIMIT && v.x <= WORLD_LIMIT && v.y >= -WORLD_LIMIT && v.y
                    <= WORLD_LIMIT && v.z >= -WORLD_LIMIT && v.z <= WORLD_LIMIT {
                    let mut col = self.collider.clone();
                    let mut pos = self.pos;
                    let mut vel = v;
                    let mut grounded = false;
                    check_collision(&mut col, &mut pos, &mut vel, dt, colliders, &mut grounded);
                    proof {
                        lemma_smul_bound(vel@.x, dt as int, WORLD_LIMIT as int, DT_MAX as int);
                        lemma_smul_bound(vel@.y, dt as int, WORLD_LIMIT as int, DT_MAX as int);
                        lemma_smul_bound(vel@.z, dt as int, WORLD_LIMIT as int, DT_MAX as int);
                    }
                    let np = pos.add(vel.scale(dt));
                    if np.x >= -ENEMY_RANGE && np.x <= ENEMY_RANGE && np.y >= -ENEMY_RANGE && np.y
                        <= ENEMY_RANGE && np.z >= -ENEMY_RANGE && np.z <= ENEMY_RANGE {
                        self.pos = np;
                        self.vel = vel;
                    }
                }
            }
        }
    }

    /// The enemy's collider, translated to its world position.
    pub fn get_collider(&self) -> (r: BoxCollider)
        requires
            enemy_wf(self@),
        ensures
            r@ == s_box_translate(self@.collider, self@.pos),
            box_in_range(r@, (ENEMY_RANGE + WORLD_LIMIT) as int),
    {
        let mut col = self.collider.clone();
        col.translate(self.pos);
        col
    }

    /// Move the enemy by an offset, consuming and returning it; used to
    /// place a freshly built enemy on the level grid.
    pub fn translate(self, to: Vec3) -> (r: Enemy)
        requires
            enemy_wf(self@),
            in_range(s_add(self@.pos, to@), ENEMY_RANGE as int),
            in_range(to@, POS_RUN as int),
        ensures
            r@.pos == s_add(self@.pos, to@),
            r@.speed == self@.speed,
            r@.vel == self@.vel,
            r@.collider == self@.collider,
            r@.mesh == self@.mesh,
            r@.vision == self@.vision,
            enemy_wf(r@),
    {
        let mut e = self;
        e.pos = e.pos.add(to);
        e
    }

    /// The enemy's mesh, translated to its world position.
    pub fn get_mesh(&self) -> (r: Mesh)
        requires
            enemy_wf(self@),
        ensures
            r@ == s_mesh_translate(self@.mesh, self@.pos),
    {
        let mut mesh = self.mesh.clone_mesh();
        proof {
            assert forall|j: int| 0 <= j < mesh@.len() implies tri_translate_fits(
                #[trigger] mesh@[j],
                self.pos@,
            ) by {
                assert(tri_in_world(self@.mesh[j]));
            }
        }
        mesh.translate(self.pos);
        mesh
    }
}

/// The chase vector and its dot square stay within the executable bounds.
proof fn lemma_chase_fits(player: V3, pos: V3)
    requires
        in_range(player, POS_RUN as int),
        in_range(pos, ENEMY_RANGE as int),
    ensures
        dot_fits(s_sub(player, pos), s_sub(player, pos)),
        s_dot(s_sub(player, pos), s_sub(player, pos)) * 1000 <= i64::MAX as int,
        s_dot(s_sub(player, pos), s_sub(player, pos)) >= 0,
        -i64::MAX <= s_sub(player, pos).x * 1000 <= i64::MAX,
        -i64::MAX <= s_sub(player, pos).y * 1000 <= i64::MAX,
        -i64::MAX <= s_sub(player, pos).z * 1000 <= i64::MAX,
{
    let to = s_sub(player, pos);
    crate::vec3::lemma_pair_fits(to, to, 12_000_000, 12_000_000);
    crate::fx::lemma_smul_square_nonneg(to.x);
    crate::fx::lemma_smul_square_nonneg(to.y);
    crate::fx::lemma_smul_square_nonneg(to.z);
}

/// Scaling the (coarsely bounded) unit chase direction by the chase speed
/// cannot overflow.
proof fn lemma_norm_scale_fits(to: V3, speed: int)
    requires
        in_range(to, 12_000_000),
        s_mag(to) >= 1,
        0 <= speed <= 100_000,
    ensures
        -i64::MAX <= s_norm(to).x * speed <= i64::MAX,
        -i64::MAX <= s_norm(to).y * speed <= i64::MAX,
        -i64::MAX <= s_norm(to).z * speed <= i64::MAX,
{
    let m = s_mag(to);
    lemma_div_t_bound(to.x * 1000, m);
    lemma_div_t_bound(to.y * 1000, m);
    lemma_div_t_bound(to.z * 1000, m);
    assert(abs(to.x * 1000) <= 12_000_000_000int);
    assert(abs(to.y * 1000) <= 12_000_000_000int);
    assert(abs(to.z * 1000) <= 12_000_000_000int);
    lemma_smul_bound(s_norm(to).x, speed, 12_000_000_000, 100_000);
    lemma_smul_bound(s_norm(to).y, speed, 12_000_000_000, 100_000);
    lemma_smul_bound(s_norm(to).z, speed, 12_000_000_000, 100_000);
}

} // verus!
