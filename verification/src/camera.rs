//! The camera / player mover: position, velocity, orientation and the
//! per-frame integration steps that surround collision resolution.

use vstd::prelude::*;

use crate::collision::{DT_MAX, POS_RUN, WORLD_LIMIT};
use crate::fx::{abs, smul};
use crate::fx::lemma_smul_bound;
use crate::vec3::{in_range, ori_valid, rot_valid, s_add, s_rot_y, s_scale, Orientation, Rot, Vec3, V3};

verus! {

/// The walking speed a held movement key requests, in thousandths of a
/// world unit per second.
pub const SPEED: i64 = 30_000;

/// A first-person camera that doubles as the player mover.
#[derive(Clone, Copy, Debug)]
pub struct Camera {
    pub pos: Vec3,
    pub focus_length: i64,
    pub rotation: Orientation,
    pub vel: Vec3,
}

/// The sum of the requested movement contributions: the held keys each add
/// a speed vector rotated into world space by the current yaw, on top of
/// the preserved vertical velocity.
pub open spec fn s_input_velocity(
    forward: bool,
    left: bool,
    right: bool,
    backward: bool,
    yaw: Rot,
    vy: int,
) -> V3 {
    let v0 = V3 { x: 0, y: vy, z: 0 };
    let s = yaw.sin as int;
    let c = yaw.cos as int;
    let v1 = if forward {
        s_add(v0, s_rot_y(V3 { x: 0, y: 0, z: SPEED as int }, s, c))
    } else {
        v0
    };
    let v2 = if left {
        s_add(v1, s_rot_y(V3 { x: -(SPEED as int), y: 0, z: 0 }, s, c))
    } else {
        v1
    };
    let v3 = if right {
        s_add(v2, s_rot_y(V3 { x: SPEED as int, y: 0, z: 0 }, s, c))
    } else {
        v2
    };
    if backward {
        s_add(v3, s_rot_y(V3 { x: 0, y: 0, z: -(SPEED as int) }, s, c))
    } else {
        v3
    }
}

/// Turn held movement keys into a requested velocity: each held key adds
/// its speed vector rotated by the yaw, and the vertical component is
/// carried over unchanged.
#[verifier::rlimit(60)]
pub fn input_velocity(
    forward: bool,
    left: bool,
    right: bool,
    backward: bool,
    yaw: &Rot,
    vy: i64,
) -> (r: Vec3)
    requires
        rot_valid(*yaw),
        abs(vy as int) <= WORLD_LIMIT as int,
    ensures
        r@ == s_input_velocity(forward, left, right, backward, *yaw, vy as int),
        abs(r@.x) <= WORLD_LIMIT as int + 240_000,
        abs(r@.y) <= WORLD_LIMIT as int,
        abs(r@.z) <= WORLD_LIMIT as int + 240_000,
{
    proof {
        let s = yaw.sin as int;
        let c = yaw.cos as int;
        crate::vec3::lemma_rot_range(V3 { x: 0, y: 0, z: SPEED as int }, s, c, SPEED as int);
        crate::vec3::lemma_rot_range(V3 { x: -(SPEED as int), y: 0, z: 0 }, s, c, SPEED as int);
        crate::vec3::lemma_rot_range(V3 { x: SPEED as int, y: 0, z: 0 }, s, c, SPEED as int);
        crate::vec3::lemma_rot_range(V3 { x: 0, y: 0, z: -(SPEED as int) }, s, c, SPEED as int);
    }
    let mut v = Vec3 { x: 0, y: vy, z: 0 };
    if forward {
        v = v.add(Vec3 { x: 0, y: 0, z: SPEED }.rotate_y(yaw));
    }
    if left {
        v = v.add(Vec3 { x: -SPEED, y: 0, z: 0 }.rotate_y(yaw));
    }
    if right {
        v = v.add(Vec3 { x: SPEED, y: 0, z: 0 }.rotate_y(yaw));
    }
    if backward {
        v = v.add(Vec3 { x: 0, y: 0, z: -SPEED }.rotate_y(yaw));
    }
    v
}

impl Camera {
    /// The final integration step of a frame: advance the position by the
    /// (already collision-corrected) velocity over the time delta.
    pub fn update_pos(&mut self, dt: i64)
        requires
            0 <= dt <= DT_MAX,
            in_range(old(self).vel@, WORLD_LIMIT as int),
            in_range(old(self).pos@, POS_RUN as int),
        ensures
            final(self).pos@ == s_add(old(self).pos@, s_scale(old(self).vel@, dt as int)),
            in_range(final(self).pos@, POS_RUN as int + 400_000),
            final(self).vel == old(self).vel,
            final(self).rotation == old(self).rotation,
            final(self).focus_length == old(self).focus_length,
    {
        proof {
            lemma_smul_bound(self.vel@.x, dt as int, WORLD_LIMIT as int, DT_MAX as int);
            lemma_smul_bound(self.vel@.y, dt as int, WORLD_LIMIT as int, DT_MAX as int);
            lemma_smul_bound(self.vel@.z, dt as int, WORLD_LIMIT as int, DT_MAX as int);
        }
        self.pos = self.pos.add(self.vel.scale(dt));
    }

    /// Add gravity to the vertical velocity for one frame, capped at the
    /// maximum fall speed.
    pub fn apply_gravity(&mut self, gravity: i64, max_fall: i64, dt: i64)
        requires
            0 <= dt <= DT_MAX,
            0 <= gravity <= WORLD_LIMIT,
            0 <= max_fall <= WORLD_LIMIT,
            in_range(old(self).vel@, WORLD_LIMIT as int),
        ensures
            ({
                let risen = old(self).vel@.y + smul(gravity as int, dt as int);
                final(self).vel@.y == if risen <= max_fall as int {
                    risen
                } else {
                    max_fall as int
                }
            }),
            final(self).vel@.x == old(self).vel@.x,
            final(self).vel@.z == old(self).vel@.z,
            in_range(final(self).vel@, WORLD_LIMIT as int + 400_000),
            final(self).pos == old(self).pos,
            final(self).rotation == old(self).rotation,
            final(self).focus_length == old(self).focus_length,
    {
        proof {
            lemma_smul_bound(gravity as int, dt as int, WORLD_LIMIT as int, DT_MAX as int);
        }
        let pulled = self.vel.y + crate::fx::fx_mul(gravity, dt);
        self.vel.y = if pulled <= max_fall {
            pulled
        } else {
            max_fall
        };
    }
}

} // verus!
