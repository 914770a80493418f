//! The swept axis-separated collision resolver: given a mover's collider
//! shape, position, requested velocity, a time delta and the world's
//! colliders, it pushes the mover out of anything it would penetrate, one
//! axis at a time in the fixed order x, y, z, zeroing the velocity on each
//! colliding axis, reporting ground contact and any semantic tag touched.

use vstd::prelude::*;

use crate::collider::{box_in_range, s_box_translate, s_intersects, BoxCollider, BoxV, Tag};
use crate::fx::{abs, fx_mul, fx_sign, sign, smul};
use crate::fx::lemma_smul_bound;
use crate::vec3::{in_range, s_add, Vec3, V3};

verus! {

/// Bound on world collider bounds, mover collider bounds, positions and
/// velocities handed to the resolver: two thousand world units (or units
/// per second).
pub const WORLD_LIMIT: i64 = 2_000_000;

/// Bound on the time delta: a fifth of a second.  Callers clamp the frame
/// delta before physics, which also bounds how far one frame can move the
/// mover.
pub const DT_MAX: i64 = 200;

/// How far one frame's sweep can shift the mover box on an axis.
pub const SWEEP_RUN: i64 = 400_000;

/// The resolver accepts positions up to this bound and never pushes one
/// beyond it: a push-out lands the mover flush against a world collider,
/// within `2 * WORLD_LIMIT` plus a sweep of slack.
pub const POS_RUN: i64 = 6_000_000;

/// The translated mover box stays within this bound throughout resolution.
pub const BOX_RUN: i64 = 9_000_000;

/// The three resolution axes.
#[derive(Clone, Copy, Debug, PartialEq, Eq, Structural)]
pub enum Axis {
    X,
    Y,
    Z,
}

/// The state threaded through the passes: mover position and velocity, the
/// ground flag, the last tag touched, and the translated mover box that the
/// overlap tests run against.
pub ghost struct ColState {
    pub pos: V3,
    pub vel: V3,
    pub grounded: bool,
    pub tag: Option<Tag>,
    pub bx: BoxV,
}

/// One component of a vector.
pub open spec fn axis_of(v: V3, a: Axis) -> int {
    match a {
        Axis::X => v.x,
        Axis::Y => v.y,
        Axis::Z => v.z,
    }
}

/// A vector with one component replaced.
pub open spec fn with_axis(v: V3, a: Axis, val: int) -> V3 {
    match a {
        Axis::X => V3 { x: val, y: v.y, z: v.z },
        Axis::Y => V3 { x: v.x, y: val, z: v.z },
        Axis::Z => V3 { x: v.x, y: v.y, z: val },
    }
}

/// The zero vector of the model.
pub open spec fn v3_zero() -> V3 {
    V3 { x: 0, y: 0, z: 0 }
}

/// The lower bound of a box on an axis.
pub open spec fn box_min(b: BoxV, a: Axis) -> int {
    match a {
        Axis::X => b.min_x,
        Axis::Y => b.min_y,
        Axis::Z => b.min_z,
    }
}

/// The upper bound of a box on an axis.
pub open spec fn box_max(b: BoxV, a: Axis) -> int {
    match a {
        Axis::X => b.max_x,
        Axis::Y => b.max_y,
        Axis::Z => b.max_z,
    }
}

/// One collider checked within an axis pass.  On overlap: the collider's
/// tag (if any) wins over the remembered one, the mover is pushed flush
/// against the collider on this axis (against the direction of travel, as
/// fixed at pass entry), the velocity component dies, a downward y hit
/// grounds the mover, and the translated box is rebuilt from the corrected
/// position alone.
pub open spec fn s_axis_step(
    pcol: BoxV,
    dt: int,
    dir_a: int,
    a: Axis,
    st: ColState,
    c: BoxV,
) -> ColState {
    if s_intersects(st.bx, c) {
        let tag = if c.tag is Some {
            c.tag
        } else {
            st.tag
        };
        let vd = smul(axis_of(st.vel, a), dt);
        let posa = axis_of(st.pos, a);
        let newposa = if dir_a < 0 {
            posa + (box_max(c, a) - box_min(st.bx, a)) + vd
        } else if dir_a > 0 {
            posa + (box_min(c, a) - box_max(st.bx, a)) + vd
        } else {
            posa
        };
        let pos2 = with_axis(st.pos, a, newposa);
        let grounded2 = st.grounded || (a is Y && dir_a > 0);
        ColState {
            pos: pos2,
            vel: with_axis(st.vel, a, 0),
            grounded: grounded2,
            tag,
            bx: s_box_translate(pcol, pos2),
        }
    } else {
        st
    }
}

/// An axis pass: every world collider checked in order, each against the
/// box as the previous corrections left it.
pub open spec fn s_axis_pass(
    pcol: BoxV,
    dt: int,
    dir_a: int,
    a: Axis,
    st: ColState,
    cs: Seq<BoxV>,
) -> ColState
    decreases cs.len(),
{
    if cs.len() == 0 {
        st
    } else {
        s_axis_step(
            pcol,
            dt,
            dir_a,
            a,
            s_axis_pass(pcol, dt, dir_a, a, st, cs.drop_last()),
            cs.last(),
        )
    }
}

/// Whether any collider of an axis pass overlaps the box as the pass
/// reaches it.
pub open spec fn s_pass_hits(
    pcol: BoxV,
    dt: int,
    dir_a: int,
    a: Axis,
    st: ColState,
    cs: Seq<BoxV>,
) -> bool
    decreases cs.len(),
{
    if cs.len() == 0 {
        false
    } else {
        s_pass_hits(pcol, dt, dir_a, a, st, cs.drop_last()) || s_intersects(
            s_axis_pass(pcol, dt, dir_a, a, st, cs.drop_last()).bx,
            cs.last(),
        )
    }
}

/// A state's box shifted by the current velocity along one axis, as done
/// when a pass begins.
pub open spec fn s_enter_axis(st: ColState, a: Axis, dt: int) -> ColState {
    let vd = smul(axis_of(st.vel, a), dt);
    ColState { bx: s_box_translate(st.bx, with_axis(v3_zero(), a, vd)), ..st }
}

/// The state in which resolution starts.
pub open spec fn s_start(pcol: BoxV, pos0: V3, vel0: V3, grounded0: bool) -> ColState {
    ColState {
        pos: pos0,
        vel: vel0,
        grounded: grounded0,
        tag: None,
        bx: s_box_translate(pcol, pos0),
    }
}

/// The state after the x pass.
pub open spec fn s_after_x(pcol: BoxV, pos0: V3, vel0: V3, dt: int, cs: Seq<BoxV>, g0: bool) -> ColState {
    let st0 = s_start(pcol, pos0, vel0, g0);
    s_axis_pass(pcol, dt, sign(vel0.x), Axis::X, s_enter_axis(st0, Axis::X, dt), cs)
}

/// The state after the x and y passes.
pub open spec fn s_after_y(pcol: BoxV, pos0: V3, vel0: V3, dt: int, cs: Seq<BoxV>, g0: bool) -> ColState {
    let stx = s_after_x(pcol, pos0, vel0, dt, cs, g0);
    s_axis_pass(pcol, dt, sign(stx.vel.y), Axis::Y, s_enter_axis(stx, Axis::Y, dt), cs)
}

/// The whole resolution: the mover box is placed at the current position,
/// swept by the x velocity, and the three axis passes run in the fixed
/// order x, y, z, each direction sign taken from the velocity as it stands
/// when that pass begins.
pub open spec fn s_resolve(
    pcol: BoxV,
    pos0: V3,
    vel0: V3,
    dt: int,
    cs: Seq<BoxV>,
    grounded0: bool,
) -> ColState {
    let sty = s_after_y(pcol, pos0, vel0, dt, cs, grounded0);
    s_axis_pass(pcol, dt, sign(sty.vel.z), Axis::Z, s_enter_axis(sty, Axis::Z, dt), cs)
}

/// The models of a collider list.
pub open spec fn views_of(cs: Seq<BoxCollider>) -> Seq<BoxV> {
    cs.map_values(|c: BoxCollider| c@)
}

/// The inputs the resolver accepts: everything within the world bound and
/// the time delta within its clamp.
pub open spec fn resolve_inputs_ok(
    pcol: BoxV,
    pos0: V3,
    vel0: V3,
    dt: int,
    cs: Seq<BoxV>,
) -> bool {
    &&& box_in_range(pcol, WORLD_LIMIT as int)
    &&& in_range(pos0, POS_RUN as int)
    &&& in_range(vel0, WORLD_LIMIT as int)
    &&& 0 <= dt <= DT_MAX as int
    &&& forall|i: int| 0 <= i < cs.len() ==> box_in_range(#[trigger] cs[i], WORLD_LIMIT as int)
}

/// One component of a vector, executable.
fn axis_get(v: &Vec3, a: Axis) -> (r: i64)
    ensures
        r == axis_of(v@, a),
{
    match a {
        Axis::X => v.x,
        Axis::Y => v.y,
        Axis::Z => v.z,
    }
}

/// Replace one component of a vector, executable.
fn axis_put(v: &mut Vec3, a: Axis, val: i64)
    ensures
        final(v)@ == with_axis(old(v)@, a, val as int),
{
    match a {
        Axis::X => v.x = val,
        Axis::Y => v.y = val,
        Axis::Z => v.z = val,
    }
}

/// The lower bound of a box on an axis, executable.
fn box_min_of(b: &BoxCollider, a: Axis) -> (r: i64)
    ensures
        r == box_min(b@, a),
{
    match a {
        Axis::X => b.min_x,
        Axis::Y => b.min_y,
        Axis::Z => b.min_z,
    }
}

/// The upper bound of a box on an axis, executable.
fn box_max_of(b: &BoxCollider, a: Axis) -> (r: i64)
    ensures
        r == box_max(b@, a),
{
    match a {
        Axis::X => b.max_x,
        Axis::Y => b.max_y,
        Axis::Z => b.max_z,
    }
}

/// The velocity sweep for one frame stays within the sweep bound.
proof fn lemma_sweep_bound(v: int, dt: int)
    requires
        abs(v) <= WORLD_LIMIT as int,
        0 <= dt <= DT_MAX as int,
    ensures
        abs(smul(v, dt)) <= SWEEP_RUN as int,
        -i64::MAX <= v * dt <= i64::MAX,
{
    lemma_smul_bound(v, dt, WORLD_LIMIT as int, DT_MAX as int);
}

/// The box sits at the mover collider translated to `pos` and shifted by a
/// bounded sweep offset.
pub open spec fn box_at(bx: BoxV, pcol: BoxV, pos: V3, off: V3) -> bool {
    &&& bx == s_box_translate(s_box_translate(pcol, pos), off)
    &&& in_range(off, SWEEP_RUN as int)
}

/// One axis pass of the resolver over every world collider.
#[verifier::rlimit(100)]
fn resolve_axis(
    pcollider: &BoxCollider,
    pos: &mut Vec3,
    vel: &mut Vec3,
    dt: i64,
    colliders: &Vec<BoxCollider>,
    grounded: &mut bool,
    tag: Option<Tag>,
    next_pc: &mut BoxCollider,
    a: Axis,
    off0: Ghost<V3>,
) -> (r: Option<Tag>)
    requires
        box_in_range(pcollider@, WORLD_LIMIT as int),
        in_range(old(pos)@, POS_RUN as int),
        in_range(old(vel)@, WORLD_LIMIT as int),
        0 <= dt <= DT_MAX,
        box_at(old(next_pc)@, pcollider@, old(pos)@, off0@),
        forall|i: int|
            0 <= i < colliders@.len() ==> box_in_range(
                (#[trigger] colliders@[i])@,
                WORLD_LIMIT as int,
            ),
    ensures
        ({
            let st0 = ColState {
                pos: old(pos)@,
                vel: old(vel)@,
                grounded: *old(grounded),
                tag,
                bx: old(next_pc)@,
            };
            let st = s_axis_pass(
                pcollider@,
                dt as int,
                sign(axis_of(old(vel)@, a)),
                a,
                st0,
                views_of(colliders@),
            );
            &&& final(pos)@ == st.pos
            &&& final(vel)@ == st.vel
            &&& *final(grounded) == st.grounded
            &&& r == st.tag
            &&& final(next_pc)@ == st.bx
            &&& in_range(final(pos)@, POS_RUN as int)
            &&& in_range(final(vel)@, WORLD_LIMIT as int)
            &&& box_at(final(next_pc)@, pcollider@, final(pos)@, off0@) || box_at(
                final(next_pc)@,
                pcollider@,
                final(pos)@,
                v3_zero(),
            )
        }),
{
    let dir_a: i64 = fx_sign(axis_get(vel, a));
    let ghost dir = sign(axis_of(old(vel)@, a));
    let ghost st0 = ColState {
        pos: old(pos)@,
        vel: old(vel)@,
        grounded: *old(grounded),
        tag,
        bx: old(next_pc)@,
    };
    let ghost cs = views_of(colliders@);
    let ghost mut off = off0@;
    let mut t = tag;
    let n = colliders.len();
    let mut i: usize = 0;
    while i < n
        invariant
            0 <= i <= n,
            n == colliders@.len(),
            cs == views_of(colliders@),
            cs.len() == n,
            forall|j: int| 0 <= j < n ==> cs[j] == (#[trigger] colliders@[j])@,
            dir == sign(axis_of(st0.vel, a)),
            0 <= dt <= DT_MAX,
            dir_a == dir,
            box_in_range(pcollider@, WORLD_LIMIT as int),
            in_range(st0.vel, WORLD_LIMIT as int),
            forall|j: int|
                0 <= j < colliders@.len() ==> box_in_range(
                    (#[trigger] colliders@[j])@,
                    WORLD_LIMIT as int,
                ),
            ({
                let st = s_axis_pass(pcollider@, dt as int, dir, a, st0, cs.take(i as int));
                &&& pos@ == st.pos
                &&& vel@ == st.vel
                &&& *grounded == st.grounded
                &&& t == st.tag
                &&& next_pc@ == st.bx
                &&& in_range(pos@, POS_RUN as int)
                &&& in_range(vel@, WORLD_LIMIT as int)
                &&& box_at(next_pc@, pcollider@, pos@, off)
                &&& off == off0@ || off == v3_zero()
            }),
        decreases n - i,
    {
        let ghost st_before = s_axis_pass(pcollider@, dt as int, dir, a, st0, cs.take(i as int));
        proof {
            assert(cs.take(i + 1).drop_last() =~= cs.take(i as int));
            assert(cs.take(i + 1).last() == cs[i as int]);
        }
        let c = &colliders[i];
        if next_pc.intersects(c) {
            if c.tag.is_some() {
                t = c.tag;
            }
            proof {
                lemma_sweep_bound(axis_of(vel@, a), dt as int);
            }
            let vd = fx_mul(axis_get(vel, a), dt);
            if dir_a < 0 {
                let push = (box_max_of(c, a) - box_min_of(next_pc, a)) + vd;
                let newposa = axis_get(pos, a) + push;
                axis_put(pos, a, newposa);
            } else if dir_a > 0 {
                let push = (box_min_of(c, a) - box_max_of(next_pc, a)) + vd;
                let newposa = axis_get(pos, a) + push;
                axis_put(pos, a, newposa);
            }
            if a == Axis::Y && dir_a > 0 {
                *grounded = true;
            }
            axis_put(vel, a, 0);
            let mut fresh = pcollider.clone();
            fresh.translate(*pos);
            *next_pc = fresh;
            proof {
                off = v3_zero();
            }
        }
        proof {
            let st_after = s_axis_pass(pcollider@, dt as int, dir, a, st0, cs.take(i + 1));
            assert(st_after == s_axis_step(pcollider@, dt as int, dir, a, st_before, cs[i as int]));
            assert(pos@ == st_after.pos);
            assert(next_pc@ == st_after.bx);
        }
        i += 1;
    }
    proof {
        assert(cs.take(n as int) =~= cs);
    }
    t
}

/// Resolve one frame of movement: correct `pos` and `vel` in place against
/// every collider, set `grounded` on a downward y collision, and return the
/// tag of the last tagged collider touched, if any.  The mover's own
/// collider shape is left untouched.
pub fn check_collision(
    pcollider: &mut BoxCollider,
    pos: &mut Vec3,
    vel: &mut Vec3,
    dt: i64,
    colliders: &Vec<BoxCollider>,
    grounded: &mut bool,
) -> (r: Option<Tag>)
    requires
        resolve_inputs_ok(old(pcollider)@, old(pos)@, old(vel)@, dt as int, views_of(colliders@)),
    ensures
        ({
            let st = s_resolve(
                old(pcollider)@,
                old(pos)@,
                old(vel)@,
                dt as int,
                views_of(colliders@),
                *old(grounded),
            );
            &&& final(pos)@ == st.pos
            &&& final(vel)@ == st.vel
            &&& *final(grounded) == st.grounded
            &&& r == st.tag
            &&& final(pcollider)@ == old(pcollider)@
            &&& in_range(final(pos)@, POS_RUN as int)
            &&& in_range(final(vel)@, WORLD_LIMIT as int)
        }),
{
    let ghost cs = views_of(colliders@);
    proof {
        assert(forall|i: int|
            0 <= i < colliders@.len() ==> (#[trigger] colliders@[i])@ == cs[i]);
        lemma_sweep_bound(old(vel)@.x, dt as int);
    }
    let mut next_pc = pcollider.clone();
    next_pc.translate(*pos);
    let vdx = fx_mul(vel.x, dt);
    next_pc.translate(Vec3 { x: vdx, y: 0, z: 0 });
    let ghost offx = with_axis(v3_zero(), Axis::X, smul(old(vel)@.x, dt as int));
    proof {
        let st0 = s_start(pcollider@, old(pos)@, old(vel)@, *old(grounded));
        assert(next_pc@ == s_enter_axis(st0, Axis::X, dt as int).bx);
        assert(box_at(next_pc@, pcollider@, old(pos)@, offx));
    }
    let t = resolve_axis(
        pcollider,
        pos,
        vel,
        dt,
        colliders,
        grounded,
        None,
        &mut next_pc,
        Axis::X,
        Ghost(offx),
    );
    let ghost stx = s_after_x(pcollider@, old(pos)@, old(vel)@, dt as int, cs, *old(grounded));
    let ghost basey = if box_at(next_pc@, pcollider@, pos@, offx) {
        offx
    } else {
        v3_zero()
    };
    proof {
        lemma_sweep_bound(stx.vel.y, dt as int);
    }
    let vdy = fx_mul(vel.y, dt);
    next_pc.translate(Vec3 { x: 0, y: vdy, z: 0 });
    let ghost offy = s_add(basey, with_axis(v3_zero(), Axis::Y, smul(stx.vel.y, dt as int)));
    proof {
        assert(next_pc@ == s_enter_axis(stx, Axis::Y, dt as int).bx);
        assert(box_at(next_pc@, pcollider@, pos@, offy));
    }
    let t = resolve_axis(
        pcollider,
        pos,
        vel,
        dt,
        colliders,
        grounded,
        t,
        &mut next_pc,
        Axis::Y,
        Ghost(offy),
    );
    let ghost sty = s_after_y(pcollider@, old(pos)@, old(vel)@, dt as int, cs, *old(grounded));
    let ghost basez = if box_at(next_pc@, pcollider@, pos@, offy) {
        offy
    } else {
        v3_zero()
    };
    proof {
        lemma_sweep_bound(sty.vel.z, dt as int);
    }
    let vdz = fx_mul(vel.z, dt);
    next_pc.translate(Vec3 { x: 0, y: 0, z: vdz });
    let ghost offz = s_add(basez, with_axis(v3_zero(), Axis::Z, smul(sty.vel.z, dt as int)));
    proof {
        assert(next_pc@ == s_enter_axis(sty, Axis::Z, dt as int).bx);
        assert(box_at(next_pc@, pcollider@, pos@, offz));
    }
    let t = resolve_axis(
        pcollider,
        pos,
        vel,
        dt,
        colliders,
        grounded,
        t,
        &mut next_pc,
        Axis::Z,
        Ghost(offz),
    );
    t
}

/// A pass along an axis whose velocity component is zero moves nothing:
/// the direction sign is zero, so no push-out is applied, the velocity
/// component is rewritten to the zero it already holds, and the ground flag
/// cannot be set.
proof fn lemma_pass_at_rest(pcol: BoxV, dt: int, a: Axis, st: ColState, cs: Seq<BoxV>)
    requires
        axis_of(st.vel, a) == 0,
    ensures
        s_axis_pass(pcol, dt, 0, a, st, cs).pos == st.pos,
        s_axis_pass(pcol, dt, 0, a, st, cs).vel == st.vel,
        s_axis_pass(pcol, dt, 0, a, st, cs).grounded == st.grounded,
    decreases cs.len(),
{
    if cs.len() > 0 {
        lemma_pass_at_rest(pcol, dt, a, st, cs.drop_last());
        let mid = s_axis_pass(pcol, dt, 0, a, st, cs.drop_last());
        assert(with_axis(mid.pos, a, axis_of(mid.pos, a)) == mid.pos);
        assert(with_axis(mid.vel, a, 0) == mid.vel);
    }
}

/// A mover fully at rest is left exactly where it is: with zero velocity
/// the resolver changes neither position nor velocity nor the ground flag,
/// however the world colliders lie.
pub proof fn lemma_resolve_at_rest(pcol: BoxV, pos0: V3, dt: int, cs: Seq<BoxV>, g0: bool)
    ensures
        s_resolve(pcol, pos0, v3_zero(), dt, cs, g0).pos == pos0,
        s_resolve(pcol, pos0, v3_zero(), dt, cs, g0).vel == v3_zero(),
        s_resolve(pcol, pos0, v3_zero(), dt, cs, g0).grounded == g0,
{
    let st0 = s_start(pcol, pos0, v3_zero(), g0);
    lemma_pass_at_rest(pcol, dt, Axis::X, s_enter_axis(st0, Axis::X, dt), cs);
    let stx = s_after_x(pcol, pos0, v3_zero(), dt, cs, g0);
    lemma_pass_at_rest(pcol, dt, Axis::Y, s_enter_axis(stx, Axis::Y, dt), cs);
    let sty = s_after_y(pcol, pos0, v3_zero(), dt, cs, g0);
    lemma_pass_at_rest(pcol, dt, Axis::Z, s_enter_axis(sty, Axis::Z, dt), cs);
}

/// Resolution at rest is idempotent: resolving a motionless mover twice
/// against the same world yields the same position both times, with no
/// drift.
pub proof fn lemma_resolve_rest_idempotent(
    pcol: BoxV,
    pos0: V3,
    dt: int,
    cs: Seq<BoxV>,
    g0: bool,
)
    ensures
        ({
            let once = s_resolve(pcol, pos0, v3_zero(), dt, cs, g0);
            let twice = s_resolve(pcol, once.pos, once.vel, dt, cs, once.grounded);
            once.pos == pos0 && twice.pos == once.pos
        }),
{
    lemma_resolve_at_rest(pcol, pos0, dt, cs, g0);
    let once = s_resolve(pcol, pos0, v3_zero(), dt, cs, g0);
    lemma_resolve_at_rest(pcol, once.pos, dt, cs, once.grounded);
}

/// A pass never touches the velocity components of other axes, and a pass
/// not on the y axis (or not moving downward) never sets the ground flag.
proof fn lemma_pass_frame(pcol: BoxV, dt: int, dir: int, a: Axis, st: ColState, cs: Seq<BoxV>)
    ensures
        ({
            let out = s_axis_pass(pcol, dt, dir, a, st, cs);
            &&& forall|b: Axis| b != a ==> axis_of(out.vel, b) == axis_of(st.vel, b)
            &&& !(a is Y && dir > 0) ==> out.grounded == st.grounded
            &&& out.grounded ==> st.grounded || (a is Y && dir > 0)
        }),
    decreases cs.len(),
{
    if cs.len() > 0 {
        lemma_pass_frame(pcol, dt, dir, a, st, cs.drop_last());
    }
}

/// Once the pass's own velocity component has died it stays dead, and a
/// hit on a downward y pass both kills it and grounds the mover.
proof fn lemma_pass_hit_kills(pcol: BoxV, dt: int, dir: int, a: Axis, st: ColState, cs: Seq<BoxV>)
    requires
        dir > 0 || dir < 0,
    ensures
        ({
            let out = s_axis_pass(pcol, dt, dir, a, st, cs);
            s_pass_hits(pcol, dt, dir, a, st, cs) ==> {
                &&& axis_of(out.vel, a) == 0
                &&& (a is Y && dir > 0) ==> out.grounded
            }
        }),
    decreases cs.len(),
{
    if cs.len() > 0 {
        lemma_pass_hit_kills(pcol, dt, dir, a, st, cs.drop_last());
        let mid = s_axis_pass(pcol, dt, dir, a, st, cs.drop_last());
        if s_intersects(mid.bx, cs.last()) {
        } else {
        }
    }
}

/// Grounded detection: a mover falling (velocity pointing down, which is
/// positive y here) whose y pass meets any collider comes out of the
/// resolver with its vertical velocity zeroed and the ground flag set.
pub proof fn lemma_grounded_detection(
    pcol: BoxV,
    pos0: V3,
    vel0: V3,
    dt: int,
    cs: Seq<BoxV>,
    g0: bool,
)
    requires
        vel0.y > 0,
        ({
            let stx = s_after_x(pcol, pos0, vel0, dt, cs, g0);
            s_pass_hits(pcol, dt, sign(stx.vel.y), Axis::Y, s_enter_axis(stx, Axis::Y, dt), cs)
        }),
    ensures
        s_resolve(pcol, pos0, vel0, dt, cs, g0).vel.y == 0,
        s_resolve(pcol, pos0, vel0, dt, cs, g0).grounded,
{
    let st0 = s_start(pcol, pos0, vel0, g0);
    lemma_pass_frame(pcol, dt, sign(vel0.x), Axis::X, s_enter_axis(st0, Axis::X, dt), cs);
    let stx = s_after_x(pcol, pos0, vel0, dt, cs, g0);
    assert(axis_of(stx.vel, Axis::Y) == axis_of(s_enter_axis(st0, Axis::X, dt).vel, Axis::Y));
    assert(stx.vel.y == vel0.y);
    lemma_pass_hit_kills(pcol, dt, sign(stx.vel.y), Axis::Y, s_enter_axis(stx, Axis::Y, dt), cs);
    let sty = s_after_y(pcol, pos0, vel0, dt, cs, g0);
    assert(axis_of(sty.vel, Axis::Y) == 0);
    lemma_pass_frame(pcol, dt, sign(sty.vel.z), Axis::Z, s_enter_axis(sty, Axis::Z, dt), cs);
    let stz = s_resolve(pcol, pos0, vel0, dt, cs, g0);
    assert(axis_of(stz.vel, Axis::Y) == axis_of(sty.vel, Axis::Y));
    assert(stz.vel.y == 0);
}

/// A pass can only pick tags up from the colliders it is given, and never
/// forgets a tag into `None`.
proof fn lemma_pass_tag(pcol: BoxV, dt: int, dir: int, a: Axis, st: ColState, cs: Seq<BoxV>)
    ensures
        ({
            let out = s_axis_pass(pcol, dt, dir, a, st, cs);
            &&& out.tag == st.tag || (exists|i: int|
                0 <= i < cs.len() && out.tag == #[trigger] cs[i].tag && cs[i].tag is Some)
            &&& st.tag is Some ==> out.tag is Some
        }),
    decreases cs.len(),
{
    if cs.len() > 0 {
        lemma_pass_tag(pcol, dt, dir, a, st, cs.drop_last());
        let mid = s_axis_pass(pcol, dt, dir, a, st, cs.drop_last());
        let out = s_axis_pass(pcol, dt, dir, a, st, cs);
        if s_intersects(mid.bx, cs.last()) && cs.last().tag is Some {
            assert(out.tag == cs[cs.len() - 1].tag);
        } else {
            if mid.tag != st.tag {
                let i = choose|i: int|
                    0 <= i < cs.drop_last().len() && mid.tag == #[trigger] cs.drop_last()[i].tag
                        && cs.drop_last()[i].tag is Some;
                assert(cs[i] == cs.drop_last()[i]);
            }
        }
    }
}

/// Every tag the resolver returns comes off some world collider: a run
/// through an untagged world returns `None`, and a reported tag is carried
/// by a collider of the list.
pub proof fn lemma_tag_sound(
    pcol: BoxV,
    pos0: V3,
    vel0: V3,
    dt: int,
    cs: Seq<BoxV>,
    g0: bool,
)
    ensures
        ({
            let out = s_resolve(pcol, pos0, vel0, dt, cs, g0);
            out.tag is Some ==> exists|i: int|
                0 <= i < cs.len() && out.tag == #[trigger] cs[i].tag && cs[i].tag is Some
        }),
{
    let st0 = s_start(pcol, pos0, vel0, g0);
    lemma_pass_tag(pcol, dt, sign(vel0.x), Axis::X, s_enter_axis(st0, Axis::X, dt), cs);
    let stx = s_after_x(pcol, pos0, vel0, dt, cs, g0);
    lemma_pass_tag(pcol, dt, sign(stx.vel.y), Axis::Y, s_enter_axis(stx, Axis::Y, dt), cs);
    let sty = s_after_y(pcol, pos0, vel0, dt, cs, g0);
    lemma_pass_tag(pcol, dt, sign(sty.vel.z), Axis::Z, s_enter_axis(sty, Axis::Z, dt), cs);
}

/// Tag propagation against a single tagged collider: whichever axis pass
/// first overlaps it, the resolver reports its tag; and if no pass ever
/// overlaps it, no tag is reported.
pub proof fn lemma_tag_propagation(
    pcol: BoxV,
    pos0: V3,
    vel0: V3,
    dt: int,
    c: BoxV,
    g0: bool,
    tg: Tag,
)
    requires
        c.tag == Some(tg),
    ensures
        ({
            let cs = seq![c];
            let st0 = s_start(pcol, pos0, vel0, g0);
            let hit_x = s_pass_hits(pcol, dt, sign(vel0.x), Axis::X, s_enter_axis(st0, Axis::X, dt), cs);
            let stx = s_after_x(pcol, pos0, vel0, dt, cs, g0);
            let hit_y = s_pass_hits(pcol, dt, sign(stx.vel.y), Axis::Y, s_enter_axis(stx, Axis::Y, dt), cs);
            let sty = s_after_y(pcol, pos0, vel0, dt, cs, g0);
            let hit_z = s_pass_hits(pcol, dt, sign(sty.vel.z), Axis::Z, s_enter_axis(sty, Axis::Z, dt), cs);
            s_resolve(pcol, pos0, vel0, dt, cs, g0).tag == if hit_x || hit_y || hit_z {
                Some(tg)
            } else {
                None::<Tag>
            }
        }),
{
    let cs = seq![c];
    let e = Seq::<BoxV>::empty();
    assert(cs.drop_last() =~= e);
    assert(cs.last() == c);
    let st0 = s_start(pcol, pos0, vel0, g0);
    let in_x = s_enter_axis(st0, Axis::X, dt);
    let stx = s_after_x(pcol, pos0, vel0, dt, cs, g0);
    let in_y = s_enter_axis(stx, Axis::Y, dt);
    let sty = s_after_y(pcol, pos0, vel0, dt, cs, g0);
    let in_z = s_enter_axis(sty, Axis::Z, dt);
    let dx = sign(vel0.x);
    let dy = sign(stx.vel.y);
    let dz = sign(sty.vel.z);
    assert(s_axis_pass(pcol, dt, dx, Axis::X, in_x, e) == in_x);
    assert(s_axis_pass(pcol, dt, dy, Axis::Y, in_y, e) == in_y);
    assert(s_axis_pass(pcol, dt, dz, Axis::Z, in_z, e) == in_z);
    assert(!s_pass_hits(pcol, dt, dx, Axis::X, in_x, e));
    assert(!s_pass_hits(pcol, dt, dy, Axis::Y, in_y, e));
    assert(!s_pass_hits(pcol, dt, dz, Axis::Z, in_z, e));
    assert(s_axis_pass(pcol, dt, dx, Axis::X, in_x, cs) == s_axis_step(pcol, dt, dx, Axis::X, in_x, c));
    assert(s_axis_pass(pcol, dt, dy, Axis::Y, in_y, cs) == s_axis_step(pcol, dt, dy, Axis::Y, in_y, c));
    assert(s_axis_pass(pcol, dt, dz, Axis::Z, in_z, cs) == s_axis_step(pcol, dt, dz, Axis::Z, in_z, c));
    assert(s_pass_hits(pcol, dt, dx, Axis::X, in_x, cs) == s_intersects(in_x.bx, c));
    assert(s_pass_hits(pcol, dt, dy, Axis::Y, in_y, cs) == s_intersects(in_y.bx, c));
    assert(s_pass_hits(pcol, dt, dz, Axis::Z, in_z, cs) == s_intersects(in_z.bx, c));
}

} // verus!
