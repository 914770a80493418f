//! Axis-aligned box colliders with optional semantic tags.

use vstd::prelude::*;

use crate::fx::abs;
use crate::vec3::{Vec3, V3};

verus! {

/// The semantic zones a collider can mark, beyond plain solid geometry.
#[derive(Clone, Copy, Debug, PartialEq, Eq, Structural)]
pub enum Tag {
    /// Reaching it wins the level.
    Goal,
    /// A spike trap: touching it kills.
    Spike,
    /// A generic lethal zone.
    Death,
    /// A roaming enemy's body.
    AngryPixel,
}

/// The overlap margin: a hundredth of a world unit, so that boxes resting
/// flush against each other do not register as colliding.
pub const MARGIN: i64 = 10;

/// The mathematical model of a box: six unbounded bounds and the tag.
pub ghost struct BoxV {
    pub min_x: int,
    pub min_y: int,
    pub min_z: int,
    pub max_x: int,
    pub max_y: int,
    pub max_z: int,
    pub tag: Option<Tag>,
}

/// An axis-aligned bounding box, optionally tagged as a semantic zone.
#[derive(Clone, Copy, Debug)]
pub struct BoxCollider {
    pub max_x: i64,
    pub max_y: i64,
    pub max_z: i64,
    pub min_x: i64,
    pub min_y: i64,
    pub min_z: i64,
    pub tag: Option<Tag>,
}

impl View for BoxCollider {
    type V = BoxV;

    open spec fn view(&self) -> BoxV {
        BoxV {
            min_x: self.min_x as int,
            min_y: self.min_y as int,
            min_z: self.min_z as int,
            max_x: self.max_x as int,
            max_y: self.max_y as int,
            max_z: self.max_z as int,
            tag: self.tag,
        }
    }
}

/// Per-axis ordering of the bounds.
pub open spec fn box_wf(b: BoxV) -> bool {
    b.min_x <= b.max_x && b.min_y <= b.max_y && b.min_z <= b.max_z
}

/// Every bound has magnitude at most `l`.
pub open spec fn box_in_range(b: BoxV, l: int) -> bool {
    &&& abs(b.min_x) <= l
    &&& abs(b.min_y) <= l
    &&& abs(b.min_z) <= l
    &&& abs(b.max_x) <= l
    &&& abs(b.max_y) <= l
    &&& abs(b.max_z) <= l
}

/// Margin-extended AABB overlap: the boxes overlap by more than `MARGIN`
/// on every axis.
pub open spec fn s_intersects(a: BoxV, b: BoxV) -> bool {
    &&& a.min_x < b.max_x - MARGIN
    &&& a.min_y < b.max_y - MARGIN
    &&& a.min_z < b.max_z - MARGIN
    &&& a.max_x > b.min_x + MARGIN
    &&& a.max_y > b.min_y + MARGIN
    &&& a.max_z > b.min_z + MARGIN
}

/// A box shifted by an offset vector.
pub open spec fn s_box_translate(b: BoxV, off: V3) -> BoxV {
    BoxV {
        min_x: b.min_x + off.x,
        min_y: b.min_y + off.y,
        min_z: b.min_z + off.z,
        max_x: b.max_x + off.x,
        max_y: b.max_y + off.y,
        max_z: b.max_z + off.z,
        tag: b.tag,
    }
}

impl BoxCollider {
    /// Build a box from two opposite corners, normalising the per-axis
    /// order so that `min <= max` holds on each axis.
    pub fn new(p1: (i64, i64, i64), p2: (i64, i64, i64), tag: Option<Tag>) -> (r: BoxCollider)
        ensures
            r@.min_x == if p1.0 <= p2.0 { p1.0 as int } else { p2.0 as int },
            r@.max_x == if p1.0 <= p2.0 { p2.0 as int } else { p1.0 as int },
            r@.min_y == if p1.1 <= p2.1 { p1.1 as int } else { p2.1 as int },
            r@.max_y == if p1.1 <= p2.1 { p2.1 as int } else { p1.1 as int },
            r@.min_z == if p1.2 <= p2.2 { p1.2 as int } else { p2.2 as int },
            r@.max_z == if p1.2 <= p2.2 { p2.2 as int } else { p1.2 as int },
            r@.tag == tag,
            box_wf(r@),
    {
        let (min_x, max_x) = if p1.0 <= p2.0 { (p1.0, p2.0) } else { (p2.0, p1.0) };
        let (min_y, max_y) = if p1.1 <= p2.1 { (p1.1, p2.1) } else { (p2.1, p1.1) };
        let (min_z, max_z) = if p1.2 <= p2.2 { (p1.2, p2.2) } else { (p2.2, p1.2) };
        BoxCollider { max_x, max_y, max_z, min_x, min_y, min_z, tag }
    }

    /// Margin-extended overlap test against another box.
    pub fn intersects(&self, other: &BoxCollider) -> (r: bool)
        requires
            self@.min_x - MARGIN >= i64::MIN && self@.min_y - MARGIN >= i64::MIN && self@.min_z
                - MARGIN >= i64::MIN,
            other@.max_x - MARGIN >= i64::MIN && other@.min_x + MARGIN <= i64::MAX,
            other@.max_y - MARGIN >= i64::MIN && other@.min_y + MARGIN <= i64::MAX,
            other@.max_z - MARGIN >= i64::MIN && other@.min_z + MARGIN <= i64::MAX,
        ensures
            r == s_intersects(self@, other@),
    {
        self.min_x < other.max_x - MARGIN && self.min_y < other.max_y - MARGIN && self.min_z
            < other.max_z - MARGIN && self.max_x > other.min_x + MARGIN && self.max_y
            > other.min_y + MARGIN && self.max_z > other.min_z + MARGIN
    }

    /// Shift all six bounds by an offset vector.
    pub fn translate(&mut self, pos: Vec3)
        requires
            i64::MIN <= old(self)@.min_x + pos@.x <= i64::MAX,
            i64::MIN <= old(self)@.max_x + pos@.x <= i64::MAX,
            i64::MIN <= old(self)@.min_y + pos@.y <= i64::MAX,
            i64::MIN <= old(self)@.max_y + pos@.y <= i64::MAX,
            i64::MIN <= old(self)@.min_z + pos@.z <= i64::MAX,
            i64::MIN <= old(self)@.max_z + pos@.z <= i64::MAX,
        ensures
            final(self)@ == s_box_translate(old(self)@, pos@),
    {
        self.min_x += pos.x;
        self.max_x += pos.x;
        self.min_y += pos.y;
        self.max_y += pos.y;
        self.min_z += pos.z;
        self.max_z += pos.z;
    }
}

} // verus!
