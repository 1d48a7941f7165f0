use vstd::prelude::*;
use crate::vec3::{Vec3, min_int, max_int};

verus! {

/// Largest magnitude of a box corner coordinate on which the arithmetic
/// operations of `AABB` are defined.
pub const BOX_LIMIT: i64 = 0x2000_0000_0000_0000;

#[derive(Clone, Copy, Debug, PartialEq, Eq, Structural)]
pub enum AABBSplitAxis {
    X,
    Y,
    Z,
}

/// The coordinate of `v` along `axis`.
pub open spec fn coord(v: Vec3, axis: AABBSplitAxis) -> int {
    match axis {
        AABBSplitAxis::X => v.x as int,
        AABBSplitAxis::Y => v.y as int,
        AABBSplitAxis::Z => v.z as int,
    }
}

/// An axis-aligned box given by its two corners.
#[derive(Clone, Copy, Debug, PartialEq, Eq, Structural)]
pub struct AABB {
    pub min: Vec3,
    pub max: Vec3,
}

/// Half of `v`, rounded towards zero as machine division does.
pub open spec fn half(v: int) -> int {
    if v >= 0 { v / 2 } else { -((-v) / 2) }
}

pub open spec fn bounded_coord(c: i64) -> bool {
    -BOX_LIMIT <= c <= BOX_LIMIT
}

impl AABB {
    /// Both corners lie within `BOX_LIMIT`.
    pub open spec fn bounded(self) -> bool {
        bounded_coord(self.min.x) && bounded_coord(self.min.y) && bounded_coord(self.min.z)
            && bounded_coord(self.max.x) && bounded_coord(self.max.y) && bounded_coord(
            self.max.z,
        )
    }

    /// `min` is componentwise no greater than `max`.
    pub open spec fn wf(self) -> bool {
        self.min.x <= self.max.x && self.min.y <= self.max.y && self.min.z <= self.max.z
    }

    /// Inclusive containment of a point on all three axes.
    pub open spec fn contains(self, p: Vec3) -> bool {
        self.min.x <= p.x <= self.max.x && self.min.y <= p.y <= self.max.y && self.min.z <= p.z
            <= self.max.z
    }

    /// `self` lies inside `o`.
    pub open spec fn within(self, o: AABB) -> bool {
        o.min.x <= self.min.x && self.max.x <= o.max.x && o.min.y <= self.min.y && self.max.y
            <= o.max.y && o.min.z <= self.min.z && self.max.z <= o.max.z
    }

    /// The boxes are not separated on any axis; touching counts.
    pub open spec fn intersects(self, o: AABB) -> bool {
        !(self.max.x < o.min.x || self.min.x > o.max.x) && !(self.max.y < o.min.y || self.min.y
            > o.max.y) && !(self.max.z < o.min.z || self.min.z > o.max.z)
    }

    pub open spec fn extent_on(self, axis: AABBSplitAxis) -> int {
        coord(self.max, axis) - coord(self.min, axis)
    }

    /// The midpoint coordinate along `axis`: `min` plus half the extent,
    /// rounded towards zero.
    pub open spec fn center_on(self, axis: AABBSplitAxis) -> int {
        coord(self.min, axis) + half(self.extent_on(axis))
    }

    /// The axis of greatest extent; earlier axes win ties.
    pub open spec fn largest_axis_spec(self) -> AABBSplitAxis {
        let ex = self.extent_on(AABBSplitAxis::X);
        let ey = self.extent_on(AABBSplitAxis::Y);
        let ez = self.extent_on(AABBSplitAxis::Z);
        if ex < ey {
            if ey < ez { AABBSplitAxis::Z } else { AABBSplitAxis::Y }
        } else {
            if ex < ez { AABBSplitAxis::Z } else { AABBSplitAxis::X }
        }
    }

    /// The half from the midpoint to `max` along `axis`.
    pub open spec fn pos_half(self, axis: AABBSplitAxis) -> AABB {
        let c = self.center_on(axis) as i64;
        match axis {
            AABBSplitAxis::X => AABB { min: Vec3 { x: c, ..self.min }, max: self.max },
            AABBSplitAxis::Y => AABB { min: Vec3 { y: c, ..self.min }, max: self.max },
            AABBSplitAxis::Z => AABB { min: Vec3 { z: c, ..self.min }, max: self.max },
        }
    }

    /// The half from `min` to the midpoint along `axis`.
    pub open spec fn neg_half(self, axis: AABBSplitAxis) -> AABB {
        let c = self.center_on(axis) as i64;
        match axis {
            AABBSplitAxis::X => AABB { min: self.min, max: Vec3 { x: c, ..self.max } },
            AABBSplitAxis::Y => AABB { min: self.min, max: Vec3 { y: c, ..self.max } },
            AABBSplitAxis::Z => AABB { min: self.min, max: Vec3 { z: c, ..self.max } },
        }
    }

    pub fn new(min: &Vec3, max: &Vec3) -> (r: Self)
        ensures
            r.min == *min,
            r.max == *max,
    {
        AABB { min: *min, max: *max }
    }

    /// The smallest box holding every point; both corners at the origin when
    /// there are none.
    pub fn from_points(points: &[Vec3]) -> (r: Self)
        ensures
            points@.len() == 0 ==> r.min == (Vec3 { x: 0, y: 0, z: 0 }) && r.max == (Vec3 { x: 0, y: 0, z: 0 }),
            points@.len() > 0 ==> {
                &&& r.wf()
                &&& forall|i: int| 0 <= i < points@.len() ==> r.contains(#[trigger] points@[i])
                &&& exists|i: int| 0 <= i < points@.len() && points@[i].x == r.min.x
                &&& exists|i: int| 0 <= i < points@.len() && points@[i].y == r.min.y
                &&& exists|i: int| 0 <= i < points@.len() && points@[i].z == r.min.z
                &&& exists|i: int| 0 <= i < points@.len() && points@[i].x == r.max.x
                &&& exists|i: int| 0 <= i < points@.len() && points@[i].y == r.max.y
                &&& exists|i: int| 0 <= i < points@.len() && points@[i].z == r.max.z
            },
    {
        if points.len() == 0 {
            return AABB { min: Vec3::new(0, 0, 0), max: Vec3::new(0, 0, 0) };
        }
        let first = points[0];
        let mut ret = AABB { min: first, max: first };
        let mut i: usize = 1;
        while i < points.len()
            invariant
                1 <= i <= points@.len(),
                ret.wf(),
                forall|k: int| 0 <= k < i ==> ret.contains(#[trigger] points@[k]),
                exists|k: int| 0 <= k < i && points@[k].x == ret.min.x,
                exists|k: int| 0 <= k < i && points@[k].y == ret.min.y,
                exists|k: int| 0 <= k < i && points@[k].z == ret.min.z,
                exists|k: int| 0 <= k < i && points@[k].x == ret.max.x,
                exists|k: int| 0 <= k < i && points@[k].y == ret.max.y,
                exists|k: int| 0 <= k < i && points@[k].z == ret.max.z,
            decreases points@.len() - i,
        {
            let pt = points[i];
            let old_ret = ret;
            ret.min = Vec3::min(&ret.min, &pt);
            ret.max = Vec3::max(&ret.max, &pt);
            assert(forall|k: int| 0 <= k < i ==> old_ret.contains(#[trigger] points@[k])
                ==> ret.contains(points@[k]));
            i = i + 1;
        }
        ret
    }

    /// The smallest box holding the three points.
    pub fn from_point3(pt0: &Vec3, pt1: &Vec3, pt2: &Vec3) -> (r: Self)
        ensures
            r.min.x == min_int(min_int(pt0.x as int, pt1.x as int), pt2.x as int),
            r.min.y == min_int(min_int(pt0.y as int, pt1.y as int), pt2.y as int),
            r.min.z == min_int(min_int(pt0.z as int, pt1.z as int), pt2.z as int),
            r.max.x == max_int(max_int(pt0.x as int, pt1.x as int), pt2.x as int),
            r.max.y == max_int(max_int(pt0.y as int, pt1.y as int), pt2.y as int),
            r.max.z == max_int(max_int(pt0.z as int, pt1.z as int), pt2.z as int),
    {
        AABB { min: Vec3::min3(pt0, pt1, pt2), max: Vec3::max3(pt0, pt1, pt2) }
    }

    /// Inclusive containment on the x and y axes only; z is not tested.
    pub fn point_in_aabb(&self, pt: &Vec3) -> (r: bool)
        ensures
            r == (self.min.x <= pt.x <= self.max.x && self.min.y <= pt.y <= self.max.y),
    {
        if pt.x < self.min.x {
            return false;
        }
        if pt.x > self.max.x {
            return false;
        }
        if pt.y < self.min.y {
            return false;
        }
        if pt.y > self.max.y {
            return false;
        }
        true
    }

    pub fn intersect_with_aabb(&self, other: &Self) -> (r: bool)
        ensures
            r == self.intersects(*other),
    {
        if self.max.x < other.min.x || self.min.x > other.max.x {
            return false;
        }
        if self.max.y < other.min.y || self.min.y > other.max.y {
            return false;
        }
        if self.max.z < other.min.z || self.min.z > other.max.z {
            return false;
        }
        true
    }

    /// `max - min` on each axis.
    pub fn extent(&self) -> (r: Vec3)
        requires
            self.bounded(),
        ensures
            r.x == self.max.x - self.min.x,
            r.y == self.max.y - self.min.y,
            r.z == self.max.z - self.min.z,
    {
        Vec3::new(self.max.x - self.min.x, self.max.y - self.min.y, self.max.z - self.min.z)
    }

    /// `min + extent / 2` on each axis.
    pub fn center(&self) -> (r: Vec3)
        requires
            self.bounded(),
        ensures
            r.x == self.center_on(AABBSplitAxis::X),
            r.y == self.center_on(AABBSplitAxis::Y),
            r.z == self.center_on(AABBSplitAxis::Z),
    {
        let ext = self.extent();
        Vec3::new(self.min.x + ext.x / 2, self.min.y + ext.y / 2, self.min.z + ext.z / 2)
    }

    /// The positive half (from the midpoint to `max`) and the negative half
    /// (from `min` to the midpoint) along `axis`.
    pub fn split(&self, axis: AABBSplitAxis) -> (r: (Self, Self))
        requires
            self.bounded(),
        ensures
            r.0 == self.pos_half(axis),
            r.1 == self.neg_half(axis),
    {
        let center = self.center();
        let mut pos_min = self.min;
        let pos_max = self.max;
        let neg_min = self.min;
        let mut neg_max = self.max;
        match axis {
            AABBSplitAxis::X => {
                pos_min.x = center.x;
                neg_max.x = center.x;
            },
            AABBSplitAxis::Y => {
                pos_min.y = center.y;
                neg_max.y = center.y;
            },
            AABBSplitAxis::Z => {
                pos_min.z = center.z;
                neg_max.z = center.z;
            },
        }
        (Self::new(&pos_min, &pos_max), Self::new(&neg_min, &neg_max))
    }

    pub fn largest_axis(&self) -> (r: AABBSplitAxis)
        requires
            self.bounded(),
        ensures
            r == self.largest_axis_spec(),
    {
        let ext = self.extent();
        let mut span = ext.x;
        let mut axis = AABBSplitAxis::X;
        if span < ext.y {
            span = ext.y;
            axis = AABBSplitAxis::Y;
        }
        if span < ext.z {
            axis = AABBSplitAxis::Z;
        }
        axis
    }

    /// Turns the box into a cube about its center whose edge is the largest
    /// extent.
    pub fn normalize(&mut self)
        requires
            old(self).bounded(),
        ensures
            ({
                let o = *old(self);
                let dim = max_int(
                    max_int(o.extent_on(AABBSplitAxis::X), o.extent_on(AABBSplitAxis::Y)),
                    o.extent_on(AABBSplitAxis::Z),
                );
                &&& final(self).min.x == o.center_on(AABBSplitAxis::X) - half(dim)
                &&& final(self).min.y == o.center_on(AABBSplitAxis::Y) - half(dim)
                &&& final(self).min.z == o.center_on(AABBSplitAxis::Z) - half(dim)
                &&& final(self).max.x == o.center_on(AABBSplitAxis::X) + half(dim)
                &&& final(self).max.y == o.center_on(AABBSplitAxis::Y) + half(dim)
                &&& final(self).max.z == o.center_on(AABBSplitAxis::Z) + half(dim)
            }),
    {
        let extent = self.extent();
        let mut dim = extent.x;
        if dim < extent.y {
            dim = extent.y;
        }
        if dim < extent.z {
            dim = extent.z;
        }
        let half_dim = dim / 2;
        let center = self.center();
        self.min = Vec3::new(center.x - half_dim, center.y - half_dim, center.z - half_dim);
        self.max = Vec3::new(center.x + half_dim, center.y + half_dim, center.z + half_dim);
    }

    /// Grows the box by half of `dist` on each side (shrinks it where `dist`
    /// is negative).
    pub fn expand(&mut self, dist: &Vec3)
        requires
            old(self).bounded(),
            bounded_coord(dist.x),
            bounded_coord(dist.y),
            bounded_coord(dist.z),
        ensures
            final(self).min.x == old(self).min.x - half(dist.x as int),
            final(self).min.y == old(self).min.y - half(dist.y as int),
            final(self).min.z == old(self).min.z - half(dist.z as int),
            final(self).max.x == old(self).max.x + half(dist.x as int),
            final(self).max.y == old(self).max.y + half(dist.y as int),
            final(self).max.z == old(self).max.z + half(dist.z as int),
    {
        let hx = dist.x / 2;
        let hy = dist.y / 2;
        let hz = dist.z / 2;
        self.min = Vec3::new(self.min.x - hx, self.min.y - hy, self.min.z - hz);
        self.max = Vec3::new(self.max.x + hx, self.max.y + hy, self.max.z + hz);
    }
}

impl Default for AABB {
    fn default() -> (r: Self)
        ensures
            r.min == (Vec3 { x: 0, y: 0, z: 0 }) && r.max == (Vec3 { x: 0, y: 0, z: 0 }),
    {
        AABB { min: Vec3::new(0, 0, 0), max: Vec3::new(0, 0, 0) }
    }
}

/// Whether two boxes intersect does not depend on their order.
pub proof fn lemma_intersect_symmetric(a: AABB, b: AABB)
    ensures
        a.intersects(b) == b.intersects(a),
{
}

} // verus!
