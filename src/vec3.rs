use vstd::prelude::*;

verus! {

/// One unit of length, in ticks. Coordinates are fixed-point integers: a
/// value of `UNIT` ticks stands for a length of 1.
pub const UNIT: i64 = 1000;

/// Largest magnitude of a vertex coordinate, of a probe size and of a step.
pub const COORD_LIMIT: i64 = 0x100_0000_0000;

/// Largest magnitude of a coordinate of a probe position.
pub const PROBE_LIMIT: i64 = 0x400_0000_0000;

/// A point or direction in fixed-point ticks.
#[derive(Clone, Copy, Debug, PartialEq, Eq, Structural)]
pub struct Vec3 {
    pub x: i64,
    pub y: i64,
    pub z: i64,
}

pub open spec fn min_int(a: int, b: int) -> int {
    if a <= b { a } else { b }
}

pub open spec fn max_int(a: int, b: int) -> int {
    if a >= b { a } else { b }
}

fn min_i64(a: i64, b: i64) -> (r: i64)
    ensures
        r == min_int(a as int, b as int),
{
    if a <= b { a } else { b }
}

fn max_i64(a: i64, b: i64) -> (r: i64)
    ensures
        r == max_int(a as int, b as int),
{
    if a >= b { a } else { b }
}

/// Squared euclidean distance between two points.
pub open spec fn dist2(a: Vec3, b: Vec3) -> int {
    (a.x - b.x) * (a.x - b.x) + (a.y - b.y) * (a.y - b.y) + (a.z - b.z) * (a.z - b.z)
}

/// The integer square root of `n`, rounded down.
pub open spec fn isqrt_of(n: int) -> int {
    choose|r: int| is_isqrt(n, r)
}

/// `a / b` rounded towards zero, as machine division does.
pub open spec fn div_trunc(a: int, b: int) -> int {
    if a >= 0 { a / b } else { -((-a) / b) }
}

/// Squared length of `v`.
pub open spec fn norm2(v: Vec3) -> int {
    v.x * v.x + v.y * v.y + v.z * v.z
}

/// `v` scaled to length `UNIT`, each coordinate rounded towards zero; the
/// zero vector stays zero.
pub open spec fn normalized(v: Vec3) -> Vec3 {
    let l = isqrt_of(norm2(v));
    if l == 0 {
        Vec3 { x: 0, y: 0, z: 0 }
    } else {
        Vec3 {
            x: div_trunc(v.x * UNIT, l) as i64,
            y: div_trunc(v.y * UNIT, l) as i64,
            z: div_trunc(v.z * UNIT, l) as i64,
        }
    }
}

proof fn lemma_coord_below_len(c: int, n: int, l: int)
    requires
        is_isqrt(n, l),
        c * c <= n,
    ensures
        -l <= c <= l,
{
    if c > l {
        assert((l + 1) * (l + 1) <= c * c) by (nonlinear_arith)
            requires c > l, l >= 0;
    }
    if c < -l {
        assert((l + 1) * (l + 1) <= c * c) by (nonlinear_arith)
            requires c < -l, l >= 0;
    }
}

/// One coordinate scaled by `UNIT / l`, where `|c| <= l`.
fn scale_to_unit(c: i64, l: u64) -> (r: i64)
    requires
        l > 0,
        -(l as int) <= c <= l,
        l <= 0x1000_0000_0000,
    ensures
        r == div_trunc(c * UNIT, l as int),
        -UNIT <= r <= UNIT,
{
    assert(-0x1000_0000_0000 * 1000 <= c * 1000 <= 0x1000_0000_0000 * 1000) by (nonlinear_arith)
        requires -0x1000_0000_0000 <= c <= 0x1000_0000_0000;
    let num: i128 = (c as i128) * 1000;
    let q: i128 = num / (l as i128);
    proof {
        if c >= 0 {
            assert((c * 1000) / (l as int) <= 1000) by (nonlinear_arith)
                requires 0 <= c <= l, l > 0;
            assert(0 <= (c * 1000) / (l as int)) by (nonlinear_arith)
                requires 0 <= c, l > 0;
        } else {
            assert(((-c) * 1000) / (l as int) <= 1000) by (nonlinear_arith)
                requires 0 <= -c <= l, l > 0;
            assert(0 <= ((-c) * 1000) / (l as int)) by (nonlinear_arith)
                requires 0 <= -c, l > 0;
            assert(c * 1000 == -((-c) * 1000));
        }
    }
    q as i64
}

/// `d * dist / UNIT`, rounded towards zero.
fn step_along(d: i64, dist: i64) -> (r: i64)
    requires
        -UNIT <= d <= UNIT,
        -COORD_LIMIT <= dist <= COORD_LIMIT,
    ensures
        r == div_trunc(d * dist, UNIT as int),
        -COORD_LIMIT <= r <= COORD_LIMIT,
{
    assert(-1000 * 0x100_0000_0000 <= d * dist <= 1000 * 0x100_0000_0000) by (nonlinear_arith)
        requires -1000 <= d <= 1000, -0x100_0000_0000 <= dist <= 0x100_0000_0000;
    let p: i128 = (d as i128) * (dist as i128);
    (p / 1000) as i64
}

/// The integer square roots of a number agree.
pub proof fn lemma_isqrt_unique(n: int, a: int, b: int)
    requires
        is_isqrt(n, a),
        is_isqrt(n, b),
    ensures
        a == b,
{
    if a < b {
        assert((a + 1) * (a + 1) <= b * b) by (nonlinear_arith)
            requires 0 <= a < b;
    } else if b < a {
        assert((b + 1) * (b + 1) <= a * a) by (nonlinear_arith)
            requires 0 <= b < a;
    }
}

/// `r` is the integer square root of `n`, rounded down.
pub open spec fn is_isqrt(n: int, r: int) -> bool {
    0 <= r && r * r <= n && n < (r + 1) * (r + 1)
}

/// Integer square root by bisection, for `n < 2^88`.
pub fn isqrt(n: u128) -> (r: u64)
    requires
        n < 0x100_0000_0000_0000_0000_0000,
    ensures
        is_isqrt(n as int, r as int),
{
    let mut lo: u64 = 0;
    let mut hi: u64 = 0x1000_0000_0000;
    assert((hi as int) * (hi as int) > (n as int)) by (nonlinear_arith)
        requires hi == 0x1000_0000_0000u64, n < 0x100_0000_0000_0000_0000_0000;
    while hi - lo > 1
        invariant
            lo < hi <= 0x1000_0000_0000,
            (lo as int) * (lo as int) <= (n as int),
            (n as int) < (hi as int) * (hi as int),
        decreases hi - lo,
    {
        let mid: u64 = lo + (hi - lo) / 2;
        assert((mid as int) * (mid as int) <= 0x1000_0000_0000 * 0x1000_0000_0000) by (nonlinear_arith)
            requires mid <= 0x1000_0000_0000u64, 0 <= mid;
        let sq: u128 = (mid as u128) * (mid as u128);
        if sq <= n {
            lo = mid;
        } else {
            hi = mid;
        }
    }
    assert(hi == lo + 1);
    lo
}

impl Vec3 {
    /// Every coordinate lies within `COORD_LIMIT`.
    pub open spec fn in_range(self) -> bool {
        -COORD_LIMIT <= self.x <= COORD_LIMIT && -COORD_LIMIT <= self.y <= COORD_LIMIT
            && -COORD_LIMIT <= self.z <= COORD_LIMIT
    }

    /// Every coordinate lies within `PROBE_LIMIT`.
    pub open spec fn in_probe_range(self) -> bool {
        -PROBE_LIMIT <= self.x <= PROBE_LIMIT && -PROBE_LIMIT <= self.y <= PROBE_LIMIT
            && -PROBE_LIMIT <= self.z <= PROBE_LIMIT
    }

    pub fn new(x: i64, y: i64, z: i64) -> (r: Self)
        ensures
            r.x == x,
            r.y == y,
            r.z == z,
    {
        Vec3 { x, y, z }
    }

    /// Componentwise minimum.
    pub fn min(v1: &Self, v2: &Self) -> (r: Self)
        ensures
            r.x == min_int(v1.x as int, v2.x as int),
            r.y == min_int(v1.y as int, v2.y as int),
            r.z == min_int(v1.z as int, v2.z as int),
    {
        Vec3 { x: min_i64(v1.x, v2.x), y: min_i64(v1.y, v2.y), z: min_i64(v1.z, v2.z) }
    }

    /// Componentwise maximum.
    pub fn max(v1: &Self, v2: &Self) -> (r: Self)
        ensures
            r.x == max_int(v1.x as int, v2.x as int),
            r.y == max_int(v1.y as int, v2.y as int),
            r.z == max_int(v1.z as int, v2.z as int),
    {
        Vec3 { x: max_i64(v1.x, v2.x), y: max_i64(v1.y, v2.y), z: max_i64(v1.z, v2.z) }
    }

    /// Componentwise minimum of three points.
    pub fn min3(v1: &Self, v2: &Self, v3: &Self) -> (r: Self)
        ensures
            r.x == min_int(min_int(v1.x as int, v2.x as int), v3.x as int),
            r.y == min_int(min_int(v1.y as int, v2.y as int), v3.y as int),
            r.z == min_int(min_int(v1.z as int, v2.z as int), v3.z as int),
    {
        let m = Self::min(v1, v2);
        Self::min(&m, v3)
    }

    /// Componentwise maximum of three points.
    pub fn max3(v1: &Self, v2: &Self, v3: &Self) -> (r: Self)
        ensures
            r.x == max_int(max_int(v1.x as int, v2.x as int), v3.x as int),
            r.y == max_int(max_int(v1.y as int, v2.y as int), v3.y as int),
            r.z == max_int(max_int(v1.z as int, v2.z as int), v3.z as int),
    {
        let m = Self::max(v1, v2);
        Self::max(&m, v3)
    }

    /// Dot product, exact in 128 bits.
    pub fn dot(&self, other: &Self) -> (r: i128)
        requires
            self.in_range(),
            other.in_range(),
        ensures
            r == self.x * other.x + self.y * other.y + self.z * other.z,
    {
        assert(-0x1_0000_0000_0000_0000_0000 <= self.x * other.x <= 0x1_0000_0000_0000_0000_0000
            && -0x1_0000_0000_0000_0000_0000 <= self.y * other.y <= 0x1_0000_0000_0000_0000_0000
            && -0x1_0000_0000_0000_0000_0000 <= self.z * other.z <= 0x1_0000_0000_0000_0000_0000)
            by (nonlinear_arith)
            requires self.in_range(), other.in_range();
        (self.x as i128) * (other.x as i128) + (self.y as i128) * (other.y as i128)
            + (self.z as i128) * (other.z as i128)
    }

    /// Squared distance to `other`, exact in 128 bits.
    pub fn distance2_to(&self, other: &Self) -> (r: u128)
        requires
            self.in_probe_range(),
            other.in_probe_range(),
        ensures
            r == dist2(*self, *other),
            r < 0x100_0000_0000_0000_0000_0000,
    {
        let dx = (self.x as i128 - other.x as i128);
        let dy = (self.y as i128 - other.y as i128);
        let dz = (self.z as i128 - other.z as i128);
        assert(0 <= dx * dx <= 0x40_0000_0000_0000_0000_0000 && 0 <= dy * dy
            <= 0x40_0000_0000_0000_0000_0000 && 0 <= dz * dz <= 0x40_0000_0000_0000_0000_0000)
            by (nonlinear_arith)
            requires
                -0x800_0000_0000 <= dx <= 0x800_0000_0000,
                -0x800_0000_0000 <= dy <= 0x800_0000_0000,
                -0x800_0000_0000 <= dz <= 0x800_0000_0000,
        ;
        ((dx * dx) as u128) + ((dy * dy) as u128) + ((dz * dz) as u128)
    }

    /// Distance to `other`, rounded down to a whole tick.
    pub fn distance_to(&self, other: &Self) -> (r: u64)
        requires
            self.in_probe_range(),
            other.in_probe_range(),
        ensures
            is_isqrt(dist2(*self, *other), r as int),
            r <= 0x1000_0000_0000,
    {
        let d2 = self.distance2_to(other);
        let r = isqrt(d2);
        assert(r <= 0x1000_0000_0000) by (nonlinear_arith)
            requires (r as int) * (r as int) <= d2, d2 < 0x100_0000_0000_0000_0000_0000, r >= 0;
        r
    }

    /// Length, rounded down to a whole tick.
    pub fn length(&self) -> (r: u64)
        requires
            self.in_probe_range(),
        ensures
            r == isqrt_of(norm2(*self)),
            is_isqrt(norm2(*self), r as int),
            r <= 0x1000_0000_0000,
    {
        let zero = Vec3 { x: 0, y: 0, z: 0 };
        let r = self.distance_to(&zero);
        proof {
            assert(dist2(*self, zero) == norm2(*self));
            lemma_isqrt_unique(norm2(*self), r as int, isqrt_of(norm2(*self)));
        }
        r
    }

    /// Scales the vector to length `UNIT`; the zero vector stays zero.
    pub fn normalize(&mut self)
        requires
            old(self).in_probe_range(),
        ensures
            *final(self) == normalized(*old(self)),
            final(self).in_range(),
    {
        let len = self.length();
        proof {
            let n = norm2(*self);
            assert(is_isqrt(n, len as int));
            assert(self.x * self.x <= n && self.y * self.y <= n && self.z * self.z <= n) by (nonlinear_arith)
                requires n == self.x * self.x + self.y * self.y + self.z * self.z;
            lemma_coord_below_len(self.x as int, n, len as int);
            lemma_coord_below_len(self.y as int, n, len as int);
            lemma_coord_below_len(self.z as int, n, len as int);
        }
        if len == 0 {
            self.x = 0;
            self.y = 0;
            self.z = 0;
        } else {
            let x = scale_to_unit(self.x, len);
            let y = scale_to_unit(self.y, len);
            let z = scale_to_unit(self.z, len);
            self.x = x;
            self.y = y;
            self.z = z;
        }
    }

    /// The direction from `self` to `other`, of length `UNIT`.
    pub fn direction_to(&self, other: &Self) -> (r: Self)
        requires
            self.in_range(),
            other.in_range(),
        ensures
            r == normalized(
                Vec3 { x: (other.x - self.x) as i64, y: (other.y - self.y) as i64, z: (other.z - self.z) as i64 },
            ),
    {
        let mut tmp = Vec3::new(other.x - self.x, other.y - self.y, other.z - self.z);
        tmp.normalize();
        tmp
    }

    /// Moves the point by `dist` along `direction`, a vector of length at
    /// most `UNIT` on each axis.
    pub fn move_towards(&mut self, direction: &Vec3, dist: i64)
        requires
            old(self).in_range(),
            -UNIT <= direction.x <= UNIT && -UNIT <= direction.y <= UNIT && -UNIT <= direction.z
                <= UNIT,
            -COORD_LIMIT <= dist <= COORD_LIMIT,
        ensures
            final(self).x == old(self).x + div_trunc(direction.x * dist, UNIT as int),
            final(self).y == old(self).y + div_trunc(direction.y * dist, UNIT as int),
            final(self).z == old(self).z + div_trunc(direction.z * dist, UNIT as int),
    {
        let dx = step_along(direction.x, dist);
        let dy = step_along(direction.y, dist);
        let dz = step_along(direction.z, dist);
        self.x = self.x + dx;
        self.y = self.y + dy;
        self.z = self.z + dz;
    }
}

impl Default for Vec3 {
    fn default() -> (r: Self)
        ensures
            r.x == 0 && r.y == 0 && r.z == 0,
    {
        Vec3 { x: 0, y: 0, z: 0 }
    }
}

} // verus!
