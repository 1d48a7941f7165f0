use vstd::prelude::*;
use crate::aabb::{coord, AABBSplitAxis, AABB};
use crate::bvh::{
    binary, box_within, built, child, holds_tri, lemma_node_box, BVHNode,
    MIN_EXTENT,
};
use crate::query::{hit_leaves, leaves, leaves_stack_order, node_of, BVHNodeIntersectionResult};
use crate::vec3::{dist2, div_trunc, is_isqrt, isqrt_of, lemma_isqrt_unique, Vec3, COORD_LIMIT};
use std::rc::Rc;

verus! {

/// Number of probe positions on a segment of length `len` walked in steps
/// of `step`: `len / step` rounded up.
pub open spec fn chunks(len: int, step: int) -> int {
    (len + step - 1) / step
}

/// The `k`-th probe position on the segment from `start` to `end` of length
/// `len`: `k * step` along it, each coordinate rounded towards `start`.
pub open spec fn probe_center(start: Vec3, end: Vec3, len: int, step: int, k: int) -> Vec3 {
    Vec3 {
        x: (start.x + div_trunc((end.x - start.x) * (k * step), len)) as i64,
        y: (start.y + div_trunc((end.y - start.y) * (k * step), len)) as i64,
        z: (start.z + div_trunc((end.z - start.z) * (k * step), len)) as i64,
    }
}

/// The probe block of size `block` centered at `c`.
pub open spec fn probe_box(c: Vec3, block: Vec3) -> AABB {
    AABB {
        min: Vec3 {
            x: (c.x - block.x / 2) as i64,
            y: (c.y - block.y / 2) as i64,
            z: (c.z - block.z / 2) as i64,
        },
        max: Vec3 {
            x: (c.x + block.x / 2) as i64,
            y: (c.y + block.y / 2) as i64,
            z: (c.z + block.z / 2) as i64,
        },
    }
}

/// Number of leaves the probe block at `c` meets.
pub open spec fn probe_hits(n: BVHNode, c: Vec3, block: Vec3) -> int {
    hit_leaves(n, probe_box(c, block)).len() as int
}

/// The most leaves met at any of the first `k` probe positions.
pub open spec fn march_peak(
    n: BVHNode,
    block: Vec3,
    start: Vec3,
    end: Vec3,
    len: int,
    step: int,
    k: int,
) -> int
    decreases k,
{
    if k <= 0 {
        0
    } else {
        let a = march_peak(n, block, start, end, len, step, k - 1);
        let b = probe_hits(n, probe_center(start, end, len, step, k - 1), block);
        if a >= b { a } else { b }
    }
}

/// The peak a directional probe observes: 0 on a segment with no probe
/// position; with `brk`, the count at the first position; else the most
/// leaves met at any position.
pub open spec fn directional_peak(
    n: BVHNode,
    block: Vec3,
    start: Vec3,
    end: Vec3,
    step: int,
    brk: bool,
) -> int {
    let len = isqrt_of(dist2(start, end));
    let m = chunks(len, step);
    if m <= 0 {
        0
    } else if brk {
        probe_hits(n, probe_center(start, end, len, step, 0), block)
    } else {
        march_peak(n, block, start, end, len, step, m)
    }
}

/// A probe block size: no component negative or beyond `COORD_LIMIT`.
pub open spec fn block_ok(b: Vec3) -> bool {
    0 <= b.x <= COORD_LIMIT && 0 <= b.y <= COORD_LIMIT && 0 <= b.z <= COORD_LIMIT
}


pub open spec fn max2(a: int, b: int) -> int {
    if a >= b { a } else { b }
}

/// The peak of a full vertical probe through the column at `(x, y)`,
/// spanning the tree's box on z, with a cubic block of edge `step` moved in
/// steps of `step / 2`.
pub open spec fn column_peak(n: BVHNode, step: int, x: int, y: int) -> int {
    directional_peak(
        n,
        Vec3 { x: step as i64, y: step as i64, z: step as i64 },
        Vec3 { x: x as i64, y: y as i64, z: n.aabb.min.z },
        Vec3 { x: x as i64, y: y as i64, z: n.aabb.max.z },
        step / 2,
        false,
    )
}

/// The highest column peak at `y, y + step / 2, ...` below `ymax`.
pub open spec fn row_from(n: BVHNode, step: int, x: int, y: int, ymax: int) -> int
    decreases (if y < ymax { ymax - y } else { 0 }),
{
    if step < 2 || y >= ymax {
        0
    } else {
        max2(column_peak(n, step, x, y), row_from(n, step, x, y + step / 2, ymax))
    }
}

/// The highest row peak at `x, x + step / 2, ...` below `xmax`.
pub open spec fn grid_from(n: BVHNode, step: int, x: int, xmax: int, y0: int, ymax: int) -> int
    decreases (if x < xmax { xmax - x } else { 0 }),
{
    if step < 2 || x >= xmax {
        0
    } else {
        max2(row_from(n, step, x, y0, ymax), grid_from(n, step, x + step / 2, xmax, y0, ymax))
    }
}

/// The volumetric overlap peak: the highest column peak over the grid of
/// spacing `step / 2` that covers the tree's box widened by `step / 2` on
/// each side in x and y.
pub open spec fn block_peak(n: BVHNode, step: int) -> int {
    let h = step / 2;
    grid_from(
        n,
        step,
        n.aabb.min.x - h,
        n.aabb.max.x + h,
        n.aabb.min.y - h,
        n.aabb.max.y + h,
    )
}

/// The axis walked by the outer loop of a face scan perpendicular to `axis`.
pub open spec fn outer_axis(axis: AABBSplitAxis) -> AABBSplitAxis {
    match axis {
        AABBSplitAxis::X => AABBSplitAxis::Y,
        AABBSplitAxis::Y => AABBSplitAxis::Z,
        AABBSplitAxis::Z => AABBSplitAxis::X,
    }
}

/// The axis walked by the inner loop of a face scan perpendicular to `axis`.
pub open spec fn inner_axis(axis: AABBSplitAxis) -> AABBSplitAxis {
    match axis {
        AABBSplitAxis::X => AABBSplitAxis::Z,
        AABBSplitAxis::Y => AABBSplitAxis::X,
        AABBSplitAxis::Z => AABBSplitAxis::Y,
    }
}

/// The point with coordinate `a` on `axis`, `u` on its outer axis and `v` on
/// its inner axis.
pub open spec fn face_point(axis: AABBSplitAxis, a: int, u: int, v: int) -> Vec3 {
    match axis {
        AABBSplitAxis::X => Vec3 { x: a as i64, y: u as i64, z: v as i64 },
        AABBSplitAxis::Y => Vec3 { x: v as i64, y: a as i64, z: u as i64 },
        AABBSplitAxis::Z => Vec3 { x: u as i64, y: v as i64, z: a as i64 },
    }
}

/// Lower end on `axis` of the tree's box widened by the block.
pub open spec fn scan_lo(n: BVHNode, block: Vec3, axis: AABBSplitAxis) -> int {
    coord(n.aabb.min, axis) - coord(block, axis) / 2
}

/// Upper end on `axis` of the tree's box widened by the block.
pub open spec fn scan_hi(n: BVHNode, block: Vec3, axis: AABBSplitAxis) -> int {
    coord(n.aabb.max, axis) + coord(block, axis) / 2
}

/// The two first-hit probes of one face cell: from the widened box's lower
/// face along `axis` towards its upper face, and from the upper face back.
pub open spec fn cell_peak(
    n: BVHNode,
    axis: AABBSplitAxis,
    block: Vec3,
    step: int,
    u: int,
    v: int,
) -> int {
    let a = scan_lo(n, block, axis);
    let p = face_point(axis, a, u, v);
    let q = face_point(axis, scan_hi(n, block, axis), u, v);
    max2(directional_peak(n, block, p, q, step, true), directional_peak(n, block, q, p, step, true))
}

/// The highest cell peak at inner coordinates `v, v + block / 2, ...` below
/// the widened box's upper end.
pub open spec fn face_row_from(
    n: BVHNode,
    axis: AABBSplitAxis,
    block: Vec3,
    step: int,
    u: int,
    v: int,
) -> int
    decreases (if v < scan_hi(n, block, inner_axis(axis)) { scan_hi(n, block, inner_axis(axis)) - v } else { 0 }),
{
    let dv = coord(block, inner_axis(axis)) / 2;
    if dv < 1 || v >= scan_hi(n, block, inner_axis(axis)) {
        0
    } else {
        max2(cell_peak(n, axis, block, step, u, v), face_row_from(n, axis, block, step, u, v + dv))
    }
}

/// The highest row peak at outer coordinates `u, u + block / 2, ...` below
/// the widened box's upper end.
pub open spec fn face_from(n: BVHNode, axis: AABBSplitAxis, block: Vec3, step: int, u: int) -> int
    decreases (if u < scan_hi(n, block, outer_axis(axis)) { scan_hi(n, block, outer_axis(axis)) - u } else { 0 }),
{
    let du = coord(block, outer_axis(axis)) / 2;
    if du < 1 || u >= scan_hi(n, block, outer_axis(axis)) {
        0
    } else {
        max2(
            face_row_from(n, axis, block, step, u, scan_lo(n, block, inner_axis(axis))),
            face_from(n, axis, block, step, u + du),
        )
    }
}

/// The peak of the scan of the two faces perpendicular to `axis`.
pub open spec fn axis_peak(n: BVHNode, axis: AABBSplitAxis, block: Vec3, step: int) -> int {
    face_from(n, axis, block, step, scan_lo(n, block, outer_axis(axis)))
}

/// The surface overlap peak: the highest of the three axes' face scans.
pub open spec fn surface_peak(n: BVHNode, step: int, block: Vec3) -> int {
    max2(
        max2(axis_peak(n, AABBSplitAxis::X, block, step), axis_peak(n, AABBSplitAxis::Y, block, step)),
        axis_peak(n, AABBSplitAxis::Z, block, step),
    )
}

/// A tree that can be probed: binary, with a well formed root box near the
/// origin.
pub open spec fn probe_ready(n: BVHNode) -> bool {
    binary(n) && n.aabb.wf() && box_within(n.aabb, COORD_LIMIT + MIN_EXTENT)
}

fn get_coord(v: &Vec3, axis: AABBSplitAxis) -> (r: i64)
    ensures
        r == coord(*v, axis),
{
    match axis {
        AABBSplitAxis::X => v.x,
        AABBSplitAxis::Y => v.y,
        AABBSplitAxis::Z => v.z,
    }
}

fn outer_axis_of(axis: AABBSplitAxis) -> (r: AABBSplitAxis)
    ensures
        r == outer_axis(axis),
{
    match axis {
        AABBSplitAxis::X => AABBSplitAxis::Y,
        AABBSplitAxis::Y => AABBSplitAxis::Z,
        AABBSplitAxis::Z => AABBSplitAxis::X,
    }
}

fn inner_axis_of(axis: AABBSplitAxis) -> (r: AABBSplitAxis)
    ensures
        r == inner_axis(axis),
{
    match axis {
        AABBSplitAxis::X => AABBSplitAxis::Z,
        AABBSplitAxis::Y => AABBSplitAxis::X,
        AABBSplitAxis::Z => AABBSplitAxis::Y,
    }
}

fn make_face_point(axis: AABBSplitAxis, a: i64, u: i64, v: i64) -> (r: Vec3)
    ensures
        r == face_point(axis, a as int, u as int, v as int),
{
    match axis {
        AABBSplitAxis::X => Vec3::new(a, u, v),
        AABBSplitAxis::Y => Vec3::new(v, a, u),
        AABBSplitAxis::Z => Vec3::new(u, v, a),
    }
}

proof fn lemma_center_between(d: int, t: int, len: int)
    requires
        0 <= t < len,
    ensures
        d >= 0 ==> 0 <= div_trunc(d * t, len) <= d,
        d < 0 ==> d <= div_trunc(d * t, len) <= 0,
{
    if d >= 0 {
        assert(0 <= d * t <= d * len) by (nonlinear_arith)
            requires d >= 0, 0 <= t < len;
        assert((d * t) / len <= d) by (nonlinear_arith)
            requires d >= 0, 0 <= t < len, 0 <= d * t <= d * len;
        assert(0 <= (d * t) / len) by (nonlinear_arith)
            requires 0 <= d * t, len > 0;
    } else {
        assert(0 <= (-d) * t <= (-d) * len) by (nonlinear_arith)
            requires d < 0, 0 <= t < len;
        assert(d * t == -((-d) * t)) by (nonlinear_arith);
        assert(((-d) * t) / len <= -d) by (nonlinear_arith)
            requires d < 0, 0 <= t < len, 0 <= (-d) * t <= (-d) * len;
        assert(0 <= ((-d) * t) / len) by (nonlinear_arith)
            requires 0 <= (-d) * t, len > 0;
    }
}

proof fn lemma_hits_at_most_leaves(n: BVHNode, q: AABB)
    ensures
        hit_leaves(n, q).len() <= leaves(n).len(),
    decreases n,
{
    if n.children@.len() == 2 {
        lemma_hits_at_most_leaves(child(n, 0), q);
        lemma_hits_at_most_leaves(child(n, 1), q);
    }
}

proof fn lemma_stack_order_len(n: BVHNode)
    ensures
        leaves_stack_order(n).len() == leaves(n).len(),
    decreases n,
{
    if n.children@.len() == 2 {
        lemma_stack_order_len(child(n, 0));
        lemma_stack_order_len(child(n, 1));
    }
}

/// A query box that holds a box `r` holding every triangle of a built,
/// non-empty node meets every node under it, so the search reports every leaf.
proof fn lemma_all_leaves_hit(n: BVHNode, target: int, r: AABB, q: AABB)
    requires
        built(n, target),
        target >= 1,
        n.idx_buf@.len() > 0,
        forall|i: int|
            0 <= i < n.idx_buf@.len() ==> holds_tri(r, (#[trigger] n.idx_buf@[i]).tri_spec(n.vtx_buf@)),
        r.within(q),
    ensures
        hit_leaves(n, q) == leaves(n),
    decreases n,
{
    let s = n.idx_buf@;
    lemma_node_box(n.vtx_buf@, s);
    assert(holds_tri(n.aabb, s[0].tri_spec(n.vtx_buf@)));
    assert(holds_tri(r, s[0].tri_spec(n.vtx_buf@)));
    assert(n.aabb.intersects(q));
    if n.children@.len() == 2 {
        crate::bvh::lemma_children_held(n, target, r);
        let c0 = child(n, 0);
        let c1 = child(n, 1);
        lemma_all_leaves_hit(c0, target, r, q);
        lemma_all_leaves_hit(c1, target, r, q);
    }
}

proof fn lemma_march_bounds(
    n: BVHNode,
    block: Vec3,
    start: Vec3,
    end: Vec3,
    len: int,
    step: int,
    k: int,
)
    ensures
        0 <= march_peak(n, block, start, end, len, step, k) <= leaves(n).len(),
        forall|j: int|
            0 <= j < k ==> probe_hits(n, #[trigger] probe_center(start, end, len, step, j), block)
                <= march_peak(n, block, start, end, len, step, k),
    decreases k,
{
    if k > 0 {
        lemma_march_bounds(n, block, start, end, len, step, k - 1);
        lemma_hits_at_most_leaves(n, probe_box(probe_center(start, end, len, step, k - 1), block));
    }
}

proof fn lemma_directional_at_most(n: BVHNode, block: Vec3, start: Vec3, end: Vec3, step: int, brk: bool)
    ensures
        0 <= directional_peak(n, block, start, end, step, brk) <= leaves(n).len(),
{
    let len = isqrt_of(dist2(start, end));
    lemma_march_bounds(n, block, start, end, len, step, chunks(len, step));
    lemma_hits_at_most_leaves(n, probe_box(probe_center(start, end, len, step, 0), block));
}

proof fn lemma_row_at_most(n: BVHNode, step: int, x: int, y: int, ymax: int)
    ensures
        0 <= row_from(n, step, x, y, ymax) <= leaves(n).len(),
    decreases (if y < ymax { ymax - y } else { 0 }),
{
    if step >= 2 && y < ymax {
        lemma_directional_at_most(
            n,
            Vec3 { x: step as i64, y: step as i64, z: step as i64 },
            Vec3 { x: x as i64, y: y as i64, z: n.aabb.min.z },
            Vec3 { x: x as i64, y: y as i64, z: n.aabb.max.z },
            step / 2,
            false,
        );
        lemma_row_at_most(n, step, x, y + step / 2, ymax);
    }
}

proof fn lemma_grid_at_most(n: BVHNode, step: int, x: int, xmax: int, y0: int, ymax: int)
    ensures
        0 <= grid_from(n, step, x, xmax, y0, ymax) <= leaves(n).len(),
    decreases (if x < xmax { xmax - x } else { 0 }),
{
    if step >= 2 && x < xmax {
        lemma_row_at_most(n, step, x, y0, ymax);
        lemma_grid_at_most(n, step, x + step / 2, xmax, y0, ymax);
    }
}

/// The column two half-steps in from the box's lower corner meets every
/// leaf at one of its positions.
proof fn lemma_central_column(n: BVHNode, target: int, step: int)
    requires
        built(n, target),
        target >= 1,
        n.idx_buf@.len() > 0,
        2 <= step <= COORD_LIMIT,
        step > n.aabb.max.x - n.aabb.min.x,
        step > n.aabb.max.y - n.aabb.min.y,
        step > n.aabb.max.z - n.aabb.min.z,
    ensures
        column_peak(n, step, n.aabb.min.x + step / 2, n.aabb.min.y + step / 2) == leaves(n).len(),
{
    lemma_node_box(n.vtx_buf@, n.idx_buf@);
    crate::bvh::lemma_built_shape(n, target);
    let h = step / 2;
    let m = n.aabb.min;
    let mx = n.aabb.max;
    let ez = mx.z - m.z;
    let x = m.x + h;
    let y = m.y + h;
    let block = Vec3 { x: step as i64, y: step as i64, z: step as i64 };
    let start = Vec3 { x: x as i64, y: y as i64, z: m.z };
    let end = Vec3 { x: x as i64, y: y as i64, z: mx.z };
    assert(dist2(start, end) == ez * ez) by (nonlinear_arith)
        requires start.x == end.x, start.y == end.y, end.z - start.z == ez;
    assert(is_isqrt(ez * ez, ez)) by (nonlinear_arith)
        requires ez >= 0;
    let len = isqrt_of(dist2(start, end));
    lemma_isqrt_unique(ez * ez, ez, len);
    let k: int = if ez <= h { 0 } else { 1 };
    assert(chunks(len, h) > k) by (nonlinear_arith)
        requires len == ez, ez >= 100, h >= 1, k == (if ez <= h { 0int } else { 1int });
    assert(div_trunc(0 * (k * h), len) == 0);
    assert(div_trunc(ez * (k * h), len) == k * h) by (nonlinear_arith)
        requires len == ez, ez >= 100, k == 0 || k == 1, h >= 1;
    let c = probe_center(start, end, len, h, k);
    assert(c == Vec3 { x: x as i64, y: y as i64, z: (m.z + k * h) as i64 });
    let q = probe_box(c, block);
    assert(n.aabb.within(q));
    lemma_all_leaves_hit(n, target, n.aabb, q);
    lemma_march_bounds(n, block, start, end, len, h, chunks(len, h));
}

/// A cubic block whose edge exceeds every extent of a built tree's box meets
/// every leaf at once at some position of the volumetric scan, and no
/// position meets more: the volumetric overlap peak is the number of leaves.
#[verifier::rlimit(40)]
pub proof fn lemma_big_block_meets_every_leaf(n: BVHNode, target: int, step: int)
    requires
        built(n, target),
        target >= 1,
        n.idx_buf@.len() > 0,
        2 <= step <= COORD_LIMIT,
        step > n.aabb.max.x - n.aabb.min.x,
        step > n.aabb.max.y - n.aabb.min.y,
        step > n.aabb.max.z - n.aabb.min.z,
    ensures
        block_peak(n, step) == leaves(n).len(),
        block_peak(n, step) == leaves_stack_order(n).len(),
{
    lemma_stack_order_len(n);
    lemma_node_box(n.vtx_buf@, n.idx_buf@);
    lemma_central_column(n, target, step);
    let l = leaves(n).len() as int;
    let h = step / 2;
    let x = n.aabb.min.x + h;
    let y = n.aabb.min.y + h;
    let x0 = n.aabb.min.x - h;
    let y0 = n.aabb.min.y - h;
    let xmax = n.aabb.max.x + h;
    let ymax = n.aabb.max.y + h;
    lemma_row_at_most(n, step, x, y + h, ymax);
    lemma_row_at_most(n, step, x, y0, ymax);
    assert(row_from(n, step, x, y, ymax)
        == max2(column_peak(n, step, x, y), row_from(n, step, x, y + h, ymax)));
    assert(row_from(n, step, x, y0 + h, ymax)
        == max2(column_peak(n, step, x, y0 + h), row_from(n, step, x, y, ymax)));
    assert(row_from(n, step, x, y0, ymax)
        == max2(column_peak(n, step, x, y0), row_from(n, step, x, y0 + h, ymax)));
    assert(row_from(n, step, x, y0, ymax) == l);
    lemma_grid_at_most(n, step, x0, xmax, y0, ymax);
    lemma_grid_at_most(n, step, x + h, xmax, y0, ymax);
    assert(grid_from(n, step, x, xmax, y0, ymax)
        == max2(row_from(n, step, x, y0, ymax), grid_from(n, step, x + h, xmax, y0, ymax)));
    assert(grid_from(n, step, x0 + h, xmax, y0, ymax)
        == max2(row_from(n, step, x0 + h, y0, ymax), grid_from(n, step, x, xmax, y0, ymax)));
    assert(grid_from(n, step, x0, xmax, y0, ymax)
        == max2(row_from(n, step, x0, y0, ymax), grid_from(n, step, x0 + h, xmax, y0, ymax)));
    lemma_row_at_most(n, step, x0, y0, ymax);
    lemma_row_at_most(n, step, x0 + h, y0, ymax);
}

/// One coordinate of a probe position, between `s` and `e`.
fn march_coord(s: i64, e: i64, t: u64, len: u64) -> (r: i64)
    requires
        -0x400_0000_0000 <= s <= 0x400_0000_0000,
        -0x400_0000_0000 <= e <= 0x400_0000_0000,
        t < len <= 0x1000_0000_0000,
    ensures
        r == s + div_trunc((e - s) * t, len as int),
        -0x400_0000_0000 <= r <= 0x400_0000_0000,
{
    let d: i128 = e as i128 - s as i128;
    proof {
        lemma_center_between(d as int, t as int, len as int);
    }
    assert(-0x800_0000_0000 * 0x1000_0000_0000 <= d * t <= 0x800_0000_0000 * 0x1000_0000_0000)
        by (nonlinear_arith)
        requires -0x800_0000_0000 <= d <= 0x800_0000_0000, 0 <= t < 0x1000_0000_0000;
    let num: i128 = d * (t as i128);
    let q: i128 = num / (len as i128);
    (s as i128 + q) as i64
}

impl BVHNode {
    /// Marches a probe block of size `block_size` from `start` towards `end`
    /// in steps of `step_into`, and returns the most leaves it meets at one
    /// position. With `break_on_hit` only the first position is probed.
    pub fn directional_hit(
        bvh: Rc<BVHNode>,
        block_size: &Vec3,
        start: &Vec3,
        end: &Vec3,
        step_into: i64,
        break_on_hit: bool,
    ) -> (r: usize)
        requires
            binary(*bvh),
            start.in_probe_range(),
            end.in_probe_range(),
            block_ok(*block_size),
            0 < step_into <= COORD_LIMIT,
        ensures
            r == directional_peak(*bvh, *block_size, *start, *end, step_into as int, break_on_hit),
    {
        let d = end.distance_to(start);
        let ghost len = isqrt_of(dist2(*start, *end));
        proof {
            assert(dist2(*end, *start) == dist2(*start, *end)) by (nonlinear_arith);
            lemma_isqrt_unique(dist2(*start, *end), d as int, len);
        }
        let step = step_into as u64;
        let nchunks: u64 = (d + step - 1) / step;
        let hx = block_size.x / 2;
        let hy = block_size.y / 2;
        let hz = block_size.z / 2;
        let mut local_peak: usize = 0;
        let mut k: u64 = 0;
        while k < nchunks
            invariant
                binary(*bvh),
                start.in_probe_range(),
                end.in_probe_range(),
                block_ok(*block_size),
                0 < step_into <= COORD_LIMIT,
                step == step_into,
                d == len,
                len == isqrt_of(dist2(*start, *end)),
                d <= 0x1000_0000_0000,
                nchunks == chunks(d as int, step as int),
                hx == block_size.x / 2,
                hy == block_size.y / 2,
                hz == block_size.z / 2,
                k <= nchunks,
                local_peak == march_peak(*bvh, *block_size, *start, *end, len, step as int, k as int),
                !break_on_hit || k == 0,
            decreases nchunks - k,
        {
            assert((k as int) * (step as int) < (d as int)) by (nonlinear_arith)
                requires
                    (k as int) < (nchunks as int),
                    (nchunks as int) == ((d as int) + (step as int) - 1) / (step as int),
                    (step as int) > 0,
                    (d as int) >= 0;
            assert(k * step <= 0x1000_0000_0000);
            let t: u64 = k * step;
            let cx = march_coord(start.x, end.x, t, d);
            let cy = march_coord(start.y, end.y, t, d);
            let cz = march_coord(start.z, end.z, t, d);
            let probe = AABB::new(
                &Vec3::new(cx - hx, cy - hy, cz - hz),
                &Vec3::new(cx + hx, cy + hy, cz + hz),
            );
            assert((Vec3 { x: cx, y: cy, z: cz }) == probe_center(*start, *end, len, step as int, k as int));
            let hits = Self::get_interseced_leaves(bvh.clone(), &probe);
            let leaves = BVHNodeIntersectionResult::to_leaves(hits);
            assert(leaves@.len() == probe_hits(*bvh, Vec3 { x: cx, y: cy, z: cz }, *block_size));
            if leaves.len() > local_peak {
                local_peak = leaves.len();
            }
            assert(local_peak == march_peak(
                *bvh,
                *block_size,
                *start,
                *end,
                len,
                step as int,
                k as int + 1,
            ));
            if break_on_hit {
                assert(k == 0);
                assert(march_peak(*bvh, *block_size, *start, *end, len, step as int, 0) == 0);
                assert(local_peak == probe_hits(
                    *bvh,
                    probe_center(*start, *end, len, step as int, 0),
                    *block_size,
                ));
                return local_peak;
            }
            k = k + 1;
        }
        local_peak
    }
    /// The largest number of leaves that a cubic block of edge `step` meets
    /// at once, over a grid of vertical probes of spacing `step / 2` that
    /// covers the tree's box widened by `step / 2` in x and y.
    pub fn block_overlap_peak(bvh: Rc<Self>, step: i64) -> (r: usize)
        requires
            probe_ready(*bvh),
            2 <= step <= COORD_LIMIT,
        ensures
            r == block_peak(*bvh, step as int),
    {
        let halfstep = step / 2;
        let mut local_aabb = bvh.aabb;
        local_aabb.expand(&Vec3::new(step, step, step));
        let block = Vec3::new(step, step, step);
        let ghost n = node_of(bvh);
        let x0 = local_aabb.min.x;
        let y0 = local_aabb.min.y;
        let xmax = local_aabb.max.x;
        let ymax = local_aabb.max.y;
        let mut peak: usize = 0;
        let mut curx = x0;
        while curx < xmax
            invariant
                n == *bvh,
                probe_ready(n),
                2 <= step <= COORD_LIMIT,
                halfstep == step / 2,
                block == (Vec3 { x: step, y: step, z: step }),
                x0 == n.aabb.min.x - halfstep,
                y0 == n.aabb.min.y - halfstep,
                xmax == n.aabb.max.x + halfstep,
                ymax == n.aabb.max.y + halfstep,
                x0 <= curx <= xmax + halfstep,
                max2(peak as int, grid_from(n, step as int, curx as int, xmax as int, y0 as int, ymax as int))
                    == block_peak(n, step as int),
            decreases (if curx < xmax { xmax - curx } else { 0 }),
        {
            let ghost peak0 = peak as int;
            let mut cury = y0;
            while cury < ymax
                invariant
                    n == *bvh,
                    probe_ready(n),
                    2 <= step <= COORD_LIMIT,
                    halfstep == step / 2,
                    block == (Vec3 { x: step, y: step, z: step }),
                    y0 == n.aabb.min.y - halfstep,
                    ymax == n.aabb.max.y + halfstep,
                    x0 <= curx < xmax,
                    x0 == n.aabb.min.x - halfstep,
                    xmax == n.aabb.max.x + halfstep,
                    y0 <= cury <= ymax + halfstep,
                    max2(peak as int, row_from(n, step as int, curx as int, cury as int, ymax as int))
                        == max2(peak0, row_from(n, step as int, curx as int, y0 as int, ymax as int)),
                decreases (if cury < ymax { ymax - cury } else { 0 }),
            {
                let point_start = Vec3::new(curx, cury, bvh.aabb.min.z);
                let point_end = Vec3::new(curx, cury, bvh.aabb.max.z);
                let local_peak = Self::directional_hit(
                    bvh.clone(),
                    &block,
                    &point_start,
                    &point_end,
                    halfstep,
                    false,
                );
                if local_peak > peak {
                    peak = local_peak;
                }
                cury = cury + halfstep;
            }
            curx = curx + halfstep;
        }
        peak
    }

    /// The face scan perpendicular to `axis`: for each cell of a grid of
    /// spacing half a block on the widened box's faces perpendicular to
    /// `axis`, a first-hit probe from the lower face towards the upper one and
    /// one from the upper face towards the lower one.
    fn axis_planar_hit(
        axis: AABBSplitAxis,
        bvh: Rc<BVHNode>,
        block_size: &Vec3,
        step_into: i64,
    ) -> (r: usize)
        requires
            probe_ready(*bvh),
            0 < step_into <= COORD_LIMIT,
            block_ok(*block_size),
            2 <= block_size.x && 2 <= block_size.y && 2 <= block_size.z,
        ensures
            r == axis_peak(*bvh, axis, *block_size, step_into as int),
    {
        let ghost n = node_of(bvh);
        let oa = outer_axis_of(axis);
        let ia = inner_axis_of(axis);
        let bmin_a = get_coord(&bvh.aabb.min, axis);
        let bmax_a = get_coord(&bvh.aabb.max, axis);
        let a = bmin_a - get_coord(block_size, axis) / 2;
        let back = bmax_a + get_coord(block_size, axis) / 2;
        let du = get_coord(block_size, oa) / 2;
        let dv = get_coord(block_size, ia) / 2;
        let u0 = get_coord(&bvh.aabb.min, oa) - du;
        let umax = get_coord(&bvh.aabb.max, oa) + du;
        let v0 = get_coord(&bvh.aabb.min, ia) - dv;
        let vmax = get_coord(&bvh.aabb.max, ia) + dv;
        let mut peak: usize = 0;
        let mut u = u0;
        while u < umax
            invariant
                n == *bvh,
                probe_ready(n),
                0 < step_into <= COORD_LIMIT,
                block_ok(*block_size),
                2 <= block_size.x && 2 <= block_size.y && 2 <= block_size.z,
                oa == outer_axis(axis),
                ia == inner_axis(axis),
                a == scan_lo(n, *block_size, axis),
                back == scan_hi(n, *block_size, axis),
                -0x200_0000_0000 <= a <= 0x200_0000_0000,
                -0x200_0000_0000 <= back <= 0x200_0000_0000,
                du == coord(*block_size, oa) / 2,
                dv == coord(*block_size, ia) / 2,
                u0 == scan_lo(n, *block_size, oa),
                umax == scan_hi(n, *block_size, oa),
                v0 == scan_lo(n, *block_size, ia),
                vmax == scan_hi(n, *block_size, ia),
                -0x200_0000_0000 <= u0 && umax <= 0x200_0000_0000,
                -0x200_0000_0000 <= v0 && vmax <= 0x200_0000_0000,
                u0 <= u <= umax + du,
                max2(peak as int, face_from(n, axis, *block_size, step_into as int, u as int))
                    == axis_peak(n, axis, *block_size, step_into as int),
            decreases (if u < umax { umax - u } else { 0 }),
        {
            let ghost peak0 = peak as int;
            let mut v = v0;
            while v < vmax
                invariant
                    n == *bvh,
                    probe_ready(n),
                    0 < step_into <= COORD_LIMIT,
                    block_ok(*block_size),
                    2 <= block_size.x && 2 <= block_size.y && 2 <= block_size.z,
                    oa == outer_axis(axis),
                    ia == inner_axis(axis),
                    a == scan_lo(n, *block_size, axis),
                    back == scan_hi(n, *block_size, axis),
                    -0x200_0000_0000 <= a <= 0x200_0000_0000,
                    -0x200_0000_0000 <= back <= 0x200_0000_0000,
                    dv == coord(*block_size, ia) / 2,
                    v0 == scan_lo(n, *block_size, ia),
                    vmax == scan_hi(n, *block_size, ia),
                    -0x200_0000_0000 <= u0 && umax <= 0x200_0000_0000,
                    -0x200_0000_0000 <= v0 && vmax <= 0x200_0000_0000,
                    u0 <= u < umax,
                    v0 <= v <= vmax + dv,
                    max2(peak as int, face_row_from(n, axis, *block_size, step_into as int, u as int, v as int))
                        == max2(peak0, face_row_from(n, axis, *block_size, step_into as int, u as int, v0 as int)),
                decreases (if v < vmax { vmax - v } else { 0 }),
            {
                let point2 = make_face_point(axis, a, u, v);
                let point2_back = make_face_point(axis, back, u, v);
                let p1 = Self::directional_hit(
                    bvh.clone(),
                    block_size,
                    &point2,
                    &point2_back,
                    step_into,
                    true,
                );
                if p1 > peak {
                    peak = p1;
                }
                let p2 = Self::directional_hit(
                    bvh.clone(),
                    block_size,
                    &point2_back,
                    &point2,
                    step_into,
                    true,
                );
                if p2 > peak {
                    peak = p2;
                }
                v = v + dv;
            }
            u = u + du;
        }
        peak
    }

    /// The largest number of leaves that a block of size `block_size` meets
    /// at the first probe position of a first-hit probe fired from any cell of
    /// the six faces of the tree's box widened by the block, over all three
    /// axes.
    pub fn surface_hit_peak(bvh: Rc<Self>, step: i64, block_size: &Vec3) -> (r: usize)
        requires
            probe_ready(*bvh),
            0 < step <= COORD_LIMIT,
            block_ok(*block_size),
            2 <= block_size.x && 2 <= block_size.y && 2 <= block_size.z,
        ensures
            r == surface_peak(*bvh, step as int, *block_size),
    {
        let mut peak: usize = 0;
        let px = Self::axis_planar_hit(AABBSplitAxis::X, bvh.clone(), block_size, step);
        if px > peak {
            peak = px;
        }
        let py = Self::axis_planar_hit(AABBSplitAxis::Y, bvh.clone(), block_size, step);
        if py > peak {
            peak = py;
        }
        let pz = Self::axis_planar_hit(AABBSplitAxis::Z, bvh.clone(), block_size, step);
        if pz > peak {
            peak = pz;
        }
        peak
    }
}

} // verus!
