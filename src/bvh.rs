use vstd::prelude::*;
use vstd::seq_lib::lemma_multiset_commutative;
use crate::aabb::{AABBSplitAxis, AABB};
use crate::tri::{Tri, TriIndex};
use crate::vec3::{Vec3, COORD_LIMIT};
use std::rc::Rc;

verus! {

/// Smallest extent a node's box may have on any axis; a thinner box is
/// widened by this much (a tenth of a unit).
pub const MIN_EXTENT: i64 = 100;

/// Every vertex lies within `COORD_LIMIT`.
pub open spec fn vertices_in_range(vtx: Seq<Vec3>) -> bool {
    forall|i: int| 0 <= i < vtx.len() ==> (#[trigger] vtx[i]).in_range()
}

/// Every triangle names vertices inside a buffer of `n` vertices.
pub open spec fn tris_valid(tris: Seq<TriIndex>, n: int) -> bool {
    forall|i: int| 0 <= i < tris.len() ==> (#[trigger] tris[i]).valid_for(n)
}

pub open spec fn lo(a: i64, b: i64) -> i64 {
    if a <= b { a } else { b }
}

pub open spec fn hi(a: i64, b: i64) -> i64 {
    if a >= b { a } else { b }
}

/// The smallest box holding both boxes.
pub open spec fn union(a: AABB, b: AABB) -> AABB {
    AABB {
        min: Vec3 { x: lo(a.min.x, b.min.x), y: lo(a.min.y, b.min.y), z: lo(a.min.z, b.min.z) },
        max: Vec3 { x: hi(a.max.x, b.max.x), y: hi(a.max.y, b.max.y), z: hi(a.max.z, b.max.z) },
    }
}

pub open spec fn point_box(p: Vec3) -> AABB {
    AABB { min: p, max: p }
}

/// The smallest box holding a triangle.
pub open spec fn tri_box(t: Tri) -> AABB {
    union(union(point_box(t.pt0), point_box(t.pt1)), point_box(t.pt2))
}

/// The smallest box holding every triangle of `tris`; the point box at the
/// origin when there are none.
pub open spec fn tris_box(vtx: Seq<Vec3>, tris: Seq<TriIndex>) -> AABB
    decreases tris.len(),
{
    if tris.len() == 0 {
        point_box(Vec3 { x: 0, y: 0, z: 0 })
    } else if tris.len() == 1 {
        tri_box(tris[0].tri_spec(vtx))
    } else {
        union(tris_box(vtx, tris.drop_last()), tri_box(tris.last().tri_spec(vtx)))
    }
}

/// Widens by `MIN_EXTENT` every axis on which `b` is thinner than that.
pub open spec fn pad(b: AABB) -> AABB {
    let h = MIN_EXTENT / 2;
    AABB {
        min: Vec3 {
            x: if b.max.x - b.min.x < MIN_EXTENT { (b.min.x - h) as i64 } else { b.min.x },
            y: if b.max.y - b.min.y < MIN_EXTENT { (b.min.y - h) as i64 } else { b.min.y },
            z: if b.max.z - b.min.z < MIN_EXTENT { (b.min.z - h) as i64 } else { b.min.z },
        },
        max: Vec3 {
            x: if b.max.x - b.min.x < MIN_EXTENT { (b.max.x + h) as i64 } else { b.max.x },
            y: if b.max.y - b.min.y < MIN_EXTENT { (b.max.y + h) as i64 } else { b.max.y },
            z: if b.max.z - b.min.z < MIN_EXTENT { (b.max.z + h) as i64 } else { b.max.z },
        },
    }
}

/// The box a node keeps for its triangles.
pub open spec fn node_box(vtx: Seq<Vec3>, tris: Seq<TriIndex>) -> AABB {
    pad(tris_box(vtx, tris))
}

/// Every corner of the triangle lies in `b`.
pub open spec fn holds_tri(b: AABB, t: Tri) -> bool {
    b.contains(t.pt0) && b.contains(t.pt1) && b.contains(t.pt2)
}

/// A box whose corners lie within `lim` of the origin.
pub open spec fn box_within(b: AABB, lim: int) -> bool {
    -lim <= b.min.x && b.max.x <= lim && -lim <= b.min.y && b.max.y <= lim && -lim <= b.min.z
        && b.max.z <= lim
}

/// A triangle goes to the positive side when its own box meets the positive
/// half of `b` along `axis`.
pub open spec fn goes_pos(vtx: Seq<Vec3>, b: AABB, axis: AABBSplitAxis, t: TriIndex) -> bool {
    b.pos_half(axis).intersects(tri_box(t.tri_spec(vtx)))
}

/// The triangles of `s` that go to the positive side, in order.
pub open spec fn pos_part(vtx: Seq<Vec3>, b: AABB, axis: AABBSplitAxis, s: Seq<TriIndex>) -> Seq<
    TriIndex,
>
    decreases s.len(),
{
    if s.len() == 0 {
        s
    } else if goes_pos(vtx, b, axis, s.last()) {
        pos_part(vtx, b, axis, s.drop_last()).push(s.last())
    } else {
        pos_part(vtx, b, axis, s.drop_last())
    }
}

/// The triangles of `s` that go to the negative side, in order.
pub open spec fn neg_part(vtx: Seq<Vec3>, b: AABB, axis: AABBSplitAxis, s: Seq<TriIndex>) -> Seq<
    TriIndex,
>
    decreases s.len(),
{
    if s.len() == 0 {
        s
    } else if goes_pos(vtx, b, axis, s.last()) {
        neg_part(vtx, b, axis, s.drop_last())
    } else {
        neg_part(vtx, b, axis, s.drop_last()).push(s.last())
    }
}

/// A split makes progress when neither side is empty.
pub open spec fn split_ok(n: int, pos_len: int) -> bool {
    pos_len != 0 && pos_len != n
}

/// How far the positive side is from holding half of the triangles, doubled.
pub open spec fn imbalance(vtx: Seq<Vec3>, b: AABB, axis: AABBSplitAxis, s: Seq<TriIndex>) -> int {
    let d = 2 * pos_part(vtx, b, axis, s).len() - s.len();
    if d >= 0 { d } else { -d }
}

/// The axis whose split is closest to even; earlier axes win ties.
pub open spec fn balanced_axis(vtx: Seq<Vec3>, b: AABB, s: Seq<TriIndex>) -> AABBSplitAxis {
    let dx = imbalance(vtx, b, AABBSplitAxis::X, s);
    let dy = imbalance(vtx, b, AABBSplitAxis::Y, s);
    let dz = imbalance(vtx, b, AABBSplitAxis::Z, s);
    if dy < dx {
        if dz < dy { AABBSplitAxis::Z } else { AABBSplitAxis::Y }
    } else {
        if dz < dx { AABBSplitAxis::Z } else { AABBSplitAxis::X }
    }
}

/// The two children's triangles: the split along the largest axis if it
/// makes progress, else the split along the most balanced axis if that does,
/// else the first half of the triangles by position and the rest.
///
/// The last split gives the first side the first `len / 2` triangles, that is
/// positions `1..=len / 2` counting from one. Counting from zero instead
/// (positions `0..=len / 2`) would put both of two triangles on the first
/// side and leave the other empty, so subdivision of two triangles that no
/// axis separates would never end.
pub open spec fn split_choice(vtx: Seq<Vec3>, b: AABB, s: Seq<TriIndex>) -> (Seq<TriIndex>, Seq<
    TriIndex,
>) {
    let a1 = b.largest_axis_spec();
    let a2 = balanced_axis(vtx, b, s);
    if split_ok(s.len() as int, pos_part(vtx, b, a1, s).len() as int) {
        (pos_part(vtx, b, a1, s), neg_part(vtx, b, a1, s))
    } else if split_ok(s.len() as int, pos_part(vtx, b, a2, s).len() as int) {
        (pos_part(vtx, b, a2, s), neg_part(vtx, b, a2, s))
    } else {
        (s.subrange(0, s.len() as int / 2), s.subrange(s.len() as int / 2, s.len() as int))
    }
}

#[derive(Clone, Copy, Debug)]
pub struct BVHSubdivideConfig {
    pub num_tris_per_leaf: usize,
    pub max_tris_per_leaf: usize,
}

impl BVHSubdivideConfig {
    /// The node holds more triangles than a leaf should.
    pub fn can_subsubdivide(&self, bvh: &BVHNode) -> (r: bool)
        ensures
            r == (bvh.idx_buf@.len() > self.num_tris_per_leaf),
    {
        bvh.idx_buf.len() > self.num_tris_per_leaf
    }

    /// The node's triangle count lies between the two thresholds.
    pub fn is_valid(&self, bvh: &BVHNode) -> (r: bool)
        ensures
            r == (self.num_tris_per_leaf <= bvh.idx_buf@.len() <= self.max_tris_per_leaf),
    {
        let len = bvh.idx_buf.len();
        !(len < self.num_tris_per_leaf || len > self.max_tris_per_leaf)
    }
}

impl Default for BVHSubdivideConfig {
    fn default() -> (r: Self)
        ensures
            r.num_tris_per_leaf == 4,
            r.max_tris_per_leaf == 15,
    {
        BVHSubdivideConfig { num_tris_per_leaf: 4, max_tris_per_leaf: 15 }
    }
}

/// A node of the hierarchy: its triangles, their box and its children.
#[derive(Clone)]
pub struct BVHNode {
    pub vtx_buf: Rc<Vec<Vec3>>,
    pub idx_buf: Vec<TriIndex>,
    pub aabb: AABB,
    pub children: Vec<Rc<BVHNode>>,
}

/// The node's triangles are valid and its box is the one they give.
pub open spec fn node_ok(n: BVHNode) -> bool {
    &&& vertices_in_range(n.vtx_buf@)
    &&& tris_valid(n.idx_buf@, n.vtx_buf@.len() as int)
    &&& n.aabb == node_box(n.vtx_buf@, n.idx_buf@)
}

/// `n` is the tree that subdivision with leaf target `target` builds from its
/// triangles: a node with more triangles than `target` has the two children
/// that `split_choice` gives, each built the same way; any other is a leaf.
pub open spec fn built(n: BVHNode, target: int) -> bool
    decreases n,
{
    &&& node_ok(n)
    &&& if n.idx_buf@.len() <= target {
        n.children@.len() == 0
    } else {
        &&& n.children@.len() == 2
        &&& n.children@[0].vtx_buf@ == n.vtx_buf@
        &&& n.children@[1].vtx_buf@ == n.vtx_buf@
        &&& n.children@[0].idx_buf@ == split_choice(n.vtx_buf@, n.aabb, n.idx_buf@).0
        &&& n.children@[1].idx_buf@ == split_choice(n.vtx_buf@, n.aabb, n.idx_buf@).1
        &&& built(*n.children@[0], target)
        &&& built(*n.children@[1], target)
    }
}

/// The `i`-th child of `n`.
pub open spec fn child(n: BVHNode, i: int) -> BVHNode {
    *n.children@[i]
}

/// Every node has no child or two.
pub open spec fn binary(n: BVHNode) -> bool
    decreases n,
{
    n.children@.len() == 0 || (n.children@.len() == 2 && binary(*n.children@[0]) && binary(
        *n.children@[1],
    ))
}

/// The triangles of the leaves under `n`, left to right.
pub open spec fn leaf_tris(n: BVHNode) -> Seq<TriIndex>
    decreases n,
{
    if n.children@.len() == 2 {
        leaf_tris(*n.children@[0]) + leaf_tris(*n.children@[1])
    } else {
        n.idx_buf@
    }
}

/// Every leaf under `n` holds at most `k` triangles.
pub open spec fn leaves_at_most(n: BVHNode, k: int) -> bool
    decreases n,
{
    if n.children@.len() == 2 {
        leaves_at_most(*n.children@[0], k) && leaves_at_most(*n.children@[1], k)
    } else {
        n.idx_buf@.len() <= k
    }
}

/// Every node's box holds every corner of every triangle of the leaves under it.
pub open spec fn boxes_hold_subtrees(n: BVHNode) -> bool
    decreases n,
{
    &&& forall|i: int|
        0 <= i < leaf_tris(n).len() ==> holds_tri(
            n.aabb,
            (#[trigger] leaf_tris(n)[i]).tri_spec(n.vtx_buf@),
        )
    &&& n.children@.len() == 2 ==> boxes_hold_subtrees(*n.children@[0]) && boxes_hold_subtrees(
        *n.children@[1],
    )
}

// ---- lemmas on boxes ----

proof fn lemma_tris_box(vtx: Seq<Vec3>, tris: Seq<TriIndex>)
    requires
        vertices_in_range(vtx),
        tris_valid(tris, vtx.len() as int),
    ensures
        tris_box(vtx, tris).wf(),
        box_within(tris_box(vtx, tris), COORD_LIMIT as int),
        forall|i: int|
            0 <= i < tris.len() ==> holds_tri(tris_box(vtx, tris), (#[trigger] tris[i]).tri_spec(vtx)),
    decreases tris.len(),
{
    if tris.len() > 0 {
        assert(tris[0].valid_for(vtx.len() as int));
        assert(vtx[tris[0].pt0 as int].in_range());
        assert(vtx[tris[0].pt1 as int].in_range());
        assert(vtx[tris[0].pt2 as int].in_range());
    }
    if tris.len() > 1 {
        let d = tris.drop_last();
        assert(tris_valid(d, vtx.len() as int)) by {
            assert forall|i: int| 0 <= i < d.len() implies (#[trigger] d[i]).valid_for(vtx.len() as int) by {
                assert(d[i] == tris[i]);
            }
        }
        lemma_tris_box(vtx, d);
        let l = tris.last();
        assert(l == tris[tris.len() - 1]);
        assert(l.valid_for(vtx.len() as int));
        assert(vtx[l.pt0 as int].in_range());
        assert(vtx[l.pt1 as int].in_range());
        assert(vtx[l.pt2 as int].in_range());
        assert forall|i: int| 0 <= i < tris.len() implies holds_tri(tris_box(vtx, tris), (#[trigger] tris[i]).tri_spec(vtx)) by {
            if i < tris.len() - 1 {
                assert(tris[i] == d[i]);
                assert(holds_tri(tris_box(vtx, d), d[i].tri_spec(vtx)));
            }
        }
    }
}

/// A node's box is well formed, at least `MIN_EXTENT` thick on every axis,
/// near the origin, and holds every corner of the node's triangles.
pub proof fn lemma_node_box(vtx: Seq<Vec3>, tris: Seq<TriIndex>)
    requires
        vertices_in_range(vtx),
        tris_valid(tris, vtx.len() as int),
    ensures
        node_box(vtx, tris).wf(),
        node_box(vtx, tris).max.x - node_box(vtx, tris).min.x >= MIN_EXTENT,
        node_box(vtx, tris).max.y - node_box(vtx, tris).min.y >= MIN_EXTENT,
        node_box(vtx, tris).max.z - node_box(vtx, tris).min.z >= MIN_EXTENT,
        node_box(vtx, tris).bounded(),
        box_within(node_box(vtx, tris), COORD_LIMIT + MIN_EXTENT),
        forall|i: int|
            0 <= i < tris.len() ==> holds_tri(node_box(vtx, tris), (#[trigger] tris[i]).tri_spec(vtx)),
{
    lemma_tris_box(vtx, tris);
    let b = tris_box(vtx, tris);
    let p = node_box(vtx, tris);
    assert forall|i: int| 0 <= i < tris.len() implies holds_tri(p, (#[trigger] tris[i]).tri_spec(vtx)) by {
        assert(holds_tri(b, tris[i].tri_spec(vtx)));
    }
}

proof fn lemma_parts(vtx: Seq<Vec3>, b: AABB, axis: AABBSplitAxis, s: Seq<TriIndex>)
    ensures
        pos_part(vtx, b, axis, s).to_multiset().add(neg_part(vtx, b, axis, s).to_multiset())
            =~= s.to_multiset(),
        pos_part(vtx, b, axis, s).len() + neg_part(vtx, b, axis, s).len() == s.len(),
    decreases s.len(),
{
    broadcast use vstd::seq_lib::group_to_multiset_ensures;

    if s.len() > 0 {
        let d = s.drop_last();
        lemma_parts(vtx, b, axis, d);
        assert(s =~= d.push(s.last()));
    }
}

proof fn lemma_sub_valid(part: Seq<TriIndex>, s: Seq<TriIndex>, n: int)
    requires
        tris_valid(s, n),
        forall|t: TriIndex| part.contains(t) ==> s.contains(t),
    ensures
        tris_valid(part, n),
{
    assert forall|i: int| 0 <= i < part.len() implies (#[trigger] part[i]).valid_for(n) by {
        assert(part.contains(part[i]));
        assert(s.contains(part[i]));
        let j = choose|j: int| 0 <= j < s.len() && s[j] == part[i];
        assert(s[j].valid_for(n));
    }
}

/// `b` lies within `r` widened by `MIN_EXTENT / 2` on every side.
pub open spec fn within_margin(b: AABB, r: AABB) -> bool {
    let h = MIN_EXTENT / 2;
    r.min.x - h <= b.min.x && b.max.x <= r.max.x + h && r.min.y - h <= b.min.y && b.max.y
        <= r.max.y + h && r.min.z - h <= b.min.z && b.max.z <= r.max.z + h
}

proof fn lemma_tris_box_inside(vtx: Seq<Vec3>, tris: Seq<TriIndex>, r: AABB)
    requires
        tris.len() > 0,
        forall|i: int| 0 <= i < tris.len() ==> holds_tri(r, (#[trigger] tris[i]).tri_spec(vtx)),
    ensures
        tris_box(vtx, tris).within(r),
    decreases tris.len(),
{
    assert(holds_tri(r, tris[0].tri_spec(vtx)));
    if tris.len() > 1 {
        let d = tris.drop_last();
        assert forall|i: int| 0 <= i < d.len() implies holds_tri(r, (#[trigger] d[i]).tri_spec(vtx)) by {
            assert(d[i] == tris[i]);
        }
        lemma_tris_box_inside(vtx, d, r);
        assert(holds_tri(r, tris[tris.len() - 1].tri_spec(vtx)));
    }
}

/// The box of a non-empty node reaches at most `MIN_EXTENT / 2` past any box
/// that holds every corner of its triangles: only the widening of a thin
/// axis can take it further out than its triangles.
pub proof fn lemma_node_box_near(vtx: Seq<Vec3>, tris: Seq<TriIndex>, r: AABB)
    requires
        tris.len() > 0,
        forall|i: int| 0 <= i < tris.len() ==> holds_tri(r, (#[trigger] tris[i]).tri_spec(vtx)),
    ensures
        within_margin(node_box(vtx, tris), r),
{
    lemma_tris_box_inside(vtx, tris, r);
}

/// A node of two or more triangles splits into two sides that together hold
/// its triangles and each hold fewer, but at least one: every recursive call
/// of subdivision works on strictly fewer triangles, so subdivision ends.
pub proof fn lemma_split_progress(vtx: Seq<Vec3>, b: AABB, s: Seq<TriIndex>)
    requires
        s.len() >= 2,
    ensures
        ({
            let c = split_choice(vtx, b, s);
            &&& 0 < c.0.len() < s.len()
            &&& 0 < c.1.len() < s.len()
            &&& c.0.to_multiset().add(c.1.to_multiset()) =~= s.to_multiset()
            &&& forall|t: TriIndex| c.0.contains(t) ==> s.contains(t)
            &&& forall|t: TriIndex| c.1.contains(t) ==> s.contains(t)
        }),
{
    broadcast use vstd::seq_lib::group_to_multiset_ensures;

    let a1 = b.largest_axis_spec();
    let a2 = balanced_axis(vtx, b, s);
    lemma_parts(vtx, b, a1, s);
    lemma_parts(vtx, b, a2, s);
    let c = split_choice(vtx, b, s);
    if !split_ok(s.len() as int, pos_part(vtx, b, a1, s).len() as int) && !split_ok(
        s.len() as int,
        pos_part(vtx, b, a2, s).len() as int,
    ) {
        assert(s =~= c.0 + c.1);
        lemma_multiset_commutative(c.0, c.1);
    }
    assert(c.0.to_multiset().add(c.1.to_multiset()) =~= s.to_multiset());
    assert forall|t: TriIndex| c.0.contains(t) implies s.contains(t) by {
        assert(c.0.to_multiset().count(t) > 0);
        assert(s.to_multiset().count(t) == c.0.to_multiset().count(t) + c.1.to_multiset().count(t));
    }
    assert forall|t: TriIndex| c.1.contains(t) implies s.contains(t) by {
        assert(c.1.to_multiset().count(t) > 0);
        assert(s.to_multiset().count(t) == c.0.to_multiset().count(t) + c.1.to_multiset().count(t));
    }
}

fn union_box(a: &AABB, b: &AABB) -> (r: AABB)
    ensures
        r == union(*a, *b),
{
    AABB { min: Vec3::min(&a.min, &b.min), max: Vec3::max(&a.max, &b.max) }
}

fn tri_aabb(t: &TriIndex, vtx: &Rc<Vec<Vec3>>) -> (r: AABB)
    requires
        t.valid_for(vtx@.len() as int),
    ensures
        r == tri_box(t.tri_spec(vtx@)),
{
    let tri = t.to_tri(vtx.clone());
    AABB::from_point3(&tri.pt0, &tri.pt1, &tri.pt2)
}

/// Sorts the node's triangles into the positive and negative side of its box
/// split along `axis`; each triangle goes to exactly one side.
fn local_split(bvh: &BVHNode, axis: AABBSplitAxis) -> (r: (Vec<TriIndex>, Vec<TriIndex>))
    requires
        node_ok(*bvh),
    ensures
        r.0@ == pos_part(bvh.vtx_buf@, bvh.aabb, axis, bvh.idx_buf@),
        r.1@ == neg_part(bvh.vtx_buf@, bvh.aabb, axis, bvh.idx_buf@),
{
    let ghost vtx = bvh.vtx_buf@;
    let ghost s = bvh.idx_buf@;
    proof {
        lemma_node_box(vtx, s);
    }
    let mut pos_tri_idx: Vec<TriIndex> = Vec::new();
    let mut neg_tri_idx: Vec<TriIndex> = Vec::new();
    let (pos_aabb, _neg_aabb) = bvh.aabb.split(axis);
    let mut i: usize = 0;
    while i < bvh.idx_buf.len()
        invariant
            node_ok(*bvh),
            vtx == bvh.vtx_buf@,
            s == bvh.idx_buf@,
            i <= s.len(),
            pos_aabb == bvh.aabb.pos_half(axis),
            pos_tri_idx@ == pos_part(vtx, bvh.aabb, axis, s.subrange(0, i as int)),
            neg_tri_idx@ == neg_part(vtx, bvh.aabb, axis, s.subrange(0, i as int)),
        decreases s.len() - i,
    {
        let t = bvh.idx_buf[i];
        assert(s[i as int].valid_for(vtx.len() as int));
        let tb = tri_aabb(&t, &bvh.vtx_buf);
        let ghost pre = s.subrange(0, i as int);
        assert(s.subrange(0, i + 1) .drop_last() =~= pre);
        assert(s.subrange(0, i + 1).last() == t);
        if pos_aabb.intersect_with_aabb(&tb) {
            pos_tri_idx.push(t);
        } else {
            neg_tri_idx.push(t);
        }
        i = i + 1;
    }
    assert(s.subrange(0, s.len() as int) =~= s);
    (pos_tri_idx, neg_tri_idx)
}

/// The first `len / 2` triangles and the rest; both sides are non-empty
/// whenever there are two triangles or more (see `split_choice`).
fn bisect(s: &Vec<TriIndex>) -> (r: (Vec<TriIndex>, Vec<TriIndex>))
    ensures
        r.0@ == s@.subrange(0, s@.len() as int / 2),
        r.1@ == s@.subrange(s@.len() as int / 2, s@.len() as int),
{
    let sep = s.len() / 2;
    let mut pos_tri_idx: Vec<TriIndex> = Vec::new();
    let mut neg_tri_idx: Vec<TriIndex> = Vec::new();
    let mut counter: usize = 0;
    while counter < s.len()
        invariant
            sep == s@.len() / 2,
            counter <= s@.len(),
            counter <= sep ==> pos_tri_idx@ == s@.subrange(0, counter as int) && neg_tri_idx@.len()
                == 0,
            counter > sep ==> pos_tri_idx@ == s@.subrange(0, sep as int) && neg_tri_idx@
                == s@.subrange(sep as int, counter as int),
        decreases s@.len() - counter,
    {
        if counter < sep {
            pos_tri_idx.push(s[counter]);
            assert(pos_tri_idx@ =~= s@.subrange(0, counter + 1));
        } else {
            neg_tri_idx.push(s[counter]);
            assert(neg_tri_idx@ =~= s@.subrange(sep as int, counter + 1));
        }
        counter = counter + 1;
    }
    if s.len() == 0 {
        assert(neg_tri_idx@ =~= s@.subrange(0, 0));
    }
    (pos_tri_idx, neg_tri_idx)
}

/// `|p - (n - p)|`, the imbalance of a split that puts `p` of `n` triangles
/// on the positive side.
fn split_imbalance(p: usize, n: usize) -> (r: usize)
    requires
        p <= n,
    ensures
        r == (if 2 * p - n >= 0 { 2 * p - n } else { n - 2 * p }),
{
    let q = n - p;
    if p >= q { p - q } else { q - p }
}

impl BVHNode {
    /// A childless node holding `idx_buf`, with the box its triangles give.
    pub fn new(vtx_buf: Rc<Vec<Vec3>>, idx_buf: Vec<TriIndex>) -> (r: Self)
        requires
            vertices_in_range(vtx_buf@),
            tris_valid(idx_buf@, vtx_buf@.len() as int),
        ensures
            node_ok(r),
            r.vtx_buf == vtx_buf,
            r.idx_buf@ == idx_buf@,
            r.children@.len() == 0,
    {
        let mut ret = BVHNode {
            vtx_buf,
            idx_buf,
            aabb: AABB::default(),
            children: Vec::new(),
        };
        ret.recalc_aabb();
        ret
    }

    pub fn is_leaf(&self) -> (r: bool)
        ensures
            r == (self.children@.len() == 0),
    {
        self.children.len() == 0
    }

    /// Sets the box to the one the node's triangles give, widened on every
    /// axis thinner than `MIN_EXTENT`.
    pub fn recalc_aabb(&mut self)
        requires
            vertices_in_range(old(self).vtx_buf@),
            tris_valid(old(self).idx_buf@, old(self).vtx_buf@.len() as int),
        ensures
            final(self).aabb == node_box(old(self).vtx_buf@, old(self).idx_buf@),
            final(self).vtx_buf == old(self).vtx_buf,
            final(self).idx_buf == old(self).idx_buf,
            final(self).children == old(self).children,
    {
        let ghost vtx = self.vtx_buf@;
        let ghost s = self.idx_buf@;
        let mut b = AABB::default();
        let mut i: usize = 0;
        while i < self.idx_buf.len()
            invariant
                vtx == self.vtx_buf@,
                s == self.idx_buf@,
                vertices_in_range(vtx),
                tris_valid(s, vtx.len() as int),
                i <= s.len(),
                b == tris_box(vtx, s.subrange(0, i as int)),
            decreases s.len() - i,
        {
            assert(s[i as int].valid_for(vtx.len() as int));
            let tb = tri_aabb(&self.idx_buf[i], &self.vtx_buf);
            let ghost pre = s.subrange(0, i as int);
            assert(s.subrange(0, i + 1).drop_last() =~= pre);
            if i == 0 {
                b = tb;
            } else {
                b = union_box(&b, &tb);
            }
            i = i + 1;
        }
        assert(s.subrange(0, s.len() as int) =~= s);
        proof {
            lemma_tris_box(vtx, s);
        }
        let ext = b.extent();
        let dist = Vec3::new(
            if ext.x < MIN_EXTENT { MIN_EXTENT } else { 0 },
            if ext.y < MIN_EXTENT { MIN_EXTENT } else { 0 },
            if ext.z < MIN_EXTENT { MIN_EXTENT } else { 0 },
        );
        b.expand(&dist);
        self.aabb = b;
    }

    /// The two sides that subdivision gives this node.
    fn choose_split(&self) -> (r: (Vec<TriIndex>, Vec<TriIndex>))
        requires
            node_ok(*self),
        ensures
            (r.0@, r.1@) == split_choice(self.vtx_buf@, self.aabb, self.idx_buf@),
    {
        let ghost vtx = self.vtx_buf@;
        let ghost s = self.idx_buf@;
        proof {
            lemma_node_box(vtx, s);
        }
        let n = self.idx_buf.len();
        let axis = self.aabb.largest_axis();
        let (pos, neg) = local_split(self, axis);
        proof {
            lemma_parts(vtx, self.aabb, axis, s);
        }
        if pos.len() != 0 && pos.len() != n {
            return (pos, neg);
        }
        let (px, _nx) = local_split(self, AABBSplitAxis::X);
        let (py, _ny) = local_split(self, AABBSplitAxis::Y);
        let (pz, _nz) = local_split(self, AABBSplitAxis::Z);
        proof {
            lemma_parts(vtx, self.aabb, AABBSplitAxis::X, s);
            lemma_parts(vtx, self.aabb, AABBSplitAxis::Y, s);
            lemma_parts(vtx, self.aabb, AABBSplitAxis::Z, s);
        }
        let dx = split_imbalance(px.len(), n);
        let dy = split_imbalance(py.len(), n);
        let dz = split_imbalance(pz.len(), n);
        let mut best = AABBSplitAxis::X;
        let mut best_d = dx;
        if dy < best_d {
            best = AABBSplitAxis::Y;
            best_d = dy;
        }
        if dz < best_d {
            best = AABBSplitAxis::Z;
        }
        assert(best == balanced_axis(vtx, self.aabb, s));
        let (pos2, neg2) = local_split(self, best);
        proof {
            lemma_parts(vtx, self.aabb, best, s);
        }
        if pos2.len() != 0 && pos2.len() != n {
            return (pos2, neg2);
        }
        bisect(&self.idx_buf)
    }

    /// Splits the node recursively until every leaf holds at most
    /// `cfg.num_tris_per_leaf` triangles. The node keeps its own triangles and
    /// box; its children partition its triangles.
    pub fn subdivide(&mut self, cfg: BVHSubdivideConfig)
        requires
            node_ok(*old(self)),
            old(self).children@.len() == 0,
            cfg.num_tris_per_leaf >= 1,
        ensures
            built(*final(self), cfg.num_tris_per_leaf as int),
            final(self).vtx_buf == old(self).vtx_buf,
            final(self).idx_buf@ == old(self).idx_buf@,
            final(self).aabb == old(self).aabb,
        decreases old(self).idx_buf@.len(),
    {
        if !cfg.can_subsubdivide(self) {
            return;
        }
        let ghost vtx = self.vtx_buf@;
        let ghost s = self.idx_buf@;
        let (pos, neg) = self.choose_split();
        proof {
            lemma_split_progress(vtx, self.aabb, s);
            lemma_sub_valid(pos@, s, vtx.len() as int);
            lemma_sub_valid(neg@, s, vtx.len() as int);
        }
        let mut child_pos = BVHNode::new(self.vtx_buf.clone(), pos);
        child_pos.subdivide(cfg);
        let mut child_neg = BVHNode::new(self.vtx_buf.clone(), neg);
        child_neg.subdivide(cfg);
        self.children.push(Rc::new(child_pos));
        self.children.push(Rc::new(child_neg));
    }
}

/// The children of a split node share its vertex buffer and each hold
/// some of its triangles, so a box holding the node's triangles holds theirs.
pub proof fn lemma_children_held(n: BVHNode, target: int, r: AABB)
    requires
        built(n, target),
        target >= 1,
        n.children@.len() == 2,
        forall|i: int|
            0 <= i < n.idx_buf@.len() ==> holds_tri(r, (#[trigger] n.idx_buf@[i]).tri_spec(n.vtx_buf@)),
    ensures
        child(n, 0).vtx_buf@ == n.vtx_buf@,
        child(n, 1).vtx_buf@ == n.vtx_buf@,
        child(n, 0).idx_buf@.len() > 0,
        child(n, 1).idx_buf@.len() > 0,
        forall|i: int|
            0 <= i < child(n, 0).idx_buf@.len() ==> holds_tri(
                r,
                (#[trigger] child(n, 0).idx_buf@[i]).tri_spec(n.vtx_buf@),
            ),
        forall|i: int|
            0 <= i < child(n, 1).idx_buf@.len() ==> holds_tri(
                r,
                (#[trigger] child(n, 1).idx_buf@[i]).tri_spec(n.vtx_buf@),
            ),
{
    let s = n.idx_buf@;
    assert(s.len() > target);
    lemma_split_progress(n.vtx_buf@, n.aabb, s);
    let c0 = child(n, 0);
    let c1 = child(n, 1);
    assert(c0.idx_buf@ == split_choice(n.vtx_buf@, n.aabb, s).0);
    assert(c1.idx_buf@ == split_choice(n.vtx_buf@, n.aabb, s).1);
    assert forall|i: int| 0 <= i < c0.idx_buf@.len() implies holds_tri(
        r,
        (#[trigger] c0.idx_buf@[i]).tri_spec(n.vtx_buf@),
    ) by {
        assert(c0.idx_buf@.contains(c0.idx_buf@[i]));
        assert(s.contains(c0.idx_buf@[i]));
        let j = choose|j: int| 0 <= j < s.len() && s[j] == c0.idx_buf@[i];
        assert(holds_tri(r, s[j].tri_spec(n.vtx_buf@)));
    }
    assert forall|i: int| 0 <= i < c1.idx_buf@.len() implies holds_tri(
        r,
        (#[trigger] c1.idx_buf@[i]).tri_spec(n.vtx_buf@),
    ) by {
        assert(c1.idx_buf@.contains(c1.idx_buf@[i]));
        assert(s.contains(c1.idx_buf@[i]));
        let j = choose|j: int| 0 <= j < s.len() && s[j] == c1.idx_buf@[i];
        assert(holds_tri(r, s[j].tri_spec(n.vtx_buf@)));
    }
}

/// Every triangle of a built node lies in exactly one leaf under it: the
/// leaves' triangles, taken together, are the node's triangles with the same
/// multiplicities, none dropped and none repeated.
pub proof fn lemma_partition(n: BVHNode, target: int)
    requires
        built(n, target),
        target >= 1,
    ensures
        leaf_tris(n).to_multiset() =~= n.idx_buf@.to_multiset(),
    decreases n,
{
    if n.idx_buf@.len() > target {
        let c0 = *n.children@[0];
        let c1 = *n.children@[1];
        lemma_partition(c0, target);
        lemma_partition(c1, target);
        lemma_split_progress(n.vtx_buf@, n.aabb, n.idx_buf@);
        lemma_multiset_commutative(leaf_tris(c0), leaf_tris(c1));
    }
}

/// Every leaf of a tree built with leaf target `target` holds at most
/// `target` triangles.
pub proof fn lemma_leaf_size(n: BVHNode, target: int)
    requires
        built(n, target),
        target >= 1,
    ensures
        leaves_at_most(n, target),
    decreases n,
{
    if n.idx_buf@.len() > target {
        lemma_leaf_size(child(n, 0), target);
        lemma_leaf_size(child(n, 1), target);
    }
}

/// In a built tree every node's box holds every corner of every triangle in
/// the leaves under it.
pub proof fn lemma_boxes_hold(n: BVHNode, target: int)
    requires
        built(n, target),
        target >= 1,
    ensures
        boxes_hold_subtrees(n),
    decreases n,
{
    broadcast use vstd::seq_lib::group_to_multiset_ensures;

    lemma_partition(n, target);
    lemma_node_box(n.vtx_buf@, n.idx_buf@);
    let lt = leaf_tris(n);
    let s = n.idx_buf@;
    assert forall|i: int| 0 <= i < lt.len() implies holds_tri(
        n.aabb,
        (#[trigger] lt[i]).tri_spec(n.vtx_buf@),
    ) by {
        assert(lt.contains(lt[i]));
        assert(lt.to_multiset().count(lt[i]) > 0);
        assert(s.contains(lt[i]));
        let j = choose|j: int| 0 <= j < s.len() && s[j] == lt[i];
        assert(holds_tri(n.aabb, s[j].tri_spec(n.vtx_buf@)));
    }
    if n.idx_buf@.len() > target {
        lemma_boxes_hold(child(n, 0), target);
        lemma_boxes_hold(child(n, 1), target);
    }
}

/// A built tree has no child or two at every node, and its root's box is
/// well formed and within `COORD_LIMIT + MIN_EXTENT` of the origin.
pub proof fn lemma_built_shape(n: BVHNode, target: int)
    requires
        built(n, target),
    ensures
        binary(n),
        n.aabb.wf(),
        box_within(n.aabb, COORD_LIMIT + MIN_EXTENT),
    decreases n,
{
    lemma_node_box(n.vtx_buf@, n.idx_buf@);
    if n.idx_buf@.len() > target {
        lemma_built_shape(child(n, 0), target);
        lemma_built_shape(child(n, 1), target);
    }
}

} // verus!
