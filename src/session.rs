use vstd::prelude::*;
use crate::bvh::{built, lemma_built_shape, vertices_in_range, BVHNode, BVHSubdivideConfig};
use crate::poly::{fan_len, indices_below, IndexedPoly};
use crate::probe::{block_ok, block_peak, surface_peak};
use crate::query::{deref_all, leaves_stack_order, node_of};
use crate::tri::{IndexedTri, TriIndex};
use crate::vec3::{Vec3, COORD_LIMIT};
use std::rc::Rc;

verus! {

/// Number of build sessions the table holds at once.
pub const NUM_BVH_BUILD_RESOURCE: usize = 8;

/// Leaf target of the trees that sessions build.
pub const SESSION_LEAF_TARGET: usize = 4;

pub const GOOD: i64 = 0;
pub const OUT_OF_RESOURCE: i64 = -1;
pub const RESOURCE_NOT_FOUND: i64 = -2;
pub const IDX_BUF_IS_EMPTY: i64 = -3;
pub const IDX_OUT_OF_VTX_CNT: i64 = -4;
pub const TRI_BUF_NOT_GENERATED: i64 = -5;
pub const BVH_NOT_GENERATED: i64 = -6;

/// `n`, or `i64::MAX` where `n` is larger.
pub open spec fn clamp_count(n: int) -> int {
    if n <= i64::MAX { n } else { i64::MAX as int }
}

/// One build session: a vertex buffer, the polygons added so far, the
/// triangles they were fanned into, and the tree built from those.
pub struct BVHBuildInfo {
    pub vtx_buf: Rc<Vec<Vec3>>,
    pub idx_buf: Vec<IndexedPoly>,
    pub tri_buf: Vec<IndexedTri>,
    pub bvh: Option<Rc<BVHNode>>,
}

/// The offsets of an indexed triangle.
pub open spec fn tri_of(t: IndexedTri) -> TriIndex {
    TriIndex { pt0: t.indices@[0], pt1: t.indices@[1], pt2: t.indices@[2] }
}

/// The fan of a polygon with corner offsets `idx`.
pub open spec fn fan(idx: Seq<usize>) -> Seq<TriIndex> {
    Seq::new(
        fan_len(idx.len() as int) as nat,
        |k: int| TriIndex { pt0: idx[0], pt1: idx[k + 1], pt2: idx[k + 2] },
    )
}

/// The fans of all polygons, one after the other.
pub open spec fn fans(polys: Seq<IndexedPoly>) -> Seq<TriIndex>
    decreases polys.len(),
{
    if polys.len() == 0 {
        seq![]
    } else {
        fans(polys.drop_last()) + fan(polys.last().idx_buf@)
    }
}

pub open spec fn tri_indices(tris: Seq<IndexedTri>) -> Seq<TriIndex> {
    tris.map_values(|t: IndexedTri| tri_of(t))
}

/// The session's parts all refer to its own vertex buffer, every offset is
/// inside it, and a tree, when there is one, is the one built from its
/// triangles.
pub open spec fn session_ok(s: BVHBuildInfo) -> bool {
    &&& vertices_in_range(s.vtx_buf@)
    &&& forall|i: int|
        0 <= i < s.idx_buf@.len() ==> (#[trigger] s.idx_buf@[i]).vtx_buf@ == s.vtx_buf@
            && indices_below(s.idx_buf@[i].idx_buf@, s.vtx_buf@.len() as int)
    &&& forall|i: int|
        0 <= i < s.tri_buf@.len() ==> (#[trigger] s.tri_buf@[i]).vtx_buf@ == s.vtx_buf@
            && s.tri_buf@[i].valid()
    &&& s.bvh matches Some(t) ==> built(*t, SESSION_LEAF_TARGET as int) && t.vtx_buf@
        == s.vtx_buf@
}

/// A fixed number of session slots, addressed by their index.
pub struct BVHBuildTable {
    pub slots: Vec<Option<BVHBuildInfo>>,
}

impl BVHBuildTable {
    pub open spec fn wf(self) -> bool {
        &&& self.slots@.len() == NUM_BVH_BUILD_RESOURCE
        &&& forall|i: int|
            0 <= i < self.slots@.len() ==> (#[trigger] self.slots@[i] matches Some(s) ==> session_ok(s))
    }

    /// The session that handle `id` names, if any.
    pub open spec fn session(self, id: i64) -> Option<BVHBuildInfo> {
        if 0 <= id < self.slots@.len() {
            self.slots@[id as int]
        } else {
            None
        }
    }

    /// The first free slot, if any.
    pub open spec fn first_free(self) -> Option<int> {
        if exists|i: int| 0 <= i < self.slots@.len() && self.slots@[i] is None {
            Some(
                choose|i: int|
                    0 <= i < self.slots@.len() && self.slots@[i] is None && forall|j: int|
                        0 <= j < i ==> self.slots@[j] is Some,
            )
        } else {
            None
        }
    }

    /// `t` equals `self` but for the session of handle `id`.
    pub open spec fn same_except(self, t: BVHBuildTable, id: int) -> bool {
        &&& t.slots@.len() == self.slots@.len()
        &&& forall|j: int| 0 <= j < self.slots@.len() && j != id ==> t.slots@[j] == self.slots@[j]
    }

    /// A table with every slot free.
    pub fn new() -> (r: Self)
        ensures
            r.wf(),
            forall|i: int| 0 <= i < r.slots@.len() ==> r.slots@[i] is None,
    {
        let mut slots: Vec<Option<BVHBuildInfo>> = Vec::new();
        let mut i: usize = 0;
        while i < NUM_BVH_BUILD_RESOURCE
            invariant
                i <= NUM_BVH_BUILD_RESOURCE,
                slots@.len() == i,
                forall|j: int| 0 <= j < i ==> slots@[j] is None,
            decreases NUM_BVH_BUILD_RESOURCE - i,
        {
            slots.push(None);
            i = i + 1;
        }
        BVHBuildTable { slots }
    }

    fn find(&self, id: i64) -> (r: Option<usize>)
        requires
            self.wf(),
        ensures
            r is Some <==> self.session(id) is Some,
            r matches Some(i) ==> i == id,
    {
        if id < 0 || id >= NUM_BVH_BUILD_RESOURCE as i64 {
            return None;
        }
        let i = id as usize;
        match &self.slots[i] {
            Some(_) => Some(i),
            None => None,
        }
    }

    fn take(&mut self, i: usize) -> (r: BVHBuildInfo)
        requires
            old(self).wf(),
            i < old(self).slots@.len(),
            old(self).slots@[i as int] is Some,
        ensures
            Some(r) == old(self).slots@[i as int],
            final(self).slots@ == old(self).slots@.update(i as int, None),
            session_ok(r),
    {
        let mut cur: Option<BVHBuildInfo> = None;
        self.slots.set_and_swap(i, &mut cur);
        cur.unwrap()
    }

    /// Opens a session on `vtx_buf` in the first free slot and returns its
    /// handle, or `OUT_OF_RESOURCE` when every slot is taken.
    pub fn allocate(&mut self, vtx_buf: Rc<Vec<Vec3>>) -> (r: i64)
        requires
            old(self).wf(),
            vertices_in_range(vtx_buf@),
        ensures
            final(self).wf(),
            match old(self).first_free() {
                Some(i) => {
                    &&& r == i
                    &&& old(self).same_except(*final(self), i)
                    &&& final(self).slots@[i] matches Some(s) && s.vtx_buf == vtx_buf
                        && s.idx_buf@.len() == 0 && s.tri_buf@.len() == 0 && s.bvh is None
                },
                None => r == OUT_OF_RESOURCE && *final(self) == *old(self),
            },
    {
        let mut id: usize = 0;
        while id < NUM_BVH_BUILD_RESOURCE
            invariant
                self.wf(),
                *self == *old(self),
                vertices_in_range(vtx_buf@),
                id <= NUM_BVH_BUILD_RESOURCE,
                forall|j: int| 0 <= j < id ==> self.slots@[j] is Some,
            decreases NUM_BVH_BUILD_RESOURCE - id,
        {
            if self.slots[id].is_none() {
                let ghost i = id as int;
                assert(self.first_free() == Some(i)) by {
                    let c = choose|k: int|
                        0 <= k < self.slots@.len() && self.slots@[k] is None && forall|j: int|
                            0 <= j < k ==> self.slots@[j] is Some;
                    assert(0 <= i < self.slots@.len() && self.slots@[i] is None && forall|j: int|
                        0 <= j < i ==> self.slots@[j] is Some);
                    if c < i {
                    } else if c > i {
                        assert(self.slots@[i] is Some);
                    }
                }
                let bbi = BVHBuildInfo {
                    vtx_buf,
                    idx_buf: Vec::new(),
                    tri_buf: Vec::new(),
                    bvh: None,
                };
                self.slots.set(id, Some(bbi));
                return id as i64;
            }
            id = id + 1;
        }
        assert(self.first_free() is None);
        OUT_OF_RESOURCE
    }

    /// Frees the slot of handle `id`; `RESOURCE_NOT_FOUND` if it holds no
    /// session.
    pub fn dealloc(&mut self, id: i64) -> (r: i64)
        requires
            old(self).wf(),
        ensures
            final(self).wf(),
            old(self).session(id) is None ==> r == RESOURCE_NOT_FOUND && *final(self) == *old(self),
            old(self).session(id) is Some ==> r == GOOD && old(self).same_except(*final(self), id as int)
                && final(self).slots@[id as int] is None,
    {
        match self.find(id) {
            None => RESOURCE_NOT_FOUND,
            Some(i) => {
                self.slots.set(i, None);
                GOOD
            },
        }
    }

    /// Adds a polygon with corner offsets `pidx` to session `id`.
    /// `RESOURCE_NOT_FOUND` if there is no such session, `IDX_OUT_OF_VTX_CNT`
    /// if an offset is not below the vertex count; nothing changes then.
    pub fn add_poly_index(&mut self, id: i64, pidx: Vec<usize>) -> (r: i64)
        requires
            old(self).wf(),
        ensures
            final(self).wf(),
            match old(self).session(id) {
                None => r == RESOURCE_NOT_FOUND && *final(self) == *old(self),
                Some(s) => if !indices_below(pidx@, s.vtx_buf@.len() as int) {
                    r == IDX_OUT_OF_VTX_CNT && *final(self) == *old(self)
                } else {
                    &&& r == GOOD
                    &&& old(self).same_except(*final(self), id as int)
                    &&& final(self).slots@[id as int] matches Some(t) && t.vtx_buf == s.vtx_buf
                        && t.tri_buf == s.tri_buf && t.bvh == s.bvh && t.idx_buf@.len()
                        == s.idx_buf@.len() + 1 && t.idx_buf@.drop_last() == s.idx_buf@
                        && t.idx_buf@.last().idx_buf@ == pidx@
                },
            },
    {
        let i = match self.find(id) {
            None => {
                return RESOURCE_NOT_FOUND;
            },
            Some(i) => i,
        };
        let n = match &self.slots[i] {
            Some(s) => s.vtx_buf.len(),
            None => 0,
        };
        let mut k: usize = 0;
        while k < pidx.len()
            invariant
                self.wf(),
                *self == *old(self),
                i == id,
                old(self).session(id) matches Some(s) && n == s.vtx_buf@.len(),
                k <= pidx@.len(),
                forall|j: int| 0 <= j < k ==> pidx@[j] < n,
            decreases pidx@.len() - k,
        {
            if pidx[k] >= n {
                return IDX_OUT_OF_VTX_CNT;
            }
            k = k + 1;
        }
        let mut rc = self.take(i);
        let ipoly = IndexedPoly::new(rc.vtx_buf.clone(), pidx);
        rc.idx_buf.push(ipoly);
        proof {
            assert(rc.idx_buf@.drop_last() =~= old(self).slots@[i as int]->Some_0.idx_buf@);
        }
        self.slots.set(i, Some(rc));
        GOOD
    }

    /// Fans every polygon of session `id` into triangles, replacing its
    /// triangle buffer. `RESOURCE_NOT_FOUND` if there is no such session,
    /// `IDX_BUF_IS_EMPTY` if it has no polygon; nothing changes then.
    pub fn generate_tri_buf(&mut self, id: i64) -> (r: i64)
        requires
            old(self).wf(),
        ensures
            final(self).wf(),
            match old(self).session(id) {
                None => r == RESOURCE_NOT_FOUND && *final(self) == *old(self),
                Some(s) => if s.idx_buf@.len() == 0 {
                    r == IDX_BUF_IS_EMPTY && *final(self) == *old(self)
                } else {
                    &&& r == GOOD
                    &&& old(self).same_except(*final(self), id as int)
                    &&& final(self).slots@[id as int] matches Some(t) && t.vtx_buf == s.vtx_buf
                        && t.idx_buf == s.idx_buf && t.bvh == s.bvh && tri_indices(t.tri_buf@)
                        == fans(s.idx_buf@)
                },
            },
    {
        let i = match self.find(id) {
            None => {
                return RESOURCE_NOT_FOUND;
            },
            Some(i) => i,
        };
        let empty = match &self.slots[i] {
            Some(s) => s.idx_buf.len() == 0,
            None => true,
        };
        if empty {
            return IDX_BUF_IS_EMPTY;
        }
        let mut rc = self.take(i);
        let ghost orig = rc;
        let ghost polys = rc.idx_buf@;
        rc.tri_buf.clear();
        let mut p: usize = 0;
        while p < rc.idx_buf.len()
            invariant
                session_ok(rc),
                rc.vtx_buf == orig.vtx_buf,
                rc.idx_buf == orig.idx_buf,
                rc.bvh == orig.bvh,
                Some(orig) == old(self).slots@[i as int],
                i == id,
                self.slots@ == old(self).slots@.update(i as int, None),
                self.wf(),
                polys == rc.idx_buf@,
                p <= polys.len(),
                tri_indices(rc.tri_buf@) == fans(polys.subrange(0, p as int)),
            decreases polys.len() - p,
        {
            let mut itri = rc.idx_buf[p].to_indexed_tri();
            let ghost pre = rc.tri_buf@;
            let ghost add = itri@;
            let ghost poly = polys[p as int];
            assert(poly.vtx_buf@ == rc.vtx_buf@);
            assert(indices_below(poly.idx_buf@, rc.vtx_buf@.len() as int));
            assert forall|k: int| 0 <= k < add.len() implies (#[trigger] add[k]).vtx_buf@ == rc.vtx_buf@
                && add[k].valid() by {
                assert(poly.idx_buf@[0] < rc.vtx_buf@.len());
                assert(poly.idx_buf@[k + 1] < rc.vtx_buf@.len());
                assert(poly.idx_buf@[k + 2] < rc.vtx_buf@.len());
                assert forall|m: int| 0 <= m < 3 implies #[trigger] add[k].indices@[m] < add[k].vtx_buf@.len() by {
                }
            }
            rc.tri_buf.append(&mut itri);
            proof {
                assert(rc.tri_buf@ =~= pre + add);
                assert(tri_indices(add) =~= fan(poly.idx_buf@));
                assert(polys.subrange(0, p + 1).drop_last() =~= polys.subrange(0, p as int));
                assert(tri_indices(rc.tri_buf@) =~= tri_indices(pre) + tri_indices(add));
            }
            p = p + 1;
        }
        assert(polys.subrange(0, polys.len() as int) =~= polys);
        self.slots.set(i, Some(rc));
        GOOD
    }

    /// Builds the tree of session `id` from its triangle buffer with leaf
    /// target `SESSION_LEAF_TARGET`. `RESOURCE_NOT_FOUND` if there is no such
    /// session, `IDX_BUF_IS_EMPTY` if it has no polygon,
    /// `TRI_BUF_NOT_GENERATED` if it has no triangle; nothing changes then.
    pub fn generate_bvh(&mut self, id: i64) -> (r: i64)
        requires
            old(self).wf(),
        ensures
            final(self).wf(),
            match old(self).session(id) {
                None => r == RESOURCE_NOT_FOUND && *final(self) == *old(self),
                Some(s) => if s.idx_buf@.len() == 0 {
                    r == IDX_BUF_IS_EMPTY && *final(self) == *old(self)
                } else if s.tri_buf@.len() == 0 {
                    r == TRI_BUF_NOT_GENERATED && *final(self) == *old(self)
                } else {
                    &&& r == GOOD
                    &&& old(self).same_except(*final(self), id as int)
                    &&& final(self).slots@[id as int] matches Some(t) && t.vtx_buf == s.vtx_buf
                        && t.idx_buf == s.idx_buf && t.tri_buf == s.tri_buf && (t.bvh matches Some(
                        b,
                    ) && b.idx_buf@ == tri_indices(s.tri_buf@) && built(*b, SESSION_LEAF_TARGET as int))
                },
            },
    {
        let i = match self.find(id) {
            None => {
                return RESOURCE_NOT_FOUND;
            },
            Some(i) => i,
        };
        let (no_polys, no_tris) = match &self.slots[i] {
            Some(s) => (s.idx_buf.len() == 0, s.tri_buf.len() == 0),
            None => (true, true),
        };
        if no_polys {
            return IDX_BUF_IS_EMPTY;
        }
        if no_tris {
            return TRI_BUF_NOT_GENERATED;
        }
        let mut rc = self.take(i);
        let mut tri_index: Vec<TriIndex> = Vec::new();
        let mut k: usize = 0;
        while k < rc.tri_buf.len()
            invariant
                session_ok(rc),
                k <= rc.tri_buf@.len(),
                tri_index@ == tri_indices(rc.tri_buf@).subrange(0, k as int),
            decreases rc.tri_buf@.len() - k,
        {
            let itri = &rc.tri_buf[k];
            assert(itri.valid());
            tri_index.push(TriIndex::new(itri.indices[0], itri.indices[1], itri.indices[2]));
            assert(tri_index@ =~= tri_indices(rc.tri_buf@).subrange(0, k + 1));
            k = k + 1;
        }
        assert(tri_index@ =~= tri_indices(rc.tri_buf@));
        assert forall|j: int| 0 <= j < tri_index@.len() implies (#[trigger] tri_index@[j]).valid_for(
            rc.vtx_buf@.len() as int,
        ) by {
            let t = rc.tri_buf@[j];
            assert(t.valid());
            assert(t.indices@[0] < t.vtx_buf@.len());
            assert(t.indices@[1] < t.vtx_buf@.len());
            assert(t.indices@[2] < t.vtx_buf@.len());
        }
        let mut bvh = BVHNode::new(rc.vtx_buf.clone(), tri_index);
        let cfg = BVHSubdivideConfig { num_tris_per_leaf: SESSION_LEAF_TARGET, max_tris_per_leaf: 15 };
        bvh.subdivide(cfg);
        rc.bvh = Some(Rc::new(bvh));
        self.slots.set(i, Some(rc));
        GOOD
    }

    /// Appends the leaves of session `id`'s tree to `leaves`, in stack order,
    /// and returns the new length of `leaves`. `RESOURCE_NOT_FOUND` if there
    /// is no such session, `BVH_NOT_GENERATED` if it has no tree; `leaves` is
    /// left as it was then.
    pub fn get_leaves(&self, id: i64, leaves: &mut Vec<Rc<BVHNode>>) -> (r: i64)
        requires
            self.wf(),
        ensures
            match self.session(id) {
                None => r == RESOURCE_NOT_FOUND && *final(leaves) == *old(leaves),
                Some(s) => match s.bvh {
                    None => r == BVH_NOT_GENERATED && *final(leaves) == *old(leaves),
                    Some(t) => deref_all(final(leaves)@) == deref_all(old(leaves)@)
                        + leaves_stack_order(*t) && r == clamp_count(final(leaves)@.len() as int),
                },
            },
    {
        let i = match self.find(id) {
            None => {
                return RESOURCE_NOT_FOUND;
            },
            Some(i) => i,
        };
        match &self.slots[i] {
            None => RESOURCE_NOT_FOUND,
            Some(rc) => match &rc.bvh {
                None => BVH_NOT_GENERATED,
                Some(bvh) => {
                    proof {
                        lemma_built_shape(node_of(*bvh), SESSION_LEAF_TARGET as int);
                    }
                    let mut all = BVHNode::get_all_leaves(bvh.clone());
                    let ghost before = leaves@;
                    let ghost added = all@;
                    leaves.append(&mut all);
                    assert(deref_all(leaves@) =~= deref_all(before) + deref_all(added)) by {
                        assert(leaves@ =~= before + added);
                    }
                    if leaves.len() as u64 > 0x7fff_ffff_ffff_ffff {
                        return i64::MAX;
                    }
                    leaves.len() as i64
                },
            },
        }
    }
    /// Number of leaves of session `id`'s tree, or the error of `get_leaves`.
    pub fn get_leaf_count(&self, id: i64) -> (r: i64)
        requires
            self.wf(),
        ensures
            match self.session(id) {
                None => r == RESOURCE_NOT_FOUND,
                Some(s) => match s.bvh {
                    None => r == BVH_NOT_GENERATED,
                    Some(t) => r == clamp_count(leaves_stack_order(*t).len() as int),
                },
            },
    {
        let mut leaves: Vec<Rc<BVHNode>> = Vec::new();
        assert(deref_all(leaves@) =~= Seq::<BVHNode>::empty());
        let r = self.get_leaves(id, &mut leaves);
        proof {
            if let Some(s) = self.session(id) {
                if let Some(t) = s.bvh {
                    assert(deref_all(leaves@).len() == leaves@.len());
                }
            }
        }
        r
    }

    /// The volumetric overlap peak of session `id`'s tree for a cubic block
    /// of edge `block_size`.
    pub fn get_block_overlap_peak(&self, id: i64, block_size: i64) -> (r: i64)
        requires
            self.wf(),
            2 <= block_size <= COORD_LIMIT,
        ensures
            match self.session(id) {
                None => r == RESOURCE_NOT_FOUND,
                Some(s) => match s.bvh {
                    None => r == BVH_NOT_GENERATED,
                    Some(t) => r == clamp_count(block_peak(*t, block_size as int)),
                },
            },
    {
        let i = match self.find(id) {
            None => {
                return RESOURCE_NOT_FOUND;
            },
            Some(i) => i,
        };
        match &self.slots[i] {
            None => RESOURCE_NOT_FOUND,
            Some(rc) => match &rc.bvh {
                None => BVH_NOT_GENERATED,
                Some(bvh) => {
                    proof {
                        lemma_built_shape(node_of(*bvh), SESSION_LEAF_TARGET as int);
                    }
                    let p = BVHNode::block_overlap_peak(bvh.clone(), block_size);
                    if p as u64 > 0x7fff_ffff_ffff_ffff {
                        return i64::MAX;
                    }
                    p as i64
                },
            },
        }
    }

    /// The surface overlap peak of session `id`'s tree for probes of step
    /// `step` and a block of size `block_size`.
    pub fn get_surface_hit_peak(&self, id: i64, step: i64, block_size: &Vec3) -> (r: i64)
        requires
            self.wf(),
            0 < step <= COORD_LIMIT,
            block_ok(*block_size),
            2 <= block_size.x && 2 <= block_size.y && 2 <= block_size.z,
        ensures
            match self.session(id) {
                None => r == RESOURCE_NOT_FOUND,
                Some(s) => match s.bvh {
                    None => r == BVH_NOT_GENERATED,
                    Some(t) => r == clamp_count(surface_peak(*t, step as int, *block_size)),
                },
            },
    {
        let i = match self.find(id) {
            None => {
                return RESOURCE_NOT_FOUND;
            },
            Some(i) => i,
        };
        match &self.slots[i] {
            None => RESOURCE_NOT_FOUND,
            Some(rc) => match &rc.bvh {
                None => BVH_NOT_GENERATED,
                Some(bvh) => {
                    proof {
                        lemma_built_shape(node_of(*bvh), SESSION_LEAF_TARGET as int);
                    }
                    let p = BVHNode::surface_hit_peak(bvh.clone(), step, block_size);
                    if p as u64 > 0x7fff_ffff_ffff_ffff {
                        return i64::MAX;
                    }
                    p as i64
                },
            },
        }
    }
}

/// Whether every vertex lies within `COORD_LIMIT`, as a session needs.
pub fn vertices_fit(vtx: &Vec<Vec3>) -> (r: bool)
    ensures
        r == vertices_in_range(vtx@),
{
    let mut i: usize = 0;
    while i < vtx.len()
        invariant
            i <= vtx@.len(),
            forall|j: int| 0 <= j < i ==> (#[trigger] vtx@[j]).in_range(),
        decreases vtx@.len() - i,
    {
        let v = vtx[i];
        if v.x < -COORD_LIMIT || v.x > COORD_LIMIT || v.y < -COORD_LIMIT || v.y > COORD_LIMIT
            || v.z < -COORD_LIMIT || v.z > COORD_LIMIT {
            return false;
        }
        i = i + 1;
    }
    true
}

} // verus!
