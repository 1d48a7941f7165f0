use vstd::prelude::*;
use crate::vec3::Vec3;
use std::rc::Rc;

verus! {

/// A triangle given by its three corner points.
#[derive(Clone, Copy, Debug, PartialEq, Eq, Structural)]
pub struct Tri {
    pub pt0: Vec3,
    pub pt1: Vec3,
    pub pt2: Vec3,
}

impl Tri {
    pub fn new(pt0: &Vec3, pt1: &Vec3, pt2: &Vec3) -> (r: Self)
        ensures
            r.pt0 == *pt0,
            r.pt1 == *pt1,
            r.pt2 == *pt2,
    {
        Tri { pt0: *pt0, pt1: *pt1, pt2: *pt2 }
    }
}

/// A triangle that keeps its vertex buffer together with three offsets into it.
#[derive(Clone, Debug)]
pub struct IndexedTri {
    pub vtx_buf: Rc<Vec<Vec3>>,
    pub indices: [usize; 3],
}

impl IndexedTri {
    pub fn new(vtx_buf: Rc<Vec<Vec3>>, idxpt0: usize, idxpt1: usize, idxpt2: usize) -> (r: Self)
        ensures
            r.vtx_buf == vtx_buf,
            r.indices@ == seq![idxpt0, idxpt1, idxpt2],
    {
        IndexedTri { vtx_buf, indices: [idxpt0, idxpt1, idxpt2] }
    }

    /// Every offset lies inside the vertex buffer.
    pub open spec fn valid(self) -> bool {
        forall|k: int| 0 <= k < 3 ==> #[trigger] self.indices@[k] < self.vtx_buf@.len()
    }

    pub fn to_tri(&self) -> (r: Tri)
        requires
            self.valid(),
        ensures
            r.pt0 == self.vtx_buf@[self.indices@[0] as int],
            r.pt1 == self.vtx_buf@[self.indices@[1] as int],
            r.pt2 == self.vtx_buf@[self.indices@[2] as int],
    {
        let idx0 = self.indices[0];
        let idx1 = self.indices[1];
        let idx2 = self.indices[2];
        assert(self.indices@[0] < self.vtx_buf@.len());
        assert(self.indices@[1] < self.vtx_buf@.len());
        assert(self.indices@[2] < self.vtx_buf@.len());
        Tri::new(&self.vtx_buf[idx0], &self.vtx_buf[idx1], &self.vtx_buf[idx2])
    }
}

/// Three vertex offsets into a shared vertex buffer.
#[derive(Clone, Copy, Debug, PartialEq, Eq, Structural)]
pub struct TriIndex {
    pub pt0: usize,
    pub pt1: usize,
    pub pt2: usize,
}

impl TriIndex {
    /// Every offset lies inside a buffer of `n` vertices.
    pub open spec fn valid_for(self, n: int) -> bool {
        self.pt0 < n && self.pt1 < n && self.pt2 < n
    }

    /// The triangle this index triple names in `pts`.
    pub open spec fn tri_spec(self, pts: Seq<Vec3>) -> Tri {
        Tri { pt0: pts[self.pt0 as int], pt1: pts[self.pt1 as int], pt2: pts[self.pt2 as int] }
    }

    pub fn new(pt0: usize, pt1: usize, pt2: usize) -> (r: Self)
        ensures
            r.pt0 == pt0,
            r.pt1 == pt1,
            r.pt2 == pt2,
    {
        TriIndex { pt0, pt1, pt2 }
    }

    pub fn to_tri(&self, pts: Rc<Vec<Vec3>>) -> (r: Tri)
        requires
            self.valid_for(pts@.len() as int),
        ensures
            r == self.tri_spec(pts@),
    {
        let pt0 = pts[self.pt0];
        let pt1 = pts[self.pt1];
        let pt2 = pts[self.pt2];
        Tri::new(&pt0, &pt1, &pt2)
    }

    pub fn to_indexed_tri(&self, pts: Rc<Vec<Vec3>>) -> (r: IndexedTri)
        ensures
            r.vtx_buf == pts,
            r.indices@ == seq![self.pt0, self.pt1, self.pt2],
    {
        IndexedTri::new(pts, self.pt0, self.pt1, self.pt2)
    }
}

} // verus!
