use vstd::prelude::*;
use crate::tri::IndexedTri;
use crate::vec3::Vec3;
use std::rc::Rc;

verus! {

/// A polygon given by its corner points.
#[derive(Clone, Debug)]
pub struct Poly {
    pub vtx_buf: Vec<Vec3>,
}

impl Poly {
    pub fn new(vtx_buf: Vec<Vec3>) -> (r: Self)
        ensures
            r.vtx_buf@ == vtx_buf@,
    {
        Poly { vtx_buf }
    }
}

/// Every offset in `idx` lies inside a buffer of `n` vertices.
pub open spec fn indices_below(idx: Seq<usize>, n: int) -> bool {
    forall|k: int| 0 <= k < idx.len() ==> #[trigger] idx[k] < n
}

/// The points that `idx` names in `pts`, in order.
pub open spec fn gather(pts: Seq<Vec3>, idx: Seq<usize>) -> Seq<Vec3> {
    Seq::new(idx.len(), |k: int| pts[idx[k] as int])
}

/// Number of triangles in the fan of a polygon with `n` corners.
pub open spec fn fan_len(n: int) -> int {
    if n >= 3 { n - 2 } else { 0 }
}

fn gather_points(pts: &Vec<Vec3>, idx: &Vec<usize>) -> (r: Vec<Vec3>)
    requires
        indices_below(idx@, pts@.len() as int),
    ensures
        r@ == gather(pts@, idx@),
{
    let mut ret: Vec<Vec3> = Vec::new();
    let mut i: usize = 0;
    while i < idx.len()
        invariant
            i <= idx@.len(),
            indices_below(idx@, pts@.len() as int),
            ret@ == gather(pts@, idx@).subrange(0, i as int),
        decreases idx@.len() - i,
    {
        assert(idx@[i as int] < pts@.len());
        ret.push(pts[idx[i]]);
        i = i + 1;
        assert(ret@ =~= gather(pts@, idx@).subrange(0, i as int));
    }
    assert(ret@ =~= gather(pts@, idx@));
    ret
}

/// A polygon that keeps its vertex buffer together with the offsets of its
/// corners, in order.
#[derive(Clone, Debug)]
pub struct IndexedPoly {
    pub vtx_buf: Rc<Vec<Vec3>>,
    pub idx_buf: Vec<usize>,
}

impl IndexedPoly {
    pub fn new(vtx_buf: Rc<Vec<Vec3>>, idx_buf: Vec<usize>) -> (r: Self)
        ensures
            r.vtx_buf == vtx_buf,
            r.idx_buf@ == idx_buf@,
    {
        IndexedPoly { vtx_buf, idx_buf }
    }

    pub fn to_poly(&self) -> (r: Poly)
        requires
            indices_below(self.idx_buf@, self.vtx_buf@.len() as int),
        ensures
            r.vtx_buf@ == gather(self.vtx_buf@, self.idx_buf@),
    {
        Poly::new(gather_points(&self.vtx_buf, &self.idx_buf))
    }

    /// Fans the polygon from its first corner: `(i0, i1, i2), (i0, i2, i3), ...`.
    /// A polygon of fewer than three corners gives no triangle.
    pub fn to_indexed_tri(&self) -> (r: Vec<IndexedTri>)
        ensures
            r@.len() == fan_len(self.idx_buf@.len() as int),
            forall|k: int|
                0 <= k < r@.len() ==> (#[trigger] r@[k]).vtx_buf == self.vtx_buf && r@[k].indices@
                    == seq![self.idx_buf@[0], self.idx_buf@[k + 1], self.idx_buf@[k + 2]],
    {
        let mut ret: Vec<IndexedTri> = Vec::new();
        let n = self.idx_buf.len();
        if n < 3 {
            return ret;
        }
        let mut counter: usize = 1;
        while counter < n - 1
            invariant
                n == self.idx_buf@.len(),
                n >= 3,
                1 <= counter <= n - 1,
                ret@.len() == counter - 1,
                forall|k: int|
                    0 <= k < ret@.len() ==> (#[trigger] ret@[k]).vtx_buf == self.vtx_buf
                        && ret@[k].indices@ == seq![
                        self.idx_buf@[0],
                        self.idx_buf@[k + 1],
                        self.idx_buf@[k + 2],
                    ],
            decreases n - counter,
        {
            let idx0 = self.idx_buf[0];
            let idx1 = self.idx_buf[counter];
            let idx2 = self.idx_buf[counter + 1];
            let itri = IndexedTri::new(self.vtx_buf.clone(), idx0, idx1, idx2);
            ret.push(itri);
            counter = counter + 1;
        }
        ret
    }
}

/// The corner offsets of a polygon, without its vertex buffer.
#[derive(Clone, Debug)]
pub struct PolyIndex {
    pub idx_buf: Vec<usize>,
}

impl PolyIndex {
    pub fn new(pts: Vec<usize>) -> (r: Self)
        ensures
            r.idx_buf@ == pts@,
    {
        PolyIndex { idx_buf: pts }
    }

    pub fn to_poly(&self, vtx_buf: Rc<Vec<Vec3>>) -> (r: Poly)
        requires
            indices_below(self.idx_buf@, vtx_buf@.len() as int),
        ensures
            r.vtx_buf@ == gather(vtx_buf@, self.idx_buf@),
    {
        Poly::new(gather_points(&vtx_buf, &self.idx_buf))
    }

    pub fn to_indexed_poly(&self, vtx_buf: Rc<Vec<Vec3>>) -> (r: IndexedPoly)
        ensures
            r.vtx_buf == vtx_buf,
            r.idx_buf@ == self.idx_buf@,
    {
        let idx_buf = self.idx_buf.clone();
        IndexedPoly::new(vtx_buf, idx_buf)
    }
}

} // verus!
