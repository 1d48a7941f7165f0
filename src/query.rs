use vstd::prelude::*;
use crate::aabb::AABB;
use crate::bvh::{
    binary, built, child, holds_tri, lemma_children_held, lemma_node_box, lemma_node_box_near,
    within_margin, BVHNode, MIN_EXTENT,
};
use std::rc::Rc;

verus! {

/// The leaves a search found: none, one, or several.
pub enum BVHNodeIntersectionResult {
    One(Rc<BVHNode>),
    Multiple(Vec<Rc<BVHNode>>),
    Zero,
}

pub open spec fn node_of(r: Rc<BVHNode>) -> BVHNode {
    *r
}

pub open spec fn deref_all(v: Seq<Rc<BVHNode>>) -> Seq<BVHNode> {
    v.map_values(|x: Rc<BVHNode>| *x)
}

/// The nodes a search result holds, in order.
pub open spec fn result_nodes(r: BVHNodeIntersectionResult) -> Seq<BVHNode> {
    match r {
        BVHNodeIntersectionResult::Zero => seq![],
        BVHNodeIntersectionResult::One(x) => seq![*x],
        BVHNodeIntersectionResult::Multiple(v) => deref_all(v@),
    }
}

/// Number of levels below `n`.
pub open spec fn height(n: BVHNode) -> nat
    decreases n,
{
    if n.children@.len() == 2 {
        let a = height(child(n, 0));
        let b = height(child(n, 1));
        1 + if a >= b { a } else { b }
    } else {
        0
    }
}

/// The leaves under `n`, left to right.
pub open spec fn leaves(n: BVHNode) -> Seq<BVHNode>
    decreases n,
{
    if n.children@.len() == 2 {
        leaves(child(n, 0)) + leaves(child(n, 1))
    } else {
        seq![n]
    }
}

/// `q` meets `b` widened by `MIN_EXTENT / 2` on every side. No box under a
/// node reaches further past the node's box than that (`lemma_node_box_near`),
/// so a subtree whose root box is not near `q` holds no leaf that meets `q`.
pub open spec fn near(b: AABB, q: AABB) -> bool {
    let h = MIN_EXTENT / 2;
    !(b.max.x + h < q.min.x || b.min.x - h > q.max.x) && !(b.max.y + h < q.min.y || b.min.y - h
        > q.max.y) && !(b.max.z + h < q.min.z || b.min.z - h > q.max.z)
}

/// The leaves that the pruning search reports: it descends only into nodes
/// whose box is near `q`, and reports the leaves whose own box meets `q`,
/// left to right.
pub open spec fn hit_leaves(n: BVHNode, q: AABB) -> Seq<BVHNode>
    decreases n,
{
    if !near(n.aabb, q) {
        seq![]
    } else if n.children@.len() == 2 {
        hit_leaves(child(n, 0), q) + hit_leaves(child(n, 1), q)
    } else if n.aabb.intersects(q) {
        seq![n]
    } else {
        seq![]
    }
}

/// The nodes under `n` in the order a stack walk visits them: the node, then
/// its second subtree, then its first.
pub open spec fn nodes_stack_order(n: BVHNode) -> Seq<BVHNode>
    decreases n,
{
    if n.children@.len() == 2 {
        seq![n] + nodes_stack_order(child(n, 1)) + nodes_stack_order(child(n, 0))
    } else {
        seq![n]
    }
}

/// The leaves under `n` in the order a stack walk visits them.
pub open spec fn leaves_stack_order(n: BVHNode) -> Seq<BVHNode>
    decreases n,
{
    if n.children@.len() == 2 {
        leaves_stack_order(child(n, 1)) + leaves_stack_order(child(n, 0))
    } else {
        seq![n]
    }
}

/// What remains to visit for a stack whose top is its last element.
pub open spec fn stack_nodes(st: Seq<BVHNode>) -> Seq<BVHNode>
    decreases st.len(),
{
    if st.len() == 0 {
        seq![]
    } else {
        nodes_stack_order(st.last()) + stack_nodes(st.drop_last())
    }
}

pub open spec fn stack_leaves(st: Seq<BVHNode>) -> Seq<BVHNode>
    decreases st.len(),
{
    if st.len() == 0 {
        seq![]
    } else {
        leaves_stack_order(st.last()) + stack_leaves(st.drop_last())
    }
}

fn near_box(b: &AABB, q: &AABB) -> (r: bool)
    ensures
        r == near(*b, *q),
{
    let h: i128 = (MIN_EXTENT / 2) as i128;
    if b.max.x as i128 + h < q.min.x as i128 || b.min.x as i128 - h > q.max.x as i128 {
        return false;
    }
    if b.max.y as i128 + h < q.min.y as i128 || b.min.y as i128 - h > q.max.y as i128 {
        return false;
    }
    if b.max.z as i128 + h < q.min.z as i128 || b.min.z as i128 - h > q.max.z as i128 {
        return false;
    }
    true
}

impl BVHNodeIntersectionResult {
    /// The result as one sequence of nodes.
    pub fn to_leaves(res: Self) -> (r: Vec<Rc<BVHNode>>)
        ensures
            deref_all(r@) == result_nodes(res),
    {
        match res {
            BVHNodeIntersectionResult::Zero => {
                let v: Vec<Rc<BVHNode>> = Vec::new();
                assert(deref_all(v@) =~= seq![]);
                v
            },
            BVHNodeIntersectionResult::One(ele) => {
                let mut v: Vec<Rc<BVHNode>> = Vec::new();
                v.push(ele);
                assert(deref_all(v@) =~= seq![*ele]);
                v
            },
            BVHNodeIntersectionResult::Multiple(eles) => eles,
        }
    }
}

proof fn lemma_stack_push_children(st: Seq<BVHNode>, n: BVHNode)
    requires
        n.children@.len() == 2,
    ensures
        stack_nodes(st.push(child(n, 0)).push(child(n, 1))) == nodes_stack_order(child(n, 1))
            + nodes_stack_order(child(n, 0)) + stack_nodes(st),
        stack_leaves(st.push(child(n, 0)).push(child(n, 1))) == leaves_stack_order(child(n, 1))
            + leaves_stack_order(child(n, 0)) + stack_leaves(st),
{
    let s1 = st.push(child(n, 0));
    let s2 = s1.push(child(n, 1));
    assert(s2.drop_last() =~= s1);
    assert(s1.drop_last() =~= st);
    assert(s2.last() == child(n, 1));
    assert(s1.last() == child(n, 0));
    assert(stack_nodes(s1) == nodes_stack_order(child(n, 0)) + stack_nodes(st));
    assert(stack_leaves(s1) == leaves_stack_order(child(n, 0)) + stack_leaves(st));
    assert(stack_nodes(s2) =~= nodes_stack_order(child(n, 1)) + nodes_stack_order(child(n, 0))
        + stack_nodes(st));
    assert(stack_leaves(s2) =~= leaves_stack_order(child(n, 1)) + leaves_stack_order(child(n, 0))
        + stack_leaves(st));
}

impl BVHNode {
    /// The leaves under `bvh` whose box meets `aabb`, found by descending only
    /// into nodes whose box is near `aabb`: `Zero` when there is none, `One`
    /// when there is exactly one, `Multiple` otherwise. In a built tree these
    /// are exactly the leaves whose box meets `aabb` (`lemma_pruning_exact`).
    pub fn get_interseced_leaves(bvh: Rc<Self>, aabb: &AABB) -> (r: BVHNodeIntersectionResult)
        requires
            binary(*bvh),
        ensures
            result_nodes(r) == hit_leaves(*bvh, *aabb),
            (r is Zero) <==> hit_leaves(*bvh, *aabb).len() == 0,
            (r is One) <==> hit_leaves(*bvh, *aabb).len() == 1,
            (r is Multiple) ==> hit_leaves(*bvh, *aabb).len() >= 2,
        decreases height(*bvh),
    {
        if near_box(&bvh.aabb, aabb) {
            if bvh.is_leaf() {
                if bvh.aabb.intersect_with_aabb(aabb) {
                    return BVHNodeIntersectionResult::One(bvh);
                }
                return BVHNodeIntersectionResult::Zero;
            } else {
                let mut ret: Vec<Rc<BVHNode>> = Vec::new();
                let r0 = Self::get_interseced_leaves(bvh.children[0].clone(), aabb);
                let mut v0 = BVHNodeIntersectionResult::to_leaves(r0);
                let ghost v0s = v0@;
                ret.append(&mut v0);
                assert(ret@ =~= v0s);
                let r1 = Self::get_interseced_leaves(bvh.children[1].clone(), aabb);
                let mut v1 = BVHNodeIntersectionResult::to_leaves(r1);
                let ghost mid = ret@;
                let ghost v1s = v1@;
                ret.append(&mut v1);
                assert(deref_all(ret@) =~= deref_all(mid) + deref_all(v1s)) by {
                    assert(ret@ =~= mid + v1s);
                }
                if ret.len() == 0 {
                    return BVHNodeIntersectionResult::Zero;
                } else if ret.len() == 1 {
                    let one = ret[0].clone();
                    assert(seq![*one] =~= deref_all(ret@));
                    return BVHNodeIntersectionResult::One(one);
                } else {
                    return BVHNodeIntersectionResult::Multiple(ret);
                }
            }
        }
        BVHNodeIntersectionResult::Zero
    }

    /// Every node under `bvh`, itself included, in stack order.
    pub fn get_all_nodes(bvh: Rc<Self>) -> (r: Vec<Rc<Self>>)
        requires
            binary(*bvh),
        ensures
            deref_all(r@) == nodes_stack_order(*bvh),
    {
        let ghost root = node_of(bvh);
        let mut ret: Vec<Rc<Self>> = Vec::new();
        let mut ptr_stack: Vec<Rc<Self>> = Vec::new();
        ptr_stack.push(bvh);
        assert(stack_nodes(deref_all(ptr_stack@)) =~= nodes_stack_order(root)) by {
            let st = deref_all(ptr_stack@);
            assert(st.drop_last() =~= Seq::<BVHNode>::empty());
            assert(st.last() == root);
            assert(stack_nodes(st.drop_last()) == Seq::<BVHNode>::empty());
        }
        while ptr_stack.len() > 0
            invariant
                forall|i: int| 0 <= i < ptr_stack@.len() ==> binary(*#[trigger] ptr_stack@[i]),
                deref_all(ret@) + stack_nodes(deref_all(ptr_stack@)) == nodes_stack_order(root),
            decreases stack_nodes(deref_all(ptr_stack@)).len(),
        {
            let ghost before = ptr_stack@;
            let ptr = ptr_stack.pop().unwrap();
            assert(deref_all(before).drop_last() =~= deref_all(ptr_stack@));
            let ghost pre_ret = ret@;
            if !ptr.is_leaf() {
                assert(binary(*ptr));
                ptr_stack.push(ptr.children[0].clone());
                ptr_stack.push(ptr.children[1].clone());
                proof {
                    lemma_stack_push_children(deref_all(before.drop_last()), node_of(ptr));
                    assert(deref_all(ptr_stack@) =~= deref_all(before.drop_last()).push(
                        child(*ptr, 0),
                    ).push(child(*ptr, 1)));
                }
            }
            ret.push(ptr);
            assert(deref_all(ret@) =~= deref_all(pre_ret).push(*ptr));
            assert(deref_all(ret@) + stack_nodes(deref_all(ptr_stack@)) =~= nodes_stack_order(root));
        }
        assert(deref_all(ptr_stack@) =~= seq![]);
        assert(deref_all(ret@) + seq![] =~= deref_all(ret@));
        ret
    }

    /// Every leaf under `bvh`, in stack order.
    pub fn get_all_leaves(bvh: Rc<Self>) -> (r: Vec<Rc<Self>>)
        requires
            binary(*bvh),
        ensures
            deref_all(r@) == leaves_stack_order(*bvh),
    {
        let ghost root = node_of(bvh);
        let mut ret: Vec<Rc<Self>> = Vec::new();
        let mut ptr_stack: Vec<Rc<Self>> = Vec::new();
        ptr_stack.push(bvh);
        assert(stack_leaves(deref_all(ptr_stack@)) =~= leaves_stack_order(root)) by {
            let st = deref_all(ptr_stack@);
            assert(st.drop_last() =~= Seq::<BVHNode>::empty());
            assert(st.last() == root);
            assert(stack_leaves(st.drop_last()) == Seq::<BVHNode>::empty());
        }
        while ptr_stack.len() > 0
            invariant
                forall|i: int| 0 <= i < ptr_stack@.len() ==> binary(*#[trigger] ptr_stack@[i]),
                deref_all(ret@) + stack_leaves(deref_all(ptr_stack@)) == leaves_stack_order(root),
            decreases stack_nodes(deref_all(ptr_stack@)).len(),
        {
            let ghost before = ptr_stack@;
            let ptr = ptr_stack.pop().unwrap();
            assert(deref_all(before).drop_last() =~= deref_all(ptr_stack@));
            let ghost pre_ret = ret@;
            if !ptr.is_leaf() {
                assert(binary(*ptr));
                ptr_stack.push(ptr.children[0].clone());
                ptr_stack.push(ptr.children[1].clone());
                proof {
                    lemma_stack_push_children(deref_all(before.drop_last()), node_of(ptr));
                    assert(deref_all(ptr_stack@) =~= deref_all(before.drop_last()).push(
                        child(*ptr, 0),
                    ).push(child(*ptr, 1)));
                }
                assert(deref_all(ret@) + stack_leaves(deref_all(ptr_stack@)) =~= leaves_stack_order(root));
            } else {
                ret.push(ptr);
                assert(deref_all(ret@) =~= deref_all(pre_ret).push(*ptr));
                assert(deref_all(ret@) + stack_leaves(deref_all(ptr_stack@)) =~= leaves_stack_order(root));
            }
        }
        assert(deref_all(ptr_stack@) =~= seq![]);
        assert(deref_all(ret@) + seq![] =~= deref_all(ret@));
        ret
    }
}

proof fn lemma_leaves_near(n: BVHNode, target: int, r: AABB)
    requires
        built(n, target),
        target >= 1,
        n.idx_buf@.len() > 0,
        forall|i: int|
            0 <= i < n.idx_buf@.len() ==> holds_tri(r, (#[trigger] n.idx_buf@[i]).tri_spec(n.vtx_buf@)),
    ensures
        forall|i: int|
            0 <= i < leaves(n).len() ==> within_margin((#[trigger] leaves(n)[i]).aabb, r),
    decreases n,
{
    if n.children@.len() == 2 {
        lemma_children_held(n, target, r);
        let c0 = child(n, 0);
        let c1 = child(n, 1);
        lemma_leaves_near(c0, target, r);
        lemma_leaves_near(c1, target, r);
        let l0 = leaves(c0);
        assert forall|i: int| 0 <= i < leaves(n).len() implies within_margin(
            (#[trigger] leaves(n)[i]).aabb,
            r,
        ) by {
            if i < l0.len() {
                assert(leaves(n)[i] == l0[i]);
            } else {
                assert(leaves(n)[i] == leaves(c1)[i - l0.len()]);
            }
        }
    } else {
        lemma_node_box_near(n.vtx_buf@, n.idx_buf@, r);
    }
}

/// In a built tree the pruning search reports exactly the leaves whose box
/// meets the query box, left to right, and never an inner node.
pub proof fn lemma_pruning_exact(n: BVHNode, target: int, q: AABB)
    requires
        built(n, target),
        target >= 1,
    ensures
        hit_leaves(n, q) == leaves(n).filter(|l: BVHNode| l.aabb.intersects(q)),
        forall|i: int|
            0 <= i < hit_leaves(n, q).len() ==> (#[trigger] hit_leaves(n, q)[i]).children@.len()
                == 0,
    decreases n,
{
    let p = |l: BVHNode| l.aabb.intersects(q);
    reveal(Seq::filter);
    if n.children@.len() == 2 {
        let c0 = child(n, 0);
        let c1 = child(n, 1);
        if !near(n.aabb, q) {
            lemma_node_box(n.vtx_buf@, n.idx_buf@);
            lemma_leaves_near(n, target, n.aabb);
            assert(leaves(n).all(|x: BVHNode| !p(x))) by {
                assert forall|i: int| 0 <= i < leaves(n).len() implies !p(#[trigger] leaves(n)[i]) by {
                    assert(within_margin(leaves(n)[i].aabb, n.aabb));
                }
            }
            leaves(n).lemma_all_neg_filter_empty(p);
            assert(leaves(n).filter(p) =~= hit_leaves(n, q));
        } else {
            lemma_pruning_exact(c0, target, q);
            lemma_pruning_exact(c1, target, q);
            Seq::filter_distributes_over_add(leaves(c0), leaves(c1), p);
            let h = hit_leaves(n, q);
            let h0 = hit_leaves(c0, q);
            assert forall|i: int| 0 <= i < h.len() implies (#[trigger] h[i]).children@.len() == 0 by {
                if i < h0.len() {
                    assert(h[i] == h0[i]);
                } else {
                    assert(h[i] == hit_leaves(c1, q)[i - h0.len()]);
                }
            }
        }
    } else {
        assert(n.children@.len() == 0);
        let l = leaves(n);
        assert(l.drop_last() =~= Seq::<BVHNode>::empty());
        assert(l.last() == n);
        assert(Seq::<BVHNode>::empty().filter(p) =~= Seq::<BVHNode>::empty());
        assert(l.filter(p) =~= hit_leaves(n, q));
    }
}

} // verus!
