use std::rc::Rc;
use trimesh_bvh::bvh::MIN_EXTENT;
use trimesh_bvh::vec3::UNIT;
use trimesh_bvh::{
    AABBSplitAxis, BVHNode, BVHNodeIntersectionResult, BVHSubdivideConfig, IndexedPoly, PolyIndex,
    TriIndex, Vec3, AABB,
};

struct Lcg(u64);

impl Lcg {
    fn next(&mut self) -> u64 {
        self.0 = self.0.wrapping_mul(6364136223846793005).wrapping_add(1442695040888963407);
        self.0 >> 33
    }

    /// A whole number of ticks in `[lo, hi)` units.
    fn range(&mut self, lo: i64, hi: i64) -> i64 {
        let span = ((hi - lo) * UNIT) as u64;
        lo * UNIT + (self.next() % span) as i64
    }
}

fn v(x: i64, y: i64, z: i64) -> Vec3 {
    Vec3::new(x * UNIT, y * UNIT, z * UNIT)
}

fn leaves_of(root: &Rc<BVHNode>) -> Vec<Rc<BVHNode>> {
    BVHNode::get_all_leaves(root.clone())
}

fn build(vtx: Vec<Vec3>, tris: Vec<TriIndex>, target: usize) -> Rc<BVHNode> {
    let mut bvh = BVHNode::new(Rc::new(vtx), tris);
    bvh.subdivide(BVHSubdivideConfig { num_tris_per_leaf: target, max_tris_per_leaf: 15 });
    Rc::new(bvh)
}

fn sorted_leaf_tris(root: &Rc<BVHNode>) -> Vec<(usize, usize, usize)> {
    let mut all = Vec::new();
    for leaf in leaves_of(root) {
        for t in leaf.idx_buf.iter() {
            all.push((t.pt0, t.pt1, t.pt2));
        }
    }
    all.sort();
    all
}

#[test]
fn test_bvh_subdivide() {
    let mut rng = Lcg(7);
    let mut vtx_buf = Vec::<Vec3>::new();
    let mut idx_buf = Vec::<TriIndex>::new();
    for idx in 0..(10000 * 9) {
        let tri_idx = TriIndex::new(idx * 3, idx * 3 + 1, idx * 3 + 2);
        let x0 = rng.range(-100, 100);
        let y0 = rng.range(-100, 100);
        let z0 = rng.range(-100, 100);
        let x1 = x0 + rng.range(-20, 20);
        let y1 = y0 + rng.range(-20, 20);
        let z1 = z0 + rng.range(-20, 20);
        let x2 = x0 + rng.range(-20, 20);
        let y2 = y0 + rng.range(-20, 20);
        let z2 = z0 + rng.range(-20, 20);
        vtx_buf.push(Vec3::new(x0, y0, z0));
        vtx_buf.push(Vec3::new(x1, y1, z1));
        vtx_buf.push(Vec3::new(x2, y2, z2));
        idx_buf.push(tri_idx);
    }
    let mut bvh = BVHNode::new(Rc::new(vtx_buf), idx_buf);
    bvh.subdivide(BVHSubdivideConfig::default());
    let rbvh = Rc::new(bvh);
    let aabb = AABB::new(&v(-20, -20, -20), &v(20, 20, 20));
    let intersection = BVHNode::get_interseced_leaves(rbvh.clone(), &aabb);
    let hit = BVHNodeIntersectionResult::to_leaves(intersection);
    println!("Intersected leaves: {}", hit.len());
    assert!(!hit.is_empty());
    let leaves = leaves_of(&rbvh);
    let total: usize = leaves.iter().map(|l| l.idx_buf.len()).sum();
    assert_eq!(total, 90000);
    assert!(leaves.iter().all(|l| l.idx_buf.len() <= 4 && l.children.is_empty()));
    assert!(hit.iter().all(|l| l.children.is_empty() && l.aabb.intersect_with_aabb(&aabb)));
}

#[test]
fn test_trireduce() {
    let vtx_buf = Rc::new(vec![
        v(-1, 1, 1),
        v(1, 1, 1),
        v(2, 0, 1),
        v(1, -1, 1),
        v(-1, -1, 1),
    ]);
    let idx_buf = vec![0_usize, 1_usize, 2_usize, 3_usize, 4_usize];
    let ipoly = IndexedPoly::new(vtx_buf, idx_buf);
    let tris = ipoly.to_indexed_tri();
    println!("{:#?}", tris);
    let got: Vec<[usize; 3]> = tris.iter().map(|t| t.indices).collect();
    assert_eq!(got, vec![[0, 1, 2], [0, 2, 3], [0, 3, 4]]);
}

#[test]
fn fan_of_short_polygon_is_empty() {
    let vtx = Rc::new(vec![v(0, 0, 0), v(1, 0, 0)]);
    assert!(IndexedPoly::new(vtx.clone(), vec![0, 1]).to_indexed_tri().is_empty());
    assert!(IndexedPoly::new(vtx, vec![]).to_indexed_tri().is_empty());
}

#[test]
fn poly_index_gathers_points() {
    let vtx = Rc::new(vec![v(0, 0, 0), v(1, 0, 0), v(0, 1, 0)]);
    let p = PolyIndex::new(vec![2, 0]);
    let poly = p.to_poly(vtx.clone());
    assert_eq!(poly.vtx_buf, vec![v(0, 1, 0), v(0, 0, 0)]);
    let ip = p.to_indexed_poly(vtx);
    assert_eq!(ip.idx_buf, vec![2, 0]);
    assert_eq!(ip.to_poly().vtx_buf, vec![v(0, 1, 0), v(0, 0, 0)]);
}

#[test]
fn two_far_triangles_give_two_leaves() {
    let vtx = vec![v(0, 0, 0), v(1, 0, 0), v(0, 1, 0), v(100, 100, 100), v(101, 100, 100), v(100, 101, 100)];
    let tris = vec![TriIndex::new(0, 1, 2), TriIndex::new(3, 4, 5)];
    let root = build(vtx, tris, 1);
    let leaves = leaves_of(&root);
    assert_eq!(leaves.len(), 2);
    assert!(leaves.iter().all(|l| l.idx_buf.len() == 1));
    assert_eq!(sorted_leaf_tris(&root), vec![(0, 1, 2), (3, 4, 5)]);
    assert_eq!(root.children.len(), 2);
}

#[test]
fn single_triangle_is_one_padded_leaf() {
    let vtx = vec![v(0, 0, 1), v(2, 0, 1), v(0, 3, 1)];
    let root = build(vtx.clone(), vec![TriIndex::new(0, 1, 2)], 4);
    assert!(root.is_leaf());
    let b = AABB::from_point3(&vtx[0], &vtx[1], &vtx[2]);
    assert_eq!(root.aabb.min, Vec3::new(b.min.x, b.min.y, b.min.z - MIN_EXTENT / 2));
    assert_eq!(root.aabb.max, Vec3::new(b.max.x, b.max.y, b.max.z + MIN_EXTENT / 2));
    let root1 = build(vtx, vec![TriIndex::new(0, 1, 2)], 1);
    assert!(root1.is_leaf());
}

#[test]
fn identical_triangles_still_split_to_single_leaves() {
    let vtx = vec![v(0, 0, 0), v(1, 0, 0), v(0, 1, 0)];
    let tris = vec![TriIndex::new(0, 1, 2); 5];
    let root = build(vtx, tris, 1);
    let leaves = leaves_of(&root);
    assert_eq!(leaves.len(), 5);
    assert!(leaves.iter().all(|l| l.idx_buf.len() == 1));
    let two = build(vec![v(0, 0, 0), v(1, 0, 0), v(0, 1, 0)], vec![TriIndex::new(0, 1, 2); 2], 1);
    assert_eq!(leaves_of(&two).len(), 2);
}

fn grid_mesh(n: i64) -> (Vec<Vec3>, Vec<TriIndex>) {
    let mut vtx = Vec::new();
    let mut tris = Vec::new();
    for i in 0..n {
        for j in 0..n {
            let b = vtx.len();
            vtx.push(v(i, j, 0));
            vtx.push(v(i + 1, j, 0));
            vtx.push(v(i, j + 1, 0));
            tris.push(TriIndex::new(b, b + 1, b + 2));
        }
    }
    (vtx, tris)
}

#[test]
fn partition_and_leaf_size_on_grid() {
    let (vtx, tris) = grid_mesh(6);
    let root = build(vtx, tris, 3);
    let leaves = leaves_of(&root);
    assert!(leaves.iter().all(|l| l.idx_buf.len() <= 3));
    let mut expected: Vec<(usize, usize, usize)> = (0..36).map(|k| (3 * k, 3 * k + 1, 3 * k + 2)).collect();
    expected.sort();
    assert_eq!(sorted_leaf_tris(&root), expected);
    for node in BVHNode::get_all_nodes(root.clone()) {
        for t in node.idx_buf.iter() {
            let tri = t.to_tri(node.vtx_buf.clone());
            for p in [tri.pt0, tri.pt1, tri.pt2] {
                assert!(node.aabb.point_in_aabb(&p));
                assert!(node.aabb.min.z <= p.z && p.z <= node.aabb.max.z);
            }
        }
    }
}

#[test]
fn all_nodes_and_leaves_counts() {
    let (vtx, tris) = grid_mesh(4);
    let root = build(vtx, tris, 2);
    let nodes = BVHNode::get_all_nodes(root.clone());
    let leaves = leaves_of(&root);
    assert_eq!(nodes.len(), 2 * leaves.len() - 1);
    assert!(Rc::ptr_eq(&nodes[0], &root));
}

#[test]
fn pruning_matches_brute_force() {
    let (vtx, tris) = grid_mesh(5);
    let root = build(vtx, tris, 2);
    let q = AABB::new(&v(1, 1, -1), &v(2, 2, 1));
    let hit = BVHNodeIntersectionResult::to_leaves(BVHNode::get_interseced_leaves(root.clone(), &q));
    let brute: Vec<Rc<BVHNode>> =
        leaves_of(&root).into_iter().filter(|l| l.aabb.intersect_with_aabb(&q)).collect();
    assert_eq!(hit.len(), brute.len());
    assert!(hit.iter().all(|h| brute.iter().any(|b| Rc::ptr_eq(h, b))));
    let far = AABB::new(&v(50, 50, 50), &v(60, 60, 60));
    assert!(matches!(BVHNode::get_interseced_leaves(root, &far), BVHNodeIntersectionResult::Zero));
}

#[test]
fn block_bigger_than_mesh_sees_every_leaf() {
    let (vtx, tris) = grid_mesh(4);
    let root = build(vtx, tris, 2);
    let nleaves = leaves_of(&root).len();
    let peak = BVHNode::block_overlap_peak(root.clone(), 20 * UNIT);
    assert_eq!(peak, nleaves);
}

#[test]
fn directional_hit_counts_on_a_line() {
    let vtx = vec![v(0, 0, 0), v(1, 0, 0), v(0, 1, 0), v(10, 0, 0), v(11, 0, 0), v(10, 1, 0)];
    let root = build(vtx, vec![TriIndex::new(0, 1, 2), TriIndex::new(3, 4, 5)], 1);
    let block = v(2, 2, 2);
    // From x = -5 to x = 15 in steps of 1: the probe meets one leaf at a time.
    let peak = BVHNode::directional_hit(root.clone(), &block, &v(-5, 0, 0), &v(15, 0, 0), UNIT, false);
    assert_eq!(peak, 1);
    // The first position lies far from both triangles.
    let first = BVHNode::directional_hit(root.clone(), &block, &v(-5, 0, 0), &v(15, 0, 0), UNIT, true);
    assert_eq!(first, 0);
    // A block wide enough to span both triangles at the middle.
    let wide = v(12, 2, 2);
    let both = BVHNode::directional_hit(root.clone(), &wide, &v(5, 0, 0), &v(6, 0, 0), UNIT, false);
    assert_eq!(both, 2);
    // A segment of length zero has no probe position.
    assert_eq!(BVHNode::directional_hit(root, &wide, &v(5, 0, 0), &v(5, 0, 0), UNIT, false), 0);
}

#[test]
fn surface_hit_peak_of_flat_grid() {
    let (vtx, tris) = grid_mesh(4);
    let root = build(vtx, tris, 2);
    let nleaves = leaves_of(&root).len();
    let small = BVHNode::surface_hit_peak(root.clone(), UNIT, &Vec3::new(UNIT / 2, UNIT / 2, UNIT / 2));
    assert!(small >= 1 && small <= nleaves);
    let big = BVHNode::surface_hit_peak(root, UNIT, &v(20, 20, 20));
    assert_eq!(big, nleaves);
}

#[test]
fn subdivide_config_thresholds() {
    let cfg = BVHSubdivideConfig::default();
    assert_eq!(cfg.num_tris_per_leaf, 4);
    assert_eq!(cfg.max_tris_per_leaf, 15);
    let (vtx, tris) = grid_mesh(2);
    let node = BVHNode::new(Rc::new(vtx), tris);
    assert!(!cfg.can_subsubdivide(&node));
    assert!(cfg.is_valid(&node));
    let strict = BVHSubdivideConfig { num_tris_per_leaf: 5, max_tris_per_leaf: 15 };
    assert!(!strict.is_valid(&node));
    let one = BVHSubdivideConfig { num_tris_per_leaf: 1, max_tris_per_leaf: 2 };
    assert!(one.can_subsubdivide(&node));
    assert!(!one.is_valid(&node));
    let _ = AABBSplitAxis::X;
}

#[test]
fn padded_leaf_outside_its_parent_is_found() {
    // The first triangle is flat in x, so its leaf is widened past the
    // parent's lower x face; a query there meets the leaf but not the parent,
    // and the search still reports the leaf.
    let vtx = vec![v(0, 0, 0), v(0, 1, 0), v(0, 0, 1), v(1, 0, 0), v(2, 1, 0), v(2, 0, 1)];
    let root = build(vtx, vec![TriIndex::new(0, 1, 2), TriIndex::new(3, 4, 5)], 1);
    assert_eq!(root.aabb.min.x, 0);
    let q = AABB::new(&Vec3::new(-40, 100, 100), &Vec3::new(-30, 200, 200));
    assert!(!root.aabb.intersect_with_aabb(&q));
    match BVHNode::get_interseced_leaves(root.clone(), &q) {
        BVHNodeIntersectionResult::One(l) => {
            assert!(l.is_leaf());
            assert_eq!(l.idx_buf, vec![TriIndex::new(0, 1, 2)]);
            assert_eq!(l.aabb.min.x, -MIN_EXTENT / 2);
        },
        _ => panic!("expected the flat triangle's leaf"),
    }
    // Just beyond the widened leaf nothing is found.
    let past = AABB::new(&Vec3::new(-60, 100, 100), &Vec3::new(-51, 200, 200));
    assert!(matches!(BVHNode::get_interseced_leaves(root, &past), BVHNodeIntersectionResult::Zero));
}

#[test]
fn near_triangle_query_gives_one_leaf() {
    let vtx = vec![v(0, 0, 0), v(1, 0, 0), v(0, 1, 0), v(100, 100, 100), v(101, 100, 100), v(100, 101, 100)];
    let root = build(vtx, vec![TriIndex::new(0, 1, 2), TriIndex::new(3, 4, 5)], 1);
    let q = AABB::new(&v(-1, -1, -1), &v(2, 2, 1));
    match BVHNode::get_interseced_leaves(root.clone(), &q) {
        BVHNodeIntersectionResult::One(l) => {
            assert!(l.is_leaf());
            assert_eq!(l.idx_buf, vec![TriIndex::new(0, 1, 2)]);
        },
        _ => panic!("expected exactly one leaf"),
    }
    let everything = AABB::new(&v(-1, -1, -1), &v(200, 200, 200));
    match BVHNode::get_interseced_leaves(root, &everything) {
        BVHNodeIntersectionResult::Multiple(ls) => assert_eq!(ls.len(), 2),
        _ => panic!("expected several leaves"),
    }
}
