use std::rc::Rc;
use trimesh_bvh::session::{
    vertices_fit, BVHBuildTable, BVH_NOT_GENERATED, GOOD, IDX_BUF_IS_EMPTY, IDX_OUT_OF_VTX_CNT,
    NUM_BVH_BUILD_RESOURCE, OUT_OF_RESOURCE, RESOURCE_NOT_FOUND, TRI_BUF_NOT_GENERATED,
};
use trimesh_bvh::vec3::{COORD_LIMIT, UNIT};
use trimesh_bvh::{BVHNode, Vec3};

fn square() -> Rc<Vec<Vec3>> {
    Rc::new(vec![
        Vec3::new(0, 0, 0),
        Vec3::new(UNIT, 0, 0),
        Vec3::new(UNIT, UNIT, 0),
        Vec3::new(0, UNIT, 0),
        Vec3::new(5 * UNIT, 5 * UNIT, 5 * UNIT),
    ])
}

#[test]
fn session_slots_run_out_and_free() {
    let mut table = BVHBuildTable::new();
    for k in 0..NUM_BVH_BUILD_RESOURCE {
        assert_eq!(table.allocate(square()), k as i64);
    }
    assert_eq!(table.allocate(square()), OUT_OF_RESOURCE);
    assert_eq!(table.dealloc(3), GOOD);
    assert_eq!(table.dealloc(3), RESOURCE_NOT_FOUND);
    assert_eq!(table.dealloc(-1), RESOURCE_NOT_FOUND);
    assert_eq!(table.dealloc(8), RESOURCE_NOT_FOUND);
    assert_eq!(table.allocate(square()), 3);
}

#[test]
fn session_errors_in_order() {
    let mut table = BVHBuildTable::new();
    assert_eq!(table.add_poly_index(0, vec![0, 1, 2]), RESOURCE_NOT_FOUND);
    assert_eq!(table.generate_tri_buf(0), RESOURCE_NOT_FOUND);
    assert_eq!(table.generate_bvh(0), RESOURCE_NOT_FOUND);
    assert_eq!(table.get_leaf_count(0), RESOURCE_NOT_FOUND);
    let id = table.allocate(square());
    assert_eq!(id, 0);
    assert_eq!(table.generate_tri_buf(id), IDX_BUF_IS_EMPTY);
    assert_eq!(table.generate_bvh(id), IDX_BUF_IS_EMPTY);
    assert_eq!(table.get_leaf_count(id), BVH_NOT_GENERATED);
    assert_eq!(table.get_block_overlap_peak(id, UNIT), BVH_NOT_GENERATED);
    assert_eq!(table.add_poly_index(id, vec![0, 1, 5]), IDX_OUT_OF_VTX_CNT);
    assert_eq!(table.add_poly_index(id, vec![0, 1, 2, 3]), GOOD);
    assert_eq!(table.generate_bvh(id), TRI_BUF_NOT_GENERATED);
    assert_eq!(table.generate_tri_buf(id), GOOD);
    assert_eq!(table.generate_bvh(id), GOOD);
    assert_eq!(table.get_leaf_count(id), 1);
    let mut leaves: Vec<Rc<BVHNode>> = Vec::new();
    assert_eq!(table.get_leaves(id, &mut leaves), 1);
    assert_eq!(leaves[0].idx_buf.len(), 2);
    assert_eq!(table.get_block_overlap_peak(id, 4 * UNIT), 1);
    assert_eq!(table.get_surface_hit_peak(id, UNIT, &Vec3::new(4 * UNIT, 4 * UNIT, 4 * UNIT)), 1);
    assert_eq!(table.get_surface_hit_peak(5, UNIT, &Vec3::new(UNIT, UNIT, UNIT)), RESOURCE_NOT_FOUND);
}

#[test]
fn session_fans_every_polygon() {
    let mut table = BVHBuildTable::new();
    let id = table.allocate(square());
    assert_eq!(table.add_poly_index(id, vec![0, 1, 2, 3]), GOOD);
    assert_eq!(table.add_poly_index(id, vec![1, 2, 4]), GOOD);
    assert_eq!(table.generate_tri_buf(id), GOOD);
    let s = table.slots[0].as_ref().unwrap();
    let got: Vec<[usize; 3]> = s.tri_buf.iter().map(|t| t.indices).collect();
    assert_eq!(got, vec![[0, 1, 2], [0, 2, 3], [1, 2, 4]]);
    assert_eq!(table.generate_bvh(id), GOOD);
    assert_eq!(table.get_leaf_count(id), 1);
}

#[test]
fn vertex_range_check() {
    assert!(vertices_fit(&vec![Vec3::new(COORD_LIMIT, -COORD_LIMIT, 0)]));
    assert!(!vertices_fit(&vec![Vec3::new(0, COORD_LIMIT + 1, 0)]));
    assert!(vertices_fit(&vec![]));
}

#[test]
fn get_leaves_appends_to_what_is_there() {
    let mut table = BVHBuildTable::new();
    let id = table.allocate(square());
    assert_eq!(table.add_poly_index(id, vec![0, 1, 2, 3]), GOOD);
    assert_eq!(table.generate_tri_buf(id), GOOD);
    let mut leaves: Vec<Rc<BVHNode>> = Vec::new();
    assert_eq!(table.get_leaves(id, &mut leaves), BVH_NOT_GENERATED);
    assert!(leaves.is_empty());
    assert_eq!(table.generate_bvh(id), GOOD);
    assert_eq!(table.get_leaves(id, &mut leaves), 1);
    assert_eq!(table.get_leaves(id, &mut leaves), 2);
    assert!(Rc::ptr_eq(&leaves[0], &leaves[1]));
    assert_eq!(table.get_leaves(7, &mut leaves), RESOURCE_NOT_FOUND);
    assert_eq!(leaves.len(), 2);
}
