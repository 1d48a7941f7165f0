use trimesh_bvh::aabb::AABB;
use trimesh_bvh::vec3::isqrt;
use trimesh_bvh::{AABBSplitAxis, IndexedTri, Tri, TriIndex, Vec3};
use std::rc::Rc;

fn bx(a: (i64, i64, i64), b: (i64, i64, i64)) -> AABB {
    AABB::new(&Vec3::new(a.0, a.1, a.2), &Vec3::new(b.0, b.1, b.2))
}

#[test]
fn vec3_min_max() {
    let a = Vec3::new(1, 5, -3);
    let b = Vec3::new(2, -4, -3);
    let c = Vec3::new(0, 7, 9);
    assert_eq!(Vec3::min(&a, &b), Vec3::new(1, -4, -3));
    assert_eq!(Vec3::max(&a, &b), Vec3::new(2, 5, -3));
    assert_eq!(Vec3::min3(&a, &b, &c), Vec3::new(0, -4, -3));
    assert_eq!(Vec3::max3(&a, &b, &c), Vec3::new(2, 7, 9));
    assert_eq!(Vec3::default(), Vec3::new(0, 0, 0));
}

#[test]
fn vec3_dot_and_distance() {
    let a = Vec3::new(1, 2, 3);
    let b = Vec3::new(4, -5, 6);
    assert_eq!(a.dot(&b), 4 - 10 + 18);
    assert_eq!(Vec3::new(0, 0, 0).distance_to(&Vec3::new(3, 4, 0)), 5);
    assert_eq!(Vec3::new(0, 0, 0).distance_to(&Vec3::new(1, 1, 1)), 1);
    assert_eq!(Vec3::new(0, 0, 0).distance2_to(&Vec3::new(1, 1, 1)), 3);
    assert_eq!(isqrt(99), 9);
    assert_eq!(isqrt(100), 10);
    assert_eq!(isqrt(0), 0);
}

#[test]
fn aabb_from_points() {
    let empty = AABB::from_points(&[]);
    assert_eq!(empty, AABB::default());
    assert_eq!(empty.min, Vec3::new(0, 0, 0));
    let pts = [Vec3::new(1, 2, 3), Vec3::new(-1, 5, 0), Vec3::new(4, -2, 1)];
    let b = AABB::from_points(&pts);
    assert_eq!(b, bx((-1, -2, 0), (4, 5, 3)));
    assert_eq!(AABB::from_point3(&pts[0], &pts[1], &pts[2]), b);
}

#[test]
fn aabb_point_in_ignores_z() {
    let b = bx((0, 0, 0), (10, 10, 10));
    assert!(b.point_in_aabb(&Vec3::new(0, 10, 5)));
    assert!(!b.point_in_aabb(&Vec3::new(-1, 5, 5)));
    assert!(!b.point_in_aabb(&Vec3::new(5, 11, 5)));
    assert!(b.point_in_aabb(&Vec3::new(5, 5, 100)));
}

#[test]
fn aabb_intersection_is_symmetric() {
    let a = bx((0, 0, 0), (10, 10, 10));
    let touching = bx((10, 0, 0), (20, 10, 10));
    let apart = bx((0, 0, 11), (5, 5, 20));
    let inside = bx((2, 2, 2), (3, 3, 3));
    for (p, q, want) in [(a, touching, true), (a, apart, false), (a, inside, true), (touching, apart, false)] {
        assert_eq!(p.intersect_with_aabb(&q), want);
        assert_eq!(q.intersect_with_aabb(&p), want);
    }
}

#[test]
fn aabb_extent_center_split() {
    let b = bx((0, -4, 2), (10, 4, 7));
    assert_eq!(b.extent(), Vec3::new(10, 8, 5));
    assert_eq!(b.center(), Vec3::new(5, 0, 4));
    let (pos, neg) = b.split(AABBSplitAxis::X);
    assert_eq!(pos, bx((5, -4, 2), (10, 4, 7)));
    assert_eq!(neg, bx((0, -4, 2), (5, 4, 7)));
    let (pos, neg) = b.split(AABBSplitAxis::Z);
    assert_eq!(pos, bx((0, -4, 4), (10, 4, 7)));
    assert_eq!(neg, bx((0, -4, 2), (10, 4, 4)));
}

#[test]
fn aabb_largest_axis_ties() {
    assert_eq!(bx((0, 0, 0), (1, 2, 3)).largest_axis(), AABBSplitAxis::Z);
    assert_eq!(bx((0, 0, 0), (3, 3, 3)).largest_axis(), AABBSplitAxis::X);
    assert_eq!(bx((0, 0, 0), (1, 3, 3)).largest_axis(), AABBSplitAxis::Y);
    assert_eq!(bx((0, 0, 0), (4, 3, 1)).largest_axis(), AABBSplitAxis::X);
}

#[test]
fn aabb_normalize_and_expand() {
    let mut b = bx((0, 0, 0), (10, 4, 2));
    b.normalize();
    assert_eq!(b, bx((0, -3, -4), (10, 7, 6)));
    let mut e = bx((0, 0, 0), (10, 10, 10));
    e.expand(&Vec3::new(4, 0, -2));
    assert_eq!(e, bx((-2, 0, 1), (12, 10, 9)));
}

#[test]
fn triangles_resolve_their_points() {
    let vtx = Rc::new(vec![Vec3::new(0, 0, 0), Vec3::new(1, 0, 0), Vec3::new(0, 1, 0)]);
    let t = TriIndex::new(2, 0, 1);
    let tri = t.to_tri(vtx.clone());
    assert_eq!(tri, Tri::new(&Vec3::new(0, 1, 0), &Vec3::new(0, 0, 0), &Vec3::new(1, 0, 0)));
    let it = t.to_indexed_tri(vtx.clone());
    assert_eq!(it.indices, [2, 0, 1]);
    assert_eq!(it.to_tri(), tri);
    let it2 = IndexedTri::new(vtx, 1, 2, 0);
    assert_eq!(it2.to_tri().pt0, Vec3::new(1, 0, 0));
}

#[test]
fn vec3_length_and_normalize() {
    assert_eq!(Vec3::new(3000, 4000, 0).length(), 5000);
    let mut a = Vec3::new(3000, 4000, 0);
    a.normalize();
    assert_eq!(a, Vec3::new(600, 800, 0));
    let mut z = Vec3::new(0, 0, 0);
    z.normalize();
    assert_eq!(z, Vec3::new(0, 0, 0));
    let mut neg = Vec3::new(0, -7, 0);
    neg.normalize();
    assert_eq!(neg, Vec3::new(0, -1000, 0));
}

#[test]
fn vec3_direction_and_move() {
    let a = Vec3::new(1000, 1000, 1000);
    let b = Vec3::new(1000, 1000, 6000);
    let d = a.direction_to(&b);
    assert_eq!(d, Vec3::new(0, 0, 1000));
    let mut p = a;
    p.move_towards(&d, 2500);
    assert_eq!(p, Vec3::new(1000, 1000, 3500));
    let mut q = Vec3::new(0, 0, 0);
    q.move_towards(&Vec3::new(-600, 800, 0), 5);
    assert_eq!(q, Vec3::new(-3, 4, 0));
}

#[test]
fn aabb_center_of_inverted_box() {
    let b = bx((10, 3, -4), (0, -3, 4));
    assert_eq!(b.center(), Vec3::new(5, 0, 0));
    let (pos, neg) = b.split(AABBSplitAxis::X);
    assert_eq!(pos, bx((5, 3, -4), (0, -3, 4)));
    assert_eq!(neg, bx((10, 3, -4), (5, -3, 4)));
}
