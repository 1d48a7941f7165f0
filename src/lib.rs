pub mod aabb;
pub mod bvh;
pub mod poly;
pub mod probe;
pub mod query;
pub mod session;
pub mod tri;
pub mod vec3;

pub use aabb::{AABBSplitAxis, AABB};
pub use bvh::{BVHNode, BVHSubdivideConfig};
pub use query::BVHNodeIntersectionResult;
pub use poly::{IndexedPoly, Poly, PolyIndex};
pub use tri::{IndexedTri, Tri, TriIndex};
pub use vec3::Vec3;
