//! Discrete differential-geometry operators on triangulated surface meshes:
//! the cotangent Laplace-Beltrami operator (a sparse vertex-to-vertex weight
//! map) and the barycentric (lumped) mass matrix (a per-vertex area).
//!
//! The crate is generic over the scalar type: the numeric operations a
//! scalar must provide are collected in [`scalar::Scalar`], and a caller
//! supplies an implementation (typically a wrapper around a machine float).
//! Mesh connectivity is held in a shared-vertex structure with derived edge
//! and incidence tables, built from flat vertex/face arrays; the operators
//! traverse it through the [`laplacian::Laplacian`] interface.

pub mod scalar;
pub mod geom;
pub mod mesh;
pub mod laplacian;

pub use geom::opposite_angle;
pub use geom::triangle_area;
pub use geom::Vec3;
pub use laplacian::laplace_get;
pub use laplacian::Laplacian;
pub use laplacian::mesh_laplacian;
pub use laplacian::LapEntry;
pub use mesh::FromSharedVertex;
pub use mesh::MeshError;
pub use mesh::SharedVertexMeshData;
pub use mesh::TriMesh;
pub use scalar::Scalar;
