//! A tangent-space (TBN basis) generator for triangle and polygon meshes.
//!
//! The algorithm follows the MikkTSpace family: faces are fan-triangulated,
//! corners are clustered into smoothing groups (a UV seam always splits a
//! group), per-corner tangent and bitangent contributions are accumulated
//! with angle weights, and the averaged basis is orthogonalized against the
//! averaged normal. All geometry is carried in fixed-point integers (scale
//! `math::FP`), so every step of the pipeline is deterministic and verified:
//! `generate_default` succeeds exactly on well-formed meshes, delivers
//! exactly one basis per corner, and its output is pinned corner by corner
//! to a mathematical function of the mesh.

pub mod math;
pub mod mesh;
pub mod tri;
pub mod cluster;
pub mod contrib;
pub mod accum;
pub mod basis;
pub mod generate;

pub use basis::Basis;
pub use generate::{generate, generate_default};
pub use math::V3;
pub use mesh::{GenError, Vertex};
