//! Octree-backed voxel terrain core.
//!
//! A spatial index lazily materializes fixed-size voxel chunks around a
//! moving viewpoint, culls the faces that can never be seen, and merges the
//! exposed cells of a layer into larger quads for rendering. All geometry is
//! kept in integer world units; the renderer that consumes the emitted
//! buffers lives outside this crate.

pub mod block;
pub mod camera;
pub mod chunk;
pub mod gpu;
pub mod mesh;
pub mod noise;
pub mod octree;
