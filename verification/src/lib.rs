//! Decal projection for triangle meshes: which triangles of a mesh a decal
//! box covers, how a triangle crossing a face of the box is cut down to the
//! part inside it, how the pieces are laid out as a triangle list, and how
//! many decals one entity may carry.
//!
//! The geometry itself (positions, normals, dot products, interpolation)
//! is floating-point work done by the caller; this crate decides, from the
//! comparisons that work yields, what becomes of each triangle.

pub mod assembly;
pub mod clip;
pub mod decalable;
pub mod laws;
pub mod mesh;

pub use assembly::{DecalBuilder, DecalBuilderView};
pub use clip::{
    disposition, slice, Clipper, ClipperView, Cut, Disposition, Face, Side, Sides, Triangle, BOX_FACES,
    DECAL_REMOVE_BACKFACES,
};
pub use decalable::{Decalable, DECAL_MAX_PER_ENTITY};
pub use mesh::{index_triples, layout_mesh, MeshLayout};
