//! Indexed triangle meshes: welding a triangle soup into a shared vertex list,
//! boundary-edge extraction, concatenation, linear extrusion, the bookkeeping of
//! a two-dimensional union, and the binary STL layout.
//!
//! The kernel is generic over the point type. Everything that needs coordinate
//! arithmetic (near-equality of points, lifting a point into 3D, intersecting two
//! segments) is handed in by the caller as a closure, so the topology is verified
//! for any point representation.

pub mod boolean;
pub mod control;
pub mod edges;
pub mod extrude;
pub mod mesh;
pub mod primitives;
pub mod stl;
pub mod weld;

pub use control::{AppMode, Projection, ViewKey, ViewState};
pub use mesh::IndexedTriangles;
pub use primitives::{Triangle, Triangles};
pub use stl::{encode_stl, Facet};
