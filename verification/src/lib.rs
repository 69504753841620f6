//! Triangle meshes sculpted from planar paths.
//!
//! A line is a path at an elevation. Surfaces are built from lines: the
//! ribbon spanned between two of them, the flat inside of a closed one, and
//! the roof and the gables over a spine, which is a centre line with the
//! outline of a given width around it. A sculpture is a list of surfaces;
//! its mesh is the meshes of its surfaces joined in their order.
//!
//! The paths and their operations are those of `descartes`, which works on
//! 32-bit floating-point numbers. Here such a number is held by its bit
//! pattern, a [`Number`]: it can be stored, handed on and compared exactly,
//! and what the arithmetic makes of it is asked of the floating-point unit.
//!
//! The inside of a flat surface is filled by a fill engine that the caller
//! runs. [`Sculpture::outlines`] says what has to be filled, as runs of
//! path events, and [`Sculpture::to_mesh`] takes the fills: the library
//! itself calls no fill engine, and nothing in it can fail with one.
//!
//! A mesh indexes its vertices with 16 bits. Whatever is meshed has to stay
//! within that limit; [`Sculpture::try_to_mesh`] says whether it does.
//!
//! - [`number`]: numbers and their arithmetic
//! - [`path`]: points, paths and the operations on paths
//! - [`area`]: the outlines of filled areas
//! - [`strip`]: the strip of triangles between two runs of vertices
//! - [`mesh`]: vertices and meshes, and the joining of meshes
//! - [`fill`]: the events that draw an outline, and the fill of one
//! - [`sculpt`]: lines, surfaces, spines and sculptures
//! - [`mesh_grouper`]: keyed meshes in groups of bounded size

pub mod area;
pub mod fill;
pub mod mesh;
pub mod mesh_grouper;
pub mod number;
pub mod path;
pub mod sculpt;
mod shared;
pub mod strip;

pub use crate::mesh::Instance;
pub use crate::mesh::Mesh;
pub use crate::mesh::Vertex;
pub use crate::mesh_grouper::GroupChange;
pub use crate::mesh_grouper::MeshGrouper;
pub use crate::number::Number;
pub use crate::sculpt::FlatSurface;
pub use crate::sculpt::SculptLine;
pub use crate::sculpt::Sculpture;
pub use crate::sculpt::SpannedSurface;
pub use crate::sculpt::Surface;
