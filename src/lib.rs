//! A half-edge mesh built from a triangle list over a set of points, with
//! read-only queries over the finished mesh.
//!
//! `soup` describes the input and the errors it can hold, `builder` makes the
//! mesh, `query` and `fan` walk faces and vertex neighbourhoods, and `laws`
//! proves the structural properties of every mesh that `Mesh::build` returns.

pub mod builder;
pub mod fan;
pub mod laws;
pub mod mesh;
pub mod query;
pub mod soup;

pub use mesh::{Edge, Face, Halfedge, Mesh, Vertex};
pub use soup::BuildError;
