//! Procedural planet meshes: the combinatorial core of recursive triangle
//! subdivision, with every index that a mesh holds proved in bounds.
//!
//! Vertex positions are a type parameter `P`: the library carries them, the
//! caller computes them.

pub mod color;
pub mod geometry;
pub mod mesh;
pub mod planets;
pub mod presets;
pub mod processor;
pub mod subdivide;
pub mod subdivision;
pub mod subdivision_args;
pub mod subdivision_mode;
