pub mod edge;
pub mod face;
pub mod mesh;
pub mod vertex;
pub mod orientation;
