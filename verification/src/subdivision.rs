pub mod edge;
pub mod seed;
pub mod steps;
pub mod strategies;
pub mod subdivide;
pub mod subdivision_args;
pub mod subdivision_mode;
