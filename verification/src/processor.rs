pub mod finalize_normals;
pub mod vertex_operator;
