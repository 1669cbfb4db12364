pub mod color_gradient;
