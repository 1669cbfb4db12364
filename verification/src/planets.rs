pub mod planet_builder;
