pub mod preset;
