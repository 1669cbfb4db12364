pub mod radial_random_split;
pub mod red_green_split;
pub mod uniform_red_split;
