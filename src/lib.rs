pub mod clip;
pub mod geometry;
pub mod raster;
pub mod render;
pub mod world;
