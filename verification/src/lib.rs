pub mod array2d;
pub mod geometry;
pub mod geometry3;
pub mod image;
pub mod loader;
pub mod scene;
