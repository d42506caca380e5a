pub mod batch;
pub mod depth_sort;
pub mod frame;
pub mod geometry;
pub mod render;
pub mod sprite;
pub mod texture;
pub mod window;
