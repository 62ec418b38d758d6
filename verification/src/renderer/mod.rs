pub mod sprite;
pub mod tilemap;
pub mod pipeline;
pub mod texture;
