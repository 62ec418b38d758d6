pub mod components;
pub mod resources;
pub mod systems;
