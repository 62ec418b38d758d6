//! Abura: the verified core of a small 2D game engine.
//!
//! The library holds the engine's integer and set logic: the asset registry,
//! keyboard / mouse / gamepad button state, spritesheet grid arithmetic,
//! animation clip selection and frame stepping, collision pair bookkeeping,
//! sprite batching, the index buffer and draw plan of the renderer, texture
//! decoding and upload layout, and tile maps.
pub mod assets;
pub mod ecs;
pub mod input;
pub mod renderer;

pub use assets::{AssetServer, Handle};
pub use ecs::components::{Animator, SpriteSheet, Tag};
pub use ecs::resources::CollisionEvents;
pub use ecs::systems::advance_frame;
pub use input::{GamepadState, InputState, KeyboardState, MouseState};
