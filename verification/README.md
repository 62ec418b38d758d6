# abura

A minimal 2D game engine, split in two crates:

- `src/` — the library, written and proved in Verus: the asset registry
  (`assets`), button state of keyboard, mouse and gamepad (`input`),
  spritesheets, tags and animation clip selection (`ecs::components`),
  collision pair bookkeeping (`ecs::resources`), animation frame stepping
  (`ecs::systems`), and the integer side of rendering: frame grid cells,
  quad texture corners, the index buffer, sprite batching by sheet, the draw
  plan, texture decoding with its upload layout, and tile maps (`renderer`).
- `app/` — ordinary Rust around it: the floating-point components and
  systems (transforms, velocities, gravity, the AABB test, frame timers),
  the winit event loop, the wgpu renderer and GPU uploads, and the `App`
  scheduler.
