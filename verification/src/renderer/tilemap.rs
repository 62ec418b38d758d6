use glam::Vec2;
use vstd::prelude::*;
use crate::assets::Handle;
use crate::ecs::components::SpriteSheet;

verus! {

/// A 2D vector of the math library, carried through unchanged.
#[verifier::external_type_specification]
#[verifier::external_body]
pub struct ExVec2(glam::Vec2);

/// A grid of tiles drawn from a spritesheet, stored row by row.
pub struct TileMap {
    pub sheet: Handle<SpriteSheet>,
    /// Tile (spritesheet frame) of each cell, row-major.
    pub tiles: Vec<u32>,
    /// Width in tiles.
    pub width: u32,
    /// Height in tiles.
    pub height: u32,
    /// Size of one tile in world units.
    pub tile_size: Vec2,
    /// Whether the tiles changed since the map was last drawn.
    pub dirty: bool,
}

/// Position in `tiles` of the cell `(x, y)` of a map `width` tiles wide.
pub open spec fn tile_index(x: u32, y: u32, width: u32) -> int {
    y * width + x
}

impl TileMap {
    /// A `width` x `height` map with every tile 0, marked dirty.
    pub fn new(sheet: Handle<SpriteSheet>, width: u32, height: u32, tile_size: Vec2) -> (m: Self)
        requires
            width * height <= u32::MAX,
        ensures
            m.sheet@ == sheet@,
            m.tiles@ == Seq::new((width * height) as nat, |i: int| 0u32),
            m.width == width,
            m.height == height,
            m.tile_size == tile_size,
            m.dirty,
    {
        let count: u32 = width * height;
        let tiles: Vec<u32> = vec![0; count as usize];
        assert(tiles@ =~= Seq::new((width * height) as nat, |i: int| 0u32));
        TileMap { sheet, tiles, width, height, tile_size, dirty: true }
    }

    /// Sets the tile at cell `(x, y)`; the map becomes dirty only when the
    /// tile actually changes.
    pub fn set_tile(&mut self, x: u32, y: u32, tile: u32)
        requires
            tile_index(x, y, old(self).width) <= u32::MAX,
            tile_index(x, y, old(self).width) < old(self).tiles@.len(),
        ensures
            final(self).tiles@ == old(self).tiles@.update(tile_index(x, y, old(self).width), tile),
            final(self).dirty == (old(self).dirty || old(self).tiles@[tile_index(x, y, old(self).width)] != tile),
            final(self).sheet == old(self).sheet,
            final(self).width == old(self).width,
            final(self).height == old(self).height,
            final(self).tile_size == old(self).tile_size,
    {
        assert(y * self.width <= y * self.width + x);
        let idx = (y * self.width + x) as usize;
        if self.tiles[idx] != tile {
            self.tiles[idx] = tile;
            self.dirty = true;
        } else {
            assert(self.tiles@ =~= old(self).tiles@.update(idx as int, tile));
        }
    }
}

} // verus!
