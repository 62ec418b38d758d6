use abura::renderer::sprite::{frame_cell, quad_uvs};
use abura::renderer::tilemap::TileMap;
use abura::{Handle, SpriteSheet};
use glam::Vec2;

#[test]
fn build_quad_produces_four_vertices() {
    let uv = [0.0_f32, 0.0, 1.0, 1.0];
    let verts = quad_uvs(uv, false, false);
    assert_eq!(verts.len(), 4);
}

#[test]
fn flip_x_swaps_u_coordinates() {
    let uv = [0.0_f32, 0.0, 0.5, 1.0];
    let normal = quad_uvs(uv, false, false);
    let flipped = quad_uvs(uv, true, false);
    assert!((normal[0][0] - 0.0).abs() < 1e-6);
    assert!((flipped[0][0] - 0.5).abs() < 1e-6);
}

#[test]
fn quad_uvs_corner_order_and_flips() {
    let uv = [1u32, 2, 3, 4]; // u0, v0, u1, v1
    assert_eq!(quad_uvs(uv, false, false), [[1, 4], [3, 4], [3, 2], [1, 2]]);
    assert_eq!(quad_uvs(uv, true, false), [[3, 4], [1, 4], [1, 2], [3, 2]]);
    assert_eq!(quad_uvs(uv, false, true), [[1, 2], [3, 2], [3, 4], [1, 4]]);
    assert_eq!(quad_uvs(uv, true, true), [[3, 2], [1, 2], [1, 4], [3, 4]]);
}

#[test]
fn frame_cell_first_frame_is_top_left() {
    assert_eq!(frame_cell(0, 4), (0, 0));
}

#[test]
fn frame_cell_frame_five_in_4x2_sheet() {
    assert_eq!(frame_cell(5, 4), (1, 1));
}

#[test]
fn frame_cell_frame_six_in_4x2_sheet() {
    assert_eq!(frame_cell(6, 4), (2, 1));
}

fn sheet_handle() -> Handle<SpriteSheet> {
    Handle::new(3)
}

#[test]
fn tilemap_new_is_zeroed_and_dirty() {
    let map = TileMap::new(sheet_handle(), 4, 3, Vec2::new(16.0, 16.0));
    assert_eq!(map.tiles, vec![0; 12]);
    assert_eq!((map.width, map.height), (4, 3));
    assert!(map.dirty);
    assert_eq!(map.sheet.id(), 3);
    assert_eq!(map.tile_size, Vec2::new(16.0, 16.0));
}

#[test]
fn set_tile_writes_row_major_cell() {
    let mut map = TileMap::new(sheet_handle(), 4, 3, Vec2::new(8.0, 8.0));
    map.set_tile(1, 2, 9);
    assert_eq!(map.tiles[2 * 4 + 1], 9);
    assert_eq!(map.tiles.iter().filter(|t| **t != 0).count(), 1);
}

#[test]
fn set_tile_marks_dirty_only_on_change() {
    let mut map = TileMap::new(sheet_handle(), 2, 2, Vec2::new(8.0, 8.0));
    map.dirty = false;
    map.set_tile(0, 0, 0);
    assert!(!map.dirty);
    map.set_tile(1, 1, 5);
    assert!(map.dirty);
    map.dirty = false;
    map.set_tile(1, 1, 5);
    assert!(!map.dirty);
}

use abura::renderer::pipeline::{plan_draws, sprite_batches, sprite_indices, DrawCall, MAX_SPRITES};

#[test]
fn sprite_indices_two_quads() {
    assert_eq!(sprite_indices(2), vec![0, 1, 2, 0, 2, 3, 4, 5, 6, 4, 6, 7]);
}

#[test]
fn sprite_indices_full_buffer() {
    let v = sprite_indices(MAX_SPRITES as u16);
    assert_eq!(v.len(), 6 * MAX_SPRITES);
    assert_eq!(v[v.len() - 1], 4 * (MAX_SPRITES as u16 - 1) + 3);
}

#[test]
fn sprite_batches_sorted_by_sheet() {
    let (keys, members) = sprite_batches(&vec![7, 3, 7, 9, 3, 7]);
    assert_eq!(keys, vec![3, 7, 9]);
    assert_eq!(members, vec![vec![1, 4], vec![0, 2, 5], vec![3]]);
}

#[test]
fn sprite_batches_two_sheets_lower_id_first() {
    let (keys, members) = sprite_batches(&vec![7, 3]);
    assert_eq!(keys, vec![3, 7]);
    assert_eq!(members, vec![vec![1], vec![0]]);
}

#[test]
fn sprite_batches_of_nothing() {
    let (keys, members) = sprite_batches(&vec![]);
    assert!(keys.is_empty() && members.is_empty());
}

#[test]
fn plan_draws_skips_missing_textures_and_packs_offsets() {
    let calls = plan_draws(&vec![2, 5, 1], &vec![true, false, true], 32);
    assert_eq!(
        calls,
        vec![
            DrawCall { batch: 0, byte_offset: 0, byte_size: 256, index_count: 12 },
            DrawCall { batch: 2, byte_offset: 256, byte_size: 128, index_count: 6 },
        ]
    );
}

#[test]
fn plan_draws_stops_at_the_first_batch_that_does_not_fit() {
    let calls = plan_draws(&vec![9_000, 2_000, 500], &vec![true, true, true], 32);
    assert_eq!(calls.len(), 1);
    assert_eq!(calls[0].batch, 0);
    let exact = plan_draws(&vec![9_000, 1_000, 1], &vec![true, true, true], 32);
    assert_eq!(exact.len(), 2);
    assert_eq!(exact[1].byte_offset + exact[1].byte_size, (MAX_SPRITES * 4 * 32) as u64);
}

use abura::renderer::texture::{decode_image, texture_layout, DecodedImage};

fn png_bytes(width: u32, height: u32, pixels: Vec<u8>) -> Vec<u8> {
    let img = image::RgbaImage::from_raw(width, height, pixels).unwrap();
    let mut out = std::io::Cursor::new(Vec::new());
    img.write_to(&mut out, image::ImageFormat::Png).unwrap();
    out.into_inner()
}

#[test]
fn decode_image_reads_png_pixels() {
    let pixels = vec![255, 0, 0, 255, 0, 255, 0, 128];
    let bytes = png_bytes(2, 1, pixels.clone());
    let img = decode_image(&bytes).ok().unwrap();
    assert_eq!((img.width, img.height), (2, 1));
    assert_eq!(img.pixels, pixels);
    assert_ne!(img.pixels, bytes);
}

#[test]
fn decode_image_rejects_garbage() {
    assert!(decode_image(&[1, 2, 3, 4, 5]).is_err());
}

#[test]
fn texture_layout_covers_the_pixels() {
    let img = DecodedImage { width: 3, height: 2, pixels: vec![0; 24] };
    let layout = texture_layout(&img);
    assert_eq!((layout.width, layout.height), (3, 2));
    assert_eq!((layout.bytes_per_row, layout.rows_per_image), (12, 2));
    assert_eq!((layout.bytes_per_row * layout.rows_per_image) as usize, img.pixels.len());
}
