use vstd::prelude::*;

verus! {

/// The error the image library reports when it cannot decode bytes.
#[verifier::external_type_specification]
#[verifier::external_body]
pub struct ExImageError(image::ImageError);

/// The image that the bytes of an encoded file (PNG or JPEG) decode to, as
/// `(width, height, pixels)` with 8-bit RGBA pixels row by row; `None` when
/// they do not decode.
pub uninterp spec fn decoded_rgba8(bytes: Seq<u8>) -> Option<(u32, u32, Seq<u8>)>;

/// Decodes `bytes` with `image::load_from_memory` and converts the image to
/// 8-bit RGBA with `DynamicImage::to_rgba8`. Claimed: on success the result
/// is `decoded_rgba8(bytes)`, a pure function of the bytes, and the pixel
/// buffer holds exactly four bytes per pixel; on failure `decoded_rgba8`
/// gives `None`.
#[verifier::external_body]
fn load_rgba8(bytes: &[u8]) -> (r: Result<(u32, u32, Vec<u8>), image::ImageError>)
    ensures
        match r {
            Ok((w, h, px)) => decoded_rgba8(bytes@) == Some((w, h, px@)) && px@.len() == 4 * w * h,
            Err(_) => decoded_rgba8(bytes@) is None,
        },
{
    match image::load_from_memory(bytes) {
        Ok(img) => {
            let rgba = img.to_rgba8();
            let (w, h) = rgba.dimensions();
            Ok((w, h, rgba.into_raw()))
        },
        Err(e) => Err(e),
    }
}

/// A decoded texture: `width` x `height` pixels of four bytes (RGBA) each,
/// row by row.
pub struct DecodedImage {
    pub width: u32,
    pub height: u32,
    pub pixels: Vec<u8>,
}

/// Why a texture could not be prepared.
pub enum TextureError {
    /// The bytes are not an image the decoder reads.
    Decode(image::ImageError),
}

/// Decodes an encoded image file into RGBA pixels.
pub fn decode_image(bytes: &[u8]) -> (r: Result<DecodedImage, TextureError>)
    ensures
        match r {
            Ok(img) => {
                &&& decoded_rgba8(bytes@) == Some((img.width, img.height, img.pixels@))
                &&& img.pixels@.len() == 4 * img.width * img.height
            },
            Err(_) => decoded_rgba8(bytes@) is None,
        },
{
    match load_rgba8(bytes) {
        Ok((width, height, pixels)) => Ok(DecodedImage { width, height, pixels }),
        Err(e) => Err(TextureError::Decode(e)),
    }
}

/// How a decoded image is laid out for upload: its size and the bytes per
/// row and rows per image of its pixel buffer.
#[derive(Debug, Clone, Copy, PartialEq, Eq, Structural)]
pub struct TextureLayout {
    pub width: u32,
    pub height: u32,
    pub bytes_per_row: u32,
    pub rows_per_image: u32,
}

/// The upload layout of `img`: rows of `4 * width` bytes, `height` rows.
/// For a buffer of four bytes per pixel the layout covers it exactly.
pub fn texture_layout(img: &DecodedImage) -> (r: TextureLayout)
    requires
        4 * img.width <= u32::MAX,
    ensures
        r.width == img.width,
        r.height == img.height,
        r.bytes_per_row == 4 * img.width,
        r.rows_per_image == img.height,
        img.pixels@.len() == 4 * img.width * img.height ==>
            r.bytes_per_row * r.rows_per_image == img.pixels@.len(),
{
    let r = TextureLayout {
        width: img.width,
        height: img.height,
        bytes_per_row: 4 * img.width,
        rows_per_image: img.height,
    };
    assert(4 * img.width * img.height == (4 * img.width) * img.height) by (nonlinear_arith);
    r
}

} // verus!
