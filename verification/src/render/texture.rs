//! Decoding texture images and laying them out for upload: the CPU side of
//! a texture, before the GPU takes it.

use vstd::prelude::*;
use image::{ImageEncoder, ImageError};

verus! {

#[verifier::external_type_specification]
#[verifier::external_body]
pub struct ExImageError(ImageError);

/// The pixels of the image that `bytes` encode, as 8-bit RGBA row by row,
/// with its width and height; `None` when `image` cannot decode the bytes.
pub uninterp spec fn decoded_rgba8(bytes: Seq<u8>) -> Option<(Seq<u8>, u32, u32)>;

/// The PNG encoding of `pixels` (8-bit RGBA, row by row) as an image of
/// `width` × `height`; `None` when `image` fails to encode it.
pub uninterp spec fn encoded_png(pixels: Seq<u8>, width: u32, height: u32) -> Option<Seq<u8>>;

/// Calls `image::load_from_memory`, which guesses the format from the bytes
/// and decodes them (within the crate's default memory limits), and
/// converts the result to 8-bit RGBA with `DynamicImage::to_rgba8`, whose
/// buffer holds exactly four bytes per pixel.
#[verifier::external_body]
fn decode_rgba8(bytes: &[u8]) -> (r: Result<(Vec<u8>, u32, u32), ImageError>)
    ensures
        r is Ok <==> decoded_rgba8(bytes@) is Some,
        r matches Ok((px, w, h)) ==> decoded_rgba8(bytes@) == Some((px@, w, h)) && px@.len() == 4 * w * h,
{
    let rgba = image::load_from_memory(bytes)?.to_rgba8();
    let (width, height) = rgba.dimensions();
    Ok((rgba.into_raw(), width, height))
}

/// Calls `image::codecs::png::PngEncoder::write_image` on an in-memory
/// buffer, which encodes `pixels` as an 8-bit RGBA PNG. It panics when the
/// buffer does not hold exactly four bytes per pixel, which `requires`
/// leaves out.
#[verifier::external_body]
fn encode_png_rgba8(pixels: &[u8], width: u32, height: u32) -> (r: Result<Vec<u8>, ImageError>)
    requires
        pixels@.len() == 4 * width * height,
    ensures
        r is Ok <==> encoded_png(pixels@, width, height) is Some,
        r matches Ok(png) ==> encoded_png(pixels@, width, height) == Some(png@),
{
    let mut buf = std::io::Cursor::new(Vec::new());
    image::codecs::png::PngEncoder::new(&mut buf).write_image(pixels, width, height, image::ColorType::Rgba8)?;
    Ok(buf.into_inner())
}

/// A decoded texture image: 8-bit RGBA pixels, row by row.
pub struct TextureImage {
    pub pixels: Vec<u8>,
    pub width: u32,
    pub height: u32,
}

/// Why a texture image could not be had.
pub enum TextureError {
    /// The bytes could not be decoded.
    Decode(ImageError),
    /// The image could not be encoded.
    Encode(ImageError),
}

/// Decodes encoded image bytes (PNG) into 8-bit RGBA pixels.
pub fn decode_texture(bytes: &[u8]) -> (r: Result<TextureImage, TextureError>)
    ensures
        r is Ok <==> decoded_rgba8(bytes@) is Some,
        r matches Ok(img) ==> decoded_rgba8(bytes@) == Some((img.pixels@, img.width, img.height)),
        r matches Ok(img) ==> img.pixels@.len() == 4 * img.width * img.height,
        r matches Err(e) ==> e is Decode,
{
    match decode_rgba8(bytes) {
        Ok((pixels, width, height)) => Ok(TextureImage { pixels, width, height }),
        Err(e) => Err(TextureError::Decode(e)),
    }
}

/// The pixels of the 1×1 white fallback texture.
pub open spec fn white_pixel() -> Seq<u8> {
    seq![255u8, 255, 255, 255]
}

/// A 1×1 white PNG, the image of the fallback texture.
pub fn white_png() -> (r: Result<Vec<u8>, TextureError>)
    ensures
        r is Ok <==> encoded_png(white_pixel(), 1, 1) is Some,
        r matches Ok(png) ==> encoded_png(white_pixel(), 1, 1) == Some(png@),
        r matches Err(e) ==> e is Encode,
{
    let pixels: Vec<u8> = vec![255u8, 255, 255, 255];
    assert(pixels@ =~= white_pixel());
    match encode_png_rgba8(pixels.as_slice(), 1, 1) {
        Ok(png) => Ok(png),
        Err(e) => Err(TextureError::Encode(e)),
    }
}

/// The layout of a texture's pixels for upload: the bytes of one row
/// (four per pixel) and the number of rows.
pub fn texture_upload_layout(width: u32, height: u32) -> (r: (u32, u32))
    requires
        4 * width <= u32::MAX,
    ensures
        r.0 == 4 * width,
        r.1 == height,
{
    (4 * width, height)
}

} // verus!
