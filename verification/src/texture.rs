//! Turning the bytes of a PNG file into what is uploaded to a texture.
//!
//! Decoding is the `image` crate's work. What is made of the decoded image,
//! the layout in which its rows are handed to the GPU, is decided and checked
//! here.

use vstd::prelude::*;

verus! {

/// The bytes of one RGBA texel.
pub const BYTES_PER_TEXEL: u32 = 4;

/// An image of 8-bit RGBA texels, row after row without padding in `pixels`.
#[derive(Debug, PartialEq, Eq)]
pub struct RgbaImage {
    pub width: u32,
    pub height: u32,
    pub pixels: Vec<u8>,
}

/// Why no texture comes of some bytes.
#[derive(Debug, Clone, Copy, PartialEq, Eq, Structural)]
pub enum TextureError {
    /// The bytes are no PNG image that can be decoded.
    Decode,
    /// A row of the image has more bytes than a 32-bit count holds.
    RowTooLong,
    /// The texels are not exactly `width * height` many.
    TexelCount,
}

/// A texture to create and the data to fill it with: a 2D texture of
/// `width` by `height` RGBA texels with one mip level, written in one copy
/// from `data`, in which a row takes `bytes_per_row` bytes and the image
/// `rows_per_image` rows.
#[derive(Debug, PartialEq, Eq)]
pub struct TextureUpload {
    pub label: String,
    pub width: u32,
    pub height: u32,
    pub bytes_per_row: u32,
    pub rows_per_image: u32,
    pub data: Vec<u8>,
}

impl TextureUpload {
    /// Whether this is the upload of the image of `width` by `height` texels
    /// in `pixels` under the name `label`: rows are packed, and the data are
    /// the texels.
    pub open spec fn is_upload_of(
        &self,
        width: u32,
        height: u32,
        pixels: Seq<u8>,
        label: Seq<char>,
    ) -> bool {
        &&& self.label@ == label
        &&& self.width == width
        &&& self.height == height
        &&& self.bytes_per_row == BYTES_PER_TEXEL * width
        &&& self.rows_per_image == height
        &&& self.data@ == pixels
    }

    /// Whether the data fill the texture exactly.
    pub open spec fn fills_texture(&self) -> bool {
        self.data@.len() == self.bytes_per_row * self.rows_per_image
    }

    /// The upload of a decoded image.
    pub fn new(image: RgbaImage, label: &str) -> (upload: Result<TextureUpload, TextureError>)
        ensures
            match upload {
                Ok(u) => upload_error(image.width, image.height, image.pixels@).is_none()
                    && u.is_upload_of(image.width, image.height, image.pixels@, label@)
                    && u.fills_texture(),
                Err(e) => upload_error(image.width, image.height, image.pixels@) == Some(e),
            },
    {
        if image.width > u32::MAX / BYTES_PER_TEXEL {
            return Err(TextureError::RowTooLong);
        }
        let bytes_per_row: u32 = BYTES_PER_TEXEL * image.width;
        assert(bytes_per_row * image.height <= u64::MAX) by (nonlinear_arith)
            requires
                bytes_per_row <= u32::MAX,
                image.height <= u32::MAX,
        ;
        let texture_bytes: u64 = (bytes_per_row as u64) * (image.height as u64);
        assert(texture_bytes == BYTES_PER_TEXEL * image.width * image.height) by (nonlinear_arith)
            requires
                texture_bytes == bytes_per_row * image.height,
                bytes_per_row == BYTES_PER_TEXEL * image.width,
        ;
        if image.pixels.len() as u64 != texture_bytes {
            return Err(TextureError::TexelCount);
        }
        Ok(
            TextureUpload {
                label: label.to_owned(),
                width: image.width,
                height: image.height,
                bytes_per_row,
                rows_per_image: image.height,
                data: image.pixels,
            },
        )
    }
}

/// What stands in the way of uploading an image, if anything does.
pub open spec fn upload_error(width: u32, height: u32, pixels: Seq<u8>) -> Option<TextureError> {
    if BYTES_PER_TEXEL * width > u32::MAX {
        Some(TextureError::RowTooLong)
    } else if pixels.len() != BYTES_PER_TEXEL * width * height {
        Some(TextureError::TexelCount)
    } else {
        None
    }
}

/// What the `image` crate decodes PNG bytes to, as 8-bit RGBA: width, height
/// and texels, or nothing where it reports an error.
pub uninterp spec fn png_rgba8(octets: Seq<u8>) -> Option<(u32, u32, Seq<u8>)>;

#[verifier::external_type_specification]
#[verifier::external_body]
pub struct ExImageError(image::ImageError);

/// `image::load_from_memory_with_format` for PNG, the decoded image taken as
/// RGBA with 8 bits a channel.
///
/// Trusted: the outcome depends on the bytes alone, so it has the name
/// `png_rgba8`. Nothing is claimed about which bytes decode, nor about the
/// size of what they decode to.
#[verifier::external_body]
fn decode_png(octets: &[u8]) -> (decoded: Result<RgbaImage, image::ImageError>)
    ensures
        match decoded {
            Ok(image) => png_rgba8(octets@) == Some((image.width, image.height, image.pixels@)),
            Err(_) => png_rgba8(octets@).is_none(),
        },
{
    let image = image::load_from_memory_with_format(octets, image::ImageFormat::Png)?;
    let rgba = image.to_rgba8();
    let (width, height) = rgba.dimensions();
    Ok(RgbaImage { width, height, pixels: rgba.into_raw() })
}

/// What stands in the way of a texture from what some bytes decode to.
pub open spec fn load_error(decoded: Option<(u32, u32, Seq<u8>)>) -> Option<TextureError> {
    match decoded {
        None => Some(TextureError::Decode),
        Some((width, height, pixels)) => upload_error(width, height, pixels),
    }
}

/// Decodes the bytes of a PNG file and lays the image out for upload.
pub fn load_texture_from_memory(octets: &[u8], label: &str) -> (upload: Result<
    TextureUpload,
    TextureError,
>)
    ensures
        match upload {
            Ok(u) => match png_rgba8(octets@) {
                Some((width, height, pixels)) => upload_error(width, height, pixels).is_none()
                    && u.is_upload_of(width, height, pixels, label@) && u.fills_texture(),
                None => false,
            },
            Err(e) => load_error(png_rgba8(octets@)) == Some(e),
        },
{
    match decode_png(octets) {
        Ok(image) => TextureUpload::new(image, label),
        Err(_) => Err(TextureError::Decode),
    }
}

} // verus!
