//! JPEG encoding and decoding of 8-bit RGB images.
use vstd::prelude::*;

use crate::error::EngineError;

verus! {

/// An 8-bit RGB image: row-major samples, three per pixel.
pub struct Rgb8Image {
    pub pixels: Vec<u8>,
    pub width: u32,
    pub height: u32,
}

/// What the `image` crate decodes a byte string to (samples, width, height),
/// or `None` when it cannot.
pub uninterp spec fn decoded_rgb8(bytes: Seq<u8>) -> Option<(Seq<u8>, u32, u32)>;

/// The JPEG that the `image` crate's encoder writes for the first
/// `3 * width * height` samples at a quality, or `None` when it fails.
pub uninterp spec fn jpeg_encoding(pixels: Seq<u8>, width: u32, height: u32, quality: u8) -> Option<Seq<u8>>;

/// The `image` crate's `ImageError`, carried through opaquely.
#[verifier::external_type_specification]
#[verifier::external_body]
pub struct ExImageError(image::ImageError);

/// Calls `image::ImageReader::decode` on a reader over the bytes with the format
/// guessed from them, and converts the picture to 8-bit RGB. Claimed: the
/// outcome is the value named `decoded_rgb8`, and an RGB buffer holds exactly
/// three samples per pixel.
#[verifier::external_body]
fn decode_rgb8(bytes: &[u8]) -> (r: Result<(Vec<u8>, u32, u32), image::ImageError>)
    ensures
        r is Ok <==> decoded_rgb8(bytes@) is Some,
        r is Ok ==> (r->Ok_0.0@, r->Ok_0.1, r->Ok_0.2) == decoded_rgb8(bytes@)->0,
        r is Ok ==> r->Ok_0.0@.len() == 3 * r->Ok_0.1 * r->Ok_0.2,
{
    let reader = image::ImageReader::new(std::io::Cursor::new(bytes)).with_guessed_format()?;
    let rgb = reader.decode()?.into_rgb8();
    let (w, h) = rgb.dimensions();
    Ok((rgb.into_raw(), w, h))
}

/// Calls `image::codecs::jpeg::JpegEncoder::encode_image` at `quality` on the
/// RGB image that `RgbImage::from_raw` makes of the samples (which it does when
/// they are at least `3 * width * height`). Claimed: the outcome is the value
/// named `jpeg_encoding`.
#[verifier::external_body]
fn jpeg_encode(pixels: Vec<u8>, width: u32, height: u32, quality: u8) -> (r: Result<Vec<u8>, image::ImageError>)
    requires
        3 * width * height <= pixels@.len(),
    ensures
        r is Ok <==> jpeg_encoding(pixels@, width, height, quality) is Some,
        r is Ok ==> r->Ok_0@ == jpeg_encoding(pixels@, width, height, quality)->0,
{
    let rgb = match image::RgbImage::from_raw(width, height, pixels) {
        Some(rgb) => rgb,
        None => return Err(image::ImageError::Parameter(image::error::ParameterError::from_kind(
            image::error::ParameterErrorKind::DimensionMismatch,
        ))),
    };
    let mut buf = Vec::new();
    image::codecs::jpeg::JpegEncoder::new_with_quality(&mut buf, quality).encode_image(&rgb)?;
    Ok(buf)
}

/// Calls `ToString::to_string` on an `image::ImageError`, giving its message;
/// nothing is claimed of the text.
#[verifier::external_body]
fn image_error_message(e: &image::ImageError) -> String {
    e.to_string()
}

/// Decodes a JPEG (or any other format the decoder recognises) to 8-bit RGB;
/// a refusal carries the decoder's message.
pub fn decode_jpeg_rgb8(jpeg: &[u8]) -> (r: Result<Rgb8Image, EngineError>)
    ensures
        r is Ok <==> decoded_rgb8(jpeg@) is Some,
        r is Ok ==> (r->Ok_0.pixels@, r->Ok_0.width, r->Ok_0.height) == decoded_rgb8(jpeg@)->0,
        r is Ok ==> r->Ok_0.pixels@.len() == 3 * r->Ok_0.width * r->Ok_0.height,
        r is Err ==> r->Err_0 is Codec,
{
    match decode_rgb8(jpeg) {
        Ok((pixels, width, height)) => Ok(Rgb8Image { pixels, width, height }),
        Err(e) => Err(EngineError::Codec(image_error_message(&e))),
    }
}

/// Whether `len` samples hold a `width` by `height` RGB image, the sample count
/// computed within the address space (three times the width first).
pub open spec fn rgb8_fits(width: u32, height: u32, len: int) -> bool {
    3 * width <= usize::MAX && 3 * width * height <= len
}

/// Encodes 8-bit RGB samples of a `width` by `height` image as a JPEG. Samples
/// that do not hold the image are refused before encoding.
pub fn encode_rgb8_jpeg(pixels: Vec<u8>, width: u32, height: u32, quality: u8) -> (r: Result<Vec<u8>, EngineError>)
    ensures
        !rgb8_fits(width, height, pixels@.len() as int) ==> r == Err::<Vec<u8>, EngineError>(
            EngineError::BufferTooSmall,
        ),
        rgb8_fits(width, height, pixels@.len() as int) ==> match r {
            Ok(bytes) => jpeg_encoding(pixels@, width, height, quality) == Some(bytes@),
            Err(e) => e is Codec && jpeg_encoding(pixels@, width, height, quality) is None,
        },
{
    let w = width as usize;
    let h = height as usize;
    let len = pixels.len();
    let needed = match 3usize.checked_mul(w) {
        Some(a) => a.checked_mul(h),
        None => None,
    };
    match needed {
        Some(n) if n <= len => {
            assert(3 * width * height == n);
            match jpeg_encode(pixels, width, height, quality) {
                Ok(bytes) => Ok(bytes),
                Err(e) => Err(EngineError::Codec(image_error_message(&e))),
            }
        },
        _ => {
            Err(EngineError::BufferTooSmall)
        },
    }
}

} // verus!
