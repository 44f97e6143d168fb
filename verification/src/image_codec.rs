//! PNG decoding and encoding provided by the `image` crate.

use vstd::prelude::*;

verus! {

/// Width, height and interleaved RGBA8 samples of the image that
/// `image::load_from_memory_with_format(png, ImageFormat::Png)` decodes,
/// converted with `to_rgba8`; `None` when decoding fails.
pub uninterp spec fn png_rgba(png: Seq<u8>) -> Option<(u32, u32, Seq<u8>)>;

/// Calls `image::load_from_memory_with_format` and `DynamicImage::to_rgba8`.
/// Trusted: succeeds exactly when the named `png_rgba` is `Some` and returns
/// its width, height and samples. The error text is not described.
#[verifier::external_body]
pub(crate) fn decode_png_rgba(png: &[u8]) -> (result: Result<(u32, u32, Vec<u8>), String>)
    ensures
        result is Ok <==> png_rgba(png@) is Some,
        result matches Ok((w, h, px)) ==> png_rgba(png@) == Some((w, h, px@)),
{
    match image::load_from_memory_with_format(png, image::ImageFormat::Png) {
        Ok(decoded) => {
            let rgba = decoded.to_rgba8();
            let (width, height) = rgba.dimensions();
            Ok((width, height, rgba.into_raw()))
        },
        Err(error) => Err(error.to_string()),
    }
}

/// The PNG file that `image` writes for an RGBA8 image of the given size and
/// samples (built with `RgbaImage::from_raw` and written with
/// `DynamicImage::write_to` as PNG); `None` when either step fails.
pub uninterp spec fn png_encoding(width: u32, height: u32, rgba: Seq<u8>) -> Option<Seq<u8>>;

/// Calls `RgbaImage::from_raw` and `DynamicImage::write_to(.., ImageFormat::Png)`.
/// Trusted: succeeds exactly when the named `png_encoding` is `Some` and
/// returns those bytes. The error text is not described.
#[verifier::external_body]
pub(crate) fn encode_png_rgba(width: u32, height: u32, rgba: Vec<u8>) -> (result: Result<Vec<u8>, String>)
    ensures
        result is Ok <==> png_encoding(width, height, rgba@) is Some,
        result matches Ok(png) ==> png_encoding(width, height, rgba@) == Some(png@),
{
    let Some(image) = image::RgbaImage::from_raw(width, height, rgba) else {
        return Err("RGBA sample buffer does not match the image size".to_owned());
    };
    let mut output = std::io::Cursor::new(Vec::new());
    match image::DynamicImage::ImageRgba8(image).write_to(&mut output, image::ImageFormat::Png) {
        Ok(()) => Ok(output.into_inner()),
        Err(error) => Err(error.to_string()),
    }
}

} // verus!
