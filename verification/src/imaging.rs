//! The image pipeline: decode a payload of any supported container (PNG,
//! JPEG, GIF) by sniffing its format, and re-encode it as PNG. The
//! conversion is pure byte-in, byte-out work; writing the result to disk is
//! the caller's business.
use vstd::prelude::*;

verus! {

/// Whether `image::load_from_memory` decodes these bytes: format sniffing
/// and decoding depend on the bytes alone.
pub uninterp spec fn image_decodable(data: Seq<u8>) -> bool;

/// The PNG that a decodable payload re-encodes to: a function of the payload
/// bytes alone.
pub uninterp spec fn png_of(data: Seq<u8>) -> Seq<u8>;

/// The pixel dimensions (width, height) of the image a decodable payload
/// holds: a function of the payload bytes alone.
pub uninterp spec fn image_dims(data: Seq<u8>) -> (nat, nat);

/// Relies on image::load_from_memory and DynamicImage::write_to with the PNG
/// format. Decoding guesses the container from the bytes and succeeds on the
/// bytes alone. Re-encoding then always succeeds: `write_to` converts the
/// image to a colour type the PNG encoder accepts, and the in-memory writer
/// cannot fail. The PNG written is itself a valid, decodable image with the
/// source's pixel dimensions.
#[verifier::external_body]
fn render_png(data: &[u8]) -> (r: Option<Vec<u8>>)
    ensures
        r is Some <==> image_decodable(data@),
        r matches Some(p) ==> p@ == png_of(data@) && image_decodable(png_of(data@)) && image_dims(
            png_of(data@),
        ) == image_dims(data@),
{
    let img = image::load_from_memory(data).ok()?;
    let mut buf = std::io::Cursor::new(Vec::new());
    img.write_to(&mut buf, image::ImageFormat::Png).ok()?;
    Some(buf.into_inner())
}

/// Why an image payload produced no PNG.
#[derive(Debug, PartialEq, Eq, Clone, Copy)]
pub enum ImageError {
    /// The payload bytes are not a decodable image; nothing is written.
    DecodeFailed,
}

/// Decodes an image payload and re-encodes it as PNG: succeeds exactly on
/// the decodable payloads and returns their PNG rendering, which is itself a
/// decodable image with the source's pixel dimensions — the stored artifact
/// keeps the picture's size.
pub fn convert_to_png(data: &[u8]) -> (r: Result<Vec<u8>, ImageError>)
    ensures
        r is Ok <==> image_decodable(data@),
        r matches Ok(p) ==> p@ == png_of(data@) && image_decodable(png_of(data@)) && image_dims(
            png_of(data@),
        ) == image_dims(data@),
        r matches Err(e) ==> e == ImageError::DecodeFailed && !image_decodable(data@),
{
    match render_png(data) {
        Some(png) => Ok(png),
        None => Err(ImageError::DecodeFailed),
    }
}

} // verus!
