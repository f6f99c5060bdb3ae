//! Images: `image`.
use image::{ColorType, ImageEncoder};
use image::codecs::png::PngEncoder;
use vstd::prelude::*;

verus! {

/// The PNG file of an image of four bytes for each of its pixels, or why it cannot be made.
pub uninterp spec fn png_file(rgba: Seq<u8>, width: u32, height: u32) -> Result<
    Seq<u8>,
    Seq<char>,
>;

/// `image::codecs::png::PngEncoder::write_image` with `Rgba8`: panics unless there are four bytes
/// for each pixel; the outcome, the text of a failure included, is a function of the bytes and the
/// size.
#[verifier::external_body]
pub(crate) fn png_encode(rgba: &[u8], width: u32, height: u32) -> (out: Result<Vec<u8>, String>)
    requires
        rgba@.len() == width * height * 4,
    ensures
        match (out, png_file(rgba@, width, height)) {
            (Ok(o), Ok(v)) => o@ == v,
            (Err(e), Err(v)) => e@ == v,
            _ => false,
        },
{
    let mut buf = Vec::new();
    match PngEncoder::new(&mut buf).write_image(rgba, width, height, ColorType::Rgba8.into()) {
        Ok(()) => Ok(buf),
        Err(e) => Err(e.to_string()),
    }
}

} // verus!
