use vstd::prelude::*;

verus! {

/// What decoding `bytes` gives: width, height and RGBA bytes row by row, or
/// nothing when they are not an image in a recognised format.
pub uninterp spec fn decoded_rgba(bytes: Seq<u8>) -> Option<(u32, u32, Seq<u8>)>;

/// Relies on `image::load_from_memory`, which guesses the format from the
/// bytes and decodes them, and on `DynamicImage::to_rgba8`, whose buffer is
/// built by `ImageBuffer::new` and so holds exactly four bytes per pixel.
#[verifier::external_body]
pub(crate) fn decode_rgba(bytes: &[u8]) -> (r: Result<(u32, u32, Vec<u8>), image::ImageError>)
    ensures
        r is Ok <==> decoded_rgba(bytes@) is Some,
        r matches Ok((w, h, px)) ==> decoded_rgba(bytes@) == Some((w, h, px@)) && px@.len() == w
            * h * 4,
{
    let image = image::load_from_memory(bytes)?.to_rgba8();
    Ok((image.width(), image.height(), image.into_raw()))
}

} // verus!
