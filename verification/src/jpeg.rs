//! The JPEG codec.

use crate::scans;
use vstd::prelude::*;
use zune_jpeg::errors::DecodeErrors;

verus! {

/// `zune_jpeg::errors::DecodeErrors`, why a decode failed.
#[verifier::external_type_specification]
#[verifier::external_body]
pub struct ExDecodeErrors(zune_jpeg::errors::DecodeErrors);

/// The bytes of a decoded JPEG image, row by row; none where the image cannot be
/// decoded. An image of one component has one byte for each pixel, every other
/// image has three: red, green and blue.
pub uninterp spec fn jpeg_pixels(jpg: Seq<u8>) -> Option<Seq<u8>>;

/// `zune_jpeg::JpegDecoder::new` and `decode`, with the default options: the
/// image bytes alone determine the decoded bytes, or that there is an error. The
/// vector code paths compute what the scalar one does. How an image decodes is
/// not stated. It returns from every image that is `readable`, in a release
/// build; a debug build of the decoder stops at overflows, and at data that
/// break off, which a release build passes over.
///
/// From other images it need not return. It panics where a later scan of a
/// sequential image names a Huffman table that is not defined, where the numbers
/// of samples of the components do not fit together, and where the colours of a
/// progressive image do not fit the components, unless it comes upon an error
/// first. The default options are strict: a marker inside the data of a
/// sequential image that is no restart, scan or end is an error, and so is a
/// progressive image that breaks off. `readable` asks for no less where they are
/// not strict, and a progressive image that breaks off behind a restart would
/// keep the decoder looking for another marker.
#[verifier::external_body]
pub(crate) fn decode(jpg: &[u8]) -> (r: Result<Vec<u8>, DecodeErrors>)
    requires
        scans::readable(jpg@),
    ensures
        (match r {
            Ok(rgb) => jpeg_pixels(jpg@) == Some(rgb@),
            Err(_) => jpeg_pixels(jpg@) is None,
        }),
{
    zune_jpeg::JpegDecoder::new(jpg).decode()
}

/// The JPEG image that the encoder makes of RGB bytes, with a width, a height
/// and a quality.
pub uninterp spec fn jpeg_image(rgb: Seq<u8>, width: u16, height: u16, quality: u8) -> Seq<u8>;

/// Whether RGB bytes make an image of this size.
pub open spec fn encodable(rgb: Seq<u8>, width: u16, height: u16) -> bool {
    &&& width > 0
    &&& height > 0
    &&& rgb.len() >= width * height * 3
}

/// `jpeg_encoder::Encoder::new` and `encode`, from RGB bytes into a buffer in
/// memory. It fails exactly where the image is empty or bytes are missing;
/// otherwise the bytes, the size and the quality determine the image. Which
/// bytes it has is not stated.
#[verifier::external_body]
pub(crate) fn encode(rgb: &[u8], width: u16, height: u16, quality: u8) -> (r: Option<Vec<u8>>)
    requires
        width * height * 3 <= usize::MAX,
    ensures
        (match r {
            Some(jpg) => encodable(rgb@, width, height) && jpg@ == jpeg_image(
                rgb@,
                width,
                height,
                quality,
            ),
            None => !encodable(rgb@, width, height),
        }),
{
    let mut jpg: Vec<u8> = Vec::new();
    let encoder = jpeg_encoder::Encoder::new(&mut jpg, quality);
    encoder.encode(rgb, width, height, jpeg_encoder::ColorType::Rgb).ok()?;
    Some(jpg)
}

} // verus!
