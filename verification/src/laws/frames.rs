//! Frames: what a picture holds of the bytes that a camera sent.

use crate::capture::{Camera, ReadOutcome};
use crate::pixels::{
    bgra_to_rgb, decode_mjpg, decoded_to_bgra, grey_to_bgra, nv12_to_bgra, rgb_to_bgra, yuv_pixel,
    yuyv_to_bgra, FrameError,
};
use crate::{jpeg, pixels, scans};
use vstd::prelude::*;

verus! {

/// Whether BGRA bytes are these RGB pixels, opaque.
pub open spec fn shows_rgb(bgra: Seq<u8>, rgb: Seq<u8>) -> bool {
    &&& bgra.len() == rgb.len() / 3 * 4
    &&& forall|k: int|
        0 <= k < rgb.len() / 3 ==> #[trigger] bgra[4 * k] == rgb[3 * k + 2] && bgra[4 * k + 1]
            == rgb[3 * k + 1] && bgra[4 * k + 2] == rgb[3 * k] && bgra[4 * k + 3] == 255
}

/// Whether BGRA bytes are these grey pixels, opaque.
pub open spec fn shows_grey(bgra: Seq<u8>, grey: Seq<u8>) -> bool {
    &&& bgra.len() == grey.len() * 4
    &&& forall|k: int|
        0 <= k < grey.len() ==> #[trigger] bgra[4 * k] == grey[k] && bgra[4 * k + 1] == grey[k]
            && bgra[4 * k + 2] == grey[k] && bgra[4 * k + 3] == 255
}

/// Whether BGRA bytes are the decoded bytes of a JPEG image.
pub open spec fn shows_jpeg(bgra: Seq<u8>, jpg: Seq<u8>, bytes: Seq<u8>) -> bool {
    if scans::grey(jpg) {
        shows_grey(bgra, bytes)
    } else {
        shows_rgb(bgra, bytes)
    }
}

/// RGB pixels change places, one for one.
pub proof fn rgb_pixels_change_places(rgb: &[u8], dst: &mut Vec<u8>)
    requires
        call_ensures(rgb_to_bgra, (rgb, dst), ()),
    ensures
        shows_rgb(final(dst)@, rgb@),
{
    let d = final(dst)@;
    assert forall|k: int| 0 <= k < rgb@.len() / 3 implies #[trigger] d[4 * k] == rgb@[3 * k + 2]
        && d[4 * k + 1] == rgb@[3 * k + 1] && d[4 * k + 2] == rgb@[3 * k] && d[4 * k + 3]
        == 255 by {
        assert((4 * k) / 4 == k && (4 * k + 1) / 4 == k && (4 * k + 2) / 4 == k && (4 * k + 3) / 4
            == k);
    }
}

/// Grey pixels have three equal colours.
pub proof fn grey_pixels_have_equal_colours(grey: &[u8], dst: &mut Vec<u8>)
    requires
        call_ensures(grey_to_bgra, (grey, dst), ()),
    ensures
        shows_grey(final(dst)@, grey@),
{
    let d = final(dst)@;
    assert forall|k: int| 0 <= k < grey@.len() implies #[trigger] d[4 * k] == grey@[k] && d[4 * k
        + 1] == grey@[k] && d[4 * k + 2] == grey@[k] && d[4 * k + 3] == 255 by {
        assert((4 * k) / 4 == k && (4 * k + 1) / 4 == k && (4 * k + 2) / 4 == k && (4 * k + 3) / 4
            == k);
    }
}

/// The decoded bytes of an image become its picture.
pub proof fn decoded_bytes_become_a_picture(jpg: &[u8], bytes: &[u8], dst: &mut Vec<u8>)
    requires
        call_ensures(decoded_to_bgra, (jpg, bytes, dst), ()),
    ensures
        shows_jpeg(final(dst)@, jpg@, bytes@),
{
    picture_of(jpg@, bytes@);
}

proof fn picture_of(jpg: Seq<u8>, bytes: Seq<u8>)
    ensures
        shows_jpeg(pixels::decoded_as_bgra(jpg, bytes), jpg, bytes),
{
    let d = pixels::decoded_as_bgra(jpg, bytes);
    if scans::grey(jpg) {
        assert forall|k: int| 0 <= k < bytes.len() implies #[trigger] d[4 * k] == bytes[k] && d[4 * k
            + 1] == bytes[k] && d[4 * k + 2] == bytes[k] && d[4 * k + 3] == 255 by {
            assert((4 * k) / 4 == k && (4 * k + 1) / 4 == k && (4 * k + 2) / 4 == k && (4 * k + 3)
                / 4 == k);
        }
    } else {
        assert forall|k: int| 0 <= k < bytes.len() / 3 implies #[trigger] d[4 * k] == bytes[3 * k
            + 2] && d[4 * k + 1] == bytes[3 * k + 1] && d[4 * k + 2] == bytes[3 * k] && d[4 * k + 3]
            == 255 by {
            assert((4 * k) / 4 == k && (4 * k + 1) / 4 == k && (4 * k + 2) / 4 == k && (4 * k + 3)
                / 4 == k);
        }
    }
}

/// Every JPEG image that can be decoded becomes its picture, and no other is
/// refused: neither its length nor anything else counts.
pub proof fn images_become_pictures(jpg: &[u8], dst: &mut Vec<u8>, r: Result<(), FrameError>)
    requires
        call_ensures(decode_mjpg, (jpg, dst), r),
    ensures
        r is Ok <==> scans::readable(jpg@) && jpeg::jpeg_pixels(jpg@) is Some,
        r is Ok ==> shows_jpeg(final(dst)@, jpg@, jpeg::jpeg_pixels(jpg@)->0),
        r is Err ==> r == Err::<(), _>(FrameError::Jpeg) && final(dst)@ == old(dst)@,
{
    if jpeg::jpeg_pixels(jpg@) is Some {
        picture_of(jpg@, jpeg::jpeg_pixels(jpg@)->0);
    }
}

/// Whether a byte is `x / 256`, rounded down and held between 0 and 255.
pub open spec fn rounds_to(b: u8, x: int) -> bool {
    &&& b > 0 ==> 256 * b <= x
    &&& b < 255 ==> x < 256 * (b + 1)
}

/// Whether four BGRA bytes from `at` on are the pixel of a luma byte and two
/// chroma bytes: the luma from 16 on, blue after the first chroma byte and red
/// after the second.
pub open spec fn shows_yuv(bgra: Seq<u8>, at: int, y: u8, u: u8, v: u8) -> bool {
    &&& rounds_to(bgra[at], 298 * (y - 16) + 516 * (u - 128) + 128)
    &&& rounds_to(bgra[at + 1], 298 * (y - 16) - 100 * (u - 128) - 208 * (v - 128) + 128)
    &&& rounds_to(bgra[at + 2], 298 * (y - 16) + 409 * (v - 128) + 128)
    &&& bgra[at + 3] == 255
}

proof fn yuv_of(y: u8, u: u8, v: u8)
    ensures
        rounds_to(pixels::yuv_bgra(y, u, v, 0), 298 * (y - 16) + 516 * (u - 128) + 128),
        rounds_to(
            pixels::yuv_bgra(y, u, v, 1),
            298 * (y - 16) - 100 * (u - 128) - 208 * (v - 128) + 128,
        ),
        rounds_to(pixels::yuv_bgra(y, u, v, 2), 298 * (y - 16) + 409 * (v - 128) + 128),
        pixels::yuv_bgra(y, u, v, 3) == 255,
{
}

/// A pixel is appended, and nothing else changes.
pub proof fn a_pixel_is_appended(y: u8, u: u8, v: u8, dst: &mut Vec<u8>)
    requires
        call_ensures(yuv_pixel, (y, u, v, dst), ()),
    ensures
        final(dst)@.len() == old(dst)@.len() + 4,
        final(dst)@.take(old(dst)@.len() as int) == old(dst)@,
        shows_yuv(final(dst)@, old(dst)@.len() as int, y, u, v),
{
    yuv_of(y, u, v);
    assert(final(dst)@.take(old(dst)@.len() as int) =~= old(dst)@);
}

/// Whether two BGRA pixels are those of the four YUYV bytes with this number.
pub open spec fn shows_pair(bgra: Seq<u8>, src: Seq<u8>, k: int) -> bool {
    &&& shows_yuv(bgra, 8 * k, src[4 * k], src[4 * k + 1], src[4 * k + 3])
    &&& shows_yuv(bgra, 8 * k + 4, src[4 * k + 2], src[4 * k + 1], src[4 * k + 3])
}

/// Whether BGRA bytes are the pixels of YUYV bytes.
pub open spec fn shows_yuyv(bgra: Seq<u8>, src: Seq<u8>) -> bool {
    &&& bgra.len() == src.len() / 4 * 8
    &&& forall|k: int| 0 <= k < src.len() / 4 ==> #[trigger] shows_pair(bgra, src, k)
}

proof fn yuyv_byte(src: Seq<u8>, k: int, j: int)
    requires
        0 <= k < src.len() / 4,
        0 <= j < 8,
    ensures
        pixels::yuyv_as_bgra(src)[8 * k + j] == pixels::yuv_bgra(
            src[4 * k + j / 4 * 2],
            src[4 * k + 1],
            src[4 * k + 3],
            j % 4,
        ),
{
    let i = 8 * k + j;
    assert(i / 8 == k && i % 8 == j && i % 4 == j % 4);
}

proof fn yuyv_of(src: Seq<u8>)
    ensures
        shows_yuyv(pixels::yuyv_as_bgra(src), src),
{
    let d = pixels::yuyv_as_bgra(src);
    assert forall|k: int| 0 <= k < src.len() / 4 implies #[trigger] shows_pair(d, src, k) by {
        let (u, v) = (src[4 * k + 1], src[4 * k + 3]);
        yuv_of(src[4 * k], u, v);
        yuv_of(src[4 * k + 2], u, v);
        yuyv_byte(src, k, 0);
        yuyv_byte(src, k, 1);
        yuyv_byte(src, k, 2);
        yuyv_byte(src, k, 3);
        yuyv_byte(src, k, 4);
        yuyv_byte(src, k, 5);
        yuyv_byte(src, k, 6);
        yuyv_byte(src, k, 7);
    }
}

/// Every YUYV frame with two bytes for each pixel becomes its picture, and one
/// with fewer is refused.
pub proof fn yuyv_frames_become_pictures(
    src: &[u8],
    dst: &mut Vec<u8>,
    width: u32,
    height: u32,
    r: Result<(), FrameError>,
)
    requires
        call_ensures(yuyv_to_bgra, (src, dst, width, height), r),
    ensures
        width * height * 2 <= u32::MAX ==> (r is Ok <==> src@.len() >= width * height * 2),
        r is Ok ==> shows_yuyv(final(dst)@, src@),
        r is Err ==> r == Err::<(), _>(FrameError::ShortYuyv) && final(dst)@ == old(dst)@,
{
    yuyv_of(src@);
    assert(width * height * 2 >= 0) by (nonlinear_arith)
        requires
            width >= 0,
            height >= 0,
    ;
    if width * height * 2 <= u32::MAX {
        vstd::arithmetic::div_mod::lemma_small_mod(
            (width * height * 2) as nat,
            0x1_0000_0000,
        );
    }
}

/// Whether a BGRA pixel is the one in a row and a column of an NV12 frame: the
/// pairs of chroma bytes stand behind all luma bytes, one for each square of
/// four pixels.
pub open spec fn shows_place(
    bgra: Seq<u8>,
    src: Seq<u8>,
    width: u32,
    height: u32,
    row: int,
    col: int,
) -> bool {
    let p = row * width + col;
    let uv = width * height + row / 2 * width + col / 2 * 2;
    shows_yuv(bgra, 4 * p, src[p], src[uv], src[uv + 1])
}

/// Whether BGRA bytes are the pixels of an NV12 frame.
pub open spec fn shows_nv12(bgra: Seq<u8>, src: Seq<u8>, width: u32, height: u32) -> bool {
    &&& bgra.len() == width * height * 4
    &&& forall|row: int, col: int|
        0 <= row < height && 0 <= col < width ==> #[trigger] shows_place(
            bgra,
            src,
            width,
            height,
            row,
            col,
        )
}

proof fn nv12_of(src: Seq<u8>, width: u32, height: u32)
    ensures
        shows_nv12(pixels::nv12_as_bgra(src, width, height), src, width, height),
{
    let d = pixels::nv12_as_bgra(src, width, height);
    let w = width as int;
    let plane = width * height;
    assert(plane >= 0) by (nonlinear_arith)
        requires
            plane == width * height,
            width >= 0,
            height >= 0,
    ;
    assert forall|row: int, col: int|
        0 <= row < height && 0 <= col < width implies #[trigger] shows_place(
        d,
        src,
        width,
        height,
        row,
        col,
    ) by {
        let p = row * w + col;
        let uv = plane + row / 2 * w + col / 2 * 2;
        vstd::arithmetic::div_mod::lemma_fundamental_div_mod_converse(p, w, row, col);
        assert(0 <= p < plane) by (nonlinear_arith)
            requires
                p == row * w + col,
                plane == w * height,
                0 <= row < height,
                0 <= col < w,
        ;
        yuv_of(src[p], src[uv], src[uv + 1]);
        assert((4 * p) / 4 == p && (4 * p + 1) / 4 == p && (4 * p + 2) / 4 == p && (4 * p + 3) / 4
            == p);
        assert((4 * p) % 4 == 0 && (4 * p + 1) % 4 == 1 && (4 * p + 2) % 4 == 2 && (4 * p + 3) % 4
            == 3);
    }
}

/// Every NV12 frame with three bytes for two pixels becomes its picture, and
/// one with fewer is refused.
pub proof fn nv12_frames_become_pictures(
    src: &[u8],
    dst: &mut Vec<u8>,
    width: u32,
    height: u32,
    r: Result<(), FrameError>,
)
    requires
        call_ensures(nv12_to_bgra, (src, dst, width, height), r),
    ensures
        r is Ok <==> src@.len() >= width * height * 3 / 2,
        r is Ok ==> shows_nv12(final(dst)@, src@, width, height),
        r is Err ==> r == Err::<(), _>(FrameError::ShortNv12) && final(dst)@ == old(dst)@,
{
    nv12_of(src@, width, height);
}

/// A frame becomes its picture by its format: a JPEG image, YUYV or NV12.
/// Whatever gives no picture leaves the old one, and no frame is a timeout.
pub proof fn frames_become_pictures(
    cam: &Camera,
    received: Option<&[u8]>,
    dst: &mut Vec<u8>,
    r: Result<ReadOutcome, FrameError>,
)
    requires
        call_ensures(Camera::read_bgra, (cam, received, dst), r),
    ensures
        received is None ==> r == Ok::<ReadOutcome, FrameError>(ReadOutcome::Timeout),
        received is Some && r is Ok ==> r->Ok_0 == ReadOutcome::Frame,
        r != Ok::<ReadOutcome, FrameError>(ReadOutcome::Frame) ==> final(dst)@ == old(dst)@,
        received matches Some(b) ==> {
            let (w, h) = (cam.width, cam.height);
            &&& cam.fourcc@ == "MJPG"@ || cam.fourcc@ == "JPEG"@ ==> {
                &&& r is Ok <==> scans::readable(b@) && jpeg::jpeg_pixels(b@) is Some
                &&& r is Ok ==> shows_jpeg(final(dst)@, b@, jpeg::jpeg_pixels(b@)->0)
            }
            &&& cam.fourcc@ == "YUYV"@ ==> {
                &&& w * h * 2 <= u32::MAX ==> (r is Ok <==> b@.len() >= w * h * 2)
                &&& r is Ok ==> shows_yuyv(final(dst)@, b@)
            }
            &&& cam.fourcc@ == "NV12"@ ==> {
                &&& r is Ok <==> b@.len() >= w * h * 3 / 2
                &&& r is Ok ==> shows_nv12(final(dst)@, b@, w, h)
            }
            &&& r is Ok ==> cam.fourcc@ == "MJPG"@ || cam.fourcc@ == "JPEG"@ || cam.fourcc@
                == "YUYV"@ || cam.fourcc@ == "NV12"@
        },
{
    reveal_strlit("MJPG");
    reveal_strlit("JPEG");
    reveal_strlit("YUYV");
    reveal_strlit("NV12");
    assert("MJPG"@[0] == 'M' && "JPEG"@[0] == 'J' && "YUYV"@[0] == 'Y' && "NV12"@[0] == 'N');
    if let Some(b) = received {
        let (w, h) = (cam.width, cam.height);
        if jpeg::jpeg_pixels(b@) is Some {
            picture_of(b@, jpeg::jpeg_pixels(b@)->0);
        }
        yuyv_of(b@);
        nv12_of(b@, w, h);
        assert(w * h * 2 >= 0) by (nonlinear_arith)
            requires
                w >= 0,
                h >= 0,
        ;
        if w * h * 2 <= u32::MAX {
            vstd::arithmetic::div_mod::lemma_small_mod((w * h * 2) as nat, 0x1_0000_0000);
        }
    }
}

/// BGRA pixels give their colours back.
pub proof fn pixels_give_colours(src: &[u8], rgb: Vec<u8>)
    requires
        call_ensures(bgra_to_rgb, (src,), rgb),
    ensures
        rgb@.len() == src@.len() / 4 * 3,
        forall|k: int|
            0 <= k < src@.len() / 4 ==> #[trigger] rgb@[3 * k] == src@[4 * k + 2] && rgb@[3 * k + 1]
                == src@[4 * k + 1] && rgb@[3 * k + 2] == src@[4 * k],
{
    assert forall|k: int| 0 <= k < src@.len() / 4 implies #[trigger] rgb@[3 * k] == src@[4 * k + 2]
        && rgb@[3 * k + 1] == src@[4 * k + 1] && rgb@[3 * k + 2] == src@[4 * k] by {
        assert((3 * k) / 3 == k && (3 * k + 1) / 3 == k && (3 * k + 2) / 3 == k);
    }
}

/// An ordinary image is handed to the decoder, whatever its length: one of one
/// component, or of three with the usual samples, whose first scan holds all of
/// them.
pub proof fn ordinary_images_are_readable(
    jpg: &[u8],
    r: bool,
    h: crate::markers::Headers,
    l: crate::markers::Layout,
    first: crate::markers::Scan,
)
    requires
        call_ensures(scans::jpeg_readable, (jpg,), r),
        jpg@.len() >= 2 && jpg@[0] == 0xff && jpg@[1] == 0xd8,
        crate::markers::headers(jpg@, 2, crate::markers::unsaid()) == Some((h, first)),
        h.layout == Some(l),
        l.fits(jpg@),
        !l.progressive,
        crate::sampling::usual(jpg@, l),
        first.count == l.count,
    ensures
        r,
        scans::readable(jpg@),
        scans::grey(jpg@) <==> l.count == 1,
{
    scans::usual_sequences_are_readable(jpg@, h, l, first);
}

/// Bytes that do not begin as an image does are handed to the decoder, which
/// refuses them.
pub proof fn other_bytes_are_readable(jpg: &[u8], r: bool)
    requires
        call_ensures(scans::jpeg_readable, (jpg,), r),
        jpg@.len() < 2 || jpg@[0] != 0xff || jpg@[1] != 0xd8,
    ensures
        r,
{
}

} // verus!
