//! The preview stream of the control panel: each frame made smaller, encoded,
//! and put into a part of a multipart answer.

use crate::engine::Frame;
use crate::pixels::{bgra_to_rgb, downscale_bgra};
use crate::text::{append, copy};
use crate::{engine, jpeg, pixels, text};
use vstd::prelude::*;
use vstd::utf8;

verus! {

/// The width that a preview does not exceed.
pub const PREVIEW_MAX_WIDTH: u32 = 960;

/// The quality of the preview images.
pub const PREVIEW_QUALITY: u8 = 80;

/// The time between two preview images, in milliseconds.
pub const PREVIEW_INTERVAL: u64 = 100;

/// By how much a frame is made smaller: the least factor that brings it within
/// the width.
pub open spec fn shrink_factor(width: u32) -> int {
    (width + PREVIEW_MAX_WIDTH - 1) / PREVIEW_MAX_WIDTH as int
}

/// The preview image of a frame, in BGRA.
pub open spec fn small_image(f: engine::FrameView) -> engine::FrameView {
    let k = shrink_factor(f.width);
    if k > 1 {
        engine::FrameView {
            width: (f.width as int / k) as u32,
            height: (f.height as int / k) as u32,
            bgra: pixels::shrunk(f.bgra, f.width, f.height, k as u32),
        }
    } else {
        f
    }
}

/// Whether a frame can be shown: where it has to be made smaller, it has all
/// its bytes; and what is encoded fits the memory.
pub open spec fn showable(f: engine::FrameView) -> bool {
    let k = shrink_factor(f.width);
    let small = small_image(f);
    &&& k > 1 ==> pixels::shrinkable(f.bgra.len(), f.width, f.height, k as u32)
    &&& side(small.width) * side(small.height) * 3 <= usize::MAX
}

/// Whether a frame can be shown.
pub fn can_show(f: &Frame) -> (r: bool)
    ensures
        r == showable(f@),
{
    let k = factor_for(f.width);
    let (w, h) = if k > 1 {
        (f.width / k, f.height / k)
    } else {
        (f.width, f.height)
    };
    let w = w % 0x1_0000;
    let h = h % 0x1_0000;
    proof {
        assert(0 <= w * h <= 0xffff * 0xffff) by (nonlinear_arith)
            requires
                0 <= w <= 0xffff,
                0 <= h <= 0xffff,
        ;
    }
    let fits = w as u128 * h as u128 * 3 <= usize::MAX as u128;
    fits && (k <= 1 || pixels::can_shrink(f.bgra.len(), f.width, f.height, k))
}

fn factor_for(width: u32) -> (k: u32)
    ensures
        k == shrink_factor(width),
{
    ((width as u64 + (PREVIEW_MAX_WIDTH - 1) as u64) / PREVIEW_MAX_WIDTH as u64) as u32
}

/// The head of the part that holds an image of so many bytes.
pub open spec fn part_head(len: nat) -> Seq<char> {
    "--lancam\r\nContent-Type: image/jpeg\r\nContent-Length: "@ + text::decimal(len)
        + "\r\n\r\n"@
}

/// The part that holds an image.
pub open spec fn part(jpg: Seq<u8>) -> Seq<u8> {
    utf8::encode_utf8(part_head(jpg.len())) + jpg + seq![13u8, 10u8]
}

/// The lower 16 bits of a side, which is what the encoder takes.
pub open spec fn side(n: u32) -> u16 {
    (n % 0x1_0000) as u16
}

/// The JPEG image for a BGRA image; none where it is empty or too short.
pub open spec fn encoded(f: engine::FrameView) -> Option<Seq<u8>> {
    let rgb = pixels::bgra_as_rgb(f.bgra);
    if jpeg::encodable(rgb, side(f.width), side(f.height)) {
        Some(jpeg::jpeg_image(rgb, side(f.width), side(f.height), PREVIEW_QUALITY))
    } else {
        None
    }
}

/// The part of the preview stream for a frame.
pub open spec fn shown(f: engine::FrameView) -> Option<Seq<u8>> {
    match encoded(small_image(f)) {
        Some(jpg) => Some(part(jpg)),
        None => None,
    }
}

/// Puts an encoded image into its part.
pub fn wrap_image(jpg: &Vec<u8>) -> (out: Vec<u8>)
    ensures
        out@ == part(jpg@),
{
    let mut head = copy("--lancam\r\nContent-Type: image/jpeg\r\nContent-Length: ");
    append(&mut head, text::write_decimal(jpg.len() as u64).as_str());
    append(&mut head, "\r\n\r\n");
    let bytes = head.as_str().as_bytes();
    let mut out: Vec<u8> = Vec::new();
    push_all(&mut out, bytes);
    push_all(&mut out, jpg.as_slice());
    out.push(13);
    out.push(10);
    assert(out@ =~= part(jpg@));
    out
}

fn push_all(out: &mut Vec<u8>, more: &[u8])
    ensures
        final(out)@ == old(out)@ + more@,
{
    let ghost before = out@;
    let mut i: usize = 0;
    while i < more.len()
        invariant
            i <= more@.len(),
            out@ =~= before + more@.take(i as int),
        decreases more.len() - i,
    {
        out.push(more[i]);
        i += 1;
    }
    assert(out@ =~= before + more@);
}

/// Encodes a BGRA image.
fn encode_image(width: u32, height: u32, bgra: &[u8]) -> (r: Option<Vec<u8>>)
    requires
        side(width) * side(height) * 3 <= usize::MAX,
    ensures
        (match r {
            Some(jpg) => encoded(engine::FrameView { width, height, bgra: bgra@ }) == Some(jpg@),
            None => encoded(engine::FrameView { width, height, bgra: bgra@ }) is None,
        }),
{
    let rgb = bgra_to_rgb(bgra);
    let w = (width % 0x1_0000) as u16;
    let h = (height % 0x1_0000) as u16;
    jpeg::encode(rgb.as_slice(), w, h, PREVIEW_QUALITY)
}

/// The part of the preview stream for a frame; none where it cannot be encoded.
pub fn preview_part(f: &Frame) -> (r: Option<Vec<u8>>)
    requires
        showable(f@),
    ensures
        (match r {
            Some(out) => shown(f@) == Some(out@),
            None => shown(f@) is None,
        }),
{
    let k = factor_for(f.width);
    let jpg = if k > 1 {
        let scaled = downscale_bgra(f.bgra.as_slice(), f.width, f.height, k);
        encode_image(f.width / k, f.height / k, scaled.as_slice())
    } else {
        encode_image(f.width, f.height, f.bgra.as_slice())
    };
    match jpg {
        Some(jpg) => Some(wrap_image(&jpg)),
        None => None,
    }
}

/// A preview is never wider than its limit, and a frame within it is shown as
/// it is.
pub proof fn preview_is_narrow(f: engine::FrameView)
    ensures
        small_image(f).width <= PREVIEW_MAX_WIDTH,
        f.width <= PREVIEW_MAX_WIDTH ==> small_image(f) == f,
{
    let k = shrink_factor(f.width);
    let w = f.width as int;
    if k > 1 {
        assert(w <= PREVIEW_MAX_WIDTH * k);
        let q = w / k;
        assert(q <= 960) by (nonlinear_arith)
            requires
                q == w / k,
                0 <= w <= 960 * k,
                k > 1,
        ;
        assert(q >= 0) by (nonlinear_arith)
            requires
                q == w / k,
                0 <= w,
                k > 1,
        ;
    }
}

} // verus!
