//! Pixel formats: what a camera sends, and the BGRA frames that are made of
//! it.

use crate::scans::{is_grey, jpeg_readable};
use crate::{jpeg, scans};
use vstd::arithmetic::div_mod::lemma_fundamental_div_mod_converse;
use vstd::prelude::*;

verus! {

/// `x` held in the range of a byte.
pub open spec fn clamped(x: int) -> u8 {
    if x < 0 {
        0
    } else if x > 255 {
        255
    } else {
        x as u8
    }
}

/// The byte `j` of the BGRA pixel for a luma byte and two chroma bytes: `u`
/// tells how blue the pixel is, `v` how red.
pub open spec fn yuv_bgra(y: u8, u: u8, v: u8, j: int) -> u8 {
    let c = y - 16;
    let d = u - 128;
    let e = v - 128;
    if j == 0 {
        clamped((298 * c + 516 * d + 128) / 256)
    } else if j == 1 {
        clamped((298 * c - 100 * d - 208 * e + 128) / 256)
    } else if j == 2 {
        clamped((298 * c + 409 * e + 128) / 256)
    } else {
        255
    }
}

/// `x / 256`, rounded down, held in the range of a byte.
fn high_byte(x: i32) -> (r: u8)
    requires
        -0x100_0000 <= x <= 0x100_0000,
    ensures
        r == clamped(x as int / 256),
{
    if x < 0 {
        0
    } else if x >= 0x1_0000 {
        255
    } else {
        (x / 256) as u8
    }
}

/// Appends the BGRA pixel for a luma byte and two chroma bytes.
pub fn yuv_pixel(y: u8, u: u8, v: u8, dst: &mut Vec<u8>)
    ensures
        final(dst)@ == old(dst)@ + Seq::new(4, |j: int| yuv_bgra(y, u, v, j)),
{
    let c = y as i32 - 16;
    let d = u as i32 - 128;
    let e = v as i32 - 128;
    dst.push(high_byte(298 * c + 516 * d + 128));
    dst.push(high_byte(298 * c - 100 * d - 208 * e + 128));
    dst.push(high_byte(298 * c + 409 * e + 128));
    dst.push(255);
    assert(dst@ =~= old(dst)@ + Seq::new(4, |j: int| yuv_bgra(y, u, v, j)));
}

/// Why a frame could not be converted.
#[derive(Clone, Debug)]
pub enum FrameError {
    Jpeg,
    ShortYuyv,
    ShortNv12,
    Unsupported(String),
}

impl FrameError {
    /// What is reported to the user.
    pub open spec fn report(self) -> Seq<char> {
        match self {
            FrameError::Jpeg => "mjpeg decode failed"@,
            FrameError::ShortYuyv => "short YUYV frame"@,
            FrameError::ShortNv12 => "short NV12 frame"@,
            FrameError::Unsupported(other) => "unsupported capture format "@ + other@,
        }
    }

    /// What is reported to the user.
    pub fn message(&self) -> (r: String)
        ensures
            r@ == self.report(),
    {
        match self {
            FrameError::Jpeg => crate::text::copy("mjpeg decode failed"),
            FrameError::ShortYuyv => crate::text::copy("short YUYV frame"),
            FrameError::ShortNv12 => crate::text::copy("short NV12 frame"),
            FrameError::Unsupported(other) => {
                let mut r = crate::text::copy("unsupported capture format ");
                crate::text::append(&mut r, other.as_str());
                r
            },
        }
    }
}

/// RGB pixels as BGRA, opaque.
pub open spec fn rgb_as_bgra(rgb: Seq<u8>) -> Seq<u8> {
    Seq::new(
        (rgb.len() / 3) * 4,
        |i: int| {
            let p = i / 4 * 3;
            if i % 4 == 0 {
                rgb[p + 2]
            } else if i % 4 == 1 {
                rgb[p + 1]
            } else if i % 4 == 2 {
                rgb[p]
            } else {
                255
            }
        },
    )
}

/// Replaces `dst` by RGB pixels as BGRA, opaque.
pub fn rgb_to_bgra(rgb: &[u8], dst: &mut Vec<u8>)
    ensures
        final(dst)@ == rgb_as_bgra(rgb@),
{
    dst.clear();
    let n = rgb.len() / 3;
    let mut k: usize = 0;
    while k < n
        invariant
            n == rgb.len() / 3,
            k <= n,
            dst@.len() == 4 * k,
            forall|i: int| 0 <= i < 4 * k ==> #[trigger] dst@[i] == rgb_as_bgra(rgb@)[i],
        decreases n - k,
    {
        let p = 3 * k;
        dst.push(rgb[p + 2]);
        dst.push(rgb[p + 1]);
        dst.push(rgb[p]);
        dst.push(255);
        k += 1;
    }
    assert(dst@ =~= rgb_as_bgra(rgb@));
}

/// BGRA pixels as RGB.
pub open spec fn bgra_as_rgb(src: Seq<u8>) -> Seq<u8> {
    Seq::new((src.len() / 4) * 3, |i: int| src[i / 3 * 4 + 2 - i % 3])
}

/// BGRA pixels as RGB.
pub fn bgra_to_rgb(src: &[u8]) -> (rgb: Vec<u8>)
    ensures
        rgb@ == bgra_as_rgb(src@),
{
    let n = src.len() / 4;
    let mut rgb: Vec<u8> = Vec::new();
    let mut k: usize = 0;
    while k < n
        invariant
            n == src.len() / 4,
            k <= n,
            rgb@.len() == 3 * k,
            forall|i: int| 0 <= i < 3 * k ==> #[trigger] rgb@[i] == bgra_as_rgb(src@)[i],
        decreases n - k,
    {
        let p = 4 * k;
        rgb.push(src[p + 2]);
        rgb.push(src[p + 1]);
        rgb.push(src[p]);
        k += 1;
    }
    assert(rgb@ =~= bgra_as_rgb(src@));
    rgb
}

/// RGB pixels come back from BGRA as they were.
pub proof fn rgb_comes_back(rgb: Seq<u8>)
    requires
        rgb.len() % 3 == 0,
    ensures
        bgra_as_rgb(rgb_as_bgra(rgb)) == rgb,
{
    let b = rgb_as_bgra(rgb);
    assert(bgra_as_rgb(b).len() == rgb.len());
    assert forall|i: int| 0 <= i < rgb.len() implies #[trigger] bgra_as_rgb(b)[i] == rgb[i] by {
        let j = i / 3 * 4 + 2 - i % 3;
        assert(j / 4 == i / 3 && j % 4 == 2 - i % 3);
    }
    assert(bgra_as_rgb(b) =~= rgb);
}

/// Grey pixels as BGRA, opaque.
pub open spec fn grey_as_bgra(grey: Seq<u8>) -> Seq<u8> {
    Seq::new(
        grey.len() * 4,
        |i: int|
            if i % 4 == 3 {
                255
            } else {
                grey[i / 4]
            },
    )
}

/// Replaces `dst` by grey pixels as BGRA, opaque.
pub fn grey_to_bgra(grey: &[u8], dst: &mut Vec<u8>)
    ensures
        final(dst)@ == grey_as_bgra(grey@),
{
    dst.clear();
    let n = grey.len();
    let mut k: usize = 0;
    while k < n
        invariant
            n == grey@.len(),
            k <= n,
            dst@.len() == 4 * k,
            forall|i: int| 0 <= i < 4 * k ==> #[trigger] dst@[i] == grey_as_bgra(grey@)[i],
        decreases n - k,
    {
        dst.push(grey[k]);
        dst.push(grey[k]);
        dst.push(grey[k]);
        dst.push(255);
        k += 1;
    }
    assert(dst@ =~= grey_as_bgra(grey@));
}

/// The decoded bytes of a JPEG image as BGRA: one byte for each pixel where the
/// image is grey, three otherwise.
pub open spec fn decoded_as_bgra(jpg: Seq<u8>, bytes: Seq<u8>) -> Seq<u8> {
    if scans::grey(jpg) {
        grey_as_bgra(bytes)
    } else {
        rgb_as_bgra(bytes)
    }
}

/// A JPEG image as BGRA; none where it cannot be decoded.
pub open spec fn jpeg_as_bgra(jpg: Seq<u8>) -> Option<Seq<u8>> {
    if scans::readable(jpg) {
        match jpeg::jpeg_pixels(jpg) {
            Some(bytes) => Some(decoded_as_bgra(jpg, bytes)),
            None => None,
        }
    } else {
        None
    }
}

/// Replaces `dst` by the decoded bytes of a JPEG image as BGRA.
pub fn decoded_to_bgra(jpg: &[u8], bytes: &[u8], dst: &mut Vec<u8>)
    ensures
        final(dst)@ == decoded_as_bgra(jpg@, bytes@),
{
    if is_grey(jpg) {
        grey_to_bgra(bytes, dst);
    } else {
        rgb_to_bgra(bytes, dst);
    }
}

/// Decodes a JPEG image into BGRA. Where it cannot be decoded, `dst` stays as
/// it was. An image with a fault at which the decoder panics, unless it comes
/// upon an error first, is not handed to it and cannot be decoded.
pub fn decode_mjpg(jpg: &[u8], dst: &mut Vec<u8>) -> (r: Result<(), FrameError>)
    ensures
        (match jpeg_as_bgra(jpg@) {
            Some(image) => r is Ok && final(dst)@ == image,
            None => r == Err::<(), _>(FrameError::Jpeg) && final(dst)@ == old(dst)@,
        }),
{
    if !jpeg_readable(jpg) {
        return Err(FrameError::Jpeg);
    }
    match jpeg::decode(jpg) {
        Ok(bytes) => {
            decoded_to_bgra(jpg, bytes.as_slice(), dst);
            Ok(())
        },
        Err(_) => Err(FrameError::Jpeg),
    }
}

/// YUYV pixels as BGRA: two pixels in four bytes, with one pair of chroma
/// bytes.
pub open spec fn yuyv_as_bgra(src: Seq<u8>) -> Seq<u8> {
    Seq::new(
        (src.len() / 4) * 8,
        |i: int| {
            let p = i / 8 * 4;
            yuv_bgra(src[p + i % 8 / 4 * 2], src[p + 1], src[p + 3], i % 4)
        },
    )
}

/// The bytes that a YUYV frame needs at least, in the 32 bits that they are
/// computed in.
pub open spec fn yuyv_need(width: u32, height: u32) -> int {
    (width * height * 2) % 0x1_0000_0000
}

/// Four more bytes of YUYV give two more pixels.
proof fn yuyv_grows(src: Seq<u8>, before: Seq<u8>, after: Seq<u8>, k: int)
    requires
        0 <= k < src.len() / 4,
        before == yuyv_as_bgra(src).take(8 * k),
        after == before + Seq::new(
            4,
            |j: int| yuv_bgra(src[4 * k], src[4 * k + 1], src[4 * k + 3], j),
        ) + Seq::new(4, |j: int| yuv_bgra(src[4 * k + 2], src[4 * k + 1], src[4 * k + 3], j)),
    ensures
        after == yuyv_as_bgra(src).take(8 * (k + 1)),
{
    let whole = yuyv_as_bgra(src);
    assert(before.len() == 8 * k);
    assert forall|i: int| 0 <= i < 8 * (k + 1) implies after[i] == whole[i] by {
        if i < 8 * k {
            assert(after[i] == before[i]);
        } else {
            let j = i - 8 * k;
            assert(i / 8 == k && i % 8 == j && i % 4 == j % 4);
        }
    }
    assert(after =~= whole.take(8 * (k + 1)));
}

/// Converts YUYV pixels into BGRA. Where bytes are missing, `dst` stays as it
/// was.
pub fn yuyv_to_bgra(src: &[u8], dst: &mut Vec<u8>, width: u32, height: u32) -> (r: Result<
    (),
    FrameError,
>)
    ensures
        if src@.len() < yuyv_need(width, height) {
            r == Err::<(), _>(FrameError::ShortYuyv) && final(dst)@ == old(dst)@
        } else {
            r is Ok && final(dst)@ == yuyv_as_bgra(src@)
        },
{
    proof {
        assert(width * height <= 0xffff_ffff * 0xffff_ffff) by (nonlinear_arith)
            requires
                0 <= width <= 0xffff_ffff,
                0 <= height <= 0xffff_ffff,
        ;
    }
    let need = (width as u128 * height as u128 * 2) % 0x1_0000_0000;
    if (src.len() as u128) < need {
        return Err(FrameError::ShortYuyv);
    }
    dst.clear();
    let n = src.len() / 4;
    let mut k: usize = 0;
    while k < n
        invariant
            n == src.len() / 4,
            k <= n,
            dst@.len() == 8 * k,
            dst@ =~= yuyv_as_bgra(src@).take(8 * k),
        decreases n - k,
    {
        let p = 4 * k;
        let ghost before = dst@;
        yuv_pixel(src[p], src[p + 1], src[p + 3], dst);
        yuv_pixel(src[p + 2], src[p + 1], src[p + 3], dst);
        proof {
            yuyv_grows(src@, before, dst@, k as int);
        }
        k += 1;
    }
    assert(dst@ =~= yuyv_as_bgra(src@));
    Ok(())
}

/// NV12 pixels as BGRA: a plane of luma bytes, then a plane of chroma pairs,
/// one for each square of four pixels.
pub open spec fn nv12_as_bgra(src: Seq<u8>, width: u32, height: u32) -> Seq<u8> {
    let w = width as int;
    let plane = width * height;
    Seq::new(
        (plane * 4) as nat,
        |i: int| {
            let p = i / 4;
            let uv = plane + p / w / 2 * w + p % w / 2 * 2;
            yuv_bgra(src[p], src[uv], src[uv + 1], i % 4)
        },
    )
}

/// Whether a YUYV frame and an NV12 frame hold the same picture: each pixel has
/// the same luma byte and the same pair of chroma bytes in both.
pub open spec fn same_picture(yuyv: Seq<u8>, nv12: Seq<u8>, width: u32, height: u32) -> bool {
    let w = width as int;
    let plane = width * height;
    &&& yuyv.len() == 2 * plane
    &&& forall|p: int|
        0 <= p < plane ==> {
            let uv = plane + p / w / 2 * w + p % w / 2 * 2;
            &&& #[trigger] nv12[p] == yuyv[2 * p]
            &&& nv12[uv] == yuyv[p / 2 * 4 + 1]
            &&& nv12[uv + 1] == yuyv[p / 2 * 4 + 3]
        }
}

/// A picture gives the same BGRA pixels whether it comes as YUYV or as NV12.
pub proof fn formats_agree(yuyv: Seq<u8>, nv12: Seq<u8>, width: u32, height: u32)
    requires
        width % 2 == 0,
        same_picture(yuyv, nv12, width, height),
    ensures
        yuyv_as_bgra(yuyv) == nv12_as_bgra(nv12, width, height),
{
    let (y, n) = (yuyv_as_bgra(yuyv), nv12_as_bgra(nv12, width, height));
    let plane = width * height;
    let half = width as int / 2;
    let pairs = half * height;
    assert(plane == 2 * pairs && 0 <= plane) by (nonlinear_arith)
        requires
            plane == width * height,
            width == 2 * half,
            pairs == half * height,
            0 <= width,
            0 <= height,
    ;
    assert(y.len() == n.len());
    assert forall|i: int| 0 <= i < y.len() implies y[i] == n[i] by {
        let p = i / 4;
        assert(0 <= p < plane);
        assert(nv12[p] == yuyv[2 * p]);
        assert(i / 8 * 4 + i % 8 / 4 * 2 == 2 * p);
        assert(i / 8 == p / 2);
    }
    assert(y =~= n);
}

/// Whether `len` bytes are too few for an NV12 frame.
pub open spec fn nv12_short(len: nat, width: u32, height: u32) -> bool {
    len < width * height * 3 / 2
}

/// Whether `len` bytes hold the last chroma pair of an NV12 frame. A frame that
/// is not short holds it where both sides are even.
pub open spec fn nv12_chroma(len: nat, width: u32, height: u32) -> bool {
    width > 0 && height > 0 ==> width * height + (height - 1) / 2 * width + (width - 1) / 2 * 2 + 1
        < len
}

/// A frame with even sides that is not short holds its last chroma pair.
pub proof fn even_frames_hold_chroma(len: nat, width: u32, height: u32)
    requires
        width % 2 == 0,
        height % 2 == 0,
        !nv12_short(len, width, height),
    ensures
        nv12_chroma(len, width, height),
{
    if width > 0 && height > 0 {
        let w = width as int;
        let k = height as int / 2;
        assert(height == 2 * k);
        assert(w * (2 * k) == 2 * (k * w)) by (nonlinear_arith);
        assert((k - 1) * w == k * w - w) by (nonlinear_arith);
        assert((height - 1) / 2 == k - 1);
        assert((width - 1) / 2 * 2 == w - 2);
    }
}

/// Whether an NV12 frame can be converted, or be found too short: the frames
/// with an odd side may lack their last chroma pair.
pub fn nv12_readable(len: usize, width: u32, height: u32) -> (r: bool)
    ensures
        r == (nv12_short(len as nat, width, height) || nv12_chroma(len as nat, width, height)),
{
    proof {
        product_fits(width, height);
    }
    let plane = width as u128 * height as u128;
    if (len as u128) < plane * 3 / 2 {
        return true;
    }
    if width == 0 || height == 0 {
        return true;
    }
    let rows = ((height - 1) / 2) as u128;
    proof {
        assert(0 <= rows * width <= 0xffff_ffff * 0xffff_ffff) by (nonlinear_arith)
            requires
                0 <= rows <= 0xffff_ffff,
                0 <= width <= 0xffff_ffff,
        ;
    }
    plane + rows * width as u128 + ((width - 1) / 2 * 2) as u128 + 1 < len as u128
}

/// The product of two 32-bit numbers needs 64 bits.
proof fn product_fits(a: u32, b: u32)
    ensures
        0 <= a * b <= 0xffff_fffe_0000_0001,
{
    assert(0 <= a * b <= 0xffff_ffff * 0xffff_ffff) by (nonlinear_arith)
        requires
            0 <= a <= 0xffff_ffff,
            0 <= b <= 0xffff_ffff,
    ;
}

/// Where the pixel in a row and a column stands, and its chroma pair.
proof fn nv12_place(len: nat, width: u32, height: u32, row: int, col: int)
    requires
        !nv12_short(len, width, height),
        nv12_chroma(len, width, height),
        0 <= row < height,
        0 <= col < width,
    ensures
        ({
            let w = width as int;
            let p = row * w + col;
            &&& 0 <= row * w
            &&& p < width * height
            &&& p / w == row
            &&& p % w == col
            &&& 0 <= row / 2 * w
            &&& width * height + row / 2 * w + col / 2 * 2 + 1 < len
        }),
{
    let w = width as int;
    let h = height as int;
    let p = row * w + col;
    lemma_fundamental_div_mod_converse(p, w, row, col);
    let up = row / 2;
    let top = (h - 1) / 2;
    assert(0 <= row * w && row * w + col < w * h && 0 <= up * w <= top * w) by (nonlinear_arith)
        requires
            0 <= row < h,
            0 <= col < w,
            0 <= up <= top,
    ;
}

/// One more pixel of NV12.
proof fn nv12_grows(
    src: Seq<u8>,
    width: u32,
    height: u32,
    before: Seq<u8>,
    after: Seq<u8>,
    row: int,
    col: int,
)
    requires
        !nv12_short(src.len(), width, height),
        nv12_chroma(src.len(), width, height),
        0 <= row < height,
        0 <= col < width,
        before == nv12_as_bgra(src, width, height).take(4 * (row * width + col)),
        after == before + Seq::new(
            4,
            |j: int|
                yuv_bgra(
                    src[row * width + col],
                    src[width * height + row / 2 * width + col / 2 * 2],
                    src[width * height + row / 2 * width + col / 2 * 2 + 1],
                    j,
                ),
        ),
    ensures
        after == nv12_as_bgra(src, width, height).take(4 * (row * width + col + 1)),
{
    nv12_place(src.len(), width, height, row, col);
    let whole = nv12_as_bgra(src, width, height);
    let p = row * width + col;
    assert(before.len() == 4 * p);
    assert forall|i: int| 0 <= i < 4 * (p + 1) implies after[i] == whole[i] by {
        if i < 4 * p {
            assert(after[i] == before[i]);
        } else {
            assert(i / 4 == p && i % 4 == i - 4 * p);
        }
    }
    assert(after =~= whole.take(4 * (p + 1)));
}

/// Converts NV12 pixels into BGRA. Where bytes are missing, `dst` stays as it
/// was.
pub fn nv12_to_bgra(src: &[u8], dst: &mut Vec<u8>, width: u32, height: u32) -> (r: Result<
    (),
    FrameError,
>)
    requires
        nv12_short(src@.len(), width, height) || nv12_chroma(src@.len(), width, height),
    ensures
        if nv12_short(src@.len(), width, height) {
            r == Err::<(), _>(FrameError::ShortNv12) && final(dst)@ == old(dst)@
        } else {
            r is Ok && final(dst)@ == nv12_as_bgra(src@, width, height)
        },
{
    proof {
        product_fits(width, height);
    }
    let plane = width as u128 * height as u128;
    if (src.len() as u128) < plane * 3 / 2 {
        return Err(FrameError::ShortNv12);
    }
    let plane = plane as usize;
    let len = src.len();
    let w = width as usize;
    dst.clear();
    let ghost whole = nv12_as_bgra(src@, width, height);
    assert(dst@ =~= whole.take(0));
    let mut row: u32 = 0;
    let mut start: usize = 0;
    while row < height
        invariant
            row <= height,
            start == row * width,
            w == width,
            len == src@.len(),
            plane == width * height,
            whole == nv12_as_bgra(src@, width, height),
            !nv12_short(src@.len(), width, height),
            nv12_chroma(src@.len(), width, height),
            dst@ == whole.take(4 * start),
        decreases height - row,
    {
        let mut col: usize = 0;
        proof {
            assert(row * width + width <= width * height) by (nonlinear_arith)
                requires
                    0 <= row < height,
                    0 <= width,
            ;
        }
        while col < w
            invariant
                row < height,
                col <= w,
                start == row * width,
                w == width,
                len == src@.len(),
                start + w <= plane,
                plane == width * height,
                whole == nv12_as_bgra(src@, width, height),
                !nv12_short(src@.len(), width, height),
                nv12_chroma(src@.len(), width, height),
                dst@ == whole.take(4 * (start + col)),
            decreases w - col,
        {
            proof {
                nv12_place(src@.len(), width, height, row as int, col as int);
            }
            let uv = plane + (row / 2) as usize * w + col / 2 * 2;
            let ghost before = dst@;
            yuv_pixel(src[start + col], src[uv], src[uv + 1], dst);
            proof {
                nv12_grows(src@, width, height, before, dst@, row as int, col as int);
            }
            col += 1;
        }
        start += w;
        row += 1;
        proof {
            assert((row - 1) * width + width == row * width) by (nonlinear_arith);
        }
    }
    proof {
        assert(height * width == width * height) by (nonlinear_arith);
        assert(dst@ =~= whole);
    }
    Ok(())
}

/// The sum of byte `c` over `n` pixels in a row, the first of them at `base`.
pub open spec fn row_sum(src: Seq<u8>, base: int, c: int, n: nat) -> nat
    decreases n,
{
    if n == 0 {
        0
    } else {
        row_sum(src, base, c, (n - 1) as nat) + src[base + (n - 1) * 4 + c] as nat
    }
}

/// The sum of byte `c` over the first `n` rows of a square with side `f` of an
/// image that is `w` wide.
pub open spec fn block_sum(
    src: Seq<u8>,
    w: int,
    f: nat,
    top: int,
    left: int,
    c: int,
    n: nat,
) -> nat
    decreases n,
{
    if n == 0 {
        0
    } else {
        block_sum(src, w, f, top, left, c, (n - 1) as nat) + row_sum(
            src,
            ((top + n - 1) * w + left) * 4,
            c,
            f,
        )
    }
}

/// A BGRA image with each square of side `f` made one pixel: its mean, rounded
/// down, and opaque.
pub open spec fn shrunk(src: Seq<u8>, w: u32, h: u32, f: u32) -> Seq<u8> {
    let nw = w as int / f as int;
    let nh = h as int / f as int;
    Seq::new(
        (nw * nh * 4) as nat,
        |i: int| shrunk_byte(src, w as int, f as int, i / 4 / nw, i / 4 % nw, i % 4),
    )
}

/// The byte `c` of the pixel in a row and a column of the smaller image.
pub open spec fn shrunk_byte(src: Seq<u8>, w: int, f: int, row: int, col: int, c: int) -> u8 {
    if c == 3 {
        255
    } else {
        (block_sum(src, w, f as nat, row * f, col * f, c, f as nat) as int / (f * f)) as u8
    }
}

/// Whether the image has all the bytes that shrinking it reads.
pub open spec fn covers(len: nat, w: u32, h: u32, f: u32) -> bool {
    let nw = w as int / f as int;
    let nh = h as int / f as int;
    nw > 0 && nh > 0 ==> ((nh * f - 1) * w + nw * f - 1) * 4 + 3 <= len
}

/// Whether an image can be shrunk by `f`: the sums of a square fit 32 bits, and
/// no byte is missing.
pub open spec fn shrinkable(len: nat, w: u32, h: u32, f: u32) -> bool {
    &&& 0 < f
    &&& f * f * 255 <= u32::MAX
    &&& covers(len, w, h, f)
}

/// The largest side of a square whose sums fit 32 bits.
proof fn side_bound(f: u32)
    ensures
        f * f * 255 <= u32::MAX <==> f <= 4104,
{
    if f <= 4104 {
        assert(f * f <= 4104 * 4104) by (nonlinear_arith)
            requires
                0 <= f <= 4104,
        ;
    } else {
        assert(f * f >= 4105 * 4105) by (nonlinear_arith)
            requires
                f >= 4105,
        ;
    }
}

/// Whether an image can be shrunk by `f`.
pub fn can_shrink(len: usize, w: u32, h: u32, f: u32) -> (r: bool)
    ensures
        r == shrinkable(len as nat, w, h, f),
{
    proof {
        side_bound(f);
    }
    if f == 0 || f > 4104 {
        return false;
    }
    let nw = (w / f) as u128;
    let nh = (h / f) as u128;
    if nw == 0 || nh == 0 {
        return true;
    }
    proof {
        assert(1 <= nh * f <= h) by (nonlinear_arith)
            requires
                nh == h as int / f as int,
                f > 0,
                nh >= 1,
        ;
        assert(1 <= nw * f <= w) by (nonlinear_arith)
            requires
                nw == w as int / f as int,
                f > 0,
                nw >= 1,
        ;
        let rows = nh * f - 1;
        assert(0 <= rows * w <= 0xffff_ffff * 0xffff_ffff) by (nonlinear_arith)
            requires
                0 <= rows <= 0xffff_ffff,
                0 <= w <= 0xffff_ffff,
        ;
    }
    ((nh * f as u128 - 1) * w as u128 + nw * f as u128 - 1) * 4 + 3 <= len as u128
}

proof fn row_sum_bound(src: Seq<u8>, base: int, c: int, n: nat)
    ensures
        row_sum(src, base, c, n) <= 255 * n,
    decreases n,
{
    if n > 0 {
        row_sum_bound(src, base, c, (n - 1) as nat);
    }
}

proof fn block_sum_bound(src: Seq<u8>, w: int, f: nat, top: int, left: int, c: int, n: nat)
    ensures
        block_sum(src, w, f, top, left, c, n) <= 255 * f * n,
    decreases n,
{
    if n > 0 {
        block_sum_bound(src, w, f, top, left, c, (n - 1) as nat);
        row_sum_bound(src, ((top + n - 1) * w + left) * 4, c, f);
        assert(255 * f * (n - 1) + 255 * f == 255 * f * n) by (nonlinear_arith);
    }
}

/// The sums of the three colours over a square.
fn block_sums(src: &[u8], w: usize, f: usize, top: usize, left: usize) -> (r: (u32, u32, u32))
    requires
        0 < f <= 4104,
        ((top + f - 1) * w + left + f - 1) * 4 + 3 <= src@.len(),
    ensures
        r.0 == block_sum(src@, w as int, f as nat, top as int, left as int, 0, f as nat),
        r.1 == block_sum(src@, w as int, f as nat, top as int, left as int, 1, f as nat),
        r.2 == block_sum(src@, w as int, f as nat, top as int, left as int, 2, f as nat),
{
    let len = src.len();
    let mut b: u32 = 0;
    let mut g: u32 = 0;
    let mut r: u32 = 0;
    let mut dy: usize = 0;
    proof {
        assert(top * w + left <= (top + f - 1) * w + left + f - 1) by (nonlinear_arith)
            requires
                0 < f,
                0 <= w,
                0 <= top,
        ;
        assert(top * w >= 0) by (nonlinear_arith)
            requires
                0 <= w,
                0 <= top,
        ;
    }
    let mut first: usize = top * w + left;
    while dy < f
        invariant
            0 < f <= 4104,
            dy <= f,
            len == src@.len(),
            ((top + f - 1) * w + left + f - 1) * 4 + 3 <= len,
            dy < f ==> first == (top + dy) * w + left,
            b == block_sum(src@, w as int, f as nat, top as int, left as int, 0, dy as nat),
            g == block_sum(src@, w as int, f as nat, top as int, left as int, 1, dy as nat),
            r == block_sum(src@, w as int, f as nat, top as int, left as int, 2, dy as nat),
        decreases f - dy,
    {
        let ghost base = ((top + dy) * w + left) * 4;
        proof {
            assert((top + dy) * w + left + f - 1 <= (top + f - 1) * w + left + f - 1)
                by (nonlinear_arith)
                requires
                    dy < f,
                    0 <= w,
            ;
            let n = (dy + 1) as nat;
            block_sum_bound(src@, w as int, f as nat, top as int, left as int, 0, n);
            block_sum_bound(src@, w as int, f as nat, top as int, left as int, 1, n);
            block_sum_bound(src@, w as int, f as nat, top as int, left as int, 2, n);
            assert(255 * f * n <= 255 * 4104 * 4104) by (nonlinear_arith)
                requires
                    0 < f <= 4104,
                    n <= f,
            ;
        }
        let ghost (b0, g0, r0) = (b as nat, g as nat, r as nat);
        let mut dx: usize = 0;
        while dx < f
            invariant
                dx <= f,
                dy < f,
                0 < f <= 4104,
                len == src@.len(),
                first * 4 == base,
                (first + f - 1) * 4 + 3 <= len,
                b == b0 + row_sum(src@, base, 0, dx as nat),
                g == g0 + row_sum(src@, base, 1, dx as nat),
                r == r0 + row_sum(src@, base, 2, dx as nat),
                b0 + row_sum(src@, base, 0, f as nat) <= 255 * 4104 * 4104,
                g0 + row_sum(src@, base, 1, f as nat) <= 255 * 4104 * 4104,
                r0 + row_sum(src@, base, 2, f as nat) <= 255 * 4104 * 4104,
            decreases f - dx,
        {
            let p = (first + dx) * 4;
            proof {
                row_sum_grows(src@, base, 0, (dx + 1) as nat, f as nat);
                row_sum_grows(src@, base, 1, (dx + 1) as nat, f as nat);
                row_sum_grows(src@, base, 2, (dx + 1) as nat, f as nat);
            }
            b += src[p] as u32;
            g += src[p + 1] as u32;
            r += src[p + 2] as u32;
            dx += 1;
        }
        dy += 1;
        if dy < f {
            proof {
                assert((top + dy - 1) * w + w == (top + dy) * w) by (nonlinear_arith);
                assert((top + dy) * w <= (top + f - 1) * w) by (nonlinear_arith)
                    requires
                        dy < f,
                        0 <= w,
                ;
            }
            first += w;
        }
    }
    (b, g, r)
}

proof fn row_sum_grows(src: Seq<u8>, base: int, c: int, m: nat, n: nat)
    requires
        m <= n,
    ensures
        row_sum(src, base, c, m) <= row_sum(src, base, c, n),
    decreases n,
{
    if m < n {
        row_sum_grows(src, base, c, m, (n - 1) as nat);
    }
}

/// A square of the smaller image lies inside the larger one.
proof fn square_inside(len: nat, w: u32, h: u32, f: u32, row: int, col: int)
    requires
        f > 0,
        covers(len, w, h, f),
        0 <= row < h as int / f as int,
        0 <= col < w as int / f as int,
    ensures
        0 <= row * f <= h,
        0 <= col * f <= w,
        row * f + f <= h,
        ((row * f + f - 1) * w + col * f + f - 1) * 4 + 3 <= len,
{
    let nw = w as int / f as int;
    let nh = h as int / f as int;
    assert(nh * f <= h && nw * f <= w) by (nonlinear_arith)
        requires
            nw == w as int / f as int,
            nh == h as int / f as int,
            f > 0,
    ;
    assert(0 <= row * f && row * f + f <= nh * f && 0 <= col * f && col * f + f <= nw * f)
        by (nonlinear_arith)
        requires
            f > 0,
            0 <= row < nh,
            0 <= col < nw,
    ;
    let low = row * f + f - 1;
    let last = nh * f - 1;
    assert(low * w <= last * w) by (nonlinear_arith)
        requires
            low <= last,
            0 <= w,
    ;
}

/// One more pixel of the smaller image.
proof fn shrunk_grows(
    src: Seq<u8>,
    w: u32,
    h: u32,
    f: u32,
    before: Seq<u8>,
    after: Seq<u8>,
    row: int,
    col: int,
)
    requires
        f > 0,
        0 <= row < h as int / f as int,
        0 <= col < w as int / f as int,
        before == shrunk(src, w, h, f).take(4 * (row * (w as int / f as int) + col)),
        after == before.push(shrunk_byte(src, w as int, f as int, row, col, 0)).push(
            shrunk_byte(src, w as int, f as int, row, col, 1),
        ).push(shrunk_byte(src, w as int, f as int, row, col, 2)).push(255),
    ensures
        after == shrunk(src, w, h, f).take(4 * (row * (w as int / f as int) + col + 1)),
{
    let whole = shrunk(src, w, h, f);
    let nw = w as int / f as int;
    let nh = h as int / f as int;
    let p = row * nw + col;
    lemma_fundamental_div_mod_converse(p, nw, row, col);
    assert(0 <= p < nw * nh) by (nonlinear_arith)
        requires
            p == row * nw + col,
            0 <= row < nh,
            0 <= col < nw,
    ;
    assert(before.len() == 4 * p);
    assert forall|i: int| 0 <= i < 4 * (p + 1) implies after[i] == whole[i] by {
        if i < 4 * p {
            assert(after[i] == before[i]);
        } else {
            assert(i / 4 == p && i % 4 == i - 4 * p);
        }
    }
    assert(after =~= whole.take(4 * (p + 1)));
}

/// The mean of a colour over a square.
fn mean(sum: u32, f: u32) -> (r: u8)
    requires
        0 < f <= 4104,
        sum <= 255 * f * f,
    ensures
        r == sum as int / (f * f),
{
    proof {
        assert(0 < f * f <= 4104 * 4104) by (nonlinear_arith)
            requires
                0 < f <= 4104,
        ;
        let n = f * f;
        assert(255 * f * f == 255 * n) by (nonlinear_arith)
            requires
                n == f * f,
        ;
        assert(0 <= sum as int / n <= 255) by (nonlinear_arith)
            requires
                n > 0,
                0 <= sum <= 255 * n,
        ;
    }
    (sum / (f * f)) as u8
}

/// Shrinks a BGRA image by a whole factor, taking the mean of each square.
pub fn downscale_bgra(src: &[u8], w: u32, h: u32, f: u32) -> (out: Vec<u8>)
    requires
        shrinkable(src@.len(), w, h, f),
    ensures
        out@ == shrunk(src@, w, h, f),
{
    let ghost whole = shrunk(src@, w, h, f);
    let nw = w / f;
    let nh = h / f;
    let mut out: Vec<u8> = Vec::new();
    proof {
        side_bound(f);
        assert(0 * nw == 0) by (nonlinear_arith);
        assert(out@ =~= whole.take(0));
    }
    let mut row: u32 = 0;
    while row < nh
        invariant
            row <= nh,
            nw == w as int / f as int,
            nh == h as int / f as int,
            0 < f <= 4104,
            covers(src@.len(), w, h, f),
            whole == shrunk(src@, w, h, f),
            out@ == whole.take(4 * (row * nw)),
        decreases nh - row,
    {
        let mut col: u32 = 0;
        while col < nw
            invariant
                row < nh,
                col <= nw,
                nw == w as int / f as int,
                nh == h as int / f as int,
                0 < f <= 4104,
                covers(src@.len(), w, h, f),
                whole == shrunk(src@, w, h, f),
                out@ == whole.take(4 * (row * nw + col)),
            decreases nw - col,
        {
            proof {
                square_inside(src@.len(), w, h, f, row as int, col as int);
            }
            let top = (row * f) as usize;
            let left = (col * f) as usize;
            let (b, g, r) = block_sums(src, w as usize, f as usize, top, left);
            proof {
                let (t, l) = (row * f, col * f);
                block_sum_bound(src@, w as int, f as nat, t, l, 0, f as nat);
                block_sum_bound(src@, w as int, f as nat, t, l, 1, f as nat);
                block_sum_bound(src@, w as int, f as nat, t, l, 2, f as nat);
            }
            let ghost before = out@;
            out.push(mean(b, f));
            out.push(mean(g, f));
            out.push(mean(r, f));
            out.push(255);
            proof {
                shrunk_grows(src@, w, h, f, before, out@, row as int, col as int);
            }
            col += 1;
        }
        row += 1;
        proof {
            assert((row - 1) * nw + nw == row * nw) by (nonlinear_arith);
        }
    }
    proof {
        assert(nh * nw == nw * nh) by (nonlinear_arith);
        assert(nw * nh >= 0) by (nonlinear_arith)
            requires
                nw >= 0,
                nh >= 0,
        ;
        assert(out@ =~= whole);
    }
    out
}

/// Whether every byte `c` of an image is `v`.
pub open spec fn uniform(src: Seq<u8>, c: int, v: u8) -> bool {
    forall|i: int| 0 <= i < src.len() && i % 4 == c ==> #[trigger] src[i] == v
}

proof fn uniform_row(src: Seq<u8>, base: int, c: int, n: nat, v: u8)
    requires
        0 <= c < 4,
        0 <= base,
        base % 4 == 0,
        n > 0 ==> base + (n - 1) * 4 + c < src.len(),
        uniform(src, c, v),
    ensures
        row_sum(src, base, c, n) == n * v,
    decreases n,
{
    if n > 0 {
        uniform_row(src, base, c, (n - 1) as nat, v);
        let i = base + (n - 1) * 4 + c;
        assert(i % 4 == c);
        assert((n - 1) * v + v == n * v) by (nonlinear_arith);
    } else {
        assert(n * v == 0) by (nonlinear_arith)
            requires
                n == 0,
        ;
    }
}

proof fn uniform_block(
    src: Seq<u8>,
    w: int,
    f: nat,
    top: int,
    left: int,
    c: int,
    n: nat,
    v: u8,
)
    requires
        0 <= c < 3,
        0 <= top,
        0 <= left,
        0 <= w,
        0 < f,
        n <= f,
        ((top + f - 1) * w + left + f - 1) * 4 + 3 <= src.len(),
        uniform(src, c, v),
    ensures
        block_sum(src, w, f, top, left, c, n) == n * f * v,
    decreases n,
{
    if n > 0 {
        uniform_block(src, w, f, top, left, c, (n - 1) as nat, v);
        let row = top + n - 1;
        let last = top + f - 1;
        assert(0 <= row * w <= last * w) by (nonlinear_arith)
            requires
                0 <= row <= last,
                0 <= w,
        ;
        uniform_row(src, (row * w + left) * 4, c, f, v);
        assert((n - 1) * f * v + f * v == n * f * v) by (nonlinear_arith);
    } else {
        assert(n * f * v == 0) by (nonlinear_arith)
            requires
                n == 0,
        ;
    }
}

/// An image of one colour keeps it when it is shrunk.
pub proof fn shrinking_keeps_colour(src: Seq<u8>, w: u32, h: u32, f: u32, c: int, v: u8)
    requires
        0 <= c < 3,
        shrinkable(src.len(), w, h, f),
        uniform(src, c, v),
    ensures
        uniform(shrunk(src, w, h, f), c, v),
{
    let out = shrunk(src, w, h, f);
    let nw = w as int / f as int;
    let nh = h as int / f as int;
    assert forall|i: int| 0 <= i < out.len() && i % 4 == c implies #[trigger] out[i] == v by {
        let p = i / 4;
        assert(nw * nh > p >= 0);
        assert(nw > 0) by (nonlinear_arith)
            requires
                nw * nh > 0,
                nw >= 0,
        ;
        let row = p / nw;
        let col = p % nw;
        assert(0 <= row < nh && 0 <= col < nw) by (nonlinear_arith)
            requires
                0 <= p < nw * nh,
                nw > 0,
                row == p / nw,
                col == p % nw,
        ;
        square_inside(src.len(), w, h, f, row, col);
        uniform_block(src, w as int, f as nat, row * f, col * f, c, f as nat, v);
        let n = f * f;
        assert(n > 0) by (nonlinear_arith)
            requires
                n == f * f,
                f > 0,
        ;
        assert((n * v) / n == v) by (nonlinear_arith)
            requires
                n > 0,
        ;
    }
}

/// Whatever format it comes from, an image is opaque, and so it is when it is
/// shrunk.
pub proof fn images_are_opaque(src: Seq<u8>, width: u32, height: u32, f: u32)
    ensures
        uniform(rgb_as_bgra(src), 3, 255),
        uniform(yuyv_as_bgra(src), 3, 255),
        uniform(nv12_as_bgra(src, width, height), 3, 255),
        uniform(shrunk(src, width, height, f), 3, 255),
{
}

} // verus!
